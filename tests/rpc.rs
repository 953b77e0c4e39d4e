use martinez::rpc::{call_gas_limit, estimate_gas_limit, EthApiServerImpl, RequestError};
use martinez::state::{Account, StateDb, U256};

fn api() -> EthApiServerImpl {
    let a = [0xA; 20];
    let mut state = StateDb::new();
    let acc = |balance: u128, nonce: u64| Account {
        nonce,
        balance: U256::from_u128(balance),
        code_hash: [3; 32],
        incarnation: 1,
    };
    state.apply_block(1, &vec![(a, Some(acc(40, 1)))], &vec![(a, 1, [1; 32], U256::from_u128(0xAA))]);
    state.apply_block(4, &vec![(a, Some(acc(90, 2)))], &vec![]);
    EthApiServerImpl { state, finish_progress: Some(4) }
}

#[test]
fn balances_and_nonces_by_block() {
    let api = api();
    let a = [0xA; 20];
    assert_eq!(api.get_balance(&a, 0), U256::zero());
    assert_eq!(api.get_balance(&a, 2), U256::from_u128(40));
    assert_eq!(api.get_balance(&a, 4), U256::from_u128(90));
    assert_eq!(api.get_transaction_count(&a, 3), 1);
    assert_eq!(api.get_transaction_count(&[0xB; 20], 3), 0);
    assert_eq!(api.get_storage_at(&a, &[1; 32], 1), U256::from_u128(0xAA));
    assert_eq!(api.get_storage_at(&a, &[1; 32], 0), U256::zero());
    assert_eq!(api.block_number(), 4);
    let empty = EthApiServerImpl { state: StateDb::new(), finish_progress: None };
    assert_eq!(empty.block_number(), 0);
}

#[test]
fn estimate_gas_needs_a_budget() {
    assert_eq!(estimate_gas_limit(None), Err(RequestError::GasNotSet));
    assert_eq!(estimate_gas_limit(Some(U256::from_u128(21000))), Ok(21000));
    let big = U256 { hi: 5, lo: (7u128 << 64) | 9 };
    assert_eq!(estimate_gas_limit(Some(big)), Ok(9));
    assert_eq!(call_gas_limit(None), 0);
    assert_eq!(call_gas_limit(Some(big)), 9);
}
