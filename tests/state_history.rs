use martinez::state::{Account, StateDb, U256};
use martinez::types::{Address, H256};

fn addr(b: u8) -> Address {
    [b; 20]
}

fn slot(b: u8) -> H256 {
    let mut s = [0u8; 32];
    s[31] = b;
    s
}

fn account(balance: u128, incarnation: u64) -> Account {
    Account { nonce: 0, balance: U256::from_u128(balance), code_hash: [0u8; 32], incarnation }
}

fn balance(a: Option<Account>) -> Option<u128> {
    a.map(|x| x.balance.lo)
}

#[test]
fn historical_account_read() {
    let a = addr(0xA);
    let mut db = StateDb::new();
    db.apply_block(0, &vec![(a, Some(account(40, 0)))], &vec![]);
    db.apply_block(5, &vec![(a, Some(account(70, 0)))], &vec![]);
    db.apply_block(10, &vec![(a, Some(account(100, 0)))], &vec![]);
    assert_eq!(balance(db.account_read(&a, Some(4))), Some(40));
    assert_eq!(balance(db.account_read(&a, Some(7))), Some(70));
    assert_eq!(balance(db.account_read(&a, Some(10))), Some(100));
    assert_eq!(balance(db.account_read(&a, None)), Some(100));
    assert_eq!(db.account_history(&a), vec![0, 5, 10]);
}

#[test]
fn account_absent_before_creation() {
    let a = addr(1);
    let mut db = StateDb::new();
    db.apply_block(5, &vec![(a, Some(account(40, 0)))], &vec![]);
    assert_eq!(balance(db.account_read(&a, Some(4))), None);
    assert_eq!(balance(db.account_read(&a, Some(5))), Some(40));
    assert_eq!(balance(db.account_read(&addr(2), None)), None);
    db.apply_block(8, &vec![(a, None)], &vec![]);
    assert_eq!(balance(db.account_read(&a, Some(7))), Some(40));
    assert_eq!(balance(db.account_read(&a, None)), None);
}

#[test]
fn storage_across_incarnations() {
    let a = addr(0xA);
    let mut db = StateDb::new();
    db.apply_block(3, &vec![(a, Some(account(0, 1)))], &vec![(a, 1, slot(1), U256::from_u128(0xAA))]);
    db.apply_block(5, &vec![(a, None)], &vec![]);
    db.apply_block(7, &vec![(a, Some(account(0, 2)))], &vec![(a, 2, slot(1), U256::from_u128(0xBB))]);
    assert_eq!(db.storage_read(&a, &slot(1), Some(4)), U256::from_u128(0xAA));
    assert_eq!(db.storage_read(&a, &slot(1), Some(6)), U256::zero());
    assert_eq!(db.storage_read(&a, &slot(1), Some(8)), U256::from_u128(0xBB));
    assert_eq!(db.storage_read(&a, &slot(1), Some(2)), U256::zero());
    assert_eq!(db.storage_read(&a, &slot(2), None), U256::zero());
    assert_eq!(db.account_read(&a, Some(6)).map(|x| x.incarnation), None);
    assert_eq!(db.account_read(&a, Some(8)).map(|x| x.incarnation), Some(2));
    assert_eq!(db.storage_history(&a, 1, &slot(1)), vec![3]);
    assert_eq!(db.storage_history(&a, 2, &slot(1)), vec![7]);
}

#[test]
fn recreated_contract_starts_with_empty_slots() {
    let a = addr(0xC);
    let mut db = StateDb::new();
    db.apply_block(1, &vec![(a, Some(account(0, 1)))], &vec![(a, 1, slot(4), U256::from_u128(9))]);
    db.apply_block(2, &vec![(a, Some(account(0, 2)))], &vec![]);
    assert_eq!(db.storage_read(&a, &slot(4), Some(1)), U256::from_u128(9));
    assert_eq!(db.storage_read(&a, &slot(4), Some(2)), U256::zero());
    assert_eq!(db.storage_read(&a, &slot(4), None), U256::zero());
}

#[test]
fn reads_match_replay_of_blocks() {
    let keys = [addr(1), addr(2), addr(3)];
    let mut db = StateDb::new();
    let mut images: Vec<[Option<u128>; 3]> = Vec::new();
    let mut cur: [Option<u128>; 3] = [None; 3];
    for b in 0..20u64 {
        let mut writes = Vec::new();
        for (i, k) in keys.iter().enumerate() {
            if (b + i as u64) % (i as u64 + 2) == 0 {
                let v = if (b + 1) % 7 == 0 { None } else { Some(b as u128 * 10 + i as u128) };
                writes.push((*k, v.map(|x| account(x, 0))));
                cur[i] = v;
            }
        }
        db.apply_block(b, &writes, &vec![]);
        images.push(cur);
    }
    for b in 0..20u64 {
        for (i, k) in keys.iter().enumerate() {
            assert_eq!(balance(db.account_read(k, Some(b))), images[b as usize][i]);
        }
    }
}

#[test]
fn change_set_records_pre_images() {
    let a = addr(9);
    let mut db = StateDb::new();
    db.apply_block(1, &vec![(a, Some(account(5, 0)))], &vec![]);
    db.apply_block(2, &vec![(a, Some(account(6, 0))), (addr(8), Some(account(1, 0)))], &vec![]);
    assert!(db.account_history(&a).contains(&2));
    let c = &db.accounts.changes[1];
    assert_eq!(c.block, 2);
    assert_eq!(c.key, a.to_vec());
    assert_eq!(balance(c.pre), Some(5));
    assert_eq!(balance(db.accounts.changes[2].pre), None);
    assert_eq!(db.account_history(&addr(8)), vec![2]);
}
