use vstd::prelude::*;
use crate::history::replay;
use crate::state::{account_key, read_height, storage_at, StateDb, U256};
use crate::types::{Address, BlockNumber, H256};

verus! {

/// A request that cannot be served as asked.
#[derive(Clone, Copy, Debug, PartialEq, Eq, Structural)]
pub enum RequestError {
    /// `estimateGas` needs the caller to give a gas budget.
    GasNotSet,
}

/// The state reads behind the `eth_` methods.
pub struct EthApiServerImpl {
    pub state: StateDb,
    pub finish_progress: Option<BlockNumber>,
}

/// The low 64 bits of a 256-bit number.
pub open spec fn low_u64(v: U256) -> u64 {
    (v.lo % 0x1_0000_0000_0000_0000) as u64
}

/// The gas limit of an `estimateGas` call: the budget's low 64 bits.
pub fn estimate_gas_limit(gas: Option<U256>) -> (r: Result<u64, RequestError>)
    ensures
        gas is None ==> r == Err::<u64, RequestError>(RequestError::GasNotSet),
        gas matches Some(g) ==> r == Ok::<u64, RequestError>(low_u64(g)),
{
    match gas {
        None => Err(RequestError::GasNotSet),
        Some(g) => Ok((g.lo % 0x1_0000_0000_0000_0000) as u64),
    }
}

/// The gas limit of a `call`: the budget's low 64 bits, zero when none.
pub fn call_gas_limit(gas: Option<U256>) -> (r: u64)
    ensures
        gas is None ==> r == 0,
        gas matches Some(g) ==> r == low_u64(g),
{
    match gas {
        None => 0,
        Some(g) => (g.lo % 0x1_0000_0000_0000_0000) as u64,
    }
}

impl EthApiServerImpl {
    pub open spec fn wf(&self) -> bool {
        self.state.wf()
    }

    /// The height that the whole sync pipeline has reached.
    pub fn block_number(&self) -> (r: BlockNumber)
        ensures
            r == match self.finish_progress {
                Some(n) => n,
                None => 0,
            },
    {
        match self.finish_progress {
            Some(n) => n,
            None => 0,
        }
    }

    /// The balance of `address` at `block_number`; zero for no account.
    pub fn get_balance(&self, address: &Address, block_number: BlockNumber) -> (r: U256)
        requires
            self.wf(),
        ensures
            r == match replay(self.state.accounts.log@, account_key(*address), block_number as int) {
                Some(a) => a.balance,
                None => U256 { hi: 0, lo: 0 },
            },
    {
        match self.state.account_read(address, Some(block_number)) {
            Some(a) => a.balance,
            None => U256::zero(),
        }
    }

    /// The nonce of `address` at `block_number`; zero for no account.
    pub fn get_transaction_count(&self, address: &Address, block_number: BlockNumber) -> (r: u64)
        requires
            self.wf(),
        ensures
            r == match replay(self.state.accounts.log@, account_key(*address), block_number as int) {
                Some(a) => a.nonce,
                None => 0,
            },
    {
        match self.state.account_read(address, Some(block_number)) {
            Some(a) => a.nonce,
            None => 0,
        }
    }

    /// Slot `storage_pos` of the contract at `address` at `block_number`, in
    /// the incarnation the contract has then; zero where there is none.
    pub fn get_storage_at(&self, address: &Address, storage_pos: &H256, block_number: BlockNumber) -> (r: U256)
        requires
            self.wf(),
        ensures
            r == storage_at(
                self.state.accounts.log@,
                self.state.storage.log@,
                *address,
                *storage_pos,
                read_height(Some(block_number)),
            ),
    {
        self.state.storage_read(address, storage_pos, Some(block_number))
    }
}

} // verus!
