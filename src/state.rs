use vstd::prelude::*;
use crate::history::{ChangeHistory, replay};
use crate::kv::{be_bytes, be_seq};
use crate::types::{Address, BlockNumber, H256};

verus! {

/// A 256-bit unsigned integer, as its high and low halves.
#[derive(Clone, Copy, Debug, PartialEq, Eq, Structural)]
pub struct U256 {
    pub hi: u128,
    pub lo: u128,
}

impl U256 {
    pub open spec fn value(&self) -> int {
        self.hi * 0x1_0000_0000_0000_0000_0000_0000_0000_0000 + self.lo
    }

    pub fn zero() -> (r: Self)
        ensures
            r.value() == 0,
            r == (U256 { hi: 0, lo: 0 }),
    {
        U256 { hi: 0, lo: 0 }
    }

    pub fn from_u128(v: u128) -> (r: Self)
        ensures
            r.value() == v,
            r == (U256 { hi: 0, lo: v }),
    {
        U256 { hi: 0, lo: v }
    }
}

/// The state of an account; a contract's storage belongs to its incarnation.
#[derive(Clone, Copy, Debug)]
pub struct Account {
    pub nonce: u64,
    pub balance: U256,
    pub code_hash: H256,
    pub incarnation: u64,
}

/// The key of an account in the plain state and its history.
pub open spec fn account_key(a: Address) -> Seq<u8> {
    a@
}

/// The key of a storage slot: address, incarnation, then slot, so that a
/// recreated contract starts from slots of its own.
pub open spec fn storage_key(a: Address, incarnation: u64, slot: H256) -> Seq<u8> {
    a@ + be_seq(incarnation as nat, 8) + slot@
}

/// The value of `slot` of the contract at `a` in the state that `accounts`
/// and `storage` replay to at height `h`: the slot of the incarnation that
/// the account has then, and zero where there is no account.
pub open spec fn storage_at(
    accounts: Seq<crate::history::Write<Account>>,
    storage: Seq<crate::history::Write<U256>>,
    a: Address,
    slot: H256,
    h: int,
) -> U256 {
    match replay(accounts, account_key(a), h) {
        Some(acc) => slot_value(replay(storage, storage_key(a, acc.incarnation, slot), h)),
        None => U256 { hi: 0, lo: 0 },
    }
}

/// The value read from a slot: one never written holds zero.
pub open spec fn slot_value(v: Option<U256>) -> U256 {
    match v {
        Some(x) => x,
        None => U256 { hi: 0, lo: 0 },
    }
}

/// The block a read is made at, `None` meaning the tip.
pub open spec fn read_height(block: Option<BlockNumber>) -> int {
    match block {
        Some(b) => b as int,
        None => u64::MAX as int,
    }
}

/// Account and storage state at the tip, with the change sets and history
/// that recover it at any earlier block.
pub struct StateDb {
    pub accounts: ChangeHistory<Account>,
    pub storage: ChangeHistory<U256>,
}

fn bytes_of<const N: usize>(a: &[u8; N]) -> (r: Vec<u8>)
    ensures
        r@ == a@,
{
    let mut r: Vec<u8> = Vec::new();
    let mut i: usize = 0;
    while i < N
        invariant
            i <= N,
            a@.len() == N,
            r@ == a@.subrange(0, i as int),
        decreases N - i,
    {
        r.push(a[i]);
        i += 1;
        assert(r@ =~= a@.subrange(0, i as int));
    }
    assert(a@.subrange(0, i as int) =~= a@);
    r
}

fn push_bytes(r: &mut Vec<u8>, s: &[u8])
    ensures
        final(r)@ == old(r)@ + s@,
{
    let mut i: usize = 0;
    while i < s.len()
        invariant
            i <= s@.len(),
            r@ == old(r)@ + s@.subrange(0, i as int),
        decreases s@.len() - i,
    {
        r.push(s[i]);
        i += 1;
        assert(r@ =~= old(r)@ + s@.subrange(0, i as int));
    }
    assert(s@.subrange(0, i as int) =~= s@);
}

fn slot_key(a: &Address, incarnation: u64, slot: &H256) -> (r: Vec<u8>)
    ensures
        r@ == storage_key(*a, incarnation, *slot),
{
    let mut r = bytes_of(a);
    let inc = be_bytes(incarnation);
    push_bytes(&mut r, inc.as_slice());
    push_bytes(&mut r, slot.as_slice());
    r
}

impl StateDb {
    pub open spec fn wf(&self) -> bool {
        self.accounts.wf() && self.storage.wf()
    }

    /// An empty state: no account, no slot written.
    pub fn new() -> (r: Self)
        ensures
            r.wf(),
            r.accounts.log@.len() == 0,
            r.storage.log@.len() == 0,
            r.accounts.tip == 0,
            r.storage.tip == 0,
    {
        StateDb { accounts: ChangeHistory::new(), storage: ChangeHistory::new() }
    }

    /// The account at `address` as of block `block` (`None`: the tip);
    /// `None` if it did not exist then.
    ///
    /// This is the account that replaying every applied change up to that
    /// block onto an empty state yields.
    pub fn account_read(&self, address: &Address, block: Option<BlockNumber>) -> (r: Option<
        Account,
    >)
        requires
            self.wf(),
        ensures
            r == replay(self.accounts.log@, account_key(*address), read_height(block)),
    {
        let key = bytes_of(address);
        self.accounts.read(&key, block)
    }

    /// The value of `slot` of the contract at `address` as of block `block`
    /// (`None`: the tip): the slot of the incarnation that the account has
    /// then; zero if the slot was never written in that incarnation or there
    /// is no account.
    pub fn storage_read(&self, address: &Address, slot: &H256, block: Option<BlockNumber>) -> (r:
        U256)
        requires
            self.wf(),
        ensures
            r == storage_at(self.accounts.log@, self.storage.log@, *address, *slot, read_height(block)),
    {
        match self.account_read(address, block) {
            None => U256::zero(),
            Some(acc) => {
                let key = slot_key(address, acc.incarnation, slot);
                match self.storage.read(&key, block) {
                    Some(v) => v,
                    None => U256::zero(),
                }
            },
        }
    }

    /// The blocks at which the account at `address` changed.
    pub fn account_history(&self, address: &Address) -> (r: Vec<BlockNumber>)
        ensures
            forall|b: u64| r@.contains(b) <==> crate::history::history_of(self.accounts.changes@, account_key(*address)).contains(b),
    {
        let key = bytes_of(address);
        self.accounts.history(&key)
    }

    /// The blocks at which `slot` of incarnation `incarnation` of the
    /// contract at `address` changed.
    pub fn storage_history(&self, address: &Address, incarnation: u64, slot: &H256) -> (r: Vec<BlockNumber>)
        ensures
            forall|b: u64| r@.contains(b) <==> crate::history::history_of(self.storage.changes@, storage_key(*address, incarnation, *slot)).contains(b),
    {
        let key = slot_key(address, incarnation, slot);
        self.storage.history(&key)
    }

    /// Applies block `block`: the new image of each touched account
    /// (`None`: deleted) and the new value of each written slot, given with
    /// the incarnation it belongs to, in order.
    /// Each write first records what it replaces in the change set and adds
    /// the block to the key's history.
    pub fn apply_block(
        &mut self,
        block: BlockNumber,
        accounts: &Vec<(Address, Option<Account>)>,
        storage: &Vec<(Address, u64, H256, U256)>,
    )
        requires
            old(self).wf(),
            block >= old(self).accounts.tip,
            block >= old(self).storage.tip,
        ensures
            final(self).wf(),
            final(self).accounts.tip == block,
            final(self).storage.tip == block,
            final(self).accounts.log@ == old(self).accounts.log@ + Seq::new(
                accounts@.len(),
                |j: int| (block, account_key(accounts@[j].0), accounts@[j].1),
            ),
            final(self).storage.log@ == old(self).storage.log@ + Seq::new(
                storage@.len(),
                |j: int| (block, storage_key(storage@[j].0, storage@[j].1, storage@[j].2), Some(storage@[j].3)),
            ),
            forall|j: int|
                0 <= j < accounts@.len() ==> {
                    let c = #[trigger] final(self).accounts.changes@[old(self).accounts.changes@.len() + j];
                    &&& c.block == block
                    &&& c.key@ == account_key(accounts@[j].0)
                    &&& c.pre == replay(
                        final(self).accounts.log@.subrange(0, old(self).accounts.changes@.len() + j),
                        account_key(accounts@[j].0),
                        u64::MAX as int,
                    )
                    &&& crate::history::history_of(final(self).accounts.changes@, account_key(accounts@[j].0)).contains(block)
                },
            forall|j: int|
                0 <= j < storage@.len() ==> {
                    let c = #[trigger] final(self).storage.changes@[old(self).storage.changes@.len() + j];
                    &&& c.block == block
                    &&& c.key@ == storage_key(storage@[j].0, storage@[j].1, storage@[j].2)
                    &&& c.pre == replay(
                        final(self).storage.log@.subrange(0, old(self).storage.changes@.len() + j),
                        storage_key(storage@[j].0, storage@[j].1, storage@[j].2),
                        u64::MAX as int,
                    )
                    &&& crate::history::history_of(final(self).storage.changes@, storage_key(storage@[j].0, storage@[j].1, storage@[j].2)).contains(block)
                },
    {
        let mut aw: Vec<(Vec<u8>, Option<Account>)> = Vec::new();
        let mut i: usize = 0;
        while i < accounts.len()
            invariant
                i <= accounts@.len(),
                aw@.len() == i,
                forall|j: int| 0 <= j < i ==> (#[trigger] aw@[j]).0@ == account_key(accounts@[j].0) && aw@[j].1 == accounts@[j].1,
            decreases accounts@.len() - i,
        {
            let (a, acc) = &accounts[i];
            aw.push((bytes_of(a), *acc));
            i += 1;
        }
        let mut sw: Vec<(Vec<u8>, Option<U256>)> = Vec::new();
        let mut i: usize = 0;
        while i < storage.len()
            invariant
                i <= storage@.len(),
                sw@.len() == i,
                forall|j: int| 0 <= j < i ==> (#[trigger] sw@[j]).0@ == storage_key(storage@[j].0, storage@[j].1, storage@[j].2) && sw@[j].1 == Some(storage@[j].3),
            decreases storage@.len() - i,
        {
            let (a, inc, slot, v) = &storage[i];
            sw.push((slot_key(a, *inc, slot), Some(*v)));
            i += 1;
        }
        self.accounts.apply(block, &aw);
        self.storage.apply(block, &sw);
        assert(Seq::new(aw@.len(), |j: int| (block, aw@[j].0@, aw@[j].1)) =~= Seq::new(
            accounts@.len(),
            |j: int| (block, account_key(accounts@[j].0), accounts@[j].1),
        ));
        assert(Seq::new(sw@.len(), |j: int| (block, sw@[j].0@, sw@[j].1)) =~= Seq::new(
            storage@.len(),
            |j: int| (block, storage_key(storage@[j].0, storage@[j].1, storage@[j].2), Some(storage@[j].3)),
        ));
    }
}

} // verus!
