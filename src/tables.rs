use vstd::prelude::*;
use crate::kv::{be_bytes, be_value};
use crate::types::{Address, BlockNumber, H256};

verus! {

/// The byte that ends a total-difficulty key.
pub const HEADER_TD_SUFFIX_BYTE: u8 = 0x74;

/// Bytes `[from, from + len)` of `s` spell `n` in big-endian order.
pub open spec fn be_at(s: Seq<u8>, from: int, n: u64) -> bool {
    be_value(s.subrange(from, from + 8)) == n
}

fn push_all(r: &mut Vec<u8>, s: &[u8])
    ensures
        final(r)@ == old(r)@ + s@,
{
    let mut i: usize = 0;
    while i < s.len()
        invariant
            i <= s@.len(),
            r@ == old(r)@ + s@.subrange(0, i as int),
        decreases s@.len() - i,
    {
        r.push(s[i]);
        i += 1;
        assert(r@ =~= old(r)@ + s@.subrange(0, i as int));
    }
    assert(s@.subrange(0, i as int) =~= s@);
}

/// Key of the canonical-hash table: the block number.
pub fn canonical_hash_key(num: BlockNumber) -> (r: Vec<u8>)
    ensures
        r@.len() == 8,
        be_at(r@, 0, num),
{
    let r = be_bytes(num);
    assert(r@.subrange(0, 8) =~= r@);
    r
}

/// Key of the header and body tables: block number, then hash.
pub fn header_key(num: BlockNumber, hash: &H256) -> (r: Vec<u8>)
    ensures
        r@.len() == 40,
        be_at(r@, 0, num),
        r@.subrange(8, 40) == hash@,
{
    let mut r = be_bytes(num);
    let ghost n = r@;
    push_all(&mut r, hash.as_slice());
    assert(r@.subrange(0, 8) =~= n);
    assert(r@.subrange(8, 40) =~= hash@);
    r
}

/// Key of the total-difficulty table: the header key, then `t`.
pub fn td_key(num: BlockNumber, hash: &H256) -> (r: Vec<u8>)
    ensures
        r@.len() == 41,
        be_at(r@, 0, num),
        r@.subrange(8, 40) == hash@,
        r@[40] == HEADER_TD_SUFFIX_BYTE,
{
    let mut r = header_key(num, hash);
    let ghost h = r@;
    r.push(HEADER_TD_SUFFIX_BYTE);
    assert(r@.subrange(0, 8) =~= h.subrange(0, 8));
    assert(r@.subrange(8, 40) =~= h.subrange(8, 40));
    r
}

/// Key of a storage slot in the plain state: address, incarnation, slot.
pub fn plain_storage_key(address: &Address, incarnation: u64, slot: &H256) -> (r: Vec<u8>)
    ensures
        r@.len() == 60,
        r@.subrange(0, 20) == address@,
        be_at(r@, 20, incarnation),
        r@.subrange(28, 60) == slot@,
{
    let mut r: Vec<u8> = Vec::new();
    push_all(&mut r, address.as_slice());
    let inc = be_bytes(incarnation);
    push_all(&mut r, inc.as_slice());
    push_all(&mut r, slot.as_slice());
    assert(r@.subrange(0, 20) =~= address@);
    assert(r@.subrange(20, 28) =~= inc@);
    assert(r@.subrange(28, 60) =~= slot@);
    r
}

/// Key of the storage change set: block number, address, incarnation.
pub fn storage_change_set_key(num: BlockNumber, address: &Address, incarnation: u64) -> (r: Vec<u8>)
    ensures
        r@.len() == 36,
        be_at(r@, 0, num),
        r@.subrange(8, 28) == address@,
        be_at(r@, 28, incarnation),
{
    let mut r = be_bytes(num);
    let ghost n = r@;
    push_all(&mut r, address.as_slice());
    let inc = be_bytes(incarnation);
    push_all(&mut r, inc.as_slice());
    assert(r@.subrange(0, 8) =~= n);
    assert(r@.subrange(8, 28) =~= address@);
    assert(r@.subrange(28, 36) =~= inc@);
    r
}

/// Key of a chunk of an account's history: address, then the highest block
/// in the chunk, so that a seek to `address ‖ block` lands on the chunk that
/// holds `block` or on the one after it.
pub fn account_history_key(address: &Address, chunk_high_block: BlockNumber) -> (r: Vec<u8>)
    ensures
        r@.len() == 28,
        r@.subrange(0, 20) == address@,
        be_at(r@, 20, chunk_high_block),
{
    let mut r: Vec<u8> = Vec::new();
    push_all(&mut r, address.as_slice());
    let high = be_bytes(chunk_high_block);
    push_all(&mut r, high.as_slice());
    assert(r@.subrange(0, 20) =~= address@);
    assert(r@.subrange(20, 28) =~= high@);
    r
}

/// Key of a chunk of a storage slot's history: address, slot, then the
/// highest block in the chunk.
pub fn storage_history_key(address: &Address, slot: &H256, chunk_high_block: BlockNumber) -> (r: Vec<u8>)
    ensures
        r@.len() == 60,
        r@.subrange(0, 20) == address@,
        r@.subrange(20, 52) == slot@,
        be_at(r@, 52, chunk_high_block),
{
    let mut r: Vec<u8> = Vec::new();
    push_all(&mut r, address.as_slice());
    push_all(&mut r, slot.as_slice());
    let high = be_bytes(chunk_high_block);
    push_all(&mut r, high.as_slice());
    assert(r@.subrange(0, 20) =~= address@);
    assert(r@.subrange(20, 52) =~= slot@);
    assert(r@.subrange(52, 60) =~= high@);
    r
}

} // verus!
