use vstd::prelude::*;

verus! {

/// Height of a block.
pub type BlockNumber = u64;

/// A 32-byte hash.
pub type H256 = [u8; 32];

/// A 20-byte account identifier.
pub type Address = [u8; 20];

/// The identity of a network peer.
pub type PeerId = [u8; 64];

/// Whether two fixed-size byte strings are equal.
pub fn same_bytes<const N: usize>(a: &[u8; N], b: &[u8; N]) -> (r: bool)
    ensures
        r == (*a == *b),
{
    let mut i: usize = 0;
    while i < N
        invariant
            i <= N,
            a@.len() == N,
            b@.len() == N,
            forall|k: int| 0 <= k < i ==> a@[k] == b@[k],
        decreases N - i,
    {
        if a[i] != b[i] {
            return false;
        }
        i += 1;
    }
    assert(*a =~= *b);
    true
}

} // verus!
