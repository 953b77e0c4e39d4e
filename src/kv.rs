use vstd::prelude::*;

verus! {

/// An error of the key-value engine.
#[derive(Clone, Copy, Debug, PartialEq, Eq, Structural)]
pub enum KvError {
    /// The key or value looked for is not there.
    NotFound,
    /// A stored value is too short for what it should hold.
    Corrupted,
    /// A counter or size does not fit in 64 bits.
    Overflow,
    /// Any other engine failure, by its code.
    Engine(i32),
}

/// Turns "not found" into an absent value and keeps every other error.
pub fn filter_not_found<T>(res: Result<T, KvError>) -> (r: Result<Option<T>, KvError>)
    ensures
        res matches Ok(v) ==> r == Ok::<Option<T>, KvError>(Some(v)),
        res == Err::<T, KvError>(KvError::NotFound) ==> r == Ok::<Option<T>, KvError>(None),
        res is Err && res->Err_0 != KvError::NotFound ==> r == Err::<Option<T>, KvError>(
            res->Err_0,
        ),
{
    match res {
        Ok(v) => Ok(Some(v)),
        Err(KvError::NotFound) => Ok(None),
        Err(other) => Err(other),
    }
}

/// The number that big-endian bytes `s` spell.
pub open spec fn be_value(s: Seq<u8>) -> nat
    decreases s.len(),
{
    if s.len() == 0 {
        0
    } else {
        be_value(s.drop_last()) * 256 + s.last() as nat
    }
}

/// The largest number that `n` bytes hold.
pub open spec fn be_max(n: nat) -> nat
    decreases n,
{
    if n == 0 {
        0
    } else {
        be_max((n - 1) as nat) * 256 + 255
    }
}

/// Reads a big-endian `u64` from the first eight bytes of `v`.
pub fn read_be_u64(v: &[u8]) -> (r: Result<u64, KvError>)
    ensures
        v@.len() < 8 ==> r == Err::<u64, KvError>(KvError::Corrupted),
        v@.len() >= 8 ==> r == Ok::<u64, KvError>(be_value(v@.subrange(0, 8)) as u64),
        v@.len() >= 8 ==> be_value(v@.subrange(0, 8)) <= u64::MAX,
{
    if v.len() < 8 {
        return Err(KvError::Corrupted);
    }
    let mut acc: u64 = 0;
    let mut i: usize = 0;
    proof {
        reveal_with_fuel(be_max, 9);
    }
    assert(be_max(8) == 0xffff_ffff_ffff_ffff);
    while i < 8
        invariant
            i <= 8,
            v@.len() >= 8,
            acc == be_value(v@.subrange(0, i as int)),
            acc <= be_max(i as nat),
            be_max(8) == 0xffff_ffff_ffff_ffff,
        decreases 8 - i,
    {
        assert(v@.subrange(0, i + 1).drop_last() =~= v@.subrange(0, i as int));
        proof {
            lemma_be_max_grows(i as nat, 8);
        }
        acc = acc * 256 + v[i] as u64;
        i += 1;
    }
    Ok(acc)
}

proof fn lemma_be_max_grows(m: nat, n: nat)
    requires
        m < n,
    ensures
        be_max(m) * 256 + 255 <= be_max(n),
    decreases n,
{
    if m + 1 < n {
        lemma_be_max_grows(m, (n - 1) as nat);
    }
}

/// `n` with its `k` lowest bytes shifted out.
pub open spec fn shift_bytes(n: nat, k: nat) -> nat
    decreases k,
{
    if k == 0 {
        n
    } else {
        shift_bytes(n, (k - 1) as nat) / 256
    }
}

proof fn lemma_shift_bound(n: nat, k: nat)
    requires
        n <= be_max(8),
        k <= 8,
    ensures
        shift_bytes(n, k) <= be_max((8 - k) as nat),
    decreases k,
{
    if k > 0 {
        lemma_shift_bound(n, (k - 1) as nat);
        let m = (8 - k) as nat;
        assert(be_max(m + 1) == be_max(m) * 256 + 255);
        assert(shift_bytes(n, k) == shift_bytes(n, (k - 1) as nat) / 256);
    }
}

/// The `k` lowest bytes of `n`, most significant first.
pub open spec fn be_seq(n: nat, k: nat) -> Seq<u8>
    decreases k,
{
    if k == 0 {
        Seq::empty()
    } else {
        be_seq(n / 256, (k - 1) as nat).push((n % 256) as u8)
    }
}

/// The eight big-endian bytes of `n`.
pub fn be_bytes(n: u64) -> (r: Vec<u8>)
    ensures
        r@ == be_seq(n as nat, 8),
        r@.len() == 8,
        be_value(r@) == n,
{
    let mut shifted: Vec<u64> = Vec::new();
    let mut q: u64 = n;
    let mut k: usize = 0;
    while k < 8
        invariant
            k <= 8,
            shifted@.len() == k,
            q == shift_bytes(n as nat, k as nat),
            forall|j: int| 0 <= j < k ==> #[trigger] shifted@[j] == shift_bytes(n as nat, j as nat),
        decreases 8 - k,
    {
        shifted.push(q);
        q = q / 256;
        k += 1;
    }
    proof {
        reveal_with_fuel(be_max, 9);
        lemma_shift_bound(n as nat, 8);
    }
    assert(q == 0);
    let mut r: Vec<u8> = Vec::new();
    let mut i: usize = 0;
    while i < 8
        invariant
            i <= 8,
            shifted@.len() == 8,
            r@.len() == i,
            be_value(r@) == shift_bytes(n as nat, (8 - i) as nat),
            r@ == be_seq(shift_bytes(n as nat, (8 - i) as nat), i as nat),
            forall|j: int| 0 <= j < 8 ==> #[trigger] shifted@[j] == shift_bytes(n as nat, j as nat),
        decreases 8 - i,
    {
        let x = shifted[7 - i];
        let ghost before = r@;
        r.push((x % 256) as u8);
        assert(r@.drop_last() =~= before);
        assert(shift_bytes(n as nat, (8 - i) as nat) == shift_bytes(n as nat, (7 - i) as nat) / 256);
        assert(r@ == be_seq(shift_bytes(n as nat, (7 - i) as nat), (i + 1) as nat));
        i += 1;
    }
    r
}

/// Eight bytes that encode `n` decode back to `n`.
pub proof fn lemma_be_round_trip(bytes: Seq<u8>, n: u64)
    requires
        bytes.len() == 8,
        be_value(bytes) == n,
    ensures
        be_value(bytes.subrange(0, 8)) == n,
{
    assert(bytes.subrange(0, 8) =~= bytes);
}

/// What one draw on a table's counter does: the value handed out and the
/// value to store afterwards, if any.
#[derive(Clone, Copy, Debug, PartialEq, Eq, Structural)]
pub struct SequenceStep {
    pub current: u64,
    pub next: Option<u64>,
}

/// Reserves `amount` numbers of a table's counter, whose stored value is
/// `stored` (absent means zero). Drawing zero numbers stores nothing.
pub fn sequence_step(stored: Option<&[u8]>, amount: u64) -> (r: Result<SequenceStep, KvError>)
    ensures
        stored matches Some(v) && v@.len() < 8 ==> r == Err::<SequenceStep, KvError>(
            KvError::Corrupted,
        ),
        ({
            let cur: int = match stored {
                Some(v) => be_value(v@.subrange(0, 8)) as int,
                None => 0,
            };
            (stored is None || stored->0@.len() >= 8) ==> {
                &&& amount == 0 ==> r == Ok::<SequenceStep, KvError>(
                    SequenceStep { current: cur as u64, next: None },
                )
                &&& amount > 0 && cur + amount <= u64::MAX ==> r == Ok::<SequenceStep, KvError>(
                    SequenceStep { current: cur as u64, next: Some((cur + amount) as u64) },
                )
                &&& amount > 0 && cur + amount > u64::MAX ==> r == Err::<SequenceStep, KvError>(
                    KvError::Overflow,
                )
            }
        }),
{
    let current: u64 = match stored {
        Some(v) => match read_be_u64(v) {
            Ok(n) => n,
            Err(e) => {
                return Err(e);
            },
        },
        None => 0,
    };
    if amount == 0 {
        return Ok(SequenceStep { current, next: None });
    }
    if current > u64::MAX - amount {
        return Err(KvError::Overflow);
    }
    Ok(SequenceStep { current, next: Some(current + amount) })
}

/// Bytes that a table takes: all its pages times the page size.
pub fn table_size(leaf_pages: u64, branch_pages: u64, overflow_pages: u64, page_size: u32) -> (r:
    Result<u64, KvError>)
    ensures
        (leaf_pages + branch_pages + overflow_pages) * page_size <= u64::MAX ==> r == Ok::<
            u64,
            KvError,
        >(((leaf_pages + branch_pages + overflow_pages) * page_size) as u64),
        (leaf_pages + branch_pages + overflow_pages) * page_size > u64::MAX ==> r == Err::<
            u64,
            KvError,
        >(KvError::Overflow),
{
    let ps = page_size as u64;
    if ps == 0 {
        return Ok(0);
    }
    if branch_pages > u64::MAX - leaf_pages {
        proof {
            let t = leaf_pages + branch_pages + overflow_pages;
            assert(t * ps >= t) by (nonlinear_arith)
                requires
                    ps >= 1,
                    t >= 0,
            ;
        }
        return Err(KvError::Overflow);
    }
    let a = leaf_pages + branch_pages;
    if overflow_pages > u64::MAX - a {
        proof {
            let t = leaf_pages + branch_pages + overflow_pages;
            assert(t * ps >= t) by (nonlinear_arith)
                requires
                    ps >= 1,
                    t >= 0,
            ;
        }
        return Err(KvError::Overflow);
    }
    let pages = a + overflow_pages;
    if pages > u64::MAX / ps {
        proof {
            assert(pages * ps > u64::MAX) by (nonlinear_arith)
                requires
                    ps > 0,
                    pages > u64::MAX / ps,
            ;
        }
        return Err(KvError::Overflow);
    }
    proof {
        assert(pages * ps <= u64::MAX) by (nonlinear_arith)
            requires
                ps > 0,
                pages <= u64::MAX / ps,
        ;
    }
    Ok(pages * ps)
}

} // verus!
