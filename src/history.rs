use vstd::prelude::*;

verus! {

/// A record of the change set: at `block`, the value under `key` changed;
/// `pre` is what it held before (`None`: nothing).
#[derive(Debug)]
pub struct Change<V> {
    pub block: u64,
    pub key: Vec<u8>,
    pub pre: Option<V>,
}

/// A current value of the plain state.
#[derive(Debug)]
pub struct PlainEntry<V> {
    pub key: Vec<u8>,
    pub value: Option<V>,
}

/// An applied write: at a block, `key` came to hold the value.
pub type Write<V> = (u64, Seq<u8>, Option<V>);

/// The value under `key` after replaying, onto an empty state, every write of
/// `log` made at a block no higher than `b`.
pub open spec fn replay<V>(log: Seq<Write<V>>, key: Seq<u8>, b: int) -> Option<V>
    decreases log.len(),
{
    if log.len() == 0 {
        None
    } else if log.last().1 == key && log.last().0 <= b {
        log.last().2
    } else {
        replay(log.drop_last(), key, b)
    }
}

/// The current value under `key` in the plain state.
pub open spec fn plain_get<V>(plain: Seq<PlainEntry<V>>, key: Seq<u8>) -> Option<V>
    decreases plain.len(),
{
    if plain.len() == 0 {
        None
    } else if plain[0].key@ == key {
        plain[0].value
    } else {
        plain_get(plain.drop_first(), key)
    }
}

/// The blocks at which `key` changed: its history index.
pub open spec fn history_of<V>(changes: Seq<Change<V>>, key: Seq<u8>) -> Set<u64> {
    Set::new(|b: u64| exists|i: int| 0 <= i < changes.len() && (#[trigger] changes[i]).block == b
        && changes[i].key@ == key)
}

/// The versioned values of one keyspace: the plain (tip) image, and the
/// change set from which any earlier value is recovered.
pub struct ChangeHistory<V> {
    pub tip: u64,
    pub plain: Vec<PlainEntry<V>>,
    pub changes: Vec<Change<V>>,
    pub log: Ghost<Seq<Write<V>>>,
}

/// A copy of a byte string.
pub fn copy_bytes(v: &Vec<u8>) -> (r: Vec<u8>)
    ensures
        r@ == v@,
{
    let mut r: Vec<u8> = Vec::new();
    let mut i: usize = 0;
    while i < v.len()
        invariant
            i <= v@.len(),
            r@ == v@.subrange(0, i as int),
        decreases v@.len() - i,
    {
        r.push(v[i]);
        i += 1;
        assert(r@ =~= v@.subrange(0, i as int));
    }
    assert(v@.subrange(0, i as int) =~= v@);
    r
}

/// Whether two byte strings are equal.
pub fn same_key(a: &Vec<u8>, b: &Vec<u8>) -> (r: bool)
    ensures
        r == (a@ == b@),
{
    if a.len() != b.len() {
        return false;
    }
    let mut i: usize = 0;
    while i < a.len()
        invariant
            i <= a@.len(),
            a@.len() == b@.len(),
            forall|k: int| 0 <= k < i ==> a@[k] == b@[k],
        decreases a@.len() - i,
    {
        if a[i] != b[i] {
            return false;
        }
        i += 1;
    }
    assert(a@ =~= b@);
    true
}

proof fn lemma_replay_past_end<V>(log: Seq<Write<V>>, key: Seq<u8>, b: int, c: int)
    requires
        forall|i: int| 0 <= i < log.len() ==> (#[trigger] log[i]).0 <= b,
        b <= c,
    ensures
        replay(log, key, b) == replay(log, key, c),
    decreases log.len(),
{
    if log.len() > 0 {
        lemma_replay_past_end(log.drop_last(), key, b, c);
    }
}

/// Writes of `key` from position `k` on all come after block `b`, so they do
/// not count at `b`.
proof fn lemma_replay_prefix<V>(log: Seq<Write<V>>, key: Seq<u8>, b: int, k: int)
    requires
        0 <= k <= log.len(),
        forall|i: int| k <= i < log.len() && (#[trigger] log[i]).1 == key ==> log[i].0 > b,
    ensures
        replay(log, key, b) == replay(log.subrange(0, k), key, b),
    decreases log.len(),
{
    if log.len() > k {
        assert(log.drop_last().subrange(0, k) =~= log.subrange(0, k));
        lemma_replay_prefix(log.drop_last(), key, b, k);
    } else {
        assert(log.subrange(0, k) =~= log);
    }
}

/// Writes of `key` before position `k` all come at or before block `b`.
proof fn lemma_replay_all<V>(log: Seq<Write<V>>, key: Seq<u8>, b: int)
    requires
        forall|i: int| 0 <= i < log.len() && (#[trigger] log[i]).1 == key ==> log[i].0 <= b,
    ensures
        replay(log, key, b) == replay(log, key, u64::MAX as int),
    decreases log.len(),
{
    if log.len() > 0 {
        lemma_replay_all(log.drop_last(), key, b);
    }
}

impl<V: Copy> ChangeHistory<V> {
    pub open spec fn wf(&self) -> bool {
        let log = self.log@;
        &&& log.len() == self.changes@.len()
        &&& forall|i: int|
            0 <= i < log.len() ==> {
                &&& (#[trigger] self.changes@[i]).block == log[i].0
                &&& self.changes@[i].key@ == log[i].1
                &&& self.changes@[i].pre == replay(log.subrange(0, i), log[i].1, u64::MAX as int)
                &&& log[i].0 <= self.tip
            }
        &&& forall|i: int, j: int| 0 <= i < j < log.len() ==> (#[trigger] log[i]).0 <= (#[trigger] log[j]).0
        &&& forall|key: Seq<u8>| #[trigger] plain_get(self.plain@, key) == replay(log, key, u64::MAX as int)
    }

    /// Nothing written yet.
    pub fn new() -> (r: Self)
        ensures
            r.wf(),
            r.tip == 0,
            r.log@.len() == 0,
    {
        ChangeHistory { tip: 0, plain: Vec::new(), changes: Vec::new(), log: Ghost(Seq::empty()) }
    }

    /// The current value under `key`.
    pub fn get_plain(&self, key: &Vec<u8>) -> (r: Option<V>)
        ensures
            r == plain_get(self.plain@, key@),
    {
        let mut i: usize = 0;
        assert(self.plain@.subrange(0, self.plain@.len() as int) =~= self.plain@);
        while i < self.plain.len()
            invariant
                i <= self.plain@.len(),
                plain_get(self.plain@, key@) == plain_get(self.plain@.subrange(i as int, self.plain@.len() as int), key@),
            decreases self.plain@.len() - i,
        {
            let ghost rest = self.plain@.subrange(i as int, self.plain@.len() as int);
            assert(rest.drop_first() =~= self.plain@.subrange(i + 1, self.plain@.len() as int));
            if same_key(&self.plain[i].key, key) {
                return self.plain[i].value;
            }
            i += 1;
        }
        None
    }

    /// The value under `key` as of block `block` (`None`: as of the tip).
    ///
    /// Past the tip this is the plain value. Below it, the first change of
    /// `key` after `block` holds the value that `key` had at `block`; with no
    /// such change, the value has not moved since and the plain value holds.
    pub fn read(&self, key: &Vec<u8>, block: Option<u64>) -> (r: Option<V>)
        requires
            self.wf(),
        ensures
            r == replay(
                self.log@,
                key@,
                match block {
                    Some(b) => b as int,
                    None => u64::MAX as int,
                },
            ),
    {
        let ghost log = self.log@;
        if block.is_none() {
            return self.get_plain(key);
        }
        let b: u64 = block.unwrap();
        if b >= self.tip {
            proof {
                assert forall|i: int| 0 <= i < log.len() implies (#[trigger] log[i]).0 <= b by {
                    assert(self.changes@[i].block == log[i].0);
                }
                lemma_replay_past_end(log, key@, b as int, u64::MAX as int);
            }
            return self.get_plain(key);
        }
        let mut i: usize = 0;
        while i < self.changes.len()
            invariant
                self.wf(),
                log == self.log@,
                block == Some(b),
                i <= self.changes@.len(),
                forall|j: int| 0 <= j < i && (#[trigger] log[j]).1 == key@ ==> log[j].0 <= b,
            decreases self.changes@.len() - i,
        {
            if self.changes[i].block > b && same_key(&self.changes[i].key, key) {
                proof {
                    assert forall|j: int| i <= j < log.len() && (#[trigger] log[j]).1 == key@ implies log[j].0 > b by {
                        assert(log[i as int].0 <= log[j].0 || j == i);
                    }
                    assert(log.len() == self.changes@.len());
                    assert(self.changes@[i as int].key@ == log[i as int].1);
                    assert(log[i as int].1 == key@);
                    lemma_replay_prefix(log, key@, b as int, i as int);
                    let sub = log.subrange(0, i as int);
                    assert(self.changes@[i as int].pre == replay(sub, key@, u64::MAX as int));
                    assert forall|j: int| 0 <= j < sub.len() && (#[trigger] sub[j]).1 == key@ implies sub[j].0 <= b by {
                        assert(sub[j] == log[j]);
                    }
                    lemma_replay_all(sub, key@, b as int);
                }
                return self.changes[i].pre;
            }
            i += 1;
        }
        proof {
            lemma_replay_all(log, key@, b as int);
        }
        self.get_plain(key)
    }

    /// Sets the plain value under `key`.
    fn put_plain(&mut self, key: &Vec<u8>, value: Option<V>)
        ensures
            final(self).tip == old(self).tip,
            final(self).changes@ == old(self).changes@,
            final(self).log@ == old(self).log@,
            forall|k: Seq<u8>| #[trigger] plain_get(final(self).plain@, k) == if k == key@ {
                value
            } else {
                plain_get(old(self).plain@, k)
            },
    {
        let mut i: usize = 0;
        while i < self.plain.len()
            invariant
                self.tip == old(self).tip,
                self.changes@ == old(self).changes@,
                self.log@ == old(self).log@,
                self.plain@ == old(self).plain@,
                i <= self.plain@.len(),
                forall|j: int| 0 <= j < i ==> (#[trigger] self.plain@[j]).key@ != key@,
            decreases self.plain@.len() - i,
        {
            if same_key(&self.plain[i].key, key) {
                self.plain[i].value = value;
                proof {
                    assert forall|k: Seq<u8>| #[trigger] plain_get(self.plain@, k) == if k == key@ {
                        value
                    } else {
                        plain_get(old(self).plain@, k)
                    } by {
                        lemma_plain_get_update(old(self).plain@, i as int, key@, value, k);
                    }
                }
                return;
            }
            i += 1;
        }
        let entry = PlainEntry { key: copy_bytes(key), value };
        let ghost e = entry;
        self.plain.push(entry);
        proof {
            assert forall|k: Seq<u8>| #[trigger] plain_get(self.plain@, k) == if k == key@ {
                value
            } else {
                plain_get(old(self).plain@, k)
            } by {
                lemma_plain_get_push(old(self).plain@, e, k);
            }
        }
    }

    /// Applies the writes of block `block` in order: each records the value
    /// it replaces in the change set, then sets the plain value.
    pub fn apply(&mut self, block: u64, writes: &Vec<(Vec<u8>, Option<V>)>)
        requires
            old(self).wf(),
            block >= old(self).tip,
        ensures
            final(self).wf(),
            final(self).tip == block,
            final(self).log@ == old(self).log@ + Seq::new(
                writes@.len(),
                |j: int| (block, writes@[j].0@, writes@[j].1),
            ),
            final(self).changes@.len() == old(self).changes@.len() + writes@.len(),
            forall|i: int| 0 <= i < old(self).changes@.len() ==> #[trigger] final(self).changes@[i] == old(self).changes@[i],
            forall|j: int|
                0 <= j < writes@.len() ==> {
                    let c = #[trigger] final(self).changes@[old(self).changes@.len() + j];
                    &&& c.block == block
                    &&& c.key@ == writes@[j].0@
                    &&& c.pre == replay(
                        final(self).log@.subrange(0, old(self).changes@.len() + j),
                        writes@[j].0@,
                        u64::MAX as int,
                    )
                    &&& history_of(final(self).changes@, writes@[j].0@).contains(block)
                },
    {
        self.tip = block;
        let ghost old_log = self.log@;
        let ghost old_changes = self.changes@;
        let mut j: usize = 0;
        while j < writes.len()
            invariant
                self.wf(),
                self.tip == block,
                j <= writes@.len(),
                self.log@ == old_log + Seq::new(j as nat, |m: int| (block, writes@[m].0@, writes@[m].1)),
                self.changes@.len() == old_changes.len() + j,
                forall|i: int| 0 <= i < old_changes.len() ==> #[trigger] self.changes@[i] == old_changes[i],
                old_changes == old(self).changes@,
                old_log == old(self).log@,
                old_log.len() == old_changes.len(),
            decreases writes@.len() - j,
        {
            let key = &writes[j].0;
            let post = writes[j].1;
            let pre = self.get_plain(key);
            let ghost log0 = self.log@;
            self.changes.push(Change { block, key: copy_bytes(key), pre });
            self.put_plain(key, post);
            self.log = Ghost(self.log@.push((block, key@, post)));
            proof {
                let log1 = self.log@;
                assert(log1.subrange(0, log0.len() as int) =~= log0);
                assert forall|i: int| 0 <= i < log1.len() implies {
                    &&& (#[trigger] self.changes@[i]).block == log1[i].0
                    &&& self.changes@[i].key@ == log1[i].1
                    &&& self.changes@[i].pre == replay(log1.subrange(0, i), log1[i].1, u64::MAX as int)
                    &&& log1[i].0 <= self.tip
                } by {
                    if i < log0.len() {
                        assert(log1.subrange(0, i) =~= log0.subrange(0, i));
                    }
                }
                assert forall|a: int, c: int| 0 <= a < c < log1.len() implies (#[trigger] log1[a]).0 <= (#[trigger] log1[c]).0 by {
                    if c == log0.len() {
                        assert(self.changes@[a].block == log1[a].0);
                    }
                }
                assert forall|k: Seq<u8>| #[trigger] plain_get(self.plain@, k) == replay(log1, k, u64::MAX as int) by {
                    assert(log1.drop_last() =~= log0);
                }
                assert(self.log@ =~= old_log + Seq::new((j + 1) as nat, |m: int| (block, writes@[m].0@, writes@[m].1)));
            }
            j += 1;
        }
        proof {
            let n = old(self).changes@.len();
            assert forall|j: int| 0 <= j < writes@.len() implies {
                let c = #[trigger] self.changes@[n + j];
                &&& c.block == block
                &&& c.key@ == writes@[j].0@
                &&& c.pre == replay(self.log@.subrange(0, n + j), writes@[j].0@, u64::MAX as int)
                &&& history_of(self.changes@, writes@[j].0@).contains(block)
            } by {
                assert(self.log@[n + j] == (block, writes@[j].0@, writes@[j].1));
                assert(self.changes@[n + j].block == block);
            }
        }
    }

    /// The blocks at which `key` changed; a block appears once for each
    /// write of `key` in it.
    pub fn history(&self, key: &Vec<u8>) -> (r: Vec<u64>)
        ensures
            forall|b: u64| r@.contains(b) <==> history_of(self.changes@, key@).contains(b),
    {
        let mut r: Vec<u64> = Vec::new();
        let mut i: usize = 0;
        while i < self.changes.len()
            invariant
                i <= self.changes@.len(),
                forall|b: u64| r@.contains(b) <==> exists|m: int| 0 <= m < i && (#[trigger] self.changes@[m]).block == b
                    && self.changes@[m].key@ == key@,
            decreases self.changes@.len() - i,
        {
            if same_key(&self.changes[i].key, key) {
                let ghost r0 = r@;
                r.push(self.changes[i].block);
                proof {
                    assert forall|b: u64| r@.contains(b) <==> exists|m: int| 0 <= m < i + 1 && (#[trigger] self.changes@[m]).block == b
                        && self.changes@[m].key@ == key@ by {
                        if r@.contains(b) {
                            let x = choose|x: int| 0 <= x < r@.len() && r@[x] == b;
                            if x == r0.len() {
                                assert(self.changes@[i as int].block == b);
                            } else {
                                assert(r0[x] == b);
                                assert(r0.contains(b));
                            }
                        }
                        if exists|m: int| 0 <= m < i + 1 && (#[trigger] self.changes@[m]).block == b && self.changes@[m].key@ == key@ {
                            if exists|m: int| 0 <= m < i && (#[trigger] self.changes@[m]).block == b && self.changes@[m].key@ == key@ {
                                assert(r0.contains(b));
                                let x = choose|x: int| 0 <= x < r0.len() && r0[x] == b;
                                assert(r@[x] == b);
                            } else {
                                assert(r@[r0.len() as int] == b);
                            }
                        }
                    }
                }
            }
            i += 1;
        }
        r
    }
}

proof fn lemma_plain_get_update<V>(p: Seq<PlainEntry<V>>, i: int, key: Seq<u8>, value: Option<V>, k: Seq<u8>)
    requires
        0 <= i < p.len(),
        p[i].key@ == key,
        forall|j: int| 0 <= j < i ==> (#[trigger] p[j]).key@ != key,
    ensures
        plain_get(p.update(i, PlainEntry { value, ..p[i] }), k) == if k == key {
            value
        } else {
            plain_get(p, k)
        },
    decreases p.len(),
{
    let q = p.update(i, PlainEntry { value, ..p[i] });
    assert(q.len() == p.len());
    if i == 0 {
        assert(q.drop_first() =~= p.drop_first());
    } else {
        assert(q[0] == p[0]);
        assert(q.drop_first() =~= p.drop_first().update(i - 1, PlainEntry { value, ..p[i] }));
        lemma_plain_get_update(p.drop_first(), i - 1, key, value, k);
    }
}

proof fn lemma_plain_get_push<V>(p: Seq<PlainEntry<V>>, e: PlainEntry<V>, k: Seq<u8>)
    requires
        forall|j: int| 0 <= j < p.len() ==> (#[trigger] p[j]).key@ != e.key@,
    ensures
        plain_get(p.push(e), k) == if k == e.key@ {
            e.value
        } else {
            plain_get(p, k)
        },
    decreases p.len(),
{
    if p.len() > 0 {
        assert(p.push(e)[0] == p[0]);
        assert(p.push(e).drop_first() =~= p.drop_first().push(e));
        lemma_plain_get_push(p.drop_first(), e, k);
    } else {
        assert(p.push(e)[0] == e);
        assert(p.push(e).drop_first() =~= Seq::<PlainEntry<V>>::empty());
        assert(plain_get(Seq::<PlainEntry<V>>::empty(), k) == None::<V>);
        assert(p =~= Seq::<PlainEntry<V>>::empty());
    }
}

/// Applying a block leaves every read below that block as it was.
pub proof fn lemma_apply_keeps_past<V>(log: Seq<Write<V>>, writes: Seq<Write<V>>, block: u64, key: Seq<u8>, b: int)
    requires
        forall|i: int| 0 <= i < writes.len() ==> (#[trigger] writes[i]).0 == block,
        b < block,
    ensures
        replay(log + writes, key, b) == replay(log, key, b),
    decreases writes.len(),
{
    if writes.len() == 0 {
        assert(log + writes =~= log);
    } else {
        assert((log + writes).drop_last() =~= log + writes.drop_last());
        lemma_apply_keeps_past(log, writes.drop_last(), block, key, b);
    }
}

/// After a block is applied, a read at or above it sees the block's last
/// write of the key.
pub proof fn lemma_apply_visible<V>(log: Seq<Write<V>>, writes: Seq<Write<V>>, block: u64, key: Seq<u8>, b: int, j: int)
    requires
        forall|i: int| 0 <= i < writes.len() ==> (#[trigger] writes[i]).0 == block,
        0 <= j < writes.len(),
        writes[j].1 == key,
        forall|m: int| j < m < writes.len() ==> (#[trigger] writes[m]).1 != key,
        b >= block,
    ensures
        replay(log + writes, key, b) == writes[j].2,
    decreases writes.len(),
{
    assert((log + writes).drop_last() =~= log + writes.drop_last());
    if j < writes.len() - 1 {
        lemma_apply_visible(log, writes.drop_last(), block, key, b, j);
    }
}

} // verus!
