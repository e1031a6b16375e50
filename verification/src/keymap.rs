use vstd::prelude::*;

verus! {

/// Integer grid position of a chunk.
pub type ChunkKey = (i64, i64, i64);

/// The value that the first entry of `s` with key `k` holds, if any.
pub open spec fn seq_get<V>(s: Seq<(ChunkKey, V)>, k: ChunkKey) -> Option<V>
    decreases s.len(),
{
    if s.len() == 0 {
        None
    } else if s[0].0 == k {
        Some(s[0].1)
    } else {
        seq_get(s.drop_first(), k)
    }
}

/// No two entries share a key.
pub open spec fn distinct_keys<V>(s: Seq<(ChunkKey, V)>) -> bool {
    forall|i: int, j: int| 0 <= i < j < s.len() ==> s[i].0 != s[j].0
}

pub proof fn lemma_seq_get_at<V>(s: Seq<(ChunkKey, V)>, k: ChunkKey, i: int)
    requires
        0 <= i < s.len(),
        s[i].0 == k,
        forall|j: int| 0 <= j < i ==> s[j].0 != k,
    ensures
        seq_get(s, k) == Some(s[i].1),
    decreases i,
{
    if i > 0 {
        lemma_seq_get_at(s.drop_first(), k, i - 1);
    }
}

pub proof fn lemma_seq_get_none<V>(s: Seq<(ChunkKey, V)>, k: ChunkKey)
    requires
        forall|j: int| 0 <= j < s.len() ==> s[j].0 != k,
    ensures
        seq_get(s, k) is None,
    decreases s.len(),
{
    if s.len() > 0 {
        lemma_seq_get_none(s.drop_first(), k);
    }
}

pub proof fn lemma_seq_get_some_index<V>(s: Seq<(ChunkKey, V)>, k: ChunkKey)
    requires
        seq_get(s, k) is Some,
    ensures
        exists|i: int|
            0 <= i < s.len() && #[trigger] s[i].0 == k && s[i].1 == seq_get(s, k)->Some_0,
    decreases s.len(),
{
    if s.len() > 0 && s[0].0 != k {
        lemma_seq_get_some_index(s.drop_first(), k);
        let i = choose|i: int|
            0 <= i < s.drop_first().len() && #[trigger] s.drop_first()[i].0 == k
                && s.drop_first()[i].1 == seq_get(s.drop_first(), k)->Some_0;
        assert(s[i + 1].0 == k && s[i + 1].1 == seq_get(s, k)->Some_0);
    }
}

pub proof fn lemma_seq_get_push<V>(s: Seq<(ChunkKey, V)>, e: (ChunkKey, V), k: ChunkKey)
    ensures
        seq_get(s.push(e), k) == (if seq_get(s, k) is Some {
            seq_get(s, k)
        } else if e.0 == k {
            Some(e.1)
        } else {
            None
        }),
    decreases s.len(),
{
    if s.len() == 0 {
        assert(s.push(e)[0] == e);
        if e.0 != k {
            assert(s.push(e).drop_first() =~= Seq::<(ChunkKey, V)>::empty());
            assert(seq_get(s.push(e), k) == seq_get(Seq::<(ChunkKey, V)>::empty(), k));
            assert(seq_get(Seq::<(ChunkKey, V)>::empty(), k) is None);
        }
    } else {
        assert(s.push(e)[0] == s[0]);
        assert(s.push(e).drop_first() =~= s.drop_first().push(e));
        lemma_seq_get_push(s.drop_first(), e, k);
        if s[0].0 == k {
            assert(seq_get(s, k) == Some(s[0].1));
            assert(seq_get(s.push(e), k) == Some(s[0].1));
        } else {
            assert(seq_get(s.push(e), k) == seq_get(s.drop_first().push(e), k));
            assert(seq_get(s, k) == seq_get(s.drop_first(), k));
        }
    }
}

pub proof fn lemma_seq_get_remove<V>(s: Seq<(ChunkKey, V)>, i: int, k: ChunkKey)
    requires
        distinct_keys(s),
        0 <= i < s.len(),
    ensures
        seq_get(s.remove(i), k) == (if s[i].0 == k {
            None::<V>
        } else {
            seq_get(s, k)
        }),
    decreases s.len(),
{
    if i == 0 {
        assert(s.remove(0) =~= s.drop_first());
        if s[0].0 == k {
            assert(forall|j: int| 0 <= j < s.drop_first().len() ==> s.drop_first()[j] == s[j + 1]);
            lemma_seq_get_none(s.drop_first(), k);
        }
    } else {
        assert(s.remove(i).drop_first() =~= s.drop_first().remove(i - 1));
        assert(distinct_keys(s.drop_first())) by {
            assert(forall|a: int, b: int|
                0 <= a < b < s.drop_first().len() ==> s.drop_first()[a].0 == s[a + 1].0
                    && s.drop_first()[b].0 == s[b + 1].0);
        }
        lemma_seq_get_remove(s.drop_first(), i - 1, k);
        assert(s.remove(i)[0] == s[0]);
    }
}

/// An association map from chunk keys to values, backed by a vector of
/// entries with pairwise distinct keys. The shared task tables and the
/// resident chunk map are instances of it.
pub struct KeyMap<V> {
    entries: Vec<(ChunkKey, V)>,
}

impl<V> KeyMap<V> {
    /// The entries, in insertion order.
    pub closed spec fn seq(self) -> Seq<(ChunkKey, V)> {
        self.entries@
    }

    pub open spec fn wf(self) -> bool {
        distinct_keys(self.seq())
    }

    /// The value stored under `k`, if any.
    pub open spec fn spec_get(self, k: ChunkKey) -> Option<V> {
        seq_get(self.seq(), k)
    }

    pub open spec fn contains_key(self, k: ChunkKey) -> bool {
        self.spec_get(k) is Some
    }

    pub fn new() -> (r: KeyMap<V>)
        ensures
            r.wf(),
            r.seq().len() == 0,
            forall|k: ChunkKey| r.spec_get(k) is None,
    {
        KeyMap { entries: Vec::new() }
    }

    pub fn len(&self) -> (n: usize)
        ensures
            n == self.seq().len(),
    {
        self.entries.len()
    }

    /// Read entry `i`: its key and a reference to its value.
    pub fn entry_at(&self, i: usize) -> (r: (ChunkKey, &V))
        requires
            i < self.seq().len(),
        ensures
            r.0 == self.seq()[i as int].0,
            *r.1 == self.seq()[i as int].1,
    {
        let e = &self.entries[i];
        (e.0, &e.1)
    }

    /// Index of the entry holding `k`, if any.
    fn find(&self, k: ChunkKey) -> (r: Option<usize>)
        ensures
            match r {
                Some(i) => i < self.seq().len() && self.seq()[i as int].0 == k && forall|j: int|
                    0 <= j < i ==> self.seq()[j].0 != k,
                None => forall|j: int| 0 <= j < self.seq().len() ==> self.seq()[j].0 != k,
            },
    {
        let n = self.entries.len();
        let mut i: usize = 0;
        while i < n
            invariant
                i <= n,
                n == self.seq().len(),
                forall|j: int| 0 <= j < i ==> self.seq()[j].0 != k,
            decreases n - i,
        {
            let e = &self.entries[i];
            if e.0.0 == k.0 && e.0.1 == k.1 && e.0.2 == k.2 {
                return Some(i);
            }
            i += 1;
        }
        None
    }

    /// Look up the value stored under `k`.
    pub fn get(&self, k: ChunkKey) -> (r: Option<&V>)
        ensures
            match r {
                Some(v) => self.spec_get(k) == Some(*v),
                None => self.spec_get(k) is None,
            },
    {
        match self.find(k) {
            Some(i) => {
                proof {
                    lemma_seq_get_at(self.seq(), k, i as int);
                }
                Some(&self.entries[i].1)
            },
            None => {
                proof {
                    lemma_seq_get_none(self.seq(), k);
                }
                None
            },
        }
    }

    pub fn contains(&self, k: ChunkKey) -> (b: bool)
        ensures
            b == self.contains_key(k),
    {
        match self.get(k) {
            Some(_) => true,
            None => false,
        }
    }

    /// Store `v` under `k`, replacing any earlier value.
    pub fn insert(&mut self, k: ChunkKey, v: V)
        requires
            old(self).wf(),
        ensures
            final(self).wf(),
            final(self).spec_get(k) == Some(v),
            forall|k2: ChunkKey| k2 != k ==> final(self).spec_get(k2) == old(self).spec_get(k2),
            final(self).seq().len() <= old(self).seq().len() + 1,
            forall|i: int|
                0 <= i < final(self).seq().len() ==> (final(self).seq()[i].0 == k || exists|j: int|
                    0 <= j < old(self).seq().len() && old(self).seq()[j].0
                        == #[trigger] final(self).seq()[i].0),
    {
        let ghost s0 = self.seq();
        match self.find(k) {
            Some(i) => {
                proof {
                    lemma_seq_get_remove(s0, i as int, k);
                }
                self.entries.remove(i);
                let ghost s1 = self.seq();
                proof {
                    assert forall|a: int, b: int|
                        0 <= a < b < s1.len() implies s1[a].0 != s1[b].0 by {
                        if b < i {
                        } else if a < i {
                            assert(s1[b] == s0[b + 1]);
                        } else {
                            assert(s1[a] == s0[a + 1] && s1[b] == s0[b + 1]);
                        }
                    }
                    assert forall|k2: ChunkKey| seq_get(s1, k2) == (if s0[i as int].0 == k2 {
                        None::<V>
                    } else {
                        seq_get(s0, k2)
                    }) by {
                        lemma_seq_get_remove(s0, i as int, k2);
                    }
                }
                self.entries.push((k, v));
                proof {
                    assert forall|k2: ChunkKey| true implies #[trigger] seq_get(self.seq(), k2)
                        == (if k2 == k {
                        Some(v)
                    } else {
                        seq_get(s0, k2)
                    }) by {
                        lemma_seq_get_push(s1, (k, v), k2);
                    }
                    assert forall|a: int, b: int|
                        0 <= a < b < self.seq().len() implies self.seq()[a].0 != self.seq()[b].0 by {
                        if b == self.seq().len() - 1 {
                            if s1[a].0 == k {
                                lemma_seq_get_at(s1, k, a);
                            }
                        }
                    }
                    assert forall|i2: int|
                        0 <= i2 < self.seq().len() implies self.seq()[i2].0 == k || exists|j: int|
                        0 <= j < s0.len() && s0[j].0 == #[trigger] self.seq()[i2].0 by {
                        if i2 < s1.len() {
                            let orig = if i2 < i { i2 } else { i2 + 1 };
                            assert(s0[orig] == s1[i2]);
                        }
                    }
                }
            },
            None => {
                proof {
                    lemma_seq_get_none(s0, k);
                }
                self.entries.push((k, v));
                proof {
                    assert forall|k2: ChunkKey| true implies #[trigger] seq_get(self.seq(), k2)
                        == (if k2 == k {
                        Some(v)
                    } else {
                        seq_get(s0, k2)
                    }) by {
                        lemma_seq_get_push(s0, (k, v), k2);
                    }
                    assert forall|a: int, b: int|
                        0 <= a < b < self.seq().len() implies self.seq()[a].0 != self.seq()[b].0 by {
                        if b == self.seq().len() - 1 {
                            assert(s0[a].0 != k);
                        }
                    }
                    assert forall|i2: int|
                        0 <= i2 < self.seq().len() implies self.seq()[i2].0 == k || exists|j: int|
                        0 <= j < s0.len() && s0[j].0 == #[trigger] self.seq()[i2].0 by {
                        if i2 < s0.len() {
                            assert(s0[i2] == self.seq()[i2]);
                        }
                    }
                }
            },
        }
    }

    /// Remove the value stored under `k`, if any.
    pub fn remove(&mut self, k: ChunkKey)
        requires
            old(self).wf(),
        ensures
            final(self).wf(),
            final(self).spec_get(k) is None,
            forall|k2: ChunkKey| k2 != k ==> final(self).spec_get(k2) == old(self).spec_get(k2),
            final(self).seq().len() <= old(self).seq().len(),
    {
        let ghost s0 = self.seq();
        match self.find(k) {
            Some(i) => {
                self.entries.remove(i);
                let ghost s1 = self.seq();
                proof {
                    assert forall|a: int, b: int|
                        0 <= a < b < s1.len() implies s1[a].0 != s1[b].0 by {
                        if b < i {
                        } else if a < i {
                            assert(s1[b] == s0[b + 1]);
                        } else {
                            assert(s1[a] == s0[a + 1] && s1[b] == s0[b + 1]);
                        }
                    }
                    assert forall|k2: ChunkKey| seq_get(s1, k2) == (if k2 == k {
                        None::<V>
                    } else {
                        seq_get(s0, k2)
                    }) by {
                        lemma_seq_get_remove(s0, i as int, k2);
                        if k2 != k && s0[i as int].0 == k2 {
                            assert(false);
                        }
                    }
                }
            },
            None => {
                proof {
                    lemma_seq_get_none(s0, k);
                }
            },
        }
    }
}

} // verus!
