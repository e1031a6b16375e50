use vstd::prelude::*;

verus! {

use vstd::arithmetic::power2::{pow2, lemma2_to64, lemma_pow2_strictly_increases};
use vstd::bits::{lemma_u64_shr_is_div, lemma_usize_shl_is_mul};
use crate::K;
use crate::chunk::{Chunk, key_in_range};
use crate::keymap::{KeyMap, ChunkKey, lemma_seq_get_at, lemma_seq_get_some_index};

// The chunk streaming manager. The main loop derives the set of required
// `(key, lod)` pairs from the viewer position, reconciles the task tables
// against it, evicts out-of-range chunks and integrates completed ones.
// Workers pick the nearest pending task that is not already being built at
// the same level of detail, build it, and publish the result only if it is
// still wanted (validate before publish: cancellation is cooperative and
// detected at publish time).

/// The shared task tables: tasks not yet claimed, and tasks claimed by some
/// worker, each tagged with the level of detail to build.
pub struct Tasks {
    pub task_list: KeyMap<usize>,
    pub in_progress: KeyMap<usize>,
}

/// The world state owned by the main loop: the resident chunk map.
pub struct World {
    pub chunks: KeyMap<Chunk>,
}

pub open spec fn tasks_wf(t: Tasks) -> bool {
    t.task_list.wf() && t.in_progress.wf()
}

/// The level of detail of the resident chunk under `k`, if any.
pub open spec fn resident_lod(w: World, k: ChunkKey) -> Option<usize> {
    match w.chunks.spec_get(k) {
        Some(c) => Some(c.lod),
        None => None,
    }
}

/// What the pending table holds after dropping entries that the required set
/// no longer asks for at that level of detail.
pub open spec fn retained(p0: KeyMap<usize>, req: KeyMap<usize>, k: ChunkKey) -> Option<usize> {
    if p0.spec_get(k) is Some && p0.spec_get(k) == req.spec_get(k) {
        p0.spec_get(k)
    } else {
        None
    }
}

/// What the pending table holds after one reconciliation pass: for each
/// required `(key, lod)`, the task is pending at `lod` exactly when it was
/// already pending at `lod`, or it is neither being built at `lod` nor
/// already resident at `lod`.
pub open spec fn reconciled(
    p0: KeyMap<usize>,
    ip: KeyMap<usize>,
    w: World,
    req: KeyMap<usize>,
    k: ChunkKey,
) -> Option<usize> {
    match req.spec_get(k) {
        Some(l) => if p0.spec_get(k) == Some(l) || (ip.spec_get(k) != Some(l) && resident_lod(w, k)
            != Some(l)) {
            Some(l)
        } else {
            None
        },
        None => None,
    }
}

/// Squared distance between two chunk keys.
pub open spec fn dist2(a: ChunkKey, b: ChunkKey) -> int {
    (a.0 - b.0) * (a.0 - b.0) + (a.1 - b.1) * (a.1 - b.1) + (a.2 - b.2) * (a.2 - b.2)
}

/// Whether a worker may pick the pending task `(k, l)`: it is pending at `l`
/// and not already being built at the same level of detail.
pub open spec fn qualifies(t: Tasks, k: ChunkKey, l: usize) -> bool {
    t.task_list.spec_get(k) == Some(l) && t.in_progress.spec_get(k) != Some(l)
}

/// Lexicographic task order: distance to the viewer first, then level of
/// detail, preferring finer detail at equal distance.
pub open spec fn task_le(d1: int, l1: usize, d2: int, l2: usize) -> bool {
    d1 < d2 || (d1 == d2 && l1 <= l2)
}

impl Tasks {
    pub fn new() -> (t: Tasks)
        ensures
            tasks_wf(t),
            forall|k: ChunkKey| t.task_list.spec_get(k) is None,
            forall|k: ChunkKey| t.in_progress.spec_get(k) is None,
    {
        Tasks { task_list: KeyMap::new(), in_progress: KeyMap::new() }
    }

    /// Ask for `(key, lod)` to be built: queue it in the pending table,
    /// superseding any pending request for the same key.
    pub fn submit(&mut self, key: ChunkKey, lod: usize)
        requires
            tasks_wf(*old(self)),
        ensures
            tasks_wf(*final(self)),
            final(self).in_progress == old(self).in_progress,
            final(self).task_list.spec_get(key) == Some(lod),
            forall|k: ChunkKey|
                k != key ==> final(self).task_list.spec_get(k) == old(self).task_list.spec_get(k),
    {
        self.task_list.insert(key, lod);
    }

    /// Mark `(key, lod)` as being built by a worker.
    pub fn claim(&mut self, key: ChunkKey, lod: usize)
        requires
            tasks_wf(*old(self)),
        ensures
            tasks_wf(*final(self)),
            final(self).task_list == old(self).task_list,
            final(self).in_progress.spec_get(key) == Some(lod),
            forall|k: ChunkKey|
                k != key ==> final(self).in_progress.spec_get(k) == old(self).in_progress.spec_get(
                    k,
                ),
    {
        self.in_progress.insert(key, lod);
    }

    /// A worker finished building `(key, lod)`. The claim mark is released
    /// only if the work is still current at the same level of detail, and the
    /// result is published only if the pending table still asks for exactly
    /// this level of detail; superseded work is silently discarded.
    pub fn finish(&mut self, key: ChunkKey, lod: usize) -> (publish: bool)
        requires
            tasks_wf(*old(self)),
        ensures
            tasks_wf(*final(self)),
            publish == (old(self).task_list.spec_get(key) == Some(lod)),
            forall|k: ChunkKey|
                final(self).in_progress.spec_get(k) == (if k == key && old(
                    self,
                ).in_progress.spec_get(key) == Some(lod) {
                    None::<usize>
                } else {
                    old(self).in_progress.spec_get(k)
                }),
            forall|k: ChunkKey|
                final(self).task_list.spec_get(k) == (if k == key && old(self).task_list.spec_get(
                    key,
                ) == Some(lod) {
                    None::<usize>
                } else {
                    old(self).task_list.spec_get(k)
                }),
    {
        let ip: Option<usize> = match self.in_progress.get(key) {
            Some(l) => Some(*l),
            None => None,
        };
        match ip {
            Some(l0) => if l0 == lod {
                self.in_progress.remove(key);
            },
            None => {},
        }
        let pl: Option<usize> = match self.task_list.get(key) {
            Some(l) => Some(*l),
            None => None,
        };
        match pl {
            Some(l0) => if l0 == lod {
                self.task_list.remove(key);
                return true;
            },
            None => {},
        }
        false
    }

    /// Reconcile the pending table against the required set: drop pending
    /// tasks that are no longer required at their level of detail, and queue
    /// each required `(key, lod)` that is not already pending, being built,
    /// or resident at that level of detail.
    pub fn reconcile(&mut self, required: &KeyMap<usize>, world: &World)
        requires
            tasks_wf(*old(self)),
            required.wf(),
            world.chunks.wf(),
        ensures
            tasks_wf(*final(self)),
            final(self).in_progress == old(self).in_progress,
            forall|k: ChunkKey|
                final(self).task_list.spec_get(k) == reconciled(
                    old(self).task_list,
                    old(self).in_progress,
                    *world,
                    *required,
                    k,
                ),
    {
        let ghost p0 = self.task_list;
        // Drop pending tasks whose key/lod pair is no longer required.
        let mut drop_keys: Vec<ChunkKey> = Vec::new();
        let n = self.task_list.len();
        let mut i: usize = 0;
        while i < n
            invariant
                i <= n,
                *self == *old(self),
                p0 == self.task_list,
                n == p0.seq().len(),
                p0.wf(),
                forall|j: int|
                    0 <= j < i ==> required.spec_get(#[trigger] p0.seq()[j].0) == Some(
                        p0.seq()[j].1,
                    ) || drop_keys@.contains(p0.seq()[j].0),
                forall|j: int|
                    0 <= j < drop_keys@.len() ==> retained(p0, *required, #[trigger] drop_keys@[j])
                        is None,
            decreases n - i,
        {
            let (k, l) = self.task_list.entry_at(i);
            let l = *l;
            let keep = match required.get(k) {
                Some(rl) => *rl == l,
                None => false,
            };
            if !keep {
                proof {
                    lemma_seq_get_at(p0.seq(), k, i as int);
                    assert(forall|j: int| 0 <= j < i ==> p0.seq()[j].0 != k || !p0.wf());
                }
                let ghost dk0 = drop_keys@;
                drop_keys.push(k);
                proof {
                    assert(drop_keys@[dk0.len() as int] == k);
                    assert(forall|j: int| 0 <= j < dk0.len() ==> drop_keys@[j] == dk0[j]);
                    assert(drop_keys@.contains(k));
                    assert(forall|x: ChunkKey| dk0.contains(x) ==> drop_keys@.contains(x));
                }
            } else {
                proof {
                    lemma_seq_get_at(p0.seq(), k, i as int);
                }
            }
            i += 1;
        }
        let m = drop_keys.len();
        let mut t: usize = 0;
        while t < m
            invariant
                t <= m,
                m == drop_keys@.len(),
                self.in_progress == old(self).in_progress,
                self.task_list.wf(),
                p0 == old(self).task_list,
                p0.wf(),
                forall|j: int|
                    0 <= j < n ==> required.spec_get(#[trigger] p0.seq()[j].0) == Some(
                        p0.seq()[j].1,
                    ) || drop_keys@.contains(p0.seq()[j].0),
                n == p0.seq().len(),
                forall|j: int|
                    0 <= j < drop_keys@.len() ==> retained(p0, *required, #[trigger] drop_keys@[j])
                        is None,
                forall|k: ChunkKey|
                    self.task_list.spec_get(k) == (if exists|j: int|
                        0 <= j < t && drop_keys@[j] == k {
                        None::<usize>
                    } else {
                        p0.spec_get(k)
                    }),
            decreases m - t,
        {
            let k = drop_keys[t];
            self.task_list.remove(k);
            proof {
                assert(drop_keys@[t as int] == k);
                assert forall|k2: ChunkKey|
                    self.task_list.spec_get(k2) == (if exists|j: int|
                        0 <= j < t + 1 && drop_keys@[j] == k2 {
                        None::<usize>
                    } else {
                        p0.spec_get(k2)
                    }) by {
                    if k2 == k {
                    } else {
                        assert((exists|j: int| 0 <= j < t + 1 && drop_keys@[j] == k2) == (exists|
                            j: int,
                        | 0 <= j < t && drop_keys@[j] == k2));
                    }
                }
            }
            t += 1;
        }
        proof {
            assert forall|k: ChunkKey|
                self.task_list.spec_get(k) == retained(p0, *required, k) by {
                if retained(p0, *required, k) is Some {
                    if exists|j: int| 0 <= j < m && drop_keys@[j] == k {
                        let j = choose|j: int| 0 <= j < m && drop_keys@[j] == k;
                        assert(retained(p0, *required, drop_keys@[j]) is None);
                        assert(false);
                    }
                } else {
                    if p0.spec_get(k) is Some {
                        lemma_seq_get_some_index(p0.seq(), k);
                        let j = choose|j: int|
                            0 <= j < p0.seq().len() && #[trigger] p0.seq()[j].0 == k
                                && p0.seq()[j].1 == p0.spec_get(k)->Some_0;
                        assert(required.spec_get(p0.seq()[j].0) == Some(p0.seq()[j].1)
                            || drop_keys@.contains(p0.seq()[j].0));
                        if required.spec_get(k) == Some(p0.seq()[j].1) {
                            assert(retained(p0, *required, k) is Some);
                            assert(false);
                        }
                        assert(drop_keys@.contains(k));
                        let j2 = choose|j2: int| 0 <= j2 < drop_keys@.len() && drop_keys@[j2] == k;
                        assert(exists|j3: int| 0 <= j3 < m && drop_keys@[j3] == k);
                    }
                }
            }
        }
        // Queue required tasks that are not already pending, being built, or
        // resident at the required level of detail.
        let ghost ip0 = self.in_progress;
        let rn = required.len();
        let mut ri: usize = 0;
        while ri < rn
            invariant
                ri <= rn,
                rn == required.seq().len(),
                required.wf(),
                world.chunks.wf(),
                self.in_progress == old(self).in_progress,
                ip0 == old(self).in_progress,
                p0 == old(self).task_list,
                self.task_list.wf(),
                forall|k: ChunkKey|
                    self.task_list.spec_get(k) == (if exists|j: int|
                        0 <= j < ri && #[trigger] required.seq()[j].0 == k {
                        reconciled(p0, ip0, *world, *required, k)
                    } else {
                        retained(p0, *required, k)
                    }),
            decreases rn - ri,
        {
            let (k, l) = required.entry_at(ri);
            let l = *l;
            proof {
                lemma_seq_get_at(required.seq(), k, ri as int);
            }
            let pending_same = match self.task_list.get(k) {
                Some(pl) => *pl == l,
                None => false,
            };
            let building_same = match self.in_progress.get(k) {
                Some(il) => *il == l,
                None => false,
            };
            let resident_same = match self.world_lod(world, k) {
                Some(rl) => rl == l,
                None => false,
            };
            if !pending_same && !building_same && !resident_same {
                self.task_list.insert(k, l);
            }
            proof {
                assert forall|k2: ChunkKey|
                    self.task_list.spec_get(k2) == (if exists|j: int|
                        0 <= j < ri + 1 && #[trigger] required.seq()[j].0 == k2 {
                        reconciled(p0, ip0, *world, *required, k2)
                    } else {
                        retained(p0, *required, k2)
                    }) by {
                    if k2 == k {
                    } else {
                        assert((exists|j: int| 0 <= j < ri + 1 && #[trigger] required.seq()[j].0
                            == k2) == (exists|j: int|
                            0 <= j < ri && #[trigger] required.seq()[j].0 == k2));
                    }
                }
            }
            ri += 1;
        }
        proof {
            assert forall|k: ChunkKey|
                self.task_list.spec_get(k) == reconciled(p0, ip0, *world, *required, k) by {
                if required.spec_get(k) is Some {
                    lemma_seq_get_some_index(required.seq(), k);
                }
            }
        }
    }

    /// The level of detail of the resident chunk under `k`, if any.
    fn world_lod(&self, world: &World, k: ChunkKey) -> (r: Option<usize>)
        ensures
            r == resident_lod(*world, k),
    {
        match world.chunks.get(k) {
            Some(c) => Some(c.lod),
            None => None,
        }
    }

    /// Select the task a worker should build next: among pending tasks whose
    /// key is not already being built at the same level of detail, the one
    /// nearest the viewer, preferring finer detail at equal distance. Returns
    /// nothing when no task qualifies.
    pub fn next_task(&self, viewer: ChunkKey) -> (r: Option<(ChunkKey, usize)>)
        requires
            tasks_wf(*self),
            key_in_range(viewer),
            forall|i: int|
                0 <= i < self.task_list.seq().len() ==> key_in_range(
                    #[trigger] self.task_list.seq()[i].0,
                ),
        ensures
            match r {
                Some(t) => qualifies(*self, t.0, t.1) && forall|k2: ChunkKey, l2: usize|
                    qualifies(*self, k2, l2) ==> task_le(
                        dist2(t.0, viewer),
                        t.1,
                        dist2(k2, viewer),
                        l2,
                    ),
                None => forall|k2: ChunkKey, l2: usize| !qualifies(*self, k2, l2),
            },
    {
        let n = self.task_list.len();
        let mut best: Option<(ChunkKey, usize, i64)> = None;
        let mut i: usize = 0;
        while i < n
            invariant
                i <= n,
                n == self.task_list.seq().len(),
                tasks_wf(*self),
                key_in_range(viewer),
                forall|j: int|
                    0 <= j < n ==> key_in_range(#[trigger] self.task_list.seq()[j].0),
                match best {
                    Some(b) => qualifies(*self, b.0, b.1) && b.2 == dist2(b.0, viewer) && forall|
                        j: int,
                    |
                        0 <= j < i && qualifies(
                            *self,
                            #[trigger] self.task_list.seq()[j].0,
                            self.task_list.seq()[j].1,
                        ) ==> task_le(
                            b.2 as int,
                            b.1,
                            dist2(self.task_list.seq()[j].0, viewer),
                            self.task_list.seq()[j].1,
                        ),
                    None => forall|j: int|
                        0 <= j < i ==> !qualifies(
                            *self,
                            #[trigger] self.task_list.seq()[j].0,
                            self.task_list.seq()[j].1,
                        ),
                },
            decreases n - i,
        {
            let (k, l) = self.task_list.entry_at(i);
            let l = *l;
            proof {
                lemma_seq_get_at(self.task_list.seq(), k, i as int);
                assert(self.task_list.spec_get(k) == Some(l));
            }
            let building_same = match self.in_progress.get(k) {
                Some(il) => *il == l,
                None => false,
            };
            if !building_same {
                let dx = k.0 - viewer.0;
                let dy = k.1 - viewer.1;
                let dz = k.2 - viewer.2;
                proof {
                    assert(dx * dx + dy * dy + dz * dz <= 0x1000_0000_0000_0000i64 && dx * dx >= 0
                        && dy * dy >= 0 && dz * dz >= 0)
                        by (nonlinear_arith)
                        requires
                            -0x400_0000 <= dx <= 0x400_0000,
                            -0x400_0000 <= dy <= 0x400_0000,
                            -0x400_0000 <= dz <= 0x400_0000,
                    ;
                }
                let d = dx * dx + dy * dy + dz * dz;
                let better = match best {
                    Some(b) => d < b.2 || (d == b.2 && l < b.1),
                    None => true,
                };
                if better {
                    best = Some((k, l, d));
                }
            }
            i += 1;
        }
        proof {
            if let Some(b) = best {
                assert forall|k2: ChunkKey, l2: usize| qualifies(*self, k2, l2) implies task_le(
                    b.2 as int,
                    b.1,
                    dist2(k2, viewer),
                    l2,
                ) by {
                    lemma_seq_get_some_index(self.task_list.seq(), k2);
                }
            } else {
                assert forall|k2: ChunkKey, l2: usize| true implies !qualifies(*self, k2, l2) by {
                    if self.task_list.spec_get(k2) == Some(l2) {
                        lemma_seq_get_some_index(self.task_list.seq(), k2);
                    }
                }
            }
        }
        match best {
            Some(b) => Some((b.0, b.1)),
            None => None,
        }
    }
}

/// No duplicate in-flight work: the in-progress table never holds two
/// entries for the same key, so a key is never claimed twice at the same
/// level of detail.
pub proof fn lemma_no_duplicate_in_flight(t: Tasks, i: int, j: int)
    requires
        tasks_wf(t),
        0 <= i < j < t.in_progress.seq().len(),
    ensures
        t.in_progress.seq()[i].0 != t.in_progress.seq()[j].0,
{
}

impl World {
    pub fn new() -> (w: World)
        ensures
            w.chunks.wf(),
            forall|k: ChunkKey| w.chunks.spec_get(k) is None,
    {
        World { chunks: KeyMap::new() }
    }

    /// Integrate one completed chunk received from a worker, replacing any
    /// earlier chunk under the same key.
    pub fn integrate(&mut self, key: ChunkKey, chunk: Chunk)
        requires
            old(self).chunks.wf(),
        ensures
            final(self).chunks.wf(),
            final(self).chunks.spec_get(key) == Some(chunk),
            forall|k: ChunkKey|
                k != key ==> final(self).chunks.spec_get(k) == old(self).chunks.spec_get(k),
    {
        self.chunks.insert(key, chunk);
    }

    /// Evict chunks whose key the required set no longer contains. After the
    /// call, the resident key set is exactly the required key set intersected
    /// with the keys that had completed work.
    pub fn evict(&mut self, required: &KeyMap<usize>)
        requires
            old(self).chunks.wf(),
        ensures
            final(self).chunks.wf(),
            forall|k: ChunkKey|
                final(self).chunks.spec_get(k) == (if required.contains_key(k) {
                    old(self).chunks.spec_get(k)
                } else {
                    None::<Chunk>
                }),
    {
        let ghost c0 = self.chunks;
        let mut drop_keys: Vec<ChunkKey> = Vec::new();
        let n = self.chunks.len();
        let mut i: usize = 0;
        while i < n
            invariant
                i <= n,
                *self == *old(self),
                c0 == self.chunks,
                n == c0.seq().len(),
                c0.wf(),
                forall|j: int|
                    0 <= j < i ==> required.contains_key(#[trigger] c0.seq()[j].0)
                        || drop_keys@.contains(c0.seq()[j].0),
                forall|j: int|
                    0 <= j < drop_keys@.len() ==> !required.contains_key(
                        #[trigger] drop_keys@[j],
                    ),
            decreases n - i,
        {
            let (k, _) = self.chunks.entry_at(i);
            if !required.contains(k) {
                let ghost dk0 = drop_keys@;
                drop_keys.push(k);
                proof {
                    assert(drop_keys@[dk0.len() as int] == k);
                    assert(forall|j: int| 0 <= j < dk0.len() ==> drop_keys@[j] == dk0[j]);
                    assert(drop_keys@.contains(k));
                    assert(forall|x: ChunkKey| dk0.contains(x) ==> drop_keys@.contains(x));
                }
            }
            i += 1;
        }
        let m = drop_keys.len();
        let mut t: usize = 0;
        while t < m
            invariant
                t <= m,
                m == drop_keys@.len(),
                self.chunks.wf(),
                c0 == old(self).chunks,
                c0.wf(),
                n == c0.seq().len(),
                forall|j: int|
                    0 <= j < n ==> required.contains_key(#[trigger] c0.seq()[j].0)
                        || drop_keys@.contains(c0.seq()[j].0),
                forall|j: int|
                    0 <= j < drop_keys@.len() ==> !required.contains_key(
                        #[trigger] drop_keys@[j],
                    ),
                forall|k: ChunkKey|
                    self.chunks.spec_get(k) == (if exists|j: int|
                        0 <= j < t && drop_keys@[j] == k {
                        None::<Chunk>
                    } else {
                        c0.spec_get(k)
                    }),
            decreases m - t,
        {
            let k = drop_keys[t];
            self.chunks.remove(k);
            proof {
                assert(drop_keys@[t as int] == k);
                assert forall|k2: ChunkKey|
                    self.chunks.spec_get(k2) == (if exists|j: int|
                        0 <= j < t + 1 && drop_keys@[j] == k2 {
                        None::<Chunk>
                    } else {
                        c0.spec_get(k2)
                    }) by {
                    if k2 != k {
                        assert((exists|j: int| 0 <= j < t + 1 && drop_keys@[j] == k2) == (exists|
                            j: int,
                        | 0 <= j < t && drop_keys@[j] == k2));
                    }
                }
            }
            t += 1;
        }
        proof {
            assert forall|k: ChunkKey|
                self.chunks.spec_get(k) == (if required.contains_key(k) {
                    c0.spec_get(k)
                } else {
                    None::<Chunk>
                }) by {
                if required.contains_key(k) {
                    if exists|j: int| 0 <= j < m && drop_keys@[j] == k {
                        let j = choose|j: int| 0 <= j < m && drop_keys@[j] == k;
                        assert(!required.contains_key(drop_keys@[j]));
                        assert(false);
                    }
                } else {
                    if c0.spec_get(k) is Some {
                        lemma_seq_get_some_index(c0.seq(), k);
                        let j = choose|j: int|
                            0 <= j < c0.seq().len() && #[trigger] c0.seq()[j].0 == k
                                && c0.seq()[j].1 == c0.spec_get(k)->Some_0;
                        assert(required.contains_key(c0.seq()[j].0) || drop_keys@.contains(
                            c0.seq()[j].0,
                        ));
                        let j2 = choose|j2: int| 0 <= j2 < drop_keys@.len() && drop_keys@[j2] == k;
                        assert(exists|j3: int| 0 <= j3 < m && drop_keys@[j3] == k);
                    }
                }
            }
        }
    }
}

/// The square root of `v`, rounded down.
pub open spec fn sqrt_floor(v: nat) -> nat
    decreases v,
{
    if v == 0 {
        0
    } else {
        let r = sqrt_floor((v - 1) as nat);
        if (r + 1) * (r + 1) <= v {
            r + 1
        } else {
            r
        }
    }
}

pub proof fn lemma_sqrt_floor_bounds(v: nat)
    ensures
        sqrt_floor(v) * sqrt_floor(v) <= v,
        v < (sqrt_floor(v) + 1) * (sqrt_floor(v) + 1),
    decreases v,
{
    if v == 0 {
        let s = sqrt_floor(v);
        assert(v < (s + 1) * (s + 1)) by (nonlinear_arith)
            requires
                s == 0nat,
                v == 0nat,
        ;
    } else {
        lemma_sqrt_floor_bounds((v - 1) as nat);
        let r0 = sqrt_floor((v - 1) as nat);
        let s = sqrt_floor(v);
        if (r0 + 1) * (r0 + 1) <= v {
            assert(s == r0 + 1);
            assert(v <= (r0 + 1) * (r0 + 1));
            assert(v < (s + 1) * (s + 1)) by (nonlinear_arith)
                requires
                    s == r0 + 1,
                    v <= (r0 + 1) * (r0 + 1),
            ;
            assert(s * s <= v);
        } else {
            assert(s == r0);
            assert(s * s <= v);
            assert(v < (s + 1) * (s + 1));
        }
    }
}

pub proof fn lemma_sqrt_floor_unique(v: nat, r: nat)
    requires
        r * r <= v,
        v < (r + 1) * (r + 1),
    ensures
        r == sqrt_floor(v),
{
    lemma_sqrt_floor_bounds(v);
    let s = sqrt_floor(v);
    if r < s {
        assert((r + 1) * (r + 1) <= s * s) by (nonlinear_arith)
            requires
                r < s,
        ;
    }
    if s < r {
        assert((s + 1) * (s + 1) <= r * r) by (nonlinear_arith)
            requires
                s < r,
        ;
    }
}

/// Integer square root, rounded down.
pub fn isqrt(v: u64) -> (r: u64)
    requires
        v <= 0x1_0000_0000,
    ensures
        r == sqrt_floor(v as nat),
{
    let mut r: u64 = 0;
    while r < 0x1_0000
        invariant
            v <= 0x1_0000_0000,
            r <= 0x1_0000,
            r * r <= v,
        ensures
            r * r <= v,
            v < (r + 1) * (r + 1) || r == 0x1_0000,
        decreases 0x1_0000u64 - r,
    {
        let q = r + 1;
        proof {
            assert(q * q <= 0x1_0000_2000 && q * q >= 0) by (nonlinear_arith)
                requires
                    1 <= q <= 0x1_0000,
            ;
        }
        if q * q <= v {
            r = q;
        } else {
            break ;
        }
    }
    proof {
        if r == 0x1_0000 {
            assert((r + 1) * (r + 1) > 0x1_0000_0000) by (nonlinear_arith)
                requires
                    r == 0x1_0000u64,
            ;
        }
        lemma_sqrt_floor_unique(v as nat, r as nat);
    }
    r
}

/// The square root, and with it the level of detail, never decreases as the
/// squared distance grows.
pub proof fn lemma_sqrt_floor_monotone(v1: nat, v2: nat)
    requires
        v1 <= v2,
    ensures
        sqrt_floor(v1) <= sqrt_floor(v2),
{
    lemma_sqrt_floor_bounds(v1);
    lemma_sqrt_floor_bounds(v2);
    let r1 = sqrt_floor(v1);
    let r2 = sqrt_floor(v2);
    if r1 > r2 {
        assert((r2 + 1) * (r2 + 1) <= r1 * r1) by (nonlinear_arith)
            requires
                r2 < r1,
        ;
    }
}

/// The required level of detail is a monotonically non-decreasing function
/// of the squared planar distance from the viewer.
pub proof fn lemma_lod_monotone(dx1: int, dy1: int, dx2: int, dy2: int, lod_shift: nat)
    requires
        dx1 * dx1 + dy1 * dy1 <= dx2 * dx2 + dy2 * dy2,
        0 <= dx1 * dx1 + dy1 * dy1,
    ensures
        lod_for(dx1, dy1, lod_shift) <= lod_for(dx2, dy2, lod_shift),
{
    vstd::arithmetic::power2::lemma_pow2_pos(lod_shift);
    lemma_sqrt_floor_monotone((dx1 * dx1 + dy1 * dy1) as nat, (dx2 * dx2 + dy2 * dy2) as nat);
    vstd::arithmetic::div_mod::lemma_div_is_ordered(
        sqrt_floor((dx1 * dx1 + dy1 * dy1) as nat) as int,
        sqrt_floor((dx2 * dx2 + dy2 * dy2) as nat) as int,
        pow2(lod_shift) as int,
    );
}

/// The level of detail the required set asks for at planar offset
/// `(dx, dy)` from the viewer: the distance, rounded down, divided by
/// `2^lod_shift`.
pub open spec fn lod_for(dx: int, dy: int, lod_shift: nat) -> int {
    sqrt_floor((dx * dx + dy * dy) as nat) as int / pow2(lod_shift) as int
}

/// The entry the required set holds for key `k`: chunks of the two ground
/// layers within the generation radius, at a level of detail that grows with
/// planar distance from the viewer and never exceeds `max_lod`.
pub open spec fn required_lod(c: ChunkKey, max_lod: int, lod_shift: nat, k: ChunkKey) -> Option<
    usize,
> {
    let dx = k.0 - c.0;
    let dy = k.1 - c.1;
    let radius = 6 * pow2(lod_shift) as int;
    if -radius <= dx <= radius && -radius <= dy <= radius && 0 <= k.2 <= 1 && lod_for(
        dx,
        dy,
        lod_shift,
    ) <= max_lod {
        Some(lod_for(dx, dy, lod_shift) as usize)
    } else {
        None
    }
}

/// Compute the required set: for every offset within the generation radius
/// around the viewer cell, the key and the level of detail at which it must
/// be resident. Pure and deterministic in its arguments.
pub fn required_set(camera_index: ChunkKey, max_lod: usize, lod_shift: usize) -> (r: KeyMap<usize>)
    requires
        key_in_range(camera_index),
        max_lod <= K,
        lod_shift <= 6,
    ensures
        r.wf(),
        forall|k: ChunkKey|
            r.spec_get(k) == required_lod(camera_index, max_lod as int, lod_shift as nat, k),
{
    proof {
        lemma2_to64();
        if lod_shift < 6 {
            lemma_pow2_strictly_increases(lod_shift as nat, 6);
        }
        lemma_usize_shl_is_mul(K, lod_shift);
    }
    let radius = (K << lod_shift) as i64;
    let ghost rad = radius as int;
    let mut out: KeyMap<usize> = KeyMap::new();
    let mut dx: i64 = -radius;
    while dx <= radius
        invariant
            -rad <= dx <= rad + 1,
            rad == radius as int,
            rad == 6 * pow2(lod_shift as nat),
            1 <= rad <= 384,
            key_in_range(camera_index),
            max_lod <= 6,
            lod_shift <= 6,
            out.wf(),
            forall|k: ChunkKey|
                out.spec_get(k) == (if k.0 - camera_index.0 < dx {
                    required_lod(camera_index, max_lod as int, lod_shift as nat, k)
                } else {
                    None::<usize>
                }),
        decreases rad + 1 - dx,
    {
        let mut dy: i64 = -radius;
        while dy <= radius
            invariant
                -rad <= dx <= rad,
                -rad <= dy <= rad + 1,
                rad == radius as int,
                rad == 6 * pow2(lod_shift as nat),
                1 <= rad <= 384,
                key_in_range(camera_index),
                max_lod <= 6,
                lod_shift <= 6,
                out.wf(),
                forall|k: ChunkKey|
                    out.spec_get(k) == (if k.0 - camera_index.0 < dx || (k.0 - camera_index.0 == dx
                        && k.1 - camera_index.1 < dy) {
                        required_lod(camera_index, max_lod as int, lod_shift as nat, k)
                    } else {
                        None::<usize>
                    }),
            decreases rad + 1 - dy,
        {
            proof {
                assert(0 <= dx * dx + dy * dy <= 0x8_0000 && dx * dx >= 0 && dy * dy >= 0)
                    by (nonlinear_arith)
                    requires
                        -384 <= dx <= 384,
                        -384 <= dy <= 384,
                ;
            }
            let d2 = (dx * dx + dy * dy) as u64;
            let root = isqrt(d2);
            proof {
                lemma_sqrt_floor_bounds(d2 as nat);
                assert(sqrt_floor(d2 as nat) <= 768) by {
                    if sqrt_floor(d2 as nat) > 768 {
                        assert(769 * 769 > 0x8_0000) by (nonlinear_arith);
                        assert(sqrt_floor(d2 as nat) * sqrt_floor(d2 as nat) >= 769 * 769)
                            by (nonlinear_arith)
                            requires
                                sqrt_floor(d2 as nat) >= 769,
                        ;
                    }
                }
                lemma_u64_shr_is_div(root, lod_shift as u64);
            }
            let lod = (root >> lod_shift) as usize;
            proof {
                vstd::arithmetic::div_mod::lemma_div_pos_is_pos(root as int, pow2(
                    lod_shift as nat,
                ) as int);
                vstd::arithmetic::div_mod::lemma_div_is_ordered(
                    root as int,
                    768,
                    pow2(lod_shift as nat) as int,
                );
            }
            let mut z: i64 = 0;
            while z <= 1
                invariant
                    0 <= z <= 2,
                    -rad <= dx <= rad,
                    -rad <= dy <= rad,
                    rad == radius as int,
                    rad == 6 * pow2(lod_shift as nat),
                    1 <= rad <= 384,
                    key_in_range(camera_index),
                    max_lod <= 6,
                    lod_shift <= 6,
                    out.wf(),
                    lod == lod_for(dx as int, dy as int, lod_shift as nat),
                    0 <= lod <= 768,
                    forall|k: ChunkKey|
                        out.spec_get(k) == (if k.0 - camera_index.0 < dx || (k.0 - camera_index.0
                            == dx && k.1 - camera_index.1 < dy) || (k.0 - camera_index.0 == dx
                            && k.1 - camera_index.1 == dy && 0 <= k.2 < z) {
                            required_lod(camera_index, max_lod as int, lod_shift as nat, k)
                        } else {
                            None::<usize>
                        }),
                decreases 2 - z,
            {
                let key = (camera_index.0 + dx, camera_index.1 + dy, z);
                if lod <= max_lod {
                    out.insert(key, lod);
                }
                z += 1;
            }
            dy += 1;
        }
        dx += 1;
    }
    proof {
        assert forall|k: ChunkKey|
            out.spec_get(k) == required_lod(camera_index, max_lod as int, lod_shift as nat, k)
            by {
            if !(k.0 - camera_index.0 < rad + 1) {
                assert(required_lod(camera_index, max_lod as int, lod_shift as nat, k) is None);
            }
        }
    }
    out
}

/// Eviction completeness: after eviction against the required set, a key is
/// resident exactly when it is required and had completed work before.
pub proof fn lemma_eviction_complete(w0: World, w: World, required: KeyMap<usize>)
    requires
        forall|k: ChunkKey|
            w.chunks.spec_get(k) == (if required.contains_key(k) {
                w0.chunks.spec_get(k)
            } else {
                None::<Chunk>
            }),
    ensures
        forall|k: ChunkKey|
            w.chunks.contains_key(k) <==> (required.contains_key(k) && w0.chunks.contains_key(k)),
{
}

} // verus!
