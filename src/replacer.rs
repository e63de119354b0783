use vstd::prelude::*;

verus! {

/// Access history of one frame.
#[derive(Debug)]
pub struct LRUKNode {
    /// Timestamps of the most recent accesses, oldest first, at most `k` of them.
    pub history: Vec<u64>,
    pub is_evictable: bool,
}

/// Picks eviction victims by backward K-distance.
#[derive(Debug)]
pub struct LRUKReplacer {
    pub k: usize,
    pub current_timestamp: u64,
    pub nodes: Vec<LRUKNode>,
}

/// A frame's standing for eviction: whether its distance is infinite (fewer than `k`
/// accesses), and the timestamp that ranks it among its peers — its latest access if the
/// distance is infinite, else its `k`-th most recent access.
pub open spec fn eviction_key(h: Seq<u64>, k: nat) -> (bool, u64) {
    if h.len() == 0 {
        (true, 0)
    } else if h.len() < k {
        (true, h.last())
    } else {
        (false, h[h.len() - k])
    }
}

/// Frame history `a` is evicted no later than `b`: an infinite distance goes first, then the
/// older ranking timestamp.
pub open spec fn evicts_before(a: Seq<u64>, b: Seq<u64>, k: nat) -> bool {
    let (ia, ta) = eviction_key(a, k);
    let (ib, tb) = eviction_key(b, k);
    (ia && !ib) || (ia == ib && ta <= tb)
}

/// The history after one more access at `now`: appended, and cut to the `k` latest.
pub open spec fn history_after_access(h: Seq<u64>, now: u64, k: nat) -> Seq<u64> {
    let h1 = h.push(now);
    if h1.len() > k {
        h1.drop_first()
    } else {
        h1
    }
}

impl LRUKReplacer {
    pub open spec fn histories(&self) -> Seq<Seq<u64>> {
        self.nodes@.map_values(|n: LRUKNode| n@)
    }

    pub open spec fn evictable(&self) -> Seq<bool> {
        self.nodes@.map_values(|n: LRUKNode| n.is_evictable)
    }

    pub open spec fn wf(&self) -> bool {
        &&& self.k >= 1
        &&& forall|f: int| 0 <= f < self.nodes@.len() ==> (#[trigger] self.nodes@[f]).history@.len() <= self.k
    }

    /// The number of `true` flags.
    pub open spec fn count_evictable(e: Seq<bool>) -> nat
        decreases e.len(),
    {
        if e.len() == 0 {
            0
        } else {
            Self::count_evictable(e.drop_last()) + if e.last() { 1nat } else { 0nat }
        }
    }

    pub fn new(num_frames: usize, k: usize) -> (r: Self)
        requires
            k >= 1,
        ensures
            r.wf(),
            r.k == k,
            r.current_timestamp == 0,
            r.nodes@.len() == num_frames,
            forall|f: int| 0 <= f < num_frames ==> (#[trigger] r.nodes@[f]).history@.len() == 0 && !r.nodes@[f].is_evictable,
    {
        let mut nodes: Vec<LRUKNode> = Vec::new();
        for i in 0..num_frames
            invariant
                nodes@.len() == i,
                forall|f: int| 0 <= f < i ==> (#[trigger] nodes@[f]).history@.len() == 0 && !nodes@[f].is_evictable,
        {
            nodes.push(LRUKNode { history: Vec::new(), is_evictable: false });
        }
        LRUKReplacer { k, current_timestamp: 0, nodes }
    }

    /// Records an access to `frame_id` at the current time, which then advances. A frame out
    /// of range is ignored.
    pub fn record_access(&mut self, frame_id: usize)
        requires
            old(self).wf(),
            old(self).current_timestamp < u64::MAX,
        ensures
            final(self).wf(),
            final(self).k == old(self).k,
            final(self).nodes@.len() == old(self).nodes@.len(),
            final(self).evictable() == old(self).evictable(),
            final(self).current_timestamp == old(self).current_timestamp + 1,
            frame_id < old(self).nodes@.len() ==> final(self).histories() == old(self).histories().update(
                frame_id as int,
                history_after_access(old(self).nodes@[frame_id as int]@, old(self).current_timestamp, old(self).k as nat),
            ),
            frame_id >= old(self).nodes@.len() ==> final(self).histories() == old(self).histories(),
    {
        let now = self.current_timestamp;
        if frame_id < self.nodes.len() {
            let ghost old_nodes = self.nodes@;
            let mut node = LRUKNode { history: Vec::new(), is_evictable: false };
            std::mem::swap(&mut node, &mut self.nodes[frame_id]);
            node.history.push(now);
            if node.history.len() > self.k {
                node.history.remove(0);
            }
            std::mem::swap(&mut node, &mut self.nodes[frame_id]);
            proof {
                let h1 = old_nodes[frame_id as int].history@.push(now);
                if h1.len() > self.k {
                    assert(self.nodes@[frame_id as int].history@ =~= h1.drop_first());
                }
                assert(self.histories() =~= old(self).histories().update(
                    frame_id as int,
                    history_after_access(old(self).nodes@[frame_id as int]@, now, self.k as nat),
                ));
                assert(self.evictable() =~= old(self).evictable());
            }
        }
        proof {
            if frame_id >= self.nodes.len() {
                assert(self.histories() =~= old(self).histories());
            }
        }
        self.current_timestamp = now + 1;
    }

    /// Marks whether `frame_id` may be chosen as a victim. A frame out of range is ignored.
    pub fn set_evictable(&mut self, frame_id: usize, set_evictable: bool)
        requires
            old(self).wf(),
        ensures
            final(self).wf(),
            final(self).k == old(self).k,
            final(self).current_timestamp == old(self).current_timestamp,
            final(self).nodes@.len() == old(self).nodes@.len(),
            final(self).histories() == old(self).histories(),
            frame_id < old(self).nodes@.len() ==> final(self).evictable() == old(self).evictable().update(
                frame_id as int,
                set_evictable,
            ),
            frame_id >= old(self).nodes@.len() ==> final(self).evictable() == old(self).evictable(),
    {
        if frame_id < self.nodes.len() {
            let ghost old_nodes = self.nodes@;
            let mut node = LRUKNode { history: Vec::new(), is_evictable: false };
            std::mem::swap(&mut node, &mut self.nodes[frame_id]);
            node.is_evictable = set_evictable;
            std::mem::swap(&mut node, &mut self.nodes[frame_id]);
            assert(self.histories() =~= old(self).histories());
            assert(self.evictable() =~= old(self).evictable().update(frame_id as int, set_evictable));
        } else {
            assert(self.histories() =~= old(self).histories());
            assert(self.evictable() =~= old(self).evictable());
        }
    }

    /// Forgets the history of an evictable frame and makes it unevictable. Any other frame is
    /// left alone.
    pub fn remove(&mut self, frame_id: usize)
        requires
            old(self).wf(),
        ensures
            final(self).wf(),
            final(self).k == old(self).k,
            final(self).current_timestamp == old(self).current_timestamp,
            final(self).nodes@.len() == old(self).nodes@.len(),
            (frame_id < old(self).nodes@.len() && old(self).evictable()[frame_id as int]) ==> {
                &&& final(self).histories() == old(self).histories().update(frame_id as int, Seq::empty())
                &&& final(self).evictable() == old(self).evictable().update(frame_id as int, false)
            },
            !(frame_id < old(self).nodes@.len() && old(self).evictable()[frame_id as int]) ==> {
                &&& final(self).histories() == old(self).histories()
                &&& final(self).evictable() == old(self).evictable()
            },
    {
        if frame_id < self.nodes.len() && self.nodes[frame_id].is_evictable {
            self.nodes.set(frame_id, LRUKNode { history: Vec::new(), is_evictable: false });
            assert(self.histories() =~= old(self).histories().update(frame_id as int, Seq::empty()));
            assert(self.evictable() =~= old(self).evictable().update(frame_id as int, false));
        } else {
            assert(self.histories() =~= old(self).histories());
            assert(self.evictable() =~= old(self).evictable());
        }
    }

    /// Chooses and removes the evictable frame that goes first by `evicts_before`, or returns
    /// `None` where no frame is evictable.
    pub fn evict(&mut self) -> (r: Option<usize>)
        requires
            old(self).wf(),
        ensures
            final(self).wf(),
            final(self).k == old(self).k,
            final(self).current_timestamp == old(self).current_timestamp,
            final(self).nodes@.len() == old(self).nodes@.len(),
            r is None <==> forall|f: int| 0 <= f < old(self).nodes@.len() ==> !(#[trigger] old(self).evictable()[f]),
            r is None ==> *final(self) == *old(self),
            r is Some ==> {
                let v = r->Some_0 as int;
                &&& 0 <= v < old(self).nodes@.len()
                &&& old(self).evictable()[v]
                &&& forall|f: int|
                    0 <= f < old(self).nodes@.len() && #[trigger] old(self).evictable()[f] ==> evicts_before(
                        old(self).histories()[v],
                        old(self).histories()[f],
                        old(self).k as nat,
                    )
                &&& final(self).histories() == old(self).histories().update(v, Seq::empty())
                &&& final(self).evictable() == old(self).evictable().update(v, false)
            },
    {
        let n = self.nodes.len();
        let k = self.k;
        let mut best: Option<usize> = None;
        for i in 0..n
            invariant
                n == self.nodes@.len(),
                k == self.k,
                self.wf(),
                *self == *old(self),
                best is None ==> forall|f: int| 0 <= f < i ==> !(#[trigger] self.evictable()[f]),
                best is Some ==> {
                    let v = best->Some_0 as int;
                    &&& 0 <= v < i
                    &&& self.evictable()[v]
                    &&& forall|f: int|
                        0 <= f < i && #[trigger] self.evictable()[f] ==> evicts_before(
                            self.histories()[v],
                            self.histories()[f],
                            k as nat,
                        )
                },
        {
            if self.nodes[i].is_evictable {
                match best {
                    None => {
                        best = Some(i);
                    },
                    Some(b) => {
                        let (inf_i, ts_i) = self.key_of(i);
                        let (inf_b, ts_b) = self.key_of(b);
                        if (inf_i && !inf_b) || (inf_i == inf_b && ts_i < ts_b) {
                            best = Some(i);
                        }
                    },
                }
            }
        }
        match best {
            None => None,
            Some(v) => {
                self.remove(v);
                Some(v)
            },
        }
    }

    fn key_of(&self, frame_id: usize) -> (r: (bool, u64))
        requires
            self.wf(),
            frame_id < self.nodes@.len(),
        ensures
            r == eviction_key(self.histories()[frame_id as int], self.k as nat),
    {
        let h = &self.nodes[frame_id].history;
        let len = h.len();
        if len == 0 {
            (true, 0)
        } else if len < self.k {
            (true, h[len - 1])
        } else {
            (false, h[len - self.k])
        }
    }

    /// The number of evictable frames.
    pub fn size(&self) -> (r: usize)
        ensures
            r == Self::count_evictable(self.evictable()),
    {
        let mut count: usize = 0;
        let n = self.nodes.len();
        for i in 0..n
            invariant
                n == self.nodes@.len(),
                count <= i,
                count == Self::count_evictable(self.evictable().take(i as int)),
        {
            assert(self.evictable().take(i + 1).drop_last() =~= self.evictable().take(i as int));
            if self.nodes[i].is_evictable {
                count = count + 1;
            }
        }
        assert(self.evictable().take(n as int) =~= self.evictable());
        count
    }
}

impl View for LRUKNode {
    type V = Seq<u64>;

    open spec fn view(&self) -> Seq<u64> {
        self.history@
    }
}

} // verus!
