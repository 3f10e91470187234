use std::collections::HashMap;
use vstd::prelude::*;

use crate::listing::{visible_fid, visible_fids, HostEntry};
use crate::types::ROOT_FID;

verus! {

broadcast use vstd::std_specs::hash::group_hash_axioms;

/// `path` leads from the root to `fid` through the parent map `m`: it starts
/// at the root, ends at `fid`, meets the root only at its start, and each
/// element is the parent of the next.
pub open spec fn is_chain(m: Map<u64, u64>, fid: u64, path: Seq<u64>) -> bool {
    &&& path.len() >= 1
    &&& path[0] == ROOT_FID
    &&& path.last() == fid
    &&& forall|i: int| 1 <= i < path.len() ==> #[trigger] path[i] != ROOT_FID
    &&& forall|i: int|
        0 <= i < path.len() - 1 ==> m.contains_key(#[trigger] path[i + 1]) && m[path[i + 1]]
            == path[i]
}

/// `m` after recording each pair of `pairs` in turn.
pub open spec fn insert_all(m: Map<u64, u64>, pairs: Seq<(u64, u64)>) -> Map<u64, u64>
    decreases pairs.len(),
{
    if pairs.len() == 0 {
        m
    } else {
        insert_all(m, pairs.drop_last()).insert(pairs.last().0, pairs.last().1)
    }
}

/// The (child, parent) pairs along a path.
pub open spec fn pairs_of(path: Seq<u64>) -> Seq<(u64, u64)> {
    Seq::new((path.len() - 1) as nat, |i: int| (path[i + 1], path[i]))
}

/// A map from the identifier of an object to the identifier of its parent
/// directory.
pub struct FidCache {
    parents: HashMap<u64, u64>,
}

impl View for FidCache {
    type V = Map<u64, u64>;

    closed spec fn view(&self) -> Map<u64, u64> {
        self.parents@
    }
}

impl FidCache {
    pub fn new() -> (r: FidCache)
        ensures
            r@ == Map::<u64, u64>::empty(),
    {
        FidCache { parents: HashMap::new() }
    }

    /// The recorded parent of `fid`.
    pub fn parent(&self, fid: u64) -> (r: Option<u64>)
        ensures
            r == (if self@.contains_key(fid) {
                Some(self@[fid])
            } else {
                None
            }),
    {
        match self.parents.get(&fid) {
            Some(p) => Some(*p),
            None => None,
        }
    }

    /// Records `parent` as the parent of `fid`; returns the parent recorded
    /// before, if any.
    pub fn insert(&mut self, fid: u64, parent: u64) -> (r: Option<u64>)
        ensures
            final(self)@ == old(self)@.insert(fid, parent),
            r == (if old(self)@.contains_key(fid) {
                Some(old(self)@[fid])
            } else {
                None
            }),
    {
        self.parents.insert(fid, parent)
    }

    /// Forgets the parent of `fid`.
    pub fn remove(&mut self, fid: u64)
        ensures
            final(self)@ == old(self)@.remove(fid),
    {
        self.parents.remove(&fid);
    }

    /// Records every (child, parent) pair of `pairs`, in order.
    pub fn extend(&mut self, pairs: &Vec<(u64, u64)>)
        ensures
            final(self)@ == insert_all(old(self)@, pairs@),
    {
        let ghost start = self@;
        let mut i: usize = 0;
        while i < pairs.len()
            invariant
                i <= pairs.len(),
                self@ == insert_all(start, pairs@.subrange(0, i as int)),
            decreases pairs.len() - i,
        {
            let (c, p) = pairs[i];
            self.parents.insert(c, p);
            assert(pairs@.subrange(0, i + 1).drop_last() =~= pairs@.subrange(0, i as int));
            i = i + 1;
        }
        assert(pairs@.subrange(0, pairs.len() as int) =~= pairs@);
    }

    /// The path from the root to `fid` that the recorded parents give, if
    /// following them upwards from `fid` reaches the root.
    pub fn resolve(&self, fid: u64) -> (r: Option<Vec<u64>>)
        ensures
            match r {
                Some(path) => is_chain(self@, fid, path@),
                None => forall|path: Seq<u64>| !is_chain(self@, fid, path),
            },
    {
        proof {
            assert(self.parents@.dom().finite());
            assert forall|path: Seq<u64>| is_chain(self@, fid, path) implies path.len() <= self@.len()
                + 1 by {
                lemma_chain_short(self@, fid, path);
            }
        }
        // The path is gathered from `fid` upwards, then reversed.
        let mut up: Vec<u64> = Vec::new();
        up.push(fid);
        let mut cur: u64 = fid;
        let bound = self.parents.len();
        let mut steps: usize = 0;
        while cur != ROOT_FID
            invariant
                forall|path: Seq<u64>| #[trigger]
                    is_chain(self@, fid, path) ==> path.len() <= self@.len() + 1,
                up.len() == steps + 1,
                steps <= bound + 1,
                bound == self@.len(),
                up@[0] == fid,
                up@.last() == cur,
                forall|i: int| 0 <= i < up.len() - 1 ==> #[trigger] up@[i] != ROOT_FID,
                forall|i: int|
                    0 <= i < up.len() - 1 ==> self@.contains_key(#[trigger] up@[i]) && self@[up@[i]]
                        == up@[i + 1],
            decreases bound + 1 - steps,
        {
            if steps > bound {
                proof {
                    assert forall|path: Seq<u64>| !is_chain(self@, fid, path) by {
                        if is_chain(self@, fid, path) {
                            lemma_chain_follows(self@, fid, path, up@);
                        }
                    }
                }
                return None;
            }
            match self.parents.get(&cur) {
                Some(p) => {
                    cur = *p;
                    up.push(cur);
                    steps = steps + 1;
                },
                None => {
                    proof {
                        assert forall|path: Seq<u64>| !is_chain(self@, fid, path) by {
                            if is_chain(self@, fid, path) {
                                lemma_chain_follows(self@, fid, path, up@);
                                let k = up.len() - 1;
                                lemma_chain_follows_at(self@, fid, path, up@, k);
                                if path.len() > up.len() {
                                    let j = path.len() - 1 - k;
                                    assert(self@.contains_key(path[j - 1 + 1]));
                                }
                            }
                        }
                    }
                    return None;
                },
            }
        }
        let mut path: Vec<u64> = Vec::new();
        let mut k: usize = up.len();
        while k > 0
            invariant
                k <= up.len(),
                path.len() == up.len() - k,
                forall|i: int| 0 <= i < path.len() ==> #[trigger] path@[i] == up@[up.len() - 1 - i],
            decreases k,
        {
            k = k - 1;
            path.push(up[k]);
        }
        proof {
            assert forall|i: int| 1 <= i < path.len() implies #[trigger] path@[i] != ROOT_FID by {
                assert(path@[i] == up@[up.len() - 1 - i]);
            }
            assert forall|i: int| 0 <= i < path.len() - 1 implies self@.contains_key(
                #[trigger] path@[i + 1],
            ) && self@[path@[i + 1]] == path@[i] by {
                assert(path@[i + 1] == up@[up.len() - 2 - i]);
                assert(path@[i] == up@[up.len() - 2 - i + 1]);
            }
        }
        Some(path)
    }
}

/// A chain never visits an identifier twice.
proof fn lemma_chain_distinct(m: Map<u64, u64>, fid: u64, path: Seq<u64>, a: int, b: int)
    requires
        is_chain(m, fid, path),
        0 <= a < b < path.len(),
    ensures
        path[a] != path[b],
    decreases a,
{
    if a > 0 && path[a] == path[b] {
        assert(m[path[(a - 1) + 1]] == path[a - 1]);
        assert(m[path[(b - 1) + 1]] == path[b - 1]);
        lemma_chain_distinct(m, fid, path, a - 1, b - 1);
    }
}

/// A chain is no longer than the map has records, plus the root.
proof fn lemma_chain_short(m: Map<u64, u64>, fid: u64, path: Seq<u64>)
    requires
        is_chain(m, fid, path),
        m.dom().finite(),
    ensures
        path.len() <= m.len() + 1,
{
    let tail = path.subrange(1, path.len() as int);
    assert(tail.no_duplicates()) by {
        assert forall|a: int, b: int| 0 <= a < tail.len() && 0 <= b < tail.len() && a != b implies tail[a]
            != tail[b] by {
            if a < b {
                lemma_chain_distinct(m, fid, path, a + 1, b + 1);
            } else {
                lemma_chain_distinct(m, fid, path, b + 1, a + 1);
            }
        }
    }
    tail.unique_seq_to_set();
    assert(tail.to_set().subset_of(m.dom())) by {
        assert forall|x: u64| tail.to_set().contains(x) implies m.dom().contains(x) by {
            let k = choose|k: int| 0 <= k < tail.len() && tail[k] == x;
            assert(m.contains_key(path[k + 1]));
        }
    }
    vstd::set_lib::lemma_len_subset(tail.to_set(), m.dom());
}

/// A chain to `fid`, read from its end, agrees with the parents followed
/// upwards from `fid` for as long as both last.
proof fn lemma_chain_follows(m: Map<u64, u64>, fid: u64, path: Seq<u64>, up: Seq<u64>)
    requires
        is_chain(m, fid, path),
        up.len() >= 1,
        up[0] == fid,
        forall|i: int| 0 <= i < up.len() - 1 ==> #[trigger] up[i] != ROOT_FID,
        forall|i: int| 0 <= i < up.len() - 1 ==> m.contains_key(#[trigger] up[i]) && m[up[i]] == up[i + 1],
    ensures
        forall|k: int|
            0 <= k < up.len() && k < path.len() ==> #[trigger] path[path.len() - 1 - k] == up[k],
        path.len() >= up.len(),
{
    assert forall|k: int| 0 <= k < up.len() && k < path.len() implies #[trigger] path[path.len() - 1
        - k] == up[k] by {
        lemma_chain_follows_at(m, fid, path, up, k);
    }
    if path.len() < up.len() {
        let k = path.len() - 1;
        lemma_chain_follows_at(m, fid, path, up, k);
        assert(path[0] == up[k]);
    }
}

proof fn lemma_chain_follows_at(m: Map<u64, u64>, fid: u64, path: Seq<u64>, up: Seq<u64>, k: int)
    requires
        is_chain(m, fid, path),
        up.len() >= 1,
        up[0] == fid,
        forall|i: int| 0 <= i < up.len() - 1 ==> m.contains_key(#[trigger] up[i]) && m[up[i]] == up[i + 1],
        0 <= k < up.len(),
        k < path.len(),
    ensures
        path[path.len() - 1 - k] == up[k],
    decreases k,
{
    if k > 0 {
        lemma_chain_follows_at(m, fid, path, up, k - 1);
        let j = path.len() - 1 - k;
        assert(m[path[j + 1]] == path[j]);
        assert(m[up[k - 1]] == up[k]);
    }
}

/// The (child, parent) pairs along `path`, to be recorded in the cache.
pub fn chain_pairs(path: &Vec<u64>) -> (r: Vec<(u64, u64)>)
    requires
        path.len() >= 1,
    ensures
        r@ == pairs_of(path@),
{
    let mut r: Vec<(u64, u64)> = Vec::new();
    let mut i: usize = 0;
    while i + 1 < path.len()
        invariant
            path.len() >= 1,
            i + 1 <= path.len(),
            r.len() == i,
            forall|k: int| 0 <= k < i ==> #[trigger] r@[k] == (path@[k + 1], path@[k]),
        decreases path.len() - i,
    {
        r.push((path[i + 1], path[i]));
        i = i + 1;
    }
    assert(r@ =~= pairs_of(path@));
    r
}

/// `path` is the root alone, or its last identifier was visible, with its
/// numbered and its named file, in a listing reported for the directory the
/// rest of the path leads to.
pub open spec fn found_in(reported: Set<(Seq<u64>, Seq<HostEntry>)>, path: Seq<u64>) -> bool {
    ||| path == seq![ROOT_FID]
    ||| (path.len() > 1 && exists|l: Seq<HostEntry>|
        reported.contains((path.drop_last(), l)) && visible_fid(l, path.last()))
}

/// What the search asks of its driver next.
pub enum BfsStep {
    /// The object was found at the end of this path.
    Found(Vec<u64>),
    /// List the directory at the end of this path (if it is one) and hand
    /// the listing to `expand`.
    Visit(Vec<u64>),
    /// Every reachable object has been visited.
    Exhausted,
}

/// A breadth-first search of the data directory for one identifier, starting
/// at the root. Paths are sequences of identifiers from the root.
pub struct BfsSearch {
    target: u64,
    queue: Vec<Vec<u64>>,
    head: usize,
    reported: Ghost<Set<(Seq<u64>, Seq<HostEntry>)>>,
}

impl BfsSearch {
    /// The paths still to visit, in order.
    pub closed spec fn pending(&self) -> Seq<Seq<u64>> {
        self.queue@.subrange(self.head as int, self.queue@.len() as int).map_values(
            |p: Vec<u64>| p@,
        )
    }

    pub closed spec fn target(&self) -> u64 {
        self.target
    }

    /// The (directory path, listing) pairs the driver has reported so far.
    pub closed spec fn reported(&self) -> Set<(Seq<u64>, Seq<HostEntry>)> {
        self.reported@
    }

    pub closed spec fn wf(&self) -> bool {
        &&& self.head <= self.queue@.len()
        &&& forall|i: int| 0 <= i < self.queue@.len() ==> found_in(
            self.reported@,
            #[trigger] self.queue@[i]@,
        )
    }

    /// A search for `target`, with the root as the only path to visit.
    pub fn new(target: u64) -> (r: BfsSearch)
        ensures
            r.wf(),
            r.target() == target,
            r.pending() == seq![seq![ROOT_FID]],
            r.reported() == Set::<(Seq<u64>, Seq<HostEntry>)>::empty(),
    {
        let mut queue: Vec<Vec<u64>> = Vec::new();
        let mut root: Vec<u64> = Vec::new();
        root.push(ROOT_FID);
        assert(root@ =~= seq![ROOT_FID]);
        queue.push(root);
        let r = BfsSearch { target, queue, head: 0, reported: Ghost(Set::empty()) };
        proof {
            assert(r.queue@.subrange(0, 1) =~= seq![r.queue@[0]]);
            assert(r.pending() =~= seq![seq![ROOT_FID]]);
        }
        r
    }

    /// Takes the next path to visit: the answer, when it ends at the target.
    pub fn step(&mut self) -> (r: BfsStep)
        requires
            old(self).wf(),
        ensures
            final(self).wf(),
            final(self).target() == old(self).target(),
            final(self).reported() == old(self).reported(),
            match r {
                BfsStep::Found(p) => found_in(old(self).reported(), p@),
                BfsStep::Visit(p) => found_in(old(self).reported(), p@),
                BfsStep::Exhausted => true,
            },
            old(self).pending().len() == 0 ==> r is Exhausted && final(self).pending() == old(
                self,
            ).pending(),
            old(self).pending().len() > 0 ==> final(self).pending() == old(self).pending().drop_first()
                && match r {
                BfsStep::Exhausted => false,
                BfsStep::Found(p) => p@ == old(self).pending()[0] && p@.len() > 0 && p@.last() == old(
                    self,
                ).target(),
                BfsStep::Visit(p) => p@ == old(self).pending()[0] && p@.len() > 0 && p@.last() != old(
                    self,
                ).target(),
            },
    {
        if self.head >= self.queue.len() {
            return BfsStep::Exhausted;
        }
        let p = self.queue[self.head].clone();
        let ghost before = self.pending();
        self.head = self.head + 1;
        proof {
            assert(self.pending() =~= before.drop_first());
        }
        assert(found_in(self.reported@, p@));
        assert(p@.len() > 0);
        if p[p.len() - 1] == self.target {
            BfsStep::Found(p)
        } else {
            BfsStep::Visit(p)
        }
    }

    /// Queues, after `path`, every object visible in the directory listing
    /// `l` of the directory at the end of `path`.
    pub fn expand(&mut self, path: &Vec<u64>, l: &Vec<HostEntry>)
        requires
            old(self).wf(),
            path@.len() > 0,
        ensures
            final(self).wf(),
            final(self).target() == old(self).target(),
            final(self).reported() == old(self).reported().insert((path@, l@)),
            exists|children: Seq<u64>|
                {
                    &&& final(self).pending() == old(self).pending() + children.map_values(
                        |c: u64| path@.push(c),
                    )
                    &&& forall|i: int| 0 <= i < children.len() ==> visible_fid(l@, #[trigger] children[i])
                    &&& forall|f: u64| visible_fid(l@, f) ==> children.contains(f)
                    &&& children.no_duplicates()
                },
    {
        let children = visible_fids(l);
        let ghost start = self.pending();
        let ghost before_reported = self.reported@;
        self.reported = Ghost(self.reported@.insert((path@, l@)));
        proof {
            assert forall|i: int| 0 <= i < self.queue@.len() implies found_in(
                self.reported@,
                #[trigger] self.queue@[i]@,
            ) by {
                let q = self.queue@[i]@;
                if q != seq![ROOT_FID] {
                    let w = choose|w: Seq<HostEntry>|
                        before_reported.contains((q.drop_last(), w)) && visible_fid(w, q.last());
                    assert(self.reported@.contains((q.drop_last(), w)));
                }
            }
        }
        let mut i: usize = 0;
        while i < children.len()
            invariant
                self.wf(),
                self.target() == old(self).target(),
                path@.len() > 0,
                self.reported@.contains((path@, l@)),
                self.reported() == old(self).reported().insert((path@, l@)),
                forall|k: int| 0 <= k < children.len() ==> visible_fid(l@, #[trigger] children@[k]),
                start == old(self).pending(),
                i <= children.len(),
                self.pending() == start + children@.subrange(0, i as int).map_values(
                    |c: u64| path@.push(c),
                ),
            decreases children.len() - i,
        {
            let mut p = path.clone();
            p.push(children[i]);
            let ghost before = self.pending();
            let ghost q0 = self.queue@;
            self.queue.push(p);
            proof {
                assert forall|k: int| 0 <= k < self.queue@.len() implies found_in(
                    self.reported@,
                    #[trigger] self.queue@[k]@,
                ) by {
                    if k < q0.len() {
                        assert(self.queue@[k] == q0[k]);
                    } else {
                        let q = self.queue@[k]@;
                        assert(q == path@.push(children@[i as int]));
                        assert(q.drop_last() =~= path@);
                        assert(q.last() == children@[i as int]);
                        assert(visible_fid(l@, children@[i as int]));
                        assert(self.reported@.contains((q.drop_last(), l@)));
                    }
                }
                assert(self.pending() =~= before.push(path@.push(children@[i as int])));
                assert(children@.subrange(0, i + 1) =~= children@.subrange(0, i as int).push(
                    children@[i as int],
                ));
                assert(children@.subrange(0, i + 1).map_values(|c: u64| path@.push(c))
                    =~= children@.subrange(0, i as int).map_values(|c: u64| path@.push(c)).push(
                    path@.push(children@[i as int]),
                ));
            }
            i = i + 1;
        }
        proof {
            assert(children@.subrange(0, children.len() as int) =~= children@);
            assert forall|f: u64| visible_fid(l@, f) implies children@.contains(f) by {
                let n = choose|n: Seq<char>| crate::listing::visible(l@, f, n);
            }
        }
    }
}

} // verus!
