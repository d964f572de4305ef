use vstd::prelude::*;
use std::collections::HashSet;

verus! {

broadcast use vstd::std_specs::hash::group_hash_axioms;

/// Soft bound on the identifiers remembered between prunes.
pub const SEEN_CAP: usize = 1000;

/// The identifiers of `ids` not in `seen` and not earlier in `ids`, in order.
pub open spec fn fresh(seen: Set<u32>, ids: Seq<u32>) -> Seq<u32>
    decreases ids.len(),
{
    if ids.len() == 0 {
        seq![]
    } else {
        let prev = fresh(seen, ids.drop_last());
        let x = ids.last();
        if !seen.contains(x) && !ids.drop_last().contains(x) {
            prev.push(x)
        } else {
            prev
        }
    }
}

/// Accepting a sequence of identifiers accepts each identifier at most once,
/// and exactly those that it holds and that had not been seen.
pub proof fn lemma_accepted_once(seen: Set<u32>, ids: Seq<u32>)
    ensures
        fresh(seen, ids).no_duplicates(),
        forall|x: u32| #[trigger]
            fresh(seen, ids).contains(x) <==> (ids.contains(x) && !seen.contains(x)),
    decreases ids.len(),
{
    if ids.len() > 0 {
        let pre = ids.drop_last();
        let prev = fresh(seen, pre);
        let y = ids.last();
        lemma_accepted_once(seen, pre);
        assert forall|x: u32| #[trigger] ids.contains(x) <==> (pre.contains(x) || x == y) by {
            if ids.contains(x) {
                let k = choose|k: int| 0 <= k < ids.len() && ids[k] == x;
                if k < pre.len() {
                    assert(pre[k] == x);
                }
            }
            if pre.contains(x) {
                let k = choose|k: int| 0 <= k < pre.len() && pre[k] == x;
                assert(ids[k] == x);
            }
            if x == y {
                assert(ids[ids.len() - 1] == x);
            }
        }
        if !seen.contains(y) && !pre.contains(y) {
            let f = prev.push(y);
            assert forall|x: u32| #[trigger] f.contains(x) <==> (prev.contains(x) || x == y) by {
                if f.contains(x) {
                    let k = choose|k: int| 0 <= k < f.len() && f[k] == x;
                    if k < prev.len() {
                        assert(prev[k] == x);
                    }
                }
                if prev.contains(x) {
                    let k = choose|k: int| 0 <= k < prev.len() && prev[k] == x;
                    assert(f[k] == x);
                }
                if x == y {
                    assert(f[prev.len() as int] == x);
                }
            }
            assert forall|i: int, j: int| 0 <= i < f.len() && 0 <= j < f.len() && i != j implies f[i]
                != f[j] by {
                if i < prev.len() && j < prev.len() {
                } else if i < prev.len() {
                    assert(prev.contains(f[i]));
                } else {
                    assert(prev.contains(f[j]));
                }
            }
        }
    }
}

/// The identifiers seen in this process, so that each is processed once.
pub struct Deduplicator {
    seen: HashSet<u32>,
    cap: usize,
}

impl Deduplicator {
    pub closed spec fn view_seen(&self) -> Set<u32> {
        self.seen@
    }

    pub closed spec fn spec_cap(&self) -> nat {
        self.cap as nat
    }

    /// An empty set, pruned once it holds more than `cap` identifiers.
    pub fn new(cap: usize) -> (r: Deduplicator)
        ensures
            r.view_seen() == Set::<u32>::empty(),
            r.spec_cap() == cap,
    {
        Deduplicator { seen: HashSet::new(), cap }
    }

    pub fn len(&self) -> (r: usize)
        ensures
            r == self.view_seen().len(),
    {
        self.seen.len()
    }

    pub fn contains(&self, id: u32) -> (r: bool)
        ensures
            r == self.view_seen().contains(id),
    {
        self.seen.contains(&id)
    }

    /// Records `id`; true exactly when it had not been seen.
    pub fn accept(&mut self, id: u32) -> (r: bool)
        ensures
            r == !old(self).view_seen().contains(id),
            final(self).view_seen() == old(self).view_seen().insert(id),
            final(self).spec_cap() == old(self).spec_cap(),
    {
        self.seen.insert(id)
    }

    /// Accepts each of `ids` in turn and returns those accepted.
    pub fn accept_all(&mut self, ids: &Vec<u32>) -> (r: Vec<u32>)
        ensures
            r@ == fresh(old(self).view_seen(), ids@),
            final(self).view_seen() == old(self).view_seen() + ids@.to_set(),
            final(self).spec_cap() == old(self).spec_cap(),
    {
        let ghost s0 = self.view_seen();
        let mut r: Vec<u32> = Vec::new();
        let mut i: usize = 0;
        while i < ids.len()
            invariant
                i <= ids@.len(),
                r@ == fresh(s0, ids@.take(i as int)),
                self.view_seen() == s0 + ids@.take(i as int).to_set(),
                self.spec_cap() == old(self).spec_cap(),
            decreases ids@.len() - i,
        {
            let ghost pre = ids@.take(i as int);
            let x = ids[i];
            assert(ids@.take(i + 1).drop_last() =~= pre);
            assert(ids@.take(i + 1).last() == x);
            proof {
                assert(pre.contains(x) <==> pre.to_set().contains(x));
            }
            if self.accept(x) {
                r.push(x);
            }
            assert(ids@.take(i + 1) =~= pre.push(x));
            assert(pre.push(x).to_set() =~= pre.to_set().insert(x)) by {
                assert forall|y: u32| pre.push(x).to_set().contains(y) <==> pre.to_set().insert(
                    x,
                ).contains(y) by {
                    if pre.push(x).contains(y) && y != x {
                        let k = choose|k: int| 0 <= k < pre.push(x).len() && pre.push(x)[k] == y;
                        assert(pre[k] == y);
                    }
                    if pre.contains(y) {
                        let k = choose|k: int| 0 <= k < pre.len() && pre[k] == y;
                        assert(pre.push(x)[k] == y);
                    }
                    if y == x {
                        assert(pre.push(x)[pre.len() as int] == x);
                    }
                }
            }
            assert(self.view_seen() =~= s0 + ids@.take(i + 1).to_set());
            i = i + 1;
        }
        assert(ids@.take(ids@.len() as int) =~= ids@);
        r
    }

    /// Once more than the cap is remembered, keeps only the identifiers of
    /// the latest fetch `batch`; true when it pruned.
    pub fn prune(&mut self, batch: &Vec<u32>) -> (r: bool)
        ensures
            r == (old(self).view_seen().len() > old(self).spec_cap()),
            r ==> final(self).view_seen() == batch@.to_set(),
            !r ==> final(self).view_seen() == old(self).view_seen(),
            final(self).spec_cap() == old(self).spec_cap(),
    {
        if self.seen.len() > self.cap {
            let mut fresh_set: HashSet<u32> = HashSet::new();
            let mut i: usize = 0;
            while i < batch.len()
                invariant
                    i <= batch@.len(),
                    fresh_set@ == batch@.take(i as int).to_set(),
                decreases batch@.len() - i,
            {
                let ghost pre = batch@.take(i as int);
                let x = batch[i];
                fresh_set.insert(x);
                assert(batch@.take(i + 1) =~= pre.push(x));
                assert forall|y: u32| pre.push(x).to_set().contains(y) <==> fresh_set@.contains(
                    y,
                ) by {
                    if pre.push(x).contains(y) && y != x {
                        let k = choose|k: int| 0 <= k < pre.push(x).len() && pre.push(x)[k] == y;
                        assert(pre[k] == y);
                    }
                    if pre.contains(y) {
                        let k = choose|k: int| 0 <= k < pre.len() && pre[k] == y;
                        assert(pre.push(x)[k] == y);
                    }
                    if y == x {
                        assert(pre.push(x)[pre.len() as int] == x);
                    }
                }
                assert(fresh_set@ =~= batch@.take(i + 1).to_set());
                i = i + 1;
            }
            assert(batch@.take(batch@.len() as int) =~= batch@);
            self.seen = fresh_set;
            true
        } else {
            false
        }
    }
}

} // verus!
