use vstd::prelude::*;
use crate::dedup::Deduplicator;
use crate::history::{History, appended, windows_view};
use crate::story::Story;
use crate::window::{HOUR_SECS, Window, WindowView, aggregate, hour_of, hour_start, window_of};

verus! {

/// A timestamp whose hour, and the hour after it, fit in an `i64`.
pub open spec fn time_ok(t: int) -> bool {
    i64::MIN + 3600 <= t <= i64::MAX - 3600
}

/// The distinct hours of the stories' timestamps, in order of first
/// occurrence; stories whose hour cannot be represented are left out.
pub open spec fn hours(stories: Seq<Story>) -> Seq<int>
    decreases stories.len(),
{
    if stories.len() == 0 {
        seq![]
    } else {
        let h = hours(stories.drop_last());
        let t = stories.last().time as int;
        if time_ok(t) && !h.contains(hour_of(t)) {
            h.push(hour_of(t))
        } else {
            h
        }
    }
}

/// One window per hour of `stories`, ranking `n` authors and domains.
pub open spec fn hourly(stories: Seq<Story>, n: nat) -> Seq<WindowView> {
    hours(stories).map_values(|h: int| window_of(stories, h, h + 3600, n))
}

/// The stories whose identifier is not in `seen` nor on an earlier story.
pub open spec fn fresh_stories(seen: Set<u32>, stories: Seq<Story>) -> Seq<Story>
    decreases stories.len(),
{
    if stories.len() == 0 {
        seq![]
    } else {
        let pre = stories.drop_last();
        let s = stories.last();
        if !seen.contains(s.id) && !ids_of(pre).contains(s.id) {
            fresh_stories(seen, pre).push(s)
        } else {
            fresh_stories(seen, pre)
        }
    }
}

pub open spec fn ids_of(stories: Seq<Story>) -> Seq<u32> {
    stories.map_values(|s: Story| s.id)
}

/// `s` after appending each of `ws` in turn under cap `cap`.
pub open spec fn append_all(s: Seq<WindowView>, ws: Seq<WindowView>, cap: nat) -> Seq<WindowView>
    decreases ws.len(),
{
    if ws.len() == 0 {
        s
    } else {
        appended(append_all(s, ws.drop_last(), cap), ws.last(), cap)
    }
}

/// The windows of `stories`, one per hour, ranking `top_n` authors and domains.
pub fn hourly_windows(stories: &Vec<Story>, top_n: usize) -> (r: Vec<Window>)
    requires
        stories@.len() <= u32::MAX,
    ensures
        windows_view(r@) == hourly(stories@, top_n as nat),
{
    let ghost ss = stories@;
    let mut hs: Vec<i64> = Vec::new();
    let mut i: usize = 0;
    while i < stories.len()
        invariant
            ss == stories@,
            i <= ss.len(),
            hs@.map_values(|h: i64| h as int) == hours(ss.take(i as int)),
            forall|j: int| 0 <= j < hs@.len() ==> #[trigger] hs@[j] <= i64::MAX - 3600,
        decreases ss.len() - i,
    {
        let ghost pre = hs@.map_values(|h: i64| h as int);
        assert(ss.take(i + 1).drop_last() =~= ss.take(i as int));
        assert(ss.take(i + 1).last() == stories@[i as int]);
        let t = stories[i].time;
        if t >= i64::MIN + HOUR_SECS && t <= i64::MAX - HOUR_SECS {
            let h = hour_start(t);
            let mut j: usize = 0;
            while j < hs.len() && hs[j] != h
                invariant
                    j <= hs@.len(),
                    forall|k: int| 0 <= k < j ==> hs@[k] != h,
                decreases hs@.len() - j,
            {
                j = j + 1;
            }
            proof {
                if pre.contains(h as int) {
                    let k = choose|k: int| 0 <= k < pre.len() && pre[k] == h as int;
                    assert(hs@[k] == h);
                }
                if j < hs@.len() {
                    assert(pre[j as int] == h as int);
                }
            }
            if j == hs.len() {
                hs.push(h);
                assert(hs@.map_values(|h: i64| h as int) =~= pre.push(h as int));
            }
        }
        i = i + 1;
    }
    assert(ss.take(ss.len() as int) =~= ss);
    let ghost hv = hs@.map_values(|h: i64| h as int);
    let mut r: Vec<Window> = Vec::new();
    let mut k: usize = 0;
    while k < hs.len()
        invariant
            ss == stories@,
            ss.len() <= u32::MAX,
            hv == hs@.map_values(|h: i64| h as int),
            hv == hours(ss),
            k <= hs@.len(),
            r@.len() == k,
            forall|j: int|
                0 <= j < k ==> (#[trigger] r@[j])@ == window_of(ss, hv[j], hv[j] + 3600, top_n as nat),
            forall|j: int| 0 <= j < hs@.len() ==> #[trigger] hs@[j] <= i64::MAX - 3600,
        decreases hs@.len() - k,
    {
        let h = hs[k];
        r.push(aggregate(stories, h, h + HOUR_SECS, top_n));
        k = k + 1;
    }
    assert(windows_view(r@) =~= hourly(ss, top_n as nat));
    r
}

/// The ingestion pipeline: deduplicator, hourly aggregation and history.
pub struct Pipeline {
    dedup: Deduplicator,
    history: History,
    top_n: usize,
}

impl Pipeline {
    pub closed spec fn wf(&self) -> bool {
        self.history.wf()
    }

    pub closed spec fn spec_seen(&self) -> Set<u32> {
        self.dedup.view_seen()
    }

    pub closed spec fn spec_seen_cap(&self) -> nat {
        self.dedup.spec_cap()
    }

    pub closed spec fn spec_windows(&self) -> Seq<WindowView> {
        self.history.view_windows()
    }

    pub closed spec fn spec_cap(&self) -> nat {
        self.history.spec_cap()
    }

    pub closed spec fn spec_last_update(&self) -> int {
        self.history.spec_last_update()
    }

    pub closed spec fn spec_top_n(&self) -> nat {
        self.top_n as nat
    }

    /// An empty pipeline: the seen set is pruned beyond `seen_cap`
    /// identifiers, the history keeps `retention` windows, and each window
    /// ranks `top_n` authors and domains.
    pub fn new(seen_cap: usize, retention: usize, top_n: usize) -> (r: Pipeline)
        ensures
            r.wf(),
            r.spec_seen() == Set::<u32>::empty(),
            r.spec_seen_cap() == seen_cap,
            r.spec_windows() == Seq::<WindowView>::empty(),
            r.spec_cap() == retention,
            r.spec_last_update() == 0,
            r.spec_top_n() == top_n,
    {
        Pipeline { dedup: Deduplicator::new(seen_cap), history: History::new(retention), top_n }
    }

    /// Whether `id` is among the identifiers already seen.
    pub fn has_seen(&self, id: u32) -> (r: bool)
        ensures
            r == self.spec_seen().contains(id),
    {
        self.dedup.contains(id)
    }

    /// The history.
    pub fn history(&self) -> (r: &History)
        requires
            self.wf(),
        ensures
            r.wf(),
            r.view_windows() == self.spec_windows(),
            r.spec_cap() == self.spec_cap(),
            r.spec_last_update() == self.spec_last_update(),
    {
        &self.history
    }

    /// One ingestion cycle at wall-clock time `now` on the stories fetched:
    /// drops those already seen (and repeats within the batch), aggregates the
    /// rest into one window per hour, appends each to the history, records the
    /// cycle's time, and prunes the seen set to the batch once it is over its
    /// cap. Returns the new windows, for publishing.
    pub fn ingest(&mut self, fetched: Vec<Story>, now: i64) -> (r: Vec<Window>)
        requires
            old(self).wf(),
            fetched@.len() <= u32::MAX,
        ensures
            final(self).wf(),
            windows_view(r@) == hourly(
                fresh_stories(old(self).spec_seen(), fetched@),
                old(self).spec_top_n(),
            ),
            final(self).spec_windows() == append_all(
                old(self).spec_windows(),
                windows_view(r@),
                old(self).spec_cap(),
            ),
            final(self).spec_last_update() == now,
            ({
                let all = old(self).spec_seen() + ids_of(fetched@).to_set();
                if all.len() > old(self).spec_seen_cap() {
                    final(self).spec_seen() == ids_of(fetched@).to_set()
                } else {
                    final(self).spec_seen() == all
                }
            }),
            final(self).spec_cap() == old(self).spec_cap(),
            final(self).spec_seen_cap() == old(self).spec_seen_cap(),
            final(self).spec_top_n() == old(self).spec_top_n(),
    {
        let ghost ss = fetched@;
        let ghost seen0 = self.dedup.view_seen();
        let mut ids: Vec<u32> = Vec::new();
        let mut fresh: Vec<Story> = Vec::new();
        let mut rest = fetched;
        let mut i: usize = 0;
        while rest.len() > 0
            invariant
                i <= ss.len(),
                rest@ == ss.subrange(i as int, ss.len() as int),
                ids@ == ids_of(ss.take(i as int)),
                fresh@ == fresh_stories(seen0, ss.take(i as int)),
                fresh@.len() <= i,
                ss.len() <= u32::MAX,
                self.dedup.view_seen() == seen0 + ids_of(ss.take(i as int)).to_set(),
                self.dedup.spec_cap() == old(self).dedup.spec_cap(),
                self.history == old(self).history,
                self.top_n == old(self).top_n,
            decreases rest@.len(),
        {
            let s = rest.remove(0);
            let ghost pre = ss.take(i as int);
            assert(s == ss[i as int]);
            assert(ss.take(i + 1).drop_last() =~= pre);
            assert(ss.take(i + 1).last() == s);
            assert(ids_of(ss.take(i + 1)) =~= ids_of(pre).push(s.id));
            proof {
                ids_of(pre).lemma_push_to_set_commute(s.id);
            }
            ids.push(s.id);
            if self.dedup.accept(s.id) {
                fresh.push(s);
            }
            assert(self.dedup.view_seen() =~= seen0 + ids_of(ss.take(i + 1)).to_set());
            assert(rest@ =~= ss.subrange(i + 1, ss.len() as int));
            i = i + 1;
        }
        assert(ss.take(i as int) =~= ss);
        let r = hourly_windows(&fresh, self.top_n);
        let ghost h0 = self.history.view_windows();
        let mut k: usize = 0;
        while k < r.len()
            invariant
                k <= r@.len(),
                self.history.wf(),
                self.history.spec_cap() == old(self).history.spec_cap(),
                self.history.view_windows() == append_all(
                    h0,
                    windows_view(r@).take(k as int),
                    old(self).history.spec_cap(),
                ),
                self.dedup.view_seen() == seen0 + ids_of(ss).to_set(),
                self.dedup.spec_cap() == old(self).dedup.spec_cap(),
                self.top_n == old(self).top_n,
            decreases r@.len() - k,
        {
            let w = r[k].duplicate();
            assert(windows_view(r@).take(k + 1).drop_last() =~= windows_view(r@).take(k as int));
            assert(windows_view(r@).take(k + 1).last() == w@);
            self.history.upsert_window(w);
            k = k + 1;
        }
        assert(windows_view(r@).take(r@.len() as int) =~= windows_view(r@));
        self.history.touch(now);
        self.dedup.prune(&ids);
        assert(ids@.to_set() == ids_of(ss).to_set());
        r
    }
}

} // verus!
