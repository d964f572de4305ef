use vstd::prelude::*;
use crate::window::{Window, WindowView};

verus! {

/// Hourly windows kept: seven days.
pub const RETENTION_CAP: usize = 168;

pub open spec fn windows_view(v: Seq<Window>) -> Seq<WindowView> {
    v.map_values(|w: Window| w@)
}

/// Start timestamps strictly increase along `s`.
pub open spec fn ascending(s: Seq<WindowView>) -> bool {
    forall|i: int, j: int| 0 <= i < j < s.len() ==> s[i].start < s[j].start
}

/// Start timestamps strictly decrease along `s`.
pub open spec fn descending(s: Seq<WindowView>) -> bool {
    forall|i: int, j: int| 0 <= i < j < s.len() ==> s[i].start > s[j].start
}

/// The first position at or after `i` whose start is at least `t`, or the end.
pub open spec fn start_pos(s: Seq<WindowView>, t: int, i: int) -> int
    decreases s.len() - i,
{
    if i < 0 || i >= s.len() {
        s.len() as int
    } else if s[i].start >= t {
        i
    } else {
        start_pos(s, t, i + 1)
    }
}

/// `s` with `w` in its place by start: it replaces a window with the same
/// start, or goes in between the earlier and the later ones.
pub open spec fn upsert(s: Seq<WindowView>, w: WindowView) -> Seq<WindowView> {
    let p = start_pos(s, w.start, 0);
    if p < s.len() && s[p].start == w.start {
        s.update(p, w)
    } else {
        s.insert(p, w)
    }
}

/// The last `cap` windows of `s`, or all of them.
pub open spec fn keep_newest(s: Seq<WindowView>, cap: nat) -> Seq<WindowView> {
    if s.len() > cap {
        s.subrange(s.len() - cap, s.len() as int)
    } else {
        s
    }
}

/// `s` after appending `w` under retention cap `cap`.
pub open spec fn appended(s: Seq<WindowView>, w: WindowView, cap: nat) -> Seq<WindowView> {
    keep_newest(upsert(s, w), cap)
}

/// `s` in reverse order.
pub open spec fn reversed(s: Seq<WindowView>) -> Seq<WindowView> {
    Seq::new(s.len(), |i: int| s[s.len() - 1 - i])
}

proof fn lemma_start_pos(s: Seq<WindowView>, t: int, i: int)
    requires
        0 <= i <= s.len(),
    ensures
        i <= start_pos(s, t, i) <= s.len(),
        forall|j: int| i <= j < start_pos(s, t, i) ==> s[j].start < t,
        start_pos(s, t, i) < s.len() ==> s[start_pos(s, t, i)].start >= t,
    decreases s.len() - i,
{
    if i < s.len() && s[i].start < t {
        lemma_start_pos(s, t, i + 1);
    }
}

/// Upserting into an ascending sequence keeps it ascending, holds `w`, and
/// grows it by one exactly when no window had `w`'s start.
pub proof fn lemma_upsert(s: Seq<WindowView>, w: WindowView)
    requires
        ascending(s),
    ensures
        ascending(upsert(s, w)),
        upsert(s, w).contains(w),
        (exists|j: int| 0 <= j < s.len() && s[j].start == w.start) ==> upsert(s, w).len()
            == s.len(),
        !(exists|j: int| 0 <= j < s.len() && s[j].start == w.start) ==> upsert(s, w).len()
            == s.len() + 1,
        forall|x: WindowView| #[trigger]
            upsert(s, w).contains(x) ==> x == w || (s.contains(x) && x.start != w.start),
{
    lemma_start_pos(s, w.start, 0);
    let p = start_pos(s, w.start, 0);
    let u = upsert(s, w);
    if p < s.len() && s[p].start == w.start {
        assert(u[p] == w);
        assert forall|x: WindowView| #[trigger] u.contains(x) implies x == w || (s.contains(x)
            && x.start != w.start) by {
            let k = choose|k: int| 0 <= k < u.len() && u[k] == x;
            if k != p {
                assert(s[k] == x);
            }
        }
    } else {
        assert(u[p] == w);
        if exists|j: int| 0 <= j < s.len() && s[j].start == w.start {
            let j = choose|j: int| 0 <= j < s.len() && s[j].start == w.start;
            if j < p {
            } else if p < s.len() {
                assert(s[p].start <= s[j].start);
            }
        }
        assert forall|i: int, j: int| 0 <= i < j < u.len() implies u[i].start < u[j].start by {
            if j < p {
            } else if j == p {
            } else if i < p {
                assert(s[i].start < w.start);
                assert(s[p].start <= s[j - 1].start);
            } else if i == p {
                assert(s[p].start <= s[j - 1].start);
            } else {
            }
        }
        assert forall|x: WindowView| #[trigger] u.contains(x) implies x == w || (s.contains(x)
            && x.start != w.start) by {
            let k = choose|k: int| 0 <= k < u.len() && u[k] == x;
            if k < p {
                assert(s[k] == x);
            } else if k > p {
                assert(s[k - 1] == x);
            }
        }
    }
}

/// Appending a window whose start a window of the history already has
/// replaces that window: the history does not grow, keeps one window per
/// start, and never exceeds the cap.
pub proof fn lemma_append_replaces(s: Seq<WindowView>, w: WindowView, cap: nat)
    requires
        ascending(s),
    ensures
        ascending(appended(s, w, cap)),
        appended(s, w, cap).len() <= cap,
        (exists|j: int| 0 <= j < s.len() && s[j].start == w.start) ==> appended(s, w, cap).len()
            <= s.len(),
        forall|i: int, j: int|
            0 <= i < j < appended(s, w, cap).len() ==> appended(s, w, cap)[i].start != appended(
                s,
                w,
                cap,
            )[j].start,
        forall|x: WindowView| #[trigger]
            appended(s, w, cap).contains(x) && x.start == w.start ==> x == w,
{
    lemma_upsert(s, w);
    let u = upsert(s, w);
    let a = appended(s, w, cap);
    assert forall|x: WindowView| #[trigger] a.contains(x) implies u.contains(x) by {
        let k = choose|k: int| 0 <= k < a.len() && a[k] == x;
        if u.len() > cap {
            assert(u[u.len() - cap + k] == x);
        }
    }
}

/// Eviction removes the oldest windows first: every window that appending
/// drops is older than every window that stays, and those that stay are the
/// newest ones, in order.
pub proof fn lemma_eviction_oldest_first(s: Seq<WindowView>, w: WindowView, cap: nat)
    requires
        ascending(s),
    ensures
        ({
            let u = upsert(s, w);
            let a = appended(s, w, cap);
            &&& a == u.subrange(u.len() - a.len(), u.len() as int)
            &&& forall|i: int, j: int|
                0 <= i < u.len() - a.len() && 0 <= j < a.len() ==> u[i].start < a[j].start
        }),
{
    lemma_upsert(s, w);
    let u = upsert(s, w);
    let a = appended(s, w, cap);
    if u.len() <= cap {
        assert(u.subrange(0, u.len() as int) =~= u);
    }
    assert forall|i: int, j: int| 0 <= i < u.len() - a.len() && 0 <= j < a.len() implies u[i].start
        < a[j].start by {
        assert(a[j] == u[u.len() - a.len() + j]);
    }
}

/// The windows of the last ingestion cycles, oldest first, one per start
/// timestamp, never more than the retention cap.
pub struct History {
    windows: Vec<Window>,
    cap: usize,
    last_update: i64,
}

impl History {
    pub closed spec fn view_windows(&self) -> Seq<WindowView> {
        windows_view(self.windows@)
    }

    pub closed spec fn spec_cap(&self) -> nat {
        self.cap as nat
    }

    pub closed spec fn spec_last_update(&self) -> int {
        self.last_update as int
    }

    pub closed spec fn wf(&self) -> bool {
        &&& self.windows@.len() <= self.cap
        &&& ascending(self.view_windows())
    }

    /// A well-formed history is ascending by start and within its cap.
    pub proof fn lemma_wf(&self)
        requires
            self.wf(),
        ensures
            ascending(self.view_windows()),
            self.view_windows().len() <= self.spec_cap(),
    {
    }

    /// An empty history that keeps at most `cap` windows.
    pub fn new(cap: usize) -> (r: History)
        ensures
            r.wf(),
            r.view_windows() == Seq::<WindowView>::empty(),
            r.spec_cap() == cap,
            r.spec_last_update() == 0,
    {
        let r = History { windows: Vec::new(), cap, last_update: 0 };
        assert(r.view_windows() =~= Seq::<WindowView>::empty());
        r
    }

    pub fn cap(&self) -> (r: usize)
        ensures
            r == self.spec_cap(),
    {
        self.cap
    }

    /// Wall-clock time of the last successful append.
    pub fn last_update(&self) -> (r: i64)
        ensures
            r == self.spec_last_update(),
    {
        self.last_update
    }

    pub fn len(&self) -> (r: usize)
        ensures
            r == self.view_windows().len(),
    {
        self.windows.len()
    }

    /// Puts `w` in its place by start, replacing a window with the same start,
    /// then evicts the oldest windows beyond the cap.
    pub fn upsert_window(&mut self, w: Window)
        requires
            old(self).wf(),
        ensures
            final(self).wf(),
            final(self).view_windows() == appended(
                old(self).view_windows(),
                w@,
                old(self).spec_cap(),
            ),
            final(self).spec_cap() == old(self).spec_cap(),
            final(self).spec_last_update() == old(self).spec_last_update(),
    {
        let ghost s = self.view_windows();
        let ghost wv = w@;
        proof {
            lemma_upsert(s, wv);
            lemma_start_pos(s, wv.start, 0);
        }
        let mut p: usize = 0;
        while p < self.windows.len() && self.windows[p].start < w.start
            invariant
                s == self.view_windows(),
                wv == w@,
                p <= self.windows@.len(),
                start_pos(s, wv.start, 0) == start_pos(s, wv.start, p as int),
            decreases self.windows@.len() - p,
        {
            assert(s[p as int] == self.windows@[p as int]@);
            assert(s[p as int].start < wv.start);
            assert(start_pos(s, wv.start, p as int) == start_pos(s, wv.start, p + 1));
            p = p + 1;
        }
        assert(p < s.len() ==> s[p as int] == self.windows@[p as int]@);
        if p < self.windows.len() && self.windows[p].start == w.start {
            self.windows.set(p, w);
            assert(self.view_windows() =~= s.update(p as int, wv));
        } else {
            self.windows.insert(p, w);
            assert(self.view_windows() =~= s.insert(p as int, wv));
        }
        let ghost u = self.windows@;
        let n0 = self.windows.len();
        assert(windows_view(u) == upsert(s, wv));
        let mut k: usize = 0;
        while self.windows.len() > self.cap
            invariant
                k <= u.len(),
                n0 == u.len(),
                self.windows@ == u.subrange(k as int, u.len() as int),
                k > 0 ==> u.len() - k >= self.cap,
                self.cap == old(self).cap,
                self.last_update == old(self).last_update,
            decreases self.windows@.len(),
        {
            self.windows.remove(0);
            assert(self.windows@ =~= u.subrange(k + 1, u.len() as int));
            k = k + 1;
        }
        proof {
            let n = u.len() as int;
            let c = self.cap as int;
            if n > c {
                assert(k == n - c);
            } else {
                assert(k == 0);
                assert(self.windows@ =~= u);
            }
            assert(self.view_windows() =~= keep_newest(upsert(s, wv), self.cap as nat));
        }
    }

    /// Appends the window of an ingestion cycle at wall-clock time `now`.
    pub fn append(&mut self, w: Window, now: i64)
        requires
            old(self).wf(),
        ensures
            final(self).wf(),
            final(self).view_windows() == appended(
                old(self).view_windows(),
                w@,
                old(self).spec_cap(),
            ),
            final(self).spec_cap() == old(self).spec_cap(),
            final(self).spec_last_update() == now,
    {
        self.upsert_window(w);
        self.last_update = now;
    }

    /// Records a successful ingestion cycle at wall-clock time `now`.
    pub fn touch(&mut self, now: i64)
        ensures
            final(self).wf() == old(self).wf(),
            final(self).view_windows() == old(self).view_windows(),
            final(self).spec_cap() == old(self).spec_cap(),
            final(self).spec_last_update() == now,
    {
        self.last_update = now;
    }

    /// The newest window, if any.
    pub fn latest(&self) -> (r: Option<&Window>)
        ensures
            match r {
                Some(w) => self.view_windows().len() > 0 && w@ == self.view_windows().last(),
                None => self.view_windows().len() == 0,
            },
    {
        if self.windows.len() == 0 {
            None
        } else {
            Some(&self.windows[self.windows.len() - 1])
        }
    }

    /// Copies of all windows, newest first.
    pub fn newest_first(&self) -> (r: Vec<Window>)
        requires
            self.wf(),
        ensures
            windows_view(r@) == reversed(self.view_windows()),
            descending(windows_view(r@)),
    {
        let n = self.windows.len();
        let mut r: Vec<Window> = Vec::new();
        let mut i: usize = 0;
        while i < n
            invariant
                n == self.windows@.len(),
                i <= n,
                r@.len() == i,
                forall|j: int| 0 <= j < i ==> (#[trigger] r@[j])@ == self.windows@[n - 1 - j]@,
            decreases n - i,
        {
            r.push(self.windows[n - 1 - i].duplicate());
            i = i + 1;
        }
        assert(windows_view(r@) =~= reversed(self.view_windows()));
        r
    }
}

} // verus!
