use vstd::prelude::*;
use crate::rank::{RankEntry, Tally, copy_entries, entries_view, first_at, lemma_top_keys_ties, strings_view, top_keys, top_keys_of, sorted_desc};
use crate::story::{Story, StorySummary, SummaryView, summary_of, story_domain, domain_of_story};

verus! {

/// Seconds in one window.
pub const HOUR_SECS: i64 = 3600;

/// How many authors and domains a history window ranks.
pub const WINDOW_TOP_N: usize = 10;

/// The statistics of one hour-aligned bucket of stories.
pub struct Window {
    pub start: i64,
    pub stories: Vec<StorySummary>,
    pub score_sum: i64,
    pub comment_total: i64,
    pub top_authors: Vec<RankEntry>,
    pub top_domains: Vec<RankEntry>,
}

pub struct WindowView {
    pub start: int,
    pub stories: Seq<SummaryView>,
    pub score_sum: int,
    pub comment_total: int,
    pub top_authors: Tally,
    pub top_domains: Tally,
}

impl View for Window {
    type V = WindowView;

    open spec fn view(&self) -> WindowView {
        WindowView {
            start: self.start as int,
            stories: self.stories@.map_values(|s: StorySummary| s@),
            score_sum: self.score_sum as int,
            comment_total: self.comment_total as int,
            top_authors: entries_view(self.top_authors@),
            top_domains: entries_view(self.top_domains@),
        }
    }
}

pub open spec fn in_window(s: Story, start: int, end: int) -> bool {
    start <= s.time < end
}

pub open spec fn has_id(sel: Seq<Story>, id: u32) -> bool {
    exists|j: int| 0 <= j < sel.len() && (#[trigger] sel[j]).id == id
}

/// The stories of `items` that fall in `[start, end)`, each identifier once
/// (its first occurrence), in input order.
pub open spec fn window_items(items: Seq<Story>, start: int, end: int) -> Seq<Story>
    decreases items.len(),
{
    if items.len() == 0 {
        seq![]
    } else {
        let w = window_items(items.drop_last(), start, end);
        let s = items.last();
        if in_window(s, start, end) && !has_id(w, s.id) {
            w.push(s)
        } else {
            w
        }
    }
}

pub open spec fn score_of(s: Story) -> int {
    match s.score {
        Some(x) => x as int,
        None => 0,
    }
}

pub open spec fn comments_of(s: Story) -> int {
    match s.descendants {
        Some(x) => x as int,
        None => 0,
    }
}

pub open spec fn score_total(sel: Seq<Story>) -> int
    decreases sel.len(),
{
    if sel.len() == 0 {
        0
    } else {
        score_total(sel.drop_last()) + score_of(sel.last())
    }
}

pub open spec fn comment_total(sel: Seq<Story>) -> int
    decreases sel.len(),
{
    if sel.len() == 0 {
        0
    } else {
        comment_total(sel.drop_last()) + comments_of(sel.last())
    }
}

/// The authors of `sel`, in order; stories without one are left out.
pub open spec fn author_keys(sel: Seq<Story>) -> Seq<Seq<char>>
    decreases sel.len(),
{
    if sel.len() == 0 {
        seq![]
    } else {
        match sel.last().by {
            Some(a) => author_keys(sel.drop_last()).push(a@),
            None => author_keys(sel.drop_last()),
        }
    }
}

/// The domains of `sel`, in order; stories without one are left out.
pub open spec fn domain_keys(sel: Seq<Story>) -> Seq<Seq<char>>
    decreases sel.len(),
{
    if sel.len() == 0 {
        seq![]
    } else {
        match story_domain(sel.last()) {
            Some(d) => domain_keys(sel.drop_last()).push(d),
            None => domain_keys(sel.drop_last()),
        }
    }
}

/// The window that `items` give for `[start, end)`, ranking `n` authors and
/// `n` domains.
pub open spec fn window_of(items: Seq<Story>, start: int, end: int, n: nat) -> WindowView {
    let sel = window_items(items, start, end);
    WindowView {
        start,
        stories: sel.map_values(|s: Story| summary_of(s)),
        score_sum: score_total(sel),
        comment_total: comment_total(sel),
        top_authors: top_keys(author_keys(sel), n),
        top_domains: top_keys(domain_keys(sel), n),
    }
}

/// The mean score, rounded down; zero for an empty window.
pub open spec fn average_of(sum: int, count: int) -> int {
    if count <= 0 {
        0
    } else {
        sum / count
    }
}

/// The start of the hour that holds `t` (seconds since the epoch, UTC).
pub open spec fn hour_of(t: int) -> int {
    t - t % 3600
}

proof fn lemma_floor_div(s: int, c: int, q: int)
    requires
        c > 0,
        s >= 0 ==> q == s / c,
        s < 0 ==> q == -((-s + c - 1) / c),
    ensures
        q == s / c,
        s >= 0 ==> 0 <= q <= s,
        s < 0 ==> s <= q < 0,
{
    assert(s >= 0 ==> 0 <= s / c <= s) by (nonlinear_arith)
        requires
            c > 0,
    ;
    if s < 0 {
        let m = -s + c - 1;
        let d = m / c;
        let r = m % c;
        assert(m == c * d + r && 0 <= r < c) by (nonlinear_arith)
            requires
                c > 0,
                d == m / c,
                r == m % c,
        ;
        assert(s / c == -d && s <= -d < 0) by (nonlinear_arith)
            requires
                c > 0,
                s < 0,
                -s + c - 1 == c * d + r,
                0 <= r < c,
        ;
    }
}

/// A window holds each story of the input that falls in its interval, by
/// identifier exactly once, and nothing from outside the interval or the
/// input.
pub proof fn lemma_window_partition(items: Seq<Story>, start: int, end: int)
    ensures
        forall|k: int|
            0 <= k < items.len() && in_window(#[trigger] items[k], start, end) ==> has_id(
                window_items(items, start, end),
                items[k].id,
            ),
        forall|j: int|
            0 <= j < window_items(items, start, end).len() ==> in_window(
                #[trigger] window_items(items, start, end)[j],
                start,
                end,
            ) && items.contains(window_items(items, start, end)[j]),
        forall|i: int, j: int|
            0 <= i < j < window_items(items, start, end).len() ==> (#[trigger] window_items(
                items,
                start,
                end,
            )[i]).id != (#[trigger] window_items(items, start, end)[j]).id,
    decreases items.len(),
{
    if items.len() > 0 {
        let pre = items.drop_last();
        let w = window_items(pre, start, end);
        let s = items.last();
        lemma_window_partition(pre, start, end);
        let r = window_items(items, start, end);
        assert forall|k: int| 0 <= k < items.len() && in_window(#[trigger] items[k], start, end)
            implies has_id(r, items[k].id) by {
            if k < pre.len() {
                assert(pre[k] == items[k]);
                let j = choose|j: int| 0 <= j < w.len() && (#[trigger] w[j]).id == items[k].id;
                assert(r[j] == w[j]);
            } else if !has_id(w, s.id) {
                assert(r[w.len() as int] == s);
            } else {
                let j = choose|j: int| 0 <= j < w.len() && (#[trigger] w[j]).id == s.id;
                assert(r[j] == w[j]);
            }
        }
        assert forall|j: int| 0 <= j < r.len() implies in_window(#[trigger] r[j], start, end)
            && items.contains(r[j]) by {
            if j < w.len() {
                assert(r[j] == w[j]);
                let k = choose|k: int| 0 <= k < pre.len() && pre[k] == w[j];
                assert(items[k] == w[j]);
            } else {
                assert(items[items.len() - 1] == r[j]);
            }
        }
        assert forall|i: int, j: int| 0 <= i < j < r.len() implies (#[trigger] r[i]).id != (
        #[trigger] r[j]).id by {
            if j < w.len() {
                assert(r[i] == w[i] && r[j] == w[j]);
            } else {
                assert(r[i] == w[i]);
                assert(r[j] == s);
            }
        }
    }
}

/// Aggregation is deterministic: equal inputs give equal windows, rankings
/// and their tie-breaks included.
pub proof fn lemma_aggregate_deterministic(
    a: Seq<Story>,
    b: Seq<Story>,
    start: int,
    end: int,
    n: nat,
)
    requires
        a == b,
    ensures
        window_of(a, start, end, n) == window_of(b, start, end, n),
{
}

/// A window ranks authors and domains with equal counts in order of their
/// first occurrence among the window's stories.
pub proof fn lemma_window_ties(items: Seq<Story>, start: int, end: int, n: nat)
    ensures
        ({
            let w = window_of(items, start, end, n);
            let sel = window_items(items, start, end);
            &&& forall|i: int, j: int|
                0 <= i < j < w.top_authors.len() && w.top_authors[i].1 == w.top_authors[j].1
                    ==> first_at(author_keys(sel), w.top_authors[i].0, 0) < first_at(
                    author_keys(sel),
                    w.top_authors[j].0,
                    0,
                )
            &&& forall|i: int, j: int|
                0 <= i < j < w.top_domains.len() && w.top_domains[i].1 == w.top_domains[j].1
                    ==> first_at(domain_keys(sel), w.top_domains[i].0, 0) < first_at(
                    domain_keys(sel),
                    w.top_domains[j].0,
                    0,
                )
        }),
{
    let sel = window_items(items, start, end);
    lemma_top_keys_ties(author_keys(sel), n);
    lemma_top_keys_ties(domain_keys(sel), n);
}

/// The start of the hour that holds `t`.
pub fn hour_start(t: i64) -> (r: i64)
    requires
        t >= i64::MIN + 3600,
    ensures
        r == hour_of(t as int),
{
    let m: i64 = t % HOUR_SECS;
    if m < 0 {
        t - m - HOUR_SECS
    } else {
        t - m
    }
}

fn id_seen(ids: &Vec<u32>, id: u32) -> (r: bool)
    ensures
        r == exists|j: int| 0 <= j < ids@.len() && ids@[j] == id,
{
    let mut i: usize = 0;
    while i < ids.len()
        invariant
            i <= ids@.len(),
            forall|j: int| 0 <= j < i ==> ids@[j] != id,
        decreases ids@.len() - i,
    {
        if ids[i] == id {
            return true;
        }
        i = i + 1;
    }
    false
}

/// Aggregates the stories of `items` that fall in `[start, end)` into a
/// window: each identifier counts once, totals default absent scores and
/// comment counts to zero, and the `top_n` most frequent authors and domains
/// are ranked by count, ties in order of first occurrence.
pub fn aggregate(items: &Vec<Story>, start: i64, end: i64, top_n: usize) -> (w: Window)
    requires
        items@.len() <= u32::MAX,
    ensures
        w@ == window_of(items@, start as int, end as int, top_n as nat),
        sorted_desc(w@.top_authors),
        sorted_desc(w@.top_domains),
{
    let ghost its = items@;
    let ghost mut sel: Seq<Story> = seq![];
    let mut ids: Vec<u32> = Vec::new();
    let mut stories: Vec<StorySummary> = Vec::new();
    let mut score_sum: i64 = 0;
    let mut comments: i64 = 0;
    let mut authors: Vec<String> = Vec::new();
    let mut domains: Vec<String> = Vec::new();
    let mut i: usize = 0;
    while i < items.len()
        invariant
            its == items@,
            its.len() <= u32::MAX,
            i <= its.len(),
            sel == window_items(its.take(i as int), start as int, end as int),
            sel.len() <= i,
            ids@ == sel.map_values(|s: Story| s.id),
            stories@.len() == sel.len(),
            forall|j: int| 0 <= j < sel.len() ==> #[trigger] stories@[j]@ == summary_of(sel[j]),
            score_sum == score_total(sel),
            comments == comment_total(sel),
            -(i as int) * 0x8000_0000 <= score_sum <= (i as int) * 0x7fff_ffff,
            -(i as int) * 0x8000_0000 <= comments <= (i as int) * 0x7fff_ffff,
            strings_view(authors@) == author_keys(sel),
            strings_view(domains@) == domain_keys(sel),
        decreases its.len() - i,
    {
        let s = &items[i];
        assert(its.take(i + 1).drop_last() =~= its.take(i as int));
        assert(its.take(i + 1).last() == *s);
        let seen = id_seen(&ids, s.id);
        proof {
            if seen {
                let j = choose|j: int| 0 <= j < ids@.len() && ids@[j] == s.id;
                assert(sel[j].id == s.id);
            } else {
                if has_id(sel, s.id) {
                    let j = choose|j: int| 0 <= j < sel.len() && (#[trigger] sel[j]).id == s.id;
                    assert(ids@[j] == s.id);
                }
            }
        }
        if start <= s.time && s.time < end && !seen {
            let ghost old_sel = sel;
            proof {
                sel = sel.push(*s);
                assert(sel.drop_last() =~= old_sel);
            }
            ids.push(s.id);
            let sm = s.summary();
            stories.push(sm);
            match s.score {
                Some(x) => {
                    score_sum = score_sum + x as i64;
                },
                None => {},
            }
            match s.descendants {
                Some(x) => {
                    comments = comments + x as i64;
                },
                None => {},
            }
            match &s.by {
                Some(a) => {
                    authors.push(a.clone());
                    assert(strings_view(authors@) =~= author_keys(old_sel).push(a@));
                },
                None => {},
            }
            let d = domain_of_story(s);
            match d {
                Some(d) => {
                    domains.push(d);
                    assert(strings_view(domains@) =~= domain_keys(old_sel).push(d@));
                },
                None => {},
            }
            assert(ids@ =~= sel.map_values(|s: Story| s.id));
        }
        i = i + 1;
    }
    assert(its.take(its.len() as int) =~= its);
    assert(stories@.map_values(|s: StorySummary| s@) =~= sel.map_values(|s: Story| summary_of(s)));
    let top_authors = top_keys_of(&authors, top_n);
    let top_domains = top_keys_of(&domains, top_n);
    Window { start, stories, score_sum, comment_total: comments, top_authors, top_domains }
}

impl Window {
    /// A copy of the window.
    pub fn duplicate(&self) -> (r: Window)
        ensures
            r@ == self@,
    {
        let mut stories: Vec<StorySummary> = Vec::new();
        let mut i: usize = 0;
        while i < self.stories.len()
            invariant
                i <= self.stories@.len(),
                stories@.len() == i,
                forall|j: int| 0 <= j < i ==> (#[trigger] stories@[j])@ == self.stories@[j]@,
            decreases self.stories@.len() - i,
        {
            stories.push(self.stories[i].duplicate());
            i = i + 1;
        }
        assert(stories@.map_values(|s: StorySummary| s@) =~= self.stories@.map_values(
            |s: StorySummary| s@,
        ));
        Window {
            start: self.start,
            stories,
            score_sum: self.score_sum,
            comment_total: self.comment_total,
            top_authors: copy_entries(&self.top_authors),
            top_domains: copy_entries(&self.top_domains),
        }
    }

    /// Number of stories in the window.
    pub fn story_count(&self) -> (r: usize)
        ensures
            r == self@.stories.len(),
    {
        self.stories.len()
    }

    /// The mean score of the window's stories, rounded down; zero when the
    /// window holds none.
    pub fn average_score(&self) -> (r: i64)
        ensures
            r == average_of(self.score_sum as int, self@.stories.len() as int),
    {
        let n = self.stories.len();
        if n == 0 {
            0
        } else {
            let s = self.score_sum as i128;
            let c = n as i128;
            let q: i128 = if s >= 0 {
                s / c
            } else {
                -((-s + c - 1) / c)
            };
            proof {
                lemma_floor_div(s as int, c as int, q as int);
            }
            q as i64
        }
    }
}

} // verus!
