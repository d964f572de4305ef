use vstd::prelude::*;
use crate::history::{
    History, appended, ascending, descending, keep_newest, lemma_upsert, reversed, upsert,
    windows_view,
};
use crate::rank::{RankEntry, sorted_desc, strings_view, entries_view, top_keys, top_keys_of};
use crate::story::SummaryView;
use crate::window::{Window, WindowView};

verus! {

/// How many domains the top-sources read ranks unless told otherwise.
pub const TOP_SOURCES_LIMIT: usize = 20;

/// The history that replaying `ms`, in arrival order, builds under cap `cap`.
pub open spec fn replay_of(ms: Seq<WindowView>, cap: nat) -> Seq<WindowView>
    decreases ms.len(),
{
    if ms.len() == 0 {
        seq![]
    } else {
        appended(replay_of(ms.drop_last(), cap), ms.last(), cap)
    }
}

pub open spec fn opt_windows_view(o: Option<Vec<Window>>) -> Option<Seq<WindowView>> {
    match o {
        Some(v) => Some(windows_view(v@)),
        None => None,
    }
}

/// What a history read returns, newest first: the replayed log where it
/// yields a window, else the in-memory history (`None` stands for a log that
/// could not be read).
pub open spec fn history_read(
    replayed: Option<Seq<WindowView>>,
    local: Seq<WindowView>,
    cap: nat,
) -> Seq<WindowView> {
    match replayed {
        Some(ms) => if replay_of(ms, cap).len() > 0 {
            reversed(replay_of(ms, cap))
        } else {
            reversed(local)
        },
        None => reversed(local),
    }
}

/// The domains of a window's stories, in order; those without one are left out.
pub open spec fn summary_domains(s: Seq<SummaryView>) -> Seq<Seq<char>>
    decreases s.len(),
{
    if s.len() == 0 {
        seq![]
    } else {
        match s.last().domain {
            Some(d) => summary_domains(s.drop_last()).push(d),
            None => summary_domains(s.drop_last()),
        }
    }
}

proof fn lemma_keep_newest(s: Seq<WindowView>, cap: nat)
    requires
        ascending(s),
    ensures
        ascending(keep_newest(s, cap)),
        keep_newest(s, cap).len() <= cap || keep_newest(s, cap) == s,
{
}

/// Replaying any log gives an ascending history within the cap.
pub proof fn lemma_replay_ascending(ms: Seq<WindowView>, cap: nat)
    ensures
        ascending(replay_of(ms, cap)),
        replay_of(ms, cap).len() <= cap,
    decreases ms.len(),
{
    if ms.len() > 0 {
        lemma_replay_ascending(ms.drop_last(), cap);
        lemma_upsert(replay_of(ms.drop_last(), cap), ms.last());
        lemma_keep_newest(upsert(replay_of(ms.drop_last(), cap), ms.last()), cap);
    }
}

/// The reverse of an ascending sequence is descending.
pub proof fn lemma_reversed_descending(s: Seq<WindowView>)
    requires
        ascending(s),
    ensures
        descending(reversed(s)),
        reversed(s).len() == s.len(),
{
    assert forall|i: int, j: int| 0 <= i < j < reversed(s).len() implies reversed(s)[i].start
        > reversed(s)[j].start by {
        assert(s[s.len() - 1 - j].start < s[s.len() - 1 - i].start);
    }
}

/// A history read is ordered newest first, whatever order the windows were
/// appended or replayed in.
pub proof fn lemma_history_read_descending(
    replayed: Option<Seq<WindowView>>,
    local: Seq<WindowView>,
    cap: nat,
)
    requires
        ascending(local),
    ensures
        descending(history_read(replayed, local, cap)),
{
    lemma_reversed_descending(local);
    match replayed {
        Some(ms) => {
            lemma_replay_ascending(ms, cap);
            lemma_reversed_descending(replay_of(ms, cap));
        },
        None => {},
    }
}

/// When the log cannot be read, a history read returns the in-memory
/// history, and its first window is the newest one known locally.
pub proof fn lemma_outage_falls_back(local: Seq<WindowView>, cap: nat)
    ensures
        history_read(None, local, cap) == reversed(local),
        local.len() > 0 ==> history_read(None, local, cap)[0] == local.last(),
{
}

/// Builds a history by appending the replayed windows in arrival order.
pub fn replay(messages: &Vec<Window>, cap: usize) -> (h: History)
    ensures
        h.wf(),
        h.view_windows() == replay_of(windows_view(messages@), cap as nat),
        h.spec_cap() == cap,
{
    let ghost ms = windows_view(messages@);
    let mut h = History::new(cap);
    let mut i: usize = 0;
    while i < messages.len()
        invariant
            ms == windows_view(messages@),
            i <= messages@.len(),
            h.wf(),
            h.spec_cap() == cap,
            h.view_windows() == replay_of(ms.take(i as int), cap as nat),
        decreases messages@.len() - i,
    {
        let w = messages[i].duplicate();
        assert(ms.take(i + 1).drop_last() =~= ms.take(i as int));
        assert(ms.take(i + 1).last() == w@);
        h.upsert_window(w);
        i = i + 1;
    }
    assert(ms.take(messages@.len() as int) =~= ms);
    h
}

/// All windows, newest first: those replayed from the log (`None` when it
/// could not be read), or the in-memory history where the log yields none.
pub fn get_history(replayed: &Option<Vec<Window>>, local: &History) -> (r: Vec<Window>)
    requires
        local.wf(),
    ensures
        windows_view(r@) == history_read(
            opt_windows_view(*replayed),
            local.view_windows(),
            local.spec_cap(),
        ),
        descending(windows_view(r@)),
{
    proof {
        local.lemma_wf();
        lemma_history_read_descending(
            opt_windows_view(*replayed),
            local.view_windows(),
            local.spec_cap(),
        );
    }
    match replayed {
        Some(ms) => {
            let h = replay(ms, local.cap());
            if h.len() > 0 {
                h.newest_first()
            } else {
                local.newest_first()
            }
        },
        None => local.newest_first(),
    }
}

/// The newest window of a history read, if there is one.
pub fn get_latest(replayed: &Option<Vec<Window>>, local: &History) -> (r: Option<Window>)
    requires
        local.wf(),
    ensures
        ({
            let hr = history_read(opt_windows_view(*replayed), local.view_windows(), local.spec_cap());
            match r {
                Some(w) => hr.len() > 0 && w@ == hr[0],
                None => hr.len() == 0,
            }
        }),
{
    let mut all = get_history(replayed, local);
    if all.len() == 0 {
        None
    } else {
        let ghost before = all@;
        let w = all.swap_remove(0);
        assert(w == before[0]);
        Some(w)
    }
}

/// The `limit` most frequent domains among the stories of `w`, ties in order
/// of first occurrence.
pub fn window_sources(w: &Window, limit: usize) -> (r: Vec<RankEntry>)
    ensures
        entries_view(r@) == top_keys(summary_domains(w@.stories), limit as nat),
        sorted_desc(entries_view(r@)),
{
    let mut keys: Vec<String> = Vec::new();
    let mut i: usize = 0;
    while i < w.stories.len()
        invariant
            i <= w.stories@.len(),
            strings_view(keys@) == summary_domains(w@.stories.take(i as int)),
        decreases w.stories@.len() - i,
    {
        let ghost before = keys@;
        let ghost st = w@.stories;
        assert(st.take(i + 1).drop_last() =~= st.take(i as int));
        assert(st.take(i + 1).last() == w.stories@[i as int]@);
        match &w.stories[i].domain {
            Some(d) => {
                keys.push(d.clone());
                assert(strings_view(keys@) =~= strings_view(before).push(d@));
            },
            None => {},
        }
        i = i + 1;
    }
    assert(w@.stories.take(w.stories@.len() as int) =~= w@.stories);
    top_keys_of(&keys, limit)
}

/// The top domains of the newest window of a history read; empty when there
/// is no window.
pub fn get_top_sources(replayed: &Option<Vec<Window>>, local: &History, limit: usize) -> (r: Vec<
    RankEntry,
>)
    requires
        local.wf(),
    ensures
        ({
            let hr = history_read(opt_windows_view(*replayed), local.view_windows(), local.spec_cap());
            if hr.len() > 0 {
                entries_view(r@) == top_keys(summary_domains(hr[0].stories), limit as nat)
            } else {
                r@.len() == 0
            }
        }),
{
    match get_latest(replayed, local) {
        Some(w) => window_sources(&w, limit),
        None => Vec::new(),
    }
}

} // verus!
