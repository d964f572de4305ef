use vstd::prelude::*;
use crate::dedup::{fresh, lemma_accepted_once};

verus! {

/// How many candidates a cycle fetches.
pub const FETCH_COUNT: usize = 100;

/// The first `limit` distinct identifiers of the newest listing followed by
/// the most popular one.
pub open spec fn candidates(newest: Seq<u32>, popular: Seq<u32>, limit: nat) -> Seq<u32> {
    let d = fresh(Set::empty(), newest + popular);
    if limit < d.len() {
        d.take(limit as int)
    } else {
        d
    }
}

/// The identifiers a cycle fetches: the union of the two listings, each
/// identifier once in order of first occurrence, at most `limit` of them.
pub fn candidate_ids(newest: &Vec<u32>, popular: &Vec<u32>, limit: usize) -> (r: Vec<u32>)
    requires
        newest@.len() + popular@.len() <= usize::MAX,
    ensures
        r@ == candidates(newest@, popular@, limit as nat),
        r@.no_duplicates(),
{
    let ghost all = newest@ + popular@;
    let mut r: Vec<u32> = Vec::new();
    let mut i: usize = 0;
    let n1 = newest.len();
    let n = n1 + popular.len();
    let ghost nn = n as int;
    assert(all.len() == nn);
    while i < n
        invariant
            all == newest@ + popular@,
            n1 == newest@.len(),
            n == all.len(),
            i <= n,
            r@ == fresh(Set::empty(), all.take(i as int)),
        decreases n - i,
    {
        let x = if i < n1 {
            newest[i]
        } else {
            popular[i - n1]
        };
        let ghost pre = all.take(i as int);
        assert(x == all[i as int]);
        assert(all.take(i + 1).drop_last() =~= pre);
        assert(all.take(i + 1).last() == x);
        proof {
            lemma_accepted_once(Set::empty(), pre);
        }
        let mut j: usize = 0;
        while j < r.len() && r[j] != x
            invariant
                j <= r@.len(),
                forall|k: int| 0 <= k < j ==> r@[k] != x,
            decreases r@.len() - j,
        {
            j = j + 1;
        }
        proof {
            if j < r@.len() {
                assert(r@[j as int] == x);
                assert(r@.contains(x));
            }
            assert(!Set::<u32>::empty().contains(x));
        }
        if j == r.len() {
            assert(!r@.contains(x));
            assert(!fresh(Set::<u32>::empty(), pre).contains(x));
            r.push(x);
            assert(!pre.contains(x));
        } else {
            assert(pre.contains(x));
        }
        i = i + 1;
    }
    assert(all.take(n as int) =~= all);
    proof {
        lemma_accepted_once(Set::empty(), all);
    }
    let ghost full = r@;
    r.truncate(limit);
    proof {
        assert(r@.no_duplicates()) by {
            assert forall|a: int, b: int| 0 <= a < r@.len() && 0 <= b < r@.len() && a != b implies r@[a]
                != r@[b] by {
                assert(r@[a] == full[a] && r@[b] == full[b]);
            }
        }
    }
    r
}

/// Why a cycle was skipped.
#[derive(PartialEq, Eq, Structural, Debug, Clone, Copy)]
pub enum SkipReason {
    /// The listings could not be fetched.
    SourceFailed,
    /// The listings held no candidate.
    NoCandidates,
    /// Publishing to the durable log failed.
    LogFailed,
}

/// Where an ingestion cycle stands.
#[derive(PartialEq, Eq, Structural, Debug, Clone, Copy)]
pub enum CycleState {
    Idle,
    Fetching,
    Aggregating,
    Publishing,
    Skipped(SkipReason),
}

/// What happened in a cycle.
#[derive(PartialEq, Eq, Structural, Debug, Clone, Copy)]
pub enum CycleEvent {
    /// The scheduled tick.
    Tick,
    /// The listings gave this many candidates.
    Fetched(usize),
    /// Fetching the listings failed.
    FetchFailed,
    /// The windows were computed and appended to the history.
    Aggregated,
    /// Every window was published.
    Published,
    /// Publishing a window failed.
    PublishFailed,
}

/// The state after `ev` in state `s`. A tick starts a cycle from rest;
/// each stage leads to the next; a failure or an empty listing skips the
/// cycle; any other event leaves the state as it is.
pub open spec fn next_state(s: CycleState, ev: CycleEvent) -> CycleState {
    match (s, ev) {
        (CycleState::Idle, CycleEvent::Tick) => CycleState::Fetching,
        (CycleState::Skipped(_), CycleEvent::Tick) => CycleState::Fetching,
        (CycleState::Fetching, CycleEvent::FetchFailed) => CycleState::Skipped(
            SkipReason::SourceFailed,
        ),
        (CycleState::Fetching, CycleEvent::Fetched(n)) => if n == 0 {
            CycleState::Skipped(SkipReason::NoCandidates)
        } else {
            CycleState::Aggregating
        },
        (CycleState::Aggregating, CycleEvent::Aggregated) => CycleState::Publishing,
        (CycleState::Publishing, CycleEvent::Published) => CycleState::Idle,
        (CycleState::Publishing, CycleEvent::PublishFailed) => CycleState::Skipped(
            SkipReason::LogFailed,
        ),
        _ => s,
    }
}

/// A cycle is at rest: the next tick may start one.
pub open spec fn at_rest(s: CycleState) -> bool {
    s is Idle || s is Skipped
}

/// The next state of a cycle (see `next_state`).
pub fn step(s: CycleState, ev: CycleEvent) -> (r: CycleState)
    ensures
        r == next_state(s, ev),
{
    match (s, ev) {
        (CycleState::Idle, CycleEvent::Tick) => CycleState::Fetching,
        (CycleState::Skipped(_), CycleEvent::Tick) => CycleState::Fetching,
        (CycleState::Fetching, CycleEvent::FetchFailed) => CycleState::Skipped(
            SkipReason::SourceFailed,
        ),
        (CycleState::Fetching, CycleEvent::Fetched(n)) => if n == 0 {
            CycleState::Skipped(SkipReason::NoCandidates)
        } else {
            CycleState::Aggregating
        },
        (CycleState::Aggregating, CycleEvent::Aggregated) => CycleState::Publishing,
        (CycleState::Publishing, CycleEvent::Published) => CycleState::Idle,
        (CycleState::Publishing, CycleEvent::PublishFailed) => CycleState::Skipped(
            SkipReason::LogFailed,
        ),
        _ => s,
    }
}

/// A failure never stops the schedule: from every state at rest a tick
/// starts a new cycle, and every failure ends at rest.
pub proof fn lemma_failures_skip(s: CycleState)
    ensures
        at_rest(s) ==> next_state(s, CycleEvent::Tick) == CycleState::Fetching,
        at_rest(next_state(CycleState::Fetching, CycleEvent::FetchFailed)),
        at_rest(next_state(CycleState::Fetching, CycleEvent::Fetched(0))),
        at_rest(next_state(CycleState::Publishing, CycleEvent::PublishFailed)),
{
}

} // verus!
