use vstd::prelude::*;
use crate::rank::{
    RankEntry, Tally, copy_entries, count_key, entries_view, rank, sorted_desc, tally_step, top,
    lemma_rank_sorted, rank_entries,
};
use crate::story::{Story, domain_of_story, opt_view, story_domain};
use crate::text::{rfc3339_of, rfc3339_text};

verus! {

/// How many domains the leaderboard ranks.
pub const LEADERBOARD_SIZE: usize = 100;

/// Long-lived domain counts over every story consumed, with a ranking that
/// is refreshed on demand.
pub struct DomainLeaderboard {
    counts: Vec<RankEntry>,
    top: Vec<RankEntry>,
    total_stories: usize,
    last_updated: i64,
}

/// What the consumer loop hands the leaderboard.
pub enum ConsumerEvent {
    /// The periodic refresh of the ranking is due.
    Tick,
    /// A message held this story.
    Received(Story),
    /// A message had no payload, or one that is no story.
    Unreadable,
    /// Receiving from the log failed.
    ReceiveFailed,
}

/// What the consumer loop does next.
#[derive(PartialEq, Eq, Structural, Debug, Clone, Copy)]
pub enum ConsumerAction {
    Continue,
    Stop,
}

impl DomainLeaderboard {
    pub closed spec fn view_counts(&self) -> Tally {
        entries_view(self.counts@)
    }

    pub closed spec fn view_top(&self) -> Tally {
        entries_view(self.top@)
    }

    pub closed spec fn spec_total(&self) -> nat {
        self.total_stories as nat
    }

    pub closed spec fn spec_last_updated(&self) -> int {
        self.last_updated as int
    }

    pub closed spec fn wf(&self) -> bool {
        forall|j: int| 0 <= j < self.counts@.len() ==> #[trigger] self.counts@[j].count
            <= self.total_stories
    }

    /// An empty leaderboard, last updated at `now`.
    pub fn new(now: i64) -> (r: DomainLeaderboard)
        ensures
            r.wf(),
            r.view_counts() == Seq::<(Seq<char>, nat)>::empty(),
            r.view_top() == Seq::<(Seq<char>, nat)>::empty(),
            r.spec_total() == 0,
            r.spec_last_updated() == now,
    {
        let r = DomainLeaderboard {
            counts: Vec::new(),
            top: Vec::new(),
            total_stories: 0,
            last_updated: now,
        };
        assert(r.view_counts() =~= Seq::<(Seq<char>, nat)>::empty());
        assert(r.view_top() =~= Seq::<(Seq<char>, nat)>::empty());
        r
    }

    /// Counts the domain of `s` at time `now`. A story without a domain is
    /// not counted, nor is any once the story total has reached `usize::MAX`;
    /// true when it was counted.
    pub fn process_story(&mut self, s: &Story, now: i64) -> (r: bool)
        requires
            old(self).wf(),
        ensures
            final(self).wf(),
            r == (story_domain(*s) is Some && old(self).spec_total() < usize::MAX),
            r ==> final(self).view_counts() == tally_step(
                old(self).view_counts(),
                story_domain(*s)->0,
            ),
            r ==> final(self).spec_total() == old(self).spec_total() + 1,
            r ==> final(self).spec_last_updated() == now,
            !r ==> *final(self) == *old(self),
            final(self).view_top() == old(self).view_top(),
    {
        let d = domain_of_story(s);
        match d {
            None => false,
            Some(d) => {
                if self.total_stories == usize::MAX {
                    return false;
                }
                let ghost before = self.counts@;
                count_key(&mut self.counts, &d);
                self.total_stories = self.total_stories + 1;
                self.last_updated = now;
                assert forall|j: int| 0 <= j < self.counts@.len() implies #[trigger] self.counts@[j].count
                    <= self.total_stories by {
                    if j < before.len() {
                        assert(before[j].count <= self.total_stories - 1);
                    }
                }
                true
            },
        }
    }

    /// Ranks the counted domains, highest count first, ties in order of first
    /// occurrence, and keeps the first `LEADERBOARD_SIZE`.
    pub fn update_top(&mut self)
        requires
            old(self).wf(),
        ensures
            final(self).wf(),
            final(self).view_top() == top(rank(old(self).view_counts()), LEADERBOARD_SIZE as nat),
            sorted_desc(final(self).view_top()),
            final(self).view_counts() == old(self).view_counts(),
            final(self).spec_total() == old(self).spec_total(),
            final(self).spec_last_updated() == old(self).spec_last_updated(),
    {
        let mut r = rank_entries(&self.counts);
        proof {
            lemma_rank_sorted(entries_view(self.counts@));
        }
        let ghost before = r@;
        r.truncate(LEADERBOARD_SIZE);
        assert(entries_view(r@) =~= top(entries_view(before), LEADERBOARD_SIZE as nat));
        self.top = r;
    }

    /// The current ranking.
    pub fn top_domains(&self) -> (r: Vec<RankEntry>)
        ensures
            entries_view(r@) == self.view_top(),
    {
        copy_entries(&self.top)
    }

    /// Stories counted so far.
    pub fn total_stories(&self) -> (r: usize)
        ensures
            r == self.spec_total(),
    {
        self.total_stories
    }

    /// Time of the last counted story, seconds since the epoch.
    pub fn last_updated(&self) -> (r: i64)
        ensures
            r == self.spec_last_updated(),
    {
        self.last_updated
    }

    /// Time of the last counted story, in RFC 3339.
    pub fn updated_at(&self) -> (r: Option<String>)
        ensures
            opt_view(r) == rfc3339_of(self.spec_last_updated() as i64),
    {
        rfc3339_text(self.last_updated)
    }

    /// One turn of the consumer loop at time `now`: a tick refreshes the
    /// ranking, a story is counted, an unreadable message is skipped, and a
    /// failed receive stops the loop.
    pub fn on_event(&mut self, ev: ConsumerEvent, now: i64) -> (r: ConsumerAction)
        requires
            old(self).wf(),
        ensures
            final(self).wf(),
            match ev {
                ConsumerEvent::Tick => {
                    &&& r == ConsumerAction::Continue
                    &&& final(self).view_top() == top(
                        rank(old(self).view_counts()),
                        LEADERBOARD_SIZE as nat,
                    )
                    &&& final(self).view_counts() == old(self).view_counts()
                    &&& final(self).spec_total() == old(self).spec_total()
                },
                ConsumerEvent::Received(s) => {
                    &&& r == ConsumerAction::Continue
                    &&& final(self).view_top() == old(self).view_top()
                    &&& (story_domain(s) is Some && old(self).spec_total() < usize::MAX)
                        ==> final(self).view_counts() == tally_step(
                        old(self).view_counts(),
                        story_domain(s)->0,
                    ) && final(self).spec_total() == old(self).spec_total() + 1
                    &&& !(story_domain(s) is Some && old(self).spec_total() < usize::MAX)
                        ==> *final(self) == *old(self)
                },
                ConsumerEvent::Unreadable => {
                    &&& r == ConsumerAction::Continue
                    &&& *final(self) == *old(self)
                },
                ConsumerEvent::ReceiveFailed => {
                    &&& r == ConsumerAction::Stop
                    &&& *final(self) == *old(self)
                },
            },
    {
        match ev {
            ConsumerEvent::Tick => {
                self.update_top();
                ConsumerAction::Continue
            },
            ConsumerEvent::Received(s) => {
                self.process_story(&s, now);
                ConsumerAction::Continue
            },
            ConsumerEvent::Unreadable => ConsumerAction::Continue,
            ConsumerEvent::ReceiveFailed => ConsumerAction::Stop,
        }
    }
}

} // verus!
