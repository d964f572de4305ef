use vstd::prelude::*;
use crate::domain::{domain_of, extract_domain};

verus! {

/// An item of the feed, as fetched; absent fields stay `None`.
pub struct Story {
    pub id: u32,
    pub title: String,
    pub score: Option<i32>,
    pub time: i64,
    pub kids: Vec<u32>,
    pub url: Option<String>,
    pub kind: Option<String>,
    pub by: Option<String>,
    pub text: Option<String>,
    pub descendants: Option<i32>,
}

/// What a window keeps of a story.
pub struct StorySummary {
    pub id: u32,
    pub title: String,
    pub url: Option<String>,
    pub author: Option<String>,
    pub score: Option<i32>,
    pub comments: Option<i32>,
    pub domain: Option<String>,
}

pub struct SummaryView {
    pub id: u32,
    pub title: Seq<char>,
    pub url: Option<Seq<char>>,
    pub author: Option<Seq<char>>,
    pub score: Option<i32>,
    pub comments: Option<i32>,
    pub domain: Option<Seq<char>>,
}

pub open spec fn opt_view(o: Option<String>) -> Option<Seq<char>> {
    match o {
        Some(s) => Some(s@),
        None => None,
    }
}

/// The domain of a story's URL, if it has one.
pub open spec fn story_domain(s: Story) -> Option<Seq<char>> {
    match s.url {
        Some(u) => domain_of(u@),
        None => None,
    }
}

pub open spec fn summary_of(s: Story) -> SummaryView {
    SummaryView {
        id: s.id,
        title: s.title@,
        url: opt_view(s.url),
        author: opt_view(s.by),
        score: s.score,
        comments: s.descendants,
        domain: story_domain(s),
    }
}

impl View for StorySummary {
    type V = SummaryView;

    open spec fn view(&self) -> SummaryView {
        SummaryView {
            id: self.id,
            title: self.title@,
            url: opt_view(self.url),
            author: opt_view(self.author),
            score: self.score,
            comments: self.comments,
            domain: opt_view(self.domain),
        }
    }
}

impl StorySummary {
    /// A field-by-field copy.
    pub fn duplicate(&self) -> (r: StorySummary)
        ensures
            r@ == self@,
    {
        StorySummary {
            id: self.id,
            title: self.title.clone(),
            url: clone_text(&self.url),
            author: clone_text(&self.author),
            score: self.score,
            comments: self.comments,
            domain: clone_text(&self.domain),
        }
    }
}

pub fn clone_text(o: &Option<String>) -> (r: Option<String>)
    ensures
        r == *o,
{
    match o {
        Some(s) => Some(s.clone()),
        None => None,
    }
}

/// The domain of `s`'s URL (see `domain_of`).
pub fn domain_of_story(s: &Story) -> (r: Option<String>)
    ensures
        opt_view(r) == story_domain(*s),
{
    match &s.url {
        Some(u) => extract_domain(u.as_str()),
        None => None,
    }
}

impl Story {
    /// The summary that a window keeps of this story.
    pub fn summary(&self) -> (r: StorySummary)
        ensures
            r@ == summary_of(*self),
    {
        StorySummary {
            id: self.id,
            title: self.title.clone(),
            url: clone_text(&self.url),
            author: clone_text(&self.by),
            score: self.score,
            comments: self.descendants,
            domain: domain_of_story(self),
        }
    }
}

} // verus!
