use story_pipeline::story::Story;
use story_pipeline::window::{aggregate, hour_start, Window, WINDOW_TOP_N};

fn story(id: u32, by: Option<&str>, url: Option<&str>, score: Option<i32>, time: i64) -> Story {
    Story {
        id,
        title: format!("story {}", id),
        score,
        time,
        kids: vec![],
        url: url.map(|u| u.to_string()),
        kind: Some("story".to_string()),
        by: by.map(|b| b.to_string()),
        text: None,
        descendants: Some(id as i32),
    }
}

fn ranks(v: &[story_pipeline::rank::RankEntry]) -> Vec<(String, usize)> {
    v.iter().map(|e| (e.name.clone(), e.count)).collect()
}

fn same(a: &Window, b: &Window) -> bool {
    a.start == b.start
        && a.score_sum == b.score_sum
        && a.comment_total == b.comment_total
        && ranks(&a.top_authors) == ranks(&b.top_authors)
        && ranks(&a.top_domains) == ranks(&b.top_domains)
        && a.stories.len() == b.stories.len()
        && a.stories.iter().zip(b.stories.iter()).all(|(x, y)| {
            x.id == y.id && x.title == y.title && x.url == y.url && x.author == y.author
                && x.score == y.score && x.comments == y.comments && x.domain == y.domain
        })
}

#[test]
fn three_items_end_to_end() {
    let items = vec![
        story(1, Some("A"), Some("https://x.com/1"), Some(10), 7200),
        story(2, Some("A"), Some("https://y.com/2"), Some(20), 7300),
        story(3, Some("B"), Some("https://x.com/3"), Some(30), 7400),
    ];
    let w = aggregate(&items, 7200, 10800, WINDOW_TOP_N);
    assert_eq!(w.average_score(), 20);
    assert_eq!(w.story_count(), 3);
    assert_eq!(ranks(&w.top_authors), vec![("A".to_string(), 2), ("B".to_string(), 1)]);
    assert_eq!(ranks(&w.top_domains), vec![("x.com".to_string(), 2), ("y.com".to_string(), 1)]);
}

#[test]
fn domain_ties_follow_first_occurrence() {
    let items = vec![
        story(1, Some("A"), Some("https://x.com/1"), Some(10), 7200),
        story(2, Some("A"), Some("https://y.com/2"), Some(20), 7300),
        story(3, Some("B"), None, Some(30), 7400),
    ];
    let w = aggregate(&items, 7200, 10800, WINDOW_TOP_N);
    assert_eq!(ranks(&w.top_domains), vec![("x.com".to_string(), 1), ("y.com".to_string(), 1)]);
    assert_eq!(w.average_score(), 20);
}

#[test]
fn empty_window_has_zero_average() {
    let w = aggregate(&vec![], 0, 3600, WINDOW_TOP_N);
    assert_eq!(w.average_score(), 0);
    assert_eq!(w.story_count(), 0);
    assert_eq!(w.comment_total, 0);
    assert!(w.top_authors.is_empty() && w.top_domains.is_empty());
}

#[test]
fn interval_is_half_open() {
    let items = vec![
        story(1, Some("A"), None, Some(1), 3599),
        story(2, Some("A"), None, Some(2), 3600),
        story(3, Some("A"), None, Some(4), 7199),
        story(4, Some("A"), None, Some(8), 7200),
    ];
    let w = aggregate(&items, 3600, 7200, WINDOW_TOP_N);
    let ids: Vec<u32> = w.stories.iter().map(|s| s.id).collect();
    assert_eq!(ids, vec![2, 3]);
    assert_eq!(w.score_sum, 6);
    assert_eq!(w.comment_total, 5);
}

#[test]
fn repeated_identifier_counts_once() {
    let items = vec![
        story(5, Some("A"), Some("https://x.com"), Some(10), 100),
        story(5, Some("A"), Some("https://x.com"), Some(10), 200),
    ];
    let w = aggregate(&items, 0, 3600, WINDOW_TOP_N);
    assert_eq!(w.story_count(), 1);
    assert_eq!(ranks(&w.top_authors), vec![("A".to_string(), 1)]);
}

#[test]
fn absent_fields_default_to_zero_and_skip_rankings() {
    let mut s = story(9, None, None, None, 10);
    s.descendants = None;
    let w = aggregate(&vec![s], 0, 3600, WINDOW_TOP_N);
    assert_eq!(w.score_sum, 0);
    assert_eq!(w.comment_total, 0);
    assert_eq!(w.stories.len(), 1);
    assert!(w.top_authors.is_empty());
    assert!(w.top_domains.is_empty());
}

#[test]
fn aggregation_is_deterministic() {
    let items = vec![
        story(1, Some("C"), Some("https://b.com"), Some(3), 50),
        story(2, Some("D"), Some("https://a.com"), Some(4), 60),
        story(3, Some("C"), Some("https://a.com"), Some(5), 70),
    ];
    let a = aggregate(&items, 0, 3600, 1);
    let b = aggregate(&items, 0, 3600, 1);
    assert!(same(&a, &b));
    assert_eq!(ranks(&a.top_authors), vec![("C".to_string(), 2)]);
    assert_eq!(ranks(&a.top_domains), vec![("a.com".to_string(), 2)]);
}

#[test]
fn average_rounds_down() {
    let items = vec![
        story(1, None, None, Some(-3), 0),
        story(2, None, None, Some(0), 1),
    ];
    let w = aggregate(&items, 0, 3600, WINDOW_TOP_N);
    assert_eq!(w.average_score(), -2);
    let items = vec![story(1, None, None, Some(7), 0), story(2, None, None, Some(0), 1)];
    assert_eq!(aggregate(&items, 0, 3600, WINDOW_TOP_N).average_score(), 3);
}

#[test]
fn hour_start_truncates() {
    assert_eq!(hour_start(7260), 7200);
    assert_eq!(hour_start(7200), 7200);
    assert_eq!(hour_start(-1), -3600);
    assert_eq!(hour_start(0), 0);
}

#[test]
fn duplicate_copies_window() {
    let items = vec![story(1, Some("A"), Some("https://x.com"), Some(10), 7200)];
    let w = aggregate(&items, 7200, 10800, WINDOW_TOP_N);
    assert!(same(&w, &w.duplicate()));
}

#[test]
fn author_ties_follow_first_occurrence() {
    let items = vec![
        story(1, Some("zed"), None, Some(1), 10),
        story(2, Some("amy"), None, Some(1), 20),
        story(3, Some("bob"), None, Some(1), 30),
        story(4, Some("bob"), None, Some(1), 40),
    ];
    let w = aggregate(&items, 0, 3600, 2);
    assert_eq!(ranks(&w.top_authors), vec![("bob".to_string(), 2), ("zed".to_string(), 1)]);
}
