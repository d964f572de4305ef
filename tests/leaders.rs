use story_pipeline::leaderboard::{ConsumerAction, ConsumerEvent, DomainLeaderboard};
use story_pipeline::story::Story;

fn story(id: u32, url: Option<&str>) -> Story {
    Story {
        id,
        title: "t".to_string(),
        score: None,
        time: 0,
        kids: vec![],
        url: url.map(|u| u.to_string()),
        kind: None,
        by: None,
        text: None,
        descendants: None,
    }
}

fn top(l: &DomainLeaderboard) -> Vec<(String, usize)> {
    l.top_domains().iter().map(|e| (e.name.clone(), e.count)).collect()
}

#[test]
fn counts_and_ranks_domains() {
    let mut l = DomainLeaderboard::new(0);
    assert!(l.process_story(&story(1, Some("https://a.com/x")), 5));
    assert!(l.process_story(&story(2, Some("https://www.b.com")), 6));
    assert!(l.process_story(&story(3, Some("https://b.com/y")), 7));
    assert!(!l.process_story(&story(4, None), 8));
    assert!(!l.process_story(&story(5, Some("nourl")), 9));
    assert!(top(&l).is_empty());
    l.update_top();
    assert_eq!(top(&l), vec![("b.com".to_string(), 2), ("a.com".to_string(), 1)]);
    assert_eq!(l.total_stories(), 3);
    assert_eq!(l.last_updated(), 7);
}

#[test]
fn consumer_events_drive_the_board() {
    let mut l = DomainLeaderboard::new(0);
    assert_eq!(l.on_event(ConsumerEvent::Received(story(1, Some("https://z.io"))), 3), ConsumerAction::Continue);
    assert_eq!(l.on_event(ConsumerEvent::Unreadable, 4), ConsumerAction::Continue);
    assert!(top(&l).is_empty());
    assert_eq!(l.on_event(ConsumerEvent::Tick, 5), ConsumerAction::Continue);
    assert_eq!(top(&l), vec![("z.io".to_string(), 1)]);
    assert_eq!(l.on_event(ConsumerEvent::ReceiveFailed, 6), ConsumerAction::Stop);
    assert_eq!(l.total_stories(), 1);
}

#[test]
fn board_keeps_one_hundred() {
    let mut l = DomainLeaderboard::new(0);
    for k in 0..120u32 {
        let url = format!("https://d{}.com", k);
        l.process_story(&story(k, Some(&url)), 1);
    }
    l.process_story(&story(999, Some("https://d119.com")), 1);
    l.update_top();
    let t = top(&l);
    assert_eq!(t.len(), 100);
    assert_eq!(t[0], ("d119.com".to_string(), 2));
    assert_eq!(t[1], ("d0.com".to_string(), 1));
}

#[test]
fn updated_at_in_rfc3339() {
    let l = DomainLeaderboard::new(0);
    assert_eq!(l.updated_at(), Some("1970-01-01T00:00:00+00:00".to_string()));
}
