use story_pipeline::history::History;
use story_pipeline::read_model::{get_history, get_latest, get_top_sources, replay, window_sources};
use story_pipeline::story::Story;
use story_pipeline::window::{aggregate, Window};

fn story(id: u32, url: &str, time: i64) -> Story {
    Story {
        id,
        title: "t".to_string(),
        score: Some(1),
        time,
        kids: vec![],
        url: Some(url.to_string()),
        kind: None,
        by: None,
        text: None,
        descendants: None,
    }
}

fn window_at(start: i64, urls: &[&str]) -> Window {
    let items: Vec<Story> =
        urls.iter().enumerate().map(|(i, u)| story(i as u32, u, start)).collect();
    aggregate(&items, start, start + 3600, 10)
}

fn starts(v: &[Window]) -> Vec<i64> {
    v.iter().map(|w| w.start).collect()
}

fn local() -> History {
    let mut h = History::new(168);
    h.append(window_at(3600, &["https://a.com"]), 1);
    h.append(window_at(7200, &["https://b.com"]), 2);
    h
}

#[test]
fn replayed_windows_come_newest_first() {
    let log = vec![window_at(7200, &[]), window_at(10800, &[]), window_at(3600, &[])];
    let r = get_history(&Some(log), &local());
    assert_eq!(starts(&r), vec![10800, 7200, 3600]);
}

#[test]
fn replay_keeps_last_message_per_start() {
    let log = vec![window_at(3600, &["https://a.com"]), window_at(3600, &["https://a.com", "https://b.com"])];
    let h = replay(&log, 168);
    assert_eq!(h.len(), 1);
    assert_eq!(h.latest().unwrap().stories.len(), 2);
}

#[test]
fn replay_is_bounded_by_cap() {
    let log: Vec<Window> = (0..5).map(|k| window_at(k * 3600, &[])).collect();
    let r = get_history(&Some(log), &History::new(2));
    assert_eq!(starts(&r), vec![4 * 3600, 3 * 3600]);
}

#[test]
fn log_outage_falls_back_to_memory() {
    let r = get_history(&None, &local());
    assert_eq!(starts(&r), vec![7200, 3600]);
    let latest = get_latest(&None, &local()).unwrap();
    assert_eq!(latest.start, 7200);
}

#[test]
fn empty_replay_falls_back_to_memory() {
    let r = get_history(&Some(vec![]), &local());
    assert_eq!(starts(&r), vec![7200, 3600]);
}

#[test]
fn no_window_anywhere() {
    let h = History::new(168);
    assert!(get_latest(&None, &h).is_none());
    assert!(get_top_sources(&None, &h, 20).is_empty());
}

#[test]
fn top_sources_use_newest_window_only() {
    let log = vec![
        window_at(3600, &["https://old.com", "https://old.com"]),
        window_at(7200, &["https://x.com", "https://y.com", "https://y.com", "ftp-no-domain"]),
    ];
    let r = get_top_sources(&Some(log), &local(), 20);
    let got: Vec<(String, usize)> = r.iter().map(|e| (e.name.clone(), e.count)).collect();
    assert_eq!(got, vec![("y.com".to_string(), 2), ("x.com".to_string(), 1)]);
}

#[test]
fn top_sources_respect_limit() {
    let w = window_at(0, &["https://a.com", "https://b.com", "https://b.com", "https://c.com"]);
    let r = window_sources(&w, 2);
    let got: Vec<(String, usize)> = r.iter().map(|e| (e.name.clone(), e.count)).collect();
    assert_eq!(got, vec![("b.com".to_string(), 2), ("a.com".to_string(), 1)]);
}
