use story_pipeline::history::{History, RETENTION_CAP};
use story_pipeline::story::Story;
use story_pipeline::window::{aggregate, Window};

fn story(id: u32, score: i32, time: i64) -> Story {
    Story {
        id,
        title: "t".to_string(),
        score: Some(score),
        time,
        kids: vec![],
        url: None,
        kind: None,
        by: None,
        text: None,
        descendants: None,
    }
}

fn window_at(start: i64, score: i32) -> Window {
    aggregate(&vec![story(1, score, start)], start, start + 3600, 10)
}

fn starts(h: &History) -> Vec<i64> {
    h.newest_first().iter().map(|w| w.start).collect()
}

#[test]
fn same_start_replaces() {
    let mut h = History::new(RETENTION_CAP);
    h.append(window_at(3600, 1), 10);
    h.append(window_at(7200, 2), 11);
    h.append(window_at(3600, 5), 12);
    assert_eq!(h.len(), 2);
    assert_eq!(starts(&h), vec![7200, 3600]);
    let all = h.newest_first();
    assert_eq!(all[1].score_sum, 5);
    assert_eq!(h.last_update(), 12);
}

#[test]
fn length_never_exceeds_cap() {
    let mut h = History::new(3);
    for k in 0..10 {
        h.append(window_at(k * 3600, 1), k);
        assert!(h.len() <= 3);
    }
    assert_eq!(starts(&h), vec![9 * 3600, 8 * 3600, 7 * 3600]);
}

#[test]
fn eviction_drops_oldest_first() {
    let mut h = History::new(2);
    h.append(window_at(7200, 1), 1);
    h.append(window_at(10800, 1), 2);
    h.append(window_at(3600, 1), 3);
    assert_eq!(starts(&h), vec![10800, 7200]);
    h.append(window_at(14400, 1), 4);
    assert_eq!(starts(&h), vec![14400, 10800]);
}

#[test]
fn out_of_order_appends_stay_sorted() {
    let mut h = History::new(RETENTION_CAP);
    for s in [5i64, 1, 4, 2, 3] {
        h.append(window_at(s * 3600, 1), s);
    }
    assert_eq!(starts(&h), vec![5 * 3600, 4 * 3600, 3 * 3600, 2 * 3600, 3600]);
    assert_eq!(h.latest().map(|w| w.start), Some(5 * 3600));
}

#[test]
fn empty_history_has_no_latest() {
    let h = History::new(RETENTION_CAP);
    assert!(h.latest().is_none());
    assert!(h.newest_first().is_empty());
    assert_eq!(h.cap(), 168);
}

#[test]
fn zero_cap_keeps_nothing() {
    let mut h = History::new(0);
    h.append(window_at(0, 1), 5);
    assert_eq!(h.len(), 0);
    assert_eq!(h.last_update(), 5);
}
