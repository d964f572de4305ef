use story_pipeline::cycle::{candidate_ids, step, CycleEvent, CycleState, SkipReason};
use story_pipeline::pipeline::Pipeline;
use story_pipeline::story::Story;

fn story(id: u32, by: &str, url: &str, score: i32, time: i64) -> Story {
    Story {
        id,
        title: "t".to_string(),
        score: Some(score),
        time,
        kids: vec![],
        url: Some(url.to_string()),
        kind: None,
        by: Some(by.to_string()),
        text: None,
        descendants: Some(1),
    }
}

#[test]
fn candidates_are_union_without_repeats() {
    assert_eq!(candidate_ids(&vec![5, 4, 3], &vec![4, 9, 5, 1], 100), vec![5, 4, 3, 9, 1]);
    assert_eq!(candidate_ids(&vec![5, 4, 3], &vec![4, 9], 2), vec![5, 4]);
    assert!(candidate_ids(&vec![], &vec![], 10).is_empty());
}

#[test]
fn cycle_states() {
    let s = step(CycleState::Idle, CycleEvent::Tick);
    assert_eq!(s, CycleState::Fetching);
    assert_eq!(step(s, CycleEvent::Fetched(0)), CycleState::Skipped(SkipReason::NoCandidates));
    assert_eq!(step(s, CycleEvent::FetchFailed), CycleState::Skipped(SkipReason::SourceFailed));
    let s = step(s, CycleEvent::Fetched(3));
    assert_eq!(s, CycleState::Aggregating);
    let s = step(s, CycleEvent::Aggregated);
    assert_eq!(s, CycleState::Publishing);
    assert_eq!(step(s, CycleEvent::PublishFailed), CycleState::Skipped(SkipReason::LogFailed));
    assert_eq!(step(s, CycleEvent::Published), CycleState::Idle);
    assert_eq!(step(CycleState::Skipped(SkipReason::LogFailed), CycleEvent::Tick), CycleState::Fetching);
    assert_eq!(step(CycleState::Idle, CycleEvent::Published), CycleState::Idle);
}

#[test]
fn pipeline_feeds_three_items() {
    let mut p = Pipeline::new(1000, 168, 10);
    let batch = vec![
        story(1, "A", "https://x.com/a", 10, 7200),
        story(2, "A", "https://y.com/b", 20, 7300),
        story(3, "B", "https://x.com/c", 30, 7400),
    ];
    let ws = p.ingest(batch, 99);
    assert_eq!(ws.len(), 1);
    assert_eq!(ws[0].start, 7200);
    assert_eq!(ws[0].average_score(), 20);
    assert_eq!(ws[0].top_authors[0].name, "A");
    assert_eq!(ws[0].top_authors[0].count, 2);
    assert_eq!(p.history().len(), 1);
    assert_eq!(p.history().last_update(), 99);
}

#[test]
fn pipeline_skips_seen_and_splits_hours() {
    let mut p = Pipeline::new(1000, 168, 10);
    p.ingest(vec![story(1, "A", "https://x.com", 10, 100)], 1);
    let ws = p.ingest(
        vec![
            story(1, "A", "https://x.com", 10, 100),
            story(2, "B", "https://y.com", 20, 3700),
            story(3, "C", "https://z.com", 30, 200),
        ],
        2,
    );
    let starts: Vec<i64> = ws.iter().map(|w| w.start).collect();
    assert_eq!(starts, vec![3600, 0]);
    assert_eq!(ws[1].story_count(), 1);
    assert_eq!(ws[1].stories[0].id, 3);
    let h: Vec<i64> = p.history().newest_first().iter().map(|w| w.start).collect();
    assert_eq!(h, vec![3600, 0]);
    assert_eq!(p.history().latest().unwrap().stories[0].id, 2);
}

#[test]
fn pipeline_prunes_seen_set() {
    let mut p = Pipeline::new(2, 168, 10);
    p.ingest(vec![story(1, "A", "https://x.com", 1, 0), story(2, "A", "https://x.com", 1, 0), story(3, "A", "https://x.com", 1, 0)], 1);
    let ws = p.ingest(vec![story(1, "A", "https://x.com", 1, 0)], 2);
    assert_eq!(ws.len(), 0);
    let ws = p.ingest(vec![story(2, "A", "https://x.com", 1, 0)], 3);
    assert_eq!(ws.len(), 1);
}
