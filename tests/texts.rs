use story_pipeline::story::Story;
use story_pipeline::text::{decimal, format_story, format_story_with, record_key, signed_decimal};

fn story() -> Story {
    Story {
        id: 42,
        title: "Hello".to_string(),
        score: Some(-7),
        time: 86400,
        kids: vec![1, 2],
        url: Some("https://www.Example.com/x".to_string()),
        kind: Some("story".to_string()),
        by: Some("pg".to_string()),
        text: None,
        descendants: None,
    }
}

#[test]
fn decimals() {
    assert_eq!(decimal(0), "0");
    assert_eq!(decimal(1203), "1203");
    assert_eq!(decimal(u64::MAX), "18446744073709551615");
    assert_eq!(signed_decimal(-45), "-45");
    assert_eq!(signed_decimal(i64::MIN), "-9223372036854775808");
}

#[test]
fn formats_a_story() {
    let text = format_story(&story());
    assert_eq!(
        text,
        "ID: 42\nTitle: Hello\nBy: pg\nTime: 1970-01-02T00:00:00+00:00\nURL: https://www.Example.com/x\nDomain: example.com\nScore: -7\nComments: 0\n"
    );
}

#[test]
fn formats_missing_fields() {
    let mut s = story();
    s.by = None;
    s.url = None;
    s.score = None;
    s.descendants = Some(3);
    let text = format_story_with(&s, &None);
    assert_eq!(
        text,
        "ID: 42\nTitle: Hello\nBy: anonymous\nTime: Invalid timestamp\nURL: none\nDomain: no domain\nScore: 0\nComments: 3\n"
    );
}

#[test]
fn unrepresentable_time_is_invalid() {
    let mut s = story();
    s.time = i64::MAX;
    assert!(format_story(&s).contains("Time: Invalid timestamp\n"));
}

#[test]
fn key_is_identifier() {
    assert_eq!(record_key(&story()), "42");
}
