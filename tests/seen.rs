use story_pipeline::dedup::{Deduplicator, SEEN_CAP};

#[test]
fn accepts_each_identifier_once() {
    let mut d = Deduplicator::new(SEEN_CAP);
    assert!(d.accept(7));
    assert!(!d.accept(7));
    assert!(d.accept(8));
    assert!(!d.accept(7));
    assert_eq!(d.len(), 2);
}

#[test]
fn accept_all_drops_repeats_in_batch() {
    let mut d = Deduplicator::new(SEEN_CAP);
    d.accept(2);
    assert_eq!(d.accept_all(&vec![1, 2, 3, 1, 4, 3]), vec![1, 3, 4]);
    assert!(d.contains(4));
}

#[test]
fn prune_keeps_only_latest_batch() {
    let mut d = Deduplicator::new(3);
    d.accept_all(&vec![1, 2, 3]);
    assert!(!d.prune(&vec![3, 9]));
    assert_eq!(d.len(), 3);
    d.accept(4);
    assert!(d.prune(&vec![3, 9]));
    assert_eq!(d.len(), 2);
    assert!(d.contains(3) && d.contains(9));
    assert!(!d.contains(1) && !d.contains(4));
    assert!(d.accept(1));
    assert!(!d.accept(9));
}
