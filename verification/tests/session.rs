use openlink::session::{hoppie_message_hash, SessionKey, SessionTracker};

#[test]
fn min_cycles_1_to_63() {
    let mut tracker = SessionTracker::new();
    let key = SessionKey::new("AFR123", "LFPG");

    for expected in 1..=63 {
        assert_eq!(tracker.next_min(&key), expected);
    }
    // Should wrap back to 1
    assert_eq!(tracker.next_min(&key), 1);
}

#[test]
fn min_mapping_roundtrip() {
    let mut tracker = SessionTracker::new();
    let key = SessionKey::new("AFR123", "LFPG");

    tracker.record_hoppie_min(&key, 5, 10);
    assert_eq!(tracker.translate_hoppie_mrn(&key, 5), Some(10));
    assert_eq!(tracker.translate_hoppie_mrn(&key, 3), None);
}

#[test]
fn dedup_openlink() {
    let mut tracker = SessionTracker::new();
    assert!(!tracker.is_openlink_seen("msg-1"));
    tracker.mark_openlink_seen("msg-1");
    assert!(tracker.is_openlink_seen("msg-1"));
}

#[test]
fn dedup_hoppie() {
    let mut tracker = SessionTracker::new();
    let hash = hoppie_message_hash("AFR123", "/data2/LFPG/WU/20//CLIMB");
    assert!(!tracker.is_hoppie_seen(hash));
    tracker.mark_hoppie_seen(hash);
    assert!(tracker.is_hoppie_seen(hash));
}

#[test]
fn reset_clears_session() {
    let mut tracker = SessionTracker::new();
    let key = SessionKey::new("AFR123", "LFPG");
    tracker.next_min(&key);
    tracker.record_hoppie_min(&key, 1, 1);
    tracker.reset_session(&key);
    assert_eq!(tracker.next_min(&key), 1); // counter reset
    assert_eq!(tracker.translate_hoppie_mrn(&key, 1), None); // mapping gone
}
