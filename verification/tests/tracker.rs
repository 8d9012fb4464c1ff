use zj_status_bar::alerts::AlertTracker;
use zj_status_bar::alerts::TabAlert;
use zj_status_bar::codec::decode_alerts;
use zj_status_bar::codec::encode_alerts;

#[test]
fn tracker_insert_get_remove() {
    let mut t = AlertTracker::new();
    assert!(t.is_empty());
    t.insert(3, TabAlert { success: true, alternate_color: true });
    t.insert(1, TabAlert { success: false, alternate_color: false });
    assert!(!t.is_empty());
    assert_eq!(t.len(), 2);
    assert_eq!(t.get(3), Some(TabAlert { success: true, alternate_color: true }));
    assert_eq!(t.get(1), Some(TabAlert { success: false, alternate_color: false }));
    assert_eq!(t.get(2), None);
    // The latest completion wins.
    t.insert(3, TabAlert { success: false, alternate_color: true });
    assert_eq!(t.len(), 2);
    assert_eq!(t.get(3), Some(TabAlert { success: false, alternate_color: true }));
    t.remove(3);
    assert_eq!(t.get(3), None);
    t.remove(1);
    assert!(t.is_empty());
}

#[test]
fn tick_phases_toggle_and_restore() {
    let mut t = AlertTracker::new();
    t.insert(0, TabAlert { success: true, alternate_color: true });
    t.insert(5, TabAlert { success: false, alternate_color: false });
    t.tick_phases();
    assert_eq!(t.get(0), Some(TabAlert { success: true, alternate_color: false }));
    assert_eq!(t.get(5), Some(TabAlert { success: false, alternate_color: true }));
    // An even number of ticks restores the original phases.
    t.tick_phases();
    assert_eq!(t.get(0), Some(TabAlert { success: true, alternate_color: true }));
    assert_eq!(t.get(5), Some(TabAlert { success: false, alternate_color: false }));
}

#[test]
fn encode_has_exact_format() {
    let mut t = AlertTracker::new();
    t.insert(2, TabAlert { success: true, alternate_color: false });
    assert_eq!(encode_alerts(&t).as_str(), "2:1:0;");
    t.insert(10, TabAlert { success: false, alternate_color: true });
    assert_eq!(encode_alerts(&t).as_str(), "2:1:0;10:0:1;");
    let empty = AlertTracker::new();
    assert_eq!(encode_alerts(&empty).as_str(), "");
}

#[test]
fn decode_round_trips_encode() {
    let mut t = AlertTracker::new();
    t.insert(1, TabAlert { success: false, alternate_color: true });
    t.insert(4, TabAlert { success: true, alternate_color: false });
    t.insert(0, TabAlert { success: true, alternate_color: true });
    let payload = encode_alerts(&t);
    let back = decode_alerts(payload.as_str()).expect("a broadcast payload decodes");
    assert_eq!(back.len(), 3);
    assert_eq!(back.get(1), Some(TabAlert { success: false, alternate_color: true }));
    assert_eq!(back.get(4), Some(TabAlert { success: true, alternate_color: false }));
    assert_eq!(back.get(0), Some(TabAlert { success: true, alternate_color: true }));
}

#[test]
fn decode_rejects_malformed_payloads() {
    assert!(decode_alerts("xx").is_none());
    assert!(decode_alerts("1:1:0").is_none());
    assert!(decode_alerts("1:1:0;garbage").is_none());
    assert!(decode_alerts(":1:0;").is_none());
    assert!(decode_alerts("1:2:0;").is_none());
    assert!(decode_alerts("1:1:0;1:0:0;").is_none());
    assert!(decode_alerts("99999999999999999999:1:0;").is_none());
    assert!(decode_alerts("caf\u{e9}").is_none());
    let empty = decode_alerts("").expect("an empty payload is an empty tracker");
    assert!(empty.is_empty());
}
