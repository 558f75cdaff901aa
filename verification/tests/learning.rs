use coregeek::brain::coach::{coach_from_learning_text, learning_text, save_text, Coach, Harass};

#[test]
fn a_learning_file_restores_evidence_and_switches() {
    let text = r#"{"version":1,"halves":3,"policy":{"station_pressure":false,"gap_funding":true,"harass":"Rich"},
        "evidence":{"bleedNights":2,"quietNights":-4,"sterile":1,"fruitful":5,"gapBreach":0,"gapQuiet":7}}"#;
    let c = coach_from_learning_text(text, true);
    assert!(c.persist);
    assert!(c.enabled);
    assert_eq!(c.halves, 3);
    assert_eq!(c.bleed_nights, 2);
    assert_eq!(c.quiet_nights, 0);
    assert_eq!(c.sterile_nights, 1);
    assert_eq!(c.fruitful_nights, 5);
    assert_eq!(c.gap_quiet_nights, 7);
    assert!(!c.policy.station_pressure);
    assert!(c.policy.gap_funding);
    assert_eq!(c.policy.harass, Harass::Rich);
}

#[test]
fn text_that_is_not_json_gives_a_fresh_coach() {
    let c = coach_from_learning_text("not json", true);
    let fresh = Coach::default();
    assert_eq!(c.halves, 0);
    assert_eq!(c.bleed_nights, 0);
    assert_eq!(c.policy, fresh.policy);
    assert!(c.persist);
}

#[test]
fn a_negative_halves_count_is_kept_and_odd_switches_ignored() {
    let c = coach_from_learning_text(r#"{"halves":-2,"policy":{"harass":"Loud","gap_funding":1}}"#, false);
    assert_eq!(c.halves, -2);
    assert_eq!(c.policy.harass, Coach::default().policy.harass);
    assert_eq!(c.policy.gap_funding, Coach::default().policy.gap_funding);
}

#[test]
fn the_learning_text_reads_back_as_the_same_evidence() {
    let mut c = Coach::default();
    c.persist = true;
    c.halves = 4;
    c.bleed_nights = 1;
    c.fruitful_nights = 3;
    c.policy.harass = Harass::Off;
    c.policy.gap_funding = true;
    let text = learning_text(&c);
    let value: serde_json::Value = serde_json::from_str(&text).unwrap();
    assert_eq!(value["version"], 1);
    assert_eq!(value["evidence"]["fruitful"], 3);
    let back = coach_from_learning_text(&text, true);
    assert_eq!(back.halves, 4);
    assert_eq!(back.bleed_nights, 1);
    assert_eq!(back.fruitful_nights, 3);
    assert_eq!(back.policy, c.policy);
    assert_eq!(save_text(&c), Some(text));
    c.persist = false;
    assert_eq!(save_text(&c), None);
}
