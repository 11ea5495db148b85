use plato_state::{StateLabel, Trend};

#[test]
fn test_state_label_all_count() {
    assert_eq!(StateLabel::ALL.len(), 16);
}

#[test]
fn test_state_label_names() {
    assert_eq!(StateLabel::Health.name(), "health");
    assert_eq!(StateLabel::AnomalyScore.name(), "anomaly_score");
    assert_eq!(StateLabel::Occupancy.name(), "occupancy");
}

#[test]
fn all_labels_stand_at_their_index() {
    for (i, &label) in StateLabel::ALL.iter().enumerate() {
        assert_eq!(label.index(), i);
    }
    assert_eq!(StateLabel::Health.index(), 0);
    assert_eq!(StateLabel::Pressure.index(), 7);
    assert_eq!(StateLabel::Occupancy.index(), 15);
}

#[test]
fn every_label_has_its_name() {
    let names = [
        "health",
        "thermal",
        "stress",
        "drift",
        "vibration",
        "acoustic",
        "visual",
        "pressure",
        "humidity",
        "load",
        "latency",
        "confidence",
        "anomaly_score",
        "stability",
        "energy",
        "occupancy",
    ];
    for (i, &label) in StateLabel::ALL.iter().enumerate() {
        assert_eq!(label.name(), names[i]);
    }
}

#[test]
fn select_keeps_flagged_labels_in_order() {
    let mut flags = [false; 16];
    flags[StateLabel::Stability.index()] = true;
    flags[StateLabel::Health.index()] = true;
    flags[StateLabel::Load.index()] = true;
    let selected = StateLabel::select(&flags);
    assert_eq!(
        selected,
        vec![StateLabel::Health, StateLabel::Load, StateLabel::Stability]
    );
}

#[test]
fn select_with_no_flags_is_empty() {
    assert!(StateLabel::select(&[false; 16]).is_empty());
}

#[test]
fn select_with_all_flags_is_all() {
    assert_eq!(StateLabel::select(&[true; 16]), StateLabel::ALL.to_vec());
}

#[test]
fn trend_variants_compare() {
    assert_eq!(Trend::Stable, Trend::Stable);
    assert_ne!(Trend::Improving, Trend::Declining);
}
