use vstd::prelude::*;

verus! {

/// Labels for each of the 16 state dimensions.
#[derive(Debug, Clone, Copy, PartialEq, Eq, Hash, Structural)]
pub enum StateLabel {
    Health,
    Thermal,
    Stress,
    Drift,
    Vibration,
    Acoustic,
    Visual,
    Pressure,
    Humidity,
    Load,
    Latency,
    Confidence,
    AnomalyScore,
    Stability,
    Energy,
    Occupancy,
}

/// The position of a label among the sixteen dimensions.
pub open spec fn label_index(label: StateLabel) -> nat {
    match label {
        StateLabel::Health => 0,
        StateLabel::Thermal => 1,
        StateLabel::Stress => 2,
        StateLabel::Drift => 3,
        StateLabel::Vibration => 4,
        StateLabel::Acoustic => 5,
        StateLabel::Visual => 6,
        StateLabel::Pressure => 7,
        StateLabel::Humidity => 8,
        StateLabel::Load => 9,
        StateLabel::Latency => 10,
        StateLabel::Confidence => 11,
        StateLabel::AnomalyScore => 12,
        StateLabel::Stability => 13,
        StateLabel::Energy => 14,
        StateLabel::Occupancy => 15,
    }
}

/// The human-readable name of a label.
pub open spec fn label_name(label: StateLabel) -> Seq<char> {
    match label {
        StateLabel::Health => "health"@,
        StateLabel::Thermal => "thermal"@,
        StateLabel::Stress => "stress"@,
        StateLabel::Drift => "drift"@,
        StateLabel::Vibration => "vibration"@,
        StateLabel::Acoustic => "acoustic"@,
        StateLabel::Visual => "visual"@,
        StateLabel::Pressure => "pressure"@,
        StateLabel::Humidity => "humidity"@,
        StateLabel::Load => "load"@,
        StateLabel::Latency => "latency"@,
        StateLabel::Confidence => "confidence"@,
        StateLabel::AnomalyScore => "anomaly_score"@,
        StateLabel::Stability => "stability"@,
        StateLabel::Energy => "energy"@,
        StateLabel::Occupancy => "occupancy"@,
    }
}

/// All sixteen labels, in the order of their indices.
pub open spec fn all_labels() -> Seq<StateLabel> {
    seq![
        StateLabel::Health,
        StateLabel::Thermal,
        StateLabel::Stress,
        StateLabel::Drift,
        StateLabel::Vibration,
        StateLabel::Acoustic,
        StateLabel::Visual,
        StateLabel::Pressure,
        StateLabel::Humidity,
        StateLabel::Load,
        StateLabel::Latency,
        StateLabel::Confidence,
        StateLabel::AnomalyScore,
        StateLabel::Stability,
        StateLabel::Energy,
        StateLabel::Occupancy,
    ]
}

impl StateLabel {
    /// All label variants in order.
    pub const ALL: [StateLabel; 16] = [
        StateLabel::Health,
        StateLabel::Thermal,
        StateLabel::Stress,
        StateLabel::Drift,
        StateLabel::Vibration,
        StateLabel::Acoustic,
        StateLabel::Visual,
        StateLabel::Pressure,
        StateLabel::Humidity,
        StateLabel::Load,
        StateLabel::Latency,
        StateLabel::Confidence,
        StateLabel::AnomalyScore,
        StateLabel::Stability,
        StateLabel::Energy,
        StateLabel::Occupancy,
    ];

    /// Index into the 16-element array.
    pub fn index(self) -> (i: usize)
        ensures
            i == label_index(self),
            i < 16,
    {
        match self {
            StateLabel::Health => 0,
            StateLabel::Thermal => 1,
            StateLabel::Stress => 2,
            StateLabel::Drift => 3,
            StateLabel::Vibration => 4,
            StateLabel::Acoustic => 5,
            StateLabel::Visual => 6,
            StateLabel::Pressure => 7,
            StateLabel::Humidity => 8,
            StateLabel::Load => 9,
            StateLabel::Latency => 10,
            StateLabel::Confidence => 11,
            StateLabel::AnomalyScore => 12,
            StateLabel::Stability => 13,
            StateLabel::Energy => 14,
            StateLabel::Occupancy => 15,
        }
    }

    /// Human-readable name.
    pub fn name(self) -> (s: &'static str)
        ensures
            s@ == label_name(self),
    {
        match self {
            StateLabel::Health => "health",
            StateLabel::Thermal => "thermal",
            StateLabel::Stress => "stress",
            StateLabel::Drift => "drift",
            StateLabel::Vibration => "vibration",
            StateLabel::Acoustic => "acoustic",
            StateLabel::Visual => "visual",
            StateLabel::Pressure => "pressure",
            StateLabel::Humidity => "humidity",
            StateLabel::Load => "load",
            StateLabel::Latency => "latency",
            StateLabel::Confidence => "confidence",
            StateLabel::AnomalyScore => "anomaly_score",
            StateLabel::Stability => "stability",
            StateLabel::Energy => "energy",
            StateLabel::Occupancy => "occupancy",
        }
    }
}

/// The labels whose flag is set, in the order of `all_labels()`; the flag
/// of a label is the entry at its index.
pub open spec fn flagged_labels(flags: Seq<bool>) -> Seq<StateLabel> {
    all_labels().filter(|l: StateLabel| flags[label_index(l) as int])
}

/// The flagged labels among the first `k`, in the order of `all_labels()`.
spec fn flagged_prefix(flags: Seq<bool>, k: int) -> Seq<StateLabel> {
    all_labels().take(k).filter(|l: StateLabel| flags[label_index(l) as int])
}

/// Filtering the first `k` labels keeps exactly the flagged ones among them,
/// in increasing order of index.
proof fn lemma_flagged_prefix(flags: Seq<bool>, k: int)
    requires
        0 <= k <= 16,
    ensures
        forall|l: StateLabel|
            #[trigger] flagged_prefix(flags, k).contains(l) <==> (label_index(l) < k
                && flags[label_index(l) as int]),
        forall|i: int|
            0 <= i < flagged_prefix(flags, k).len() ==> label_index(
                #[trigger] flagged_prefix(flags, k)[i],
            ) < k,
        forall|i: int, j: int|
            0 <= i < j < flagged_prefix(flags, k).len() ==> label_index(
                #[trigger] flagged_prefix(flags, k)[i],
            ) < label_index(#[trigger] flagged_prefix(flags, k)[j]),
    decreases k,
{
    let pred = |l: StateLabel| flags[label_index(l) as int];
    let s = flagged_prefix(flags, k);
    if k == 0 {
        assert(s =~= Seq::<StateLabel>::empty());
    } else {
        lemma_flagged_prefix(flags, k - 1);
        let t = flagged_prefix(flags, k - 1);
        assert(all_labels().take(k).drop_last() =~= all_labels().take(k - 1));
        assert(all_labels().take(k).last() == all_labels()[k - 1]);
        let last = all_labels()[k - 1];
        assert(label_index(last) == k - 1);
        reveal_with_fuel(Seq::<_>::filter, 1);
        if pred(last) {
            assert(s == t.push(last));
            assert forall|l: StateLabel| #[trigger] s.contains(l) <==> (label_index(l) < k
                && flags[label_index(l) as int]) by {
                if s.contains(l) {
                    let i = choose|i: int| 0 <= i < s.len() && s[i] == l;
                    if i < t.len() {
                        assert(t[i] == l);
                        assert(t.contains(l));
                    }
                }
                if label_index(l) < k && flags[label_index(l) as int] {
                    if label_index(l) == k - 1 {
                        law_index_locates_label(l, 0);
                        assert(s[s.len() - 1] == l);
                    } else {
                        assert(t.contains(l));
                        let i = choose|i: int| 0 <= i < t.len() && t[i] == l;
                        assert(s[i] == l);
                    }
                }
            }
            assert forall|i: int| 0 <= i < s.len() implies label_index(#[trigger] s[i]) < k by {
                if i < t.len() {
                    assert(s[i] == t[i]);
                }
            }
            assert forall|i: int, j: int| 0 <= i < j < s.len() implies label_index(
                #[trigger] s[i],
            ) < label_index(#[trigger] s[j]) by {
                assert(s[i] == t[i]);
                if j < t.len() {
                    assert(s[j] == t[j]);
                }
            }
        } else {
            assert(s == t);
            assert forall|l: StateLabel| #[trigger] s.contains(l) <==> (label_index(l) < k
                && flags[label_index(l) as int]) by {
                if label_index(l) == k - 1 {
                    law_index_locates_label(l, 0);
                }
            }
        }
    }
}

/// `select` keeps exactly the labels whose flag is set: a label is in the
/// result when, and only when, the flag at its index is set, and the result
/// runs in strictly increasing order of index.
pub proof fn law_select_keeps_exactly_flagged(flags: Seq<bool>)
    ensures
        forall|l: StateLabel|
            #[trigger] flagged_labels(flags).contains(l) <==> flags[label_index(l) as int],
        forall|i: int, j: int|
            0 <= i < j < flagged_labels(flags).len() ==> label_index(
                #[trigger] flagged_labels(flags)[i],
            ) < label_index(#[trigger] flagged_labels(flags)[j]),
{
    lemma_flagged_prefix(flags, 16);
    assert(all_labels().take(16) =~= all_labels());
    assert(flagged_prefix(flags, 16) == flagged_labels(flags));
}

impl StateLabel {
    /// The labels whose entry in `flags` is set, in the order of `ALL`.
    pub fn select(flags: &[bool; 16]) -> (r: Vec<StateLabel>)
        ensures
            r@ == flagged_labels(flags@),
            forall|l: StateLabel| #[trigger] r@.contains(l) <==> flags@[label_index(l) as int],
            forall|i: int, j: int|
                0 <= i < j < r@.len() ==> label_index(#[trigger] r@[i]) < label_index(
                    #[trigger] r@[j],
                ),
    {
        let all = StateLabel::ALL;
        let mut r: Vec<StateLabel> = Vec::new();
        let mut i: usize = 0;
        assert(all@ == all_labels());
        while i < 16
            invariant
                0 <= i <= 16,
                all@ == all_labels(),
                r@ == all_labels().take(i as int).filter(
                    |l: StateLabel| flags@[label_index(l) as int],
                ),
            decreases 16 - i,
        {
            let label = all[i];
            proof {
                reveal_with_fuel(Seq::<_>::filter, 1);
                assert(all_labels().take(i + 1).drop_last() =~= all_labels().take(i as int));
            }
            if flags[label.index()] {
                r.push(label);
            }
            i = i + 1;
        }
        assert(all_labels().take(16) =~= all_labels());
        proof {
            law_select_keeps_exactly_flagged(flags@);
        }
        r
    }
}

/// `ALL` lists the sixteen labels in the order of their indices.
pub proof fn law_all_in_index_order()
    ensures
        StateLabel::ALL@ == all_labels(),
        all_labels().len() == 16,
{
}

/// Each label has an index below 16, and it stands at that index in `ALL`;
/// each position of `ALL` holds the label with that index.
pub proof fn law_index_locates_label(label: StateLabel, i: int)
    ensures
        label_index(label) < 16,
        all_labels()[label_index(label) as int] == label,
        0 <= i < 16 ==> label_index(all_labels()[i]) == i,
{
}

/// Trend direction for a dimension over time.
#[derive(Debug, Clone, Copy, PartialEq, Eq, Structural)]
pub enum Trend {
    Improving,
    Declining,
    Stable,
}

/// State fusion operators.
pub struct StateFusion;

} // verus!
