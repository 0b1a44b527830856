use cost_report::amount::Amount;
use cost_report::billing::cost_entry;
use cost_report::ranking::{compute_total, rank_top, CostEntry};

fn entry(label: &str, cost: &str) -> CostEntry {
    cost_entry(Some(label.to_string()), Some(cost.to_string()))
}

fn labels(v: &[CostEntry]) -> Vec<String> {
    v.iter().map(|e| e.label.clone().unwrap_or_default()).collect()
}

fn sample() -> Vec<CostEntry> {
    vec![entry("EC2", "10.00"), entry("S3", "25.50"), entry("Lambda", "0.75")]
}

#[test]
fn rank_top_orders_by_cost_descending() {
    let r = rank_top(sample(), 2);
    assert_eq!(labels(&r), vec!["S3", "EC2"]);
}

#[test]
fn rank_top_length_is_min_of_n_and_len() {
    assert_eq!(rank_top(sample(), 0).len(), 0);
    assert_eq!(rank_top(sample(), 3).len(), 3);
    assert_eq!(rank_top(sample(), 10).len(), 3);
    assert_eq!(rank_top(Vec::new(), 5).len(), 0);
}

#[test]
fn rank_top_keeps_input_order_on_ties() {
    let v = vec![entry("a", "1"), entry("b", "2"), entry("c", "1"), entry("d", "2.00")];
    assert_eq!(labels(&rank_top(v, 4)), vec!["b", "d", "a", "c"]);
}

#[test]
fn rank_top_counts_missing_cost_as_zero() {
    let v = vec![
        cost_entry(Some("x".to_string()), Some("oops".to_string())),
        entry("neg", "-1"),
        entry("pos", "0.01"),
    ];
    assert_eq!(labels(&rank_top(v, 3)), vec!["pos", "x", "neg"]);
}

#[test]
fn rank_top_twice_equals_once() {
    let v = vec![entry("a", "3"), entry("b", "9"), entry("c", "3"), entry("d", "1"), entry("e", "7")];
    let once = rank_top(v, 3);
    let first = labels(&once);
    let twice = rank_top(once, 3);
    assert_eq!(labels(&twice), first);
    assert_eq!(first, vec!["b", "e", "a"]);
}

#[test]
fn total_of_empty_is_zero() {
    assert_eq!(compute_total(&Vec::new()), Some(Amount { units: 0 }));
}

#[test]
fn total_ignores_order_and_unreadable_costs() {
    let mut v = sample();
    v.push(cost_entry(Some("bad".to_string()), None));
    let t = compute_total(&v);
    assert_eq!(t, Some(Amount { units: 3_625_000_000 }));
    v.reverse();
    assert_eq!(compute_total(&v), t);
}

#[test]
fn total_out_of_range_is_none() {
    let v = vec![entry("a", "92233720368.54775807"), entry("b", "1")];
    assert_eq!(compute_total(&v), None);
    let w = vec![entry("a", "92233720368.54775807"), entry("b", "1"), entry("c", "-1")];
    assert_eq!(compute_total(&w), Some(Amount { units: i64::MAX }));
}
