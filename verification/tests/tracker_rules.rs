use lau_reputation::dimension::{Dimension, DIMENSION_COUNT};
use lau_reputation::ranking::{indices_above, rank_descending};
use lau_reputation::selection::{strongest_dimension, weakest_dimension};
use lau_reputation::table::PlayerTable;

/// Order key of a float: equal floats share a key, larger floats get larger
/// keys, NaN gets none.
fn key(x: f64) -> Option<i64> {
    if x.is_nan() {
        return None;
    }
    let x = if x == 0.0 { 0.0 } else { x };
    let bits = x.to_bits() as i64;
    Some(if bits < 0 { bits ^ i64::MAX } else { bits })
}

fn keys(values: [f64; DIMENSION_COUNT]) -> Vec<Option<i64>> {
    values.iter().map(|v| key(*v)).collect()
}

/// Weighted overall score of six values in canonical order, with the
/// library's weights.
fn overall(values: [f64; DIMENSION_COUNT]) -> f64 {
    let w = |i: usize| f64::from(Dimension::from_index(i).overall_weight()) / 100.0;
    let mut total = values[0] * w(0);
    for i in 1..DIMENSION_COUNT {
        total += values[i] * w(i);
    }
    total
}

/// A score with only one dimension set.
fn only(d: Dimension, v: f64) -> [f64; DIMENSION_COUNT] {
    let mut values = [0.0; DIMENSION_COUNT];
    values[d.index()] = v;
    values
}

#[test]
fn top_trait() {
    let s = [0.8, 0.3, 0.5, 0.1, 0.2, 0.0];
    assert_eq!(strongest_dimension(&keys(s)).name(), "helpfulness");
}

#[test]
fn needs_work() {
    let s = [0.5, 0.3, -0.2, 0.1, 0.2, 0.0];
    assert_eq!(weakest_dimension(&keys(s)).name(), "reliability");
}

#[test]
fn top_players_ordering() {
    let names = ["alice", "carol", "eve"];
    let scores = [
        only(Dimension::Helpfulness, 0.8),
        only(Dimension::Helpfulness, 0.2),
        only(Dimension::Helpfulness, 0.5),
    ];
    let ks: Vec<i64> = scores.iter().map(|s| key(overall(*s)).unwrap()).collect();
    let top = rank_descending(&ks, 2);
    assert_eq!(top.len(), 2);
    assert_eq!(names[top[0]], "alice");
    assert_eq!(names[top[1]], "eve");
}

#[test]
fn trusted_players() {
    let names = ["alice", "eve"];
    let scores = [only(Dimension::Helpfulness, 0.8), only(Dimension::Reliability, -0.9)];
    let ks: Vec<Option<i64>> = scores.iter().map(|s| key(overall(*s))).collect();
    let trusted: Vec<&str> = indices_above(&ks, key(0.0)).into_iter().map(|i| names[i]).collect();
    assert!(trusted.contains(&"alice"));
    assert!(!trusted.contains(&"eve"));
}

#[test]
fn action_count() {
    let mut events: PlayerTable<Vec<&str>> = PlayerTable::new();
    assert_eq!(events.count_for("alice"), 0);
    events.push_to("alice", "helped bob");
    events.push_to("alice", "gifted sword");
    assert_eq!(events.count_for("alice"), 2);
}

#[test]
fn unknown_player_score() {
    let scores: PlayerTable<[f64; DIMENSION_COUNT]> = PlayerTable::new();
    let s = scores.get("nobody").copied().unwrap_or([0.0; DIMENSION_COUNT]);
    assert_eq!(s, [0.0; DIMENSION_COUNT]);
    assert!(!scores.contains("nobody"));
}
