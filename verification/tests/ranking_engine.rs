use wca_rankings::ranking::{default_marked, rank, RankRow};
use wca_rankings::result_value::ResultValue;

fn rows_of(scores: &[usize]) -> Vec<RankRow<usize>> {
    scores
        .iter()
        .enumerate()
        .map(|(k, s)| RankRow { rank: 0, score: *s, person: k })
        .collect()
}

#[test]
fn tie_rule_no_retroactive_gap() {
    let mut rows = rows_of(&[600, 600, 700]);
    rank(&mut rows);
    let ranks: Vec<usize> = rows.iter().map(|r| r.rank).collect();
    assert_eq!(ranks, vec![1, 1, 3]);
}

#[test]
fn tie_rule_longer_run() {
    let mut rows = rows_of(&[5, 5, 5, 7, 7, 9]);
    rank(&mut rows);
    let ranks: Vec<usize> = rows.iter().map(|r| r.rank).collect();
    assert_eq!(ranks, vec![1, 1, 1, 4, 4, 6]);
}

#[test]
fn sorts_ascending_and_keeps_owners() {
    let mut rows = rows_of(&[30, 10, 20]);
    rank(&mut rows);
    let scores: Vec<usize> = rows.iter().map(|r| r.score).collect();
    let persons: Vec<usize> = rows.iter().map(|r| r.person).collect();
    let ranks: Vec<usize> = rows.iter().map(|r| r.rank).collect();
    assert_eq!(scores, vec![10, 20, 30]);
    assert_eq!(persons, vec![1, 2, 0]);
    assert_eq!(ranks, vec![1, 2, 3]);
}

#[test]
fn sort_is_stable_on_ties() {
    let mut rows = rows_of(&[4, 2, 4, 2]);
    rank(&mut rows);
    let persons: Vec<usize> = rows.iter().map(|r| r.person).collect();
    // tied rows keep their input order
    assert_eq!(persons, vec![1, 3, 0, 2]);
}

#[test]
fn ranking_twice_changes_nothing() {
    let mut once = rows_of(&[8, 3, 3, 5]);
    rank(&mut once);
    let mut twice = once.clone();
    rank(&mut twice);
    for (a, b) in once.iter().zip(twice.iter()) {
        assert_eq!(a.rank, b.rank);
        assert_eq!(a.score, b.score);
        assert_eq!(a.person, b.person);
    }
}

#[test]
fn ranking_same_input_is_deterministic() {
    let mut a = rows_of(&[9, 1, 4, 4, 2]);
    let mut b = rows_of(&[9, 1, 4, 4, 2]);
    rank(&mut a);
    rank(&mut b);
    for (x, y) in a.iter().zip(b.iter()) {
        assert_eq!(x.rank, y.rank);
        assert_eq!(x.score, y.score);
        assert_eq!(x.person, y.person);
    }
}

#[test]
fn ranks_are_monotonic() {
    let mut rows = rows_of(&[7, 3, 3, 9, 1, 7, 3]);
    rank(&mut rows);
    for w in rows.windows(2) {
        assert!(w[0].rank <= w[1].rank);
    }
}

#[test]
fn empty_input_ranks_to_empty() {
    let mut rows: Vec<RankRow<usize>> = Vec::new();
    rank(&mut rows);
    assert!(rows.is_empty());
}

#[test]
fn default_marking_for_shared_last_without_result() {
    let scores = [ResultValue::Time(500), ResultValue::DNF, ResultValue::DNF];
    let mut rows: Vec<RankRow<ResultValue>> = scores
        .iter()
        .enumerate()
        .map(|(k, s)| RankRow { rank: 0, score: *s, person: k })
        .collect();
    rank(&mut rows);
    let ranks: Vec<usize> = rows.iter().map(|r| r.rank).collect();
    assert_eq!(ranks, vec![1, 2, 2]);
    assert!(!default_marked(&rows, 0));
    assert!(default_marked(&rows, 1));
    assert!(default_marked(&rows, 2));
}

#[test]
fn valid_tie_for_last_is_not_default_marked() {
    let scores = [ResultValue::Time(500), ResultValue::Time(700), ResultValue::Time(700)];
    let mut rows: Vec<RankRow<ResultValue>> = scores
        .iter()
        .enumerate()
        .map(|(k, s)| RankRow { rank: 0, score: *s, person: k })
        .collect();
    rank(&mut rows);
    assert!(!default_marked(&rows, 0));
    assert!(!default_marked(&rows, 1));
    assert!(!default_marked(&rows, 2));
}
