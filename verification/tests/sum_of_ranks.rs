use wca_rankings::aggregate::{event_cells, event_ranking, sum_of_ranks, SORRank};
use wca_rankings::event::{Event, EVENT_COUNT};
use wca_rankings::profile::{Cuber, WCAResult};

fn record(person: &str, event_id: &str, best: &str, average: &str) -> WCAResult {
    WCAResult {
        competition_id: String::from("Comp2023"),
        event_id: String::from(event_id),
        best: String::from(best),
        average: String::from(average),
        person_name: String::from(person),
        person_id: String::from(person),
    }
}

fn population() -> Vec<Cuber> {
    vec![
        Cuber::new(vec![record("fast", "333", "500", "-1")]),
        Cuber::new(vec![record("slow", "333", "600", "-1")]),
        Cuber::new(vec![record("dnf", "333", "-1", "-1")]),
    ]
}

#[test]
fn cell_values() {
    assert_eq!(SORRank::Blank.get_value(), 0);
    assert_eq!(SORRank::Normal(7), SORRank::Normal(7));
    assert_eq!(SORRank::Normal(7).get_value(), 7);
    assert_eq!(SORRank::Default(9).get_value(), 9);
}

#[test]
fn event_ranking_orders_by_score() {
    let cubers = population();
    let rows = event_ranking(&cubers, Event::_3, false);
    let persons: Vec<usize> = rows.iter().map(|r| r.person).collect();
    let ranks: Vec<usize> = rows.iter().map(|r| r.rank).collect();
    assert_eq!(persons, vec![0, 1, 2]);
    assert_eq!(ranks, vec![1, 2, 3]);
}

#[test]
fn event_cells_mark_shared_last_defaults() {
    let cubers = population();
    let cells = event_cells(&cubers, Event::_3, false);
    assert_eq!(cells, vec![SORRank::Normal(1), SORRank::Normal(2), SORRank::Default(3)]);
    // an event nobody entered: everyone shares last place with no result
    let cells = event_cells(&cubers, Event::_clock, false);
    assert_eq!(cells, vec![SORRank::Default(1), SORRank::Default(1), SORRank::Default(1)]);
}

#[test]
fn average_multi_attempt_column_is_blank() {
    let cubers = vec![
        Cuber::new(vec![record("multi", "333mbo", "X960400345", "X960400345")]),
        Cuber::new(vec![record("other", "333", "500", "550")]),
    ];
    let cells = event_cells(&cubers, Event::_3mbld, true);
    assert_eq!(cells, vec![SORRank::Blank, SORRank::Blank]);
    // the single metric of the same event is ranked normally
    let cells = event_cells(&cubers, Event::_3mbld, false);
    assert_eq!(cells[0], SORRank::Normal(1));
}

#[test]
fn single_sum_of_ranks_totals_and_order() {
    let cubers = population();
    let board = sum_of_ranks(&cubers, false);
    assert_eq!(board.len(), 3);
    // event slot 2 contributes 1, 2 and 3; the 17 unentered events each
    // contribute a shared default rank of 1
    assert_eq!(board[0].person, 0);
    assert_eq!(board[0].total, 1 + 17);
    assert_eq!(board[0].rank, 1);
    assert_eq!(board[1].person, 1);
    assert_eq!(board[1].total, 2 + 17);
    assert_eq!(board[1].rank, 2);
    assert_eq!(board[2].person, 2);
    assert_eq!(board[2].total, 3 + 17);
    assert_eq!(board[2].rank, 3);
    for row in board.iter() {
        assert_eq!(row.cells.len(), EVENT_COUNT);
    }
    assert_eq!(board[0].cells[2], SORRank::Normal(1));
    assert_eq!(board[2].cells[2], SORRank::Default(3));
}

#[test]
fn average_sum_of_ranks_blanks_the_multi_column() {
    let cubers = population();
    let board = sum_of_ranks(&cubers, true);
    // every average here is DNF or absent, so all 17 rankable events are a
    // shared default rank of 1, and the multi-attempt column is blank
    for row in board.iter() {
        assert_eq!(row.rank, 1);
        assert_eq!(row.total, 17);
        assert_eq!(row.cells[5], SORRank::Blank);
    }
}

#[test]
fn sum_of_ranks_ties_keep_input_order() {
    let cubers = vec![
        Cuber::new(vec![record("a", "333", "500", "0")]),
        Cuber::new(vec![record("b", "333", "500", "0")]),
    ];
    let board = sum_of_ranks(&cubers, false);
    assert_eq!(board[0].person, 0);
    assert_eq!(board[1].person, 1);
    assert_eq!(board[0].rank, 1);
    assert_eq!(board[1].rank, 1);
}
