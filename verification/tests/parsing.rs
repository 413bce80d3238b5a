use wca_rankings::result_value::ResultValue;

#[test]
fn parses_time() {
    let v = ResultValue::from_str("333", "661");
    assert!(matches!(v, ResultValue::Time(661)));
}

#[test]
fn parses_dnf_sentinel() {
    let v = ResultValue::from_str("333", "-1");
    assert!(matches!(v, ResultValue::DNF));
}

#[test]
fn parses_dns_sentinel() {
    let v = ResultValue::from_str("333", "-2");
    assert!(matches!(v, ResultValue::DNS));
}

#[test]
fn parses_zero_as_no_result() {
    let v = ResultValue::from_str("333", "0");
    assert!(matches!(v, ResultValue::NoResult));
}

#[test]
fn parses_move_count() {
    let v = ResultValue::from_str("333fm", "43");
    assert!(matches!(v, ResultValue::MoveCount(43)));
}

#[test]
fn parses_multi_old_format() {
    let v = ResultValue::from_str("333mbo", "X960400345");
    assert!(matches!(
        v,
        ResultValue::MultiAttempt { time: 345, solved: 3, attempted: 4 }
    ));
    assert!(v.valid());
}

#[test]
fn parses_multi_old_zero_solved() {
    let v = ResultValue::from_str("333mbo", "X990000001");
    assert!(matches!(
        v,
        ResultValue::MultiAttempt { time: 1, solved: 0, attempted: 0 }
    ));
    assert!(v.valid());
}

#[test]
fn parses_multi_new_format() {
    // unused char, difference 96 (99 - 96 = 3), time 345, missed 1:
    // solved = 3 + 1 = 4, attempted = 4 + 1 = 5
    let v = ResultValue::from_str("333mbf", "X960034501");
    assert!(matches!(
        v,
        ResultValue::MultiAttempt { time: 345, solved: 4, attempted: 5 }
    ));
    assert!(v.valid());
}

#[test]
fn garbage_degrades_to_no_result() {
    assert!(matches!(ResultValue::from_str("333", "abc"), ResultValue::NoResult));
    assert!(matches!(ResultValue::from_str("333", ""), ResultValue::NoResult));
    assert!(matches!(ResultValue::from_str("333", "12x"), ResultValue::NoResult));
    assert!(matches!(ResultValue::from_str("333mbo", "XYZ"), ResultValue::NoResult));
    assert!(matches!(ResultValue::from_str("333mbf", ""), ResultValue::NoResult));
}

#[test]
fn plus_sign_accepted() {
    let v = ResultValue::from_str("333", "+5");
    assert!(matches!(v, ResultValue::Time(5)));
}

#[test]
fn sign_alone_degrades() {
    assert!(matches!(ResultValue::from_str("333", "-"), ResultValue::NoResult));
    assert!(matches!(ResultValue::from_str("333", "+"), ResultValue::NoResult));
}

#[test]
fn overflow_degrades_to_no_result() {
    let v = ResultValue::from_str("333", "999999999999999999999999");
    assert!(matches!(v, ResultValue::NoResult));
    let v = ResultValue::from_str("333", "9223372036854775808");
    assert!(matches!(v, ResultValue::NoResult));
    let v = ResultValue::from_str("333", "9223372036854775807");
    assert!(matches!(v, ResultValue::Time(9223372036854775807)));
    let v = ResultValue::from_str("333", "-9223372036854775808");
    assert!(matches!(v, ResultValue::Time(-9223372036854775808)));
    let v = ResultValue::from_str("333", "-9223372036854775809");
    assert!(matches!(v, ResultValue::NoResult));
}

#[test]
fn parse_is_total_on_arbitrary_input() {
    let events = ["333", "333fm", "333mbo", "333mbf", "weird", ""];
    let raws = ["", "-", "+", "0", "-1", "-2", "661", "abc", "X9", "X960400345",
        "\u{1F600}", "   7", "07", "999999999999999999999999"];
    for e in events.iter() {
        for r in raws.iter() {
            // must return some value, never panic
            let _ = ResultValue::from_str(e, r);
        }
    }
}

#[test]
fn absence_states_compare_equal() {
    assert_eq!(ResultValue::DNF, ResultValue::DNS);
    assert_eq!(ResultValue::DNF, ResultValue::NoResult);
    assert!(ResultValue::Time(1) != ResultValue::Time(2));
    assert_eq!(ResultValue::Time(5), ResultValue::Time(5));
}

#[test]
fn validity_rules() {
    assert!(!ResultValue::DNF.valid());
    assert!(!ResultValue::DNS.valid());
    assert!(!ResultValue::NoResult.valid());
    assert!(!ResultValue::MultiAttempt { time: 10, solved: 5, attempted: 4 }.valid());
    assert!(ResultValue::MultiAttempt { time: 10, solved: 4, attempted: 4 }.valid());
    assert!(ResultValue::MultiAttempt { time: 10, solved: 4, attempted: 5 }.valid());
    assert!(ResultValue::Time(100).valid());
    assert!(ResultValue::MoveCount(30).valid());
}

#[test]
fn tupleify_projects_points() {
    let m = ResultValue::MultiAttempt { time: 345, solved: 3, attempted: 4 };
    // (category, moves, attempted - 2 * solved, time)
    assert_eq!(m.tupleify(), (2, 0, -2, 345));
    assert_eq!(ResultValue::Time(661).tupleify(), (1, 0, 0, 661));
    assert_eq!(ResultValue::MoveCount(43).tupleify(), (3, 43, 0, 0));
    assert_eq!(ResultValue::DNF.tupleify(), (4, 0, 0, 0));
}

#[test]
fn absence_sorts_worst() {
    let concrete = [
        ResultValue::Time(999999),
        ResultValue::MoveCount(99),
        ResultValue::MultiAttempt { time: 1, solved: 0, attempted: 99 },
        // even a self-contradictory multi-attempt result beats absence
        ResultValue::MultiAttempt { time: 1, solved: 9, attempted: 0 },
    ];
    let absent = [ResultValue::DNF, ResultValue::DNS, ResultValue::NoResult];
    for c in concrete.iter() {
        for a in absent.iter() {
            assert!(c.lt(a));
            assert!(!a.le(c));
        }
    }
}

#[test]
fn ordering_within_categories() {
    // smaller time is better
    assert!(ResultValue::Time(600).lt(&ResultValue::Time(700)));
    // fewer moves is better
    assert!(ResultValue::MoveCount(20).lt(&ResultValue::MoveCount(21)));
    // more solved at equal attempts is better: points 4-2*4=-4 vs 4-2*3=-2
    let a = ResultValue::MultiAttempt { time: 100, solved: 4, attempted: 4 };
    let b = ResultValue::MultiAttempt { time: 50, solved: 3, attempted: 4 };
    assert!(a.lt(&b));
    // equal points: faster time is better
    let c = ResultValue::MultiAttempt { time: 50, solved: 4, attempted: 4 };
    assert!(c.lt(&a));
    // a time always beats a multi-attempt value, the order being total
    assert!(ResultValue::Time(1).lt(&c));
}

#[test]
fn default_is_no_result() {
    let v: ResultValue = Default::default();
    assert!(matches!(v, ResultValue::NoResult));
}
