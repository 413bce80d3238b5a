use wca_rankings::event::Event;
use wca_rankings::profile::{Cuber, WCAResult};
use wca_rankings::result_value::ResultValue;

fn record(event_id: &str, best: &str, average: &str) -> WCAResult {
    WCAResult {
        competition_id: String::from("Comp2023"),
        event_id: String::from(event_id),
        best: String::from(best),
        average: String::from(average),
        person_name: String::from("Ada"),
        person_id: String::from("2010ADAX01"),
    }
}

#[test]
fn record_metrics_decode() {
    let r = record("333", "661", "700");
    assert!(matches!(r.get_single(), ResultValue::Time(661)));
    assert!(matches!(r.get_average(), ResultValue::Time(700)));
}

#[test]
fn multi_attempt_average_is_suppressed() {
    let r = record("333mbo", "X960400345", "X960400345");
    assert!(matches!(
        r.get_single(),
        ResultValue::MultiAttempt { time: 345, solved: 3, attempted: 4 }
    ));
    assert!(matches!(r.get_average(), ResultValue::NoResult));
    let r = record("333mbf", "X960034501", "123");
    assert!(matches!(r.get_average(), ResultValue::NoResult));
}

#[test]
fn profile_takes_identity_from_first_record() {
    let c = Cuber::new(vec![record("333", "700", "0")]);
    assert_eq!(c.name, "Ada");
    assert_eq!(c.id, "2010ADAX01");
}

#[test]
fn profile_keeps_best_per_event() {
    let c = Cuber::new(vec![
        record("333", "700", "800"),
        record("333", "650", "900"),
        record("333", "680", "-1"),
    ]);
    assert!(matches!(c.get_single(Event::_3), ResultValue::Time(650)));
    assert!(matches!(c.get_average(Event::_3), ResultValue::Time(800)));
}

#[test]
fn profile_ignores_unknown_event_codes() {
    let c = Cuber::new(vec![
        record("333", "700", "0"),
        record("teleport", "1", "1"),
    ]);
    assert!(matches!(c.get_single(Event::_3), ResultValue::Time(700)));
    assert!(matches!(c.get_single_from_str("teleport"), ResultValue::NoResult));
    assert!(matches!(c.get_average_from_str("teleport"), ResultValue::NoResult));
}

#[test]
fn unseen_events_stay_no_result() {
    let c = Cuber::new(vec![record("333", "700", "0")]);
    assert!(matches!(c.get_single(Event::_clock), ResultValue::NoResult));
    assert!(matches!(c.get_average(Event::_clock), ResultValue::NoResult));
}

#[test]
fn profile_accessors_by_code() {
    let c = Cuber::new(vec![record("555", "4200", "4500")]);
    assert!(matches!(c.get_single_from_str("555"), ResultValue::Time(4200)));
    assert!(matches!(c.get_average_from_str("555"), ResultValue::Time(4500)));
}

#[test]
fn dnf_does_not_displace_a_time() {
    let c = Cuber::new(vec![
        record("222", "-1", "-1"),
        record("222", "300", "350"),
        record("222", "-1", "-1"),
    ]);
    assert!(matches!(c.get_single(Event::_2), ResultValue::Time(300)));
    assert!(matches!(c.get_average(Event::_2), ResultValue::Time(350)));
}

#[test]
fn both_multi_encodings_feed_one_slot() {
    let c = Cuber::new(vec![
        // old encoding: 3 of 4 in 345 s, points -2
        record("333mbo", "X960400345", "0"),
        // new encoding: 5 of 5 in 200 s, points -5: better
        record("333mbf", "X940020000", "0"),
    ]);
    assert!(matches!(
        c.get_single(Event::_3mbld),
        ResultValue::MultiAttempt { time: 200, solved: 5, attempted: 5 }
    ));
}

#[test]
fn default_profile_is_empty() {
    let c = Cuber::default();
    assert!(c.results.is_empty());
    assert!(matches!(c.get_single(Event::_3), ResultValue::NoResult));
}
