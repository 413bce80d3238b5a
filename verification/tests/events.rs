use wca_rankings::event::{Event, EVENT_COUNT};

#[test]
fn codes_map_to_indices() {
    let codes = [
        "skewb", "222", "333", "333bf", "333oh", "333mbf", "333fm", "333ft", "444", "444bf",
        "555", "555bf", "666", "777", "sq1", "pyram", "minx", "clock",
    ];
    for (i, code) in codes.iter().enumerate() {
        assert_eq!(Event::str_to_index(code), i);
    }
}

#[test]
fn both_multi_codes_share_a_slot() {
    assert_eq!(Event::str_to_index("333mbf"), 5);
    assert_eq!(Event::str_to_index("333mbo"), 5);
}

#[test]
fn unknown_codes_map_past_the_end() {
    assert_eq!(Event::str_to_index("999"), EVENT_COUNT);
    assert_eq!(Event::str_to_index(""), EVENT_COUNT);
    assert_eq!(Event::str_to_index("333mbld"), EVENT_COUNT);
}

#[test]
fn iter_lists_all_events_in_slot_order() {
    let events = Event::iter();
    assert_eq!(events.len(), EVENT_COUNT);
    for (i, e) in events.iter().enumerate() {
        assert_eq!(e.index(), i);
    }
}

#[test]
fn labels_and_codes() {
    assert_eq!(Event::_3.to_nice_str(), "3x3");
    assert_eq!(Event::_3mbld.to_nice_str(), "MBLD");
    assert_eq!(Event::_skewb.to_code_str(), "skewb");
    assert_eq!(Event::_3mbld.to_code_str(), "333mbld");
    assert_eq!(Event::_sq1.to_code_str(), "sq1");
}
