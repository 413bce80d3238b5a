//! The static event catalog: 18 canonical event slots, each with a stable
//! index, a machine code, and a display label. The two historical encodings
//! of the multi-attempt event share one slot.

use vstd::prelude::*;
use crate::text::str_eq;

verus! {

/// Number of canonical event slots.
pub const EVENT_COUNT: usize = 18;

#[derive(Clone, Copy, Debug, PartialEq, Eq, Structural)]
pub enum Event {
    _skewb,
    _2,
    _3,
    _3bld,
    _3oh,
    _3mbld,
    _3fm,
    _3ft,
    _4,
    _4bld,
    _5,
    _5bld,
    _6,
    _7,
    _sq1,
    _pyram,
    _minx,
    _clock,
}

/// Every event, in slot order.
pub open spec fn all_events() -> Seq<Event> {
    seq![
        Event::_skewb,
        Event::_2,
        Event::_3,
        Event::_3bld,
        Event::_3oh,
        Event::_3mbld,
        Event::_3fm,
        Event::_3ft,
        Event::_4,
        Event::_4bld,
        Event::_5,
        Event::_5bld,
        Event::_6,
        Event::_7,
        Event::_sq1,
        Event::_pyram,
        Event::_minx,
        Event::_clock,
    ]
}

/// The slot of a machine event code, or `EVENT_COUNT` when the code is not
/// recognized. Both multi-attempt encodings map to the same slot.
pub open spec fn str_to_index_spec(s: Seq<char>) -> int {
    if s == "skewb"@ {
        0
    } else if s == "222"@ {
        1
    } else if s == "333"@ {
        2
    } else if s == "333bf"@ {
        3
    } else if s == "333oh"@ {
        4
    } else if s == "333mbf"@ || s == "333mbo"@ {
        5
    } else if s == "333fm"@ {
        6
    } else if s == "333ft"@ {
        7
    } else if s == "444"@ {
        8
    } else if s == "444bf"@ {
        9
    } else if s == "555"@ {
        10
    } else if s == "555bf"@ {
        11
    } else if s == "666"@ {
        12
    } else if s == "777"@ {
        13
    } else if s == "sq1"@ {
        14
    } else if s == "pyram"@ {
        15
    } else if s == "minx"@ {
        16
    } else if s == "clock"@ {
        17
    } else {
        18
    }
}

impl Event {
    pub open spec fn index_spec(self) -> int {
        match self {
            Event::_skewb => 0,
            Event::_2 => 1,
            Event::_3 => 2,
            Event::_3bld => 3,
            Event::_3oh => 4,
            Event::_3mbld => 5,
            Event::_3fm => 6,
            Event::_3ft => 7,
            Event::_4 => 8,
            Event::_4bld => 9,
            Event::_5 => 10,
            Event::_5bld => 11,
            Event::_6 => 12,
            Event::_7 => 13,
            Event::_sq1 => 14,
            Event::_pyram => 15,
            Event::_minx => 16,
            Event::_clock => 17,
        }
    }

    /// This event's stable slot.
    pub fn index(&self) -> (i: usize)
        ensures
            i == self.index_spec(),
            i < EVENT_COUNT,
    {
        match self {
            Event::_skewb => 0,
            Event::_2 => 1,
            Event::_3 => 2,
            Event::_3bld => 3,
            Event::_3oh => 4,
            Event::_3mbld => 5,
            Event::_3fm => 6,
            Event::_3ft => 7,
            Event::_4 => 8,
            Event::_4bld => 9,
            Event::_5 => 10,
            Event::_5bld => 11,
            Event::_6 => 12,
            Event::_7 => 13,
            Event::_sq1 => 14,
            Event::_pyram => 15,
            Event::_minx => 16,
            Event::_clock => 17,
        }
    }

    /// Map a machine event code to its slot; unknown codes map to
    /// `EVENT_COUNT`.
    pub fn str_to_index(event_id: &str) -> (i: usize)
        ensures
            i == str_to_index_spec(event_id@),
            i <= EVENT_COUNT,
    {
        if str_eq(event_id, "skewb") {
            0
        } else if str_eq(event_id, "222") {
            1
        } else if str_eq(event_id, "333") {
            2
        } else if str_eq(event_id, "333bf") {
            3
        } else if str_eq(event_id, "333oh") {
            4
        } else if str_eq(event_id, "333mbf") || str_eq(event_id, "333mbo") {
            5
        } else if str_eq(event_id, "333fm") {
            6
        } else if str_eq(event_id, "333ft") {
            7
        } else if str_eq(event_id, "444") {
            8
        } else if str_eq(event_id, "444bf") {
            9
        } else if str_eq(event_id, "555") {
            10
        } else if str_eq(event_id, "555bf") {
            11
        } else if str_eq(event_id, "666") {
            12
        } else if str_eq(event_id, "777") {
            13
        } else if str_eq(event_id, "sq1") {
            14
        } else if str_eq(event_id, "pyram") {
            15
        } else if str_eq(event_id, "minx") {
            16
        } else if str_eq(event_id, "clock") {
            17
        } else {
            18
        }
    }

    /// Every event, in slot order.
    pub fn iter() -> (v: Vec<Event>)
        ensures
            v@ == all_events(),
            v@.len() == EVENT_COUNT,
    {
        let mut v: Vec<Event> = Vec::new();
        v.push(Event::_skewb);
        v.push(Event::_2);
        v.push(Event::_3);
        v.push(Event::_3bld);
        v.push(Event::_3oh);
        v.push(Event::_3mbld);
        v.push(Event::_3fm);
        v.push(Event::_3ft);
        v.push(Event::_4);
        v.push(Event::_4bld);
        v.push(Event::_5);
        v.push(Event::_5bld);
        v.push(Event::_6);
        v.push(Event::_7);
        v.push(Event::_sq1);
        v.push(Event::_pyram);
        v.push(Event::_minx);
        v.push(Event::_clock);
        proof {
            assert(v@ =~= all_events());
        }
        v
    }

    pub open spec fn nice_label_spec(self) -> Seq<char> {
        match self {
            Event::_skewb => "Skewb"@,
            Event::_2 => "2x2"@,
            Event::_3 => "3x3"@,
            Event::_3bld => "3BLD"@,
            Event::_3oh => "OH"@,
            Event::_3mbld => "MBLD"@,
            Event::_3fm => "FM"@,
            Event::_3ft => "Feet"@,
            Event::_4 => "4x4"@,
            Event::_4bld => "4BLD"@,
            Event::_5 => "5x5"@,
            Event::_5bld => "5BLD"@,
            Event::_6 => "6x6"@,
            Event::_7 => "7x7"@,
            Event::_sq1 => "Squan"@,
            Event::_pyram => "Pyra"@,
            Event::_minx => "Mega"@,
            Event::_clock => "Clock"@,
        }
    }

    /// Human-readable display label for this event.
    pub fn to_nice_str(&self) -> (s: &'static str)
        ensures
            s@ == self.nice_label_spec(),
    {
        match self {
            Event::_skewb => "Skewb",
            Event::_2 => "2x2",
            Event::_3 => "3x3",
            Event::_3bld => "3BLD",
            Event::_3oh => "OH",
            Event::_3mbld => "MBLD",
            Event::_3fm => "FM",
            Event::_3ft => "Feet",
            Event::_4 => "4x4",
            Event::_4bld => "4BLD",
            Event::_5 => "5x5",
            Event::_5bld => "5BLD",
            Event::_6 => "6x6",
            Event::_7 => "7x7",
            Event::_sq1 => "Squan",
            Event::_pyram => "Pyra",
            Event::_minx => "Mega",
            Event::_clock => "Clock",
        }
    }

    pub open spec fn code_spec(self) -> Seq<char> {
        match self {
            Event::_skewb => "skewb"@,
            Event::_2 => "222"@,
            Event::_3 => "333"@,
            Event::_3bld => "333bf"@,
            Event::_3oh => "333oh"@,
            Event::_3mbld => "333mbld"@,
            Event::_3fm => "333fm"@,
            Event::_3ft => "333ft"@,
            Event::_4 => "444"@,
            Event::_4bld => "444bf"@,
            Event::_5 => "555"@,
            Event::_5bld => "555bf"@,
            Event::_6 => "666"@,
            Event::_7 => "777"@,
            Event::_sq1 => "sq1"@,
            Event::_pyram => "pyram"@,
            Event::_minx => "minx"@,
            Event::_clock => "clock"@,
        }
    }

    /// The machine code under which this event's pages are filed.
    pub fn to_code_str(&self) -> (s: &'static str)
        ensures
            s@ == self.code_spec(),
    {
        match self {
            Event::_skewb => "skewb",
            Event::_2 => "222",
            Event::_3 => "333",
            Event::_3bld => "333bf",
            Event::_3oh => "333oh",
            Event::_3mbld => "333mbld",
            Event::_3fm => "333fm",
            Event::_3ft => "333ft",
            Event::_4 => "444",
            Event::_4bld => "444bf",
            Event::_5 => "555",
            Event::_5bld => "555bf",
            Event::_6 => "666",
            Event::_7 => "777",
            Event::_sq1 => "sq1",
            Event::_pyram => "pyram",
            Event::_minx => "minx",
            Event::_clock => "clock",
        }
    }
}

} // verus!
