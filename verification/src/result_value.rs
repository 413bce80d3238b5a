//! The typed result value: parsing of encoded result strings, the canonical
//! total order that lets dissimilar result kinds be ranked together, and the
//! validity predicate.

use vstd::prelude::*;
use vstd::string::StrSliceExecFns;
use crate::text::{
    field, parse_i64, parse_i64_range, parse_i64_spec, str_eq, lemma_parse_i64_range_bound,
    lemma_pow10_mono, pow10,
};

verus! {

/// One competition result. Exactly one variant is active; the three absence
/// states (`DNF`, `DNS`, `NoResult`) are distinct values that order equally
/// worst.
#[derive(Clone, Copy, Debug)]
pub enum ResultValue {
    /// A timed result, in hundredths of a second.
    Time(i64),
    /// A move-count result, used only for the fewest-moves event.
    MoveCount(i64),
    /// A multi-attempt result: elapsed seconds, puzzles solved, puzzles attempted.
    MultiAttempt { time: i64, solved: i64, attempted: i64 },
    DNF,
    DNS,
    NoResult,
}

/// Projection of a result onto the comparable 4-tuple
/// `(category, moveCount, negativePoints, time)`. Tuples compare
/// lexicographically ascending; smaller is better. The category tag only
/// makes the order total: values of different categories are never ranked
/// against each other in practice.
pub open spec fn tuple_view(r: ResultValue) -> (int, int, int, int) {
    match r {
        ResultValue::Time(t) => (1, 0, 0, t as int),
        ResultValue::MultiAttempt { time, solved, attempted } => (
            2,
            0,
            attempted - 2 * solved,
            time as int,
        ),
        ResultValue::MoveCount(m) => (3, m as int, 0, 0),
        ResultValue::DNF => (4, 0, 0, 0),
        ResultValue::DNS => (4, 0, 0, 0),
        ResultValue::NoResult => (4, 0, 0, 0),
    }
}

pub open spec fn tuple_le(a: (int, int, int, int), b: (int, int, int, int)) -> bool {
    if a.0 != b.0 {
        a.0 < b.0
    } else if a.1 != b.1 {
        a.1 < b.1
    } else if a.2 != b.2 {
        a.2 < b.2
    } else {
        a.3 <= b.3
    }
}

/// `a` ranks at least as well as `b`.
pub open spec fn value_le(a: ResultValue, b: ResultValue) -> bool {
    tuple_le(tuple_view(a), tuple_view(b))
}

/// `a` ranks strictly better than `b`.
pub open spec fn value_lt(a: ResultValue, b: ResultValue) -> bool {
    value_le(a, b) && tuple_view(a) != tuple_view(b)
}

/// Results that carry no comparable achievement.
pub open spec fn is_absence(r: ResultValue) -> bool {
    r is DNF || r is DNS || r is NoResult
}

/// A result counts as valid when it is a concrete achievement and, for a
/// multi-attempt result, is not self-contradictory.
pub open spec fn valid_spec(r: ResultValue) -> bool {
    match r {
        ResultValue::DNF => false,
        ResultValue::DNS => false,
        ResultValue::NoResult => false,
        ResultValue::MultiAttempt { solved, attempted, .. } => attempted >= solved,
        _ => true,
    }
}

/// Decoding of the old fixed-width multi-attempt encoding: an unused leading
/// character, a two-digit difference field `DD` (solved count is `99 - DD`),
/// a two-digit attempted count, and a five-digit time in seconds. The whole
/// record degrades to `NoResult` unless all three numeric fields parse.
pub open spec fn multi_old_spec(s: Seq<char>) -> ResultValue {
    let dd = parse_i64_spec(field(s, 1, 3));
    let att = parse_i64_spec(field(s, 3, 5));
    let tm = parse_i64_spec(field(s, 5, 10));
    if dd is Some && att is Some && tm is Some {
        ResultValue::MultiAttempt {
            time: tm.unwrap(),
            solved: (99 - dd.unwrap() as int) as i64,
            attempted: att.unwrap(),
        }
    } else {
        ResultValue::NoResult
    }
}

/// Decoding of the new fixed-width multi-attempt encoding: an unused leading
/// character, the two-digit difference field `DD`, a five-digit time in
/// seconds, and a two-digit missed count. Solved is `99 - DD + missed`;
/// attempted is `solved + missed`.
pub open spec fn multi_new_spec(s: Seq<char>) -> ResultValue {
    let dd = parse_i64_spec(field(s, 1, 3));
    let tm = parse_i64_spec(field(s, 3, 8));
    let missed = parse_i64_spec(field(s, 8, 10));
    if dd is Some && tm is Some && missed is Some {
        let solved = 99 - dd.unwrap() as int + missed.unwrap() as int;
        ResultValue::MultiAttempt {
            time: tm.unwrap(),
            solved: solved as i64,
            attempted: (solved + missed.unwrap() as int) as i64,
        }
    } else {
        ResultValue::NoResult
    }
}

/// What `ResultValue::from_str` returns for an event code and a raw encoded
/// string. Total: every input maps to some value, malformed input to
/// `NoResult`. The sentinel integers `-1`, `-2` and `0` mean `DNF`, `DNS`
/// and `NoResult` for every non-multi-attempt event.
pub open spec fn parse_spec(event: Seq<char>, s: Seq<char>) -> ResultValue {
    if event == "333mbo"@ {
        multi_old_spec(s)
    } else if event == "333mbf"@ {
        multi_new_spec(s)
    } else {
        match parse_i64_spec(s) {
            Some(v) => if v == -1 {
                ResultValue::DNF
            } else if v == -2 {
                ResultValue::DNS
            } else if v == 0 {
                ResultValue::NoResult
            } else if event == "333fm"@ {
                ResultValue::MoveCount(v)
            } else {
                ResultValue::Time(v)
            },
            None => ResultValue::NoResult,
        }
    }
}

impl ResultValue {
    /// The comparable 4-tuple of this value, wide enough that the
    /// `attempted - 2 * solved` points field cannot overflow.
    pub fn tupleify(&self) -> (r: (i128, i128, i128, i128))
        ensures
            (r.0 as int, r.1 as int, r.2 as int, r.3 as int) == tuple_view(*self),
    {
        match self {
            ResultValue::Time(t) => (1, 0, 0, *t as i128),
            ResultValue::MultiAttempt { time, solved, attempted } => (
                2,
                0,
                *attempted as i128 - 2 * (*solved as i128),
                *time as i128,
            ),
            ResultValue::MoveCount(m) => (3, *m as i128, 0, 0),
            ResultValue::DNF => (4, 0, 0, 0),
            ResultValue::DNS => (4, 0, 0, 0),
            ResultValue::NoResult => (4, 0, 0, 0),
        }
    }

    /// Whether this value ranks at least as well as `other`.
    pub fn le(&self, other: &ResultValue) -> (r: bool)
        ensures
            r == value_le(*self, *other),
    {
        let a = self.tupleify();
        let b = other.tupleify();
        if a.0 != b.0 {
            a.0 < b.0
        } else if a.1 != b.1 {
            a.1 < b.1
        } else if a.2 != b.2 {
            a.2 < b.2
        } else {
            a.3 <= b.3
        }
    }

    /// Whether this value ranks strictly better than `other`.
    pub fn lt(&self, other: &ResultValue) -> (r: bool)
        ensures
            r == value_lt(*self, *other),
    {
        let a = self.tupleify();
        let b = other.tupleify();
        if a.0 != b.0 {
            a.0 < b.0
        } else if a.1 != b.1 {
            a.1 < b.1
        } else if a.2 != b.2 {
            a.2 < b.2
        } else {
            a.3 < b.3
        }
    }

    pub fn valid(&self) -> (r: bool)
        ensures
            r == valid_spec(*self),
    {
        match self {
            ResultValue::DNF => false,
            ResultValue::DNS => false,
            ResultValue::NoResult => false,
            ResultValue::MultiAttempt { solved, attempted, .. } => *attempted >= *solved,
            _ => true,
        }
    }

    /// Parse an encoded result string for the given event code. Total:
    /// unparseable input degrades to `NoResult` instead of failing.
    pub fn from_str(event_id: &str, s: &str) -> (r: ResultValue)
        ensures
            r == parse_spec(event_id@, s@),
    {
        if str_eq(event_id, "333mbo") {
            decode_multi_old(s)
        } else if str_eq(event_id, "333mbf") {
            decode_multi_new(s)
        } else {
            match parse_i64(s) {
                Some(v) => {
                    if v == -1 {
                        ResultValue::DNF
                    } else if v == -2 {
                        ResultValue::DNS
                    } else if v == 0 {
                        ResultValue::NoResult
                    } else if str_eq(event_id, "333fm") {
                        ResultValue::MoveCount(v)
                    } else {
                        ResultValue::Time(v)
                    }
                },
                None => ResultValue::NoResult,
            }
        }
    }
}

/// Bounds the result of parsing a field of at most `width` characters.
proof fn lemma_field_bound(s: Seq<char>, from: int, to: int, width: nat, bound: int)
    requires
        0 <= from <= to,
        to - from == width,
        pow10(width) <= bound,
    ensures
        parse_i64_spec(field(s, from, to)) is Some ==> -bound < parse_i64_spec(
            field(s, from, to),
        ).unwrap() < bound,
{
    let f = field(s, from, to);
    lemma_parse_i64_range_bound(f);
    lemma_pow10_mono(f.len(), width);
}

fn decode_multi_old(s: &str) -> (r: ResultValue)
    ensures
        r == multi_old_spec(s@),
{
    let n = s.unicode_len();
    let p1 = if n < 1 { n } else { 1 };
    let p3 = if n < 3 { n } else { 3 };
    let p5 = if n < 5 { n } else { 5 };
    let p10 = if n < 10 { n } else { 10 };
    let dd = parse_i64_range(s, p1, p3);
    let att = parse_i64_range(s, p3, p5);
    let tm = parse_i64_range(s, p5, p10);
    proof {
        assert(s@.subrange(p1 as int, p3 as int) == field(s@, 1, 3));
        assert(s@.subrange(p3 as int, p5 as int) == field(s@, 3, 5));
        assert(s@.subrange(p5 as int, p10 as int) == field(s@, 5, 10));
    }
    match (dd, att, tm) {
        (Some(d), Some(a), Some(t)) => {
            proof {
                assert(pow10(0) == 1);
                assert(pow10(1) == 10);
                assert(pow10(2) == 100);
                lemma_field_bound(s@, 1, 3, 2, 100);
            }
            ResultValue::MultiAttempt { time: t, solved: 99 - d, attempted: a }
        },
        _ => ResultValue::NoResult,
    }
}

fn decode_multi_new(s: &str) -> (r: ResultValue)
    ensures
        r == multi_new_spec(s@),
{
    let n = s.unicode_len();
    let p1 = if n < 1 { n } else { 1 };
    let p3 = if n < 3 { n } else { 3 };
    let p8 = if n < 8 { n } else { 8 };
    let p10 = if n < 10 { n } else { 10 };
    let dd = parse_i64_range(s, p1, p3);
    let tm = parse_i64_range(s, p3, p8);
    let missed = parse_i64_range(s, p8, p10);
    proof {
        assert(s@.subrange(p1 as int, p3 as int) == field(s@, 1, 3));
        assert(s@.subrange(p3 as int, p8 as int) == field(s@, 3, 8));
        assert(s@.subrange(p8 as int, p10 as int) == field(s@, 8, 10));
    }
    match (dd, tm, missed) {
        (Some(d), Some(t), Some(m)) => {
            proof {
                assert(pow10(0) == 1);
                assert(pow10(1) == 10);
                assert(pow10(2) == 100);
                lemma_field_bound(s@, 1, 3, 2, 100);
                lemma_field_bound(s@, 8, 10, 2, 100);
            }
            let solved = 99 - d + m;
            ResultValue::MultiAttempt { time: t, solved, attempted: solved + m }
        },
        _ => ResultValue::NoResult,
    }
}

impl crate::ranking::RankScore for ResultValue {
    /// The canonical total order of results.
    open spec fn score_le_spec(self, other: Self) -> bool {
        value_le(self, other)
    }

    open spec fn score_valid_spec(self) -> bool {
        valid_spec(self)
    }

    proof fn lemma_total(a: Self, b: Self) {
    }

    proof fn lemma_trans(a: Self, b: Self, c: Self) {
    }

    fn score_le(&self, other: &Self) -> (r: bool) {
        self.le(other)
    }

    fn score_valid(&self) -> (r: bool) {
        self.valid()
    }
}

impl PartialEq for ResultValue {
    /// Results compare equal exactly when their comparable tuples agree; the
    /// three absence states are equal to each other under this relation.
    fn eq(&self, other: &Self) -> (r: bool) {
        let a = self.tupleify();
        let b = other.tupleify();
        a.0 == b.0 && a.1 == b.1 && a.2 == b.2 && a.3 == b.3
    }
}

impl vstd::std_specs::cmp::PartialEqSpecImpl for ResultValue {
    open spec fn obeys_eq_spec() -> bool {
        true
    }

    open spec fn eq_spec(&self, other: &Self) -> bool {
        tuple_view(*self) == tuple_view(*other)
    }
}

impl Default for ResultValue {
    /// The default is the guaranteed-worst value, so that any observed
    /// result replaces it.
    fn default() -> (r: Self)
        ensures
            r == ResultValue::NoResult,
    {
        ResultValue::NoResult
    }
}

/// Invalid clustering: an absence value (`DNF`, `DNS` or `NoResult`) always
/// compares strictly worse than any concrete result, valid or not, so absence
/// values gather at the tail of any ranking.
pub proof fn lemma_absence_sorts_worst(a: ResultValue, b: ResultValue)
    requires
        is_absence(a),
        !is_absence(b),
    ensures
        value_lt(b, a),
        !value_le(a, b),
{
}

/// A timed result always compares strictly better than any multi-attempt
/// result, in particular better than a self-contradictory one.
pub proof fn lemma_time_sorts_before_multi(t: ResultValue, m: ResultValue)
    requires
        t is Time,
        m is MultiAttempt,
    ensures
        value_lt(t, m),
{
}

} // verus!
