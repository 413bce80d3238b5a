//! Competitor profiles: one raw result record, and the per-competitor
//! aggregation of best single and best average for each event slot.

use vstd::prelude::*;
use crate::event::{Event, str_to_index_spec, EVENT_COUNT};
use crate::result_value::{parse_spec, value_le, value_lt, ResultValue};
use crate::text::str_eq;

verus! {

/// One raw result record, as the ingestion collaborator supplies it: every
/// field still in its encoded string form.
#[derive(Clone, Debug)]
pub struct WCAResult {
    pub competition_id: String,
    pub event_id: String,
    pub best: String,
    pub average: String,
    pub person_name: String,
    pub person_id: String,
}

impl WCAResult {
    /// The decoded best-single value of this record.
    pub open spec fn single_spec(self) -> ResultValue {
        parse_spec(self.event_id@, self.best@)
    }

    /// The decoded best-average value of this record. No continuous average
    /// exists for the multi-attempt event, so both of its encodings yield
    /// `NoResult` unconditionally.
    pub open spec fn average_spec(self) -> ResultValue {
        if self.event_id@ == "333mbo"@ || self.event_id@ == "333mbf"@ {
            ResultValue::NoResult
        } else {
            parse_spec(self.event_id@, self.average@)
        }
    }

    pub fn get_single(&self) -> (r: ResultValue)
        ensures
            r == self.single_spec(),
    {
        ResultValue::from_str(&self.event_id, &self.best)
    }

    pub fn get_average(&self) -> (r: ResultValue)
        ensures
            r == self.average_spec(),
    {
        if str_eq(&self.event_id, "333mbo") || str_eq(&self.event_id, "333mbf") {
            ResultValue::NoResult
        } else {
            ResultValue::from_str(&self.event_id, &self.average)
        }
    }
}

/// Per-event storage before any result is seen: the guaranteed-worst value in
/// every slot, so the first observation always wins.
pub open spec fn init_values() -> Seq<ResultValue> {
    Seq::new(EVENT_COUNT as nat, |i: int| ResultValue::NoResult)
}

/// Keep the better (smaller, per the canonical order) of the stored value and
/// a newly observed one.
pub open spec fn better_of(new: ResultValue, cur: ResultValue) -> ResultValue {
    if value_lt(new, cur) {
        new
    } else {
        cur
    }
}

/// Fold one record into per-event best values; records with unrecognized
/// event codes are ignored.
pub open spec fn apply_record(
    vals: Seq<ResultValue>,
    rec: WCAResult,
    new: ResultValue,
) -> Seq<ResultValue> {
    let idx = str_to_index_spec(rec.event_id@);
    if idx < EVENT_COUNT {
        vals.update(idx, better_of(new, vals[idx]))
    } else {
        vals
    }
}

/// Best single per event over a record sequence, folded left to right.
pub open spec fn best_singles(rs: Seq<WCAResult>) -> Seq<ResultValue>
    decreases rs.len(),
{
    if rs.len() == 0 {
        init_values()
    } else {
        apply_record(best_singles(rs.drop_last()), rs.last(), rs.last().single_spec())
    }
}

/// Best average per event over a record sequence, folded left to right.
pub open spec fn best_averages(rs: Seq<WCAResult>) -> Seq<ResultValue>
    decreases rs.len(),
{
    if rs.len() == 0 {
        init_values()
    } else {
        apply_record(best_averages(rs.drop_last()), rs.last(), rs.last().average_spec())
    }
}

proof fn lemma_better_of_le(new: ResultValue, cur: ResultValue)
    ensures
        value_le(better_of(new, cur), new),
        value_le(better_of(new, cur), cur),
{
}

pub proof fn lemma_best_singles_len(rs: Seq<WCAResult>)
    ensures
        best_singles(rs).len() == EVENT_COUNT,
    decreases rs.len(),
{
    if rs.len() > 0 {
        lemma_best_singles_len(rs.drop_last());
    }
}

pub proof fn lemma_best_averages_len(rs: Seq<WCAResult>)
    ensures
        best_averages(rs).len() == EVENT_COUNT,
    decreases rs.len(),
{
    if rs.len() > 0 {
        lemma_best_averages_len(rs.drop_last());
    }
}

/// The stored best single of a slot ranks at least as well as the decoded
/// single of every record for that slot.
pub proof fn lemma_best_singles_minimal(rs: Seq<WCAResult>, i: int)
    requires
        0 <= i < rs.len(),
        str_to_index_spec(rs[i].event_id@) < EVENT_COUNT,
    ensures
        value_le(best_singles(rs)[str_to_index_spec(rs[i].event_id@)], rs[i].single_spec()),
    decreases rs.len(),
{
    let e = str_to_index_spec(rs[i].event_id@);
    let front = rs.drop_last();
    let last = rs.last();
    let prev = best_singles(front);
    lemma_best_singles_len(front);
    let last_idx = str_to_index_spec(last.event_id@);
    if i == rs.len() - 1 {
        lemma_better_of_le(last.single_spec(), prev[e]);
    } else {
        assert(front[i] == rs[i]);
        lemma_best_singles_minimal(front, i);
        if last_idx == e {
            lemma_better_of_le(last.single_spec(), prev[e]);
        }
    }
}

/// The stored best average of a slot ranks at least as well as the decoded
/// average of every record for that slot.
pub proof fn lemma_best_averages_minimal(rs: Seq<WCAResult>, i: int)
    requires
        0 <= i < rs.len(),
        str_to_index_spec(rs[i].event_id@) < EVENT_COUNT,
    ensures
        value_le(best_averages(rs)[str_to_index_spec(rs[i].event_id@)], rs[i].average_spec()),
    decreases rs.len(),
{
    let e = str_to_index_spec(rs[i].event_id@);
    let front = rs.drop_last();
    let last = rs.last();
    let prev = best_averages(front);
    lemma_best_averages_len(front);
    let last_idx = str_to_index_spec(last.event_id@);
    if i == rs.len() - 1 {
        lemma_better_of_le(last.average_spec(), prev[e]);
    } else {
        assert(front[i] == rs[i]);
        lemma_best_averages_minimal(front, i);
        if last_idx == e {
            lemma_better_of_le(last.average_spec(), prev[e]);
        }
    }
}

/// A competitor: identity, the raw records the profile was built from, and
/// the per-event best single and best average, computed once at construction
/// and immutable afterwards.
#[derive(Clone, Debug)]
pub struct Cuber {
    pub results: Vec<WCAResult>,
    pub id: String,
    pub name: String,
    singles: Vec<ResultValue>,
    averages: Vec<ResultValue>,
}

impl Cuber {
    /// Well-formedness: one best-single and one best-average slot per event.
    pub closed spec fn wf(self) -> bool {
        self.singles@.len() == EVENT_COUNT && self.averages@.len() == EVENT_COUNT
    }

    pub closed spec fn results_view(self) -> Seq<WCAResult> {
        self.results@
    }

    pub closed spec fn id_view(self) -> Seq<char> {
        self.id@
    }

    pub closed spec fn name_view(self) -> Seq<char> {
        self.name@
    }

    pub closed spec fn singles_view(self) -> Seq<ResultValue> {
        self.singles@
    }

    pub closed spec fn averages_view(self) -> Seq<ResultValue> {
        self.averages@
    }

    /// Build a profile from a non-empty record sequence for one competitor:
    /// name and id are taken from the first record, and every slot holds the
    /// best value among that competitor's parsed records for the slot's
    /// event.
    pub fn new(results: Vec<WCAResult>) -> (c: Cuber)
        requires
            results@.len() > 0,
        ensures
            c.wf(),
            c.results_view() == results@,
            c.id_view() == results@[0].person_id@,
            c.name_view() == results@[0].person_name@,
            c.singles_view() == best_singles(results@),
            c.averages_view() == best_averages(results@),
    {
        let name = results[0].person_name.clone();
        let id = results[0].person_id.clone();

        let mut singles: Vec<ResultValue> = Vec::new();
        let mut averages: Vec<ResultValue> = Vec::new();
        let mut k: usize = 0;
        while k < EVENT_COUNT
            invariant
                0 <= k <= EVENT_COUNT,
                singles@.len() == k,
                averages@.len() == k,
                forall|q: int| 0 <= q < k ==> singles@[q] == ResultValue::NoResult,
                forall|q: int| 0 <= q < k ==> averages@[q] == ResultValue::NoResult,
            decreases EVENT_COUNT - k,
        {
            singles.push(ResultValue::NoResult);
            averages.push(ResultValue::NoResult);
            k += 1;
        }
        proof {
            assert(singles@ =~= init_values());
            assert(averages@ =~= init_values());
            assert(results@.take(0) =~= Seq::<WCAResult>::empty());
        }

        let n = results.len();
        let mut i: usize = 0;
        while i < n
            invariant
                n == results@.len(),
                0 <= i <= n,
                singles@.len() == EVENT_COUNT,
                averages@.len() == EVENT_COUNT,
                singles@ == best_singles(results@.take(i as int)),
                averages@ == best_averages(results@.take(i as int)),
            decreases n - i,
        {
            let ghost prefix = results@.take(i as int);
            let idx = Event::str_to_index(&results[i].event_id);
            if idx != EVENT_COUNT {
                let single = results[i].get_single();
                let average = results[i].get_average();
                let cur_single = singles[idx];
                if single.lt(&cur_single) {
                    singles[idx] = single;
                } else {
                    proof {
                        assert(singles@.update(idx as int, cur_single) =~= singles@);
                    }
                }
                let cur_average = averages[idx];
                if average.lt(&cur_average) {
                    averages[idx] = average;
                } else {
                    proof {
                        assert(averages@.update(idx as int, cur_average) =~= averages@);
                    }
                }
            }
            proof {
                assert(results@.take(i + 1).drop_last() =~= prefix);
                assert(results@.take(i + 1).last() == results@[i as int]);
                assert(singles@ == apply_record(
                    best_singles(prefix),
                    results@[i as int],
                    results@[i as int].single_spec(),
                ));
                assert(averages@ == apply_record(
                    best_averages(prefix),
                    results@[i as int],
                    results@[i as int].average_spec(),
                ));
            }
            i += 1;
        }
        proof {
            assert(results@.take(n as int) =~= results@);
        }
        Cuber { results, id, name, singles, averages }
    }

    /// Best single for an event slot.
    pub fn get_single(&self, event: Event) -> (r: ResultValue)
        requires
            self.wf(),
        ensures
            r == self.singles_view()[event.index_spec()],
    {
        self.singles[event.index()]
    }

    /// Best average for an event slot.
    pub fn get_average(&self, event: Event) -> (r: ResultValue)
        requires
            self.wf(),
        ensures
            r == self.averages_view()[event.index_spec()],
    {
        self.averages[event.index()]
    }

    /// Best single for a machine event code; unknown codes yield `NoResult`.
    pub fn get_single_from_str(&self, event_id: &str) -> (r: ResultValue)
        requires
            self.wf(),
        ensures
            r == if str_to_index_spec(event_id@) < EVENT_COUNT {
                self.singles_view()[str_to_index_spec(event_id@)]
            } else {
                ResultValue::NoResult
            },
    {
        let idx = Event::str_to_index(event_id);
        if idx != EVENT_COUNT {
            self.singles[idx]
        } else {
            ResultValue::NoResult
        }
    }

    /// Best average for a machine event code; unknown codes yield `NoResult`.
    pub fn get_average_from_str(&self, event_id: &str) -> (r: ResultValue)
        requires
            self.wf(),
        ensures
            r == if str_to_index_spec(event_id@) < EVENT_COUNT {
                self.averages_view()[str_to_index_spec(event_id@)]
            } else {
                ResultValue::NoResult
            },
    {
        let idx = Event::str_to_index(event_id);
        if idx != EVENT_COUNT {
            self.averages[idx]
        } else {
            ResultValue::NoResult
        }
    }
}

impl Default for Cuber {
    /// An empty profile: no records, empty identity, the worst value in
    /// every slot.
    fn default() -> (c: Cuber)
        ensures
            c.wf(),
            c.results_view().len() == 0,
            c.singles_view() == init_values(),
            c.averages_view() == init_values(),
    {
        let mut singles: Vec<ResultValue> = Vec::new();
        let mut averages: Vec<ResultValue> = Vec::new();
        let mut k: usize = 0;
        while k < EVENT_COUNT
            invariant
                0 <= k <= EVENT_COUNT,
                singles@.len() == k,
                averages@.len() == k,
                forall|q: int| 0 <= q < k ==> singles@[q] == ResultValue::NoResult,
                forall|q: int| 0 <= q < k ==> averages@[q] == ResultValue::NoResult,
            decreases EVENT_COUNT - k,
        {
            singles.push(ResultValue::NoResult);
            averages.push(ResultValue::NoResult);
            k += 1;
        }
        proof {
            assert(singles@ =~= init_values());
            assert(averages@ =~= init_values());
        }
        Cuber { results: Vec::new(), id: String::new(), name: String::new(), singles, averages }
    }
}

} // verus!
