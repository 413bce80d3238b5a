//! The sum-of-ranks aggregator: per-event rankings for each metric, per-event
//! rank cells written back per competitor, aggregate totals, and a final
//! leaderboard ranked by the same tie rule.

use vstd::prelude::*;
use crate::event::{all_events, Event, EVENT_COUNT};
use crate::profile::Cuber;
use crate::ranking::{
    default_marked, default_marked_spec, lemma_rank_at_bounds, lemma_stable_sort_elements,
    lemma_stable_sort_len, rank, rank_spec, stable_sort, RankRow, RankScore,
};
use crate::result_value::ResultValue;

verus! {

/// One per-event cell of a competitor's sum-of-ranks row: no contribution
/// (blank), a normally earned rank, or a rank held only by default, shared
/// last place without a valid result.
#[derive(Clone, Copy, Debug, PartialEq, Eq, Structural)]
pub enum SORRank {
    Blank,
    Normal(usize),
    Default(usize),
}

impl SORRank {
    /// The cell's contribution to the aggregate total: blank counts as zero.
    pub open spec fn value_spec(self) -> int {
        match self {
            SORRank::Blank => 0,
            SORRank::Normal(n) => n as int,
            SORRank::Default(n) => n as int,
        }
    }

    pub fn get_value(&self) -> (v: usize)
        ensures
            v as int == self.value_spec(),
    {
        match self {
            SORRank::Blank => 0,
            SORRank::Normal(n) => *n,
            SORRank::Default(n) => *n,
        }
    }
}

/// A competitor's stored best for one event and metric.
pub open spec fn metric_score(c: Cuber, event: Event, average: bool) -> ResultValue {
    if average {
        c.averages_view()[event.index_spec()]
    } else {
        c.singles_view()[event.index_spec()]
    }
}

/// The unranked rows handed to the engine for one event and metric, one row
/// per competitor in input order.
pub open spec fn event_rows_spec(cs: Seq<Cuber>, event: Event, average: bool) -> Seq<
    RankRow<ResultValue>,
> {
    Seq::new(
        cs.len(),
        |k: int| RankRow { rank: 0, score: metric_score(cs[k], event, average), person: k as usize },
    )
}

pub open spec fn wf_all(cs: Seq<Cuber>) -> bool {
    forall|k: int| 0 <= k < cs.len() ==> (#[trigger] cs[k]).wf()
}

/// Build the score rows for one event and metric.
pub fn build_event_rows(cubers: &Vec<Cuber>, event: Event, average: bool) -> (rows: Vec<
    RankRow<ResultValue>,
>)
    requires
        wf_all(cubers@),
    ensures
        rows@ == event_rows_spec(cubers@, event, average),
{
    let mut rows: Vec<RankRow<ResultValue>> = Vec::new();
    let n = cubers.len();
    let mut k: usize = 0;
    while k < n
        invariant
            n == cubers@.len(),
            wf_all(cubers@),
            0 <= k <= n,
            rows@.len() == k,
            forall|q: int| 0 <= q < k ==> rows@[q] == event_rows_spec(cubers@, event, average)[q],
        decreases n - k,
    {
        let score = if average {
            cubers[k].get_average(event)
        } else {
            cubers[k].get_single(event)
        };
        rows.push(RankRow { rank: 0, score, person: k });
        k += 1;
    }
    proof {
        assert(rows@ =~= event_rows_spec(cubers@, event, average));
    }
    rows
}

/// The ranked leaderboard for one event and metric.
pub fn event_ranking(cubers: &Vec<Cuber>, event: Event, average: bool) -> (rows: Vec<
    RankRow<ResultValue>,
>)
    requires
        wf_all(cubers@),
    ensures
        rows@ == rank_spec(event_rows_spec(cubers@, event, average)),
{
    let mut rows = build_event_rows(cubers, event, average);
    rank(&mut rows);
    rows
}

/// First position at or after `j` whose row belongs to person `k`, or the
/// sequence's length when there is none.
pub open spec fn find_person<S: RankScore>(s: Seq<RankRow<S>>, k: int, j: int) -> int
    decreases s.len() - j when 0 <= j <= s.len()
{
    if j >= s.len() {
        s.len() as int
    } else if s[j].person == k {
        j
    } else {
        find_person(s, k, j + 1)
    }
}

proof fn lemma_find_person_range<S: RankScore>(s: Seq<RankRow<S>>, k: int, j: int)
    requires
        0 <= j <= s.len(),
    ensures
        j <= find_person(s, k, j) <= s.len(),
    decreases s.len() - j,
{
    if j < s.len() && s[j].person != k {
        lemma_find_person_range(s, k, j + 1);
    }
}

/// Person `k`'s cell in a ranked leaderboard: their rank, marked `Default`
/// when the row shares last place without a valid score, `Blank` when the
/// person does not appear.
pub open spec fn cell_for(ranked: Seq<RankRow<ResultValue>>, k: int) -> SORRank {
    let j = find_person(ranked, k, 0);
    if j == ranked.len() {
        SORRank::Blank
    } else if default_marked_spec(ranked, j) {
        SORRank::Default(ranked[j].rank)
    } else {
        SORRank::Normal(ranked[j].rank)
    }
}

/// Per-person cells for one event and metric. The average metric of the
/// multi-attempt event is never ranked: its column is blank for everyone.
pub open spec fn event_cells_spec(cs: Seq<Cuber>, event: Event, average: bool) -> Seq<SORRank> {
    if average && event == Event::_3mbld {
        Seq::new(cs.len(), |k: int| SORRank::Blank)
    } else {
        Seq::new(
            cs.len(),
            |k: int| cell_for(rank_spec(event_rows_spec(cs, event, average)), k),
        )
    }
}

/// Compute the per-person cells for one event and metric.
pub fn event_cells(cubers: &Vec<Cuber>, event: Event, average: bool) -> (cells: Vec<SORRank>)
    requires
        wf_all(cubers@),
    ensures
        cells@ == event_cells_spec(cubers@, event, average),
{
    let n = cubers.len();
    let mut cells: Vec<SORRank> = Vec::new();
    if average && event == Event::_3mbld {
        let mut k: usize = 0;
        while k < n
            invariant
                0 <= k <= n,
                cells@.len() == k,
                forall|q: int| 0 <= q < k ==> cells@[q] == SORRank::Blank,
            decreases n - k,
        {
            cells.push(SORRank::Blank);
            k += 1;
        }
        proof {
            assert(cells@ =~= event_cells_spec(cubers@, event, average));
        }
    } else {
        let ranked = event_ranking(cubers, event, average);
        let ghost rs = ranked@;
        let m = ranked.len();
        let mut k: usize = 0;
        while k < n
            invariant
                n == cubers@.len(),
                rs == rank_spec(event_rows_spec(cubers@, event, average)),
                ranked@ == rs,
                m == rs.len(),
                !(average && event == Event::_3mbld),
                0 <= k <= n,
                cells@.len() == k,
                forall|q: int| 0 <= q < k ==> cells@[q] == event_cells_spec(
                    cubers@,
                    event,
                    average,
                )[q],
            decreases n - k,
        {
            let mut j: usize = 0;
            while j < m && ranked[j].person != k
                invariant
                    ranked@ == rs,
                    m == rs.len(),
                    0 <= j <= m,
                    find_person(rs, k as int, 0) == find_person(rs, k as int, j as int),
                decreases m - j,
            {
                j += 1;
            }
            let cell = if j == m {
                SORRank::Blank
            } else if default_marked(&ranked, j) {
                SORRank::Default(ranked[j].rank)
            } else {
                SORRank::Normal(ranked[j].rank)
            };
            cells.push(cell);
            k += 1;
        }
        proof {
            assert(cells@ =~= event_cells_spec(cubers@, event, average));
        }
    }
    cells
}

/// Every cell's value is at most the population size.
pub proof fn lemma_cell_value_bound(cs: Seq<Cuber>, event: Event, average: bool, k: int)
    requires
        0 <= k < cs.len(),
    ensures
        0 <= event_cells_spec(cs, event, average)[k].value_spec() <= cs.len(),
{
    if average && event == Event::_3mbld {
    } else {
        let rows = event_rows_spec(cs, event, average);
        let ranked = rank_spec(rows);
        lemma_stable_sort_len(rows);
        lemma_find_person_range(ranked, k, 0);
        let j = find_person(ranked, k, 0);
        if j < ranked.len() {
            lemma_rank_at_bounds(stable_sort(rows), j);
        }
    }
}

/// The total of person `k`'s cells for the first `e` event slots.
pub open spec fn totals_upto(cs: Seq<Cuber>, average: bool, k: int, e: int) -> int
    decreases e,
{
    if e <= 0 {
        0
    } else {
        totals_upto(cs, average, k, e - 1) + event_cells_spec(
            cs,
            all_events()[e - 1],
            average,
        )[k].value_spec()
    }
}

/// A competitor's aggregate sum-of-ranks score across all events.
pub open spec fn total_spec(cs: Seq<Cuber>, average: bool, k: int) -> int {
    totals_upto(cs, average, k, EVENT_COUNT as int)
}

/// The unranked aggregate rows, one per competitor in input order.
pub open spec fn totals_rows_spec(cs: Seq<Cuber>, average: bool) -> Seq<RankRow<usize>> {
    Seq::new(
        cs.len(),
        |k: int| RankRow {
            rank: 0,
            score: total_spec(cs, average, k) as usize,
            person: k as usize,
        },
    )
}

pub proof fn lemma_totals_upto_bound(cs: Seq<Cuber>, average: bool, k: int, e: int)
    requires
        0 <= k < cs.len(),
        0 <= e <= EVENT_COUNT,
    ensures
        0 <= totals_upto(cs, average, k, e) <= e * cs.len(),
    decreases e,
{
    if e > 0 {
        lemma_totals_upto_bound(cs, average, k, e - 1);
        lemma_cell_value_bound(cs, all_events()[e - 1], average, k);
        assert((e - 1) * cs.len() + cs.len() == e * cs.len()) by (nonlinear_arith);
    }
}

/// One finished aggregate leaderboard row: the final rank, the total, the
/// competitor (by index into the population), and the 18 per-event cells.
#[derive(Clone, Debug)]
pub struct SORRow {
    pub rank: usize,
    pub total: usize,
    pub person: usize,
    pub cells: Vec<SORRank>,
}

/// What a finished aggregate row at position `j` must hold.
pub open spec fn sor_row_ok(cs: Seq<Cuber>, average: bool, r: SORRow, j: int) -> bool {
    let ranked = rank_spec(totals_rows_spec(cs, average));
    &&& r.rank == ranked[j].rank
    &&& r.total == ranked[j].score
    &&& r.person == ranked[j].person
    &&& r.cells@ == Seq::new(
        EVENT_COUNT as nat,
        |e: int| event_cells_spec(cs, all_events()[e], average)[ranked[j].person as int],
    )
}

/// The aggregate leaderboard for one metric: rank every event, sum each
/// competitor's per-event rank numbers (a blank cell contributes zero), and
/// rank the totals by plain numeric order under the same tie rule.
pub fn sum_of_ranks(cubers: &Vec<Cuber>, average: bool) -> (out: Vec<SORRow>)
    requires
        wf_all(cubers@),
        cubers@.len() * EVENT_COUNT <= usize::MAX,
    ensures
        out@.len() == cubers@.len(),
        forall|j: int| 0 <= j < out@.len() ==> sor_row_ok(cubers@, average, #[trigger] out@[j], j),
{
    let n = cubers.len();
    let events = Event::iter();

    let mut cols: Vec<Vec<SORRank>> = Vec::new();
    let mut e: usize = 0;
    while e < EVENT_COUNT
        invariant
            n == cubers@.len(),
            wf_all(cubers@),
            events@ == all_events(),
            0 <= e <= EVENT_COUNT,
            cols@.len() == e,
            forall|q: int| 0 <= q < e ==> (#[trigger] cols@[q])@ == event_cells_spec(
                cubers@,
                all_events()[q],
                average,
            ),
        decreases EVENT_COUNT - e,
    {
        let col = event_cells(cubers, events[e], average);
        cols.push(col);
        e += 1;
    }

    let mut rows: Vec<RankRow<usize>> = Vec::new();
    let mut k: usize = 0;
    while k < n
        invariant
            n == cubers@.len(),
            n * EVENT_COUNT <= usize::MAX,
            cols@.len() == EVENT_COUNT,
            forall|q: int| 0 <= q < EVENT_COUNT ==> (#[trigger] cols@[q])@ == event_cells_spec(
                cubers@,
                all_events()[q],
                average,
            ),
            0 <= k <= n,
            rows@.len() == k,
            forall|q: int| 0 <= q < k ==> rows@[q] == totals_rows_spec(cubers@, average)[q],
        decreases n - k,
    {
        let mut total: usize = 0;
        let mut e2: usize = 0;
        while e2 < EVENT_COUNT
            invariant
                n == cubers@.len(),
                n * EVENT_COUNT <= usize::MAX,
                k < n,
                cols@.len() == EVENT_COUNT,
                forall|q: int| 0 <= q < EVENT_COUNT ==> (#[trigger] cols@[q])@ == event_cells_spec(
                    cubers@,
                    all_events()[q],
                    average,
                ),
                0 <= e2 <= EVENT_COUNT,
                total as int == totals_upto(cubers@, average, k as int, e2 as int),
            decreases EVENT_COUNT - e2,
        {
            proof {
                lemma_totals_upto_bound(cubers@, average, k as int, (e2 + 1) as int);
                lemma_cell_value_bound(cubers@, all_events()[e2 as int], average, k as int);
                assert((e2 + 1) * cubers@.len() <= EVENT_COUNT * cubers@.len()) by (nonlinear_arith)
                    requires
                        0 <= e2 + 1 <= EVENT_COUNT,
                        cubers@.len() >= 0,
                ;
                assert(EVENT_COUNT * cubers@.len() == cubers@.len() * EVENT_COUNT) by (nonlinear_arith);
            }
            let cell = cols[e2][k];
            total = total + cell.get_value();
            e2 += 1;
        }
        rows.push(RankRow { rank: 0, score: total, person: k });
        k += 1;
    }
    proof {
        assert(rows@ =~= totals_rows_spec(cubers@, average));
    }

    rank(&mut rows);
    let ghost trows = totals_rows_spec(cubers@, average);
    let ghost ranked = rank_spec(trows);
    proof {
        lemma_stable_sort_len(trows);
    }

    let mut out: Vec<SORRow> = Vec::new();
    let mut j: usize = 0;
    while j < n
        invariant
            n == cubers@.len(),
            trows == totals_rows_spec(cubers@, average),
            ranked == rank_spec(trows),
            rows@ == ranked,
            ranked.len() == n,
            cols@.len() == EVENT_COUNT,
            forall|q: int| 0 <= q < EVENT_COUNT ==> (#[trigger] cols@[q])@ == event_cells_spec(
                cubers@,
                all_events()[q],
                average,
            ),
            0 <= j <= n,
            out@.len() == j,
            forall|q: int| 0 <= q < j ==> sor_row_ok(cubers@, average, #[trigger] out@[q], q),
        decreases n - j,
    {
        let row = rows[j];
        proof {
            lemma_stable_sort_elements(trows, j as int);
            let sorted = stable_sort(trows);
            assert(ranked[j as int].person == sorted[j as int].person);
            let v = sorted[j as int];
            let q = choose|q: int| 0 <= q < trows.len() && trows[q] == v;
            assert(v.person == q as usize);
            assert(row.person < n);
        }
        let person = row.person;
        let mut rcells: Vec<SORRank> = Vec::new();
        let mut e3: usize = 0;
        while e3 < EVENT_COUNT
            invariant
                n == cubers@.len(),
                person < n,
                cols@.len() == EVENT_COUNT,
                forall|q: int| 0 <= q < EVENT_COUNT ==> (#[trigger] cols@[q])@ == event_cells_spec(
                    cubers@,
                    all_events()[q],
                    average,
                ),
                0 <= e3 <= EVENT_COUNT,
                rcells@.len() == e3,
                forall|q: int| 0 <= q < e3 ==> rcells@[q] == event_cells_spec(
                    cubers@,
                    all_events()[q],
                    average,
                )[person as int],
            decreases EVENT_COUNT - e3,
        {
            let cell = cols[e3][person];
            rcells.push(cell);
            e3 += 1;
        }
        proof {
            assert(rcells@ =~= Seq::new(
                EVENT_COUNT as nat,
                |e: int| event_cells_spec(cubers@, all_events()[e], average)[ranked[j as int].person as int],
            ));
        }
        out.push(SORRow { rank: row.rank, total: row.score, person: row.person, cells: rcells });
        j += 1;
    }
    out
}

/// The rows of a ranked leaderboard whose scores are valid, in ranked order:
/// what a per-event report presents.
pub open spec fn valid_only(s: Seq<RankRow<ResultValue>>) -> Seq<RankRow<ResultValue>>
    decreases s.len(),
{
    if s.len() == 0 {
        Seq::empty()
    } else if crate::result_value::valid_spec(s.last().score) {
        valid_only(s.drop_last()).push(s.last())
    } else {
        valid_only(s.drop_last())
    }
}

/// Keep only the rows holding a valid score.
pub fn valid_rows(rows: &Vec<RankRow<ResultValue>>) -> (out: Vec<RankRow<ResultValue>>)
    ensures
        out@ == valid_only(rows@),
{
    let mut out: Vec<RankRow<ResultValue>> = Vec::new();
    let n = rows.len();
    proof {
        assert(rows@.take(0) =~= Seq::<RankRow<ResultValue>>::empty());
    }
    let mut i: usize = 0;
    while i < n
        invariant
            n == rows@.len(),
            0 <= i <= n,
            out@ == valid_only(rows@.take(i as int)),
        decreases n - i,
    {
        let row = rows[i];
        if row.score.valid() {
            out.push(row);
        }
        proof {
            assert(rows@.take(i + 1).drop_last() =~= rows@.take(i as int));
            assert(rows@.take(i + 1).last() == rows@[i as int]);
        }
        i += 1;
    }
    proof {
        assert(rows@.take(n as int) =~= rows@);
    }
    out
}

/// Average suppression: in the average metric, the multi-attempt event's
/// cell is blank and contributes zero to every competitor's total, whatever
/// their results.
pub proof fn lemma_average_multi_blank(cs: Seq<Cuber>, k: int)
    requires
        0 <= k < cs.len(),
    ensures
        event_cells_spec(cs, Event::_3mbld, true)[k] == SORRank::Blank,
        event_cells_spec(cs, Event::_3mbld, true)[k].value_spec() == 0,
{
}

} // verus!
