//! The tie-aware ranking engine. Sorting is specified as a recursive stable
//! insertion, so the engine's output is pinned to a single mathematical
//! function of its input: determinism and stability are part of the contract
//! rather than side conditions.

use vstd::prelude::*;

verus! {

/// A score that the ranking engine can order: a total, transitive `<=`
/// relation and a validity predicate for shared-last-place marking.
pub trait RankScore: Copy + Sized {
    /// `self` ranks at least as well as `other`.
    spec fn score_le_spec(self, other: Self) -> bool;

    /// Whether this score is a valid achievement (an invalid one tied for
    /// last place marks its row as defaulted).
    spec fn score_valid_spec(self) -> bool;

    /// The order is total.
    proof fn lemma_total(a: Self, b: Self)
        ensures
            a.score_le_spec(b) || b.score_le_spec(a),
    ;

    /// The order is transitive.
    proof fn lemma_trans(a: Self, b: Self, c: Self)
        requires
            a.score_le_spec(b),
            b.score_le_spec(c),
        ensures
            a.score_le_spec(c),
    ;

    fn score_le(&self, other: &Self) -> (r: bool)
        ensures
            r == self.score_le_spec(*other),
    ;

    fn score_valid(&self) -> (r: bool)
        ensures
            r == self.score_valid_spec(),
    ;
}

/// Two scores tie when each ranks at least as well as the other.
pub open spec fn score_eq<S: RankScore>(a: S, b: S) -> bool {
    a.score_le_spec(b) && b.score_le_spec(a)
}

/// One row of a ranking: a score, its assigned 1-based rank, and the owner,
/// identified by its index into the population handed to the engine.
#[derive(Clone, Copy, Debug)]
pub struct RankRow<S> {
    pub rank: usize,
    pub score: S,
    pub person: usize,
}

/// Insert a row into a sorted sequence, after every row whose score ranks at
/// least as well: equal scores keep their input order, which makes the sort
/// stable.
pub open spec fn spec_insert<S: RankScore>(l: Seq<RankRow<S>>, x: RankRow<S>) -> Seq<RankRow<S>>
    decreases l.len(),
{
    if l.len() == 0 {
        seq![x]
    } else if l[0].score.score_le_spec(x.score) {
        seq![l[0]] + spec_insert(l.drop_first(), x)
    } else {
        seq![x] + l
    }
}

/// Stable ascending sort by score, as a left-to-right insertion fold.
pub open spec fn stable_sort<S: RankScore>(s: Seq<RankRow<S>>) -> Seq<RankRow<S>>
    decreases s.len(),
{
    if s.len() == 0 {
        Seq::empty()
    } else {
        spec_insert(stable_sort(s.drop_last()), s.last())
    }
}

/// The 1-based rank of sorted position `i` under the no-retroactive-gap tie
/// rule: a row tied with its predecessor copies the predecessor's rank, and
/// any other row at position `i` gets rank `i + 1`.
pub open spec fn rank_at<S: RankScore>(s: Seq<RankRow<S>>, i: int) -> int
    decreases i,
{
    if i <= 0 {
        1
    } else if score_eq(s[i].score, s[i - 1].score) {
        rank_at(s, i - 1)
    } else {
        i + 1
    }
}

/// Annotate a sorted sequence with its ranks.
pub open spec fn with_ranks<S: RankScore>(s: Seq<RankRow<S>>) -> Seq<RankRow<S>> {
    Seq::new(
        s.len(),
        |i: int| RankRow { rank: rank_at(s, i) as usize, score: s[i].score, person: s[i].person },
    )
}

/// The whole ranking transform: stable sort, then rank assignment. The
/// engine's output equals this function of its input, so for a fixed input
/// order the ranking is deterministic.
pub open spec fn rank_spec<S: RankScore>(s: Seq<RankRow<S>>) -> Seq<RankRow<S>> {
    with_ranks(stable_sort(s))
}

/// Ascending by score, adjacent form.
pub open spec fn sorted_by_score<S: RankScore>(s: Seq<RankRow<S>>) -> bool {
    forall|i: int| 0 <= i < s.len() - 1 ==> #[trigger] s[i].score.score_le_spec(s[i + 1].score)
}

proof fn lemma_insert_len<S: RankScore>(l: Seq<RankRow<S>>, x: RankRow<S>)
    ensures
        spec_insert(l, x).len() == l.len() + 1,
    decreases l.len(),
{
    if l.len() > 0 && l[0].score.score_le_spec(x.score) {
        lemma_insert_len(l.drop_first(), x);
    }
}

pub proof fn lemma_stable_sort_len<S: RankScore>(s: Seq<RankRow<S>>)
    ensures
        stable_sort(s).len() == s.len(),
    decreases s.len(),
{
    if s.len() > 0 {
        lemma_stable_sort_len(s.drop_last());
        lemma_insert_len(stable_sort(s.drop_last()), s.last());
    }
}

/// Inserting at the first position whose row does not rank at least as well
/// as `x` is exactly `spec_insert`.
proof fn lemma_insert_at<S: RankScore>(l: Seq<RankRow<S>>, x: RankRow<S>, p: int)
    requires
        0 <= p <= l.len(),
        forall|q: int| 0 <= q < p ==> #[trigger] l[q].score.score_le_spec(x.score),
        p < l.len() ==> !l[p].score.score_le_spec(x.score),
    ensures
        spec_insert(l, x) == l.subrange(0, p) + seq![x] + l.subrange(p, l.len() as int),
    decreases p,
{
    if p == 0 {
        if l.len() == 0 {
            assert(spec_insert(l, x) =~= l.subrange(0, 0) + seq![x] + l.subrange(0, 0));
        } else {
            assert(spec_insert(l, x) =~= l.subrange(0, 0) + seq![x] + l.subrange(
                0,
                l.len() as int,
            ));
        }
    } else {
        assert(l[0].score.score_le_spec(x.score));
        let rest = l.drop_first();
        assert(forall|q: int| 0 <= q < p - 1 ==> #[trigger] rest[q].score.score_le_spec(x.score));
        lemma_insert_at(rest, x, p - 1);
        assert(spec_insert(l, x) =~= l.subrange(0, p) + seq![x] + l.subrange(p, l.len() as int));
    }
}

proof fn lemma_insert_elements<S: RankScore>(l: Seq<RankRow<S>>, x: RankRow<S>, i: int)
    requires
        0 <= i < spec_insert(l, x).len(),
    ensures
        spec_insert(l, x)[i] == x || l.contains(spec_insert(l, x)[i]),
    decreases l.len(),
{
    if l.len() == 0 {
    } else if l[0].score.score_le_spec(x.score) {
        if i == 0 {
            assert(l.contains(l[0]));
        } else {
            lemma_insert_elements(l.drop_first(), x, i - 1);
            let v = spec_insert(l, x)[i];
            if v != x {
                let m = choose|m: int|
                    0 <= m < l.drop_first().len() && l.drop_first()[m] == v;
                assert(l[m + 1] == v);
                assert(l.contains(v));
            }
        }
    } else {
        if i > 0 {
            assert(l[i - 1] == spec_insert(l, x)[i]);
            assert(l.contains(l[i - 1]));
        }
    }
}

/// Every row of the sorted sequence is a row of the input.
pub proof fn lemma_stable_sort_elements<S: RankScore>(s: Seq<RankRow<S>>, i: int)
    requires
        0 <= i < stable_sort(s).len(),
    ensures
        s.contains(stable_sort(s)[i]),
    decreases s.len(),
{
    if s.len() > 0 {
        let v = stable_sort(s)[i];
        lemma_insert_elements(stable_sort(s.drop_last()), s.last(), i);
        if v == s.last() {
            assert(s[s.len() - 1] == v);
            assert(s.contains(v));
        } else {
            let front = stable_sort(s.drop_last());
            let m = choose|m: int| 0 <= m < front.len() && front[m] == v;
            lemma_stable_sort_elements(s.drop_last(), m);
            let m2 = choose|m2: int|
                0 <= m2 < s.drop_last().len() && s.drop_last()[m2] == v;
            assert(s[m2] == v);
            assert(s.contains(v));
        }
    }
}

/// Ranks are between 1 and the position's 1-based index.
pub proof fn lemma_rank_at_bounds<S: RankScore>(s: Seq<RankRow<S>>, i: int)
    requires
        0 <= i < s.len(),
    ensures
        1 <= rank_at(s, i) <= i + 1,
    decreases i,
{
    if i > 0 && score_eq(s[i].score, s[i - 1].score) {
        lemma_rank_at_bounds(s, i - 1);
    }
}

/// Monotonic ranks: along any rank-annotated sequence, ranks never decrease.
pub proof fn lemma_rank_at_monotonic<S: RankScore>(s: Seq<RankRow<S>>, i: int, j: int)
    requires
        0 <= i <= j < s.len(),
    ensures
        rank_at(s, i) <= rank_at(s, j),
    decreases j - i,
{
    if i < j {
        lemma_rank_at_monotonic(s, i, j - 1);
        lemma_rank_at_bounds(s, j - 1);
    }
}

/// Monotonic ranks, stated of the engine's output: the row at a later
/// position never carries a smaller rank.
pub proof fn lemma_ranks_monotonic<S: RankScore>(s: Seq<RankRow<S>>, i: int, j: int)
    requires
        s.len() <= usize::MAX,
        0 <= i <= j < rank_spec(s).len(),
    ensures
        rank_spec(s)[i].rank <= rank_spec(s)[j].rank,
{
    let t = stable_sort(s);
    lemma_stable_sort_len(t);
    lemma_stable_sort_len(s);
    lemma_rank_at_monotonic(t, i, j);
    lemma_rank_at_bounds(t, i);
    lemma_rank_at_bounds(t, j);
}

/// In a sorted sequence, any earlier score ranks at least as well as any
/// later one.
proof fn lemma_sorted_le<S: RankScore>(s: Seq<RankRow<S>>, i: int, j: int)
    requires
        sorted_by_score(s),
        0 <= i <= j < s.len(),
    ensures
        s[i].score.score_le_spec(s[j].score) || i == j,
    decreases j - i,
{
    if i < j {
        if i == j - 1 {
            assert(s[i].score.score_le_spec(s[i + 1].score));
        } else {
            lemma_sorted_le(s, i, j - 1);
            assert(s[j - 1].score.score_le_spec(s[(j - 1) + 1].score));
            S::lemma_trans(s[i].score, s[j - 1].score, s[j].score);
        }
    }
}

/// The first element of an insertion is the inserted row or the old head.
proof fn lemma_insert_first<S: RankScore>(l: Seq<RankRow<S>>, x: RankRow<S>)
    requires
        l.len() > 0,
    ensures
        spec_insert(l, x)[0] == x || spec_insert(l, x)[0] == l[0],
{
}

proof fn lemma_insert_sorted<S: RankScore>(l: Seq<RankRow<S>>, x: RankRow<S>)
    requires
        sorted_by_score(l),
    ensures
        sorted_by_score(spec_insert(l, x)),
    decreases l.len(),
{
    if l.len() == 0 {
    } else if l[0].score.score_le_spec(x.score) {
        let rest = l.drop_first();
        assert forall|i: int| 0 <= i < rest.len() - 1 implies #[trigger] rest[i].score.score_le_spec(
            rest[i + 1].score,
        ) by {
            assert(rest[i] == l[i + 1]);
            assert(rest[i + 1] == l[(i + 1) + 1]);
            assert(l[i + 1].score.score_le_spec(l[(i + 1) + 1].score));
        }
        lemma_insert_sorted(rest, x);
        lemma_insert_len(rest, x);
        let r = spec_insert(l, x);
        let r2 = spec_insert(rest, x);
        assert(r == seq![l[0]] + r2);
        assert forall|i: int| 0 <= i < r.len() - 1 implies #[trigger] r[i].score.score_le_spec(
            r[i + 1].score,
        ) by {
            if i == 0 {
                assert(r[0] == l[0]);
                assert(r[1] == r2[0]);
                if rest.len() == 0 {
                    assert(r2 =~= seq![x]);
                } else {
                    lemma_insert_first(rest, x);
                    assert(rest[0] == l[1]);
                    assert(l[0].score.score_le_spec(l[1].score));
                }
            } else {
                assert(r[i] == r2[i - 1]);
                assert(r[i + 1] == r2[(i - 1) + 1]);
                assert(r2[i - 1].score.score_le_spec(r2[(i - 1) + 1].score));
            }
        }
    } else {
        S::lemma_total(l[0].score, x.score);
        let r = spec_insert(l, x);
        assert(r == seq![x] + l);
        assert forall|i: int| 0 <= i < r.len() - 1 implies #[trigger] r[i].score.score_le_spec(
            r[i + 1].score,
        ) by {
            if i == 0 {
                assert(r[0] == x);
                assert(r[1] == l[0]);
            } else {
                assert(r[i] == l[i - 1]);
                assert(r[i + 1] == l[(i - 1) + 1]);
                assert(l[i - 1].score.score_le_spec(l[(i - 1) + 1].score));
            }
        }
    }
}

/// The stable sort really sorts.
pub proof fn lemma_stable_sort_sorted<S: RankScore>(s: Seq<RankRow<S>>)
    ensures
        sorted_by_score(stable_sort(s)),
    decreases s.len(),
{
    if s.len() > 0 {
        lemma_stable_sort_sorted(s.drop_last());
        lemma_insert_sorted(stable_sort(s.drop_last()), s.last());
    }
}

/// Sorting an already sorted sequence changes nothing.
proof fn lemma_sort_of_sorted<S: RankScore>(s: Seq<RankRow<S>>)
    requires
        sorted_by_score(s),
    ensures
        stable_sort(s) == s,
    decreases s.len(),
{
    if s.len() > 0 {
        let front = s.drop_last();
        assert(sorted_by_score(front)) by {
            assert(forall|i: int| 0 <= i < front.len() - 1 ==> #[trigger] front[i] == s[i] && front[i
                + 1] == s[i + 1]);
        }
        lemma_sort_of_sorted(front);
        assert forall|q: int| 0 <= q < front.len() implies #[trigger] front[q].score.score_le_spec(
            s.last().score,
        ) by {
            lemma_sorted_le(s, q, s.len() - 1);
        }
        lemma_insert_at(front, s.last(), front.len() as int);
        assert(front.subrange(0, front.len() as int) + seq![s.last()] + front.subrange(
            front.len() as int,
            front.len() as int,
        ) =~= s);
    }
}

/// Rank assignment depends on scores alone.
proof fn lemma_rank_at_same_scores<S: RankScore>(a: Seq<RankRow<S>>, b: Seq<RankRow<S>>, i: int)
    requires
        a.len() == b.len(),
        forall|k: int| 0 <= k < a.len() ==> #[trigger] a[k].score == b[k].score,
        0 <= i < a.len(),
    ensures
        rank_at(a, i) == rank_at(b, i),
    decreases i,
{
    if i > 0 && score_eq(a[i].score, a[i - 1].score) {
        lemma_rank_at_same_scores(a, b, i - 1);
    }
}

/// Determinism under repetition: ranking an already ranked sequence returns
/// it unchanged, so ranking twice assigns the same ranks as ranking once.
pub proof fn lemma_rank_idempotent<S: RankScore>(s: Seq<RankRow<S>>)
    ensures
        rank_spec(rank_spec(s)) == rank_spec(s),
{
    let t = stable_sort(s);
    lemma_stable_sort_sorted(s);
    let w = with_ranks(t);
    assert(sorted_by_score(w)) by {
        assert(forall|i: int| 0 <= i < w.len() - 1 ==> #[trigger] w[i].score == t[i].score && w[i
            + 1].score == t[i + 1].score);
    }
    lemma_sort_of_sorted(w);
    assert forall|i: int| 0 <= i < w.len() implies #[trigger] with_ranks(w)[i] == w[i] by {
        lemma_rank_at_same_scores(w, t, i);
    }
    assert(with_ranks(w) =~= w);
}

/// What the engine ranks, with the rank annotation ignored: each row's score
/// and owner.
pub open spec fn score_pairs<S>(s: Seq<RankRow<S>>) -> Seq<(S, usize)> {
    Seq::new(s.len(), |i: int| (s[i].score, s[i].person))
}

proof fn lemma_insert_multiset<S: RankScore>(l: Seq<RankRow<S>>, x: RankRow<S>)
    ensures
        score_pairs(spec_insert(l, x)).to_multiset() == score_pairs(l).to_multiset().insert(
            (x.score, x.person),
        ),
    decreases l.len(),
{
    broadcast use vstd::seq_lib::group_to_multiset_ensures;

    let px = (x.score, x.person);
    if l.len() == 0 {
        assert(score_pairs(spec_insert(l, x)) =~= Seq::<(S, usize)>::empty().push(px));
        assert(score_pairs(l) =~= Seq::<(S, usize)>::empty());
    } else if l[0].score.score_le_spec(x.score) {
        let rest = l.drop_first();
        let p0 = (l[0].score, l[0].person);
        lemma_insert_multiset(rest, x);
        lemma_insert_len(rest, x);
        let r2 = score_pairs(spec_insert(rest, x));
        assert(score_pairs(spec_insert(l, x)) =~= seq![p0] + r2);
        vstd::seq_lib::lemma_multiset_commutative(seq![p0], r2);
        assert(r2 + seq![p0] =~= r2.push(p0));
        assert(score_pairs(l) =~= seq![p0] + score_pairs(rest));
        vstd::seq_lib::lemma_multiset_commutative(seq![p0], score_pairs(rest));
        assert(score_pairs(rest) + seq![p0] =~= score_pairs(rest).push(p0));
        assert(score_pairs(rest).to_multiset().insert(px).insert(p0)
            =~= score_pairs(rest).to_multiset().insert(p0).insert(px));
    } else {
        assert(score_pairs(spec_insert(l, x)) =~= seq![px] + score_pairs(l));
        vstd::seq_lib::lemma_multiset_commutative(seq![px], score_pairs(l));
        assert(score_pairs(l) + seq![px] =~= score_pairs(l).push(px));
    }
}

/// The engine hands back the rows it was given: the multiset of
/// (score, owner) pairs is unchanged by ranking; only the rank annotations
/// differ.
pub proof fn lemma_rank_spec_permutes<S: RankScore>(s: Seq<RankRow<S>>)
    ensures
        score_pairs(rank_spec(s)).to_multiset() == score_pairs(s).to_multiset(),
    decreases s.len(),
{
    broadcast use vstd::seq_lib::group_to_multiset_ensures;

    assert(score_pairs(with_ranks(stable_sort(s))) =~= score_pairs(stable_sort(s)));
    lemma_stable_sort_multiset(s);
}

proof fn lemma_stable_sort_multiset<S: RankScore>(s: Seq<RankRow<S>>)
    ensures
        score_pairs(stable_sort(s)).to_multiset() == score_pairs(s).to_multiset(),
    decreases s.len(),
{
    broadcast use vstd::seq_lib::group_to_multiset_ensures;

    if s.len() > 0 {
        let front = s.drop_last();
        let plast = (s.last().score, s.last().person);
        lemma_stable_sort_multiset(front);
        lemma_insert_multiset(stable_sort(front), s.last());
        assert(score_pairs(s) =~= score_pairs(front).push(plast));
    }
}

/// Rank the rows: stable sort ascending by score, then assign 1-based ranks
/// under the no-retroactive-gap tie rule. The output is exactly
/// `rank_spec` of the input.
pub fn rank<S: RankScore>(rows: &mut Vec<RankRow<S>>)
    ensures
        final(rows)@ == rank_spec(old(rows)@),
{
    let n = rows.len();
    let mut sorted_rows: Vec<RankRow<S>> = Vec::new();
    proof {
        assert(rows@.take(0) =~= Seq::<RankRow<S>>::empty());
    }
    let mut i: usize = 0;
    while i < n
        invariant
            rows@ == old(rows)@,
            n == rows@.len(),
            0 <= i <= n,
            sorted_rows@ == stable_sort(rows@.take(i as int)),
        decreases n - i,
    {
        let x = rows[i];
        let ghost l = sorted_rows@;
        let mut p: usize = 0;
        while p < sorted_rows.len() && sorted_rows[p].score.score_le(&x.score)
            invariant
                sorted_rows@ == l,
                0 <= p <= l.len(),
                forall|q: int| 0 <= q < p ==> #[trigger] l[q].score.score_le_spec(x.score),
            decreases l.len() - p,
        {
            p += 1;
        }
        sorted_rows.insert(p, x);
        proof {
            lemma_insert_at(l, x, p as int);
            assert(sorted_rows@ =~= spec_insert(l, x));
            assert(rows@.take(i + 1).drop_last() =~= rows@.take(i as int));
            assert(rows@.take(i + 1).last() == rows@[i as int]);
        }
        i += 1;
    }
    proof {
        assert(rows@.take(n as int) =~= rows@);
        lemma_stable_sort_len(rows@);
    }
    let ghost t = stable_sort(old(rows)@);
    let mut out: Vec<RankRow<S>> = Vec::new();
    let mut j: usize = 0;
    while j < n
        invariant
            n == sorted_rows@.len(),
            sorted_rows@ == t,
            0 <= j <= n,
            out@.len() == j,
            forall|k: int| 0 <= k < j ==> #[trigger] out@[k] == with_ranks(t)[k],
        decreases n - j,
    {
        let row = sorted_rows[j];
        let tied = if j > 0 {
            let prev = sorted_rows[j - 1];
            prev.score.score_le(&row.score) && row.score.score_le(&prev.score)
        } else {
            false
        };
        let rk: usize = if tied {
            out[j - 1].rank
        } else {
            j + 1
        };
        proof {
            lemma_rank_at_bounds(t, j as int);
            if j > 0 {
                lemma_rank_at_bounds(t, j - 1 as int);
            }
        }
        out.push(RankRow { rank: rk, score: row.score, person: row.person });
        j += 1;
    }
    proof {
        assert(out@ =~= with_ranks(t));
    }
    *rows = out;
}

impl RankScore for usize {
    /// Plain numeric order: a smaller aggregate total is better.
    open spec fn score_le_spec(self, other: Self) -> bool {
        self <= other
    }

    /// An aggregate total is always a valid score.
    open spec fn score_valid_spec(self) -> bool {
        true
    }

    proof fn lemma_total(a: Self, b: Self) {
    }

    proof fn lemma_trans(a: Self, b: Self, c: Self) {
    }

    fn score_le(&self, other: &Self) -> (r: bool) {
        *self <= *other
    }

    fn score_valid(&self) -> (r: bool) {
        true
    }
}

/// Shared-last-place marking: a row is default-marked when its rank equals
/// the final (worst) row's rank and its score is invalid, distinguishing
/// competitors tied for last with no valid result from competitors genuinely
/// tied for last.
pub open spec fn default_marked_spec<S: RankScore>(s: Seq<RankRow<S>>, i: int) -> bool {
    s.len() > 0 && s[i].rank == s[s.len() - 1].rank && !s[i].score.score_valid_spec()
}

/// Whether the ranked row at position `i` is default-marked.
pub fn default_marked<S: RankScore>(rows: &Vec<RankRow<S>>, i: usize) -> (r: bool)
    requires
        i < rows@.len(),
    ensures
        r == default_marked_spec(rows@, i as int),
{
    let last = rows.len() - 1;
    rows[i].rank == rows[last].rank && !rows[i].score.score_valid()
}

} // verus!
