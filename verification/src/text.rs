//! Text utilities: string equality over character views, and decimal integer
//! parsing with an exact specification of which strings denote which values.

use vstd::prelude::*;
use vstd::string::StrSliceExecFns;

verus! {

/// Character-for-character string equality.
pub fn str_eq(a: &str, b: &str) -> (r: bool)
    ensures
        r == (a@ == b@),
{
    let an = a.unicode_len();
    let bn = b.unicode_len();
    if an != bn {
        return false;
    }
    let mut i: usize = 0;
    while i < an
        invariant
            an == a@.len(),
            an == b@.len(),
            0 <= i <= an,
            forall|k: int| 0 <= k < i ==> a@[k] == b@[k],
        decreases an - i,
    {
        if a.get_char(i) != b.get_char(i) {
            return false;
        }
        i += 1;
    }
    proof {
        assert(a@ =~= b@);
    }
    true
}

/// A decimal digit character, the only digits `str::parse` accepts.
pub open spec fn is_digit(c: char) -> bool {
    48 <= c as u32 && c as u32 <= 57
}

/// Numeric value of one decimal digit character.
pub open spec fn digit_val(c: char) -> int {
    c as u32 - 48
}

pub open spec fn all_digits(s: Seq<char>) -> bool {
    forall|i: int| 0 <= i < s.len() ==> is_digit(#[trigger] s[i])
}

/// Value of a digit string read most-significant digit first.
pub open spec fn digits_value(s: Seq<char>) -> int
    decreases s.len(),
{
    if s.len() == 0 {
        0
    } else {
        10 * digits_value(s.drop_last()) + digit_val(s.last())
    }
}

/// The integer denoted by `s`, when `s` is an optional sign (`+` or `-`)
/// followed by one or more decimal digits; `None` otherwise.
pub open spec fn int_literal(s: Seq<char>) -> Option<int> {
    let body = if s.len() > 0 && (s[0] == '-' || s[0] == '+') {
        s.drop_first()
    } else {
        s
    };
    if body.len() > 0 && all_digits(body) {
        if s.len() > 0 && s[0] == '-' {
            Some(-digits_value(body))
        } else {
            Some(digits_value(body))
        }
    } else {
        None
    }
}

/// What `str::parse::<i64>` returns on `s`: the denoted integer when there is
/// one and it fits in `i64`, and `None` otherwise.
pub open spec fn parse_i64_spec(s: Seq<char>) -> Option<i64> {
    match int_literal(s) {
        Some(v) => if i64::MIN <= v && v <= i64::MAX {
            Some(v as i64)
        } else {
            None
        },
        None => None,
    }
}

proof fn lemma_digits_value_nonneg(s: Seq<char>)
    requires
        all_digits(s),
    ensures
        digits_value(s) >= 0,
    decreases s.len(),
{
    if s.len() > 0 {
        assert(all_digits(s.drop_last())) by {
            assert(forall|i: int| 0 <= i < s.len() - 1 ==> s.drop_last()[i] == s[i]);
        }
        lemma_digits_value_nonneg(s.drop_last());
    }
}

/// Appending digits to a digit string never lowers its value.
proof fn lemma_digits_value_prefix(s: Seq<char>, k: int)
    requires
        0 <= k <= s.len(),
        all_digits(s.take(k)),
        forall|i: int| k <= i < s.len() ==> is_digit(#[trigger] s[i]),
    ensures
        digits_value(s) >= digits_value(s.take(k)),
    decreases s.len() - k,
{
    lemma_digits_value_nonneg(s.take(k));
    if s.len() > k {
        assert(s.drop_last().take(k) =~= s.take(k));
        lemma_digits_value_prefix(s.drop_last(), k);
        assert(digits_value(s) == 10 * digits_value(s.drop_last()) + digit_val(s.last()));
    } else {
        assert(s.take(k) =~= s);
    }
}

pub open spec fn clamp_len(s: Seq<char>, i: int) -> int {
    if i <= s.len() {
        i
    } else {
        s.len() as int
    }
}

/// The characters of `s` in positions `from..to`, with both ends clamped to
/// the string's length: a fixed-width field read from a possibly short record.
pub open spec fn field(s: Seq<char>, from: int, to: int) -> Seq<char>
    recommends
        0 <= from <= to,
{
    s.subrange(clamp_len(s, from), clamp_len(s, to))
}

pub open spec fn pow10(n: nat) -> int
    decreases n,
{
    if n == 0 {
        1
    } else {
        10 * pow10((n - 1) as nat)
    }
}

proof fn lemma_pow10_positive(n: nat)
    ensures
        pow10(n) >= 1,
    decreases n,
{
    if n > 0 {
        lemma_pow10_positive((n - 1) as nat);
    }
}

pub proof fn lemma_pow10_mono(a: nat, b: nat)
    requires
        a <= b,
    ensures
        pow10(a) <= pow10(b),
    decreases b,
{
    if a < b {
        lemma_pow10_mono(a, (b - 1) as nat);
        lemma_pow10_positive((b - 1) as nat);
    }
}

proof fn lemma_digits_value_upper(s: Seq<char>)
    requires
        all_digits(s),
    ensures
        digits_value(s) < pow10(s.len()),
    decreases s.len(),
{
    if s.len() > 0 {
        assert(all_digits(s.drop_last())) by {
            assert(forall|i: int| 0 <= i < s.len() - 1 ==> s.drop_last()[i] == s[i]);
        }
        lemma_digits_value_upper(s.drop_last());
        assert(digit_val(s.last()) <= 9);
    }
}

/// A string of `n` characters cannot denote an integer of magnitude
/// `pow10(n)` or more.
pub proof fn lemma_parse_i64_range_bound(s: Seq<char>)
    ensures
        parse_i64_spec(s) is Some ==> -pow10(s.len()) < parse_i64_spec(s).unwrap() < pow10(
            s.len(),
        ),
{
    if parse_i64_spec(s) is Some {
        let body = if s.len() > 0 && (s[0] == '-' || s[0] == '+') {
            s.drop_first()
        } else {
            s
        };
        lemma_digits_value_upper(body);
        lemma_digits_value_nonneg(body);
        lemma_pow10_mono(body.len(), s.len());
    }
}

/// Parse the characters of `s` in positions `from..to` as `str::parse::<i64>`
/// would parse that substring.
pub fn parse_i64_range(s: &str, from: usize, to: usize) -> (r: Option<i64>)
    requires
        from <= to <= s@.len(),
    ensures
        r == parse_i64_spec(s@.subrange(from as int, to as int)),
{
    let ghost sub = s@.subrange(from as int, to as int);
    if from == to {
        return None;
    }
    let c0 = s.get_char(from);
    let mut neg = false;
    let mut start = from;
    if c0 == '-' {
        neg = true;
        start = from + 1;
    } else if c0 == '+' {
        start = from + 1;
    }
    let ghost body = if c0 == '-' || c0 == '+' {
        sub.drop_first()
    } else {
        sub
    };
    proof {
        assert(body =~= s@.subrange(start as int, to as int));
    }
    if start == to {
        // a sign with no digits after it
        return None;
    }
    let mut mag: u64 = 0;
    let mut j = start;
    while j < to
        invariant
            from <= start <= j <= to <= s@.len(),
            body == s@.subrange(start as int, to as int),
            sub == s@.subrange(from as int, to as int),
            body.len() == to - start,
            int_literal(sub) == if body.len() > 0 && all_digits(body) {
                if neg {
                    Some(-digits_value(body))
                } else {
                    Some(digits_value(body))
                }
            } else {
                None::<int>
            },
            all_digits(body.take(j - start)),
            mag == digits_value(body.take(j - start)),
            mag <= 9223372036854775808u64,
        decreases to - j,
    {
        let c = s.get_char(j);
        let u = c as u32;
        let ghost k = j - start;
        proof {
            assert(body[k] == c);
        }
        if u < 48 || u > 57 {
            proof {
                assert(!is_digit(body[k]));
                assert(!all_digits(body));
            }
            return None;
        }
        let d = (u - 48) as u64;
        proof {
            assert(body.take(k + 1).drop_last() =~= body.take(k));
            assert(body.take(k + 1).last() == body[k]);
            assert(digits_value(body.take(k + 1)) == 10 * mag + digit_val(body[k]));
            assert(all_digits(body.take(k + 1)));
        }
        if mag > 922337203685477580u64 || mag * 10 + d > 9223372036854775808u64 {
            // the value read so far already exceeds the magnitude of any i64
            proof {
                if all_digits(body) {
                    lemma_digits_value_prefix(body, k + 1);
                    assert(digits_value(body) > 9223372036854775808);
                }
            }
            return None;
        }
        mag = mag * 10 + d;
        j += 1;
    }
    proof {
        assert(body.take(to - start) =~= body);
        assert(int_literal(sub) == if neg {
            Some(-digits_value(body))
        } else {
            Some(digits_value(body))
        });
    }
    if neg {
        if mag == 9223372036854775808u64 {
            Some(i64::MIN)
        } else {
            Some(-(mag as i64))
        }
    } else {
        if mag == 9223372036854775808u64 {
            None
        } else {
            Some(mag as i64)
        }
    }
}

/// Parse a whole string as `str::parse::<i64>` does.
pub fn parse_i64(s: &str) -> (r: Option<i64>)
    ensures
        r == parse_i64_spec(s@),
{
    let n = s.unicode_len();
    let r = parse_i64_range(s, 0, n);
    proof {
        assert(s@.subrange(0, s@.len() as int) =~= s@);
    }
    r
}

} // verus!
