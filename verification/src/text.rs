use vstd::prelude::*;
use vstd::arithmetic::mul::{
    lemma_mul_nonnegative, lemma_mul_upper_bound, lemma_mul_inequality, lemma_mul_is_commutative,
    lemma_mul_is_associative, lemma_mul_is_distributive_add_other_way,
    lemma_mul_is_distributive_sub,
};
use crate::sample::{Timestamp, MAX_SCALED};

verus! {

pub open spec fn is_digit(c: char) -> bool {
    '0' <= c && c <= '9'
}

pub open spec fn digit_val(c: char) -> int {
    (c as u32) as int - 48
}

pub open spec fn spec_pow10(e: int) -> int
    decreases e,
{
    if e <= 0 {
        1
    } else {
        10 * spec_pow10(e - 1)
    }
}

proof fn lemma_pow10_pos(e: int)
    ensures
        spec_pow10(e) >= 1,
    decreases e,
{
    if e > 0 {
        lemma_pow10_pos(e - 1);
    }
}

proof fn lemma_pow10_mono(a: int, b: int)
    requires
        a <= b,
    ensures
        spec_pow10(a) <= spec_pow10(b),
    decreases b,
{
    if a < b && b > 0 {
        lemma_pow10_mono(a, b - 1);
        lemma_pow10_pos(b - 1);
    }
}

proof fn lemma_pow10_concrete()
    ensures
        spec_pow10(0) == 1,
        spec_pow10(3) == 1_000,
        spec_pow10(4) == 10_000,
        spec_pow10(5) == 100_000,
        spec_pow10(6) == 1_000_000,
        spec_pow10(8) == 100_000_000,
        spec_pow10(9) == 1_000_000_000,
{
    reveal_with_fuel(spec_pow10, 11);
}

/// Value of the decimal digits at positions [start, end) of s.
pub open spec fn digits_val(s: Seq<char>, start: int, end: int) -> int
    decreases end - start,
{
    if start >= end {
        0
    } else {
        digits_val(s, start, end - 1) * 10 + digit_val(s[end - 1])
    }
}

pub open spec fn all_digits(s: Seq<char>, start: int, end: int) -> bool {
    forall|j: int| start <= j < end ==> is_digit(#[trigger] s[j])
}

/// Index of the first dot at or after position i, or the length.
pub open spec fn spec_find_dot(s: Seq<char>, i: int) -> int
    decreases s.len() - i,
{
    if i < 0 || i >= s.len() {
        s.len() as int
    } else if s[i] == '.' {
        i
    } else {
        spec_find_dot(s, i + 1)
    }
}

/// Value of the fraction digits starting at position p, padded with
/// zeros on the right to exactly `frac` digits; digits past `frac`
/// are truncated.
pub open spec fn frac_val(s: Seq<char>, p: int, frac: int) -> int
    decreases frac,
{
    if frac <= 0 {
        0
    } else {
        (if 0 <= p < s.len() {
            digit_val(s[p])
        } else {
            0
        }) * spec_pow10(frac - 1) + frac_val(s, p + 1, frac - 1)
    }
}

/// A signed decimal numeral scaled to an integer with `frac` decimal
/// digits: an optional sign, one to nine integer digits, and an
/// optional dot with any run of fraction digits, truncated past
/// `frac`. Anything else is rejected.
pub open spec fn spec_sign_start(s: Seq<char>) -> int {
    if s.len() > 0 && (s[0] == '-' || s[0] == '+') {
        1
    } else {
        0
    }
}

pub open spec fn spec_is_neg(s: Seq<char>) -> bool {
    s.len() > 0 && s[0] == '-'
}

pub open spec fn spec_parse_scaled(s: Seq<char>, frac: int) -> Option<int> {
    let n = s.len() as int;
    let start: int = spec_sign_start(s);
    let neg = spec_is_neg(s);
    let dot = spec_find_dot(s, start);
    if 1 <= dot - start <= 9 && all_digits(s, start, dot) && all_digits(s, dot + 1, n) {
        let v = digits_val(s, start, dot) * spec_pow10(frac) + frac_val(s, dot + 1, frac);
        Some(
            if neg {
                -v
            } else {
                v
            },
        )
    } else {
        None
    }
}

pub proof fn lemma_digits_val_bound(s: Seq<char>, start: int, end: int)
    requires
        all_digits(s, start, end),
    ensures
        0 <= digits_val(s, start, end) < spec_pow10(end - start),
    decreases end - start,
{
    if start < end {
        lemma_digits_val_bound(s, start, end - 1);
    } else {
        lemma_pow10_pos(end - start);
    }
}

proof fn lemma_find_dot_at(s: Seq<char>, a: int, i: int)
    requires
        0 <= a <= i <= s.len(),
        forall|j: int| a <= j < i ==> #[trigger] s[j] != '.',
        i == s.len() || s[i] == '.',
    ensures
        spec_find_dot(s, a) == i,
    decreases i - a,
{
    if a < i {
        lemma_find_dot_at(s, a + 1, i);
    }
}

proof fn lemma_pow10_adds(a: int, b: int)
    requires
        a >= 0,
        b >= 0,
    ensures
        spec_pow10(a) * spec_pow10(b) == spec_pow10(a + b),
    decreases a,
{
    if a == 0 {
    } else {
        lemma_pow10_adds(a - 1, b);
        lemma_mul_is_associative(10, spec_pow10(a - 1), spec_pow10(b));
    }
}

/// A digit run read from the front: the leading digit carries the
/// highest power.
proof fn lemma_digits_val_peel(s: Seq<char>, a: int, b: int)
    requires
        0 <= a < b <= s.len(),
    ensures
        digits_val(s, a, b) == digit_val(s[a]) * spec_pow10(b - a - 1) + digits_val(s, a + 1, b),
    decreases b - a,
{
    if a + 1 == b {
        assert(spec_pow10(0) == 1);
        assert(digits_val(s, a, a) == 0);
        assert(digits_val(s, a + 1, b) == 0);
    } else {
        lemma_digits_val_peel(s, a, b - 1);
        assert(digits_val(s, a, b) == digits_val(s, a, b - 1) * 10 + digit_val(s[b - 1]));
        assert(digits_val(s, a + 1, b) == digits_val(s, a + 1, b - 1) * 10 + digit_val(s[b - 1]));
        assert(spec_pow10(b - a - 1) == 10 * spec_pow10(b - a - 2));
        assert((digit_val(s[a]) * spec_pow10(b - a - 2) + digits_val(s, a + 1, b - 1)) * 10
            == digit_val(s[a]) * (10 * spec_pow10(b - a - 2)) + digits_val(s, a + 1, b - 1)
            * 10) by (nonlinear_arith);
    }
}

/// After the first `taken` fraction digits the remainder of the field
/// is only padding: the accumulated prefix carries the whole value.
proof fn lemma_frac_val_split(s: Seq<char>, p: int, frac: int, taken: int)
    requires
        0 <= p,
        0 <= taken <= frac,
        p + taken <= s.len(),
        taken == frac || p + taken == s.len(),
    ensures
        frac_val(s, p, frac) == digits_val(s, p, p + taken) * spec_pow10(frac - taken),
    decreases taken,
{
    if taken == 0 {
        lemma_frac_val_empty(s, p, frac);
    } else {
        lemma_frac_val_split(s, p + 1, frac - 1, taken - 1);
        lemma_digits_val_peel(s, p, p + taken);
        lemma_mul_is_distributive_add_other_way(
            spec_pow10(frac - taken),
            digit_val(s[p]) * spec_pow10(taken - 1),
            digits_val(s, p + 1, p + taken),
        );
        lemma_mul_is_associative(digit_val(s[p]), spec_pow10(taken - 1), spec_pow10(frac - taken));
        lemma_pow10_adds(taken - 1, frac - taken);
    }
}

/// Past the end of the text every fraction slot is zero.
proof fn lemma_frac_val_empty(s: Seq<char>, p: int, frac: int)
    requires
        p >= s.len() || frac <= 0,
    ensures
        frac_val(s, p, frac) == 0,
    decreases frac,
{
    if frac > 0 {
        lemma_frac_val_empty(s, p + 1, frac - 1);
    }
}

/// No dot stands before the first dot.
proof fn lemma_find_dot_order(s: Seq<char>, a: int, i: int)
    requires
        0 <= a <= i <= s.len(),
        forall|j: int| a <= j < i ==> #[trigger] s[j] != '.',
    ensures
        spec_find_dot(s, a) >= i,
    decreases i - a,
{
    lemma_find_dot_props(s, a);
    if a < i {
        lemma_find_dot_order(s, a + 1, i);
    }
}

/// The first dot is a dot, where it lies inside the text.
proof fn lemma_find_dot_props(s: Seq<char>, a: int)
    requires
        0 <= a <= s.len(),
    ensures
        a <= spec_find_dot(s, a) <= s.len(),
        spec_find_dot(s, a) < s.len() ==> s[spec_find_dot(s, a)] == '.',
    decreases s.len() - a,
{
    if a < s.len() && s[a] != '.' {
        lemma_find_dot_props(s, a + 1);
    }
}

fn pow10_u64(e: usize) -> (r: u64)
    requires
        e <= 9,
    ensures
        r == spec_pow10(e as int),
        1 <= r <= 1_000_000_000,
{
    let mut r: u64 = 1;
    let mut k: usize = 0;
    while k < e
        invariant
            k <= e <= 9,
            r == spec_pow10(k as int),
            1 <= r,
        decreases e - k,
    {
        proof {
            lemma_pow10_mono(k as int, 8);
            lemma_pow10_concrete();
        }
        r = r * 10;
        k = k + 1;
    }
    proof {
        lemma_pow10_mono(k as int, 9);
        lemma_pow10_concrete();
    }
    r
}

fn digit_of(c: char) -> (r: Option<u64>)
    ensures
        r is Some <==> is_digit(c),
        r is Some ==> r.unwrap() == digit_val(c) && r.unwrap() <= 9,
{
    if c >= '0' && c <= '9' {
        Some((c as u32 - '0' as u32) as u64)
    } else {
        None
    }
}

/// Parses a signed decimal numeral into an integer scaled by ten to
/// the `frac`: millimeters from meters at three, microdegrees from
/// degrees at six. Truncates extra fraction digits; rejects more than
/// nine integer digits, an empty integer part, and any stray
/// character.
#[verifier::rlimit(50)]
pub fn parse_scaled(s: &str, frac: usize) -> (r: Option<i64>)
    requires
        frac <= 6,
    ensures
        r is Some <==> spec_parse_scaled(s@, frac as int) is Some,
        r is Some ==> r.unwrap() == spec_parse_scaled(s@, frac as int).unwrap(),
        r is Some ==> -MAX_SCALED <= r.unwrap() <= MAX_SCALED,
{
    let n = s.unicode_len();
    let ghost gs = s@;
    let mut start: usize = 0;
    let mut neg = false;
    if n > 0 {
        let c0 = s.get_char(0);
        if c0 == '-' {
            neg = true;
            start = 1;
        } else if c0 == '+' {
            start = 1;
        }
    }
    let mut i = start;
    let mut ival: u64 = 0;
    loop
        invariant
            start <= i <= n,
            n == gs.len(),
            gs == s@,
            frac <= 6,
            start == spec_sign_start(gs),
            neg == spec_is_neg(gs),
            i - start <= 9,
            forall|j: int| start <= j < i ==> #[trigger] gs[j] != '.',
            all_digits(gs, start as int, i as int),
            ival == digits_val(gs, start as int, i as int),
            ival < 1_000_000_000,
        ensures
            start <= i <= n,
            i - start <= 9,
            forall|j: int| start <= j < i ==> #[trigger] gs[j] != '.',
            all_digits(gs, start as int, i as int),
            ival == digits_val(gs, start as int, i as int),
            ival < 1_000_000_000,
            i == n || gs[i as int] == '.',
        decreases n - i,
    {
        if i == n {
            break ;
        }
        let c = s.get_char(i);
        if c == '.' {
            break ;
        }
        let d = match digit_of(c) {
            Some(d) => d,
            None => {
                proof {
                    lemma_find_dot_order(gs, start as int, i as int);
                    lemma_find_dot_props(gs, start as int);
                    let dot = spec_find_dot(gs, start as int);
                    assert(dot > i);
                    assert(!all_digits(gs, start as int, dot)) by {
                        assert(!is_digit(gs[i as int]));
                    }
                }
                return None;
            },
        };
        if i - start >= 9 {
            proof {
                lemma_find_dot_order(gs, start as int, i as int);
                lemma_find_dot_props(gs, start as int);
                let dot = spec_find_dot(gs, start as int);
                assert(dot > i);
            }
            return None;
        }
        proof {
            lemma_digits_val_bound(gs, start as int, i as int);
            lemma_pow10_mono(i - start, 8);
            lemma_pow10_concrete();
        }
        ival = ival * 10 + d;
        i = i + 1;
    }
    proof {
        lemma_find_dot_at(gs, start as int, i as int);
    }
    if i == start {
        return None;
    }
    let dot = i;
    let mut fval: u64 = 0;
    let mut taken: usize = 0;
    if dot < n {
        let mut j = dot + 1;
        while j < n
            invariant
                dot < j <= n,
                n == gs.len(),
                gs == s@,
                frac <= 6,
                start == spec_sign_start(gs),
                start <= dot,
                spec_find_dot(gs, start as int) == dot,
                taken == if j - (dot + 1) <= frac {
                    j - (dot + 1)
                } else {
                    frac as int
                },
                all_digits(gs, dot + 1, j as int),
                fval == digits_val(gs, dot + 1, dot + 1 + taken),
                fval < spec_pow10(taken as int),
            decreases n - j,
        {
            let c = s.get_char(j);
            let d = match digit_of(c) {
                Some(d) => d,
                None => {
                    proof {
                        assert(!all_digits(gs, dot + 1, n as int)) by {
                            assert(!is_digit(gs[j as int]));
                        }
                    }
                    return None;
                },
            };
            if taken < frac {
                proof {
                    lemma_pow10_mono(taken as int, 5);
                    lemma_pow10_concrete();
                    assert(j == dot + 1 + taken);
                }
                fval = fval * 10 + d;
                taken = taken + 1;
            }
            j = j + 1;
        }
    }
    let scale = pow10_u64(frac);
    let pad = pow10_u64(frac - taken);
    proof {
        lemma_pow10_mono(frac as int, 6);
        lemma_pow10_mono((frac - taken) as int, 6);
        lemma_pow10_concrete();
        lemma_digits_val_bound(gs, start as int, dot as int);
        if dot < n {
            lemma_frac_val_split(gs, dot + 1, frac as int, taken as int);
        } else {
            lemma_frac_val_empty(gs, dot + 1, frac as int);
        }
        lemma_mul_upper_bound(ival as int, 999_999_999, scale as int, 1_000_000);
        lemma_mul_nonnegative(ival as int, scale as int);
        lemma_mul_nonnegative(fval as int, pad as int);
        // fval * pad < the full fraction scale
        lemma_mul_inequality(fval as int, spec_pow10(taken as int) - 1, pad as int);
        lemma_mul_is_distributive_sub(pad as int, spec_pow10(taken as int), 1);
        lemma_mul_is_commutative(pad as int, spec_pow10(taken as int));
        lemma_pow10_adds(taken as int, (frac - taken) as int);
    }
    let v: u64 = ival * scale + fval * pad;
    if neg {
        Some(-(v as i64))
    } else {
        Some(v as i64)
    }
}

/// The fixed `YYYY-MM-DDTHH:MM:SS` form of a GPX time element: exactly
/// nineteen characters, all-digit fields, dashes, a literal T and
/// colons, and every field within its calendar range.
pub open spec fn spec_parse_time(s: Seq<char>) -> Option<Timestamp> {
    if s.len() == 19 && all_digits(s, 0, 4) && s[4] == '-' && all_digits(s, 5, 7) && s[7] == '-'
        && all_digits(s, 8, 10) && s[10] == 'T' && all_digits(s, 11, 13) && s[13] == ':'
        && all_digits(s, 14, 16) && s[16] == ':' && all_digits(s, 17, 19) {
        let t = Timestamp {
            year: digits_val(s, 0, 4) as u64,
            month: digits_val(s, 5, 7) as u64,
            day: digits_val(s, 8, 10) as u64,
            hour: digits_val(s, 11, 13) as u64,
            minute: digits_val(s, 14, 16) as u64,
            second: digits_val(s, 17, 19) as u64,
        };
        if t.wf() {
            Some(t)
        } else {
            None
        }
    } else {
        None
    }
}

fn field_val(s: &str, a: usize, b: usize) -> (r: Option<u64>)
    requires
        a <= b <= s@.len(),
        b - a <= 4,
    ensures
        r is Some <==> all_digits(s@, a as int, b as int),
        r is Some ==> r.unwrap() == digits_val(s@, a as int, b as int) && r.unwrap() <= 9999,
{
    let mut i = a;
    let mut v: u64 = 0;
    while i < b
        invariant
            a <= i <= b <= s@.len(),
            b - a <= 4,
            all_digits(s@, a as int, i as int),
            v == digits_val(s@, a as int, i as int),
            v <= 9999,
        decreases b - i,
    {
        let d = match digit_of(s.get_char(i)) {
            Some(d) => d,
            None => {
                proof {
                    assert(!all_digits(s@, a as int, b as int)) by {
                        assert(!is_digit(s@[i as int]));
                    }
                }
                return None;
            },
        };
        proof {
            lemma_digits_val_bound(s@, a as int, i as int);
            lemma_pow10_mono(i - a, 3);
            lemma_pow10_concrete();
        }
        v = v * 10 + d;
        i = i + 1;
    }
    Some(v)
}

/// Parses the mandatory GPX timestamp format, rejecting any deviation
/// from it.
pub fn parse_time(s: &str) -> (r: Option<Timestamp>)
    ensures
        r == spec_parse_time(s@),
        r is Some ==> r.unwrap().wf(),
{
    let n = s.unicode_len();
    if n != 19 {
        return None;
    }
    if !(s.get_char(4) == '-' && s.get_char(7) == '-' && s.get_char(10) == 'T' && s.get_char(13)
        == ':' && s.get_char(16) == ':') {
        return None;
    }
    let year = match field_val(s, 0, 4) {
        Some(v) => v,
        None => { return None },
    };
    let month = match field_val(s, 5, 7) {
        Some(v) => v,
        None => { return None },
    };
    let day = match field_val(s, 8, 10) {
        Some(v) => v,
        None => { return None },
    };
    let hour = match field_val(s, 11, 13) {
        Some(v) => v,
        None => { return None },
    };
    let minute = match field_val(s, 14, 16) {
        Some(v) => v,
        None => { return None },
    };
    let second = match field_val(s, 17, 19) {
        Some(v) => v,
        None => { return None },
    };
    let t = Timestamp { year, month, day, hour, minute, second };
    if 1 <= year && year <= 9999 && 1 <= month && month <= 12 && 1 <= day && day <= 31 && hour
        <= 23 && minute <= 59 && second <= 59 {
        Some(t)
    } else {
        None
    }
}

} // verus!
