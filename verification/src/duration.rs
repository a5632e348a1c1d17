use vstd::prelude::*;

use crate::strutil::{chars_eq_str, chars_to_string, collect_chars, lower_char_spec, lower_chars,
    sub_vec};

verus! {

/// Errors encountered when parsing duration strings.
#[derive(Debug, Clone, PartialEq, Eq)]
pub enum DurationParseError {
    /// The input was empty or all whitespace.
    EmptyString,
    /// No time unit, or no number before it, was found.
    MissingUnit,
    /// The number before the unit could not be read.
    InvalidNumber(String),
    /// The unit is not a recognized spelling.
    UnknownUnit(String),
}

/// Mathematical image of a `DurationParseError`.
pub ghost enum DurationErrorView {
    EmptyString,
    MissingUnit,
    InvalidNumber(Seq<char>),
    UnknownUnit(Seq<char>),
}

impl View for DurationParseError {
    type V = DurationErrorView;

    open spec fn view(&self) -> DurationErrorView {
        match self {
            DurationParseError::EmptyString => DurationErrorView::EmptyString,
            DurationParseError::MissingUnit => DurationErrorView::MissingUnit,
            DurationParseError::InvalidNumber(s) => DurationErrorView::InvalidNumber(s@),
            DurationParseError::UnknownUnit(s) => DurationErrorView::UnknownUnit(s@),
        }
    }
}

/// The image of a parse result.
pub open spec fn parse_result_view(r: Result<u64, DurationParseError>) -> Result<
    u64,
    DurationErrorView,
> {
    match r {
        Result::Ok(n) => Result::Ok(n),
        Result::Err(e) => Result::Err(e@),
    }
}

/// ASCII whitespace, as trimmed from the ends of the input.
pub open spec fn is_space(c: char) -> bool {
    c == ' ' || c == '\t' || c == '\n' || c == '\r'
}

/// ASCII letters begin the unit part of the input.
pub open spec fn is_alpha(c: char) -> bool {
    ('a' <= c && c <= 'z') || ('A' <= c && c <= 'Z')
}

/// A decimal digit.
pub open spec fn is_digit_char(c: char) -> bool {
    '0' <= c && c <= '9'
}

/// The numeric value of a decimal digit.
pub open spec fn digit_of(c: char) -> int {
    c as int - '0' as int
}

/// `s` without leading whitespace.
pub open spec fn trim_front(s: Seq<char>) -> Seq<char>
    decreases s.len(),
{
    if s.len() > 0 && is_space(s[0]) {
        trim_front(s.subrange(1, s.len() as int))
    } else {
        s
    }
}

/// `s` without trailing whitespace.
pub open spec fn trim_back(s: Seq<char>) -> Seq<char>
    decreases s.len(),
{
    if s.len() > 0 && is_space(s[s.len() - 1]) {
        trim_back(s.subrange(0, s.len() - 1))
    } else {
        s
    }
}

/// `s` without leading or trailing whitespace.
pub open spec fn trimmed(s: Seq<char>) -> Seq<char> {
    trim_back(trim_front(s))
}

/// The position of the first ASCII letter of `s` at or after `i`, or the
/// length of `s` if there is none.
pub open spec fn first_alpha_from(s: Seq<char>, i: int) -> int
    decreases s.len() - i,
{
    if i < 0 || i >= s.len() {
        s.len() as int
    } else if is_alpha(s[i]) {
        i
    } else {
        first_alpha_from(s, i + 1)
    }
}

/// The position of the first `.` of `s` at or after `i`, or the length of
/// `s` if there is none.
pub open spec fn first_dot_from(s: Seq<char>, i: int) -> int
    decreases s.len() - i,
{
    if i < 0 || i >= s.len() {
        s.len() as int
    } else if s[i] == '.' {
        i
    } else {
        first_dot_from(s, i + 1)
    }
}

/// Every character is a decimal digit.
pub open spec fn all_digits(s: Seq<char>) -> bool {
    forall|i: int| 0 <= i < s.len() ==> is_digit_char(#[trigger] s[i])
}

/// The integer and fractional digit runs of a well-formed number
/// (`[+]digits[.digits]`, at least one digit in all), or nothing.
pub open spec fn num_parts(num: Seq<char>) -> Option<(Seq<char>, Seq<char>)> {
    let body = if num.len() > 0 && num[0] == '+' {
        num.subrange(1, num.len() as int)
    } else {
        num
    };
    let q = first_dot_from(body, 0);
    let ip = body.subrange(0, q);
    let fp = if q == body.len() {
        Seq::empty()
    } else {
        body.subrange(q + 1, body.len() as int)
    };
    if all_digits(ip) && all_digits(fp) && ip.len() + fp.len() >= 1 {
        Option::Some((ip, fp))
    } else {
        Option::None
    }
}

/// The value of a run of decimal digits.
pub open spec fn digits_val(s: Seq<char>) -> int
    decreases s.len(),
{
    if s.len() == 0 {
        0
    } else {
        digits_val(s.drop_last()) * 10 + digit_of(s.last())
    }
}

/// The first eighteen fractional digits, padded with zeros.
pub open spec fn pad18(s: Seq<char>) -> Seq<char> {
    Seq::new(18, |i: int| if i < s.len() { s[i] } else { '0' })
}

/// The fraction as a count of eighteenths-of-a-decimal-order, that is,
/// `0.f` scaled by ten to the eighteenth.
pub open spec fn frac18(s: Seq<char>) -> int {
    digits_val(pad18(s))
}

/// Half of the fraction scale, the rounding threshold.
pub open spec fn half18() -> int {
    500000000000000000
}

/// The fraction scale: ten to the eighteenth.
pub open spec fn pow18() -> int {
    1000000000000000000
}

/// Nanoseconds per unit, and whether the unit is coarse.  A coarse unit
/// (nanoseconds through milliseconds) has the number rounded to a whole
/// count of units first; a fine unit converts with nanosecond precision.
pub open spec fn unit_info(u: Seq<char>) -> Option<(u64, bool)> {
    if u == "ns"@ || u == "nanosecond"@ || u == "nanoseconds"@ {
        Option::Some((1, true))
    } else if u == "us"@ || u == "microsecond"@ || u == "microseconds"@ {
        Option::Some((1000, true))
    } else if u == "ms"@ || u == "millisecond"@ || u == "milliseconds"@ {
        Option::Some((1000000, true))
    } else if u == "s"@ || u == "sec"@ || u == "second"@ || u == "seconds"@ {
        Option::Some((1000000000, false))
    } else if u == "m"@ || u == "min"@ || u == "minute"@ || u == "minutes"@ {
        Option::Some((60000000000, false))
    } else if u == "h"@ || u == "hr"@ || u == "hour"@ || u == "hours"@ {
        Option::Some((3600000000000, false))
    } else if u == "d"@ || u == "day"@ || u == "days"@ {
        Option::Some((86400000000000, false))
    } else {
        Option::None
    }
}

/// The duration in nanoseconds named by integer digits `ip`, fraction
/// digits `fp` and a unit, saturated to `u64::MAX`.  Rounding is to the
/// nearest, halves away from zero, on the first eighteen fraction digits.
pub open spec fn duration_nanos(ip: Seq<char>, fp: Seq<char>, mult: u64, coarse: bool) -> int {
    let i = digits_val(ip);
    let f = frac18(fp);
    let n = if coarse {
        (i + if f >= half18() {
            1int
        } else {
            0int
        }) * mult
    } else {
        i * mult + (f * mult + half18()) / pow18()
    };
    if n > u64::MAX as int {
        u64::MAX as int
    } else {
        n
    }
}

/// What parsing a duration string yields: the trimmed input is split at its
/// first letter into a number and a unit; an empty input, a missing unit or
/// number, a malformed or negative number, and an unknown unit each name
/// their error; otherwise the value in nanoseconds, saturated to `u64::MAX`.
/// The unit is matched after ASCII lowercasing, and an unknown unit is
/// reported in that lowered spelling.
pub open spec fn parse_duration_spec(s: Seq<char>) -> Result<u64, DurationErrorView> {
    let t = trimmed(s);
    if t.len() == 0 {
        Result::Err(DurationErrorView::EmptyString)
    } else {
        let p = first_alpha_from(t, 0);
        if p == t.len() {
            Result::Err(DurationErrorView::MissingUnit)
        } else {
            let num = trim_back(t.subrange(0, p));
            let unit = t.subrange(p, t.len() as int).map_values(|c: char| lower_char_spec(c));
            if num.len() == 0 {
                Result::Err(DurationErrorView::MissingUnit)
            } else if num[0] == '-' {
                Result::Err(DurationErrorView::InvalidNumber(num))
            } else {
                match num_parts(num) {
                    Option::None => Result::Err(DurationErrorView::InvalidNumber(num)),
                    Option::Some(parts) => match unit_info(unit) {
                        Option::None => Result::Err(DurationErrorView::UnknownUnit(unit)),
                        Option::Some(info) => Result::Ok(
                            duration_nanos(parts.0, parts.1, info.0, info.1) as u64,
                        ),
                    },
                }
            }
        }
    }
}


/// Ten to the `k`.
pub open spec fn pow10(k: nat) -> int
    decreases k,
{
    if k == 0 {
        1
    } else {
        10 * pow10((k - 1) as nat)
    }
}

proof fn lemma_pow10_18()
    ensures
        pow10(17) == 100000000000000000,
        pow10(18) == 1000000000000000000,
{
    assert(pow10(0) == 1);
    assert(pow10(1) == 10);
    assert(pow10(2) == 100);
    assert(pow10(3) == 1000);
    assert(pow10(4) == 10000);
    assert(pow10(5) == 100000);
    assert(pow10(6) == 1000000);
    assert(pow10(7) == 10000000);
    assert(pow10(8) == 100000000);
    assert(pow10(9) == 1000000000);
    assert(pow10(10) == 10000000000);
    assert(pow10(11) == 100000000000);
    assert(pow10(12) == 1000000000000);
    assert(pow10(13) == 10000000000000);
    assert(pow10(14) == 100000000000000);
    assert(pow10(15) == 1000000000000000);
    assert(pow10(16) == 10000000000000000);
    assert(pow10(17) == 100000000000000000);
    assert(pow10(18) == 1000000000000000000);
}

proof fn lemma_pow10_mono(a: nat, b: nat)
    requires
        a <= b,
    ensures
        1 <= pow10(a) <= pow10(b),
    decreases b,
{
    if b == 0 {
    } else if a == b {
        lemma_pow10_mono((a - 1) as nat, (b - 1) as nat);
    } else {
        lemma_pow10_mono(a, (b - 1) as nat);
    }
}

proof fn lemma_digits_val_bound(s: Seq<char>)
    requires
        all_digits(s),
    ensures
        0 <= digits_val(s) < pow10(s.len()),
    decreases s.len(),
{
    if s.len() > 0 {
        assert(all_digits(s.drop_last())) by {
            assert(forall|i: int|
                0 <= i < s.len() - 1 ==> #[trigger] s.drop_last()[i] == s[i]);
        }
        lemma_digits_val_bound(s.drop_last());
        assert(is_digit_char(s.last()));
        assert(0 <= digit_of(s.last()) <= 9);
    }
}

/// Executable duration parsing; the result is exactly what
/// `parse_duration_spec` names for the input's characters.
#[verifier::rlimit(100)]
pub fn parse_duration(s: &str) -> (r: Result<u64, DurationParseError>)
    ensures
        parse_result_view(r) == parse_duration_spec(s@),
{
    let cs = collect_chars(s);
    let n = cs.len();
    proof {
        assert(cs@.subrange(0, n as int) =~= cs@);
    }
    // locate the trimmed slice [lo, hi)
    let mut lo: usize = 0;
    while lo < n && (cs[lo] == ' ' || cs[lo] == '\t' || cs[lo] == '\n' || cs[lo] == '\r')
        invariant
            lo <= n,
            n == cs@.len(),
            cs@ == s@,
            trim_front(s@) == trim_front(cs@.subrange(lo as int, n as int)),
        decreases n - lo,
    {
        proof {
            let cur = cs@.subrange(lo as int, n as int);
            assert(cur.subrange(1, cur.len() as int) =~= cs@.subrange(lo + 1, n as int));
        }
        lo += 1;
    }
    proof {
        assert(trim_front(s@) == cs@.subrange(lo as int, n as int));
    }
    let mut hi: usize = n;
    while hi > lo && (cs[hi - 1] == ' ' || cs[hi - 1] == '\t' || cs[hi - 1] == '\n' || cs[hi - 1]
        == '\r')
        invariant
            lo <= hi <= n,
            n == cs@.len(),
            cs@ == s@,
            trim_front(s@) == cs@.subrange(lo as int, n as int),
            trimmed(s@) == trim_back(cs@.subrange(lo as int, hi as int)),
        decreases hi,
    {
        proof {
            let cur = cs@.subrange(lo as int, hi as int);
            assert(cur.subrange(0, cur.len() - 1) =~= cs@.subrange(lo as int, hi - 1));
        }
        hi -= 1;
    }
    let ghost t = cs@.subrange(lo as int, hi as int);
    proof {
        assert(trimmed(s@) == t);
    }
    if lo == hi {
        proof {
            assert(t.len() == 0);
        }
        return Result::Err(DurationParseError::EmptyString);
    }
    // find the first letter
    let mut p: usize = lo;
    while p < hi && !(('a' <= cs[p] && cs[p] <= 'z') || ('A' <= cs[p] && cs[p] <= 'Z'))
        invariant
            lo <= p <= hi <= n,
            n == cs@.len(),
            cs@ == s@,
            t == cs@.subrange(lo as int, hi as int),
            first_alpha_from(t, 0) == first_alpha_from(t, p - lo),
        decreases hi - p,
    {
        proof {
            assert(t[p - lo] == cs@[p as int]);
        }
        p += 1;
    }
    if p == hi {
        proof {
            assert(first_alpha_from(t, 0) == t.len());
        }
        return Result::Err(DurationParseError::MissingUnit);
    }
    proof {
        assert(t[p - lo] == cs@[p as int]);
        assert(first_alpha_from(t, 0) == p - lo);
    }
    // the number: [lo, q) with trailing whitespace dropped
    proof {
        assert(t.subrange(0, p - lo) =~= cs@.subrange(lo as int, p as int));
    }
    let mut q: usize = p;
    while q > lo && (cs[q - 1] == ' ' || cs[q - 1] == '\t' || cs[q - 1] == '\n' || cs[q - 1]
        == '\r')
        invariant
            lo <= q <= p,
            p < hi <= n,
            n == cs@.len(),
            cs@ == s@,
            t == cs@.subrange(lo as int, hi as int),
            trim_back(t.subrange(0, p - lo)) == trim_back(cs@.subrange(lo as int, q as int)),
        decreases q,
    {
        proof {
            let cur = cs@.subrange(lo as int, q as int);
            assert(cur.len() > 0 && is_space(cur[cur.len() - 1]));
            assert(cur.subrange(0, cur.len() - 1) =~= cs@.subrange(lo as int, q - 1));
        }
        q -= 1;
    }
    let ghost num = cs@.subrange(lo as int, q as int);
    proof {
        assert(trim_back(t.subrange(0, p - lo)) == num);
    }
    if q == lo {
        return Result::Err(DurationParseError::MissingUnit);
    }
    if cs[lo] == '-' {
        let msg = chars_to_string(&sub_vec(&cs, lo, q));
        return Result::Err(DurationParseError::InvalidNumber(msg));
    }
    // the unit, ASCII-lowercased
    let unit_vec = lower_chars(&sub_vec(&cs, p, hi));
    let ghost unit = t.subrange(p - lo, t.len() as int).map_values(|c: char| lower_char_spec(c));
    proof {
        assert(cs@.subrange(p as int, hi as int) =~= t.subrange(p - lo, t.len() as int));
        assert(unit_vec@ == unit);
    }
    // the number's shape: [+]digits[.digits], at least one digit
    let b: usize = if cs[lo] == '+' {
        lo + 1
    } else {
        lo
    };
    let ghost body = if num.len() > 0 && num[0] == '+' {
        num.subrange(1, num.len() as int)
    } else {
        num
    };
    proof {
        assert(body =~= cs@.subrange(b as int, q as int));
    }
    let mut dot: usize = b;
    while dot < q && cs[dot] != '.'
        invariant
            b <= dot <= q,
            q <= n,
            n == cs@.len(),
            cs@ == s@,
            body == cs@.subrange(b as int, q as int),
            first_dot_from(body, 0) == first_dot_from(body, dot - b),
        decreases q - dot,
    {
        proof {
            assert(body[dot - b] == cs@[dot as int]);
        }
        dot += 1;
    }
    proof {
        if dot < q {
            assert(body[dot - b] == cs@[dot as int]);
        }
        assert(first_dot_from(body, 0) == dot - b);
    }
    let ghost ip = body.subrange(0, dot - b);
    let ghost fp = if dot == q {
        Seq::<char>::empty()
    } else {
        body.subrange(dot - b + 1, body.len() as int)
    };
    // scan the digit runs
    let mut j: usize = b;
    while j < dot && '0' <= cs[j] && cs[j] <= '9'
        invariant
            b <= j <= dot <= q,
            q <= n,
            n == cs@.len(),
            cs@ == s@,
            ip == cs@.subrange(b as int, dot as int),
            forall|m: int| 0 <= m < j - b ==> is_digit_char(#[trigger] ip[m]),
        decreases dot - j,
    {
        j += 1;
    }
    if j < dot {
        proof {
            assert(!is_digit_char(ip[j - b]));
        }
        let msg = chars_to_string(&sub_vec(&cs, lo, q));
        return Result::Err(DurationParseError::InvalidNumber(msg));
    }
    proof {
        assert(all_digits(ip));
    }
    if dot < q {
        let mut j2: usize = dot + 1;
        while j2 < q && '0' <= cs[j2] && cs[j2] <= '9'
            invariant
                dot < j2 <= q,
                q <= n,
                n == cs@.len(),
                cs@ == s@,
                dot < q,
                fp == cs@.subrange(dot + 1, q as int),
                forall|m: int| 0 <= m < j2 - dot - 1 ==> is_digit_char(#[trigger] fp[m]),
            decreases q - j2,
        {
            j2 += 1;
        }
        if j2 < q {
            proof {
                assert(!is_digit_char(fp[j2 - dot - 1]));
            }
            let msg = chars_to_string(&sub_vec(&cs, lo, q));
            return Result::Err(DurationParseError::InvalidNumber(msg));
        }
    }
    proof {
        assert(all_digits(fp));
        assert(ip.len() == dot - b);
        assert(fp.len() == if dot == q { 0int } else { q - dot - 1 });
        assert(num_parts(num) == if ip.len() + fp.len() >= 1 {
            Option::Some((ip, fp))
        } else {
            Option::<(Seq<char>, Seq<char>)>::None
        });
    }
    if dot == b && (dot == q || dot + 1 == q) {
        let msg = chars_to_string(&sub_vec(&cs, lo, q));
        return Result::Err(DurationParseError::InvalidNumber(msg));
    }
    // the unit's scale
    let info: Option<(u64, bool)> = if chars_eq_str(&unit_vec, "ns") || chars_eq_str(
        &unit_vec,
        "nanosecond",
    ) || chars_eq_str(&unit_vec, "nanoseconds") {
        Option::Some((1, true))
    } else if chars_eq_str(&unit_vec, "us") || chars_eq_str(&unit_vec, "microsecond")
        || chars_eq_str(&unit_vec, "microseconds") {
        Option::Some((1000, true))
    } else if chars_eq_str(&unit_vec, "ms") || chars_eq_str(&unit_vec, "millisecond")
        || chars_eq_str(&unit_vec, "milliseconds") {
        Option::Some((1000000, true))
    } else if chars_eq_str(&unit_vec, "s") || chars_eq_str(&unit_vec, "sec") || chars_eq_str(
        &unit_vec,
        "second",
    ) || chars_eq_str(&unit_vec, "seconds") {
        Option::Some((1000000000, false))
    } else if chars_eq_str(&unit_vec, "m") || chars_eq_str(&unit_vec, "min") || chars_eq_str(
        &unit_vec,
        "minute",
    ) || chars_eq_str(&unit_vec, "minutes") {
        Option::Some((60000000000, false))
    } else if chars_eq_str(&unit_vec, "h") || chars_eq_str(&unit_vec, "hr") || chars_eq_str(
        &unit_vec,
        "hour",
    ) || chars_eq_str(&unit_vec, "hours") {
        Option::Some((3600000000000, false))
    } else if chars_eq_str(&unit_vec, "d") || chars_eq_str(&unit_vec, "day") || chars_eq_str(
        &unit_vec,
        "days",
    ) {
        Option::Some((86400000000000, false))
    } else {
        Option::None
    };
    proof {
        assert(info == unit_info(unit));
    }
    let (mult, coarse) = match info {
        Option::Some(mc) => mc,
        Option::None => {
            let msg = chars_to_string(&unit_vec);
            return Result::Err(DurationParseError::UnknownUnit(msg));
        },
    };
    // integer part value, saturation-aware
    let mut acc: u128 = 0;
    let mut over = false;
    let mut m: usize = b;
    while m < dot
        invariant
            b <= m <= dot <= q,
            q <= n,
            n == cs@.len(),
            cs@ == s@,
            ip == cs@.subrange(b as int, dot as int),
            all_digits(ip),
            !over ==> acc as int == digits_val(ip.subrange(0, m - b)) && acc <= u64::MAX as u128,
            over ==> digits_val(ip.subrange(0, m - b)) > u64::MAX as int,
        decreases dot - m,
    {
        proof {
            assert(is_digit_char(ip[m - b]));
            assert(ip[m - b] == cs@[m as int]);
        }
        let d = ((cs[m] as u32) - 48) as u128;
        proof {
            assert(d as int == digit_of(ip[m - b]));
            let pref = ip.subrange(0, m - b);
            let pref2 = ip.subrange(0, m - b + 1);
            assert(pref2.drop_last() =~= pref);
            assert(pref2.last() == ip[m - b]);
            assert(all_digits(pref)) by {
                assert(forall|x: int| 0 <= x < pref.len() ==> #[trigger] pref[x] == ip[x]);
            }
            lemma_digits_val_bound(pref);
        }
        if !over {
            acc = acc * 10 + d;
            if acc > 0xFFFF_FFFF_FFFF_FFFF {
                over = true;
            }
        }
        m += 1;
    }
    proof {
        assert(ip.subrange(0, ip.len() as int) =~= ip);
    }
    // fractional part value on eighteen digits
    let mut facc: u128 = 0;
    let mut m2: usize = 0;
    while m2 < 18
        invariant
            m2 <= 18,
            q <= n,
            n == cs@.len(),
            cs@ == s@,
            dot <= q,
            fp == if dot == q {
                Seq::<char>::empty()
            } else {
                cs@.subrange(dot + 1, q as int)
            },
            all_digits(fp),
            facc as int == digits_val(pad18(fp).subrange(0, m2 as int)),
            (facc as int) < pow10(m2 as nat),
        decreases 18 - m2,
    {
        let inb = dot < q && m2 < q - dot - 1;
        let c: char = if inb {
            cs[dot + 1 + m2]
        } else {
            '0'
        };
        proof {
            assert(pad18(fp)[m2 as int] == c);
            let pref = pad18(fp).subrange(0, m2 as int);
            let pref2 = pad18(fp).subrange(0, m2 + 1 as int);
            assert(pref2.drop_last() =~= pref);
            assert(pref2.last() == pad18(fp)[m2 as int]);
            if inb {
                assert(is_digit_char(fp[m2 as int]));
            }
            assert(is_digit_char(c));
        }
        let d = ((c as u32) - 48) as u128;
        proof {
            assert(d as int == digit_of(c));
            lemma_pow10_18();
            lemma_pow10_mono(m2 as nat, 17);
            assert((facc as int) * 10 + (d as int) < 10 * pow10(m2 as nat));
            assert(pow10((m2 + 1) as nat) == 10 * pow10(m2 as nat));
        }
        facc = facc * 10 + d;
        m2 += 1;
    }
    proof {
        lemma_pow10_18();
        assert(pad18(fp).subrange(0, 18) =~= pad18(fp));
        assert(facc as int == frac18(fp));
        assert(facc < 1000000000000000000);
    }
    // combine, saturating at u64::MAX nanoseconds
    let ghost nspec = duration_nanos(ip, fp, mult, coarse);
    if over {
        proof {
            let i = digits_val(ip);
            let f = frac18(fp);
            lemma_digits_val_bound(pad18(fp));
            if coarse {
                assert((i + if f >= half18() { 1int } else { 0int }) * mult >= i) by (nonlinear_arith)
                    requires i >= 0, mult >= 1, f >= 0,
                {
                }
            } else {
                assert(i * mult + (f * mult + half18()) / pow18() >= i) by (nonlinear_arith)
                    requires i >= 0, mult >= 1, f >= 0,
                {
                }
            }
            assert(nspec == u64::MAX as int);
        }
        return Result::Ok(u64::MAX);
    }
    let carry: u128 = if facc >= 500000000000000000 {
        1
    } else {
        0
    };
    let n128: u128 = if coarse {
        proof {
            assert((acc + carry) * (mult as u128) <= (0xFFFF_FFFF_FFFF_FFFF + 1u128) * 1000000)
                by (nonlinear_arith)
                requires acc <= 0xFFFF_FFFF_FFFF_FFFF, carry <= 1, mult <= 1000000,
            {
            }
        }
        (acc + carry) * (mult as u128)
    } else {
        proof {
            assert(acc * (mult as u128) <= 0xFFFF_FFFF_FFFF_FFFFu128 * 86400000000000)
                by (nonlinear_arith)
                requires acc <= 0xFFFF_FFFF_FFFF_FFFF, mult <= 86400000000000,
            {
            }
            assert(facc * (mult as u128) <= 1000000000000000000u128 * 86400000000000)
                by (nonlinear_arith)
                requires facc <= 1000000000000000000, mult <= 86400000000000,
            {
            }
        }
        acc * (mult as u128) + (facc * (mult as u128) + 500000000000000000) / 1000000000000000000
    };
    proof {
        assert(n128 as int == if coarse {
            (digits_val(ip) + if frac18(fp) >= half18() { 1int } else { 0int }) * mult
        } else {
            digits_val(ip) * mult + (frac18(fp) * mult + half18()) / pow18()
        });
    }
    if n128 > 0xFFFF_FFFF_FFFF_FFFF {
        proof {
            assert(nspec == u64::MAX as int);
        }
        Result::Ok(u64::MAX)
    } else {
        proof {
            assert(nspec == n128 as int);
        }
        Result::Ok(n128 as u64)
    }
}

} // verus!
