//! Wall-clock text in `HH:MM:SS` form and its value in milliseconds.
//!
//! `parse_duration_to_ms` reads a colon-separated triple the way the rest of
//! the crate expects it: a string with exactly two colons is worth
//! `(h*3600 + m*60 + s) * 1000` milliseconds, each component read as a
//! decimal number (an unreadable component counts as zero), and anything
//! else is worth the five-minute default. `format_ms_to_duration` renders
//! milliseconds back as `HH:MM:SS` with two-digit padding.

use vstd::prelude::*;
use vstd::string::StrSliceExecFns;
use vstd::string::StringExecFns;

verus! {

/// Default value, in milliseconds, for text that is not a colon-separated
/// triple: five minutes.
pub const DEFAULT_DURATION_MS: u64 = 300000;

pub open spec fn is_digit_char(c: char) -> bool {
    48 <= c as int <= 57
}

/// Numeric value of a decimal digit character.
pub open spec fn digit_of(c: char) -> int {
    c as int - 48
}

pub open spec fn all_digits(s: Seq<char>) -> bool {
    forall|i: int| 0 <= i < s.len() ==> is_digit_char(s[i])
}

/// Value of a digit string read as a decimal number.
pub open spec fn digits_value(s: Seq<char>) -> int
    decreases s.len(),
{
    if s.len() == 0 {
        0
    } else {
        digits_value(s.drop_last()) * 10 + digit_of(s.last())
    }
}

/// The digits that `str::parse::<u64>` would read: an optional leading `+`
/// is not part of the number.
pub open spec fn number_body(s: Seq<char>) -> Seq<char> {
    if s.len() > 0 && s[0] == '+' {
        s.drop_first()
    } else {
        s
    }
}

/// What `s.parse::<u64>().unwrap_or(0)` yields: the decimal value when the
/// text is a well-formed number that fits in a `u64`, and zero otherwise.
pub open spec fn parse_u64_or_zero(s: Seq<char>) -> u64 {
    let b = number_body(s);
    if b.len() > 0 && all_digits(b) && digits_value(b) <= u64::MAX {
        digits_value(b) as u64
    } else {
        0
    }
}

/// `i` and `j` are the positions of the only two colons in `s`.
pub open spec fn colon_pair(s: Seq<char>, i: int, j: int) -> bool {
    &&& 0 <= i < j < s.len()
    &&& s[i] == ':'
    &&& s[j] == ':'
    &&& forall|k: int| 0 <= k < s.len() && s[k] == ':' ==> k == i || k == j
}

pub open spec fn wrap_u64(x: int) -> u64 {
    (x % 0x1_0000_0000_0000_0000) as u64
}

/// Milliseconds denoted by duration text: the value of its three
/// colon-separated components when there are exactly three, the default
/// otherwise.
pub open spec fn duration_ms_spec(s: Seq<char>) -> u64 {
    if exists|i: int, j: int| colon_pair(s, i, j) {
        let (i, j) = choose|i: int, j: int| colon_pair(s, i, j);
        let h = parse_u64_or_zero(s.subrange(0, i));
        let m = parse_u64_or_zero(s.subrange(i + 1, j));
        let sec = parse_u64_or_zero(s.subrange(j + 1, s.len() as int));
        wrap_u64((h * 3600 + m * 60 + sec) * 1000)
    } else {
        DEFAULT_DURATION_MS
    }
}

/// Two strings cannot both be the unique colon pair at different positions.
proof fn lemma_colon_pair_unique(s: Seq<char>, i1: int, j1: int, i2: int, j2: int)
    requires
        colon_pair(s, i1, j1),
        colon_pair(s, i2, j2),
    ensures
        i1 == i2,
        j1 == j2,
{
    assert(i1 == i2 || i1 == j2);
    assert(j1 == i2 || j1 == j2);
    assert(i2 == i1 || i2 == j1);
}

/// A digit string has a nonnegative value.
proof fn lemma_digits_value_nonneg(s: Seq<char>)
    requires
        all_digits(s),
    ensures
        digits_value(s) >= 0,
    decreases s.len(),
{
    if s.len() > 0 {
        lemma_digits_value_nonneg(s.drop_last());
    }
}

/// Extending a digit string with more digits never shrinks its value.
proof fn lemma_digits_value_mono(s: Seq<char>, n: int)
    requires
        all_digits(s),
        0 <= n <= s.len(),
    ensures
        digits_value(s.subrange(0, n)) <= digits_value(s),
    decreases s.len() - n,
{
    if n < s.len() {
        lemma_digits_value_mono(s, n + 1);
        let p = s.subrange(0, n);
        let q = s.subrange(0, n + 1);
        assert(q.drop_last() =~= p);
        lemma_digits_value_nonneg(p);
        assert(digits_value(q) == digits_value(p) * 10 + digit_of(q.last()));
        assert(digits_value(p) * 10 >= digits_value(p)) by (nonlinear_arith)
            requires digits_value(p) >= 0;
    } else {
        assert(s.subrange(0, n) =~= s);
    }
}

/// Decimal value of the digits of `s` between `from` and `to`, read left
/// to right; nothing as soon as a non-digit appears or the value can no
/// longer fit in a `u64`. Mirrors how `str::parse::<u64>` accumulates.
fn digits_value_capped(s: &str, from: usize, to: usize) -> (r: Option<u128>)
    requires
        from <= to <= s@.len(),
    ensures
        match r {
            Some(v) => {
                &&& all_digits(s@.subrange(from as int, to as int))
                &&& v == digits_value(s@.subrange(from as int, to as int))
                &&& v <= u64::MAX
            },
            None => {
                ||| !all_digits(s@.subrange(from as int, to as int))
                ||| digits_value(s@.subrange(from as int, to as int)) > u64::MAX
            },
        },
{
    let ghost whole = s@.subrange(from as int, to as int);
    let mut val: u128 = 0;
    let mut k: usize = from;
    while k < to
        invariant
            from <= k <= to <= s@.len(),
            whole == s@.subrange(from as int, to as int),
            all_digits(s@.subrange(from as int, k as int)),
            val == digits_value(s@.subrange(from as int, k as int)),
            val <= u64::MAX,
        decreases to - k,
    {
        let c = s.get_char(k);
        let code = c as u32;
        let ghost prefix = s@.subrange(from as int, k as int);
        let ghost prefix1 = s@.subrange(from as int, k + 1 as int);
        proof {
            assert(prefix1.drop_last() =~= prefix);
            assert(prefix1.last() == s@[k as int]);
        }
        if code < 48 || code > 57 {
            proof {
                assert(!is_digit_char(whole[k - from]));
            }
            return None;
        }
        let d = (code - 48) as u128;
        let next: u128 = val * 10 + d;
        proof {
            assert(digits_value(prefix1) == digits_value(prefix) * 10 + digit_of(s@[k as int]));
        }
        if next > u64::MAX as u128 {
            proof {
                assert(forall|t: int| 0 <= t < whole.len() && !all_digits(whole.subrange(0, t + 1))
                    ==> !is_digit_char(whole[t]) || !all_digits(whole.subrange(0, t)));
                if all_digits(whole) {
                    lemma_digits_value_mono(whole, k + 1 - from);
                    assert(whole.subrange(0, k + 1 - from) =~= prefix1);
                }
            }
            return None;
        }
        val = next;
        k = k + 1;
    }
    proof {
        assert(s@.subrange(from as int, k as int) =~= whole);
    }
    Some(val)
}

/// What `s[from..to].parse::<u64>().unwrap_or(0)` yields.
fn parse_part(s: &str, from: usize, to: usize) -> (v: u64)
    requires
        from <= to <= s@.len(),
    ensures
        v == parse_u64_or_zero(s@.subrange(from as int, to as int)),
{
    let ghost part = s@.subrange(from as int, to as int);
    let body_from: usize = if from < to && s.get_char(from) == '+' {
        from + 1
    } else {
        from
    };
    proof {
        assert(number_body(part) =~= s@.subrange(body_from as int, to as int));
    }
    if body_from == to {
        return 0;
    }
    match digits_value_capped(s, body_from, to) {
        Some(v) => v as u64,
        None => 0,
    }
}

/// Parse a duration string (`HH:MM:SS`) to milliseconds. Text without
/// exactly two colons is worth the five-minute default; a component that is
/// not a readable number counts as zero.
pub fn parse_duration_to_ms(duration: &str) -> (ms: u64)
    ensures
        ms == duration_ms_spec(duration@),
{
    let len = duration.unicode_len();
    let mut first: Option<usize> = None;
    let mut second: Option<usize> = None;
    let mut extra = false;
    let mut k: usize = 0;
    while k < len
        invariant
            0 <= k <= len,
            len == duration@.len(),
            match first {
                None => forall|t: int| 0 <= t < k ==> duration@[t] != ':',
                Some(i) => {
                    &&& i < k
                    &&& duration@[i as int] == ':'
                    &&& forall|t: int| 0 <= t < i ==> duration@[t] != ':'
                },
            },
            match second {
                None => first matches Some(i) ==> forall|t: int| i < t < k ==> duration@[t] != ':',
                Some(j) => {
                    &&& first matches Some(i) && i < j < k
                    &&& duration@[j as int] == ':'
                    &&& first matches Some(i) ==> forall|t: int| i < t < j ==> duration@[t] != ':'
                },
            },
            second is None ==> !extra,
            second matches Some(j) ==> (extra <==> exists|t: int| j < t < k && duration@[t] == ':'),
        decreases len - k,
    {
        let c = duration.get_char(k);
        if c == ':' {
            if first.is_none() {
                first = Some(k);
            } else if second.is_none() {
                second = Some(k);
            } else {
                extra = true;
            }
        }
        k = k + 1;
    }
    if let (Some(i), Some(j)) = (first, second) {
        if !extra {
            proof {
                assert(colon_pair(duration@, i as int, j as int));
                let (ci, cj) = choose|ci: int, cj: int| colon_pair(duration@, ci, cj);
                lemma_colon_pair_unique(duration@, ci, cj, i as int, j as int);
            }
            let h = parse_part(duration, 0, i);
            let m = parse_part(duration, i + 1, j);
            let sec = parse_part(duration, j + 1, len);
            let total: u128 = ((h as u128) * 3600 + (m as u128) * 60 + (sec as u128)) * 1000;
            let ms = (total % 0x1_0000_0000_0000_0000u128) as u64;
            return ms;
        }
        proof {
            let t = choose|t: int| j < t < len && duration@[t] == ':';
            assert(forall|ci: int, cj: int| !colon_pair(duration@, ci, cj)) by {
                assert forall|ci: int, cj: int| !colon_pair(duration@, ci, cj) by {
                    if colon_pair(duration@, ci, cj) {
                        assert(i as int == ci || i as int == cj);
                        assert(j as int == ci || j as int == cj);
                        assert(t == ci || t == cj);
                    }
                }
            }
        }
        return DEFAULT_DURATION_MS;
    }
    proof {
        if exists|ci: int, cj: int| colon_pair(duration@, ci, cj) {
            let (ci, cj) = choose|ci: int, cj: int| colon_pair(duration@, ci, cj);
            assert(duration@[ci] == ':');
        }
    }
    DEFAULT_DURATION_MS
}

/// The decimal digit characters of a nonnegative number, most significant
/// first, without padding.
pub open spec fn digit_char(d: int) -> char {
    if d == 0 { '0' }
    else if d == 1 { '1' }
    else if d == 2 { '2' }
    else if d == 3 { '3' }
    else if d == 4 { '4' }
    else if d == 5 { '5' }
    else if d == 6 { '6' }
    else if d == 7 { '7' }
    else if d == 8 { '8' }
    else { '9' }
}

pub open spec fn dec_str(n: int) -> Seq<char>
    decreases n,
{
    if n < 10 {
        seq![digit_char(n)]
    } else {
        dec_str(n / 10).push(digit_char(n % 10))
    }
}

/// A number padded on the left with `0` to at least two characters.
pub open spec fn pad2(n: int) -> Seq<char> {
    if 0 <= n < 10 {
        seq!['0'] + dec_str(n)
    } else {
        dec_str(n)
    }
}

/// The `HH:MM:SS` rendering of a span of milliseconds: whole seconds split
/// into hours, minutes and seconds, each padded to two digits.
pub open spec fn format_hms_spec(ms: u64) -> Seq<char> {
    let total = ms as int / 1000;
    let h = total / 3600;
    let m = (total % 3600) / 60;
    let s = total % 60;
    pad2(h) + seq![':'] + pad2(m) + seq![':'] + pad2(s)
}

fn digit_str(d: u64) -> (s: &'static str)
    requires
        d < 10,
    ensures
        s@ =~= seq![digit_char(d as int)],
{
    proof {
        reveal_strlit("0");
        reveal_strlit("1");
        reveal_strlit("2");
        reveal_strlit("3");
        reveal_strlit("4");
        reveal_strlit("5");
        reveal_strlit("6");
        reveal_strlit("7");
        reveal_strlit("8");
        reveal_strlit("9");
    }
    if d == 0 { "0" }
    else if d == 1 { "1" }
    else if d == 2 { "2" }
    else if d == 3 { "3" }
    else if d == 4 { "4" }
    else if d == 5 { "5" }
    else if d == 6 { "6" }
    else if d == 7 { "7" }
    else if d == 8 { "8" }
    else { "9" }
}

pub(crate) fn u64_to_dec(n: u64) -> (s: String)
    ensures
        s@ == dec_str(n as int),
    decreases n,
{
    if n < 10 {
        String::from_str(digit_str(n))
    } else {
        let mut s = u64_to_dec(n / 10);
        s.append(digit_str(n % 10));
        proof {
            assert(dec_str(n as int) =~= dec_str(n as int / 10) + seq![digit_char(n as int % 10)]);
        }
        s
    }
}

fn pad2_string(n: u64) -> (s: String)
    ensures
        s@ == pad2(n as int),
{
    if n < 10 {
        proof {
            reveal_strlit("0");
        }
        let mut s = String::from_str("0");
        s.append(u64_to_dec(n).as_str());
        s
    } else {
        u64_to_dec(n)
    }
}

/// Well-formed `HH:MM:SS` text: two digits, a colon, two digits, a colon,
/// two digits, with hours below 24 and minutes and seconds below 60.
pub open spec fn wellformed_hms(s: Seq<char>) -> bool {
    &&& s.len() == 8
    &&& s[2] == ':'
    &&& s[5] == ':'
    &&& is_digit_char(s[0]) && is_digit_char(s[1])
    &&& is_digit_char(s[3]) && is_digit_char(s[4])
    &&& is_digit_char(s[6]) && is_digit_char(s[7])
    &&& digit_of(s[0]) * 10 + digit_of(s[1]) <= 23
    &&& digit_of(s[3]) * 10 + digit_of(s[4]) <= 59
    &&& digit_of(s[6]) * 10 + digit_of(s[7]) <= 59
}

/// Decide whether timing text may enter the draft: exactly `HH:MM:SS`
/// with hours below 24 and minutes and seconds below 60. Malformed text is
/// rejected here, before it reaches the model, never coerced.
pub fn validate_hms(s: &str) -> (r: bool)
    ensures
        r == wellformed_hms(s@),
{
    let len = s.unicode_len();
    if len != 8 {
        return false;
    }
    if s.get_char(2) != ':' || s.get_char(5) != ':' {
        return false;
    }
    let c0 = s.get_char(0) as u32;
    let c1 = s.get_char(1) as u32;
    let c3 = s.get_char(3) as u32;
    let c4 = s.get_char(4) as u32;
    let c6 = s.get_char(6) as u32;
    let c7 = s.get_char(7) as u32;
    if c0 < 48 || c0 > 57 || c1 < 48 || c1 > 57 {
        return false;
    }
    if c3 < 48 || c3 > 57 || c4 < 48 || c4 > 57 {
        return false;
    }
    if c6 < 48 || c6 > 57 || c7 < 48 || c7 > 57 {
        return false;
    }
    let h = (c0 - 48) * 10 + (c1 - 48);
    let m = (c3 - 48) * 10 + (c4 - 48);
    let sec = (c6 - 48) * 10 + (c7 - 48);
    h <= 23 && m <= 59 && sec <= 59
}

/// The value of two digit characters read as a number.
proof fn lemma_two_digit_value(p: Seq<char>)
    requires
        p.len() == 2,
        is_digit_char(p[0]),
        is_digit_char(p[1]),
    ensures
        parse_u64_or_zero(p) == digit_of(p[0]) * 10 + digit_of(p[1]),
{
    assert(number_body(p) =~= p);
    let one = seq![p[0]];
    assert(p.drop_last() =~= one);
    assert(one.drop_last() =~= Seq::<char>::empty());
    assert(digits_value(Seq::<char>::empty()) == 0);
    assert(one.last() == p[0]);
    assert(digits_value(one) == digits_value(one.drop_last()) * 10 + digit_of(one.last()));
    assert(digits_value(one) == digit_of(p[0]));
    assert(p.last() == p[1]);
    assert(digits_value(p) == digits_value(p.drop_last()) * 10 + digit_of(p.last()));
    assert(digits_value(p) == digit_of(p[0]) * 10 + digit_of(p[1]));
}

/// Two digit characters are exactly the two-digit padding of their value.
proof fn lemma_pad2_two_digits(a: char, b: char)
    requires
        is_digit_char(a),
        is_digit_char(b),
        digit_of(a) * 10 + digit_of(b) < 60,
    ensures
        pad2(digit_of(a) * 10 + digit_of(b)) =~= seq![a, b],
{
    let n = digit_of(a) * 10 + digit_of(b);
    if n < 10 {
        assert(digit_of(a) == 0);
        assert(digit_char(digit_of(a)) == a);
        assert(digit_char(digit_of(b)) == b);
        assert(pad2(n) =~= seq!['0'] + seq![digit_char(n)]);
    } else {
        assert(n / 10 == digit_of(a) && n % 10 == digit_of(b)) by {
            vstd::arithmetic::div_mod::lemma_fundamental_div_mod_converse(
                n, 10, digit_of(a), digit_of(b));
        }
        assert(digit_char(digit_of(a)) == a);
        assert(digit_char(digit_of(b)) == b);
        assert(dec_str(n) =~= dec_str(n / 10).push(digit_char(n % 10)));
        assert(dec_str(n / 10) =~= seq![digit_char(n / 10)]);
    }
}

/// Parsing well-formed `HH:MM:SS` text and formatting the result gives the
/// text back unchanged: the two conversions are inverse on every duration
/// whose components are in range.
pub proof fn lemma_duration_round_trip(s: Seq<char>)
    requires
        wellformed_hms(s),
    ensures
        format_hms_spec(duration_ms_spec(s)) == s,
{
    assert(colon_pair(s, 2, 5));
    let (ci, cj) = choose|ci: int, cj: int| colon_pair(s, ci, cj);
    lemma_colon_pair_unique(s, ci, cj, 2, 5);

    let hh = s.subrange(0, 2);
    let mm = s.subrange(3, 5);
    let ss = s.subrange(6, 8);
    lemma_two_digit_value(hh);
    lemma_two_digit_value(mm);
    lemma_two_digit_value(ss);
    let h = digit_of(s[0]) * 10 + digit_of(s[1]);
    let m = digit_of(s[3]) * 10 + digit_of(s[4]);
    let sec = digit_of(s[6]) * 10 + digit_of(s[7]);
    let x = (h * 3600 + m * 60 + sec) * 1000;
    assert(0 <= x < 0x1_0000_0000_0000_0000);
    let ms = duration_ms_spec(s);
    assert(ms == x);

    let total = ms as int / 1000;
    assert(total == h * 3600 + m * 60 + sec) by {
        vstd::arithmetic::div_mod::lemma_fundamental_div_mod_converse(
            x, 1000, h * 3600 + m * 60 + sec, 0);
    }
    assert(total / 3600 == h && total % 3600 == m * 60 + sec) by {
        vstd::arithmetic::div_mod::lemma_fundamental_div_mod_converse(
            total, 3600, h, m * 60 + sec);
    }
    assert((m * 60 + sec) / 60 == m) by {
        vstd::arithmetic::div_mod::lemma_fundamental_div_mod_converse(
            m * 60 + sec, 60, m, sec);
    }
    assert(total % 60 == sec) by {
        vstd::arithmetic::div_mod::lemma_fundamental_div_mod_converse(
            total, 60, h * 60 + m, sec);
    }
    lemma_pad2_two_digits(s[0], s[1]);
    lemma_pad2_two_digits(s[3], s[4]);
    lemma_pad2_two_digits(s[6], s[7]);
    assert(format_hms_spec(ms) =~= s);
}

/// Format milliseconds as a duration string (`HH:MM:SS`), padding each
/// component to two digits.
pub fn format_ms_to_duration(ms: u64) -> (s: String)
    ensures
        s@ == format_hms_spec(ms),
{
    proof {
        reveal_strlit(":");
    }
    let total = ms / 1000;
    let h = total / 3600;
    let m = (total % 3600) / 60;
    let sec = total % 60;
    let mut out = pad2_string(h);
    out.append(":");
    out.append(pad2_string(m).as_str());
    out.append(":");
    out.append(pad2_string(sec).as_str());
    out
}

} // verus!
