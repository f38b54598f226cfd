//! The report parser: extracts one measurement from the load generator's
//! free-text output.
//!
//! The output is scanned line by line; later matching lines overwrite earlier
//! ones. A latency line holds the word `Latency`, whitespace, a decimal
//! number and a unit word; the number is normalized to nanoseconds, scaling
//! by the unit: seconds and microseconds are recognized, any other unit is
//! taken as milliseconds. A throughput line holds `Requests/sec:`, whitespace
//! and an integer. If no line matches, the zero measurement is returned.
//!
//! Two failures are fatal: output that is not valid UTF-8 (the capture cannot
//! be decoded as text), and a captured number too large for its 64-bit
//! result. The second also rejects a latency beyond what 64-bit nanoseconds
//! can hold — a machine limit of the exact integer representation used here.

use vstd::prelude::*;
use vstd::arithmetic::mul::{lemma_mul_inequality, lemma_mul_upper_bound};
use vstd::arithmetic::div_mod::lemma_fundamental_div_mod;
use vstd::utf8::{
    valid_utf8, valid_first_scalar, valid_leading_and_continuation_bytes_first_codepoint,
    decode_first_codepoint, length_of_first_scalar, pop_first_scalar,
    is_leading_byte_width_1, is_leading_byte_width_2, is_leading_byte_width_3,
    is_leading_byte_width_4, is_continuation_byte,
};

use crate::models::WrkStats;

verus! {

/// The fatal parse failures: output that cannot be decoded as text, and a
/// captured number that does not fit its 64-bit result.
#[derive(Debug, PartialEq, Eq, Structural)]
pub enum ParseError {
    InvalidUtf8,
    NumberOutOfRange,
}

pub open spec fn is_digit(b: u8) -> bool {
    48 <= b <= 57
}

/// Whitespace as the report patterns accept it, line breaks aside.
pub open spec fn is_space(b: u8) -> bool {
    b == 32 || b == 9 || b == 13 || b == 11 || b == 12
}

/// A word character: letter, digit or underscore, as in the unit suffix.
pub open spec fn is_word(b: u8) -> bool {
    is_digit(b) || (65 <= b <= 90) || (97 <= b <= 122) || b == 95
}

/// End of the run of digits starting at `i`.
pub open spec fn digits_end(s: Seq<u8>, i: int) -> int
    decreases s.len() - i,
{
    if 0 <= i < s.len() && is_digit(s[i]) {
        digits_end(s, i + 1)
    } else {
        i
    }
}

/// End of the run of whitespace starting at `i`.
pub open spec fn spaces_end(s: Seq<u8>, i: int) -> int
    decreases s.len() - i,
{
    if 0 <= i < s.len() && is_space(s[i]) {
        spaces_end(s, i + 1)
    } else {
        i
    }
}

/// End of the run of word characters starting at `i`.
pub open spec fn word_end(s: Seq<u8>, i: int) -> int
    decreases s.len() - i,
{
    if 0 <= i < s.len() && is_word(s[i]) {
        word_end(s, i + 1)
    } else {
        i
    }
}

/// End of the current line: the next line feed, or the end of input.
pub open spec fn line_end(s: Seq<u8>, i: int) -> int
    decreases s.len() - i,
{
    if 0 <= i < s.len() && s[i] != 10 {
        line_end(s, i + 1)
    } else {
        i
    }
}

proof fn lemma_digits_end(s: Seq<u8>, i: int)
    requires
        0 <= i <= s.len(),
    ensures
        i <= digits_end(s, i) <= s.len(),
        forall|j: int| i <= j < digits_end(s, i) ==> is_digit(s[j]),
        digits_end(s, i) < s.len() ==> !is_digit(s[digits_end(s, i)]),
    decreases s.len() - i,
{
    if i < s.len() && is_digit(s[i]) {
        lemma_digits_end(s, i + 1);
    }
}

proof fn lemma_line_end(s: Seq<u8>, i: int)
    requires
        0 <= i <= s.len(),
    ensures
        i <= line_end(s, i) <= s.len(),
        line_end(s, i) < s.len() ==> s[line_end(s, i)] == 10,
    decreases s.len() - i,
{
    if i < s.len() && s[i] != 10 {
        lemma_line_end(s, i + 1);
    }
}

/// The bytes of the word `Latency`.
pub open spec fn latency_label() -> Seq<u8> {
    seq![76u8, 97u8, 116u8, 101u8, 110u8, 99u8, 121u8]
}

/// The bytes of the marker `Requests/sec:`.
pub open spec fn rps_label() -> Seq<u8> {
    seq![82u8, 101u8, 113u8, 117u8, 101u8, 115u8, 116u8, 115u8, 47u8, 115u8, 101u8, 99u8, 58u8]
}

/// One captured latency figure: integer digits, fraction digits (possibly
/// none) and the unit word.
pub ghost struct LatencyTok {
    pub int_digits: Seq<u8>,
    pub frac: Seq<u8>,
    pub unit: Seq<u8>,
}

/// The token captured by the index bounds a successful match yields.
pub open spec fn tok_of(s: Seq<u8>, j1: int, j2: int, j3: int, j4: int) -> LatencyTok {
    LatencyTok {
        int_digits: s.subrange(j1, j2),
        frac: if j3 > j2 {
            s.subrange(j2 + 1, j3)
        } else {
            Seq::empty()
        },
        unit: s.subrange(j3, j4),
    }
}

/// The latency pattern, matched at position `i`: the label, whitespace, a
/// digit run, an optional dot-separated fraction, and a unit word, each run
/// taken as long as possible.
pub open spec fn latency_match_at(s: Seq<u8>, i: int) -> Option<LatencyTok> {
    if !(0 <= i && i + 7 <= s.len() && s.subrange(i, i + 7) == latency_label()) {
        None
    } else {
        let j1 = spaces_end(s, i + 7);
        if j1 == i + 7 {
            None
        } else {
            let j2 = digits_end(s, j1);
            if j2 == j1 {
                None
            } else {
                let has_frac = j2 + 1 < s.len() && s[j2] == 46 && is_digit(s[j2 + 1]);
                let j3 = if has_frac {
                    digits_end(s, j2 + 1)
                } else {
                    j2
                };
                let j4 = word_end(s, j3);
                if j4 == j3 {
                    None
                } else {
                    Some(tok_of(s, j1, j2, j3, j4))
                }
            }
        }
    }
}

/// The leftmost latency match at or after `i`.
pub open spec fn latency_from(s: Seq<u8>, i: int) -> Option<LatencyTok>
    decreases s.len() - i,
{
    if !(0 <= i <= s.len()) {
        None
    } else if i == s.len() {
        None
    } else if latency_match_at(s, i) is Some {
        latency_match_at(s, i)
    } else {
        latency_from(s, i + 1)
    }
}

/// The throughput pattern, matched at position `i`: the label, whitespace,
/// and a digit run taken as long as possible — the integer part only.
pub open spec fn rps_match_at(s: Seq<u8>, i: int) -> Option<Seq<u8>> {
    if !(0 <= i && i + 13 <= s.len() && s.subrange(i, i + 13) == rps_label()) {
        None
    } else {
        let j1 = spaces_end(s, i + 13);
        if j1 == i + 13 {
            None
        } else {
            let j2 = digits_end(s, j1);
            if j2 == j1 {
                None
            } else {
                Some(s.subrange(j1, j2))
            }
        }
    }
}

/// The leftmost throughput match at or after `i`.
pub open spec fn rps_from(s: Seq<u8>, i: int) -> Option<Seq<u8>>
    decreases s.len() - i,
{
    if !(0 <= i <= s.len()) {
        None
    } else if i == s.len() {
        None
    } else if rps_match_at(s, i) is Some {
        rps_match_at(s, i)
    } else {
        rps_from(s, i + 1)
    }
}

/// The numeric value of a digit string.
pub open spec fn digits_val(s: Seq<u8>) -> int
    decreases s.len(),
{
    if s.len() == 0 {
        0
    } else {
        digits_val(s.drop_last()) * 10 + (s.last() - 48)
    }
}

/// Nanoseconds per unit of the captured number: seconds and microseconds are
/// scaled, any other unit word means milliseconds.
pub open spec fn unit_factor(unit: Seq<u8>) -> int {
    if unit == seq![115u8] {
        1000000000
    } else if unit == seq![117u8, 115u8] {
        1000
    } else {
        1000000
    }
}

/// Value of the fraction digits when the leading digit weighs `f`
/// nanoseconds; digits below one nanosecond are dropped.
pub open spec fn frac_ns(frac: Seq<u8>, f: int) -> int
    decreases frac.len(),
{
    if frac.len() == 0 {
        0
    } else {
        (frac[0] - 48) * f + frac_ns(frac.subrange(1, frac.len() as int), f / 10)
    }
}

/// The captured latency in nanoseconds.
pub open spec fn latency_ns(t: LatencyTok) -> int {
    digits_val(t.int_digits) * unit_factor(t.unit) + frac_ns(t.frac, unit_factor(t.unit) / 10)
}

/// A line's captures all fit their 64-bit results.
pub open spec fn line_ok(l: Seq<u8>) -> bool {
    &&& (latency_from(l, 0) matches Some(t) ==> latency_ns(t) <= u64::MAX)
    &&& (rps_from(l, 0) matches Some(d) ==> digits_val(d) <= usize::MAX)
}

/// One line folded into the running measurement: a match overwrites, no
/// match keeps the accumulated value.
pub open spec fn line_apply(l: Seq<u8>, acc: (int, int)) -> (int, int) {
    (
        match latency_from(l, 0) {
            Some(t) => latency_ns(t),
            None => acc.0,
        },
        match rps_from(l, 0) {
            Some(d) => digits_val(d),
            None => acc.1,
        },
    )
}

/// The measurement after folding every line from position `i` on, starting
/// from `acc`; the last matching line wins.
pub open spec fn scan_from(s: Seq<u8>, i: int, acc: (int, int)) -> (int, int)
    decreases s.len() - i when 0 <= i <= s.len() via scan_from_dec
{
    let k = line_end(s, i);
    let acc2 = line_apply(s.subrange(i, k), acc);
    if k >= s.len() {
        acc2
    } else {
        scan_from(s, k + 1, acc2)
    }
}

#[via_fn]
proof fn scan_from_dec(s: Seq<u8>, i: int, acc: (int, int)) {
    lemma_line_end(s, i);
}

/// Every line from position `i` on has captures that fit.
pub open spec fn ok_from(s: Seq<u8>, i: int) -> bool
    decreases s.len() - i when 0 <= i <= s.len() via ok_from_dec
{
    let k = line_end(s, i);
    line_ok(s.subrange(i, k)) && (k >= s.len() || ok_from(s, k + 1))
}

#[via_fn]
proof fn ok_from_dec(s: Seq<u8>, i: int) {
    lemma_line_end(s, i);
}

proof fn lemma_spaces_end(s: Seq<u8>, i: int)
    requires
        0 <= i <= s.len(),
    ensures
        i <= spaces_end(s, i) <= s.len(),
    decreases s.len() - i,
{
    if i < s.len() && is_space(s[i]) {
        lemma_spaces_end(s, i + 1);
    }
}

proof fn lemma_word_end(s: Seq<u8>, i: int)
    requires
        0 <= i <= s.len(),
    ensures
        i <= word_end(s, i) <= s.len(),
    decreases s.len() - i,
{
    if i < s.len() && is_word(s[i]) {
        lemma_word_end(s, i + 1);
    }
}

proof fn lemma_digits_val_nonneg(s: Seq<u8>)
    requires
        forall|m: int| 0 <= m < s.len() ==> is_digit(#[trigger] s[m]),
    ensures
        digits_val(s) >= 0,
    decreases s.len(),
{
    if s.len() > 0 {
        lemma_digits_val_nonneg(s.drop_last());
    }
}

proof fn lemma_digits_val_mono(s: Seq<u8>, a: int, j: int, b: int)
    requires
        0 <= a <= j <= b <= s.len(),
        forall|m: int| a <= m < b ==> is_digit(#[trigger] s[m]),
    ensures
        0 <= digits_val(s.subrange(a, j)),
        digits_val(s.subrange(a, j)) <= digits_val(s.subrange(a, b)),
    decreases b - j,
{
    assert forall|m: int| 0 <= m < s.subrange(a, j).len() implies is_digit(
        #[trigger] s.subrange(a, j)[m],
    ) by {
        assert(s.subrange(a, j)[m] == s[a + m]);
    }
    lemma_digits_val_nonneg(s.subrange(a, j));
    if j < b {
        lemma_digits_val_mono(s, a, j + 1, b);
        assert(s.subrange(a, j + 1).drop_last() =~= s.subrange(a, j));
        assert(s.subrange(a, j + 1).last() == s[j]);
    }
}

proof fn lemma_frac_ns_bounds(s: Seq<u8>, f: int)
    requires
        forall|m: int| 0 <= m < s.len() ==> is_digit(#[trigger] s[m]),
        f >= 0,
    ensures
        0 <= frac_ns(s, f),
        frac_ns(s, f) <= 10 * f,
    decreases s.len(),
{
    if s.len() > 0 {
        let rest = s.subrange(1, s.len() as int);
        assert forall|m: int| 0 <= m < rest.len() implies is_digit(#[trigger] rest[m]) by {
            assert(rest[m] == s[m + 1]);
        }
        vstd::arithmetic::div_mod::lemma_mod_bound(f, 10);
        lemma_fundamental_div_mod(f, 10);
        lemma_frac_ns_bounds(rest, f / 10);
        let d = s[0] - 48;
        lemma_mul_inequality(0, d, f);
        lemma_mul_inequality(d, 9, f);
    }
}

proof fn lemma_frac_ns_zero(s: Seq<u8>)
    ensures
        frac_ns(s, 0) == 0,
    decreases s.len(),
{
    if s.len() > 0 {
        lemma_frac_ns_zero(s.subrange(1, s.len() as int));
    }
}

fn digits_end_x(v: &Vec<u8>, i: usize) -> (e: usize)
    requires
        i <= v@.len(),
    ensures
        e == digits_end(v@, i as int),
        i <= e <= v@.len(),
    decreases v@.len() - i,
{
    if i < v.len() {
        let b = v[i];
        if 48 <= b && b <= 57 {
            return digits_end_x(v, i + 1);
        }
    }
    i
}

fn spaces_end_x(v: &Vec<u8>, i: usize) -> (e: usize)
    requires
        i <= v@.len(),
    ensures
        e == spaces_end(v@, i as int),
        i <= e <= v@.len(),
    decreases v@.len() - i,
{
    if i < v.len() {
        let b = v[i];
        if b == 32 || b == 9 || b == 13 || b == 11 || b == 12 {
            return spaces_end_x(v, i + 1);
        }
    }
    i
}

fn word_end_x(v: &Vec<u8>, i: usize) -> (e: usize)
    requires
        i <= v@.len(),
    ensures
        e == word_end(v@, i as int),
        i <= e <= v@.len(),
    decreases v@.len() - i,
{
    if i < v.len() {
        let b = v[i];
        if (48 <= b && b <= 57) || (65 <= b && b <= 90) || (97 <= b && b <= 122) || b == 95 {
            return word_end_x(v, i + 1);
        }
    }
    i
}

fn line_end_x(s: &[u8], i: usize) -> (e: usize)
    requires
        i <= s@.len(),
    ensures
        e == line_end(s@, i as int),
        i <= e <= s@.len(),
{
    let n = s.len();
    let mut j = i;
    while j < n && s[j] != 10
        invariant
            i <= j <= n,
            n == s@.len(),
            line_end(s@, i as int) == line_end(s@, j as int),
        decreases n - j,
    {
        j += 1;
    }
    j
}

fn copy_range(s: &[u8], a: usize, b: usize) -> (v: Vec<u8>)
    requires
        a <= b <= s@.len(),
    ensures
        v@ == s@.subrange(a as int, b as int),
{
    let mut v: Vec<u8> = Vec::new();
    let mut j = a;
    while j < b
        invariant
            a <= j <= b <= s@.len(),
            v@ =~= s@.subrange(a as int, j as int),
        decreases b - j,
    {
        v.push(s[j]);
        proof {
            assert(v@ =~= s@.subrange(a as int, j + 1));
        }
        j += 1;
    }
    v
}

fn latency_match_x(line: &Vec<u8>, i: usize) -> (r: Option<(usize, usize, usize, usize)>)
    requires
        i < line@.len(),
    ensures
        r is None ==> latency_match_at(line@, i as int) is None,
        r matches Some(js) ==> {
            &&& latency_match_at(line@, i as int) == Some(
                tok_of(line@, js.0 as int, js.1 as int, js.2 as int, js.3 as int),
            )
            &&& i < js.0 < js.1 <= js.2 < js.3 <= line@.len()
            &&& forall|m: int| js.0 <= m < js.1 ==> is_digit(#[trigger] line@[m])
            &&& (js.2 > js.1 ==> js.1 + 1 <= js.2 && forall|m: int|
                js.1 + 1 <= m < js.2 ==> is_digit(#[trigger] line@[m]))
        },
{
    let n = line.len();
    if n - i < 7 {
        return None;
    }
    if !(line[i] == 76 && line[i + 1] == 97 && line[i + 2] == 116 && line[i + 3] == 101 && line[i
        + 4] == 110 && line[i + 5] == 99 && line[i + 6] == 121) {
        proof {
            let sub = line@.subrange(i as int, i as int + 7);
            assert(sub[0] == line@[i as int] && sub[1] == line@[i as int + 1] && sub[2]
                == line@[i as int + 2] && sub[3] == line@[i as int + 3] && sub[4]
                == line@[i as int + 4] && sub[5] == line@[i as int + 5] && sub[6]
                == line@[i as int + 6]);
        }
        return None;
    }
    proof {
        assert(line@.subrange(i as int, i as int + 7) =~= latency_label());
    }
    let j1 = spaces_end_x(line, i + 7);
    if j1 == i + 7 {
        return None;
    }
    let j2 = digits_end_x(line, j1);
    if j2 == j1 {
        return None;
    }
    let has_frac = j2 < n && line[j2] == 46 && j2 + 1 < n && {
        let b = line[j2 + 1];
        48 <= b && b <= 57
    };
    let j3 = if has_frac {
        digits_end_x(line, j2 + 1)
    } else {
        j2
    };
    let j4 = word_end_x(line, j3);
    if j4 == j3 {
        return None;
    }
    proof {
        lemma_digits_end(line@, j1 as int);
        if has_frac {
            lemma_digits_end(line@, j2 as int + 1);
        }
    }
    Some((j1, j2, j3, j4))
}

fn latency_find_x(line: &Vec<u8>, i: usize) -> (r: Option<(usize, usize, usize, usize)>)
    requires
        i <= line@.len(),
    ensures
        r is None ==> latency_from(line@, i as int) is None,
        r matches Some(js) ==> {
            &&& latency_from(line@, i as int) == Some(
                tok_of(line@, js.0 as int, js.1 as int, js.2 as int, js.3 as int),
            )
            &&& js.0 < js.1 <= js.2 < js.3 <= line@.len()
            &&& forall|m: int| js.0 <= m < js.1 ==> is_digit(#[trigger] line@[m])
            &&& (js.2 > js.1 ==> js.1 + 1 <= js.2 && forall|m: int|
                js.1 + 1 <= m < js.2 ==> is_digit(#[trigger] line@[m]))
        },
    decreases line@.len() - i,
{
    if i == line.len() {
        return None;
    }
    match latency_match_x(line, i) {
        Some(js) => Some(js),
        None => latency_find_x(line, i + 1),
    }
}

fn rps_match_x(line: &Vec<u8>, i: usize) -> (r: Option<(usize, usize)>)
    requires
        i < line@.len(),
    ensures
        r is None ==> rps_match_at(line@, i as int) is None,
        r matches Some(js) ==> {
            &&& rps_match_at(line@, i as int) == Some(
                line@.subrange(js.0 as int, js.1 as int),
            )
            &&& i < js.0 < js.1 <= line@.len()
            &&& forall|m: int| js.0 <= m < js.1 ==> is_digit(#[trigger] line@[m])
        },
{
    let n = line.len();
    if n - i < 13 {
        return None;
    }
    if !(line[i] == 82 && line[i + 1] == 101 && line[i + 2] == 113 && line[i + 3] == 117 && line[i
        + 4] == 101 && line[i + 5] == 115 && line[i + 6] == 116 && line[i + 7] == 115 && line[i
        + 8] == 47 && line[i + 9] == 115 && line[i + 10] == 101 && line[i + 11] == 99 && line[i
        + 12] == 58) {
        proof {
            let sub = line@.subrange(i as int, i as int + 13);
            assert(sub[0] == line@[i as int] && sub[1] == line@[i as int + 1] && sub[2]
                == line@[i as int + 2] && sub[3] == line@[i as int + 3] && sub[4]
                == line@[i as int + 4] && sub[5] == line@[i as int + 5] && sub[6]
                == line@[i as int + 6] && sub[7] == line@[i as int + 7] && sub[8]
                == line@[i as int + 8] && sub[9] == line@[i as int + 9] && sub[10]
                == line@[i as int + 10] && sub[11] == line@[i as int + 11] && sub[12]
                == line@[i as int + 12]);
        }
        return None;
    }
    proof {
        assert(line@.subrange(i as int, i as int + 13) =~= rps_label());
    }
    let j1 = spaces_end_x(line, i + 13);
    if j1 == i + 13 {
        return None;
    }
    let j2 = digits_end_x(line, j1);
    if j2 == j1 {
        return None;
    }
    proof {
        lemma_digits_end(line@, j1 as int);
    }
    Some((j1, j2))
}

fn rps_find_x(line: &Vec<u8>, i: usize) -> (r: Option<(usize, usize)>)
    requires
        i <= line@.len(),
    ensures
        r is None ==> rps_from(line@, i as int) is None,
        r matches Some(js) ==> {
            &&& rps_from(line@, i as int) == Some(line@.subrange(js.0 as int, js.1 as int))
            &&& js.0 < js.1 <= line@.len()
            &&& forall|m: int| js.0 <= m < js.1 ==> is_digit(#[trigger] line@[m])
        },
    decreases line@.len() - i,
{
    if i == line.len() {
        return None;
    }
    match rps_match_x(line, i) {
        Some(js) => Some(js),
        None => rps_find_x(line, i + 1),
    }
}

fn digits_to_u64(line: &Vec<u8>, a: usize, b: usize) -> (r: Option<u64>)
    requires
        a <= b <= line@.len(),
        forall|m: int| a <= m < b ==> is_digit(#[trigger] line@[m]),
    ensures
        r matches Some(v) ==> v == digits_val(line@.subrange(a as int, b as int)),
        r is None ==> digits_val(line@.subrange(a as int, b as int)) > u64::MAX,
{
    let mut val: u64 = 0;
    let mut j = a;
    while j < b
        invariant
            a <= j <= b <= line@.len(),
            forall|m: int| a <= m < b ==> is_digit(#[trigger] line@[m]),
            val == digits_val(line@.subrange(a as int, j as int)),
        decreases b - j,
    {
        let d = line[j] - 48;
        proof {
            assert(line@.subrange(a as int, j + 1).drop_last() =~= line@.subrange(
                a as int,
                j as int,
            ));
            assert(line@.subrange(a as int, j + 1).last() == line@[j as int]);
        }
        if val > (u64::MAX - d as u64) / 10 {
            proof {
                lemma_fundamental_div_mod(u64::MAX as int - d as int, 10);
                vstd::arithmetic::div_mod::lemma_mod_bound(u64::MAX as int - d as int, 10);
                lemma_digits_val_mono(line@, a as int, j + 1, b as int);
            }
            return None;
        }
        val = val * 10 + d as u64;
        j += 1;
    }
    proof {
        assert(line@.subrange(a as int, j as int) =~= line@.subrange(a as int, b as int));
    }
    Some(val)
}

fn digits_to_usize(line: &Vec<u8>, a: usize, b: usize) -> (r: Option<usize>)
    requires
        a <= b <= line@.len(),
        forall|m: int| a <= m < b ==> is_digit(#[trigger] line@[m]),
    ensures
        r matches Some(v) ==> v == digits_val(line@.subrange(a as int, b as int)),
        r is None ==> digits_val(line@.subrange(a as int, b as int)) > usize::MAX,
{
    let mut val: usize = 0;
    let mut j = a;
    while j < b
        invariant
            a <= j <= b <= line@.len(),
            forall|m: int| a <= m < b ==> is_digit(#[trigger] line@[m]),
            val == digits_val(line@.subrange(a as int, j as int)),
        decreases b - j,
    {
        let d = line[j] - 48;
        proof {
            assert(line@.subrange(a as int, j + 1).drop_last() =~= line@.subrange(
                a as int,
                j as int,
            ));
            assert(line@.subrange(a as int, j + 1).last() == line@[j as int]);
        }
        if val > (usize::MAX - d as usize) / 10 {
            proof {
                lemma_fundamental_div_mod(usize::MAX as int - d as int, 10);
                vstd::arithmetic::div_mod::lemma_mod_bound(usize::MAX as int - d as int, 10);
                lemma_digits_val_mono(line@, a as int, j + 1, b as int);
            }
            return None;
        }
        val = val * 10 + d as usize;
        j += 1;
    }
    proof {
        assert(line@.subrange(a as int, j as int) =~= line@.subrange(a as int, b as int));
    }
    Some(val)
}

fn eval_latency(line: &Vec<u8>) -> (r: Result<Option<u64>, ParseError>)
    ensures
        latency_from(line@, 0) is None ==> r == Ok::<Option<u64>, ParseError>(None),
        latency_from(line@, 0) matches Some(t) ==> {
            &&& (latency_ns(t) <= u64::MAX ==> (r matches Ok(o) && (o matches Some(v) && v
                == latency_ns(t))))
            &&& (latency_ns(t) > u64::MAX ==> r is Err)
        },
        r matches Err(e) ==> e == ParseError::NumberOutOfRange,
{
    let found = latency_find_x(line, 0);
    match found {
        None => Ok(None),
        Some((j1, j2, j3, j4)) => {
            let ghost t = tok_of(line@, j1 as int, j2 as int, j3 as int, j4 as int);
            proof {
                assert(t.int_digits =~= line@.subrange(j1 as int, j2 as int));
                assert forall|m: int| 0 <= m < t.frac.len() implies is_digit(
                    #[trigger] t.frac[m],
                ) by {
                    assert(t.frac[m] == line@[j2 + 1 + m]);
                }
            }
            // the unit word picks the scale
            let factor: u64 = if j4 - j3 == 1 && line[j3] == 115 {
                proof {
                    assert(line@.subrange(j3 as int, j4 as int) =~= seq![115u8]);
                }
                1000000000
            } else if j4 - j3 == 2 && line[j3] == 117 && line[j3 + 1] == 115 {
                proof {
                    assert(line@.subrange(j3 as int, j4 as int) =~= seq![117u8, 115u8]);
                }
                1000
            } else {
                proof {
                    let u = line@.subrange(j3 as int, j4 as int);
                    assert(u.len() == j4 - j3);
                    assert(seq![115u8].len() == 1);
                    assert(seq![117u8, 115u8].len() == 2);
                    if u.len() == 1 {
                        assert(u[0] == line@[j3 as int]);
                        assert(seq![115u8][0] == 115u8);
                    }
                    if u.len() == 2 {
                        assert(u[0] == line@[j3 as int] && u[1] == line@[j3 as int + 1]);
                        assert(seq![117u8, 115u8][0] == 117u8 && seq![117u8, 115u8][1] == 115u8);
                    }
                }
                1000000
            };
            proof {
                assert(factor == unit_factor(t.unit));
            }
            let int_val = match digits_to_u64(line, j1, j2) {
                Some(v) => v,
                None => {
                    proof {
                        lemma_mul_inequality(1, factor as int, digits_val(t.int_digits));
                        lemma_frac_ns_bounds(t.frac, factor as int / 10);
                    }
                    return Err(ParseError::NumberOutOfRange);
                },
            };
            proof {
                lemma_mul_upper_bound(
                    int_val as int,
                    u64::MAX as int,
                    factor as int,
                    1000000000,
                );
                lemma_frac_ns_bounds(t.frac, factor as int / 10);
            }
            let mut acc: u128 = (int_val as u128) * (factor as u128);
            let mut f: u64 = factor / 10;
            if j3 > j2 {
                let mut idx: usize = j2 + 1;
                while idx < j3 && f > 0
                    invariant
                        j2 + 1 <= idx <= j3 <= line@.len(),
                        f <= 100000000,
                        forall|m: int| j2 + 1 <= m < j3 ==> is_digit(#[trigger] line@[m]),
                        t.frac == line@.subrange(j2 as int + 1, j3 as int),
                        acc + frac_ns(line@.subrange(idx as int, j3 as int), f as int)
                            == latency_ns(t),
                        latency_ns(t) <= u64::MAX as int * 1000000000 + 1000000000,
                        acc <= latency_ns(t),
                    decreases j3 - idx,
                {
                    let d = line[idx] - 48;
                    proof {
                        let rest = line@.subrange(idx as int, j3 as int);
                        assert(rest[0] == line@[idx as int]);
                        assert(rest.subrange(1, rest.len() as int) =~= line@.subrange(
                            idx + 1,
                            j3 as int,
                        ));
                        assert forall|m: int| 0 <= m < line@.subrange(
                            idx + 1,
                            j3 as int,
                        ).len() implies is_digit(
                            #[trigger] line@.subrange(idx + 1, j3 as int)[m],
                        ) by {
                            assert(line@.subrange(idx + 1, j3 as int)[m] == line@[idx + 1 + m]);
                        }
                        lemma_frac_ns_bounds(line@.subrange(idx + 1, j3 as int), f as int / 10);
                    }
                    acc = acc + (d as u128) * (f as u128);
                    f = f / 10;
                    idx += 1;
                }
                proof {
                    if idx == j3 {
                        assert(line@.subrange(j3 as int, j3 as int) =~= Seq::<u8>::empty());
                    } else {
                        lemma_frac_ns_zero(line@.subrange(idx as int, j3 as int));
                    }
                }
            } else {
                proof {
                    assert(t.frac =~= Seq::<u8>::empty());
                }
            }
            if acc > 0xffffffffffffffff {
                return Err(ParseError::NumberOutOfRange);
            }
            Ok(Some(acc as u64))
        },
    }
}

fn eval_rps(line: &Vec<u8>) -> (r: Result<Option<usize>, ParseError>)
    ensures
        rps_from(line@, 0) is None ==> r == Ok::<Option<usize>, ParseError>(None),
        rps_from(line@, 0) matches Some(d) ==> {
            &&& (digits_val(d) <= usize::MAX ==> (r matches Ok(o) && (o matches Some(v) && v
                == digits_val(d))))
            &&& (digits_val(d) > usize::MAX ==> r is Err)
        },
        r matches Err(e) ==> e == ParseError::NumberOutOfRange,
{
    match rps_find_x(line, 0) {
        None => Ok(None),
        Some((j1, j2)) => match digits_to_usize(line, j1, j2) {
            Some(v) => Ok(Some(v)),
            None => Err(ParseError::NumberOutOfRange),
        },
    }
}

fn scan_line(line: &Vec<u8>, lat: u64, rps: usize) -> (r: Result<(u64, usize), ParseError>)
    ensures
        r matches Ok(p) ==> line_ok(line@) && (p.0 as int, p.1 as int) == line_apply(
            line@,
            (lat as int, rps as int),
        ),
        r matches Err(e) ==> e == ParseError::NumberOutOfRange && !line_ok(line@),
{
    let l2 = match eval_latency(line) {
        Ok(Some(v)) => v,
        Ok(None) => lat,
        Err(e) => {
            return Err(e);
        },
    };
    let r2 = match eval_rps(line) {
        Ok(Some(v)) => v,
        Ok(None) => rps,
        Err(e) => {
            return Err(e);
        },
    };
    Ok((l2, r2))
}

/// Checks whether a well-formed UTF-8 scalar stands at `pos`, and how many
/// bytes it spans: the leading-byte ranges select the width, the continuation
/// bytes must follow, and the decoded codepoint must be neither an overlong
/// encoding nor a surrogate.
fn first_scalar_check(s: &[u8], pos: usize) -> (r: Option<usize>)
    requires
        pos < s@.len(),
    ensures
        r matches Some(w) ==> 1 <= w <= 4 && pos + w <= s@.len() && valid_first_scalar(
            s@.subrange(pos as int, s@.len() as int),
        ) && length_of_first_scalar(s@.subrange(pos as int, s@.len() as int)) == w,
        r is None ==> !valid_first_scalar(s@.subrange(pos as int, s@.len() as int)),
{
    let n = s.len();
    let ghost u = s@.subrange(pos as int, n as int);
    proof {
        assert(u[0] == s@[pos as int]);
        if pos + 1 < n {
            assert(u[1] == s@[pos as int + 1]);
        }
        if pos + 2 < n {
            assert(u[2] == s@[pos as int + 2]);
        }
        if pos + 3 < n {
            assert(u[3] == s@[pos as int + 3]);
        }
    }
    let b0 = s[pos];
    let w: usize;
    let cp: u32;
    if b0 <= 0x7f {
        w = 1;
        cp = (b0 & 0x7f) as u32;
    } else if 0xc0 <= b0 && b0 <= 0xdf {
        if n - pos < 2 {
            return None;
        }
        let b1 = s[pos + 1];
        if !(0x80 <= b1 && b1 <= 0xbf) {
            return None;
        }
        w = 2;
        cp = (((b0 & 0x1f) as u32) << 6u32) | ((b1 & 0x3f) as u32);
    } else if 0xe0 <= b0 && b0 <= 0xef {
        if n - pos < 3 {
            return None;
        }
        let b1 = s[pos + 1];
        let b2 = s[pos + 2];
        if !(0x80 <= b1 && b1 <= 0xbf) || !(0x80 <= b2 && b2 <= 0xbf) {
            return None;
        }
        w = 3;
        cp = (((b0 & 0x0f) as u32) << 12u32) | (((b1 & 0x3f) as u32) << 6u32) | ((b2
            & 0x3f) as u32);
    } else if 0xf0 <= b0 && b0 <= 0xf7 {
        if n - pos < 4 {
            return None;
        }
        let b1 = s[pos + 1];
        let b2 = s[pos + 2];
        let b3 = s[pos + 3];
        if !(0x80 <= b1 && b1 <= 0xbf) || !(0x80 <= b2 && b2 <= 0xbf) || !(0x80 <= b3 && b3
            <= 0xbf) {
            return None;
        }
        w = 4;
        cp = (((b0 & 0x07) as u32) << 18u32) | (((b1 & 0x3f) as u32) << 12u32) | (((b2
            & 0x3f) as u32) << 6u32) | ((b3 & 0x3f) as u32);
    } else {
        return None;
    }
    proof {
        assert(valid_leading_and_continuation_bytes_first_codepoint(u));
        assert(decode_first_codepoint(u) == cp);
    }
    // overlong encodings and the surrogate range are rejected
    if w == 2 && cp < 0x80 {
        return None;
    }
    if w == 3 && cp < 0x800 {
        return None;
    }
    if w == 4 && !(0x10000 <= cp && cp <= 0x10ffff) {
        return None;
    }
    if 0xd800 <= cp && cp <= 0xdfff {
        return None;
    }
    Some(w)
}

/// Whether the bytes are a valid UTF-8 encoding, as `String::from_utf8`
/// accepts it.
pub fn validate_utf8(s: &[u8]) -> (r: bool)
    ensures
        r == valid_utf8(s@),
{
    let n = s.len();
    let mut pos: usize = 0;
    proof {
        assert(s@.subrange(0, n as int) =~= s@);
    }
    while pos < n
        invariant
            pos <= n,
            n == s@.len(),
            valid_utf8(s@) <==> valid_utf8(s@.subrange(pos as int, n as int)),
        decreases n - pos,
    {
        match first_scalar_check(s, pos) {
            None => {
                return false;
            },
            Some(w) => {
                proof {
                    let u = s@.subrange(pos as int, n as int);
                    assert(pop_first_scalar(u) =~= s@.subrange(pos + w, n as int));
                }
                pos = pos + w;
            },
        }
    }
    proof {
        assert(s@.subrange(n as int, n as int) =~= Seq::<u8>::empty());
    }
    true
}

/// Parses the load generator's captured output into one measurement.
///
/// Every line is scanned; the last matching latency and throughput lines win,
/// and an input without matches yields the zero measurement. The parse fails
/// exactly on output that is not valid UTF-8 — the capture cannot be decoded
/// as text — or on a matched line whose number is too large for the
/// measurement's 64-bit fields (for latency, 64-bit nanoseconds: a machine
/// limit of the exact integer representation).
pub fn process_wrk(out: &[u8]) -> (r: Result<WrkStats, ParseError>)
    ensures
        r is Ok <==> valid_utf8(out@) && ok_from(out@, 0),
        r matches Ok(st) ==> (st.latency_ns as int, st.rps as int) == scan_from(
            out@,
            0,
            (0int, 0int),
        ),
        !valid_utf8(out@) ==> r == Err::<WrkStats, ParseError>(ParseError::InvalidUtf8),
        valid_utf8(out@) && !ok_from(out@, 0) ==> r == Err::<WrkStats, ParseError>(
            ParseError::NumberOutOfRange,
        ),
{
    if !validate_utf8(out) {
        return Err(ParseError::InvalidUtf8);
    }
    let n = out.len();
    let mut lat: u64 = 0;
    let mut rps: usize = 0;
    let mut pos: usize = 0;
    loop
        invariant_except_break
            n == out@.len(),
            pos <= n,
            valid_utf8(out@),
            scan_from(out@, 0, (0int, 0int)) == scan_from(
                out@,
                pos as int,
                (lat as int, rps as int),
            ),
            ok_from(out@, 0) <==> ok_from(out@, pos as int),
        ensures
            ok_from(out@, 0),
            scan_from(out@, 0, (0int, 0int)) == (lat as int, rps as int),
        decreases n - pos,
    {
        let k = line_end_x(out, pos);
        let line = copy_range(out, pos, k);
        match scan_line(&line, lat, rps) {
            Ok(p) => {
                lat = p.0;
                rps = p.1;
            },
            Err(e) => {
                proof {
                    assert(!ok_from(out@, pos as int));
                }
                return Err(e);
            },
        }
        if k == n {
            break ;
        }
        pos = k + 1;
    }
    Ok(WrkStats { latency_ns: lat, rps })
}

} // verus!
