//! Human formatting and parsing of sizes and durations.
//!
//! Sizes use binary units but the shorter `KB`/`MB`/`GB` spelling, so that the
//! numbers compare to what `du -h` shows. Fractions go through binary floating
//! point of 53 bits, and round as it rounds.
use vstd::prelude::*;
use vstd::string::*;
use vstd::arithmetic::power2::{
    lemma2_to64, lemma2_to64_rest, lemma_pow2_adds, lemma_pow2_pos, lemma_pow2_strictly_increases,
    lemma_pow2_unfold, pow2,
};
use crate::model::{Moment, age_phrase, days_between, days_since, humanize_age};
use crate::number::{
    Binary, Found, MAX_SHIFT, Places, Ratio, TWO_52, TWO_53, are_digits, as_double, digits_value,
    divide_half_even, doubled, halved, lemma_digits_value_bound, lemma_digits_value_split,
    lemma_doubled_above, lemma_doubled_below, lemma_doubled_significand, lemma_halved_large,
    lemma_halved_significand, lemma_ten_to_pos, nearest, nearest_above, nearest_below,
    round_half_even, rounded, spacing, ten_to, times, to_double, truncated,
};
use crate::text::{
    chars_of, decimal, decimal_text, has_suffix, lemma_decimal_nonempty, lowered, pad_left,
    is_space,
    lemma_leading_space_at, padded_left, same, slice_text, to_ascii_lower, trailing_space,
    trim_chars, trimmed, trimming_takes_the_space_around, zero_padded,
    zero_padded_text,
};

verus! {

/// The name of the unit of `1024^k` bytes.
pub open spec fn unit_name(k: nat) -> Seq<char> {
    if k == 0 {
        "B"@
    } else if k == 1 {
        "KB"@
    } else if k == 2 {
        "MB"@
    } else if k == 3 {
        "GB"@
    } else if k == 4 {
        "TB"@
    } else {
        "PB"@
    }
}

/// The largest unit that `v` bytes fill, up to petabytes.
pub open spec fn unit_of(v: nat) -> nat {
    if v < 0x400 {
        0
    } else if v < 0x10_0000 {
        1
    } else if v < 0x4000_0000 {
        2
    } else if v < 0x100_0000_0000 {
        3
    } else if v < 0x4_0000_0000_0000 {
        4
    } else {
        5
    }
}

/// `1024^k`.
pub open spec fn unit_size(k: nat) -> nat {
    if k == 0 {
        1
    } else if k == 1 {
        0x400
    } else if k == 2 {
        0x10_0000
    } else if k == 3 {
        0x4000_0000
    } else if k == 4 {
        0x100_0000_0000
    } else {
        0x4_0000_0000_0000
    }
}

/// `num / den` with a fixed number of decimal places.
pub open spec fn fixed(num: nat, den: nat, places: nat) -> Seq<char> {
    let scaled = round_half_even(num * ten_to(places), den);
    if places == 0 {
        decimal(scaled)
    } else {
        decimal(scaled / ten_to(places)) + "."@ + zero_padded(scaled % ten_to(places), places)
    }
}

/// How `n` bytes read: whole bytes below one kilobyte, else three significant digits.
pub open spec fn bytes_spec(n: nat) -> Seq<char> {
    if n < 1024 {
        decimal(n) + " B"@
    } else {
        let v = as_double(n);
        let k = unit_of(v);
        let places: nat = if v >= 100 * unit_size(k) {
            0
        } else if v >= 10 * unit_size(k) {
            1
        } else {
            2
        };
        fixed(v, unit_size(k), places) + " "@ + unit_name(k)
    }
}

fn fixed_text(num: u128, den: u128, places: u8) -> (out: String)
    requires
        places <= 2,
        num <= 0x100_0000_0000_0000_0000_0000_0000,
        0 < den <= 0x4000_0000_0000_0000_0000_0000_0000_0000,
    ensures
        out@ == fixed(num as nat, den as nat, places as nat),
{
    let ten: u128 = if places == 0 {
        1
    } else if places == 1 {
        10
    } else {
        100
    };
    proof {
        reveal_with_fuel(ten_to, 3);
    }
    let scaled: u128 = divide_half_even(num * ten, den);
    if places == 0 {
        decimal_text(scaled)
    } else {
        let whole = decimal_text(scaled / ten);
        let part: u128 = scaled % ten;
        whole.concat(".").concat(zero_padded_text(part as u64, places as usize).as_str())
    }
}

/// Format a byte count for display, e.g. `1.20 GB`.
pub fn bytes(n: u64) -> (out: String)
    ensures
        out@ == bytes_spec(n as nat),
{
    if n < 1024 {
        return decimal_text(n as u128).concat(" B");
    }
    let v: u128 = to_double(n);
    let (unit, name): (u128, &str) = if v < 0x10_0000 {
        (0x400, "KB")
    } else if v < 0x4000_0000 {
        (0x10_0000, "MB")
    } else if v < 0x100_0000_0000 {
        (0x4000_0000, "GB")
    } else if v < 0x4_0000_0000_0000 {
        (0x100_0000_0000, "TB")
    } else {
        (0x4_0000_0000_0000, "PB")
    };
    let places: u8 = if v >= 100 * unit {
        0
    } else if v >= 10 * unit {
        1
    } else {
        2
    };
    fixed_text(v, unit, places).concat(" ").concat(name)
}

/// Byte count for aligned table columns, padded on the left to `width` characters.
pub fn bytes_padded(n: u64, width: usize) -> (out: String)
    ensures
        out@ == padded_left(bytes_spec(n as nat), width as nat),
{
    pad_left(bytes(n).as_str(), width)
}

/// A number as written: its digits, and how many of them stand behind a point.
pub struct Written {
    pub value: nat,
    pub places: nat,
    pub points: nat,
    pub digits: nat,
}

/// Reads digits and points from left to right; an underscore between them means nothing.
pub open spec fn read_number(s: Seq<char>) -> Written
    decreases s.len(),
{
    if s.len() == 0 {
        Written { value: 0, places: 0, points: 0, digits: 0 }
    } else {
        let w = read_number(s.drop_last());
        let c = s.last();
        if c == '.' {
            Written { points: w.points + 1, ..w }
        } else if c == '_' {
            w
        } else {
            Written {
                value: 10 * w.value + ((c as int - '0' as int) as nat),
                places: if w.points > 0 {
                    w.places + 1
                } else {
                    w.places
                },
                points: w.points,
                digits: w.digits + 1,
            }
        }
    }
}

/// One digit at least, one point at most.
pub open spec fn is_number(w: Written) -> bool {
    w.digits > 0 && w.points <= 1
}

/// The floating-point value of a written number.
pub open spec fn written_value(w: Written) -> Binary {
    nearest(w.value, ten_to(w.places))
}

pub open spec fn is_digit(c: char) -> bool {
    '0' <= c <= '9'
}

pub open spec fn in_number(c: char, underscores: bool) -> bool {
    is_digit(c) || c == '.' || (underscores && c == '_')
}

/// How many characters at the start belong to the number.
pub open spec fn number_length(s: Seq<char>, underscores: bool) -> nat
    decreases s.len(),
{
    if s.len() > 0 && in_number(s[0], underscores) {
        1 + number_length(s.skip(1), underscores)
    } else {
        0
    }
}

/// The text behind the number, trimmed and in lower case.
pub open spec fn unit_text(s: Seq<char>, underscores: bool) -> Seq<char> {
    lowered(trimmed(s.skip(number_length(s, underscores) as int)))
}

/// The power of two that a size unit stands for. `MB` and `MiB` are the same.
pub open spec fn size_shift(unit: Seq<char>) -> Option<nat> {
    if unit == ""@ || unit == "b"@ {
        Some(0)
    } else if unit == "k"@ || unit == "kb"@ || unit == "kib"@ {
        Some(10)
    } else if unit == "m"@ || unit == "mb"@ || unit == "mib"@ {
        Some(20)
    } else if unit == "g"@ || unit == "gb"@ || unit == "gib"@ {
        Some(30)
    } else if unit == "t"@ || unit == "tb"@ || unit == "tib"@ {
        Some(40)
    } else if unit == "p"@ || unit == "pb"@ || unit == "pib"@ {
        Some(50)
    } else {
        None
    }
}

pub open spec fn at_most(n: nat, limit: nat) -> nat {
    if n <= limit {
        n
    } else {
        limit
    }
}

/// What a size text means, in bytes.
pub open spec fn parse_bytes_spec(input: Seq<char>) -> Result<nat, Seq<char>> {
    let text = trimmed(input);
    let number = read_number(text.take(number_length(text, true) as int));
    let unit = unit_text(text, true);
    if text.len() == 0 {
        Err("empty size"@)
    } else if !is_number(number) {
        Err("`"@ + input + "` is not a valid size"@)
    } else {
        match size_shift(unit) {
            Some(shift) => Ok(
                at_most(truncated(written_value(number), shift as int), u64::MAX as nat),
            ),
            None => Err("unknown size unit `"@ + unit + "` in `"@ + input + "`"@),
        }
    }
}

/// What a duration unit means in days, or that it is finer than a day.
pub open spec fn day_factor(unit: Seq<char>) -> Option<nat> {
    if unit == ""@ || unit == "d"@ || unit == "day"@ || unit == "days"@ {
        Some(1)
    } else if unit == "w"@ || unit == "week"@ || unit == "weeks"@ {
        Some(7)
    } else if unit == "m"@ || unit == "mo"@ || unit == "month"@ || unit == "months"@ {
        Some(30)
    } else if unit == "y"@ || unit == "year"@ || unit == "years"@ {
        Some(365)
    } else {
        None
    }
}

pub open spec fn below_a_day(unit: Seq<char>) -> bool {
    unit == "h"@ || unit == "hour"@ || unit == "hours"@ || unit == "min"@ || unit == "minute"@
        || unit == "minutes"@
}

/// What a duration text means, in days.
pub open spec fn parse_days_spec(input: Seq<char>) -> Result<nat, Seq<char>> {
    let text = trimmed(input);
    let number = read_number(text.take(number_length(text, false) as int));
    let unit = unit_text(text, false);
    if text.len() == 0 {
        Err("empty duration"@)
    } else if !is_number(number) {
        Err("`"@ + input + "` is not a valid duration"@)
    } else {
        match day_factor(unit) {
            Some(factor) => {
                let days = if factor == 1 {
                    written_value(number)
                } else {
                    times(written_value(number), factor)
                };
                Ok(at_most(rounded(days), u32::MAX as nat))
            },
            None => if below_a_day(unit) {
                Err("`"@ + input + "`: thresholds are measured in days, not hours"@)
            } else {
                Err("unknown duration unit `"@ + unit + "` in `"@ + input + "`"@)
            },
        }
    }
}

/// A result whose error is read as text.
pub open spec fn same_result(r: Result<u64, String>, expected: Result<nat, Seq<char>>) -> bool {
    match (r, expected) {
        (Ok(v), Ok(n)) => v == n,
        (Err(e), Err(t)) => e@ == t,
        _ => false,
    }
}

/// The digits of a number before and behind its point.
struct Digits {
    whole: Vec<u8>,
    places: Vec<u8>,
    points: usize,
}

impl Digits {
    spec fn is(&self, w: Written) -> bool {
        &&& are_digits(self.whole@)
        &&& are_digits(self.places@)
        &&& w.value == digits_value(self.whole@ + self.places@)
        &&& w.places == self.places@.len()
        &&& w.digits == self.whole@.len() + self.places@.len()
        &&& w.points == self.points
    }
}

fn number_end(s: &Vec<char>, underscores: bool) -> (n: usize)
    ensures
        n == number_length(s@, underscores),
        n <= s@.len(),
        forall|i: int| 0 <= i < n ==> in_number(#[trigger] s@[i], underscores),
{
    let mut n: usize = 0;
    assert(s@.skip(0) =~= s@);
    while n < s.len() && (('0' <= s[n] && s[n] <= '9') || s[n] == '.' || (underscores && s[n] == '_'))
        invariant
            n <= s@.len(),
            number_length(s@, underscores) == n + number_length(s@.skip(n as int), underscores),
            forall|i: int| 0 <= i < n ==> in_number(#[trigger] s@[i], underscores),
        decreases s@.len() - n,
    {
        assert(s@.skip(n as int).skip(1) =~= s@.skip(n + 1));
        assert(s@.skip(n as int)[0] == s@[n as int]);
        n += 1;
    }
    if n < s.len() {
        assert(s@.skip(n as int)[0] == s@[n as int]);
    }
    n
}

fn read_digits(s: &Vec<char>, n: usize, underscores: bool) -> (d: Digits)
    requires
        n <= s@.len(),
        forall|i: int| 0 <= i < n ==> in_number(#[trigger] s@[i], underscores),
    ensures
        d.is(read_number(s@.take(n as int))),
{
    let mut d = Digits { whole: Vec::new(), places: Vec::new(), points: 0 };
    let mut i: usize = 0;
    assert(s@.take(0) =~= Seq::empty());
    assert(d.whole@ + d.places@ =~= Seq::empty());
    while i < n
        invariant
            i <= n <= s@.len(),
            forall|k: int| 0 <= k < n ==> in_number(#[trigger] s@[k], underscores),
            d.is(read_number(s@.take(i as int))),
            d.points <= i,
            d.points == 0 ==> d.places@.len() == 0,
        decreases n - i,
    {
        let c = s[i];
        let ghost all = d.whole@ + d.places@;
        assert(s@.take(i + 1).drop_last() =~= s@.take(i as int));
        assert(in_number(s@[i as int], underscores));
        if c == '.' {
            d.points = d.points + 1;
        } else if c != '_' {
            let v: u8 = (c as u8) - 48;
            if d.points > 0 {
                d.places.push(v);
            } else {
                d.whole.push(v);
            }
            assert(d.whole@ + d.places@ =~= all.push(v));
            assert(all.push(v).drop_last() =~= all);
        }
        i += 1;
    }
    d
}

/// The integer part of a number, or `None` where it is 2^64 or more.
fn whole_part(whole: &Vec<u8>) -> (r: Option<u64>)
    requires
        are_digits(whole@),
    ensures
        match r {
            Some(v) => v == digits_value(whole@),
            None => digits_value(whole@) >= 0x1_0000_0000_0000_0000,
        },
{
    let mut v: u128 = 0;
    let mut i: usize = 0;
    assert(whole@.take(0) =~= Seq::empty());
    while i < whole.len()
        invariant
            i <= whole@.len(),
            are_digits(whole@),
            v == digits_value(whole@.take(i as int)),
            v < 0x1_0000_0000_0000_0000,
        decreases whole@.len() - i,
    {
        assert(whole@.take(i + 1).drop_last() =~= whole@.take(i as int));
        v = 10 * v + whole[i] as u128;
        i += 1;
        if v >= 0x1_0000_0000_0000_0000 {
            proof {
                lemma_digits_value_split(whole@, i as int);
                lemma_ten_to_pos((whole@.len() - i) as nat);
                let t = ten_to((whole@.len() - i) as nat);
                assert(v * t >= v) by (nonlinear_arith)
                    requires
                        t >= 1,
                        v >= 0,
                ;
            }
            return None;
        }
    }
    assert(whole@.take(whole@.len() as int) =~= whole@);
    Some(v as u64)
}

/// How a written number was found.
enum Value {
    /// 2^64 or more.
    Huge,
    /// Less than any fraction that shows.
    Tiny,
    Exact(Found),
}

impl Value {
    spec fn is(&self, b: Binary) -> bool {
        match self {
            Value::Huge => b.exponent >= 12 && b.significand >= TWO_52,
            Value::Tiny => b.exponent <= -MAX_SHIFT && b.significand <= TWO_53,
            Value::Exact(found) => found.is(b) && found.significand <= TWO_53 && -MAX_SHIFT
                <= found.exponent <= 11 && (found.exponent >= 1 ==> found.significand >= TWO_52),
        }
    }
}

fn value_of(d: Digits) -> (r: Value)
    requires
        are_digits(d.whole@),
        are_digits(d.places@),
    ensures
        r.is(nearest(digits_value(d.whole@ + d.places@), ten_to(d.places@.len()))),
{
    let ghost all = d.whole@ + d.places@;
    let ghost den = ten_to(d.places@.len());
    let ghost w = digits_value(d.whole@);
    proof {
        lemma_digits_value_split(all, d.whole@.len() as int);
        assert(all.take(d.whole@.len() as int) =~= d.whole@);
        assert(all.skip(d.whole@.len() as int) =~= d.places@);
        lemma_digits_value_bound(d.places@);
        lemma_ten_to_pos(d.places@.len());
    }
    match whole_part(&d.whole) {
        None => {
            proof {
                lemma2_to64();
                assert(w * den + digits_value(d.places@) >= TWO_52 * pow2(12) * den) by (nonlinear_arith)
                    requires
                        w >= 0x1_0000_0000_0000_0000,
                        pow2(12) == 0x1000,
                        den > 0,
                ;
                assert(TWO_52 * pow2(12) * den >= TWO_53 * den) by (nonlinear_arith)
                    requires
                        pow2(12) == 0x1000,
                        den > 0,
                ;
                lemma_halved_large(digits_value(all), den, 12);
            }
            Value::Huge
        },
        Some(x) => {
            let f = Places { digits: d.places };
            if x >= TWO_53 {
                proof {
                    assert(x as nat * den + digits_value(d.places@) >= TWO_53 * den)
                        by (nonlinear_arith)
                        requires
                            x >= TWO_53,
                            den > 0,
                    ;
                }
                Value::Exact(nearest_above(x, f))
            } else {
                match nearest_below(x, f) {
                    Some(found) => Value::Exact(found),
                    None => Value::Tiny,
                }
            }
        },
    }
}

fn power_of_two(shift: u32) -> (p: u128)
    requires
        shift <= 126,
    ensures
        p == pow2(shift as nat),
        1 <= p <= 0x4000_0000_0000_0000_0000_0000_0000_0000,
{
    let mut p: u128 = 1;
    let mut i: u32 = 0;
    proof {
        lemma2_to64();
        lemma_pow2_126();
    }
    while i < shift
        invariant
            i <= shift <= 126,
            p == pow2(i as nat),
            p as int * pow2((126 - i) as nat) == 0x4000_0000_0000_0000_0000_0000_0000_0000int,
        decreases shift - i,
    {
        proof {
            lemma_pow2_unfold((i + 1) as nat);
            lemma_pow2_unfold((126 - i) as nat);
            lemma_pow2_pos((125 - i) as nat);
            let q = pow2((125 - i) as nat) as int;
            assert((2 * p) * q == p * (2 * q)) by (nonlinear_arith);
            assert(2 * p <= (2 * p) * q) by (nonlinear_arith)
                requires
                    q >= 1,
                    p >= 0,
            ;
        }
        p = 2 * p;
        i = i + 1;
    }
    proof {
        lemma_pow2_pos(shift as nat);
        lemma_pow2_pos((126 - shift) as nat);
        assert(p <= p * pow2((126 - shift) as nat)) by (nonlinear_arith)
            requires
                pow2((126 - shift) as nat) >= 1,
                p >= 0,
        ;
    }
    p
}

proof fn lemma_pow2_126()
    ensures
        pow2(126) == 0x4000_0000_0000_0000_0000_0000_0000_0000,
{
    lemma2_to64();
    lemma2_to64_rest();
    lemma_pow2_adds(64, 62);
}

/// The whole bytes in a value scaled by a power of two, at most `u64::MAX`.
fn truncate(value: Value, shift: u32, b: Ghost<Binary>) -> (n: u64)
    requires
        shift <= 50,
        value.is(b@),
    ensures
        n == at_most(truncated(b@, shift as int), u64::MAX as nat),
{
    let ghost s = shift as int;
    match value {
        Value::Huge => {
            proof {
                lemma2_to64();
                let e = (b@.exponent + s) as nat;
                lemma_pow2_adds(12, (e - 12) as nat);
                lemma_pow2_pos((e - 12) as nat);
                assert(b@.significand * pow2(e) >= 0x1_0000_0000_0000_0000) by (nonlinear_arith)
                    requires
                        b@.significand >= TWO_52,
                        pow2(e) == 0x1000 * pow2((e - 12) as nat),
                        pow2((e - 12) as nat) >= 1,
                ;
            }
            u64::MAX
        },
        Value::Tiny => {
            proof {
                let e = (-(b@.exponent + s)) as nat;
                lemma2_to64();
                lemma2_to64_rest();
                lemma_pow2_adds(54, (e - 54) as nat);
                lemma_pow2_pos((e - 54) as nat);
                lemma_pow2_unfold(54);
                assert(pow2(e) > b@.significand) by (nonlinear_arith)
                    requires
                        pow2(e) == pow2(54) * pow2((e - 54) as nat),
                        pow2(54) > TWO_53,
                        pow2((e - 54) as nat) >= 1,
                        b@.significand <= TWO_53,
                ;
                vstd::arithmetic::div_mod::lemma_basic_div(b@.significand as int, pow2(e) as int);
            }
            0
        },
        Value::Exact(found) => {
            let e: i32 = found.exponent + shift as i32;
            if e >= 0 {
                let p = power_of_two(e as u32);
                proof {
                    lemma_pow2_adds(e as nat, (61 - e) as nat);
                    lemma2_to64_rest();
                    lemma_pow2_pos((61 - e) as nat);
                    assert(p <= pow2(61)) by (nonlinear_arith)
                        requires
                            pow2(61) == p * pow2((61 - e) as nat),
                            pow2((61 - e) as nat) >= 1,
                            p >= 0,
                    ;
                    assert(found.significand * p <= TWO_53 * pow2(61)) by (nonlinear_arith)
                        requires
                            found.significand <= TWO_53,
                            p <= pow2(61),
                    ;
                }
                let v: u128 = found.significand as u128 * p;
                if v > u64::MAX as u128 {
                    u64::MAX
                } else {
                    v as u64
                }
            } else if e <= -126 {
                proof {
                    lemma_pow2_126();
                    lemma_pow2_adds(126, (-e - 126) as nat);
                    lemma_pow2_pos((-e - 126) as nat);
                    assert(pow2((-e) as nat) > b@.significand) by (nonlinear_arith)
                        requires
                            pow2((-e) as nat) == pow2(126) * pow2((-e - 126) as nat),
                            pow2(126) > TWO_53,
                            pow2((-e - 126) as nat) >= 1,
                            b@.significand <= TWO_53,
                    ;
                    vstd::arithmetic::div_mod::lemma_basic_div(
                        b@.significand as int,
                        pow2((-e) as nat) as int,
                    );
                }
                0
            } else {
                let p = power_of_two((-e) as u32);
                let v: u128 = found.significand as u128 / p;
                proof {
                    lemma_pow2_pos((-e) as nat);
                    assert(found.significand as int / p as int <= found.significand) by (nonlinear_arith)
                        requires
                            p >= 1,
                            found.significand >= 0,
                    ;
                }
                v as u64
            }
        },
    }
}

fn size_shift_of(unit: &str) -> (r: Option<u32>)
    ensures
        match r {
            Some(shift) => size_shift(unit@) == Some(shift as nat) && shift <= 50,
            None => size_shift(unit@) is None,
        },
{
    if same(unit, "") || same(unit, "b") {
        Some(0)
    } else if same(unit, "k") || same(unit, "kb") || same(unit, "kib") {
        Some(10)
    } else if same(unit, "m") || same(unit, "mb") || same(unit, "mib") {
        Some(20)
    } else if same(unit, "g") || same(unit, "gb") || same(unit, "gib") {
        Some(30)
    } else if same(unit, "t") || same(unit, "tb") || same(unit, "tib") {
        Some(40)
    } else if same(unit, "p") || same(unit, "pb") || same(unit, "pib") {
        Some(50)
    } else {
        None
    }
}

/// The text from `from` on, trimmed and in lower case.
fn unit_from(s: &Vec<char>, from: usize) -> (out: String)
    requires
        from <= s@.len(),
    ensures
        out@ == lowered(trimmed(s@.skip(from as int))),
{
    let rest = slice_text(s, from, s.len());
    assert(s@.subrange(from as int, s@.len() as int) =~= s@.skip(from as int));
    let chars = trim_chars(&chars_of(rest.as_str()));
    let text = slice_text(&chars, 0, chars.len());
    assert(chars@.subrange(0, chars@.len() as int) =~= chars@);
    to_ascii_lower(text.as_str())
}

/// Parse a human size such as `50MB`, `1.5 GiB`, `1024` or `2g`.
///
/// Bare numbers are bytes. Both `MB` and `MiB` are 1024-based, as the display is.
pub fn parse_bytes(input: &str) -> (r: Result<u64, String>)
    ensures
        same_result(r, parse_bytes_spec(input@)),
{
    let text = trim_chars(&chars_of(input));
    if text.len() == 0 {
        return Err("empty size".to_owned());
    }
    let end = number_end(&text, true);
    let digits = read_digits(&text, end, true);
    let ghost number = read_number(text@.take(end as int));
    if digits.points > 1 || (digits.whole.len() == 0 && digits.places.len() == 0) {
        return Err("`".to_owned().concat(input).concat("` is not a valid size"));
    }
    let unit = unit_from(&text, end);
    match size_shift_of(unit.as_str()) {
        None => Err(
            "unknown size unit `".to_owned().concat(unit.as_str()).concat("` in `").concat(
                input,
            ).concat("`"),
        ),
        Some(shift) => {
            let value = value_of(digits);
            Ok(truncate(value, shift, Ghost(written_value(number))))
        },
    }
}

/// A product rounded to 53 bits.
fn multiply(found: Found, factor: u64, b: Ghost<Binary>) -> (r: Found)
    requires
        found.is(b@),
        found.significand <= TWO_53,
        -MAX_SHIFT <= found.exponent <= 0,
        1 < factor <= 365,
    ensures
        r.is(times(b@, factor as nat)),
        r.significand <= TWO_53,
        -MAX_SHIFT - 60 <= r.exponent <= 11,
{
    assert(found.significand * factor <= TWO_53 * 365) by (nonlinear_arith)
        requires
            found.significand <= TWO_53,
            factor <= 365,
    ;
    let p: u64 = found.significand * factor;
    let none = Ratio { num: 0, den: 1 };
    assert((p as nat) * 1 + 0 == p as nat);
    if p >= TWO_53 {
        let n = nearest_above(p, none);
        Found { significand: n.significand, exponent: n.exponent + found.exponent }
    } else {
        match nearest_below(p, none) {
            Some(n) => {
                proof {
                    lemma_doubled_integer(p as nat);
                }
                Found { significand: n.significand, exponent: n.exponent + found.exponent }
            },
            None => {
                proof {
                    lemma_doubled_integer(p as nat);
                }
                Found { significand: 0, exponent: 0 }
            },
        }
    }
}

/// An integer needs at most 52 doublings.
proof fn lemma_doubled_integer(n: nat)
    requires
        n < TWO_53,
    ensures
        doubled(n, 1).exponent >= -52,
{
    if n > 0 {
        lemma2_to64_rest();
        assert(n * pow2(52) >= TWO_52 * 1) by (nonlinear_arith)
            requires
                n >= 1,
                pow2(52) == TWO_52,
        ;
        lemma_doubled_above(n, 1, 52);
    }
}

/// A value rounded to whole days, at most `u32::MAX`.
fn round_days(found: Found, b: Ghost<Binary>) -> (n: u32)
    requires
        found.is(b@),
        found.significand <= TWO_53,
        -MAX_SHIFT - 60 <= found.exponent <= 11,
        found.exponent > 0 ==> found.significand >= TWO_52,
    ensures
        n == at_most(rounded(b@), u32::MAX as nat),
{
    if found.exponent >= 0 {
        let p = power_of_two(found.exponent as u32);
        proof {
            lemma2_to64();
            lemma_pow2_pos(found.exponent as nat);
            lemma_pow2_adds(found.exponent as nat, (11 - found.exponent) as nat);
            lemma_pow2_pos((11 - found.exponent) as nat);
            assert(p <= 2048) by (nonlinear_arith)
                requires
                    2048 == p * pow2((11 - found.exponent) as nat),
                    pow2((11 - found.exponent) as nat) >= 1,
                    p >= 0,
            ;
            assert(found.significand * p <= TWO_53 * 2048) by (nonlinear_arith)
                requires
                    found.significand <= TWO_53,
                    p <= 2048,
            ;
        }
        let v: u128 = found.significand as u128 * p;
        if v > u32::MAX as u128 {
            u32::MAX
        } else {
            v as u32
        }
    } else if found.exponent < -100 {
        proof {
            let e = (-b@.exponent) as nat;
            lemma2_to64();
            lemma2_to64_rest();
            lemma_pow2_adds(55, (e - 55) as nat);
            lemma_pow2_unfold(55);
            lemma_pow2_pos((e - 55) as nat);
            assert(pow2(e) > 2 * b@.significand) by (nonlinear_arith)
                requires
                    pow2(e) == pow2(55) * pow2((e - 55) as nat),
                    pow2(55) > 2 * TWO_53,
                    pow2((e - 55) as nat) >= 1,
                    b@.significand <= TWO_53,
            ;
            vstd::arithmetic::div_mod::lemma_basic_div(
                (2 * b@.significand + pow2(e)) as int,
                (2 * pow2(e)) as int,
            );
        }
        0
    } else {
        let p = power_of_two((-found.exponent) as u32);
        proof {
            lemma_pow2_pos((-found.exponent) as nat);
            lemma_pow2_126();
            lemma_pow2_adds((-found.exponent) as nat, (100 + found.exponent) as nat);
            lemma_pow2_pos((100 + found.exponent) as nat);
            lemma_pow2_adds(64, 36);
            lemma2_to64();
            lemma2_to64_rest();
            assert(p <= pow2(100)) by (nonlinear_arith)
                requires
                    pow2(100) == p * pow2((100 + found.exponent) as nat),
                    pow2((100 + found.exponent) as nat) >= 1,
                    p >= 0,
            ;
        }
        let v: u128 = (2 * found.significand as u128 + p) / (2 * p);
        if v > u32::MAX as u128 {
            u32::MAX
        } else {
            v as u32
        }
    }
}

fn day_factor_of(unit: &str) -> (r: Option<u64>)
    ensures
        match r {
            Some(factor) => day_factor(unit@) == Some(factor as nat) && 1 <= factor <= 365,
            None => day_factor(unit@) is None,
        },
{
    if same(unit, "") || same(unit, "d") || same(unit, "day") || same(unit, "days") {
        Some(1)
    } else if same(unit, "w") || same(unit, "week") || same(unit, "weeks") {
        Some(7)
    } else if same(unit, "m") || same(unit, "mo") || same(unit, "month") || same(unit, "months") {
        Some(30)
    } else if same(unit, "y") || same(unit, "year") || same(unit, "years") {
        Some(365)
    } else {
        None
    }
}

fn days_of(value: Value, factor: u64, b: Ghost<Binary>) -> (n: u32)
    requires
        value.is(b@),
        1 <= factor <= 365,
    ensures
        n == at_most(
            rounded(
                if factor == 1 {
                    b@
                } else {
                    times(b@, factor as nat)
                },
            ),
            u32::MAX as nat,
        ),
{
    let ghost product = if factor == 1 {
        b@
    } else {
        times(b@, factor as nat)
    };
    match value {
        Value::Huge => {
            proof {
                lemma_large_days(b@, factor as nat, 12);
            }
            u32::MAX
        },
        Value::Tiny => {
            proof {
                lemma_tiny_days(b@, factor as nat);
            }
            0
        },
        Value::Exact(found) => {
            if found.exponent > 0 {
                proof {
                    lemma_large_days(b@, factor as nat, 1);
                }
                u32::MAX
            } else if factor == 1 {
                round_days(found, b)
            } else {
                let r = multiply(found, factor, b);
                if r.exponent > 0 {
                    proof {
                        lemma_product_exponent(b@, factor as nat);
                    }
                }
                round_days(r, Ghost(product))
            }
        },
    }
}

/// A product that needs a positive exponent has a full significand.
proof fn lemma_product_exponent(b: Binary, factor: nat)
    requires
        b.exponent <= 0,
        times(b, factor).exponent > 0,
    ensures
        times(b, factor).significand >= TWO_52,
{
    let p = b.significand * factor;
    if p >= TWO_53 {
        lemma_halved_significand(p, 1);
    } else {
        lemma_doubled_significand(p, 1);
    }
}

/// A value of 2^53 or more days is more than any limit.
proof fn lemma_large_days(b: Binary, factor: nat, e: nat)
    requires
        b.exponent >= e,
        e >= 1,
        b.significand >= TWO_52,
        1 <= factor <= 365,
    ensures
        rounded(b) > u32::MAX,
        factor > 1 ==> rounded(times(b, factor)) > u32::MAX,
{
    lemma_pow2_pos(b.exponent as nat);
    assert(b.significand * pow2(b.exponent as nat) >= TWO_52) by (nonlinear_arith)
        requires
            b.significand >= TWO_52,
            pow2(b.exponent as nat) >= 1,
    ;
    if factor > 1 {
        let p = b.significand * factor;
        assert(p >= TWO_53) by (nonlinear_arith)
            requires
                p == b.significand * factor,
                b.significand >= TWO_52,
                factor >= 2,
        ;
        lemma_halved_significand(p, 1);
        let t = times(b, factor);
        lemma_pow2_pos(t.exponent as nat);
        assert(t.significand * pow2(t.exponent as nat) >= TWO_52) by (nonlinear_arith)
            requires
                t.significand >= TWO_52,
                pow2(t.exponent as nat) >= 1,
        ;
    }
}

proof fn lemma_rounds_to_zero(b: Binary)
    requires
        b.exponent <= -60,
        b.significand <= TWO_53,
    ensures
        rounded(b) == 0,
{
    let e = (-b.exponent) as nat;
    lemma2_to64();
    lemma2_to64_rest();
    lemma_pow2_adds(55, (e - 55) as nat);
    lemma_pow2_unfold(55);
    lemma_pow2_pos((e - 55) as nat);
    assert(pow2(e) > 2 * b.significand) by (nonlinear_arith)
        requires
            pow2(e) == pow2(55) * pow2((e - 55) as nat),
            pow2(55) > 2 * TWO_53,
            pow2((e - 55) as nat) >= 1,
            b.significand <= TWO_53,
    ;
    vstd::arithmetic::div_mod::lemma_basic_div(
        (2 * b.significand + pow2(e)) as int,
        (2 * pow2(e)) as int,
    );
}

proof fn lemma_tiny_days(b: Binary, factor: nat)
    requires
        b.exponent <= -100,
        b.significand <= TWO_53,
        1 <= factor <= 365,
    ensures
        rounded(b) == 0,
        factor > 1 ==> rounded(times(b, factor)) == 0,
{
    lemma_rounds_to_zero(b);
    if factor > 1 {
        let p = b.significand * factor;
        assert(p <= TWO_53 * 365) by (nonlinear_arith)
            requires
                p == b.significand * factor,
                b.significand <= TWO_53,
                factor <= 365,
        ;
        if p >= TWO_53 {
            lemma_halved_significand(p, 1);
            lemma_halved_small(p);
        } else {
            lemma_doubled_significand(p, 1);
        }
        lemma_rounds_to_zero(times(b, factor));
    }
}

/// An integer below 2^62 is halved nine times at most.
proof fn lemma_halved_small(p: nat)
    requires
        p <= TWO_53 * 365,
    ensures
        halved(p, 1).exponent <= 9,
{
    reveal_with_fuel(halved, 11);
}

/// Parse a duration in days, such as `30d`, `6w`, `3mo`, `1y` or `45`.
///
/// Bare numbers are days. `m` means months; units finer than a day are refused.
pub fn parse_days(input: &str) -> (r: Result<u32, String>)
    ensures
        match r {
            Ok(days) => parse_days_spec(input@) == Ok::<nat, Seq<char>>(days as nat),
            Err(e) => parse_days_spec(input@) == Err::<nat, Seq<char>>(e@),
        },
{
    let text = trim_chars(&chars_of(input));
    if text.len() == 0 {
        return Err("empty duration".to_owned());
    }
    let end = number_end(&text, false);
    let digits = read_digits(&text, end, false);
    let ghost number = read_number(text@.take(end as int));
    if digits.points > 1 || (digits.whole.len() == 0 && digits.places.len() == 0) {
        return Err("`".to_owned().concat(input).concat("` is not a valid duration"));
    }
    let unit = unit_from(&text, end);
    match day_factor_of(unit.as_str()) {
        Some(factor) => {
            let value = value_of(digits);
            Ok(days_of(value, factor, Ghost(written_value(number))))
        },
        None => {
            let u = unit.as_str();
            if same(u, "h") || same(u, "hour") || same(u, "hours") || same(u, "min") || same(
                u,
                "minute",
            ) || same(u, "minutes") {
                Err(
                    "`".to_owned().concat(input).concat(
                        "`: thresholds are measured in days, not hours",
                    ),
                )
            } else {
                Err(
                    "unknown duration unit `".to_owned().concat(u).concat("` in `").concat(
                        input,
                    ).concat("`"),
                )
            }
        },
    }
}

/// `secs + nanos / 10^9` as floating point: the fraction is rounded, then the sum.
pub open spec fn seconds_value(secs: nat, nanos: nat) -> Binary {
    let fraction = nearest(nanos, 1_000_000_000);
    let scale = pow2((-fraction.exponent) as nat);
    nearest(secs * scale + fraction.significand, scale)
}

/// How a duration reads: tenths of a second, then minutes, then hours.
pub open spec fn duration_spec(secs: nat, nanos: nat) -> Seq<char> {
    if secs < 60 {
        let v = seconds_value(secs, nanos);
        fixed(v.significand, pow2((-v.exponent) as nat), 1) + "s"@
    } else if secs < 3600 {
        decimal(secs / 60) + "m "@ + zero_padded(secs % 60, 2) + "s"@
    } else {
        decimal(secs / 3600) + "h "@ + zero_padded((secs % 3600) / 60, 2) + "m"@
    }
}

/// The fraction of a second takes between 53 and 82 doublings.
proof fn lemma_nanos(nanos: nat)
    requires
        nanos < 1_000_000_000,
    ensures
        nearest(nanos, 1_000_000_000) == doubled(nanos, 1_000_000_000),
        nanos == 0 ==> doubled(nanos, 1_000_000_000) == (Binary { significand: 0, exponent: 0 }),
        nanos > 0 ==> -82 <= doubled(nanos, 1_000_000_000).exponent <= -53,
        nanos > 0 ==> TWO_52 <= doubled(nanos, 1_000_000_000).significand <= TWO_53,
{
    if nanos > 0 {
        lemma2_to64();
        lemma2_to64_rest();
        assert(nanos * pow2(52) < TWO_52 * 1_000_000_000) by (nonlinear_arith)
            requires
                nanos < 1_000_000_000,
                pow2(52) == TWO_52,
        ;
        lemma_doubled_below(nanos, 1_000_000_000, 52);
        lemma_pow2_adds(52, 30);
        assert(nanos * pow2(82) >= TWO_52 * 1_000_000_000) by (nonlinear_arith)
            requires
                nanos >= 1,
                pow2(82) == TWO_52 * 0x4000_0000,
        ;
        lemma_doubled_above(nanos, 1_000_000_000, 82);
        lemma_doubled_significand(nanos, 1_000_000_000);
    }
}

/// The sum takes at most 82 doublings.
proof fn lemma_sum(total: nat, e: nat)
    requires
        e <= 82,
        total < TWO_53 * pow2(e),
        e > 0 ==> total >= TWO_52,
        e == 0 ==> total < TWO_53,
    ensures
        nearest(total, pow2(e)) == doubled(total, pow2(e)),
        doubled(total, pow2(e)).exponent >= -82,
{
    lemma_pow2_pos(e);
    lemma2_to64();
    if e > 0 {
        assert(total * pow2(e) >= TWO_52 * pow2(e)) by (nonlinear_arith)
            requires
                total >= TWO_52,
        ;
        lemma_doubled_above(total, pow2(e), e);
    } else {
        lemma_doubled_integer(total);
    }
}

/// Compact duration for progress readouts, e.g. `1.4s`, `2m 05s`.
pub fn duration(secs: u64, nanos: u32) -> (out: String)
    requires
        nanos < 1_000_000_000,
    ensures
        out@ == duration_spec(secs as nat, nanos as nat),
{
    if secs < 60 {
        tenths(secs, nanos)
    } else if secs < 3600 {
        decimal_text((secs / 60) as u128).concat("m ").concat(
            zero_padded_text(secs % 60, 2).as_str(),
        ).concat("s")
    } else {
        decimal_text((secs / 3600) as u128).concat("h ").concat(
            zero_padded_text((secs % 3600) / 60, 2).as_str(),
        ).concat("m")
    }
}

fn tenths(secs: u64, nanos: u32) -> (out: String)
    requires
        nanos < 1_000_000_000,
        secs < 60,
    ensures
        out@ == duration_spec(secs as nat, nanos as nat),
{
    let part = Ratio { num: nanos as u128, den: 1_000_000_000 };
    let ghost f = nearest(nanos as nat, 1_000_000_000);
    let ghost e = (-f.exponent) as nat;
    proof {
        lemma_nanos(nanos as nat);
        assert(0nat * 1_000_000_000 + nanos as nat == nanos as nat);
        lemma2_to64();
        lemma2_to64_rest();
        lemma_pow2_pos(e);
        if nanos > 0 {
            lemma_pow2_adds(53, (e - 53) as nat);
            lemma_pow2_pos((e - 53) as nat);
            assert(pow2(e) >= TWO_53) by (nonlinear_arith)
                requires
                    pow2(e) == TWO_53 * pow2((e - 53) as nat),
                    pow2((e - 53) as nat) >= 1,
            ;
        }
    }
    let fraction = match nearest_below(0, part) {
        Some(found) => found,
        None => Found { significand: 0, exponent: 0 },
    };
    let scale: u128 = power_of_two((-fraction.exponent) as u32);
    let significand: u128 = fraction.significand as u128;
    let (x, num): (u64, u128) = if significand >= scale {
        (secs + 1, significand - scale)
    } else {
        (secs, significand)
    };
    let ghost total: nat = (secs as nat) * pow2(e) + f.significand;
    proof {
        assert(x as nat * scale as nat + num as nat == total) by (nonlinear_arith)
            requires
                (x == secs + 1 && num == significand - scale) || (x == secs && num == significand),
                total == (secs as nat) * pow2(e) + f.significand,
                scale == pow2(e),
                significand == f.significand,
        ;
        assert(total < TWO_53 * pow2(e)) by (nonlinear_arith)
            requires
                total == x as nat * scale as nat + num as nat,
                num < scale,
                x <= 60,
                scale == pow2(e),
        ;
        lemma_sum(total, e);
    }
    let sum = Ratio { num, den: scale };
    let value = match nearest_below(x, sum) {
        Some(found) => found,
        None => Found { significand: 0, exponent: 0 },
    };
    let den: u128 = power_of_two((-value.exponent) as u32);
    fixed_text(value.significand as u128, den, 1).concat("s")
}

/// The text with its middle replaced by `…`: a third of what is kept comes from the front. Where
/// there is no room at all, nothing is left.
pub open spec fn ellipsize_spec(s: Seq<char>, max: nat) -> Seq<char> {
    if s.len() <= max {
        s
    } else if max == 0 {
        ""@
    } else {
        let head = (max - 1) / 3;
        let tail = (max - 1) - head;
        s.take(head) + "…"@ + s.skip(s.len() - tail)
    }
}

/// Truncate a string to `max` characters, ellipsising the middle.
///
/// The tail keeps two thirds, because a path is identified by its last components.
pub fn ellipsize(s: &str, max: usize) -> (out: String)
    ensures
        out@ == ellipsize_spec(s@, max as nat),
{
    let chars = chars_of(s);
    if chars.len() <= max {
        return s.to_owned();
    }
    if max == 0 {
        return "".to_owned();
    }
    let keep: usize = max - 1;
    let head: usize = keep / 3;
    let tail: usize = keep - head;
    assert(chars@.subrange(0, head as int) =~= s@.take(head as int));
    assert(chars@.subrange(s@.len() - tail, s@.len() as int) =~= s@.skip(s@.len() - tail));
    slice_text(&chars, 0, head).concat("…").concat(
        slice_text(&chars, chars.len() - tail, chars.len()).as_str(),
    )
}

/// A text that is cut keeps exactly `max` characters, and the end of the text is the end of
/// the result.
pub proof fn ellipsize_fits_and_keeps_the_tail(s: Seq<char>, max: nat)
    ensures
        s.len() <= max ==> ellipsize_spec(s, max) == s,
        ellipsize_spec(s, max).len() <= max,
        s.len() > max ==> ellipsize_spec(s, max).len() == max,
        forall|n: nat|
            #![trigger s.skip(s.len() - n)]
            s.len() > max && 3 * n <= 2 * (max - 1) ==> has_suffix(
                ellipsize_spec(s, max),
                s.skip(s.len() - n),
            ),
{
    reveal_strlit("…");
    reveal_strlit("");
    let out = ellipsize_spec(s, max);
    if s.len() > max && max > 0 {
        let head = (max - 1) / 3;
        let tail = (max - 1) - head;
        assert forall|n: nat|
            #![trigger s.skip(s.len() - n)]
            3 * n <= 2 * (max - 1) implies has_suffix(out, s.skip(s.len() - n)) by {
            assert(out.skip(out.len() - n) =~= s.skip(s.len() - n));
        }
    }
}

/// A whole number of bytes below 2^53, written without a unit, means itself.
pub proof fn bare_numbers_are_bytes(n: nat)
    requires
        n < TWO_53,
    ensures
        parse_bytes_spec(decimal(n)) == Ok::<nat, Seq<char>>(n),
{
    let text = decimal(n);
    lemma_decimal_text(n);
    lemma_decimal_nonempty(n);
    lemma_trimmed_digits(text);
    lemma_number_length_all(text, true);
    assert(text.take(text.len() as int) =~= text);
    assert(text.skip(text.len() as int) =~= Seq::empty());
    lemma_trimmed_empty();
    reveal_strlit("");
    assert(lowered(Seq::<char>::empty()) =~= ""@);
    lemma_exact_value(n);
}

proof fn lemma_trimmed_empty()
    ensures
        trimmed(Seq::empty()) == Seq::<char>::empty(),
{
    assert(Seq::<char>::empty().skip(0) =~= Seq::empty());
    assert(trimmed(Seq::empty()) =~= Seq::<char>::empty());
}

/// A decimal holds digits alone, and reads back as its number.
proof fn lemma_decimal_text(n: nat)
    ensures
        forall|i: int| 0 <= i < decimal(n).len() ==> is_digit(#[trigger] decimal(n)[i]),
        read_number(decimal(n)).value == n,
        read_number(decimal(n)).places == 0,
        read_number(decimal(n)).points == 0,
        read_number(decimal(n)).digits > 0,
    decreases n,
{
    reveal_with_fuel(read_number, 2);
    if n < 10 {
        assert(decimal(n).drop_last() =~= Seq::empty());
    } else {
        lemma_decimal_text(n / 10);
        assert(decimal(n).drop_last() =~= decimal(n / 10));
    }
}

proof fn lemma_trimmed_digits(s: Seq<char>)
    requires
        s.len() > 0,
        forall|i: int| 0 <= i < s.len() ==> is_digit(#[trigger] s[i]),
    ensures
        trimmed(s) == s,
{
    assert(is_digit(s[0]));
    assert(is_digit(s[s.len() - 1]));
    assert(s.skip(0) =~= s);
    assert(s.take(s.len() as int) =~= s);
}

proof fn lemma_number_length_all(s: Seq<char>, underscores: bool)
    requires
        forall|i: int| 0 <= i < s.len() ==> is_digit(#[trigger] s[i]),
    ensures
        number_length(s, underscores) == s.len(),
    decreases s.len(),
{
    if s.len() > 0 {
        assert(is_digit(s[0]));
        assert forall|i: int| 0 <= i < s.skip(1).len() implies is_digit(#[trigger] s.skip(1)[i]) by {
            assert(s.skip(1)[i] == s[i + 1]);
        }
        lemma_number_length_all(s.skip(1), underscores);
    }
}

/// Integers below 2^53 are exact.
proof fn lemma_exact_value(n: nat)
    requires
        n < TWO_53,
    ensures
        truncated(nearest(n, 1), 0) == n,
{
    lemma2_to64();
    if n == 0 {
        assert(0 * pow2(0) == 0);
    } else {
        lemma_exact_doubled(n, n, 0);
        lemma_doubled_integer(n);
        lemma_doubled_significand(n, 1);
        let b = doubled(n, 1);
        let e = (-b.exponent) as nat;
        lemma_pow2_pos(e);
        assert(b.significand / pow2(e) == n) by (nonlinear_arith)
            requires
                b.significand == n * pow2(e),
                pow2(e) > 0,
        ;
        if e == 0 {
            assert(b.significand * pow2(0) == b.significand);
            assert(n * pow2(0) == n);
        }
    }
}

proof fn lemma_exact_doubled(start: nat, n: nat, k: nat)
    requires
        n == start * pow2(k),
        0 < n < TWO_53,
    ensures
        doubled(n, 1).exponent <= 0,
        doubled(n, 1).significand == start * pow2((k - doubled(n, 1).exponent) as nat),
    decreases TWO_53 - n,
{
    if n < TWO_52 {
        lemma_pow2_unfold((k + 1) as nat);
        assert(2 * n == start * pow2((k + 1) as nat)) by (nonlinear_arith)
            requires
                n == start * pow2(k),
                pow2((k + 1) as nat) == 2 * pow2(k),
        ;
        lemma_exact_doubled(start, 2 * n, k + 1);
    } else {
        assert(n / 1 == n && n % 1 == 0);
    }
}

/// A floating-point value with a fixed number of decimal places.
pub open spec fn fixed_value(b: Binary, places: nat) -> Seq<char> {
    if b.exponent >= 0 {
        fixed(b.significand * pow2(b.exponent as nat), 1, places)
    } else {
        fixed(b.significand, pow2((-b.exponent) as nat), places)
    }
}

fn fixed_value_text(found: Found, places: u8, b: Ghost<Binary>) -> (out: String)
    requires
        found.is(b@),
        found.significand <= TWO_53,
        -126 <= found.exponent <= 11,
        places <= 2,
    ensures
        out@ == fixed_value(b@, places as nat),
{
    if found.exponent >= 0 {
        let scale: u128 = power_of_two(found.exponent as u32);
        proof {
            lemma2_to64();
            if found.exponent < 11 {
                lemma_pow2_strictly_increases(found.exponent as nat, 11);
            }
        }
        assert(found.significand as nat * scale as nat <= TWO_53 * 0x800) by (nonlinear_arith)
            requires
                found.significand <= TWO_53,
                scale <= 0x800,
        ;
        let whole: u128 = found.significand as u128 * scale;
        fixed_text(whole, 1, places)
    } else {
        let den: u128 = power_of_two((-found.exponent) as u32);
        fixed_text(found.significand as u128, den, places)
    }
}

/// The value nearest to a ratio of integers.
fn quotient(num: u128, den: u128) -> (r: Found)
    requires
        0 < den <= 0x1_0000_0000_0000_0000,
        num <= 0x1_0000_0000_0000_0000,
        num / den <= u64::MAX,
    ensures
        r.is(nearest(num as nat, den as nat)),
        r.significand <= TWO_53,
        -116 <= r.exponent <= 11,
        num / den < TWO_53 ==> r.exponent <= 0,
        num > 0 ==> r.significand >= TWO_52,
        num == 0 ==> r.significand == 0 && r.exponent == 0,
{
    let x: u64 = (num / den) as u64;
    let part = Ratio { num: num % den, den };
    assert(x as nat * den as nat + (num % den) as nat == num as nat) by (nonlinear_arith)
        requires
            x == num / den,
            den > 0,
    ;
    if x >= TWO_53 {
        return nearest_above(x, part);
    }
    proof {
        assert(num < TWO_53 * den) by (nonlinear_arith)
            requires
                x == num / den,
                x < TWO_53,
                den > 0,
        ;
        lemma_doubled_significand(num as nat, den as nat);
        if num > 0 {
            lemma2_to64();
            lemma2_to64_rest();
            lemma_pow2_adds(52, 64);
            assert(num as nat * pow2(116) >= TWO_52 * den as nat) by (nonlinear_arith)
                requires
                    num >= 1,
                    pow2(116) == TWO_52 * 0x1_0000_0000_0000_0000,
                    den <= 0x1_0000_0000_0000_0000,
            ;
            lemma_doubled_above(num as nat, den as nat, 116);
        }
    }
    match nearest_below(x, part) {
        Some(found) => found,
        None => Found { significand: 0, exponent: 0 },
    }
}

/// Milliseconds as seconds with one decimal place.
pub open spec fn seconds_spec(millis: nat) -> Seq<char> {
    fixed_value(nearest(as_double(millis), 1000), 1)
}

/// Milliseconds as seconds with one decimal place, e.g. `1.5`.
pub fn seconds(millis: u64) -> (out: String)
    ensures
        out@ == seconds_spec(millis as nat),
{
    let v: u128 = to_double(millis);
    let found = quotient(v, 1000);
    fixed_value_text(found, 1, Ghost(nearest(v as nat, 1000)))
}

/// How many hundredths `part` is of `whole`, with two decimal places.
pub open spec fn percent_spec(part: nat, whole: nat) -> Seq<char> {
    fixed_value(times(nearest(as_double(part), as_double(whole)), 100), 2)
}

/// How many hundredths `part` is of `whole`, with two decimal places.
pub fn percent(part: u64, whole: u64) -> (out: String)
    requires
        0 < whole,
        part <= whole,
    ensures
        out@ == percent_spec(part as nat, whole as nat),
{
    let num: u128 = to_double(part);
    let den: u128 = to_double(whole);
    proof {
        if whole < TWO_53 {
            assert(num / den <= 1) by (nonlinear_arith)
                requires
                    num <= den,
                    den > 0,
            ;
        } else {
            assert(num / den <= 0x800) by (nonlinear_arith)
                requires
                    num <= 0x1_0000_0000_0000_0000,
                    den >= 0x20_0000_0000_0000,
            ;
        }
    }
    let ratio = quotient(num, den);
    let ghost b = nearest(num as nat, den as nat);
    let none = Ratio { num: 0, den: 1 };
    assert(ratio.significand * 100 <= TWO_53 * 100) by (nonlinear_arith)
        requires
            ratio.significand <= TWO_53,
    ;
    let product: u64 = ratio.significand * 100;
    assert((product as nat) * 1 + 0 == product as nat);
    let scaled = if product >= TWO_53 {
        nearest_above(product, none)
    } else {
        assert(ratio.significand == 0);
        Found { significand: 0, exponent: 0 }
    };
    proof {
        if product == 0 {
            assert(nearest(0, 1) == (Binary { significand: 0, exponent: 0 }));
        }
    }
    let value = Found {
        significand: scaled.significand,
        exponent: scaled.exponent + ratio.exponent,
    };
    fixed_value_text(value, 2, Ghost(times(b, 100)))
}

/// How long before `now`, as a coarse human phrase.
pub fn relative_time(then: Moment, now: Moment) -> (s: String)
    ensures
        s@ == age_phrase(days_between(then, now)),
{
    humanize_age(days_since(then, now))
}

/// A whole number with a unit behind it, and as many spaces between them as one likes.
pub open spec fn quantity(n: nat, spaces: nat, unit: Seq<char>) -> Seq<char> {
    decimal(n) + Seq::new(spaces, |i: int| ' ') + unit
}

pub open spec fn is_word(s: Seq<char>) -> bool {
    s.len() > 0 && forall|i: int|
        0 <= i < s.len() ==> 'a' <= #[trigger] s[i] <= 'z' || 'A' <= s[i] <= 'Z'
}

/// The number and the unit of a quantity are told apart.
#[verifier::rlimit(40)]
proof fn lemma_quantity(n: nat, spaces: nat, unit: Seq<char>, underscores: bool)
    requires
        is_word(unit),
    ensures
        ({
            let text = quantity(n, spaces, unit);
            &&& text.len() > 0
            &&& trimmed(text) == text
            &&& text.take(number_length(text, underscores) as int) == decimal(n)
            &&& unit_text(text, underscores) == lowered(unit)
        }),
{
    let text = quantity(n, spaces, unit);
    let digits = decimal(n);
    let gap = Seq::new(spaces, |i: int| ' ');
    let rest = gap + unit;
    assert(digits.len() > 0 && (forall|i: int|
        0 <= i < digits.len() ==> is_digit(#[trigger] digits[i]))) by {
        lemma_decimal_text(n);
        lemma_decimal_nonempty(n);
    }
    let last = unit[unit.len() - 1];
    assert('a' <= last <= 'z' || 'A' <= last <= 'Z');
    let first = unit[0];
    assert('a' <= first <= 'z' || 'A' <= first <= 'Z');
    assert(trimmed(text) == text) by {
        assert(is_digit(digits[0]));
        assert(text[0] == digits[0]);
        assert(text.last() == last);
        trimming_takes_the_space_around(text);
    }
    assert(text =~= digits + rest);
    assert(!in_number(rest[0], underscores)) by {
        if spaces == 0 {
            assert(rest[0] == first);
        } else {
            assert(rest[0] == gap[0]);
        }
    }
    lemma_number_before(digits, rest, underscores);
    assert(text.take(digits.len() as int) =~= digits);
    assert(text.skip(digits.len() as int) =~= rest);
    lemma_unit_behind_spaces(gap, unit);
}

proof fn lemma_unit_behind_spaces(gap: Seq<char>, unit: Seq<char>)
    requires
        is_word(unit),
        forall|i: int| 0 <= i < gap.len() ==> #[trigger] gap[i] == ' ',
    ensures
        trimmed(gap + unit) == unit,
{
    let rest = gap + unit;
    let n = gap.len() as int;
    assert forall|i: int| 0 <= i < n implies is_space(rest[i]) by {
        assert(rest[i] == gap[i]);
    }
    assert(rest[n] == unit[0]);
    lemma_leading_space_at(rest, n);
    assert(rest.skip(n) =~= unit);
    assert(unit.last() == unit[unit.len() - 1]);
    assert(trailing_space(unit) == 0);
    assert(unit.take(unit.len() as int) =~= unit);
}

proof fn lemma_number_before(digits: Seq<char>, rest: Seq<char>, underscores: bool)
    requires
        forall|i: int| 0 <= i < digits.len() ==> is_digit(#[trigger] digits[i]),
        rest.len() > 0,
        !in_number(rest[0], underscores),
    ensures
        number_length(digits + rest, underscores) == digits.len(),
    decreases digits.len(),
{
    let s = digits + rest;
    if digits.len() == 0 {
        assert(s[0] == rest[0]);
    } else {
        assert(is_digit(digits[0]));
        assert(s[0] == digits[0]);
        assert(s.skip(1) =~= digits.skip(1) + rest);
        assert forall|i: int| 0 <= i < digits.skip(1).len() implies is_digit(
            #[trigger] digits.skip(1)[i],
        ) by {
            assert(digits.skip(1)[i] == digits[i + 1]);
        }
        lemma_number_before(digits.skip(1), rest, underscores);
    }
}

/// An integer below 2^53 keeps its value in any power of two.
proof fn lemma_exact_shift(n: nat, shift: nat)
    requires
        n < TWO_53,
    ensures
        truncated(nearest(n, 1), shift as int) == n * pow2(shift),
{
    if n == 0 {
        assert(doubled(0, 1) == (Binary { significand: 0, exponent: 0 }));
        assert(0 * pow2(shift) == 0) by (nonlinear_arith);
    } else {
        lemma2_to64();
        lemma_exact_doubled_from(n);
        let b = doubled(n, 1);
        let e = (-b.exponent) as nat;
        if shift >= e {
            let up = (shift - e) as nat;
            lemma_pow2_adds(e, up);
            assert(n * pow2(e) * pow2(up) == n * pow2(shift)) by (nonlinear_arith)
                requires
                    pow2(e) * pow2(up) == pow2(shift),
            ;
        } else {
            let down = (e - shift) as nat;
            lemma_pow2_adds(shift, down);
            lemma_pow2_pos(down);
            assert((n * pow2(e)) / pow2(down) == n * pow2(shift)) by (nonlinear_arith)
                requires
                    pow2(shift) * pow2(down) == pow2(e),
                    pow2(down) > 0,
            ;
        }
    }
}

proof fn lemma_exact_doubled_from(n: nat)
    requires
        0 < n < TWO_53,
    ensures
        doubled(n, 1).exponent <= 0,
        doubled(n, 1).significand == n * pow2((-doubled(n, 1).exponent) as nat),
{
    lemma2_to64();
    assert(n * pow2(0) == n);
    lemma_exact_doubled(n, n, 0);
}

proof fn lemma_size_units()
    ensures
        size_shift("b"@) == Some(0nat),
        size_shift("k"@) == Some(10nat),
        size_shift("kb"@) == Some(10nat),
        size_shift("kib"@) == Some(10nat),
        size_shift("m"@) == Some(20nat),
        size_shift("mb"@) == Some(20nat),
        size_shift("mib"@) == Some(20nat),
        size_shift("g"@) == Some(30nat),
        size_shift("gb"@) == Some(30nat),
        size_shift("gib"@) == Some(30nat),
        size_shift("t"@) == Some(40nat),
        size_shift("tb"@) == Some(40nat),
        size_shift("tib"@) == Some(40nat),
        size_shift("p"@) == Some(50nat),
        size_shift("pb"@) == Some(50nat),
        size_shift("pib"@) == Some(50nat),
{
    reveal_strlit("");
    reveal_strlit("b");
    reveal_strlit("k");
    reveal_strlit("kb");
    reveal_strlit("kib");
    reveal_strlit("m");
    reveal_strlit("mb");
    reveal_strlit("mib");
    reveal_strlit("g");
    reveal_strlit("gb");
    reveal_strlit("gib");
    reveal_strlit("t");
    reveal_strlit("tb");
    reveal_strlit("tib");
    reveal_strlit("p");
    reveal_strlit("pb");
    reveal_strlit("pib");
    assert("b"@[0] == 'b');
    assert(""@.len() == 0);
    assert("k"@ != ""@);
    assert("k"@ != "b"@);
    assert("k"@[0] == 'k' && "kb"@[0] == 'k' && "kib"@[0] == 'k');
    assert("m"@[0] == 'm' && "mb"@[0] == 'm' && "mib"@[0] == 'm');
    assert("g"@[0] == 'g' && "gb"@[0] == 'g' && "gib"@[0] == 'g');
    assert("t"@[0] == 't' && "tb"@[0] == 't' && "tib"@[0] == 't');
    assert("p"@[0] == 'p' && "pb"@[0] == 'p' && "pib"@[0] == 'p');
}

/// A size is its number times its unit, up to the largest size there is. Small and capital
/// letters are the same, and so are the names of a unit. Any other unit is named as unknown.
#[verifier::rlimit(40)]
pub proof fn a_size_is_counted_in_its_unit(n: nat, spaces: nat, unit: Seq<char>)
    requires
        n < TWO_53,
        is_word(unit),
    ensures
        ({
            let size = parse_bytes_spec(quantity(n, spaces, unit));
            let u = lowered(unit);
            let count = n as int;
            let limit = u64::MAX as int;
            &&& u == "b"@ ==> size == Ok::<nat, Seq<char>>(n)
            &&& u == "k"@ || u == "kb"@ || u == "kib"@ ==> size == Ok::<nat, Seq<char>>(
                vstd::math::min(count * 1024, limit) as nat,
            )
            &&& u == "m"@ || u == "mb"@ || u == "mib"@ ==> size == Ok::<nat, Seq<char>>(
                vstd::math::min(count * (1024 * 1024), limit) as nat,
            )
            &&& u == "g"@ || u == "gb"@ || u == "gib"@ ==> size == Ok::<nat, Seq<char>>(
                vstd::math::min(count * (1024 * 1024 * 1024), limit) as nat,
            )
            &&& u == "t"@ || u == "tb"@ || u == "tib"@ ==> size == Ok::<nat, Seq<char>>(
                vstd::math::min(count * (1024 * 1024 * 1024 * 1024), limit) as nat,
            )
            &&& u == "p"@ || u == "pb"@ || u == "pib"@ ==> size == Ok::<nat, Seq<char>>(
                vstd::math::min(count * (1024 * 1024 * 1024 * 1024 * 1024), limit) as nat,
            )
            &&& !(seq![
                "b"@, "k"@, "kb"@, "kib"@, "m"@, "mb"@, "mib"@, "g"@, "gb"@, "gib"@, "t"@, "tb"@,
                "tib"@, "p"@, "pb"@, "pib"@,
            ].contains(u)) ==> size == Err::<nat, Seq<char>>(
                "unknown size unit `"@ + u + "` in `"@ + quantity(n, spaces, unit) + "`"@,
            )
        }),
{
    let u = lowered(unit);
    lemma_quantity(n, spaces, unit, true);
    lemma_decimal_text(n);
    lemma2_to64();
    lemma2_to64_rest();
    lemma_exact_shift(n, 0);
    lemma_exact_shift(n, 10);
    lemma_exact_shift(n, 20);
    lemma_exact_shift(n, 30);
    lemma_exact_shift(n, 40);
    lemma_exact_shift(n, 50);
    lemma_size_units();
    reveal_strlit("");
    assert(u.len() > 0);
    assert(ten_to(0) == 1);
    let number = read_number(decimal(n));
    assert(written_value(number) == nearest(n, 1));
    let units = seq![
        "b"@, "k"@, "kb"@, "kib"@, "m"@, "mb"@, "mib"@, "g"@, "gb"@, "gib"@, "t"@, "tb"@, "tib"@,
        "p"@, "pb"@, "pib"@,
    ];
    if !units.contains(u) {
        assert(units[0] != u && units[1] != u && units[2] != u && units[3] != u);
        assert(units[4] != u && units[5] != u && units[6] != u && units[7] != u);
        assert(units[8] != u && units[9] != u && units[10] != u && units[11] != u);
        assert(units[12] != u && units[13] != u && units[14] != u && units[15] != u);
    }
}

proof fn lemma_day_units()
    ensures
        day_factor("d"@) == Some(1nat),
        day_factor("day"@) == Some(1nat),
        day_factor("days"@) == Some(1nat),
        day_factor("w"@) == Some(7nat),
        day_factor("week"@) == Some(7nat),
        day_factor("weeks"@) == Some(7nat),
        day_factor("m"@) == Some(30nat),
        day_factor("mo"@) == Some(30nat),
        day_factor("month"@) == Some(30nat),
        day_factor("months"@) == Some(30nat),
        day_factor("y"@) == Some(365nat),
        day_factor("year"@) == Some(365nat),
        day_factor("years"@) == Some(365nat),
        day_factor("h"@) is None,
        below_a_day("h"@),
        day_factor("hour"@) is None,
        below_a_day("hour"@),
        day_factor("hours"@) is None,
        below_a_day("hours"@),
        day_factor("min"@) is None,
        below_a_day("min"@),
        day_factor("minute"@) is None,
        below_a_day("minute"@),
        day_factor("minutes"@) is None,
        below_a_day("minutes"@),
{
    reveal_strlit("");
    reveal_strlit("d");
    reveal_strlit("day");
    reveal_strlit("days");
    reveal_strlit("w");
    reveal_strlit("week");
    reveal_strlit("weeks");
    reveal_strlit("m");
    reveal_strlit("mo");
    reveal_strlit("month");
    reveal_strlit("months");
    reveal_strlit("y");
    reveal_strlit("year");
    reveal_strlit("years");
    reveal_strlit("h");
    reveal_strlit("hour");
    reveal_strlit("hours");
    reveal_strlit("min");
    reveal_strlit("minute");
    reveal_strlit("minutes");
    assert(""@.len() == 0);
    assert("d"@.len() == 1 && "d"@[0] == 'd');
    assert("day"@.len() == 3 && "day"@[0] == 'd' && "day"@[1] == 'a' && "day"@[2] == 'y');
    assert("days"@.len() == 4 && "days"@[0] == 'd' && "days"@[1] == 'a' && "days"@[2] == 'y');
    assert("w"@.len() == 1 && "w"@[0] == 'w');
    assert("week"@.len() == 4 && "week"@[0] == 'w' && "week"@[1] == 'e' && "week"@[2] == 'e');
    assert("weeks"@.len() == 5 && "weeks"@[0] == 'w' && "weeks"@[1] == 'e' && "weeks"@[2] == 'e');
    assert("m"@.len() == 1 && "m"@[0] == 'm');
    assert("mo"@.len() == 2 && "mo"@[0] == 'm' && "mo"@[1] == 'o');
    assert("month"@.len() == 5 && "month"@[0] == 'm' && "month"@[1] == 'o' && "month"@[2] == 'n');
    assert("months"@.len() == 6 && "months"@[0] == 'm' && "months"@[1] == 'o' && "months"@[2] == 'n');
    assert("y"@.len() == 1 && "y"@[0] == 'y');
    assert("year"@.len() == 4 && "year"@[0] == 'y' && "year"@[1] == 'e' && "year"@[2] == 'a');
    assert("years"@.len() == 5 && "years"@[0] == 'y' && "years"@[1] == 'e' && "years"@[2] == 'a');
    assert("h"@.len() == 1 && "h"@[0] == 'h');
    assert("hour"@.len() == 4 && "hour"@[0] == 'h' && "hour"@[1] == 'o' && "hour"@[2] == 'u');
    assert("hours"@.len() == 5 && "hours"@[0] == 'h' && "hours"@[1] == 'o' && "hours"@[2] == 'u');
    assert("min"@.len() == 3 && "min"@[0] == 'm' && "min"@[1] == 'i' && "min"@[2] == 'n');
    assert("minute"@.len() == 6 && "minute"@[0] == 'm' && "minute"@[1] == 'i' && "minute"@[2] == 'n');
    assert("minutes"@.len() == 7 && "minutes"@[0] == 'm' && "minutes"@[1] == 'i' && "minutes"@[2] == 'n');
}

/// A number of at most 53 bits and some zeros is exact.
proof fn lemma_halved_exact(m: nat, e: nat, t: nat)
    requires
        m < TWO_53,
        t <= e,
    ensures
        ({
            let b = halved(m * pow2(e), pow2(t));
            &&& 0 <= b.exponent <= e - t
            &&& b.significand == m * pow2((e - t - b.exponent) as nat)
        }),
    decreases e - t,
{
    let num = m * pow2(e);
    let den = pow2(t);
    let up = (e - t) as nat;
    lemma_pow2_pos(t);
    lemma_pow2_adds(t, up);
    if num >= TWO_53 * den {
        if t == e {
            assert(m * pow2(e) < TWO_53 * pow2(e)) by (nonlinear_arith)
                requires
                    m < TWO_53,
                    pow2(e) > 0,
            ;
        }
        lemma_pow2_unfold(t + 1);
        lemma_halved_exact(m, e, t + 1);
    } else {
        let q = m * pow2(up);
        assert(num == den * q) by (nonlinear_arith)
            requires
                num == m * pow2(e),
                pow2(e) == den * pow2(up),
                q == m * pow2(up),
        ;
        vstd::arithmetic::div_mod::lemma_fundamental_div_mod_converse(
            num as int,
            den as int,
            q as int,
            0,
        );
    }
}

/// A whole number of days stays one, where it is a number of weeks, months or years.
proof fn lemma_exact_days(n: nat, factor: nat)
    requires
        0 < factor,
        n * factor < TWO_53,
    ensures
        rounded(times(nearest(n, 1), factor)) == n * factor,
        rounded(nearest(n, 1)) == n,
{
    let total = n * factor;
    assert(n <= total) by (nonlinear_arith)
        requires
            total == n * factor,
            factor >= 1,
    ;
    lemma2_to64();
    if n == 0 {
        assert(doubled(0, 1) == (Binary { significand: 0, exponent: 0 }));
        assert(0 * factor == 0) by (nonlinear_arith);
        assert(0 * pow2(0) == 0);
    } else {
        lemma_exact_doubled_from(n);
        let b = doubled(n, 1);
        let e = (-b.exponent) as nat;
        lemma_whole(n, e, b);
        let num = b.significand * factor;
        lemma_pow2_pos(e);
        assert(num == total * pow2(e) && num > 0) by (nonlinear_arith)
            requires
                num == b.significand * factor,
                b.significand == n * pow2(e),
                total == n * factor,
                n > 0,
                factor > 0,
                pow2(e) > 0,
        ;
        let p = nearest(num, 1);
        if num >= TWO_53 {
            lemma_halved_exact(total, e, 0);
            lemma_whole(
                total,
                (e - p.exponent) as nat,
                Binary { significand: p.significand, exponent: p.exponent - e },
            );
        } else {
            lemma_exact_doubled_from(num);
            let x = (-p.exponent) as nat;
            lemma_pow2_adds(e, x);
            assert(p.significand == total * pow2(e + x)) by (nonlinear_arith)
                requires
                    p.significand == num * pow2(x),
                    num == total * pow2(e),
                    pow2(e + x) == pow2(e) * pow2(x),
            ;
            lemma_whole(
                total,
                e + x,
                Binary { significand: p.significand, exponent: p.exponent - e },
            );
        }
    }
}

proof fn lemma_whole(n: nat, e: nat, b: Binary)
    requires
        b.significand == n * pow2(e),
        b.exponent == -e,
    ensures
        rounded(b) == n,
{
    lemma2_to64();
    lemma_pow2_pos(e);
    let den = pow2(e);
    if e == 0 {
        assert(n * pow2(0) == n);
        assert(b.significand * pow2(0) == n);
    } else {
        assert(2 * b.significand + den == (2 * den) * n + den) by (nonlinear_arith)
            requires
                b.significand == n * den,
        ;
        vstd::arithmetic::div_mod::lemma_fundamental_div_mod_converse(
            (2 * b.significand + den) as int,
            (2 * den) as int,
            n as int,
            den as int,
        );
    }
}

/// An age is its number times its unit in days, up to the longest age there is: a week has 7 of
/// them, a month 30 and a year 365. What is shorter than a day is refused as such, and any other
/// unit is named as unknown.
#[verifier::rlimit(40)]
pub proof fn an_age_is_counted_in_days(n: nat, spaces: nat, unit: Seq<char>)
    requires
        n * 365 < TWO_53,
        is_word(unit),
    ensures
        ({
            let text = quantity(n, spaces, unit);
            let days = parse_days_spec(text);
            let u = lowered(unit);
            let count = n as int;
            let limit = u32::MAX as int;
            &&& u == "d"@ || u == "day"@ || u == "days"@ ==> days == Ok::<nat, Seq<char>>(
                vstd::math::min(count, limit) as nat,
            )
            &&& u == "w"@ || u == "week"@ || u == "weeks"@ ==> days == Ok::<nat, Seq<char>>(
                vstd::math::min(count * 7, limit) as nat,
            )
            &&& u == "m"@ || u == "mo"@ || u == "month"@ || u == "months"@ ==> days == Ok::<
                nat,
                Seq<char>,
            >(vstd::math::min(count * 30, limit) as nat)
            &&& u == "y"@ || u == "year"@ || u == "years"@ ==> days == Ok::<nat, Seq<char>>(
                vstd::math::min(count * 365, limit) as nat,
            )
            &&& u == "h"@ || u == "hour"@ || u == "hours"@ || u == "min"@ || u == "minute"@ || u
                == "minutes"@ ==> days == Err::<nat, Seq<char>>(
                "`"@ + text + "`: thresholds are measured in days, not hours"@,
            )
            &&& !(seq![
                "d"@, "day"@, "days"@, "w"@, "week"@, "weeks"@, "m"@, "mo"@, "month"@, "months"@,
                "y"@, "year"@, "years"@, "h"@, "hour"@, "hours"@, "min"@, "minute"@, "minutes"@,
            ].contains(u)) ==> days == Err::<nat, Seq<char>>(
                "unknown duration unit `"@ + u + "` in `"@ + text + "`"@,
            )
        }),
{
    let u = lowered(unit);
    lemma_quantity(n, spaces, unit, false);
    lemma_decimal_text(n);
    lemma_exact_days(n, 1);
    lemma_exact_days(n, 7);
    lemma_exact_days(n, 30);
    lemma_exact_days(n, 365);
    lemma_day_units();
    reveal_strlit("");
    assert(u.len() > 0);
    assert(ten_to(0) == 1);
    let number = read_number(decimal(n));
    assert(written_value(number) == nearest(n, 1));
    let units = seq![
        "d"@, "day"@, "days"@, "w"@, "week"@, "weeks"@, "m"@, "mo"@, "month"@, "months"@, "y"@,
        "year"@, "years"@, "h"@, "hour"@, "hours"@, "min"@, "minute"@, "minutes"@,
    ];
    if !units.contains(u) {
        assert(units[0] != u && units[1] != u && units[2] != u && units[3] != u);
        assert(units[4] != u && units[5] != u && units[6] != u && units[7] != u);
        assert(units[8] != u && units[9] != u && units[10] != u && units[11] != u);
        assert(units[12] != u && units[13] != u && units[14] != u && units[15] != u);
        assert(units[16] != u && units[17] != u && units[18] != u);
    }
}

/// So many whole units of `1024^k` bytes.
pub open spec fn units_of(count: nat, k: nat) -> nat {
    if k == 1 {
        count * 1024
    } else if k == 2 {
        count * 1_048_576
    } else if k == 3 {
        count * 1_073_741_824
    } else {
        count * 1_099_511_627_776
    }
}

proof fn lemma_fixed_whole(count: nat, den: nat, num: nat, places: nat)
    requires
        den > 0,
        num == count * den,
        places <= 2,
    ensures
        places == 0 ==> fixed(num, den, places) == decimal(count),
        places == 1 ==> fixed(num, den, places) == decimal(count) + "."@ + zero_padded(0, 1),
        places == 2 ==> fixed(num, den, places) == decimal(count) + "."@ + zero_padded(0, 2),
{
    reveal_with_fuel(ten_to, 3);
    let ten = ten_to(places);
    let q = count * ten;
    assert(num * ten == q * den) by (nonlinear_arith)
        requires
            num == count * den,
            q == count * ten,
    ;
    vstd::arithmetic::div_mod::lemma_fundamental_div_mod_converse(
        (num * ten) as int,
        den as int,
        q as int,
        0,
    );
    assert(round_half_even(num * ten, den) == q);
    assert(q / ten == count && q % ten == 0) by (nonlinear_arith)
        requires
            q == count * ten,
            ten == 1 || ten == 10 || ten == 100,
    ;
}

/// A whole number of units reads as that number and that unit, with so many places that three
/// digits show.
pub proof fn whole_units_read_as_their_number(count: nat, k: nat)
    requires
        1 <= count < 1024,
        1 <= k <= 4,
    ensures
        ({
            let name = if k == 1 {
                " KB"@
            } else if k == 2 {
                " MB"@
            } else if k == 3 {
                " GB"@
            } else {
                " TB"@
            };
            let places = if count < 10 {
                ".00"@
            } else if count < 100 {
                ".0"@
            } else {
                ""@
            };
            bytes_spec(units_of(count, k)) == decimal(count) + places + name
        }),
{
    let v = units_of(count, k);
    assert(as_double(v) == v) by {
        assert(v < TWO_53);
        assert(spacing(v) == 1);
        assert(v / 1 == v && v % 1 == 0);
        assert(v * 1 == v);
    }
    assert(unit_of(v) == k);
    assert(v == count * unit_size(k)) by {
        assert(unit_size(1) == 1024 && unit_size(2) == 1_048_576);
        assert(unit_size(3) == 1_073_741_824);
        assert(unit_size(4) == 1_099_511_627_776);
    }
    lemma_fixed_whole(count, unit_size(k), v, 0);
    lemma_fixed_whole(count, unit_size(k), v, 1);
    lemma_fixed_whole(count, unit_size(k), v, 2);
    reveal_strlit("");
    reveal_strlit(" ");
    reveal_strlit(".");
    reveal_strlit(".0");
    reveal_strlit(".00");
    reveal_strlit("KB");
    reveal_strlit("MB");
    reveal_strlit("GB");
    reveal_strlit("TB");
    reveal_strlit(" KB");
    reveal_strlit(" MB");
    reveal_strlit(" GB");
    reveal_strlit(" TB");
    reveal_with_fuel(decimal, 2);
    assert(zero_padded(0, 1) =~= seq!['0']);
    assert(zero_padded(0, 2) =~= seq!['0', '0']);
}

/// Digits behind a point are places of the number before it, and an underscore between digits
/// changes nothing.
pub proof fn digits_behind_a_point_are_places(a: Seq<char>, b: Seq<char>)
    requires
        forall|i: int| 0 <= i < a.len() ==> is_digit(#[trigger] a[i]),
        forall|i: int| 0 <= i < b.len() ==> is_digit(#[trigger] b[i]),
    ensures
        ({
            let whole = read_number(a);
            let joined = read_number(a + b);
            let fraction = read_number(a.push('.') + b);
            &&& whole.places == 0 && whole.points == 0 && whole.digits == a.len()
            &&& fraction.value == joined.value && joined.value == whole.value * ten_to(b.len())
                + read_number(b).value
            &&& fraction.places == b.len() && fraction.points == 1
            &&& fraction.digits == a.len() + b.len()
            &&& read_number(a.push('_') + b) == joined
        }),
    decreases a.len() + b.len(),
{
    let pointed = a.push('.') + b;
    let spaced = a.push('_') + b;
    if b.len() == 0 {
        assert(a + b =~= a);
        assert(pointed =~= a.push('.'));
        assert(spaced =~= a.push('_'));
        assert(pointed.drop_last() =~= a);
        assert(spaced.drop_last() =~= a);
        if a.len() > 0 {
            let c = a[a.len() - 1];
            assert(is_digit(c));
            assert forall|i: int| 0 <= i < a.drop_last().len() implies is_digit(
                #[trigger] a.drop_last()[i],
            ) by {
                assert(a.drop_last()[i] == a[i]);
            }
            digits_behind_a_point_are_places(a.drop_last(), Seq::empty());
        }
        let w = read_number(a).value;
        assert(w * ten_to(0) == w) by (nonlinear_arith)
            requires
                ten_to(0) == 1,
        ;
    } else {
        let rest = b.drop_last();
        let c = b[b.len() - 1];
        assert(is_digit(c));
        assert forall|i: int| 0 <= i < rest.len() implies is_digit(#[trigger] rest[i]) by {
            assert(rest[i] == b[i]);
        }
        digits_behind_a_point_are_places(a, rest);
        assert((a + b).drop_last() =~= a + rest);
        assert(pointed.drop_last() =~= a.push('.') + rest);
        assert(spaced.drop_last() =~= a.push('_') + rest);
        let w = read_number(a).value;
        let t = ten_to(rest.len());
        assert(10 * (w * t) == w * (10 * t)) by (nonlinear_arith);
    }
}

/// From a minute on, a duration reads as its whole minutes and seconds, and from an hour on as
/// its whole hours and minutes.
#[verifier::rlimit(40)]
pub proof fn a_duration_reads_as_its_parts(hours: nat, minutes: nat, secs: nat, nanos: nat)
    requires
        minutes < 60,
        secs < 60,
    ensures
        1 <= minutes ==> duration_spec(60 * minutes + secs, nanos) == decimal(minutes) + "m "@
            + decimal(secs / 10) + decimal(secs % 10) + "s"@,
        1 <= hours ==> duration_spec(3600 * hours + 60 * minutes + secs, nanos) == decimal(hours)
            + "h "@ + decimal(minutes / 10) + decimal(minutes % 10) + "m"@,
{
    if 1 <= minutes {
        let whole = 60 * minutes + secs;
        assert(60 <= whole < 3600 && whole / 60 == minutes && whole % 60 == secs);
        assert(duration_spec(whole, nanos) == decimal(minutes) + "m "@ + zero_padded(secs, 2)
            + "s"@);
        lemma_two_digits(secs);
        lemma_regrouped(decimal(minutes) + "m "@, decimal(secs / 10), decimal(secs % 10), "s"@);
    }
    if 1 <= hours {
        let whole = 3600 * hours + 60 * minutes + secs;
        assert(whole / 3600 == hours && (whole % 3600) / 60 == minutes);
        assert(duration_spec(whole, nanos) == decimal(hours) + "h "@ + zero_padded(minutes, 2)
            + "m"@);
        lemma_two_digits(minutes);
        lemma_regrouped(
            decimal(hours) + "h "@,
            decimal(minutes / 10),
            decimal(minutes % 10),
            "m"@,
        );
    }
}

proof fn lemma_regrouped(a: Seq<char>, b: Seq<char>, c: Seq<char>, d: Seq<char>)
    ensures
        a + (b + c) + d == a + b + c + d,
{
    assert(a + (b + c) + d =~= a + b + c + d);
}

proof fn lemma_two_digits(n: nat)
    requires
        n < 100,
    ensures
        zero_padded(n, 2) == decimal(n / 10) + decimal(n % 10),
{
    reveal_with_fuel(decimal, 2);
    if n < 10 {
        assert(zero_padded(n, 2) =~= seq!['0'] + decimal(n));
        assert(decimal(0) =~= seq!['0']);
        assert(n / 10 == 0 && n % 10 == n);
    } else {
        assert(decimal(n) =~= decimal(n / 10) + decimal(n % 10));
    }
}

/// A whole number of seconds below a minute reads as that number, with a place of nought.
pub proof fn whole_seconds_read_as_their_number(secs: nat)
    requires
        secs < 60,
    ensures
        duration_spec(secs, 0) == decimal(secs) + ".0s"@,
{
    lemma2_to64();
    assert(nearest(0, 1_000_000_000) == (Binary { significand: 0, exponent: 0 }));
    assert(secs * 1 + 0 == secs);
    assert(seconds_value(secs, 0) == nearest(secs, 1));
    let v = nearest(secs, 1);
    reveal_strlit(".");
    reveal_strlit("s");
    reveal_strlit(".0s");
    reveal_with_fuel(decimal, 2);
    assert(zero_padded(0, 1) =~= seq!['0']);
    if secs == 0 {
        assert(0 * pow2(0) == 0);
        lemma_fixed_whole(0, pow2(0), 0, 1);
    } else {
        lemma_exact_doubled_from(secs);
        let e = (-v.exponent) as nat;
        lemma_pow2_pos(e);
        lemma_fixed_whole(secs, pow2(e), v.significand, 1);
    }
    assert(decimal(secs) + "."@ + zero_padded(0, 1) + "s"@ =~= decimal(secs) + ".0s"@);
}

} // verus!
