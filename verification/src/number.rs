//! Binary floating-point values of 53 significant bits, as integers: which one
//! is nearest to a ratio, and how a ratio rounds to a whole number.
use vstd::prelude::*;
use vstd::arithmetic::power2::{
    lemma2_to64, lemma2_to64_rest, lemma_pow2_adds, lemma_pow2_pos, lemma_pow2_unfold, pow2,
};

verus! {

pub const TWO_52: u64 = 0x10_0000_0000_0000;

pub const TWO_53: u64 = 0x20_0000_0000_0000;

/// How often a fraction is doubled in search of its first bit. Smaller values are nothing
/// to anyone who measures bytes or days.
pub const MAX_SHIFT: u32 = 200;

/// `num / den` rounded to the nearest integer, halves to the even one.
pub open spec fn round_half_even(num: nat, den: nat) -> nat {
    let q = num / den;
    let r = num % den;
    if 2 * r > den || (2 * r == den && q % 2 == 1) {
        q + 1
    } else {
        q
    }
}

/// `num / den` rounded to the nearest integer, halves up.
pub open spec fn round_half_up(num: nat, den: nat) -> nat {
    (2 * num + den) / (2 * den)
}

/// `significand * 2^exponent`.
pub struct Binary {
    pub significand: nat,
    pub exponent: int,
}

/// The nearest value to a ratio of at least 2^52.
pub open spec fn halved(num: nat, den: nat) -> Binary
    decreases num - den,
{
    if den > 0 && num >= TWO_53 * den {
        let b = halved(num, 2 * den);
        Binary { significand: b.significand, exponent: b.exponent + 1 }
    } else {
        Binary { significand: round_half_even(num, den), exponent: 0 }
    }
}

/// The nearest value to a ratio below 2^53.
pub open spec fn doubled(num: nat, den: nat) -> Binary
    decreases TWO_53 * den - num,
{
    if 0 < num && num < TWO_52 * den {
        let b = doubled(2 * num, den);
        Binary { significand: b.significand, exponent: b.exponent - 1 }
    } else {
        Binary { significand: round_half_even(num, den), exponent: 0 }
    }
}

/// The floating-point value nearest to `num / den`: the ratio is scaled by two until its
/// integer part has 53 bits, and rounded there, halves to the even significand.
pub open spec fn nearest(num: nat, den: nat) -> Binary {
    if num >= TWO_53 * den {
        halved(num, den)
    } else {
        doubled(num, den)
    }
}

/// `b * 2^shift` without its fraction.
pub open spec fn truncated(b: Binary, shift: int) -> nat {
    if b.exponent + shift >= 0 {
        b.significand * pow2((b.exponent + shift) as nat)
    } else {
        b.significand / pow2((-(b.exponent + shift)) as nat)
    }
}

/// `b` rounded to the nearest integer, halves away from zero.
pub open spec fn rounded(b: Binary) -> nat {
    if b.exponent >= 0 {
        b.significand * pow2(b.exponent as nat)
    } else {
        round_half_up(b.significand, pow2((-b.exponent) as nat))
    }
}

/// The value nearest to `b * factor`.
pub open spec fn times(b: Binary, factor: nat) -> Binary {
    let p = nearest(b.significand * factor, 1);
    Binary { significand: p.significand, exponent: p.exponent + b.exponent }
}

/// The distance of two neighbouring floating-point values around the integer `n`.
pub open spec fn spacing(n: nat) -> nat
    decreases n,
{
    if n < TWO_53 {
        1
    } else {
        2 * spacing(n / 2)
    }
}

/// The floating-point value nearest to the integer `n`.
pub open spec fn as_double(n: nat) -> nat {
    round_half_even(n, spacing(n)) * spacing(n)
}

/// The floating-point value nearest to `n`. Between two of them lie at most 2^11 integers.
pub fn to_double(n: u64) -> (v: u128)
    ensures
        v == as_double(n as nat),
        v <= 0x1_0000_0000_0000_0000,
        n < TWO_53 ==> v == n,
        n >= TWO_53 ==> v >= TWO_53,
{
    let mut step: u64 = 1;
    let mut rest: u64 = n;
    while rest >= TWO_53
        invariant
            1 <= step <= 0x800,
            rest * step <= n,
            n - rest * step < step,
            step == 1 || rest >= TWO_52,
            spacing(n as nat) == step * spacing(rest as nat),
            step == 1 || step == 2 || step == 4 || step == 8 || step == 16 || step == 32 || step
                == 64 || step == 128 || step == 256 || step == 512 || step == 1024 || step == 2048,
        decreases rest,
    {
        proof {
            assert(spacing(rest as nat) == 2 * spacing((rest / 2) as nat));
            assert(step * (2 * spacing((rest / 2) as nat)) == (2 * step) * spacing(
                (rest / 2) as nat,
            )) by (nonlinear_arith);
            let half = (rest / 2) as int;
            let odd = (rest % 2) as int;
            assert(rest * step == 2 * half * step + odd * step) by (nonlinear_arith)
                requires
                    rest == 2 * half + odd,
            ;
            assert(half * (2 * step) == 2 * half * step) by (nonlinear_arith);
            assert(odd * step <= step) by (nonlinear_arith)
                requires
                    0 <= odd <= 1,
            ;
            assert(odd * step >= 0) by (nonlinear_arith)
                requires
                    0 <= odd <= 1,
            ;
            if step == 2048 {
                assert(rest * 2048 >= TWO_53 * 2048);
            }
        }
        rest = rest / 2;
        step = step * 2;
    }
    proof {
        assert(step * spacing(rest as nat) == step) by (nonlinear_arith)
            requires
                spacing(rest as nat) == 1,
        ;
        vstd::arithmetic::div_mod::lemma_fundamental_div_mod_converse(
            n as int,
            step as int,
            rest as int,
            n - rest * step,
        );
        assert((rest as int) * step == step * rest) by (nonlinear_arith);
    }
    let left: u64 = n - rest * step;
    let up: bool = 2 * left > step || (2 * left == step && rest % 2 == 1);
    let whole: u64 = if up {
        rest + 1
    } else {
        rest
    };
    proof {
        assert(whole * step <= TWO_53 * 2048) by (nonlinear_arith)
            requires
                whole <= TWO_53,
                step <= 2048,
        ;
        assert(step == 1 ==> whole * step == n);
        if step >= 2 {
            assert(whole * step >= TWO_52 * 2) by (nonlinear_arith)
                requires
                    whole >= TWO_52,
                    step >= 2,
            ;
        }
    }
    (whole as u128) * (step as u128)
}

/// `num / den` rounded to the nearest integer, halves to the even one.
pub fn divide_half_even(num: u128, den: u128) -> (q: u128)
    requires
        0 < den <= 0x4000_0000_0000_0000_0000_0000_0000_0000,
    ensures
        q == round_half_even(num as nat, den as nat),
{
    let q: u128 = num / den;
    let r: u128 = num % den;
    let up: bool = 2 * r > den || (2 * r == den && q % 2 == 1);
    if up {
        assert(den > 1);
        assert(q < u128::MAX) by (nonlinear_arith)
            requires
                q == num / den,
                den > 1,
                num <= u128::MAX,
        ;
        q + 1
    } else {
        q
    }
}

/// A fraction in `0..1` that can be doubled.
pub trait Fraction: Sized {
    spec fn num(&self) -> nat;

    spec fn den(&self) -> nat;

    spec fn wf(&self) -> bool;

    /// Doubles the fraction and hands out its new integer part.
    fn double(&mut self) -> (carry: bool)
        requires
            old(self).wf(),
        ensures
            final(self).wf(),
            final(self).den() == old(self).den(),
            final(self).num() < final(self).den(),
            final(self).num() + (if carry {
                final(self).den()
            } else {
                0
            }) == 2 * old(self).num(),
    ;

    fn is_zero(&self) -> (r: bool)
        requires
            self.wf(),
        ensures
            r == (self.num() == 0),
    ;
}

/// A value as found: its significand, and its exponent.
pub struct Found {
    pub significand: u64,
    pub exponent: i32,
}

impl Found {
    /// The value, which an exponent of less than `-MAX_SHIFT` stands for only roughly.
    pub open spec fn is(&self, b: Binary) -> bool {
        &&& self.significand == b.significand
        &&& self.exponent == b.exponent
    }
}

proof fn lemma_round_bounds(num: nat, den: nat)
    requires
        den > 0,
    ensures
        num / den <= round_half_even(num, den) <= num / den + 1,
{
}

/// A ratio of at least `2^(52 + t)` has an exponent of at least `t`.
pub proof fn lemma_halved_large(num: nat, den: nat, t: nat)
    requires
        den > 0,
        num >= TWO_52 * pow2(t) * den,
    ensures
        halved(num, den).exponent >= t,
        halved(num, den).significand >= TWO_52,
    decreases t,
{
    lemma_pow2_pos(t);
    lemma2_to64();
    if t == 0 {
        assert(TWO_52 * pow2(0) * den == TWO_52 * den) by (nonlinear_arith)
            requires
                pow2(0) == 1,
        ;
        lemma_halved_significand(num, den);
    } else {
        lemma_pow2_unfold(t);
        let p = pow2((t - 1) as nat);
        assert(TWO_52 * pow2(t) * den == TWO_52 * p * (2 * den)) by (nonlinear_arith)
            requires
                pow2(t) == 2 * p,
        ;
        lemma_pow2_pos((t - 1) as nat);
        assert(TWO_52 * p * (2 * den) >= TWO_53 * den) by (nonlinear_arith)
            requires
                p >= 1,
                TWO_53 == 2 * TWO_52,
        ;
        lemma_halved_large(num, 2 * den, (t - 1) as nat);
    }
}

/// The significand has 53 bits, or is the power of two above them.
pub proof fn lemma_halved_significand(num: nat, den: nat)
    requires
        den > 0,
        num >= TWO_52 * den,
    ensures
        TWO_52 <= halved(num, den).significand <= TWO_53,
        halved(num, den).exponent >= 0,
    decreases num - den,
{
    if num >= TWO_53 * den {
        lemma_halved_significand(num, 2 * den);
    } else {
        lemma_round_bounds(num, den);
        assert(num / den >= TWO_52) by (nonlinear_arith)
            requires
                num >= TWO_52 * den,
                den > 0,
        ;
        assert(num / den < TWO_53) by (nonlinear_arith)
            requires
                num < TWO_53 * den,
                den > 0,
        ;
    }
}

/// A ratio below `2^-k` gives at most `2^53 * 2^-(k + 52)`.
pub proof fn lemma_doubled_small(num: nat, den: nat, k: nat)
    requires
        0 < num,
        num * pow2(k) < den,
    ensures
        doubled(num, den).exponent <= -(k + 52),
        doubled(num, den).significand <= TWO_53,
    decreases k,
{
    lemma_pow2_pos(k);
    assert(num <= num * pow2(k)) by (nonlinear_arith)
        requires
            pow2(k) >= 1,
    ;
    assert(num < TWO_52 * den);
    if k == 0 {
        lemma2_to64();
        lemma2_to64_rest();
        assert(num * pow2(0) == num) by (nonlinear_arith)
            requires
                pow2(0) == 1,
        ;
        assert(num * pow2(52) < TWO_52 * den) by (nonlinear_arith)
            requires
                pow2(52) == TWO_52,
                num < den,
        ;
        lemma_doubled_below(num, den, 52);
    } else {
        lemma_pow2_unfold(k);
        let p = pow2((k - 1) as nat);
        assert((2 * num) * p == num * pow2(k)) by (nonlinear_arith)
            requires
                pow2(k) == 2 * p,
        ;
        lemma_doubled_small(2 * num, den, (k - 1) as nat);
    }
}

/// A ratio below `2^(52 - t)` has an exponent below `-t`.
pub proof fn lemma_doubled_below(num: nat, den: nat, t: nat)
    requires
        0 < num,
        t <= 52,
        num * pow2(t) < TWO_52 * den,
    ensures
        doubled(num, den).exponent < -t,
        doubled(num, den).significand <= TWO_53,
    decreases t,
{
    lemma2_to64();
    lemma_pow2_pos(t);
    assert(num <= num * pow2(t)) by (nonlinear_arith)
        requires
            pow2(t) >= 1,
    ;
    if t == 0 {
        lemma_doubled_significand(2 * num, den);
    } else {
        lemma_pow2_unfold(t);
        let p = pow2((t - 1) as nat);
        assert((2 * num) * p == num * pow2(t)) by (nonlinear_arith)
            requires
                pow2(t) == 2 * p,
        ;
        lemma_doubled_below(2 * num, den, (t - 1) as nat);
    }
}

/// A ratio of at least `2^(52 - k)` has an exponent of at least `-k`.
pub proof fn lemma_doubled_above(num: nat, den: nat, k: nat)
    requires
        den > 0,
        num * pow2(k) >= TWO_52 * den,
    ensures
        doubled(num, den).exponent >= -k,
    decreases k,
{
    lemma2_to64();
    if 0 < num && num < TWO_52 * den {
        if k == 0 {
            assert(num * pow2(0) == num) by (nonlinear_arith)
                requires
                    pow2(0) == 1,
            ;
        } else {
            lemma_pow2_unfold(k);
            let p = pow2((k - 1) as nat);
            assert((2 * num) * p == num * pow2(k)) by (nonlinear_arith)
                requires
                    pow2(k) == 2 * p,
            ;
            lemma_doubled_above(2 * num, den, (k - 1) as nat);
        }
    }
}

/// The significand is at most 2^53, the exponent at most zero.
pub proof fn lemma_doubled_significand(num: nat, den: nat)
    requires
        den > 0,
        num < TWO_53 * den,
    ensures
        doubled(num, den).significand <= TWO_53,
        doubled(num, den).exponent <= 0,
        num > 0 ==> doubled(num, den).significand >= TWO_52,
    decreases TWO_53 * den - num,
{
    if 0 < num && num < TWO_52 * den {
        lemma_doubled_significand(2 * num, den);
    } else {
        lemma_round_bounds(num, den);
        assert(num / den < TWO_53) by (nonlinear_arith)
            requires
                num < TWO_53 * den,
                den > 0,
        ;
        if num > 0 {
            assert(num / den >= TWO_52) by (nonlinear_arith)
                requires
                    num >= TWO_52 * den,
                    den > 0,
            ;
        }
    }
}

/// Rounding `x + f` for an integer `x` and a fraction `f`.
proof fn lemma_round_mixed(x: nat, f: nat, den: nat)
    requires
        f < den,
    ensures
        round_half_even(x * den + f, den) == if 2 * f > den || (2 * f == den && x % 2 == 1) {
            x + 1
        } else {
            x
        },
{
    assert(x * den + f == den * x + f) by (nonlinear_arith);
    vstd::arithmetic::div_mod::lemma_fundamental_div_mod_converse(
        (x * den + f) as int,
        den as int,
        x as int,
        f as int,
    );
}

/// The value nearest to `x + f`, for an integer `x` and a fraction `f`. `None` where `x` is
/// zero and `f` is so small that `MAX_SHIFT` doublings do not reach 2^52.
pub fn nearest_below<F: Fraction>(x: u64, f: F) -> (r: Option<Found>)
    requires
        f.wf(),
        f.num() < f.den(),
        x < TWO_53,
    ensures
        ({
            let whole = nearest(x as nat * f.den() + f.num(), f.den());
            match r {
                Some(found) => found.is(whole) && found.significand <= TWO_53 && -MAX_SHIFT
                    <= found.exponent <= 0,
                None => whole.exponent <= -MAX_SHIFT && whole.significand <= TWO_53,
            }
        }),
{
    let ghost den = f.den();
    let ghost start: nat = x as nat * den + f.num();
    proof {
        assert(start < TWO_53 * den) by (nonlinear_arith)
            requires
                x < TWO_53,
                start == x * den + f.num(),
                f.num() < den,
        ;
        lemma_doubled_significand(start, den);
    }
    if x == 0 && f.is_zero() {
        assert(start == 0) by (nonlinear_arith)
            requires
                x == 0,
                f.num() == 0,
                start == x * den + f.num(),
        ;
        proof {
            lemma_round_mixed(0, 0, den);
        }
        return Some(Found { significand: 0, exponent: 0 });
    }
    let mut x: u64 = x;
    let mut f: F = f;
    let mut shift: u32 = 0;
    let ghost mut num: nat = start;
    proof {
        lemma2_to64();
        assert(start * pow2(0) == start) by (nonlinear_arith)
            requires
                pow2(0) == 1,
        ;
        assert(start > 0) by (nonlinear_arith)
            requires
                x > 0 || f.num() > 0,
                den > 0,
                start == x * den + f.num(),
        ;
    }
    while x < TWO_52 && shift < MAX_SHIFT
        invariant
            f.wf(),
            f.den() == den,
            f.num() < den,
            x < TWO_53,
            shift <= MAX_SHIFT,
            0 < start <= num,
            num == x * den + f.num(),
            num == start * pow2(shift as nat),
            num < TWO_53 * den,
            doubled(start, den).significand == doubled(num, den).significand,
            doubled(start, den).exponent == doubled(num, den).exponent - shift,
        decreases MAX_SHIFT - shift,
    {
        let ghost before = num;
        let ghost old_x = x;
        let ghost old_f = f.num();
        let carry = f.double();
        proof {
            lemma_pow2_unfold((shift + 1) as nat);
            num = 2 * num;
            assert(before < TWO_52 * den) by (nonlinear_arith)
                requires
                    old_x < TWO_52,
                    before == old_x * den + old_f,
                    old_f < den,
            ;
            let c: nat = if carry {
                1
            } else {
                0
            };
            assert(num == (2 * old_x + c) * den + f.num()) by (nonlinear_arith)
                requires
                    num == 2 * before,
                    before == old_x * den + old_f,
                    f.num() + c * den == 2 * old_f,
            ;
            assert(start * pow2((shift + 1) as nat) == 2 * before) by (nonlinear_arith)
                requires
                    before == start * pow2(shift as nat),
                    pow2((shift + 1) as nat) == 2 * pow2(shift as nat),
            ;
        }
        x = 2 * x + (if carry {
            1
        } else {
            0
        });
        shift = shift + 1;
    }
    if x < TWO_52 {
        proof {
            assert(num < TWO_52 * den) by (nonlinear_arith)
                requires
                    x < TWO_52,
                    num == x * den + f.num(),
                    f.num() < den,
            ;
            lemma_pow2_adds(148, 52);
            lemma_pow2_pos(148);
            lemma2_to64_rest();
            let small = pow2(148);
            assert(start * small < den) by (nonlinear_arith)
                requires
                    start * (small * TWO_52) < TWO_52 * den,
            ;
            lemma_doubled_small(start, den, 148);
        }
        return None;
    }
    proof {
        assert(num >= TWO_52 * den) by (nonlinear_arith)
            requires
                x >= TWO_52,
                num == x * den + f.num(),
        ;
        lemma_round_mixed(x as nat, f.num(), den);
    }
    let ghost rest = f.num();
    let over_half = f.double();
    let exact = f.is_zero();
    let up: bool = over_half && (!exact || x % 2 == 1);
    let significand: u64 = if up {
        x + 1
    } else {
        x
    };
    Some(Found { significand, exponent: -(shift as i32) })
}

/// The value nearest to `x + f`, for an integer `x` of at least 2^53 and a fraction `f`.
pub fn nearest_above<F: Fraction>(x: u64, f: F) -> (r: Found)
    requires
        f.wf(),
        f.num() < f.den(),
        x >= TWO_53,
    ensures
        r.is(nearest(x as nat * f.den() + f.num(), f.den())),
        TWO_52 <= r.significand <= TWO_53,
        0 <= r.exponent <= 11,
{
    let ghost den = f.den();
    let ghost num: nat = x as nat * den + f.num();
    proof {
        assert(num >= TWO_53 * den) by (nonlinear_arith)
            requires
                x >= TWO_53,
                num == x * den + f.num(),
        ;
    }
    let mut step: u64 = 1;
    let mut shift: i32 = 0;
    let mut q: u64 = x;
    let ghost mut scale: nat = den;
    while q >= TWO_53
        invariant
            1 <= step <= 0x800,
            0 <= shift <= 11,
            step == 1 || step == 2 || step == 4 || step == 8 || step == 16 || step == 32 || step
                == 64 || step == 128 || step == 256 || step == 512 || step == 1024 || step == 2048,
            step == 2048 <==> shift == 11,
            step == 1024 <==> shift == 10,
            step == 512 <==> shift == 9,
            step == 256 <==> shift == 8,
            step == 128 <==> shift == 7,
            step == 64 <==> shift == 6,
            step == 32 <==> shift == 5,
            step == 16 <==> shift == 4,
            step == 8 <==> shift == 3,
            step == 4 <==> shift == 2,
            step == 2 <==> shift == 1,
            step == 1 <==> shift == 0,
            q * step <= x,
            x - q * step < step,
            q >= TWO_52,
            den > 0,
            f.num() < den,
            scale == den * step,
            num == x * den + f.num(),
            halved(num, den).significand == halved(num, scale).significand,
            halved(num, den).exponent == halved(num, scale).exponent + shift,
        decreases q,
    {
        proof {
            let half = (q / 2) as int;
            let odd = (q % 2) as int;
            assert(q * step == 2 * half * step + odd * step) by (nonlinear_arith)
                requires
                    q == 2 * half + odd,
            ;
            assert(half * (2 * step) == 2 * half * step) by (nonlinear_arith);
            assert(0 <= odd * step <= step) by (nonlinear_arith)
                requires
                    0 <= odd <= 1,
            ;
            if step == 2048 {
                assert(q * 2048 >= TWO_53 * 2048);
            }
            assert(num >= TWO_53 * scale) by (nonlinear_arith)
                requires
                    num >= x * den,
                    x >= q * step,
                    q >= TWO_53,
                    scale == den * step,
            ;
            assert(scale > 0) by (nonlinear_arith)
                requires
                    scale == den * step,
                    den > 0,
                    step > 0,
            ;
            assert(2 * scale == den * (2 * step)) by (nonlinear_arith)
                requires
                    scale == den * step,
            ;
            scale = 2 * scale;
        }
        q = q / 2;
        step = step * 2;
        shift = shift + 1;
    }
    let left: u64 = x - q * step;
    let exact = f.is_zero();
    let half: u64 = step / 2;
    proof {
        // num == q * scale + (left * den + f)
        let r = left * den + f.num();
        assert(num == scale * q + r) by (nonlinear_arith)
            requires
                num == x * den + f.num(),
                left == x - q * step,
                scale == den * step,
                r == left * den + f.num(),
        ;
        assert(r < scale) by (nonlinear_arith)
            requires
                r == left * den + f.num(),
                f.num() < den,
                left + 1 <= step,
                scale == den * step,
        ;
        vstd::arithmetic::div_mod::lemma_fundamental_div_mod_converse(
            num as int,
            scale as int,
            q as int,
            r as int,
        );
        assert(num < TWO_53 * scale) by (nonlinear_arith)
            requires
                num == scale * q + r,
                r < scale,
                q < TWO_53,
        ;
        assert(scale == 2 * half * den) by (nonlinear_arith)
            requires
                scale == den * step,
                step == 2 * half,
        ;
        if left > half {
            assert(2 * r > scale) by (nonlinear_arith)
                requires
                    r == left * den + f.num(),
                    left >= half + 1,
                    scale == 2 * half * den,
                    den > 0,
            ;
        } else if left < half {
            assert(2 * r < scale) by (nonlinear_arith)
                requires
                    r == left * den + f.num(),
                    f.num() < den,
                    left + 1 <= half,
                    scale == 2 * half * den,
            ;
        } else {
            assert(2 * r == scale + 2 * f.num()) by (nonlinear_arith)
                requires
                    r == left * den + f.num(),
                    left == half,
                    scale == 2 * half * den,
            ;
        }
    }
    let up: bool = left > half || (left == half && (!exact || q % 2 == 1));
    let significand: u64 = if up {
        q + 1
    } else {
        q
    };
    Found { significand, exponent: shift }
}

/// A fraction with a machine integer on either side of the stroke.
pub struct Ratio {
    pub num: u128,
    pub den: u128,
}

impl Fraction for Ratio {
    open spec fn num(&self) -> nat {
        self.num as nat
    }

    open spec fn den(&self) -> nat {
        self.den as nat
    }

    open spec fn wf(&self) -> bool {
        self.num < self.den <= 0x4000_0000_0000_0000_0000_0000_0000_0000
    }

    fn double(&mut self) -> (carry: bool) {
        let twice: u128 = 2 * self.num;
        if twice >= self.den {
            self.num = twice - self.den;
            true
        } else {
            self.num = twice;
            false
        }
    }

    fn is_zero(&self) -> (r: bool) {
        self.num == 0
    }
}

/// `10^n`.
pub open spec fn ten_to(n: nat) -> nat
    decreases n,
{
    if n == 0 {
        1
    } else {
        10 * ten_to((n - 1) as nat)
    }
}

pub proof fn lemma_ten_to_pos(n: nat)
    ensures
        ten_to(n) > 0,
    decreases n,
{
    if n > 0 {
        lemma_ten_to_pos((n - 1) as nat);
    }
}

/// The number that a sequence of decimal digits writes.
pub open spec fn digits_value(digits: Seq<u8>) -> nat
    decreases digits.len(),
{
    if digits.len() == 0 {
        0
    } else {
        10 * digits_value(digits.drop_last()) + digits.last() as nat
    }
}

/// The decimal places behind a point.
pub struct Places {
    pub digits: Vec<u8>,
}

pub open spec fn are_digits(digits: Seq<u8>) -> bool {
    forall|i: int| 0 <= i < digits.len() ==> (#[trigger] digits[i]) < 10
}

pub proof fn lemma_digits_value_bound(digits: Seq<u8>)
    requires
        are_digits(digits),
    ensures
        digits_value(digits) < ten_to(digits.len()),
    decreases digits.len(),
{
    if digits.len() > 0 {
        lemma_digits_value_bound(digits.drop_last());
        assert(digits[digits.len() - 1] < 10);
    }
}

/// Splitting a digit sequence splits its value.
pub proof fn lemma_digits_value_split(digits: Seq<u8>, i: int)
    requires
        0 <= i <= digits.len(),
    ensures
        digits_value(digits) == digits_value(digits.take(i)) * ten_to((digits.len() - i) as nat)
            + digits_value(digits.skip(i)),
    decreases digits.len() - i,
{
    if i == digits.len() {
        assert(digits.take(i) =~= digits);
        assert(digits.skip(i) =~= Seq::empty());
        assert(digits_value(digits) * 1 == digits_value(digits));
    } else {
        lemma_digits_value_split(digits.drop_last(), i);
        assert(digits.drop_last().take(i) =~= digits.take(i));
        assert(digits.drop_last().skip(i) =~= digits.skip(i).drop_last());
        assert(digits.skip(i).last() == digits.last());
        let a = digits_value(digits.take(i));
        let t = ten_to((digits.len() - 1 - i) as nat);
        assert(10 * (a * t) == a * (10 * t)) by (nonlinear_arith);
    }
}

impl Fraction for Places {
    open spec fn num(&self) -> nat {
        digits_value(self.digits@)
    }

    open spec fn den(&self) -> nat {
        ten_to(self.digits@.len())
    }

    open spec fn wf(&self) -> bool {
        are_digits(self.digits@)
    }

    fn double(&mut self) -> (carry: bool) {
        let ghost before = self.digits@;
        let mut i: usize = self.digits.len();
        let mut carry: u8 = 0;
        proof {
            assert(before.skip(i as int) =~= Seq::empty());
            assert(self.digits@.skip(i as int) =~= Seq::empty());
        }
        while i > 0
            invariant
                i <= before.len(),
                self.digits@.len() == before.len(),
                are_digits(self.digits@),
                are_digits(before),
                carry <= 1,
                self.digits@.take(i as int) == before.take(i as int),
                digits_value(self.digits@.skip(i as int)) + carry * ten_to(
                    (before.len() - i) as nat,
                ) == 2 * digits_value(before.skip(i as int)),
            decreases i,
        {
            let ghost old_digits = self.digits@;
            let ghost old_carry = carry;
            i = i - 1;
            assert(before[i as int] == old_digits.take(i + 1)[i as int]);
            assert(before.take(i + 1)[i as int] == before[i as int]);
            let twice: u8 = 2 * self.digits[i] + carry;
            carry = if twice >= 10 {
                1
            } else {
                0
            };
            let kept: u8 = if twice >= 10 {
                twice - 10
            } else {
                twice
            };
            self.digits.set(i, kept);
            proof {
                let new_digits = self.digits@;
                assert(new_digits.take(i as int) =~= before.take(i as int)) by {
                    assert forall|k: int| 0 <= k < i implies new_digits[k] == before[k] by {
                        assert(old_digits.take(i + 1)[k] == before.take(i + 1)[k]);
                    }
                }
                let tail_new = new_digits.skip(i as int);
                let tail_old = before.skip(i as int);
                lemma_digits_value_split(tail_new, 1);
                lemma_digits_value_split(tail_old, 1);
                assert(tail_new.skip(1) =~= old_digits.skip(i + 1));
                assert(tail_old.skip(1) =~= before.skip(i + 1));
                assert(tail_new.take(1) =~= seq![kept]);
                assert(tail_old.take(1) =~= seq![before[i as int]]);
                reveal_with_fuel(digits_value, 2);
                assert(seq![kept].drop_last() =~= Seq::empty());
                assert(seq![before[i as int]].drop_last() =~= Seq::empty());
                let t = ten_to((before.len() - i - 1) as nat);
                assert(digits_value(tail_new) == kept * t + digits_value(old_digits.skip(i + 1)));
                assert(digits_value(tail_old) == before[i as int] * t + digits_value(
                    before.skip(i + 1),
                ));
                assert(kept + 10 * carry == 2 * before[i as int] + old_carry);
                assert(kept * t + carry * (10 * t) == 2 * (before[i as int] * t) + old_carry * t)
                    by (nonlinear_arith)
                    requires
                        kept + 10 * carry == 2 * before[i as int] + old_carry,
                ;
            }
        }
        proof {
            assert(self.digits@.skip(0) =~= self.digits@);
            assert(before.skip(0) =~= before);
            lemma_digits_value_bound(self.digits@);
        }
        carry == 1
    }

    fn is_zero(&self) -> (r: bool) {
        let mut i: usize = 0;
        assert(self.digits@.take(0) =~= Seq::empty());
        while i < self.digits.len()
            invariant
                i <= self.digits@.len(),
                are_digits(self.digits@),
                digits_value(self.digits@.take(i as int)) == 0,
            decreases self.digits@.len() - i,
        {
            assert(self.digits@.take(i + 1).drop_last() =~= self.digits@.take(i as int));
            if self.digits[i] != 0 {
                proof {
                    lemma_digits_value_split(self.digits@, i + 1);
                    lemma_ten_to_pos((self.digits@.len() - i - 1) as nat);
                    let a = digits_value(self.digits@.take(i + 1));
                    let t = ten_to((self.digits@.len() - i - 1) as nat);
                    assert(a * t > 0) by (nonlinear_arith)
                        requires
                            a > 0,
                            t > 0,
                    ;
                }
                return false;
            }
            i += 1;
        }
        assert(self.digits@.take(self.digits@.len() as int) =~= self.digits@);
        true
    }
}

} // verus!
