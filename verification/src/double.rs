//! Non-negative numbers with a 53-bit significand, rounded to nearest with
//! ties to even: the arithmetic of double-precision hardware, in integers.

use vstd::arithmetic::power2::*;
use vstd::prelude::*;

use crate::text::{push_decimal, push_padded_decimal};

verus! {

/// The smallest significand of a number other than zero, 2^52.
pub const SIG_MIN: u64 = 0x10_0000_0000_0000;

/// The first value that is too large for a significand, 2^53.
pub const SIG_END: u64 = 0x20_0000_0000_0000;

/// The number `significand * 2^exponent`.
#[verifier::ext_equal]
pub struct Binary {
    pub significand: nat,
    pub exponent: int,
}

/// Zero, in its one form.
pub open spec fn zero() -> Binary {
    Binary { significand: 0, exponent: 0 }
}

/// `num / den` rounded to a whole number, a tie going to the even neighbour.
pub open spec fn half_even(num: nat, den: nat) -> nat
    recommends
        den > 0,
{
    let below = num / den;
    let rest = num % den;
    if 2 * rest < den || (2 * rest == den && below % 2 == 0) {
        below
    } else {
        below + 1
    }
}

/// Numerator and denominator of `num / den * 2^by`.
pub open spec fn scaled(num: nat, den: nat, by: int) -> (nat, nat) {
    if by >= 0 {
        (num * pow2(by as nat), den)
    } else {
        (num, den * pow2((-by) as nat))
    }
}

/// Whether `num / den * 2^by` lies where significands lie.
pub open spec fn fills_significand(num: nat, den: nat, by: int) -> bool {
    let (n, d) = scaled(num, den, by);
    SIG_MIN * d <= n < SIG_END * d
}

/// The power of two that moves `num / den` to where significands lie.
pub open spec fn scale_of(num: nat, den: nat) -> int {
    choose|by: int| fills_significand(num, den, by)
}

/// The number of this format that is nearest to `num / den * 2^shift`, the one
/// with the even significand where two are equally near.
pub open spec fn nearest(num: nat, den: nat, shift: int) -> Binary {
    if num == 0 {
        zero()
    } else {
        let by = scale_of(num, den);
        let (n, d) = scaled(num, den, by);
        let rounded = half_even(n, d);
        if rounded == SIG_END {
            Binary { significand: SIG_MIN as nat, exponent: shift - by + 1 }
        } else {
            Binary { significand: rounded, exponent: shift - by }
        }
    }
}

/// `a + b`, rounded.
pub open spec fn sum(a: Binary, b: Binary) -> Binary {
    let low = if a.exponent <= b.exponent {
        a.exponent
    } else {
        b.exponent
    };
    nearest(
        a.significand * pow2((a.exponent - low) as nat) + b.significand * pow2(
            (b.exponent - low) as nat,
        ),
        1,
        low,
    )
}

/// `a * b`, rounded.
pub open spec fn product(a: Binary, b: Binary) -> Binary {
    nearest(a.significand * b.significand, 1, a.exponent + b.exponent)
}

/// `a / b`, rounded.
pub open spec fn quotient(a: Binary, b: Binary) -> Binary {
    nearest(a.significand, b.significand, a.exponent - b.exponent)
}

/// `n`, rounded.
pub open spec fn whole(n: nat) -> Binary {
    nearest(n, 1, 0)
}

/// Whether `b` is `n` or more.
pub open spec fn at_least(b: Binary, n: nat) -> bool {
    let (value, unit) = scaled(b.significand, 1, b.exponent);
    value >= n * unit
}

/// `10^places`.
pub open spec fn power_of_ten(places: nat) -> nat
    decreases places,
{
    if places == 0 {
        1
    } else {
        10 * power_of_ten((places - 1) as nat)
    }
}

/// `b` in units of `10^-places`, rounded to a whole number of them.
pub open spec fn decimal_units(b: Binary, places: nat) -> nat {
    let (n, d) = scaled(b.significand * power_of_ten(places), 1, b.exponent);
    half_even(n, d)
}

/// `units / 10^places` in decimal, with `places` digits after the point.
pub open spec fn pointed(units: nat, places: nat) -> Seq<char> {
    let one = power_of_ten(places);
    if places == 0 {
        crate::text::decimal(units)
    } else {
        crate::text::decimal(units / one) + seq!['.'] + crate::text::padded_decimal(
            units % one,
            places,
        )
    }
}

/// `b` in decimal, rounded to `places` digits after the point.
pub open spec fn fixed(b: Binary, places: nat) -> Seq<char> {
    pointed(decimal_units(b, places), places)
}

/// A multiple of `SIG_MIN * d` doubles with each step of the scale.
proof fn lemma_scale_step(num: nat, den: nat, by: int)
    ensures
        ({
            let (n, d) = scaled(num, den, by);
            let (n1, d1) = scaled(num, den, by + 1);
            SIG_MIN * d <= n ==> SIG_END * d1 <= n1
        }),
{
    let (n, d) = scaled(num, den, by);
    let (n1, d1) = scaled(num, den, by + 1);
    if by >= 0 {
        lemma_pow2_unfold((by + 1) as nat);
        assert(num * (2 * pow2(by as nat)) == 2 * (num * pow2(by as nat))) by (nonlinear_arith);
        assert(n1 == 2 * n && d1 == d);
    } else {
        let k = (-by) as nat;
        lemma_pow2_unfold(k);
        assert(den * (2 * pow2((k - 1) as nat)) == 2 * (den * pow2((k - 1) as nat)))
            by (nonlinear_arith);
        if k == 1 {
            lemma2_to64();
            assert(num * 1 == num && den * 1 == den);
        }
        assert(n1 == n && d == 2 * d1);
    }
    assert(SIG_END * d1 == SIG_MIN * (2 * d1)) by (nonlinear_arith)
        requires
            SIG_END == 2 * SIG_MIN,
    ;
    assert(SIG_MIN * (2 * d1) == 2 * (SIG_MIN * d1)) by (nonlinear_arith);
}

/// Past a scale that reaches the significands, every scale overshoots them.
proof fn lemma_scale_overshoots(num: nat, den: nat, by: int, further: nat)
    requires
        ({
            let (n, d) = scaled(num, den, by);
            SIG_MIN * d <= n
        }),
    ensures
        ({
            let (n, d) = scaled(num, den, by + 1 + further);
            SIG_END * d <= n
        }),
    decreases further,
{
    if further == 0 {
        lemma_scale_step(num, den, by);
    } else {
        lemma_scale_overshoots(num, den, by, (further - 1) as nat);
        let (n, d) = scaled(num, den, by + further);
        assert(SIG_MIN * d <= n);
        lemma_scale_step(num, den, by + further);
    }
}

/// Only one scale moves a number to where significands lie.
pub proof fn lemma_scale_unique(num: nat, den: nat, a: int, b: int)
    requires
        fills_significand(num, den, a),
        fills_significand(num, den, b),
    ensures
        a == b,
        scale_of(num, den) == a,
{
    let c = scale_of(num, den);
    assert(fills_significand(num, den, c));
    if a < b {
        lemma_scale_overshoots(num, den, a, (b - a - 1) as nat);
    }
    if b < a {
        lemma_scale_overshoots(num, den, b, (a - b - 1) as nat);
    }
    if a < c {
        lemma_scale_overshoots(num, den, a, (c - a - 1) as nat);
    }
    if c < a {
        lemma_scale_overshoots(num, den, c, (a - c - 1) as nat);
    }
}

/// A number where significands lie is rounded to a significand or to the end.
proof fn lemma_half_even_range(num: nat, den: nat, low: nat, high: nat)
    requires
        den > 0,
        low * den <= num < high * den,
    ensures
        low <= half_even(num, den) <= high,
{
    vstd::arithmetic::div_mod::lemma_fundamental_div_mod(num as int, den as int);
    let q = num as int / den as int;
    let r = num as int % den as int;
    assert(low <= q) by (nonlinear_arith)
        requires
            low * den <= num,
            num == den * q + r,
            0 <= r < den,
    ;
    assert(q < high) by (nonlinear_arith)
        requires
            num < high * den,
            num == den * q + r,
            0 <= r < den,
    ;
}

proof fn lemma_pow2_monotonic(a: nat, b: nat)
    requires
        a <= b,
    ensures
        pow2(a) <= pow2(b),
{
    if a < b {
        lemma_pow2_strictly_increases(a, b);
    }
}

proof fn lemma_pow2_75()
    ensures
        pow2(75) == 0x800_0000_0000_0000_0000,
{
    lemma2_to64();
    lemma2_to64_rest();
    lemma_pow2_adds(64, 11);
}

/// How far a whole number is from the end of its significand's range.
proof fn lemma_whole_magnitude(n: nat, by: int)
    requires
        n > 0,
        fills_significand(n, 1, by),
        by <= 52,
    ensures
        n < pow2((53 - by) as nat) <= 2 * n,
        pow2((54 - by) as nat) == 2 * pow2((53 - by) as nat),
{
    lemma2_to64();
    lemma2_to64_rest();
    lemma_pow2_unfold((54 - by) as nat);
    if by >= 0 {
        let p = pow2(by as nat);
        let q = pow2((53 - by) as nat);
        lemma_pow2_adds(by as nat, (53 - by) as nat);
        lemma_pow2_pos(by as nat);
        assert(n < q) by (nonlinear_arith)
            requires
                n * p < p * q,
                p > 0,
        ;
        assert(q <= 2 * n) by (nonlinear_arith)
            requires
                p * q <= 2 * (n * p),
                p > 0,
        ;
    } else {
        lemma_pow2_adds(53, (-by) as nat);
    }
}

/// A number that fits the format is its own nearest number.
proof fn lemma_exact(significand: nat, up: nat, shift: int)
    requires
        SIG_MIN <= significand < SIG_END,
    ensures
        nearest(significand * pow2(up), 1, shift) == (Binary {
            significand,
            exponent: shift + up,
        }),
{
    lemma_pow2_pos(up);
    lemma_close_above(significand, up, 0, shift);
}

/// A number less than half a unit above one of the format is rounded to it.
proof fn lemma_close_above(significand: nat, up: nat, above: nat, shift: int)
    requires
        SIG_MIN <= significand < SIG_END,
        2 * above < pow2(up),
    ensures
        nearest(significand * pow2(up) + above, 1, shift) == (Binary {
            significand,
            exponent: shift + up,
        }),
{
    let unit = pow2(up);
    let num = significand * unit + above;
    lemma_pow2_pos(up);
    let by = -(up as int);
    lemma2_to64();
    assert(num * 1 == num && 1 * unit == unit);
    assert(scaled(num, 1, by) == (num, unit));
    assert(SIG_MIN * unit <= num < SIG_END * unit && num > 0) by (nonlinear_arith)
        requires
            SIG_MIN <= significand,
            significand + 1 <= SIG_END,
            num == significand * unit + above,
            above < unit,
            SIG_MIN > 0,
    ;
    assert(fills_significand(num, 1, by));
    lemma_scale_unique(num, 1, by, by);
    vstd::arithmetic::div_mod::lemma_fundamental_div_mod_converse(
        num as int,
        unit as int,
        significand as int,
        above as int,
    );
}

/// Adding zero changes nothing.
proof fn lemma_sum_with_zero(a: Binary, b: Binary)
    requires
        canonical(a),
        canonical(b),
    ensures
        a.significand == 0 ==> sum(a, b) == b,
        b.significand == 0 ==> sum(a, b) == a,
{
    lemma2_to64();
    let other = if a.significand == 0 {
        b
    } else {
        a
    };
    if other.significand != 0 && (a.significand == 0 || b.significand == 0) {
        if other.exponent >= 0 {
            lemma_exact(other.significand, other.exponent as nat, 0);
        } else {
            lemma_exact(other.significand, 0, other.exponent);
        }
    }
    assert forall|p: nat| #[trigger] (0nat * p) == 0 by {
        assert(0nat * p == 0) by (nonlinear_arith);
    }
}

/// The exponent of a number between two powers of two.
pub proof fn lemma_exponent_from_magnitude(n: nat, low: nat, high: nat, exponent: int)
    requires
        pow2(low) <= n < pow2(high),
        exponent + 53 >= 0,
        n < pow2((exponent + 53) as nat) <= 4 * n,
    ensures
        low - 52 <= exponent <= high - 52,
{
    if exponent + 53 <= low {
        lemma_pow2_monotonic((exponent + 53) as nat, low);
    }
    if exponent + 53 >= high + 2 {
        lemma_pow2_monotonic(high + 2, (exponent + 53) as nat);
        lemma_pow2_adds(high, 2);
        lemma2_to64();
    }
}

/// A non-negative number with a 53-bit significand.
#[derive(Clone, Copy, Debug, PartialEq, Eq, Structural)]
pub struct Double {
    significand: u64,
    exponent: i32,
}

impl View for Double {
    type V = Binary;

    closed spec fn view(&self) -> Binary {
        Binary { significand: self.significand as nat, exponent: self.exponent as int }
    }
}

/// Whether `b` is zero or has a full significand.
pub open spec fn canonical(b: Binary) -> bool {
    b == zero() || SIG_MIN <= b.significand < SIG_END
}

impl Double {
    #[verifier::type_invariant]
    spec fn well_formed(self) -> bool {
        canonical(self@)
    }

    /// `num / den` rounded to a whole number, a tie going to the even neighbour.
    fn round_half_even(num: u128, den: u128) -> (rounded: u128)
        requires
            0 < den < 0x8000_0000_0000_0000_0000_0000_0000_0000,
            num < u128::MAX,
        ensures
            rounded == half_even(num as nat, den as nat),
    {
        let below: u128 = num / den;
        let rest: u128 = num % den;
        proof {
            assert(rest < den);
            assert(below <= num) by (nonlinear_arith)
                requires
                    below == num / den,
                    den > 0,
            ;
        }
        if 2 * rest < den || (2 * rest == den && below % 2 == 0) {
            below
        } else {
            below + 1
        }
    }

    /// The number nearest to `num / den * 2^shift`, where `n / d` is `num / den`
    /// moved by `by` to where significands lie.
    fn round_scaled(
        n: u128,
        d: u128,
        exponent: i32,
        Ghost(num): Ghost<nat>,
        Ghost(den): Ghost<nat>,
        Ghost(by): Ghost<int>,
    ) -> (r: Double)
        requires
            num > 0,
            den > 0,
            0 < d < 0x8000_0000_0000_0000_0000_0000_0000_0000,
            n < u128::MAX,
            scaled(num, den, by) == (n as nat, d as nat),
            fills_significand(num, den, by),
            exponent < i32::MAX,
        ensures
            r@ == nearest(num, den, exponent + by),
            canonical(r@),
            r@.significand > 0,
            exponent <= r@.exponent <= exponent + 1,
    {
        proof {
            lemma_scale_unique(num, den, by, by);
            lemma_half_even_range(n as nat, d as nat, SIG_MIN as nat, SIG_END as nat);
        }
        let rounded: u128 = Self::round_half_even(n, d);
        if rounded == SIG_END as u128 {
            Double { significand: SIG_MIN, exponent: exponent + 1 }
        } else {
            Double { significand: rounded as u64, exponent }
        }
    }

    /// Zero.
    pub fn zero() -> (r: Double)
        ensures
            r@ == zero(),
    {
        Double { significand: 0, exponent: 0 }
    }

    /// The number nearest to `n * 2^shift`.
    fn from_shifted(n: u128, shift: i32) -> (r: Double)
        requires
            n < u128::MAX,
            -1000 <= shift <= 1000,
        ensures
            r@ == nearest(n as nat, 1, shift as int),
            n > 0 ==> n < pow2((r@.exponent - shift + 53) as nat) <= 4 * n,
            n > 0 ==> r@.exponent >= shift - 52,
            n > 0 ==> r@.significand > 0,
    {
        if n == 0 {
            return Double::zero();
        }
        let mut up: u128 = n;
        let mut down: u128 = 1;
        let mut by: i32 = 0;
        proof {
            lemma2_to64();
            assert(n * 1 == n);
        }
        while up < SIG_MIN as u128
            invariant
                0 <= by <= 52,
                0 < up < SIG_END || by == 0,
                up > 0,
                n > 0,
                by == 0 ==> up == n,
                up == n * pow2(by as nat),
                up >= pow2(by as nat),
            decreases SIG_END - up,
        {
            proof {
                lemma_pow2_unfold((by + 1) as nat);
                assert(n * (2 * pow2(by as nat)) == 2 * (n * pow2(by as nat)))
                    by (nonlinear_arith);
                if by >= 52 {
                    lemma2_to64();
                    lemma2_to64_rest();
                }
            }
            up = up * 2;
            by = by + 1;
        }
        while up / down >= SIG_END as u128
            invariant
                -76 <= by <= 52,
                0 < down,
                up > 0,
                n > 0,
                n < u128::MAX,
                up >= SIG_MIN * down,
                by > 0 ==> up < SIG_END && down == 1 && up == n * pow2(by as nat),
                by <= 0 ==> up == n && down == pow2((-by) as nat),
            decreases up - down,
        {
            proof {
                let k = (-by) as nat;
                lemma_pow2_unfold(k + 1);
                assert(up >= SIG_END * down) by (nonlinear_arith)
                    requires
                        up / down >= SIG_END,
                        down > 0,
                ;
                assert(down < 0x800_0000_0000_0000_0000);
                assert(k < 75) by {
                    if k >= 75 {
                        lemma_pow2_monotonic(75, k);
                        lemma_pow2_75();
                    }
                }
                assert(SIG_MIN * (2 * down) == SIG_END * down) by (nonlinear_arith)
                    requires
                        SIG_END == 2 * SIG_MIN,
                ;
            }
            down = down * 2;
            by = by - 1;
        }
        assert(fills_significand(n as nat, 1, by as int)) by {
            assert(up < SIG_END * down) by (nonlinear_arith)
                requires
                    up / down < SIG_END,
                    down > 0,
            ;
        }
        proof {
            lemma_whole_magnitude(n as nat, by as int);
        }
        Self::round_scaled(up, down, shift - by, Ghost(n as nat), Ghost(1), Ghost(by as int))
    }

    /// `2^k`.
    fn power_of_two(k: u32) -> (p: u128)
        requires
            k < 128,
        ensures
            p == pow2(k as nat),
    {
        proof {
            lemma2_to64();
        }
        let mut p: u128 = 1;
        let mut i: u32 = 0;
        while i < k
            invariant
                i <= k < 128,
                p == pow2(i as nat),
            decreases k - i,
        {
            proof {
                lemma_pow2_unfold((i + 1) as nat);
                lemma_pow2_monotonic((i + 1) as nat, 127);
                lemma2_to64();
                lemma2_to64_rest();
                lemma_pow2_adds(64, 63);
            }
            p = p * 2;
            i = i + 1;
        }
        p
    }

    /// The number nearest to `n`.
    pub(crate) fn from_u128(n: u128) -> (r: Double)
        requires
            n < u128::MAX,
        ensures
            r@ == whole(n as nat),
            n > 0 ==> n < pow2((r@.exponent + 53) as nat) <= 4 * n,
            -52 <= r@.exponent <= 76,
            n < 0x1_0000_0000_0000_0000_0000_0000 ==> r@.exponent <= 45,
            n > 0 ==> r@.significand > 0,
    {
        let r = Self::from_shifted(n, 0);
        proof {
            if n > 0 && n < 0x1_0000_0000_0000_0000_0000_0000 && r@.exponent >= 46 {
                lemma_pow2_monotonic(98, (r@.exponent + 53) as nat);
                lemma2_to64();
                lemma2_to64_rest();
                lemma_pow2_adds(64, 34);
            }
            if n > 0 && r@.exponent >= 77 {
                lemma_pow2_monotonic(130, (r@.exponent + 53) as nat);
                lemma2_to64();
                lemma2_to64_rest();
                lemma_pow2_adds(64, 64);
                lemma_pow2_adds(128, 2);
            }
        }
        r
    }

    /// `self / other`, rounded.
    pub(crate) fn div(&self, other: &Double) -> (r: Double)
        requires
            other@.significand > 0,
            -400 <= self@.exponent <= 400,
            -400 <= other@.exponent <= 400,
        ensures
            r@ == quotient(self@, other@),
            self@.significand > 0 ==> r@.significand > 0,
            self@.significand > 0 ==> self@.exponent - other@.exponent - 53 <= r@.exponent
                <= self@.exponent - other@.exponent - 51,
            self@.significand == 0 ==> r@ == zero(),
    {
        proof {
            use_type_invariant(self);
            use_type_invariant(other);
            lemma2_to64();
            lemma2_to64_rest();
        }
        if self.significand == 0 {
            return Double::zero();
        }
        let by: i32 = if self.significand >= other.significand {
            52
        } else {
            53
        };
        let unit: u128 = Self::power_of_two(by as u32);
        let ghost num = self.significand as nat;
        let ghost den = other.significand as nat;
        assert(num * unit < 0x1_0000_0000_0000_0000_0000_0000_0000) by (nonlinear_arith)
            requires
                num < SIG_END,
                unit <= SIG_END,
        ;
        let n: u128 = self.significand as u128 * unit;
        assert(fills_significand(num, den, by as int)) by {
            if by == 52 {
                assert(SIG_MIN * den <= num * unit < SIG_END * den) by (nonlinear_arith)
                    requires
                        den <= num < SIG_END,
                        SIG_MIN <= den,
                        unit == SIG_MIN,
                        SIG_END == 2 * SIG_MIN,
                ;
            } else {
                assert(SIG_MIN * den <= num * unit < SIG_END * den) by (nonlinear_arith)
                    requires
                        num < den < SIG_END,
                        SIG_MIN <= num,
                        unit == SIG_END,
                        SIG_END == 2 * SIG_MIN,
                ;
            }
        }
        Self::round_scaled(
            n,
            other.significand as u128,
            self.exponent - other.exponent - by,
            Ghost(num),
            Ghost(den),
            Ghost(by as int),
        )
    }

    /// `self * other`, rounded.
    pub(crate) fn mul(&self, other: &Double) -> (r: Double)
        requires
            -400 <= self@.exponent <= 400,
            -400 <= other@.exponent <= 400,
        ensures
            r@ == product(self@, other@),
            self@.significand > 0 && other@.significand > 0 ==> self@.exponent + other@.exponent
                + 51 <= r@.exponent <= self@.exponent + other@.exponent + 54,
            self@.significand == 0 || other@.significand == 0 ==> r@ == zero(),
    {
        proof {
            use_type_invariant(self);
            use_type_invariant(other);
            assert(self.significand * other.significand < 0x400_0000_0000_0000_0000_0000_0000)
                by (nonlinear_arith)
                requires
                    self.significand < SIG_END,
                    other.significand < SIG_END,
            ;
            assert(self.significand == 0 || other.significand == 0 ==> self.significand
                * other.significand == 0) by (nonlinear_arith);
        }
        let n: u128 = self.significand as u128 * other.significand as u128;
        let r = Self::from_shifted(n, self.exponent + other.exponent);
        proof {
            if self.significand > 0 && other.significand > 0 {
                assert(n >= 0x100_0000_0000_0000_0000_0000_0000) by (nonlinear_arith)
                    requires
                        n == self.significand * other.significand,
                        self.significand >= SIG_MIN,
                        other.significand >= SIG_MIN,
                ;
                lemma2_to64();
                lemma2_to64_rest();
                lemma_pow2_adds(52, 52);
                lemma_pow2_adds(53, 53);
                lemma_exponent_from_magnitude(
                    n as nat,
                    104,
                    106,
                    r@.exponent - (self.exponent + other.exponent),
                );
            }
        }
        r
    }

    /// `self + other`, rounded.
    pub(crate) fn add(&self, other: &Double) -> (r: Double)
        requires
            -400 <= self@.exponent <= 400,
            -400 <= other@.exponent <= 400,
        ensures
            r@ == sum(self@, other@),
            self@.significand == 0 ==> r@ == other@,
            other@.significand == 0 ==> r@ == self@,
            self@.significand > 0 && other@.significand > 0 ==> {
                &&& r@.significand > 0
                &&& self@.exponent <= r@.exponent
                &&& other@.exponent <= r@.exponent
                &&& r@.exponent <= self@.exponent + 3 || r@.exponent <= other@.exponent + 3
            },
    {
        proof {
            use_type_invariant(self);
            use_type_invariant(other);
            lemma_sum_with_zero(self@, other@);
        }
        if self.significand == 0 {
            return *other;
        }
        if other.significand == 0 {
            return *self;
        }
        if self.exponent >= other.exponent {
            Self::add_aligned(self, other)
        } else {
            Self::add_aligned(other, self)
        }
    }

    /// `high + low`, rounded, where `high` has no smaller exponent.
    fn add_aligned(high: &Double, low: &Double) -> (r: Double)
        requires
            high@.significand > 0,
            low@.significand > 0,
            -400 <= low@.exponent <= high@.exponent <= 400,
        ensures
            r@ == sum(high@, low@),
            r@ == sum(low@, high@),
            r@.significand > 0,
            high@.exponent <= r@.exponent <= high@.exponent + 3,
    {
        proof {
            use_type_invariant(high);
            use_type_invariant(low);
            lemma2_to64();
            lemma2_to64_rest();
        }
        let apart: i32 = high.exponent - low.exponent;
        proof {
            assert(low.significand * pow2(0) == low.significand);
            if apart == 0 {
                assert(high.significand * pow2(0) == high.significand);
            }
        }
        if apart >= 55 {
            proof {
                lemma_pow2_monotonic(55, apart as nat);
                lemma_close_above(
                    high.significand as nat,
                    apart as nat,
                    low.significand as nat,
                    low.exponent as int,
                );
            }
            return *high;
        }
        let unit: u128 = Self::power_of_two(apart as u32);
        proof {
            lemma_pow2_monotonic(apart as nat, 54);
            lemma_pow2_pos(apart as nat);
            assert(high.significand * unit < 0x1000_0000_0000_0000_0000_0000_0000)
                by (nonlinear_arith)
                requires
                    high.significand < SIG_END,
                    unit <= 0x40_0000_0000_0000,
            ;
        }
        let n: u128 = high.significand as u128 * unit + low.significand as u128;
        let r = Self::from_shifted(n, low.exponent);
        proof {
            lemma_pow2_adds(52, apart as nat);
            lemma_pow2_adds(54, apart as nat);
            assert(SIG_MIN * unit <= n < 2 * SIG_END * unit) by (nonlinear_arith)
                requires
                    SIG_MIN <= high.significand < SIG_END,
                    low.significand < SIG_END,
                    unit >= 1,
                    n == high.significand * unit + low.significand,
            ;
            lemma_exponent_from_magnitude(
                n as nat,
                (52 + apart) as nat,
                (54 + apart) as nat,
                r@.exponent - low.exponent,
            );
        }
        r
    }

    /// Whether the number is `n` or more.
    pub(crate) fn at_least(&self, n: u64) -> (yes: bool)
        requires
            0 < n <= SIG_MIN,
            self@.exponent <= 400,
        ensures
            yes == at_least(self@, n as nat),
    {
        proof {
            use_type_invariant(self);
            lemma2_to64();
            lemma2_to64_rest();
        }
        assert(n * 1 == n);
        if self.significand == 0 {
            assert(0 * pow2(0) == 0);
            return false;
        }
        if self.exponent >= 0 {
            proof {
                lemma_pow2_pos(self.exponent as nat);
                assert(self.significand * pow2(self.exponent as nat) >= SIG_MIN)
                    by (nonlinear_arith)
                    requires
                        self.significand >= SIG_MIN,
                        pow2(self.exponent as nat) >= 1,
                ;
            }
            return true;
        }
        if self.exponent <= -64 {
            proof {
                let unit = pow2((-self.exponent) as nat);
                lemma_pow2_monotonic(64, (-self.exponent) as nat);
                assert(n * unit > self.significand) by (nonlinear_arith)
                    requires
                        n >= 1,
                        unit > self.significand,
                ;
            }
            return false;
        }
        let unit: u128 = Self::power_of_two((-self.exponent) as u32);
        proof {
            lemma_pow2_monotonic((-self.exponent) as nat, 63);
            assert(n * unit < 0x1_0000_0000_0000_0000_0000_0000_0000_0000) by (nonlinear_arith)
                requires
                    n <= SIG_MIN,
                    unit <= 0x8000_0000_0000_0000,
            ;
        }
        self.significand as u128 >= n as u128 * unit
    }

    /// The number in decimal, rounded to `places` digits after the point.
    pub(crate) fn to_fixed(&self, places: usize) -> (s: String)
        requires
            places <= 3,
            self@.exponent <= 60,
        ensures
            s@ == fixed(self@, places as nat),
    {
        proof {
            use_type_invariant(self);
            lemma2_to64();
            lemma2_to64_rest();
            reveal_with_fuel(power_of_ten, 4);
        }
        let one: u128 = if places == 0 {
            1
        } else if places == 1 {
            10
        } else if places == 2 {
            100
        } else {
            1000
        };
        let tens: u128 = self.significand as u128 * one;
        let units: u128 = if self.exponent >= 0 {
            let unit: u128 = Self::power_of_two(self.exponent as u32);
            proof {
                lemma_pow2_monotonic(self.exponent as nat, 60);
                assert(tens * unit < 0x1000_0000_0000_0000_0000_0000_0000_0000)
                    by (nonlinear_arith)
                    requires
                        tens < 0x8000_0000_0000_0000,
                        unit <= 0x1000_0000_0000_0000,
                ;
                assert((tens * unit) as nat / 1 == tens * unit);
                assert((tens * unit) as nat % 1 == 0);
            }
            tens * unit
        } else if self.exponent <= -64 {
            proof {
                let unit = pow2((-self.exponent) as nat);
                lemma_pow2_monotonic(64, (-self.exponent) as nat);
                vstd::arithmetic::div_mod::lemma_fundamental_div_mod_converse(
                    tens as int,
                    unit as int,
                    0,
                    tens as int,
                );
            }
            0
        } else {
            proof {
                lemma_pow2_monotonic((-self.exponent) as nat, 63);
                lemma_pow2_pos((-self.exponent) as nat);
            }
            Self::round_half_even(tens, Self::power_of_two((-self.exponent) as u32))
        };
        let mut s = String::new();
        if places == 0 {
            push_decimal(&mut s, units);
        } else {
            push_decimal(&mut s, units / one);
            proof {
                reveal_strlit(".");
            }
            s.append(".");
            push_padded_decimal(&mut s, units % one, places);
        }
        assert(s@ =~= fixed(self@, places as nat));
        s
    }
}

} // verus!
