//! How close rounded numbers are to what they stand for.

use vstd::arithmetic::power2::*;
use vstd::prelude::*;

use crate::double::{
    at_least, decimal_units, fills_significand, half_even, nearest, power_of_ten, product, quotient,
    scale_of, scaled, sum, whole, zero, Binary, SIG_END, SIG_MIN,
};

verus! {

/// `2^e`.
pub open spec fn power(e: int) -> real {
    if e >= 0 {
        pow2(e as nat) as real
    } else {
        (1 as real) / (pow2((-e) as nat) as real)
    }
}

/// What `b` is worth.
pub open spec fn amount(b: Binary) -> real {
    (b.significand as real) * power(b.exponent)
}

/// Whether `a` is `x`, give or take `k` steps in 2^53.
pub open spec fn near(a: real, x: real, k: nat) -> bool {
    &&& (9_007_199_254_740_992 as real) * (a - x) <= (k as real) * x
    &&& (9_007_199_254_740_992 as real) * (x - a) <= (k as real) * x
}

/// Both sides of an inequality grow alike.
pub proof fn lemma_grows(a: real, b: real, c: real)
    requires
        a <= b,
        c >= 0 as real,
    ensures
        a * c <= b * c,
{
    assert(a * c <= b * c) by (nonlinear_arith)
        requires
            a <= b,
            c >= 0 as real,
    ;
}

/// What grows alike on both sides can be left out.
pub proof fn lemma_shrinks(a: real, b: real, c: real)
    requires
        a * c <= b * c,
        c > 0 as real,
    ensures
        a <= b,
{
    assert(a <= b) by (nonlinear_arith)
        requires
            a * c <= b * c,
            c > 0 as real,
    ;
}

/// A factor spreads over a sum and a difference.
pub proof fn lemma_spreads(a: real, b: real, c: real)
    ensures
        (a + b) * c == a * c + b * c,
        (a - b) * c == a * c - b * c,
        (b - a) * c == b * c - a * c,
{
    assert((a + b) * c == a * c + b * c) by (nonlinear_arith);
    assert((a - b) * c == a * c - b * c) by (nonlinear_arith);
    assert((b - a) * c == b * c - a * c) by (nonlinear_arith);
}

/// Factors can be grouped and ordered at will.
pub proof fn lemma_regroups(a: real, b: real, c: real)
    ensures
        (a * b) * c == a * (b * c),
        a * b == b * a,
        b * c == c * b,
        a * c == c * a,
{
    assert((a * b) * c == a * (b * c)) by (nonlinear_arith);
    assert(a * b == b * a) by (nonlinear_arith);
    assert(b * c == c * b) by (nonlinear_arith);
    assert(a * c == c * a) by (nonlinear_arith);
}

/// A quotient times what it was divided by.
pub proof fn lemma_divides(a: real, b: real)
    requires
        b > 0 as real,
    ensures
        (a / b) * b == a,
        a >= 0 as real ==> a / b >= 0 as real,
{
    let q = a / b;
    assert(q * b == a) by (nonlinear_arith)
        requires
            q == a / b,
            b > 0 as real,
    ;
    assert(a >= 0 as real ==> q >= 0 as real) by (nonlinear_arith)
        requires
            q * b == a,
            b > 0 as real,
    ;
}

/// A product is the same of whole numbers and of the same real numbers.
pub proof fn lemma_real_product(a: nat, b: nat)
    ensures
        (a * b) as real == (a as real) * (b as real),
    decreases b,
{
    let x = a as real;
    if b == 0 {
        assert(a * 0 == 0);
        assert(x * (0 as real) == 0 as real) by (nonlinear_arith);
    } else {
        let c = (b - 1) as nat;
        lemma_real_product(a, c);
        assert(a * b == a * c + a) by (nonlinear_arith)
            requires
                b == c + 1,
        ;
        let y = c as real;
        assert(x * (y + (1 as real)) == x * y + x) by (nonlinear_arith);
    }
}

proof fn lemma_power_positive(e: int)
    ensures
        power(e) > 0 as real,
{
    if e >= 0 {
        lemma_pow2_pos(e as nat);
    } else {
        lemma_pow2_pos((-e) as nat);
        let p = pow2((-e) as nat) as real;
        assert((1 as real) / p > 0 as real) by (nonlinear_arith)
            requires
                p > 0 as real,
        ;
    }
}

proof fn lemma_power_adds_up(a: int, b: nat)
    ensures
        power(a + b) == power(a) * power(b as int),
{
    let p = power(b as int);
    lemma_pow2_pos(b);
    if a >= 0 {
        lemma_pow2_adds(a as nat, b);
        lemma_real_product(pow2(a as nat), pow2(b));
    } else if a + b >= 0 {
        let m = (-a) as nat;
        let n = (a + b) as nat;
        lemma_pow2_adds(m, n);
        lemma_pow2_pos(m);
        let q = pow2(m) as real;
        let r = pow2(n) as real;
        lemma_real_product(pow2(m), pow2(n));
        assert(r == (1 as real) / q * p) by (nonlinear_arith)
            requires
                p == q * r,
                q > 0 as real,
        ;
    } else {
        let m = (-a) as nat;
        let n = (-(a + b)) as nat;
        lemma_pow2_adds(n, b);
        lemma_pow2_pos(m);
        lemma_pow2_pos(n);
        let q = pow2(m) as real;
        let r = pow2(n) as real;
        lemma_real_product(pow2(n), pow2(b));
        assert((1 as real) / r == (1 as real) / q * p) by (nonlinear_arith)
            requires
                q == r * p,
                r > 0 as real,
                p > 0 as real,
        ;
    }
}

/// Powers of two multiply by adding exponents.
proof fn lemma_power_adds(a: int, b: int)
    ensures
        power(a + b) == power(a) * power(b),
{
    if b >= 0 {
        lemma_power_adds_up(a, b as nat);
    } else {
        lemma_power_adds_up(a + b, (-b) as nat);
        lemma_power_positive(b);
        lemma_pow2_pos((-b) as nat);
        let p = pow2((-b) as nat) as real;
        let u = power(a + b);
        let v = power(a);
        assert(u == v * ((1 as real) / p)) by (nonlinear_arith)
            requires
                v == u * p,
                p > 0 as real,
        ;
    }
}

proof fn lemma_scale_up(num: nat, den: nat, by: nat)
    requires
        num > 0,
        den > 0,
        num * pow2(by) < SIG_END * den,
    ensures
        exists|k: int| fills_significand(num, den, k),
    decreases SIG_END * den - num * pow2(by),
{
    if num * pow2(by) >= SIG_MIN * den {
        assert(fills_significand(num, den, by as int));
    } else {
        lemma_pow2_unfold(by + 1);
        lemma_pow2_pos(by);
        let p = pow2(by);
        assert(num * (2 * p) == 2 * (num * p)) by (nonlinear_arith);
        assert(num * p > 0) by (nonlinear_arith)
            requires
                num > 0,
                p > 0,
        ;
        assert(SIG_END * den == 2 * (SIG_MIN * den)) by (nonlinear_arith)
            requires
                SIG_END == 2 * SIG_MIN,
        ;
        lemma_scale_up(num, den, by + 1);
    }
}

proof fn lemma_scale_down(num: nat, den: nat, k: nat)
    requires
        num > 0,
        den > 0,
        SIG_MIN * (den * pow2(k)) <= num,
    ensures
        exists|k: int| fills_significand(num, den, k),
    decreases num - den * pow2(k),
{
    lemma_pow2_pos(k);
    lemma2_to64();
    let p = pow2(k);
    if num < SIG_END * (den * p) {
        if k == 0 {
            assert(num * 1 == num && den * 1 == den);
        }
        assert(fills_significand(num, den, -(k as int)));
    } else {
        lemma_pow2_unfold(k + 1);
        assert(SIG_MIN * (den * (2 * p)) == SIG_END * (den * p)) by (nonlinear_arith)
            requires
                SIG_END == 2 * SIG_MIN,
        ;
        assert(den * (2 * p) == 2 * (den * p)) by (nonlinear_arith);
        assert(den * p > 0) by (nonlinear_arith)
            requires
                den > 0,
                p > 0,
        ;
        lemma_scale_down(num, den, k + 1);
    }
}

/// Every fraction can be moved to where significands lie.
proof fn lemma_scale_exists(num: nat, den: nat)
    requires
        num > 0,
        den > 0,
    ensures
        fills_significand(num, den, scale_of(num, den)),
{
    lemma2_to64();
    assert(num * 1 == num && den * 1 == den);
    if SIG_MIN * den <= num {
        lemma_scale_down(num, den, 0);
    } else {
        assert(SIG_MIN * den < SIG_END * den) by (nonlinear_arith)
            requires
                SIG_MIN < SIG_END,
                den > 0,
        ;
        lemma_scale_up(num, den, 0);
    }
}

/// Rounding to a whole number moves by at most a half.
proof fn lemma_half_even_is_near(num: nat, den: nat)
    requires
        den > 0,
    ensures
        2 * (half_even(num, den) * den - num) <= den,
        2 * (num - half_even(num, den) * den) <= den,
{
    vstd::arithmetic::div_mod::lemma_fundamental_div_mod(num as int, den as int);
    let q = num / den;
    let r = num % den;
    assert(q * den == den * q) by (nonlinear_arith);
    assert((q + 1) * den == q * den + den) by (nonlinear_arith);
}

/// The moved fraction is the fraction times a power of two.
proof fn lemma_scaled_amount(num: nat, den: nat, by: int)
    requires
        den > 0,
    ensures
        ({
            let (n, d) = scaled(num, den, by);
            &&& d > 0
            &&& (n as real) / (d as real) == (num as real) / (den as real) * power(by)
        }),
{
    let (n, d) = scaled(num, den, by);
    let x = num as real;
    let y = den as real;
    if by >= 0 {
        let p = pow2(by as nat) as real;
        lemma_real_product(num, pow2(by as nat));
        assert(x * p / y == x / y * p) by (nonlinear_arith)
            requires
                y > 0 as real,
        ;
    } else {
        let k = (-by) as nat;
        lemma_pow2_pos(k);
        let p = pow2(k) as real;
        assert(den * pow2(k) > 0) by (nonlinear_arith)
            requires
                den > 0,
                pow2(k) > 0,
        ;
        lemma_real_product(den, pow2(k));
        assert(x / (y * p) == x / y * ((1 as real) / p)) by (nonlinear_arith)
            requires
                y > 0 as real,
                p > 0 as real,
        ;
    }
}

/// A rounded number is within half a unit of its last place of what it stands for: it is
/// near to `num / den * 2^shift`.
pub proof fn rounding_moves_by_half_a_unit(num: nat, den: nat, shift: int)
    requires
        num > 0,
        den > 0,
    ensures
        near(amount(nearest(num, den, shift)), (num as real) / (den as real) * power(shift), 1),
        amount(nearest(num, den, shift)) > 0 as real,
{
    let by = scale_of(num, den);
    lemma_scale_exists(num, den);
    let (n, d) = scaled(num, den, by);
    let r = half_even(n, d);
    lemma_scaled_amount(num, den, by);
    lemma_half_even_is_near(n, d);
    let b = nearest(num, den, shift);
    let f = (num as real) / (den as real);
    let unit = power(shift - by);
    lemma_power_positive(shift - by);
    lemma_power_adds(shift - by, by);
    lemma_power_adds(shift - by, 1);
    lemma2_to64();
    // The significand moved up a place when it overflowed.
    assert(amount(b) == (r as real) * unit) by {
        if r == SIG_END {
            let half = SIG_MIN as real;
            assert(half * (unit * (2 as real)) == ((2 as real) * half) * unit) by (nonlinear_arith);
        }
    }
    let nr = n as real;
    let dr = d as real;
    let rr = r as real;
    let g = nr / dr;
    lemma_real_product(r, d);
    assert((2 * (r * d - n)) as real <= dr);
    assert(g * dr == nr) by (nonlinear_arith)
        requires
            g == nr / dr,
            dr > 0 as real,
    ;
    lemma_real_product(SIG_MIN as nat, d);
    assert(g >= SIG_MIN as real) by (nonlinear_arith)
        requires
            (SIG_MIN as real) * dr <= g * dr,
            dr > 0 as real,
    ;
    assert((2 as real) * (rr - g) <= 1 as real && (2 as real) * (g - rr) <= 1 as real)
        by (nonlinear_arith)
        requires
            (2 as real) * (rr * dr - g * dr) <= dr,
            (2 as real) * (g * dr - rr * dr) <= dr,
            dr > 0 as real,
    ;
    let x = f * power(shift);
    assert(x == g * unit) by (nonlinear_arith)
        requires
            g == f * power(by),
            power(shift) == unit * power(by),
            x == f * power(shift),
    ;
    lemma_grows((9_007_199_254_740_992 as real) * (rr - g), g, unit);
    lemma_grows((9_007_199_254_740_992 as real) * (g - rr), g, unit);
    lemma_spreads(rr, g, unit);
    lemma_regroups(9_007_199_254_740_992 as real, rr - g, unit);
    lemma_regroups(9_007_199_254_740_992 as real, g - rr, unit);
    assert(rr * unit > 0 as real) by (nonlinear_arith)
        requires
            rr > 0 as real,
            unit > 0 as real,
    ;
}

/// A whole number is near to itself, and up to 2^53 it is itself.
pub proof fn whole_numbers_are_kept(n: nat)
    ensures
        near(amount(whole(n)), n as real, 1),
        n < 9_007_199_254_740_992 ==> amount(whole(n)) == n as real,
        n > 0 ==> amount(whole(n)) > 0 as real,
        n > 0 ==> whole(n).significand > 0,
{
    lemma2_to64();
    lemma2_to64_rest();
    if n > 0 {
        rounding_moves_by_half_a_unit(n, 1, 0);
        lemma_amount_of_zero(whole(n));
        let x = n as real;
        lemma_divides(x, 1 as real);
        lemma_scale_exists(n, 1);
        let by = scale_of(n, 1);
        let (m, d) = scaled(n, 1, by);
        lemma_half_even_is_near(m, d);
        if n < 9_007_199_254_740_992 {
            if by < 0 {
                let k = (-by) as nat;
                lemma_pow2_unfold(k);
                lemma_pow2_pos((k - 1) as nat);
                assert(1 * pow2(k) == pow2(k));
                assert(SIG_MIN * pow2(k) >= SIG_END) by (nonlinear_arith)
                    requires
                        pow2(k) >= 2,
                        SIG_END == 2 * SIG_MIN,
                ;
            }
            assert(half_even(m, 1) == m);
            lemma_real_product(n, pow2(by as nat));
            lemma_power_adds(by, -by);
            let p = power(by);
            let q = power(-by);
            assert(x * p * q == x) by (nonlinear_arith)
                requires
                    p * q == 1 as real,
            ;
        }
    } else {
        let p = power(0);
        assert((0 as real) * p == 0 as real) by (nonlinear_arith);
    }
}

/// Zero is worth nothing, and only zero is.
pub proof fn lemma_amount_of_zero(b: Binary)
    ensures
        b.significand == 0 <==> amount(b) == 0 as real,
        amount(b) >= 0 as real,
        b.significand > 0 ==> amount(b) > 0 as real,
{
    lemma_power_positive(b.exponent);
    let s = b.significand as real;
    let p = power(b.exponent);
    assert(s == 0 as real ==> s * p == 0 as real) by (nonlinear_arith);
    assert(s > 0 as real ==> s * p > 0 as real) by (nonlinear_arith)
        requires
            p > 0 as real,
    ;
}

/// A quotient is near to what is divided over what it is divided by.
pub proof fn quotients_are_near(a: Binary, b: Binary)
    requires
        b.significand > 0,
    ensures
        near(amount(quotient(a, b)), amount(a) / amount(b), 1),
{
    let x = a.significand as real;
    let y = b.significand as real;
    let p = power(a.exponent);
    let q = power(b.exponent);
    lemma_amount_of_zero(a);
    lemma_amount_of_zero(b);
    lemma_power_positive(b.exponent);
    if a.significand == 0 {
        lemma_amount_of_zero(zero());
        let d = amount(b);
        lemma_divides(0 as real, d);
        let e = (0 as real) / d;
        assert((0 as real) * d == 0 as real) by (nonlinear_arith);
        lemma_shrinks(e, 0 as real, d);
    } else {
        rounding_moves_by_half_a_unit(a.significand, b.significand, a.exponent - b.exponent);
        lemma_power_adds(a.exponent - b.exponent, b.exponent);
        let r = power(a.exponent - b.exponent);
        let f = x / y;
        lemma_divides(x, y);
        // f * r times y * q is x * p.
        lemma_regroups(f, r, y * q);
        lemma_regroups(r, y, q);
        lemma_regroups(y, r, q);
        lemma_regroups(f, y, r * q);
        assert((f * r) * (y * q) == x * p);
        let d = y * q;
        let e = x * p / d;
        lemma_divides(x * p, d);
        lemma_shrinks(f * r, e, d);
        lemma_shrinks(e, f * r, d);
    }
}

/// A product is near to the product of what its factors are worth.
pub proof fn products_are_near(a: Binary, b: Binary)
    ensures
        near(amount(product(a, b)), amount(a) * amount(b), 1),
{
    let x = a.significand as real;
    let y = b.significand as real;
    let p = power(a.exponent);
    let q = power(b.exponent);
    lemma_real_product(a.significand, b.significand);
    lemma_power_adds(a.exponent, b.exponent);
    lemma_amount_of_zero(zero());
    lemma_divides(x * y, 1 as real);
    lemma_regroups(x, y, p * q);
    lemma_regroups(y, p, q);
    lemma_regroups(p, y, q);
    lemma_regroups(x, p, y * q);
    assert((x * y) * (p * q) == (x * p) * (y * q));
    if a.significand * b.significand == 0 {
        assert(a.significand == 0 || b.significand == 0) by (nonlinear_arith)
            requires
                a.significand * b.significand == 0,
        ;
        let pq = p * q;
        assert((0 as real) * pq == 0 as real) by (nonlinear_arith);
    } else {
        rounding_moves_by_half_a_unit(
            a.significand * b.significand,
            1,
            a.exponent + b.exponent,
        );
    }
}

/// A sum is near to the sum of what its terms are worth.
pub proof fn sums_are_near(a: Binary, b: Binary)
    ensures
        near(amount(sum(a, b)), amount(a) + amount(b), 1),
{
    let low = if a.exponent <= b.exponent {
        a.exponent
    } else {
        b.exponent
    };
    let i = (a.exponent - low) as nat;
    let j = (b.exponent - low) as nat;
    let x = a.significand as real;
    let y = b.significand as real;
    let p = power(i as int);
    let q = power(j as int);
    let r = power(low);
    let m = a.significand * pow2(i);
    let n = b.significand * pow2(j);
    lemma_real_product(a.significand, pow2(i));
    lemma_real_product(b.significand, pow2(j));
    lemma_power_adds(i as int, low);
    lemma_power_adds(j as int, low);
    lemma_power_positive(low);
    lemma_divides(x * p + y * q, 1 as real);
    lemma_spreads(x * p, y * q, r);
    lemma_regroups(x, p, r);
    lemma_regroups(y, q, r);
    if m + n == 0 {
        lemma_amount_of_zero(zero());
        assert((0 as real) * r == 0 as real) by (nonlinear_arith);
    } else {
        rounding_moves_by_half_a_unit(m + n, 1, low);
    }
}

/// Whether a number is `n` or more is whether it is worth that.
pub proof fn at_least_compares_amounts(b: Binary, n: nat)
    ensures
        at_least(b, n) <==> amount(b) >= n as real,
{
    let (value, unit) = scaled(b.significand, 1, b.exponent);
    lemma_scaled_amount(b.significand, 1, b.exponent);
    let v = value as real;
    let u = unit as real;
    let w = n as real;
    let s = b.significand as real;
    lemma_divides(s, 1 as real);
    lemma_real_product(n, unit);
    let a = amount(b);
    lemma_divides(v, u);
    if v >= w * u {
        lemma_shrinks(w, a, u);
    }
    if a >= w {
        lemma_grows(w, a, u);
    }
}

/// Decimal places are rounded to the nearest: the number of units of the last place is at
/// most a half away from what the number is worth in such units.
pub proof fn decimal_places_are_the_nearest(b: Binary, places: nat)
    ensures
        ({
            let exact = amount(b) * (power_of_ten(places) as real);
            let units = decimal_units(b, places) as real;
            &&& (2 as real) * (units - exact) <= 1 as real
            &&& (2 as real) * (exact - units) <= 1 as real
        }),
{
    let ten = power_of_ten(places);
    let num = b.significand * ten;
    let (n, d) = scaled(num, 1, b.exponent);
    lemma_scaled_amount(num, 1, b.exponent);
    lemma_half_even_is_near(n, d);
    lemma_real_product(b.significand, ten);
    let u = half_even(n, d);
    lemma_real_product(u, d);
    let s = b.significand as real;
    let t = ten as real;
    let p = power(b.exponent);
    let nr = n as real;
    let dr = d as real;
    let ur = u as real;
    let exact = s * p * t;
    lemma_divides(s * t, 1 as real);
    lemma_regroups(s, t, p);
    lemma_regroups(s, p, t);
    lemma_regroups(t, p, s);
    assert(nr / dr == exact);
    lemma_divides(nr, dr);
    lemma_spreads(ur, exact, dr);
    lemma_regroups(2 as real, ur - exact, dr);
    lemma_regroups(2 as real, exact - ur, dr);
    assert((1 as real) * dr == dr) by (nonlinear_arith);
    lemma_shrinks((2 as real) * (ur - exact), 1 as real, dr);
    lemma_shrinks((2 as real) * (exact - ur), 1 as real, dr);
}

} // verus!
