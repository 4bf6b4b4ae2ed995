//! How errors of rounded numbers add up.

use vstd::prelude::*;

use crate::accuracy::{
    amount, decimal_places_are_the_nearest, lemma_divides, lemma_grows, lemma_regroups, lemma_shrinks, lemma_spreads, near,
    quotients_are_near, whole_numbers_are_kept,
};
use crate::double::{decimal_units, fixed, power_of_ten, quotient, whole, Binary};
use crate::text::{decimal, padded_decimal};

verus! {

/// What is near to something near is near, two steps further.
pub proof fn lemma_near_through(c: real, z1: real, z: real, k: nat)
    requires
        near(c, z1, 1),
        near(z1, z, k),
        z >= 0 as real,
        k <= 1000,
    ensures
        near(c, z, k + 2),
{
    let kr = k as real;
    lemma_grows(kr, 1000 as real, z);
    lemma_spreads(kr, 2 as real, z);
    assert((k + 2) as real == kr + (2 as real));
    assert((1 as real) * z1 == z1);
}

/// A quotient of near numbers is near.
pub proof fn lemma_near_quotient(a: real, x: real, j: nat, b: real, y: real, k: nat)
    requires
        near(a, x, j),
        near(b, y, k),
        x >= 0 as real,
        y > 0 as real,
        j <= 1000,
        k <= 1000,
    ensures
        b > 0 as real,
        near(a / b, x / y, j + k + 1),
        x / y >= 0 as real,
{
    let jr = j as real;
    let kr = k as real;
    let m = jr + kr;
    let w = x / y;
    let t = a / b;
    lemma_divides(x, y);
    lemma_grows(kr, 1000 as real, y);
    assert(b > 0 as real);
    lemma_divides(a, b);
    let wb = w * b;
    // The denominator's distance, seen from the quotient.
    lemma_grows((9_007_199_254_740_992 as real) * (y - b), kr * y, w);
    lemma_grows((9_007_199_254_740_992 as real) * (b - y), kr * y, w);
    lemma_regroups(9_007_199_254_740_992 as real, y - b, w);
    lemma_regroups(9_007_199_254_740_992 as real, b - y, w);
    lemma_spreads(y, b, w);
    lemma_regroups(kr, y, w);
    lemma_regroups(y, w, b);
    let kx = kr * x;
    assert((9_007_199_254_740_992 as real) * (x - wb) <= kx);
    assert((9_007_199_254_740_992 as real) * (wb - x) <= kx);
    let jx = jr * x;
    lemma_grows(kr, 1000 as real, x);
    lemma_grows(jr, 1000 as real, x);
    lemma_spreads(jr, kr, x);
    // One more step makes up for measuring from the near quotient.
    lemma_grows((9_007_199_254_740_992 as real) * (x - wb), (1000 as real) * x, m);
    lemma_regroups(9_007_199_254_740_992 as real, x - wb, m);
    lemma_regroups(1000 as real, x, m);
    lemma_spreads(x, wb, m);
    lemma_regroups(m, x, 1 as real);
    lemma_regroups(m, wb, 1 as real);
    lemma_spreads(m, 1 as real, wb);
    let one_more = m + (1 as real);
    assert(m * x <= (2000 as real) * x) by {
        lemma_grows(m, 2000 as real, x);
    }
    assert(m * x <= one_more * wb);
    assert((9_007_199_254_740_992 as real) * (a - wb) <= one_more * wb);
    assert((9_007_199_254_740_992 as real) * (wb - a) <= one_more * wb);
    // And back from the numerator to the quotient.
    lemma_spreads(t, w, b);
    lemma_regroups(9_007_199_254_740_992 as real, t - w, b);
    lemma_regroups(9_007_199_254_740_992 as real, w - t, b);
    lemma_regroups(one_more, w, b);
    lemma_shrinks((9_007_199_254_740_992 as real) * (t - w), one_more * w, b);
    lemma_shrinks((9_007_199_254_740_992 as real) * (w - t), one_more * w, b);
    assert((j + k + 1) as real == one_more);
}

/// A product of near numbers is near.
pub proof fn lemma_near_product(a: real, x: real, j: nat, b: real, y: real, k: nat)
    requires
        near(a, x, j),
        near(b, y, k),
        x >= 0 as real,
        y >= 0 as real,
        b >= 0 as real,
        j <= 1000,
        k <= 1000,
    ensures
        near(a * b, x * y, j + k + 1),
        x * y >= 0 as real,
{
    let jr = j as real;
    let kr = k as real;
    let xy = x * y;
    let xb = x * b;
    lemma_grows(0 as real, y, x);
    lemma_regroups(x, y, b);
    assert((0 as real) * x == 0 as real) by (nonlinear_arith);
    assert(xy >= 0 as real);
    lemma_grows((9_007_199_254_740_992 as real) * (a - x), jr * x, b);
    lemma_grows((9_007_199_254_740_992 as real) * (x - a), jr * x, b);
    lemma_regroups(9_007_199_254_740_992 as real, a - x, b);
    lemma_regroups(9_007_199_254_740_992 as real, x - a, b);
    lemma_spreads(a, x, b);
    lemma_regroups(jr, x, b);
    lemma_grows((9_007_199_254_740_992 as real) * (b - y), kr * y, x);
    lemma_grows((9_007_199_254_740_992 as real) * (y - b), kr * y, x);
    lemma_regroups(9_007_199_254_740_992 as real, b - y, x);
    lemma_regroups(9_007_199_254_740_992 as real, y - b, x);
    lemma_spreads(b, y, x);
    lemma_regroups(kr, y, x);
    assert((9_007_199_254_740_992 as real) * (xb - xy) <= kr * xy);
    lemma_grows(kr, 1000 as real, xy);
    // jr * (xb - xy) is less than a step's worth of steps.
    lemma_grows((9_007_199_254_740_992 as real) * (xb - xy), (1000 as real) * xy, jr);
    lemma_regroups(9_007_199_254_740_992 as real, xb - xy, jr);
    lemma_regroups(1000 as real, xy, jr);
    lemma_spreads(xb, xy, jr);
    lemma_grows(jr, 1000 as real, xy);
    lemma_regroups(jr, xb, 1 as real);
    lemma_regroups(jr, xy, 1 as real);
    lemma_spreads(jr + kr, 1 as real, xy);
    lemma_spreads(jr, kr, xy);
    assert((j + k + 1) as real == jr + kr + (1 as real));
}

/// A sum of near numbers is near.
pub proof fn lemma_near_sum(a: real, x: real, b: real, y: real, k: nat)
    requires
        near(a, x, k),
        near(b, y, k),
    ensures
        near(a + b, x + y, k),
{
    let kr = k as real;
    lemma_spreads(x, y, kr);
    lemma_regroups(kr, x, y);
    lemma_regroups(kr, x + y, y);
}

/// The rounded quotient of two whole numbers is near to their quotient.
pub proof fn whole_quotients_are_near(num: nat, den: nat)
    requires
        den > 0,
    ensures
        near(amount(quotient(whole(num), whole(den))), (num as real) / (den as real), 5),
{
    whole_numbers_are_kept(num);
    whole_numbers_are_kept(den);
    quotients_are_near(whole(num), whole(den));
    let a = amount(whole(num));
    let b = amount(whole(den));
    lemma_near_quotient(a, num as real, 1, b, den as real, 1);
    lemma_near_through(
        amount(quotient(whole(num), whole(den))),
        a / b,
        (num as real) / (den as real),
        3,
    );
}

/// Near is near by more steps, too.
pub proof fn lemma_near_widens(a: real, x: real, j: nat, k: nat)
    requires
        near(a, x, j),
        x >= 0 as real,
        j <= k,
    ensures
        near(a, x, k),
{
    lemma_grows(j as real, k as real, x);
}

/// Text with a fixed number of digits after the point spells the number of units of the
/// last place that is nearest to what the number is worth: at most half a unit away.
pub proof fn fixed_point_text_is_the_nearest(b: Binary, places: nat) -> (units: nat)
    requires
        places <= 3,
    ensures
        ({
            let one: nat = if places == 0 {
                1
            } else if places == 1 {
                10
            } else if places == 2 {
                100
            } else {
                1000
            };
            &&& (2 as real) * (units as real - amount(b) * (one as real)) <= 1 as real
            &&& (2 as real) * (amount(b) * (one as real) - units as real) <= 1 as real
            &&& places == 0 ==> fixed(b, places) == decimal(units)
            &&& places > 0 ==> fixed(b, places) == decimal(units / one) + seq!['.']
                + padded_decimal(units % one, places)
        }),
{
    reveal_with_fuel(power_of_ten, 4);
    decimal_places_are_the_nearest(b, places);
    decimal_units(b, places)
}

} // verus!
