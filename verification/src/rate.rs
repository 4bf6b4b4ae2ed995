//! Frame rates and short spans as the dashboard shows them.

use vstd::arithmetic::power2::{lemma2_to64, lemma2_to64_rest};
use vstd::prelude::*;

use crate::accuracy::{
    amount, lemma_amount_of_zero, lemma_grows, near, products_are_near, quotients_are_near, sums_are_near,
    whole_numbers_are_kept,
};
use crate::double::{
    fixed, lemma_exponent_from_magnitude, product, quotient, sum, whole, Binary, Double,
};
use crate::duration::{Duration, NANOS_PER_SEC};
use crate::nearness::{
    fixed_point_text_is_the_nearest, lemma_near_product, lemma_near_quotient, lemma_near_sum,
    lemma_near_through, lemma_near_widens, whole_quotients_are_near,
};
use crate::text::{decimal, padded_decimal};

verus! {

/// `ns` nanoseconds in seconds: the whole seconds and the fraction are rounded,
/// and so is their sum.
pub open spec fn seconds(ns: nat) -> Binary {
    sum(
        whole(ns / NANOS_PER_SEC as nat),
        quotient(whole(ns % NANOS_PER_SEC as nat), whole(NANOS_PER_SEC as nat)),
    )
}

/// A span in seconds.
fn as_seconds(span: &Duration) -> (r: Double)
    ensures
        r@ == seconds(span@),
        -200 <= r@.exponent <= 15,
        span@ >= NANOS_PER_SEC ==> r@.significand > 0 && r@.exponent >= -52,
{
    let secs = Double::from_u128(span.as_secs() as u128);
    let nanos = Double::from_u128(span.subsec_nanos() as u128);
    let unit = Double::from_u128(NANOS_PER_SEC as u128);
    let fraction = nanos.div(&unit);
    proof {
        lemma2_to64();
        lemma2_to64_rest();
        let whole_secs = span@ / NANOS_PER_SEC as nat;
        let rest = span@ % NANOS_PER_SEC as nat;
        if whole_secs > 0 {
            lemma_exponent_from_magnitude(whole_secs, 0, 64, secs@.exponent);
        }
        if rest > 0 {
            lemma_exponent_from_magnitude(rest, 0, 30, nanos@.exponent);
        }
        lemma_exponent_from_magnitude(NANOS_PER_SEC as nat, 29, 30, unit@.exponent);
    }
    secs.add(&fraction)
}

/// `count` events in `ns` nanoseconds, per second.
pub open spec fn per_second(count: nat, ns: nat) -> Binary {
    quotient(whole(count), seconds(ns))
}

/// A number of events per second.
#[derive(Clone, Copy, Debug, PartialEq, Eq, Structural)]
pub struct Rate {
    value: Double,
}

impl View for Rate {
    type V = Binary;

    closed spec fn view(&self) -> Binary {
        self.value@
    }
}

impl Rate {
    #[verifier::type_invariant]
    spec fn well_formed(self) -> bool {
        -300 <= self.value@.exponent <= 60
    }

    /// The rate of nothing happening.
    pub fn none() -> (rate: Rate)
        ensures
            rate@ == crate::double::zero(),
    {
        Rate { value: Double::zero() }
    }

    /// The rate of `count` events in a span of a second or more.
    pub fn of(count: u64, span: &Duration) -> (rate: Rate)
        requires
            span@ >= NANOS_PER_SEC,
        ensures
            rate@ == per_second(count as nat, span@),
    {
        let seconds = as_seconds(span);
        Rate { value: Double::from_u128(count as u128).div(&seconds) }
    }

    /// The rate as frames per second, with one digit after the point.
    pub fn fps_text(&self) -> (text: String)
        ensures
            text@ == fixed(self@, 1) + " FPS"@,
    {
        proof {
            use_type_invariant(self);
        }
        self.value.to_fixed(1).concat(" FPS")
    }
}

/// A span of `ns` nanoseconds in milliseconds with two digits after the point, or in
/// microseconds with one digit where it is below a millisecond.
pub open spec fn span_text(ns: nat) -> Seq<char> {
    if ns >= 1_000_000 {
        fixed(product(seconds(ns), whole(1_000)), 2) + " ms"@
    } else {
        fixed(product(seconds(ns), whole(1_000_000)), 1) + " µs"@
    }
}

/// A span in seconds is its nanoseconds over a thousand million, as near as rounded
/// arithmetic has it.
pub proof fn seconds_are_nanoseconds_over_a_thousand_million(ns: nat)
    ensures
        near(amount(seconds(ns)), (ns as real) / (1_000_000_000 as real), 7),
        ns > 0 ==> seconds(ns).significand > 0,
{
    let secs = ns / NANOS_PER_SEC as nat;
    let rest = ns % NANOS_PER_SEC as nat;
    let a = whole(secs);
    let b = quotient(whole(rest), whole(NANOS_PER_SEC as nat));
    whole_numbers_are_kept(secs);
    whole_quotients_are_near(rest, NANOS_PER_SEC as nat);
    lemma_near_widens(amount(a), secs as real, 1, 5);
    let r = (rest as real) / (1_000_000_000 as real);
    let x = (ns as real) / (1_000_000_000 as real);
    assert(NANOS_PER_SEC as nat as real == 1_000_000_000 as real);
    assert(ns == secs * 1_000_000_000 + rest);
    assert(x == secs as real + r);
    lemma_near_sum(amount(a), secs as real, amount(b), r, 5);
    sums_are_near(a, b);
    lemma_near_through(amount(seconds(ns)), amount(a) + amount(b), x, 5);
    lemma_amount_of_zero(seconds(ns));
    if ns > 0 {
        assert(x > 0 as real);
        let a = amount(seconds(ns));
        assert(near(a, x, 7));
        let seven = 7nat as real;
        assert(seven == 7 as real);
        assert(seven * x <= (8 as real) * x) by {
            lemma_grows(seven, 8 as real, x);
        }
        assert((9_007_199_254_740_992 as real) * (x - a) <= (8 as real) * x);
    }
}

/// A rate is the number of events over the seconds of the span, as near as rounded
/// arithmetic has it.
pub proof fn a_rate_is_events_over_seconds(count: nat, ns: nat)
    requires
        ns > 0,
    ensures
        near(
            amount(per_second(count, ns)),
            (count as real) / ((ns as real) / (1_000_000_000 as real)),
            11,
        ),
{
    seconds_are_nanoseconds_over_a_thousand_million(ns);
    whole_numbers_are_kept(count);
    let x = (ns as real) / (1_000_000_000 as real);
    let c = whole(count);
    let s = seconds(ns);
    quotients_are_near(c, s);
    lemma_near_quotient(amount(c), count as real, 1, amount(s), x, 7);
    lemma_near_through(
        amount(per_second(count, ns)),
        amount(c) / amount(s),
        (count as real) / x,
        9,
    );
}

/// `units`, of which `one` make a whole, with `places` digits after the point.
pub open spec fn spelled(units: nat, one: nat, places: nat) -> Seq<char> {
    decimal(units / one) + seq!['.'] + padded_decimal(units % one, places)
}

/// A span is shown in milliseconds to the nearest hundredth, and below a millisecond in
/// microseconds to the nearest tenth.
pub proof fn spans_are_shown_to_the_nearest(ns: nat) -> (shown: (Binary, nat))
    ensures
        ({
            let value = amount(shown.0);
            let units = shown.1 as real;
            let secs = (ns as real) / (1_000_000_000 as real);
            if ns >= 1_000_000 {
                &&& near(value, secs * (1_000 as real), 10)
                &&& (2 as real) * (units - value * (100 as real)) <= 1 as real
                &&& (2 as real) * (value * (100 as real) - units) <= 1 as real
                &&& span_text(ns) == spelled(shown.1, 100, 2) + " ms"@
            } else {
                &&& near(value, secs * (1_000_000 as real), 10)
                &&& (2 as real) * (units - value * (10 as real)) <= 1 as real
                &&& (2 as real) * (value * (10 as real) - units) <= 1 as real
                &&& span_text(ns) == spelled(shown.1, 10, 1) + " µs"@
            }
        }),
{
    seconds_are_nanoseconds_over_a_thousand_million(ns);
    let x = (ns as real) / (1_000_000_000 as real);
    let s = seconds(ns);
    let scale: nat = if ns >= 1_000_000 {
        1_000
    } else {
        1_000_000
    };
    let k = whole(scale);
    whole_numbers_are_kept(scale);
    let value = product(s, k);
    products_are_near(s, k);
    lemma_near_product(amount(s), x, 7, amount(k), scale as real, 0);
    lemma_near_through(amount(value), amount(s) * amount(k), x * (scale as real), 8);
    let places: nat = if ns >= 1_000_000 {
        2
    } else {
        1
    };
    let units = fixed_point_text_is_the_nearest(value, places);
    (value, units)
}

/// A rate is shown to the nearest tenth.
pub proof fn rates_are_shown_to_the_nearest_tenth(rate: Binary) -> (units: nat)
    ensures
        (2 as real) * (units as real - amount(rate) * (10 as real)) <= 1 as real,
        (2 as real) * (amount(rate) * (10 as real) - units as real) <= 1 as real,
        fixed(rate, 1) == spelled(units, 10, 1),
{
    fixed_point_text_is_the_nearest(rate, 1)
}

/// A span in milliseconds, or in microseconds where it is below a millisecond.
pub fn format_duration(value: Duration) -> (text: String)
    ensures
        text@ == span_text(value@),
{
    let seconds = as_seconds(&value);
    proof {
        lemma2_to64();
    }
    if value.as_nanos() >= 1_000_000 {
        let thousand = Double::from_u128(1_000);
        proof {
            lemma_exponent_from_magnitude(1_000, 9, 10, thousand@.exponent);
        }
        seconds.mul(&thousand).to_fixed(2).concat(" ms")
    } else {
        let million = Double::from_u128(1_000_000);
        proof {
            lemma_exponent_from_magnitude(1_000_000, 19, 20, million@.exponent);
        }
        seconds.mul(&million).to_fixed(1).concat(" µs")
    }
}

} // verus!
