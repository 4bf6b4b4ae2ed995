//! Points on the clock that come round at fixed steps.

use vstd::prelude::*;

verus! {

/// How many steps lead from `next` to the first point after `now`.
pub open spec fn steps_past(next: nat, step: nat, now: nat) -> nat {
    if next > now {
        0
    } else {
        (now - next) as nat / step + 1
    }
}

/// The first point after `now` among `next`, `next + step`, `next + 2 * step` and so on.
pub open spec fn first_after(next: nat, step: nat, now: nat) -> nat {
    next + steps_past(next, step, now) * step
}

/// The first point after `now` is after it, at most a step, and is reached from
/// `next` by whole steps.
pub proof fn first_after_is_next_on_the_grid(next: nat, step: nat, now: nat)
    requires
        step > 0,
    ensures
        first_after(next, step, now) > now,
        next <= now ==> first_after(next, step, now) <= now + step,
        next > now ==> first_after(next, step, now) == next,
        (first_after(next, step, now) - next) % (step as int) == 0,
{
    let k = steps_past(next, step, now);
    vstd::arithmetic::div_mod::lemma_mod_multiples_basic(k as int, step as int);
    if next <= now {
        let gap = (now - next) as nat;
        vstd::arithmetic::div_mod::lemma_fundamental_div_mod(gap as int, step as int);
        assert(gap < k * step <= gap + step) by (nonlinear_arith)
            requires
                gap == step * (k - 1) + gap % step,
                0 <= gap % step < step,
        ;
    } else {
        assert(0 * step == 0);
    }
}

/// `next` moved on by whole steps to the first point after `now`.
pub(crate) fn advance_past(next: u128, step: u128, now: u128) -> (after: u128)
    requires
        step > 0,
        now + step <= u128::MAX,
    ensures
        after == first_after(next as nat, step as nat, now as nat),
{
    if next > now {
        assert(0 * step == 0);
        return next;
    }
    let steps: u128 = (now - next) / step;
    proof {
        first_after_is_next_on_the_grid(next as nat, step as nat, now as nat);
        assert((steps as nat + 1) * step <= now - next + step);
        assert(steps + 1 <= (steps + 1) * step) by (nonlinear_arith)
            requires
                step >= 1,
        ;
    }
    next + (steps + 1) * step
}

} // verus!
