//! The arithmetic of recurrence: where in a window of time a rule fires that
//! is anchored at a reference time and recurs every `cycle` units.
//!
//! The rule fires at the times congruent to its reference modulo its cycle,
//! before the reference as well as after it. Over a window from `start` to
//! `end` it generates a trigger for each such time from `start` up to `end`,
//! `end` left out, and one more: the first step past the window.

use vstd::arithmetic::div_mod::{
    lemma_fundamental_div_mod,
    lemma_fundamental_div_mod_converse,
    lemma_mod_multiples_vanish,
};
use vstd::prelude::*;

verus! {

/// Whether `a` and `b` are a whole number of cycles apart.
pub open spec fn aligned(a: int, b: int, cycle: int) -> bool {
    (a - b) % cycle == 0
}

/// The first time at or after `start` that is aligned with `reference`.
pub open spec fn first_trigger(reference: int, cycle: int, start: int) -> int {
    start + (reference - start) % cycle
}

/// The time that is reached from `at` by stepping a cycle at a time: forward
/// while `at` lies before `start`, back while a whole cycle fits between
/// `start` and `at`.
pub open spec fn aligned_by_steps(at: int, cycle: int, start: int) -> int
    decreases
        (if cycle <= 0 {
            0
        } else if at < start {
            start - at + cycle
        } else {
            at - start
        }),
{
    if cycle <= 0 {
        at
    } else if at < start {
        aligned_by_steps(at + cycle, cycle, start)
    } else if at - cycle >= start {
        aligned_by_steps(at - cycle, cycle, start)
    } else {
        at
    }
}

/// The count that a span of time stands for: the whole cycles that fit in
/// it, plus one.
pub open spec fn projection_count(cycle: int, span: int) -> int {
    span / cycle + 1
}

/// The span from which the triggers of a window are counted: from the first
/// trigger to the last instant of the window, and one cycle more.
pub open spec fn projection_span(reference: int, cycle: int, start: int, end: int) -> int {
    end - first_trigger(reference, cycle, start) - 1 + cycle
}

/// The number of triggers that the rule generates over the window: one for
/// each aligned time in it, and one more, a cycle after the last of them. A
/// rule without a cycle, or with one longer than the window, generates none.
pub open spec fn trigger_count(reference: int, cycle: int, start: int, end: int) -> int {
    if cycle <= 0 || cycle > end - start {
        0
    } else {
        projection_count(cycle, projection_span(reference, cycle, start, end))
    }
}

/// The time of the rule's trigger number `k` over a window, counted from the
/// start of the window.
pub open spec fn trigger_offset(reference: int, cycle: int, start: int, k: int) -> int {
    first_trigger(reference, cycle, start) - start + k * cycle
}

/// The first trigger lies in the first cycle of the window and is aligned with
/// the reference.
pub proof fn lemma_first_trigger(reference: int, cycle: int, start: int)
    requires
        cycle > 0,
    ensures
        start <= first_trigger(reference, cycle, start) < start + cycle,
        aligned(first_trigger(reference, cycle, start), reference, cycle),
{
    let x = reference - start;
    lemma_fundamental_div_mod(x, cycle);
    lemma_mod_multiples_vanish(-(x / cycle), 0, cycle);
    assert(first_trigger(reference, cycle, start) - reference == cycle * (-(x / cycle)) + 0)
        by (nonlinear_arith)
        requires
            x == cycle * (x / cycle) + (x % cycle),
            first_trigger(reference, cycle, start) == start + x % cycle,
            x == reference - start,
    ;
}

/// No aligned time lies between the start of the window and the first
/// trigger.
pub proof fn lemma_first_trigger_is_least(reference: int, cycle: int, start: int, t: int)
    requires
        cycle > 0,
        start <= t,
        aligned(t, reference, cycle),
    ensures
        first_trigger(reference, cycle, start) <= t,
{
    lemma_first_trigger(reference, cycle, start);
    if t < start + cycle {
        let k = (t - reference) / cycle;
        lemma_fundamental_div_mod(t - reference, cycle);
        assert(reference - start == (-k) * cycle + (t - start)) by (nonlinear_arith)
            requires
                t - reference == cycle * k + 0,
        ;
        lemma_fundamental_div_mod_converse(reference - start, cycle, -k, t - start);
    }
}

/// Stepping a cycle at a time from the reference arrives at the first
/// trigger.
pub proof fn lemma_steps_reach_first_trigger(reference: int, cycle: int, start: int)
    requires
        cycle > 0,
    ensures
        aligned_by_steps(reference, cycle, start) == first_trigger(reference, cycle, start),
    decreases
        (if reference < start {
            start - reference + cycle
        } else {
            reference - start
        }),
{
    if reference < start {
        lemma_steps_reach_first_trigger(reference + cycle, cycle, start);
        lemma_mod_multiples_vanish(1, reference - start, cycle);
        assert(cycle * 1 + (reference - start) == reference + cycle - start);
    } else if reference - cycle >= start {
        lemma_steps_reach_first_trigger(reference - cycle, cycle, start);
        lemma_mod_multiples_vanish(-1, reference - start, cycle);
        assert(cycle * (-1) + (reference - start) == reference - cycle - start);
    } else {
        lemma_fundamental_div_mod_converse(reference - start, cycle, 0, reference - start);
    }
}

/// Over a window that holds at least one cycle the triggers are spaced a
/// cycle apart and start in the first cycle; all but the last lie in the
/// window, and the last is the first step past it.
pub proof fn lemma_triggers_fill_window(reference: int, cycle: int, start: int, end: int)
    requires
        0 < cycle <= end - start,
    ensures
        trigger_count(reference, cycle, start, end) >= 2,
        0 <= trigger_offset(reference, cycle, start, 0) < cycle,
        forall|k: int|
            0 <= k < trigger_count(reference, cycle, start, end) - 1 ==> 0
                <= #[trigger] trigger_offset(reference, cycle, start, k) < end - start,
        end - start <= trigger_offset(
            reference,
            cycle,
            start,
            trigger_count(reference, cycle, start, end) - 1,
        ) < end - start + cycle,
        forall|k: int|
            #[trigger] trigger_offset(reference, cycle, start, k + 1) == trigger_offset(
                reference,
                cycle,
                start,
                k,
            ) + cycle,
{
    lemma_first_trigger(reference, cycle, start);
    let first = first_trigger(reference, cycle, start);
    let inside = end - first - 1;
    let whole = inside / cycle;
    let count = trigger_count(reference, cycle, start, end);
    lemma_fundamental_div_mod(inside, cycle);
    vstd::arithmetic::div_mod::lemma_mod_bound(inside, cycle);
    vstd::arithmetic::div_mod::lemma_div_pos_is_pos(inside, cycle);
    vstd::arithmetic::div_mod::lemma_div_plus_one(inside, cycle);
    assert(count == whole + 2);
    assert forall|k: int| 0 <= k < count - 1 implies 0 <= #[trigger] trigger_offset(
        reference,
        cycle,
        start,
        k,
    ) < end - start by {
        assert(0 <= k * cycle <= cycle * whole) by (nonlinear_arith)
            requires
                0 <= k <= whole,
                cycle > 0,
        ;
    }
    assert forall|k: int| #[trigger]
        trigger_offset(reference, cycle, start, k + 1) == trigger_offset(
            reference,
            cycle,
            start,
            k,
        ) + cycle by {
        assert((k + 1) * cycle == k * cycle + cycle) by (nonlinear_arith);
    }
    assert((count - 1) * cycle == cycle * whole + cycle) by (nonlinear_arith)
        requires
            count == whole + 2,
    ;
}

/// The triggers that lie in the window are the aligned times in it: each of
/// them is aligned with the reference, and each aligned time from `start` up
/// to `end`, `end` left out, is one of them.
pub proof fn lemma_triggers_are_the_aligned_times(
    reference: int,
    cycle: int,
    start: int,
    end: int,
    t: int,
)
    requires
        0 < cycle <= end - start,
        start <= t < end,
    ensures
        aligned(t, reference, cycle) <==> exists|k: int|
            0 <= k < trigger_count(reference, cycle, start, end) - 1 && t == start
                + #[trigger] trigger_offset(reference, cycle, start, k),
{
    lemma_first_trigger(reference, cycle, start);
    lemma_triggers_fill_window(reference, cycle, start, end);
    let first = first_trigger(reference, cycle, start);
    let count = trigger_count(reference, cycle, start, end);
    let inside = end - first - 1;
    vstd::arithmetic::div_mod::lemma_div_plus_one(inside, cycle);
    if aligned(t, reference, cycle) {
        lemma_first_trigger_is_least(reference, cycle, start, t);
        let k = (t - first) / cycle;
        lemma_fundamental_div_mod(t - first, cycle);
        lemma_fundamental_div_mod(t - reference, cycle);
        lemma_fundamental_div_mod(first - reference, cycle);
        let a = (t - reference) / cycle;
        let b = (first - reference) / cycle;
        assert(t - first == (a - b) * cycle + 0) by (nonlinear_arith)
            requires
                t - reference == cycle * a + 0,
                first - reference == cycle * b + 0,
        ;
        lemma_fundamental_div_mod_converse(t - first, cycle, a - b, 0);
        assert(t - first == k * cycle) by (nonlinear_arith)
            requires
                t - first == cycle * k + 0,
        ;
        vstd::arithmetic::div_mod::lemma_div_pos_is_pos(t - first, cycle);
        vstd::arithmetic::div_mod::lemma_div_is_ordered(t - first, inside, cycle);
        assert(t == start + trigger_offset(reference, cycle, start, k));
    }
    if exists|k: int|
        0 <= k < count - 1 && t == start + #[trigger] trigger_offset(reference, cycle, start, k) {
        let k = choose|k: int|
            0 <= k < count - 1 && t == start + #[trigger] trigger_offset(
                reference,
                cycle,
                start,
                k,
            );
        let b = (first - reference) / cycle;
        lemma_fundamental_div_mod(first - reference, cycle);
        assert(t - reference == cycle * (b + k) + 0) by (nonlinear_arith)
            requires
                first - reference == cycle * b + 0,
                t == first + k * cycle,
        ;
        lemma_mod_multiples_vanish(b + k, 0, cycle);
    }
}

} // verus!
