//! Mutators: the recurring rules that change assets, and their arena.
//!
//! Every rule shares a [`MutatorBase`]: which asset it changes, by how much at
//! each trigger, how much it has changed so far, how often it recurs and at
//! which time its recurrence is anchored. A variant of rule wraps a base and
//! implements [`Mutator`].

use crate::amount::Amount;
use crate::cycle::{
    first_trigger,
    projection_count,
    projection_span,
    trigger_count,
    trigger_offset,
};
use crate::events::Event;
use vstd::prelude::*;

verus! {

/// The running total of a rule at some moment, with the rule's index.
#[derive(Clone, Copy, Debug, PartialEq, Eq, Structural)]
pub struct MutatorBaseCapture {
    pub total_change: Amount,
    pub idx: usize,
}

impl MutatorBaseCapture {
    fn capture(base: &MutatorBase) -> (r: MutatorBaseCapture)
        ensures
            r == base.captured(),
    {
        MutatorBaseCapture { total_change: base.total_change, idx: base.idx }
    }
}

/// What every rule holds.
#[derive(Clone, Copy, Debug, PartialEq, Eq, Structural)]
pub struct MutatorBase {
    /// The index of the rule in its pool.
    pub idx: usize,
    /// The index of the asset that the rule changes.
    pub target_idx: usize,
    /// The change at each trigger.
    pub change: Amount,
    /// The sum of the changes applied so far.
    pub total_change: Amount,
    /// The time between two triggers; a rule with cycle 0 never fires.
    pub cycle: u64,
    /// A time at which the rule fires, or would: it fires at the times that
    /// are a whole number of cycles away from this one.
    pub unix_reference: u64,
}

impl MutatorBase {
    pub fn new(
        idx: usize,
        target_idx: usize,
        change: Amount,
        total_change: Amount,
        cycle: u64,
        unix_reference: u64,
    ) -> (r: MutatorBase)
        ensures
            r == (MutatorBase { idx, target_idx, change, total_change, cycle, unix_reference }),
    {
        MutatorBase { idx, target_idx, change, total_change, cycle, unix_reference }
    }

    /// The capture of this base.
    pub open spec fn captured(self) -> MutatorBaseCapture {
        MutatorBaseCapture { total_change: self.total_change, idx: self.idx }
    }

    /// This base with the running total of `capture`.
    pub open spec fn restored(self, capture: MutatorBaseCapture) -> MutatorBase {
        MutatorBase { total_change: capture.total_change, ..self }
    }

    /// Whether the times of the triggers over the window from `start` to
    /// `end` can be told in a `u64`: the last of them lies less than a cycle
    /// past the length of the window.
    pub open spec fn spec_fits_window(self, start: u64, end: u64) -> bool {
        self.cycle == 0 || self.cycle > end - start || (end - start) + self.cycle <= u64::MAX
    }

    /// The triggers that this base generates over the window from `start` to
    /// `end`, for the rule at position `idx` of its pool: one for each time
    /// from `start` up to `end`, `end` left out, that is a whole number of
    /// cycles away from the reference, and one more, a cycle after the last
    /// of them; in rising order, each counted from `start`.
    pub open spec fn events(self, start: u64, end: u64, idx: usize) -> Seq<Event> {
        Seq::new(
            trigger_count(
                self.unix_reference as int,
                self.cycle as int,
                start as int,
                end as int,
            ) as nat,
            |k: int|
                Event {
                    time_pos: trigger_offset(
                        self.unix_reference as int,
                        self.cycle as int,
                        start as int,
                        k,
                    ) as u64,
                    mutator_idx: idx,
                    asset_idx: self.target_idx,
                },
        )
    }

    pub fn capture(&self) -> (r: MutatorBaseCapture)
        ensures
            r == self.captured(),
    {
        MutatorBaseCapture::capture(self)
    }

    /// Takes the running total from `capture`.
    pub fn reset(&mut self, capture: MutatorBaseCapture)
        ensures
            *final(self) == old(self).restored(capture),
    {
        self.total_change = capture.total_change;
    }

    /// Decides [`MutatorBase::spec_fits_window`].
    pub fn fits_window(&self, start: u64, end: u64) -> (r: bool)
        requires
            start <= end,
        ensures
            r == self.spec_fits_window(start, end),
    {
        self.cycle == 0 || self.cycle > end - start || self.cycle <= u64::MAX - (end - start)
    }

    /// The count that a span of time stands for: the whole cycles that fit
    /// in it, and one more.
    pub fn projection_length(&self, span: u64) -> (r: u64)
        requires
            self.cycle > 0,
            span / self.cycle < u64::MAX,
        ensures
            r == projection_count(self.cycle as int, span as int),
    {
        span / self.cycle + 1
    }

    /// The first time at or after `start` at which the rule fires: the least
    /// `t >= start` that is a whole number of cycles away from the reference,
    /// which may lie before `start`, in the window or after it.
    pub fn unix_initial_event(&self, start: u64) -> (r: u64)
        requires
            self.cycle > 0,
            first_trigger(self.unix_reference as int, self.cycle as int, start as int) <= u64::MAX,
        ensures
            r == first_trigger(self.unix_reference as int, self.cycle as int, start as int),
    {
        let cycle = self.cycle;
        if self.unix_reference >= start {
            let ahead = (self.unix_reference - start) % cycle;
            ahead + start
        } else {
            let behind = (start - self.unix_reference) % cycle;
            proof {
                let x = start - self.unix_reference;
                let q = x / (cycle as int);
                vstd::arithmetic::div_mod::lemma_fundamental_div_mod(x, cycle as int);
                if behind == 0 {
                    assert(-x == (-q) * cycle + 0) by (nonlinear_arith)
                        requires
                            x == cycle * q + 0,
                    ;
                    vstd::arithmetic::div_mod::lemma_fundamental_div_mod_converse(
                        -x,
                        cycle as int,
                        -q,
                        0,
                    );
                } else {
                    assert(-x == (-q - 1) * cycle + (cycle - behind)) by (nonlinear_arith)
                        requires
                            x == cycle * q + behind,
                    ;
                    vstd::arithmetic::div_mod::lemma_fundamental_div_mod_converse(
                        -x,
                        cycle as int,
                        -q - 1,
                        cycle - behind,
                    );
                }
            }
            if behind == 0 {
                start
            } else {
                start + (cycle - behind)
            }
        }
    }
}

/// What a capture of a rule holds: the capture of its base, and the tag of
/// its variant.
pub struct MutatorState {
    pub base: MutatorBaseCapture,
    pub variant: Seq<char>,
}

/// The state of a rule at some moment, from which it can be reset.
#[derive(Debug)]
pub struct MutatorCapture {
    pub base: MutatorBaseCapture,
    pub variant: String,
}

impl View for MutatorCapture {
    type V = MutatorState;

    open spec fn view(&self) -> MutatorState {
        MutatorState { base: self.base, variant: self.variant@ }
    }
}

impl Clone for MutatorCapture {
    fn clone(&self) -> (r: Self)
        ensures
            r == *self,
    {
        MutatorCapture { base: self.base, variant: self.variant.clone() }
    }
}

/// The states that `captures` hold, position by position.
pub open spec fn states_of(captures: Seq<MutatorCapture>) -> Seq<MutatorState> {
    Seq::new(captures.len(), |i: int| captures[i]@)
}

/// A variant of rule.
pub trait Mutator: Sized {
    /// The shared part of the rule.
    spec fn base(&self) -> MutatorBase;

    /// The tag that tells captures of this variant from those of others.
    spec fn variant(&self) -> Seq<char>;

    /// What one trigger makes of an asset worth `value`, or `None` where the
    /// result leaves the decimal range.
    spec fn applied(&self, value: Amount) -> Option<Amount>;

    /// The rule as it is after a reset from `state`.
    spec fn restored(&self, state: MutatorState) -> Self;

    /// The triggers that the rule generates over the window from `start` to
    /// `end`, as the rule at position `idx` of its pool.
    spec fn events(&self, start: u64, end: u64, idx: usize) -> Seq<Event>;

    /// The new value of an asset that is worth `asset_value` when the rule
    /// fires.
    fn on_event(&self, asset_value: Amount) -> (r: Option<Amount>)
        ensures
            r == self.applied(asset_value),
    ;

    /// The state from which the rule can be reset to what it is now.
    fn capture(&self) -> (r: MutatorCapture)
        ensures
            r@ == (MutatorState { base: self.base().captured(), variant: self.variant() }),
    ;

    /// Takes the rule back, or forward, to the state in `capture`.
    fn reset(&mut self, capture: MutatorCapture)
        ensures
            *final(self) == old(self).restored(capture@),
    ;

    fn borrow_base(&self) -> (r: &MutatorBase)
        ensures
            *r == self.base(),
    ;

    /// The triggers of the rule over the window from `start` to `end`.
    fn create_events(&self, start: u64, end: u64, idx: usize) -> (r: Vec<Event>)
        requires
            start <= end,
            self.base().spec_fits_window(start, end),
        ensures
            r@ == self.events(start, end, idx),
    ;

    /// A reset leaves the base as it was, but for the running total, which
    /// is that of the state.
    proof fn lemma_restored_base(&self, state: MutatorState)
        ensures
            self.restored(state).base() == self.base().restored(state.base),
    ;
}

/// The rule that adds a fixed amount at each trigger; it holds nothing but
/// its base.
#[derive(Clone, Copy, Debug)]
pub struct StandardMutator(pub MutatorBase);

impl Mutator for StandardMutator {
    open spec fn base(&self) -> MutatorBase {
        self.0
    }

    open spec fn variant(&self) -> Seq<char> {
        Seq::empty()
    }

    open spec fn applied(&self, value: Amount) -> Option<Amount> {
        value.spec_checked_add(self.0.change)
    }

    open spec fn restored(&self, state: MutatorState) -> Self {
        StandardMutator(self.0.restored(state.base))
    }

    open spec fn events(&self, start: u64, end: u64, idx: usize) -> Seq<Event> {
        self.0.events(start, end, idx)
    }

    fn on_event(&self, asset_value: Amount) -> (r: Option<Amount>) {
        asset_value.checked_add(self.0.change)
    }

    fn capture(&self) -> (r: MutatorCapture) {
        MutatorCapture { base: self.0.capture(), variant: String::new() }
    }

    fn reset(&mut self, capture: MutatorCapture) {
        self.0.reset(capture.base)
    }

    fn borrow_base(&self) -> (r: &MutatorBase) {
        &self.0
    }

    /// No trigger where the cycle is 0 or longer than the window. Otherwise
    /// the first trigger is the first time from `start` on that is a whole
    /// number of cycles away from the reference, the next ones follow a cycle
    /// apart, and their number is `projection_length` of the span from the
    /// first trigger to the last instant of the window and one cycle more:
    /// the triggers in the window and the first step past it.
    fn create_events(&self, start: u64, end: u64, idx: usize) -> (r: Vec<Event>)
        ensures
            self.0.cycle == 0 || self.0.cycle > end - start ==> r@.len() == 0,
            0 < self.0.cycle <= end - start ==> r@.len() >= 2 && r@.len() == projection_count(
                self.0.cycle as int,
                projection_span(
                    self.0.unix_reference as int,
                    self.0.cycle as int,
                    start as int,
                    end as int,
                ),
            ),
            forall|k: int|
                0 <= k < r@.len() ==> (#[trigger] r@[k]).mutator_idx == idx && r@[k].asset_idx
                    == self.0.target_idx,
            r@.len() > 0 ==> r@[0].time_pos + start == first_trigger(
                self.0.unix_reference as int,
                self.0.cycle as int,
                start as int,
            ),
            forall|k: int| 0 <= k < r@.len() - 1 ==> (#[trigger] r@[k]).time_pos < end - start,
            r@.len() > 0 ==> r@[r@.len() - 1].time_pos >= end - start,
            forall|k: int|
                0 <= k < r@.len() - 1 ==> (#[trigger] r@[k + 1]).time_pos == r@[k].time_pos
                    + self.0.cycle,
    {
        let mut out: Vec<Event> = Vec::new();
        let cycle = self.0.cycle;
        if cycle > end - start || cycle == 0 {
            return out;
        }
        proof {
            crate::cycle::lemma_triggers_fill_window(
                self.0.unix_reference as int,
                cycle as int,
                start as int,
                end as int,
            );
        }
        let uie = self.0.unix_initial_event(start);
        let rie = uie - start;
        let pl = self.0.projection_length(end - uie - 1 + cycle);
        let mut i: u64 = 0;
        while i < pl
            invariant
                0 < cycle <= end - start,
                (end - start) + cycle <= u64::MAX,
                cycle == self.0.cycle,
                i <= pl,
                out@.len() == i,
                pl == trigger_count(
                    self.0.unix_reference as int,
                    cycle as int,
                    start as int,
                    end as int,
                ),
                rie == trigger_offset(self.0.unix_reference as int, cycle as int, start as int, 0),
                forall|k: int|
                    0 <= k < pl ==> 0 <= #[trigger] trigger_offset(
                        self.0.unix_reference as int,
                        cycle as int,
                        start as int,
                        k,
                    ) < end - start + cycle,
                forall|k: int|
                    0 <= k < out@.len() ==> #[trigger] out@[k] == self.0.events(start, end, idx)[k],
            decreases pl - i,
        {
            proof {
                assert(trigger_offset(
                    self.0.unix_reference as int,
                    cycle as int,
                    start as int,
                    i as int,
                ) == rie + cycle * i) by (nonlinear_arith)
                    requires
                        trigger_offset(
                            self.0.unix_reference as int,
                            cycle as int,
                            start as int,
                            i as int,
                        ) == rie + i * cycle,
                ;
            }
            out.push(Event { time_pos: rie + cycle * i, mutator_idx: idx, asset_idx: self.0.target_idx });
            i += 1;
        }
        proof {
            assert(out@ =~= self.0.events(start, end, idx));
            assert forall|k: int| 0 <= k < out@.len() - 1 implies (#[trigger] out@[k + 1]).time_pos
                == out@[k].time_pos + cycle by {
                assert(trigger_offset(
                    self.0.unix_reference as int,
                    cycle as int,
                    start as int,
                    k + 1,
                ) == trigger_offset(self.0.unix_reference as int, cycle as int, start as int, k)
                    + cycle);
                assert(out@[k] == self.0.events(start, end, idx)[k]);
            }
            assert forall|k: int| 0 <= k < out@.len() - 1 implies (#[trigger] out@[k]).time_pos < end
                - start by {
                assert(out@[k] == self.0.events(start, end, idx)[k]);
            }
        }
        out
    }

    proof fn lemma_restored_base(&self, state: MutatorState) {
    }
}

/// The rule `m` after one more trigger: its running total has grown by its
/// change, and nothing else is different. `None` where the new total leaves
/// the decimal range.
pub open spec fn triggered<M: Mutator>(m: M) -> Option<M> {
    match m.base().total_change.spec_checked_add(m.base().change) {
        Some(total) => Some(
            m.restored(
                MutatorState {
                    base: MutatorBaseCapture { total_change: total, idx: m.base().idx },
                    variant: m.variant(),
                },
            ),
        ),
        None => None,
    }
}

/// The triggers of all rules of a pool over a window, rule after rule in the
/// order of the pool, each rule under its position.
pub open spec fn pool_events<M: Mutator>(mutators: Seq<M>, start: u64, end: u64) -> Seq<Event>
    decreases mutators.len(),
{
    if mutators.len() == 0 {
        Seq::empty()
    } else {
        pool_events(mutators.drop_last(), start, end) + mutators.last().events(
            start,
            end,
            (mutators.len() - 1) as usize,
        )
    }
}

/// Whether the trigger times of every rule of a pool over the window can be
/// told in a `u64`.
pub open spec fn pool_fits_window<M: Mutator>(mutators: Seq<M>, start: u64, end: u64) -> bool {
    forall|i: int|
        0 <= i < mutators.len() ==> (#[trigger] mutators[i]).base().spec_fits_window(start, end)
}

/// The rules of a pool after the rule at `idx` has taken one more trigger
/// into its running total. A total that would leave the decimal range stays
/// as it is, and so does the pool where there is no such rule.
pub open spec fn recorded<M: Mutator>(mutators: Seq<M>, idx: usize) -> Seq<M> {
    if idx < mutators.len() && triggered(mutators[idx as int]) is Some {
        mutators.update(idx as int, triggered(mutators[idx as int]).unwrap())
    } else {
        mutators
    }
}

/// The states of the rules of a pool, position by position.
pub open spec fn captured_states<M: Mutator>(mutators: Seq<M>) -> Seq<MutatorState> {
    Seq::new(
        mutators.len(),
        |i: int|
            MutatorState { base: mutators[i].base().captured(), variant: mutators[i].variant() },
    )
}

/// The rules of a pool after each has been reset from the state at its
/// position; a rule without a state at its position stays as it is.
pub open spec fn restored_states<M: Mutator>(mutators: Seq<M>, states: Seq<MutatorState>) -> Seq<M> {
    Seq::new(
        mutators.len(),
        |i: int|
            if i < states.len() {
                mutators[i].restored(states[i])
            } else {
                mutators[i]
            },
    )
}

/// The arena of rules of one variant `M`. Its view is the sequence of the
/// rules by index.
pub struct MutatorPool<M: Mutator> {
    mutators: Vec<M>,
}

impl<M: Mutator> View for MutatorPool<M> {
    type V = Seq<M>;

    closed spec fn view(&self) -> Seq<M> {
        self.mutators@
    }
}

impl<M: Mutator> MutatorPool<M> {
    /// The empty pool.
    pub fn new() -> (r: MutatorPool<M>)
        ensures
            r@ == Seq::<M>::empty(),
    {
        MutatorPool { mutators: Vec::new() }
    }

    /// The number of rules.
    pub fn len(&self) -> (n: usize)
        ensures
            n == self@.len(),
    {
        self.mutators.len()
    }

    /// Appends `mutator` and returns its index.
    pub fn load(&mut self, mutator: M) -> (idx: usize)
        ensures
            final(self)@ == old(self)@.push(mutator),
            idx == old(self)@.len(),
    {
        self.mutators.push(mutator);
        self.mutators.len() - 1
    }

    /// What the rule at `idx` makes of `asset_value`. `None` where there is no
    /// such rule, and where the new value leaves the decimal range.
    pub fn on_event(&self, idx: usize, asset_value: Amount) -> (r: Option<Amount>)
        ensures
            r == if idx < self@.len() {
                self@[idx as int].applied(asset_value)
            } else {
                None
            },
    {
        if idx < self.mutators.len() {
            self.on_event_unchecked(idx, asset_value)
        } else {
            None
        }
    }

    /// What the rule at `idx` makes of `asset_value`, for a caller that knows
    /// the index to be in range.
    pub fn on_event_unchecked(&self, idx: usize, asset_value: Amount) -> (r: Option<Amount>)
        requires
            idx < self@.len(),
        ensures
            r == self@[idx as int].applied(asset_value),
    {
        self.mutators[idx].on_event(asset_value)
    }

    /// Adds the change of the rule at `idx` to its running total. Returns
    /// whether it did; where there is no such rule, or the total would leave
    /// the decimal range, the pool stays as it is.
    pub fn record_event(&mut self, idx: usize) -> (done: bool)
        ensures
            done == (idx < old(self)@.len() && triggered(old(self)@[idx as int]) is Some),
            final(self)@ == recorded(old(self)@, idx),
    {
        if idx >= self.mutators.len() {
            return false;
        }
        let base = *self.mutators[idx].borrow_base();
        match base.total_change.checked_add(base.change) {
            None => false,
            Some(total) => {
                let mut capture = self.mutators[idx].capture();
                capture.base.total_change = total;
                self.mutators[idx].reset(capture);
                true
            },
        }
    }

    /// Whether the trigger times of every rule over the window from `start`
    /// to `end` can be told in a `u64`.
    pub fn fits_window(&self, start: u64, end: u64) -> (r: bool)
        requires
            start <= end,
        ensures
            r == pool_fits_window(self@, start, end),
    {
        let n = self.mutators.len();
        let mut i: usize = 0;
        while i < n
            invariant
                start <= end,
                n == self@.len(),
                i <= n,
                forall|k: int|
                    0 <= k < i ==> (#[trigger] self@[k]).base().spec_fits_window(start, end),
            decreases n - i,
        {
            if !self.mutators[i].borrow_base().fits_window(start, end) {
                return false;
            }
            i += 1;
        }
        true
    }

    /// The triggers of all rules over the window from `start` to `end`, rule
    /// after rule, each under its index in the pool.
    pub fn create_events(&self, start: u64, end: u64) -> (r: Vec<Event>)
        requires
            start <= end,
            pool_fits_window(self@, start, end),
        ensures
            r@ == pool_events(self@, start, end),
    {
        let mut out: Vec<Event> = Vec::new();
        let n = self.mutators.len();
        let mut i: usize = 0;
        while i < n
            invariant
                start <= end,
                pool_fits_window(self@, start, end),
                n == self@.len(),
                i <= n,
                out@ == pool_events(self@.take(i as int), start, end),
            decreases n - i,
        {
            let mut events = self.mutators[i].create_events(start, end, i);
            proof {
                assert(self@.take(i + 1).drop_last() =~= self@.take(i as int));
            }
            out.append(&mut events);
            i += 1;
        }
        proof {
            assert(self@.take(n as int) =~= self@);
        }
        out
    }

    /// One capture for each rule, in the order of the pool.
    pub fn capture(&self) -> (r: Vec<MutatorCapture>)
        ensures
            states_of(r@) == captured_states(self@),
    {
        let mut out: Vec<MutatorCapture> = Vec::new();
        let n = self.mutators.len();
        let mut i: usize = 0;
        while i < n
            invariant
                n == self@.len(),
                i <= n,
                out@.len() == i,
                forall|k: int| 0 <= k < i ==> (#[trigger] out@[k])@ == captured_states(self@)[k],
            decreases n - i,
        {
            out.push(self.mutators[i].capture());
            i += 1;
        }
        proof {
            assert(states_of(out@) =~= captured_states(self@));
        }
        out
    }

    /// Resets each rule from the capture at its position. Rules beyond the
    /// last capture stay as they are; captures beyond the last rule are not
    /// looked at.
    pub fn reset(&mut self, captures: &Vec<MutatorCapture>)
        ensures
            final(self)@ == restored_states(old(self)@, states_of(captures@)),
    {
        let n = if self.mutators.len() < captures.len() {
            self.mutators.len()
        } else {
            captures.len()
        };
        let mut i: usize = 0;
        while i < n
            invariant
                n <= captures@.len(),
                n <= self@.len(),
                i <= n,
                self@.len() == old(self)@.len(),
                forall|k: int|
                    0 <= k < i ==> #[trigger] self@[k] == old(self)@[k].restored(captures@[k]@),
                forall|k: int| i <= k < self@.len() ==> #[trigger] self@[k] == old(self)@[k],
            decreases n - i,
        {
            self.mutators[i].reset(captures[i].clone());
            i += 1;
        }
        proof {
            assert(self@ =~= restored_states(old(self)@, states_of(captures@)));
        }
    }
}

} // verus!
