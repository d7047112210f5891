//! Trigger events and the order in which they are replayed.

use crate::amount::Amount;
use crate::assets::AssetPool;
use crate::mutators::{Mutator, MutatorPool};
use crate::sorting::{lemma_ordered, ordered, rank, Ranked};
use std::cmp::Ordering;
use vstd::prelude::*;
use vstd::std_specs::cmp::{PartialEqSpecImpl, PartialOrdSpecImpl};

verus! {

/// One trigger of one mutator: at `time_pos`, counted from the start of the
/// window, mutator `mutator_idx` changes asset `asset_idx`.
#[derive(Clone, Copy, Debug)]
pub struct Event {
    pub time_pos: u64,
    pub mutator_idx: usize,
    pub asset_idx: usize,
}

impl Event {
    pub fn new(time_pos: u64, mutator_idx: usize, asset_idx: usize) -> (r: Event)
        ensures
            r == (Event { time_pos, mutator_idx, asset_idx }),
    {
        Event { time_pos, mutator_idx, asset_idx }
    }

    /// Whether the event takes effect on the given assets and rules: its
    /// asset and its rule exist, and the asset's new value does not leave the
    /// decimal range.
    pub open spec fn applies<M: Mutator>(self, assets: Seq<Amount>, mutators: Seq<M>) -> bool {
        &&& self.asset_idx < assets.len()
        &&& self.mutator_idx < mutators.len()
        &&& mutators[self.mutator_idx as int].applied(assets[self.asset_idx as int]) is Some
    }

    /// The assets after the event: where it takes effect, its asset holds what
    /// its rule makes of the asset's value; otherwise nothing has changed.
    pub open spec fn assets_after<M: Mutator>(
        self,
        assets: Seq<Amount>,
        mutators: Seq<M>,
    ) -> Seq<Amount> {
        if self.applies(assets, mutators) {
            assets.update(
                self.asset_idx as int,
                mutators[self.mutator_idx as int].applied(assets[self.asset_idx as int]).unwrap(),
            )
        } else {
            assets
        }
    }

    /// Applies the event: reads its asset, lets its rule make the new value
    /// and writes that back. Returns whether it took effect; where it did
    /// not, the assets stay as they are. The rules are read only.
    pub fn trigger<M: Mutator>(
        &self,
        asset_pool: &mut AssetPool,
        mutator_pool: &MutatorPool<M>,
    ) -> (applied: bool)
        ensures
            applied == self.applies(old(asset_pool)@, mutator_pool@),
            final(asset_pool)@ == self.assets_after(old(asset_pool)@, mutator_pool@),
    {
        let value = match asset_pool.get(self.asset_idx) {
            Some(value) => value,
            None => {
                return false;
            },
        };
        if let Some(new_value) = mutator_pool.on_event(self.mutator_idx, value) {
            asset_pool.mutate(self.asset_idx, new_value)
        } else {
            false
        }
    }

    /// Applies the event as [`Event::trigger`] does, for a caller that knows
    /// that the event's asset and rule exist.
    pub fn trigger_unchecked<M: Mutator>(
        &self,
        asset_pool: &mut AssetPool,
        mutator_pool: &MutatorPool<M>,
    ) -> (applied: bool)
        requires
            self.asset_idx < old(asset_pool)@.len(),
            self.mutator_idx < mutator_pool@.len(),
        ensures
            applied == self.applies(old(asset_pool)@, mutator_pool@),
            final(asset_pool)@ == self.assets_after(old(asset_pool)@, mutator_pool@),
    {
        let value = asset_pool.get_unchecked(self.asset_idx);
        match mutator_pool.on_event_unchecked(self.mutator_idx, value) {
            Some(new_value) => {
                asset_pool.mutate_unchecked(self.asset_idx, new_value);
                true
            },
            None => false,
        }
    }
}

/// Two events are the same trigger when time and mutator agree.
impl PartialEq for Event {
    fn eq(&self, other: &Self) -> (r: bool) {
        self.time_pos == other.time_pos && self.mutator_idx == other.mutator_idx
    }
}

impl Eq for Event {

}

impl PartialEqSpecImpl for Event {
    open spec fn obeys_eq_spec() -> bool {
        true
    }

    open spec fn eq_spec(&self, other: &Self) -> bool {
        self.time_pos == other.time_pos && self.mutator_idx == other.mutator_idx
    }
}

/// Events compare by time, those of one time by the index of their mutator:
/// two events compare as equal exactly when `==` holds of them.
impl PartialOrd for Event {
    fn partial_cmp(&self, other: &Self) -> (r: Option<Ordering>) {
        if self.time_pos < other.time_pos {
            Some(Ordering::Less)
        } else if self.time_pos > other.time_pos {
            Some(Ordering::Greater)
        } else if self.mutator_idx < other.mutator_idx {
            Some(Ordering::Less)
        } else if self.mutator_idx > other.mutator_idx {
            Some(Ordering::Greater)
        } else {
            Some(Ordering::Equal)
        }
    }
}

impl PartialOrdSpecImpl for Event {
    open spec fn obeys_partial_cmp_spec() -> bool {
        true
    }

    open spec fn partial_cmp_spec(&self, other: &Self) -> Option<Ordering> {
        if self.time_pos < other.time_pos {
            Some(Ordering::Less)
        } else if self.time_pos > other.time_pos {
            Some(Ordering::Greater)
        } else if self.mutator_idx < other.mutator_idx {
            Some(Ordering::Less)
        } else if self.mutator_idx > other.mutator_idx {
            Some(Ordering::Greater)
        } else {
            Some(Ordering::Equal)
        }
    }
}

impl Ranked for Event {
    /// By time. Events of one time follow each other by the index of their
    /// mutator, rising; those of one time and mutator by the index of their
    /// asset.
    open spec fn leq(a: Self, b: Self) -> bool {
        ||| a.time_pos < b.time_pos
        ||| a.time_pos == b.time_pos && a.mutator_idx < b.mutator_idx
        ||| a.time_pos == b.time_pos && a.mutator_idx == b.mutator_idx && a.asset_idx
            <= b.asset_idx
    }

    fn no_later(&self, other: &Self) -> (r: bool) {
        if self.time_pos != other.time_pos {
            self.time_pos < other.time_pos
        } else if self.mutator_idx != other.mutator_idx {
            self.mutator_idx < other.mutator_idx
        } else {
            self.asset_idx <= other.asset_idx
        }
    }

    proof fn lemma_total_order() {
    }
}

/// In replay order time never goes back, and of two events of one time the
/// one of the rule with the lower index comes first.
pub proof fn lemma_replay_order(events: Seq<Event>, i: int, j: int)
    requires
        0 <= i < j < events.len(),
    ensures
        ordered(events).len() == events.len(),
        ordered(events)[i].time_pos <= ordered(events)[j].time_pos,
        ordered(events)[i].time_pos == ordered(events)[j].time_pos ==> ordered(
            events,
        )[i].mutator_idx <= ordered(events)[j].mutator_idx,
{
    lemma_ordered(events);
    assert(rank::<Event>()(ordered(events)[i], ordered(events)[j]));
}

/// Of two events of one time the one of the rule with the lower index is
/// replayed first, wherever the two stood before.
pub proof fn lemma_tie_replays_lower_index_first(events: Seq<Event>, i: int, j: int)
    requires
        0 <= i < events.len(),
        0 <= j < events.len(),
        ordered(events)[i].time_pos == ordered(events)[j].time_pos,
        ordered(events)[i].mutator_idx < ordered(events)[j].mutator_idx,
    ensures
        i < j,
{
    if j < i {
        lemma_replay_order(events, j, i);
    }
}

} // verus!
