//! What a replay leaves in an asset that one rule alone changes: the asset's
//! first value with the rule's change added once for each trigger.

use crate::amount::Amount;
use crate::events::Event;
use crate::modeller::{replayed, stepped, Ledger};
use crate::mutators::{pool_events, Mutator, MutatorBase, StandardMutator};
use crate::sorting::{lemma_ordered, ordered};
use vstd::prelude::*;

verus! {

/// `value` with `change` added `times` times, one sum after the other.
/// `None` where a sum on the way leaves the decimal range.
pub open spec fn added_times(value: Amount, change: Amount, times: nat) -> Option<Amount>
    decreases times,
{
    if times == 0 {
        Some(value)
    } else {
        match added_times(value, change, (times - 1) as nat) {
            Some(sum) => sum.spec_checked_add(change),
            None => None,
        }
    }
}

/// The number of `events` that change the asset at `asset`.
pub open spec fn triggers_on(events: Seq<Event>, asset: int) -> nat
    decreases events.len(),
{
    if events.len() == 0 {
        0
    } else {
        triggers_on(events.drop_last(), asset) + if events.last().asset_idx == asset {
            1nat
        } else {
            0nat
        }
    }
}

/// A replay changes no rule but in its running total, and neither adds nor
/// removes an asset or a rule.
pub proof fn lemma_replay_keeps_rules(ledger: Ledger<StandardMutator>, events: Seq<Event>)
    ensures
        replayed(ledger, events).assets.len() == ledger.assets.len(),
        replayed(ledger, events).mutators.len() == ledger.mutators.len(),
        forall|i: int|
            0 <= i < ledger.mutators.len() ==> (#[trigger] replayed(
                ledger,
                events,
            ).mutators[i]).0.restored(ledger.mutators[i].0.captured()) == ledger.mutators[i].0,
    decreases events.len(),
{
    if events.len() > 0 {
        lemma_replay_keeps_rules(ledger, events.drop_last());
    }
}

/// Where one rule alone changes an asset, and none of its sums leaves the
/// decimal range, a replay leaves in the asset its first value with the
/// rule's change added once for each of the events on that asset.
pub proof fn lemma_replayed_value(
    ledger: Ledger<StandardMutator>,
    events: Seq<Event>,
    asset: int,
    rule: int,
)
    requires
        0 <= asset < ledger.assets.len(),
        0 <= rule < ledger.mutators.len(),
        forall|k: int|
            0 <= k < events.len() && (#[trigger] events[k]).asset_idx == asset
                ==> events[k].mutator_idx == rule,
        added_times(
            ledger.assets[asset],
            ledger.mutators[rule].0.change,
            triggers_on(events, asset),
        ) is Some,
    ensures
        replayed(ledger, events).assets[asset] == added_times(
            ledger.assets[asset],
            ledger.mutators[rule].0.change,
            triggers_on(events, asset),
        ).unwrap(),
    decreases events.len(),
{
    if events.len() > 0 {
        let earlier = events.drop_last();
        assert forall|k: int|
            0 <= k < earlier.len() && (#[trigger] earlier[k]).asset_idx == asset implies earlier[k].mutator_idx
            == rule by {
            assert(earlier[k] == events[k]);
        }
        lemma_replay_keeps_rules(ledger, earlier);
        lemma_replayed_value(ledger, earlier, asset, rule);
        let before = replayed(ledger, earlier);
        assert(before.mutators[rule].0.change == ledger.mutators[rule].0.change);
        assert(events.last() == events[events.len() - 1]);
    }
}

/// The events on an asset in two sequences, one after the other, are those
/// in the one and those in the other.
pub proof fn lemma_triggers_on_both(first: Seq<Event>, second: Seq<Event>, asset: int)
    ensures
        triggers_on(first + second, asset) == triggers_on(first, asset) + triggers_on(
            second,
            asset,
        ),
    decreases second.len(),
{
    if second.len() == 0 {
        assert(first + second =~= first);
    } else {
        assert((first + second).drop_last() =~= first + second.drop_last());
        lemma_triggers_on_both(first, second.drop_last(), asset);
    }
}

/// Taking one event out takes one from the count where the event is on the
/// asset, and nothing where it is not.
pub proof fn lemma_triggers_on_without(events: Seq<Event>, at: int, asset: int)
    requires
        0 <= at < events.len(),
    ensures
        triggers_on(events, asset) == triggers_on(events.remove(at), asset) + if events[at].asset_idx
            == asset {
            1nat
        } else {
            0nat
        },
    decreases events.len(),
{
    if at == events.len() - 1 {
        assert(events.remove(at) =~= events.drop_last());
    } else {
        assert(events.remove(at).drop_last() =~= events.drop_last().remove(at));
        assert(events.remove(at).last() == events.last());
        lemma_triggers_on_without(events.drop_last(), at, asset);
    }
}

/// The number of events on an asset does not depend on their order.
pub proof fn lemma_triggers_on_any_order(one: Seq<Event>, other: Seq<Event>, asset: int)
    requires
        one.to_multiset() == other.to_multiset(),
    ensures
        triggers_on(one, asset) == triggers_on(other, asset),
    decreases one.len(),
{
    one.to_multiset_ensures();
    other.to_multiset_ensures();
    if one.len() > 0 {
        let x = one.last();
        assert(one.contains(x));
        assert(other.to_multiset().count(x) > 0);
        assert(other.contains(x));
        let at = choose|at: int| 0 <= at < other.len() && other[at] == x;
        assert(one.drop_last() =~= one.remove(one.len() - 1));
        vstd::seq_lib::to_multiset_remove(one, one.len() - 1);
        vstd::seq_lib::to_multiset_remove(other, at);
        lemma_triggers_on_any_order(one.drop_last(), other.remove(at), asset);
        lemma_triggers_on_without(other, at, asset);
    }
}

/// All triggers of a rule are on its target.
pub proof fn lemma_triggers_of_rule(base: MutatorBase, start: u64, end: u64, idx: usize, asset: int)
    ensures
        triggers_on(base.events(start, end, idx), asset) == if base.target_idx == asset {
            base.events(start, end, idx).len()
        } else {
            0
        },
{
    lemma_triggers_of_run(base.events(start, end, idx), base.target_idx, asset);
}

proof fn lemma_triggers_of_run(events: Seq<Event>, target: usize, asset: int)
    requires
        forall|k: int| 0 <= k < events.len() ==> (#[trigger] events[k]).asset_idx == target,
    ensures
        triggers_on(events, asset) == if target == asset {
            events.len()
        } else {
            0
        },
    decreases events.len(),
{
    if events.len() > 0 {
        assert forall|k: int| 0 <= k < events.drop_last().len() implies (
        #[trigger] events.drop_last()[k]).asset_idx == target by {
            assert(events.drop_last()[k] == events[k]);
        }
        lemma_triggers_of_run(events.drop_last(), target, asset);
        assert(events.last() == events[events.len() - 1]);
    }
}

/// Where one rule alone of a pool has a given target, the pool's triggers on
/// that target are that rule's triggers, and every one of them bears the
/// rule's index.
pub proof fn lemma_triggers_of_pool(
    mutators: Seq<StandardMutator>,
    start: u64,
    end: u64,
    rule: int,
)
    requires
        0 <= rule < mutators.len() <= usize::MAX,
        forall|i: int|
            0 <= i < mutators.len() && i != rule ==> (#[trigger] mutators[i]).0.target_idx
                != mutators[rule].0.target_idx,
    ensures
        triggers_on(pool_events(mutators, start, end), mutators[rule].0.target_idx as int)
            == mutators[rule].0.events(start, end, rule as usize).len(),
        forall|k: int|
            0 <= k < pool_events(mutators, start, end).len() && (#[trigger] pool_events(
                mutators,
                start,
                end,
            )[k]).asset_idx == mutators[rule].0.target_idx ==> pool_events(
                mutators,
                start,
                end,
            )[k].mutator_idx == rule,
{
    lemma_triggers_of_others(mutators, start, end, rule, mutators.len() as int);
    assert(mutators.take(mutators.len() as int) =~= mutators);
}

proof fn lemma_triggers_of_others(
    mutators: Seq<StandardMutator>,
    start: u64,
    end: u64,
    rule: int,
    n: int,
)
    requires
        0 <= rule < mutators.len() <= usize::MAX,
        0 <= n <= mutators.len(),
        forall|i: int|
            0 <= i < mutators.len() && i != rule ==> (#[trigger] mutators[i]).0.target_idx
                != mutators[rule].0.target_idx,
    ensures
        triggers_on(
            pool_events(mutators.take(n), start, end),
            mutators[rule].0.target_idx as int,
        ) == if rule < n {
            mutators[rule].0.events(start, end, rule as usize).len()
        } else {
            0
        },
        forall|k: int|
            0 <= k < pool_events(mutators.take(n), start, end).len() && (#[trigger] pool_events(
                mutators.take(n),
                start,
                end,
            )[k]).asset_idx == mutators[rule].0.target_idx ==> pool_events(
                mutators.take(n),
                start,
                end,
            )[k].mutator_idx == rule,
    decreases n,
{
    let asset = mutators[rule].0.target_idx as int;
    if n > 0 {
        let head = mutators.take(n);
        assert(head.drop_last() =~= mutators.take(n - 1));
        assert(head.last() == mutators[n - 1]);
        lemma_triggers_of_others(mutators, start, end, rule, n - 1);
        let earlier = pool_events(mutators.take(n - 1), start, end);
        let own = mutators[n - 1].0.events(start, end, (n - 1) as usize);
        assert(pool_events(head, start, end) == earlier + own);
        lemma_triggers_on_both(earlier, own, asset);
        lemma_triggers_of_rule(mutators[n - 1].0, start, end, (n - 1) as usize, asset);
        assert forall|k: int|
            0 <= k < (earlier + own).len() && (#[trigger] (earlier + own)[k]).asset_idx
                == mutators[rule].0.target_idx implies (earlier + own)[k].mutator_idx == rule by {
            if k < earlier.len() {
                assert((earlier + own)[k] == earlier[k]);
            } else {
                assert((earlier + own)[k] == own[k - earlier.len()]);
            }
        }
    }
}

/// Replaying all triggers of a pool over a window leaves, in an asset that
/// one rule alone changes, the asset's first value with the rule's change
/// added once for each trigger that the rule generates over the window,
/// where none of these sums leaves the decimal range.
pub proof fn lemma_projected_value(
    ledger: Ledger<StandardMutator>,
    start: u64,
    end: u64,
    rule: int,
)
    requires
        0 <= rule < ledger.mutators.len() <= usize::MAX,
        ledger.mutators[rule].0.target_idx < ledger.assets.len(),
        forall|i: int|
            0 <= i < ledger.mutators.len() && i != rule ==> (#[trigger] ledger.mutators[i]).0.target_idx
                != ledger.mutators[rule].0.target_idx,
        added_times(
            ledger.assets[ledger.mutators[rule].0.target_idx as int],
            ledger.mutators[rule].0.change,
            ledger.mutators[rule].0.events(start, end, rule as usize).len(),
        ) is Some,
    ensures
        replayed(
            ledger,
            ordered(pool_events(ledger.mutators, start, end)),
        ).assets[ledger.mutators[rule].0.target_idx as int] == added_times(
            ledger.assets[ledger.mutators[rule].0.target_idx as int],
            ledger.mutators[rule].0.change,
            ledger.mutators[rule].0.events(start, end, rule as usize).len(),
        ).unwrap(),
{
    let asset = ledger.mutators[rule].0.target_idx as int;
    let collected = pool_events(ledger.mutators, start, end);
    let events = ordered(collected);
    lemma_triggers_of_pool(ledger.mutators, start, end, rule);
    lemma_ordered(collected);
    lemma_triggers_on_any_order(events, collected, asset);
    events.to_multiset_ensures();
    collected.to_multiset_ensures();
    assert forall|k: int|
        0 <= k < events.len() && (#[trigger] events[k]).asset_idx == asset implies events[k].mutator_idx
        == rule by {
        assert(events.contains(events[k]));
        assert(collected.to_multiset().count(events[k]) > 0);
        assert(collected.contains(events[k]));
        let at = choose|at: int| 0 <= at < collected.len() && collected[at] == events[k];
        assert(collected[at].asset_idx == asset);
    }
    lemma_replayed_value(ledger, events, asset, rule);
}

} // verus!
