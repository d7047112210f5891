//! The projection: replaying the triggers of all rules over a window of time,
//! with a snapshot after each trigger and at the end of each interval.

use crate::accounts::{account_captures_of, AccountCapture, AccountPool};
use crate::amount::Amount;
use crate::assets::{captures_of, values_of, AssetCapture, AssetPool};
use crate::events::Event;
use crate::mutators::{
    captured_states,
    pool_events,
    pool_fits_window,
    recorded,
    restored_states,
    states_of,
    Mutator,
    MutatorCapture,
    MutatorPool,
    MutatorState,
};
use crate::sorting::{ordered, rank, sort};
use vstd::prelude::*;
use vstd::relations::sorted_by;

verus! {

/// What a projection works on: the values of the assets and the rules, each
/// by index.
pub struct Ledger<M> {
    pub assets: Seq<Amount>,
    pub mutators: Seq<M>,
}

/// What an [`EventMemento`] holds.
pub struct MementoView {
    pub time_pos: u64,
    pub account_values: Seq<AccountCapture>,
    pub mutator_states: Seq<MutatorState>,
    pub asset_captures: Seq<AssetCapture>,
}

/// What an [`IntervalPoint`] holds.
pub struct PointView {
    pub account_values: Seq<AccountCapture>,
    pub mutator_captures: Seq<MutatorState>,
    pub asset_captures: Seq<AssetCapture>,
}

/// What a [`ResultPacket`] holds.
pub struct PacketView {
    pub interval_points: Seq<PointView>,
    pub event_mementos: Seq<MementoView>,
}

/// The whole state of the ledger right after one trigger took effect.
#[derive(Debug)]
pub struct EventMemento {
    /// The time of the trigger, counted from the start of the window.
    pub time_pos: u64,
    pub account_values: Vec<AccountCapture>,
    pub mutator_states: Vec<MutatorCapture>,
    pub asset_captures: Vec<AssetCapture>,
}

impl View for EventMemento {
    type V = MementoView;

    open spec fn view(&self) -> MementoView {
        MementoView {
            time_pos: self.time_pos,
            account_values: self.account_values@,
            mutator_states: states_of(self.mutator_states@),
            asset_captures: self.asset_captures@,
        }
    }
}

/// The whole state of the ledger at the end of one interval.
#[derive(Debug)]
pub struct IntervalPoint {
    pub account_values: Vec<AccountCapture>,
    pub mutator_captures: Vec<MutatorCapture>,
    pub asset_captures: Vec<AssetCapture>,
}

impl View for IntervalPoint {
    type V = PointView;

    open spec fn view(&self) -> PointView {
        PointView {
            account_values: self.account_values@,
            mutator_captures: states_of(self.mutator_captures@),
            asset_captures: self.asset_captures@,
        }
    }
}

/// What one projection gives: a point for each interval, in order, and a
/// memento for each trigger that took effect, in the order of replay.
#[derive(Debug)]
pub struct ResultPacket {
    pub interval_points: Vec<IntervalPoint>,
    pub event_mementos: Vec<EventMemento>,
}

impl View for ResultPacket {
    type V = PacketView;

    open spec fn view(&self) -> PacketView {
        PacketView {
            interval_points: Seq::new(
                self.interval_points@.len(),
                |i: int| self.interval_points@[i]@,
            ),
            event_mementos: Seq::new(self.event_mementos@.len(), |i: int| self.event_mementos@[i]@),
        }
    }
}

/// The ledger after `event`. Where the event takes effect, its asset holds
/// the new value and its rule has taken the trigger into its running total;
/// a total that would leave the decimal range stays as it is. Where the event
/// does not take effect, nothing has changed.
pub open spec fn stepped<M: Mutator>(ledger: Ledger<M>, event: Event) -> Ledger<M> {
    Ledger {
        assets: event.assets_after(ledger.assets, ledger.mutators),
        mutators: if event.applies(ledger.assets, ledger.mutators) {
            recorded(ledger.mutators, event.mutator_idx)
        } else {
            ledger.mutators
        },
    }
}

/// The ledger after `events`, one after the other. An event that does not
/// take effect is passed over.
pub open spec fn replayed<M: Mutator>(ledger: Ledger<M>, events: Seq<Event>) -> Ledger<M>
    decreases events.len(),
{
    if events.len() == 0 {
        ledger
    } else {
        stepped(replayed(ledger, events.drop_last()), events.last())
    }
}

/// The memento of a ledger at `time_pos`.
pub open spec fn memento_of<M: Mutator>(
    ledger: Ledger<M>,
    accounts: Seq<Seq<usize>>,
    time_pos: u64,
) -> MementoView {
    MementoView {
        time_pos,
        account_values: account_captures_of(accounts, ledger.assets),
        mutator_states: captured_states(ledger.mutators),
        asset_captures: captures_of(ledger.assets),
    }
}

/// The interval point of a ledger.
pub open spec fn point_of<M: Mutator>(ledger: Ledger<M>, accounts: Seq<Seq<usize>>) -> PointView {
    PointView {
        account_values: account_captures_of(accounts, ledger.assets),
        mutator_captures: captured_states(ledger.mutators),
        asset_captures: captures_of(ledger.assets),
    }
}

/// The mementos of a replay of `events`: one for each event that takes
/// effect, of the ledger right after it; none for an event that does not.
pub open spec fn mementos<M: Mutator>(
    ledger: Ledger<M>,
    accounts: Seq<Seq<usize>>,
    events: Seq<Event>,
) -> Seq<MementoView>
    decreases events.len(),
{
    if events.len() == 0 {
        Seq::empty()
    } else {
        let before = replayed(ledger, events.drop_last());
        let earlier = mementos(ledger, accounts, events.drop_last());
        if events.last().applies(before.assets, before.mutators) {
            earlier.push(memento_of(stepped(before, events.last()), accounts, events.last().time_pos))
        } else {
            earlier
        }
    }
}

/// The number of `events` whose time is `boundary` or earlier.
pub open spec fn count_due(events: Seq<Event>, boundary: int) -> nat
    decreases events.len(),
{
    if events.len() == 0 {
        0
    } else {
        count_due(events.drop_last(), boundary) + if events.last().time_pos <= boundary {
            1nat
        } else {
            0nat
        }
    }
}

/// The number of events that have been replayed when `intervals` of the
/// `interval_count` intervals of length `interval_len` are over: those that
/// lie in one of them or on the end of one. Before the first interval is
/// over none has; when the last is over all have, the steps past the window
/// too.
pub open spec fn due_by(
    events: Seq<Event>,
    interval_len: u64,
    interval_count: u64,
    intervals: int,
) -> nat {
    if intervals <= 0 {
        0
    } else if intervals >= interval_count {
        events.len()
    } else {
        count_due(events, interval_len * intervals)
    }
}

/// What the memento holds, where there is one.
pub open spec fn view_of(memento: Option<EventMemento>) -> Option<MementoView> {
    match memento {
        Some(m) => Some(m@),
        None => None,
    }
}

/// The ledger from which a projection starts: the given one, or, where a
/// memento is handed in, the assets that the memento's captures reload to and
/// the rules each reset from the memento's state at its position.
pub open spec fn resumed<M: Mutator>(ledger: Ledger<M>, memento: Option<MementoView>) -> Ledger<M> {
    match memento {
        None => ledger,
        Some(m) => Ledger {
            assets: values_of(ordered(m.asset_captures)),
            mutators: restored_states(ledger.mutators, m.mutator_states),
        },
    }
}

/// Replaying one event more is one step from the ledger that the events
/// before it left, and adds a memento of the ledger after that step where the
/// event takes effect.
pub proof fn lemma_replay_step<M: Mutator>(
    ledger: Ledger<M>,
    accounts: Seq<Seq<usize>>,
    events: Seq<Event>,
    n: int,
)
    requires
        0 <= n < events.len(),
    ensures
        replayed(ledger, events.take(n + 1)) == stepped(
            replayed(ledger, events.take(n)),
            events[n],
        ),
        mementos(ledger, accounts, events.take(n + 1)) == if events[n].applies(
            replayed(ledger, events.take(n)).assets,
            replayed(ledger, events.take(n)).mutators,
        ) {
            mementos(ledger, accounts, events.take(n)).push(
                memento_of(
                    replayed(ledger, events.take(n + 1)),
                    accounts,
                    events[n].time_pos,
                ),
            )
        } else {
            mementos(ledger, accounts, events.take(n))
        },
{
    assert(events.take(n + 1).drop_last() =~= events.take(n));
    assert(events.take(n + 1).last() == events[n]);
}

/// The memento of an event that took effect shows the event's asset at the
/// value that its rule made of it, and every other asset as it was.
pub proof fn lemma_memento_shows_the_new_value<M: Mutator>(
    ledger: Ledger<M>,
    accounts: Seq<Seq<usize>>,
    event: Event,
    asset: int,
)
    requires
        event.applies(ledger.assets, ledger.mutators),
        0 <= asset < ledger.assets.len(),
    ensures
        memento_of(stepped(ledger, event), accounts, event.time_pos).asset_captures.len()
            == ledger.assets.len(),
        memento_of(stepped(ledger, event), accounts, event.time_pos).asset_captures[asset].value
            == if asset == event.asset_idx {
            ledger.mutators[event.mutator_idx as int].applied(ledger.assets[asset]).unwrap()
        } else {
            ledger.assets[asset]
        },
{
}

/// In a sequence of events in replay order those that are due at a boundary
/// come first: where the first `n` are due and the next one, if there is one,
/// is not, `n` are due in all.
pub proof fn lemma_due_events_come_first(events: Seq<Event>, boundary: int, n: int)
    requires
        sorted_by(events, rank::<Event>()),
        0 <= n <= events.len(),
        forall|i: int| 0 <= i < n ==> (#[trigger] events[i]).time_pos <= boundary,
        n < events.len() ==> events[n].time_pos > boundary,
    ensures
        count_due(events, boundary) == n,
    decreases events.len(),
{
    if events.len() > 0 {
        let rest = events.drop_last();
        assert forall|i: int, j: int| 0 <= i < j < rest.len() implies #[trigger] rank::<Event>()(
            rest[i],
            rest[j],
        ) by {
            assert(rank::<Event>()(events[i], events[j]));
        }
        if n == events.len() {
            assert forall|i: int| 0 <= i < n - 1 implies (#[trigger] rest[i]).time_pos
                <= boundary by {
                assert(events[i].time_pos <= boundary);
            }
            lemma_due_events_come_first(rest, boundary, n - 1);
        } else {
            assert forall|i: int| 0 <= i < n implies (#[trigger] rest[i]).time_pos <= boundary by {
                assert(events[i].time_pos <= boundary);
            }
            if n < events.len() - 1 {
                assert(rank::<Event>()(events[n], events[events.len() - 1]));
            }
            lemma_due_events_come_first(rest, boundary, n);
        }
    }
}

/// The projector: the pools that a projection works on, and the events of
/// its last run.
pub struct Modeller<M: Mutator> {
    pub asset_pool: AssetPool,
    pub account_pool: AccountPool,
    pub mutator_pool: MutatorPool<M>,
    /// The events of the last projection, in replay order.
    pub events: Vec<Event>,
}

impl<M: Mutator> Modeller<M> {
    /// The assets and rules as a ledger.
    pub open spec fn ledger(&self) -> Ledger<M> {
        Ledger { assets: self.asset_pool@, mutators: self.mutator_pool@ }
    }

    /// A projector over the given assets and rules, without accounts and
    /// without events.
    pub fn new(asset_pool: AssetPool, mutator_pool: MutatorPool<M>) -> (r: Modeller<M>)
        ensures
            r.asset_pool == asset_pool,
            r.mutator_pool == mutator_pool,
            r.account_pool@ == Seq::<Seq<usize>>::empty(),
            r.events@ == Seq::<Event>::empty(),
    {
        Modeller { asset_pool, account_pool: AccountPool::new(), mutator_pool, events: Vec::new() }
    }

    fn memento(&self, time_pos: u64) -> (r: EventMemento)
        ensures
            r@ == memento_of(self.ledger(), self.account_pool@, time_pos),
    {
        EventMemento {
            time_pos,
            account_values: self.account_pool.capture(&self.asset_pool),
            mutator_states: self.mutator_pool.capture(),
            asset_captures: self.asset_pool.capture(),
        }
    }

    fn interval_point(&self) -> (r: IntervalPoint)
        ensures
            r@ == point_of(self.ledger(), self.account_pool@),
    {
        IntervalPoint {
            account_values: self.account_pool.capture(&self.asset_pool),
            mutator_captures: self.mutator_pool.capture(),
            asset_captures: self.asset_pool.capture(),
        }
    }

    /// Projects the ledger over `interval_count` intervals of `interval_len`
    /// units of time each, the first of which begins at `start`.
    ///
    /// Where a memento is handed in, the projection starts from its state
    /// ([`resumed`]), otherwise from the pools as they are. The rules'
    /// triggers over the window are collected and put in replay order: by
    /// time, those of one time by the index of their rule. They are replayed
    /// interval by interval; a trigger on the end of an interval belongs to
    /// it, and the last interval takes the steps past the window as well, so
    /// that every trigger is replayed. A trigger that takes effect changes its
    /// asset, is added to the running total of its rule (a total that would
    /// leave the decimal range stays as it is) and leaves a memento; one whose
    /// asset or rule is missing, or whose new value leaves the decimal range,
    /// is passed over and leaves none. Each interval leaves a point of the
    /// ledger at its end. The pools are left as the replay made them, and
    /// `events` holds the triggers in replay order.
    ///
    /// `interval_delay` is the time between the end of this window and the
    /// start of the next projection; it moves nothing inside the window.
    pub fn project(
        &mut self,
        start: u64,
        interval_len: u64,
        interval_count: u64,
        interval_delay: u64,
        memento: Option<EventMemento>,
    ) -> (r: ResultPacket)
        requires
            start + interval_len * interval_count <= u64::MAX,
            pool_fits_window(
                old(self).mutator_pool@,
                start,
                (start + interval_len * interval_count) as u64,
            ),
        ensures
            final(self).events@ == ordered(
                pool_events(
                    resumed(
                        old(self).ledger(),
                        view_of(memento),
                    ).mutators,
                    start,
                    (start + interval_len * interval_count) as u64,
                ),
            ),
            final(self).account_pool@ == old(self).account_pool@,
            final(self).ledger() == replayed(
                resumed(
                    old(self).ledger(),
                    view_of(memento),
                ),
                final(self).events@.take(
                    due_by(final(self).events@, interval_len, interval_count, interval_count as int) as int,
                ),
            ),
            r@.event_mementos == mementos(
                resumed(
                    old(self).ledger(),
                    view_of(memento),
                ),
                old(self).account_pool@,
                final(self).events@.take(
                    due_by(final(self).events@, interval_len, interval_count, interval_count as int) as int,
                ),
            ),
            interval_count > 0 ==> final(self).ledger() == replayed(
                resumed(old(self).ledger(), view_of(memento)),
                final(self).events@,
            ),
            r@.interval_points.len() == interval_count,
            forall|k: int|
                0 <= k < interval_count ==> #[trigger] r@.interval_points[k] == point_of(
                    replayed(
                        resumed(
                            old(self).ledger(),
                            view_of(memento),
                        ),
                        final(self).events@.take(
                            due_by(final(self).events@, interval_len, interval_count, k + 1) as int,
                        ),
                    ),
                    old(self).account_pool@,
                ),
    {
        let ghost view_of_memento = view_of(memento);
        if let Some(m) = memento {
            self.asset_pool = AssetPool::reload(m.asset_captures);
            self.mutator_pool.reset(&m.mutator_states);
        }
        let ghost first = self.ledger();
        let ghost accounts = self.account_pool@;
        assert(first == resumed(old(self).ledger(), view_of_memento));
        assert(interval_len * interval_count >= 0) by (nonlinear_arith)
            requires
                interval_len >= 0,
                interval_count >= 0,
        ;
        let end = start + interval_len * interval_count;
        proof {
            assert forall|i: int| 0 <= i < first.mutators.len() implies (
            #[trigger] first.mutators[i]).base().spec_fits_window(start, end) by {
                let before = old(self).mutator_pool@[i];
                assert(before.base().spec_fits_window(start, end));
                if let Some(m) = view_of_memento {
                    if i < m.mutator_states.len() {
                        before.lemma_restored_base(m.mutator_states[i]);
                    }
                }
            }
            assert(pool_fits_window(first.mutators, start, end));
        }
        let collected = self.mutator_pool.create_events(start, end);
        self.events = sort(&collected);
        let ghost events = self.events@;
        let n = self.events.len();

        let mut points: Vec<IntervalPoint> = Vec::new();
        let mut event_mementos: Vec<EventMemento> = Vec::new();
        let mut done: u64 = 0;
        let mut pos: usize = 0;
        while done < interval_count
            invariant
                done <= interval_count,
                start + interval_len * interval_count <= u64::MAX,
                events == self.events@,
                n == events.len(),
                sorted_by(events, rank::<Event>()),
                accounts == self.account_pool@,
                pos == due_by(events, interval_len, interval_count, done as int),
                pos <= n,
                0 < done < interval_count ==> forall|i: int|
                    0 <= i < pos ==> (#[trigger] events[i]).time_pos <= interval_len * done,
                self.ledger() == replayed(first, events.take(pos as int)),
                event_mementos@.len() == mementos(first, accounts, events.take(pos as int)).len(),
                forall|i: int|
                    0 <= i < event_mementos@.len() ==> (#[trigger] event_mementos@[i])@ == mementos(
                        first,
                        accounts,
                        events.take(pos as int),
                    )[i],
                points@.len() == done,
                forall|k: int|
                    0 <= k < done ==> (#[trigger] points@[k])@ == point_of(
                        replayed(
                            first,
                            events.take(due_by(events, interval_len, interval_count, k + 1) as int),
                        ),
                        accounts,
                    ),
            decreases interval_count - done,
        {
            let ghost before = done;
            done += 1;
            assert(interval_len * before <= interval_len * done <= interval_len * interval_count)
                by (nonlinear_arith)
                requires
                    before <= done <= interval_count,
                    interval_len >= 0,
            ;
            let boundary = interval_len * done;
            let last = done == interval_count;
            while pos < n && (last || self.events[pos].time_pos <= boundary)
                invariant
                    events == self.events@,
                    n == events.len(),
                    accounts == self.account_pool@,
                    pos <= n,
                    !last ==> forall|i: int|
                        0 <= i < pos ==> (#[trigger] events[i]).time_pos <= boundary,
                    self.ledger() == replayed(first, events.take(pos as int)),
                    event_mementos@.len() == mementos(
                        first,
                        accounts,
                        events.take(pos as int),
                    ).len(),
                    forall|i: int|
                        0 <= i < event_mementos@.len() ==> (#[trigger] event_mementos@[i])@
                            == mementos(first, accounts, events.take(pos as int))[i],
                decreases n - pos,
            {
                let event = self.events[pos];
                proof {
                    assert(events.take(pos + 1).drop_last() =~= events.take(pos as int));
                    assert(events.take(pos + 1).last() == event);
                }
                if event.trigger(&mut self.asset_pool, &self.mutator_pool) {
                    self.mutator_pool.record_event(event.mutator_idx);
                    let memento = self.memento(event.time_pos);
                    event_mementos.push(memento);
                }
                pos += 1;
            }
            proof {
                if !last {
                    lemma_due_events_come_first(events, boundary as int, pos as int);
                }
            }
            let point = self.interval_point();
            points.push(point);
        }
        let r = ResultPacket { interval_points: points, event_mementos };
        proof {
            assert(events.take(events.len() as int) =~= events);
            assert(r@.event_mementos =~= mementos(first, accounts, events.take(pos as int)));
        }
        r
    }
}

} // verus!
