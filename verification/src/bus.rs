//! The event bus: fan-out of events to every subscriber, at most once.
//!
//! The bus retains the newest events, up to its capacity. Each subscriber
//! reads the retained events in the order in which they were emitted, at its
//! own pace. Emitting never waits for a subscriber: when the bus is full,
//! the oldest retained event is dropped, and a subscriber that had not read
//! it yet has lagged. A subscriber that has lagged is told so with its next
//! read, which reports how many events it will never see, and then goes on
//! with the newest retained event.

use crate::order::{embeds, is_subsequence};
use crate::platform::share;
use std::sync::Arc;
use vstd::prelude::*;

verus! {

/// The number of events that a bus retains where no capacity is given.
pub const DEFAULT_CAPACITY: usize = 1024;

/// What a subscriber gets when it reads from the bus.
pub enum Received<E> {
    /// The next event.
    Event(Arc<E>),
    /// The subscriber fell behind: this many events were skipped.
    Lagged(u64),
    /// Nothing has been emitted that the subscriber has not seen.
    Empty,
    /// The subscription does not exist or was closed.
    Closed,
}

/// The mathematical value of a [`Received`].
pub enum Delivery<E> {
    Event(E),
    Lagged(nat),
    Empty,
    Closed,
}

impl<E> View for Received<E> {
    type V = Delivery<E>;

    open spec fn view(&self) -> Delivery<E> {
        match *self {
            Received::Event(e) => Delivery::Event(*e),
            Received::Lagged(n) => Delivery::Lagged(n as nat),
            Received::Empty => Delivery::Empty,
            Received::Closed => Delivery::Closed,
        }
    }
}

/// Where a subscriber stands.
struct Cursor {
    /// How many of the newest retained events the subscriber has yet to read.
    pending: usize,
    /// How many events were dropped before the subscriber read them, since
    /// it was last told.
    missed: u64,
    /// Whether the subscription is open.
    live: bool,
}

/// The mathematical value of a subscriber's position.
pub struct CursorView {
    pub pending: nat,
    pub missed: nat,
    pub live: bool,
}

impl View for Cursor {
    type V = CursorView;

    closed spec fn view(&self) -> CursorView {
        CursorView { pending: self.pending as nat, missed: self.missed as nat, live: self.live }
    }
}

/// The mathematical value of an event bus: its capacity, the retained
/// events from oldest to newest, and the subscribers in the order in which
/// they subscribed. A subscriber is known by its position in that order.
pub struct BusView<E> {
    pub capacity: nat,
    pub retained: Seq<E>,
    pub cursors: Seq<CursorView>,
}

/// An operation of the bus, with its arguments.
pub enum BusOp<E> {
    Emit(E),
    Subscribe,
    Unsubscribe(int),
    Recv(int),
}

/// The largest count of skipped events that can be reported.
pub open spec fn max_lag() -> nat {
    u64::MAX as nat
}

/// A count of skipped events, as far as it can be reported.
pub open spec fn capped(n: nat) -> nat {
    if n <= max_lag() {
        n
    } else {
        max_lag()
    }
}

impl CursorView {
    /// The position after one more event was emitted onto a bus that then
    /// retains `kept` events: the subscriber has one more event to read,
    /// unless that is more than the bus retains. In that case the oldest of
    /// them is lost to it.
    pub open spec fn after_emit(self, kept: nat) -> CursorView {
        if !self.live {
            self
        } else if self.pending + 1 <= kept {
            CursorView { pending: self.pending + 1, ..self }
        } else {
            CursorView { pending: kept, missed: capped(self.missed + 1), ..self }
        }
    }

    /// How many events a lagged subscriber is told it has skipped: those
    /// that were dropped, and those that are retained but older than the
    /// newest.
    pub open spec fn lag(self) -> nat {
        if self.pending > 0 {
            capped((self.missed + self.pending - 1) as nat)
        } else {
            capped(self.missed)
        }
    }

    /// The position after the subscriber was told that it has lagged: it
    /// goes on with the newest retained event.
    pub open spec fn after_lag(self) -> CursorView {
        CursorView { pending: if self.pending > 0 {
            1
        } else {
            0
        }, missed: 0, ..self }
    }
}

impl<E> BusView<E> {
    /// The invariant of buses: no more events are retained than the
    /// capacity allows, and no subscriber has more to read than is retained.
    pub open spec fn wf(self) -> bool {
        &&& self.retained.len() <= self.capacity
        &&& forall|i: int|
            0 <= i < self.cursors.len() ==> (#[trigger] self.cursors[i]).pending
                <= self.retained.len()
    }

    /// A bus on which nothing was emitted and to which nobody subscribed.
    pub open spec fn empty(capacity: nat) -> BusView<E> {
        BusView { capacity, retained: Seq::empty(), cursors: Seq::empty() }
    }

    /// Whether `id` names an open subscription.
    pub open spec fn is_open(self, id: int) -> bool {
        0 <= id < self.cursors.len() && self.cursors[id].live
    }

    /// The retained events after `event` was emitted: the event is added as
    /// the newest, and the oldest is dropped if the bus was full.
    pub open spec fn retained_after(self, event: E) -> Seq<E> {
        if self.retained.len() + 1 <= self.capacity {
            self.retained.push(event)
        } else {
            self.retained.push(event).skip(self.retained.len() + 1 - self.capacity)
        }
    }

    /// The bus after `event` was emitted.
    pub open spec fn emitted(self, event: E) -> BusView<E> {
        let retained = self.retained_after(event);
        BusView {
            retained,
            cursors: self.cursors.map_values(|c: CursorView| c.after_emit(retained.len())),
            ..self
        }
    }

    /// The bus after one more subscriber joined. The new subscriber has
    /// nothing to read: it sees only what is emitted from now on.
    pub open spec fn subscribed(self) -> BusView<E> {
        BusView {
            cursors: self.cursors.push(CursorView { pending: 0, missed: 0, live: true }),
            ..self
        }
    }

    /// The bus after subscription `id` was closed.
    pub open spec fn unsubscribed(self, id: int) -> BusView<E> {
        if self.is_open(id) {
            BusView {
                cursors: self.cursors.update(
                    id,
                    CursorView { pending: 0, missed: 0, live: false },
                ),
                ..self
            }
        } else {
            self
        }
    }

    /// What subscriber `id` gets when it reads, and the bus after the read.
    ///
    /// A subscriber that has lagged is told so first. Otherwise it gets the
    /// oldest event that it has not read yet, if there is one.
    pub open spec fn received(self, id: int) -> (BusView<E>, Delivery<E>) {
        if !self.is_open(id) {
            (self, Delivery::Closed)
        } else {
            let c = self.cursors[id];
            if c.missed > 0 {
                (
                    BusView { cursors: self.cursors.update(id, c.after_lag()), ..self },
                    Delivery::Lagged(c.lag()),
                )
            } else if c.pending > 0 {
                (
                    BusView {
                        cursors: self.cursors.update(
                            id,
                            CursorView { pending: (c.pending - 1) as nat, ..c },
                        ),
                        ..self
                    },
                    Delivery::Event(self.retained[self.retained.len() - c.pending]),
                )
            } else {
                (self, Delivery::Empty)
            }
        }
    }
}

impl<E> BusView<E> {
    /// The bus after the given operation.
    pub open spec fn apply(self, op: BusOp<E>) -> BusView<E> {
        match op {
            BusOp::Emit(event) => self.emitted(event),
            BusOp::Subscribe => self.subscribed(),
            BusOp::Unsubscribe(id) => self.unsubscribed(id),
            BusOp::Recv(id) => self.received(id).0,
        }
    }

    /// The bus after the given operations, one after the other.
    pub open spec fn run(self, ops: Seq<BusOp<E>>) -> BusView<E>
        decreases ops.len(),
    {
        if ops.len() == 0 {
            self
        } else {
            self.run(ops.drop_last()).apply(ops.last())
        }
    }

    /// The events that the reads among `ops` delivered to subscriber `id`,
    /// in the order of the reads, on a bus that started as `self`.
    pub open spec fn delivered_to(self, ops: Seq<BusOp<E>>, id: int) -> Seq<E>
        decreases ops.len(),
    {
        if ops.len() == 0 {
            Seq::empty()
        } else {
            let earlier = self.delivered_to(ops.drop_last(), id);
            match ops.last() {
                BusOp::Recv(reader) => if reader == id {
                    match self.run(ops.drop_last()).received(id).1 {
                        Delivery::Event(event) => earlier.push(event),
                        _ => earlier,
                    }
                } else {
                    earlier
                },
                _ => earlier,
            }
        }
    }
}

/// The number of events that had been emitted when subscriber `id` joined,
/// or that were emitted at all if it never did, on a bus that had `joined`
/// subscribers before `ops`.
pub open spec fn emitted_before<E>(joined: nat, ops: Seq<BusOp<E>>, id: int) -> nat
    decreases ops.len(),
{
    if ops.len() == 0 {
        0
    } else {
        let earlier = ops.drop_last();
        if subscribers_after(joined, earlier) > id {
            emitted_before(joined, earlier, id)
        } else {
            emitted_by(ops).len()
        }
    }
}

/// The number of subscribers that ever joined, after `ops` on a bus that had
/// `joined` of them before.
pub open spec fn subscribers_after<E>(joined: nat, ops: Seq<BusOp<E>>) -> nat
    decreases ops.len(),
{
    if ops.len() == 0 {
        joined
    } else {
        match ops.last() {
            BusOp::Subscribe => subscribers_after(joined, ops.drop_last()) + 1,
            _ => subscribers_after(joined, ops.drop_last()),
        }
    }
}

/// The events that were emitted among `ops`, in the order of emission.
pub open spec fn emitted_by<E>(ops: Seq<BusOp<E>>) -> Seq<E>
    decreases ops.len(),
{
    if ops.len() == 0 {
        Seq::empty()
    } else {
        match ops.last() {
            BusOp::Emit(event) => emitted_by(ops.drop_last()).push(event),
            _ => emitted_by(ops.drop_last()),
        }
    }
}

/// An event bus for events of type `E`.
pub struct EventBus<E> {
    capacity: usize,
    retained: Vec<Arc<E>>,
    cursors: Vec<Cursor>,
}

/// The events behind a sequence of handles.
pub open spec fn events_of<E>(handles: Seq<Arc<E>>) -> Seq<E> {
    handles.map_values(|h: Arc<E>| *h)
}

/// The views of a sequence of positions.
spec fn cursor_views(cursors: Seq<Cursor>) -> Seq<CursorView> {
    cursors.map_values(|c: Cursor| c@)
}

impl<E> View for EventBus<E> {
    type V = BusView<E>;

    closed spec fn view(&self) -> BusView<E> {
        BusView {
            capacity: self.capacity as nat,
            retained: events_of(self.retained@),
            cursors: cursor_views(self.cursors@),
        }
    }
}

impl<E> EventBus<E> {
    /// A bus that retains up to [`DEFAULT_CAPACITY`] events.
    pub fn new() -> (bus: EventBus<E>)
        ensures
            bus@ == BusView::<E>::empty(DEFAULT_CAPACITY as nat),
            bus@.wf(),
    {
        EventBus::with_capacity(DEFAULT_CAPACITY)
    }

    /// A bus that retains up to `capacity` events.
    pub fn with_capacity(capacity: usize) -> (bus: EventBus<E>)
        ensures
            bus@ == BusView::<E>::empty(capacity as nat),
            bus@.wf(),
    {
        let bus = EventBus { capacity, retained: Vec::new(), cursors: Vec::new() };
        proof {
            assert(bus@.retained =~= Seq::empty());
            assert(bus@.cursors =~= Seq::empty());
        }
        bus
    }

    /// The number of events that the bus retains at most.
    pub fn capacity(&self) -> (capacity: usize)
        ensures
            capacity == self@.capacity,
    {
        self.capacity
    }

    /// The number of subscriptions that were ever made.
    pub fn subscriptions(&self) -> (n: usize)
        ensures
            n == self@.cursors.len(),
    {
        self.cursors.len()
    }

    /// Adds a subscriber and returns the identifier of its subscription.
    pub fn subscribe(&mut self) -> (id: usize)
        requires
            old(self)@.wf(),
        ensures
            final(self)@ == old(self)@.subscribed(),
            id == old(self)@.cursors.len(),
            final(self)@.wf(),
    {
        let id = self.cursors.len();
        let ghost before = self.cursors@;
        self.cursors.push(Cursor { pending: 0, missed: 0, live: true });
        proof {
            assert(cursor_views(self.cursors@) =~= cursor_views(before).push(
                CursorView { pending: 0, missed: 0, live: true },
            ));
        }
        id
    }

    /// Closes subscription `id`. Closing a subscription that is not open
    /// does nothing.
    pub fn unsubscribe(&mut self, id: usize)
        requires
            old(self)@.wf(),
        ensures
            final(self)@ == old(self)@.unsubscribed(id as int),
            final(self)@.wf(),
    {
        if id < self.cursors.len() && self.cursors[id].live {
            let ghost before = self.cursors@;
            self.cursors.set(id, Cursor { pending: 0, missed: 0, live: false });
            proof {
                assert(cursor_views(self.cursors@) =~= cursor_views(before).update(
                    id as int,
                    CursorView { pending: 0, missed: 0, live: false },
                ));
            }
        }
    }

    /// Emits `event` to every open subscription. Never fails and never
    /// waits.
    pub fn emit(&mut self, event: E)
        requires
            old(self)@.wf(),
        ensures
            final(self)@ == old(self)@.emitted(event),
            final(self)@.wf(),
    {
        let ghost before = self@;
        let ghost handles = self.retained@;
        self.retained.push(Arc::new(event));
        if self.retained.len() > self.capacity {
            self.retained.remove(0);
        }
        let kept = self.retained.len();
        proof {
            assert(events_of(self.retained@) =~= before.retained_after(event));
        }
        let mut i: usize = 0;
        while i < self.cursors.len()
            invariant
                i <= self.cursors.len(),
                before == old(self)@,
                before.wf(),
                kept == self.retained.len(),
                kept <= self.capacity,
                self@.capacity == before.capacity,
                self@.retained == before.retained_after(event),
                self@.cursors.len() == before.cursors.len(),
                forall|k: int|
                    0 <= k < i ==> #[trigger] self@.cursors[k] == before.cursors[k].after_emit(
                        kept as nat,
                    ),
                forall|k: int| i <= k < self@.cursors.len() ==> #[trigger] self@.cursors[k] == before.cursors[k],
            decreases self.cursors.len() - i,
        {
            let ghost mid = self.cursors@;
            assert(self@.cursors[i as int] == before.cursors[i as int]);
            let c = &self.cursors[i];
            if c.live {
                let next = if c.pending < kept {
                    Cursor { pending: c.pending + 1, missed: c.missed, live: true }
                } else {
                    Cursor {
                        pending: kept,
                        missed: if c.missed < u64::MAX {
                            c.missed + 1
                        } else {
                            c.missed
                        },
                        live: true,
                    }
                };
                self.cursors.set(i, next);
            }
            proof {
                assert(forall|k: int|
                    0 <= k < self@.cursors.len() && k != i ==> #[trigger] self@.cursors[k]
                        == cursor_views(mid)[k]);
            }
            i = i + 1;
        }
        proof {
            assert(self@.cursors =~= before.emitted(event).cursors);
        }
    }

    /// Reads the next event for subscription `id`.
    pub fn recv(&mut self, id: usize) -> (res: Received<E>)
        requires
            old(self)@.wf(),
        ensures
            (final(self)@, res@) == old(self)@.received(id as int),
            final(self)@.wf(),
    {
        if id >= self.cursors.len() || !self.cursors[id].live {
            return Received::Closed;
        }
        let ghost before = self.cursors@;
        let pending = self.cursors[id].pending;
        let missed = self.cursors[id].missed;
        if missed > 0 {
            let skipped: u64 = if pending > 0 {
                let older = (pending - 1) as u64;
                if missed <= u64::MAX - older {
                    missed + older
                } else {
                    u64::MAX
                }
            } else {
                missed
            };
            let rest: usize = if pending > 0 {
                1
            } else {
                0
            };
            self.cursors.set(id, Cursor { pending: rest, missed: 0, live: true });
            proof {
                assert(cursor_views(self.cursors@) =~= cursor_views(before).update(
                    id as int,
                    cursor_views(before)[id as int].after_lag(),
                ));
            }
            Received::Lagged(skipped)
        } else if pending > 0 {
            let event = share(&self.retained[self.retained.len() - pending]);
            self.cursors.set(id, Cursor { pending: pending - 1, missed: 0, live: true });
            proof {
                assert(cursor_views(self.cursors@) =~= cursor_views(before).update(
                    id as int,
                    CursorView { pending: (pending - 1) as nat, missed: 0, live: true },
                ));
            }
            Received::Event(event)
        } else {
            Received::Empty
        }
    }
}

/// Every operation keeps the invariant of buses.
pub proof fn lemma_bus_apply_wf<E>(bus: BusView<E>, op: BusOp<E>)
    requires
        bus.wf(),
    ensures
        bus.apply(op).wf(),
        bus.apply(op).capacity == bus.capacity,
        bus.apply(op).cursors.len() >= bus.cursors.len(),
{
}

/// What the reads of one subscriber have delivered lies, in order, among
/// the events that were emitted after it joined and before the ones it has
/// yet to read.
proof fn lemma_deliveries<E>(capacity: nat, ops: Seq<BusOp<E>>, id: int) -> (at: Seq<int>)
    requires
        0 <= id,
    ensures
        ({
            let start = BusView::<E>::empty(capacity);
            let bus = start.run(ops);
            let out = emitted_by(ops);
            let got = start.delivered_to(ops, id);
            let since = emitted_before(0, ops, id);
            &&& bus.wf()
            &&& bus.capacity == capacity
            &&& bus.cursors.len() == subscribers_after(0, ops)
            &&& bus.retained.len() <= out.len()
            &&& bus.retained == out.skip(out.len() - bus.retained.len())
            &&& embeds(got, out, at)
            &&& since <= out.len()
            &&& forall|i: int| 0 <= i < at.len() ==> since <= #[trigger] at[i]
            &&& (!(id < bus.cursors.len()) ==> got.len() == 0 && since == out.len())
            &&& (id < bus.cursors.len() ==> since <= out.len() - bus.cursors[id].pending)
            &&& (bus.is_open(id) ==> forall|i: int|
                0 <= i < at.len() ==> #[trigger] at[i] < out.len() - bus.cursors[id].pending)
        }),
    decreases ops.len(),
{
    let start = BusView::<E>::empty(capacity);
    if ops.len() == 0 {
        assert(start.retained =~= emitted_by(ops).skip(0));
        Seq::empty()
    } else {
        let earlier = ops.drop_last();
        let at = lemma_deliveries(capacity, earlier, id);
        let before = start.run(earlier);
        let bus = start.run(ops);
        let out = emitted_by(ops);
        lemma_bus_apply_wf(before, ops.last());
        match ops.last() {
            BusOp::Emit(event) => {
                assert(out == emitted_by(earlier).push(event));
                assert(bus.retained =~= out.skip(out.len() - bus.retained.len()));
                at
            },
            BusOp::Subscribe => at,
            BusOp::Unsubscribe(closed) => at,
            BusOp::Recv(reader) => {
                if reader == id && before.is_open(id) && before.cursors[id].missed == 0
                    && before.cursors[id].pending > 0 {
                    let p = out.len() - before.cursors[id].pending;
                    assert(before.retained[before.retained.len() - before.cursors[id].pending]
                        == out[p]);
                    at.push(p)
                } else {
                    at
                }
            },
        }
    }
}

/// Per-subscriber FIFO: whatever is done on a bus, the events that a
/// subscriber has been delivered are a subsequence of the events that were
/// emitted. A subscriber sees no event twice, none out of order, and none
/// that was not emitted.
pub proof fn lemma_fifo<E>(capacity: nat, ops: Seq<BusOp<E>>, id: int)
    ensures
        is_subsequence(BusView::<E>::empty(capacity).delivered_to(ops, id), emitted_by(ops)),
{
    if id >= 0 {
        let at = lemma_deliveries(capacity, ops, id);
        assert(embeds(BusView::<E>::empty(capacity).delivered_to(ops, id), emitted_by(ops), at));
    } else {
        lemma_no_such_subscriber(BusView::<E>::empty(capacity), ops, id);
        assert(embeds(
            BusView::<E>::empty(capacity).delivered_to(ops, id),
            emitted_by(ops),
            Seq::<int>::empty(),
        ));
    }
}

/// Nothing is delivered under an identifier that no subscriber can have.
proof fn lemma_no_such_subscriber<E>(bus: BusView<E>, ops: Seq<BusOp<E>>, id: int)
    requires
        id < 0,
    ensures
        bus.delivered_to(ops, id).len() == 0,
    decreases ops.len(),
{
    if ops.len() > 0 {
        lemma_no_such_subscriber(bus, ops.drop_last(), id);
    }
}

/// A new subscriber sees only what is emitted after it joined: the events
/// that a subscriber has been delivered are a subsequence of the events that
/// were emitted since its subscription was made.
pub proof fn lemma_sees_only_later_events<E>(capacity: nat, ops: Seq<BusOp<E>>, id: int)
    requires
        0 <= id,
    ensures
        emitted_before(0, ops, id) <= emitted_by(ops).len(),
        is_subsequence(
            BusView::<E>::empty(capacity).delivered_to(ops, id),
            emitted_by(ops).skip(emitted_before(0, ops, id) as int),
        ),
{
    let at = lemma_deliveries(capacity, ops, id);
    let since = emitted_before(0, ops, id) as int;
    let got = BusView::<E>::empty(capacity).delivered_to(ops, id);
    let shifted = Seq::new(at.len(), |i: int| at[i] - since);
    assert(embeds(got, emitted_by(ops).skip(since), shifted));
}

} // verus!
