//! Payment orders: in-flight payment negotiations, and the idle-timeout
//! state machine that turns an external confirmation stream into exactly
//! one terminal outcome per order.
//!
//! The manager's table holds every live order under an id unique among live
//! orders; insertion is collision-checked. The consumer of an order's
//! message stream applies `order_step` to each observed event: a keep-alive
//! within the idle timeout rearms the wait, a completion concludes success,
//! and a cancellation, a closed stream or an idle timeout concludes
//! failure. A concluded order never changes again.

use vstd::prelude::*;

use crate::random::random_u16;
use crate::types::{clone_payments, Payment};

verus! {

/// Identifier of a live payment order.
pub type OrderID = u16;

/// Seconds of silence after which a pending order fails.
pub const IDLE_PAYMENT_TIMEOUT_SECS: u64 = 600;

/// Capacity of one order's confirmation channel, sized for bursts of
/// keep-alive heartbeats.
pub const ORDER_CHANNEL_SIZE: usize = 128;

/// External signal driving one order's resolution.
#[derive(Clone, Copy, PartialEq, Eq, Structural, Debug)]
pub enum OrderMessage {
    Cancelled,
    Completed,
    KeepAlive,
}

/// A priced write awaiting user-facing payment.
#[derive(Clone)]
pub struct PaymentOrder {
    pub id: OrderID,
    pub payments: Vec<Payment>,
}

impl PaymentOrder {
    pub fn new(id: OrderID, payments: Vec<Payment>) -> (r: PaymentOrder)
        ensures
            r.id == id,
            r.payments@ == payments@,
    {
        PaymentOrder { id, payments }
    }

    /// Draws a candidate order id. The manager collision-checks it on
    /// insertion; nothing is promised of the value itself.
    pub fn generate_id() -> OrderID {
        random_u16()
    }
}

/// One table slot: a live order and the messages forwarded to it that its
/// consumer has not yet taken.
pub struct LiveOrder {
    pub order: PaymentOrder,
    pub queue: Vec<OrderMessage>,
}

/// The live-order ids are pairwise distinct.
pub open spec fn wf_orders(s: Seq<LiveOrder>) -> bool {
    forall|i: int, j: int| 0 <= i < j < s.len() ==> s[i].order.id != s[j].order.id
}

/// The table `after` is the table `before` with `message` appended to the
/// queue of the order holding `id`, all else unchanged.
pub open spec fn queue_extended(
    before: Seq<LiveOrder>,
    after: Seq<LiveOrder>,
    id: OrderID,
    message: OrderMessage,
) -> bool {
    exists|i: int|
        #![auto]
        0 <= i < before.len() && before[i].order.id == id && after.len() == before.len()
            && after[i].order == before[i].order && after[i].queue@ == before[i].queue@.push(
            message,
        ) && (forall|k: int| #![auto] 0 <= k < before.len() && k != i ==> after[k] == before[k])
}

/// The table `after` is the table `before` with the oldest queued message
/// of the order holding `id` taken: `r` carries that message, or `None`
/// and an unchanged table when its queue was empty.
pub open spec fn queue_front_taken(
    before: Seq<LiveOrder>,
    after: Seq<LiveOrder>,
    id: OrderID,
    r: Option<OrderMessage>,
) -> bool {
    exists|i: int|
        #![auto]
        0 <= i < before.len() && before[i].order.id == id && (match r {
            Some(m) => before[i].queue@.len() > 0 && m == before[i].queue@[0] && after.len()
                == before.len() && after[i].order == before[i].order && after[i].queue@
                == before[i].queue@.subrange(1, before[i].queue@.len() as int) && (forall|k: int|
                #![auto]
                0 <= k < before.len() && k != i ==> after[k] == before[k]),
            None => before[i].queue@.len() == 0 && after == before,
        })
}

/// Tracks in-flight payment negotiations keyed by order id.
pub struct PaymentOrderManager {
    pub orders: Vec<LiveOrder>,
}

impl PaymentOrderManager {
    pub open spec fn wf(&self) -> bool {
        wf_orders(self.orders@)
    }

    /// Whether an order with the given id is live.
    pub open spec fn spec_contains(&self, id: OrderID) -> bool {
        exists|i: int| 0 <= i < self.orders@.len() && self.orders@[i].order.id == id
    }

    pub fn new() -> (r: PaymentOrderManager)
        ensures
            r.wf(),
            r.orders@.len() == 0,
    {
        PaymentOrderManager { orders: Vec::new() }
    }

    /// Whether an order with the given id is live.
    pub fn contains_order(&self, id: OrderID) -> (r: bool)
        ensures
            r == self.spec_contains(id),
    {
        let n = self.orders.len();
        let mut i: usize = 0;
        while i < n
            invariant
                n == self.orders@.len(),
                0 <= i <= n,
                forall|k: int| 0 <= k < i ==> self.orders@[k].order.id != id,
            decreases n - i,
        {
            if self.orders[i].order.id == id {
                return true;
            }
            i += 1;
        }
        false
    }

    /// Finds an id that no live order holds: a random candidate first, and
    /// on collision the smallest free id. Some id is always free while the
    /// table holds fewer orders than the id space has values.
    fn find_free_id(&self) -> (id: OrderID)
        requires
            self.wf(),
            self.orders@.len() < 65536,
        ensures
            !self.spec_contains(id),
    {
        let candidate = random_u16();
        if !self.contains_order(candidate) {
            return candidate;
        }
        let n = self.orders.len();
        let mut c: usize = 0;
        while c <= n
            invariant
                self.wf(),
                n == self.orders@.len(),
                n < 65536,
                0 <= c <= n + 1,
                forall|k: int| 0 <= k < c ==> ids_of(self.orders@).contains(k),
            decreases n + 1 - c,
        {
            if !self.contains_order(c as OrderID) {
                proof {
                    if ids_of(self.orders@).contains(c as int) {
                        let i = choose|i: int|
                            0 <= i < self.orders@.len() && self.orders@[i].order.id == c as int;
                        assert(self.orders@[i].order.id == c as OrderID);
                        assert(self.spec_contains(c as OrderID));
                    }
                }
                return c as OrderID;
            }
            proof {
                let i = choose|i: int|
                    0 <= i < self.orders@.len() && self.orders@[i].order.id == c as OrderID;
                assert(self.orders@[i].order.id == c as int);
                assert(ids_of(self.orders@).contains(c as int));
            }
            c += 1;
        }
        proof {
            lemma_free_id_exists(self.orders@);
            let k = choose|k: int|
                0 <= k <= self.orders@.len() && !ids_of(self.orders@).contains(k);
            assert(false);
        }
        0
    }

    /// Opens a fresh order for the given payments: generates an id unique
    /// against the live-order table, registers the order with an empty
    /// message queue, and returns a copy of it for the caller to display.
    pub fn create_order(&mut self, payments: Vec<Payment>) -> (r: PaymentOrder)
        requires
            old(self).wf(),
            old(self).orders@.len() < 65536,
        ensures
            final(self).wf(),
            !old(self).spec_contains(r.id),
            final(self).spec_contains(r.id),
            r.payments@ == payments@,
            final(self).orders@.len() == old(self).orders@.len() + 1,
            final(self).orders@.take(old(self).orders@.len() as int) == old(self).orders@,
            final(self).orders@.last().order.id == r.id,
            final(self).orders@.last().order.payments@ == payments@,
            final(self).orders@.last().queue@ == Seq::<OrderMessage>::empty(),
    {
        let id = self.find_free_id();
        let returned = PaymentOrder { id, payments: clone_payments(&payments) };
        let live = LiveOrder {
            order: PaymentOrder { id, payments },
            queue: Vec::new(),
        };
        let ghost old_orders = self.orders@;
        self.orders.push(live);
        proof {
            assert(self.orders@.take(old_orders.len() as int) =~= old_orders);
            assert(self.orders@[self.orders@.len() - 1].order.id == id);
            assert forall|i: int, j: int|
                0 <= i < j < self.orders@.len() implies self.orders@[i].order.id
                != self.orders@[j].order.id by {
                if j < self.orders@.len() - 1 {
                    assert(old_orders[i].order.id != old_orders[j].order.id);
                } else {
                    assert(self.orders@[i].order.id == old_orders[i].order.id);
                }
            }
        }
        returned
    }

    /// Forwards a message to a live order's queue. The id was generated
    /// internally, so its absence is a programming error, excluded by
    /// precondition.
    pub fn send_order_message(&mut self, id: OrderID, message: OrderMessage)
        requires
            old(self).wf(),
            old(self).spec_contains(id),
        ensures
            final(self).wf(),
            queue_extended(old(self).orders@, final(self).orders@, id, message),
    {
        let n = self.orders.len();
        let mut i: usize = 0;
        while i < n
            invariant
                self == old(self),
                self.wf(),
                self.spec_contains(id),
                n == self.orders@.len(),
                0 <= i <= n,
                forall|k: int| 0 <= k < i ==> self.orders@[k].order.id != id,
            decreases n - i,
        {
            if self.orders[i].order.id == id {
                let ghost old_orders = self.orders@;
                let slot = &mut self.orders[i];
                slot.queue.push(message);
                proof {
                    assert(self.orders@[i as int].queue@ == old_orders[i as int].queue@.push(
                        message,
                    ));
                    assert(wf_orders(self.orders@));
                    assert(queue_extended(old_orders, self.orders@, id, message));
                }
                return ;
            }
            i += 1;
        }
        proof {
            let j = choose|j: int| 0 <= j < self.orders@.len() && self.orders@[j].order.id == id;
            assert(false);
        }
    }

    /// Forwards a completion signal: the external confirmation that the
    /// order was paid.
    pub fn confirm_payment(&mut self, id: OrderID)
        requires
            old(self).wf(),
            old(self).spec_contains(id),
        ensures
            final(self).wf(),
            queue_extended(old(self).orders@, final(self).orders@, id, OrderMessage::Completed),
    {
        self.send_order_message(id, OrderMessage::Completed);
    }

    /// Takes the oldest undelivered message of a live order, if any.
    pub fn next_message(&mut self, id: OrderID) -> (r: Option<OrderMessage>)
        requires
            old(self).wf(),
            old(self).spec_contains(id),
        ensures
            final(self).wf(),
            queue_front_taken(old(self).orders@, final(self).orders@, id, r),
    {
        let n = self.orders.len();
        let mut i: usize = 0;
        while i < n
            invariant
                self == old(self),
                self.wf(),
                self.spec_contains(id),
                n == self.orders@.len(),
                0 <= i <= n,
                forall|k: int| 0 <= k < i ==> self.orders@[k].order.id != id,
            decreases n - i,
        {
            if self.orders[i].order.id == id {
                if self.orders[i].queue.len() == 0 {
                    return None;
                }
                let ghost old_orders = self.orders@;
                let slot = &mut self.orders[i];
                let m = slot.queue.remove(0);
                proof {
                    assert(self.orders@[i as int].queue@ =~= old_orders[i as int].queue@.subrange(
                        1,
                        old_orders[i as int].queue@.len() as int,
                    ));
                    assert(wf_orders(self.orders@));
                    assert(queue_front_taken(old_orders, self.orders@, id, Some(m)));
                }
                return Some(m);
            }
            i += 1;
        }
        proof {
            let j = choose|j: int| 0 <= j < self.orders@.len() && self.orders@[j].order.id == id;
            assert(false);
        }
        None
    }

    /// Removes a concluded or abandoned order from the table; ids of other
    /// orders stay live.
    pub fn remove_order(&mut self, id: OrderID)
        requires
            old(self).wf(),
        ensures
            final(self).wf(),
            !final(self).spec_contains(id),
            forall|other: OrderID|
                other != id ==> (final(self).spec_contains(other) == old(self).spec_contains(
                    other,
                )),
    {
        let n = self.orders.len();
        let mut i: usize = 0;
        while i < n
            invariant
                self == old(self),
                self.wf(),
                n == self.orders@.len(),
                0 <= i <= n,
                forall|k: int| 0 <= k < i ==> self.orders@[k].order.id != id,
            decreases n - i,
        {
            if self.orders[i].order.id == id {
                let ghost before = self.orders@;
                self.orders.remove(i);
                proof {
                    let after = self.orders@;
                    assert forall|k: int| 0 <= k < after.len() implies after[k]
                        == (if k < i as int {
                        before[k]
                    } else {
                        before[k + 1]
                    }) by {}
                    assert(wf_orders(after));
                    assert forall|k: int| 0 <= k < after.len() implies after[k].order.id
                        != id by {
                        if k >= i as int {
                            assert(before[k + 1].order.id != before[i as int].order.id);
                        }
                    }
                    assert(!self.spec_contains(id));
                    assert forall|other: OrderID|
                        other != id && old(self).spec_contains(other) implies self.spec_contains(
                        other,
                    ) by {
                        let j = choose|j: int|
                            0 <= j < before.len() && before[j].order.id == other;
                        if j < i as int {
                            assert(after[j].order.id == other);
                        } else {
                            assert(after[j - 1].order.id == other);
                        }
                    }
                }
                return ;
            }
            i += 1;
        }
    }
}

/// The set of ids a live-order table holds, as mathematical integers.
spec fn ids_of(s: Seq<LiveOrder>) -> Set<int> {
    Set::new(|x: int| exists|i: int| 0 <= i < s.len() && s[i].order.id == x)
}

proof fn lemma_ids_card(s: Seq<LiveOrder>)
    ensures
        ids_of(s).finite(),
        ids_of(s).len() <= s.len(),
    decreases s.len(),
{
    if s.len() == 0 {
        assert(ids_of(s) =~= Set::<int>::empty());
    } else {
        lemma_ids_card(s.drop_last());
        let prev = ids_of(s.drop_last());
        assert forall|x: int| ids_of(s).contains(x) implies prev.insert(
            s.last().order.id as int,
        ).contains(x) by {
            let i = choose|i: int| 0 <= i < s.len() && s[i].order.id == x;
            if i < s.len() - 1 {
                assert(s.drop_last()[i].order.id == x);
            }
        }
        assert forall|x: int| prev.insert(s.last().order.id as int).contains(x) implies ids_of(
            s,
        ).contains(x) by {
            if prev.contains(x) {
                let i = choose|i: int| 0 <= i < s.drop_last().len() && s.drop_last()[i].order.id
                    == x;
                assert(s[i].order.id == x);
            } else {
                assert(s[s.len() - 1].order.id == x);
            }
        }
        assert(ids_of(s) =~= prev.insert(s.last().order.id as int));
        vstd::set_lib::lemma_len_union(prev, Set::<int>::empty().insert(s.last().order.id as int));
        assert(prev.insert(s.last().order.id as int).len() <= prev.len() + 1);
    }
}

/// While a table holds fewer orders than candidate ids, some candidate in
/// `0 ..= len` is free.
proof fn lemma_free_id_exists(s: Seq<LiveOrder>)
    requires
        s.len() < 65536,
    ensures
        exists|k: int|
            0 <= k <= s.len() && !ids_of(s).contains(k),
{
    if forall|k: int| 0 <= k <= s.len() ==> ids_of(s).contains(k) {
        let range = vstd::set_lib::set_int_range(0, s.len() as int + 1);
        vstd::set_lib::lemma_int_range(0, s.len() as int + 1);
        assert(range.subset_of(ids_of(s)));
        lemma_ids_card(s);
        vstd::set_lib::lemma_len_subset(range, ids_of(s));
        assert(false);
    }
}

/// How far one order's wait has progressed: pending, or concluded with
/// success or failure. Exactly one terminal state is ever reached.
#[derive(Clone, Copy, PartialEq, Eq, Structural, Debug)]
pub enum OrderResolution {
    Pending,
    Succeeded,
    Failed,
}

/// One observation of the confirmation wait: how many seconds passed since
/// the wait was last rearmed, and the message received, or `None` when the
/// stream closed.
#[derive(Clone, Copy, PartialEq, Eq, Structural, Debug)]
pub struct OrderEvent {
    pub elapsed_secs: u64,
    pub message: Option<OrderMessage>,
}

/// One step of the confirmation wait. A concluded order never changes
/// again. While pending: silence reaching the idle timeout fails the
/// order; a closed stream fails it; a keep-alive rearms the wait;
/// a completion succeeds; a cancellation fails.
pub open spec fn spec_order_step(state: OrderResolution, event: OrderEvent) -> OrderResolution {
    if state != OrderResolution::Pending {
        state
    } else if event.elapsed_secs >= IDLE_PAYMENT_TIMEOUT_SECS {
        OrderResolution::Failed
    } else {
        match event.message {
            None => OrderResolution::Failed,
            Some(OrderMessage::KeepAlive) => OrderResolution::Pending,
            Some(OrderMessage::Completed) => OrderResolution::Succeeded,
            Some(OrderMessage::Cancelled) => OrderResolution::Failed,
        }
    }
}

/// Applies one observed event to an order's wait.
pub fn order_step(state: OrderResolution, event: OrderEvent) -> (r: OrderResolution)
    ensures
        r == spec_order_step(state, event),
{
    if !matches!(state, OrderResolution::Pending) {
        state
    } else if event.elapsed_secs >= IDLE_PAYMENT_TIMEOUT_SECS {
        OrderResolution::Failed
    } else {
        match event.message {
            None => OrderResolution::Failed,
            Some(OrderMessage::KeepAlive) => OrderResolution::Pending,
            Some(OrderMessage::Completed) => OrderResolution::Succeeded,
            Some(OrderMessage::Cancelled) => OrderResolution::Failed,
        }
    }
}

/// The resolution an order reaches after a sequence of observed events,
/// starting pending.
pub open spec fn spec_order_run(events: Seq<OrderEvent>) -> OrderResolution
    decreases events.len(),
{
    if events.len() == 0 {
        OrderResolution::Pending
    } else {
        spec_order_step(spec_order_run(events.drop_last()), events.last())
    }
}

/// Resolves an order against the events observed so far.
pub fn resolve_order(events: &Vec<OrderEvent>) -> (r: OrderResolution)
    ensures
        r == spec_order_run(events@),
{
    let n = events.len();
    let mut state = OrderResolution::Pending;
    let mut i: usize = 0;
    proof {
        assert(events@.take(0) =~= Seq::<OrderEvent>::empty());
    }
    while i < n
        invariant
            n == events@.len(),
            0 <= i <= n,
            state == spec_order_run(events@.take(i as int)),
        decreases n - i,
    {
        state = order_step(state, events[i]);
        proof {
            assert(events@.take(i + 1).drop_last() =~= events@.take(i as int));
            assert(events@.take(i + 1).last() == events@[i as int]);
        }
        i += 1;
    }
    proof {
        assert(events@.take(n as int) =~= events@);
    }
    state
}

/// Law: an order receiving only keep-alive messages, each strictly within
/// the idle timeout, never resolves; in particular it never fails.
pub proof fn lemma_keepalive_never_fails(events: Seq<OrderEvent>)
    requires
        forall|i: int|
            0 <= i < events.len() ==> (#[trigger] events[i]).message == Some(
                OrderMessage::KeepAlive,
            ) && events[i].elapsed_secs < IDLE_PAYMENT_TIMEOUT_SECS,
    ensures
        spec_order_run(events) == OrderResolution::Pending,
    decreases events.len(),
{
    if events.len() > 0 {
        assert(forall|i: int|
            0 <= i < events.drop_last().len() ==> events.drop_last()[i] == events[i]);
        lemma_keepalive_never_fails(events.drop_last());
        assert(events[events.len() - 1] == events.last());
    }
}

/// Law: a concluded order never changes again, whatever else arrives:
/// there is exactly one terminal outcome per order.
pub proof fn lemma_resolution_terminal(events: Seq<OrderEvent>, i: int, j: int)
    requires
        0 <= i <= j <= events.len(),
        spec_order_run(events.take(i)) != OrderResolution::Pending,
    ensures
        spec_order_run(events.take(j)) == spec_order_run(events.take(i)),
    decreases j - i,
{
    if j > i {
        lemma_resolution_terminal(events, i, j - 1);
        assert(events.take(j).drop_last() =~= events.take(j - 1));
    }
}

/// Law: an order pending after some prefix of events, then hearing nothing
/// for the idle timeout, fails at that point and stays failed: it fails
/// exactly once.
pub proof fn lemma_timeout_fails(events: Seq<OrderEvent>, i: int)
    requires
        0 <= i < events.len(),
        spec_order_run(events.take(i)) == OrderResolution::Pending,
        events[i].elapsed_secs >= IDLE_PAYMENT_TIMEOUT_SECS,
    ensures
        spec_order_run(events.take(i + 1)) == OrderResolution::Failed,
        forall|j: int|
            i < j <= events.len() ==> spec_order_run(#[trigger] events.take(j))
                == OrderResolution::Failed,
{
    assert(events.take(i + 1).drop_last() =~= events.take(i));
    assert(events.take(i + 1).last() == events[i]);
    assert(spec_order_run(events.take(i + 1)) == OrderResolution::Failed);
    assert forall|j: int| i < j <= events.len() implies spec_order_run(#[trigger] events.take(j))
        == OrderResolution::Failed by {
        lemma_resolution_terminal(events, i + 1, j);
    }
}

} // verus!
