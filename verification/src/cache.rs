//! The client's local record of its orders.
//!
//! The cache mirrors what the federation holds and lags behind it. Each order
//! id has a slot; the by-market indices are read off the slots, so an order is
//! listed under the market and outcome that its record names and in no other
//! place. Beside the slots stands the set of ids whose record is known to be
//! stale.
use crate::id_map::IdMap;
use crate::types::Order;
use crate::types::OrderIdClientSide;
use crate::types::OrderIdSlot;
use crate::types::OutPoint;
use crate::types::Outcome;
use vstd::prelude::*;

verus! {

/// Whether `order` falls under a scan by market and outcome. Without a market
/// the scan takes every order and the outcome is not looked at.
pub open spec fn in_scope(order: Order, market: Option<OutPoint>, outcome: Option<Outcome>) -> bool {
    match market {
        None => true,
        Some(m) => order.market == m && match outcome {
            None => true,
            Some(o) => order.outcome == o,
        },
    }
}

/// What the order cache holds, as mathematical values.
pub struct OrderCacheState {
    /// The slot of each order id that has one.
    pub slots: Map<u64, OrderIdSlot>,
    /// The ids whose cached record has to be fetched again.
    pub needs_update: Set<u64>,
}

impl OrderCacheState {
    /// The order cached under `id`. A reserved slot holds no order yet.
    pub open spec fn order(self, id: u64) -> Option<Order> {
        if self.slots.contains_key(id) {
            match self.slots[id] {
                OrderIdSlot::Reserved => None,
                OrderIdSlot::Order(order) => Some(order),
            }
        } else {
            None
        }
    }

    /// `id` is listed in the index of all orders under the given market and outcome.
    pub open spec fn in_index(self, market: Option<OutPoint>, outcome: Option<Outcome>, id: u64) -> bool {
        self.order(id) matches Some(order) && in_scope(order, market, outcome)
    }

    /// `id` is listed in the index of orders that still have something on them.
    pub open spec fn in_non_zero_index(
        self,
        market: Option<OutPoint>,
        outcome: Option<Outcome>,
        id: u64,
    ) -> bool {
        self.order(id) matches Some(order) && in_scope(order, market, outcome) && order.is_non_zero()
    }

    /// The cache after the federation's record of `id` was written to it.
    pub open spec fn save_order(self, id: u64, order: Order) -> OrderCacheState {
        OrderCacheState {
            slots: self.slots.insert(id, OrderIdSlot::Order(order)),
            needs_update: self.needs_update.remove(id),
        }
    }

    /// The cache after `id` was set aside for an order that is being submitted.
    pub open spec fn reserve(self, id: u64) -> OrderCacheState {
        OrderCacheState { slots: self.slots.insert(id, OrderIdSlot::Reserved), ..self }
    }

    /// The cache after a reservation of `id` was given up. A slot that holds
    /// an order is not a reservation and stays.
    pub open spec fn release(self, id: u64) -> OrderCacheState {
        if self.slots.contains_key(id) && self.slots[id] is Reserved {
            OrderCacheState { slots: self.slots.remove(id), ..self }
        } else {
            self
        }
    }

    /// The cache after the given ids were flagged as stale.
    pub open spec fn mark_stale(self, ids: Seq<OrderIdClientSide>) -> OrderCacheState {
        OrderCacheState {
            needs_update: self.needs_update.union(Set::new(|id: u64| ids.contains(OrderIdClientSide(id)))),
            ..self
        }
    }

    /// `id` is what the next new order gets: one above the highest id in
    /// use, or 0 while no id is in use.
    pub open spec fn is_next_order_id(self, id: u64) -> bool {
        &&& forall|k: u64| self.slots.contains_key(k) ==> k < id
        &&& id == 0 || self.slots.contains_key((id - 1) as u64)
    }

    /// The highest id is in use, so no further order can be numbered.
    pub open spec fn ids_exhausted(self) -> bool {
        self.slots.contains_key(u64::MAX)
    }
}

/// The ids are strictly ascending.
pub open spec fn ascending_ids(ids: Seq<OrderIdClientSide>) -> bool {
    forall|i: int, j: int| 0 <= i < j < ids.len() ==> ids[i].0 < ids[j].0
}

/// The order slots and the stale flags of the local cache.
pub struct OrderCache {
    slots: IdMap<OrderIdSlot>,
    needs_update: IdMap<()>,
}

impl View for OrderCache {
    type V = OrderCacheState;

    closed spec fn view(&self) -> OrderCacheState {
        OrderCacheState { slots: self.slots@, needs_update: self.needs_update@.dom() }
    }
}

impl OrderCache {
    /// The representation is in order.
    pub closed spec fn wf(&self) -> bool {
        self.slots.wf() && self.needs_update.wf()
    }

    /// A cache that knows no order.
    pub fn new() -> (cache: OrderCache)
        ensures
            cache.wf(),
            cache@.slots == Map::<u64, OrderIdSlot>::empty(),
            cache@.needs_update == Set::<u64>::empty(),
    {
        let cache = OrderCache { slots: IdMap::new(), needs_update: IdMap::new() };
        assert(cache@.needs_update =~= Set::<u64>::empty());
        cache
    }

    /// The slot under `id`, if the id has one.
    pub fn get_slot(&self, id: OrderIdClientSide) -> (r: Option<OrderIdSlot>)
        requires
            self.wf(),
        ensures
            r is Some <==> self@.slots.contains_key(id.0),
            r matches Some(slot) ==> slot == self@.slots[id.0],
    {
        match self.slots.get(id.0) {
            Some(slot) => Some(*slot),
            None => None,
        }
    }

    /// The order cached under `id`.
    pub fn get_order(&self, id: OrderIdClientSide) -> (r: Option<Order>)
        requires
            self.wf(),
        ensures
            r == self@.order(id.0),
    {
        match self.slots.get(id.0) {
            Some(OrderIdSlot::Order(order)) => Some(*order),
            _ => None,
        }
    }

    /// Whether `id` is flagged as stale.
    pub fn order_needs_update(&self, id: OrderIdClientSide) -> (r: bool)
        requires
            self.wf(),
        ensures
            r == self@.needs_update.contains(id.0),
    {
        self.needs_update.contains(id.0)
    }

    /// Writes the federation's record of an order into the cache and clears
    /// its stale flag.
    pub fn save_order(&mut self, id: OrderIdClientSide, order: &Order)
        requires
            old(self).wf(),
        ensures
            final(self).wf(),
            final(self)@ == old(self)@.save_order(id.0, *order),
    {
        self.slots.insert(id.0, OrderIdSlot::Order(*order));
        self.needs_update.remove(id.0);
        assert(self@.needs_update =~= old(self)@.needs_update.remove(id.0));
    }

    /// Sets `id` aside for an order that is about to be submitted.
    pub fn reserve_order_id(&mut self, id: OrderIdClientSide)
        requires
            old(self).wf(),
        ensures
            final(self).wf(),
            final(self)@ == old(self)@.reserve(id.0),
    {
        self.slots.insert(id.0, OrderIdSlot::Reserved);
    }

    /// Gives up the reservation of `id`, so that the id can be handed out again.
    pub fn release_order_id(&mut self, id: OrderIdClientSide)
        requires
            old(self).wf(),
        ensures
            final(self).wf(),
            final(self)@ == old(self)@.release(id.0),
    {
        let reserved = match self.slots.get(id.0) {
            Some(OrderIdSlot::Reserved) => true,
            _ => false,
        };
        if reserved {
            self.slots.remove(id.0);
        }
    }

    /// Flags the given orders as stale.
    pub fn set_order_needs_update(&mut self, orders: &Vec<OrderIdClientSide>)
        requires
            old(self).wf(),
        ensures
            final(self).wf(),
            final(self)@ == old(self)@.mark_stale(orders@),
    {
        let mut i: usize = 0;
        while i < orders.len()
            invariant
                i <= orders.len(),
                self.wf(),
                self@.slots == old(self)@.slots,
                forall|id: u64|
                    self@.needs_update.contains(id) <==> old(self)@.needs_update.contains(id) || exists|j: int|
                        0 <= j < i && orders@[j] == OrderIdClientSide(id),
            decreases orders.len() - i,
        {
            let ghost before = self@.needs_update;
            self.needs_update.insert(orders[i].0, ());
            proof {
                assert(self@.needs_update =~= before.insert(orders@[i as int].0));
                assert forall|id: u64|
                    self@.needs_update.contains(id) <==> old(self)@.needs_update.contains(id) || exists|j: int|
                        0 <= j < i + 1 && orders@[j] == OrderIdClientSide(id) by {
                    if id == orders@[i as int].0 {
                        assert(orders@[i as int] == OrderIdClientSide(id));
                    }
                }
            }
            i += 1;
        }
        proof {
            let marked = Set::new(|id: u64| orders@.contains(OrderIdClientSide(id)));
            assert(self@.needs_update =~= old(self)@.needs_update.union(marked));
        }
    }

    /// The ids flagged as stale, in ascending order.
    pub fn stale_order_ids(&self) -> (r: Vec<OrderIdClientSide>)
        requires
            self.wf(),
        ensures
            ascending_ids(r@),
            forall|id: u64| r@.contains(OrderIdClientSide(id)) <==> self@.needs_update.contains(id),
    {
        listed_ids(&self.needs_update)
    }

    /// Scans the slots in ascending id order and keeps the ids whose order
    /// falls under the given market and outcome; with `only_non_zero`, only
    /// those that still have something on them.
    fn scan(&self, market: &Option<OutPoint>, outcome: &Option<Outcome>, only_non_zero: bool) -> (r: Vec<
        OrderIdClientSide,
    >)
        requires
            self.wf(),
        ensures
            ascending_ids(r@),
            forall|id: u64|
                r@.contains(OrderIdClientSide(id)) <==> (if only_non_zero {
                    self@.in_non_zero_index(*market, *outcome, id)
                } else {
                    self@.in_index(*market, *outcome, id)
                }),
    {
        let n = self.slots.len();
        let ghost ids = self.slots.ids();
        let ghost listed = |id: u64|
            if only_non_zero {
                self@.in_non_zero_index(*market, *outcome, id)
            } else {
                self@.in_index(*market, *outcome, id)
            };
        let mut out: Vec<OrderIdClientSide> = Vec::new();
        let mut i: usize = 0;
        while i < n
            invariant
                i <= n,
                n == ids.len(),
                ids == self.slots.ids(),
                self.wf(),
                crate::id_map::scan_of(ids, self.slots@),
                listed == (|id: u64|
                    if only_non_zero {
                        self@.in_non_zero_index(*market, *outcome, id)
                    } else {
                        self@.in_index(*market, *outcome, id)
                    }),
                ascending_ids(out@),
                forall|k: int| 0 <= k < out@.len() ==> exists|j: int| 0 <= j < i && ids[j] == (#[trigger] out@[k]).0,
                forall|k: int| 0 <= k < out@.len() ==> listed((#[trigger] out@[k]).0),
                forall|j: int| 0 <= j < i && listed(#[trigger] ids[j]) ==> out@.contains(OrderIdClientSide(ids[j])),
            decreases n - i,
        {
            let id = self.slots.id_at(i);
            let keep = match self.slots.value_at(i) {
                OrderIdSlot::Reserved => false,
                OrderIdSlot::Order(order) => order_in_scope(order, market, outcome) && (!only_non_zero
                    || order.non_zero()),
            };
            proof {
                assert(keep == listed(id));
            }
            if keep {
                let ghost before = out@;
                out.push(OrderIdClientSide(id));
                proof {
                    assert forall|a: int, b: int| 0 <= a < b < out@.len() implies out@[a].0 < out@[b].0 by {
                        if b == before.len() {
                            let j = choose|j: int| 0 <= j < i && ids[j] == (#[trigger] before[a]).0;
                            assert(ids[j] < ids[i as int]);
                        } else {
                            assert(before[a].0 < before[b].0);
                        }
                    }
                    assert forall|k: int| 0 <= k < out@.len() implies exists|j: int|
                        0 <= j < i + 1 && ids[j] == (#[trigger] out@[k]).0 by {
                        if k == before.len() {
                            assert(ids[i as int] == out@[k].0);
                        } else {
                            let j = choose|j: int| 0 <= j < i && ids[j] == (#[trigger] before[k]).0;
                            assert(ids[j] == out@[k].0);
                        }
                    }
                    assert forall|j: int| 0 <= j < i + 1 && listed(#[trigger] ids[j]) implies out@.contains(
                        OrderIdClientSide(ids[j]),
                    ) by {
                        if j == i {
                            assert(out@[before.len() as int] == OrderIdClientSide(ids[j]));
                        } else {
                            assert(before.contains(OrderIdClientSide(ids[j])));
                            let k = choose|k: int| 0 <= k < before.len() && before[k] == OrderIdClientSide(ids[j]);
                            assert(out@[k] == OrderIdClientSide(ids[j]));
                        }
                    }
                }
            }
            i += 1;
        }
        proof {
            assert forall|id: u64| out@.contains(OrderIdClientSide(id)) <==> listed(id) by {
                if out@.contains(OrderIdClientSide(id)) {
                    let k = choose|k: int| 0 <= k < out@.len() && out@[k] == OrderIdClientSide(id);
                    assert(listed(out@[k].0));
                }
                if listed(id) {
                    assert(self.slots@.contains_key(id));
                    assert(ids.contains(id));
                    let j = choose|j: int| 0 <= j < ids.len() && ids[j] == id;
                    assert(listed(ids[j]));
                }
            }
        }
        out
    }

    /// The ids that have a slot, reserved ones among them, in ascending order.
    pub fn slot_ids(&self) -> (r: Vec<OrderIdClientSide>)
        requires
            self.wf(),
        ensures
            ascending_ids(r@),
            forall|id: u64| r@.contains(OrderIdClientSide(id)) <==> self@.slots.contains_key(id),
    {
        listed_ids(&self.slots)
    }

    /// The index of all orders: the ids of the cached orders of the given
    /// market and outcome, in ascending order.
    pub fn order_ids(&self, market: &Option<OutPoint>, outcome: &Option<Outcome>) -> (r: Vec<OrderIdClientSide>)
        requires
            self.wf(),
        ensures
            ascending_ids(r@),
            forall|id: u64| r@.contains(OrderIdClientSide(id)) <==> self@.in_index(*market, *outcome, id),
    {
        self.scan(market, outcome, false)
    }

    /// The index of live orders: as `order_ids`, without the orders on which
    /// nothing is left.
    pub fn non_zero_order_ids(&self, market: &Option<OutPoint>, outcome: &Option<Outcome>) -> (r: Vec<
        OrderIdClientSide,
    >)
        requires
            self.wf(),
        ensures
            ascending_ids(r@),
            forall|id: u64|
                r@.contains(OrderIdClientSide(id)) <==> self@.in_non_zero_index(*market, *outcome, id),
    {
        self.scan(market, outcome, true)
    }

    /// The cached orders of the given market and outcome, each under its id.
    pub fn get_orders_from_db(&self, market: &Option<OutPoint>, outcome: &Option<Outcome>) -> (orders: IdMap<Order>)
        requires
            self.wf(),
        ensures
            orders.wf(),
            forall|id: u64| orders@.contains_key(id) <==> self@.in_index(*market, *outcome, id),
            forall|id: u64| orders@.contains_key(id) ==> Some(orders@[id]) == self@.order(id),
    {
        let listed = self.order_ids(market, outcome);
        let mut orders: IdMap<Order> = IdMap::new();
        let mut i: usize = 0;
        while i < listed.len()
            invariant
                i <= listed.len(),
                self.wf(),
                orders.wf(),
                forall|id: u64| listed@.contains(OrderIdClientSide(id)) <==> self@.in_index(*market, *outcome, id),
                forall|id: u64| orders@.contains_key(id) <==> in_first(listed@, i as int, id),
                forall|id: u64| orders@.contains_key(id) ==> Some(orders@[id]) == self@.order(id),
            decreases listed.len() - i,
        {
            let order_id = listed[i];
            let ghost before = orders@;
            let ghost n: int = i + 1;
            proof {
                assert(listed@.contains(OrderIdClientSide(order_id.0)));
                assert(self@.in_index(*market, *outcome, order_id.0));
            }
            match self.get_order(order_id) {
                Some(order) => {
                    orders.insert(order_id.0, order);
                },
                None => {},
            }
            proof {
                assert forall|id: u64| orders@.contains_key(id) <==> in_first(listed@, n, id) by {
                    lemma_in_first_step(listed@, i as int, id);
                    assert(before.contains_key(id) <==> in_first(listed@, i as int, id));
                    assert(orders@.contains_key(id) <==> (before.contains_key(id) || id == order_id.0));
                }
                assert forall|id: u64| orders@.contains_key(id) implies Some(orders@[id]) == self@.order(id) by {
                    if id != order_id.0 {
                        assert(before.contains_key(id));
                    }
                }
            }
            i += 1;
            assert(i as int == n);
        }
        proof {
            assert forall|id: u64| orders@.contains_key(id) <==> self@.in_index(*market, *outcome, id) by {
                lemma_in_first_all(listed@, id);
            }
        }
        orders
    }

    /// The id for the next new order.
    pub fn next_order_id(&self) -> (r: Option<OrderIdClientSide>)
        requires
            self.wf(),
        ensures
            match r {
                Some(id) => self@.is_next_order_id(id.0),
                None => self@.ids_exhausted(),
            },
    {
        match self.slots.last_id() {
            None => {
                proof {
                    assert(!self@.slots.dom().contains(0u64));
                    assert forall|k: u64| !self@.slots.contains_key(k) by {
                        assert(!self@.slots.dom().contains(k));
                    }
                }
                Some(OrderIdClientSide(0))
            },
            Some(top) => {
                if top == u64::MAX {
                    None
                } else {
                    Some(OrderIdClientSide(top + 1))
                }
            },
        }
    }
}

/// `id` stands among the first `n` entries of `ids`.
pub open spec fn in_first(ids: Seq<OrderIdClientSide>, n: int, id: u64) -> bool {
    exists|j: int| 0 <= j < n && #[trigger] ids[j] == OrderIdClientSide(id)
}

/// One more entry lists what was listed before, and the entry itself.
pub proof fn lemma_in_first_step(ids: Seq<OrderIdClientSide>, n: int, id: u64)
    requires
        0 <= n < ids.len(),
    ensures
        in_first(ids, n + 1, id) <==> in_first(ids, n, id) || ids[n].0 == id,
{
    if in_first(ids, n, id) {
        let j = choose|j: int| 0 <= j < n && #[trigger] ids[j] == OrderIdClientSide(id);
        assert(0 <= j < n + 1 && ids[j] == OrderIdClientSide(id));
    }
    if ids[n].0 == id {
        assert(ids[n] == OrderIdClientSide(id));
    }
}

/// All entries of `ids` list exactly what `ids` contains.
pub proof fn lemma_in_first_all(ids: Seq<OrderIdClientSide>, id: u64)
    ensures
        in_first(ids, ids.len() as int, id) <==> ids.contains(OrderIdClientSide(id)),
{
    if in_first(ids, ids.len() as int, id) {
        let j = choose|j: int| 0 <= j < ids.len() && #[trigger] ids[j] == OrderIdClientSide(id);
        assert(ids[j] == OrderIdClientSide(id));
    }
    if ids.contains(OrderIdClientSide(id)) {
        let j = choose|j: int| 0 <= j < ids.len() && ids[j] == OrderIdClientSide(id);
        assert(ids[j] == OrderIdClientSide(id));
    }
}

/// The ids of a map, in ascending order.
pub fn listed_ids<V>(map: &IdMap<V>) -> (r: Vec<OrderIdClientSide>)
    requires
        map.wf(),
    ensures
        ascending_ids(r@),
        forall|id: u64| r@.contains(OrderIdClientSide(id)) <==> map@.contains_key(id),
{
    let n = map.len();
    let mut out: Vec<OrderIdClientSide> = Vec::new();
    let mut i: usize = 0;
    while i < n
        invariant
            i <= n,
            n == map.ids().len(),
            map.wf(),
            crate::id_map::scan_of(map.ids(), map@),
            out@.len() == i,
            forall|j: int| 0 <= j < i ==> out@[j] == OrderIdClientSide(map.ids()[j]),
        decreases n - i,
    {
        let id = map.id_at(i);
        out.push(OrderIdClientSide(id));
        i += 1;
    }
    proof {
        let ids = map.ids();
        assert forall|id: u64| out@.contains(OrderIdClientSide(id)) <==> map@.contains_key(id) by {
            if out@.contains(OrderIdClientSide(id)) {
                let j = choose|j: int| 0 <= j < out@.len() && out@[j] == OrderIdClientSide(id);
                assert(ids[j] == id);
            }
            if map@.contains_key(id) {
                assert(ids.contains(id));
                let j = choose|j: int| 0 <= j < ids.len() && ids[j] == id;
                assert(out@[j] == OrderIdClientSide(id));
            }
        }
    }
    out
}

/// Whether `order` falls under a scan by market and outcome.
pub fn order_in_scope(order: &Order, market: &Option<OutPoint>, outcome: &Option<Outcome>) -> (r: bool)
    ensures
        r == in_scope(*order, *market, *outcome),
{
    match market {
        None => true,
        Some(m) => {
            if !order.market.same_as(m) {
                false
            } else {
                match outcome {
                    None => true,
                    Some(o) => order.outcome == *o,
                }
            }
        },
    }
}

/// An order written to the cache is read back as it was written. It stands
/// in the index of live orders exactly if something is left on it, under its
/// own market and outcome and under no other. It is no longer stale, and no
/// other order has changed.
pub proof fn lemma_saved_order_is_read_back(
    cache: OrderCacheState,
    id: u64,
    order: Order,
    market: Option<OutPoint>,
    outcome: Option<Outcome>,
)
    ensures
        cache.save_order(id, order).order(id) == Some(order),
        cache.save_order(id, order).in_non_zero_index(None, None, id) <==> order.is_non_zero(),
        cache.save_order(id, order).in_non_zero_index(Some(order.market), Some(order.outcome), id)
            <==> order.is_non_zero(),
        cache.save_order(id, order).in_non_zero_index(market, outcome, id) <==> order.is_non_zero() && in_scope(
            order,
            market,
            outcome,
        ),
        cache.save_order(id, order).in_index(market, outcome, id) <==> in_scope(order, market, outcome),
        !cache.save_order(id, order).needs_update.contains(id),
        forall|other: u64| other != id ==> cache.save_order(id, order).order(other) == cache.order(other),
        forall|other: u64|
            other != id ==> cache.save_order(id, order).needs_update.contains(other) == cache.needs_update.contains(
                other,
            ),
{
}

/// A reserved id holds no order, is taken into account when the next id is
/// chosen, and is free again once the reservation is given up.
pub proof fn lemma_reservation(cache: OrderCacheState, id: u64)
    requires
        cache.is_next_order_id(id),
    ensures
        cache.reserve(id).order(id) is None,
        !cache.reserve(id).is_next_order_id(id),
        cache.reserve(id).release(id).slots == cache.slots,
        cache.reserve(id).release(id).is_next_order_id(id),
{
    assert(!cache.slots.contains_key(id));
    assert(cache.reserve(id).slots.contains_key(id));
    assert(cache.reserve(id).release(id).slots =~= cache.slots);
}

} // verus!
