//! Bringing the order cache up to date with the federation.
//!
//! Orders are matched inside the federation, so the cached record of an order
//! goes out of date without the client doing anything. A round of
//! reconciliation lists the orders whose record may be out of date, has the
//! caller fetch the federation's record of each, and writes back what was
//! fetched. The fetches are independent: they may come back in any order.
use crate::cache::ascending_ids;
use crate::cache::in_first;
use crate::cache::in_scope;
use crate::cache::lemma_in_first_all;
use crate::cache::lemma_in_first_step;
use crate::cache::listed_ids;
use crate::cache::OrderCache;
use crate::cache::OrderCacheState;
use crate::id_map::IdMap;
use crate::states::CacheEffectView;
use crate::states::PredictionMarketState;
use crate::types::same_order_option;
use crate::types::Order;
use crate::types::OrderIdClientSide;
use crate::types::OrderIdSlot;
use crate::types::OutPoint;
use crate::types::Outcome;
use vstd::prelude::*;

verus! {

/// Whether an order may have changed at the federation without the client
/// acting: it still waits for a match, or, where payouts are looked for, it
/// holds contracts that a payout would turn into bitcoin.
pub open spec fn may_have_moved(order: Order, sync_possible_payouts: bool) -> bool {
    order.quantity_waiting_for_match.0 != 0 || (sync_possible_payouts && order.contract_of_outcome_balance.0
        != 0)
}

/// Whether a changed order is reported to a caller that asked for the given
/// market and outcome. Each of the two narrows the report on its own.
pub open spec fn is_reported(order: Order, market: Option<OutPoint>, outcome: Option<Outcome>) -> bool {
    (market matches Some(m) ==> order.market == m) && (outcome matches Some(o) ==> order.outcome == o)
}

/// One answer of the federation: the order it holds under the id, if any.
pub type Fetched = (OrderIdClientSide, Option<Order>);

impl OrderCacheState {
    /// `id` is to be fetched in a round of reconciliation: it is flagged as
    /// stale, or its cached order falls under the given market and outcome and
    /// may have moved.
    pub open spec fn is_sync_candidate(
        self,
        sync_possible_payouts: bool,
        market: Option<OutPoint>,
        outcome: Option<Outcome>,
        id: u64,
    ) -> bool {
        self.needs_update.contains(id) || (self.order(id) matches Some(order) && in_scope(order, market, outcome)
            && may_have_moved(order, sync_possible_payouts))
    }

    /// The cache after one answer was written back. Where the federation
    /// holds no order there is nothing to write.
    pub open spec fn reconcile(self, id: u64, authoritative: Option<Order>) -> OrderCacheState {
        match authoritative {
            Some(order) => self.save_order(id, order),
            None => self,
        }
    }

    /// Whether an answer tells the caller something new: the federation holds
    /// an order, the cache did not hold the same, and the caller asked for
    /// orders like it.
    pub open spec fn reports_change(
        self,
        id: u64,
        authoritative: Option<Order>,
        market: Option<OutPoint>,
        outcome: Option<Outcome>,
    ) -> bool {
        authoritative matches Some(order) && self.order(id) != Some(order) && is_reported(order, market, outcome)
    }

    /// The cache after the answers were written back one after the other.
    pub open spec fn reconcile_all(self, fetched: Seq<Fetched>) -> OrderCacheState
        decreases fetched.len(),
    {
        if fetched.len() == 0 {
            self
        } else {
            self.reconcile_all(fetched.drop_last()).reconcile(fetched.last().0.0, fetched.last().1)
        }
    }

    /// The changed orders that the answers report, each under its id. Where
    /// an id is answered more than once, the latest change stands.
    pub open spec fn reported_changes(
        self,
        fetched: Seq<Fetched>,
        market: Option<OutPoint>,
        outcome: Option<Outcome>,
    ) -> Map<u64, Order>
        decreases fetched.len(),
    {
        if fetched.len() == 0 {
            Map::empty()
        } else {
            let earlier = self.reported_changes(fetched.drop_last(), market, outcome);
            let before = self.reconcile_all(fetched.drop_last());
            if before.reports_change(fetched.last().0.0, fetched.last().1, market, outcome) {
                earlier.insert(fetched.last().0.0, fetched.last().1->0)
            } else {
                earlier
            }
        }
    }
}

/// `all` holds what `first` holds and the first `n` entries of `ids`.
spec fn joined(all: Map<u64, ()>, first: Map<u64, ()>, ids: Seq<OrderIdClientSide>, n: int) -> bool {
    forall|id: u64| #[trigger] all.contains_key(id) <==> (first.contains_key(id) || in_first(ids, n, id))
}

/// Whether a changed order is reported to a caller that asked for the given
/// market and outcome.
pub fn order_is_reported(order: &Order, market: &Option<OutPoint>, outcome: &Option<Outcome>) -> (r: bool)
    ensures
        r == is_reported(*order, *market, *outcome),
{
    let market_fits = match market {
        Some(m) => order.market.same_as(m),
        None => true,
    };
    let outcome_fits = match outcome {
        Some(o) => order.outcome == *o,
        None => true,
    };
    market_fits && outcome_fits
}

impl OrderCache {
    /// The orders to fetch in a round of reconciliation, in ascending order
    /// and each once: the stale orders, whatever the round is narrowed to,
    /// and the cached orders of the given market and outcome that may have
    /// moved.
    pub fn sync_candidates(
        &self,
        sync_possible_payouts: bool,
        market: &Option<OutPoint>,
        outcome: &Option<Outcome>,
    ) -> (r: Vec<OrderIdClientSide>)
        requires
            self.wf(),
        ensures
            ascending_ids(r@),
            forall|id: u64|
                r@.contains(OrderIdClientSide(id)) <==> self@.is_sync_candidate(
                    sync_possible_payouts,
                    *market,
                    *outcome,
                    id,
                ),
    {
        let mut orders_to_update: IdMap<()> = IdMap::new();
        let non_zero_orders = self.non_zero_order_ids(market, outcome);
        let mut i: usize = 0;
        while i < non_zero_orders.len()
            invariant
                i <= non_zero_orders.len(),
                self.wf(),
                orders_to_update.wf(),
                forall|id: u64|
                    non_zero_orders@.contains(OrderIdClientSide(id)) <==> self@.in_non_zero_index(
                        *market,
                        *outcome,
                        id,
                    ),
                forall|id: u64|
                    orders_to_update@.contains_key(id) <==> (in_first(non_zero_orders@, i as int, id)
                        && may_have_moved(self@.order(id)->0, sync_possible_payouts)),
            decreases non_zero_orders.len() - i,
        {
            let order_id = non_zero_orders[i];
            let ghost prev = orders_to_update@;
            let ghost moves = may_have_moved(self@.order(order_id.0)->0, sync_possible_payouts);
            proof {
                assert(non_zero_orders@.contains(OrderIdClientSide(order_id.0)));
                assert(self@.in_non_zero_index(*market, *outcome, order_id.0));
            }
            match self.get_order(order_id) {
                Some(order) => {
                    if order.quantity_waiting_for_match.0 != 0 || (sync_possible_payouts
                        && order.contract_of_outcome_balance.0 != 0) {
                        orders_to_update.insert(order_id.0, ());
                    }
                },
                None => {},
            }
            proof {
                assert(orders_to_update@ == if moves {
                    prev.insert(order_id.0, ())
                } else {
                    prev
                });
                assert forall|id: u64|
                    orders_to_update@.contains_key(id) <==> (in_first(non_zero_orders@, i + 1, id)
                        && may_have_moved(self@.order(id)->0, sync_possible_payouts)) by {
                    lemma_in_first_step(non_zero_orders@, i as int, id);
                    assert(prev.contains_key(id) <==> (in_first(non_zero_orders@, i as int, id)
                        && may_have_moved(self@.order(id)->0, sync_possible_payouts)));
                    assert(orders_to_update@.contains_key(id) <==> (prev.contains_key(id) || (moves && id
                        == order_id.0)));
                }
            }
            i += 1;
        }
        let stale = self.stale_order_ids();
        let ghost moved = orders_to_update@;
        let mut k: usize = 0;
        while k < stale.len()
            invariant
                k <= stale.len(),
                orders_to_update.wf(),
                joined(orders_to_update@, moved, stale@, k as int),
            decreases stale.len() - k,
        {
            let ghost prev = orders_to_update@;
            orders_to_update.insert(stale[k].0, ());
            proof {
                assert forall|id: u64|
                    orders_to_update@.contains_key(id) <==> (moved.contains_key(id) || in_first(
                        stale@,
                        k + 1,
                        id,
                    )) by {
                    lemma_in_first_step(stale@, k as int, id);
                    assert(prev.contains_key(id) <==> (moved.contains_key(id) || in_first(stale@, k as int, id)));
                    assert(orders_to_update@.contains_key(id) <==> (prev.contains_key(id) || id == stale@[k as int].0));
                }
                assert(joined(orders_to_update@, moved, stale@, k + 1));
            }
            k += 1;
        }
        let listed = listed_ids(&orders_to_update);
        proof {
            assert forall|id: u64|
                listed@.contains(OrderIdClientSide(id)) <==> self@.is_sync_candidate(
                    sync_possible_payouts,
                    *market,
                    *outcome,
                    id,
                ) by {
                lemma_in_first_all(stale@, id);
                lemma_in_first_all(non_zero_orders@, id);
                assert(listed@.contains(OrderIdClientSide(id)) <==> orders_to_update@.contains_key(id));
                assert(orders_to_update@.contains_key(id) <==> (moved.contains_key(id) || in_first(
                    stale@,
                    stale@.len() as int,
                    id,
                )));
                assert(moved.contains_key(id) <==> (in_first(non_zero_orders@, non_zero_orders@.len() as int, id)
                    && may_have_moved(self@.order(id)->0, sync_possible_payouts)));
                assert(stale@.contains(OrderIdClientSide(id)) <==> self@.needs_update.contains(id));
                assert(non_zero_orders@.contains(OrderIdClientSide(id)) <==> self@.in_non_zero_index(
                    *market,
                    *outcome,
                    id,
                ));
            }
        }
        listed
    }

    /// Writes one answer of the federation back and returns the order if the
    /// answer is to be reported as a change.
    pub fn apply_authoritative(
        &mut self,
        id: OrderIdClientSide,
        authoritative: &Option<Order>,
        market: &Option<OutPoint>,
        outcome: &Option<Outcome>,
    ) -> (changed: Option<Order>)
        requires
            old(self).wf(),
        ensures
            final(self).wf(),
            final(self)@ == old(self)@.reconcile(id.0, *authoritative),
            changed == if old(self)@.reports_change(id.0, *authoritative, *market, *outcome) {
                *authoritative
            } else {
                None
            },
    {
        let from_cache = self.get_order(id);
        match authoritative {
            Some(order) => {
                self.save_order(id, order);
                if !same_order_option(&from_cache, authoritative) && order_is_reported(order, market, outcome) {
                    Some(*order)
                } else {
                    None
                }
            },
            None => None,
        }
    }

    /// Writes the answers of a round back, in the order in which they came,
    /// and returns the changed orders, each under its id.
    pub fn sync_orders(
        &mut self,
        fetched: &Vec<Fetched>,
        market: &Option<OutPoint>,
        outcome: &Option<Outcome>,
    ) -> (changed_orders: IdMap<Order>)
        requires
            old(self).wf(),
        ensures
            final(self).wf(),
            changed_orders.wf(),
            final(self)@ == old(self)@.reconcile_all(fetched@),
            changed_orders@ == old(self)@.reported_changes(fetched@, *market, *outcome),
    {
        let mut changed_orders: IdMap<Order> = IdMap::new();
        let mut i: usize = 0;
        while i < fetched.len()
            invariant
                i <= fetched.len(),
                self.wf(),
                changed_orders.wf(),
                self@ == old(self)@.reconcile_all(fetched@.subrange(0, i as int)),
                changed_orders@ == old(self)@.reported_changes(fetched@.subrange(0, i as int), *market, *outcome),
            decreases fetched.len() - i,
        {
            proof {
                let upto = fetched@.subrange(0, i + 1);
                assert(upto.drop_last() =~= fetched@.subrange(0, i as int));
                assert(upto.last() == fetched@[i as int]);
            }
            let id = fetched[i].0;
            match self.apply_authoritative(id, &fetched[i].1, market, outcome) {
                Some(order) => {
                    changed_orders.insert(id.0, order);
                },
                None => {},
            }
            i += 1;
        }
        proof {
            assert(fetched@.subrange(0, fetched@.len() as int) =~= fetched@);
        }
        changed_orders
    }
}

/// What the federation answers for `id` when it holds the orders `federation`.
pub open spec fn answer_of(federation: Map<u64, Order>, id: u64) -> Option<Order> {
    if federation.contains_key(id) {
        Some(federation[id])
    } else {
        None
    }
}

/// Every answer in `fetched` is what the federation holds under its id.
pub open spec fn answers_from(fetched: Seq<Fetched>, federation: Map<u64, Order>) -> bool {
    forall|i: int| 0 <= i < fetched.len() ==> (#[trigger] fetched[i]).1 == answer_of(federation, fetched[i].0.0)
}

/// `id` is among the ids that were fetched.
pub open spec fn was_fetched(fetched: Seq<Fetched>, id: u64) -> bool {
    exists|i: int| 0 <= i < fetched.len() && (#[trigger] fetched[i]).0.0 == id
}

/// After the answers of the federation were written back, the cache holds
/// the federation's order under every fetched id for which there is one, and
/// that id is no longer stale; every other id is as it was.
pub proof fn lemma_reconcile_all(cache: OrderCacheState, fetched: Seq<Fetched>, federation: Map<u64, Order>, id: u64)
    requires
        answers_from(fetched, federation),
    ensures
        was_fetched(fetched, id) && federation.contains_key(id) ==> {
            &&& cache.reconcile_all(fetched).order(id) == Some(federation[id])
            &&& !cache.reconcile_all(fetched).needs_update.contains(id)
        },
        !(was_fetched(fetched, id) && federation.contains_key(id)) ==> {
            &&& cache.reconcile_all(fetched).slots.contains_key(id) == cache.slots.contains_key(id)
            &&& cache.slots.contains_key(id) ==> cache.reconcile_all(fetched).slots[id] == cache.slots[id]
            &&& cache.reconcile_all(fetched).needs_update.contains(id) == cache.needs_update.contains(id)
        },
    decreases fetched.len(),
{
    if fetched.len() == 0 {
    } else {
        let earlier = fetched.drop_last();
        let last = fetched.last();
        assert forall|i: int| 0 <= i < earlier.len() implies (#[trigger] earlier[i]).1 == answer_of(
            federation,
            earlier[i].0.0,
        ) by {
            assert(earlier[i] == fetched[i]);
        }
        lemma_reconcile_all(cache, earlier, federation, id);
        assert(last == fetched[fetched.len() - 1]);
        if was_fetched(earlier, id) {
            let i = choose|i: int| 0 <= i < earlier.len() && (#[trigger] earlier[i]).0.0 == id;
            assert(fetched[i].0.0 == id);
        }
        if was_fetched(fetched, id) && last.0.0 != id {
            let i = choose|i: int| 0 <= i < fetched.len() && (#[trigger] fetched[i]).0.0 == id;
            assert(earlier[i].0.0 == id);
        }
    }
}

/// A round of reconciliation brings the cache to the federation's state:
/// where every candidate was fetched, each candidate that the federation
/// holds is cached as the federation holds it, and is not stale.
pub proof fn lemma_sync_reaches_authoritative_state(
    cache: OrderCacheState,
    fetched: Seq<Fetched>,
    federation: Map<u64, Order>,
    sync_possible_payouts: bool,
    market: Option<OutPoint>,
    outcome: Option<Outcome>,
)
    requires
        answers_from(fetched, federation),
        forall|id: u64|
            cache.is_sync_candidate(sync_possible_payouts, market, outcome, id) ==> was_fetched(fetched, id),
    ensures
        forall|id: u64|
            #![trigger federation.contains_key(id)]
            cache.is_sync_candidate(sync_possible_payouts, market, outcome, id) && federation.contains_key(id) ==> {
                &&& cache.reconcile_all(fetched).order(id) == Some(federation[id])
                &&& !cache.reconcile_all(fetched).needs_update.contains(id)
            },
{
    assert forall|id: u64|
        #![trigger federation.contains_key(id)]
        cache.is_sync_candidate(sync_possible_payouts, market, outcome, id) && federation.contains_key(id) implies {
            &&& cache.reconcile_all(fetched).order(id) == Some(federation[id])
            &&& !cache.reconcile_all(fetched).needs_update.contains(id)
        } by {
        lemma_reconcile_all(cache, fetched, federation, id);
    }
}

/// Where the cache already holds what the federation answers, writing the
/// answers back changes nothing and reports nothing.
pub proof fn lemma_settled_answers_change_nothing(
    cache: OrderCacheState,
    fetched: Seq<Fetched>,
    market: Option<OutPoint>,
    outcome: Option<Outcome>,
)
    requires
        forall|i: int|
            0 <= i < fetched.len() ==> ((#[trigger] fetched[i]).1 matches Some(order) ==> cache.order(
                fetched[i].0.0,
            ) == Some(order) && !cache.needs_update.contains(fetched[i].0.0)),
    ensures
        cache.reconcile_all(fetched) == cache,
        cache.reported_changes(fetched, market, outcome) == Map::<u64, Order>::empty(),
    decreases fetched.len(),
{
    if fetched.len() == 0 {
    } else {
        let earlier = fetched.drop_last();
        let last = fetched.last();
        assert forall|i: int| 0 <= i < earlier.len() implies ((#[trigger] earlier[i]).1 matches Some(order)
            ==> cache.order(earlier[i].0.0) == Some(order) && !cache.needs_update.contains(earlier[i].0.0)) by {
            assert(earlier[i] == fetched[i]);
        }
        lemma_settled_answers_change_nothing(cache, earlier, market, outcome);
        assert(last == fetched[fetched.len() - 1]);
        match last.1 {
            Some(order) => {
                let saved = cache.save_order(last.0.0, order);
                assert(saved.slots =~= cache.slots);
                assert(saved.needs_update =~= cache.needs_update);
            },
            None => {},
        }
    }
}

/// Reconciliation comes to rest. After a round in which every candidate was
/// fetched, a further round against the same federation state, whichever of
/// its candidates it fetches and in whatever order, leaves the cache as it is
/// and reports no change.
pub proof fn lemma_sync_reaches_fixed_point(
    cache: OrderCacheState,
    first: Seq<Fetched>,
    second: Seq<Fetched>,
    federation: Map<u64, Order>,
    sync_possible_payouts: bool,
    market: Option<OutPoint>,
    outcome: Option<Outcome>,
)
    requires
        answers_from(first, federation),
        answers_from(second, federation),
        forall|id: u64|
            cache.is_sync_candidate(sync_possible_payouts, market, outcome, id) ==> was_fetched(first, id),
        forall|i: int|
            0 <= i < second.len() ==> cache.reconcile_all(first).is_sync_candidate(
                sync_possible_payouts,
                market,
                outcome,
                (#[trigger] second[i]).0.0,
            ),
    ensures
        cache.reconcile_all(first).reconcile_all(second) == cache.reconcile_all(first),
        cache.reconcile_all(first).reported_changes(second, market, outcome) == Map::<u64, Order>::empty(),
{
    let settled = cache.reconcile_all(first);
    assert forall|i: int| 0 <= i < second.len() implies ((#[trigger] second[i]).1 matches Some(order)
        ==> settled.order(second[i].0.0) == Some(order) && !settled.needs_update.contains(second[i].0.0)) by {
        let id = second[i].0.0;
        lemma_reconcile_all(cache, first, federation, id);
        if second[i].1 is Some {
            assert(federation.contains_key(id));
            if !was_fetched(first, id) {
                assert(settled.order(id) == cache.order(id));
                assert(cache.is_sync_candidate(sync_possible_payouts, market, outcome, id));
            }
        }
    }
    lemma_settled_answers_change_nothing(settled, second, market, outcome);
}

/// The cache after a series of transactions was settled, each accepted or
/// rejected as the flag beside it says.
pub open spec fn settle_all(cache: OrderCacheState, settled: Seq<(PredictionMarketState, bool)>) -> OrderCacheState
    decreases settled.len(),
{
    if settled.len() == 0 {
        cache
    } else {
        settle_all(cache, settled.drop_last()).apply(settled.last().0.effect(settled.last().1))
    }
}

/// Settling transactions takes no stale flag away.
pub proof fn lemma_settling_keeps_stale_flags(
    cache: OrderCacheState,
    settled: Seq<(PredictionMarketState, bool)>,
    id: u64,
)
    requires
        cache.needs_update.contains(id),
    ensures
        settle_all(cache, settled).needs_update.contains(id),
    decreases settled.len(),
{
    if settled.len() > 0 {
        lemma_settling_keeps_stale_flags(cache, settled.drop_last(), id);
    }
}

/// Every order that an accepted new order, cancellation or withdrawal
/// touched is stale afterwards, whatever was settled after it.
pub proof fn lemma_accepted_orders_are_stale(
    cache: OrderCacheState,
    settled: Seq<(PredictionMarketState, bool)>,
    i: int,
    order: OrderIdClientSide,
)
    requires
        0 <= i < settled.len(),
        settled[i].1,
        settled[i].0.effect(true) matches CacheEffectView::MarkStale(orders) && orders.contains(order),
    ensures
        settle_all(cache, settled).needs_update.contains(order.0),
    decreases settled.len(),
{
    let earlier = settled.drop_last();
    if i == settled.len() - 1 {
        assert(settled.last() == settled[i]);
        assert(OrderIdClientSide(order.0) == order);
    } else {
        assert(earlier[i] == settled[i]);
        lemma_accepted_orders_are_stale(cache, earlier, i, order);
    }
}

/// Every order that an accepted new order, cancellation or withdrawal
/// touched is fetched in the next round of reconciliation, whatever was
/// settled after it and whatever the round is narrowed to.
pub proof fn lemma_accepted_orders_are_sync_candidates(
    cache: OrderCacheState,
    settled: Seq<(PredictionMarketState, bool)>,
    i: int,
    order: OrderIdClientSide,
    sync_possible_payouts: bool,
    market: Option<OutPoint>,
    outcome: Option<Outcome>,
)
    requires
        0 <= i < settled.len(),
        settled[i].1,
        settled[i].0.effect(true) matches CacheEffectView::MarkStale(orders) && orders.contains(order),
    ensures
        settle_all(cache, settled).is_sync_candidate(sync_possible_payouts, market, outcome, order.0),
{
    lemma_accepted_orders_are_stale(cache, settled, i, order);
}

/// The changes that a round reports are those of the fetched ids for which
/// the federation holds an order that the cache did not hold and that the
/// caller asked for, each with the federation's order.
pub proof fn lemma_reported_changes(
    cache: OrderCacheState,
    fetched: Seq<Fetched>,
    federation: Map<u64, Order>,
    market: Option<OutPoint>,
    outcome: Option<Outcome>,
    id: u64,
)
    requires
        answers_from(fetched, federation),
    ensures
        cache.reported_changes(fetched, market, outcome).contains_key(id) <==> was_fetched(fetched, id)
            && cache.reports_change(id, answer_of(federation, id), market, outcome),
        cache.reported_changes(fetched, market, outcome).contains_key(id) ==> cache.reported_changes(
            fetched,
            market,
            outcome,
        )[id] == federation[id],
    decreases fetched.len(),
{
    if fetched.len() == 0 {
    } else {
        let earlier = fetched.drop_last();
        let last = fetched.last();
        assert forall|i: int| 0 <= i < earlier.len() implies (#[trigger] earlier[i]).1 == answer_of(
            federation,
            earlier[i].0.0,
        ) by {
            assert(earlier[i] == fetched[i]);
        }
        lemma_reported_changes(cache, earlier, federation, market, outcome, id);
        lemma_reconcile_all(cache, earlier, federation, last.0.0);
        assert(last == fetched[fetched.len() - 1]);
        if was_fetched(earlier, id) {
            let i = choose|i: int| 0 <= i < earlier.len() && (#[trigger] earlier[i]).0.0 == id;
            assert(fetched[i].0.0 == id);
        }
        if was_fetched(fetched, id) && last.0.0 != id {
            let i = choose|i: int| 0 <= i < fetched.len() && (#[trigger] fetched[i]).0.0 == id;
            assert(earlier[i].0.0 == id);
        }
    }
}

/// The order in which the answers of a round come in does not matter: two
/// rounds that fetch the same ids from the same federation state leave the
/// same cache and report the same changes.
pub proof fn lemma_sync_is_independent_of_answer_order(
    cache: OrderCacheState,
    first: Seq<Fetched>,
    second: Seq<Fetched>,
    federation: Map<u64, Order>,
    market: Option<OutPoint>,
    outcome: Option<Outcome>,
)
    requires
        answers_from(first, federation),
        answers_from(second, federation),
        forall|id: u64| was_fetched(first, id) <==> was_fetched(second, id),
    ensures
        cache.reconcile_all(first) == cache.reconcile_all(second),
        cache.reported_changes(first, market, outcome) == cache.reported_changes(second, market, outcome),
{
    let a = cache.reconcile_all(first);
    let b = cache.reconcile_all(second);
    assert forall|id: u64| #[trigger] a.slots.dom().contains(id) == b.slots.dom().contains(id) by {
        lemma_reconcile_all(cache, first, federation, id);
        lemma_reconcile_all(cache, second, federation, id);
    }
    assert forall|id: u64| a.slots.dom().contains(id) implies #[trigger] a.slots[id] == b.slots[id] by {
        lemma_reconcile_all(cache, first, federation, id);
        lemma_reconcile_all(cache, second, federation, id);
        if was_fetched(first, id) && federation.contains_key(id) {
            lemma_written_back(cache, first, federation, id);
            lemma_written_back(cache, second, federation, id);
        }
    }
    assert forall|id: u64| #[trigger] a.needs_update.contains(id) == b.needs_update.contains(id) by {
        lemma_reconcile_all(cache, first, federation, id);
        lemma_reconcile_all(cache, second, federation, id);
    }
    assert(a.slots =~= b.slots);
    assert(a.needs_update =~= b.needs_update);
    let ra = cache.reported_changes(first, market, outcome);
    let rb = cache.reported_changes(second, market, outcome);
    assert forall|id: u64| #[trigger] ra.dom().contains(id) == rb.dom().contains(id) by {
        lemma_reported_changes(cache, first, federation, market, outcome, id);
        lemma_reported_changes(cache, second, federation, market, outcome, id);
    }
    assert forall|id: u64| ra.dom().contains(id) implies #[trigger] ra[id] == rb[id] by {
        lemma_reported_changes(cache, first, federation, market, outcome, id);
        lemma_reported_changes(cache, second, federation, market, outcome, id);
    }
    assert(ra =~= rb);
}

/// A fetched id for which the federation holds an order has a slot with
/// that order after the round.
pub proof fn lemma_written_back(cache: OrderCacheState, fetched: Seq<Fetched>, federation: Map<u64, Order>, id: u64)
    requires
        answers_from(fetched, federation),
        was_fetched(fetched, id),
        federation.contains_key(id),
    ensures
        cache.reconcile_all(fetched).slots.contains_key(id),
        cache.reconcile_all(fetched).slots[id] == OrderIdSlot::Order(federation[id]),
{
    lemma_reconcile_all(cache, fetched, federation, id);
}

/// Reconciliation converges. Take any cache, settle any series of
/// transactions on it, and run a round that fetches every candidate. Then
/// every order that an accepted new order, cancellation or withdrawal touched,
/// and that the federation holds, is cached as the federation holds it; and
/// a further round against the same federation state changes nothing and
/// reports nothing.
pub proof fn lemma_sync_converges(
    cache: OrderCacheState,
    settled: Seq<(PredictionMarketState, bool)>,
    first: Seq<Fetched>,
    second: Seq<Fetched>,
    federation: Map<u64, Order>,
    sync_possible_payouts: bool,
    market: Option<OutPoint>,
    outcome: Option<Outcome>,
)
    requires
        answers_from(first, federation),
        answers_from(second, federation),
        forall|id: u64|
            settle_all(cache, settled).is_sync_candidate(sync_possible_payouts, market, outcome, id)
                ==> was_fetched(first, id),
        forall|i: int|
            0 <= i < second.len() ==> settle_all(cache, settled).reconcile_all(first).is_sync_candidate(
                sync_possible_payouts,
                market,
                outcome,
                (#[trigger] second[i]).0.0,
            ),
    ensures
        forall|i: int, order: OrderIdClientSide|
            #![trigger settled[i], federation.contains_key(order.0)]
            0 <= i < settled.len() && settled[i].1 && (settled[i].0.effect(true) matches CacheEffectView::MarkStale(
                orders,
            ) && orders.contains(order)) && federation.contains_key(order.0) ==> settle_all(
                cache,
                settled,
            ).reconcile_all(first).order(order.0) == Some(federation[order.0]),
        settle_all(cache, settled).reconcile_all(first).reconcile_all(second) == settle_all(
            cache,
            settled,
        ).reconcile_all(first),
        settle_all(cache, settled).reconcile_all(first).reported_changes(second, market, outcome) == Map::<
            u64,
            Order,
        >::empty(),
{
    let stale = settle_all(cache, settled);
    assert forall|i: int, order: OrderIdClientSide|
        #![trigger settled[i], federation.contains_key(order.0)]
        0 <= i < settled.len() && settled[i].1 && (settled[i].0.effect(true) matches CacheEffectView::MarkStale(orders)
            && orders.contains(order)) && federation.contains_key(order.0) implies stale.reconcile_all(first).order(
        order.0,
    ) == Some(federation[order.0]) by {
        lemma_accepted_orders_are_sync_candidates(cache, settled, i, order, sync_possible_payouts, market, outcome);
        lemma_sync_reaches_authoritative_state(stale, first, federation, sync_possible_payouts, market, outcome);
    }
    lemma_sync_reaches_fixed_point(stale, first, second, federation, sync_possible_payouts, market, outcome);
}

} // verus!
