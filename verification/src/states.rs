//! Tracking of submitted transactions.
//!
//! Every submitted transaction gets one state machine. It waits for the
//! federation to accept or reject the transaction, moves to the matching final
//! state, and says what the local cache owes to that: orders to flag as stale,
//! or an order id to give back. A final state waits for nothing and changes
//! nothing, so a notification that arrives twice is harmless.
use crate::cache::OrderCache;
use crate::cache::OrderCacheState;
use crate::types::OperationId;
use crate::types::OrderIdClientSide;
use crate::types::TransactionId;
use vstd::prelude::*;

verus! {

/// Tracks a transaction.
#[derive(Debug, Clone, PartialEq, Eq, Hash)]
pub struct PredictionMarketsStateMachine {
    pub operation_id: OperationId,
    pub state: PredictionMarketState,
}

/// Where a tracked transaction stands. Each kind of operation has a state in
/// which its transaction is awaited, and two final states.
#[derive(Debug, Clone, PartialEq, Eq, Hash)]
pub enum PredictionMarketState {
    NewMarket { tx_id: TransactionId },
    NewMarketAccepted,
    NewMarketFailed,
    ProposePayout { tx_id: TransactionId },
    ProposePayoutAccepted,
    ProposePayoutFailed,
    NewOrder { tx_id: TransactionId, order: OrderIdClientSide, sources: Vec<OrderIdClientSide> },
    NewOrderAccepted,
    NewOrderFailed,
    CancelOrder { tx_id: TransactionId, order: OrderIdClientSide },
    CancelOrderAccepted,
    CancelOrderFailed,
    ConsumeOrderBitcoinBalance { tx_id: TransactionId, order: OrderIdClientSide },
    ConsumeOrderBitcoinBalanceAccepted,
    ConsumeOrderBitcoinBalanceFailed,
    ConsumePayoutControlBitcoinBalance { tx_id: TransactionId },
    ConsumePayoutControlBitcoinBalanceAccepted,
    ConsumePayoutControlBitcoinBalanceFailed,
}

/// What a settled transaction asks of the order cache.
#[derive(Debug, Clone, PartialEq, Eq, Hash)]
pub enum CacheEffect {
    /// The cache stays as it is.
    Nothing,
    /// The records of these orders are out of date.
    MarkStale(Vec<OrderIdClientSide>),
    /// The id reserved for this order is free again.
    ReleaseOrderId(OrderIdClientSide),
}

/// A cache effect as a mathematical value.
pub enum CacheEffectView {
    Nothing,
    MarkStale(Seq<OrderIdClientSide>),
    ReleaseOrderId(OrderIdClientSide),
}

impl View for CacheEffect {
    type V = CacheEffectView;

    open spec fn view(&self) -> CacheEffectView {
        match self {
            CacheEffect::Nothing => CacheEffectView::Nothing,
            CacheEffect::MarkStale(orders) => CacheEffectView::MarkStale(orders@),
            CacheEffect::ReleaseOrderId(order) => CacheEffectView::ReleaseOrderId(*order),
        }
    }
}

impl PredictionMarketState {
    /// The transaction that the state waits for. A final state waits for none.
    pub open spec fn awaited(self) -> Option<TransactionId> {
        match self {
            PredictionMarketState::NewMarket { tx_id } => Some(tx_id),
            PredictionMarketState::ProposePayout { tx_id } => Some(tx_id),
            PredictionMarketState::NewOrder { tx_id, .. } => Some(tx_id),
            PredictionMarketState::CancelOrder { tx_id, .. } => Some(tx_id),
            PredictionMarketState::ConsumeOrderBitcoinBalance { tx_id, .. } => Some(tx_id),
            PredictionMarketState::ConsumePayoutControlBitcoinBalance { tx_id } => Some(tx_id),
            _ => None,
        }
    }

    /// The state is final: accepted or failed.
    pub open spec fn is_final(self) -> bool {
        self.awaited() is None
    }

    /// The state that follows once the federation has accepted or rejected
    /// the transaction. A final state stays.
    pub open spec fn settled(self, accepted: bool) -> PredictionMarketState {
        match self {
            PredictionMarketState::NewMarket { .. } => if accepted {
                PredictionMarketState::NewMarketAccepted
            } else {
                PredictionMarketState::NewMarketFailed
            },
            PredictionMarketState::ProposePayout { .. } => if accepted {
                PredictionMarketState::ProposePayoutAccepted
            } else {
                PredictionMarketState::ProposePayoutFailed
            },
            PredictionMarketState::NewOrder { .. } => if accepted {
                PredictionMarketState::NewOrderAccepted
            } else {
                PredictionMarketState::NewOrderFailed
            },
            PredictionMarketState::CancelOrder { .. } => if accepted {
                PredictionMarketState::CancelOrderAccepted
            } else {
                PredictionMarketState::CancelOrderFailed
            },
            PredictionMarketState::ConsumeOrderBitcoinBalance { .. } => if accepted {
                PredictionMarketState::ConsumeOrderBitcoinBalanceAccepted
            } else {
                PredictionMarketState::ConsumeOrderBitcoinBalanceFailed
            },
            PredictionMarketState::ConsumePayoutControlBitcoinBalance { .. } => if accepted {
                PredictionMarketState::ConsumePayoutControlBitcoinBalanceAccepted
            } else {
                PredictionMarketState::ConsumePayoutControlBitcoinBalanceFailed
            },
            _ => self,
        }
    }

    /// What the order cache owes to the settlement. An accepted new order
    /// makes the order and all its sources stale, a rejected one frees its id;
    /// an accepted cancellation or withdrawal makes its order stale. Nothing
    /// else touches the cache.
    pub open spec fn effect(self, accepted: bool) -> CacheEffectView {
        match self {
            PredictionMarketState::NewOrder { order, sources, .. } => if accepted {
                CacheEffectView::MarkStale(seq![order] + sources@)
            } else {
                CacheEffectView::ReleaseOrderId(order)
            },
            PredictionMarketState::CancelOrder { order, .. } => if accepted {
                CacheEffectView::MarkStale(seq![order])
            } else {
                CacheEffectView::Nothing
            },
            PredictionMarketState::ConsumeOrderBitcoinBalance { order, .. } => if accepted {
                CacheEffectView::MarkStale(seq![order])
            } else {
                CacheEffectView::Nothing
            },
            _ => CacheEffectView::Nothing,
        }
    }

    /// The transaction that the state waits for, if it waits for one.
    pub fn awaited_transaction(&self) -> (r: Option<TransactionId>)
        ensures
            r == self.awaited(),
    {
        match self {
            PredictionMarketState::NewMarket { tx_id } => Some(*tx_id),
            PredictionMarketState::ProposePayout { tx_id } => Some(*tx_id),
            PredictionMarketState::NewOrder { tx_id, .. } => Some(*tx_id),
            PredictionMarketState::CancelOrder { tx_id, .. } => Some(*tx_id),
            PredictionMarketState::ConsumeOrderBitcoinBalance { tx_id, .. } => Some(*tx_id),
            PredictionMarketState::ConsumePayoutControlBitcoinBalance { tx_id } => Some(*tx_id),
            _ => None,
        }
    }
}

impl OrderCacheState {
    /// The cache after an effect was carried out on it.
    pub open spec fn apply(self, effect: CacheEffectView) -> OrderCacheState {
        match effect {
            CacheEffectView::Nothing => self,
            CacheEffectView::MarkStale(orders) => self.mark_stale(orders),
            CacheEffectView::ReleaseOrderId(order) => self.release(order.0),
        }
    }
}

impl OrderCache {
    /// Carries out what a settled transaction asks of the cache.
    pub fn apply_effect(&mut self, effect: &CacheEffect)
        requires
            old(self).wf(),
        ensures
            final(self).wf(),
            final(self)@ == old(self)@.apply(effect@),
    {
        match effect {
            CacheEffect::Nothing => {},
            CacheEffect::MarkStale(orders) => {
                self.set_order_needs_update(orders);
            },
            CacheEffect::ReleaseOrderId(order) => {
                self.release_order_id(*order);
            },
        }
    }
}

/// The order followed by its sources.
fn order_and_sources(order: OrderIdClientSide, sources: &Vec<OrderIdClientSide>) -> (r: Vec<OrderIdClientSide>)
    ensures
        r@ == seq![order] + sources@,
{
    let mut changed_orders: Vec<OrderIdClientSide> = Vec::new();
    changed_orders.push(order);
    let mut i: usize = 0;
    while i < sources.len()
        invariant
            i <= sources.len(),
            changed_orders@ == seq![order] + sources@.subrange(0, i as int),
        decreases sources.len() - i,
    {
        changed_orders.push(sources[i]);
        assert(sources@.subrange(0, i + 1) == sources@.subrange(0, i as int).push(sources@[i as int]));
        i += 1;
    }
    assert(sources@.subrange(0, sources.len() as int) == sources@);
    changed_orders
}

impl PredictionMarketsStateMachine {
    /// The machine of a transaction that creates a market.
    pub fn new_market(operation_id: OperationId, tx_id: TransactionId) -> (machine: PredictionMarketsStateMachine)
        ensures
            machine.operation_id == operation_id,
            machine.state == (PredictionMarketState::NewMarket { tx_id }),
    {
        PredictionMarketsStateMachine { operation_id, state: PredictionMarketState::NewMarket { tx_id } }
    }

    /// The machine of a transaction that proposes a payout.
    pub fn propose_payout(operation_id: OperationId, tx_id: TransactionId) -> (machine:
        PredictionMarketsStateMachine)
        ensures
            machine.operation_id == operation_id,
            machine.state == (PredictionMarketState::ProposePayout { tx_id }),
    {
        PredictionMarketsStateMachine { operation_id, state: PredictionMarketState::ProposePayout { tx_id } }
    }

    /// The machine of a transaction that places `order`, drawing on `sources`.
    pub fn new_order(
        operation_id: OperationId,
        tx_id: TransactionId,
        order: OrderIdClientSide,
        sources: Vec<OrderIdClientSide>,
    ) -> (machine: PredictionMarketsStateMachine)
        ensures
            machine.operation_id == operation_id,
            machine.state == (PredictionMarketState::NewOrder { tx_id, order, sources }),
    {
        PredictionMarketsStateMachine { operation_id, state: PredictionMarketState::NewOrder { tx_id, order, sources } }
    }

    /// The machine of a transaction that cancels `order`.
    pub fn cancel_order(operation_id: OperationId, tx_id: TransactionId, order: OrderIdClientSide) -> (machine:
        PredictionMarketsStateMachine)
        ensures
            machine.operation_id == operation_id,
            machine.state == (PredictionMarketState::CancelOrder { tx_id, order }),
    {
        PredictionMarketsStateMachine { operation_id, state: PredictionMarketState::CancelOrder { tx_id, order } }
    }

    /// The machine of a transaction that withdraws the bitcoin of `order`.
    pub fn consume_order_bitcoin_balance(
        operation_id: OperationId,
        tx_id: TransactionId,
        order: OrderIdClientSide,
    ) -> (machine: PredictionMarketsStateMachine)
        ensures
            machine.operation_id == operation_id,
            machine.state == (PredictionMarketState::ConsumeOrderBitcoinBalance { tx_id, order }),
    {
        PredictionMarketsStateMachine {
            operation_id,
            state: PredictionMarketState::ConsumeOrderBitcoinBalance { tx_id, order },
        }
    }

    /// The machine of a transaction that withdraws the bitcoin of the payout control.
    pub fn consume_payout_control_bitcoin_balance(operation_id: OperationId, tx_id: TransactionId) -> (machine:
        PredictionMarketsStateMachine)
        ensures
            machine.operation_id == operation_id,
            machine.state == (PredictionMarketState::ConsumePayoutControlBitcoinBalance { tx_id }),
    {
        PredictionMarketsStateMachine {
            operation_id,
            state: PredictionMarketState::ConsumePayoutControlBitcoinBalance { tx_id },
        }
    }

    /// The operation that submitted the transaction.
    pub fn operation_id(&self) -> (r: OperationId)
        ensures
            r == self.operation_id,
    {
        self.operation_id
    }

    /// The notifications that the machine waits for: the settlement of its
    /// transaction while that is open, none in a final state.
    pub fn transitions(&self) -> (r: Vec<TransactionId>)
        ensures
            r@ == match self.state.awaited() {
                Some(tx_id) => seq![tx_id],
                None => Seq::<TransactionId>::empty(),
            },
    {
        let mut awaited: Vec<TransactionId> = Vec::new();
        match self.state.awaited_transaction() {
            Some(tx_id) => {
                awaited.push(tx_id);
            },
            None => {},
        }
        awaited
    }

    /// Takes the federation's verdict on the transaction: `Ok` when it was
    /// accepted, `Err` with the reason when it was rejected. Returns the
    /// machine in its next state and what the cache owes to the step.
    pub fn settle(&self, verdict: &Result<(), String>) -> (r: (PredictionMarketsStateMachine, CacheEffect))
        ensures
            r.0.operation_id == self.operation_id,
            r.0.state == self.state.settled(verdict is Ok),
            r.1@ == self.state.effect(verdict is Ok),
    {
        let accepted = verdict.is_ok();
        let operation_id = self.operation_id;
        let (state, effect) = match &self.state {
            PredictionMarketState::NewMarket { .. } => {
                if accepted {
                    (PredictionMarketState::NewMarketAccepted, CacheEffect::Nothing)
                } else {
                    (PredictionMarketState::NewMarketFailed, CacheEffect::Nothing)
                }
            },
            PredictionMarketState::NewMarketAccepted => (PredictionMarketState::NewMarketAccepted, CacheEffect::Nothing),
            PredictionMarketState::NewMarketFailed => (PredictionMarketState::NewMarketFailed, CacheEffect::Nothing),
            PredictionMarketState::ProposePayout { .. } => {
                if accepted {
                    (PredictionMarketState::ProposePayoutAccepted, CacheEffect::Nothing)
                } else {
                    (PredictionMarketState::ProposePayoutFailed, CacheEffect::Nothing)
                }
            },
            PredictionMarketState::ProposePayoutAccepted => (
                PredictionMarketState::ProposePayoutAccepted,
                CacheEffect::Nothing,
            ),
            PredictionMarketState::ProposePayoutFailed => (
                PredictionMarketState::ProposePayoutFailed,
                CacheEffect::Nothing,
            ),
            PredictionMarketState::NewOrder { order, sources, .. } => {
                if accepted {
                    (
                        PredictionMarketState::NewOrderAccepted,
                        CacheEffect::MarkStale(order_and_sources(*order, sources)),
                    )
                } else {
                    (PredictionMarketState::NewOrderFailed, CacheEffect::ReleaseOrderId(*order))
                }
            },
            PredictionMarketState::NewOrderAccepted => (PredictionMarketState::NewOrderAccepted, CacheEffect::Nothing),
            PredictionMarketState::NewOrderFailed => (PredictionMarketState::NewOrderFailed, CacheEffect::Nothing),
            PredictionMarketState::CancelOrder { order, .. } => {
                if accepted {
                    let mut changed_orders: Vec<OrderIdClientSide> = Vec::new();
                    changed_orders.push(*order);
                    (PredictionMarketState::CancelOrderAccepted, CacheEffect::MarkStale(changed_orders))
                } else {
                    (PredictionMarketState::CancelOrderFailed, CacheEffect::Nothing)
                }
            },
            PredictionMarketState::CancelOrderAccepted => (
                PredictionMarketState::CancelOrderAccepted,
                CacheEffect::Nothing,
            ),
            PredictionMarketState::CancelOrderFailed => (PredictionMarketState::CancelOrderFailed, CacheEffect::Nothing),
            PredictionMarketState::ConsumeOrderBitcoinBalance { order, .. } => {
                if accepted {
                    let mut changed_orders: Vec<OrderIdClientSide> = Vec::new();
                    changed_orders.push(*order);
                    (
                        PredictionMarketState::ConsumeOrderBitcoinBalanceAccepted,
                        CacheEffect::MarkStale(changed_orders),
                    )
                } else {
                    (PredictionMarketState::ConsumeOrderBitcoinBalanceFailed, CacheEffect::Nothing)
                }
            },
            PredictionMarketState::ConsumeOrderBitcoinBalanceAccepted => (
                PredictionMarketState::ConsumeOrderBitcoinBalanceAccepted,
                CacheEffect::Nothing,
            ),
            PredictionMarketState::ConsumeOrderBitcoinBalanceFailed => (
                PredictionMarketState::ConsumeOrderBitcoinBalanceFailed,
                CacheEffect::Nothing,
            ),
            PredictionMarketState::ConsumePayoutControlBitcoinBalance { .. } => {
                if accepted {
                    (PredictionMarketState::ConsumePayoutControlBitcoinBalanceAccepted, CacheEffect::Nothing)
                } else {
                    (PredictionMarketState::ConsumePayoutControlBitcoinBalanceFailed, CacheEffect::Nothing)
                }
            },
            PredictionMarketState::ConsumePayoutControlBitcoinBalanceAccepted => (
                PredictionMarketState::ConsumePayoutControlBitcoinBalanceAccepted,
                CacheEffect::Nothing,
            ),
            PredictionMarketState::ConsumePayoutControlBitcoinBalanceFailed => (
                PredictionMarketState::ConsumePayoutControlBitcoinBalanceFailed,
                CacheEffect::Nothing,
            ),
        };
        (PredictionMarketsStateMachine { operation_id, state }, effect)
    }

    /// Takes the federation's verdict, carries its effect out on the cache
    /// and returns the machine in its next state.
    pub fn settle_on(&self, cache: &mut OrderCache, verdict: &Result<(), String>) -> (next:
        PredictionMarketsStateMachine)
        requires
            old(cache).wf(),
        ensures
            final(cache).wf(),
            next.operation_id == self.operation_id,
            next.state == self.state.settled(verdict is Ok),
            final(cache)@ == old(cache)@.apply(self.state.effect(verdict is Ok)),
    {
        let (next, effect) = self.settle(verdict);
        cache.apply_effect(&effect);
        next
    }
}

/// A settled state is final, whatever the verdict was.
pub proof fn lemma_settled_is_final(state: PredictionMarketState, accepted: bool)
    ensures
        state.settled(accepted).is_final(),
        state.is_final() ==> state.settled(accepted) == state && state.effect(accepted)
            == CacheEffectView::Nothing,
{
}

/// A verdict that arrives a second time changes nothing: the machine stays in
/// the state that the first one led to, no order is flagged again and no id
/// is released again, whether or not the two verdicts agree.
pub proof fn lemma_replayed_verdict_is_ignored(
    cache: OrderCacheState,
    state: PredictionMarketState,
    first: bool,
    second: bool,
)
    ensures
        state.settled(first).settled(second) == state.settled(first),
        state.settled(first).effect(second) == CacheEffectView::Nothing,
        cache.apply(state.effect(first)).apply(state.settled(first).effect(second)) == cache.apply(
            state.effect(first),
        ),
{
}

} // verus!
