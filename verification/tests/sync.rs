use fedimint_prediction_markets_client::cache::OrderCache;
use fedimint_prediction_markets_client::sync::order_is_reported;
use fedimint_prediction_markets_client::states::PredictionMarketState;
use fedimint_prediction_markets_client::states::PredictionMarketsStateMachine;
use fedimint_prediction_markets_client::types::Amount;
use fedimint_prediction_markets_client::types::ContractOfOutcomeAmount;
use fedimint_prediction_markets_client::types::Identity;
use fedimint_prediction_markets_client::types::OperationId;
use fedimint_prediction_markets_client::types::Order;
use fedimint_prediction_markets_client::types::OrderIdClientSide;
use fedimint_prediction_markets_client::types::OutPoint;
use fedimint_prediction_markets_client::types::Side;
use fedimint_prediction_markets_client::types::TransactionId;

fn sync_market(byte: u8) -> OutPoint {
    OutPoint { txid: TransactionId([byte; 32]), out_idx: 0 }
}

fn sync_order(market: u8, outcome: u8, waiting: u64, balance: u64, bitcoin: u64) -> Order {
    Order {
        owner: Identity([2; 33]),
        market: sync_market(market),
        outcome,
        side: Side::Buy,
        price: Amount { msats: 10 },
        quantity_waiting_for_match: ContractOfOutcomeAmount(waiting),
        contract_of_outcome_balance: ContractOfOutcomeAmount(balance),
        bitcoin_balance: Amount { msats: bitcoin },
    }
}

fn sync_ids(ids: &[u64]) -> Vec<OrderIdClientSide> {
    ids.iter().map(|id| OrderIdClientSide(*id)).collect()
}

fn sync_federation(id: u64) -> Option<Order> {
    match id {
        0 => Some(sync_order(1, 0, 0, 4, 0)),
        1 => Some(sync_order(1, 0, 2, 1, 0)),
        2 => Some(sync_order(1, 1, 0, 0, 900)),
        3 => Some(sync_order(2, 0, 5, 0, 0)),
        _ => None,
    }
}

fn sync_fetch(ids: &[OrderIdClientSide]) -> Vec<(OrderIdClientSide, Option<Order>)> {
    ids.iter().map(|id| (*id, sync_federation(id.0))).collect()
}

fn sync_stale_cache() -> OrderCache {
    let mut cache = OrderCache::new();
    cache.save_order(OrderIdClientSide(0), &sync_order(1, 0, 4, 0, 0));
    cache.save_order(OrderIdClientSide(1), &sync_order(1, 0, 3, 0, 0));
    cache.save_order(OrderIdClientSide(2), &sync_order(1, 1, 0, 6, 0));
    cache.save_order(OrderIdClientSide(3), &sync_order(2, 0, 5, 0, 0));
    cache.save_order(OrderIdClientSide(4), &sync_order(2, 0, 0, 0, 0));
    cache
}

#[test]
fn sync_candidates_are_stale_orders_and_orders_waiting_for_a_match() {
    let mut cache = sync_stale_cache();
    cache.set_order_needs_update(&sync_ids(&[4, 17]));
    assert_eq!(cache.sync_candidates(false, &None, &None), sync_ids(&[0, 1, 3, 4, 17]));
}

#[test]
fn sync_candidates_include_held_contracts_when_payouts_are_looked_for() {
    let cache = sync_stale_cache();
    assert_eq!(cache.sync_candidates(false, &None, &None), sync_ids(&[0, 1, 3]));
    assert_eq!(cache.sync_candidates(true, &None, &None), sync_ids(&[0, 1, 2, 3]));
}

#[test]
fn sync_candidates_are_narrowed_by_market_but_stale_orders_stay() {
    let mut cache = sync_stale_cache();
    cache.set_order_needs_update(&sync_ids(&[1]));
    assert_eq!(cache.sync_candidates(true, &Some(sync_market(2)), &None), sync_ids(&[1, 3]));
    assert_eq!(cache.sync_candidates(true, &Some(sync_market(1)), &Some(1)), sync_ids(&[1, 2]));
}

#[test]
fn sync_writes_back_and_reports_changed_orders() {
    let mut cache = sync_stale_cache();
    let candidates = cache.sync_candidates(true, &None, &None);
    let changed = cache.sync_orders(&sync_fetch(&candidates), &None, &None);
    assert_eq!(changed.len(), 3);
    assert_eq!(changed.get(0), Some(&sync_order(1, 0, 0, 4, 0)));
    assert_eq!(changed.get(1), Some(&sync_order(1, 0, 2, 1, 0)));
    assert_eq!(changed.get(2), Some(&sync_order(1, 1, 0, 0, 900)));
    assert_eq!(changed.get(3), None);
    for id in 0..4 {
        assert_eq!(cache.get_order(OrderIdClientSide(id)), sync_federation(id));
    }
}

#[test]
fn sync_report_is_filtered_by_the_federations_record() {
    let mut cache = sync_stale_cache();
    let candidates = cache.sync_candidates(true, &None, &None);
    let changed = cache.sync_orders(&sync_fetch(&candidates), &Some(sync_market(1)), &Some(0));
    assert_eq!(changed.len(), 2);
    assert!(changed.get(0).is_some());
    assert!(changed.get(1).is_some());
    // What is not reported is written back all the same.
    assert_eq!(cache.get_order(OrderIdClientSide(2)), sync_federation(2));
}

#[test]
fn sync_report_outcome_filter_works_without_market() {
    let mut cache = sync_stale_cache();
    let candidates = cache.sync_candidates(true, &None, &None);
    let changed = cache.sync_orders(&sync_fetch(&candidates), &None, &Some(1));
    assert_eq!(changed.len(), 1);
    assert_eq!(changed.get(2), Some(&sync_order(1, 1, 0, 0, 900)));
}

#[test]
fn sync_second_round_changes_nothing() {
    let mut cache = sync_stale_cache();
    cache.set_order_needs_update(&sync_ids(&[2, 30]));
    let first = cache.sync_candidates(true, &None, &None);
    cache.sync_orders(&sync_fetch(&first), &None, &None);
    let second = cache.sync_candidates(true, &None, &None);
    let snapshot: Vec<Option<Order>> = (0..6).map(|id| cache.get_order(OrderIdClientSide(id))).collect();
    let stale = cache.stale_order_ids();
    let changed = cache.sync_orders(&sync_fetch(&second), &None, &None);
    assert_eq!(changed.len(), 0);
    let after: Vec<Option<Order>> = (0..6).map(|id| cache.get_order(OrderIdClientSide(id))).collect();
    assert_eq!(after, snapshot);
    assert_eq!(cache.stale_order_ids(), stale);
    assert_eq!(cache.sync_candidates(true, &None, &None), second);
}

#[test]
fn sync_result_does_not_depend_on_the_order_of_answers() {
    let mut forward = sync_stale_cache();
    let mut backward = sync_stale_cache();
    let candidates = forward.sync_candidates(true, &None, &None);
    let mut answers = sync_fetch(&candidates);
    let changed_forward = forward.sync_orders(&answers, &None, &None);
    answers.reverse();
    let changed_backward = backward.sync_orders(&answers, &None, &None);
    assert_eq!(changed_forward.len(), changed_backward.len());
    for id in 0..5 {
        assert_eq!(forward.get_order(OrderIdClientSide(id)), backward.get_order(OrderIdClientSide(id)));
        assert_eq!(changed_forward.get(id), changed_backward.get(id));
    }
}

#[test]
fn sync_after_accepted_operations_reaches_the_federations_state() {
    let mut cache = OrderCache::new();
    // Orders 0 and 1 exist, order 1 holds contracts; a sell order 2 is placed from them.
    cache.save_order(OrderIdClientSide(0), &sync_order(1, 0, 0, 0, 0));
    cache.save_order(OrderIdClientSide(1), &sync_order(1, 0, 0, 0, 0));
    cache.reserve_order_id(OrderIdClientSide(2));
    let operation_id = OperationId([7; 32]);
    let placed = PredictionMarketsStateMachine::new_order(
        operation_id,
        TransactionId([1; 32]),
        OrderIdClientSide(2),
        sync_ids(&[0, 1]),
    );
    let cancelled =
        PredictionMarketsStateMachine::cancel_order(operation_id, TransactionId([2; 32]), OrderIdClientSide(3));
    let withdrawn = PredictionMarketsStateMachine::consume_order_bitcoin_balance(
        operation_id,
        TransactionId([3; 32]),
        OrderIdClientSide(1),
    );
    let accepted: Result<(), String> = Ok(());
    assert_eq!(placed.settle_on(&mut cache, &accepted).state, PredictionMarketState::NewOrderAccepted);
    assert_eq!(cancelled.settle_on(&mut cache, &accepted).state, PredictionMarketState::CancelOrderAccepted);
    assert_eq!(
        withdrawn.settle_on(&mut cache, &accepted).state,
        PredictionMarketState::ConsumeOrderBitcoinBalanceAccepted
    );
    let candidates = cache.sync_candidates(false, &None, &None);
    assert_eq!(candidates, sync_ids(&[0, 1, 2, 3]));
    let changed = cache.sync_orders(&sync_fetch(&candidates), &None, &None);
    assert_eq!(changed.len(), 4);
    for id in 0..4 {
        assert_eq!(cache.get_order(OrderIdClientSide(id)), sync_federation(id));
        assert!(!cache.order_needs_update(OrderIdClientSide(id)));
    }
    let again = cache.sync_candidates(false, &None, &None);
    assert_eq!(cache.sync_orders(&sync_fetch(&again), &None, &None).len(), 0);
}

#[test]
fn sync_answer_without_order_writes_nothing() {
    let mut cache = sync_stale_cache();
    cache.set_order_needs_update(&sync_ids(&[4]));
    let changed = cache.apply_authoritative(OrderIdClientSide(4), &None, &None, &None);
    assert_eq!(changed, None);
    assert_eq!(cache.get_order(OrderIdClientSide(4)), Some(sync_order(2, 0, 0, 0, 0)));
    assert!(cache.order_needs_update(OrderIdClientSide(4)));
}

#[test]
fn sync_answer_for_reserved_slot_fills_it() {
    let mut cache = OrderCache::new();
    cache.reserve_order_id(OrderIdClientSide(0));
    cache.set_order_needs_update(&sync_ids(&[0]));
    let changed = cache.apply_authoritative(OrderIdClientSide(0), &sync_federation(0), &None, &None);
    assert_eq!(changed, sync_federation(0));
    assert_eq!(cache.get_order(OrderIdClientSide(0)), sync_federation(0));
    assert!(!cache.order_needs_update(OrderIdClientSide(0)));
}

#[test]
fn sync_answer_equal_to_cache_is_not_reported_but_clears_the_flag() {
    let mut cache = sync_stale_cache();
    cache.set_order_needs_update(&sync_ids(&[3]));
    let changed = cache.apply_authoritative(OrderIdClientSide(3), &sync_federation(3), &None, &None);
    assert_eq!(changed, None);
    assert!(!cache.order_needs_update(OrderIdClientSide(3)));
}

#[test]
fn report_filter_looks_at_market_and_outcome_separately() {
    let order = sync_order(1, 2, 0, 0, 0);
    assert!(order_is_reported(&order, &None, &None));
    assert!(order_is_reported(&order, &None, &Some(2)));
    assert!(!order_is_reported(&order, &None, &Some(3)));
    assert!(order_is_reported(&order, &Some(sync_market(1)), &None));
    assert!(!order_is_reported(&order, &Some(sync_market(2)), &None));
    assert!(order_is_reported(&order, &Some(sync_market(1)), &Some(2)));
    assert!(!order_is_reported(&order, &Some(sync_market(1)), &Some(0)));
}
