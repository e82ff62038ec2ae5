use fedimint_prediction_markets_client::candlesticks::candlesticks_query;
use fedimint_prediction_markets_client::candlesticks::get_candlesticks;
use fedimint_prediction_markets_client::candlesticks::Candlestick;
use fedimint_prediction_markets_client::candlesticks::GetMarketOutcomeCandlesticksParams;
use fedimint_prediction_markets_client::id_map::IdMap;
use fedimint_prediction_markets_client::keyed_list::KeyedList;
use fedimint_prediction_markets_client::types::bytes_equal;
use fedimint_prediction_markets_client::types::same_order_option;
use fedimint_prediction_markets_client::types::Amount;
use fedimint_prediction_markets_client::types::ContractOfOutcomeAmount;
use fedimint_prediction_markets_client::types::Identity;
use fedimint_prediction_markets_client::types::Order;
use fedimint_prediction_markets_client::types::OutPoint;
use fedimint_prediction_markets_client::types::Side;
use fedimint_prediction_markets_client::types::TransactionId;
use fedimint_prediction_markets_client::types::UnixTimestamp;

fn containers_candle(close: u64) -> Candlestick {
    Candlestick {
        open: Amount { msats: 1 },
        close: Amount { msats: close },
        high: Amount { msats: close + 1 },
        low: Amount { msats: 0 },
        volume: ContractOfOutcomeAmount(3),
    }
}

fn containers_order() -> Order {
    Order {
        owner: Identity([2; 33]),
        market: OutPoint { txid: TransactionId([1; 32]), out_idx: 0 },
        outcome: 1,
        side: Side::Sell,
        price: Amount { msats: 5 },
        quantity_waiting_for_match: ContractOfOutcomeAmount(1),
        contract_of_outcome_balance: ContractOfOutcomeAmount(2),
        bitcoin_balance: Amount { msats: 3 },
    }
}

#[test]
fn id_map_keeps_latest_value_in_id_order() {
    let mut m: IdMap<u32> = IdMap::new();
    assert_eq!(m.last_id(), None);
    m.insert(4, 1);
    m.insert(2, 7);
    m.insert(9, 3);
    m.insert(4, 9);
    assert_eq!(m.len(), 3);
    assert_eq!(m.get(4), Some(&9));
    assert_eq!(m.get(2), Some(&7));
    assert_eq!(m.get(3), None);
    assert!(m.contains(9));
    assert!(!m.contains(0));
    assert_eq!((m.id_at(0), m.id_at(1), m.id_at(2)), (2, 4, 9));
    assert_eq!((m.value_at(0), m.value_at(1), m.value_at(2)), (&7, &9, &3));
    assert_eq!(m.last_id(), Some(9));
}

#[test]
fn id_map_remove_takes_out_one_id() {
    let mut m: IdMap<u32> = IdMap::new();
    m.insert(1, 10);
    m.insert(2, 20);
    m.insert(3, 30);
    m.remove(2);
    m.remove(7);
    assert_eq!(m.len(), 2);
    assert_eq!(m.get(2), None);
    assert_eq!(m.get(1), Some(&10));
    assert_eq!(m.get(3), Some(&30));
    m.remove(3);
    assert_eq!(m.last_id(), Some(1));
}

#[test]
fn keyed_list_keeps_latest_value_per_key() {
    let mut m: KeyedList<Identity, u32> = KeyedList::new();
    m.insert(Identity([2; 33]), 1);
    m.insert(Identity([3; 33]), 2);
    m.insert(Identity([2; 33]), 3);
    assert_eq!(m.len(), 2);
    assert_eq!(m.get(&Identity([2; 33])), Some(&3));
    assert_eq!(m.get(&Identity([3; 33])), Some(&2));
    assert_eq!(m.get(&Identity([4; 33])), None);
    assert_eq!(m.key_at(0), &Identity([2; 33]));
    assert_eq!(m.value_at(1), &2);
    m.remove(&Identity([2; 33]));
    m.remove(&Identity([9; 33]));
    assert_eq!(m.len(), 1);
    assert_eq!(m.get(&Identity([2; 33])), None);
}

#[test]
fn candlesticks_are_ordered_by_interval_start() {
    let fetched = vec![
        (UnixTimestamp(120), containers_candle(5)),
        (UnixTimestamp(0), containers_candle(1)),
        (UnixTimestamp(60), containers_candle(3)),
    ];
    let ordered = get_candlesticks(&fetched);
    assert_eq!(ordered.len(), 3);
    assert_eq!((ordered.id_at(0), ordered.id_at(1), ordered.id_at(2)), (0, 60, 120));
    assert_eq!(ordered.get(60), Some(&containers_candle(3)));
    assert_eq!(ordered.get(61), None);
}

#[test]
fn later_candlestick_of_an_interval_stands() {
    let fetched = vec![
        (UnixTimestamp(60), containers_candle(3)),
        (UnixTimestamp(60), containers_candle(4)),
    ];
    let ordered = get_candlesticks(&fetched);
    assert_eq!(ordered.len(), 1);
    assert_eq!(ordered.get(60), Some(&containers_candle(4)));
    assert_eq!(get_candlesticks(&vec![]).len(), 0);
}

#[test]
fn candlestick_query_carries_its_arguments() {
    let market = OutPoint { txid: TransactionId([5; 32]), out_idx: 0 };
    assert_eq!(
        candlesticks_query(market, 1, 60, UnixTimestamp(1000)),
        GetMarketOutcomeCandlesticksParams {
            market,
            outcome: 1,
            candlestick_interval: 60,
            min_candlestick_timestamp: UnixTimestamp(1000),
        }
    );
}

#[test]
fn byte_arrays_are_compared_in_full() {
    let a = [7u8; 33];
    let mut b = [7u8; 33];
    assert!(bytes_equal(&a, &b));
    b[32] = 8;
    assert!(!bytes_equal(&a, &b));
    b[32] = 7;
    b[0] = 0;
    assert!(!bytes_equal(&a, &b));
}

#[test]
fn orders_are_compared_field_by_field() {
    let order = containers_order();
    assert!(order.same_as(&containers_order()));
    assert!(order.non_zero());
    let mut changed: Vec<Order> = Vec::new();
    changed.push(Order { owner: Identity([3; 33]), ..order });
    changed.push(Order { market: OutPoint { txid: TransactionId([1; 32]), out_idx: 1 }, ..order });
    changed.push(Order { market: OutPoint { txid: TransactionId([2; 32]), out_idx: 0 }, ..order });
    changed.push(Order { outcome: 0, ..order });
    changed.push(Order { side: Side::Buy, ..order });
    changed.push(Order { price: Amount { msats: 6 }, ..order });
    changed.push(Order { quantity_waiting_for_match: ContractOfOutcomeAmount(0), ..order });
    changed.push(Order { contract_of_outcome_balance: ContractOfOutcomeAmount(0), ..order });
    changed.push(Order { bitcoin_balance: Amount { msats: 0 }, ..order });
    for other in changed {
        assert!(!order.same_as(&other));
        assert!(!same_order_option(&Some(order), &Some(other)));
    }
    assert!(same_order_option(&Some(order), &Some(order)));
    assert!(same_order_option(&None, &None));
    assert!(!same_order_option(&Some(order), &None));
    assert!(!same_order_option(&None, &Some(order)));
}

#[test]
fn order_without_balances_is_not_live() {
    let empty = Order {
        quantity_waiting_for_match: ContractOfOutcomeAmount(0),
        contract_of_outcome_balance: ContractOfOutcomeAmount(0),
        bitcoin_balance: Amount { msats: 0 },
        ..containers_order()
    };
    assert!(!empty.non_zero());
    assert_eq!(Amount::zero(), Amount { msats: 0 });
}
