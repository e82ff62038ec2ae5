use fedimint_prediction_markets_client::markets::group_by_creation;
use fedimint_prediction_markets_client::markets::MarketCache;
use fedimint_prediction_markets_client::markets::MarketLookup;
use fedimint_prediction_markets_client::markets::PayoutControlMarkets;
use fedimint_prediction_markets_client::transaction::Market;
use fedimint_prediction_markets_client::transaction::MarketInformation;
use fedimint_prediction_markets_client::types::Amount;
use fedimint_prediction_markets_client::types::Identity;
use fedimint_prediction_markets_client::types::OutPoint;
use fedimint_prediction_markets_client::types::TransactionId;
use fedimint_prediction_markets_client::types::UnixTimestamp;

fn markets_outpoint(byte: u8) -> OutPoint {
    OutPoint { txid: TransactionId([byte; 32]), out_idx: 0 }
}

fn markets_market(title: &str, payout: Option<Vec<Amount>>) -> Market {
    Market {
        contract_price: Amount { msats: 1000 },
        outcomes: 2,
        payout_control_weights: vec![(Identity([2; 33]), 1)],
        weight_required_for_payout: 1,
        payout_controls_fee_per_contract: Amount { msats: 0 },
        information: MarketInformation {
            title: String::from(title),
            description: String::new(),
            outcome_titles: vec![String::from("yes"), String::from("no")],
            expected_payout_timestamp: UnixTimestamp(100),
        },
        created_consensus_timestamp: UnixTimestamp(50),
        payout,
    }
}

fn markets_created(entries: &[(u64, u8)]) -> Vec<(UnixTimestamp, OutPoint)> {
    entries.iter().map(|(t, m)| (UnixTimestamp(*t), markets_outpoint(*m))).collect()
}

#[test]
fn unknown_market_is_fetched_unless_cache_alone_is_asked() {
    let cache = MarketCache::new();
    assert!(matches!(cache.get_market(&markets_outpoint(1), true), MarketLookup::Cached(None)));
    assert!(matches!(cache.get_market(&markets_outpoint(1), false), MarketLookup::Fetch));
}

#[test]
fn open_market_is_fetched_again() {
    let mut cache = MarketCache::new();
    cache.record_market(markets_outpoint(1), Some(markets_market("open", None)));
    assert!(matches!(cache.get_market(&markets_outpoint(1), false), MarketLookup::Fetch));
    match cache.get_market(&markets_outpoint(1), true) {
        MarketLookup::Cached(Some(market)) => assert_eq!(*market, markets_market("open", None)),
        _ => panic!("the market is in the cache"),
    }
}

#[test]
fn settled_market_is_answered_from_the_cache() {
    let mut cache = MarketCache::new();
    let settled = markets_market("settled", Some(vec![Amount { msats: 1000 }, Amount { msats: 0 }]));
    cache.record_market(markets_outpoint(1), Some(settled.clone()));
    match cache.get_market(&markets_outpoint(1), false) {
        MarketLookup::Cached(Some(market)) => assert_eq!(*market, settled),
        _ => panic!("a settled market is not fetched again"),
    }
}

#[test]
fn settled_market_record_is_never_replaced() {
    let mut cache = MarketCache::new();
    let settled = markets_market("settled", Some(vec![Amount { msats: 1000 }, Amount { msats: 0 }]));
    cache.record_market(markets_outpoint(1), Some(markets_market("open", None)));
    cache.record_market(markets_outpoint(1), Some(settled.clone()));
    cache.record_market(markets_outpoint(1), Some(markets_market("changed", None)));
    cache.record_market(markets_outpoint(1), Some(markets_market("changed", Some(vec![]))));
    match cache.get_market(&markets_outpoint(1), true) {
        MarketLookup::Cached(Some(market)) => assert_eq!(*market, settled),
        _ => panic!("the market is in the cache"),
    }
}

#[test]
fn market_that_does_not_exist_is_not_recorded() {
    let mut cache = MarketCache::new();
    cache.record_market(markets_outpoint(1), None);
    assert!(matches!(cache.get_market(&markets_outpoint(1), true), MarketLookup::Cached(None)));
    cache.record_market(markets_outpoint(1), Some(markets_market("open", None)));
    cache.record_market(markets_outpoint(1), None);
    assert!(matches!(cache.get_market(&markets_outpoint(1), true), MarketLookup::Cached(Some(_))));
}

#[test]
fn payout_control_markets_are_kept_newest_first() {
    let mut index = PayoutControlMarkets::new();
    assert_eq!(index.newest(), UnixTimestamp(0));
    index.insert(UnixTimestamp(20), markets_outpoint(1));
    index.insert(UnixTimestamp(40), markets_outpoint(2));
    index.insert(UnixTimestamp(10), markets_outpoint(3));
    index.insert(UnixTimestamp(40), markets_outpoint(4));
    index.insert(UnixTimestamp(20), markets_outpoint(1));
    assert_eq!(index.newest(), UnixTimestamp(40));
    assert_eq!(index.created_since(UnixTimestamp(0)), markets_created(&[(40, 2), (40, 4), (20, 1), (10, 3)]));
    assert!(index.contains(UnixTimestamp(20), &markets_outpoint(1)));
    assert!(!index.contains(UnixTimestamp(21), &markets_outpoint(1)));
}

#[test]
fn payout_control_markets_since_includes_the_bound() {
    let mut cache = MarketCache::new();
    assert_eq!(cache.newest_payout_control_market(), UnixTimestamp(0));
    for (created, market) in [(30u64, 1u8), (10, 2), (20, 3)] {
        cache.add_payout_control_market(UnixTimestamp(created), markets_outpoint(market));
    }
    assert_eq!(cache.newest_payout_control_market(), UnixTimestamp(30));
    assert_eq!(cache.get_client_payout_control_markets(UnixTimestamp(20)), markets_created(&[(30, 1), (20, 3)]));
    assert_eq!(cache.get_client_payout_control_markets(UnixTimestamp(21)), markets_created(&[(30, 1)]));
    assert_eq!(cache.get_client_payout_control_markets(UnixTimestamp(31)), markets_created(&[]));
    assert_eq!(cache.get_client_payout_control_markets(UnixTimestamp(0)).len(), 3);
}

#[test]
fn proposals_of_a_market_are_replaced_as_a_whole() {
    let mut cache = MarketCache::new();
    assert_eq!(cache.get_market_payout_control_proposals(&markets_outpoint(1)), None);
    let first = vec![(Identity([2; 33]), vec![Amount { msats: 1 }]), (Identity([3; 33]), vec![Amount { msats: 2 }])];
    cache.set_market_payout_control_proposals(markets_outpoint(1), first.clone());
    assert_eq!(cache.get_market_payout_control_proposals(&markets_outpoint(1)), Some(&first));
    let second = vec![(Identity([3; 33]), vec![Amount { msats: 9 }])];
    cache.set_market_payout_control_proposals(markets_outpoint(1), second.clone());
    assert_eq!(cache.get_market_payout_control_proposals(&markets_outpoint(1)), Some(&second));
    assert_eq!(cache.get_market_payout_control_proposals(&markets_outpoint(2)), None);
}

#[test]
fn markets_are_bookmarked_with_the_time() {
    let mut cache = MarketCache::new();
    cache.save_market(markets_outpoint(1), UnixTimestamp(100));
    cache.save_market(markets_outpoint(2), UnixTimestamp(200));
    cache.save_market(markets_outpoint(1), UnixTimestamp(300));
    let mut saved = cache.get_saved_markets();
    saved.sort_by_key(|(t, _)| t.0);
    assert_eq!(saved, markets_created(&[(200, 2), (300, 1)]));
    cache.unsave_market(&markets_outpoint(2));
    cache.unsave_market(&markets_outpoint(7));
    assert_eq!(cache.get_saved_markets(), markets_created(&[(300, 1)]));
}

#[test]
fn payout_controls_are_named() {
    let mut cache = MarketCache::new();
    let alice = Identity([2; 33]);
    let bob = Identity([3; 33]);
    assert_eq!(cache.get_payout_control_name(&alice), None);
    cache.assign_name_to_payout_control(alice, String::from("alice"));
    cache.assign_name_to_payout_control(bob, String::from("bob"));
    cache.assign_name_to_payout_control(alice, String::from("Alice"));
    assert_eq!(cache.get_payout_control_name(&alice), Some(&String::from("Alice")));
    assert_eq!(cache.get_payout_control_name_map().len(), 2);
    assert_eq!(cache.get_payout_control_name_map().get(&bob), Some(&String::from("bob")));
    cache.unassign_name_from_payout_control(&alice);
    assert_eq!(cache.get_payout_control_name(&alice), None);
    assert_eq!(cache.get_payout_control_name_map().len(), 1);
}

#[test]
fn markets_of_one_creation_time_are_grouped() {
    let listed = markets_created(&[(40, 2), (40, 4), (20, 1), (10, 3), (10, 5), (10, 6)]);
    assert_eq!(
        group_by_creation(&listed),
        vec![
            (UnixTimestamp(40), vec![markets_outpoint(2), markets_outpoint(4)]),
            (UnixTimestamp(20), vec![markets_outpoint(1)]),
            (UnixTimestamp(10), vec![markets_outpoint(3), markets_outpoint(5), markets_outpoint(6)]),
        ]
    );
    assert_eq!(group_by_creation(&vec![]), vec![]);
}

#[test]
fn cached_markets_and_proposals_can_be_listed() {
    let mut cache = MarketCache::new();
    cache.record_market(markets_outpoint(1), Some(markets_market("one", None)));
    cache.record_market(markets_outpoint(2), Some(markets_market("two", None)));
    cache.set_market_payout_control_proposals(markets_outpoint(2), vec![(Identity([2; 33]), vec![])]);
    assert_eq!(cache.markets().len(), 2);
    assert_eq!(cache.markets().get(&markets_outpoint(2)), Some(&markets_market("two", None)));
    assert_eq!(cache.proposals().len(), 1);
    assert_eq!(cache.proposals().key_at(0), &markets_outpoint(2));
}
