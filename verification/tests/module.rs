use fedimint_derive_secret::DerivableSecret;
use fedimint_prediction_markets_client::identity::order_id_to_key_pair;
use fedimint_prediction_markets_client::identity::order_identity;
use fedimint_prediction_markets_client::module::market_outpoint_from_tx_id;
use fedimint_prediction_markets_client::module::sum_balances;
use fedimint_prediction_markets_client::module::ApiVersion;
use fedimint_prediction_markets_client::module::NewOrderError;
use fedimint_prediction_markets_client::module::NewOrderItem;
use fedimint_prediction_markets_client::module::OrderBalance;
use fedimint_prediction_markets_client::sourcing::Source;
use fedimint_prediction_markets_client::transaction::MarketInformation;
use fedimint_prediction_markets_client::transaction::PredictionMarketsClientConfig;
use fedimint_prediction_markets_client::transaction::PredictionMarketsGeneralConsensus;
use fedimint_prediction_markets_client::transaction::PredictionMarketsInput;
use fedimint_prediction_markets_client::transaction::PredictionMarketsOutput;
use fedimint_prediction_markets_client::transaction::TransactionItemAmount;
use fedimint_prediction_markets_client::types::Amount;
use fedimint_prediction_markets_client::types::ContractOfOutcomeAmount;
use fedimint_prediction_markets_client::types::Identity;
use fedimint_prediction_markets_client::types::Order;
use fedimint_prediction_markets_client::types::OrderIdClientSide;
use fedimint_prediction_markets_client::types::OrderIdSlot;
use fedimint_prediction_markets_client::types::OutPoint;
use fedimint_prediction_markets_client::types::Side;
use fedimint_prediction_markets_client::types::TransactionId;
use fedimint_prediction_markets_client::types::UnixTimestamp;
use fedimint_prediction_markets_client::PredictionMarketsClientInit;
use fedimint_prediction_markets_client::PredictionMarketsClientModule;

fn module_root() -> DerivableSecret {
    DerivableSecret::new_root(b"module test root", b"salt")
}

fn module_config() -> PredictionMarketsClientConfig {
    PredictionMarketsClientConfig {
        gc: PredictionMarketsGeneralConsensus {
            new_market_fee: Amount { msats: 11 },
            new_order_fee: Amount { msats: 12 },
            payout_proposal_fee: Amount { msats: 13 },
            consume_order_bitcoin_balance_fee: Amount { msats: 14 },
            consume_payout_control_bitcoin_balance_fee: Amount { msats: 15 },
        },
    }
}

fn module_new() -> PredictionMarketsClientModule {
    PredictionMarketsClientInit.init(module_config(), module_root())
}

fn module_market(byte: u8) -> OutPoint {
    OutPoint { txid: TransactionId([byte; 32]), out_idx: 0 }
}

fn module_order(market: u8, outcome: u8, waiting: u64, balance: u64, bitcoin: u64) -> Order {
    Order {
        owner: Identity([2; 33]),
        market: module_market(market),
        outcome,
        side: Side::Buy,
        price: Amount { msats: 10 },
        quantity_waiting_for_match: ContractOfOutcomeAmount(waiting),
        contract_of_outcome_balance: ContractOfOutcomeAmount(balance),
        bitcoin_balance: Amount { msats: bitcoin },
    }
}

fn module_with_holdings() -> PredictionMarketsClientModule {
    let mut module = module_new();
    module.orders.save_order(OrderIdClientSide(0), &module_order(1, 0, 0, 3, 0));
    module.orders.save_order(OrderIdClientSide(1), &module_order(1, 0, 0, 5, 700));
    module.orders.save_order(OrderIdClientSide(2), &module_order(1, 0, 0, 2, 0));
    module.orders.save_order(OrderIdClientSide(3), &module_order(1, 1, 0, 50, 300));
    module
}

#[test]
fn init_builds_module_with_empty_caches() {
    let module = module_new();
    assert_eq!(module.cfg, module_config());
    assert_eq!(module.orders.order_ids(&None, &None), vec![]);
    assert_eq!(module.orders.stale_order_ids(), vec![]);
    assert_eq!(module.orders.next_order_id(), Some(OrderIdClientSide(0)));
    assert!(!module.supports_backup());
}

#[test]
fn supported_api_version_is_zero_zero() {
    assert_eq!(PredictionMarketsClientInit.supported_api_versions(), vec![ApiVersion { major: 0, minor: 0 }]);
}

#[test]
fn buy_order_reserves_next_id_and_builds_output() {
    let mut module = module_with_holdings();
    let plan = module
        .new_order(module_market(1), 0, Side::Buy, Amount { msats: 40 }, ContractOfOutcomeAmount(6))
        .ok()
        .unwrap();
    assert_eq!(plan.order, OrderIdClientSide(4));
    assert_eq!(plan.sources, vec![]);
    assert_eq!(plan.source_order_ids(), vec![]);
    match plan.item {
        NewOrderItem::Buy(output) => assert_eq!(
            output,
            PredictionMarketsOutput::NewBuyOrder {
                owner: order_identity(&module_root(), OrderIdClientSide(4)),
                market: module_market(1),
                outcome: 0,
                price: Amount { msats: 40 },
                quantity: ContractOfOutcomeAmount(6),
            }
        ),
        NewOrderItem::Sell(..) => panic!("a buy order is an output"),
    }
    assert_eq!(module.orders.get_slot(OrderIdClientSide(4)), Some(OrderIdSlot::Reserved));
}

#[test]
fn sell_order_is_covered_from_first_orders() {
    let mut module = module_with_holdings();
    let plan = module
        .new_order(module_market(1), 0, Side::Sell, Amount { msats: 40 }, ContractOfOutcomeAmount(7))
        .ok()
        .unwrap();
    assert_eq!(plan.order, OrderIdClientSide(4));
    assert_eq!(
        plan.sources,
        vec![
            Source { order: OrderIdClientSide(0), quantity: ContractOfOutcomeAmount(3) },
            Source { order: OrderIdClientSide(1), quantity: ContractOfOutcomeAmount(4) },
        ]
    );
    assert_eq!(plan.source_order_ids(), vec![OrderIdClientSide(0), OrderIdClientSide(1)]);
    match plan.item {
        NewOrderItem::Sell(input, keys) => {
            assert_eq!(
                input,
                PredictionMarketsInput::NewSellOrder {
                    owner: order_identity(&module_root(), OrderIdClientSide(4)),
                    market: module_market(1),
                    outcome: 0,
                    price: Amount { msats: 40 },
                    sources: vec![
                        (order_identity(&module_root(), OrderIdClientSide(0)), ContractOfOutcomeAmount(3)),
                        (order_identity(&module_root(), OrderIdClientSide(1)), ContractOfOutcomeAmount(4)),
                    ],
                }
            );
            assert_eq!(
                keys,
                vec![
                    order_id_to_key_pair(&module_root(), OrderIdClientSide(0)),
                    order_id_to_key_pair(&module_root(), OrderIdClientSide(1)),
                ]
            );
        }
        NewOrderItem::Buy(..) => panic!("a sell order is an input"),
    }
    assert_eq!(module.orders.get_slot(OrderIdClientSide(4)), Some(OrderIdSlot::Reserved));
    // The order that was not needed is as it was.
    assert_eq!(module.orders.get_order(OrderIdClientSide(2)), Some(module_order(1, 0, 0, 2, 0)));
}

#[test]
fn sell_order_beyond_holdings_fails_and_changes_nothing() {
    let mut module = module_with_holdings();
    let result = module.new_order(module_market(1), 0, Side::Sell, Amount { msats: 40 }, ContractOfOutcomeAmount(11));
    assert_eq!(result.err(), Some(NewOrderError::InsufficientLiquidity));
    assert_eq!(module.orders.get_slot(OrderIdClientSide(4)), None);
    assert_eq!(module.orders.next_order_id(), Some(OrderIdClientSide(4)));
    assert_eq!(module.orders.stale_order_ids(), vec![]);
    for (id, balance) in [(0u64, 3u64), (1, 5), (2, 2)] {
        assert_eq!(
            module.orders.get_order(OrderIdClientSide(id)).unwrap().contract_of_outcome_balance,
            ContractOfOutcomeAmount(balance)
        );
    }
}

#[test]
fn sell_order_does_not_draw_on_other_outcomes() {
    let mut module = module_with_holdings();
    let result = module.new_order(module_market(1), 1, Side::Sell, Amount { msats: 40 }, ContractOfOutcomeAmount(51));
    assert_eq!(result.err(), Some(NewOrderError::InsufficientLiquidity));
    let plan = module
        .new_order(module_market(1), 1, Side::Sell, Amount { msats: 40 }, ContractOfOutcomeAmount(50))
        .ok()
        .unwrap();
    assert_eq!(plan.source_order_ids(), vec![OrderIdClientSide(3)]);
}

#[test]
fn two_orders_in_a_row_get_different_ids() {
    let mut module = module_new();
    let first = module
        .new_order(module_market(1), 0, Side::Buy, Amount { msats: 1 }, ContractOfOutcomeAmount(1))
        .ok()
        .unwrap();
    let second = module
        .new_order(module_market(1), 0, Side::Buy, Amount { msats: 1 }, ContractOfOutcomeAmount(1))
        .ok()
        .unwrap();
    assert_eq!(first.order, OrderIdClientSide(0));
    assert_eq!(second.order, OrderIdClientSide(1));
}

#[test]
fn no_order_can_be_numbered_beyond_the_highest_id() {
    let mut module = module_new();
    module.orders.reserve_order_id(OrderIdClientSide(u64::MAX));
    let result = module.new_order(module_market(1), 0, Side::Buy, Amount { msats: 1 }, ContractOfOutcomeAmount(1));
    assert_eq!(result.err(), Some(NewOrderError::OrderIdsExhausted));
    let result = module.new_order(module_market(1), 0, Side::Sell, Amount { msats: 1 }, ContractOfOutcomeAmount(0));
    assert_eq!(result.err(), Some(NewOrderError::OrderIdsExhausted));
}

#[test]
fn cancel_order_names_the_order_by_its_identity() {
    let module = module_new();
    let (input, key) = module.cancel_order(OrderIdClientSide(6));
    assert_eq!(input, PredictionMarketsInput::CancelOrder { order: order_identity(&module_root(), OrderIdClientSide(6)) });
    assert_eq!(key, order_id_to_key_pair(&module_root(), OrderIdClientSide(6)));
}

#[test]
fn payout_proposal_is_made_in_the_payout_controls_name() {
    let module = module_new();
    let payouts = vec![Amount { msats: 1000 }, Amount { msats: 0 }];
    let (input, key) = module.propose_payout(module_market(3), payouts.clone());
    assert_eq!(
        input,
        PredictionMarketsInput::PayoutProposal {
            market: module_market(3),
            payout_control: module.get_client_payout_control(),
            outcome_payouts: payouts,
        }
    );
    assert_eq!(key, module.get_payout_control_key_pair());
}

#[test]
fn new_market_output_carries_its_arguments() {
    let module = module_new();
    let information = MarketInformation {
        title: String::from("my market"),
        description: String::from("this is my market"),
        outcome_titles: vec![String::from("Outcome 0"), String::from("Outcome 1")],
        expected_payout_timestamp: UnixTimestamp(0),
    };
    let weights = vec![(module.get_client_payout_control(), 1u16)];
    let output =
        module.new_market(Amount { msats: 1000 }, 2, weights.clone(), 1, Amount { msats: 5 }, information.clone());
    assert_eq!(
        output,
        PredictionMarketsOutput::NewMarket {
            contract_price: Amount { msats: 1000 },
            outcomes: 2,
            payout_control_weights: weights,
            weight_required_for_payout: 1,
            payout_controls_fee_per_contract: Amount { msats: 5 },
            information,
        }
    );
}

#[test]
fn market_is_named_by_first_output_of_its_transaction() {
    assert_eq!(
        market_outpoint_from_tx_id(TransactionId([8; 32])),
        OutPoint { txid: TransactionId([8; 32]), out_idx: 0 }
    );
}

#[test]
fn order_bitcoin_is_withdrawn_from_every_order_that_holds_some() {
    let module = module_with_holdings();
    let (withdrawals, total) = module.send_order_bitcoin_balance_to_primary_module().unwrap();
    assert_eq!(total, Amount { msats: 1000 });
    assert_eq!(withdrawals.len(), 2);
    assert_eq!(withdrawals[0].order, OrderIdClientSide(1));
    assert_eq!(
        withdrawals[0].input,
        PredictionMarketsInput::ConsumeOrderBitcoinBalance {
            order: order_identity(&module_root(), OrderIdClientSide(1)),
            amount: Amount { msats: 700 },
        }
    );
    assert_eq!(withdrawals[0].key, order_id_to_key_pair(&module_root(), OrderIdClientSide(1)));
    assert_eq!(withdrawals[1].order, OrderIdClientSide(3));
    assert_eq!(
        withdrawals[1].input,
        PredictionMarketsInput::ConsumeOrderBitcoinBalance {
            order: order_identity(&module_root(), OrderIdClientSide(3)),
            amount: Amount { msats: 300 },
        }
    );
}

#[test]
fn nothing_is_withdrawn_when_no_order_holds_bitcoin() {
    let mut module = module_new();
    module.orders.save_order(OrderIdClientSide(0), &module_order(1, 0, 1, 1, 0));
    let (withdrawals, total) = module.send_order_bitcoin_balance_to_primary_module().unwrap();
    assert_eq!(withdrawals.len(), 0);
    assert_eq!(total, Amount { msats: 0 });
}

#[test]
fn withdrawal_total_that_does_not_fit_is_refused() {
    let mut module = module_new();
    module.orders.save_order(OrderIdClientSide(0), &module_order(1, 0, 0, 0, u64::MAX));
    module.orders.save_order(OrderIdClientSide(1), &module_order(1, 0, 0, 0, 1));
    assert!(module.send_order_bitcoin_balance_to_primary_module().is_none());
    assert_eq!(
        module.orders.bitcoin_balances(),
        vec![
            OrderBalance { order: OrderIdClientSide(0), amount: Amount { msats: u64::MAX } },
            OrderBalance { order: OrderIdClientSide(1), amount: Amount { msats: 1 } },
        ]
    );
}

#[test]
fn balances_are_summed_exactly() {
    let balances = vec![
        OrderBalance { order: OrderIdClientSide(0), amount: Amount { msats: u64::MAX - 5 } },
        OrderBalance { order: OrderIdClientSide(1), amount: Amount { msats: 5 } },
    ];
    assert_eq!(sum_balances(&balances), Some(Amount { msats: u64::MAX }));
    assert_eq!(sum_balances(&vec![]), Some(Amount { msats: 0 }));
}

#[test]
fn payout_control_bitcoin_is_withdrawn_unless_there_is_none() {
    let module = module_new();
    assert!(module.send_payout_control_bitcoin_balance_to_primary_module(Amount { msats: 0 }).is_none());
    let (input, key) = module.send_payout_control_bitcoin_balance_to_primary_module(Amount { msats: 77 }).unwrap();
    assert_eq!(
        input,
        PredictionMarketsInput::ConsumePayoutControlBitcoinBalance {
            payout_control: module.get_client_payout_control(),
            amount: Amount { msats: 77 },
        }
    );
    assert_eq!(key, module.get_payout_control_key_pair());
}

#[test]
fn input_amounts_and_fees() {
    let module = module_new();
    let who = Identity([2; 33]);
    let cases = vec![
        (
            PredictionMarketsInput::PayoutProposal { market: module_market(1), payout_control: who, outcome_payouts: vec![] },
            0,
            13,
        ),
        (PredictionMarketsInput::CancelOrder { order: who }, 0, 0),
        (PredictionMarketsInput::ConsumeOrderBitcoinBalance { order: who, amount: Amount { msats: 500 } }, 500, 14),
        (
            PredictionMarketsInput::NewSellOrder {
                owner: who,
                market: module_market(1),
                outcome: 0,
                price: Amount { msats: 9 },
                sources: vec![],
            },
            0,
            12,
        ),
        (
            PredictionMarketsInput::ConsumePayoutControlBitcoinBalance { payout_control: who, amount: Amount { msats: 8 } },
            8,
            15,
        ),
    ];
    for (input, amount, fee) in cases {
        assert_eq!(
            module.input_amount(&input),
            Some(TransactionItemAmount { amount: Amount { msats: amount }, fee: Amount { msats: fee } })
        );
    }
}

#[test]
fn output_amounts_and_fees() {
    let module = module_new();
    let buy = PredictionMarketsOutput::NewBuyOrder {
        owner: Identity([2; 33]),
        market: module_market(1),
        outcome: 0,
        price: Amount { msats: 250 },
        quantity: ContractOfOutcomeAmount(4),
    };
    assert_eq!(
        module.output_amount(&buy),
        Some(TransactionItemAmount { amount: Amount { msats: 1000 }, fee: Amount { msats: 12 } })
    );
    let market = PredictionMarketsOutput::NewMarket {
        contract_price: Amount { msats: 1000 },
        outcomes: 2,
        payout_control_weights: vec![],
        weight_required_for_payout: 1,
        payout_controls_fee_per_contract: Amount { msats: 0 },
        information: MarketInformation {
            title: String::new(),
            description: String::new(),
            outcome_titles: vec![],
            expected_payout_timestamp: UnixTimestamp(0),
        },
    };
    assert_eq!(
        module.output_amount(&market),
        Some(TransactionItemAmount { amount: Amount { msats: 0 }, fee: Amount { msats: 11 } })
    );
}

#[test]
fn buy_order_cost_that_does_not_fit_has_no_amount() {
    let module = module_new();
    let buy = PredictionMarketsOutput::NewBuyOrder {
        owner: Identity([2; 33]),
        market: module_market(1),
        outcome: 0,
        price: Amount { msats: u64::MAX / 2 + 1 },
        quantity: ContractOfOutcomeAmount(2),
    };
    assert_eq!(module.output_amount(&buy), None);
    let fits = PredictionMarketsOutput::NewBuyOrder {
        owner: Identity([2; 33]),
        market: module_market(1),
        outcome: 0,
        price: Amount { msats: u64::MAX / 2 },
        quantity: ContractOfOutcomeAmount(2),
    };
    assert_eq!(
        module.output_amount(&fits),
        Some(TransactionItemAmount { amount: Amount { msats: u64::MAX - 1 }, fee: Amount { msats: 12 } })
    );
}
