//! The client module: what it decides before a transaction is submitted.
//!
//! The module holds the configuration, the root secret and the order cache.
//! For each operation it works out what goes into the transaction and which
//! keys have to sign it. Submitting the transaction and waiting for the
//! federation is left to the caller.
use crate::cache::OrderCache;
use crate::cache::OrderCacheState;
use crate::identity::identity_of;
use crate::markets::MarketCache;
use crate::identity::order_key_pair;
use crate::identity::payout_control_key_pair;
use crate::sourcing::greedy_sources;
use crate::sourcing::is_candidate_list;
use crate::sourcing::sell_candidates;
use crate::sourcing::source_quantity;
use crate::sourcing::total_balance;
use crate::sourcing::Source;
use crate::sourcing::SourceCandidate;
use crate::transaction::PredictionMarketsClientConfig;
use crate::transaction::PredictionMarketsInput;
use crate::transaction::MarketInformation;
use crate::transaction::PredictionMarketsOutput;
use crate::transaction::TransactionItemAmount;
use crate::types::Amount;
use crate::types::ContractOfOutcomeAmount;
use crate::types::Identity;
use crate::types::OrderIdClientSide;
use crate::types::OutPoint;
use crate::types::Outcome;
use crate::types::Side;
use crate::types::TransactionId;
use crate::types::Weight;
use crate::types::WeightRequiredForPayout;
use fedimint_derive_secret::DerivableSecret;
use secp256k1::KeyPair;
use vstd::prelude::*;

verus! {

/// The client side of the prediction markets module.
pub struct PredictionMarketsClientModule {
    pub cfg: PredictionMarketsClientConfig,
    pub root_secret: DerivableSecret,
    pub orders: OrderCache,
    pub markets: MarketCache,
}

/// A version of the federation's interface.
#[derive(Clone, Copy, Debug, PartialEq, Eq, Structural)]
pub struct ApiVersion {
    pub major: u32,
    pub minor: u32,
}

/// Builds the client module.
#[derive(Debug, Clone, Copy)]
pub struct PredictionMarketsClientInit;

impl PredictionMarketsClientInit {
    /// The versions of the federation's interface that the client speaks.
    pub fn supported_api_versions(&self) -> (versions: Vec<ApiVersion>)
        ensures
            versions@ == seq![ApiVersion { major: 0, minor: 0 }],
    {
        let mut versions: Vec<ApiVersion> = Vec::new();
        versions.push(ApiVersion { major: 0, minor: 0 });
        versions
    }

    /// A module with the given configuration and secret, and with empty caches.
    pub fn init(&self, cfg: PredictionMarketsClientConfig, root_secret: DerivableSecret) -> (module:
        PredictionMarketsClientModule)
        ensures
            module.cfg == cfg,
            module.root_secret == root_secret,
            module.wf(),
            module.orders@.slots == Map::<u64, crate::types::OrderIdSlot>::empty(),
            module.orders@.needs_update == Set::<u64>::empty(),
            module.markets@.markets == Map::<OutPoint, crate::transaction::Market>::empty(),
            module.markets@.payout_control_markets == Seq::<crate::markets::CreatedMarket>::empty(),
            module.markets@.proposals == Map::<OutPoint, Vec<crate::markets::Proposal>>::empty(),
            module.markets@.saved_markets == Map::<OutPoint, crate::types::UnixTimestamp>::empty(),
            module.markets@.named_payout_controls == Map::<Identity, String>::empty(),
    {
        PredictionMarketsClientModule { cfg, root_secret, orders: OrderCache::new(), markets: MarketCache::new() }
    }
}

/// Why an order could not be prepared.
#[derive(Clone, Copy, Debug, PartialEq, Eq, Structural)]
pub enum NewOrderError {
    /// The orders at hand do not hold as many contracts as are to be sold.
    InsufficientLiquidity,
    /// The highest order id is in use.
    OrderIdsExhausted,
}

/// What a new order puts into its transaction.
pub enum NewOrderItem {
    /// A buy order is an output: it takes the bitcoin that pays for the contracts.
    Buy(PredictionMarketsOutput),
    /// A sell order is an input, signed with the keys of the orders that it draws on.
    Sell(PredictionMarketsInput, Vec<KeyPair>),
}

/// A new order, ready to be submitted.
pub struct NewOrderPlan {
    /// The id that was reserved for the order.
    pub order: OrderIdClientSide,
    /// The contracts that the order draws on; none for a buy order.
    pub sources: Vec<Source>,
    pub item: NewOrderItem,
}

/// `named` and `keys` belong to the sources `drawn`: each source stands under
/// the identity of its order, with the quantity drawn from it, and the key
/// pair of its order is there to sign for it.
pub open spec fn signs_for(
    root: DerivableSecret,
    drawn: Seq<Source>,
    named: Seq<(Identity, ContractOfOutcomeAmount)>,
    keys: Seq<KeyPair>,
) -> bool {
    &&& named.len() == drawn.len()
    &&& keys.len() == drawn.len()
    &&& forall|k: int|
        0 <= k < drawn.len() ==> {
            &&& (#[trigger] keys[k]) == order_key_pair(root, drawn[k].order.0)
            &&& named[k].0.0@ == identity_of(keys[k])
            &&& named[k].1 == drawn[k].quantity
        }
}

/// The ids of the orders that are drawn on.
pub open spec fn source_orders(drawn: Seq<Source>) -> Seq<OrderIdClientSide> {
    drawn.map_values(|source: Source| source.order)
}

impl NewOrderPlan {
    /// The orders that the new order draws on. They are stale once the order is accepted.
    pub fn source_order_ids(&self) -> (r: Vec<OrderIdClientSide>)
        ensures
            r@ == source_orders(self.sources@),
    {
        let mut out: Vec<OrderIdClientSide> = Vec::new();
        let mut i: usize = 0;
        while i < self.sources.len()
            invariant
                i <= self.sources.len(),
                out@ == source_orders(self.sources@.subrange(0, i as int)),
            decreases self.sources.len() - i,
        {
            out.push(self.sources[i].order);
            proof {
                assert(self.sources@.subrange(0, i + 1) =~= self.sources@.subrange(0, i as int).push(
                    self.sources@[i as int],
                ));
                assert(source_orders(self.sources@.subrange(0, i + 1)) =~= source_orders(
                    self.sources@.subrange(0, i as int),
                ).push(self.sources@[i as int].order));
            }
            i += 1;
        }
        proof {
            assert(self.sources@.subrange(0, self.sources@.len() as int) =~= self.sources@);
        }
        out
    }
}

impl PredictionMarketsClientModule {
    /// Both caches are in order.
    pub open spec fn wf(&self) -> bool {
        self.orders.wf() && self.markets.wf()
    }

    /// The identity under which the client acts as payout control.
    pub fn get_client_payout_control(&self) -> (identity: Identity)
        ensures
            identity.0@ == identity_of(payout_control_key_pair(self.root_secret)),
    {
        crate::identity::get_client_payout_control(&self.root_secret)
    }

    /// The key pair with which the client acts as payout control.
    pub fn get_payout_control_key_pair(&self) -> (key_pair: KeyPair)
        ensures
            key_pair == payout_control_key_pair(self.root_secret),
    {
        crate::identity::get_payout_control_key_pair(&self.root_secret)
    }

    /// The key pair that owns the order with the given id.
    pub fn order_id_to_key_pair(&self, id: OrderIdClientSide) -> (key_pair: KeyPair)
        ensures
            key_pair == order_key_pair(self.root_secret, id.0),
    {
        crate::identity::order_id_to_key_pair(&self.root_secret, id)
    }

    /// Names each source by the identity of its order and collects the keys that sign for them.
    pub fn sign_sources(&self, drawn: &Vec<Source>) -> (r: (Vec<(Identity, ContractOfOutcomeAmount)>, Vec<KeyPair>))
        ensures
            signs_for(self.root_secret, drawn@, r.0@, r.1@),
    {
        let mut sources_for_input: Vec<(Identity, ContractOfOutcomeAmount)> = Vec::new();
        let mut sources_keys: Vec<KeyPair> = Vec::new();
        let mut i: usize = 0;
        while i < drawn.len()
            invariant
                i <= drawn.len(),
                signs_for(self.root_secret, drawn@.subrange(0, i as int), sources_for_input@, sources_keys@),
            decreases drawn.len() - i,
        {
            let order_key = self.order_id_to_key_pair(drawn[i].order);
            let owner = crate::identity::key_pair_identity(&order_key);
            let ghost named = sources_for_input@;
            let ghost keys = sources_keys@;
            sources_for_input.push((owner, drawn[i].quantity));
            sources_keys.push(order_key);
            proof {
                let upto = drawn@.subrange(0, i + 1);
                let before = drawn@.subrange(0, i as int);
                assert forall|k: int| 0 <= k < upto.len() implies {
                    &&& (#[trigger] sources_keys@[k]) == order_key_pair(self.root_secret, upto[k].order.0)
                    &&& sources_for_input@[k].0.0@ == identity_of(sources_keys@[k])
                    &&& sources_for_input@[k].1 == upto[k].quantity
                } by {
                    if k < i {
                        assert(sources_keys@[k] == keys[k]);
                        assert(sources_for_input@[k] == named[k]);
                        assert(upto[k] == before[k]);
                    }
                }
            }
            i += 1;
        }
        proof {
            assert(drawn@.subrange(0, drawn@.len() as int) =~= drawn@);
        }
        (sources_for_input, sources_keys)
    }

    /// Prepares a new order.
    ///
    /// The order gets the next free id, which is reserved in the cache at
    /// once, so that a second order prepared before this one is settled gets
    /// another id. The id is chosen and reserved under the one exclusive
    /// borrow of the module: no two callers can see the same next id. A sell
    /// order is covered from the live orders of the same market and outcome.
    /// Where they do not hold enough, nothing is reserved and the cache stays
    /// as it was.
    pub fn new_order(
        &mut self,
        market: OutPoint,
        outcome: Outcome,
        side: Side,
        price: Amount,
        quantity: ContractOfOutcomeAmount,
    ) -> (r: Result<NewOrderPlan, NewOrderError>)
        requires
            old(self).orders.wf(),
        ensures
            final(self).orders.wf(),
            final(self).cfg == old(self).cfg,
            final(self).root_secret == old(self).root_secret,
            final(self).markets == old(self).markets,
            r matches Err(error) ==> final(self).orders@ == old(self).orders@,
            r matches Err(NewOrderError::OrderIdsExhausted) <==> old(self).orders@.ids_exhausted(),
            r matches Err(NewOrderError::InsufficientLiquidity) <==> !old(self).orders@.ids_exhausted() && side
                == Side::Sell && exists|candidates: Seq<SourceCandidate>|
                is_candidate_list(old(self).orders@, market, outcome, candidates) && total_balance(candidates)
                    < quantity.0,
            r matches Ok(plan) ==> {
                &&& old(self).orders@.is_next_order_id(plan.order.0)
                &&& final(self).orders@ == old(self).orders@.reserve(plan.order.0)
                &&& match plan.item {
                    NewOrderItem::Buy(output) => {
                        &&& side == Side::Buy
                        &&& plan.sources@.len() == 0
                        &&& output matches PredictionMarketsOutput::NewBuyOrder {
                            owner,
                            market: in_market,
                            outcome: on_outcome,
                            price: at_price,
                            quantity: for_quantity,
                        }
                        &&& owner.0@ == identity_of(order_key_pair(old(self).root_secret, plan.order.0))
                        &&& in_market == market
                        &&& on_outcome == outcome
                        &&& at_price == price
                        &&& for_quantity == quantity
                    },
                    NewOrderItem::Sell(input, keys) => {
                        &&& side == Side::Sell
                        &&& exists|candidates: Seq<SourceCandidate>|
                            is_candidate_list(old(self).orders@, market, outcome, candidates) && plan.sources@
                                == greedy_sources(candidates, quantity.0 as int)
                        &&& input matches PredictionMarketsInput::NewSellOrder {
                            owner,
                            market: in_market,
                            outcome: on_outcome,
                            price: at_price,
                            sources,
                        }
                        &&& owner.0@ == identity_of(order_key_pair(old(self).root_secret, plan.order.0))
                        &&& in_market == market
                        &&& on_outcome == outcome
                        &&& at_price == price
                        &&& signs_for(old(self).root_secret, plan.sources@, sources@, keys@)
                    },
                }
            },
    {
        let order_id = match self.orders.next_order_id() {
            Some(id) => id,
            None => {
                return Err(NewOrderError::OrderIdsExhausted);
            },
        };
        let order_key = self.order_id_to_key_pair(order_id);
        let owner = crate::identity::key_pair_identity(&order_key);
        match side {
            Side::Buy => {
                let output = PredictionMarketsOutput::NewBuyOrder { owner, market, outcome, price, quantity };
                self.orders.reserve_order_id(order_id);
                Ok(NewOrderPlan { order: order_id, sources: Vec::new(), item: NewOrderItem::Buy(output) })
            },
            Side::Sell => {
                let candidates = sell_candidates(&self.orders, market, outcome);
                match source_quantity(&candidates, quantity) {
                    Err(_) => {
                        proof {
                            assert(is_candidate_list(old(self).orders@, market, outcome, candidates@));
                        }
                        Err(NewOrderError::InsufficientLiquidity)
                    },
                    Ok(drawn) => {
                        let (sources_for_input, sources_keys) = self.sign_sources(&drawn);
                        let input = PredictionMarketsInput::NewSellOrder {
                            owner,
                            market,
                            outcome,
                            price,
                            sources: sources_for_input,
                        };
                        self.orders.reserve_order_id(order_id);
                        proof {
                            assert(is_candidate_list(old(self).orders@, market, outcome, candidates@));
                            assert forall|other: Seq<SourceCandidate>|
                                is_candidate_list(old(self).orders@, market, outcome, other) implies !(
                                total_balance(other) < quantity.0) by {
                                crate::sourcing::lemma_candidate_list_is_unique(
                                    old(self).orders@,
                                    market,
                                    outcome,
                                    candidates@,
                                    other,
                                );
                            }
                        }
                        Ok(
                            NewOrderPlan {
                                order: order_id,
                                sources: drawn,
                                item: NewOrderItem::Sell(input, sources_keys),
                            },
                        )
                    },
                }
            },
        }
    }
}

/// The bitcoin that can be withdrawn from one order.
#[derive(Clone, Copy, Debug, PartialEq, Eq, Structural)]
pub struct OrderBalance {
    pub order: OrderIdClientSide,
    pub amount: Amount,
}

/// One order's bitcoin being withdrawn: the input that frees it and the key that signs.
pub struct OrderWithdrawal {
    pub order: OrderIdClientSide,
    pub input: PredictionMarketsInput,
    pub key: KeyPair,
}

/// `balances` are the cached orders that hold bitcoin, in ascending order of
/// their ids, each with the bitcoin on it.
pub open spec fn is_balance_list(cache: OrderCacheState, balances: Seq<OrderBalance>) -> bool {
    &&& forall|i: int, j: int| 0 <= i < j < balances.len() ==> balances[i].order.0 < balances[j].order.0
    &&& forall|i: int|
        0 <= i < balances.len() ==> {
            &&& cache.order((#[trigger] balances[i]).order.0) is Some
            &&& balances[i].amount == cache.order(balances[i].order.0)->0.bitcoin_balance
            &&& balances[i].amount.msats != 0
        }
    &&& forall|id: u64|
        cache.order(id) is Some && cache.order(id)->0.bitcoin_balance.msats != 0 ==> exists|i: int|
            0 <= i < balances.len() && (#[trigger] balances[i]).order.0 == id
}

/// All the bitcoin on the orders together.
pub open spec fn total_bitcoin(balances: Seq<OrderBalance>) -> int
    decreases balances.len(),
{
    if balances.len() == 0 {
        0
    } else {
        total_bitcoin(balances.drop_last()) + balances.last().amount.msats
    }
}

/// `withdrawals` free exactly the `balances`, each signed by the key of its order.
pub open spec fn withdraws(root: DerivableSecret, balances: Seq<OrderBalance>, withdrawals: Seq<OrderWithdrawal>) -> bool {
    &&& withdrawals.len() == balances.len()
    &&& forall|k: int|
        0 <= k < balances.len() ==> {
            &&& (#[trigger] withdrawals[k]).order == balances[k].order
            &&& withdrawals[k].key == order_key_pair(root, balances[k].order.0)
            &&& withdrawals[k].input matches PredictionMarketsInput::ConsumeOrderBitcoinBalance { order, amount }
            &&& order.0@ == identity_of(withdrawals[k].key)
            &&& amount == balances[k].amount
        }
}

/// The market that the transaction `tx_id` has created.
pub fn market_outpoint_from_tx_id(tx_id: TransactionId) -> (market: OutPoint)
    ensures
        market == (OutPoint { txid: tx_id, out_idx: 0 }),
{
    OutPoint { txid: tx_id, out_idx: 0 }
}

impl OrderCache {
    /// The cached orders that hold bitcoin.
    pub fn bitcoin_balances(&self) -> (balances: Vec<OrderBalance>)
        requires
            self.wf(),
        ensures
            is_balance_list(self@, balances@),
    {
        let all_markets: Option<OutPoint> = None;
        let all_outcomes: Option<Outcome> = None;
        let non_zero_orders = self.non_zero_order_ids(&all_markets, &all_outcomes);
        let mut orders_with_non_zero_bitcoin_balance: Vec<OrderBalance> = Vec::new();
        let mut i: usize = 0;
        while i < non_zero_orders.len()
            invariant
                i <= non_zero_orders.len(),
                self.wf(),
                all_markets is None,
                all_outcomes is None,
                crate::cache::ascending_ids(non_zero_orders@),
                forall|id: u64|
                    non_zero_orders@.contains(OrderIdClientSide(id)) <==> self@.in_non_zero_index(
                        all_markets,
                        all_outcomes,
                        id,
                    ),
                forall|a: int, b: int|
                    0 <= a < b < orders_with_non_zero_bitcoin_balance@.len()
                        ==> orders_with_non_zero_bitcoin_balance@[a].order.0
                        < orders_with_non_zero_bitcoin_balance@[b].order.0,
                forall|k: int|
                    0 <= k < orders_with_non_zero_bitcoin_balance@.len() ==> {
                        &&& self@.order((#[trigger] orders_with_non_zero_bitcoin_balance@[k]).order.0) is Some
                        &&& orders_with_non_zero_bitcoin_balance@[k].amount == self@.order(
                            orders_with_non_zero_bitcoin_balance@[k].order.0,
                        )->0.bitcoin_balance
                        &&& orders_with_non_zero_bitcoin_balance@[k].amount.msats != 0
                        &&& exists|j: int|
                            0 <= j < i && non_zero_orders@[j] == orders_with_non_zero_bitcoin_balance@[k].order
                    },
                forall|j: int|
                    0 <= j < i && self@.order((#[trigger] non_zero_orders@[j]).0)->0.bitcoin_balance.msats != 0
                        ==> exists|k: int|
                        0 <= k < orders_with_non_zero_bitcoin_balance@.len()
                            && (#[trigger] orders_with_non_zero_bitcoin_balance@[k]).order == non_zero_orders@[j],
            decreases non_zero_orders.len() - i,
        {
            let order_id = non_zero_orders[i];
            let ghost before = orders_with_non_zero_bitcoin_balance@;
            proof {
                assert(non_zero_orders@.contains(OrderIdClientSide(order_id.0)));
                assert(self@.in_non_zero_index(all_markets, all_outcomes, order_id.0));
            }
            match self.get_order(order_id) {
                Some(order) => {
                    if order.bitcoin_balance.msats != 0 {
                        orders_with_non_zero_bitcoin_balance.push(
                            OrderBalance { order: order_id, amount: order.bitcoin_balance },
                        );
                    }
                },
                None => {},
            }
            proof {
                let after = orders_with_non_zero_bitcoin_balance@;
                assert forall|k: int| 0 <= k < after.len() implies {
                    &&& self@.order((#[trigger] after[k]).order.0) is Some
                    &&& after[k].amount == self@.order(after[k].order.0)->0.bitcoin_balance
                    &&& after[k].amount.msats != 0
                    &&& exists|j: int| 0 <= j < i + 1 && non_zero_orders@[j] == after[k].order
                } by {
                    if k < before.len() {
                        assert(after[k] == before[k]);
                        let j = choose|j: int| 0 <= j < i && non_zero_orders@[j] == before[k].order;
                        assert(0 <= j < i + 1 && non_zero_orders@[j] == after[k].order);
                    } else {
                        assert(non_zero_orders@[i as int] == after[k].order);
                    }
                }
                assert forall|a: int, b: int| 0 <= a < b < after.len() implies after[a].order.0 < after[b].order.0 by {
                    if b < before.len() {
                        assert(before[a].order.0 < before[b].order.0);
                    } else {
                        assert(after[a] == before[a]);
                        let j = choose|j: int| 0 <= j < i && non_zero_orders@[j] == before[a].order;
                        assert(non_zero_orders@[j].0 < non_zero_orders@[i as int].0);
                    }
                }
                assert forall|j: int|
                    0 <= j < i + 1 && self@.order((#[trigger] non_zero_orders@[j]).0)->0.bitcoin_balance.msats
                        != 0 implies exists|k: int|
                    0 <= k < after.len() && (#[trigger] after[k]).order == non_zero_orders@[j] by {
                    if j < i {
                        let k = choose|k: int|
                            0 <= k < before.len() && (#[trigger] before[k]).order == non_zero_orders@[j];
                        assert(after[k].order == non_zero_orders@[j]);
                    } else {
                        assert(after[before.len() as int].order == non_zero_orders@[j]);
                    }
                }
            }
            i += 1;
        }
        proof {
            let listed = orders_with_non_zero_bitcoin_balance@;
            assert forall|id: u64|
                self@.order(id) is Some && self@.order(id)->0.bitcoin_balance.msats != 0 implies exists|k: int|
                0 <= k < listed.len() && (#[trigger] listed[k]).order.0 == id by {
                assert(self@.in_non_zero_index(all_markets, all_outcomes, id));
                assert(non_zero_orders@.contains(OrderIdClientSide(id)));
                let j = choose|j: int| 0 <= j < non_zero_orders@.len() && non_zero_orders@[j] == OrderIdClientSide(id);
                assert(self@.order(non_zero_orders@[j].0)->0.bitcoin_balance.msats != 0);
                let k = choose|k: int| 0 <= k < listed.len() && (#[trigger] listed[k]).order == non_zero_orders@[j];
                assert(listed[k].order.0 == id);
            }
        }
        orders_with_non_zero_bitcoin_balance
    }
}

/// The bitcoin on the given orders together, if an amount can hold it.
pub fn sum_balances(balances: &Vec<OrderBalance>) -> (total: Option<Amount>)
    ensures
        total is Some <==> total_bitcoin(balances@) <= u64::MAX,
        total matches Some(amount) ==> amount.msats == total_bitcoin(balances@),
{
    let mut total_amount: u64 = 0;
    let mut i: usize = 0;
    while i < balances.len()
        invariant
            i <= balances.len(),
            total_amount == total_bitcoin(balances@.subrange(0, i as int)),
        decreases balances.len() - i,
    {
        proof {
            let upto = balances@.subrange(0, i + 1);
            assert(upto.drop_last() =~= balances@.subrange(0, i as int));
            assert(upto.last() == balances@[i as int]);
        }
        match total_amount.checked_add(balances[i].amount.msats) {
            Some(sum) => {
                total_amount = sum;
            },
            None => {
                proof {
                    lemma_total_bitcoin_grows(balances@, i + 1);
                }
                return None;
            },
        }
        i += 1;
    }
    proof {
        assert(balances@.subrange(0, balances@.len() as int) =~= balances@);
    }
    Some(Amount { msats: total_amount })
}

/// The bitcoin on the first orders of a list is no more than that on all of them.
pub proof fn lemma_total_bitcoin_grows(balances: Seq<OrderBalance>, n: int)
    requires
        0 <= n <= balances.len(),
    ensures
        0 <= total_bitcoin(balances.subrange(0, n)) <= total_bitcoin(balances),
    decreases balances.len() - n,
{
    lemma_total_bitcoin_is_not_negative(balances.subrange(0, n));
    if n == balances.len() {
        assert(balances.subrange(0, n) =~= balances);
    } else {
        let longer = balances.subrange(0, n + 1);
        assert(longer.drop_last() =~= balances.subrange(0, n));
        lemma_total_bitcoin_grows(balances, n + 1);
    }
}

/// Bitcoin adds up to no less than nothing.
pub proof fn lemma_total_bitcoin_is_not_negative(balances: Seq<OrderBalance>)
    ensures
        0 <= total_bitcoin(balances),
    decreases balances.len(),
{
    if balances.len() > 0 {
        lemma_total_bitcoin_is_not_negative(balances.drop_last());
    }
}

impl PredictionMarketsClientModule {
    /// What a new market puts into its transaction.
    pub fn new_market(
        &self,
        contract_price: Amount,
        outcomes: Outcome,
        payout_control_weights: Vec<(Identity, Weight)>,
        weight_required_for_payout: WeightRequiredForPayout,
        payout_controls_fee_per_contract: Amount,
        information: MarketInformation,
    ) -> (output: PredictionMarketsOutput)
        ensures
            output == (PredictionMarketsOutput::NewMarket {
                contract_price,
                outcomes,
                payout_control_weights,
                weight_required_for_payout,
                payout_controls_fee_per_contract,
                information,
            }),
    {
        PredictionMarketsOutput::NewMarket {
            contract_price,
            outcomes,
            payout_control_weights,
            weight_required_for_payout,
            payout_controls_fee_per_contract,
            information,
        }
    }

    /// What a payout proposal puts into its transaction: the proposal in the
    /// client's name as payout control, and the key that signs it.
    pub fn propose_payout(&self, market: OutPoint, outcome_payouts: Vec<Amount>) -> (r: (
        PredictionMarketsInput,
        KeyPair,
    ))
        ensures
            r.1 == payout_control_key_pair(self.root_secret),
            r.0 matches PredictionMarketsInput::PayoutProposal {
                market: in_market,
                payout_control,
                outcome_payouts: proposed,
            } && in_market == market && payout_control.0@ == identity_of(r.1) && proposed == outcome_payouts,
    {
        let payout_control_key = self.get_payout_control_key_pair();
        let payout_control = crate::identity::key_pair_identity(&payout_control_key);
        (PredictionMarketsInput::PayoutProposal { market, payout_control, outcome_payouts }, payout_control_key)
    }

    /// What cancelling an order puts into its transaction, and the key that signs it.
    pub fn cancel_order(&self, id: OrderIdClientSide) -> (r: (PredictionMarketsInput, KeyPair))
        ensures
            r.1 == order_key_pair(self.root_secret, id.0),
            r.0 matches PredictionMarketsInput::CancelOrder { order } && order.0@ == identity_of(r.1),
    {
        let order_key = self.order_id_to_key_pair(id);
        let order = crate::identity::key_pair_identity(&order_key);
        (PredictionMarketsInput::CancelOrder { order }, order_key)
    }

    /// The inputs that free the bitcoin of every cached order that holds
    /// some, each with the key that signs it, in ascending order of the ids.
    pub fn order_withdrawals(&self, balances: &Vec<OrderBalance>) -> (withdrawals: Vec<OrderWithdrawal>)
        ensures
            withdraws(self.root_secret, balances@, withdrawals@),
    {
        let mut withdrawals: Vec<OrderWithdrawal> = Vec::new();
        let mut i: usize = 0;
        while i < balances.len()
            invariant
                i <= balances.len(),
                withdraws(self.root_secret, balances@.subrange(0, i as int), withdrawals@),
            decreases balances.len() - i,
        {
            let order_id = balances[i].order;
            let order_key = self.order_id_to_key_pair(order_id);
            let order = crate::identity::key_pair_identity(&order_key);
            let ghost before = withdrawals@;
            withdrawals.push(
                OrderWithdrawal {
                    order: order_id,
                    input: PredictionMarketsInput::ConsumeOrderBitcoinBalance { order, amount: balances[i].amount },
                    key: order_key,
                },
            );
            proof {
                let upto = balances@.subrange(0, i + 1);
                let earlier = balances@.subrange(0, i as int);
                assert forall|k: int| 0 <= k < upto.len() implies {
                    &&& (#[trigger] withdrawals@[k]).order == upto[k].order
                    &&& withdrawals@[k].key == order_key_pair(self.root_secret, upto[k].order.0)
                    &&& withdrawals@[k].input matches PredictionMarketsInput::ConsumeOrderBitcoinBalance {
                        order,
                        amount,
                    }
                    &&& order.0@ == identity_of(withdrawals@[k].key)
                    &&& amount == upto[k].amount
                } by {
                    if k < i {
                        assert(withdrawals@[k] == before[k]);
                        assert(upto[k] == earlier[k]);
                    }
                }
            }
            i += 1;
        }
        proof {
            assert(balances@.subrange(0, balances@.len() as int) =~= balances@);
        }
        withdrawals
    }

    /// Prepares the withdrawal of all bitcoin that the cached orders hold.
    ///
    /// Returns the inputs to submit and the amount that they free together;
    /// there is nothing to submit where no order holds bitcoin. Returns
    /// nothing where the bitcoin adds up to more than an amount can hold.
    pub fn send_order_bitcoin_balance_to_primary_module(&self) -> (r: Option<(Vec<OrderWithdrawal>, Amount)>)
        requires
            self.orders.wf(),
        ensures
            exists|balances: Seq<OrderBalance>|
                {
                    &&& #[trigger] is_balance_list(self.orders@, balances)
                    &&& r is Some <==> total_bitcoin(balances) <= u64::MAX
                    &&& r matches Some(plan) ==> plan.1.msats == total_bitcoin(balances) && withdraws(
                        self.root_secret,
                        balances,
                        plan.0@,
                    )
                },
    {
        let balances = self.orders.bitcoin_balances();
        match sum_balances(&balances) {
            None => {
                proof {
                    assert(is_balance_list(self.orders@, balances@));
                }
                None
            },
            Some(total_amount) => {
                let withdrawals = self.order_withdrawals(&balances);
                proof {
                    assert(is_balance_list(self.orders@, balances@));
                }
                Some((withdrawals, total_amount))
            },
        }
    }

    /// Prepares the withdrawal of the bitcoin that the client holds as
    /// payout control. `payout_control_balance` is what the federation
    /// reports; where it is nothing, there is nothing to submit.
    pub fn send_payout_control_bitcoin_balance_to_primary_module(&self, payout_control_balance: Amount) -> (r:
        Option<(PredictionMarketsInput, KeyPair)>)
        ensures
            r is None <==> payout_control_balance.msats == 0,
            r matches Some(plan) ==> {
                &&& plan.1 == payout_control_key_pair(self.root_secret)
                &&& plan.0 matches PredictionMarketsInput::ConsumePayoutControlBitcoinBalance {
                    payout_control,
                    amount,
                }
                &&& payout_control.0@ == identity_of(plan.1)
                &&& amount == payout_control_balance
            },
    {
        if payout_control_balance.msats == 0 {
            return None;
        }
        let key = self.get_payout_control_key_pair();
        let payout_control = crate::identity::key_pair_identity(&key);
        Some(
            (
                PredictionMarketsInput::ConsumePayoutControlBitcoinBalance {
                    payout_control,
                    amount: payout_control_balance,
                },
                key,
            ),
        )
    }

    /// What an input frees and what it costs.
    pub fn input_amount(&self, input: &PredictionMarketsInput) -> (r: Option<TransactionItemAmount>)
        ensures
            r == Some(
                TransactionItemAmount {
                    amount: crate::transaction::input_funds(*input),
                    fee: crate::transaction::input_fee(self.cfg.gc, *input),
                },
            ),
    {
        self.cfg.input_amount(input)
    }

    /// What an output takes and what it costs; nothing where a buy order's
    /// price times quantity is more than an amount can hold.
    pub fn output_amount(&self, output: &PredictionMarketsOutput) -> (r: Option<TransactionItemAmount>)
        ensures
            r == if crate::transaction::output_cost(*output) <= u64::MAX {
                Some(
                    TransactionItemAmount {
                        amount: Amount { msats: crate::transaction::output_cost(*output) as u64 },
                        fee: crate::transaction::output_fee(self.cfg.gc, *output),
                    },
                )
            } else {
                None
            },
    {
        self.cfg.output_amount(output)
    }

    /// The module keeps no backup: its orders are found again by a scan.
    pub fn supports_backup(&self) -> (r: bool)
        ensures
            !r,
    {
        false
    }
}

} // verus!
