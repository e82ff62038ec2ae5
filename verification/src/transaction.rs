//! What the client puts into a transaction, and what each item costs.
use crate::types::Amount;
use crate::types::ContractOfOutcomeAmount;
use crate::types::Identity;
use crate::types::OutPoint;
use crate::types::Outcome;
use crate::types::UnixTimestamp;
use crate::types::Weight;
use crate::types::WeightRequiredForPayout;
use vstd::prelude::*;

verus! {

/// What a market is about, for human readers.
#[derive(Clone, Debug, PartialEq, Eq)]
pub struct MarketInformation {
    pub title: String,
    pub description: String,
    pub outcome_titles: Vec<String>,
    pub expected_payout_timestamp: UnixTimestamp,
}

/// A market as the federation reports it.
#[derive(Clone, Debug, PartialEq, Eq)]
pub struct Market {
    pub contract_price: Amount,
    pub outcomes: Outcome,
    /// The payout controls of the market, each with its weight; no identity twice.
    pub payout_control_weights: Vec<(Identity, Weight)>,
    pub weight_required_for_payout: WeightRequiredForPayout,
    pub payout_controls_fee_per_contract: Amount,
    pub information: MarketInformation,
    pub created_consensus_timestamp: UnixTimestamp,
    /// The payout per outcome, once the market is settled. It never changes after that.
    pub payout: Option<Vec<Amount>>,
}

/// An input of this module to a transaction: it frees funds or uses a right.
#[derive(Clone, Debug, PartialEq, Eq)]
pub enum PredictionMarketsInput {
    PayoutProposal { market: OutPoint, payout_control: Identity, outcome_payouts: Vec<Amount> },
    CancelOrder { order: Identity },
    ConsumeOrderBitcoinBalance { order: Identity, amount: Amount },
    NewSellOrder {
        owner: Identity,
        market: OutPoint,
        outcome: Outcome,
        price: Amount,
        sources: Vec<(Identity, ContractOfOutcomeAmount)>,
    },
    ConsumePayoutControlBitcoinBalance { payout_control: Identity, amount: Amount },
}

/// An output of this module to a transaction: it takes funds.
#[derive(Clone, Debug, PartialEq, Eq)]
pub enum PredictionMarketsOutput {
    NewMarket {
        contract_price: Amount,
        outcomes: Outcome,
        payout_control_weights: Vec<(Identity, Weight)>,
        weight_required_for_payout: WeightRequiredForPayout,
        payout_controls_fee_per_contract: Amount,
        information: MarketInformation,
    },
    NewBuyOrder {
        owner: Identity,
        market: OutPoint,
        outcome: Outcome,
        price: Amount,
        quantity: ContractOfOutcomeAmount,
    },
}

/// The fees that the federation has agreed on.
#[derive(Clone, Copy, Debug, PartialEq, Eq, Structural)]
pub struct PredictionMarketsGeneralConsensus {
    pub new_market_fee: Amount,
    pub new_order_fee: Amount,
    pub payout_proposal_fee: Amount,
    pub consume_order_bitcoin_balance_fee: Amount,
    pub consume_payout_control_bitcoin_balance_fee: Amount,
}

/// The client's view of the module's configuration.
#[derive(Clone, Copy, Debug, PartialEq, Eq, Structural)]
pub struct PredictionMarketsClientConfig {
    pub gc: PredictionMarketsGeneralConsensus,
}

/// What one item moves and what it costs. An input's amount funds the
/// transaction; an output's amount is taken from it. The fee is always taken.
#[derive(Clone, Copy, Debug, PartialEq, Eq, Structural)]
pub struct TransactionItemAmount {
    pub amount: Amount,
    pub fee: Amount,
}

/// The amount that an input frees.
pub open spec fn input_funds(input: PredictionMarketsInput) -> Amount {
    match input {
        PredictionMarketsInput::ConsumeOrderBitcoinBalance { amount, .. } => amount,
        PredictionMarketsInput::ConsumePayoutControlBitcoinBalance { amount, .. } => amount,
        _ => Amount { msats: 0 },
    }
}

/// The fee that an input costs.
pub open spec fn input_fee(gc: PredictionMarketsGeneralConsensus, input: PredictionMarketsInput) -> Amount {
    match input {
        PredictionMarketsInput::PayoutProposal { .. } => gc.payout_proposal_fee,
        PredictionMarketsInput::CancelOrder { .. } => Amount { msats: 0 },
        PredictionMarketsInput::ConsumeOrderBitcoinBalance { .. } => gc.consume_order_bitcoin_balance_fee,
        PredictionMarketsInput::NewSellOrder { .. } => gc.new_order_fee,
        PredictionMarketsInput::ConsumePayoutControlBitcoinBalance { .. } =>
            gc.consume_payout_control_bitcoin_balance_fee,
    }
}

/// The amount that an output takes: nothing for a new market, price times
/// quantity for a buy order.
pub open spec fn output_cost(output: PredictionMarketsOutput) -> int {
    match output {
        PredictionMarketsOutput::NewMarket { .. } => 0,
        PredictionMarketsOutput::NewBuyOrder { price, quantity, .. } => price.msats * quantity.0,
    }
}

/// The fee that an output costs.
pub open spec fn output_fee(gc: PredictionMarketsGeneralConsensus, output: PredictionMarketsOutput) -> Amount {
    match output {
        PredictionMarketsOutput::NewMarket { .. } => gc.new_market_fee,
        PredictionMarketsOutput::NewBuyOrder { .. } => gc.new_order_fee,
    }
}

impl PredictionMarketsClientConfig {
    /// What an input frees and what it costs.
    pub fn input_amount(&self, input: &PredictionMarketsInput) -> (r: Option<TransactionItemAmount>)
        ensures
            r == Some(TransactionItemAmount { amount: input_funds(*input), fee: input_fee(self.gc, *input) }),
    {
        let amount;
        let fee;
        match input {
            PredictionMarketsInput::PayoutProposal { .. } => {
                amount = Amount::zero();
                fee = self.gc.payout_proposal_fee;
            },
            PredictionMarketsInput::CancelOrder { .. } => {
                amount = Amount::zero();
                fee = Amount::zero();
            },
            PredictionMarketsInput::ConsumeOrderBitcoinBalance { amount: amount_to_free, .. } => {
                amount = *amount_to_free;
                fee = self.gc.consume_order_bitcoin_balance_fee;
            },
            PredictionMarketsInput::NewSellOrder { .. } => {
                amount = Amount::zero();
                fee = self.gc.new_order_fee;
            },
            PredictionMarketsInput::ConsumePayoutControlBitcoinBalance { amount: amount_to_free, .. } => {
                amount = *amount_to_free;
                fee = self.gc.consume_payout_control_bitcoin_balance_fee;
            },
        }
        Some(TransactionItemAmount { amount, fee })
    }

    /// What an output takes and what it costs. A buy order whose price times
    /// quantity is more than an amount can hold has no cost that could be
    /// stated, and gets none.
    pub fn output_amount(&self, output: &PredictionMarketsOutput) -> (r: Option<TransactionItemAmount>)
        ensures
            r == if output_cost(*output) <= u64::MAX {
                Some(
                    TransactionItemAmount {
                        amount: Amount { msats: output_cost(*output) as u64 },
                        fee: output_fee(self.gc, *output),
                    },
                )
            } else {
                None
            },
    {
        match output {
            PredictionMarketsOutput::NewMarket { .. } => {
                Some(TransactionItemAmount { amount: Amount::zero(), fee: self.gc.new_market_fee })
            },
            PredictionMarketsOutput::NewBuyOrder { price, quantity, .. } => {
                match price.msats.checked_mul(quantity.0) {
                    Some(msats) => Some(TransactionItemAmount { amount: Amount { msats }, fee: self.gc.new_order_fee }),
                    None => None,
                }
            },
        }
    }
}

} // verus!
