//! Price history of a market outcome.
//!
//! The federation keeps, per market outcome and interval, what the matching
//! of orders came to in each interval. The client keeps nothing of it: every
//! query goes to the federation, and what comes back is put in order of time.
use crate::id_map::IdMap;
use crate::types::Amount;
use crate::types::ContractOfOutcomeAmount;
use crate::types::OutPoint;
use crate::types::Outcome;
use crate::types::Seconds;
use crate::types::UnixTimestamp;
use vstd::prelude::*;

verus! {

/// What the contracts of one outcome traded at during one interval.
#[derive(Clone, Copy, Debug, PartialEq, Eq, Structural)]
pub struct Candlestick {
    pub open: Amount,
    pub close: Amount,
    pub high: Amount,
    pub low: Amount,
    pub volume: ContractOfOutcomeAmount,
}

/// A query for the candlesticks of a market outcome.
#[derive(Clone, Copy, Debug, PartialEq, Eq)]
pub struct GetMarketOutcomeCandlesticksParams {
    pub market: OutPoint,
    pub outcome: Outcome,
    pub candlestick_interval: Seconds,
    pub min_candlestick_timestamp: UnixTimestamp,
}

/// The candlesticks of a list, each under the start of its interval. Of two
/// for the same interval the later one in the list stands.
pub open spec fn by_interval(candlesticks: Seq<(UnixTimestamp, Candlestick)>) -> Map<u64, Candlestick>
    decreases candlesticks.len(),
{
    if candlesticks.len() == 0 {
        Map::empty()
    } else {
        by_interval(candlesticks.drop_last()).insert(candlesticks.last().0.0, candlesticks.last().1)
    }
}

/// The query that asks the federation for the candlesticks of a market
/// outcome from `min_candlestick_timestamp` on.
pub fn candlesticks_query(
    market: OutPoint,
    outcome: Outcome,
    candlestick_interval: Seconds,
    min_candlestick_timestamp: UnixTimestamp,
) -> (query: GetMarketOutcomeCandlesticksParams)
    ensures
        query == (GetMarketOutcomeCandlesticksParams {
            market,
            outcome,
            candlestick_interval,
            min_candlestick_timestamp,
        }),
{
    GetMarketOutcomeCandlesticksParams { market, outcome, candlestick_interval, min_candlestick_timestamp }
}

/// Puts the candlesticks that the federation has sent in order of time.
pub fn get_candlesticks(candlesticks: &Vec<(UnixTimestamp, Candlestick)>) -> (ordered: IdMap<Candlestick>)
    ensures
        ordered.wf(),
        ordered@ == by_interval(candlesticks@),
{
    let mut ordered: IdMap<Candlestick> = IdMap::new();
    let mut i: usize = 0;
    while i < candlesticks.len()
        invariant
            i <= candlesticks.len(),
            ordered.wf(),
            ordered@ == by_interval(candlesticks@.subrange(0, i as int)),
        decreases candlesticks.len() - i,
    {
        proof {
            let upto = candlesticks@.subrange(0, i + 1);
            assert(upto.drop_last() =~= candlesticks@.subrange(0, i as int));
            assert(upto.last() == candlesticks@[i as int]);
        }
        ordered.insert(candlesticks[i].0.0, candlesticks[i].1);
        i += 1;
    }
    proof {
        assert(candlesticks@.subrange(0, candlesticks@.len() as int) =~= candlesticks@);
    }
    ordered
}

} // verus!
