//! Where the contracts of a sell order come from.
//!
//! A sell order offers contracts that the client already holds on earlier
//! orders of the same market and outcome. All contracts of one outcome are
//! alike, so the orders are drawn on in the order in which they are listed,
//! each for as much as it holds, until the quantity is covered.
use crate::cache::ascending_ids;
use crate::cache::OrderCache;
use crate::cache::OrderCacheState;
use crate::types::ContractOfOutcomeAmount;
use crate::types::OrderIdClientSide;
use crate::types::OutPoint;
use crate::types::Outcome;
use vstd::prelude::*;

verus! {

/// An order together with the contracts held on it.
#[derive(Clone, Copy, Debug, PartialEq, Eq, Structural)]
pub struct SourceCandidate {
    pub order: OrderIdClientSide,
    pub balance: ContractOfOutcomeAmount,
}

/// A number of contracts drawn from one order.
#[derive(Clone, Copy, Debug, PartialEq, Eq, Structural)]
pub struct Source {
    pub order: OrderIdClientSide,
    pub quantity: ContractOfOutcomeAmount,
}

/// The orders at hand do not hold as many contracts as are to be sold.
#[derive(Clone, Copy, Debug, PartialEq, Eq, Structural)]
pub struct InsufficientLiquidity;

/// All contracts held on the candidates together.
pub open spec fn total_balance(candidates: Seq<SourceCandidate>) -> int
    decreases candidates.len(),
{
    if candidates.len() == 0 {
        0
    } else {
        candidates[0].balance.0 + total_balance(candidates.drop_first())
    }
}

/// All contracts drawn together.
pub open spec fn total_sourced(sources: Seq<Source>) -> int
    decreases sources.len(),
{
    if sources.len() == 0 {
        0
    } else {
        sources[0].quantity.0 + total_sourced(sources.drop_first())
    }
}

/// The sources that cover `quantity` from `candidates`, first come first
/// served. A candidate that holds nothing is passed over. Every other one
/// gives what it holds, or what is still missing if that is less, and the one
/// that completes the quantity is the last. Where the candidates run out
/// first, all that they hold is drawn and the quantity stays uncovered.
pub open spec fn greedy_sources(candidates: Seq<SourceCandidate>, quantity: int) -> Seq<Source>
    decreases candidates.len(),
{
    if candidates.len() == 0 {
        Seq::empty()
    } else if candidates[0].balance.0 == 0 {
        greedy_sources(candidates.drop_first(), quantity)
    } else {
        let take = if candidates[0].balance.0 <= quantity {
            candidates[0].balance.0 as int
        } else {
            quantity
        };
        let first = Source { order: candidates[0].order, quantity: ContractOfOutcomeAmount(take as u64) };
        if take == quantity {
            seq![first]
        } else {
            seq![first] + greedy_sources(candidates.drop_first(), quantity - take)
        }
    }
}

/// Drawing first come first served yields the whole quantity where the
/// candidates hold that much, and all they hold where they do not.
pub proof fn lemma_greedy_total(candidates: Seq<SourceCandidate>, quantity: int)
    requires
        0 <= quantity <= u64::MAX,
    ensures
        total_sourced(greedy_sources(candidates, quantity)) == if total_balance(candidates) >= quantity {
            quantity
        } else {
            total_balance(candidates)
        },
        total_balance(candidates) >= 0,
    decreases candidates.len(),
{
    if candidates.len() == 0 {
    } else if candidates[0].balance.0 == 0 {
        lemma_greedy_total(candidates.drop_first(), quantity);
    } else {
        let take = if candidates[0].balance.0 <= quantity {
            candidates[0].balance.0 as int
        } else {
            quantity
        };
        let first = Source { order: candidates[0].order, quantity: ContractOfOutcomeAmount(take as u64) };
        lemma_greedy_total(candidates.drop_first(), quantity - take);
        if take == quantity {
            assert(seq![first].drop_first() =~= Seq::<Source>::empty());
            assert(total_sourced(seq![first]) == take + total_sourced(Seq::<Source>::empty()));
        } else {
            let rest = greedy_sources(candidates.drop_first(), quantity - take);
            assert((seq![first] + rest).drop_first() =~= rest);
        }
    }
}

/// `source` draws on a candidate at position `from` or later, and no more
/// than that candidate holds.
pub open spec fn drawn_from(source: Source, candidates: Seq<SourceCandidate>, from: int) -> bool {
    exists|i: int|
        from <= i < candidates.len() && (#[trigger] candidates[i]).order == source.order
            && source.quantity.0 <= candidates[i].balance.0 && candidates[i].balance.0 != 0
}

/// No source draws more than its order holds, every source is one of the
/// candidates that hold something, and the sources keep the candidates'
/// order.
pub proof fn lemma_greedy_within_candidates(candidates: Seq<SourceCandidate>, quantity: int)
    requires
        0 <= quantity <= u64::MAX,
    ensures
        greedy_sources(candidates, quantity).len() <= candidates.len(),
        forall|k: int|
            0 <= k < greedy_sources(candidates, quantity).len() ==> drawn_from(
                #[trigger] greedy_sources(candidates, quantity)[k],
                candidates,
                k,
            ),
    decreases candidates.len(),
{
    let sources = greedy_sources(candidates, quantity);
    if candidates.len() == 0 {
    } else if candidates[0].balance.0 == 0 {
        let rest = candidates.drop_first();
        lemma_greedy_within_candidates(rest, quantity);
        assert forall|k: int| 0 <= k < sources.len() implies drawn_from(#[trigger] sources[k], candidates, k) by {
            assert(drawn_from(sources[k], rest, k));
            let i = choose|i: int|
                k <= i < rest.len() && (#[trigger] rest[i]).order == sources[k].order && sources[k].quantity.0
                    <= rest[i].balance.0 && rest[i].balance.0 != 0;
            assert(candidates[i + 1] == rest[i]);
        }
    } else {
        let take = if candidates[0].balance.0 <= quantity {
            candidates[0].balance.0 as int
        } else {
            quantity
        };
        let first = Source { order: candidates[0].order, quantity: ContractOfOutcomeAmount(take as u64) };
        let rest = candidates.drop_first();
        if take == quantity {
            assert(sources =~= seq![first]);
            assert(candidates[0].order == sources[0].order);
        } else {
            lemma_greedy_within_candidates(rest, quantity - take);
            let tail = greedy_sources(rest, quantity - take);
            assert(sources =~= seq![first] + tail);
            assert forall|k: int| 0 <= k < sources.len() implies drawn_from(#[trigger] sources[k], candidates, k) by {
                if k == 0 {
                    assert(candidates[0].order == sources[0].order);
                } else {
                    assert(sources[k] == tail[k - 1]);
                    assert(drawn_from(tail[k - 1], rest, k - 1));
                    let i = choose|i: int|
                        k - 1 <= i < rest.len() && (#[trigger] rest[i]).order == tail[k - 1].order && tail[k
                            - 1].quantity.0 <= rest[i].balance.0 && rest[i].balance.0 != 0;
                    assert(candidates[i + 1] == rest[i]);
                }
            }
        }
    }
}

/// Appending a source adds its quantity to the total.
pub proof fn lemma_total_sourced_push(sources: Seq<Source>, last: Source)
    ensures
        total_sourced(sources.push(last)) == total_sourced(sources) + last.quantity.0,
    decreases sources.len(),
{
    let pushed = sources.push(last);
    if sources.len() == 0 {
        assert(pushed.drop_first() =~= Seq::<Source>::empty());
        assert(pushed[0] == last);
        assert(total_sourced(pushed) == last.quantity.0 + total_sourced(pushed.drop_first()));
    } else {
        assert(pushed.drop_first() =~= sources.drop_first().push(last));
        assert(pushed[0] == sources[0]);
        lemma_total_sourced_push(sources.drop_first(), last);
        assert(total_sourced(pushed) == pushed[0].quantity.0 + total_sourced(pushed.drop_first()));
    }
}

/// Covers `quantity` from the candidates, first come first served.
///
/// Succeeds exactly where the candidates hold at least `quantity` contracts
/// together. The sources then add up to `quantity`.
pub fn source_quantity(candidates: &Vec<SourceCandidate>, quantity: ContractOfOutcomeAmount) -> (r: Result<
    Vec<Source>,
    InsufficientLiquidity,
>)
    ensures
        r is Ok <==> total_balance(candidates@) >= quantity.0,
        r matches Ok(sources) ==> sources@ == greedy_sources(candidates@, quantity.0 as int) && total_sourced(
            sources@,
        ) == quantity.0,
{
    let mut sources: Vec<Source> = Vec::new();
    let mut sourced_quantity: u64 = 0;
    let mut covered = false;
    let mut i: usize = 0;
    proof {
        assert(candidates@.subrange(0, candidates@.len() as int) =~= candidates@);
    }
    while i < candidates.len() && !covered
        invariant
            i <= candidates.len(),
            sourced_quantity <= quantity.0,
            total_sourced(sources@) == sourced_quantity,
            covered ==> greedy_sources(candidates@, quantity.0 as int) == sources@,
            !covered ==> greedy_sources(candidates@, quantity.0 as int) == sources@ + greedy_sources(
                candidates@.subrange(i as int, candidates@.len() as int),
                quantity.0 - sourced_quantity,
            ),
        decreases candidates.len() - i, if covered { 0int } else { 1int },
    {
        let candidate = candidates[i];
        let ghost rest = candidates@.subrange(i as int, candidates@.len() as int);
        proof {
            assert(rest[0] == candidates@[i as int]);
            assert(rest.drop_first() =~= candidates@.subrange(i + 1, candidates@.len() as int));
        }
        if candidate.balance.0 != 0 {
            let missing = quantity.0 - sourced_quantity;
            let quantity_sourced_from_order = if candidate.balance.0 <= missing {
                candidate.balance.0
            } else {
                missing
            };
            let ghost before = sources@;
            sources.push(
                Source { order: candidate.order, quantity: ContractOfOutcomeAmount(quantity_sourced_from_order) },
            );
            sourced_quantity = sourced_quantity + quantity_sourced_from_order;
            proof {
                let first = Source {
                    order: candidate.order,
                    quantity: ContractOfOutcomeAmount(quantity_sourced_from_order),
                };
                assert(sources@ =~= before + seq![first]);
                assert(sources@ =~= before.push(first));
                lemma_total_sourced_push(before, first);
                if quantity_sourced_from_order != missing {
                    assert(before + (seq![first] + greedy_sources(rest.drop_first(), missing - quantity_sourced_from_order))
                        =~= (before + seq![first]) + greedy_sources(
                        rest.drop_first(),
                        missing - quantity_sourced_from_order,
                    ));
                }
            }
            if quantity.0 == sourced_quantity {
                covered = true;
            }
        }
        i += 1;
    }
    proof {
        lemma_greedy_total(candidates@, quantity.0 as int);
        if !covered {
            assert(candidates@.subrange(i as int, candidates@.len() as int) =~= Seq::<SourceCandidate>::empty());
            assert(sources@ + Seq::<Source>::empty() =~= sources@);
        }
    }
    if quantity.0 != sourced_quantity {
        return Err(InsufficientLiquidity);
    }
    Ok(sources)
}

/// `candidates` are the live orders of the market and outcome in the cache,
/// in ascending order of their ids, each with the contracts held on it.
pub open spec fn is_candidate_list(
    cache: OrderCacheState,
    market: OutPoint,
    outcome: Outcome,
    candidates: Seq<SourceCandidate>,
) -> bool {
    &&& forall|i: int, j: int| 0 <= i < j < candidates.len() ==> candidates[i].order.0 < candidates[j].order.0
    &&& forall|i: int|
        0 <= i < candidates.len() ==> {
            &&& cache.in_non_zero_index(Some(market), Some(outcome), (#[trigger] candidates[i]).order.0)
            &&& candidates[i].balance == cache.order(candidates[i].order.0)->0.contract_of_outcome_balance
        }
    &&& forall|id: u64|
        cache.in_non_zero_index(Some(market), Some(outcome), id) ==> exists|i: int|
            0 <= i < candidates.len() && (#[trigger] candidates[i]).order.0 == id
}

/// The orders that a sell order of the given market and outcome can draw on.
pub fn sell_candidates(cache: &OrderCache, market: OutPoint, outcome: Outcome) -> (candidates: Vec<SourceCandidate>)
    requires
        cache.wf(),
    ensures
        is_candidate_list(cache@, market, outcome, candidates@),
{
    let scope_market = Some(market);
    let scope_outcome = Some(outcome);
    let non_zero_market_outcome_orders = cache.non_zero_order_ids(&scope_market, &scope_outcome);
    let mut candidates: Vec<SourceCandidate> = Vec::new();
    let mut i: usize = 0;
    while i < non_zero_market_outcome_orders.len()
        invariant
            i <= non_zero_market_outcome_orders.len(),
            cache.wf(),
            scope_market == Some(market),
            scope_outcome == Some(outcome),
            ascending_ids(non_zero_market_outcome_orders@),
            forall|id: u64|
                non_zero_market_outcome_orders@.contains(OrderIdClientSide(id)) <==> cache@.in_non_zero_index(
                    scope_market,
                    scope_outcome,
                    id,
                ),
            candidates@.len() == i,
            forall|k: int|
                0 <= k < i ==> {
                    &&& (#[trigger] candidates@[k]).order == non_zero_market_outcome_orders@[k]
                    &&& candidates@[k].balance == cache@.order(candidates@[k].order.0)->0.contract_of_outcome_balance
                },
        decreases non_zero_market_outcome_orders.len() - i,
    {
        let order_id = non_zero_market_outcome_orders[i];
        proof {
            assert(non_zero_market_outcome_orders@.contains(OrderIdClientSide(order_id.0)));
            assert(cache@.in_non_zero_index(scope_market, scope_outcome, order_id.0));
        }
        let balance = match cache.get_order(order_id) {
            Some(order) => order.contract_of_outcome_balance,
            None => ContractOfOutcomeAmount(0),
        };
        let ghost before = candidates@;
        candidates.push(SourceCandidate { order: order_id, balance });
        proof {
            assert forall|k: int| 0 <= k < i + 1 implies {
                &&& (#[trigger] candidates@[k]).order == non_zero_market_outcome_orders@[k]
                &&& candidates@[k].balance == cache@.order(candidates@[k].order.0)->0.contract_of_outcome_balance
            } by {
                if k < i {
                    assert(candidates@[k] == before[k]);
                }
            }
        }
        i += 1;
    }
    proof {
        let ids = non_zero_market_outcome_orders@;
        assert forall|a: int, b: int| 0 <= a < b < candidates@.len() implies candidates@[a].order.0
            < candidates@[b].order.0 by {
            assert(candidates@[a].order == ids[a]);
            assert(candidates@[b].order == ids[b]);
        }
        assert forall|k: int| 0 <= k < candidates@.len() implies cache@.in_non_zero_index(
            Some(market),
            Some(outcome),
            (#[trigger] candidates@[k]).order.0,
        ) by {
            assert(candidates@[k].order == ids[k]);
            assert(ids.contains(OrderIdClientSide(ids[k].0)));
        }
        assert forall|id: u64| cache@.in_non_zero_index(Some(market), Some(outcome), id) implies exists|k: int|
            0 <= k < candidates@.len() && (#[trigger] candidates@[k]).order.0 == id by {
            assert(ids.contains(OrderIdClientSide(id)));
            let k = choose|k: int| 0 <= k < ids.len() && ids[k] == OrderIdClientSide(id);
            assert(candidates@[k].order.0 == id);
        }
    }
    candidates
}

/// Two lists of the same cache, market and outcome are the same list.
pub proof fn lemma_candidate_list_is_unique(
    cache: OrderCacheState,
    market: OutPoint,
    outcome: Outcome,
    a: Seq<SourceCandidate>,
    b: Seq<SourceCandidate>,
)
    requires
        is_candidate_list(cache, market, outcome, a),
        is_candidate_list(cache, market, outcome, b),
    ensures
        a == b,
    decreases a.len(),
{
    if a.len() == 0 {
        if b.len() > 0 {
            let id = b[0].order.0;
            assert(cache.in_non_zero_index(Some(market), Some(outcome), id));
        }
        assert(a =~= b);
    } else if b.len() == 0 {
        let id = a[0].order.0;
        assert(cache.in_non_zero_index(Some(market), Some(outcome), id));
    } else {
        // The last entry of each list is the order with the highest id.
        let la = a.last();
        let lb = b.last();
        assert(cache.in_non_zero_index(Some(market), Some(outcome), la.order.0));
        assert(cache.in_non_zero_index(Some(market), Some(outcome), lb.order.0));
        let ib = choose|i: int| 0 <= i < b.len() && (#[trigger] b[i]).order.0 == la.order.0;
        let ia = choose|i: int| 0 <= i < a.len() && (#[trigger] a[i]).order.0 == lb.order.0;
        if ib < b.len() - 1 {
            assert(b[ib].order.0 < b[b.len() - 1].order.0);
        }
        if ia < a.len() - 1 {
            assert(a[ia].order.0 < a[a.len() - 1].order.0);
        }
        assert(la.order.0 == lb.order.0);
        assert(la == lb);
        // Without that order the shorter lists are lists of a cache without it.
        let rest = OrderCacheState { slots: cache.slots.remove(la.order.0), ..cache };
        assert forall|x: Seq<SourceCandidate>|
            is_candidate_list(cache, market, outcome, x) && x.len() > 0 && x.last().order.0 == la.order.0
                implies #[trigger] is_candidate_list(rest, market, outcome, x.drop_last()) by {
            let y = x.drop_last();
            assert forall|i: int| 0 <= i < y.len() implies {
                &&& rest.in_non_zero_index(Some(market), Some(outcome), (#[trigger] y[i]).order.0)
                &&& y[i].balance == rest.order(y[i].order.0)->0.contract_of_outcome_balance
            } by {
                assert(y[i] == x[i]);
                assert(x[i].order.0 < x[x.len() - 1].order.0);
            }
            assert forall|id: u64| rest.in_non_zero_index(Some(market), Some(outcome), id) implies exists|i: int|
                0 <= i < y.len() && (#[trigger] y[i]).order.0 == id by {
                assert(cache.in_non_zero_index(Some(market), Some(outcome), id));
                let i = choose|i: int| 0 <= i < x.len() && (#[trigger] x[i]).order.0 == id;
                assert(y[i] == x[i]);
            }
        }
        assert(is_candidate_list(rest, market, outcome, a.drop_last()));
        assert(is_candidate_list(rest, market, outcome, b.drop_last()));
        lemma_candidate_list_is_unique(rest, market, outcome, a.drop_last(), b.drop_last());
        assert(a =~= a.drop_last().push(la));
        assert(b =~= b.drop_last().push(lb));
    }
}

} // verus!
