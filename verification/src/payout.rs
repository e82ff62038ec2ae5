//! Finding the payout that the payout controls of a market have agreed on.
//!
//! Each payout control of a market publishes a signed statement of the payout
//! it has observed. The statements are fetched from a source that is not
//! trusted: it may repeat or leave out statements and may hand over statements
//! of strangers. The client counts one statement per payout control, adds up
//! the weights behind each proposed payout, and proposes the first payout
//! whose weight reaches the market's threshold, together with the statements
//! themselves. The federation checks them again.
use crate::types::Amount;
use crate::types::Identity;
use crate::types::Weight;
use crate::types::WeightRequiredForPayout;
use vstd::prelude::*;

verus! {

/// A payout control's signed statement of a market's payout.
#[derive(Clone, Debug, PartialEq, Eq)]
pub struct Attestation {
    /// Who made the statement.
    pub payout_control: Identity,
    /// The payout per outcome that it states.
    pub payout: Vec<Amount>,
    /// The signed statement as it was published.
    pub event_json: String,
}

/// A payout that enough weight stands behind, with the statements that show it.
#[derive(Clone, Debug, PartialEq, Eq)]
pub struct PayoutDecision {
    pub payout: Vec<Amount>,
    pub event_payout_attestations_json: Vec<String>,
}

/// The weight of a payout control in a market; none for a stranger.
pub open spec fn weight_of(weights: Seq<(Identity, Weight)>, payout_control: Identity) -> Option<Weight>
    decreases weights.len(),
{
    if weights.len() == 0 {
        None
    } else if weights[0].0 == payout_control {
        Some(weights[0].1)
    } else {
        weight_of(weights.drop_first(), payout_control)
    }
}

/// The statement at position `i` counts: it comes from a payout control of
/// the market, and no earlier statement comes from the same one.
pub open spec fn counts(attestations: Seq<Attestation>, weights: Seq<(Identity, Weight)>, i: int) -> bool {
    &&& weight_of(weights, attestations[i].payout_control) is Some
    &&& forall|j: int| 0 <= j < i ==> (#[trigger] attestations[j]).payout_control != attestations[i].payout_control
}

/// The statement at position `i` counts and states `payout`.
pub open spec fn backs(
    attestations: Seq<Attestation>,
    weights: Seq<(Identity, Weight)>,
    payout: Seq<Amount>,
    i: int,
) -> bool {
    counts(attestations, weights, i) && attestations[i].payout@ == payout
}

/// The summed weight behind `payout` among the first `n` statements.
pub open spec fn support(
    attestations: Seq<Attestation>,
    weights: Seq<(Identity, Weight)>,
    payout: Seq<Amount>,
    n: int,
) -> int
    decreases n,
{
    if n <= 0 {
        0
    } else {
        support(attestations, weights, payout, n - 1) + if backs(attestations, weights, payout, n - 1) {
            weight_of(weights, attestations[n - 1].payout_control)->0 as int
        } else {
            0
        }
    }
}

/// The positions of the statements behind `payout` among the first `n`, in ascending order.
pub open spec fn backers(
    attestations: Seq<Attestation>,
    weights: Seq<(Identity, Weight)>,
    payout: Seq<Amount>,
    n: int,
) -> Seq<int>
    decreases n,
{
    if n <= 0 {
        Seq::empty()
    } else if backs(attestations, weights, payout, n - 1) {
        backers(attestations, weights, payout, n - 1).push(n - 1)
    } else {
        backers(attestations, weights, payout, n - 1)
    }
}

/// The statement at position `i` counts, and the payout that it states has
/// the threshold's weight behind it.
pub open spec fn carries(
    attestations: Seq<Attestation>,
    weights: Seq<(Identity, Weight)>,
    threshold: WeightRequiredForPayout,
    i: int,
) -> bool {
    &&& 0 <= i < attestations.len()
    &&& counts(attestations, weights, i)
    &&& support(attestations, weights, attestations[i].payout@, attestations.len() as int) >= threshold
}

/// `evidence` holds the published statements at the given positions, in that order.
pub open spec fn is_evidence(evidence: Seq<String>, attestations: Seq<Attestation>, positions: Seq<int>) -> bool {
    &&& evidence.len() == positions.len()
    &&& forall|k: int| 0 <= k < evidence.len() ==> #[trigger] evidence[k] == attestations[positions[k]].event_json
}

/// What the decision is to be. There is a payout exactly where some counting
/// statement states a payout with the threshold's weight behind it. The
/// payout is that of the earliest such statement, and the evidence is every
/// counting statement of that payout.
pub open spec fn decides(
    attestations: Seq<Attestation>,
    weights: Seq<(Identity, Weight)>,
    threshold: WeightRequiredForPayout,
    decision: Option<PayoutDecision>,
) -> bool {
    match decision {
        None => forall|i: int| !carries(attestations, weights, threshold, i),
        Some(found) => exists|i: int|
            {
                &&& #[trigger] carries(attestations, weights, threshold, i)
                &&& forall|j: int| 0 <= j < i ==> !carries(attestations, weights, threshold, j)
                &&& found.payout@ == attestations[i].payout@
                &&& is_evidence(
                    found.event_payout_attestations_json@,
                    attestations,
                    backers(attestations, weights, attestations[i].payout@, attestations.len() as int),
                )
            },
    }
}

/// No weight is behind a payout that no statement backs, and a weight is at
/// most the largest one for each statement so far.
pub proof fn lemma_support_bounds(
    attestations: Seq<Attestation>,
    weights: Seq<(Identity, Weight)>,
    payout: Seq<Amount>,
    n: int,
)
    requires
        0 <= n <= attestations.len(),
    ensures
        0 <= support(attestations, weights, payout, n) <= n * 0xffff,
        (forall|j: int| 0 <= j < n ==> !backs(attestations, weights, payout, j)) ==> support(
            attestations,
            weights,
            payout,
            n,
        ) == 0 && backers(attestations, weights, payout, n) =~= Seq::<int>::empty(),
    decreases n,
{
    if n > 0 {
        lemma_support_bounds(attestations, weights, payout, n - 1);
    }
}

/// A single statement decides a payout exactly if its payout control has at
/// least the threshold's weight on its own.
pub proof fn lemma_lone_attestation(
    attestations: Seq<Attestation>,
    weights: Seq<(Identity, Weight)>,
    threshold: WeightRequiredForPayout,
)
    requires
        attestations.len() == 1,
    ensures
        carries(attestations, weights, threshold, 0) <==> (weight_of(weights, attestations[0].payout_control) matches Some(
            weight,
        ) && weight >= threshold),
        forall|i: int| i != 0 ==> !carries(attestations, weights, threshold, i),
{
    reveal_with_fuel(support, 2);
}

/// Looks up the weight of a payout control.
pub fn find_weight(weights: &Vec<(Identity, Weight)>, payout_control: &Identity) -> (r: Option<Weight>)
    ensures
        r == weight_of(weights@, *payout_control),
{
    let mut i: usize = 0;
    proof {
        assert(weights@.subrange(0, weights@.len() as int) =~= weights@);
    }
    while i < weights.len()
        invariant
            i <= weights.len(),
            weight_of(weights@, *payout_control) == weight_of(
                weights@.subrange(i as int, weights@.len() as int),
                *payout_control,
            ),
        decreases weights.len() - i,
    {
        let ghost rest = weights@.subrange(i as int, weights@.len() as int);
        proof {
            assert(rest[0] == weights@[i as int]);
            assert(rest.drop_first() =~= weights@.subrange(i + 1, weights@.len() as int));
        }
        if weights[i].0.same_as(payout_control) {
            return Some(weights[i].1);
        }
        i += 1;
    }
    None
}

/// Whether two payouts are the same.
pub fn same_payout(a: &Vec<Amount>, b: &Vec<Amount>) -> (r: bool)
    ensures
        r == (a@ == b@),
{
    if a.len() != b.len() {
        return false;
    }
    let mut i: usize = 0;
    while i < a.len()
        invariant
            i <= a.len(),
            a.len() == b.len(),
            forall|j: int| 0 <= j < i ==> a@[j] == b@[j],
        decreases a.len() - i,
    {
        if a[i] != b[i] {
            return false;
        }
        i += 1;
    }
    assert(a@ =~= b@);
    true
}

/// A copy of a payout.
fn copy_payout(payout: &Vec<Amount>) -> (r: Vec<Amount>)
    ensures
        r@ == payout@,
{
    let mut out: Vec<Amount> = Vec::new();
    let mut i: usize = 0;
    while i < payout.len()
        invariant
            i <= payout.len(),
            out@ == payout@.subrange(0, i as int),
        decreases payout.len() - i,
    {
        out.push(payout[i]);
        assert(payout@.subrange(0, i + 1) =~= payout@.subrange(0, i as int).push(payout@[i as int]));
        i += 1;
    }
    assert(payout@.subrange(0, payout@.len() as int) =~= payout@);
    out
}

/// Whether `identity` is among `seen`.
fn was_seen(seen: &Vec<Identity>, identity: &Identity) -> (r: bool)
    ensures
        r == seen@.contains(*identity),
{
    let mut i: usize = 0;
    while i < seen.len()
        invariant
            i <= seen.len(),
            forall|j: int| 0 <= j < i ==> seen@[j] != *identity,
        decreases seen.len() - i,
    {
        if seen[i].same_as(identity) {
            return true;
        }
        i += 1;
    }
    false
}

/// The statements counted so far for one payout.
struct Tally {
    first: usize,
    payout: Vec<Amount>,
    weight: u128,
    evidence: Vec<String>,
}

/// The tallies are those of the first `n` statements: one for each payout
/// that a counting statement states, in the order in which the payouts first
/// came up.
spec fn tallied(
    tallies: Seq<Tally>,
    attestations: Seq<Attestation>,
    weights: Seq<(Identity, Weight)>,
    n: int,
) -> bool {
    &&& forall|g: int|
        0 <= g < tallies.len() ==> {
            &&& 0 <= (#[trigger] tallies[g]).first < n
            &&& backs(attestations, weights, tallies[g].payout@, tallies[g].first as int)
            &&& forall|j: int| 0 <= j < tallies[g].first ==> !backs(attestations, weights, tallies[g].payout@, j)
            &&& tallies[g].weight == support(attestations, weights, tallies[g].payout@, n)
            &&& is_evidence(
                tallies[g].evidence@,
                attestations,
                backers(attestations, weights, tallies[g].payout@, n),
            )
        }
    &&& forall|a: int, b: int| 0 <= a < b < tallies.len() ==> (#[trigger] tallies[a]).first < (#[trigger] tallies[b]).first
    &&& forall|j: int|
        0 <= j < n && counts(attestations, weights, j) ==> has_tally(tallies, (#[trigger] attestations[j]).payout@)
}

/// Some tally is that of `payout`.
spec fn has_tally(tallies: Seq<Tally>, payout: Seq<Amount>) -> bool {
    exists|g: int| 0 <= g < tallies.len() && (#[trigger] tallies[g]).payout@ == payout
}

/// The identities seen are those of the counted statements among the first `n`.
spec fn seen_upto(
    seen: Seq<Identity>,
    attestations: Seq<Attestation>,
    weights: Seq<(Identity, Weight)>,
    n: int,
) -> bool {
    forall|identity: Identity|
        #[trigger] seen.contains(identity) <==> (weight_of(weights, identity) is Some && exists|j: int|
            0 <= j < n && (#[trigger] attestations[j]).payout_control == identity)
}

/// The position of the tally of `payout`, if it has one.
fn find_tally(tallies: &Vec<Tally>, payout: &Vec<Amount>) -> (r: Option<usize>)
    ensures
        match r {
            Some(g) => g < tallies.len() && tallies@[g as int].payout@ == payout@,
            None => !has_tally(tallies@, payout@),
        },
{
    let mut g: usize = 0;
    while g < tallies.len()
        invariant
            g <= tallies.len(),
            forall|h: int| 0 <= h < g ==> (#[trigger] tallies@[h]).payout@ != payout@,
        decreases tallies.len() - g,
    {
        if same_payout(&tallies[g].payout, payout) {
            return Some(g);
        }
        g += 1;
    }
    None
}

/// Finds the payout that the payout controls have agreed on.
///
/// `weights` lists the payout controls of the market with their weights; of
/// an identity listed twice the first entry holds. `attestations` are the
/// statements in the order in which they were fetched.
pub fn determine_payout(
    weights: &Vec<(Identity, Weight)>,
    weight_required_for_payout: WeightRequiredForPayout,
    attestations: &Vec<Attestation>,
) -> (decision: Option<PayoutDecision>)
    ensures
        decides(attestations@, weights@, weight_required_for_payout, decision),
{
    let mut seen_payout_controls: Vec<Identity> = Vec::new();
    let mut tallies: Vec<Tally> = Vec::new();
    let mut n: usize = 0;
    while n < attestations.len()
        invariant
            n <= attestations.len(),
            seen_upto(seen_payout_controls@, attestations@, weights@, n as int),
            tallied(tallies@, attestations@, weights@, n as int),
        decreases attestations.len() - n,
    {
        let attestation = &attestations[n];
        let ghost next: int = n + 1;
        let ghost before = tallies@;
        let ghost seen_before = seen_payout_controls@;
        let counted = match find_weight(weights, &attestation.payout_control) {
            None => None,
            Some(weight) => {
                if was_seen(&seen_payout_controls, &attestation.payout_control) {
                    None
                } else {
                    Some(weight)
                }
            },
        };
        proof {
            if counted is Some {
                assert forall|j: int| 0 <= j < n implies (#[trigger] attestations@[j]).payout_control
                    != attestation.payout_control by {
                    if attestations@[j].payout_control == attestation.payout_control {
                        assert(seen_before.contains(attestation.payout_control));
                    }
                }
            } else if weight_of(weights@, attestation.payout_control) is Some {
                assert(seen_before.contains(attestation.payout_control));
                let j = choose|j: int| 0 <= j < n && (#[trigger] attestations@[j]).payout_control
                    == attestation.payout_control;
                assert(attestations@[j].payout_control == attestations@[n as int].payout_control);
            }
            assert(counted is Some <==> counts(attestations@, weights@, n as int));
        }
        match counted {
            None => {
                proof {
                    lemma_seen_step(seen_before, seen_before, false, attestations@, weights@, n as int);
                    lemma_tallies_skip(before, attestations@, weights@, n as int);
                }
            },
            Some(weight) => {
                seen_payout_controls.push(attestation.payout_control);
                proof {
                    lemma_seen_step(seen_before, seen_payout_controls@, true, attestations@, weights@, n as int);
                }
                match find_tally(&tallies, &attestation.payout) {
                    Some(g) => {
                        let mut tally = tallies.remove(g);
                        proof {
                            lemma_support_bounds(attestations@, weights@, tally.payout@, n as int);
                        }
                        tally.weight = tally.weight + (weight as u128);
                        tally.evidence.push(attestation.event_json.clone());
                        tallies.insert(g, tally);
                        proof {
                            lemma_tallies_join(before, tallies@, g as int, attestations@, weights@, n as int);
                        }
                    },
                    None => {
                        let mut evidence: Vec<String> = Vec::new();
                        evidence.push(attestation.event_json.clone());
                        tallies.push(
                            Tally {
                                first: n,
                                payout: copy_payout(&attestation.payout),
                                weight: weight as u128,
                                evidence,
                            },
                        );
                        proof {
                            lemma_tallies_open(before, tallies@, attestations@, weights@, n as int);
                        }
                    },
                }
            },
        }
        n += 1;
        assert(n as int == next);
    }
    let mut g: usize = 0;
    while g < tallies.len()
        invariant
            g <= tallies.len(),
            n == attestations.len(),
            tallied(tallies@, attestations@, weights@, n as int),
            forall|h: int| 0 <= h < g ==> (#[trigger] tallies@[h]).weight < weight_required_for_payout,
        decreases tallies.len() - g,
    {
        if tallies[g].weight >= weight_required_for_payout as u128 {
            proof {
                lemma_first_tally_decides(tallies@, g as int, attestations@, weights@, weight_required_for_payout);
            }
            let tally = tallies.remove(g);
            let found = PayoutDecision { payout: tally.payout, event_payout_attestations_json: tally.evidence };
            return Some(found);
        }
        g += 1;
    }
    proof {
        assert forall|i: int| !carries(attestations@, weights@, weight_required_for_payout, i) by {
            if carries(attestations@, weights@, weight_required_for_payout, i) {
                assert(has_tally(tallies@, attestations@[i].payout@));
                let h = choose|h: int| 0 <= h < tallies@.len() && (#[trigger] tallies@[h]).payout@
                    == attestations@[i].payout@;
                assert(tallies@[h].weight < weight_required_for_payout);
            }
        }
    }
    None
}

/// One more statement is looked at: `after` is `before`, with the
/// statement's identity added where the statement comes from a payout control.
proof fn lemma_seen_step(
    before: Seq<Identity>,
    after: Seq<Identity>,
    added: bool,
    attestations: Seq<Attestation>,
    weights: Seq<(Identity, Weight)>,
    n: int,
)
    requires
        0 <= n < attestations.len(),
        seen_upto(before, attestations, weights, n),
        added ==> after == before.push(attestations[n].payout_control) && weight_of(
            weights,
            attestations[n].payout_control,
        ) is Some,
        !added ==> after == before && (weight_of(weights, attestations[n].payout_control) is None
            || before.contains(attestations[n].payout_control)),
    ensures
        seen_upto(after, attestations, weights, n + 1),
{
    let who = attestations[n].payout_control;
    assert forall|identity: Identity|
        #[trigger] after.contains(identity) <==> (weight_of(weights, identity) is Some && exists|j: int|
            0 <= j < n + 1 && (#[trigger] attestations[j]).payout_control == identity) by {
        if before.contains(identity) {
            let k = choose|k: int| 0 <= k < before.len() && before[k] == identity;
            if added {
                assert(after[k] == identity);
            }
            let j = choose|j: int| 0 <= j < n && (#[trigger] attestations[j]).payout_control == identity;
            assert(0 <= j < n + 1 && attestations[j].payout_control == identity);
        }
        if after.contains(identity) && !before.contains(identity) {
            let k = choose|k: int| 0 <= k < after.len() && after[k] == identity;
            assert(k == before.len());
            assert(identity == who);
            assert(attestations[n].payout_control == identity);
        }
        if weight_of(weights, identity) is Some && exists|j: int|
            0 <= j < n + 1 && (#[trigger] attestations[j]).payout_control == identity {
            let j = choose|j: int| 0 <= j < n + 1 && (#[trigger] attestations[j]).payout_control == identity;
            if j < n {
                assert(before.contains(identity));
            } else {
                if !added {
                    assert(before.contains(identity));
                } else {
                    assert(after[before.len() as int] == identity);
                }
            }
        }
    }
}

/// A statement that does not count leaves every tally as it is.
proof fn lemma_tallies_skip(
    tallies: Seq<Tally>,
    attestations: Seq<Attestation>,
    weights: Seq<(Identity, Weight)>,
    n: int,
)
    requires
        0 <= n < attestations.len(),
        tallied(tallies, attestations, weights, n),
        !counts(attestations, weights, n),
    ensures
        tallied(tallies, attestations, weights, n + 1),
{
    assert forall|g: int| 0 <= g < tallies.len() implies {
        &&& 0 <= (#[trigger] tallies[g]).first < n + 1
        &&& backs(attestations, weights, tallies[g].payout@, tallies[g].first as int)
        &&& forall|j: int| 0 <= j < tallies[g].first ==> !backs(attestations, weights, tallies[g].payout@, j)
        &&& tallies[g].weight == support(attestations, weights, tallies[g].payout@, n + 1)
        &&& is_evidence(tallies[g].evidence@, attestations, backers(attestations, weights, tallies[g].payout@, n + 1))
    } by {
        assert(!backs(attestations, weights, tallies[g].payout@, n));
    }
}

/// A counting statement whose payout has a tally adds its weight and its
/// text to that tally and leaves the others as they are.
proof fn lemma_tallies_join(
    before: Seq<Tally>,
    after: Seq<Tally>,
    g: int,
    attestations: Seq<Attestation>,
    weights: Seq<(Identity, Weight)>,
    n: int,
)
    requires
        0 <= n < attestations.len(),
        0 <= g < before.len(),
        tallied(before, attestations, weights, n),
        counts(attestations, weights, n),
        before[g].payout@ == attestations[n].payout@,
        after.len() == before.len(),
        forall|h: int| 0 <= h < before.len() && h != g ==> after[h] == before[h],
        after[g].first == before[g].first,
        after[g].payout == before[g].payout,
        after[g].weight == before[g].weight + weight_of(weights, attestations[n].payout_control)->0,
        after[g].evidence@ == before[g].evidence@.push(attestations[n].event_json),
    ensures
        tallied(after, attestations, weights, n + 1),
{
    assert forall|h: int| 0 <= h < after.len() implies {
        &&& 0 <= (#[trigger] after[h]).first < n + 1
        &&& backs(attestations, weights, after[h].payout@, after[h].first as int)
        &&& forall|j: int| 0 <= j < after[h].first ==> !backs(attestations, weights, after[h].payout@, j)
        &&& after[h].weight == support(attestations, weights, after[h].payout@, n + 1)
        &&& is_evidence(after[h].evidence@, attestations, backers(attestations, weights, after[h].payout@, n + 1))
    } by {
        assert(0 <= before[h].first < n);
        if h == g {
            assert(backs(attestations, weights, after[h].payout@, n));
            let positions = backers(attestations, weights, after[h].payout@, n);
            assert(is_evidence(before[h].evidence@, attestations, positions));
            assert forall|k: int| 0 <= k < after[h].evidence@.len() implies #[trigger] after[h].evidence@[k]
                == attestations[positions.push(n)[k]].event_json by {
                if k < positions.len() {
                    assert(after[h].evidence@[k] == before[h].evidence@[k]);
                }
            }
        } else {
            assert(after[h] == before[h]);
            if before[h].payout@ == attestations[n].payout@ {
                let lo = if h < g { h } else { g };
                let hi = if h < g { g } else { h };
                assert(before[lo].first < before[hi].first);
                assert(backs(attestations, weights, before[hi].payout@, before[lo].first as int));
            }
            assert(!backs(attestations, weights, after[h].payout@, n));
        }
    }
    assert forall|a: int, b: int| 0 <= a < b < after.len() implies (#[trigger] after[a]).first < (
    #[trigger] after[b]).first by {
        assert(before[a].first < before[b].first);
        assert(after[a].first == before[a].first);
        assert(after[b].first == before[b].first);
    }
    assert forall|j: int| 0 <= j < n + 1 && counts(attestations, weights, j) implies has_tally(
        after,
        (#[trigger] attestations[j]).payout@,
    ) by {
        if j < n {
            assert(has_tally(before, attestations[j].payout@));
            let h = choose|h: int| 0 <= h < before.len() && (#[trigger] before[h]).payout@ == attestations[j].payout@;
            assert(after[h].payout@ == attestations[j].payout@);
        } else {
            assert(after[g].payout@ == attestations[j].payout@);
        }
    }
}

/// A counting statement whose payout has no tally yet opens one.
proof fn lemma_tallies_open(
    before: Seq<Tally>,
    after: Seq<Tally>,
    attestations: Seq<Attestation>,
    weights: Seq<(Identity, Weight)>,
    n: int,
)
    requires
        0 <= n < attestations.len(),
        tallied(before, attestations, weights, n),
        counts(attestations, weights, n),
        !has_tally(before, attestations[n].payout@),
        after.len() == before.len() + 1,
        forall|h: int| 0 <= h < before.len() ==> after[h] == before[h],
        after[before.len() as int].first == n,
        after[before.len() as int].payout@ == attestations[n].payout@,
        after[before.len() as int].weight == weight_of(weights, attestations[n].payout_control)->0,
        after[before.len() as int].evidence@ == seq![attestations[n].event_json],
    ensures
        tallied(after, attestations, weights, n + 1),
{
    let payout = attestations[n].payout@;
    assert forall|j: int| 0 <= j < n implies !backs(attestations, weights, payout, j) by {
        if backs(attestations, weights, payout, j) {
            assert(has_tally(before, attestations[j].payout@));
        }
    }
    lemma_support_bounds(attestations, weights, payout, n);
    assert forall|h: int| 0 <= h < after.len() implies {
        &&& 0 <= (#[trigger] after[h]).first < n + 1
        &&& backs(attestations, weights, after[h].payout@, after[h].first as int)
        &&& forall|j: int| 0 <= j < after[h].first ==> !backs(attestations, weights, after[h].payout@, j)
        &&& after[h].weight == support(attestations, weights, after[h].payout@, n + 1)
        &&& is_evidence(after[h].evidence@, attestations, backers(attestations, weights, after[h].payout@, n + 1))
    } by {
        if h < before.len() {
            assert(after[h] == before[h]);
            assert(0 <= before[h].first < n);
            assert(before[h].payout@ != payout);
            assert(!backs(attestations, weights, after[h].payout@, n));
        } else {
            assert(backs(attestations, weights, payout, n));
            assert(backers(attestations, weights, payout, n + 1) =~= seq![n]);
        }
    }
    assert forall|a: int, b: int| 0 <= a < b < after.len() implies (#[trigger] after[a]).first < (
    #[trigger] after[b]).first by {
        if b < before.len() {
            assert(before[a].first < before[b].first);
            assert(after[a] == before[a]);
            assert(after[b] == before[b]);
        } else {
            assert(after[a] == before[a]);
            assert(0 <= before[a].first < n);
        }
    }
    assert forall|j: int| 0 <= j < n + 1 && counts(attestations, weights, j) implies has_tally(
        after,
        (#[trigger] attestations[j]).payout@,
    ) by {
        if j < n {
            assert(has_tally(before, attestations[j].payout@));
            let h = choose|h: int| 0 <= h < before.len() && (#[trigger] before[h]).payout@ == attestations[j].payout@;
            assert(after[h].payout@ == attestations[j].payout@);
        } else {
            assert(after[before.len() as int].payout@ == attestations[j].payout@);
        }
    }
}

/// The first tally with the threshold's weight is that of the earliest
/// statement that carries.
proof fn lemma_first_tally_decides(
    tallies: Seq<Tally>,
    g: int,
    attestations: Seq<Attestation>,
    weights: Seq<(Identity, Weight)>,
    threshold: WeightRequiredForPayout,
)
    requires
        0 <= g < tallies.len(),
        tallied(tallies, attestations, weights, attestations.len() as int),
        tallies[g].weight >= threshold,
        forall|h: int| 0 <= h < g ==> (#[trigger] tallies[h]).weight < threshold,
    ensures
        decides(
            attestations,
            weights,
            threshold,
            Some(PayoutDecision { payout: tallies[g].payout, event_payout_attestations_json: tallies[g].evidence }),
        ),
{
    let i = tallies[g].first as int;
    assert(carries(attestations, weights, threshold, i));
    assert forall|j: int| 0 <= j < i implies !carries(attestations, weights, threshold, j) by {
        if carries(attestations, weights, threshold, j) {
            assert(has_tally(tallies, attestations[j].payout@));
            let h = choose|h: int| 0 <= h < tallies.len() && (#[trigger] tallies[h]).payout@ == attestations[j].payout@;
            assert(backs(attestations, weights, tallies[h].payout@, j));
            assert(tallies[h].first <= j);
            if h > g {
                assert(tallies[g].first < tallies[h].first);
            } else if h == g {
            } else {
                assert(tallies[h].weight < threshold);
            }
        }
    }
}

} // verus!
