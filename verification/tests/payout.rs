use fedimint_prediction_markets_client::payout::determine_payout;
use fedimint_prediction_markets_client::payout::find_weight;
use fedimint_prediction_markets_client::payout::same_payout;
use fedimint_prediction_markets_client::payout::Attestation;
use fedimint_prediction_markets_client::payout::PayoutDecision;
use fedimint_prediction_markets_client::types::Amount;
use fedimint_prediction_markets_client::types::Identity;

fn payout_identity(byte: u8) -> Identity {
    let mut bytes = [byte; 33];
    bytes[0] = 2;
    Identity(bytes)
}

fn payout_vector(msats: &[u64]) -> Vec<Amount> {
    msats.iter().map(|m| Amount { msats: *m }).collect()
}

fn payout_attestation(who: u8, payout: &[u64], text: &str) -> Attestation {
    Attestation { payout_control: payout_identity(who), payout: payout_vector(payout), event_json: String::from(text) }
}

fn payout_weights() -> Vec<(Identity, u16)> {
    vec![(payout_identity(b'A'), 1), (payout_identity(b'B'), 1), (payout_identity(b'C'), 2)]
}

fn payout_texts(texts: &[&str]) -> Vec<String> {
    texts.iter().map(|t| String::from(*t)).collect()
}

#[test]
fn payout_with_enough_weight_is_accepted() {
    let attestations =
        vec![payout_attestation(b'A', &[1000, 0], "from A"), payout_attestation(b'C', &[1000, 0], "from C")];
    let decision = determine_payout(&payout_weights(), 2, &attestations);
    assert_eq!(
        decision,
        Some(PayoutDecision {
            payout: payout_vector(&[1000, 0]),
            event_payout_attestations_json: payout_texts(&["from A", "from C"]),
        })
    );
}

#[test]
fn lone_attestation_below_threshold_gives_no_payout() {
    let attestations = vec![payout_attestation(b'B', &[1000, 0], "from B")];
    assert_eq!(determine_payout(&payout_weights(), 2, &attestations), None);
}

#[test]
fn attestation_with_threshold_weight_is_enough_alone() {
    let attestations = vec![payout_attestation(b'C', &[0, 1000], "from C")];
    let decision = determine_payout(&payout_weights(), 2, &attestations).unwrap();
    assert_eq!(decision.payout, payout_vector(&[0, 1000]));
    assert_eq!(decision.event_payout_attestations_json, payout_texts(&["from C"]));
}

#[test]
fn repeated_attestation_counts_once() {
    let attestations = vec![
        payout_attestation(b'B', &[1000, 0], "from B"),
        payout_attestation(b'B', &[1000, 0], "from B again"),
        payout_attestation(b'B', &[1000, 0], "from B once more"),
    ];
    assert_eq!(determine_payout(&payout_weights(), 2, &attestations), None);
}

#[test]
fn second_statement_of_a_payout_control_is_ignored_even_if_it_differs() {
    let attestations = vec![
        payout_attestation(b'A', &[1000, 0], "A first"),
        payout_attestation(b'A', &[0, 1000], "A second"),
        payout_attestation(b'B', &[0, 1000], "B"),
    ];
    assert_eq!(determine_payout(&payout_weights(), 2, &attestations), None);
    let decision = determine_payout(&payout_weights(), 1, &attestations).unwrap();
    assert_eq!(decision.payout, payout_vector(&[1000, 0]));
    assert_eq!(decision.event_payout_attestations_json, payout_texts(&["A first"]));
}

#[test]
fn strangers_are_not_counted() {
    let attestations = vec![
        payout_attestation(b'X', &[1000, 0], "X"),
        payout_attestation(b'Y', &[1000, 0], "Y"),
        payout_attestation(b'A', &[1000, 0], "A"),
    ];
    assert_eq!(determine_payout(&payout_weights(), 2, &attestations), None);
    let decision = determine_payout(&payout_weights(), 1, &attestations).unwrap();
    assert_eq!(decision.event_payout_attestations_json, payout_texts(&["A"]));
}

#[test]
fn weights_are_summed_per_payout() {
    let attestations = vec![
        payout_attestation(b'A', &[1000, 0], "A"),
        payout_attestation(b'C', &[0, 1000], "C"),
        payout_attestation(b'B', &[1000, 0], "B"),
    ];
    assert_eq!(determine_payout(&payout_weights(), 3, &attestations), None);
    // Both payouts reach 2; the one that came up first is taken.
    let decision = determine_payout(&payout_weights(), 2, &attestations).unwrap();
    assert_eq!(decision.payout, payout_vector(&[1000, 0]));
    assert_eq!(decision.event_payout_attestations_json, payout_texts(&["A", "B"]));
}

#[test]
fn later_payout_wins_when_the_first_lacks_weight() {
    let attestations = vec![payout_attestation(b'A', &[1000, 0], "A"), payout_attestation(b'C', &[0, 1000], "C")];
    let decision = determine_payout(&payout_weights(), 2, &attestations).unwrap();
    assert_eq!(decision.payout, payout_vector(&[0, 1000]));
}

#[test]
fn no_attestations_give_no_payout() {
    assert_eq!(determine_payout(&payout_weights(), 0, &vec![]), None);
    assert_eq!(determine_payout(&payout_weights(), 2, &vec![]), None);
}

#[test]
fn threshold_zero_takes_the_first_counted_payout() {
    let attestations = vec![payout_attestation(b'X', &[5], "X"), payout_attestation(b'B', &[7], "B")];
    let decision = determine_payout(&payout_weights(), 0, &attestations).unwrap();
    assert_eq!(decision.payout, payout_vector(&[7]));
}

#[test]
fn payout_controls_without_weight_map_never_decide() {
    let attestations = vec![payout_attestation(b'A', &[5], "A")];
    assert_eq!(determine_payout(&vec![], 1, &attestations), None);
    assert_eq!(determine_payout(&vec![], 0, &attestations), None);
}

#[test]
fn largest_weights_add_up_without_wrapping() {
    let weights: Vec<(Identity, u16)> = (0..40u8).map(|i| (payout_identity(i), u16::MAX)).collect();
    let attestations: Vec<Attestation> = (0..40u8).map(|i| payout_attestation(i, &[1], "x")).collect();
    assert!(determine_payout(&weights, 40 * 65535, &attestations).is_some());
    assert_eq!(determine_payout(&weights, 40 * 65535 + 1, &attestations), None);
}

#[test]
fn find_weight_takes_first_entry_of_an_identity() {
    let weights = vec![(payout_identity(1), 4), (payout_identity(2), 5), (payout_identity(1), 6)];
    assert_eq!(find_weight(&weights, &payout_identity(1)), Some(4));
    assert_eq!(find_weight(&weights, &payout_identity(2)), Some(5));
    assert_eq!(find_weight(&weights, &payout_identity(3)), None);
}

#[test]
fn same_payout_compares_length_and_entries() {
    assert!(same_payout(&payout_vector(&[1, 2]), &payout_vector(&[1, 2])));
    assert!(!same_payout(&payout_vector(&[1, 2]), &payout_vector(&[1, 3])));
    assert!(!same_payout(&payout_vector(&[1, 2]), &payout_vector(&[1])));
    assert!(same_payout(&payout_vector(&[]), &payout_vector(&[])));
}
