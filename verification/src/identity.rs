//! Keys of the client, derived from its root secret.
//!
//! No private key is stored. The key pair of the payout control and the key
//! pair of each order are computed from the root secret along a fixed path
//! whenever they are needed: child 0 for the payout control, child 1 and then
//! the order's id for an order.
use crate::types::Identity;
use crate::types::OrderIdClientSide;
use fedimint_derive_secret::ChildId;
use fedimint_derive_secret::DerivableSecret;
use secp256k1::KeyPair;
use secp256k1::PublicKey;
use secp256k1::Secp256k1;
use vstd::prelude::*;

verus! {

/// `fedimint_derive_secret::DerivableSecret`: key material from which child
/// secrets and keys are derived. Nothing is known of what it holds.
#[verifier::external_type_specification]
#[verifier::external_body]
pub struct ExDerivableSecret(DerivableSecret);

/// `secp256k1::KeyPair`: a secret key with its public key. Nothing is known
/// of what it holds.
#[verifier::external_type_specification]
#[verifier::external_body]
pub struct ExKeyPair(KeyPair);

/// `secp256k1::PublicKey`: a point on the curve. Nothing is known of what it
/// holds.
#[verifier::external_type_specification]
#[verifier::external_body]
pub struct ExPublicKey(PublicKey);

/// The secret that `DerivableSecret::child_key` derives from `parent` for the child `child`.
pub uninterp spec fn child_secret(parent: DerivableSecret, child: u64) -> DerivableSecret;

/// The key pair that `DerivableSecret::to_secp_key` makes of `secret`.
pub uninterp spec fn secp_key_pair(secret: DerivableSecret) -> KeyPair;

/// The public key that `PublicKey::from_keypair` reads from `key_pair`.
pub uninterp spec fn public_key_of(key_pair: KeyPair) -> PublicKey;

/// The 33 bytes that `PublicKey::serialize` writes for `key`.
pub uninterp spec fn public_key_bytes(key: PublicKey) -> Seq<u8>;

/// Child of the root secret from which the payout control's key is made.
pub const MARKET_PAYOUT_CONTROL_FROM_ROOT_SECRET: u64 = 0;

/// Child of the root secret under which each order has a child of its own.
pub const ORDER_FROM_ROOT_SECRET: u64 = 1;

/// The key pair of the client's payout control.
pub open spec fn payout_control_key_pair(root: DerivableSecret) -> KeyPair {
    secp_key_pair(child_secret(root, MARKET_PAYOUT_CONTROL_FROM_ROOT_SECRET))
}

/// The key pair of the order with the given id.
pub open spec fn order_key_pair(root: DerivableSecret, id: u64) -> KeyPair {
    secp_key_pair(child_secret(child_secret(root, ORDER_FROM_ROOT_SECRET), id))
}

/// The identity under which the federation knows the holder of `key_pair`.
pub open spec fn identity_of(key_pair: KeyPair) -> Seq<u8> {
    public_key_bytes(public_key_of(key_pair))
}

/// Calls `DerivableSecret::child_key` with `ChildId(child)`. The derivation is
/// an HKDF step over the parent's key material and the child number, so the
/// result is a function of the two; the contract gives it its name. The
/// outside function also counts the derivation level up by one; a level at
/// the top of its range would take as many derivations to reach.
#[verifier::external_body]
fn child_key(parent: &DerivableSecret, child: u64) -> (secret: DerivableSecret)
    ensures
        secret == child_secret(*parent, child),
{
    parent.child_key(ChildId(child))
}

/// Calls `DerivableSecret::to_secp_key` with a fresh secp256k1 context. The
/// key pair is computed from the secret alone; the contract gives it its
/// name. The outside function tries successive derivations until one is a
/// valid secret key and gives up only after 2^64 invalid ones.
#[verifier::external_body]
fn to_secp_key(secret: DerivableSecret) -> (key_pair: KeyPair)
    ensures
        key_pair == secp_key_pair(secret),
{
    secret.to_secp_key(&Secp256k1::new())
}

/// Calls `PublicKey::from_keypair`, which reads the public half out of the
/// key pair; the contract gives it its name.
#[verifier::external_body]
fn public_key_from_keypair(key_pair: &KeyPair) -> (key: PublicKey)
    ensures
        key == public_key_of(*key_pair),
{
    PublicKey::from_keypair(key_pair)
}

/// Calls `PublicKey::serialize`, which writes the key in its compressed form
/// of 33 bytes; the contract gives the bytes their name.
#[verifier::external_body]
fn serialize_public_key(key: &PublicKey) -> (bytes: [u8; 33])
    ensures
        bytes@ == public_key_bytes(*key),
{
    key.serialize()
}

/// The identity that belongs to a key pair.
pub fn key_pair_identity(key_pair: &KeyPair) -> (identity: Identity)
    ensures
        identity.0@ == identity_of(*key_pair),
{
    let key = public_key_from_keypair(key_pair);
    Identity(serialize_public_key(&key))
}

/// The key pair with which the client acts as payout control.
pub fn get_payout_control_key_pair(root: &DerivableSecret) -> (key_pair: KeyPair)
    ensures
        key_pair == payout_control_key_pair(*root),
{
    let secret = child_key(root, MARKET_PAYOUT_CONTROL_FROM_ROOT_SECRET);
    to_secp_key(secret)
}

/// The key pair that owns the order with the given id.
pub fn order_id_to_key_pair(root: &DerivableSecret, id: OrderIdClientSide) -> (key_pair: KeyPair)
    ensures
        key_pair == order_key_pair(*root, id.0),
{
    let orders = child_key(root, ORDER_FROM_ROOT_SECRET);
    let secret = child_key(&orders, id.0);
    to_secp_key(secret)
}

/// The identity of the client's payout control.
pub fn get_client_payout_control(root: &DerivableSecret) -> (identity: Identity)
    ensures
        identity.0@ == identity_of(payout_control_key_pair(*root)),
{
    let key_pair = get_payout_control_key_pair(root);
    key_pair_identity(&key_pair)
}

/// The identity of the order with the given id.
pub fn order_identity(root: &DerivableSecret, id: OrderIdClientSide) -> (identity: Identity)
    ensures
        identity.0@ == identity_of(order_key_pair(*root, id.0)),
{
    let key_pair = order_id_to_key_pair(root, id);
    key_pair_identity(&key_pair)
}

} // verus!
