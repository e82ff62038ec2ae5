//! The plain values that the client works on: amounts, identifiers, orders.
use vstd::prelude::*;

verus! {

/// Index of one outcome of a market.
pub type Outcome = u8;

/// Voting weight of one payout control.
pub type Weight = u16;

/// Summed weight that a payout needs.
pub type WeightRequiredForPayout = u32;

/// A span of time in seconds.
pub type Seconds = u64;

/// An amount of bitcoin in millisatoshi.
#[derive(Clone, Copy, Debug, PartialEq, Eq, Hash, Structural)]
pub struct Amount {
    pub msats: u64,
}

/// A number of contracts of one outcome.
#[derive(Clone, Copy, Debug, PartialEq, Eq, Hash, Structural)]
pub struct ContractOfOutcomeAmount(pub u64);

/// The sequence number that this client gave an order.
#[derive(Clone, Copy, Debug, PartialEq, Eq, Hash, Structural)]
pub struct OrderIdClientSide(pub u64);

/// Seconds since the Unix epoch.
#[derive(Clone, Copy, Debug, PartialEq, Eq, Hash, Structural)]
pub struct UnixTimestamp(pub u64);

/// Hash that names a transaction.
#[derive(Clone, Copy, Debug, PartialEq, Eq, Hash)]
pub struct TransactionId(pub [u8; 32]);

/// Random handle of one client operation.
#[derive(Clone, Copy, Debug, PartialEq, Eq, Hash)]
pub struct OperationId(pub [u8; 32]);

/// One output of a transaction. A market is named by the output that created it.
#[derive(Clone, Copy, Debug, PartialEq, Eq, Hash)]
pub struct OutPoint {
    pub txid: TransactionId,
    pub out_idx: u64,
}

/// A compressed secp256k1 public key: the identity of an order or of a payout control.
#[derive(Clone, Copy, Debug, PartialEq, Eq, Hash)]
pub struct Identity(pub [u8; 33]);

/// Whether an order buys or sells contracts.
#[derive(Clone, Copy, Debug, PartialEq, Eq, Hash, Structural)]
pub enum Side {
    Buy,
    Sell,
}

/// A standing order as the federation reports it.
#[derive(Clone, Copy, Debug, PartialEq, Eq, Hash)]
pub struct Order {
    pub owner: Identity,
    pub market: OutPoint,
    pub outcome: Outcome,
    pub side: Side,
    pub price: Amount,
    pub quantity_waiting_for_match: ContractOfOutcomeAmount,
    pub contract_of_outcome_balance: ContractOfOutcomeAmount,
    pub bitcoin_balance: Amount,
}

/// What the local cache holds under an order id.
#[derive(Clone, Copy, Debug, PartialEq, Eq, Hash)]
pub enum OrderIdSlot {
    /// The id was handed to an order whose transaction is not settled yet.
    Reserved,
    /// The order as last seen at the federation.
    Order(Order),
}

/// Whether two byte arrays hold the same bytes.
pub fn bytes_equal<const N: usize>(a: &[u8; N], b: &[u8; N]) -> (r: bool)
    ensures
        r == (*a == *b),
{
    let mut i: usize = 0;
    while i < N
        invariant
            i <= N,
            forall|j: int| 0 <= j < i ==> a[j] == b[j],
        decreases N - i,
    {
        if a[i] != b[i] {
            return false;
        }
        i += 1;
    }
    proof {
        vstd::array::axiom_array_ext_equal(*a, *b);
        assert(*a =~= *b);
    }
    true
}

impl Amount {
    /// No bitcoin at all.
    pub fn zero() -> (r: Amount)
        ensures
            r.msats == 0,
    {
        Amount { msats: 0 }
    }
}

impl TransactionId {
    /// Whether both name the same transaction.
    pub fn same_as(&self, other: &TransactionId) -> (r: bool)
        ensures
            r == (*self == *other),
    {
        bytes_equal(&self.0, &other.0)
    }
}

impl OutPoint {
    /// Whether both name the same output.
    pub fn same_as(&self, other: &OutPoint) -> (r: bool)
        ensures
            r == (*self == *other),
    {
        self.out_idx == other.out_idx && self.txid.same_as(&other.txid)
    }
}

impl Identity {
    /// Whether both are the same key.
    pub fn same_as(&self, other: &Identity) -> (r: bool)
        ensures
            r == (*self == *other),
    {
        bytes_equal(&self.0, &other.0)
    }
}

impl Order {
    /// An order is live while anything is left on it: contracts waiting for a
    /// match, contracts held, or bitcoin to withdraw.
    pub open spec fn is_non_zero(&self) -> bool {
        self.quantity_waiting_for_match.0 != 0 || self.contract_of_outcome_balance.0 != 0
            || self.bitcoin_balance.msats != 0
    }

    /// Whether anything is left on the order.
    pub fn non_zero(&self) -> (r: bool)
        ensures
            r == self.is_non_zero(),
    {
        self.quantity_waiting_for_match.0 != 0 || self.contract_of_outcome_balance.0 != 0
            || self.bitcoin_balance.msats != 0
    }

    /// Whether both orders agree in every field.
    pub fn same_as(&self, other: &Order) -> (r: bool)
        ensures
            r == (*self == *other),
    {
        self.owner.same_as(&other.owner) && self.market.same_as(&other.market) && self.outcome
            == other.outcome && self.side == other.side && self.price == other.price
            && self.quantity_waiting_for_match == other.quantity_waiting_for_match
            && self.contract_of_outcome_balance == other.contract_of_outcome_balance
            && self.bitcoin_balance == other.bitcoin_balance
    }
}

/// Whether two optional orders agree: both absent, or both present and equal.
pub fn same_order_option(a: &Option<Order>, b: &Option<Order>) -> (r: bool)
    ensures
        r == (*a == *b),
{
    match (a, b) {
        (None, None) => true,
        (Some(x), Some(y)) => x.same_as(y),
        _ => false,
    }
}

} // verus!
