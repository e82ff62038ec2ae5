//! Finding the client's orders again after its secret was restored.
//!
//! Order ids are handed out in sequence and every id has its own key, so the
//! orders of a client can be found again by asking the federation for the
//! order of id 0, 1, 2 and so on. A long run of ids without an order shows
//! that the end is reached: the scan stops at the first run of
//! `gap_size_to_check` ids in a row that have no order.
use crate::cache::OrderCache;
use crate::types::Order;
use crate::types::OrderIdClientSide;
use vstd::prelude::*;

verus! {

/// The length of the run of ids without an order at which a scan stops,
/// where the caller names no other.
pub const DEFAULT_GAP_SIZE_TO_CHECK: u16 = 20;

/// What came of asking the federation for the order of one id.
#[derive(Clone, Copy, Debug, PartialEq, Eq)]
pub enum FetchOutcome {
    /// The federation holds this order under the id.
    Found(Order),
    /// The federation holds no order under the id.
    NotFound,
    /// The federation could not be asked.
    Unreachable,
}

/// How far a scan has come.
#[derive(Clone, Copy, Debug, PartialEq, Eq, Structural)]
pub enum RecoveryStatus {
    /// The order of `next` is to be fetched.
    Scanning,
    /// The scan has met its gap, or has run out of ids.
    Completed,
    /// The federation could not be asked; the scan was given up.
    Aborted,
}

/// A scan for the client's orders.
#[derive(Clone, Copy, Debug, PartialEq, Eq, Structural)]
pub struct OrderRecovery {
    /// The id to ask for next; after the scan, the last id that was asked for.
    pub next: OrderIdClientSide,
    /// How many ids in a row, up to now, had no order.
    pub slots_without_order: u16,
    /// The length of the run without an order that ends the scan.
    pub gap_size_to_check: u16,
    pub status: RecoveryStatus,
}

impl OrderRecovery {
    /// A scan before its first step. With a gap of 0 there is nothing to look for.
    pub open spec fn start(gap_size_to_check: u16) -> OrderRecovery {
        OrderRecovery {
            next: OrderIdClientSide(0),
            slots_without_order: 0,
            gap_size_to_check,
            status: if gap_size_to_check == 0 {
                RecoveryStatus::Completed
            } else {
                RecoveryStatus::Scanning
            },
        }
    }

    /// The scan moved on to the next id; it is complete when there is none.
    pub open spec fn advanced(self) -> OrderRecovery {
        if self.next.0 == u64::MAX {
            OrderRecovery { status: RecoveryStatus::Completed, ..self }
        } else {
            OrderRecovery { next: OrderIdClientSide((self.next.0 + 1) as u64), ..self }
        }
    }

    /// The scan after the answer for `next` came in. An order found starts
    /// the count of misses anew. A miss adds to it, and the miss that makes
    /// the gap full ends the scan. A scan that is over stays as it is.
    pub open spec fn after(self, outcome: FetchOutcome) -> OrderRecovery {
        if self.status != RecoveryStatus::Scanning {
            self
        } else {
            match outcome {
                FetchOutcome::Unreachable => OrderRecovery { status: RecoveryStatus::Aborted, ..self },
                FetchOutcome::Found(_) => OrderRecovery { slots_without_order: 0, ..self }.advanced(),
                FetchOutcome::NotFound => {
                    let misses = if self.slots_without_order < u16::MAX {
                        (self.slots_without_order + 1) as u16
                    } else {
                        u16::MAX
                    };
                    let counted = OrderRecovery { slots_without_order: misses, ..self };
                    if misses >= self.gap_size_to_check {
                        OrderRecovery { status: RecoveryStatus::Completed, ..counted }
                    } else {
                        counted.advanced()
                    }
                },
            }
        }
    }

    /// The scan after a series of answers, each for the id that the scan asked for then.
    pub open spec fn after_all(self, outcomes: Seq<FetchOutcome>) -> OrderRecovery
        decreases outcomes.len(),
    {
        if outcomes.len() == 0 {
            self
        } else {
            self.after_all(outcomes.drop_last()).after(outcomes.last())
        }
    }

    /// Begins a scan at id 0.
    pub fn new(gap_size_to_check: u16) -> (scan: OrderRecovery)
        ensures
            scan == OrderRecovery::start(gap_size_to_check),
    {
        OrderRecovery {
            next: OrderIdClientSide(0),
            slots_without_order: 0,
            gap_size_to_check,
            status: if gap_size_to_check == 0 {
                RecoveryStatus::Completed
            } else {
                RecoveryStatus::Scanning
            },
        }
    }

    /// The id whose order is to be fetched now; none once the scan is over.
    pub fn next_fetch(&self) -> (r: Option<OrderIdClientSide>)
        ensures
            r == if self.status == RecoveryStatus::Scanning {
                Some(self.next)
            } else {
                None
            },
    {
        match self.status {
            RecoveryStatus::Scanning => Some(self.next),
            _ => None,
        }
    }

    fn advance(&mut self)
        ensures
            *final(self) == old(self).advanced(),
    {
        if self.next.0 == u64::MAX {
            self.status = RecoveryStatus::Completed;
        } else {
            self.next = OrderIdClientSide(self.next.0 + 1);
        }
    }

    /// Takes the answer for the id that was to be fetched. An order that was
    /// found is written to the cache under that id.
    pub fn record(&mut self, cache: &mut OrderCache, outcome: &FetchOutcome)
        requires
            old(cache).wf(),
        ensures
            final(cache).wf(),
            *final(self) == old(self).after(*outcome),
            final(cache)@ == if old(self).status == RecoveryStatus::Scanning {
                match *outcome {
                    FetchOutcome::Found(order) => old(cache)@.save_order(old(self).next.0, order),
                    _ => old(cache)@,
                }
            } else {
                old(cache)@
            },
    {
        match self.status {
            RecoveryStatus::Scanning => {},
            _ => {
                return ;
            },
        }
        match outcome {
            FetchOutcome::Unreachable => {
                self.status = RecoveryStatus::Aborted;
            },
            FetchOutcome::Found(order) => {
                cache.save_order(self.next, order);
                self.slots_without_order = 0;
                self.advance();
            },
            FetchOutcome::NotFound => {
                if self.slots_without_order < u16::MAX {
                    self.slots_without_order = self.slots_without_order + 1;
                }
                if self.slots_without_order >= self.gap_size_to_check {
                    self.status = RecoveryStatus::Completed;
                } else {
                    self.advance();
                }
            },
        }
    }
}

/// The number of misses at the end of `outcomes`, after the last answer that was none.
pub open spec fn trailing_misses(outcomes: Seq<FetchOutcome>) -> nat
    decreases outcomes.len(),
{
    if outcomes.len() == 0 {
        0
    } else if outcomes.last() is NotFound {
        1 + trailing_misses(outcomes.drop_last())
    } else {
        0
    }
}

/// No answer of `outcomes` but the last can have ended a scan with the given
/// gap: the federation was reached every time, and before the last answer no
/// run of misses was as long as the gap.
pub open spec fn scan_still_open(outcomes: Seq<FetchOutcome>, gap_size_to_check: u16) -> bool {
    &&& forall|i: int| 0 <= i < outcomes.len() ==> !((#[trigger] outcomes[i]) is Unreachable)
    &&& forall|n: int| 0 <= n < outcomes.len() ==> #[trigger] trailing_misses(outcomes.subrange(0, n)) < gap_size_to_check
}

/// A scan asks for the ids in sequence from 0, counts the misses since the
/// last order found, and is complete exactly when that count is the gap. It
/// has then asked for exactly `gap_size_to_check` ids beyond the last order.
pub proof fn lemma_scan_stops_at_gap(gap_size_to_check: u16, outcomes: Seq<FetchOutcome>)
    requires
        gap_size_to_check > 0,
        outcomes.len() < u64::MAX,
        scan_still_open(outcomes, gap_size_to_check),
    ensures
        ({
            let scan = OrderRecovery::start(gap_size_to_check).after_all(outcomes);
            &&& scan.gap_size_to_check == gap_size_to_check
            &&& scan.slots_without_order == trailing_misses(outcomes)
            &&& scan.status != RecoveryStatus::Aborted
            &&& scan.status == RecoveryStatus::Completed <==> trailing_misses(outcomes) == gap_size_to_check
            &&& scan.status == RecoveryStatus::Scanning ==> scan.next.0 == outcomes.len()
            &&& scan.status == RecoveryStatus::Completed ==> scan.next.0 == outcomes.len() - 1
        }),
    decreases outcomes.len(),
{
    if outcomes.len() == 0 {
    } else {
        let earlier = outcomes.drop_last();
        assert(earlier =~= outcomes.subrange(0, outcomes.len() - 1));
        assert(trailing_misses(outcomes.subrange(0, outcomes.len() - 1)) < gap_size_to_check);
        assert forall|n: int| 0 <= n < earlier.len() implies #[trigger] trailing_misses(earlier.subrange(0, n))
            < gap_size_to_check by {
            assert(earlier.subrange(0, n) =~= outcomes.subrange(0, n));
            assert(trailing_misses(outcomes.subrange(0, n)) < gap_size_to_check);
        }
        assert forall|i: int| 0 <= i < earlier.len() implies !((#[trigger] earlier[i]) is Unreachable) by {
            assert(earlier[i] == outcomes[i]);
        }
        lemma_scan_stops_at_gap(gap_size_to_check, earlier);
        assert(outcomes.last() == outcomes[outcomes.len() - 1]);
    }
}

} // verus!
