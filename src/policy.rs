//! The payment verification policy: what the chain has to show before a
//! trade counts as paid.
use vstd::prelude::*;

verus! {

/// A funding transaction needs strictly more confirmations than this.
pub const MIN_CONFIRMATIONS_EXCLUSIVE: u64 = 3;

/// A funding transaction with more confirmations than this is taken for an
/// older, unrelated one that the oracle picked by mistake.
pub const MAX_CONFIRMATIONS: u64 = 6;

pub open spec fn in_confirmation_window(depth: int) -> bool {
    3 < depth && depth <= 6
}

/// What the chain oracle reported for one deposit address.
pub struct ChainReport {
    /// Confirmed balance of the address, in smallest units.
    pub confirmed: u64,
    /// Height of the block that holds the transaction that most recently
    /// touched the address: `Some(0)` while that transaction is unconfirmed,
    /// `None` when the address has no history yet.
    pub latest_height: Option<u64>,
    /// Height of the chain tip.
    pub tip_height: u64,
}

/// Why a balance does not count toward a payment.
#[derive(Debug, Clone, Copy, PartialEq, Eq, Structural)]
pub enum BalanceError {
    /// The address has no transaction yet.
    NoHistory,
    /// The latest transaction's block lies above the chain tip.
    HeightAhead,
    /// The latest transaction's confirmations lie outside the window.
    OutsideWindow,
}

/// Confirmation depth of the latest transaction: the number of blocks mined
/// on top of the block that holds it, zero while it is unconfirmed; `None`
/// where there is no transaction, or its block lies above the tip.
pub open spec fn report_depth(r: ChainReport) -> Option<u64> {
    match r.latest_height {
        None => None,
        Some(h) => if h == 0 {
            Some(0)
        } else if h <= r.tip_height {
            Some((r.tip_height - h) as u64)
        } else {
            None
        },
    }
}

/// The confirmed balance where the latest transaction sits inside the
/// confirmation window; else why it does not count.
pub open spec fn balance_outcome(r: ChainReport) -> Result<u64, BalanceError> {
    match r.latest_height {
        None => Err(BalanceError::NoHistory),
        Some(_) => match report_depth(r) {
            None => Err(BalanceError::HeightAhead),
            Some(d) => if in_confirmation_window(d as int) {
                Ok(r.confirmed)
            } else {
                Err(BalanceError::OutsideWindow)
            },
        },
    }
}

/// Whether `r` shows at least `expect` smallest units that count; else why
/// the balance does not count.
pub open spec fn payment_outcome(r: ChainReport, expect: u64) -> Result<bool, BalanceError> {
    match balance_outcome(r) {
        Ok(b) => Ok(b >= expect),
        Err(e) => Err(e),
    }
}

/// A trade owed `expected` smallest units is paid by what `r` shows.
pub open spec fn is_paid(r: ChainReport, expected: u64) -> bool {
    payment_outcome(r, expected) == Ok::<bool, BalanceError>(true)
}

/// Whether `depth` confirmations lie inside the window: more than three and
/// at most six.
pub fn in_window(depth: u64) -> (r: bool)
    ensures
        r == in_confirmation_window(depth as int),
{
    MIN_CONFIRMATIONS_EXCLUSIVE < depth && depth <= MAX_CONFIRMATIONS
}

/// Confirmation depth of the latest transaction in `report`.
pub fn confirmation_depth(report: &ChainReport) -> (r: Option<u64>)
    ensures
        r == report_depth(*report),
{
    match report.latest_height {
        None => None,
        Some(h) => if h == 0 {
            Some(0)
        } else if h <= report.tip_height {
            Some(report.tip_height - h)
        } else {
            None
        },
    }
}

/// The balance that counts toward a payment, or why it does not count.
pub fn counted_balance(report: &ChainReport) -> (r: Result<u64, BalanceError>)
    ensures
        r == balance_outcome(*report),
{
    if report.latest_height.is_none() {
        return Err(BalanceError::NoHistory);
    }
    match confirmation_depth(report) {
        None => Err(BalanceError::HeightAhead),
        Some(d) => if in_window(d) {
            Ok(report.confirmed)
        } else {
            Err(BalanceError::OutsideWindow)
        },
    }
}

/// The oracle's answer as the policy reads it: the confirmed balance, the
/// chain tip, and the history of the address in the oracle's order, given
/// by block heights, where 0 or less stands for a transaction still in the
/// mempool. The last transaction of the history is the one that counts.
pub open spec fn report_of(confirmed: u64, history: Seq<i32>, tip_height: u64) -> ChainReport {
    ChainReport {
        confirmed,
        latest_height: if history.len() == 0 {
            None
        } else if history.last() > 0 {
            Some(history.last() as u64)
        } else {
            Some(0)
        },
        tip_height,
    }
}

/// Builds the report for an address from what the chain oracle returned.
pub fn chain_report(confirmed: u64, history: &Vec<i32>, tip_height: u64) -> (r: ChainReport)
    ensures
        r == report_of(confirmed, history@, tip_height),
{
    let n = history.len();
    let latest_height = if n == 0 {
        None
    } else if history[n - 1] > 0 {
        Some(history[n - 1] as u64)
    } else {
        Some(0)
    };
    ChainReport { confirmed, latest_height, tip_height }
}

} // verus!
