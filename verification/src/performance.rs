//! Performance results and the data quality that goes with them, and the snapshot
//! reading that tells the quote service which assets are still held.

use vstd::prelude::*;
use crate::dates::Date;
use crate::dec::Dec;
use crate::errors::Error;

verus! {

/// Cumulative return up to a date.
#[derive(Debug, Clone)]
pub struct CumulativeReturn {
    pub date: Date,
    pub value: Dec,
}

/// Total return as a rate and an amount.
#[derive(Debug, Clone)]
pub struct TotalReturn {
    pub rate: Dec,
    pub amount: Dec,
}

/// How a return is measured.
#[derive(Debug, Clone, Copy, PartialEq, Eq, Structural, Default)]
pub enum ReturnMethod {
    #[default]
    TimeWeighted,
    ValueReturn,
    SymbolPriceBased,
    NotApplicable,
}

/// A return on a date.
#[derive(Debug, Clone)]
pub struct ReturnData {
    pub date: Date,
    pub value: Dec,
}

/// What a performance result is about.
#[derive(Debug, Clone)]
pub struct PerformanceScopeDescriptor {
    pub id: String,
    pub currency: String,
}

/// The dates a performance result covers.
#[derive(Debug, Clone)]
pub struct PerformancePeriod {
    pub start_date: Option<Date>,
    pub end_date: Option<Date>,
}

/// Returns over a period.
#[derive(Debug, Clone)]
pub struct PerformanceReturns {
    pub twr: Option<Dec>,
    pub annualized_twr: Option<Dec>,
    /// Money-weighted return over the period, from the annualised XIRR.
    pub irr: Option<Dec>,
    /// Annualised XIRR of the dated cash flows.
    pub annualized_irr: Option<Dec>,
    pub value_return: Option<Dec>,
    pub annualized_value_return: Option<Dec>,
}

/// How much of a performance summary to compute.
#[derive(Debug, Clone, Copy, PartialEq, Eq, Structural, Default)]
pub enum PerformanceSummaryProfile {
    #[default]
    Full,
    Headline,
}

/// Where the change in value came from.
#[derive(Debug, Clone)]
pub struct PerformanceAttribution {
    pub contributions: Dec,
    pub distributions: Dec,
    pub income: Dec,
    pub realized_pnl: Dec,
    pub unrealized_pnl_change: Dec,
    pub fx_effect: Dec,
    pub fees: Dec,
    pub taxes: Dec,
    pub residual: Dec,
}

impl Default for PerformanceAttribution {
    /// Every component zero.
    fn default() -> (a: Self)
        ensures
            a.contributions == crate::drift::dec_zero(),
            a.distributions == crate::drift::dec_zero(),
            a.income == crate::drift::dec_zero(),
            a.realized_pnl == crate::drift::dec_zero(),
            a.unrealized_pnl_change == crate::drift::dec_zero(),
            a.fx_effect == crate::drift::dec_zero(),
            a.fees == crate::drift::dec_zero(),
            a.taxes == crate::drift::dec_zero(),
            a.residual == crate::drift::dec_zero(),
    {
        PerformanceAttribution {
            contributions: Dec::zero(),
            distributions: Dec::zero(),
            income: Dec::zero(),
            realized_pnl: Dec::zero(),
            unrealized_pnl_change: Dec::zero(),
            fx_effect: Dec::zero(),
            fees: Dec::zero(),
            taxes: Dec::zero(),
            residual: Dec::zero(),
        }
    }
}

/// Risk measures over a period.
#[derive(Debug, Clone)]
pub struct PerformanceRisk {
    pub volatility: Option<Dec>,
    pub max_drawdown: Option<Dec>,
    pub peak_date: Option<Date>,
    pub trough_date: Option<Date>,
    pub recovery_date: Option<Date>,
    pub drawdown_duration_days: Option<i64>,
}

/// How complete the data behind a result is.
#[derive(Debug, Clone, Copy, PartialEq, Eq, Structural)]
pub enum DataQualityStatus {
    /// The data is complete (stored and shown as `ok`).
    Complete,
    Partial,
    NoData,
    NotApplicable,
}

/// The data quality of a result, with its warnings and reasons.
#[derive(Debug, Clone)]
pub struct PerformanceDataQuality {
    pub status: DataQualityStatus,
    pub warnings: Vec<String>,
    pub not_applicable_reasons: Vec<String>,
}

impl PerformanceDataQuality {
    /// Complete data: no warnings, no reasons.
    pub fn ok() -> (q: Self)
        ensures
            q.status == DataQualityStatus::Complete,
            q.warnings@.len() == 0,
            q.not_applicable_reasons@.len() == 0,
    {
        PerformanceDataQuality { status: DataQualityStatus::Complete, warnings: Vec::new(), not_applicable_reasons: Vec::new() }
    }

    /// No data, for the reason given.
    pub fn no_data(reason: String) -> (q: Self)
        ensures
            q.status == DataQualityStatus::NoData,
            q.warnings@.len() == 0,
            q.not_applicable_reasons@ == seq![reason],
    {
        let mut reasons: Vec<String> = Vec::new();
        reasons.push(reason);
        PerformanceDataQuality { status: DataQualityStatus::NoData, warnings: Vec::new(), not_applicable_reasons: reasons }
    }
}

/// A performance result.
#[derive(Debug, Clone)]
pub struct PerformanceResult {
    pub scope: PerformanceScopeDescriptor,
    pub period: PerformancePeriod,
    pub mode: ReturnMethod,
    pub returns: PerformanceReturns,
    pub attribution: PerformanceAttribution,
    pub risk: PerformanceRisk,
    pub data_quality: PerformanceDataQuality,
    pub series: Vec<ReturnData>,
    pub is_holdings_mode: bool,
    pub is_mixed_tracking_mode: bool,
}

/// Headline metrics of one account.
#[derive(Debug, Clone)]
pub struct SimplePerformanceMetrics {
    pub account_id: String,
    pub account_currency: Option<String>,
    pub base_currency: Option<String>,
    pub fx_rate_to_base: Option<Dec>,
    pub total_value: Option<Dec>,
    pub total_gain_loss_amount: Option<Dec>,
    pub cumulative_return_percent: Option<Dec>,
    pub portfolio_weight: Option<Dec>,
}

// ── Quote sync from snapshots ────────────────────────────────────────────────

/// A position of a snapshot.
#[derive(Debug, Clone)]
pub struct Position {
    pub quantity: Dec,
}

/// The positions held by an account at a point in time, by asset id.
#[derive(Debug, Clone)]
pub struct AccountStateSnapshot {
    pub account_id: String,
    pub positions: Vec<(String, Position)>,
}

/// The id of the account that aggregates the whole portfolio.
pub const PORTFOLIO_TOTAL_ACCOUNT_ID: &'static str = "TOTAL";

/// The quantity held of each asset of the snapshot, in the snapshot's order.
pub open spec fn quantities_of(snapshot: AccountStateSnapshot) -> Seq<(String, Dec)> {
    Seq::new(snapshot.positions@.len(), |i: int| (snapshot.positions@[i].0, snapshot.positions@[i].1.quantity))
}

/// The quantity held of each asset of the snapshot, in the snapshot's order.
pub fn holdings_quantities(snapshot: &AccountStateSnapshot) -> (r: Vec<(String, Dec)>)
    ensures
        r@ == quantities_of(*snapshot),
{
    let mut out: Vec<(String, Dec)> = Vec::new();
    let mut k: usize = 0;
    while k < snapshot.positions.len()
        invariant
            k <= snapshot.positions@.len(),
            out@.len() == k,
            forall|i: int| 0 <= i < k ==> (#[trigger] out@[i]).0 == snapshot.positions@[i].0
                && out@[i].1 == snapshot.positions@[i].1.quantity,
        decreases snapshot.positions@.len() - k,
    {
        out.push((snapshot.positions[k].0.clone(), snapshot.positions[k].1.quantity));
        k = k + 1;
    }
    assert(out@ =~= quantities_of(*snapshot));
    out
}

/// Tells which assets are held.
pub trait QuoteServiceTrait {
    /// `r` is an answer the service gives when told the quantities held.
    /// Implementations may say which results these are; by default any result is one.
    closed spec fn update_answer(&self, holdings: Seq<(String, Dec)>, r: Result<(), Error>) -> bool {
        true
    }

    fn update_position_status_from_holdings(&self, holdings: &Vec<(String, Dec)>) -> (r: Result<(), Error>)
        ensures
            self.update_answer(holdings@, r),
    ;
}

/// Reads holdings snapshots.
pub trait SnapshotServiceTrait {
    /// `r` is an answer the service gives when asked for the latest snapshot of an account.
    /// Implementations may say which results these are; by default any result is one.
    closed spec fn snapshot_answer(&self, account_id: Seq<char>, r: Result<Option<AccountStateSnapshot>, Error>) -> bool {
        true
    }

    fn get_latest_holdings_snapshot(&self, account_id: &str) -> (r: Result<Option<AccountStateSnapshot>, Error>)
        ensures
            self.snapshot_answer(account_id@, r),
    ;
}

/// Tells the quote service what the snapshot holds; its answer.
pub fn reconcile_quote_sync_from_snapshot<Q: QuoteServiceTrait>(quotes: &Q, snapshot: &AccountStateSnapshot) -> (r: Result<(), Error>)
    ensures
        quotes.update_answer(quantities_of(*snapshot), r),
{
    let current = holdings_quantities(snapshot);
    quotes.update_position_status_from_holdings(&current)
}

/// Reconciles from the latest snapshot of the whole portfolio: `false` when there is
/// none, `true` once the quote service took what it holds.
pub fn reconcile_quote_sync_from_latest_total_snapshot<S: SnapshotServiceTrait, Q: QuoteServiceTrait>(snapshots: &S, quotes: &Q) -> (r: Result<bool, Error>)
    ensures
        r == Ok::<bool, Error>(false) ==> snapshots.snapshot_answer(PORTFOLIO_TOTAL_ACCOUNT_ID@, Ok(None)),
        r == Ok::<bool, Error>(true) ==> exists|s: AccountStateSnapshot, q: Result<(), Error>|
            #![trigger snapshots.snapshot_answer(PORTFOLIO_TOTAL_ACCOUNT_ID@, Ok(Some(s))), quotes.update_answer(quantities_of(s), q)]
            snapshots.snapshot_answer(PORTFOLIO_TOTAL_ACCOUNT_ID@, Ok(Some(s))) && quotes.update_answer(quantities_of(s), q) && q is Ok,
        r matches Err(e) ==> snapshots.snapshot_answer(PORTFOLIO_TOTAL_ACCOUNT_ID@, Err(e))
            || exists|s: AccountStateSnapshot| #[trigger] snapshots.snapshot_answer(PORTFOLIO_TOTAL_ACCOUNT_ID@, Ok(Some(s)))
                && quotes.update_answer(quantities_of(s), Err(e)),
{
    let total = match snapshots.get_latest_holdings_snapshot(PORTFOLIO_TOTAL_ACCOUNT_ID) {
        Ok(Some(s)) => s,
        Ok(None) => return Ok(false),
        Err(e) => return Err(e),
    };
    proof {
        assert(snapshots.snapshot_answer(PORTFOLIO_TOTAL_ACCOUNT_ID@, Ok(Some(total))));
    }
    let r = reconcile_quote_sync_from_snapshot(quotes, &total);
    match r {
        Ok(()) => Ok(true),
        Err(e) => Err(e),
    }
}

} // verus!
