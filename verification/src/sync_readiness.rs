//! Whether a broker provider is ready to be read, and when the local activity cursor
//! may advance.

use vstd::prelude::*;
use crate::dates::{Date, UtcDateTime, date_before, date_lt, rfc3339_utc_date, spec_rfc3339_utc_date,
    spec_ymd_date, utc_now, ymd_date};

verus! {

/// The provider's report on its own sync progress.
#[derive(Debug, Clone)]
pub struct BrokerSyncStatusDetail {
    pub initial_sync_completed: Option<bool>,
    pub last_successful_sync: Option<String>,
    pub first_transaction_date: Option<String>,
}

/// Whether the provider can be read, and up to which date.
#[derive(Debug, Clone)]
pub enum ProviderReadiness {
    Ready(Date),
    NotReady(String),
}

/// The date a provider sync text denotes: its UTC date as an RFC 3339 timestamp, or else
/// the date it spells as `%Y-%m-%d`.
pub open spec fn spec_provider_sync_date(value: Seq<char>) -> Option<Date> {
    match spec_rfc3339_utc_date(value) {
        Some(d) => Some(d),
        None => spec_ymd_date(value),
    }
}

/// Reads a provider sync timestamp: an RFC 3339 timestamp (its UTC date) or a plain
/// `YYYY-MM-DD` date.
pub fn parse_provider_sync_date(value: &str) -> (r: Result<Date, String>)
    ensures
        spec_provider_sync_date(value@) matches Some(d) ==> r == Ok::<Date, String>(d),
        spec_provider_sync_date(value@) is None ==> (r matches Err(m) && m@
            == "Invalid provider sync timestamp '"@ + value@ + "'"@),
{
    match rfc3339_utc_date(value) {
        Some(d) => Ok(d),
        None => match ymd_date(value) {
            Some(d) => Ok(d),
            None => {
                let mut m = String::from_str("Invalid provider sync timestamp '");
                m.append(value);
                m.append("'");
                Err(m)
            },
        },
    }
}

/// The waterline assumed when a provider reports no sync date: today in UTC.
fn legacy_provider_waterline() -> Date {
    utc_now().date_naive()
}

/// Readiness of the provider for reading activities on day `today`: not ready while its
/// initial transaction sync is still running; otherwise ready up to its last successful
/// sync date, or up to `today` when it gives none (or gives no status at all); an
/// unreadable sync date is an error.
pub open spec fn activity_readiness_ok(status: Option<BrokerSyncStatusDetail>, today: Date, r: Result<ProviderReadiness, String>) -> bool {
    match status {
        None => r matches Ok(ProviderReadiness::Ready(x)) && x == today,
        Some(s) => if s.initial_sync_completed == Some(false) {
            r matches Ok(ProviderReadiness::NotReady(m)) && m@ == "Provider transaction sync is still preparing"@
        } else {
            match s.last_successful_sync {
                None => r matches Ok(ProviderReadiness::Ready(x)) && x == today,
                Some(v) => match spec_provider_sync_date(v@) {
                    Some(d) => r matches Ok(ProviderReadiness::Ready(x)) && x == d,
                    None => r matches Err(m) && m@ == "Invalid provider sync timestamp '"@ + v@ + "'"@,
                },
            }
        },
    }
}

/// Readiness of the provider for reading holdings on day `today`: not ready while its
/// initial sync is still running, otherwise ready up to `today`.
pub open spec fn holdings_readiness_ok(status: Option<BrokerSyncStatusDetail>, today: Date, r: Result<ProviderReadiness, String>) -> bool {
    if status matches Some(s) && s.initial_sync_completed == Some(false) {
        r matches Ok(ProviderReadiness::NotReady(m)) && m@ == "Provider holdings sync is still preparing"@
    } else {
        r matches Ok(ProviderReadiness::Ready(x)) && x == today
    }
}

/// The status a borrowed status denotes.
pub open spec fn owned_status(status: Option<&BrokerSyncStatusDetail>) -> Option<BrokerSyncStatusDetail> {
    match status {
        Some(s) => Some(*s),
        None => None,
    }
}

/// Readiness of the provider for reading activities on day `today`.
pub fn resolve_activity_readiness_at(status: Option<&BrokerSyncStatusDetail>, today: Date) -> (r: Result<ProviderReadiness, String>)
    ensures
        activity_readiness_ok(owned_status(status), today, r),
{
    match status {
        None => Ok(ProviderReadiness::Ready(today)),
        Some(status) => {
            if status.initial_sync_completed == Some(false) {
                return Ok(
                    ProviderReadiness::NotReady(
                        String::from_str("Provider transaction sync is still preparing"),
                    ),
                );
            }
            match &status.last_successful_sync {
                None => Ok(ProviderReadiness::Ready(today)),
                Some(last) => match parse_provider_sync_date(last.as_str()) {
                    Ok(d) => Ok(ProviderReadiness::Ready(d)),
                    Err(e) => Err(e),
                },
            }
        },
    }
}

/// Readiness of the provider for reading activities, today (in UTC) being read from the
/// clock.
pub fn resolve_activity_readiness(status: Option<&BrokerSyncStatusDetail>) -> (r: Result<
    ProviderReadiness,
    String,
>)
    ensures
        exists|today: Date| #[trigger] activity_readiness_ok(owned_status(status), today, r),
{
    resolve_activity_readiness_at(status, legacy_provider_waterline())
}

/// Readiness of the provider for reading holdings on day `today`.
pub fn resolve_holdings_readiness_at(status: Option<&BrokerSyncStatusDetail>, today: Date) -> (r: Result<ProviderReadiness, String>)
    ensures
        holdings_readiness_ok(owned_status(status), today, r),
{
    let not_ready = match status {
        Some(s) => s.initial_sync_completed == Some(false),
        None => false,
    };
    if not_ready {
        return Ok(
            ProviderReadiness::NotReady(String::from_str("Provider holdings sync is still preparing")),
        );
    }
    Ok(ProviderReadiness::Ready(today))
}

/// Readiness of the provider for reading holdings, today (in UTC) being read from the
/// clock.
pub fn resolve_holdings_readiness(status: Option<&BrokerSyncStatusDetail>) -> (r: Result<
    ProviderReadiness,
    String,
>)
    ensures
        exists|today: Date| #[trigger] holdings_readiness_ok(owned_status(status), today, r),
{
    resolve_holdings_readiness_at(status, legacy_provider_waterline())
}

/// Whether the provider's waterline lies before the date of the local cursor.
pub fn provider_waterline_precedes_local_cursor(
    local_cursor: Option<&UtcDateTime>,
    provider_waterline: Date,
) -> (r: bool)
    ensures
        r == (local_cursor matches Some(c) && date_before(provider_waterline, c.date)),
{
    match local_cursor {
        Some(cursor) => date_lt(provider_waterline, cursor.date_naive()),
        None => false,
    }
}

/// The condition under which an empty first page of activities lets the cursor advance:
/// no provider status, or a status that does not say the initial sync is incomplete and
/// names no first transaction.
pub open spec fn empty_history_confirmed(provider_status: Option<BrokerSyncStatusDetail>) -> bool {
    match provider_status {
        None => true,
        Some(s) => (s.initial_sync_completed == Some(true) || s.initial_sync_completed is None)
            && s.first_transaction_date is None,
    }
}

/// Whether the activity cursor may move forward after a fetch: never after an
/// inconsistent empty page; always when activities were fetched or a local cursor
/// exists; otherwise only when the provider confirms an empty history.
pub fn should_advance_activity_cursor(
    fetched: usize,
    has_local_cursor: bool,
    inconsistent_empty_page: bool,
    provider_status: Option<&BrokerSyncStatusDetail>,
) -> (r: bool)
    ensures
        r == (!inconsistent_empty_page && (fetched > 0 || has_local_cursor
            || empty_history_confirmed(
            match provider_status {
                Some(s) => Some(*s),
                None => None,
            },
        ))),
{
    if inconsistent_empty_page {
        return false;
    }
    if fetched > 0 || has_local_cursor {
        return true;
    }
    match provider_status {
        None => true,
        Some(s) => {
            let completed_ok = match s.initial_sync_completed {
                Some(true) => true,
                None => true,
                Some(false) => false,
            };
            completed_ok && s.first_transaction_date.is_none()
        },
    }
}

} // verus!
