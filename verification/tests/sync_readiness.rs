use allocation_targets::dates::{Date, UtcDateTime};
use allocation_targets::storage::parse_sync_cursor;
use allocation_targets::sync_readiness::{
    parse_provider_sync_date, provider_waterline_precedes_local_cursor, resolve_activity_readiness,
    resolve_activity_readiness_at, resolve_holdings_readiness, resolve_holdings_readiness_at, should_advance_activity_cursor, BrokerSyncStatusDetail, ProviderReadiness,
};
use chrono::Datelike;

fn transactions_status(
    initial_sync_completed: Option<bool>,
    last_successful_sync: Option<&str>,
    first_transaction_date: Option<&str>,
) -> BrokerSyncStatusDetail {
    BrokerSyncStatusDetail {
        initial_sync_completed,
        last_successful_sync: last_successful_sync.map(str::to_string),
        first_transaction_date: first_transaction_date.map(str::to_string),
    }
}

fn today() -> Date {
    let d = chrono::Utc::now().date_naive();
    Date { year: d.year(), month: d.month(), day: d.day() }
}

#[test]
fn provider_not_ready_defers_first_activity_sync() {
    let status = transactions_status(Some(false), None, None);
    let readiness = resolve_activity_readiness(Some(&status)).unwrap();
    assert!(matches!(readiness, ProviderReadiness::NotReady(_)));
}

#[test]
fn missing_activity_status_uses_legacy_today_waterline() {
    let today = today();
    let readiness = resolve_activity_readiness(None).unwrap();
    assert!(matches!(readiness, ProviderReadiness::Ready(date) if date == today));
}

#[test]
fn activity_status_without_waterline_uses_legacy_today_waterline() {
    let status = transactions_status(None, None, None);
    let today = today();
    let readiness = resolve_activity_readiness(Some(&status)).unwrap();
    assert!(matches!(readiness, ProviderReadiness::Ready(date) if date == today));
}

#[test]
fn provider_waterline_without_initial_flag_allows_activity_fetch() {
    let status = transactions_status(None, Some("2026-05-22"), None);
    let readiness = resolve_activity_readiness(Some(&status)).unwrap();
    assert!(matches!(
        readiness,
        ProviderReadiness::Ready(date) if date == Date { year: 2026, month: 5, day: 22 }
    ));
}

#[test]
fn provider_waterline_before_local_cursor_is_stale() {
    let local_cursor = UtcDateTime { date: Date { year: 2026, month: 5, day: 22 }, seconds_of_day: 0, nanosecond: 0 };
    let stale_waterline = Date { year: 2026, month: 5, day: 21 };
    let current_waterline = Date { year: 2026, month: 5, day: 22 };
    assert!(provider_waterline_precedes_local_cursor(Some(&local_cursor), stale_waterline));
    assert!(!provider_waterline_precedes_local_cursor(Some(&local_cursor), current_waterline));
}

#[test]
fn initial_empty_activity_sync_with_first_transaction_does_not_advance_cursor() {
    let status = transactions_status(Some(true), Some("2026-05-22"), Some("2020-01-01"));
    assert!(!should_advance_activity_cursor(0, false, false, Some(&status)));
}

#[test]
fn initial_empty_activity_sync_with_confirmed_empty_history_advances_cursor() {
    let status = transactions_status(Some(true), Some("2026-05-22"), None);
    assert!(should_advance_activity_cursor(0, false, false, Some(&status)));
}

#[test]
fn initial_empty_activity_sync_without_provider_status_uses_legacy_cursor_advance() {
    assert!(should_advance_activity_cursor(0, false, false, None));
}

#[test]
fn incremental_empty_activity_sync_advances_cursor_to_provider_waterline() {
    let status = transactions_status(Some(true), Some("2026-05-22"), Some("2020-01-01"));
    assert!(should_advance_activity_cursor(0, true, false, Some(&status)));
}

#[test]
fn inconsistent_empty_activity_page_does_not_advance_cursor() {
    let status = transactions_status(Some(true), Some("2026-05-22"), None);
    assert!(!should_advance_activity_cursor(0, true, true, Some(&status)));
}

#[test]
fn holdings_not_ready_defers_snapshot_sync() {
    let status = transactions_status(Some(false), None, None);
    let readiness = resolve_holdings_readiness(Some(&status)).unwrap();
    assert!(matches!(readiness, ProviderReadiness::NotReady(_)));
}

#[test]
fn missing_holdings_status_allows_legacy_snapshot_sync() {
    let readiness = resolve_holdings_readiness(None).unwrap();
    assert!(matches!(readiness, ProviderReadiness::Ready(_)));
}

#[test]
fn holdings_readiness_does_not_parse_unused_waterline() {
    let status = transactions_status(Some(true), Some("not-a-date"), None);
    let readiness = resolve_holdings_readiness(Some(&status)).unwrap();
    assert!(matches!(readiness, ProviderReadiness::Ready(_)));
}

#[test]
fn parse_sync_cursor_accepts_date_without_using_now() {
    let cursor = parse_sync_cursor("2026-05-22").expect("valid cursor");
    assert!(cursor.starts_with("2026-05-22T00:00:00"));
}

#[test]
fn parse_sync_cursor_rejects_invalid_value() {
    let err = parse_sync_cursor("not-a-date").expect_err("invalid cursor");
    assert!(err.message().contains("Invalid broker sync cursor"));
}

#[test]
fn parse_sync_cursor_converts_timestamps_to_utc() {
    let cursor = parse_sync_cursor("2026-05-22T02:00:00+02:00").unwrap();
    assert_eq!(cursor, "2026-05-22T00:00:00+00:00");
    assert_eq!(
        parse_sync_cursor("tomorrow").unwrap_err().message(),
        "Invalid input: Invalid broker sync cursor 'tomorrow'"
    );
}

#[test]
fn provider_sync_date_reads_timestamps_and_dates() {
    assert_eq!(parse_provider_sync_date("2026-05-22T23:30:00-02:00").unwrap(), Date { year: 2026, month: 5, day: 23 });
    assert_eq!(parse_provider_sync_date("2026-01-02").unwrap(), Date { year: 2026, month: 1, day: 2 });
    assert_eq!(parse_provider_sync_date("x").unwrap_err(), "Invalid provider sync timestamp 'x'");
    let status = transactions_status(Some(true), Some("bad"), None);
    assert_eq!(resolve_activity_readiness(Some(&status)).unwrap_err(), "Invalid provider sync timestamp 'bad'");
}

#[test]
fn no_local_cursor_is_never_preceded() {
    assert!(!provider_waterline_precedes_local_cursor(None, Date { year: 2000, month: 1, day: 1 }));
}

#[test]
fn fetched_activity_always_advances_unless_page_inconsistent() {
    let status = transactions_status(Some(false), None, Some("2020-01-01"));
    assert!(should_advance_activity_cursor(3, false, false, Some(&status)));
    assert!(!should_advance_activity_cursor(3, true, true, Some(&status)));
    let status = transactions_status(None, None, Some("2020-01-01"));
    assert!(!should_advance_activity_cursor(0, false, false, Some(&status)));
    let status = transactions_status(Some(false), None, None);
    assert!(!should_advance_activity_cursor(0, false, false, Some(&status)));
}

#[test]
fn activity_readiness_on_a_given_day() {
    let day = Date { year: 2030, month: 1, day: 15 };
    let none = resolve_activity_readiness_at(None, day).unwrap();
    assert!(matches!(none, ProviderReadiness::Ready(d) if d == day));
    let no_waterline = transactions_status(Some(true), None, None);
    let r = resolve_activity_readiness_at(Some(&no_waterline), day).unwrap();
    assert!(matches!(r, ProviderReadiness::Ready(d) if d == day));
    let with_waterline = transactions_status(None, Some("2026-05-22T23:30:00-02:00"), None);
    let r = resolve_activity_readiness_at(Some(&with_waterline), day).unwrap();
    assert!(matches!(r, ProviderReadiness::Ready(d) if d == Date { year: 2026, month: 5, day: 23 }));
    let preparing = transactions_status(Some(false), Some("2026-05-22"), None);
    let r = resolve_activity_readiness_at(Some(&preparing), day).unwrap();
    assert!(matches!(r, ProviderReadiness::NotReady(m) if m == "Provider transaction sync is still preparing"));
}

#[test]
fn holdings_readiness_on_a_given_day() {
    let day = Date { year: 2030, month: 1, day: 15 };
    let r = resolve_holdings_readiness_at(None, day).unwrap();
    assert!(matches!(r, ProviderReadiness::Ready(d) if d == day));
    let preparing = transactions_status(Some(false), None, None);
    let r = resolve_holdings_readiness_at(Some(&preparing), day).unwrap();
    assert!(matches!(r, ProviderReadiness::NotReady(m) if m == "Provider holdings sync is still preparing"));
}
