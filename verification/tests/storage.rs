use allocation_targets::model::{ProfileStatus, ScopeType, TargetAllocationNode, TargetProfile, TriggerType};
use allocation_targets::storage::{
    parse_sync_cursor, sync_row_after, BrokerSyncStateDB, SyncEvent, TargetAllocationNodeDB,
    TargetProfileDB,
};

fn profile() -> TargetProfile {
    TargetProfile {
        id: "p1".to_string(),
        name: "Growth".to_string(),
        status: ProfileStatus::Active,
        scope_type: ScopeType::Account,
        scope_id: Some("acc-1".to_string()),
        taxonomy_id: "asset_classes".to_string(),
        trigger_type: TriggerType::Threshold,
        drift_band_bps: 250,
        created_at: "2026-01-01T00:00:00Z".to_string(),
        updated_at: "2026-01-02T00:00:00Z".to_string(),
    }
}

fn node() -> TargetAllocationNode {
    TargetAllocationNode {
        id: "n1".to_string(),
        profile_id: "p1".to_string(),
        category_id: "EQUITY".to_string(),
        target_bps: 6000,
        is_locked: true,
        is_required: false,
        created_at: "2026-01-01T00:00:00Z".to_string(),
        updated_at: "2026-01-01T00:00:00Z".to_string(),
    }
}

#[test]
fn profile_row_round_trips() {
    let db = TargetProfileDB::from(profile());
    assert_eq!(db.status, "active");
    assert_eq!(db.scope_type, "account");
    assert_eq!(db.trigger_type, "threshold");
    let back = TargetProfile::try_from(db).unwrap();
    assert_eq!(back.id, "p1");
    assert_eq!(back.status, ProfileStatus::Active);
    assert_eq!(back.scope_type, ScopeType::Account);
    assert_eq!(back.scope_id.as_deref(), Some("acc-1"));
    assert_eq!(back.drift_band_bps, 250);
}

#[test]
fn profile_row_with_unknown_status_is_refused() {
    let mut db = TargetProfileDB::from(profile());
    db.status = "paused".to_string();
    assert!(TargetProfile::try_from(db).is_err());
}

#[test]
fn node_row_round_trips() {
    let db = TargetAllocationNodeDB::from(node());
    assert_eq!(db.is_locked, 1);
    assert_eq!(db.is_required, 0);
    let back = TargetAllocationNode::from(db);
    assert!(back.is_locked);
    assert!(!back.is_required);
    assert_eq!(back.target_bps, 6000);
    assert_eq!(back.category_id, "EQUITY");
}

#[test]
fn stored_flag_other_than_zero_reads_as_true() {
    let mut db = TargetAllocationNodeDB::from(node());
    db.is_required = 7;
    assert!(TargetAllocationNode::from(db).is_required);
}

fn existing_row() -> BrokerSyncStateDB {
    BrokerSyncStateDB {
        account_id: "account-1".to_string(),
        provider: "snaptrade".to_string(),
        checkpoint_json: Some("{}".to_string()),
        last_attempted_at: Some("2026-05-01T00:00:00+00:00".to_string()),
        last_successful_at: None,
        last_error: Some("boom".to_string()),
        last_run_id: None,
        sync_status: "FAILED".to_string(),
        created_at: "2026-04-01T00:00:00+00:00".to_string(),
        updated_at: "2026-05-01T00:00:00+00:00".to_string(),
    }
}

#[test]
fn upsert_success_stores_passed_cursor_date() {
    let cursor = parse_sync_cursor("2026-05-22").unwrap();
    let row = sync_row_after(
        None,
        "account-1".to_string(),
        "snaptrade".to_string(),
        SyncEvent::Success { cursor, run_id: None },
        "2026-06-01T10:00:00+00:00".to_string(),
    );
    let stored = row.last_successful_at.expect("cursor");
    assert!(stored.starts_with("2026-05-22T00:00:00"));
    assert_eq!(row.sync_status, "IDLE");
    assert!(row.last_error.is_none());
}

#[test]
fn success_on_existing_row_clears_error_and_keeps_checkpoint() {
    let row = sync_row_after(
        Some(existing_row()),
        "ignored".to_string(),
        "ignored".to_string(),
        SyncEvent::Success { cursor: "2026-05-22T00:00:00+00:00".to_string(), run_id: Some("run-9".to_string()) },
        "2026-06-01T10:00:00+00:00".to_string(),
    );
    assert_eq!(row.account_id, "account-1");
    assert_eq!(row.checkpoint_json.as_deref(), Some("{}"));
    assert_eq!(row.created_at, "2026-04-01T00:00:00+00:00");
    assert_eq!(row.updated_at, "2026-06-01T10:00:00+00:00");
    assert!(row.last_error.is_none());
    assert_eq!(row.last_run_id.as_deref(), Some("run-9"));
    assert_eq!(row.last_attempted_at.as_deref(), Some("2026-05-01T00:00:00+00:00"));
}

#[test]
fn attempt_and_failure_statuses() {
    let attempted = sync_row_after(
        Some(existing_row()),
        String::new(),
        String::new(),
        SyncEvent::Attempt,
        "2026-06-02T00:00:00+00:00".to_string(),
    );
    assert_eq!(attempted.sync_status, "RUNNING");
    assert_eq!(attempted.last_attempted_at.as_deref(), Some("2026-06-02T00:00:00+00:00"));
    assert_eq!(attempted.last_error.as_deref(), Some("boom"));

    let failed = sync_row_after(
        None,
        "a".to_string(),
        "p".to_string(),
        SyncEvent::Failure { error: "timeout".to_string(), run_id: None },
        "2026-06-03T00:00:00+00:00".to_string(),
    );
    assert_eq!(failed.sync_status, "FAILED");
    assert_eq!(failed.last_error.as_deref(), Some("timeout"));
    assert_eq!(failed.created_at, "2026-06-03T00:00:00+00:00");

    let review = sync_row_after(
        None,
        "a".to_string(),
        "p".to_string(),
        SyncEvent::NeedsReview { warning: "check".to_string(), run_id: None },
        "2026-06-03T00:00:00+00:00".to_string(),
    );
    assert_eq!(review.sync_status, "NEEDS_REVIEW");
    assert_eq!(review.last_error.as_deref(), Some("check"));
}
