use allocation_targets::model::{NewTargetAllocationNode, NewTargetProfile, ScopeType, TriggerType};
use allocation_targets::validation::{validate_new_profile, validate_nodes_sum};

fn base_profile(name: &str) -> NewTargetProfile {
    NewTargetProfile {
        name: name.to_string(),
        scope_type: ScopeType::All,
        scope_id: None,
        taxonomy_id: "asset_classes".to_string(),
        trigger_type: TriggerType::Threshold,
        drift_band_bps: 500,
    }
}

fn node(category_id: &str, bps: i32) -> NewTargetAllocationNode {
    NewTargetAllocationNode {
        profile_id: "p1".to_string(),
        category_id: category_id.to_string(),
        target_bps: bps,
        is_locked: false,
        is_required: true,
    }
}

#[test]
fn profile_empty_name_rejected() {
    let p = base_profile("  ");
    assert!(validate_new_profile(&p).is_err());
}

#[test]
fn profile_valid_passes() {
    assert!(validate_new_profile(&base_profile("My profile")).is_ok());
}

#[test]
fn profile_account_scope_requires_scope_id() {
    let p = NewTargetProfile { scope_type: ScopeType::Account, scope_id: None, ..base_profile("p") };
    assert!(validate_new_profile(&p).is_err());
}

#[test]
fn profile_account_scope_with_scope_id_passes() {
    let p = NewTargetProfile {
        scope_type: ScopeType::Account,
        scope_id: Some("acc-1".to_string()),
        ..base_profile("p")
    };
    assert!(validate_new_profile(&p).is_ok());
}

#[test]
fn profile_drift_band_out_of_range_rejected() {
    let p = NewTargetProfile { drift_band_bps: 10001, ..base_profile("p") };
    assert!(validate_new_profile(&p).is_err());
}

#[test]
fn profile_drift_band_zero_allowed() {
    let p = NewTargetProfile { drift_band_bps: 0, ..base_profile("p") };
    assert!(validate_new_profile(&p).is_ok());
}

#[test]
fn nodes_sum_to_10000_passes() {
    let nodes = vec![node("EQUITY", 6000), node("FIXED_INCOME", 4000)];
    assert!(validate_nodes_sum(&nodes).is_ok());
}

#[test]
fn nodes_not_summing_to_10000_rejected() {
    let nodes = vec![node("EQUITY", 6000), node("FIXED_INCOME", 3000)];
    assert!(validate_nodes_sum(&nodes).is_err());
}

#[test]
fn nodes_duplicate_category_rejected() {
    let nodes = vec![node("EQUITY", 5000), node("EQUITY", 5000)];
    assert!(validate_nodes_sum(&nodes).is_err());
}

#[test]
fn nodes_negative_bps_rejected() {
    let nodes = vec![node("EQUITY", -100), node("FIXED_INCOME", 10100)];
    assert!(validate_nodes_sum(&nodes).is_err());
}

#[test]
fn nodes_zero_target_allowed_when_sum_correct() {
    let nodes = vec![node("EQUITY", 6000), node("FIXED_INCOME", 4000), node("BONDS", 0)];
    assert!(validate_nodes_sum(&nodes).is_ok());
}

#[test]
fn validation_messages_are_exact() {
    let e = validate_new_profile(&base_profile("   ")).unwrap_err();
    assert_eq!(e.message(), "Invalid input: Profile name is required");
    let p = NewTargetProfile { scope_type: ScopeType::Portfolio, scope_id: None, ..base_profile("p") };
    assert_eq!(
        validate_new_profile(&p).unwrap_err().message(),
        "Invalid input: scope_id required for account/portfolio scope"
    );
    let p = NewTargetProfile { drift_band_bps: -1, ..base_profile("p") };
    assert_eq!(
        validate_new_profile(&p).unwrap_err().message(),
        "Invalid input: drift_band_bps must be between 0 and 10000"
    );
    let nodes = vec![node("EQUITY", 6000), node("FIXED_INCOME", 3000)];
    assert_eq!(
        validate_nodes_sum(&nodes).unwrap_err().message(),
        "Invalid input: Target allocations must sum to 10000 bps (100%), got 9000"
    );
    let nodes = vec![node("EQUITY", 5000), node("EQUITY", 5000)];
    assert_eq!(validate_nodes_sum(&nodes).unwrap_err().message(), "Invalid input: Duplicate category_id: EQUITY");
    let nodes = vec![node("EQUITY", -100), node("FIXED_INCOME", 10100)];
    assert_eq!(
        validate_nodes_sum(&nodes).unwrap_err().message(),
        "Invalid input: target_bps for category EQUITY must be between 0 and 10000"
    );
}

#[test]
fn profile_all_scope_with_scope_id_rejected() {
    let p = NewTargetProfile { scope_id: Some("acc-1".to_string()), ..base_profile("p") };
    let err = validate_new_profile(&p).unwrap_err();
    assert_eq!(err.message(), "Invalid input: scope_id must be empty for the all scope");
}
