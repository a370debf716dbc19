use allocation_targets::allocation::{
    AllocationHoldings, AllocationServiceTrait, CategoryAllocation, PortfolioAllocations,
    TaxonomyAllocation,
};
use allocation_targets::dec::Dec;
use allocation_targets::drift::{
    build_drift_report, split_scope_id, DriftService, DriftServiceTrait,
};
use allocation_targets::errors::{DatabaseError, Error};
use allocation_targets::model::{
    DriftReport, DriftStatus, NewTargetAllocationNode, NewTargetProfile, ProfileStatus, ScopeType,
    TargetAllocationNode, TargetProfile, TriggerType,
};
use allocation_targets::target_service::TargetProfileServiceTrait;
use rust_decimal::Decimal;

// ── Helpers ──────────────────────────────────────────────────────────────

fn d(n: i64) -> Dec {
    Dec::from_i64(n)
}

fn as_decimal(x: Dec) -> Decimal {
    Decimal::from_i128_with_scale(x.mantissa, x.scale)
}

fn base_profile(drift_band_bps: i32) -> TargetProfile {
    TargetProfile {
        id: "p1".to_string(),
        name: "Test".to_string(),
        status: ProfileStatus::Active,
        scope_type: ScopeType::All,
        scope_id: None,
        taxonomy_id: "asset_classes".to_string(),
        trigger_type: TriggerType::Threshold,
        drift_band_bps,
        created_at: "2026-01-01".to_string(),
        updated_at: "2026-01-01".to_string(),
    }
}

fn node(category_id: &str, target_bps: i32) -> TargetAllocationNode {
    TargetAllocationNode {
        id: format!("n-{}", category_id),
        profile_id: "p1".to_string(),
        category_id: category_id.to_string(),
        target_bps,
        is_locked: false,
        is_required: true,
        created_at: "2026-01-01".to_string(),
        updated_at: "2026-01-01".to_string(),
    }
}

fn cat(category_id: &str, value: Dec) -> CategoryAllocation {
    CategoryAllocation {
        category_id: category_id.to_string(),
        category_name: category_id.to_string(),
        color: "#000000".to_string(),
        value,
        percentage: Dec::zero(),
    }
}

fn empty_taxonomy() -> TaxonomyAllocation {
    TaxonomyAllocation {
        taxonomy_id: String::new(),
        taxonomy_name: String::new(),
        color: String::new(),
        categories: vec![],
    }
}

fn alloc_with(categories: Vec<CategoryAllocation>, total: Dec) -> PortfolioAllocations {
    PortfolioAllocations {
        asset_classes: TaxonomyAllocation {
            taxonomy_id: "asset_classes".to_string(),
            taxonomy_name: "Asset Classes".to_string(),
            color: "#000000".to_string(),
            categories,
        },
        sectors: empty_taxonomy(),
        regions: empty_taxonomy(),
        risk_category: empty_taxonomy(),
        security_types: empty_taxonomy(),
        custom_groups: vec![],
        total_value: total,
    }
}

// ── Mocks ────────────────────────────────────────────────────────────────

fn unused() -> Error {
    Error::Calculation("not used by these tests".to_string())
}

struct MockTargetService {
    profile: Option<TargetProfile>,
    nodes: Vec<TargetAllocationNode>,
}

impl TargetProfileServiceTrait for MockTargetService {
    fn get_profile(&self, _id: &str) -> Result<Option<TargetProfile>, Error> {
        Ok(self.profile.clone())
    }
    fn list_profiles(&self) -> Result<Vec<TargetProfile>, Error> {
        Ok(self.profile.clone().into_iter().collect())
    }
    fn get_active_profile_for_scope(
        &self,
        _scope_type: &str,
        _scope_id: Option<&str>,
    ) -> Result<Option<TargetProfile>, Error> {
        Ok(self.profile.clone())
    }
    fn list_nodes_for_profile(&self, _profile_id: &str) -> Result<Vec<TargetAllocationNode>, Error> {
        Ok(self.nodes.clone())
    }
    fn create_profile(&self, _input: NewTargetProfile) -> Result<TargetProfile, Error> {
        Err(unused())
    }
    fn update_profile(&self, _id: &str, _input: NewTargetProfile) -> Result<TargetProfile, Error> {
        Err(unused())
    }
    fn activate_profile(&self, _id: &str) -> Result<TargetProfile, Error> {
        Err(unused())
    }
    fn archive_profile(&self, _id: &str) -> Result<TargetProfile, Error> {
        Err(unused())
    }
    fn delete_profile(&self, _id: &str) -> Result<(), Error> {
        Err(unused())
    }
    fn save_nodes(
        &self,
        _profile_id: &str,
        _nodes: Vec<NewTargetAllocationNode>,
    ) -> Result<Vec<TargetAllocationNode>, Error> {
        Err(unused())
    }
}

struct MockAllocationService(PortfolioAllocations);

impl AllocationServiceTrait for MockAllocationService {
    fn get_portfolio_allocations_for_accounts(
        &self,
        _account_ids: &[String],
        _base_currency: &str,
        _aggregated_account_id: &str,
    ) -> Result<PortfolioAllocations, Error> {
        Ok(self.0.clone())
    }
    fn get_holdings_by_allocation_for_accounts(
        &self,
        _account_ids: &[String],
        _base_currency: &str,
        _taxonomy_id: &str,
        _category_id: &str,
        _aggregated_account_id: &str,
    ) -> Result<AllocationHoldings, Error> {
        Err(unused())
    }
}

fn make_service(
    profile: TargetProfile,
    nodes: Vec<TargetAllocationNode>,
    allocations: PortfolioAllocations,
) -> DriftService<MockTargetService, MockAllocationService> {
    DriftService::new(
        MockTargetService { profile: Some(profile), nodes },
        MockAllocationService(allocations),
    )
}

fn report_for(
    profile: TargetProfile,
    nodes: Vec<TargetAllocationNode>,
    allocations: PortfolioAllocations,
) -> DriftReport {
    make_service(profile, nodes, allocations)
        .get_drift_report_for_profile("p1", &[], "USD", "agg")
        .unwrap()
}

fn row<'a>(report: &'a DriftReport, id: &str) -> &'a allocation_targets::model::DriftRow {
    report.rows.iter().find(|r| r.category_id == id).unwrap()
}

// ── Scenarios ────────────────────────────────────────────────────────────

#[test]
fn overweight_detected() {
    let report = report_for(
        base_profile(500),
        vec![node("EQUITY", 6000), node("BONDS", 4000)],
        alloc_with(vec![cat("EQUITY", d(7000)), cat("BONDS", d(3000))], d(10000)),
    );
    let equity = row(&report, "EQUITY");
    assert_eq!(equity.current_bps, 7000);
    assert_eq!(equity.target_bps, 6000);
    assert_eq!(equity.drift_bps, 1000);
    assert_eq!(equity.status, DriftStatus::Overweight);
}

#[test]
fn underweight_detected() {
    let report = report_for(
        base_profile(500),
        vec![node("EQUITY", 6000), node("BONDS", 4000)],
        alloc_with(vec![cat("EQUITY", d(7000)), cat("BONDS", d(3000))], d(10000)),
    );
    let bonds = row(&report, "BONDS");
    assert_eq!(bonds.drift_bps, -1000);
    assert_eq!(bonds.status, DriftStatus::Underweight);
}

#[test]
fn in_band_detected() {
    let report = report_for(
        base_profile(500),
        vec![node("EQUITY", 6000), node("BONDS", 4000)],
        alloc_with(vec![cat("EQUITY", d(6100)), cat("BONDS", d(3900))], d(10000)),
    );
    let equity = row(&report, "EQUITY");
    assert_eq!(equity.drift_bps, 100);
    assert_eq!(equity.status, DriftStatus::InBand);
}

#[test]
fn zero_current_marks_is_zero_current_and_underweight() {
    let report = report_for(
        base_profile(500),
        vec![node("EQUITY", 6000), node("BONDS", 4000)],
        alloc_with(vec![cat("EQUITY", d(10000))], d(10000)),
    );
    let bonds = row(&report, "BONDS");
    assert!(bonds.is_zero_current);
    assert_eq!(bonds.current_bps, 0);
    assert_eq!(bonds.drift_bps, -4000);
    assert_eq!(bonds.status, DriftStatus::Underweight);
}

#[test]
fn not_targeted_category_appended() {
    let report = report_for(
        base_profile(500),
        vec![node("EQUITY", 10000)],
        alloc_with(vec![cat("EQUITY", d(8000)), cat("CASH", d(2000))], d(10000)),
    );
    let cash = row(&report, "CASH");
    assert_eq!(cash.status, DriftStatus::NotTargeted);
    assert_eq!(cash.target_bps, 0);
    assert_eq!(cash.current_bps, 2000);
    assert_eq!(cash.drift_bps, 2000);
}

#[test]
fn max_drift_bps_from_required_rows() {
    let report = report_for(
        base_profile(500),
        vec![node("EQUITY", 6000), node("BONDS", 4000)],
        alloc_with(vec![cat("EQUITY", d(7000)), cat("BONDS", d(3000))], d(10000)),
    );
    assert_eq!(report.max_drift_bps, 1000);
}

#[test]
fn out_of_band_count_correct() {
    let report = report_for(
        base_profile(500),
        vec![node("EQUITY", 6000), node("BONDS", 4000)],
        alloc_with(vec![cat("EQUITY", d(7000)), cat("BONDS", d(3000))], d(10000)),
    );
    assert_eq!(report.out_of_band_count, 2);
}

#[test]
fn total_value_zero_all_bps_zero() {
    let report = report_for(
        base_profile(500),
        vec![node("EQUITY", 6000), node("BONDS", 4000)],
        alloc_with(vec![], d(0)),
    );
    for r in &report.rows {
        assert_eq!(r.current_bps, 0);
    }
    assert_eq!(as_decimal(report.total_value), Decimal::ZERO);
}

#[test]
fn value_delta_correct() {
    let report = report_for(
        base_profile(500),
        vec![node("EQUITY", 6000), node("BONDS", 4000)],
        alloc_with(vec![cat("EQUITY", d(7000)), cat("BONDS", d(3000))], d(10000)),
    );
    let equity = row(&report, "EQUITY");
    assert_eq!(as_decimal(equity.current_value), Decimal::from(7000));
    assert_eq!(as_decimal(equity.target_value), Decimal::from(6000));
    assert_eq!(as_decimal(equity.value_delta), Decimal::from(1000));
}

// ── Further cases ────────────────────────────────────────────────────────

#[test]
fn rows_ranked_targeted_first_then_by_absolute_drift() {
    // EQUITY +500, BONDS -1500, GOLD +1000, CASH untargeted with 0 bps.
    let report = report_for(
        base_profile(500),
        vec![node("EQUITY", 5000), node("BONDS", 4000), node("GOLD", 1000)],
        alloc_with(
            vec![
                cat("CASH", d(0)),
                cat("EQUITY", d(5500)),
                cat("BONDS", d(2500)),
                cat("GOLD", d(2000)),
            ],
            d(10000),
        ),
    );
    let ids: Vec<&str> = report.rows.iter().map(|r| r.category_id.as_str()).collect();
    assert_eq!(ids, vec!["BONDS", "GOLD", "EQUITY", "CASH"]);
    assert_eq!(report.max_drift_bps, 1500);
    // EQUITY is exactly on the band edge: in band.
    assert_eq!(row(&report, "EQUITY").status, DriftStatus::InBand);
    assert_eq!(report.out_of_band_count, 2);
}

#[test]
fn band_edge_is_in_band_and_one_past_is_out() {
    let report = report_for(
        base_profile(100),
        vec![node("A", 5000), node("B", 5000)],
        alloc_with(vec![cat("A", d(5100)), cat("B", d(4899)), cat("C", d(1))], d(10000)),
    );
    assert_eq!(row(&report, "A").status, DriftStatus::InBand);
    assert_eq!(row(&report, "B").status, DriftStatus::Underweight);
    assert_eq!(row(&report, "B").drift_bps, -101);
}

#[test]
fn non_required_rows_do_not_count() {
    let mut opt = node("BONDS", 4000);
    opt.is_required = false;
    let report = report_for(
        base_profile(500),
        vec![node("EQUITY", 6000), opt],
        alloc_with(vec![cat("EQUITY", d(6000)), cat("BONDS", d(1000)), cat("X", d(3000))], d(10000)),
    );
    assert_eq!(row(&report, "BONDS").status, DriftStatus::Underweight);
    assert_eq!(report.max_drift_bps, 0);
    assert_eq!(report.out_of_band_count, 0);
}

#[test]
fn custom_group_taxonomy_is_selected_by_id() {
    let mut alloc = alloc_with(vec![cat("EQUITY", d(10000))], d(10000));
    alloc.custom_groups.push(TaxonomyAllocation {
        taxonomy_id: "themes".to_string(),
        taxonomy_name: "Themes".to_string(),
        color: "#111111".to_string(),
        categories: vec![cat("AI", d(2500)), cat("ENERGY", d(7500))],
    });
    let mut profile = base_profile(500);
    profile.taxonomy_id = "themes".to_string();
    let report = report_for(profile, vec![node("AI", 5000)], alloc);
    assert_eq!(row(&report, "AI").current_bps, 2500);
    assert_eq!(row(&report, "AI").drift_bps, -2500);
    assert_eq!(row(&report, "ENERGY").status, DriftStatus::NotTargeted);
    assert!(report.rows.iter().all(|r| r.category_id != "EQUITY"));
}

#[test]
fn report_carries_ids_and_currency() {
    let report = report_for(
        base_profile(500),
        vec![node("EQUITY", 10000)],
        alloc_with(vec![cat("EQUITY", d(10))], d(10)),
    );
    assert_eq!(report.target_id, "p1");
    assert_eq!(report.base_currency, "USD");
    assert_eq!(report.scope_type, ScopeType::All);
    assert!(report.holdings.is_none());
}

#[test]
fn missing_profile_is_not_found() {
    let svc = DriftService::new(
        MockTargetService { profile: None, nodes: vec![] },
        MockAllocationService(alloc_with(vec![], d(0))),
    );
    let err = svc.get_drift_report_for_profile("p9", &[], "USD", "agg").unwrap_err();
    assert_eq!(
        err,
        Error::Database(DatabaseError::NotFound("TargetProfile p9 not found".to_string()))
    );
}

#[test]
fn scope_without_active_profile_has_no_report() {
    let svc = DriftService::new(
        MockTargetService { profile: None, nodes: vec![] },
        MockAllocationService(alloc_with(vec![], d(0))),
    );
    assert!(svc.get_drift_report("all", None, &[], "USD", "agg").unwrap().is_none());
}

#[test]
fn overflowing_allocation_is_a_calculation_error() {
    // A value too large to hold in basis points makes the report fail.
    let huge = Dec::new(79228162514264337593543950335i128, 0);
    let r = build_drift_report(
        &base_profile(500),
        &vec![node("EQUITY", 10000)],
        &alloc_with(vec![cat("EQUITY", huge)], Dec::new(1, 28)),
        "p1",
        "USD",
    );
    assert!(matches!(r, Err(Error::Calculation(_))));
}

#[test]
fn split_scope_id_cases() {
    assert_eq!(split_scope_id("all"), ("all".to_string(), None));
    assert_eq!(split_scope_id("account:abc"), ("account".to_string(), Some("abc".to_string())));
    assert_eq!(split_scope_id("group:g1:extra"), ("group".to_string(), Some("g1".to_string())));
    assert_eq!(split_scope_id("account:"), ("account".to_string(), Some(String::new())));
}

#[test]
fn other_taxonomies_measure_against_their_own_total() {
    let mut alloc = alloc_with(vec![cat("EQUITY", d(10000))], d(10000));
    alloc.regions = TaxonomyAllocation {
        taxonomy_id: "regions".to_string(),
        taxonomy_name: "Regions".to_string(),
        color: "#222222".to_string(),
        categories: vec![cat("US", d(3000)), cat("EU", d(2000))],
    };
    let mut profile = base_profile(500);
    profile.taxonomy_id = "regions".to_string();
    let report = report_for(profile, vec![node("US", 6000), node("EU", 4000)], alloc);
    assert_eq!(as_decimal(report.total_value), Decimal::from(5000));
    assert_eq!(row(&report, "US").current_bps, 6000);
    assert_eq!(row(&report, "EU").current_bps, 4000);
}
