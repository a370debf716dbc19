use std::collections::HashMap;
use std::str::FromStr;

use allocation_targets::allocation::{
    AllocationHoldings, AllocationServiceTrait, Holding, HoldingSummary, HoldingType,
    HoldingsServiceTrait, MonetaryValue, PortfolioAllocations,
};
use allocation_targets::dec::Dec;
use allocation_targets::drift::DriftServiceTrait;
use allocation_targets::errors::{Error, ValidationError};
use allocation_targets::model::{
    AllocationTarget, CalculateRebalancePlanInput, DriftReport, DriftRow, DriftStatus,
    RebalanceGoal, RebalancePlan, RebalanceWarningKind, ScopeType, TriggerType,
};
use allocation_targets::rebalance::{
    currency_fraction_digits, currency_rounding_tolerance, plan_sleeve, resolve_available_cash,
    shortfall_scale_factor, AllocationTargetServiceTrait, RebalanceService,
    RebalanceServiceTrait, SleeveShortfall,
};
use rust_decimal::Decimal;

// ── Decimal helpers ──────────────────────────────────────────────────────

fn from_decimal(x: Decimal) -> Dec {
    Dec::new(x.mantissa(), x.scale())
}

fn dec(s: &str) -> Dec {
    from_decimal(Decimal::from_str(s).unwrap())
}

fn num(x: Dec) -> Decimal {
    Decimal::from_i128_with_scale(x.mantissa, x.scale)
}

fn n(s: &str) -> Decimal {
    Decimal::from_str(s).unwrap()
}

// ── Fixtures ─────────────────────────────────────────────────────────────

fn make_profile(rebalance_goal: RebalanceGoal, whole_shares_only: bool) -> AllocationTarget {
    AllocationTarget {
        id: "profile-1".to_string(),
        name: "Test".to_string(),
        scope_type: ScopeType::All,
        scope_id: None,
        taxonomy_id: "asset_classes".to_string(),
        trigger_type: TriggerType::Threshold,
        drift_band_bps: 500,
        rebalance_goal,
        min_trade_amount: "0".to_string(),
        whole_shares_only,
        created_at: "2026-01-01T00:00:00Z".to_string(),
        updated_at: "2026-01-01T00:00:00Z".to_string(),
        archived_at: None,
    }
}

fn make_drift_row(category_id: &str, current_bps: i32, target_bps: i32, total_value: &str) -> DriftRow {
    let total = n(total_value);
    let drift_bps = current_bps - target_bps;
    let current_value = Decimal::from(current_bps) / Decimal::from(10000) * total;
    let target_value = Decimal::from(target_bps) / Decimal::from(10000) * total;
    let value_delta = current_value - target_value;
    let status = if drift_bps.abs() <= 500 {
        DriftStatus::InBand
    } else if drift_bps < 0 {
        DriftStatus::Underweight
    } else {
        DriftStatus::Overweight
    };
    DriftRow {
        category_id: category_id.to_string(),
        category_name: category_id.to_string(),
        color: "#aaa".to_string(),
        current_bps,
        target_bps,
        drift_bps,
        current_value: from_decimal(current_value),
        target_value: from_decimal(target_value),
        value_delta: from_decimal(value_delta),
        status,
        is_required: true,
        is_zero_current: current_bps == 0,
        is_cash: false,
    }
}

fn cash_row(category_id: &str, current_bps: i32, target_bps: i32, total_value: &str) -> DriftRow {
    DriftRow { is_cash: true, ..make_drift_row(category_id, current_bps, target_bps, total_value) }
}

fn make_holding(id: &str, symbol: &str, quantity: &str, market_value: &str) -> HoldingSummary {
    let q = n(quantity);
    let mv = n(market_value);
    let unit_price = if q > Decimal::ZERO { Some(from_decimal(mv / q)) } else { None };
    HoldingSummary {
        id: id.to_string(),
        symbol: symbol.to_string(),
        name: Some(symbol.to_string()),
        holding_type: HoldingType::Security,
        quantity: from_decimal(q),
        market_value: from_decimal(mv),
        currency: "USD".to_string(),
        weight_in_category: Dec::zero(),
        unit_price,
    }
}

fn make_report(rows: Vec<DriftRow>, total_value: &str) -> DriftReport {
    let max = rows.iter().map(|r| r.drift_bps.unsigned_abs()).max().unwrap_or(0);
    let out = rows.iter().filter(|r| r.drift_bps.unsigned_abs() > 500).count();
    DriftReport {
        target_id: "profile-1".to_string(),
        scope_type: ScopeType::All,
        scope_id: None,
        total_value: dec(total_value),
        base_currency: "USD".to_string(),
        max_drift_bps: max as i32,
        out_of_band_count: out,
        rows,
        holdings: None,
    }
}

fn make_input(available_cash: &str) -> CalculateRebalancePlanInput {
    CalculateRebalancePlanInput {
        target_id: "profile-1".to_string(),
        available_cash: dec(available_cash),
        account_ids: vec!["acc-1".to_string()],
        base_currency: "USD".to_string(),
        aggregated_account_id: "agg".to_string(),
    }
}

// ── Mocks ────────────────────────────────────────────────────────────────

fn unused() -> Error {
    Error::Calculation("not used by these tests".to_string())
}

struct MockTargetService {
    profile: AllocationTarget,
}

impl AllocationTargetServiceTrait for MockTargetService {
    fn get_target(&self, _: &str) -> Result<Option<AllocationTarget>, Error> {
        Ok(Some(self.profile.clone()))
    }
}

struct MockDriftService {
    report: DriftReport,
}

impl DriftServiceTrait for MockDriftService {
    fn get_drift_report(
        &self,
        _: &str,
        _: Option<&str>,
        _: &[String],
        _: &str,
        _: &str,
    ) -> Result<Option<DriftReport>, Error> {
        Ok(Some(self.report.clone()))
    }
    fn get_drift_report_for_profile(
        &self,
        _: &str,
        _: &[String],
        _: &str,
        _: &str,
    ) -> Result<DriftReport, Error> {
        Ok(self.report.clone())
    }
}

struct MockAllocationService {
    holdings_by_category: HashMap<String, Vec<HoldingSummary>>,
}

impl AllocationServiceTrait for MockAllocationService {
    fn get_portfolio_allocations_for_accounts(
        &self,
        _: &[String],
        _: &str,
        _: &str,
    ) -> Result<PortfolioAllocations, Error> {
        Err(unused())
    }
    fn get_holdings_by_allocation_for_accounts(
        &self,
        _: &[String],
        _: &str,
        _: &str,
        category_id: &str,
        _: &str,
    ) -> Result<AllocationHoldings, Error> {
        let holdings = self.holdings_by_category.get(category_id).cloned().unwrap_or_default();
        let total: Decimal = holdings.iter().map(|h| num(h.market_value)).sum();
        Ok(AllocationHoldings {
            taxonomy_id: "asset_classes".to_string(),
            taxonomy_name: "Asset Classes".to_string(),
            category_id: category_id.to_string(),
            category_name: category_id.to_string(),
            color: "#aaa".to_string(),
            holdings,
            total_value: from_decimal(total),
            currency: "USD".to_string(),
        })
    }
}

struct MockHoldingsService {
    cash_in_scope: Dec,
}

impl HoldingsServiceTrait for MockHoldingsService {
    fn get_holdings_for_accounts(
        &self,
        _: &[String],
        base_currency: &str,
        _: &str,
    ) -> Result<Vec<Holding>, Error> {
        Ok(vec![Holding {
            id: "cash".to_string(),
            account_id: "acc-1".to_string(),
            holding_type: HoldingType::Cash,
            quantity: self.cash_in_scope,
            local_currency: base_currency.to_string(),
            base_currency: base_currency.to_string(),
            market_value: MonetaryValue { local: self.cash_in_scope, base: self.cash_in_scope },
        }])
    }
}

type Service =
    RebalanceService<MockTargetService, MockDriftService, MockAllocationService, MockHoldingsService>;

fn make_service(
    profile: AllocationTarget,
    report: DriftReport,
    holdings: HashMap<String, Vec<HoldingSummary>>,
) -> Service {
    make_service_with_cash(profile, report, holdings, "1000000")
}

fn make_service_with_cash(
    profile: AllocationTarget,
    report: DriftReport,
    holdings: HashMap<String, Vec<HoldingSummary>>,
    cash_in_scope: &str,
) -> Service {
    RebalanceService::new(
        MockTargetService { profile },
        MockDriftService { report },
        MockAllocationService { holdings_by_category: holdings },
        MockHoldingsService { cash_in_scope: dec(cash_in_scope) },
    )
}

fn one_sleeve(category: &str, holdings: Vec<HoldingSummary>) -> HashMap<String, Vec<HoldingSummary>> {
    let mut h = HashMap::new();
    h.insert(category.to_string(), holdings);
    h
}

fn trade_for<'a>(plan: &'a RebalancePlan, symbol: &str) -> Option<&'a allocation_targets::model::SuggestedManualTrade> {
    plan.trades.iter().find(|t| t.symbol.as_deref() == Some(symbol))
}

// ── Scenarios ────────────────────────────────────────────────────────────

#[test]
fn cash_flow_only_no_sells_generated() {
    let rows = vec![
        make_drift_row("equity", 6000, 7000, "10000"),
        make_drift_row("bond", 4000, 3000, "10000"),
    ];
    let svc = make_service(
        make_profile(RebalanceGoal::ExactTarget, false),
        make_report(rows, "10000"),
        one_sleeve("equity", vec![make_holding("h1", "VTI", "10", "6000")]),
    );
    let plan = svc.calculate_plan(make_input("2000")).unwrap();
    assert!(plan.trades.iter().all(|t| t.action == "buy"), "cash-flow-only must not sell");
    assert!(num(plan.cash_used) <= n("2000"));
    assert!(plan.trades.iter().any(|t| t.category_id == "equity"), "should suggest buying equity");
}

#[test]
fn zero_cash_produces_no_trades() {
    let svc = make_service(
        make_profile(RebalanceGoal::ExactTarget, false),
        make_report(vec![make_drift_row("equity", 6000, 7000, "10000")], "10000"),
        one_sleeve("equity", vec![make_holding("h1", "VTI", "10", "6000")]),
    );
    let plan = svc.calculate_plan(make_input("0")).unwrap();
    assert!(plan.trades.is_empty());
    assert_eq!(num(plan.cash_used), Decimal::ZERO);
}

#[test]
fn negative_cash_returns_validation_error() {
    let svc = make_service(
        make_profile(RebalanceGoal::ExactTarget, false),
        make_report(vec![make_drift_row("equity", 6000, 7000, "10000")], "10000"),
        one_sleeve("equity", vec![make_holding("h1", "VTI", "10", "6000")]),
    );
    let err = svc.calculate_plan(make_input("-100")).unwrap_err();
    assert!(err.message().contains("non-negative"), "negative cash must be rejected: {:?}", err);
}

#[test]
fn deploy_exceeding_tracked_cash_is_rejected() {
    let svc = make_service_with_cash(
        make_profile(RebalanceGoal::ExactTarget, false),
        make_report(vec![make_drift_row("equity", 6000, 7000, "10000")], "10000"),
        one_sleeve("equity", vec![make_holding("h1", "VTI", "10", "6000")]),
        "500",
    );
    let err = svc.calculate_plan(make_input("1000")).unwrap_err();
    assert!(
        err.message().contains("exceeds tracked cash in scope"),
        "deploy over tracked cash must be rejected: {:?}",
        err
    );
}

#[test]
fn rounded_cash_within_cent_is_capped_to_tracked_cash() {
    let rows = vec![make_drift_row("equity", 5000, 6000, "1000"), cash_row("cash", 5000, 4000, "1000")];
    let svc = make_service_with_cash(
        make_profile(RebalanceGoal::ExactTarget, false),
        make_report(rows, "1000"),
        one_sleeve("equity", vec![make_holding("h1", "VTI", "10", "500")]),
        "100.005",
    );
    let plan = svc.calculate_plan(make_input("100.01")).unwrap();
    assert_eq!(num(plan.available_cash), n("100.005"));
    assert_eq!(num(plan.cash_used), n("100"));
    assert_eq!(num(plan.cash_remaining), n("0.005"));
}

#[test]
fn rounded_zero_decimal_cash_is_capped_to_tracked_cash() {
    let rows = vec![make_drift_row("equity", 5000, 6000, "1000"), cash_row("cash", 5000, 4000, "1000")];
    let svc = make_service_with_cash(
        make_profile(RebalanceGoal::ExactTarget, false),
        make_report(rows, "1000"),
        one_sleeve("equity", vec![make_holding("h1", "VTI", "10", "500")]),
        "100.5",
    );
    let input = CalculateRebalancePlanInput { base_currency: "JPY".to_string(), ..make_input("101") };
    let plan = svc.calculate_plan(input).unwrap();
    assert_eq!(num(plan.available_cash), n("100.5"));
    assert_eq!(num(plan.cash_used), n("100"));
    assert_eq!(num(plan.cash_remaining), n("0.5"));
}

#[test]
fn total_value_stays_constant_when_cash_deployed() {
    let rows = vec![make_drift_row("equity", 6000, 7000, "10000"), cash_row("cash", 4000, 3000, "10000")];
    let svc = make_service(
        make_profile(RebalanceGoal::ExactTarget, false),
        make_report(rows, "10000"),
        one_sleeve("equity", vec![make_holding("h1", "VTI", "10", "6000")]),
    );
    let plan = svc.calculate_plan(make_input("2000")).unwrap();
    assert_eq!(num(plan.cash_used) + num(plan.cash_remaining), n("2000"));
    assert_eq!(num(plan.cash_used), n("1000"));
    assert_eq!(plan.max_drift_bps_after, 0, "cash sleeve must drop by cash_used so both sleeves reach target");
}

#[test]
fn underweight_cash_is_not_a_buy_candidate() {
    let rows = vec![make_drift_row("equity", 8000, 7000, "10000"), cash_row("cash", 2000, 3000, "10000")];
    let svc = make_service(
        make_profile(RebalanceGoal::ExactTarget, false),
        make_report(rows, "10000"),
        one_sleeve("cash", vec![make_holding("cash-usd", "USD", "2000", "2000")]),
    );
    let plan = svc.calculate_plan(make_input("1000")).unwrap();
    assert!(plan.trades.is_empty(), "cash must not be selected as a buy sleeve");
    assert_eq!(num(plan.cash_used), Decimal::ZERO);
    assert_eq!(plan.max_drift_bps_after, plan.max_drift_bps_before);
}

#[test]
fn insufficient_cash_scales_down() {
    let rows = vec![make_drift_row("equity", 6000, 7000, "10000"), make_drift_row("bond", 4000, 3000, "10000")];
    let svc = make_service(
        make_profile(RebalanceGoal::ExactTarget, false),
        make_report(rows, "10000"),
        one_sleeve("equity", vec![make_holding("h1", "VTI", "10", "6000")]),
    );
    let plan = svc.calculate_plan(make_input("500")).unwrap();
    assert!(num(plan.cash_used) <= n("500"));
}

#[test]
fn no_holdings_emits_warning_and_sleeve_level_trade() {
    let svc = make_service(
        make_profile(RebalanceGoal::ExactTarget, false),
        make_report(vec![make_drift_row("bonds", 2000, 4000, "10000")], "10000"),
        HashMap::new(),
    );
    let plan = svc.calculate_plan(make_input("1000")).unwrap();
    assert!(plan.warnings.iter().any(|w| w.kind == RebalanceWarningKind::NoBuyCandidate));
    let trade = plan.trades.iter().find(|t| t.category_id == "bonds");
    assert!(trade.is_some());
    assert!(trade.unwrap().symbol.is_none(), "sleeve-level trade has no ticker");
}

#[test]
fn whole_shares_only_rounds_down() {
    let svc = make_service(
        make_profile(RebalanceGoal::ExactTarget, true),
        make_report(vec![make_drift_row("equity", 6000, 7000, "10000")], "10000"),
        one_sleeve("equity", vec![make_holding("h1", "VTI", "10", "1000")]),
    );
    let plan = svc.calculate_plan(make_input("1000")).unwrap();
    let qty = num(trade_for(&plan, "VTI").unwrap().quantity.unwrap());
    assert_eq!(qty.fract(), Decimal::ZERO, "whole shares only: must be integer");
}

#[test]
fn nearest_band_shortfall_less_than_exact_target() {
    let rows = vec![make_drift_row("equity", 6000, 7000, "10000")];
    let h = one_sleeve("equity", vec![make_holding("h1", "VTI", "10", "6000")]);
    let svc_exact = make_service(
        make_profile(RebalanceGoal::ExactTarget, false),
        make_report(rows.clone(), "10000"),
        h.clone(),
    );
    let svc_band = make_service(make_profile(RebalanceGoal::NearestBand, false), make_report(rows, "10000"), h);
    let plan_exact = svc_exact.calculate_plan(make_input("5000")).unwrap();
    let plan_band = svc_band.calculate_plan(make_input("5000")).unwrap();
    assert!(num(plan_band.cash_used) <= num(plan_exact.cash_used), "nearest_band deploys less cash than exact_target");
}

#[test]
fn min_trade_amount_filters_small_trades() {
    let profile = AllocationTarget {
        min_trade_amount: "100".to_string(),
        ..make_profile(RebalanceGoal::ExactTarget, false)
    };
    let svc = make_service(
        profile,
        make_report(vec![make_drift_row("equity", 6000, 8000, "10000")], "10000"),
        one_sleeve(
            "equity",
            vec![make_holding("h1", "VTI", "9", "900"), make_holding("h2", "IVV", "1", "100")],
        ),
    );
    let plan = svc.calculate_plan(make_input("200")).unwrap();
    assert!(trade_for(&plan, "VTI").is_some(), "VTI trade should survive min_trade filter");
    assert!(trade_for(&plan, "IVV").is_none(), "IVV trade should be filtered by min_trade_amount");
}

#[test]
fn proportional_buy_across_multiple_holdings() {
    let svc = make_service(
        make_profile(RebalanceGoal::ExactTarget, false),
        make_report(vec![make_drift_row("equity", 5000, 8000, "10000")], "10000"),
        one_sleeve(
            "equity",
            vec![make_holding("h1", "VTI", "30", "3000"), make_holding("h2", "VXUS", "10", "1000")],
        ),
    );
    let plan = svc.calculate_plan(make_input("2000")).unwrap();
    let vti = trade_for(&plan, "VTI").unwrap();
    let vxus = trade_for(&plan, "VXUS").unwrap();
    let ratio = num(vti.estimated_amount) / num(vxus.estimated_amount);
    assert!((ratio - n("3")).abs() < n("0.01"), "VTI should get 3x VXUS, got ratio {}", ratio);
}

#[test]
fn phase2_distributes_residue_one_share_at_a_time() {
    let svc = make_service(
        make_profile(RebalanceGoal::ExactTarget, true),
        make_report(vec![make_drift_row("equity", 4000, 8000, "10000")], "10000"),
        one_sleeve(
            "equity",
            vec![
                make_holding("a", "A", "10", "100"),
                make_holding("b", "B", "4", "120"),
                make_holding("c", "C", "4", "200"),
            ],
        ),
    );
    let plan = svc.calculate_plan(make_input("100")).unwrap();
    let a = trade_for(&plan, "A").expect("A trade present");
    let b = trade_for(&plan, "B").expect("B trade present (rescued by the second phase)");
    assert_eq!(a.quantity.map(num), Some(n("4")));
    assert_eq!(b.quantity.map(num), Some(n("2")));
    assert!(trade_for(&plan, "C").is_none(), "C remains starved");
    assert_eq!(num(plan.cash_used), n("100"));
}

#[test]
fn phase2_emits_topup_warning_for_unrescued_starved_holding() {
    let svc = make_service(
        make_profile(RebalanceGoal::ExactTarget, true),
        make_report(vec![make_drift_row("equity", 5000, 8000, "10000")], "10000"),
        one_sleeve("equity", vec![make_holding("x", "EXPENSIVE", "5", "1200")]),
    );
    let plan = svc.calculate_plan(make_input("200")).unwrap();
    assert!(trade_for(&plan, "EXPENSIVE").is_none(), "EXPENSIVE should be skipped");
    let warn = plan
        .warnings
        .iter()
        .find(|w| w.kind == RebalanceWarningKind::WholeShareResidue)
        .expect("WholeShareResidue warning emitted for starved holding");
    assert!(warn.message.contains("EXPENSIVE"), "warning names the symbol: {}", warn.message);
    assert!(warn.message.contains("40"), "warning includes topup amount: {}", warn.message);
}

// ── Further cases ────────────────────────────────────────────────────────

#[test]
fn missing_target_is_not_found() {
    struct NoTarget;
    impl AllocationTargetServiceTrait for NoTarget {
        fn get_target(&self, _: &str) -> Result<Option<AllocationTarget>, Error> {
            Ok(None)
        }
    }
    let svc = RebalanceService::new(
        NoTarget,
        MockDriftService { report: make_report(vec![], "0") },
        MockAllocationService { holdings_by_category: HashMap::new() },
        MockHoldingsService { cash_in_scope: dec("100") },
    );
    let err = svc.calculate_plan(make_input("10")).unwrap_err();
    assert_eq!(err.message(), "Not found: AllocationTarget profile-1 not found");
}

#[test]
fn plan_is_for_the_target_asked_and_remaining_is_the_difference() {
    let svc = make_service(
        make_profile(RebalanceGoal::ExactTarget, false),
        make_report(vec![make_drift_row("equity", 6000, 7000, "10000")], "10000"),
        one_sleeve("equity", vec![make_holding("h1", "VTI", "10", "6000")]),
    );
    let plan = svc.calculate_plan(make_input("300")).unwrap();
    assert_eq!(plan.target_id, "profile-1");
    assert_eq!(num(plan.available_cash), n("300"));
    assert_eq!(num(plan.cash_used), n("300"));
    assert_eq!(num(plan.cash_remaining), Decimal::ZERO);
    assert_eq!(plan.trades.len(), 1);
    assert_eq!(num(plan.trades[0].quantity.unwrap()), n("0.5"));
}

#[test]
fn currency_digits_and_tolerance() {
    assert_eq!(currency_fraction_digits("USD"), 2);
    assert_eq!(currency_fraction_digits("JPY"), 0);
    assert_eq!(currency_fraction_digits("KWD"), 3);
    assert_eq!(num(currency_rounding_tolerance("USD")), n("0.01"));
    assert_eq!(num(currency_rounding_tolerance("JPY")), n("1"));
}

#[test]
fn resolve_available_cash_cases() {
    assert_eq!(num(resolve_available_cash(dec("50"), dec("100"), "USD").unwrap()), n("50"));
    assert_eq!(num(resolve_available_cash(dec("100.01"), dec("100"), "USD").unwrap()), n("100"));
    assert_eq!(
        resolve_available_cash(dec("100.02"), dec("100"), "USD").unwrap_err(),
        Error::Validation(ValidationError::InvalidInput(
            "cash to deploy exceeds tracked cash in scope".to_string()
        ))
    );
}

#[test]
fn scale_factor_caps_at_one() {
    assert_eq!(shortfall_scale_factor(dec("1000"), dec("500")).map(num), Some(n("0.5")));
    assert_eq!(shortfall_scale_factor(dec("1000"), dec("5000")).map(num), Some(n("1")));
}

fn equity_sleeve() -> SleeveShortfall {
    SleeveShortfall { category_id: "equity".to_string(), category_name: "Equity".to_string(), shortfall: dec("2000") }
}

#[test]
fn plan_sleeve_splits_budget_by_holding_value() {
    let holdings = vec![make_holding("h1", "VTI", "30", "3000"), make_holding("h2", "VXUS", "10", "1000")];
    let mut trades = vec![];
    let mut warnings = vec![];
    let deployed = plan_sleeve(&equity_sleeve(), dec("2000"), &holdings, false, dec("0"), &mut trades, &mut warnings).unwrap();
    assert_eq!(num(deployed), n("2000"));
    assert!(warnings.is_empty());
    assert_eq!(trades.len(), 2);
    assert_eq!(trades[0].asset_id.as_deref(), Some("h1"));
    assert_eq!(num(trades[0].estimated_amount), n("1500"));
    assert_eq!(num(trades[0].quantity.unwrap()), n("15"));
    assert_eq!(num(trades[0].estimated_price.unwrap()), n("100"));
    assert_eq!(trades[0].reason, "VTI is underweight in Equity.");
    assert_eq!(num(trades[1].estimated_amount), n("500"));
    assert_eq!(num(trades[1].quantity.unwrap()), n("5"));
}

#[test]
fn plan_sleeve_without_holdings_is_a_sleeve_level_buy() {
    let mut trades = vec![];
    let mut warnings = vec![];
    let deployed = plan_sleeve(&equity_sleeve(), dec("250"), &vec![], true, dec("0"), &mut trades, &mut warnings).unwrap();
    assert_eq!(num(deployed), n("250"));
    assert_eq!(trades.len(), 1);
    assert!(trades[0].symbol.is_none());
    assert_eq!(warnings.len(), 1);
    assert_eq!(warnings[0].kind, RebalanceWarningKind::NoBuyCandidate);
    assert_eq!(warnings[0].message, "No holdings found in Equity. Allocate 250.00 to this sleeve manually.");
    assert_eq!(trades[0].reason, "Sleeve Equity is underweight. Suggested amount to buy.");
    assert!(trades[0].name.is_none());
}

#[test]
fn plan_sleeve_whole_shares_spends_residue_then_warns_top_up() {
    let holdings = vec![
        make_holding("a", "A", "10", "100"),
        make_holding("b", "B", "4", "120"),
        make_holding("c", "C", "4", "200"),
    ];
    let mut trades = vec![];
    let mut warnings = vec![];
    let deployed = plan_sleeve(&equity_sleeve(), dec("100"), &holdings, true, dec("0"), &mut trades, &mut warnings).unwrap();
    assert_eq!(num(deployed), n("100"));
    assert_eq!(trades.len(), 2);
    assert_eq!(trades[0].asset_id.as_deref(), Some("a"));
    assert_eq!(num(trades[0].quantity.unwrap()), n("4"));
    assert_eq!(num(trades[0].estimated_amount), n("40"));
    assert_eq!(trades[1].asset_id.as_deref(), Some("b"));
    assert_eq!(num(trades[1].quantity.unwrap()), n("2"));
    assert_eq!(num(trades[1].estimated_amount), n("60"));
    assert_eq!(trades[1].reason, "B is underweight in Equity.");
    assert_eq!(warnings.len(), 1);
    assert_eq!(warnings[0].kind, RebalanceWarningKind::WholeShareResidue);
    assert_eq!(
        warnings[0].message,
        "C: budget 47.61 is short of 1 share at 50.00. Add ~2.38 more cash to fund 1 share, or C will drift below target over time."
    );
}

#[test]
fn plan_sleeve_whole_shares_cannot_rescue_expensive_holding() {
    let mut trades = vec![];
    let mut warnings = vec![];
    let deployed = plan_sleeve(
        &equity_sleeve(),
        dec("200"),
        &vec![make_holding("x", "EXPENSIVE", "5", "1200")],
        true,
        dec("0"),
        &mut trades,
        &mut warnings,
    )
    .unwrap();
    assert_eq!(num(deployed), Decimal::ZERO);
    assert!(trades.is_empty());
    assert_eq!(warnings.len(), 1);
    assert_eq!(
        warnings[0].message,
        "EXPENSIVE: budget 200.00 is short of 1 share at 240.00. Add ~40.00 more cash to fund 1 share, or EXPENSIVE will drift below target over time."
    );
}

#[test]
fn plan_sleeve_whole_shares_without_price_warns_missing_quote() {
    let no_price = HoldingSummary { unit_price: None, quantity: dec("0"), ..make_holding("h9", "ZZZ", "0", "0") };
    let mut trades = vec![];
    let mut warnings = vec![];
    let deployed = plan_sleeve(
        &equity_sleeve(),
        dec("100"),
        &vec![no_price, make_holding("h1", "VTI", "1", "50")],
        true,
        dec("0"),
        &mut trades,
        &mut warnings,
    )
    .unwrap();
    assert_eq!(warnings[0].kind, RebalanceWarningKind::MissingQuote);
    assert_eq!(warnings[0].message, "ZZZ: no valid price/quantity for whole-share rounding. Skipped.");
    assert_eq!(trades.len(), 1);
    assert_eq!(num(trades[0].quantity.unwrap()), n("2"));
    assert_eq!(num(deployed), n("100"));
}

#[test]
fn plan_sleeve_without_holdings_drops_buy_below_minimum() {
    let mut trades = vec![];
    let mut warnings = vec![];
    let deployed = plan_sleeve(&equity_sleeve(), dec("50"), &vec![], false, dec("100"), &mut trades, &mut warnings).unwrap();
    assert_eq!(num(deployed), Decimal::ZERO);
    assert!(trades.is_empty());
    assert_eq!(warnings.len(), 1);
    assert_eq!(warnings[0].kind, RebalanceWarningKind::NoBuyCandidate);
}

#[test]
fn fractional_split_can_round_above_the_budget() {
    let holdings: Vec<HoldingSummary> = (0..6).map(|i| make_holding(&format!("h{i}"), &format!("S{i}"), "1", "1")).collect();
    let mut trades = vec![];
    let mut warnings = vec![];
    let deployed = plan_sleeve(&equity_sleeve(), dec("100"), &holdings, false, dec("0"), &mut trades, &mut warnings).unwrap();
    assert_eq!(trades.len(), 6);
    assert!(num(deployed) > n("100"), "rounded weights of 1/6 add up to a little more than the budget: {}", num(deployed));
}
