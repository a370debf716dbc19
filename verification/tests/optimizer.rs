use std::str::FromStr;

use allocation_targets::dec::Dec;
use allocation_targets::errors::Error;
use allocation_targets::model::{RebalanceGoal, RebalanceWarning, RebalanceWarningKind};
use allocation_targets::optimizer::{
    candidate_order, category_drift, desired_bps_for_goal, AssetCandidate, CategoryState, DriftPriorityOptimizer,
    RebalanceInput, RebalanceOptimizer, RebalanceProfile,
};
use rust_decimal::Decimal;

fn dec(s: &str) -> Dec {
    let x = Decimal::from_str(s).unwrap();
    Dec::new(x.mantissa(), x.scale())
}

fn num(x: Dec) -> Decimal {
    Decimal::from_i128_with_scale(x.mantissa, x.scale)
}

fn n(s: &str) -> Decimal {
    Decimal::from_str(s).unwrap()
}

fn profile(goal: RebalanceGoal, whole: bool, min_trade: &str) -> RebalanceProfile {
    RebalanceProfile {
        target_id: "t1".to_string(),
        drift_band_bps: 500,
        rebalance_goal: goal,
        min_trade_amount: dec(min_trade),
        whole_shares_only: whole,
    }
}

fn category(id: &str, name: &str, target_bps: i32, value: &str) -> CategoryState {
    CategoryState {
        category_id: id.to_string(),
        category_name: name.to_string(),
        target_bps,
        current_value: dec(value),
        is_cash: false,
        is_required: true,
    }
}

fn candidate(symbol: &str, price: &str, exposure: Vec<(&str, &str)>) -> AssetCandidate {
    AssetCandidate {
        holding_id: format!("h-{}", symbol),
        asset_id: format!("a-{}", symbol),
        symbol: symbol.to_string(),
        name: Some(symbol.to_string()),
        price: dec(price),
        exposure_per_share: exposure.into_iter().map(|(k, v)| (k.to_string(), dec(v))).collect(),
    }
}

fn input(
    profile: RebalanceProfile,
    cash: &str,
    total: &str,
    categories: Vec<CategoryState>,
    candidates: Vec<AssetCandidate>,
) -> RebalanceInput {
    RebalanceInput {
        profile,
        available_cash: dec(cash),
        total_value: dec(total),
        categories,
        candidates,
        warnings: vec![],
    }
}

fn equity_bonds() -> Vec<CategoryState> {
    vec![category("equity", "Equity", 6000, "5000"), category("bonds", "Bonds", 4000, "5000")]
}

#[test]
fn fractional_buy_stops_at_target() {
    let plan = DriftPriorityOptimizer
        .plan(input(
            profile(RebalanceGoal::ExactTarget, false, "0"),
            "1000",
            "10000",
            equity_bonds(),
            vec![candidate("VTI", "100", vec![("equity", "100")])],
        ))
        .unwrap();
    assert_eq!(plan.target_id, "t1");
    assert_eq!(plan.trades.len(), 1);
    let t = &plan.trades[0];
    assert_eq!(t.action, "buy");
    assert_eq!(t.symbol.as_deref(), Some("VTI"));
    assert_eq!(t.category_id, "equity");
    assert_eq!(num(t.quantity.unwrap()), n("10"));
    assert_eq!(num(t.estimated_amount), n("1000"));
    assert_eq!(num(plan.cash_used), n("1000"));
    assert_eq!(num(plan.cash_remaining), Decimal::ZERO);
    assert_eq!(plan.max_drift_bps_before, 1000);
    assert_eq!(plan.max_drift_bps_after, 1000);
    assert!(plan.after_bps_by_category.contains(&("equity".to_string(), 6000)));
}

#[test]
fn whole_share_buy_is_batched_to_the_bend() {
    let plan = DriftPriorityOptimizer
        .plan(input(
            profile(RebalanceGoal::ExactTarget, true, "0"),
            "1050",
            "10000",
            equity_bonds(),
            vec![candidate("VTI", "100", vec![("equity", "100")])],
        ))
        .unwrap();
    assert_eq!(plan.trades.len(), 1);
    assert_eq!(num(plan.trades[0].quantity.unwrap()), n("10"));
    assert_eq!(num(plan.cash_used), n("1000"));
    assert_eq!(num(plan.cash_remaining), n("50"));
}

#[test]
fn cheaper_candidate_wins_equal_scores() {
    let plan = DriftPriorityOptimizer
        .plan(input(
            profile(RebalanceGoal::ExactTarget, false, "0"),
            "1000",
            "10000",
            equity_bonds(),
            vec![
                candidate("BIG", "100", vec![("equity", "100")]),
                candidate("SMALL", "50", vec![("equity", "50")]),
            ],
        ))
        .unwrap();
    assert_eq!(plan.trades.len(), 1);
    assert_eq!(plan.trades[0].symbol.as_deref(), Some("SMALL"));
    assert_eq!(num(plan.trades[0].quantity.unwrap()), n("20"));
}

#[test]
fn uncovered_category_gets_warning_and_sleeve_trade() {
    let plan = DriftPriorityOptimizer
        .plan(input(
            profile(RebalanceGoal::ExactTarget, false, "0"),
            "400",
            "10000",
            vec![category("equity", "Equity", 5000, "5000"), category("bonds", "Bonds", 5000, "4000")],
            vec![candidate("VTI", "100", vec![("equity", "100")])],
        ))
        .unwrap();
    assert_eq!(plan.warnings.len(), 1);
    assert_eq!(plan.warnings[0].kind, RebalanceWarningKind::NoBuyCandidate);
    assert_eq!(plan.warnings[0].category_id, "bonds");
    assert_eq!(
        plan.warnings[0].message,
        "No classifiable holdings in Bonds. Allocate 1000.00 to this category manually."
    );
    assert_eq!(plan.trades.len(), 1);
    assert!(plan.trades[0].symbol.is_none());
    assert_eq!(plan.trades[0].category_id, "bonds");
    assert_eq!(num(plan.trades[0].estimated_amount), n("400"));
    assert_eq!(num(plan.cash_used), n("400"));
}

#[test]
fn min_trade_amount_drops_small_asset_trades() {
    let plan = DriftPriorityOptimizer
        .plan(input(
            profile(RebalanceGoal::ExactTarget, false, "500"),
            "300",
            "10000",
            equity_bonds(),
            vec![candidate("VTI", "100", vec![("equity", "100")])],
        ))
        .unwrap();
    assert!(plan.trades.is_empty());
    assert_eq!(num(plan.cash_used), Decimal::ZERO);
    assert_eq!(num(plan.cash_remaining), n("300"));
}

#[test]
fn empty_portfolio_without_cash_gives_empty_plan() {
    let warning = RebalanceWarning {
        kind: RebalanceWarningKind::UnclassifiedAsset,
        category_id: "x".to_string(),
        message: "kept".to_string(),
    };
    let mut inp = input(profile(RebalanceGoal::ExactTarget, false, "0"), "0", "0", equity_bonds(), vec![]);
    inp.warnings.push(warning);
    let plan = DriftPriorityOptimizer.plan(inp).unwrap();
    assert!(plan.trades.is_empty());
    assert_eq!(plan.max_drift_bps_before, 0);
    assert_eq!(plan.max_drift_bps_after, 0);
    assert_eq!(plan.warnings.len(), 1);
    assert_eq!(plan.warnings[0].message, "kept");
}

#[test]
fn exposure_named_twice_is_rejected() {
    let r = DriftPriorityOptimizer.plan(input(
        profile(RebalanceGoal::ExactTarget, false, "0"),
        "100",
        "10000",
        equity_bonds(),
        vec![candidate("VTI", "100", vec![("equity", "50"), ("equity", "50")])],
    ));
    assert!(matches!(r, Err(Error::Calculation(_))));
}

#[test]
fn nearest_band_goal_and_drift() {
    assert_eq!(num(desired_bps_for_goal(6000, RebalanceGoal::ExactTarget, dec("500")).unwrap()), n("6000"));
    assert_eq!(num(desired_bps_for_goal(6000, RebalanceGoal::NearestBand, dec("500")).unwrap()), n("5500"));
    assert_eq!(num(desired_bps_for_goal(300, RebalanceGoal::NearestBand, dec("500")).unwrap()), Decimal::ZERO);
    assert_eq!(num(category_drift(dec("5200"), 6000, RebalanceGoal::NearestBand, dec("500")).unwrap()), n("300"));
    assert_eq!(num(category_drift(dec("5800"), 6000, RebalanceGoal::NearestBand, dec("500")).unwrap()), Decimal::ZERO);
    assert_eq!(num(category_drift(dec("5800"), 6000, RebalanceGoal::ExactTarget, dec("500")).unwrap()), n("200"));
}

#[test]
fn candidates_are_ordered_by_price_then_symbol_then_asset_id() {
    let mut twin = candidate("B", "10", vec![]);
    twin.asset_id = "a-A".to_string();
    let cands = vec![
        candidate("B", "10", vec![]),
        candidate("A", "10", vec![]),
        candidate("C", "5", vec![]),
        twin,
        candidate("A", "10", vec![]),
    ];
    // C is cheapest; among the price-10 ones A comes before B, the B with the smaller
    // asset id first, and the two identical A candidates keep their order.
    assert_eq!(candidate_order(&cands), vec![2, 1, 4, 3, 0]);
}
