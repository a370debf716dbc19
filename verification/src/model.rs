//! Domain types of allocation targets, drift reports and rebalance plans.

use vstd::prelude::*;
use crate::dec::Dec;

verus! {

/// `==` on string slices.
#[verifier::external_body]
pub(crate) fn str_eq(a: &str, b: &str) -> (r: bool)
    ensures
        r == (a@ == b@),
{
    a == b
}

// ── Enums ────────────────────────────────────────────────────────────────────

/// Which accounts a target applies to.
#[derive(Debug, Clone, Copy, PartialEq, Eq, Structural)]
pub enum ScopeType {
    All,
    Portfolio,
    Account,
}

impl ScopeType {
    pub open spec fn spec_str(self) -> Seq<char> {
        match self {
            ScopeType::All => "all"@,
            ScopeType::Portfolio => "portfolio"@,
            ScopeType::Account => "account"@,
        }
    }

    /// The stored name of the scope type.
    pub fn as_str(&self) -> (s: &'static str)
        ensures
            s@ == self.spec_str(),
    {
        match self {
            ScopeType::All => "all",
            ScopeType::Portfolio => "portfolio",
            ScopeType::Account => "account",
        }
    }

    /// Reads a stored scope type name.
    pub fn try_from(s: &str) -> (r: Result<ScopeType, String>)
        ensures
            s@ == "all"@ ==> r == Ok::<ScopeType, String>(ScopeType::All),
            s@ == "portfolio"@ ==> r == Ok::<ScopeType, String>(ScopeType::Portfolio),
            s@ == "account"@ ==> r == Ok::<ScopeType, String>(ScopeType::Account),
            (s@ != "all"@ && s@ != "portfolio"@ && s@ != "account"@) ==> (r matches Err(m)
                && m@ == "unknown scope type: "@ + s@),
    {
        proof {
            reveal_strlit("all");
            reveal_strlit("portfolio");
            reveal_strlit("account");
            assert("all"@.len() != "portfolio"@.len());
            assert("all"@.len() != "account"@.len());
            assert("portfolio"@.len() != "account"@.len());
        }
        if str_eq(s, "all") {
            Ok(ScopeType::All)
        } else if str_eq(s, "portfolio") {
            Ok(ScopeType::Portfolio)
        } else if str_eq(s, "account") {
            Ok(ScopeType::Account)
        } else {
            let mut m = String::from_str("unknown scope type: ");
            m.append(s);
            Err(m)
        }
    }
}

/// When a target asks for a rebalance.
#[derive(Debug, Clone, Copy, PartialEq, Eq, Structural)]
pub enum TriggerType {
    Manual,
    Threshold,
}

impl TriggerType {
    pub open spec fn spec_str(self) -> Seq<char> {
        match self {
            TriggerType::Manual => "manual"@,
            TriggerType::Threshold => "threshold"@,
        }
    }

    /// The stored name of the trigger type.
    pub fn as_str(&self) -> (s: &'static str)
        ensures
            s@ == self.spec_str(),
    {
        match self {
            TriggerType::Manual => "manual",
            TriggerType::Threshold => "threshold",
        }
    }

    /// Reads a stored trigger type name.
    pub fn try_from(s: &str) -> (r: Result<TriggerType, String>)
        ensures
            s@ == "manual"@ ==> r == Ok::<TriggerType, String>(TriggerType::Manual),
            s@ == "threshold"@ ==> r == Ok::<TriggerType, String>(TriggerType::Threshold),
            (s@ != "manual"@ && s@ != "threshold"@) ==> (r matches Err(m) && m@
                == "unknown trigger type: "@ + s@),
    {
        proof {
            reveal_strlit("manual");
            reveal_strlit("threshold");
            assert("manual"@.len() != "threshold"@.len());
        }
        if str_eq(s, "manual") {
            Ok(TriggerType::Manual)
        } else if str_eq(s, "threshold") {
            Ok(TriggerType::Threshold)
        } else {
            let mut m = String::from_str("unknown trigger type: ");
            m.append(s);
            Err(m)
        }
    }
}

/// How far a rebalance should bring an underweight category.
#[derive(Debug, Clone, Copy, PartialEq, Eq, Structural)]
pub enum RebalanceGoal {
    NearestBand,
    ExactTarget,
}

impl RebalanceGoal {
    pub open spec fn spec_str(self) -> Seq<char> {
        match self {
            RebalanceGoal::NearestBand => "nearest_band"@,
            RebalanceGoal::ExactTarget => "exact_target"@,
        }
    }

    /// The stored name of the rebalance goal.
    pub fn as_str(&self) -> (s: &'static str)
        ensures
            s@ == self.spec_str(),
    {
        match self {
            RebalanceGoal::NearestBand => "nearest_band",
            RebalanceGoal::ExactTarget => "exact_target",
        }
    }

    /// Reads a stored rebalance goal name.
    pub fn try_from(s: &str) -> (r: Result<RebalanceGoal, String>)
        ensures
            s@ == "nearest_band"@ ==> r == Ok::<RebalanceGoal, String>(RebalanceGoal::NearestBand),
            s@ == "exact_target"@ ==> r == Ok::<RebalanceGoal, String>(RebalanceGoal::ExactTarget),
            (s@ != "nearest_band"@ && s@ != "exact_target"@) ==> (r matches Err(m) && m@
                == "unknown rebalance goal: "@ + s@),
    {
        proof {
            reveal_strlit("nearest_band");
            reveal_strlit("exact_target");
            assert("nearest_band"@[0] != "exact_target"@[0]);
        }
        if str_eq(s, "nearest_band") {
            Ok(RebalanceGoal::NearestBand)
        } else if str_eq(s, "exact_target") {
            Ok(RebalanceGoal::ExactTarget)
        } else {
            let mut m = String::from_str("unknown rebalance goal: ");
            m.append(s);
            Err(m)
        }
    }
}

/// Lifecycle state of a target profile.
#[derive(Debug, Clone, Copy, PartialEq, Eq, Structural)]
pub enum ProfileStatus {
    Draft,
    Active,
    Archived,
}

impl ProfileStatus {
    pub open spec fn spec_str(self) -> Seq<char> {
        match self {
            ProfileStatus::Draft => "draft"@,
            ProfileStatus::Active => "active"@,
            ProfileStatus::Archived => "archived"@,
        }
    }

    /// The stored name of the status.
    pub fn as_str(&self) -> (s: &'static str)
        ensures
            s@ == self.spec_str(),
    {
        match self {
            ProfileStatus::Draft => "draft",
            ProfileStatus::Active => "active",
            ProfileStatus::Archived => "archived",
        }
    }

    /// Reads a stored status name.
    pub fn try_from(s: &str) -> (r: Result<ProfileStatus, String>)
        ensures
            s@ == "draft"@ ==> r == Ok::<ProfileStatus, String>(ProfileStatus::Draft),
            s@ == "active"@ ==> r == Ok::<ProfileStatus, String>(ProfileStatus::Active),
            s@ == "archived"@ ==> r == Ok::<ProfileStatus, String>(ProfileStatus::Archived),
            (s@ != "draft"@ && s@ != "active"@ && s@ != "archived"@) ==> (r matches Err(m)
                && m@ == "unknown profile status: "@ + s@),
    {
        proof {
            reveal_strlit("draft");
            reveal_strlit("active");
            reveal_strlit("archived");
            assert("draft"@.len() != "active"@.len());
            assert("draft"@.len() != "archived"@.len());
            assert("active"@.len() != "archived"@.len());
        }
        if str_eq(s, "draft") {
            Ok(ProfileStatus::Draft)
        } else if str_eq(s, "active") {
            Ok(ProfileStatus::Active)
        } else if str_eq(s, "archived") {
            Ok(ProfileStatus::Archived)
        } else {
            let mut m = String::from_str("unknown profile status: ");
            m.append(s);
            Err(m)
        }
    }
}

/// Reading back the stored name of a scope type gives the scope type.
pub proof fn lemma_scope_type_round_trip(t: ScopeType)
    ensures
        t.spec_str() != "all"@ || t == ScopeType::All,
        t.spec_str() != "portfolio"@ || t == ScopeType::Portfolio,
        t.spec_str() != "account"@ || t == ScopeType::Account,
        t.spec_str() == "all"@ || t.spec_str() == "portfolio"@ || t.spec_str() == "account"@,
{
    reveal_strlit("all");
    reveal_strlit("portfolio");
    reveal_strlit("account");
    assert("all"@.len() != "portfolio"@.len());
    assert("all"@.len() != "account"@.len());
    assert("portfolio"@.len() != "account"@.len());
}

/// Reading back the stored name of a trigger type gives the trigger type.
pub proof fn lemma_trigger_type_round_trip(t: TriggerType)
    ensures
        t.spec_str() != "manual"@ || t == TriggerType::Manual,
        t.spec_str() != "threshold"@ || t == TriggerType::Threshold,
        t.spec_str() == "manual"@ || t.spec_str() == "threshold"@,
{
    reveal_strlit("manual");
    reveal_strlit("threshold");
    assert("manual"@.len() != "threshold"@.len());
}

/// Reading back the stored name of a rebalance goal gives the goal.
pub proof fn lemma_rebalance_goal_round_trip(g: RebalanceGoal)
    ensures
        g.spec_str() != "nearest_band"@ || g == RebalanceGoal::NearestBand,
        g.spec_str() != "exact_target"@ || g == RebalanceGoal::ExactTarget,
        g.spec_str() == "nearest_band"@ || g.spec_str() == "exact_target"@,
{
    reveal_strlit("nearest_band");
    reveal_strlit("exact_target");
    assert("nearest_band"@[0] != "exact_target"@[0]);
}

/// Reading back the stored name of a profile status gives the status.
pub proof fn lemma_profile_status_round_trip(s: ProfileStatus)
    ensures
        s.spec_str() != "draft"@ || s == ProfileStatus::Draft,
        s.spec_str() != "active"@ || s == ProfileStatus::Active,
        s.spec_str() != "archived"@ || s == ProfileStatus::Archived,
        s.spec_str() == "draft"@ || s.spec_str() == "active"@ || s.spec_str() == "archived"@,
{
    reveal_strlit("draft");
    reveal_strlit("active");
    reveal_strlit("archived");
    assert("draft"@.len() != "active"@.len());
    assert("draft"@.len() != "archived"@.len());
    assert("active"@.len() != "archived"@.len());
}

// ── Target profiles ──────────────────────────────────────────────────────────

/// A saved target profile.
#[derive(Debug, Clone)]
pub struct TargetProfile {
    pub id: String,
    pub name: String,
    pub status: ProfileStatus,
    pub scope_type: ScopeType,
    pub scope_id: Option<String>,
    pub taxonomy_id: String,
    pub trigger_type: TriggerType,
    pub drift_band_bps: i32,
    pub created_at: String,
    pub updated_at: String,
}

/// The fields a user gives for a new or edited target profile.
#[derive(Debug, Clone)]
pub struct NewTargetProfile {
    pub name: String,
    pub scope_type: ScopeType,
    pub scope_id: Option<String>,
    pub taxonomy_id: String,
    pub trigger_type: TriggerType,
    pub drift_band_bps: i32,
}

/// One category weight of a target profile.
#[derive(Debug, Clone)]
pub struct TargetAllocationNode {
    pub id: String,
    pub profile_id: String,
    pub category_id: String,
    pub target_bps: i32,
    pub is_locked: bool,
    pub is_required: bool,
    pub created_at: String,
    pub updated_at: String,
}

/// A category weight as a user enters it.
#[derive(Debug, Clone)]
pub struct NewTargetAllocationNode {
    pub profile_id: String,
    pub category_id: String,
    pub target_bps: i32,
    pub is_locked: bool,
    pub is_required: bool,
}

// ── Core domain types ────────────────────────────────────────────────────────

/// An allocation target with its planner settings.
#[derive(Debug, Clone)]
pub struct AllocationTarget {
    pub id: String,
    pub name: String,
    pub scope_type: ScopeType,
    pub scope_id: Option<String>,
    pub taxonomy_id: String,
    pub trigger_type: TriggerType,
    pub drift_band_bps: i32,
    pub rebalance_goal: RebalanceGoal,
    pub min_trade_amount: String,
    pub whole_shares_only: bool,
    pub created_at: String,
    pub updated_at: String,
    pub archived_at: Option<String>,
}

/// The fields a user gives for a new allocation target.
#[derive(Debug, Clone)]
pub struct NewAllocationTarget {
    pub name: String,
    pub scope_type: ScopeType,
    pub scope_id: Option<String>,
    pub taxonomy_id: String,
    pub trigger_type: TriggerType,
    pub drift_band_bps: i32,
    pub rebalance_goal: Option<RebalanceGoal>,
    pub min_trade_amount: Option<String>,
    pub whole_shares_only: Option<bool>,
}

/// One category weight of an allocation target.
#[derive(Debug, Clone)]
pub struct AllocationTargetWeight {
    pub id: String,
    pub target_id: String,
    pub taxonomy_id: String,
    pub category_id: String,
    pub target_bps: i32,
    pub is_locked: bool,
    pub is_required: bool,
    pub created_at: String,
    pub updated_at: String,
}

/// A category weight as a user enters it.
#[derive(Debug, Clone)]
pub struct NewAllocationTargetWeight {
    pub category_id: String,
    pub target_bps: i32,
    pub is_locked: bool,
    pub is_required: bool,
}

/// A saved target together with its weights.
#[derive(Debug, Clone)]
pub struct SaveAllocationTargetResult {
    pub target: AllocationTarget,
    pub weights: Vec<AllocationTargetWeight>,
}

// ── Drift types ──────────────────────────────────────────────────────────────

/// Where a category stands against its target band.
#[derive(Debug, Clone, Copy, PartialEq, Eq, Structural)]
pub enum DriftStatus {
    InBand,
    Underweight,
    Overweight,
    NotTargeted,
}

/// Current against target for one category.
#[derive(Debug, Clone)]
pub struct DriftRow {
    pub category_id: String,
    pub category_name: String,
    pub color: String,
    pub current_bps: i32,
    pub target_bps: i32,
    pub drift_bps: i32,
    pub current_value: Dec,
    pub target_value: Dec,
    pub value_delta: Dec,
    pub status: DriftStatus,
    pub is_required: bool,
    pub is_zero_current: bool,
    /// True when this category holds only cash.
    pub is_cash: bool,
}

/// Drift of a whole target.
#[derive(Debug, Clone)]
pub struct DriftReport {
    pub target_id: String,
    pub scope_type: ScopeType,
    pub scope_id: Option<String>,
    pub total_value: Dec,
    pub base_currency: String,
    pub max_drift_bps: i32,
    pub out_of_band_count: usize,
    pub rows: Vec<DriftRow>,
    pub holdings: Option<DriftHoldingsReport>,
}

/// One holding in the holdings drill-down of a drift report.
#[derive(Debug, Clone)]
pub struct DriftHoldingRow {
    pub id: String,
    pub holding_id: String,
    pub asset_id: String,
    pub account_id: String,
    pub source_account_ids: Vec<String>,
    pub symbol: String,
    pub name: String,
    pub category_id: String,
    pub category_name: String,
    pub category_color: Option<String>,
    pub value: Dec,
    pub current_pct: Dec,
    pub target_pct: Option<Dec>,
    pub drift_bps: Option<i32>,
    pub is_unknown_category: bool,
    pub is_cash: bool,
}

/// The holdings drill-down of a drift report.
#[derive(Debug, Clone)]
pub struct DriftHoldingsReport {
    pub target_id: String,
    pub total_value: Dec,
    pub base_currency: String,
    pub rows: Vec<DriftHoldingRow>,
}

// ── Rebalance types ──────────────────────────────────────────────────────────

/// What a caller asks the rebalance planner for.
#[derive(Debug, Clone)]
pub struct CalculateRebalancePlanInput {
    pub target_id: String,
    pub available_cash: Dec,
    pub account_ids: Vec<String>,
    pub base_currency: String,
    pub aggregated_account_id: String,
}

/// Kinds of planner warnings.
#[derive(Debug, Clone, Copy, PartialEq, Eq, Structural)]
pub enum RebalanceWarningKind {
    MissingQuote,
    NoBuyCandidate,
    /// Asset has no taxonomy assignments for the active taxonomy.
    UnclassifiedAsset,
    /// Asset has partial taxonomy weights (below 100%).
    PartialClassification,
    /// A holding whose share of the budget is below one share price.
    WholeShareResidue,
}

/// A planner warning.
#[derive(Debug, Clone)]
pub struct RebalanceWarning {
    pub kind: RebalanceWarningKind,
    pub category_id: String,
    pub message: String,
}

/// A trade the user may place by hand.
#[derive(Debug, Clone)]
pub struct SuggestedManualTrade {
    pub action: String,
    pub category_id: String,
    pub category_name: String,
    pub asset_id: Option<String>,
    pub symbol: Option<String>,
    pub name: Option<String>,
    pub quantity: Option<Dec>,
    pub estimated_price: Option<Dec>,
    pub estimated_amount: Dec,
    pub reason: String,
}

/// The characters of a borrowed optional text.
pub open spec fn opt_str(o: Option<&str>) -> Option<Seq<char>> {
    match o {
        Some(s) => Some(s@),
        None => None,
    }
}

/// The characters of an optional text.
pub open spec fn opt_chars(o: Option<String>) -> Option<Seq<char>> {
    match o {
        Some(s) => Some(s@),
        None => None,
    }
}

/// A trade as contracts read it: its texts by their characters.
pub struct TradeView {
    pub action: Seq<char>,
    pub category_id: Seq<char>,
    pub category_name: Seq<char>,
    pub asset_id: Option<Seq<char>>,
    pub symbol: Option<Seq<char>>,
    pub name: Option<Seq<char>>,
    pub quantity: Option<Dec>,
    pub estimated_price: Option<Dec>,
    pub estimated_amount: Dec,
    pub reason: Seq<char>,
}

impl View for SuggestedManualTrade {
    type V = TradeView;

    open spec fn view(&self) -> TradeView {
        TradeView {
            action: self.action@,
            category_id: self.category_id@,
            category_name: self.category_name@,
            asset_id: opt_chars(self.asset_id),
            symbol: opt_chars(self.symbol),
            name: opt_chars(self.name),
            quantity: self.quantity,
            estimated_price: self.estimated_price,
            estimated_amount: self.estimated_amount,
            reason: self.reason@,
        }
    }
}

/// The trades of a list as contracts read them.
pub open spec fn trade_views(ts: Seq<SuggestedManualTrade>) -> Seq<TradeView> {
    ts.map_values(|t: SuggestedManualTrade| t@)
}

/// The outcome of rebalance planning.
#[derive(Debug, Clone)]
pub struct RebalancePlan {
    pub target_id: String,
    pub available_cash: Dec,
    pub cash_used: Dec,
    pub cash_remaining: Dec,
    pub max_drift_bps_before: i32,
    pub max_drift_bps_after: i32,
    pub trades: Vec<SuggestedManualTrade>,
    pub warnings: Vec<RebalanceWarning>,
    /// After-trade allocation in bps per category id.
    pub after_bps_by_category: Vec<(String, i32)>,
}

} // verus!
