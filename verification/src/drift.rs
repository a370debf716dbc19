//! Drift of a portfolio against a target profile: current against target share per
//! category, the band status of each category, and the report that ranks them.

use vstd::prelude::*;
use crate::allocation::{AllocationServiceTrait, CategoryAllocation, PortfolioAllocations, TaxonomyAllocation};
use crate::dec::{Dec, dec_checked_add, dec_checked_div, dec_checked_mul, dec_checked_sub, dec_lt, dec_round,
    spec_checked_add, spec_checked_div, spec_checked_mul, spec_checked_sub, spec_round_mantissa, units};
use crate::errors::Error;
use crate::target_service::{TargetProfileServiceTrait, found_profile};
use crate::model::{DriftReport, DriftRow, DriftStatus, ScopeType, TargetAllocationNode,
    TargetProfile, str_eq};

verus! {

// ── Numbers ──────────────────────────────────────────────────────────────────

/// An integer as an `i32`, or 0 when it does not fit (what parsing its text as `i32`
/// and falling back to 0 gives).
pub open spec fn i32_or_zero(m: int) -> i32 {
    if i32::MIN <= m <= i32::MAX {
        m as i32
    } else {
        0
    }
}

/// Basis points in a whole: 10000.
pub open spec fn bps_scale() -> Dec {
    Dec { mantissa: 10000, scale: 0 }
}

/// The decimal zero.
pub open spec fn dec_zero() -> Dec {
    Dec { mantissa: 0, scale: 0 }
}

/// Share of `total` held by `value` in basis points: `round(value / total * 10000)`
/// when the total is positive, 0 otherwise. `None` when a decimal step overflows.
pub open spec fn spec_share_bps(value: Dec, total: Dec) -> Option<i32> {
    if units(total) > 0 {
        match spec_checked_div(value, total) {
            Some(q) => match spec_checked_mul(q, bps_scale()) {
                Some(p) => Some(i32_or_zero(spec_round_mantissa(p))),
                None => None,
            },
            None => None,
        }
    } else {
        Some(0i32)
    }
}

/// Value a target share represents: `total * target_bps / 10000` when the total is
/// positive, 0 otherwise. `None` when a decimal step overflows.
pub open spec fn spec_target_value(total: Dec, target_bps: i32) -> Option<Dec> {
    if units(total) > 0 {
        match spec_checked_mul(total, Dec { mantissa: target_bps as i128, scale: 0 }) {
            Some(p) => spec_checked_div(p, bps_scale()),
            None => None,
        }
    } else {
        Some(dec_zero())
    }
}

pub(crate) fn mantissa_to_i32_or_zero(m: i128) -> (r: i32)
    ensures
        r == i32_or_zero(m as int),
{
    if -2147483648i128 <= m && m <= 2147483647i128 {
        m as i32
    } else {
        0
    }
}

/// Share of `total` held by `value`, in basis points.
pub fn share_bps(value: Dec, total: Dec) -> (r: Option<i32>)
    requires
        value.wf(),
        total.wf(),
    ensures
        r == spec_share_bps(value, total),
{
    if dec_lt(Dec::zero(), total) {
        match dec_checked_div(value, total) {
            Some(q) => match dec_checked_mul(q, Dec::new(10000, 0)) {
                Some(p) => {
                    let rounded = dec_round(p);
                    Some(mantissa_to_i32_or_zero(rounded.mantissa))
                },
                None => None,
            },
            None => None,
        }
    } else {
        Some(0)
    }
}

/// Value that a target share of `total` represents.
pub fn target_value(total: Dec, target_bps: i32) -> (r: Option<Dec>)
    requires
        total.wf(),
    ensures
        r == spec_target_value(total, target_bps),
        r matches Some(d) ==> d.wf(),
{
    if dec_lt(Dec::zero(), total) {
        match dec_checked_mul(total, Dec::new(target_bps as i128, 0)) {
            Some(p) => dec_checked_div(p, Dec::new(10000, 0)),
            None => None,
        }
    } else {
        Some(Dec::zero())
    }
}

pub open spec fn abs_i(x: int) -> int {
    if x < 0 {
        -x
    } else {
        x
    }
}

/// Band status of a drift: in band when `|drift| <= band`, otherwise under- or
/// overweight by its sign.
pub open spec fn status_for(drift: int, band: int) -> DriftStatus {
    if abs_i(drift) <= band {
        DriftStatus::InBand
    } else if drift < 0 {
        DriftStatus::Underweight
    } else {
        DriftStatus::Overweight
    }
}

fn drift_status(drift: i32, band: i32) -> (s: DriftStatus)
    requires
        drift > i32::MIN,
    ensures
        s == status_for(drift as int, band as int),
{
    let a = if drift < 0 { -drift } else { drift };
    if a <= band {
        DriftStatus::InBand
    } else if drift < 0 {
        DriftStatus::Underweight
    } else {
        DriftStatus::Overweight
    }
}

// ── Lookups ──────────────────────────────────────────────────────────────────

/// Index of the last category among the first `k` whose id is `id`.
pub open spec fn last_category_match(cats: Seq<CategoryAllocation>, id: Seq<char>, k: int) -> Option<int>
    decreases k,
{
    if k <= 0 {
        None
    } else if cats[k - 1].category_id@ == id {
        Some(k - 1)
    } else {
        last_category_match(cats, id, k - 1)
    }
}

/// Index of the first group among the first `k` whose taxonomy id is `id`.
pub open spec fn first_group_match(groups: Seq<TaxonomyAllocation>, id: Seq<char>, k: int) -> Option<int>
    decreases k,
{
    if k <= 0 {
        None
    } else {
        match first_group_match(groups, id, k - 1) {
            Some(i) => Some(i),
            None => if groups[k - 1].taxonomy_id@ == id {
                Some(k - 1)
            } else {
                None
            },
        }
    }
}

/// The allocation of the taxonomy a profile targets: the built-in taxonomies by their
/// ids, otherwise the first custom group with that id, otherwise asset classes.
pub open spec fn selected_taxonomy(alloc: PortfolioAllocations, id: Seq<char>) -> TaxonomyAllocation {
    if id == "asset_classes"@ {
        alloc.asset_classes
    } else if id == "industries_gics"@ {
        alloc.sectors
    } else if id == "regions"@ {
        alloc.regions
    } else if id == "risk_category"@ {
        alloc.risk_category
    } else if id == "instrument_type"@ {
        alloc.security_types
    } else {
        match first_group_match(alloc.custom_groups@, id, alloc.custom_groups@.len() as int) {
            Some(i) => alloc.custom_groups@[i],
            None => alloc.asset_classes,
        }
    }
}

/// Law: each built-in taxonomy id is measured against its own part of the allocation:
/// `asset_classes` against the asset classes, `industries_gics` against the sectors,
/// `regions` against the regions, `risk_category` against the risk categories and
/// `instrument_type` against the security types.
pub proof fn law_builtin_taxonomies_select_their_allocation(alloc: PortfolioAllocations)
    ensures
        selected_taxonomy(alloc, "asset_classes"@) == alloc.asset_classes,
        selected_taxonomy(alloc, "industries_gics"@) == alloc.sectors,
        selected_taxonomy(alloc, "regions"@) == alloc.regions,
        selected_taxonomy(alloc, "risk_category"@) == alloc.risk_category,
        selected_taxonomy(alloc, "instrument_type"@) == alloc.security_types,
{
    reveal_strlit("asset_classes");
    reveal_strlit("industries_gics");
    reveal_strlit("regions");
    reveal_strlit("risk_category");
    reveal_strlit("instrument_type");
    assert("industries_gics"@ != "asset_classes"@) by { assert("industries_gics"@.len() != "asset_classes"@.len()); }
    assert("regions"@ != "asset_classes"@) by { assert("regions"@.len() != "asset_classes"@.len()); }
    assert("regions"@ != "industries_gics"@) by { assert("regions"@.len() != "industries_gics"@.len()); }
    assert("risk_category"@ != "asset_classes"@) by { assert("risk_category"@[0] != "asset_classes"@[0]); }
    assert("risk_category"@ != "industries_gics"@) by { assert("risk_category"@[0] != "industries_gics"@[0]); }
    assert("risk_category"@ != "regions"@) by { assert("risk_category"@.len() != "regions"@.len()); }
    assert("instrument_type"@ != "asset_classes"@) by { assert("instrument_type"@.len() != "asset_classes"@.len()); }
    assert("instrument_type"@ != "industries_gics"@) by { assert("instrument_type"@[2] != "industries_gics"@[2]); }
    assert("instrument_type"@ != "regions"@) by { assert("instrument_type"@.len() != "regions"@.len()); }
    assert("instrument_type"@ != "risk_category"@) by { assert("instrument_type"@.len() != "risk_category"@.len()); }
}

/// Law: a report for a profile of the `industries_gics` taxonomy is measured against the
/// sectors: it has one row per node and one per sector category that no node targets.
pub proof fn law_sector_profiles_report_on_sectors(report: DriftReport, profile: TargetProfile, nodes: Seq<TargetAllocationNode>,
    alloc: PortfolioAllocations, profile_id: Seq<char>, base_currency: Seq<char>)
    requires
        profile.taxonomy_id@ == "industries_gics"@,
        drift_report_ok(report, profile, nodes, alloc, profile_id, base_currency),
    ensures
        report.rows@.len() == nodes.len() + untargeted_prefix(alloc.sectors.categories@, nodes,
            alloc.sectors.categories@.len() as int).len(),
{
    law_builtin_taxonomies_select_their_allocation(alloc);
}

fn select_taxonomy<'a>(alloc: &'a PortfolioAllocations, id: &str) -> (t: &'a TaxonomyAllocation)
    ensures
        *t == selected_taxonomy(*alloc, id@),
{
    if str_eq(id, "asset_classes") {
        &alloc.asset_classes
    } else if str_eq(id, "industries_gics") {
        &alloc.sectors
    } else if str_eq(id, "regions") {
        &alloc.regions
    } else if str_eq(id, "risk_category") {
        &alloc.risk_category
    } else if str_eq(id, "instrument_type") {
        &alloc.security_types
    } else {
        let groups = &alloc.custom_groups;
        let mut found: Option<usize> = None;
        let mut i: usize = 0;
        while i < groups.len()
            invariant
                0 <= i <= groups@.len(),
                found matches Some(f) ==> f < i,
                match found {
                    Some(f) => first_group_match(groups@, id@, i as int) == Some(f as int),
                    None => first_group_match(groups@, id@, i as int) is None,
                },
            decreases groups@.len() - i,
        {
            if found.is_none() && groups[i].taxonomy_id == id.to_string() {
                found = Some(i);
            }
            i = i + 1;
        }
        match found {
            Some(f) => &groups[f],
            None => &alloc.asset_classes,
        }
    }
}

fn find_last_category(cats: &Vec<CategoryAllocation>, id: &String) -> (r: Option<usize>)
    ensures
        r matches Some(i) ==> i < cats@.len(),
        match r {
            Some(i) => last_category_match(cats@, id@, cats@.len() as int) == Some(i as int),
            None => last_category_match(cats@, id@, cats@.len() as int) is None,
        },
{
    let mut found: Option<usize> = None;
    let mut i: usize = 0;
    while i < cats.len()
        invariant
            0 <= i <= cats@.len(),
            found matches Some(f) ==> f < i,
            match found {
                Some(f) => last_category_match(cats@, id@, i as int) == Some(f as int),
                None => last_category_match(cats@, id@, i as int) is None,
            },
        decreases cats@.len() - i,
    {
        if cats[i].category_id == *id {
            found = Some(i);
        }
        i = i + 1;
    }
    found
}

/// Some node targets the category `id`.
pub open spec fn is_targeted(nodes: Seq<TargetAllocationNode>, id: Seq<char>) -> bool {
    exists|j: int| 0 <= j < nodes.len() && #[trigger] nodes[j].category_id@ == id
}

fn targets_category(nodes: &Vec<TargetAllocationNode>, id: &String) -> (r: bool)
    ensures
        r == is_targeted(nodes@, id@),
{
    let mut i: usize = 0;
    while i < nodes.len()
        invariant
            0 <= i <= nodes@.len(),
            forall|j: int| 0 <= j < i ==> nodes@[j].category_id@ != id@,
        decreases nodes@.len() - i,
    {
        if nodes[i].category_id == *id {
            return true;
        }
        i = i + 1;
    }
    false
}

/// Indices, in order, of the first `k` categories that no node targets.
pub open spec fn untargeted_prefix(
    cats: Seq<CategoryAllocation>,
    nodes: Seq<TargetAllocationNode>,
    k: int,
) -> Seq<int>
    decreases k,
{
    if k <= 0 {
        seq![]
    } else {
        let p = untargeted_prefix(cats, nodes, k - 1);
        if is_targeted(nodes, cats[k - 1].category_id@) {
            p
        } else {
            p.push(k - 1)
        }
    }
}

// ── Rows ─────────────────────────────────────────────────────────────────────

/// Current value of the category a node targets: the value of the last allocation
/// category with its id, or zero.
pub open spec fn node_current_value(node: TargetAllocationNode, cats: Seq<CategoryAllocation>) -> Dec {
    match last_category_match(cats, node.category_id@, cats.len() as int) {
        Some(i) => cats[i].value,
        None => dec_zero(),
    }
}

/// The row of a targeted category.
pub open spec fn node_row_ok(
    row: DriftRow,
    node: TargetAllocationNode,
    cats: Seq<CategoryAllocation>,
    total: Dec,
    band: i32,
) -> bool {
    let m = last_category_match(cats, node.category_id@, cats.len() as int);
    let cv = node_current_value(node, cats);
    &&& row.category_id@ == node.category_id@
    &&& row.category_name@ == match m {
        Some(i) => cats[i].category_name@,
        None => node.category_id@,
    }
    &&& row.color@ == match m {
        Some(i) => cats[i].color@,
        None => "#94a3b8"@,
    }
    &&& spec_share_bps(cv, total) == Some(row.current_bps)
    &&& row.target_bps == node.target_bps
    &&& row.drift_bps == row.current_bps - row.target_bps
    &&& row.drift_bps > i32::MIN
    &&& row.current_value == cv
    &&& spec_target_value(total, node.target_bps) == Some(row.target_value)
    &&& spec_checked_sub(cv, row.target_value) == Some(row.value_delta)
    &&& row.status == status_for(row.drift_bps as int, band as int)
    &&& row.is_required == node.is_required
    &&& row.is_zero_current == (units(cv) == 0)
    &&& !row.is_cash
}

/// The row of a category that no node targets.
pub open spec fn untargeted_row_ok(row: DriftRow, cat: CategoryAllocation, total: Dec) -> bool {
    &&& row.category_id@ == cat.category_id@
    &&& row.category_name@ == cat.category_name@
    &&& row.color@ == cat.color@
    &&& spec_share_bps(cat.value, total) == Some(row.current_bps)
    &&& row.target_bps == 0
    &&& row.drift_bps == row.current_bps
    &&& row.current_value == cat.value
    &&& row.target_value == dec_zero()
    &&& row.value_delta == cat.value
    &&& row.status == DriftStatus::NotTargeted
    &&& !row.is_required
    &&& row.is_zero_current == (units(cat.value) == 0)
    &&& !row.is_cash
}

/// The decimal steps of a node's row stay in range, and its drift is above `i32::MIN`.
pub open spec fn node_row_computable(
    node: TargetAllocationNode,
    cats: Seq<CategoryAllocation>,
    total: Dec,
) -> bool {
    let cv = node_current_value(node, cats);
    &&& spec_share_bps(cv, total) matches Some(c) && i32::MIN < c - node.target_bps <= i32::MAX
    &&& spec_target_value(total, node.target_bps) matches Some(tv) && spec_checked_sub(cv, tv) is Some
}

/// Row `j` before sorting: first the nodes in order, then the untargeted categories.
pub open spec fn raw_row_ok(
    row: DriftRow,
    j: int,
    nodes: Seq<TargetAllocationNode>,
    cats: Seq<CategoryAllocation>,
    unt: Seq<int>,
    total: Dec,
    band: i32,
) -> bool {
    if j < nodes.len() {
        node_row_ok(row, nodes[j], cats, total, band)
    } else {
        untargeted_row_ok(row, cats[unt[j - nodes.len()]], total)
    }
}

/// The sort key of a row: targeted rows before untargeted ones, then larger `|drift|`
/// first. It is the number `rank * 2^33 - |drift|`, with rank 0 for targeted rows.
pub open spec fn row_key(row: DriftRow) -> int {
    (if row.status == DriftStatus::NotTargeted { 8589934592int } else { 0int }) - abs_i(
        row.drift_bps as int,
    )
}

/// `order` lists each index below `n` once.
pub open spec fn is_permutation(order: Seq<int>, n: int) -> bool {
    &&& order.len() == n
    &&& forall|i: int| 0 <= i < n ==> 0 <= #[trigger] order[i] < n
    &&& forall|i: int, j: int| 0 <= i < j < n ==> order[i] != order[j]
}

/// `rows` are in key order, and rows with equal keys keep the order of their origins.
pub open spec fn stable_sorted(rows: Seq<DriftRow>, order: Seq<int>) -> bool {
    &&& forall|i: int, j: int| 0 <= i < j < rows.len() ==> row_key(rows[i]) <= row_key(rows[j])
    &&& forall|i: int, j: int|
        0 <= i < j < rows.len() && row_key(rows[i]) == row_key(rows[j]) ==> order[i] < order[j]
}

/// Largest `|drift|` among the required rows of the first `k`, or 0.
pub open spec fn max_required_drift(rows: Seq<DriftRow>, k: int) -> int
    decreases k,
{
    if k <= 0 {
        0
    } else {
        let p = max_required_drift(rows, k - 1);
        if rows[k - 1].is_required && abs_i(rows[k - 1].drift_bps as int) > p {
            abs_i(rows[k - 1].drift_bps as int)
        } else {
            p
        }
    }
}

/// Number of required rows among the first `k` that are under- or overweight.
pub open spec fn count_out_of_band(rows: Seq<DriftRow>, k: int) -> int
    decreases k,
{
    if k <= 0 {
        0
    } else {
        count_out_of_band(rows, k - 1) + if rows[k - 1].is_required && (rows[k - 1].status
            == DriftStatus::Underweight || rows[k - 1].status == DriftStatus::Overweight) {
            1int
        } else {
            0int
        }
    }
}

/// Two optional strings hold the same text.
pub open spec fn same_opt_str(a: Option<String>, b: Option<String>) -> bool {
    match (a, b) {
        (Some(x), Some(y)) => x@ == y@,
        (None, None) => true,
        _ => false,
    }
}

/// Sum of the values of the first `k` categories, added in order; `None` on overflow.
pub open spec fn category_total(cats: Seq<CategoryAllocation>, k: int) -> Option<Dec>
    decreases k,
{
    if k <= 0 {
        Some(dec_zero())
    } else {
        match category_total(cats, k - 1) {
            Some(acc) => spec_checked_add(acc, cats[k - 1].value),
            None => None,
        }
    }
}

/// The total the drift of a profile is measured against: the whole portfolio for the
/// asset classes taxonomy, and the selected taxonomy's own total for any other, so that
/// cash and holdings outside it do not dilute its shares.
pub open spec fn drift_total(profile: TargetProfile, alloc: PortfolioAllocations) -> Option<Dec> {
    if profile.taxonomy_id@ == "asset_classes"@ {
        Some(alloc.total_value)
    } else {
        let cats = selected_taxonomy(alloc, profile.taxonomy_id@).categories@;
        category_total(cats, cats.len() as int)
    }
}

proof fn lemma_category_total_none_stays(cats: Seq<CategoryAllocation>, k: int, n: int)
    requires
        0 <= k <= n,
        category_total(cats, k) is None,
    ensures
        category_total(cats, n) is None,
    decreases n - k,
{
    if k < n {
        lemma_category_total_none_stays(cats, k + 1, n);
    }
}

/// Every decimal step of the report stays in range.
pub open spec fn report_computable(
    profile: TargetProfile,
    nodes: Seq<TargetAllocationNode>,
    alloc: PortfolioAllocations,
) -> bool {
    let cats = selected_taxonomy(alloc, profile.taxonomy_id@).categories@;
    let total = drift_total(profile, alloc).unwrap();
    &&& drift_total(profile, alloc) is Some
    &&& forall|j: int| 0 <= j < nodes.len() ==> node_row_computable(nodes[j], cats, total)
    &&& forall|k: int|
        0 <= k < cats.len() && !is_targeted(nodes, cats[k].category_id@) ==> (#[trigger] spec_share_bps(
            cats[k].value,
            total,
        )) is Some
}

/// The drift report for a profile, its nodes and the current allocation.
pub open spec fn drift_report_ok(
    report: DriftReport,
    profile: TargetProfile,
    nodes: Seq<TargetAllocationNode>,
    alloc: PortfolioAllocations,
    profile_id: Seq<char>,
    base_currency: Seq<char>,
) -> bool {
    let cats = selected_taxonomy(alloc, profile.taxonomy_id@).categories@;
    let total = drift_total(profile, alloc).unwrap();
    let unt = untargeted_prefix(cats, nodes, cats.len() as int);
    let rows = report.rows@;
    let n = rows.len() as int;
    &&& report.target_id@ == profile_id
    &&& report.scope_type == profile.scope_type
    &&& same_opt_str(report.scope_id, profile.scope_id)
    &&& drift_total(profile, alloc) == Some(report.total_value)
    &&& report.base_currency@ == base_currency
    &&& n == nodes.len() + unt.len()
    &&& exists|order: Seq<int>|
        is_permutation(order, n) && stable_sorted(rows, order) && forall|k: int|
            0 <= k < n ==> raw_row_ok(#[trigger] rows[k], order[k], nodes, cats, unt, total, profile.drift_band_bps)
    &&& report.max_drift_bps == max_required_drift(rows, n)
    &&& report.out_of_band_count == count_out_of_band(rows, n)
    &&& report.holdings is None
}

fn clone_opt_string(s: &Option<String>) -> (r: Option<String>)
    ensures
        same_opt_str(r, *s),
{
    match s {
        Some(x) => Some(x.clone()),
        None => None,
    }
}

fn calc_error() -> (e: Error)
    ensures
        e matches Error::Calculation(m) && m@ == "decimal overflow in drift calculation"@,
{
    Error::Calculation(String::from_str("decimal overflow in drift calculation"))
}

fn node_row(
    node: &TargetAllocationNode,
    cats: &Vec<CategoryAllocation>,
    total: Dec,
    band: i32,
) -> (r: Result<DriftRow, Error>)
    requires
        total.wf(),
        forall|k: int| 0 <= k < cats@.len() ==> (#[trigger] cats@[k]).value.wf(),
    ensures
        r is Ok <==> node_row_computable(*node, cats@, total),
        r matches Ok(row) ==> node_row_ok(row, *node, cats@, total, band),
        r matches Err(e) ==> e is Calculation,
{
    let found = find_last_category(cats, &node.category_id);
    let current_value = match found {
        Some(i) => cats[i].value,
        None => Dec::zero(),
    };
    let category_name = match found {
        Some(i) => cats[i].category_name.clone(),
        None => node.category_id.clone(),
    };
    let color = match found {
        Some(i) => cats[i].color.clone(),
        None => String::from_str("#94a3b8"),
    };
    let current_bps = match share_bps(current_value, total) {
        Some(b) => b,
        None => return Err(calc_error()),
    };
    let drift_wide: i64 = current_bps as i64 - node.target_bps as i64;
    if drift_wide <= -2147483648i64 || drift_wide > 2147483647i64 {
        return Err(calc_error());
    }
    let drift_bps = drift_wide as i32;
    let tv = match target_value(total, node.target_bps) {
        Some(v) => v,
        None => return Err(calc_error()),
    };
    let value_delta = match dec_checked_sub(current_value, tv) {
        Some(v) => v,
        None => return Err(calc_error()),
    };
    let status = drift_status(drift_bps, band);
    Ok(DriftRow {
        category_id: node.category_id.clone(),
        category_name,
        color,
        current_bps,
        target_bps: node.target_bps,
        drift_bps,
        current_value,
        target_value: tv,
        value_delta,
        status,
        is_required: node.is_required,
        is_zero_current: !dec_lt(current_value, Dec::zero()) && !dec_lt(Dec::zero(), current_value),
        is_cash: false,
    })
}

fn untargeted_row(cat: &CategoryAllocation, total: Dec) -> (r: Option<DriftRow>)
    requires
        total.wf(),
        cat.value.wf(),
    ensures
        r is Some <==> spec_share_bps(cat.value, total) is Some,
        r matches Some(row) ==> untargeted_row_ok(row, *cat, total),
{
    let current_bps = match share_bps(cat.value, total) {
        Some(b) => b,
        None => return None,
    };
    Some(DriftRow {
        category_id: cat.category_id.clone(),
        category_name: cat.category_name.clone(),
        color: cat.color.clone(),
        current_bps,
        target_bps: 0,
        drift_bps: current_bps,
        current_value: cat.value,
        target_value: Dec::zero(),
        value_delta: cat.value,
        status: DriftStatus::NotTargeted,
        is_required: false,
        is_zero_current: !dec_lt(cat.value, Dec::zero()) && !dec_lt(Dec::zero(), cat.value),
        is_cash: false,
    })
}

fn row_sort_key(row: &DriftRow) -> (k: i64)
    ensures
        k == row_key(*row),
{
    let d = row.drift_bps as i64;
    let a = if d < 0 { -d } else { d };
    let rank: i64 = match row.status {
        DriftStatus::NotTargeted => 8589934592,
        _ => 0,
    };
    rank - a
}

/// Sorts rows by key, keeping the order of rows with equal keys.
fn sort_rows(raw: Vec<DriftRow>) -> (res: (Vec<DriftRow>, Ghost<Seq<int>>))
    ensures
        is_permutation(res.1@, raw@.len() as int),
        stable_sorted(res.0@, res.1@),
        res.0@.len() == raw@.len(),
        forall|k: int| 0 <= k < raw@.len() ==> res.0@[k] == raw@[res.1@[k]],
{
    let mut out: Vec<DriftRow> = Vec::new();
    let ghost mut order: Seq<int> = seq![];
    let n = raw.len();
    let mut i: usize = 0;
    while i < n
        invariant
            n == raw@.len(),
            0 <= i <= n,
            out@.len() == i,
            order.len() == i,
            forall|k: int| 0 <= k < i ==> 0 <= #[trigger] order[k] < i,
            forall|a: int, b: int| 0 <= a < b < i ==> order[a] != order[b],
            forall|k: int| 0 <= k < i ==> out@[k] == raw@[#[trigger] order[k]],
            stable_sorted(out@, order),
        decreases n - i,
    {
        let key = row_sort_key(&raw[i]);
        let mut p: usize = 0;
        while p < out.len() && row_sort_key(&out[p]) <= key
            invariant
                0 <= p <= out@.len(),
                out@.len() == i,
                key == row_key(raw@[i as int]),
                forall|q: int| 0 <= q < p ==> row_key(out@[q]) <= key,
            decreases out@.len() - p,
        {
            p = p + 1;
        }
        let ghost old_out = out@;
        let ghost old_order = order;
        let row = raw[i].clone_row();
        out.insert(p, row);
        proof {
            order = old_order.insert(p as int, i as int);
            assert forall|q: int| p <= q < old_out.len() implies key < row_key(old_out[q]) by {
                if p < old_out.len() {
                    assert(row_key(old_out[p as int]) > key);
                    assert(row_key(old_out[p as int]) <= row_key(old_out[q]));
                }
            }
            assert forall|k: int| 0 <= k < i + 1 implies out@[k] == raw@[#[trigger] order[k]] by {
                if k < p {
                    assert(out@[k] == old_out[k]);
                    assert(order[k] == old_order[k]);
                } else if k == p {
                } else {
                    assert(out@[k] == old_out[k - 1]);
                    assert(order[k] == old_order[k - 1]);
                }
            }
            assert forall|k: int| 0 <= k < i + 1 implies 0 <= #[trigger] order[k] < i + 1 by {
                if k < p {
                    assert(order[k] == old_order[k]);
                } else if k > p {
                    assert(order[k] == old_order[k - 1]);
                }
            }
            assert forall|a: int, b: int| 0 <= a < b < i + 1 implies order[a] != order[b] by {
                if a < p && b < p {
                } else if a < p && b == p {
                    assert(old_order[a] < i);
                } else if a < p && b > p {
                    assert(order[b] == old_order[b - 1]);
                } else if a == p {
                    assert(order[b] == old_order[b - 1]);
                    assert(old_order[b - 1] < i);
                } else {
                    assert(order[a] == old_order[a - 1]);
                    assert(order[b] == old_order[b - 1]);
                }
            }
            assert forall|a: int, b: int| 0 <= a < b < out@.len() implies row_key(out@[a]) <= row_key(out@[b]) by {
                if a < p && b < p {
                    assert(out@[a] == old_out[a]);
                    assert(out@[b] == old_out[b]);
                } else if a < p && b == p {
                    assert(out@[a] == old_out[a]);
                } else if a < p && b > p {
                    assert(out@[a] == old_out[a]);
                    assert(out@[b] == old_out[b - 1]);
                } else if a == p {
                    assert(out@[b] == old_out[b - 1]);
                } else {
                    assert(out@[a] == old_out[a - 1]);
                    assert(out@[b] == old_out[b - 1]);
                }
            }
            assert forall|a: int, b: int|
                0 <= a < b < out@.len() && row_key(out@[a]) == row_key(out@[b]) implies order[a] < order[b] by {
                if a < p && b < p {
                    assert(out@[a] == old_out[a]);
                    assert(out@[b] == old_out[b]);
                } else if a < p && b == p {
                    assert(out@[a] == old_out[a]);
                    assert(old_order[a] < i);
                } else if a < p && b > p {
                    assert(out@[a] == old_out[a]);
                    assert(out@[b] == old_out[b - 1]);
                    assert(order[b] == old_order[b - 1]);
                } else if a == p {
                    assert(out@[b] == old_out[b - 1]);
                } else {
                    assert(out@[a] == old_out[a - 1]);
                    assert(out@[b] == old_out[b - 1]);
                    assert(order[a] == old_order[a - 1]);
                    assert(order[b] == old_order[b - 1]);
                }
            }
        }
        i = i + 1;
    }
    (out, Ghost(order))
}

impl DriftRow {
    /// A copy of the row.
    pub fn clone_row(&self) -> (r: DriftRow)
        ensures
            r == *self,
    {
        DriftRow {
            category_id: self.category_id.clone(),
            category_name: self.category_name.clone(),
            color: self.color.clone(),
            current_bps: self.current_bps,
            target_bps: self.target_bps,
            drift_bps: self.drift_bps,
            current_value: self.current_value,
            target_value: self.target_value,
            value_delta: self.value_delta,
            status: self.status,
            is_required: self.is_required,
            is_zero_current: self.is_zero_current,
            is_cash: self.is_cash,
        }
    }
}


/// Decimal values of every category of a taxonomy are representable.
pub open spec fn taxonomy_wf(t: TaxonomyAllocation) -> bool {
    forall|k: int| 0 <= k < t.categories@.len() ==> (#[trigger] t.categories@[k]).value.wf()
}

/// Decimal values of an allocation are representable.
pub open spec fn allocations_wf(a: PortfolioAllocations) -> bool {
    &&& a.total_value.wf()
    &&& taxonomy_wf(a.asset_classes)
    &&& taxonomy_wf(a.sectors)
    &&& taxonomy_wf(a.regions)
    &&& taxonomy_wf(a.risk_category)
    &&& taxonomy_wf(a.security_types)
    &&& forall|g: int| 0 <= g < a.custom_groups@.len() ==> taxonomy_wf(#[trigger] a.custom_groups@[g])
}

proof fn lemma_selected_wf(a: PortfolioAllocations, id: Seq<char>)
    requires
        allocations_wf(a),
    ensures
        taxonomy_wf(selected_taxonomy(a, id)),
{
    if !(id == "asset_classes"@ || id == "industries_gics"@ || id == "regions"@ || id
        == "risk_category"@ || id == "instrument_type"@) {
        match first_group_match(a.custom_groups@, id, a.custom_groups@.len() as int) {
            Some(i) => {
                lemma_first_group_match_range(a.custom_groups@, id, a.custom_groups@.len() as int);
                assert(taxonomy_wf(a.custom_groups@[i]));
            },
            None => {},
        }
    }
}

proof fn lemma_first_group_match_range(groups: Seq<TaxonomyAllocation>, id: Seq<char>, k: int)
    requires
        0 <= k <= groups.len(),
    ensures
        first_group_match(groups, id, k) matches Some(i) ==> 0 <= i < k,
    decreases k,
{
    if k > 0 {
        lemma_first_group_match_range(groups, id, k - 1);
    }
}

/// Builds the drift report of a profile from its nodes and the current allocation.
///
/// Each node gives a row in node order; each category of the targeted taxonomy that no
/// node targets gives a `NotTargeted` row; rows are then ranked with targeted rows first
/// and larger `|drift|` first, ties kept in that order. The report is an error exactly
/// when a decimal step overflows or a drift reaches `i32::MIN`.
pub fn build_drift_report(
    profile: &TargetProfile,
    nodes: &Vec<TargetAllocationNode>,
    alloc: &PortfolioAllocations,
    profile_id: &str,
    base_currency: &str,
) -> (r: Result<DriftReport, Error>)
    requires
        allocations_wf(*alloc),
    ensures
        r is Ok <==> report_computable(*profile, nodes@, *alloc),
        r matches Ok(report) ==> drift_report_ok(report, *profile, nodes@, *alloc, profile_id@, base_currency@),
        r matches Err(e) ==> e is Calculation,
{
    let tax = select_taxonomy(alloc, profile.taxonomy_id.as_str());
    proof {
        lemma_selected_wf(*alloc, profile.taxonomy_id@);
    }
    let cats = &tax.categories;
    let total = if crate::model::str_eq(profile.taxonomy_id.as_str(), "asset_classes") {
        proof {
            reveal_strlit("asset_classes");
        }
        alloc.total_value
    } else {
        let mut acc = Dec::zero();
        let mut k: usize = 0;
        while k < cats.len()
            invariant
                k <= cats@.len(),
                taxonomy_wf(*tax),
                cats == tax.categories,
                *tax == selected_taxonomy(*alloc, profile.taxonomy_id@),
                profile.taxonomy_id@ != "asset_classes"@,
                acc.wf(),
                category_total(cats@, k as int) == Some(acc),
            decreases cats@.len() - k,
        {
            assert(cats@[k as int].value.wf());
            acc = match dec_checked_add(acc, cats[k].value) {
                Some(v) => v,
                None => {
                    proof {
                        lemma_category_total_none_stays(cats@, k + 1, cats@.len() as int);
                    }
                    return Err(calc_error());
                },
            };
            k = k + 1;
        }
        proof {
            reveal_strlit("asset_classes");
        }
        acc
    };
    proof {
        assert(drift_total(*profile, *alloc) == Some(total));
    }
    let band = profile.drift_band_bps;
    let ghost unt_full = untargeted_prefix(cats@, nodes@, cats@.len() as int);
    let mut raw: Vec<DriftRow> = Vec::new();
    let mut j: usize = 0;
    while j < nodes.len()
        invariant
            0 <= j <= nodes@.len(),
            raw@.len() == j,
            total.wf(),
            drift_total(*profile, *alloc) == Some(total),
            band == profile.drift_band_bps,
            *tax == selected_taxonomy(*alloc, profile.taxonomy_id@),
            cats == tax.categories,
            taxonomy_wf(*tax),
            forall|q: int| 0 <= q < j ==> node_row_computable(nodes@[q], cats@, total),
            forall|q: int| 0 <= q < j ==> node_row_ok(#[trigger] raw@[q], nodes@[q], cats@, total, band),
        decreases nodes@.len() - j,
    {
        match node_row(&nodes[j], cats, total, band) {
            Ok(row) => {
                raw.push(row);
            },
            Err(e) => {
                return Err(e);
            },
        }
        j = j + 1;
    }
    let n = nodes.len();
    let mut k: usize = 0;
    while k < cats.len()
        invariant
            0 <= k <= cats@.len(),
            n == nodes@.len(),
            raw@.len() == n + untargeted_prefix(cats@, nodes@, k as int).len(),
            total.wf(),
            drift_total(*profile, *alloc) == Some(total),
            band == profile.drift_band_bps,
            *tax == selected_taxonomy(*alloc, profile.taxonomy_id@),
            cats == tax.categories,
            taxonomy_wf(*tax),
            forall|q: int| 0 <= q < n ==> node_row_computable(nodes@[q], cats@, total),
            forall|q: int| 0 <= q < n ==> node_row_ok(#[trigger] raw@[q], nodes@[q], cats@, total, band),
            forall|q: int| 0 <= q < k && !is_targeted(nodes@, cats@[q].category_id@) ==> (#[trigger] spec_share_bps(
                cats@[q].value,
                total,
            )) is Some,
            forall|m: int| n <= m < raw@.len() ==> untargeted_row_ok(
                #[trigger] raw@[m],
                cats@[untargeted_prefix(cats@, nodes@, k as int)[m - n]],
                total,
            ),
            forall|m: int| 0 <= m < untargeted_prefix(cats@, nodes@, k as int).len() ==> 0 <= #[trigger] untargeted_prefix(cats@, nodes@, k as int)[m] < k,
        decreases cats@.len() - k,
    {
        let ghost prev = untargeted_prefix(cats@, nodes@, k as int);
        assert(cats@[k as int].value.wf());
        if !targets_category(nodes, &cats[k].category_id) {
            match untargeted_row(&cats[k], total) {
                Some(row) => {
                    raw.push(row);
                },
                None => {
                    proof {
                        assert(!(spec_share_bps(cats@[k as int].value, total) is Some));
                    }
                    return Err(calc_error());
                },
            }
        }
        proof {
            let next = untargeted_prefix(cats@, nodes@, k + 1);
            assert(forall|m: int| 0 <= m < prev.len() ==> next[m] == prev[m]);
        }
        k = k + 1;
    }
    proof {
        assert(report_computable(*profile, nodes@, *alloc));
    }
    let ghost raw_seq = raw@;
    let (rows, Ghost(order)) = sort_rows(raw);
    proof {
        assert forall|q: int| 0 <= q < rows@.len() implies raw_row_ok(
            #[trigger] rows@[q],
            order[q],
            nodes@,
            cats@,
            unt_full,
            total,
            band,
        ) by {
            let o = order[q];
            assert(rows@[q] == raw_seq[o]);
            if o < n {
            } else {
            }
        }
    }
    let mut max_drift: i32 = 0;
    let mut out_of_band: usize = 0;
    let mut q: usize = 0;
    while q < rows.len()
        invariant
            0 <= q <= rows@.len(),
            rows@.len() == raw_seq.len(),
            n == nodes@.len(),
            forall|t: int| 0 <= t < rows@.len() ==> raw_row_ok(#[trigger] rows@[t], order[t], nodes@, cats@, unt_full, total, band),
            forall|t: int| 0 <= t < rows@.len() ==> 0 <= #[trigger] order[t] < rows@.len(),
            max_drift == max_required_drift(rows@, q as int),
            out_of_band == count_out_of_band(rows@, q as int),
            out_of_band <= q,
        decreases rows@.len() - q,
    {
        let row = &rows[q];
        if row.is_required {
            assert(order[q as int] < n);
            let d = row.drift_bps;
            let a = if d < 0 { -d } else { d };
            if a > max_drift {
                max_drift = a;
            }
            match row.status {
                DriftStatus::Underweight | DriftStatus::Overweight => {
                    out_of_band = out_of_band + 1;
                },
                _ => {},
            }
        }
        q = q + 1;
    }
    let scope_type = match ScopeType::try_from(profile.scope_type.as_str()) {
        Ok(t) => t,
        Err(_) => ScopeType::All,
    };
    proof {
        crate::model::lemma_scope_type_round_trip(profile.scope_type);
    }
    let report = DriftReport {
        target_id: String::from_str(profile_id),
        scope_type,
        scope_id: clone_opt_string(&profile.scope_id),
        total_value: total,
        base_currency: String::from_str(base_currency),
        max_drift_bps: max_drift,
        out_of_band_count: out_of_band,
        rows,
        holdings: None,
    };
    proof {
        assert(is_permutation(order, report.rows@.len() as int));
        assert(stable_sorted(report.rows@, order));
    }
    Ok(report)
}


/// Computes drift reports.
pub trait DriftServiceTrait {
    /// `r` is an answer the service gives when asked for the report of the active
    /// profile of a scope.
    /// Implementations may say which results these are; by default any result is one.
    closed spec fn scope_report_answer(&self, scope_type: Seq<char>, scope_id: Option<Seq<char>>, account_ids: Seq<String>,
        base_currency: Seq<char>, aggregated_account_id: Seq<char>, r: Result<Option<DriftReport>, Error>) -> bool {
        true
    }

    /// `r` is an answer the service gives when asked for the report of a profile.
    /// Implementations may say which results these are; by default any result is one.
    closed spec fn profile_report_answer(&self, profile_id: Seq<char>, account_ids: Seq<String>, base_currency: Seq<char>,
        aggregated_account_id: Seq<char>, r: Result<DriftReport, Error>) -> bool {
        true
    }

    /// The drift report of the active profile of a scope, if the scope has one.
    fn get_drift_report(
        &self,
        scope_type: &str,
        scope_id: Option<&str>,
        account_ids: &[String],
        base_currency: &str,
        aggregated_account_id: &str,
    ) -> (r: Result<Option<DriftReport>, Error>)
        ensures
            self.scope_report_answer(scope_type@, crate::model::opt_str(scope_id), account_ids@, base_currency@,
                aggregated_account_id@, r),
    ;

    /// The drift report of an explicit profile.
    fn get_drift_report_for_profile(
        &self,
        profile_id: &str,
        account_ids: &[String],
        base_currency: &str,
        aggregated_account_id: &str,
    ) -> (r: Result<DriftReport, Error>)
        ensures
            self.profile_report_answer(profile_id@, account_ids@, base_currency@, aggregated_account_id@, r),
    ;
}

/// Why the report of profile `pid` fails with `e`, given what the services answered:
/// the profile lookup failed, or found no profile and `e` is the not-found error; or the
/// profile was found and reading its nodes failed; or the nodes were read and reading
/// the allocation failed; or all were read and a decimal step overflowed.
pub open spec fn drift_error<T: TargetProfileServiceTrait, A: AllocationServiceTrait>(t: T, a: A, pid: Seq<char>,
    account_ids: Seq<String>, base_currency: Seq<char>, aggregated: Seq<char>, e: Error) -> bool {
    ||| t.profile_answer(pid, Err(e))
    ||| t.profile_answer(pid, Ok(None)) && crate::errors::is_not_found(e, "TargetProfile "@ + pid + " not found"@)
    ||| exists|p: TargetProfile| #[trigger] t.profile_answer(pid, Ok(Some(p))) && (t.nodes_answer(pid, Err(e))
        || exists|ns: Vec<TargetAllocationNode>| #[trigger] t.nodes_answer(pid, Ok(ns)) && (a.allocations_answer(account_ids,
            base_currency, aggregated, Err(e))
            || exists|al: PortfolioAllocations| #[trigger] a.allocations_answer(account_ids, base_currency, aggregated, Ok(al))
                && e is Calculation && !(allocations_wf(al) && report_computable(p, ns@, al))))
}

/// The report of profile `pid` for the accounts, given what the services answered: the
/// drift report of the profile, its nodes and the allocation the services answered with
/// for that id and those accounts and currency; or an error that `drift_error` explains.
pub open spec fn drift_for_profile<T: TargetProfileServiceTrait, A: AllocationServiceTrait>(t: T, a: A, pid: Seq<char>,
    account_ids: Seq<String>, base_currency: Seq<char>, aggregated: Seq<char>, r: Result<DriftReport, Error>) -> bool {
    match r {
        Ok(report) => exists|p: TargetProfile, ns: Vec<TargetAllocationNode>, al: PortfolioAllocations|
            #![trigger t.profile_answer(pid, Ok(Some(p))), t.nodes_answer(pid, Ok(ns)), a.allocations_answer(account_ids, base_currency, aggregated, Ok(al))]
            t.profile_answer(pid, Ok(Some(p))) && t.nodes_answer(pid, Ok(ns))
            && a.allocations_answer(account_ids, base_currency, aggregated, Ok(al))
            && drift_report_ok(report, p, ns@, al, pid, base_currency),
        Err(e) => drift_error(t, a, pid, account_ids, base_currency, aggregated, e),
    }
}

/// The report for a scope, given what the services answered: none when the scope has
/// no active profile; otherwise the report of the active profile, or the error of
/// looking it up or of reporting on it.
pub open spec fn drift_for_scope<T: TargetProfileServiceTrait, A: AllocationServiceTrait>(t: T, a: A, scope_type: Seq<char>,
    scope_id: Option<Seq<char>>, account_ids: Seq<String>, base_currency: Seq<char>, aggregated: Seq<char>,
    r: Result<Option<DriftReport>, Error>) -> bool {
    match r {
        Ok(None) => t.active_answer(scope_type, scope_id, Ok(None)),
        Ok(Some(report)) => exists|p: TargetProfile| #[trigger] t.active_answer(scope_type, scope_id, Ok(Some(p)))
            && drift_for_profile(t, a, p.id@, account_ids, base_currency, aggregated, Ok(report)),
        Err(e) => t.active_answer(scope_type, scope_id, Err(e))
            || exists|p: TargetProfile| #[trigger] t.active_answer(scope_type, scope_id, Ok(Some(p)))
                && drift_for_profile(t, a, p.id@, account_ids, base_currency, aggregated, Err(e)),
    }
}

fn taxonomy_is_wf(t: &TaxonomyAllocation) -> (r: bool)
    ensures
        r == taxonomy_wf(*t),
{
    let mut k: usize = 0;
    while k < t.categories.len()
        invariant
            k <= t.categories@.len(),
            forall|j: int| 0 <= j < k ==> (#[trigger] t.categories@[j]).value.wf(),
        decreases t.categories@.len() - k,
    {
        if !t.categories[k].value.is_wf() {
            return false;
        }
        k = k + 1;
    }
    true
}

/// Whether the decimals of an allocation are representable.
pub fn allocations_are_wf(a: &PortfolioAllocations) -> (r: bool)
    ensures
        r == allocations_wf(*a),
{
    if !(a.total_value.is_wf() && taxonomy_is_wf(&a.asset_classes) && taxonomy_is_wf(&a.sectors)
        && taxonomy_is_wf(&a.regions) && taxonomy_is_wf(&a.risk_category) && taxonomy_is_wf(&a.security_types)) {
        return false;
    }
    let mut g: usize = 0;
    while g < a.custom_groups.len()
        invariant
            g <= a.custom_groups@.len(),
            forall|j: int| 0 <= j < g ==> taxonomy_wf(#[trigger] a.custom_groups@[j]),
        decreases a.custom_groups@.len() - g,
    {
        if !taxonomy_is_wf(&a.custom_groups[g]) {
            return false;
        }
        g = g + 1;
    }
    true
}

/// Computes drift reports from target profiles and the current allocation.
pub struct DriftService<T, A> {
    target_service: T,
    allocation_service: A,
}

impl<T, A> DriftService<T, A> {
    /// The profile service and allocation service the reports are read from.
    pub closed spec fn parts(&self) -> (T, A) {
        (self.target_service, self.allocation_service)
    }

    pub fn new(target_service: T, allocation_service: A) -> (s: Self)
        ensures
            s.parts() == (target_service, allocation_service),
    {
        DriftService { target_service, allocation_service }
    }
}

/// The report is the drift report of some profile, nodes and allocation, for the id and
/// currency asked.
pub open spec fn is_drift_report_for(report: DriftReport, profile_id: Seq<char>, base_currency: Seq<char>) -> bool {
    exists|p: TargetProfile, ns: Seq<TargetAllocationNode>, a: PortfolioAllocations|
        #[trigger] drift_report_ok(report, p, ns, a, profile_id, base_currency)
}

impl<T: TargetProfileServiceTrait, A: AllocationServiceTrait> DriftServiceTrait for DriftService<T, A> {
    open spec fn scope_report_answer(&self, scope_type: Seq<char>, scope_id: Option<Seq<char>>, account_ids: Seq<String>,
        base_currency: Seq<char>, aggregated_account_id: Seq<char>, r: Result<Option<DriftReport>, Error>) -> bool {
        drift_for_scope(self.parts().0, self.parts().1, scope_type, scope_id, account_ids, base_currency, aggregated_account_id, r)
    }

    open spec fn profile_report_answer(&self, profile_id: Seq<char>, account_ids: Seq<String>, base_currency: Seq<char>,
        aggregated_account_id: Seq<char>, r: Result<DriftReport, Error>) -> bool {
        drift_for_profile(self.parts().0, self.parts().1, profile_id, account_ids, base_currency, aggregated_account_id, r)
    }

    /// The report of the active profile of the scope, `None` when the scope has none.
    fn get_drift_report(
        &self,
        scope_type: &str,
        scope_id: Option<&str>,
        account_ids: &[String],
        base_currency: &str,
        aggregated_account_id: &str,
    ) -> (r: Result<Option<DriftReport>, Error>)
        ensures
            r matches Ok(Some(report)) ==> report.base_currency@ == base_currency@
                && is_drift_report_for(report, report.target_id@, base_currency@),
    {
        let profile = match self.target_service.get_active_profile_for_scope(scope_type, scope_id) {
            Ok(Some(p)) => p,
            Ok(None) => return Ok(None),
            Err(e) => return Err(e),
        };
        let r = match self.get_drift_report_for_profile(profile.id.as_str(), account_ids, base_currency, aggregated_account_id) {
            Ok(report) => Ok(Some(report)),
            Err(e) => Err(e),
        };
        proof {
            assert(self.parts().0.active_answer(scope_type@, crate::model::opt_str(scope_id), Ok(Some(profile))));
        }
        r
    }

    /// Loads the profile (an error when it is missing), its nodes and the allocation of
    /// the accounts, and builds the report with `build_drift_report`.
    fn get_drift_report_for_profile(
        &self,
        profile_id: &str,
        account_ids: &[String],
        base_currency: &str,
        aggregated_account_id: &str,
    ) -> (r: Result<DriftReport, Error>)
        ensures
            r matches Ok(report) ==> is_drift_report_for(report, profile_id@, base_currency@)
                && report.target_id@ == profile_id@ && report.base_currency@ == base_currency@,
    {
        let profile = match found_profile(self.target_service.get_profile(profile_id), profile_id) {
            Ok(p) => p,
            Err(e) => return Err(e),
        };
        let nodes = match self.target_service.list_nodes_for_profile(profile_id) {
            Ok(v) => v,
            Err(e) => return Err(e),
        };
        let alloc = match self.allocation_service.get_portfolio_allocations_for_accounts(account_ids, base_currency, aggregated_account_id) {
            Ok(v) => v,
            Err(e) => {
                proof {
                    assert(self.parts().1.allocations_answer(account_ids@, base_currency@, aggregated_account_id@, Err(e)));
                }
                return Err(e);
            },
        };
        proof {
            assert(self.parts().0.profile_answer(profile_id@, Ok(Some(profile))));
            assert(self.parts().0.nodes_answer(profile_id@, Ok(nodes)));
            assert(self.parts().1.allocations_answer(account_ids@, base_currency@, aggregated_account_id@, Ok(alloc)));
        }
        if !allocations_are_wf(&alloc) {
            return Err(calc_error());
        }
        let r = build_drift_report(&profile, &nodes, &alloc, profile_id, base_currency);
        proof {
            if r is Ok {
                assert(drift_report_ok(r->Ok_0, profile, nodes@, alloc, profile_id@, base_currency@));
            }
        }
        r
    }
}


/// Index of the first `:` of a text, if any.
pub open spec fn first_colon(s: Seq<char>) -> Option<int> {
    if exists|i: int| 0 <= i < s.len() && s[i] == ':' {
        Some(choose|i: int| 0 <= i < s.len() && s[i] == ':' && forall|j: int| 0 <= j < i ==> s[j] != ':')
    } else {
        None
    }
}

/// The part of a text before its first `:` (all of it when there is none).
pub open spec fn before_colon(s: Seq<char>) -> Seq<char> {
    match first_colon(s) {
        Some(i) => s.subrange(0, i),
        None => s,
    }
}

/// The scope type and scope id that a resolved scope id such as `account:abc` names:
/// the text before the first `:`, and the text between the first and the next `:`
/// when there is a first.
pub open spec fn spec_split_scope(s: Seq<char>) -> (Seq<char>, Option<Seq<char>>) {
    match first_colon(s) {
        Some(i) => (s.subrange(0, i), Some(before_colon(s.subrange(i + 1, s.len() as int)))),
        None => (s, None),
    }
}

fn colon_at(s: &str) -> (r: Option<usize>)
    ensures
        match r {
            Some(i) => first_colon(s@) == Some(i as int) && i < s@.len(),
            None => first_colon(s@) is None,
        },
{
    let n = s.unicode_len();
    let mut i: usize = 0;
    while i < n
        invariant
            n == s@.len(),
            i <= n,
            forall|j: int| 0 <= j < i ==> s@[j] != ':',
        decreases n - i,
    {
        if s.get_char(i) == ':' {
            proof {
                let c = choose|k: int| 0 <= k < s@.len() && s@[k] == ':' && forall|j: int| 0 <= j < k ==> s@[j] != ':';
                assert(c == i) by {
                    if c < i { assert(s@[c] != ':'); }
                    if c > i { assert(s@[i as int] != ':'); }
                }
            }
            return Some(i);
        }
        i = i + 1;
    }
    None
}

/// Splits a resolved scope id into the scope type and scope id a drift report is
/// asked for.
pub fn split_scope_id(scope_id: &str) -> (r: (String, Option<String>))
    ensures
        r.0@ == spec_split_scope(scope_id@).0,
        match r.1 { Some(x) => spec_split_scope(scope_id@).1 == Some(x@), None => spec_split_scope(scope_id@).1 is None },
{
    match colon_at(scope_id) {
        None => (String::from_str(scope_id), None),
        Some(i) => {
            let n = scope_id.unicode_len();
            let rest = scope_id.substring_char(i + 1, n);
            let second = match colon_at(rest) {
                Some(j) => rest.substring_char(0, j),
                None => rest,
            };
            (String::from_str(scope_id.substring_char(0, i)), Some(String::from_str(second)))
        },
    }
}

} // verus!
