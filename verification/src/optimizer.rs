//! An exposure-aware greedy planner: each step buys the asset that removes the most
//! drift per unit of cash, counting the exposure an asset gives to every category.

use vstd::prelude::*;
use crate::dec::{Dec, dec_checked_add, dec_checked_div, dec_checked_mul, dec_checked_sub, dec_floor,
    dec_format_2dp, dec_lt, dec_round, spec_checked_add, spec_checked_div, spec_checked_mul,
    spec_checked_sub, spec_round_mantissa, units};
use crate::drift::{abs_i, bps_scale, dec_zero, i32_or_zero, mantissa_to_i32_or_zero};
use crate::errors::Error;
use crate::model::{RebalanceGoal, RebalancePlan, RebalanceWarning, RebalanceWarningKind,
    SuggestedManualTrade};
use crate::rebalance::{dec_max, dec_max_exec, dec_min, dec_min_exec, floor_dec, is_zero, need, overflow};

verus! {

// ── Input ────────────────────────────────────────────────────────────────────

/// The planner settings of a target.
#[derive(Debug, Clone)]
pub struct RebalanceProfile {
    pub target_id: String,
    pub drift_band_bps: i32,
    pub rebalance_goal: RebalanceGoal,
    pub min_trade_amount: Dec,
    pub whole_shares_only: bool,
}

/// A category with its target and current value.
#[derive(Debug, Clone)]
pub struct CategoryState {
    pub category_id: String,
    pub category_name: String,
    pub target_bps: i32,
    pub current_value: Dec,
    pub is_cash: bool,
    pub is_required: bool,
}

/// An asset that can be bought.
#[derive(Debug, Clone)]
pub struct AssetCandidate {
    pub holding_id: String,
    pub asset_id: String,
    pub symbol: String,
    pub name: Option<String>,
    pub price: Dec,
    /// Value added per share in the base currency, by category id, each id once. May
    /// sum to less than the price (partial classification).
    pub exposure_per_share: Vec<(String, Dec)>,
}

/// What the planner works from.
#[derive(Debug, Clone)]
pub struct RebalanceInput {
    pub profile: RebalanceProfile,
    pub available_cash: Dec,
    pub total_value: Dec,
    pub categories: Vec<CategoryState>,
    pub candidates: Vec<AssetCandidate>,
    /// Classification warnings gathered before planning.
    pub warnings: Vec<RebalanceWarning>,
}

/// Plans trades for a rebalance input.
pub trait RebalanceOptimizer {
    fn plan(&self, input: RebalanceInput) -> Result<RebalancePlan, Error>;
}

/// The greedy exposure-aware planner.
pub struct DriftPriorityOptimizer;

// ── Values by category ───────────────────────────────────────────────────────

/// Each category id occurs once.
pub open spec fn keys_unique(m: Seq<(String, Dec)>) -> bool {
    forall|i: int, j: int| 0 <= i < j < m.len() ==> (#[trigger] m[i]).0@ != (#[trigger] m[j]).0@
}

/// Decimals of the entries are representable.
pub open spec fn values_wf(m: Seq<(String, Dec)>) -> bool {
    forall|i: int| 0 <= i < m.len() ==> (#[trigger] m[i]).1.wf()
}

/// The value of a category, zero when it has none.
pub open spec fn value_of(m: Seq<(String, Dec)>, id: Seq<char>) -> Dec {
    if exists|i: int| 0 <= i < m.len() && (#[trigger] m[i]).0@ == id {
        m[choose|i: int| 0 <= i < m.len() && (#[trigger] m[i]).0@ == id].1
    } else {
        dec_zero()
    }
}

/// Whether the category has an entry.
pub open spec fn has_key(m: Seq<(String, Dec)>, id: Seq<char>) -> bool {
    exists|i: int| 0 <= i < m.len() && (#[trigger] m[i]).0@ == id
}

fn find_key(m: &Vec<(String, Dec)>, id: &str) -> (r: Option<usize>)
    requires
        keys_unique(m@),
    ensures
        match r {
            Some(i) => i < m@.len() && m@[i as int].0@ == id@ && value_of(m@, id@) == m@[i as int].1,
            None => !has_key(m@, id@) && value_of(m@, id@) == dec_zero(),
        },
{
    let mut k: usize = 0;
    while k < m.len()
        invariant
            k <= m@.len(),
            keys_unique(m@),
            forall|j: int| 0 <= j < k ==> (#[trigger] m@[j]).0@ != id@,
        decreases m@.len() - k,
    {
        if crate::model::str_eq(m[k].0.as_str(), id) {
            proof {
                let c = choose|i: int| 0 <= i < m@.len() && (#[trigger] m@[i]).0@ == id@;
                if c != k {
                    if c < k {
                        assert(m@[c].0@ != id@);
                    } else {
                        assert(m@[k as int].0@ != m@[c].0@);
                    }
                }
            }
            return Some(k);
        }
        k = k + 1;
    }
    None
}

/// The value of a category, zero when it has none.
pub fn get_value(m: &Vec<(String, Dec)>, id: &str) -> (r: Dec)
    requires
        keys_unique(m@),
        values_wf(m@),
    ensures
        r == value_of(m@, id@),
        r.wf(),
{
    match find_key(m, id) {
        Some(i) => m[i].1,
        None => Dec::zero(),
    }
}

/// The values with the entry of `key` set to `v`, or a new entry appended.
pub open spec fn spec_set_keyed(m: Seq<(String, Dec)>, key: String, v: Dec) -> Seq<(String, Dec)> {
    if has_key(m, key@) {
        m.update(key_index(m, key@), (m[key_index(m, key@)].0, v))
    } else {
        m.push((key, v))
    }
}

/// Sets the value of a category, adding it when new.
fn set_value(m: &mut Vec<(String, Dec)>, key: &String, v: Dec)
    requires
        keys_unique(old(m)@),
        values_wf(old(m)@),
        v.wf(),
    ensures
        keys_unique(final(m)@),
        values_wf(final(m)@),
        final(m)@ == spec_set_keyed(old(m)@, *key, v),
        value_of(final(m)@, key@) == v,
        forall|other: Seq<char>| other != key@ ==> value_of(final(m)@, other) == value_of(old(m)@, other),
        forall|other: Seq<char>| has_key(final(m)@, other) <==> (has_key(old(m)@, other) || other == key@),
{
    let ghost m0 = m@;
    match find_key(m, key.as_str()) {
        Some(i) => {
            let k0 = m[i].0.clone();
            m.set(i, (k0, v));
            proof {
                assert forall|a: int, b: int| 0 <= a < b < m@.len() implies (#[trigger] m@[a]).0@ != (#[trigger] m@[b]).0@ by {
                    assert(m0[a].0@ != m0[b].0@);
                }
                assert(m@[i as int].0@ == key@);
                assert(has_key(m0, key@));
                let ki = key_index(m0, key@);
                if ki != i {
                    if ki < i { assert(m0[ki].0@ != m0[i as int].0@); } else { assert(m0[i as int].0@ != m0[ki].0@); }
                }
                assert(m@ =~= m0.update(i as int, (m0[i as int].0, v)));
                assert forall|other: Seq<char>| other != key@ implies value_of(m@, other) == value_of(m0, other) by {
                    if has_key(m0, other) {
                        let c0 = choose|j: int| 0 <= j < m0.len() && (#[trigger] m0[j]).0@ == other;
                        assert(m@[c0].0@ == other);
                        let c1 = choose|j: int| 0 <= j < m@.len() && (#[trigger] m@[j]).0@ == other;
                        if c1 != c0 {
                            assert(m0[c1].0@ == other);
                            if c1 < c0 { assert(m0[c1].0@ != m0[c0].0@); } else { assert(m0[c0].0@ != m0[c1].0@); }
                        }
                    } else {
                        assert forall|j: int| 0 <= j < m@.len() implies (#[trigger] m@[j]).0@ != other by {
                            assert(m0[j].0@ != other);
                        }
                    }
                }
                assert forall|other: Seq<char>| has_key(m@, other) <==> (has_key(m0, other) || other == key@) by {
                    if has_key(m0, other) {
                        let c0 = choose|j: int| 0 <= j < m0.len() && (#[trigger] m0[j]).0@ == other;
                        assert(m@[c0].0@ == other);
                    }
                    if has_key(m@, other) {
                        let c1 = choose|j: int| 0 <= j < m@.len() && (#[trigger] m@[j]).0@ == other;
                        assert(m0[c1].0@ == other);
                    }
                    if other == key@ {
                        assert(m@[i as int].0@ == other);
                    }
                }
                let c = choose|j: int| 0 <= j < m@.len() && (#[trigger] m@[j]).0@ == key@;
                if c != i {
                    if c < i { assert(m@[c].0@ != m@[i as int].0@); } else { assert(m@[i as int].0@ != m@[c].0@); }
                }
            }
        },
        None => {
            m.push((key.clone(), v));
            proof {
                assert forall|a: int, b: int| 0 <= a < b < m@.len() implies (#[trigger] m@[a]).0@ != (#[trigger] m@[b]).0@ by {
                    if b < m0.len() {
                        assert(m0[a].0@ != m0[b].0@);
                    } else {
                        assert(m@[a] == m0[a]);
                        assert(m0[a].0@ != key@);
                    }
                }
                assert forall|j: int| 0 <= j < m@.len() implies (#[trigger] m@[j]).1.wf() by {
                    if j < m0.len() { assert(m@[j] == m0[j]); }
                }
                assert(m@[m0.len() as int].0@ == key@);
                assert forall|other: Seq<char>| other != key@ implies value_of(m@, other) == value_of(m0, other) by {
                    if has_key(m0, other) {
                        let c0 = choose|j: int| 0 <= j < m0.len() && (#[trigger] m0[j]).0@ == other;
                        assert(m@[c0].0@ == other);
                        let c1 = choose|j: int| 0 <= j < m@.len() && (#[trigger] m@[j]).0@ == other;
                        assert(c1 < m0.len());
                        if c1 != c0 {
                            assert(m0[c1].0@ == other);
                            if c1 < c0 { assert(m0[c1].0@ != m0[c0].0@); } else { assert(m0[c0].0@ != m0[c1].0@); }
                        }
                    } else {
                        assert forall|j: int| 0 <= j < m@.len() implies (#[trigger] m@[j]).0@ != other by {
                            if j < m0.len() { assert(m0[j].0@ != other); }
                        }
                    }
                }
                assert forall|other: Seq<char>| has_key(m@, other) <==> (has_key(m0, other) || other == key@) by {
                    if has_key(m0, other) {
                        let c0 = choose|j: int| 0 <= j < m0.len() && (#[trigger] m0[j]).0@ == other;
                        assert(m@[c0].0@ == other);
                    }
                    if has_key(m@, other) {
                        let c1 = choose|j: int| 0 <= j < m@.len() && (#[trigger] m@[j]).0@ == other;
                        if c1 < m0.len() { assert(m0[c1].0@ == other); }
                    }
                    if other == key@ {
                        assert(m@[m0.len() as int].0@ == other);
                    }
                }
                let c = choose|j: int| 0 <= j < m@.len() && (#[trigger] m@[j]).0@ == key@;
                if c != m0.len() {
                    assert(m@[c] == m0[c]);
                }
            }
        },
    }
}

// ── Drift arithmetic ─────────────────────────────────────────────────────────

/// The share in bps a goal aims a category at: its target, or for `NearestBand` the
/// larger of `target - band` and zero. `None` when a decimal step overflows.
pub open spec fn spec_desired_for_goal(target_bps: i32, goal: RebalanceGoal, band: Dec) -> Option<Dec> {
    let t = Dec { mantissa: target_bps as i128, scale: 0 };
    match goal {
        RebalanceGoal::ExactTarget => Some(t),
        RebalanceGoal::NearestBand => match spec_checked_sub(t, band) {
            Some(d) => Some(dec_max(d, dec_zero())),
            None => None,
        },
    }
}

pub fn desired_bps_for_goal(target_bps: i32, goal: RebalanceGoal, band: Dec) -> (r: Result<Dec, Error>)
    requires
        band.wf(),
    ensures
        match spec_desired_for_goal(target_bps, goal, band) {
            Some(d) => r == Ok::<Dec, Error>(d) && d.wf(),
            None => r matches Err(e) && e is Calculation,
        },
{
    let t = Dec::from_i64(target_bps as i64);
    match goal {
        RebalanceGoal::ExactTarget => Ok(t),
        RebalanceGoal::NearestBand => match dec_checked_sub(t, band) {
            Some(d) => Ok(dec_max_exec(d, Dec::zero())),
            None => Err(overflow("desired share")),
        },
    }
}

/// The magnitude of a decimal, at the same scale.
pub open spec fn dec_abs(d: Dec) -> Dec {
    if d.mantissa < 0 { Dec { mantissa: (-d.mantissa) as i128, scale: d.scale } } else { d }
}

/// `Decimal::abs`.
pub fn abs_dec(d: Dec) -> (r: Dec)
    requires
        d.wf(),
    ensures
        r == dec_abs(d),
        r.wf(),
{
    if d.mantissa < 0 { Dec { mantissa: -d.mantissa, scale: d.scale } } else { d }
}

/// Drift of a category at a share in bps: the distance to the target, or for
/// `NearestBand` only the distance beyond the band.
pub open spec fn spec_category_drift(bps: Dec, target_bps: i32, goal: RebalanceGoal, band: Dec) -> Option<Dec> {
    match spec_checked_sub(bps, Dec { mantissa: target_bps as i128, scale: 0 }) {
        Some(diff) => {
            let dist = dec_abs(diff);
            match goal {
                RebalanceGoal::ExactTarget => Some(dist),
                RebalanceGoal::NearestBand => match spec_checked_sub(dist, band) {
                    Some(x) => Some(dec_max(x, dec_zero())),
                    None => None,
                },
            }
        },
        None => None,
    }
}

pub fn category_drift(bps: Dec, target_bps: i32, goal: RebalanceGoal, band: Dec) -> (r: Result<Dec, Error>)
    requires
        bps.wf(),
        band.wf(),
    ensures
        match spec_category_drift(bps, target_bps, goal, band) {
            Some(d) => r == Ok::<Dec, Error>(d) && d.wf(),
            None => r matches Err(e) && e is Calculation,
        },
{
    let diff = match dec_checked_sub(bps, Dec::from_i64(target_bps as i64)) {
        Some(d) => d,
        None => return Err(overflow("category drift")),
    };
    let dist = abs_dec(diff);
    match goal {
        RebalanceGoal::ExactTarget => Ok(dist),
        RebalanceGoal::NearestBand => match dec_checked_sub(dist, band) {
            Some(x) => Ok(dec_max_exec(x, Dec::zero())),
            None => Err(overflow("category drift")),
        },
    }
}

/// `value / total * 10000`, `None` on overflow.
pub open spec fn spec_bps_of(value: Dec, total: Dec) -> Option<Dec> {
    match spec_checked_div(value, total) {
        Some(q) => spec_checked_mul(q, bps_scale()),
        None => None,
    }
}

fn bps_of(value: Dec, total: Dec) -> (r: Result<Dec, Error>)
    requires
        value.wf(),
        total.wf(),
    ensures
        match spec_bps_of(value, total) {
            Some(d) => r == Ok::<Dec, Error>(d) && d.wf(),
            None => r matches Err(e) && e is Calculation,
        },
{
    let q = match dec_checked_div(value, total) {
        Some(q) => q,
        None => return Err(overflow("share in bps")),
    };
    match dec_checked_mul(q, Dec::new(10000, 0)) {
        Some(d) => Ok(d),
        None => Err(overflow("share in bps")),
    }
}

/// Categories the planner steers: required and not cash.
pub open spec fn steered(c: CategoryState) -> bool {
    c.is_required && !c.is_cash
}

/// Drift of a steered category whose value is its entry plus the exposure added.
pub open spec fn spec_drift_with(values: Seq<(String, Dec)>, exposure: Seq<(String, Dec)>, c: CategoryState, total: Dec, goal: RebalanceGoal, band: Dec) -> Option<Dec> {
    match spec_checked_add(value_of(values, c.category_id@), value_of(exposure, c.category_id@)) {
        Some(v) => match spec_bps_of(v, total) {
            Some(b) => spec_category_drift(b, c.target_bps, goal, band),
            None => None,
        },
        None => None,
    }
}

/// Sum, in category order, of the drifts of the steered categories among the first `k`
/// once `exposure` is added; `None` on overflow.
pub open spec fn spec_drift_sum(values: Seq<(String, Dec)>, exposure: Seq<(String, Dec)>, cats: Seq<CategoryState>, total: Dec, goal: RebalanceGoal, band: Dec, k: int) -> Option<Dec>
    decreases k,
{
    if k <= 0 {
        Some(dec_zero())
    } else {
        match spec_drift_sum(values, exposure, cats, total, goal, band, k - 1) {
            None => None,
            Some(acc) => if steered(cats[k - 1]) {
                match spec_drift_with(values, exposure, cats[k - 1], total, goal, band) {
                    Some(d) => spec_checked_add(acc, d),
                    None => None,
                }
            } else {
                Some(acc)
            },
        }
    }
}

/// Total drift of the steered categories with the exposure added: zero when the total
/// is zero.
pub open spec fn spec_total_drift_with(values: Seq<(String, Dec)>, exposure: Seq<(String, Dec)>, cats: Seq<CategoryState>, total: Dec, goal: RebalanceGoal, band: Dec) -> Option<Dec> {
    if units(total) == 0 {
        Some(dec_zero())
    } else {
        spec_drift_sum(values, exposure, cats, total, goal, band, cats.len() as int)
    }
}

/// Decimals of the categories are representable.
pub open spec fn cats_wf(cats: Seq<CategoryState>) -> bool {
    forall|i: int| 0 <= i < cats.len() ==> (#[trigger] cats[i]).current_value.wf()
}

proof fn lemma_drift_sum_none_stays(values: Seq<(String, Dec)>, exposure: Seq<(String, Dec)>, cats: Seq<CategoryState>, total: Dec, goal: RebalanceGoal, band: Dec, k: int, n: int)
    requires
        0 <= k <= n,
        spec_drift_sum(values, exposure, cats, total, goal, band, k) is None,
    ensures
        spec_drift_sum(values, exposure, cats, total, goal, band, n) is None,
    decreases n - k,
{
    if k < n {
        lemma_drift_sum_none_stays(values, exposure, cats, total, goal, band, k + 1, n);
    }
}

/// Total drift of the steered categories once `exposure` is added to their values.
pub fn total_drift_with_buy(
    values: &Vec<(String, Dec)>,
    cats: &Vec<CategoryState>,
    total: Dec,
    exposure: &Vec<(String, Dec)>,
    goal: RebalanceGoal,
    band: Dec,
) -> (r: Result<Dec, Error>)
    requires
        keys_unique(values@),
        values_wf(values@),
        keys_unique(exposure@),
        values_wf(exposure@),
        total.wf(),
        band.wf(),
    ensures
        match spec_total_drift_with(values@, exposure@, cats@, total, goal, band) {
            Some(d) => r == Ok::<Dec, Error>(d) && d.wf(),
            None => r matches Err(e) && e is Calculation,
        },
{
    if is_zero(total) {
        return Ok(Dec::zero());
    }
    let mut acc = Dec::zero();
    let mut k: usize = 0;
    while k < cats.len()
        invariant
            k <= cats@.len(),
            keys_unique(values@),
            values_wf(values@),
            keys_unique(exposure@),
            values_wf(exposure@),
            total.wf(),
            band.wf(),
            units(total) != 0,
            acc.wf(),
            spec_drift_sum(values@, exposure@, cats@, total, goal, band, k as int) == Some(acc),
        decreases cats@.len() - k,
    {
        let c = &cats[k];
        if c.is_required && !c.is_cash {
            let base = get_value(values, c.category_id.as_str());
            let delta = get_value(exposure, c.category_id.as_str());
            let step = match dec_checked_add(base, delta) {
                Some(v) => match bps_of(v, total) {
                    Ok(b) => category_drift(b, c.target_bps, goal, band),
                    Err(e) => Err(e),
                },
                None => Err(overflow("category value")),
            };
            let d = match step {
                Ok(d) => d,
                Err(e) => {
                    proof {
                        lemma_drift_sum_none_stays(values@, exposure@, cats@, total, goal, band, k + 1, cats@.len() as int);
                    }
                    return Err(e);
                },
            };
            acc = match dec_checked_add(acc, d) {
                Some(v) => v,
                None => {
                    proof {
                        lemma_drift_sum_none_stays(values@, exposure@, cats@, total, goal, band, k + 1, cats@.len() as int);
                    }
                    return Err(overflow("total drift"));
                },
            };
        }
        k = k + 1;
    }
    Ok(acc)
}

/// Total drift of the steered categories at their current values.
pub fn total_drift(values: &Vec<(String, Dec)>, cats: &Vec<CategoryState>, total: Dec, goal: RebalanceGoal, band: Dec) -> (r: Result<Dec, Error>)
    requires
        keys_unique(values@),
        values_wf(values@),
        total.wf(),
        band.wf(),
    ensures
        match spec_total_drift_with(values@, Seq::<(String, Dec)>::empty(), cats@, total, goal, band) {
            Some(d) => r == Ok::<Dec, Error>(d) && d.wf(),
            None => r matches Err(e) && e is Calculation,
        },
{
    let none: Vec<(String, Dec)> = Vec::new();
    proof {
        assert(none@ =~= Seq::<(String, Dec)>::empty());
    }
    total_drift_with_buy(values, cats, total, &none, goal, band)
}

/// The exposure that buying `shares` adds, category by category, in the same order.
pub fn exposure_delta(exposure: &Vec<(String, Dec)>, shares: Dec) -> (r: Result<Vec<(String, Dec)>, Error>)
    requires
        keys_unique(exposure@),
        values_wf(exposure@),
        shares.wf(),
    ensures
        match spec_scaled(exposure@, shares) {
            Some(v) => r matches Ok(x) && x@ == v && keys_unique(x@) && values_wf(x@),
            None => r matches Err(e) && e is Calculation,
        },
{
    let mut out: Vec<(String, Dec)> = Vec::new();
    let mut k: usize = 0;
    while k < exposure.len()
        invariant
            k <= exposure@.len(),
            keys_unique(exposure@),
            values_wf(exposure@),
            shares.wf(),
            out@.len() == k,
            values_wf(out@),
            forall|i: int| 0 <= i < k ==> (#[trigger] out@[i]).0 == exposure@[i].0 && spec_checked_mul(exposure@[i].1, shares) == Some(out@[i].1),
        decreases exposure@.len() - k,
    {
        let v = match dec_checked_mul(exposure[k].1, shares) {
            Some(v) => v,
            None => {
                proof {
                    assert(!(forall|i: int| 0 <= i < exposure@.len() ==> (#[trigger] spec_checked_mul(exposure@[i].1, shares)) is Some));
                }
                return Err(overflow("exposure"));
            },
        };
        out.push((exposure[k].0.clone(), v));
        k = k + 1;
    }
    proof {
        assert forall|a: int, b: int| 0 <= a < b < out@.len() implies (#[trigger] out@[a]).0@ != (#[trigger] out@[b]).0@ by {
            assert(exposure@[a].0@ != exposure@[b].0@);
        }
        assert forall|i: int| 0 <= i < exposure@.len() implies (#[trigger] spec_checked_mul(exposure@[i].1, shares)) is Some by {
            assert(spec_checked_mul(exposure@[i].1, shares) == Some(out@[i].1));
        }
        assert(out@ =~= Seq::new(exposure@.len(), |i: int| (exposure@[i].0, spec_checked_mul(exposure@[i].1, shares).unwrap())));
    }
    Ok(out)
}

// ── Largest drift ────────────────────────────────────────────────────────────

/// `|round(value / total * 10000) - target|` of a required category, `None` when a step
/// overflows (`i32` included).
pub open spec fn spec_category_drift_bps(values: Seq<(String, Dec)>, c: CategoryState, total: Dec) -> Option<int> {
    match spec_bps_of(value_of(values, c.category_id@), total) {
        Some(b) => {
            let d = abs_i(i32_or_zero(spec_round_mantissa(b)) - c.target_bps);
            if d <= i32::MAX { Some(d) } else { None }
        },
        None => None,
    }
}

/// Largest drift in bps of the required categories among the first `k` (0 if none).
pub open spec fn spec_max_drift(values: Seq<(String, Dec)>, cats: Seq<CategoryState>, total: Dec, k: int) -> Option<int>
    decreases k,
{
    if k <= 0 {
        Some(0)
    } else {
        match spec_max_drift(values, cats, total, k - 1) {
            None => None,
            Some(m) => if cats[k - 1].is_required {
                match spec_category_drift_bps(values, cats[k - 1], total) {
                    Some(d) => Some(if d > m { d } else { m }),
                    None => None,
                }
            } else {
                Some(m)
            },
        }
    }
}

proof fn lemma_max_drift_none_stays(values: Seq<(String, Dec)>, cats: Seq<CategoryState>, total: Dec, k: int, n: int)
    requires
        0 <= k <= n,
        spec_max_drift(values, cats, total, k) is None,
    ensures
        spec_max_drift(values, cats, total, n) is None,
    decreases n - k,
{
    if k < n {
        lemma_max_drift_none_stays(values, cats, total, k + 1, n);
    }
}

/// Largest drift in bps of the required categories (cash included): zero when the
/// total is zero.
pub fn max_drift_bps(values: &Vec<(String, Dec)>, cats: &Vec<CategoryState>, total: Dec) -> (r: Result<i32, Error>)
    requires
        keys_unique(values@),
        values_wf(values@),
        total.wf(),
    ensures
        units(total) == 0 ==> r == Ok::<i32, Error>(0),
        units(total) != 0 ==> match spec_max_drift(values@, cats@, total, cats@.len() as int) {
            Some(m) => r == Ok::<i32, Error>(m as i32) && 0 <= m <= i32::MAX,
            None => r matches Err(e) && e is Calculation,
        },
{
    if is_zero(total) {
        return Ok(0);
    }
    let mut best: i32 = 0;
    let mut k: usize = 0;
    while k < cats.len()
        invariant
            k <= cats@.len(),
            keys_unique(values@),
            values_wf(values@),
            total.wf(),
            units(total) != 0,
            best >= 0,
            spec_max_drift(values@, cats@, total, k as int) == Some(best as int),
        decreases cats@.len() - k,
    {
        let c = &cats[k];
        if c.is_required {
            let v = get_value(values, c.category_id.as_str());
            let b = match bps_of(v, total) {
                Ok(b) => b,
                Err(e) => {
                    proof { lemma_max_drift_none_stays(values@, cats@, total, k + 1, cats@.len() as int); }
                    return Err(e);
                },
            };
            let bps = mantissa_to_i32_or_zero(dec_round(b).mantissa);
            let diff: i64 = bps as i64 - c.target_bps as i64;
            let d: i64 = if diff < 0 { -diff } else { diff };
            if d > 2147483647i64 {
                proof { lemma_max_drift_none_stays(values@, cats@, total, k + 1, cats@.len() as int); }
                return Err(overflow("drift in bps"));
            }
            let d32 = d as i32;
            if d32 > best {
                best = d32;
            }
        }
        k = k + 1;
    }
    Ok(best)
}

/// Value of a category: that of the last category with the id.
pub open spec fn holds_category_values(m: Seq<(String, Dec)>, cats: Seq<CategoryState>) -> bool {
    &&& keys_unique(m)
    &&& values_wf(m)
    &&& forall|id: Seq<char>| #[trigger] has_key(m, id) <==> exists|i: int| 0 <= i < cats.len() && (#[trigger] cats[i]).category_id@ == id
    &&& forall|i: int| 0 <= i < cats.len() && (forall|j: int| i < j < cats.len() ==> (#[trigger] cats[j]).category_id@ != cats[i].category_id@)
        ==> value_of(m, (#[trigger] cats[i]).category_id@) == cats[i].current_value
}

/// The values from setting, in order, the value of each of the first `k` categories.
pub open spec fn spec_initial_values(cats: Seq<CategoryState>, k: int) -> Seq<(String, Dec)>
    decreases k,
{
    if k <= 0 {
        Seq::empty()
    } else {
        spec_set_keyed(spec_initial_values(cats, k - 1), cats[k - 1].category_id, cats[k - 1].current_value)
    }
}

/// The current value of every category by id (the last category of an id wins).
pub fn initial_values(cats: &Vec<CategoryState>) -> (m: Vec<(String, Dec)>)
    requires
        cats_wf(cats@),
    ensures
        holds_category_values(m@, cats@),
        m@ == spec_initial_values(cats@, cats@.len() as int),
{
    let mut m: Vec<(String, Dec)> = Vec::new();
    let mut k: usize = 0;
    while k < cats.len()
        invariant
            k <= cats@.len(),
            cats_wf(cats@),
            keys_unique(m@),
            values_wf(m@),
            forall|id: Seq<char>| #[trigger] has_key(m@, id) <==> exists|i: int| 0 <= i < k && (#[trigger] cats@[i]).category_id@ == id,
            forall|i: int| 0 <= i < k && (forall|j: int| i < j < k ==> (#[trigger] cats@[j]).category_id@ != cats@[i].category_id@)
                ==> value_of(m@, (#[trigger] cats@[i]).category_id@) == cats@[i].current_value,
            m@ == spec_initial_values(cats@, k as int),
        decreases cats@.len() - k,
    {
        let ghost m0 = m@;
        set_value(&mut m, &cats[k].category_id, cats[k].current_value);
        proof {
            assert forall|id: Seq<char>| #[trigger] has_key(m@, id) <==> exists|i: int| 0 <= i < k + 1 && (#[trigger] cats@[i]).category_id@ == id by {
                if has_key(m0, id) {
                    let i = choose|i: int| 0 <= i < k && (#[trigger] cats@[i]).category_id@ == id;
                    assert(0 <= i < k + 1 && cats@[i].category_id@ == id);
                }
                if id == cats@[k as int].category_id@ {
                    assert(0 <= k < k + 1 && cats@[k as int].category_id@ == id);
                }
                if exists|i: int| 0 <= i < k + 1 && (#[trigger] cats@[i]).category_id@ == id {
                    let i = choose|i: int| 0 <= i < k + 1 && (#[trigger] cats@[i]).category_id@ == id;
                    if i < k {
                        assert(has_key(m0, id));
                    }
                }
            }
            assert forall|i: int| 0 <= i < k + 1 && (forall|j: int| i < j < k + 1 ==> (#[trigger] cats@[j]).category_id@ != cats@[i].category_id@)
                implies value_of(m@, (#[trigger] cats@[i]).category_id@) == cats@[i].current_value by {
                if i < k {
                    assert(cats@[k as int].category_id@ != cats@[i].category_id@);
                }
            }
        }
        k = k + 1;
    }
    m
}


// ── Fractional caps ──────────────────────────────────────────────────────────

/// Decimals and exposure ids of a candidate are well formed.
pub open spec fn candidate_wf(c: AssetCandidate) -> bool {
    c.price.wf() && keys_unique(c.exposure_per_share@) && values_wf(c.exposure_per_share@)
}

pub open spec fn candidates_wf(cs: Seq<AssetCandidate>) -> bool {
    forall|i: int| 0 <= i < cs.len() ==> candidate_wf(#[trigger] cs[i])
}

/// `desired / 10000 * total`: the value a category aims at.
pub open spec fn spec_desired_value(c: CategoryState, goal: RebalanceGoal, band: Dec, total: Dec) -> Option<Dec> {
    match spec_desired_for_goal(c.target_bps, goal, band) {
        Some(db) => match spec_checked_div(db, bps_scale()) {
            Some(f) => spec_checked_mul(f, total),
            None => None,
        },
        None => None,
    }
}

fn desired_value(c: &CategoryState, goal: RebalanceGoal, band: Dec, total: Dec) -> (r: Result<Dec, Error>)
    requires
        band.wf(),
        total.wf(),
    ensures
        match spec_desired_value(*c, goal, band, total) {
            Some(d) => r == Ok::<Dec, Error>(d) && d.wf(),
            None => r matches Err(e) && e is Calculation,
        },
{
    let db = match desired_bps_for_goal(c.target_bps, goal, band) {
        Ok(d) => d,
        Err(e) => return Err(e),
    };
    let f = match dec_checked_div(db, Dec::new(10000, 0)) {
        Some(f) => f,
        None => return Err(overflow("desired value")),
    };
    match dec_checked_mul(f, total) {
        Some(d) => Ok(d),
        None => Err(overflow("desired value")),
    }
}

/// One category's cap on fractional shares: a steered category the candidate is
/// exposed to, still below its desired value, caps the shares at what closes the gap.
pub open spec fn spec_cap_step(c: CategoryState, cand: AssetCandidate, values: Seq<(String, Dec)>, total: Dec, goal: RebalanceGoal, band: Dec, shares: Dec) -> Option<Dec> {
    let expo = value_of(cand.exposure_per_share@, c.category_id@);
    if !steered(c) || !has_key(cand.exposure_per_share@, c.category_id@) || units(expo) <= 0 {
        Some(shares)
    } else {
        match spec_desired_value(c, goal, band, total) {
            None => None,
            Some(dv) => {
                let base = value_of(values, c.category_id@);
                if units(base) < units(dv) {
                    match spec_checked_sub(dv, base) {
                        None => None,
                        Some(gap) => match spec_checked_div(gap, expo) {
                            None => None,
                            Some(cap) => Some(if units(cap) < units(shares) { cap } else { shares }),
                        },
                    }
                } else {
                    Some(shares)
                }
            },
        }
    }
}

/// The shares after the caps of the first `k` categories.
pub open spec fn spec_cap_fold(cand: AssetCandidate, cats: Seq<CategoryState>, values: Seq<(String, Dec)>, total: Dec, goal: RebalanceGoal, band: Dec, start: Dec, k: int) -> Option<Dec>
    decreases k,
{
    if k <= 0 {
        Some(start)
    } else {
        match spec_cap_fold(cand, cats, values, total, goal, band, start, k - 1) {
            None => None,
            Some(sh) => spec_cap_step(cats[k - 1], cand, values, total, goal, band, sh),
        }
    }
}

/// Fractional shares to score for a candidate: all the cash can buy, capped at the next
/// target (or band) bend of every steered category it is exposed to; zero when the
/// price or the cash is not positive.
pub open spec fn spec_cap_shares(cand: AssetCandidate, cash: Dec, values: Seq<(String, Dec)>, cats: Seq<CategoryState>, total: Dec, goal: RebalanceGoal, band: Dec) -> Option<Dec> {
    if units(cand.price) <= 0 || units(cash) <= 0 {
        Some(dec_zero())
    } else {
        match spec_checked_div(cash, cand.price) {
            None => None,
            Some(s0) => match spec_cap_fold(cand, cats, values, total, goal, band, s0, cats.len() as int) {
                None => None,
                Some(sh) => Some(dec_max(sh, dec_zero())),
            },
        }
    }
}

proof fn lemma_cap_fold_none_stays(cand: AssetCandidate, cats: Seq<CategoryState>, values: Seq<(String, Dec)>, total: Dec, goal: RebalanceGoal, band: Dec, start: Dec, k: int, n: int)
    requires
        0 <= k <= n,
        spec_cap_fold(cand, cats, values, total, goal, band, start, k) is None,
    ensures
        spec_cap_fold(cand, cats, values, total, goal, band, start, n) is None,
    decreases n - k,
{
    if k < n {
        lemma_cap_fold_none_stays(cand, cats, values, total, goal, band, start, k + 1, n);
    }
}

proof fn lemma_cap_step_lowers(c: CategoryState, cand: AssetCandidate, values: Seq<(String, Dec)>, total: Dec, goal: RebalanceGoal,
    band: Dec, shares: Dec)
    requires
        spec_cap_step(c, cand, values, total, goal, band, shares) is Some,
    ensures
        units(spec_cap_step(c, cand, values, total, goal, band, shares).unwrap()) <= units(shares),
{
}

proof fn lemma_cap_fold_below(cand: AssetCandidate, cats: Seq<CategoryState>, values: Seq<(String, Dec)>, total: Dec,
    goal: RebalanceGoal, band: Dec, start: Dec, k: int, j: int, dv: Dec, gap: Dec, cap: Dec)
    requires
        0 <= j < k <= cats.len(),
        cats[j].is_required,
        !cats[j].is_cash,
        has_key(cand.exposure_per_share@, cats[j].category_id@),
        units(value_of(cand.exposure_per_share@, cats[j].category_id@)) > 0,
        spec_desired_value(cats[j], goal, band, total) == Some(dv),
        units(value_of(values, cats[j].category_id@)) < units(dv),
        spec_checked_sub(dv, value_of(values, cats[j].category_id@)) == Some(gap),
        spec_checked_div(gap, value_of(cand.exposure_per_share@, cats[j].category_id@)) == Some(cap),
        spec_cap_fold(cand, cats, values, total, goal, band, start, k) is Some,
    ensures
        units(spec_cap_fold(cand, cats, values, total, goal, band, start, k).unwrap()) <= units(cap),
    decreases k,
{
    let prev = spec_cap_fold(cand, cats, values, total, goal, band, start, k - 1);
    assert(prev is Some);
    lemma_cap_step_lowers(cats[k - 1], cand, values, total, goal, band, prev.unwrap());
    if j < k - 1 {
        lemma_cap_fold_below(cand, cats, values, total, goal, band, start, k - 1, j, dv, gap, cap);
    }
}

proof fn lemma_cap_fold_below_start(cand: AssetCandidate, cats: Seq<CategoryState>, values: Seq<(String, Dec)>, total: Dec,
    goal: RebalanceGoal, band: Dec, start: Dec, k: int)
    requires
        0 <= k <= cats.len(),
        spec_cap_fold(cand, cats, values, total, goal, band, start, k) is Some,
    ensures
        units(spec_cap_fold(cand, cats, values, total, goal, band, start, k).unwrap()) <= units(start),
    decreases k,
{
    if k > 0 {
        let prev = spec_cap_fold(cand, cats, values, total, goal, band, start, k - 1);
        lemma_cap_fold_below_start(cand, cats, values, total, goal, band, start, k - 1);
        lemma_cap_step_lowers(cats[k - 1], cand, values, total, goal, band, prev.unwrap());
    }
}

/// Law: the fractional shares scored for a candidate are never negative and never
/// more than the cash buys at its price.
pub proof fn law_fractional_shares_within_cash(cand: AssetCandidate, cash: Dec, values: Seq<(String, Dec)>,
    cats: Seq<CategoryState>, total: Dec, goal: RebalanceGoal, band: Dec)
    ensures
        spec_cap_shares(cand, cash, values, cats, total, goal, band) matches Some(sh) ==> units(sh) >= 0
            && (units(cand.price) > 0 && units(cash) > 0 ==> (spec_checked_div(cash, cand.price) matches Some(s0)
                && (units(sh) <= units(s0) || units(sh) == 0))),
{
    if units(cand.price) > 0 && units(cash) > 0 {
        if let Some(s0) = spec_checked_div(cash, cand.price) {
            let n = cats.len() as int;
            if spec_cap_fold(cand, cats, values, total, goal, band, s0, n) is Some {
                lemma_cap_fold_below_start(cand, cats, values, total, goal, band, s0, n);
            }
        }
    }
}

/// Law: in fractional mode a buy stops at the next bend. For category `j`, required,
/// not cash, to which the candidate is exposed (a positive exposure per share) and which
/// is still below its desired value `dv`, the shares scored for the candidate with
/// positive cash and price are at most `cap`, the gap to `dv` over the exposure per
/// share (zero when that quotient is not positive).
pub proof fn law_fractional_shares_stop_at_the_bend(cand: AssetCandidate, cash: Dec, values: Seq<(String, Dec)>,
    cats: Seq<CategoryState>, total: Dec, goal: RebalanceGoal, band: Dec, j: int, dv: Dec, gap: Dec, cap: Dec)
    requires
        0 <= j < cats.len(),
        cats[j].is_required,
        !cats[j].is_cash,
        has_key(cand.exposure_per_share@, cats[j].category_id@),
        units(value_of(cand.exposure_per_share@, cats[j].category_id@)) > 0,
        spec_desired_value(cats[j], goal, band, total) == Some(dv),
        units(value_of(values, cats[j].category_id@)) < units(dv),
        spec_checked_sub(dv, value_of(values, cats[j].category_id@)) == Some(gap),
        spec_checked_div(gap, value_of(cand.exposure_per_share@, cats[j].category_id@)) == Some(cap),
        units(cand.price) > 0,
        units(cash) > 0,
    ensures
        spec_cap_shares(cand, cash, values, cats, total, goal, band) matches Some(sh) ==> units(sh) <= units(cap) || units(sh) == 0,
{
    if let Some(s0) = spec_checked_div(cash, cand.price) {
        let n = cats.len() as int;
        if spec_cap_fold(cand, cats, values, total, goal, band, s0, n) is Some {
            lemma_cap_fold_below(cand, cats, values, total, goal, band, s0, n, j, dv, gap, cap);
        }
    }
}

/// Fractional shares of a candidate worth scoring.
pub fn cap_fractional_shares_to_next_bend(
    cand: &AssetCandidate,
    cash: Dec,
    values: &Vec<(String, Dec)>,
    cats: &Vec<CategoryState>,
    total: Dec,
    goal: RebalanceGoal,
    band: Dec,
) -> (r: Result<Dec, Error>)
    requires
        candidate_wf(*cand),
        cash.wf(),
        keys_unique(values@),
        values_wf(values@),
        total.wf(),
        band.wf(),
    ensures
        match spec_cap_shares(*cand, cash, values@, cats@, total, goal, band) {
            Some(d) => r == Ok::<Dec, Error>(d) && d.wf(),
            None => r matches Err(e) && e is Calculation,
        },
{
    let zero = Dec::zero();
    if !dec_lt(zero, cand.price) || !dec_lt(zero, cash) {
        return Ok(zero);
    }
    let s0 = match dec_checked_div(cash, cand.price) {
        Some(v) => v,
        None => return Err(overflow("fractional shares")),
    };
    let mut shares = s0;
    let mut k: usize = 0;
    while k < cats.len()
        invariant
            k <= cats@.len(),
            candidate_wf(*cand),
            keys_unique(values@),
            values_wf(values@),
            total.wf(),
            band.wf(),
            zero == dec_zero(),
            shares.wf(),
            units(cand.price) > 0,
            units(cash) > 0,
            spec_checked_div(cash, cand.price) == Some(s0),
            spec_cap_fold(*cand, cats@, values@, total, goal, band, s0, k as int) == Some(shares),
        decreases cats@.len() - k,
    {
        let c = &cats[k];
        if c.is_required && !c.is_cash {
            match find_key(&cand.exposure_per_share, c.category_id.as_str()) {
                Some(ei) => {
                    let expo = cand.exposure_per_share[ei].1;
                    proof {
                        assert(has_key(cand.exposure_per_share@, c.category_id@));
                        assert(expo == value_of(cand.exposure_per_share@, c.category_id@));
                    }
                    if dec_lt(zero, expo) {
                        let dv = match desired_value(c, goal, band, total) {
                            Ok(v) => v,
                            Err(e) => {
                                proof { lemma_cap_fold_none_stays(*cand, cats@, values@, total, goal, band, s0, k + 1, cats@.len() as int); }
                                return Err(e);
                            },
                        };
                        let base = get_value(values, c.category_id.as_str());
                        if dec_lt(base, dv) {
                            let gap = match dec_checked_sub(dv, base) {
                                Some(v) => v,
                                None => {
                                    proof { lemma_cap_fold_none_stays(*cand, cats@, values@, total, goal, band, s0, k + 1, cats@.len() as int); }
                                    return Err(overflow("fractional cap"));
                                },
                            };
                            let cap = match dec_checked_div(gap, expo) {
                                Some(v) => v,
                                None => {
                                    proof { lemma_cap_fold_none_stays(*cand, cats@, values@, total, goal, band, s0, k + 1, cats@.len() as int); }
                                    return Err(overflow("fractional cap"));
                                },
                            };
                            if dec_lt(cap, shares) {
                                shares = cap;
                            }
                        }
                    }
                },
                None => {},
            }
        }
        k = k + 1;
    }
    Ok(dec_max_exec(shares, zero))
}


// ── Scoring ──────────────────────────────────────────────────────────────────

/// The exposure of buying `shares`: each entry's value times the shares, `None` when a
/// product overflows.
pub open spec fn spec_scaled(exposure: Seq<(String, Dec)>, shares: Dec) -> Option<Seq<(String, Dec)>> {
    if forall|i: int| 0 <= i < exposure.len() ==> (#[trigger] spec_checked_mul(exposure[i].1, shares)) is Some {
        Some(Seq::new(exposure.len(), |i: int| (exposure[i].0, spec_checked_mul(exposure[i].1, shares).unwrap())))
    } else {
        None
    }
}

/// How a candidate scores: `None` when a step overflows, `Some(None)` when it is not
/// worth buying (too dear for the cash, no fractional room, or no drift removed), else
/// the drift removed per unit of cash and the shares scored.
pub open spec fn spec_score(
    cand: AssetCandidate,
    whole: bool,
    cash: Dec,
    values: Seq<(String, Dec)>,
    cats: Seq<CategoryState>,
    total: Dec,
    goal: RebalanceGoal,
    band: Dec,
    before: Dec,
) -> Option<Option<(Dec, Dec)>> {
    let bought: Option<Option<(Dec, Dec, Seq<(String, Dec)>)>> = if whole {
        if units(cash) < units(cand.price) {
            Some(None)
        } else {
            Some(Some((Dec { mantissa: 1, scale: 0 }, cand.price, cand.exposure_per_share@)))
        }
    } else {
        match spec_cap_shares(cand, cash, values, cats, total, goal, band) {
            None => None,
            Some(sh) => if units(sh) <= 0 {
                Some(None)
            } else {
                match spec_checked_mul(cand.price, sh) {
                    None => None,
                    Some(amount) => match spec_scaled(cand.exposure_per_share@, sh) {
                        None => None,
                        Some(ex) => Some(Some((sh, amount, ex))),
                    },
                }
            },
        }
    };
    match bought {
        None => None,
        Some(None) => Some(None),
        Some(Some((sh, amount, ex))) => match spec_total_drift_with(values, ex, cats, total, goal, band) {
            None => None,
            Some(after) => match spec_checked_sub(before, after) {
                None => None,
                Some(imp) => if units(imp) <= 0 {
                    Some(None)
                } else {
                    match spec_checked_div(imp, amount) {
                        None => None,
                        Some(score) => Some(Some((score, sh))),
                    }
                },
            },
        },
    }
}

/// The best candidate among the first `k` in `order`: the first with the highest
/// positive score, with its score and shares; and (in whole-share mode) how many
/// candidates remove drift at all.
pub open spec fn spec_pick(
    order: Seq<usize>,
    cands: Seq<AssetCandidate>,
    whole: bool,
    cash: Dec,
    values: Seq<(String, Dec)>,
    cats: Seq<CategoryState>,
    total: Dec,
    goal: RebalanceGoal,
    band: Dec,
    before: Dec,
    k: int,
) -> Option<(Option<(int, Dec, Dec)>, nat)>
    decreases k,
{
    if k <= 0 {
        Some((None, 0))
    } else {
        match spec_pick(order, cands, whole, cash, values, cats, total, goal, band, before, k - 1) {
            None => None,
            Some((best, count)) => match spec_score(cands[order[k - 1] as int], whole, cash, values, cats, total, goal, band, before) {
                None => None,
                Some(None) => Some((best, count)),
                Some(Some((score, sh))) => {
                    let count2: nat = if whole { count + 1 } else { count };
                    let top = match best { Some(b) => units(b.1), None => 0 };
                    Some((if units(score) > top { Some((k - 1, score, sh)) } else { best }, count2))
                },
            },
        }
    }
}

proof fn lemma_pick_none_stays(order: Seq<usize>, cands: Seq<AssetCandidate>, whole: bool, cash: Dec, values: Seq<(String, Dec)>, cats: Seq<CategoryState>, total: Dec, goal: RebalanceGoal, band: Dec, before: Dec, k: int, n: int)
    requires
        0 <= k <= n,
        spec_pick(order, cands, whole, cash, values, cats, total, goal, band, before, k) is None,
    ensures
        spec_pick(order, cands, whole, cash, values, cats, total, goal, band, before, n) is None,
    decreases n - k,
{
    if k < n {
        lemma_pick_none_stays(order, cands, whole, cash, values, cats, total, goal, band, before, k + 1, n);
    }
}

/// `order` lists candidate indices.
pub open spec fn order_ok(order: Seq<usize>, n: int) -> bool {
    forall|i: int| 0 <= i < order.len() ==> (#[trigger] order[i]) < n
}


fn score_candidate(
    cand: &AssetCandidate,
    whole: bool,
    cash: Dec,
    values: &Vec<(String, Dec)>,
    cats: &Vec<CategoryState>,
    total: Dec,
    goal: RebalanceGoal,
    band: Dec,
    before: Dec,
) -> (r: Result<Option<(Dec, Dec)>, Error>)
    requires
        candidate_wf(*cand),
        cash.wf(),
        keys_unique(values@),
        values_wf(values@),
        total.wf(),
        band.wf(),
        before.wf(),
    ensures
        match spec_score(*cand, whole, cash, values@, cats@, total, goal, band, before) {
            None => r matches Err(e) && e is Calculation,
            Some(o) => r == Ok::<Option<(Dec, Dec)>, Error>(o) && (o matches Some(p) ==> p.0.wf() && p.1.wf()),
        },
{
    let (sh, amount, ex) = if whole {
        if dec_lt(cash, cand.price) {
            return Ok(None);
        }
        let mut ex: Vec<(String, Dec)> = Vec::new();
        let mut k: usize = 0;
        while k < cand.exposure_per_share.len()
            invariant
                k <= cand.exposure_per_share@.len(),
                ex@ == cand.exposure_per_share@.take(k as int),
            decreases cand.exposure_per_share@.len() - k,
        {
            ex.push((cand.exposure_per_share[k].0.clone(), cand.exposure_per_share[k].1));
            proof {
                assert(cand.exposure_per_share@.take(k + 1) =~= cand.exposure_per_share@.take(k as int).push(cand.exposure_per_share@[k as int]));
            }
            k = k + 1;
        }
        proof {
            assert(cand.exposure_per_share@.take(cand.exposure_per_share@.len() as int) =~= cand.exposure_per_share@);
        }
        (Dec::one(), cand.price, ex)
    } else {
        let sh = match cap_fractional_shares_to_next_bend(cand, cash, values, cats, total, goal, band) {
            Ok(v) => v,
            Err(e) => return Err(e),
        };
        if !dec_lt(Dec::zero(), sh) {
            return Ok(None);
        }
        let amount = match dec_checked_mul(cand.price, sh) {
            Some(v) => v,
            None => return Err(overflow("candidate amount")),
        };
        let ex = match exposure_delta(&cand.exposure_per_share, sh) {
            Ok(v) => v,
            Err(e) => return Err(e),
        };
        (sh, amount, ex)
    };
    let after = match total_drift_with_buy(values, cats, total, &ex, goal, band) {
        Ok(v) => v,
        Err(e) => return Err(e),
    };
    let imp = match dec_checked_sub(before, after) {
        Some(v) => v,
        None => return Err(overflow("drift improvement")),
    };
    if !dec_lt(Dec::zero(), imp) {
        return Ok(None);
    }
    match dec_checked_div(imp, amount) {
        Some(score) => Ok(Some((score, sh))),
        None => Err(overflow("candidate score")),
    }
}

/// The best candidate to buy next, in the given order, with its score and shares, and
/// how many candidates remove drift at all (whole-share mode).
pub fn pick_best(
    order: &Vec<usize>,
    cands: &Vec<AssetCandidate>,
    whole: bool,
    cash: Dec,
    values: &Vec<(String, Dec)>,
    cats: &Vec<CategoryState>,
    total: Dec,
    goal: RebalanceGoal,
    band: Dec,
    before: Dec,
) -> (r: Result<(Option<(usize, Dec, Dec)>, usize), Error>)
    requires
        order_ok(order@, cands@.len() as int),
        candidates_wf(cands@),
        cash.wf(),
        keys_unique(values@),
        values_wf(values@),
        total.wf(),
        band.wf(),
        before.wf(),
    ensures
        match spec_pick(order@, cands@, whole, cash, values@, cats@, total, goal, band, before, order@.len() as int) {
            None => r matches Err(e) && e is Calculation,
            Some((best, count)) => r matches Ok(p) && p.1 == count && match best {
                None => p.0 is None,
                Some(b) => p.0 matches Some(q) && q.0 == b.0 && q.1 == b.1 && q.2 == b.2 && q.0 < order@.len()
                    && q.2.wf(),
            },
        },
{
    let mut best: Option<(usize, Dec, Dec)> = None;
    let mut count: usize = 0;
    let mut k: usize = 0;
    while k < order.len()
        invariant
            k <= order@.len(),
            order_ok(order@, cands@.len() as int),
            candidates_wf(cands@),
            cash.wf(),
            keys_unique(values@),
            values_wf(values@),
            total.wf(),
            band.wf(),
            before.wf(),
            count <= k,
            spec_pick(order@, cands@, whole, cash, values@, cats@, total, goal, band, before, k as int) matches Some((b, c))
                && c == count && match b {
                    None => best is None,
                    Some(bb) => best matches Some(q) && q.0 == bb.0 && q.1 == bb.1 && q.2 == bb.2 && q.0 < k && q.1.wf() && q.2.wf(),
                },
        decreases order@.len() - k,
    {
        let ci = order[k];
        proof {
            assert(order@[k as int] < cands@.len());
            assert(candidate_wf(cands@[ci as int]));
        }
        let scored = match score_candidate(&cands[ci], whole, cash, values, cats, total, goal, band, before) {
            Ok(v) => v,
            Err(e) => {
                proof {
                    lemma_pick_none_stays(order@, cands@, whole, cash, values@, cats@, total, goal, band, before, k + 1, order@.len() as int);
                }
                return Err(e);
            },
        };
        match scored {
            None => {},
            Some((score, sh)) => {
                if whole {
                    count = count + 1;
                }
                let top = match best {
                    Some(b) => b.1,
                    None => Dec::zero(),
                };
                if dec_lt(top, score) {
                    best = Some((k, score, sh));
                }
            },
        }
        k = k + 1;
    }
    Ok((best, count))
}


// ── Candidate order ──────────────────────────────────────────────────────────

/// `a` comes before `b` in the lexicographic order of their characters.
pub open spec fn text_less(a: Seq<char>, b: Seq<char>) -> bool {
    exists|i: int| 0 <= i <= a.len() && i <= b.len() && a.subrange(0, i) == b.subrange(0, i)
        && ((i == a.len() && i < b.len()) || (i < a.len() && i < b.len() && a[i] < b[i]))
}

fn str_less(a: &str, b: &str) -> (r: bool)
    ensures
        r == text_less(a@, b@),
{
    let n = a.unicode_len();
    let m = b.unicode_len();
    let mut i: usize = 0;
    while i < n && i < m && a.get_char(i) == b.get_char(i)
        invariant
            n == a@.len(),
            m == b@.len(),
            i <= n,
            i <= m,
            a@.subrange(0, i as int) == b@.subrange(0, i as int),
        decreases n - i,
    {
        proof {
            assert(a@.subrange(0, i + 1) =~= a@.subrange(0, i as int).push(a@[i as int]));
            assert(b@.subrange(0, i + 1) =~= b@.subrange(0, i as int).push(b@[i as int]));
        }
        i = i + 1;
    }
    let r = if i < n && i < m {
        a.get_char(i) < b.get_char(i)
    } else {
        i == n && i < m
    };
    proof {
        if r {
            assert(0 <= i <= a@.len() && i <= b@.len() && a@.subrange(0, i as int) == b@.subrange(0, i as int));
        } else {
            assert forall|j: int| 0 <= j <= a@.len() && j <= b@.len() && a@.subrange(0, j) == b@.subrange(0, j)
                implies !((j == a@.len() && j < b@.len()) || (j < a@.len() && j < b@.len() && a@[j] < b@[j])) by {
                if j < i {
                    assert(a@.subrange(0, i as int)[j] == a@[j]);
                    assert(b@.subrange(0, i as int)[j] == b@[j]);
                } else if j > i {
                    assert(a@.subrange(0, j)[i as int] == a@[i as int]);
                    assert(b@.subrange(0, j)[i as int] == b@[i as int]);
                }
            }
        }
    }
    r
}

/// Candidates are ordered by price, then symbol, then asset id.
pub open spec fn cand_less(a: AssetCandidate, b: AssetCandidate) -> bool {
    units(a.price) < units(b.price) || (units(a.price) == units(b.price) && (text_less(a.symbol@, b.symbol@)
        || (a.symbol@ == b.symbol@ && text_less(a.asset_id@, b.asset_id@))))
}

fn cand_less_exec(a: &AssetCandidate, b: &AssetCandidate) -> (r: bool)
    requires
        a.price.wf(),
        b.price.wf(),
    ensures
        r == cand_less(*a, *b),
{
    if dec_lt(a.price, b.price) {
        return true;
    }
    if dec_lt(b.price, a.price) {
        return false;
    }
    if str_less(a.symbol.as_str(), b.symbol.as_str()) {
        return true;
    }
    crate::model::str_eq(a.symbol.as_str(), b.symbol.as_str()) && str_less(a.asset_id.as_str(), b.asset_id.as_str())
}

/// Index `x` is somewhere in the order.
pub open spec fn order_has(order: Seq<usize>, x: int) -> bool {
    exists|j: int| 0 <= j < order.len() && order[j] as int == x
}

/// The order in which candidates are considered: every index once, cheapest first,
/// then by symbol and asset id.
pub open spec fn candidate_order_ok(order: Seq<usize>, cands: Seq<AssetCandidate>) -> bool {
    &&& order.len() == cands.len()
    &&& order_ok(order, cands.len() as int)
    &&& forall|x: int| 0 <= x < cands.len() ==> #[trigger] order_has(order, x)
    &&& forall|a: int, b: int| 0 <= a < b < order.len() ==> (#[trigger] order[a]) != (#[trigger] order[b])
    &&& forall|a: int, b: int| 0 <= a < b < order.len() ==> !cand_less(cands[order[b] as int], cands[order[a] as int])
    &&& forall|a: int, b: int| 0 <= a < b < order.len() && !cand_less(cands[order[a] as int], cands[order[b] as int])
        ==> (#[trigger] order[a]) < (#[trigger] order[b])
}

/// Orders the candidates by price, symbol and asset id, keeping the given order among
/// equals.
pub fn candidate_order(cands: &Vec<AssetCandidate>) -> (order: Vec<usize>)
    requires
        candidates_wf(cands@),
    ensures
        candidate_order_ok(order@, cands@),
{
    let mut order: Vec<usize> = Vec::new();
    let mut k: usize = 0;
    while k < cands.len()
        invariant
            k <= cands@.len(),
            candidates_wf(cands@),
            order@.len() == k,
            forall|i: int| 0 <= i < order@.len() ==> (#[trigger] order@[i]) < k,
            forall|a: int, b: int| 0 <= a < b < order@.len() ==> (#[trigger] order@[a]) != (#[trigger] order@[b]),
            forall|a: int, b: int| 0 <= a < b < order@.len() ==> !cand_less(cands@[order@[b] as int], cands@[order@[a] as int]),
            forall|a: int, b: int| 0 <= a < b < order@.len() && !cand_less(cands@[order@[a] as int], cands@[order@[b] as int])
                ==> (#[trigger] order@[a]) < (#[trigger] order@[b]),
            forall|x: int| 0 <= x < k ==> #[trigger] order_has(order@, x),
        decreases cands@.len() - k,
    {
        let mut p: usize = order.len();
        while p > 0 && cand_less_exec(&cands[k], &cands[order[p - 1]])
            invariant
                p <= order@.len(),
                k < cands@.len(),
                candidates_wf(cands@),
                forall|i: int| 0 <= i < order@.len() ==> (#[trigger] order@[i]) < k,
                forall|q: int| p <= q < order@.len() ==> cand_less(cands@[k as int], cands@[order@[q] as int]),
            decreases p,
        {
            p = p - 1;
        }
        let ghost old_order = order@;
        order.insert(p, k);
        proof {
            assert forall|x: int| 0 <= x < k + 1 implies #[trigger] order_has(order@, x) by {
                if x == k {
                    assert(order@[p as int] as int == x);
                } else {
                    assert(order_has(old_order, x));
                    let j = choose|j: int| 0 <= j < old_order.len() && old_order[j] as int == x;
                    if j < p {
                        assert(order@[j] == old_order[j]);
                    } else {
                        assert(order@[j + 1] == old_order[j]);
                    }
                }
            }
            assert forall|i: int| 0 <= i < order@.len() implies (#[trigger] order@[i]) < k + 1 by {
                if i < p { assert(order@[i] == old_order[i]); } else if i > p { assert(order@[i] == old_order[i - 1]); }
            }
            assert forall|a: int, b: int| 0 <= a < b < order@.len() implies (#[trigger] order@[a]) != (#[trigger] order@[b]) by {
                if a < p && b < p {
                    assert(order@[a] == old_order[a] && order@[b] == old_order[b]);
                } else if a < p && b == p {
                    assert(order@[a] == old_order[a]);
                } else if a < p {
                    assert(order@[a] == old_order[a] && order@[b] == old_order[b - 1]);
                } else if a == p {
                    assert(order@[b] == old_order[b - 1]);
                } else {
                    assert(order@[a] == old_order[a - 1] && order@[b] == old_order[b - 1]);
                }
            }
            assert forall|a: int, b: int| 0 <= a < b < order@.len() implies !cand_less(cands@[order@[b] as int], cands@[order@[a] as int]) by {
                if a < p && b < p {
                    assert(order@[a] == old_order[a] && order@[b] == old_order[b]);
                } else if a < p && b == p {
                    assert(order@[a] == old_order[a]);
                    assert(old_order[p - 1] == order@[p - 1]);
                    lemma_cand_order_chain(cands@, old_order, a, p as int, k as int);
                } else if a < p {
                    assert(order@[a] == old_order[a] && order@[b] == old_order[b - 1]);
                } else if a == p {
                    assert(order@[b] == old_order[b - 1]);
                    assert(cand_less(cands@[k as int], cands@[old_order[b - 1] as int]));
                    lemma_cand_less_asym(cands@[k as int], cands@[old_order[b - 1] as int]);
                } else {
                    assert(order@[a] == old_order[a - 1] && order@[b] == old_order[b - 1]);
                }
            }
            assert forall|a: int, b: int| 0 <= a < b < order@.len() && !cand_less(cands@[order@[a] as int], cands@[order@[b] as int])
                implies (#[trigger] order@[a]) < (#[trigger] order@[b]) by {
                if a < p && b < p {
                    assert(order@[a] == old_order[a] && order@[b] == old_order[b]);
                } else if a < p && b == p {
                    assert(order@[a] == old_order[a]);
                } else if a < p {
                    assert(order@[a] == old_order[a] && order@[b] == old_order[b - 1]);
                } else if a == p {
                    assert(order@[b] == old_order[b - 1]);
                } else {
                    assert(order@[a] == old_order[a - 1] && order@[b] == old_order[b - 1]);
                }
            }
        }
        k = k + 1;
    }
    order
}

/// Law: the order in which candidates are considered is unique. Two orders that both
/// take every index once, cheapest first, then by symbol and asset id, keeping the
/// given order among equals, are the same.
pub proof fn law_candidate_order_unique(o1: Seq<usize>, o2: Seq<usize>, cands: Seq<AssetCandidate>)
    requires
        candidate_order_ok(o1, cands),
        candidate_order_ok(o2, cands),
    ensures
        o1 == o2,
{
    lemma_orders_agree_below(o1, o2, cands, o1.len() as int);
    assert(o1 =~= o2);
}

proof fn lemma_orders_agree_below(o1: Seq<usize>, o2: Seq<usize>, cands: Seq<AssetCandidate>, i: int)
    requires
        candidate_order_ok(o1, cands),
        candidate_order_ok(o2, cands),
        0 <= i <= o1.len(),
    ensures
        forall|g: int| 0 <= g < i ==> o1[g] == o2[g],
    decreases i,
{
    if i > 0 {
        let k = i - 1;
        lemma_orders_agree_below(o1, o2, cands, k);
        let x = o1[k];
        let y = o2[k];
        if x != y {
            assert(x < cands.len() && y < cands.len());
            assert(order_has(o2, x as int));
            let j = choose|j: int| 0 <= j < o2.len() && o2[j] as int == x as int;
            if j < k {
                assert(o1[j] == o2[j]);
                assert(o1[j] != o1[k]);
            }
            assert(order_has(o1, y as int));
            let jj = choose|j: int| 0 <= j < o1.len() && o1[j] as int == y as int;
            if jj < k {
                assert(o1[jj] == o2[jj]);
                assert(o2[jj] != o2[k]);
            }
            assert(k < j && k < jj);
            assert(!cand_less(cands[o1[jj] as int], cands[o1[k] as int]));
            assert(!cand_less(cands[o2[j] as int], cands[o2[k] as int]));
            assert(!cand_less(cands[o1[k] as int], cands[o1[jj] as int]) ==> o1[k] < o1[jj]);
            assert(!cand_less(cands[o2[k] as int], cands[o2[j] as int]) ==> o2[k] < o2[j]);
        }
    }
}

proof fn lemma_text_less_asym(a: Seq<char>, b: Seq<char>)
    requires
        text_less(a, b),
    ensures
        !text_less(b, a),
        a != b,
{
    let i = choose|i: int| 0 <= i <= a.len() && i <= b.len() && a.subrange(0, i) == b.subrange(0, i)
        && ((i == a.len() && i < b.len()) || (i < a.len() && i < b.len() && a[i] < b[i]));
    if text_less(b, a) {
        let j = choose|j: int| 0 <= j <= b.len() && j <= a.len() && b.subrange(0, j) == a.subrange(0, j)
            && ((j == b.len() && j < a.len()) || (j < b.len() && j < a.len() && b[j] < a[j]));
        if i < j {
            assert(b.subrange(0, j)[i] == a.subrange(0, j)[i]);
        } else if j < i {
            assert(a.subrange(0, i)[j] == b.subrange(0, i)[j]);
        }
    }
    if a == b {
        assert(a.len() == b.len());
    }
}

proof fn lemma_cand_less_asym(a: AssetCandidate, b: AssetCandidate)
    requires
        cand_less(a, b),
    ensures
        !cand_less(b, a),
{
    if text_less(a.symbol@, b.symbol@) {
        lemma_text_less_asym(a.symbol@, b.symbol@);
    }
    if text_less(a.asset_id@, b.asset_id@) {
        lemma_text_less_asym(a.asset_id@, b.asset_id@);
    }
}

proof fn lemma_cand_order_chain(cands: Seq<AssetCandidate>, order: Seq<usize>, a: int, p: int, k: int)
    requires
        0 <= a < p <= order.len(),
        0 <= k < cands.len(),
        forall|i: int| 0 <= i < order.len() ==> (#[trigger] order[i]) < cands.len(),
        forall|x: int, y: int| 0 <= x < y < order.len() ==> !cand_less(cands[order[y] as int], cands[order[x] as int]),
        !cand_less(cands[k], cands[order[p - 1] as int]),
    ensures
        !cand_less(cands[k], cands[order[a] as int]),
{
    if a < p - 1 {
        lemma_cand_not_less_trans(cands[k], cands[order[p - 1] as int], cands[order[a] as int]);
    }
}

proof fn lemma_text_less_trans(a: Seq<char>, b: Seq<char>, c: Seq<char>)
    requires
        text_less(a, b),
        text_less(b, c),
    ensures
        text_less(a, c),
{
    let i = choose|i: int| 0 <= i <= a.len() && i <= b.len() && a.subrange(0, i) == b.subrange(0, i)
        && ((i == a.len() && i < b.len()) || (i < a.len() && i < b.len() && a[i] < b[i]));
    let j = choose|j: int| 0 <= j <= b.len() && j <= c.len() && b.subrange(0, j) == c.subrange(0, j)
        && ((j == b.len() && j < c.len()) || (j < b.len() && j < c.len() && b[j] < c[j]));
    let m = if i < j { i } else { j };
    assert(a.subrange(0, m) =~= c.subrange(0, m)) by {
        assert forall|q: int| 0 <= q < m implies a.subrange(0, m)[q] == c.subrange(0, m)[q] by {
            assert(a.subrange(0, i)[q] == b.subrange(0, i)[q]);
            assert(b.subrange(0, j)[q] == c.subrange(0, j)[q]);
        }
    }
    if i < j {
        assert(b.subrange(0, j)[i] == c.subrange(0, j)[i]);
    } else if j < i {
        assert(a.subrange(0, i)[j] == b.subrange(0, i)[j]);
    }
}

/// Not-less is transitive: `!(a < b)` and `!(b < c)` give `!(a < c)` for this total
/// preorder.
proof fn lemma_cand_not_less_trans(a: AssetCandidate, b: AssetCandidate, c: AssetCandidate)
    requires
        !cand_less(a, b),
        !cand_less(b, c),
    ensures
        !cand_less(a, c),
{
    if cand_less(a, c) {
        lemma_cand_total(a, b);
        lemma_cand_total(b, c);
        if units(a.price) == units(b.price) && units(b.price) == units(c.price) {
            if a.symbol@ == b.symbol@ {
                if b.symbol@ == c.symbol@ {
                    lemma_text_total(a.asset_id@, b.asset_id@);
                    lemma_text_total(b.asset_id@, c.asset_id@);
                    if text_less(b.asset_id@, a.asset_id@) && text_less(c.asset_id@, b.asset_id@) {
                        lemma_text_less_trans(c.asset_id@, b.asset_id@, a.asset_id@);
                        lemma_text_less_asym(c.asset_id@, a.asset_id@);
                    }
                } else {
                    lemma_text_total(b.symbol@, c.symbol@);
                    if text_less(c.symbol@, b.symbol@) {
                        lemma_text_less_asym(c.symbol@, b.symbol@);
                    }
                }
            } else {
                lemma_text_total(a.symbol@, b.symbol@);
                lemma_text_total(b.symbol@, c.symbol@);
                if text_less(b.symbol@, a.symbol@) {
                    if text_less(c.symbol@, b.symbol@) {
                        lemma_text_less_trans(c.symbol@, b.symbol@, a.symbol@);
                        lemma_text_less_asym(c.symbol@, a.symbol@);
                    } else if c.symbol@ == b.symbol@ {
                        lemma_text_less_asym(b.symbol@, a.symbol@);
                    }
                }
            }
        }
    }
}

proof fn lemma_text_total(a: Seq<char>, b: Seq<char>)
    ensures
        a == b || text_less(a, b) || text_less(b, a),
{
    let n = if a.len() < b.len() { a.len() as int } else { b.len() as int };
    if forall|q: int| 0 <= q < n ==> a[q] == b[q] {
        assert(a.subrange(0, n) =~= b.subrange(0, n));
        if a.len() == b.len() {
            assert(a =~= b);
        }
    } else {
        let q0 = choose|q: int| 0 <= q < n && a[q] != b[q];
        lemma_first_difference(a, b, n, q0);
    }
}

proof fn lemma_first_difference(a: Seq<char>, b: Seq<char>, n: int, q0: int)
    requires
        n <= a.len(),
        n <= b.len(),
        0 <= q0 < n,
        a[q0] != b[q0],
    ensures
        text_less(a, b) || text_less(b, a),
    decreases q0,
{
    if exists|q: int| 0 <= q < q0 && a[q] != b[q] {
        let q1 = choose|q: int| 0 <= q < q0 && a[q] != b[q];
        lemma_first_difference(a, b, n, q1);
    } else {
        assert(a.subrange(0, q0) =~= b.subrange(0, q0));
    }
}

proof fn lemma_cand_total(a: AssetCandidate, b: AssetCandidate)
    ensures
        cand_less(a, b) || cand_less(b, a) || (units(a.price) == units(b.price) && a.symbol@ == b.symbol@ && a.asset_id@ == b.asset_id@),
{
    lemma_text_total(a.symbol@, b.symbol@);
    lemma_text_total(a.asset_id@, b.asset_id@);
}


// ── The greedy loop ──────────────────────────────────────────────────────────

/// Measure of the cash left to spend.
pub open spec fn cash_measure(d: Dec) -> int {
    if units(d) > 0 { units(d) } else { 0 }
}

/// Index of the entry with the id (meaningful when there is one).
pub open spec fn key_index(m: Seq<(String, Dec)>, id: Seq<char>) -> int {
    choose|i: int| 0 <= i < m.len() && (#[trigger] m[i]).0@ == id
}

/// The values with `x` added to the entry of `key`, or a new entry `key` holding `x`
/// appended; `None` when the sum overflows.
pub open spec fn spec_add_keyed(m: Seq<(String, Dec)>, key: String, x: Dec) -> Option<Seq<(String, Dec)>> {
    match spec_checked_add(value_of(m, key@), x) {
        None => None,
        Some(sum) => Some(if has_key(m, key@) {
            m.update(key_index(m, key@), (m[key_index(m, key@)].0, sum))
        } else {
            m.push((key, sum))
        }),
    }
}

/// The values after adding `x` times each of the first `k` exposures, in order; `None`
/// on overflow.
pub open spec fn spec_add_exposure(m: Seq<(String, Dec)>, exposure: Seq<(String, Dec)>, x: Dec, k: int) -> Option<Seq<(String, Dec)>>
    decreases k,
{
    if k <= 0 {
        Some(m)
    } else {
        match spec_add_exposure(m, exposure, x, k - 1) {
            None => None,
            Some(m2) => match spec_checked_mul(exposure[k - 1].1, x) {
                None => None,
                Some(d) => spec_add_keyed(m2, exposure[k - 1].0, d),
            },
        }
    }
}

proof fn lemma_add_exposure_none_stays(m: Seq<(String, Dec)>, exposure: Seq<(String, Dec)>, x: Dec, k: int, n: int)
    requires
        0 <= k <= n,
        spec_add_exposure(m, exposure, x, k) is None,
    ensures
        spec_add_exposure(m, exposure, x, n) is None,
    decreases n - k,
{
    if k < n {
        lemma_add_exposure_none_stays(m, exposure, x, k + 1, n);
    }
}

/// Adds `x` to the value of `key`, appending an entry for it when it has none.
fn add_keyed_value(m: &mut Vec<(String, Dec)>, key: &String, x: Dec) -> (r: Result<(), Error>)
    requires
        keys_unique(old(m)@),
        values_wf(old(m)@),
        x.wf(),
    ensures
        match spec_add_keyed(old(m)@, *key, x) {
            Some(m2) => r is Ok && final(m)@ == m2,
            None => r matches Err(e) && e is Calculation,
        },
        r is Ok ==> keys_unique(final(m)@) && values_wf(final(m)@),
{
    let ghost m0 = m@;
    match find_key(m, key.as_str()) {
        Some(i) => {
            let cur = m[i].1;
            let sum = match dec_checked_add(cur, x) {
                Some(v) => v,
                None => return Err(overflow("category value")),
            };
            let k = m[i].0.clone();
            m.set(i, (k, sum));
            proof {
                assert(has_key(m0, key@));
                let c = key_index(m0, key@);
                if c != i {
                    if c < i { assert(m0[c].0@ != m0[i as int].0@); } else { assert(m0[i as int].0@ != m0[c].0@); }
                }
                assert(m@ =~= m0.update(i as int, (m0[i as int].0, sum)));
                assert forall|a: int, b: int| 0 <= a < b < m@.len() implies (#[trigger] m@[a]).0@ != (#[trigger] m@[b]).0@ by {
                    assert(m0[a].0@ != m0[b].0@);
                }
                assert forall|j: int| 0 <= j < m@.len() implies (#[trigger] m@[j]).1.wf() by {
                    if j != i { assert(m@[j] == m0[j]); }
                }
            }
            Ok(())
        },
        None => {
            let sum = match dec_checked_add(Dec::zero(), x) {
                Some(v) => v,
                None => return Err(overflow("category value")),
            };
            m.push((key.clone(), sum));
            proof {
                assert forall|a: int, b: int| 0 <= a < b < m@.len() implies (#[trigger] m@[a]).0@ != (#[trigger] m@[b]).0@ by {
                    if b < m0.len() {
                        assert(m0[a].0@ != m0[b].0@);
                    } else {
                        assert(m@[a] == m0[a]);
                        assert(m0[a].0@ != key@);
                    }
                }
                assert forall|j: int| 0 <= j < m@.len() implies (#[trigger] m@[j]).1.wf() by {
                    if j < m0.len() { assert(m@[j] == m0[j]); }
                }
            }
            Ok(())
        },
    }
}

/// Adds `x` times each exposure of the candidate to the category values.
fn add_exposure(values: &mut Vec<(String, Dec)>, exposure: &Vec<(String, Dec)>, x: Dec) -> (r: Result<(), Error>)
    requires
        keys_unique(old(values)@),
        values_wf(old(values)@),
        keys_unique(exposure@),
        values_wf(exposure@),
        x.wf(),
    ensures
        match spec_add_exposure(old(values)@, exposure@, x, exposure@.len() as int) {
            Some(m2) => r is Ok && final(values)@ == m2,
            None => r matches Err(e) && e is Calculation,
        },
        r is Ok ==> keys_unique(final(values)@) && values_wf(final(values)@),
{
    let ghost m0 = values@;
    let mut k: usize = 0;
    while k < exposure.len()
        invariant
            k <= exposure@.len(),
            keys_unique(values@),
            values_wf(values@),
            keys_unique(exposure@),
            values_wf(exposure@),
            x.wf(),
            spec_add_exposure(m0, exposure@, x, k as int) == Some(values@),
            m0 == old(values)@,
        decreases exposure@.len() - k,
    {
        let d = match dec_checked_mul(exposure[k].1, x) {
            Some(v) => v,
            None => {
                proof {
                    assert(spec_add_exposure(m0, exposure@, x, k + 1) is None);
                    lemma_add_exposure_none_stays(m0, exposure@, x, k + 1, exposure@.len() as int);
                }
                return Err(overflow("exposure"));
            },
        };
        match add_keyed_value(values, &exposure[k].0, d) {
            Ok(()) => {},
            Err(e) => {
                proof {
                    assert(spec_add_exposure(m0, exposure@, x, k + 1) is None);
                    lemma_add_exposure_none_stays(m0, exposure@, x, k + 1, exposure@.len() as int);
                }
                return Err(e);
            },
        }
        k = k + 1;
    }
    Ok(())
}

/// `max(v, 1)` for a decimal of scale 0.
fn at_least_one(v: Dec) -> (r: Dec)
    requires
        v.wf(),
        v.scale == 0,
    ensures
        r.wf(),
        r.scale == 0,
        r == dec_max(v, Dec { mantissa: 1, scale: 0 }),
        r.mantissa >= 1,
{
    let r = dec_max_exec(v, Dec::one());
    proof {
        crate::dec::lemma_pow10_values();
        let p = crate::dec::pow10(28);
        if r == v {
            assert(units(v) >= units(Dec { mantissa: 1, scale: 0 }));
            assert(v.mantissa >= 1) by (nonlinear_arith)
                requires v.mantissa * p >= 1 * p, p > 0;
        }
    }
    r
}

/// One category's cap on a whole-share batch: a steered category the candidate is
/// exposed to, still below its desired value, caps the batch at the whole shares that
/// close the gap (at least one).
pub open spec fn spec_batch_step(c: CategoryState, cand: AssetCandidate, values: Seq<(String, Dec)>, total: Dec, goal: RebalanceGoal, band: Dec, batch: Dec) -> Option<Dec> {
    let expo = value_of(cand.exposure_per_share@, c.category_id@);
    if !steered(c) || !has_key(cand.exposure_per_share@, c.category_id@) || units(expo) <= 0 {
        Some(batch)
    } else {
        match spec_desired_value(c, goal, band, total) {
            None => None,
            Some(dv) => {
                let base = value_of(values, c.category_id@);
                if units(base) < units(dv) {
                    match spec_checked_sub(dv, base) {
                        None => None,
                        Some(gap) => match spec_checked_div(gap, expo) {
                            None => None,
                            Some(q) => {
                                let cap = dec_max(floor_dec(q), Dec { mantissa: 1, scale: 0 });
                                Some(if units(cap) < units(batch) { cap } else { batch })
                            },
                        },
                    }
                } else {
                    Some(batch)
                }
            },
        }
    }
}

/// The batch after the caps of the first `k` categories.
pub open spec fn spec_batch_fold(cand: AssetCandidate, cats: Seq<CategoryState>, values: Seq<(String, Dec)>, total: Dec, goal: RebalanceGoal, band: Dec, start: Dec, k: int) -> Option<Dec>
    decreases k,
{
    if k <= 0 {
        Some(start)
    } else {
        match spec_batch_fold(cand, cats, values, total, goal, band, start, k - 1) {
            None => None,
            Some(b) => spec_batch_step(cats[k - 1], cand, values, total, goal, band, b),
        }
    }
}

/// Whole shares to buy of the sole candidate that removes drift: as many as the cash
/// buys (at least one), capped by every steered category it is exposed to.
pub open spec fn spec_whole_batch(cand: AssetCandidate, cash: Dec, values: Seq<(String, Dec)>, cats: Seq<CategoryState>, total: Dec, goal: RebalanceGoal, band: Dec) -> Option<Dec> {
    match spec_checked_div(cash, cand.price) {
        None => None,
        Some(per) => spec_batch_fold(cand, cats, values, total, goal, band,
            dec_max(floor_dec(per), Dec { mantissa: 1, scale: 0 }), cats.len() as int),
    }
}

proof fn lemma_batch_fold_none_stays(cand: AssetCandidate, cats: Seq<CategoryState>, values: Seq<(String, Dec)>, total: Dec, goal: RebalanceGoal, band: Dec, start: Dec, k: int, n: int)
    requires
        0 <= k <= n,
        spec_batch_fold(cand, cats, values, total, goal, band, start, k) is None,
    ensures
        spec_batch_fold(cand, cats, values, total, goal, band, start, n) is None,
    decreases n - k,
{
    if k < n {
        lemma_batch_fold_none_stays(cand, cats, values, total, goal, band, start, k + 1, n);
    }
}

/// Whole shares to buy of the sole candidate that removes drift.
fn whole_batch(
    cand: &AssetCandidate,
    cash: Dec,
    values: &Vec<(String, Dec)>,
    cats: &Vec<CategoryState>,
    total: Dec,
    goal: RebalanceGoal,
    band: Dec,
) -> (r: Result<Dec, Error>)
    requires
        candidate_wf(*cand),
        cash.wf(),
        keys_unique(values@),
        values_wf(values@),
        total.wf(),
        band.wf(),
    ensures
        match spec_whole_batch(*cand, cash, values@, cats@, total, goal, band) {
            Some(b) => r == Ok::<Dec, Error>(b) && b.wf() && b.scale == 0 && b.mantissa >= 1,
            None => r matches Err(e) && e is Calculation,
        },
{
    let per = match need(dec_checked_div(cash, cand.price), "share count") {
        Ok(v) => v,
        Err(e) => return Err(e),
    };
    let fl = dec_floor(per);
    proof {
        assert(fl == floor_dec(per));
    }
    let start = at_least_one(fl);
    let mut batch = start;
    let mut k: usize = 0;
    while k < cats.len()
        invariant
            k <= cats@.len(),
            candidate_wf(*cand),
            keys_unique(values@),
            values_wf(values@),
            total.wf(),
            band.wf(),
            batch.wf(),
            batch.scale == 0,
            batch.mantissa >= 1,
            start == dec_max(floor_dec(per), Dec { mantissa: 1, scale: 0 }),
            spec_checked_div(cash, cand.price) == Some(per),
            spec_batch_fold(*cand, cats@, values@, total, goal, band, start, k as int) == Some(batch),
        decreases cats@.len() - k,
    {
        let c = &cats[k];
        if c.is_required && !c.is_cash {
            match find_key(&cand.exposure_per_share, c.category_id.as_str()) {
                Some(ei) => {
                    let expo = cand.exposure_per_share[ei].1;
                    proof {
                        assert(has_key(cand.exposure_per_share@, c.category_id@));
                        assert(expo == value_of(cand.exposure_per_share@, c.category_id@));
                    }
                    if dec_lt(Dec::zero(), expo) {
                        let dv = match desired_value(c, goal, band, total) {
                            Ok(v) => v,
                            Err(e) => {
                                proof { lemma_batch_fold_none_stays(*cand, cats@, values@, total, goal, band, start, k + 1, cats@.len() as int); }
                                return Err(e);
                            },
                        };
                        let base = get_value(values, c.category_id.as_str());
                        if dec_lt(base, dv) {
                            let gap = match dec_checked_sub(dv, base) {
                                Some(v) => v,
                                None => {
                                    proof { lemma_batch_fold_none_stays(*cand, cats@, values@, total, goal, band, start, k + 1, cats@.len() as int); }
                                    return Err(overflow("whole-share cap"));
                                },
                            };
                            let q = match dec_checked_div(gap, expo) {
                                Some(v) => v,
                                None => {
                                    proof { lemma_batch_fold_none_stays(*cand, cats@, values@, total, goal, band, start, k + 1, cats@.len() as int); }
                                    return Err(overflow("whole-share cap"));
                                },
                            };
                            let fq = dec_floor(q);
                            proof {
                                assert(fq == floor_dec(q));
                            }
                            let cap = at_least_one(fq);
                            if dec_lt(cap, batch) {
                                batch = cap;
                            }
                        }
                    }
                },
                None => {},
            }
        }
        k = k + 1;
    }
    Ok(batch)
}

/// Adds shares to a holding's running count; counts of whole shares stay whole.
/// A running share count plus more shares; counts of whole shares that leave 96 bits
/// are an overflow. `None` on overflow.
pub open spec fn spec_add_shares(current: Dec, more: Dec) -> Option<Dec> {
    if current.scale == 0 && more.scale == 0 && !crate::dec::fits96(current.mantissa + more.mantissa) {
        None
    } else {
        spec_checked_add(current, more)
    }
}

fn add_shares(current: Dec, more: Dec) -> (r: Result<Dec, Error>)
    requires
        current.wf(),
        more.wf(),
    ensures
        match spec_add_shares(current, more) {
            Some(d) => r == Ok::<Dec, Error>(d),
            None => r matches Err(e) && e is Calculation,
        },
        r matches Ok(d) ==> d.wf() && (current.scale == 0 && more.scale == 0 ==> d.scale == 0),
{
    if current.scale == 0 && more.scale == 0 {
        let m: i128 = current.mantissa + more.mantissa;
        if m > crate::dec::MAX_MANTISSA || m < -crate::dec::MAX_MANTISSA {
            return Err(overflow("share count"));
        }
        proof {
            crate::dec::lemma_pow10_values();
            let p = crate::dec::pow10(28);
            assert(units(current) + units(more) == m * p) by (nonlinear_arith)
                requires units(current) == current.mantissa * p, units(more) == more.mantissa * p, m == current.mantissa + more.mantissa;
            assert((m * p) / p == m) by (nonlinear_arith)
                requires p > 0;
        }
    }
    need(dec_checked_add(current, more), "share count")
}

/// No shares bought at any of `n` positions.
pub open spec fn no_shares(n: int) -> Seq<Dec> {
    Seq::new(n as nat, |i: int| dec_zero())
}

/// The greedy from a state (cash left, category values, shares bought at each position of
/// `order`): while cash is left, measure the drift, pick the first best-scoring candidate
/// (`spec_pick`), and buy of it the scored fractional shares, or in whole-share mode one
/// share, or the batch up to the next bend when it is the only candidate that removes
/// drift; add its exposure to the values and its cost to what was spent. Stops when no
/// candidate removes drift. `None` when a step overflows or the cash stops shrinking.
pub open spec fn spec_greedy(
    order: Seq<usize>,
    cands: Seq<AssetCandidate>,
    whole: bool,
    cash: Dec,
    values: Seq<(String, Dec)>,
    bought: Seq<Dec>,
    cats: Seq<CategoryState>,
    total: Dec,
    goal: RebalanceGoal,
    band: Dec,
) -> Option<Seq<Dec>>
    decreases cash_measure(cash),
{
    if units(cash) <= 0 {
        Some(bought)
    } else {
        match spec_total_drift_with(values, Seq::empty(), cats, total, goal, band) {
            None => None,
            Some(before) => match spec_pick(order, cands, whole, cash, values, cats, total, goal, band, before, order.len() as int) {
                None => None,
                Some((None, _)) => Some(bought),
                Some((Some((p, _score, sh)), count)) => {
                    let cand = cands[order[p] as int];
                    let amount_o = if whole {
                        if count == 1 {
                            spec_whole_batch(cand, cash, values, cats, total, goal, band)
                        } else {
                            Some(Dec { mantissa: 1, scale: 0 })
                        }
                    } else {
                        Some(sh)
                    };
                    match amount_o {
                        None => None,
                        Some(amount) => match spec_add_exposure(values, cand.exposure_per_share@, amount, cand.exposure_per_share@.len() as int) {
                            None => None,
                            Some(values2) => match spec_checked_mul(cand.price, amount) {
                                None => None,
                                Some(spend) => match spec_checked_sub(cash, spend) {
                                    None => None,
                                    Some(next) => if units(next) < units(cash) {
                                        match spec_add_shares(bought[p], amount) {
                                            None => None,
                                            Some(total_shares) => spec_greedy(order, cands, whole, next, values2,
                                                bought.update(p, total_shares), cats, total, goal, band),
                                        }
                                    } else {
                                        None
                                    },
                                },
                            },
                        },
                    }
                },
            },
        }
    }
}

/// Runs the greedy: while cash is left, buys the best candidate (fractional mode: the
/// scored shares; whole-share mode: one share, or a batch up to the next bend when it is
/// the only candidate removing drift), until no candidate removes drift. Returns the
/// shares bought at each position of `order`. An error when a step overflows or the cash
/// stops shrinking.
pub fn greedy_shares(
    order: &Vec<usize>,
    cands: &Vec<AssetCandidate>,
    whole: bool,
    cash0: Dec,
    values0: &Vec<(String, Dec)>,
    cats: &Vec<CategoryState>,
    total: Dec,
    goal: RebalanceGoal,
    band: Dec,
) -> (r: Result<Vec<Dec>, Error>)
    requires
        order_ok(order@, cands@.len() as int),
        candidates_wf(cands@),
        cash0.wf(),
        keys_unique(values0@),
        values_wf(values0@),
        total.wf(),
        band.wf(),
    ensures
        match spec_greedy(order@, cands@, whole, cash0, values0@, no_shares(order@.len() as int), cats@, total, goal, band) {
            Some(b) => r matches Ok(v) && v@ == b,
            None => r matches Err(e) && e is Calculation,
        },
        r matches Ok(b) ==> b@.len() == order@.len() && forall|i: int| 0 <= i < b@.len() ==> (#[trigger] b@[i]).wf()
            && (whole ==> b@[i].scale == 0),
{
    let mut values: Vec<(String, Dec)> = Vec::new();
    let mut k: usize = 0;
    while k < values0.len()
        invariant
            k <= values0@.len(),
            values@ == values0@.take(k as int),
        decreases values0@.len() - k,
    {
        values.push((values0[k].0.clone(), values0[k].1));
        proof {
            assert(values0@.take(k + 1) =~= values0@.take(k as int).push(values0@[k as int]));
        }
        k = k + 1;
    }
    proof {
        assert(values0@.take(values0@.len() as int) =~= values0@);
    }
    let mut bought: Vec<Dec> = Vec::new();
    let mut j: usize = 0;
    while j < order.len()
        invariant
            j <= order@.len(),
            bought@.len() == j,
            forall|i: int| 0 <= i < j ==> (#[trigger] bought@[i]) == dec_zero(),
        decreases order@.len() - j,
    {
        bought.push(Dec::zero());
        j = j + 1;
    }
    proof {
        assert(bought@ =~= no_shares(order@.len() as int));
    }
    let ghost start = spec_greedy(order@, cands@, whole, cash0, values0@, no_shares(order@.len() as int), cats@, total, goal, band);
    let mut cash = cash0;
    loop
        invariant
            order_ok(order@, cands@.len() as int),
            candidates_wf(cands@),
            cash.wf(),
            keys_unique(values@),
            values_wf(values@),
            total.wf(),
            band.wf(),
            bought@.len() == order@.len(),
            forall|i: int| 0 <= i < bought@.len() ==> (#[trigger] bought@[i]).wf() && (whole ==> bought@[i].scale == 0),
            start == spec_greedy(order@, cands@, whole, cash0, values0@, no_shares(order@.len() as int), cats@, total, goal, band),
            spec_greedy(order@, cands@, whole, cash, values@, bought@, cats@, total, goal, band) == start,
        ensures
            start == Some(bought@),
        decreases cash_measure(cash),
    {
        let ghost cash_s = cash;
        let ghost values_s = values@;
        let ghost bought_s = bought@;
        if !dec_lt(Dec::zero(), cash) {
            break;
        }
        let before = match total_drift(&values, cats, total, goal, band) {
            Ok(v) => v,
            Err(e) => return Err(e),
        };
        let (best, count) = match pick_best(order, cands, whole, cash, &values, cats, total, goal, band, before) {
            Ok(v) => v,
            Err(e) => return Err(e),
        };
        let (p, sh) = match best {
            None => break,
            Some((p, _score, sh)) => (p, sh),
        };
        let ci = order[p];
        proof {
            assert(order@[p as int] < cands@.len());
            assert(candidate_wf(cands@[ci as int]));
        }
        let cand = &cands[ci];
        let amount = if whole {
            if count == 1 {
                match whole_batch(cand, cash, &values, cats, total, goal, band) {
                    Ok(b) => b,
                    Err(e) => return Err(e),
                }
            } else {
                Dec::one()
            }
        } else {
            sh
        };
        match add_exposure(&mut values, &cand.exposure_per_share, amount) {
            Ok(()) => {},
            Err(e) => return Err(e),
        }
        let spend = match need(dec_checked_mul(cand.price, amount), "purchase") {
            Ok(v) => v,
            Err(e) => return Err(e),
        };
        let next = match need(dec_checked_sub(cash, spend), "cash left") {
            Ok(v) => v,
            Err(e) => return Err(e),
        };
        if !dec_lt(next, cash) {
            return Err(overflow("cash left"));
        }
        let total_shares = match add_shares(bought[p], amount) {
            Ok(v) => v,
            Err(e) => return Err(e),
        };
        bought.set(p, total_shares);
        cash = next;
        proof {
            assert(bought@ == bought_s.update(p as int, total_shares));
        }
    }
    Ok(bought)
}


// ── Trades ───────────────────────────────────────────────────────────────────

/// Some candidate is exposed to the category.
pub open spec fn covered(cands: Seq<AssetCandidate>, id: Seq<char>) -> bool {
    exists|i: int| 0 <= i < cands.len() && has_key((#[trigger] cands[i]).exposure_per_share@, id)
}

fn is_covered(cands: &Vec<AssetCandidate>, id: &str) -> (r: bool)
    requires
        candidates_wf(cands@),
    ensures
        r == covered(cands@, id@),
{
    let mut k: usize = 0;
    while k < cands.len()
        invariant
            k <= cands@.len(),
            candidates_wf(cands@),
            forall|i: int| 0 <= i < k ==> !has_key((#[trigger] cands@[i]).exposure_per_share@, id@),
        decreases cands@.len() - k,
    {
        proof {
            assert(candidate_wf(cands@[k as int]));
        }
        if find_key(&cands[k].exposure_per_share, id).is_some() {
            return true;
        }
        k = k + 1;
    }
    false
}

/// Whether a steered category is below its desired value with no candidate exposed to
/// it; `None` when a decimal step overflows.
pub open spec fn uncovered_at(c: CategoryState, cands: Seq<AssetCandidate>, goal: RebalanceGoal, band: Dec, total: Dec) -> Option<bool> {
    if !steered(c) {
        Some(false)
    } else {
        match spec_desired_value(c, goal, band, total) {
            None => None,
            Some(dv) => if units(c.current_value) < units(dv) && !covered(cands, c.category_id@) {
                match spec_checked_sub(dv, c.current_value) {
                    None => None,
                    Some(_) => Some(true),
                }
            } else {
                Some(false)
            },
        }
    }
}

/// Indices, in order, of the uncovered categories among the first `k`.
pub open spec fn uncovered_indices(cats: Seq<CategoryState>, cands: Seq<AssetCandidate>, goal: RebalanceGoal, band: Dec, total: Dec, k: int) -> Seq<int>
    decreases k,
{
    if k <= 0 {
        Seq::empty()
    } else {
        let prev = uncovered_indices(cats, cands, goal, band, total, k - 1);
        if uncovered_at(cats[k - 1], cands, goal, band, total) == Some(true) {
            prev.push(k - 1)
        } else {
            prev
        }
    }
}

/// What a category lacks of its desired value (not below zero).
pub open spec fn shortfall_of(c: CategoryState, goal: RebalanceGoal, band: Dec, total: Dec) -> Dec {
    dec_max(spec_checked_sub(spec_desired_value(c, goal, band, total).unwrap(), c.current_value).unwrap(), dec_zero())
}

/// The warning that no holding can fill an uncovered category, naming its shortfall.
pub open spec fn is_no_candidate_warning(w: RebalanceWarning, c: CategoryState, goal: RebalanceGoal, band: Dec, total: Dec) -> bool {
    &&& w.kind == RebalanceWarningKind::NoBuyCandidate
    &&& w.category_id == c.category_id
    &&& w.message@ == "No classifiable holdings in "@ + c.category_name@ + ". Allocate "@
        + crate::dec::spec_format_2dp(shortfall_of(c, goal, band, total)) + " to this category manually."@
}

/// Warns about each steered category below its desired value that no candidate can
/// fill, and returns their indices in category order.
fn uncovered_categories(
    cats: &Vec<CategoryState>,
    cands: &Vec<AssetCandidate>,
    goal: RebalanceGoal,
    band: Dec,
    total: Dec,
    warnings: &mut Vec<RebalanceWarning>,
) -> (r: Result<Vec<usize>, Error>)
    requires
        cats_wf(cats@),
        candidates_wf(cands@),
        band.wf(),
        total.wf(),
    ensures
        r is Err ==> r->Err_0 is Calculation,
        r matches Ok(v) ==> {
            &&& final(warnings)@.len() >= old(warnings)@.len()
            &&& forall|i: int| 0 <= i < old(warnings)@.len() ==> #[trigger] final(warnings)@[i] == old(warnings)@[i]
            &&& forall|i: int| old(warnings)@.len() <= i < final(warnings)@.len() ==> (#[trigger] final(warnings)@[i]).kind == RebalanceWarningKind::NoBuyCandidate
            &&& forall|i: int| 0 <= i < v@.len() ==> (#[trigger] v@[i]) < cats@.len() && steered(cats@[v@[i] as int])
                && !covered(cands@, cats@[v@[i] as int].category_id@)
            &&& v@.len() == uncovered_indices(cats@, cands@, goal, band, total, cats@.len() as int).len()
            &&& forall|i: int| 0 <= i < v@.len() ==> (#[trigger] v@[i]) as int == uncovered_indices(cats@, cands@, goal, band, total, cats@.len() as int)[i]
            &&& final(warnings)@.len() == old(warnings)@.len() + v@.len()
            &&& forall|i: int| 0 <= i < v@.len() ==> is_no_candidate_warning(#[trigger] final(warnings)@[old(warnings)@.len() + i],
                cats@[v@[i] as int], goal, band, total)
        },
        r is Ok <==> forall|k: int| 0 <= k < cats@.len() ==> (#[trigger] uncovered_at(cats@[k], cands@, goal, band, total)) is Some,
{
    let ghost w0 = warnings@;
    let mut out: Vec<usize> = Vec::new();
    let mut k: usize = 0;
    while k < cats.len()
        invariant
            k <= cats@.len(),
            cats_wf(cats@),
            candidates_wf(cands@),
            band.wf(),
            total.wf(),
            warnings@.len() >= w0.len(),
            forall|i: int| 0 <= i < w0.len() ==> #[trigger] warnings@[i] == w0[i],
            forall|i: int| w0.len() <= i < warnings@.len() ==> (#[trigger] warnings@[i]).kind == RebalanceWarningKind::NoBuyCandidate,
            forall|i: int| 0 <= i < out@.len() ==> (#[trigger] out@[i]) < cats@.len() && steered(cats@[out@[i] as int])
                && !covered(cands@, cats@[out@[i] as int].category_id@),
            out@.len() == uncovered_indices(cats@, cands@, goal, band, total, k as int).len(),
            forall|i: int| 0 <= i < out@.len() ==> (#[trigger] out@[i]) as int == uncovered_indices(cats@, cands@, goal, band, total, k as int)[i],
            warnings@.len() == w0.len() + out@.len(),
            forall|i: int| 0 <= i < out@.len() ==> is_no_candidate_warning(#[trigger] warnings@[w0.len() + i],
                cats@[out@[i] as int], goal, band, total),
            forall|q: int| 0 <= q < k ==> (#[trigger] uncovered_at(cats@[q], cands@, goal, band, total)) is Some,
            w0 == old(warnings)@,
        decreases cats@.len() - k,
    {
        let ghost out0 = out@;
        let ghost wl = warnings@;
        let c = &cats[k];
        if c.is_required && !c.is_cash {
            let dv = match desired_value(c, goal, band, total) {
                Ok(v) => v,
                Err(e) => return Err(e),
            };
            if dec_lt(c.current_value, dv) && !is_covered(cands, c.category_id.as_str()) {
                let gap = match need(dec_checked_sub(dv, c.current_value), "category shortfall") {
                    Ok(v) => v,
                    Err(e) => return Err(e),
                };
                let shortfall = dec_max_exec(gap, Dec::zero());
                let mut m = String::from_str("No classifiable holdings in ");
                m.append(c.category_name.as_str());
                m.append(". Allocate ");
                m.append(dec_format_2dp(shortfall).as_str());
                m.append(" to this category manually.");
                warnings.push(RebalanceWarning {
                    kind: RebalanceWarningKind::NoBuyCandidate,
                    category_id: c.category_id.clone(),
                    message: m,
                });
                out.push(k);
                proof {
                    assert(uncovered_at(cats@[k as int], cands@, goal, band, total) == Some(true));
                    assert(uncovered_indices(cats@, cands@, goal, band, total, k + 1) == uncovered_indices(cats@, cands@, goal, band, total, k as int).push(k as int));
                    assert forall|i: int| 0 <= i < out@.len() implies is_no_candidate_warning(#[trigger] warnings@[w0.len() + i],
                        cats@[out@[i] as int], goal, band, total) by {
                        if i < out0.len() {
                            assert(warnings@[w0.len() + i] == wl[w0.len() + i]);
                            assert(out@[i] == out0[i]);
                        }
                    }
                }
            }
        }
        k = k + 1;
    }
    Ok(out)
}

/// Entry `i` has the largest value, and every later entry a smaller one.
pub open spec fn is_last_max(exposure: Seq<(String, Dec)>, i: int) -> bool {
    &&& 0 <= i < exposure.len()
    &&& forall|j: int| 0 <= j < exposure.len() ==> units(#[trigger] exposure[j].1) <= units(exposure[i].1)
    &&& forall|j: int| i < j < exposure.len() ==> units(#[trigger] exposure[j].1) < units(exposure[i].1)
}

/// The primary exposure of a candidate: the last entry with the largest value.
pub open spec fn primary_index(exposure: Seq<(String, Dec)>) -> Option<int> {
    if exposure.len() == 0 {
        None
    } else {
        Some(choose|i: int| is_last_max(exposure, i))
    }
}

/// Index of the last exposure entry with the largest value (`None` when there is none).
fn primary_exposure(exposure: &Vec<(String, Dec)>) -> (r: Option<usize>)
    requires
        values_wf(exposure@),
    ensures
        match primary_index(exposure@) {
            Some(i) => r == Some(i as usize) && is_last_max(exposure@, i),
            None => r is None,
        },
        exposure@.len() == 0 ==> r is None,
        r matches Some(i) ==> i < exposure@.len() && (forall|j: int| 0 <= j < exposure@.len() ==> units(#[trigger] exposure@[j].1) <= units(exposure@[i as int].1))
            && (forall|j: int| i < j < exposure@.len() ==> units(#[trigger] exposure@[j].1) < units(exposure@[i as int].1)),
{
    if exposure.len() == 0 {
        return None;
    }
    let mut best: usize = 0;
    let mut k: usize = 1;
    while k < exposure.len()
        invariant
            1 <= k <= exposure@.len(),
            best < k,
            values_wf(exposure@),
            forall|j: int| 0 <= j < k ==> units(#[trigger] exposure@[j].1) <= units(exposure@[best as int].1),
            forall|j: int| best < j < k ==> units(#[trigger] exposure@[j].1) < units(exposure@[best as int].1),
        decreases exposure@.len() - k,
    {
        if !dec_lt(exposure[k].1, exposure[best].1) {
            best = k;
        }
        k = k + 1;
    }
    proof {
        assert(is_last_max(exposure@, best as int));
        let c = choose|i: int| is_last_max(exposure@, i);
        if c != best {
            if c < best {
                assert(units(exposure@[best as int].1) < units(exposure@[c].1));
            } else {
                assert(units(exposure@[c].1) < units(exposure@[best as int].1));
            }
        }
    }
    Some(best)
}

/// The name of the first category with the id, or the id itself.
pub open spec fn name_of_category(cats: Seq<CategoryState>, id: Seq<char>) -> Seq<char>
    decreases cats.len(),
{
    if cats.len() == 0 {
        id
    } else if cats[0].category_id@ == id {
        cats[0].category_name@
    } else {
        name_of_category(cats.drop_first(), id)
    }
}

fn category_name_of(cats: &Vec<CategoryState>, id: &String) -> (r: String)
    ensures
        r@ == name_of_category(cats@, id@),
{
    let mut k: usize = 0;
    proof {
        assert(cats@.subrange(0, cats@.len() as int) =~= cats@);
    }
    while k < cats.len()
        invariant
            k <= cats@.len(),
            name_of_category(cats@.subrange(k as int, cats@.len() as int), id@) == name_of_category(cats@, id@),
        decreases cats@.len() - k,
    {
        proof {
            let rest = cats@.subrange(k as int, cats@.len() as int);
            assert(rest.drop_first() =~= cats@.subrange(k + 1, cats@.len() as int));
        }
        if crate::model::str_eq(cats[k].category_id.as_str(), id.as_str()) {
            return cats[k].category_name.clone();
        }
        k = k + 1;
    }
    id.clone()
}

fn clone_opt(s: &Option<String>) -> (r: Option<String>)
    ensures
        r == *s,
{
    match s {
        Some(x) => Some(x.clone()),
        None => None,
    }
}

/// A trade buys a candidate's asset, or fills an uncovered steered category by hand.
pub open spec fn trade_source_ok(t: SuggestedManualTrade, cands: Seq<AssetCandidate>, cats: Seq<CategoryState>) -> bool {
    match t.asset_id {
        Some(a) => exists|i: int| 0 <= i < cands.len() && (#[trigger] cands[i]).asset_id@ == a@,
        None => exists|i: int| 0 <= i < cats.len() && steered(#[trigger] cats[i]) && cats[i].category_id@ == t.category_id@
            && !covered(cands, cats[i].category_id@),
    }
}

/// What the trades of an optimizer plan state: each buys, comes from a candidate or an
/// uncovered category, carries representable decimals, meets a positive minimum when it
/// buys an asset, and buys whole shares in whole-share mode.
pub open spec fn opt_trades_ok(ts: Seq<SuggestedManualTrade>, input: RebalanceInput) -> bool {
    forall|i: int| 0 <= i < ts.len() ==> {
        &&& (#[trigger] ts[i]).action@ == "buy"@
        &&& trade_source_ok(ts[i], input.candidates@, input.categories@)
        &&& ts[i].estimated_amount.wf()
        &&& (ts[i].quantity matches Some(q) ==> q.wf())
        &&& (ts[i].asset_id is Some && units(input.profile.min_trade_amount) > 0) ==> units(ts[i].estimated_amount) >= units(input.profile.min_trade_amount)
        &&& (ts[i].asset_id is Some && input.profile.whole_shares_only) ==> (ts[i].quantity matches Some(q) && q.scale == 0)
    }
}

/// The amount of the trade at position `p` of `order`: `None` on overflow, `Some(None)`
/// when the position bought no shares or (with a positive minimum) its amount is below it.
pub open spec fn position_amount(order: Seq<usize>, cands: Seq<AssetCandidate>, bought: Seq<Dec>, min_trade: Dec, p: int) -> Option<Option<Dec>> {
    let shares = bought[p];
    if units(shares) == 0 {
        Some(None)
    } else {
        match spec_checked_mul(shares, cands[order[p] as int].price) {
            None => None,
            Some(amount) => if units(min_trade) > 0 && units(amount) < units(min_trade) {
                Some(None)
            } else {
                Some(Some(amount))
            },
        }
    }
}

/// Positions among the first `k` that give a trade, in order.
pub open spec fn trade_positions(order: Seq<usize>, cands: Seq<AssetCandidate>, bought: Seq<Dec>, min_trade: Dec, k: int) -> Seq<int>
    decreases k,
{
    if k <= 0 {
        Seq::empty()
    } else {
        let prev = trade_positions(order, cands, bought, min_trade, k - 1);
        if position_amount(order, cands, bought, min_trade, k - 1) matches Some(Some(_)) {
            prev.push(k - 1)
        } else {
            prev
        }
    }
}

/// The trade buys `shares` of the candidate for `amount`, filed under its primary
/// exposure's category (or `unknown` when it has none).
pub open spec fn is_asset_trade(t: SuggestedManualTrade, cand: AssetCandidate, shares: Dec, amount: Dec, cats: Seq<CategoryState>) -> bool {
    &&& t.action@ == "buy"@
    &&& t.asset_id == Some(cand.asset_id)
    &&& t.symbol == Some(cand.symbol)
    &&& t.name == cand.name
    &&& t.quantity == Some(shares)
    &&& t.estimated_price == Some(cand.price)
    &&& t.estimated_amount == amount
    &&& t.reason@ == cand.symbol@ + " improves portfolio drift."@
    &&& match primary_index(cand.exposure_per_share@) {
        Some(i) => t.category_id == cand.exposure_per_share@[i].0
            && t.category_name@ == name_of_category(cats, cand.exposure_per_share@[i].0@),
        None => t.category_id@ == "unknown"@ && t.category_name@ == "Unknown"@,
    }
}

/// The asset trades are, in order, one per position that gives a trade.
pub open spec fn asset_trades_ok(ts: Seq<SuggestedManualTrade>, order: Seq<usize>, cands: Seq<AssetCandidate>, bought: Seq<Dec>, cats: Seq<CategoryState>, min_trade: Dec, k: int) -> bool {
    let pos = trade_positions(order, cands, bought, min_trade, k);
    &&& ts.len() == pos.len()
    &&& forall|i: int| 0 <= i < pos.len() ==> ((#[trigger] position_amount(order, cands, bought, min_trade, pos[i])) matches Some(Some(amount))
        && is_asset_trade(ts[i], cands[order[pos[i]] as int], bought[pos[i]], amount, cats))
}

/// The asset trades from the shares bought at each position of `order`: positions with
/// no shares and (when the minimum is positive) amounts below it are left out.
fn trades_from_shares(
    order: &Vec<usize>,
    cands: &Vec<AssetCandidate>,
    bought: &Vec<Dec>,
    cats: &Vec<CategoryState>,
    input: &RebalanceInput,
) -> (r: Result<Vec<SuggestedManualTrade>, Error>)
    requires
        order_ok(order@, cands@.len() as int),
        candidates_wf(cands@),
        bought@.len() == order@.len(),
        forall|i: int| 0 <= i < bought@.len() ==> (#[trigger] bought@[i]).wf() && (input.profile.whole_shares_only ==> bought@[i].scale == 0),
        input.profile.min_trade_amount.wf(),
        cands == input.candidates,
        cats == input.categories,
    ensures
        r is Err ==> r->Err_0 is Calculation,
        r is Ok <==> forall|p: int| 0 <= p < order@.len() ==> (#[trigger] position_amount(order@, cands@, bought@, input.profile.min_trade_amount, p)) is Some,
        r matches Ok(ts) ==> opt_trades_ok(ts@, *input) && forall|i: int| 0 <= i < ts@.len() ==> (#[trigger] ts@[i]).asset_id is Some,
        r matches Ok(ts) ==> asset_trades_ok(ts@, order@, cands@, bought@, cats@, input.profile.min_trade_amount, order@.len() as int),
{
    let zero = Dec::zero();
    let min_trade = input.profile.min_trade_amount;
    let mut trades: Vec<SuggestedManualTrade> = Vec::new();
    let mut p: usize = 0;
    while p < order.len()
        invariant
            p <= order@.len(),
            order_ok(order@, cands@.len() as int),
            candidates_wf(cands@),
            bought@.len() == order@.len(),
            forall|i: int| 0 <= i < bought@.len() ==> (#[trigger] bought@[i]).wf() && (input.profile.whole_shares_only ==> bought@[i].scale == 0),
            min_trade == input.profile.min_trade_amount,
            min_trade.wf(),
            zero == dec_zero(),
            cands == input.candidates,
            cats == input.categories,
            opt_trades_ok(trades@, *input),
            forall|i: int| 0 <= i < trades@.len() ==> (#[trigger] trades@[i]).asset_id is Some,
            forall|q: int| 0 <= q < p ==> (#[trigger] position_amount(order@, cands@, bought@, min_trade, q)) is Some,
            asset_trades_ok(trades@, order@, cands@, bought@, cats@, min_trade, p as int),
        decreases order@.len() - p,
    {
        let ghost before = trades@;
        let shares = bought[p];
        if !is_zero(shares) {
            let ci = order[p];
            proof {
                assert(order@[p as int] < cands@.len());
                assert(candidate_wf(cands@[ci as int]));
            }
            let cand = &cands[ci];
            let amount = match need(dec_checked_mul(shares, cand.price), "trade amount") {
                Ok(v) => v,
                Err(e) => {
                    proof {
                        assert(position_amount(order@, cands@, bought@, min_trade, p as int) is None);
                    }
                    return Err(e);
                },
            };
            if !(dec_lt(zero, min_trade) && dec_lt(amount, min_trade)) {
                let (cat_id, cat_name) = match primary_exposure(&cand.exposure_per_share) {
                    Some(i) => {
                        let id = cand.exposure_per_share[i].0.clone();
                        let name = category_name_of(cats, &id);
                        (id, name)
                    },
                    None => (String::from_str("unknown"), String::from_str("Unknown")),
                };
                let mut reason = cand.symbol.clone();
                reason.append(" improves portfolio drift.");
                let t = SuggestedManualTrade {
                    action: String::from_str("buy"),
                    category_id: cat_id,
                    category_name: cat_name,
                    asset_id: Some(cand.asset_id.clone()),
                    symbol: Some(cand.symbol.clone()),
                    name: clone_opt(&cand.name),
                    quantity: Some(shares),
                    estimated_price: Some(cand.price),
                    estimated_amount: amount,
                    reason,
                };
                proof {
                    reveal_strlit("buy");
                    reveal_strlit("unknown");
                    reveal_strlit("Unknown");
                    assert(cands@[ci as int].asset_id@ == t.asset_id.unwrap()@);
                    assert(position_amount(order@, cands@, bought@, min_trade, p as int) == Some(Some(amount)));
                    assert(is_asset_trade(t, cands@[order@[p as int] as int], bought@[p as int], amount, cats@));
                }
                trades.push(t);
                proof {
                    let pos = trade_positions(order@, cands@, bought@, min_trade, p as int);
                    assert(trade_positions(order@, cands@, bought@, min_trade, p + 1) == pos.push(p as int));
                    assert forall|i: int| 0 <= i < pos.len() + 1 implies ((#[trigger] position_amount(order@, cands@, bought@, min_trade, pos.push(p as int)[i])) matches Some(Some(amount))
                        && is_asset_trade(trades@[i], cands@[order@[pos.push(p as int)[i]] as int], bought@[pos.push(p as int)[i]], amount, cats@)) by {
                        if i < pos.len() {
                            assert(trades@[i] == before[i]);
                            assert(pos.push(p as int)[i] == pos[i]);
                        }
                    }
                }
            }
        }
        p = p + 1;
    }
    Ok(trades)
}

/// Sum of the amounts of the first `k` trades, added in order; `None` on overflow.
pub open spec fn amount_sum(ts: Seq<SuggestedManualTrade>, k: int) -> Option<Dec>
    decreases k,
{
    if k <= 0 {
        Some(dec_zero())
    } else {
        match amount_sum(ts, k - 1) {
            Some(acc) => spec_checked_add(acc, ts[k - 1].estimated_amount),
            None => None,
        }
    }
}

proof fn lemma_amount_sum_prefix(a: Seq<SuggestedManualTrade>, b: Seq<SuggestedManualTrade>, k: int)
    requires
        0 <= k <= a.len(),
        k <= b.len(),
        forall|i: int| 0 <= i < k ==> a[i] == b[i],
    ensures
        amount_sum(a, k) == amount_sum(b, k),
    decreases k,
{
    if k > 0 {
        lemma_amount_sum_prefix(a, b, k - 1);
    }
}

proof fn lemma_amount_sum_none_stays(ts: Seq<SuggestedManualTrade>, k: int, n: int)
    requires
        0 <= k <= n,
        amount_sum(ts, k) is None,
    ensures
        amount_sum(ts, n) is None,
    decreases n - k,
{
    if k < n {
        lemma_amount_sum_none_stays(ts, k + 1, n);
    }
}

/// The total amount of the trades.
pub fn total_amount(ts: &Vec<SuggestedManualTrade>) -> (r: Result<Dec, Error>)
    requires
        forall|i: int| 0 <= i < ts@.len() ==> (#[trigger] ts@[i]).estimated_amount.wf(),
    ensures
        match amount_sum(ts@, ts@.len() as int) {
            Some(d) => r == Ok::<Dec, Error>(d) && d.wf(),
            None => r matches Err(e) && e is Calculation,
        },
{
    let mut acc = Dec::zero();
    let mut k: usize = 0;
    while k < ts.len()
        invariant
            k <= ts@.len(),
            forall|i: int| 0 <= i < ts@.len() ==> (#[trigger] ts@[i]).estimated_amount.wf(),
            acc.wf(),
            amount_sum(ts@, k as int) == Some(acc),
        decreases ts@.len() - k,
    {
        acc = match dec_checked_add(acc, ts[k].estimated_amount) {
            Some(v) => v,
            None => {
                proof { lemma_amount_sum_none_stays(ts@, k + 1, ts@.len() as int); }
                return Err(overflow("cash used"));
            },
        };
        k = k + 1;
    }
    Ok(acc)
}


/// The sleeve-level buys over the first `k` uncovered categories, from the cash `cash`:
/// each category, while cash is left, gets its shortfall or the cash left, whichever is
/// smaller, when that is positive. The buys (category index, amount) and the cash left;
/// `None` on overflow.
pub open spec fn manual_prefix(uncovered: Seq<usize>, cats: Seq<CategoryState>, goal: RebalanceGoal, band: Dec, total: Dec, cash: Dec, k: int) -> Option<(Seq<(int, Dec)>, Dec)>
    decreases k,
{
    if k <= 0 {
        Some((Seq::empty(), cash))
    } else {
        match manual_prefix(uncovered, cats, goal, band, total, cash, k - 1) {
            None => None,
            Some((buys, left)) => if units(left) <= 0 {
                Some((buys, left))
            } else {
                let c = cats[uncovered[k - 1] as int];
                match spec_desired_value(c, goal, band, total) {
                    None => None,
                    Some(dv) => match spec_checked_sub(dv, c.current_value) {
                        None => None,
                        Some(gap) => {
                            let amount = dec_min(dec_max(gap, dec_zero()), left);
                            if units(amount) > 0 {
                                match spec_checked_sub(left, amount) {
                                    None => None,
                                    Some(left2) => Some((buys.push((uncovered[k - 1] as int, amount)), left2)),
                                }
                            } else {
                                Some((buys, left))
                            }
                        },
                    },
                }
            },
        }
    }
}

proof fn lemma_manual_none_stays(uncovered: Seq<usize>, cats: Seq<CategoryState>, goal: RebalanceGoal, band: Dec, total: Dec, cash: Dec, k: int, n: int)
    requires
        0 <= k <= n,
        manual_prefix(uncovered, cats, goal, band, total, cash, k) is None,
    ensures
        manual_prefix(uncovered, cats, goal, band, total, cash, n) is None,
    decreases n - k,
{
    if k < n {
        lemma_manual_none_stays(uncovered, cats, goal, band, total, cash, k + 1, n);
    }
}

proof fn lemma_manual_stopped_stays(uncovered: Seq<usize>, cats: Seq<CategoryState>, goal: RebalanceGoal, band: Dec, total: Dec, cash: Dec, k: int, n: int)
    requires
        0 <= k <= n,
        manual_prefix(uncovered, cats, goal, band, total, cash, k) matches Some((_, left)) && units(left) <= 0,
    ensures
        manual_prefix(uncovered, cats, goal, band, total, cash, n) == manual_prefix(uncovered, cats, goal, band, total, cash, k),
    decreases n - k,
{
    if k < n {
        lemma_manual_stopped_stays(uncovered, cats, goal, band, total, cash, k + 1, n);
    }
}

/// A sleeve-level buy of the category for the amount.
pub open spec fn is_manual_trade(t: SuggestedManualTrade, c: CategoryState, amount: Dec) -> bool {
    &&& t.action@ == "buy"@
    &&& t.category_id == c.category_id
    &&& t.category_name == c.category_name
    &&& t.asset_id is None
    &&& t.symbol is None
    &&& t.name is None
    &&& t.quantity is None
    &&& t.estimated_price is None
    &&& t.estimated_amount == amount
    &&& t.reason@ == "Category "@ + c.category_name@ + " is underweight. Allocate manually."@
}

/// The trades appended are the buys, in order.
pub open spec fn manual_trades_ok(old_ts: Seq<SuggestedManualTrade>, ts: Seq<SuggestedManualTrade>, buys: Seq<(int, Dec)>, cats: Seq<CategoryState>) -> bool {
    &&& ts.len() == old_ts.len() + buys.len()
    &&& forall|i: int| 0 <= i < old_ts.len() ==> #[trigger] ts[i] == old_ts[i]
    &&& forall|i: int| 0 <= i < buys.len() ==> is_manual_trade(#[trigger] ts[old_ts.len() + i], cats[buys[i].0], buys[i].1)
}

/// Sleeve-level trades for the uncovered categories, drawn from the cash the asset
/// trades leave, in category order, each for the category's shortfall or what is left.
fn manual_trades(
    uncovered: &Vec<usize>,
    cats: &Vec<CategoryState>,
    goal: RebalanceGoal,
    band: Dec,
    total: Dec,
    cash: Dec,
    trades: &mut Vec<SuggestedManualTrade>,
    input: &RebalanceInput,
) -> (r: Result<(), Error>)
    requires
        cats_wf(cats@),
        cats == input.categories,
        band.wf(),
        total.wf(),
        cash.wf(),
        opt_trades_ok(old(trades)@, *input),
        forall|i: int| 0 <= i < uncovered@.len() ==> (#[trigger] uncovered@[i]) < cats@.len() && steered(cats@[uncovered@[i] as int])
            && !covered(input.candidates@, cats@[uncovered@[i] as int].category_id@),
    ensures
        r is Err ==> r->Err_0 is Calculation,
        r is Ok ==> opt_trades_ok(final(trades)@, *input),
        match manual_prefix(uncovered@, cats@, goal, band, total, cash, uncovered@.len() as int) {
            Some((buys, _)) => r is Ok && manual_trades_ok(old(trades)@, final(trades)@, buys, cats@),
            None => r is Err,
        },
{
    let ghost t0 = trades@;
    let zero = Dec::zero();
    let mut left = cash;
    let mut k: usize = 0;
    while k < uncovered.len()
        invariant
            k <= uncovered@.len(),
            cats_wf(cats@),
            cats == input.categories,
            band.wf(),
            total.wf(),
            left.wf(),
            zero == dec_zero(),
            units(zero) == 0,
            opt_trades_ok(trades@, *input),
            forall|i: int| 0 <= i < uncovered@.len() ==> (#[trigger] uncovered@[i]) < cats@.len() && steered(cats@[uncovered@[i] as int])
                && !covered(input.candidates@, cats@[uncovered@[i] as int].category_id@),
            t0 == old(trades)@,
            manual_prefix(uncovered@, cats@, goal, band, total, cash, k as int) is Some,
            manual_prefix(uncovered@, cats@, goal, band, total, cash, k as int).unwrap().1 == left,
            manual_trades_ok(t0, trades@, manual_prefix(uncovered@, cats@, goal, band, total, cash, k as int).unwrap().0, cats@),
        ensures
            opt_trades_ok(trades@, *input),
            manual_prefix(uncovered@, cats@, goal, band, total, cash, uncovered@.len() as int) is Some,
            manual_trades_ok(t0, trades@, manual_prefix(uncovered@, cats@, goal, band, total, cash, uncovered@.len() as int).unwrap().0, cats@),
        decreases uncovered@.len() - k,
    {
        let ghost tk = trades@;
        if !dec_lt(zero, left) {
            proof {
                lemma_manual_stopped_stays(uncovered@, cats@, goal, band, total, cash, k as int, uncovered@.len() as int);
            }
            break;
        }
        let ci = uncovered[k];
        let c = &cats[ci];
        let dv = match desired_value(c, goal, band, total) {
            Ok(v) => v,
            Err(e) => {
                proof { lemma_manual_none_stays(uncovered@, cats@, goal, band, total, cash, k + 1, uncovered@.len() as int); }
                return Err(e);
            },
        };
        let gap = match need(dec_checked_sub(dv, c.current_value), "category shortfall") {
            Ok(v) => v,
            Err(e) => {
                proof { lemma_manual_none_stays(uncovered@, cats@, goal, band, total, cash, k + 1, uncovered@.len() as int); }
                return Err(e);
            },
        };
        let shortfall = dec_max_exec(gap, zero);
        let amount = dec_min_exec(shortfall, left);
        if dec_lt(zero, amount) {
            left = match need(dec_checked_sub(left, amount), "manual cash") {
                Ok(v) => v,
                Err(e) => {
                    proof { lemma_manual_none_stays(uncovered@, cats@, goal, band, total, cash, k + 1, uncovered@.len() as int); }
                    return Err(e);
                },
            };
            let mut reason = String::from_str("Category ");
            reason.append(c.category_name.as_str());
            reason.append(" is underweight. Allocate manually.");
            let t = SuggestedManualTrade {
                action: String::from_str("buy"),
                category_id: c.category_id.clone(),
                category_name: c.category_name.clone(),
                asset_id: None,
                symbol: None,
                name: None,
                quantity: None,
                estimated_price: None,
                estimated_amount: amount,
                reason,
            };
            proof {
                reveal_strlit("buy");
                assert(steered(cats@[ci as int]) && cats@[ci as int].category_id@ == t.category_id@);
                assert(is_manual_trade(t, cats@[ci as int], amount));
            }
            trades.push(t);
            proof {
                let (buys, l) = manual_prefix(uncovered@, cats@, goal, band, total, cash, k as int).unwrap();
                let nb = buys.push((ci as int, amount));
                assert(manual_prefix(uncovered@, cats@, goal, band, total, cash, k + 1) == Some((nb, left)));
                assert forall|i: int| 0 <= i < nb.len() implies is_manual_trade(#[trigger] trades@[t0.len() + i], cats@[nb[i].0], nb[i].1) by {
                    if i < buys.len() {
                        assert(trades@[t0.len() + i] == tk[t0.len() + i]);
                    }
                }
                assert forall|i: int| 0 <= i < t0.len() implies #[trigger] trades@[i] == t0[i] by {
                    assert(trades@[i] == tk[i]);
                }
            }
        } else {
            proof {
                let mp = manual_prefix(uncovered@, cats@, goal, band, total, cash, k as int);
                assert(manual_prefix(uncovered@, cats@, goal, band, total, cash, k + 1) == mp);
            }
        }
        k = k + 1;
    }
    Ok(())
}

/// The candidate index of the first position, from `p` on, of `order` whose candidate
/// has the asset id.
pub open spec fn first_candidate(order: Seq<usize>, cands: Seq<AssetCandidate>, asset_id: Seq<char>, p: int) -> Option<int>
    decreases order.len() - p,
{
    if p < 0 || p >= order.len() {
        None
    } else if cands[order[p] as int].asset_id@ == asset_id {
        Some(order[p] as int)
    } else {
        first_candidate(order, cands, asset_id, p + 1)
    }
}

/// Index of the first candidate, in `order`, with the asset id.
fn find_candidate(order: &Vec<usize>, cands: &Vec<AssetCandidate>, asset_id: &String) -> (r: Option<usize>)
    requires
        order_ok(order@, cands@.len() as int),
    ensures
        r matches Some(i) ==> i < cands@.len(),
        match first_candidate(order@, cands@, asset_id@, 0) {
            Some(c) => r matches Some(x) && x as int == c,
            None => r is None,
        },
{
    let mut p: usize = 0;
    while p < order.len()
        invariant
            p <= order@.len(),
            order_ok(order@, cands@.len() as int),
            first_candidate(order@, cands@, asset_id@, 0) == first_candidate(order@, cands@, asset_id@, p as int),
        decreases order@.len() - p,
    {
        let ci = order[p];
        proof {
            assert(order@[p as int] < cands@.len());
        }
        if crate::model::str_eq(cands[ci].asset_id.as_str(), asset_id.as_str()) {
            return Some(ci);
        }
        p = p + 1;
    }
    None
}

/// The values after carrying out the first `k` trades: an asset trade adds its
/// candidate's exposure (the first candidate in `order` with its asset) times its shares
/// (zero when it has none); a sleeve-level trade adds its amount to its category.
pub open spec fn spec_after_trades(order: Seq<usize>, cands: Seq<AssetCandidate>, trades: Seq<SuggestedManualTrade>, start: Seq<(String, Dec)>, k: int) -> Option<Seq<(String, Dec)>>
    decreases k,
{
    if k <= 0 {
        Some(start)
    } else {
        match spec_after_trades(order, cands, trades, start, k - 1) {
            None => None,
            Some(m) => {
                let t = trades[k - 1];
                match t.asset_id {
                    Some(a) => match first_candidate(order, cands, a@, 0) {
                        Some(ci) => {
                            let shares = match t.quantity { Some(q) => q, None => dec_zero() };
                            spec_add_exposure(m, cands[ci].exposure_per_share@, shares, cands[ci].exposure_per_share@.len() as int)
                        },
                        None => Some(m),
                    },
                    None => spec_add_keyed(m, t.category_id, t.estimated_amount),
                }
            },
        }
    }
}

/// The values after each of the first `j` cash categories sheds the cash used (not
/// below zero).
pub open spec fn spec_after_cash(cats: Seq<CategoryState>, used: Dec, start: Seq<(String, Dec)>, j: int) -> Option<Seq<(String, Dec)>>
    decreases j,
{
    if j <= 0 {
        Some(start)
    } else {
        match spec_after_cash(cats, used, start, j - 1) {
            None => None,
            Some(m) => if cats[j - 1].is_cash {
                match spec_checked_sub(value_of(m, cats[j - 1].category_id@), used) {
                    None => None,
                    Some(less) => Some(spec_set_keyed(m, cats[j - 1].category_id, dec_max(less, dec_zero()))),
                }
            } else {
                Some(m)
            },
        }
    }
}

/// The category values after the plan.
pub open spec fn spec_after_values(order: Seq<usize>, cands: Seq<AssetCandidate>, cats: Seq<CategoryState>, trades: Seq<SuggestedManualTrade>, used: Dec) -> Option<Seq<(String, Dec)>> {
    match spec_after_trades(order, cands, trades, spec_initial_values(cats, cats.len() as int), trades.len() as int) {
        None => None,
        Some(m) => spec_after_cash(cats, used, m, cats.len() as int),
    }
}

proof fn lemma_after_trades_none_stays(order: Seq<usize>, cands: Seq<AssetCandidate>, trades: Seq<SuggestedManualTrade>, start: Seq<(String, Dec)>, k: int, n: int)
    requires
        0 <= k <= n,
        spec_after_trades(order, cands, trades, start, k) is None,
    ensures
        spec_after_trades(order, cands, trades, start, n) is None,
    decreases n - k,
{
    if k < n {
        lemma_after_trades_none_stays(order, cands, trades, start, k + 1, n);
    }
}

proof fn lemma_after_cash_none_stays(cats: Seq<CategoryState>, used: Dec, start: Seq<(String, Dec)>, j: int, n: int)
    requires
        0 <= j <= n,
        spec_after_cash(cats, used, start, j) is None,
    ensures
        spec_after_cash(cats, used, start, n) is None,
    decreases n - j,
{
    if j < n {
        lemma_after_cash_none_stays(cats, used, start, j + 1, n);
    }
}

/// Category values once the trades are carried out: each asset trade adds its
/// candidate's exposure times its shares, each sleeve-level trade adds its amount to its
/// category, and cash categories shed the cash used (not below zero).
fn after_values(
    order: &Vec<usize>,
    cands: &Vec<AssetCandidate>,
    cats: &Vec<CategoryState>,
    trades: &Vec<SuggestedManualTrade>,
    used: Dec,
) -> (r: Result<Vec<(String, Dec)>, Error>)
    requires
        order_ok(order@, cands@.len() as int),
        candidates_wf(cands@),
        cats_wf(cats@),
        used.wf(),
        forall|i: int| 0 <= i < trades@.len() ==> (#[trigger] trades@[i]).estimated_amount.wf()
            && (trades@[i].quantity matches Some(q) ==> q.wf()),
    ensures
        r is Err ==> r->Err_0 is Calculation,
        r matches Ok(m) ==> keys_unique(m@) && values_wf(m@),
        match spec_after_values(order@, cands@, cats@, trades@, used) {
            Some(m) => r matches Ok(v) && v@ == m,
            None => r is Err,
        },
{
    let mut after = initial_values(cats);
    let ghost start = after@;
    let mut k: usize = 0;
    while k < trades.len()
        invariant
            k <= trades@.len(),
            order_ok(order@, cands@.len() as int),
            candidates_wf(cands@),
            keys_unique(after@),
            values_wf(after@),
            forall|i: int| 0 <= i < trades@.len() ==> (#[trigger] trades@[i]).estimated_amount.wf()
                && (trades@[i].quantity matches Some(q) ==> q.wf()),
            start == spec_initial_values(cats@, cats@.len() as int),
            spec_after_trades(order@, cands@, trades@, start, k as int) == Some(after@),
        decreases trades@.len() - k,
    {
        let t = &trades[k];
        proof {
            assert(t.estimated_amount.wf());
        }
        match &t.asset_id {
            Some(a) => {
                match find_candidate(order, cands, a) {
                    Some(ci) => {
                        proof {
                            assert(candidate_wf(cands@[ci as int]));
                        }
                        let shares = match t.quantity {
                            Some(q) => q,
                            None => Dec::zero(),
                        };
                        match add_exposure(&mut after, &cands[ci].exposure_per_share, shares) {
                            Ok(()) => {},
                            Err(e) => {
                                proof {
                                    assert(spec_after_trades(order@, cands@, trades@, start, k + 1) is None);
                                    lemma_after_trades_none_stays(order@, cands@, trades@, start, k + 1, trades@.len() as int);
                                }
                                return Err(e);
                            },
                        }
                        proof {
                            assert(spec_after_trades(order@, cands@, trades@, start, k + 1) == Some(after@));
                        }
                    },
                    None => {
                        proof {
                            assert(spec_after_trades(order@, cands@, trades@, start, k + 1) == Some(after@));
                        }
                    },
                }
            },
            None => {
                match add_keyed_value(&mut after, &t.category_id, t.estimated_amount) {
                    Ok(()) => {},
                    Err(e) => {
                        proof {
                            assert(spec_after_trades(order@, cands@, trades@, start, k + 1) is None);
                            lemma_after_trades_none_stays(order@, cands@, trades@, start, k + 1, trades@.len() as int);
                        }
                        return Err(e);
                    },
                }
                proof {
                    assert(spec_after_trades(order@, cands@, trades@, start, k + 1) == Some(after@));
                }
            },
        }
        k = k + 1;
    }
    let ghost mid = after@;
    let mut j: usize = 0;
    while j < cats.len()
        invariant
            j <= cats@.len(),
            cats_wf(cats@),
            used.wf(),
            keys_unique(after@),
            values_wf(after@),
            spec_after_cash(cats@, used, mid, j as int) == Some(after@),
            start == spec_initial_values(cats@, cats@.len() as int),
            spec_after_trades(order@, cands@, trades@, start, trades@.len() as int) == Some(mid),
        decreases cats@.len() - j,
    {
        let c = &cats[j];
        if c.is_cash {
            let v = get_value(&after, c.category_id.as_str());
            let less = match need(dec_checked_sub(v, used), "cash after plan") {
                Ok(x) => x,
                Err(e) => {
                    proof {
                        lemma_after_cash_none_stays(cats@, used, mid, j + 1, cats@.len() as int);
                    }
                    return Err(e);
                },
            };
            set_value(&mut after, &c.category_id, dec_max_exec(less, Dec::zero()));
        }
        j = j + 1;
    }
    Ok(after)
}

/// The share in bps of each category after the plan, when the total is positive.
fn after_bps(after: &Vec<(String, Dec)>, total: Dec) -> (r: Result<Vec<(String, i32)>, Error>)
    requires
        values_wf(after@),
        total.wf(),
    ensures
        r is Err ==> r->Err_0 is Calculation,
        r matches Ok(v) ==> (units(total) <= 0 ==> v@.len() == 0) && (units(total) > 0 ==> v@.len() == after@.len()),
        units(total) > 0 ==> (r is Ok <==> forall|k: int| 0 <= k < after@.len() ==> (#[trigger] spec_bps_of(after@[k].1, total)) is Some),
        units(total) <= 0 ==> r is Ok,
        r matches Ok(v) ==> forall|k: int| 0 <= k < v@.len() ==> (#[trigger] v@[k]).0 == after@[k].0
            && v@[k].1 == i32_or_zero(crate::dec::spec_round_mantissa(spec_bps_of(after@[k].1, total).unwrap())),
{
    let mut out: Vec<(String, i32)> = Vec::new();
    if !dec_lt(Dec::zero(), total) {
        return Ok(out);
    }
    let mut k: usize = 0;
    while k < after.len()
        invariant
            k <= after@.len(),
            values_wf(after@),
            total.wf(),
            out@.len() == k,
            units(total) > 0,
            forall|q: int| 0 <= q < k ==> (#[trigger] spec_bps_of(after@[q].1, total)) is Some,
            forall|q: int| 0 <= q < k ==> (#[trigger] out@[q]).0 == after@[q].0
                && out@[q].1 == i32_or_zero(crate::dec::spec_round_mantissa(spec_bps_of(after@[q].1, total).unwrap())),
        decreases after@.len() - k,
    {
        let b = match bps_of(after[k].1, total) {
            Ok(b) => b,
            Err(e) => return Err(e),
        };
        out.push((after[k].0.clone(), mantissa_to_i32_or_zero(dec_round(b).mantissa)));
        k = k + 1;
    }
    Ok(out)
}

/// The input's decimals are representable and each candidate names a category once.
pub open spec fn input_wf(input: RebalanceInput) -> bool {
    &&& input.available_cash.wf()
    &&& input.total_value.wf()
    &&& input.profile.min_trade_amount.wf()
    &&& cats_wf(input.categories@)
    &&& candidates_wf(input.candidates@)
}

fn input_is_wf(input: &RebalanceInput) -> (r: bool)
    ensures
        r == input_wf(*input),
{
    if !(input.available_cash.is_wf() && input.total_value.is_wf() && input.profile.min_trade_amount.is_wf()) {
        return false;
    }
    let mut k: usize = 0;
    while k < input.categories.len()
        invariant
            k <= input.categories@.len(),
            forall|i: int| 0 <= i < k ==> (#[trigger] input.categories@[i]).current_value.wf(),
        decreases input.categories@.len() - k,
    {
        if !input.categories[k].current_value.is_wf() {
            return false;
        }
        k = k + 1;
    }
    let mut c: usize = 0;
    while c < input.candidates.len()
        invariant
            c <= input.candidates@.len(),
            forall|i: int| 0 <= i < c ==> candidate_wf(#[trigger] input.candidates@[i]),
        decreases input.candidates@.len() - c,
    {
        let cand = &input.candidates[c];
        if !cand.price.is_wf() {
            return false;
        }
        let ex = &cand.exposure_per_share;
        let mut i: usize = 0;
        while i < ex.len()
            invariant
                i <= ex@.len(),
                c < input.candidates@.len(),
                *ex == input.candidates@[c as int].exposure_per_share,
                forall|a: int| 0 <= a < i ==> (#[trigger] ex@[a]).1.wf(),
                forall|a: int, b: int| 0 <= a < b < i ==> (#[trigger] ex@[a]).0@ != (#[trigger] ex@[b]).0@,
            decreases ex@.len() - i,
        {
            if !ex[i].1.is_wf() {
                proof {
                    assert(!values_wf(ex@));
                    assert(!candidate_wf(input.candidates@[c as int]));
                }
                return false;
            }
            let mut j: usize = 0;
            while j < i
                invariant
                    j <= i,
                    i < ex@.len(),
                    c < input.candidates@.len(),
                    *ex == input.candidates@[c as int].exposure_per_share,
                    forall|a: int| 0 <= a < j ==> (#[trigger] ex@[a]).0@ != ex@[i as int].0@,
                decreases i - j,
            {
                if crate::model::str_eq(ex[j].0.as_str(), ex[i].0.as_str()) {
                    proof {
                        assert(ex@[j as int].0@ == ex@[i as int].0@);
                        assert(!keys_unique(ex@));
                        assert(!candidate_wf(input.candidates@[c as int]));
                    }
                    return false;
                }
                j = j + 1;
            }
            i = i + 1;
        }
        c = c + 1;
    }
    true
}

/// What an optimizer plan states of its input.
/// The drift band of a profile as a decimal.
pub open spec fn band_of(input: RebalanceInput) -> Dec {
    Dec { mantissa: input.profile.drift_band_bps as i128, scale: 0 }
}

/// The plan's trades follow the greedy over the candidates in `order`: the shares it buys
/// become the asset trades (in `order`), and the cash they leave funds the sleeve-level
/// buys of the uncovered categories, in category order; the warnings after the input's
/// are those of the uncovered categories.
pub open spec fn follows_greedy(plan: RebalancePlan, input: RebalanceInput, order: Seq<usize>) -> bool {
    let cats = input.categories@;
    let cands = input.candidates@;
    let goal = input.profile.rebalance_goal;
    let band = band_of(input);
    let total = input.total_value;
    let cash = input.available_cash;
    let min_trade = input.profile.min_trade_amount;
    let unc = uncovered_indices(cats, cands, goal, band, total, cats.len() as int);
    let w0 = input.warnings@;
    &&& plan.warnings@.len() == w0.len() + unc.len()
    &&& forall|i: int| 0 <= i < unc.len() ==> is_no_candidate_warning(#[trigger] plan.warnings@[w0.len() + i], cats[unc[i]], goal, band, total)
    &&& spec_greedy(order, cands, input.profile.whole_shares_only, cash, spec_initial_values(cats, cats.len() as int),
        no_shares(order.len() as int), cats, total, goal, band) matches Some(b)
    &&& {
        let m = trade_positions(order, cands, b, min_trade, order.len() as int).len() as int;
        &&& m <= plan.trades@.len()
        &&& asset_trades_ok(plan.trades@.take(m), order, cands, b, cats, min_trade, order.len() as int)
        &&& amount_sum(plan.trades@, m) matches Some(spent)
        &&& spec_checked_sub(cash, spent) matches Some(left)
        &&& manual_prefix(Seq::new(unc.len(), |i: int| unc[i] as usize), cats, goal, band, total, left, unc.len() as int) matches Some((buys, _))
        &&& manual_trades_ok(plan.trades@.take(m), plan.trades@, buys, cats)
    }
    &&& units(total) == 0 ==> plan.max_drift_bps_before == 0 && plan.max_drift_bps_after == 0
    &&& units(total) != 0 ==> spec_max_drift(spec_initial_values(cats, cats.len() as int), cats, total, cats.len() as int)
        == Some(plan.max_drift_bps_before as int)
    &&& spec_after_values(order, cands, cats, plan.trades@, plan.cash_used) matches Some(after)
    &&& units(total) != 0 ==> spec_max_drift(after, cats, total, cats.len() as int) == Some(plan.max_drift_bps_after as int)
    &&& units(total) <= 0 ==> plan.after_bps_by_category@.len() == 0
    &&& units(total) > 0 ==> plan.after_bps_by_category@.len() == after.len()
        && forall|k: int| 0 <= k < after.len() ==> (#[trigger] plan.after_bps_by_category@[k]).0 == after[k].0
            && plan.after_bps_by_category@[k].1 == i32_or_zero(crate::dec::spec_round_mantissa(spec_bps_of(after[k].1, total).unwrap()))
}

/// The plan follows the order of the candidates by price, symbol and asset id (there is
/// only one such order: `law_candidate_order_unique`).
pub open spec fn follows_some_order(plan: RebalancePlan, input: RebalanceInput) -> bool {
    exists|order: Seq<usize>| #[trigger] candidate_order_ok(order, input.candidates@) && follows_greedy(plan, input, order)
}

/// The steps after the cash left by the asset trades `ts` is known: the sleeve-level
/// buys, the cash used, the values after the plan and their drifts; true when one of
/// them overflows.
pub open spec fn opt_tail_fails(input: RebalanceInput, order: Seq<usize>, ts: Seq<SuggestedManualTrade>, all: Seq<SuggestedManualTrade>, left: Dec) -> bool {
    let cats = input.categories@;
    let cands = input.candidates@;
    let goal = input.profile.rebalance_goal;
    let band = band_of(input);
    let total = input.total_value;
    let cash = input.available_cash;
    let unc = uncovered_indices(cats, cands, goal, band, total, cats.len() as int);
    match manual_prefix(Seq::new(unc.len(), |i: int| unc[i] as usize), cats, goal, band, total, left, unc.len() as int) {
        None => true,
        Some(mp) => manual_trades_ok(ts, all, mp.0, cats) && match amount_sum(all, all.len() as int) {
            None => true,
            Some(used) => match spec_checked_sub(cash, used) {
                None => true,
                Some(_) => match spec_after_values(order, cands, cats, all, used) {
                    None => true,
                    Some(after) => (units(total) != 0 && spec_max_drift(after, cats, total, cats.len() as int) is None)
                        || (units(total) > 0 && !(forall|k: int| 0 <= k < after.len() ==> (#[trigger] spec_bps_of(after[k].1, total)) is Some)),
                },
            },
        },
    }
}

/// Planning with this candidate order, these bought shares, asset trades `ts` and all
/// trades `all` overflows at some decimal step.
pub open spec fn opt_fails_at(input: RebalanceInput, order: Seq<usize>, b: Seq<Dec>, ts: Seq<SuggestedManualTrade>, all: Seq<SuggestedManualTrade>) -> bool {
    let cats = input.categories@;
    let cands = input.candidates@;
    let goal = input.profile.rebalance_goal;
    let band = band_of(input);
    let total = input.total_value;
    let cash = input.available_cash;
    let min_trade = input.profile.min_trade_amount;
    ||| units(total) != 0 && spec_max_drift(spec_initial_values(cats, cats.len() as int), cats, total, cats.len() as int) is None
    ||| !(forall|k: int| 0 <= k < cats.len() ==> (#[trigger] uncovered_at(cats[k], cands, goal, band, total)) is Some)
    ||| candidate_order_ok(order, cands) && match spec_greedy(order, cands, input.profile.whole_shares_only, cash,
            spec_initial_values(cats, cats.len() as int), no_shares(order.len() as int), cats, total, goal, band) {
            None => true,
            Some(b2) => b2 == b && (!(forall|p: int| 0 <= p < order.len() ==> (#[trigger] position_amount(order, cands, b, min_trade, p)) is Some)
                || (asset_trades_ok(ts, order, cands, b, cats, min_trade, order.len() as int) && match amount_sum(ts, ts.len() as int) {
                    None => true,
                    Some(spent) => match spec_checked_sub(cash, spent) {
                        None => true,
                        Some(left) => opt_tail_fails(input, order, ts, all, left),
                    },
                })),
        }
}

/// The optimizer can fail only on input that is not well formed or where a decimal step
/// overflows.
pub open spec fn opt_may_fail(input: RebalanceInput) -> bool {
    ||| !input_wf(input)
    ||| !(units(input.total_value) == 0 && units(input.available_cash) == 0)
        && exists|order: Seq<usize>, b: Seq<Dec>, ts: Seq<SuggestedManualTrade>, all: Seq<SuggestedManualTrade>|
            #[trigger] opt_fails_at(input, order, b, ts, all)
}

pub open spec fn optimizer_plan_ok(plan: RebalancePlan, input: RebalanceInput) -> bool {
    let w0 = input.warnings@;
    &&& plan.target_id == input.profile.target_id
    &&& plan.warnings@.len() >= w0.len()
    &&& forall|i: int| 0 <= i < w0.len() ==> #[trigger] plan.warnings@[i] == w0[i]
    &&& forall|i: int| w0.len() <= i < plan.warnings@.len() ==> (#[trigger] plan.warnings@[i]).kind == RebalanceWarningKind::NoBuyCandidate
    &&& if units(input.total_value) == 0 && units(input.available_cash) == 0 {
        &&& plan.trades@.len() == 0
        &&& plan.available_cash == dec_zero()
        &&& plan.cash_used == dec_zero()
        &&& plan.cash_remaining == dec_zero()
        &&& plan.max_drift_bps_before == 0
        &&& plan.max_drift_bps_after == 0
        &&& plan.warnings@ == w0
    } else {
        &&& plan.available_cash == input.available_cash
        &&& opt_trades_ok(plan.trades@, input)
        &&& amount_sum(plan.trades@, plan.trades@.len() as int) == Some(plan.cash_used)
        &&& spec_checked_sub(input.available_cash, plan.cash_used) == Some(plan.cash_remaining)
        &&& follows_some_order(plan, input)
    }
}

impl RebalanceOptimizer for DriftPriorityOptimizer {
    /// Greedy exposure-aware planning: warns about uncovered underweight categories,
    /// runs the greedy over the candidates (cheapest first on ties), turns the shares
    /// into trades (dropping those below a positive minimum), fills uncovered categories
    /// with sleeve-level trades from the cash left, and measures the drift before and
    /// after.
    fn plan(&self, input: RebalanceInput) -> (r: Result<RebalancePlan, Error>)
        ensures
            r matches Ok(plan) ==> optimizer_plan_ok(plan, input),
            !input_wf(input) ==> r is Err,
            input_wf(input) && units(input.total_value) == 0 && units(input.available_cash) == 0 ==> r is Ok,
            r is Err ==> opt_may_fail(input),
    {
        if !input_is_wf(&input) {
            return Err(Error::Calculation(String::from_str("a decimal outside the range of a 96-bit decimal, or an exposure named twice")));
        }
        let total = input.total_value;
        let cash = input.available_cash;
        if is_zero(total) && is_zero(cash) {
            let mut warnings: Vec<RebalanceWarning> = Vec::new();
            let mut k: usize = 0;
            while k < input.warnings.len()
                invariant
                    k <= input.warnings@.len(),
                    warnings@.len() == k,
                    forall|i: int| 0 <= i < k ==> #[trigger] warnings@[i] == input.warnings@[i],
                decreases input.warnings@.len() - k,
            {
                let w = &input.warnings[k];
                warnings.push(RebalanceWarning { kind: w.kind, category_id: w.category_id.clone(), message: w.message.clone() });
                k = k + 1;
            }
            proof {
                assert(warnings@ =~= input.warnings@);
            }
            return Ok(RebalancePlan {
                target_id: input.profile.target_id.clone(),
                available_cash: Dec::zero(),
                cash_used: Dec::zero(),
                cash_remaining: Dec::zero(),
                max_drift_bps_before: 0,
                max_drift_bps_after: 0,
                trades: Vec::new(),
                warnings,
                after_bps_by_category: Vec::new(),
            });
        }
        let goal = input.profile.rebalance_goal;
        let band = Dec::from_i64(input.profile.drift_band_bps as i64);
        let whole = input.profile.whole_shares_only;
        let cats = &input.categories;
        let cands = &input.candidates;
        let values = initial_values(cats);
        let before = match max_drift_bps(&values, cats, total) {
            Ok(v) => v,
            Err(e) => {
                proof {
                    assert(opt_fails_at(input, Seq::<usize>::empty(), Seq::<Dec>::empty(), Seq::<SuggestedManualTrade>::empty(), Seq::<SuggestedManualTrade>::empty()));
                }
                return Err(e);
            },
        };
        let mut warnings: Vec<RebalanceWarning> = Vec::new();
        let mut k: usize = 0;
        while k < input.warnings.len()
            invariant
                k <= input.warnings@.len(),
                warnings@.len() == k,
                forall|i: int| 0 <= i < k ==> #[trigger] warnings@[i] == input.warnings@[i],
            decreases input.warnings@.len() - k,
        {
            let w = &input.warnings[k];
            warnings.push(RebalanceWarning { kind: w.kind, category_id: w.category_id.clone(), message: w.message.clone() });
            k = k + 1;
        }
        proof {
            assert(warnings@ =~= input.warnings@);
            assert(band == band_of(input));
        }
        let uncovered = match uncovered_categories(cats, cands, goal, band, total, &mut warnings) {
            Ok(v) => v,
            Err(e) => {
                proof {
                    assert(opt_fails_at(input, Seq::<usize>::empty(), Seq::<Dec>::empty(), Seq::<SuggestedManualTrade>::empty(), Seq::<SuggestedManualTrade>::empty()));
                }
                return Err(e);
            },
        };
        proof {
            let unc = uncovered_indices(cats@, cands@, goal, band, total, cats@.len() as int);
            assert(uncovered@ =~= Seq::new(unc.len(), |i: int| unc[i] as usize));
        }
        let order = candidate_order(cands);
        let bought = match greedy_shares(&order, cands, whole, cash, &values, cats, total, goal, band) {
            Ok(v) => v,
            Err(e) => {
                proof {
                    assert(opt_fails_at(input, order@, Seq::<Dec>::empty(), Seq::<SuggestedManualTrade>::empty(), Seq::<SuggestedManualTrade>::empty()));
                }
                return Err(e);
            },
        };
        let mut trades = match trades_from_shares(&order, cands, &bought, cats, &input) {
            Ok(v) => v,
            Err(e) => {
                proof {
                    assert(opt_fails_at(input, order@, bought@, Seq::<SuggestedManualTrade>::empty(), Seq::<SuggestedManualTrade>::empty()));
                }
                return Err(e);
            },
        };
        let ghost asset_trades = trades@;
        let spent = match total_amount(&trades) {
            Ok(v) => v,
            Err(e) => {
                proof {
                    assert(opt_fails_at(input, order@, bought@, trades@, Seq::<SuggestedManualTrade>::empty()));
                }
                return Err(e);
            },
        };
        let left = match need(dec_checked_sub(cash, spent), "manual cash") {
            Ok(v) => v,
            Err(e) => {
                proof {
                    assert(opt_fails_at(input, order@, bought@, trades@, Seq::<SuggestedManualTrade>::empty()));
                }
                return Err(e);
            },
        };
        match manual_trades(&uncovered, cats, goal, band, total, left, &mut trades, &input) {
            Ok(()) => {},
            Err(e) => {
                proof {
                    assert(opt_fails_at(input, order@, bought@, asset_trades, trades@));
                }
                return Err(e);
            },
        }
        let used = match total_amount(&trades) {
            Ok(v) => v,
            Err(e) => {
                proof {
                    assert(opt_fails_at(input, order@, bought@, asset_trades, trades@));
                }
                return Err(e);
            },
        };
        let remaining = match need(dec_checked_sub(cash, used), "cash remaining") {
            Ok(v) => v,
            Err(e) => {
                proof {
                    assert(opt_fails_at(input, order@, bought@, asset_trades, trades@));
                }
                return Err(e);
            },
        };
        let after = match after_values(&order, cands, cats, &trades, used) {
            Ok(v) => v,
            Err(e) => {
                proof {
                    assert(opt_fails_at(input, order@, bought@, asset_trades, trades@));
                }
                return Err(e);
            },
        };
        let after_drift = match max_drift_bps(&after, cats, total) {
            Ok(v) => v,
            Err(e) => {
                proof {
                    assert(opt_fails_at(input, order@, bought@, asset_trades, trades@));
                }
                return Err(e);
            },
        };
        let by_category = match after_bps(&after, total) {
            Ok(v) => v,
            Err(e) => {
                proof {
                    assert(opt_fails_at(input, order@, bought@, asset_trades, trades@));
                }
                return Err(e);
            },
        };
        proof {
            let unc = uncovered_indices(cats@, cands@, goal, band, total, cats@.len() as int);
            assert(uncovered@ =~= Seq::new(unc.len(), |i: int| unc[i] as usize));
            let m = asset_trades.len() as int;
            assert(trades@.take(m) =~= asset_trades);
            lemma_amount_sum_prefix(trades@, asset_trades, m);
            assert(follows_greedy(
                RebalancePlan {
                    target_id: input.profile.target_id,
                    available_cash: cash,
                    cash_used: used,
                    cash_remaining: remaining,
                    max_drift_bps_before: before,
                    max_drift_bps_after: after_drift,
                    trades,
                    warnings,
                    after_bps_by_category: by_category,
                },
                input,
                order@,
            ));
        }
        Ok(RebalancePlan {
            target_id: input.profile.target_id.clone(),
            available_cash: cash,
            cash_used: used,
            cash_remaining: remaining,
            max_drift_bps_before: before,
            max_drift_bps_after: after_drift,
            trades,
            warnings,
            after_bps_by_category: by_category,
        })
    }
}

} // verus!
