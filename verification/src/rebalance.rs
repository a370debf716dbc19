//! Cash-flow rebalance planning: deploy tracked cash into underweight sleeves, in
//! proportion to their shortfall, and within a sleeve in proportion to the value of
//! its holdings.

use vstd::prelude::*;
use crate::allocation::{AllocationHoldings, AllocationServiceTrait, Holding, HoldingSummary, HoldingType,
    HoldingsServiceTrait};
use crate::dec::{Dec, MAX_MANTISSA, max_scale, dec_checked_add, dec_checked_div, dec_checked_mul, dec_checked_sub,
    dec_floor, dec_format_2dp, dec_lt, dec_parse, dec_round, exact_quotient, pow10, spec_checked_add, spec_format_2dp,
    spec_checked_div, spec_checked_mul, spec_checked_sub, spec_parse_decimal, spec_round_mantissa, units};
use crate::drift::{bps_scale, dec_zero};
use crate::errors::{Error, invalid, not_found};
use crate::model::{AllocationTarget, CalculateRebalancePlanInput, DriftReport, DriftRow,
    RebalanceGoal, RebalancePlan, RebalanceWarning, RebalanceWarningKind, SuggestedManualTrade, TradeView,
    opt_chars, trade_views};

verus! {

// ── Cash in scope ────────────────────────────────────────────────────────────

/// Sum of the base-currency values of the cash holdings among the first `k`, added in
/// order as `Decimal` adds them; `None` when an addition overflows.
pub open spec fn cash_sum(holdings: Seq<Holding>, k: int) -> Option<Dec>
    decreases k,
{
    if k <= 0 {
        Some(dec_zero())
    } else {
        match cash_sum(holdings, k - 1) {
            Some(acc) => if holdings[k - 1].holding_type == HoldingType::Cash {
                spec_checked_add(acc, holdings[k - 1].market_value.base)
            } else {
                Some(acc)
            },
            None => None,
        }
    }
}

/// Base-currency values of the holdings are representable.
pub open spec fn holdings_wf(holdings: Seq<Holding>) -> bool {
    forall|k: int| 0 <= k < holdings.len() ==> (#[trigger] holdings[k]).market_value.base.wf()
}

pub(crate) fn overflow(what: &str) -> (e: Error)
    ensures
        e matches Error::Calculation(m) && m@ == "decimal overflow in "@ + what@,
{
    let mut m = String::from_str("decimal overflow in ");
    m.append(what);
    Error::Calculation(m)
}

/// Tracked cash of the holdings: the sum of the base values of cash holdings.
pub fn cash_in_scope(holdings: &Vec<Holding>) -> (r: Result<Dec, Error>)
    requires
        holdings_wf(holdings@),
    ensures
        match cash_sum(holdings@, holdings@.len() as int) {
            Some(c) => r == Ok::<Dec, Error>(c),
            None => r matches Err(e) && e is Calculation,
        },
        r matches Ok(c) ==> c.wf(),
{
    let mut acc = Dec::zero();
    let mut k: usize = 0;
    while k < holdings.len()
        invariant
            0 <= k <= holdings@.len(),
            holdings_wf(holdings@),
            cash_sum(holdings@, k as int) == Some(acc),
            acc.wf(),
        decreases holdings@.len() - k,
    {
        if holdings[k].holding_type == HoldingType::Cash {
            match dec_checked_add(acc, holdings[k].market_value.base) {
                Some(v) => {
                    acc = v;
                },
                None => {
                    proof {
                        lemma_cash_sum_none_stays(holdings@, k as int + 1, holdings@.len() as int);
                    }
                    return Err(overflow("cash in scope"));
                },
            }
        }
        k = k + 1;
    }
    Ok(acc)
}

proof fn lemma_cash_sum_none_stays(holdings: Seq<Holding>, k: int, n: int)
    requires
        0 <= k <= n,
        cash_sum(holdings, k) is None,
    ensures
        cash_sum(holdings, n) is None,
    decreases n - k,
{
    if k < n {
        lemma_cash_sum_none_stays(holdings, k + 1, n);
    }
}

// ── Currency minor units ─────────────────────────────────────────────────────

/// ASCII upper case of a character.
pub open spec fn ascii_upper(c: char) -> char {
    if 'a' <= c && c <= 'z' {
        ((c as u32) - 32) as char
    } else {
        c
    }
}

/// The ASCII upper case of `s` is `t`.
pub open spec fn upper_is(s: Seq<char>, t: Seq<char>) -> bool {
    s.len() == t.len() && forall|i: int| 0 <= i < s.len() ==> ascii_upper(#[trigger] s[i]) == t[i]
}

/// Whether the ASCII upper case of `s` equals the upper-case ASCII text `t`.
fn upper_eq(s: &str, t: &str) -> (r: bool)
    requires
        forall|i: int| 0 <= i < t@.len() ==> !('a' <= #[trigger] t@[i] && t@[i] <= 'z'),
    ensures
        r == upper_is(s@, t@),
{
    let n = s.unicode_len();
    if n != t.unicode_len() {
        return false;
    }
    let mut i: usize = 0;
    while i < n
        invariant
            n == s@.len(),
            n == t@.len(),
            0 <= i <= n,
            forall|q: int| 0 <= q < i ==> ascii_upper(#[trigger] s@[q]) == t@[q],
        decreases n - i,
    {
        let c = s.get_char(i);
        let d = t.get_char(i);
        let up_matches = if 'a' <= c && c <= 'z' {
            (c as u32) == (d as u32) + 32
        } else {
            c == d
        };
        if !up_matches {
            proof {
                if 'a' <= c && c <= 'z' {
                    assert((((c as u32) - 32) as char) as u32 == (c as u32) - 32);
                }
            }
            return false;
        }
        proof {
            if 'a' <= c && c <= 'z' {
                assert((d as u32) == (c as u32) - 32);
                assert(((c as u32) - 32) as char == d);
            }
        }
        i = i + 1;
    }
    true
}

/// Currencies without minor units.
pub open spec fn zero_decimal_currency(u: Seq<char>) -> bool {
    u == "BIF"@ || u == "CLP"@ || u == "DJF"@ || u == "GNF"@ || u == "ISK"@ || u == "JPY"@
        || u == "KMF"@ || u == "KRW"@ || u == "PYG"@ || u == "RWF"@ || u == "UGX"@ || u == "VND"@
        || u == "VUV"@ || u == "XAF"@ || u == "XOF"@ || u == "XPF"@
}

/// Currencies with three decimal digits.
pub open spec fn three_decimal_currency(u: Seq<char>) -> bool {
    u == "BHD"@ || u == "IQD"@ || u == "JOD"@ || u == "KWD"@ || u == "LYD"@ || u == "OMR"@
        || u == "TND"@
}

/// Decimal digits of the minor unit of a currency code (case-insensitive): 0, 3, 4 for
/// the listed codes, 2 for all others.
pub open spec fn spec_fraction_digits(code: Seq<char>) -> u32 {
    if exists|u: Seq<char>| upper_is(code, u) && zero_decimal_currency(u) {
        0
    } else if exists|u: Seq<char>| upper_is(code, u) && three_decimal_currency(u) {
        3
    } else if exists|u: Seq<char>| upper_is(code, u) && u == "CLF"@ {
        4
    } else {
        2
    }
}

fn upper_in(s: &str, codes: &[&str]) -> (r: bool)
    requires
        forall|c: int, i: int| 0 <= c < codes@.len() && 0 <= i < codes@[c]@.len() ==> !('a'
            <= #[trigger] codes@[c]@[i] && codes@[c]@[i] <= 'z'),
    ensures
        r == exists|c: int| 0 <= c < codes@.len() && upper_is(s@, #[trigger] codes@[c]@),
{
    let mut c: usize = 0;
    while c < codes.len()
        invariant
            0 <= c <= codes@.len(),
            forall|q: int, i: int| 0 <= q < codes@.len() && 0 <= i < codes@[q]@.len() ==> !('a'
                <= #[trigger] codes@[q]@[i] && codes@[q]@[i] <= 'z'),
            forall|q: int| 0 <= q < c ==> !upper_is(s@, #[trigger] codes@[q]@),
        decreases codes@.len() - c,
    {
        if upper_eq(s, codes[c]) {
            return true;
        }
        c = c + 1;
    }
    false
}

/// Decimal digits of the minor unit of a currency.
pub fn currency_fraction_digits(currency: &str) -> (d: u32)
    ensures
        d == spec_fraction_digits(currency@),
        d == 0 || d == 2 || d == 3 || d == 4,
{
    proof {
        reveal_strlit("BIF");
        reveal_strlit("CLP");
        reveal_strlit("DJF");
        reveal_strlit("GNF");
        reveal_strlit("ISK");
        reveal_strlit("JPY");
        reveal_strlit("KMF");
        reveal_strlit("KRW");
        reveal_strlit("PYG");
        reveal_strlit("RWF");
        reveal_strlit("UGX");
        reveal_strlit("VND");
        reveal_strlit("VUV");
        reveal_strlit("XAF");
        reveal_strlit("XOF");
        reveal_strlit("XPF");
        reveal_strlit("BHD");
        reveal_strlit("IQD");
        reveal_strlit("JOD");
        reveal_strlit("KWD");
        reveal_strlit("LYD");
        reveal_strlit("OMR");
        reveal_strlit("TND");
        reveal_strlit("CLF");
    }
    let zero_codes: [&str; 16] = [
        "BIF", "CLP", "DJF", "GNF", "ISK", "JPY", "KMF", "KRW", "PYG", "RWF", "UGX", "VND", "VUV",
        "XAF", "XOF", "XPF",
    ];
    let three_codes: [&str; 7] = ["BHD", "IQD", "JOD", "KWD", "LYD", "OMR", "TND"];
    let four_codes: [&str; 1] = ["CLF"];
    if upper_in(currency, zero_codes.as_slice()) {
        proof {
            let c = choose|c: int| 0 <= c < zero_codes@.len() && upper_is(currency@, #[trigger] zero_codes@[c]@);
            assert(zero_decimal_currency(zero_codes@[c]@));
        }
        0
    } else if upper_in(currency, three_codes.as_slice()) {
        proof {
            assert forall|u: Seq<char>| upper_is(currency@, u) implies !zero_decimal_currency(u) by {
                if zero_decimal_currency(u) {
                    assert(exists|c: int| 0 <= c < zero_codes@.len() && #[trigger] zero_codes@[c]@ == u);
                }
            }
            let c = choose|c: int| 0 <= c < three_codes@.len() && upper_is(currency@, #[trigger] three_codes@[c]@);
            assert(three_decimal_currency(three_codes@[c]@));
        }
        3
    } else if upper_in(currency, four_codes.as_slice()) {
        proof {
            assert forall|u: Seq<char>| upper_is(currency@, u) implies !zero_decimal_currency(u)
                && !three_decimal_currency(u) by {
                if zero_decimal_currency(u) {
                    assert(exists|c: int| 0 <= c < zero_codes@.len() && #[trigger] zero_codes@[c]@ == u);
                }
                if three_decimal_currency(u) {
                    assert(exists|c: int| 0 <= c < three_codes@.len() && #[trigger] three_codes@[c]@ == u);
                }
            }
            assert(upper_is(currency@, four_codes@[0]@));
        }
        4
    } else {
        proof {
            assert forall|u: Seq<char>| upper_is(currency@, u) implies !zero_decimal_currency(u)
                && !three_decimal_currency(u) && u != "CLF"@ by {
                if zero_decimal_currency(u) {
                    assert(exists|c: int| 0 <= c < zero_codes@.len() && #[trigger] zero_codes@[c]@ == u);
                }
                if three_decimal_currency(u) {
                    assert(exists|c: int| 0 <= c < three_codes@.len() && #[trigger] three_codes@[c]@ == u);
                }
                if u == "CLF"@ {
                    assert(four_codes@[0]@ == u);
                }
            }
        }
        2
    }
}


proof fn lemma_unit_fraction_exact(p: int)
    requires
        p == 1 || p == 100 || p == 1000 || p == 10000,
    ensures
        exact_quotient(Dec { mantissa: 1, scale: 0 }, Dec { mantissa: p as i128, scale: 0 }),
{
    crate::dec::lemma_pow10_values();
    let t = 10000000000000000000000000000int;
    assert(pow10(28) == t);
    if p == 1 {
        assert((t * t) % (1 * t) == 0);
        assert((t * t) / (1 * t) == t);
    } else if p == 100 {
        assert((t * t) % (100 * t) == 0);
        assert((t * t) / (100 * t) == 100000000000000000000000000int);
    } else if p == 1000 {
        assert((t * t) % (1000 * t) == 0);
        assert((t * t) / (1000 * t) == 10000000000000000000000000int);
    } else {
        assert((t * t) % (10000 * t) == 0);
        assert((t * t) / (10000 * t) == 1000000000000000000000000int);
    }
}

/// The rounding tolerance of a currency: one minor unit, `1 / 10^digits`.
pub fn currency_rounding_tolerance(currency: &str) -> (t: Dec)
    ensures
        t.wf(),
        units(t) * pow10(spec_fraction_digits(currency@) as nat) == pow10(28),
{
    let d = currency_fraction_digits(currency);
    let p: i64 = if d == 0 {
        1
    } else if d == 2 {
        100
    } else if d == 3 {
        1000
    } else {
        10000
    };
    proof {
        crate::dec::lemma_pow10_values();
        assert(p == pow10(d as nat));
        lemma_unit_fraction_exact(p as int);
    }
    let r = dec_checked_div(Dec::one(), Dec::from_i64(p));
    proof {
        let t = r.unwrap();
        assert(units(t) * (p * pow10(28)) == pow10(28) * pow10(28));
        assert(units(t) * p == pow10(28)) by (nonlinear_arith)
            requires
                units(t) * (p * pow10(28)) == pow10(28) * pow10(28),
                pow10(28) > 0;
    }
    match r {
        Some(t) => t,
        None => Dec::one(),
    }
}

// ── Cash to deploy ───────────────────────────────────────────────────────────

/// The cash a plan may deploy, given the cash asked for and the tracked cash in scope:
/// the asked amount when it is covered; the tracked cash when the asked amount exceeds
/// it by one minor unit of the currency at most; otherwise an error.
/// The cash a plan deploys: the requested amount when the tracked cash covers it, else
/// the tracked cash when the excess is at most one minor unit of the currency; `None`
/// when the excess is larger or cannot be computed.
pub open spec fn spec_cash_to_deploy(requested: Dec, held_cash: Dec, currency: Seq<char>) -> Option<Dec> {
    if units(requested) <= units(held_cash) {
        Some(requested)
    } else {
        match spec_checked_sub(requested, held_cash) {
            Some(over) => if units(over) * pow10(spec_fraction_digits(currency) as nat) <= pow10(28) {
                Some(held_cash)
            } else {
                None
            },
            None => None,
        }
    }
}

pub fn resolve_available_cash(requested: Dec, held_cash: Dec, currency: &str) -> (r: Result<Dec, Error>)
    requires
        requested.wf(),
        held_cash.wf(),
    ensures
        units(requested) <= units(held_cash) ==> r == Ok::<Dec, Error>(requested),
        units(requested) > units(held_cash) ==> match spec_checked_sub(requested, held_cash) {
            None => r matches Err(e) && e is Calculation,
            Some(over) => if units(over) * pow10(spec_fraction_digits(currency@) as nat) <= pow10(
                28,
            ) {
                r == Ok::<Dec, Error>(held_cash)
            } else {
                r matches Err(e) && crate::errors::is_invalid_input(
                    e,
                    "cash to deploy exceeds tracked cash in scope"@,
                )
            },
        },
{
    if dec_lt(held_cash, requested) {
        let over = match dec_checked_sub(requested, held_cash) {
            Some(o) => o,
            None => return Err(overflow("cash to deploy")),
        };
        let tol = currency_rounding_tolerance(currency);
        proof {
            let d = spec_fraction_digits(currency@) as nat;
            crate::dec::lemma_pow10_positive(d);
            assert(units(over) <= units(tol) <==> units(over) * pow10(d) <= units(tol) * pow10(d)) by (nonlinear_arith)
                requires pow10(d) >= 1;
        }
        if !dec_lt(tol, over) {
            Ok(held_cash)
        } else {
            Err(invalid(String::from_str("cash to deploy exceeds tracked cash in scope")))
        }
    } else {
        Ok(requested)
    }
}

// ── Sleeve shortfalls ────────────────────────────────────────────────────────

/// An underweight sleeve and the cash it needs to reach its desired level.
#[derive(Debug, Clone)]
pub struct SleeveShortfall {
    pub category_id: String,
    pub category_name: String,
    pub shortfall: Dec,
}

/// The larger of two decimals, as `Decimal::max` picks it.
pub open spec fn dec_max(a: Dec, b: Dec) -> Dec {
    if units(b) > units(a) { b } else { a }
}

pub(crate) fn dec_max_exec(a: Dec, b: Dec) -> (r: Dec)
    requires
        a.wf(),
        b.wf(),
    ensures
        r == dec_max(a, b),
{
    if dec_lt(a, b) { b } else { a }
}

/// The smaller of two decimals, as `Decimal::min` picks it.
pub open spec fn dec_min(a: Dec, b: Dec) -> Dec {
    if units(b) < units(a) { b } else { a }
}

pub(crate) fn dec_min_exec(a: Dec, b: Dec) -> (r: Dec)
    requires
        a.wf(),
        b.wf(),
    ensures
        r == dec_min(a, b),
{
    if dec_lt(b, a) { b } else { a }
}

/// The share, in bps, that a rebalance aims a sleeve at: its target for `ExactTarget`,
/// the lower band edge `max(target - band, 0)` for `NearestBand`.
pub open spec fn desired_bps(target_bps: i32, goal: RebalanceGoal, band: i32) -> int {
    match goal {
        RebalanceGoal::ExactTarget => target_bps as int,
        RebalanceGoal::NearestBand => if target_bps - band > 0 { target_bps - band } else { 0 },
    }
}

/// The desired share of a sleeve as `Decimal` computes it: the target, or for
/// `NearestBand` the larger of `target - band` and zero.
pub open spec fn spec_desired_dec(target_bps: i32, goal: RebalanceGoal, band: i32) -> Dec {
    let t = Dec { mantissa: target_bps as i128, scale: 0 };
    match goal {
        RebalanceGoal::ExactTarget => t,
        RebalanceGoal::NearestBand => match spec_checked_sub(t, Dec { mantissa: band as i128, scale: 0 }) {
            Some(d) => dec_max(d, dec_zero()),
            None => dec_zero(),
        },
    }
}

/// Cash a row needs to reach its desired level: `max(desired / 10000 * total - current,
/// 0)`; `None` when a decimal step overflows.
pub open spec fn spec_row_shortfall(row: DriftRow, goal: RebalanceGoal, band: i32, total: Dec) -> Option<Dec> {
    match spec_checked_div(spec_desired_dec(row.target_bps, goal, band), bps_scale()) {
        Some(frac) => match spec_checked_mul(frac, total) {
            Some(dv) => match spec_checked_sub(dv, row.current_value) {
                Some(diff) => Some(dec_max(diff, dec_zero())),
                None => None,
            },
            None => None,
        },
        None => None,
    }
}

fn desired_dec(target_bps: i32, goal: RebalanceGoal, band: i32) -> (d: Dec)
    ensures
        d.wf(),
        d == spec_desired_dec(target_bps, goal, band),
        units(d) == desired_bps(target_bps, goal, band) * pow10(28),
{
    proof {
        crate::dec::lemma_pow10_values();
    }
    let t = Dec::from_i64(target_bps as i64);
    match goal {
        RebalanceGoal::ExactTarget => t,
        RebalanceGoal::NearestBand => {
            let b = Dec::from_i64(band as i64);
            proof {
                assert(crate::dec::fits_at_scale(units(t) - units(b), crate::dec::max_scale(t, b)));
            }
            match dec_checked_sub(t, b) {
                Some(diff) => dec_max_exec(diff, Dec::zero()),
                None => Dec::zero(),
            }
        },
    }
}


fn row_shortfall(row: &DriftRow, goal: RebalanceGoal, band: i32, total: Dec) -> (r: Option<Dec>)
    requires
        row.current_value.wf(),
        total.wf(),
    ensures
        r == spec_row_shortfall(*row, goal, band, total),
        r matches Some(d) ==> d.wf() && units(d) >= 0,
{
    let desired = desired_dec(row.target_bps, goal, band);
    let frac = match dec_checked_div(desired, Dec::new(10000, 0)) {
        Some(v) => v,
        None => return None,
    };
    let dv = match dec_checked_mul(frac, total) {
        Some(v) => v,
        None => return None,
    };
    let diff = match dec_checked_sub(dv, row.current_value) {
        Some(v) => v,
        None => return None,
    };
    Some(dec_max_exec(diff, Dec::zero()))
}

/// Indices of the rows, among the first `k`, that become sleeves: rows that are not cash
/// and have a positive shortfall. `None` when a shortfall overflows.
pub open spec fn sleeve_rows(rows: Seq<DriftRow>, goal: RebalanceGoal, band: i32, total: Dec, k: int) -> Option<Seq<int>>
    decreases k,
{
    if k <= 0 {
        Some(seq![])
    } else {
        match sleeve_rows(rows, goal, band, total, k - 1) {
            None => None,
            Some(p) => if rows[k - 1].is_cash {
                Some(p)
            } else {
                match spec_row_shortfall(rows[k - 1], goal, band, total) {
                    None => None,
                    Some(sf) => if units(sf) > 0 {
                        Some(p.push(k - 1))
                    } else {
                        Some(p)
                    },
                }
            },
        }
    }
}

/// `sleeves` are the rows at `idx`, with their shortfalls.
pub open spec fn sleeves_ok(
    sleeves: Seq<SleeveShortfall>,
    rows: Seq<DriftRow>,
    idx: Seq<int>,
    goal: RebalanceGoal,
    band: i32,
    total: Dec,
) -> bool {
    &&& sleeves.len() == idx.len()
    &&& forall|m: int| 0 <= m < idx.len() ==> 0 <= #[trigger] idx[m] < rows.len()
    &&& forall|m: int|
        0 <= m < sleeves.len() ==> {
            &&& (#[trigger] sleeves[m]).category_id@ == rows[idx[m]].category_id@
            &&& sleeves[m].category_name@ == rows[idx[m]].category_name@
            &&& !rows[idx[m]].is_cash
            &&& spec_row_shortfall(rows[idx[m]], goal, band, total) == Some(sleeves[m].shortfall)
            &&& sleeves[m].shortfall.wf()
            &&& units(sleeves[m].shortfall) > 0
        }
}

/// Current values of drift rows are representable.
pub open spec fn rows_wf(rows: Seq<DriftRow>) -> bool {
    forall|k: int| 0 <= k < rows.len() ==> (#[trigger] rows[k]).current_value.wf()
}

proof fn lemma_sleeve_rows_none_stays(rows: Seq<DriftRow>, goal: RebalanceGoal, band: i32, total: Dec, k: int, n: int)
    requires
        0 <= k <= n,
        sleeve_rows(rows, goal, band, total, k) is None,
    ensures
        sleeve_rows(rows, goal, band, total, n) is None,
    decreases n - k,
{
    if k < n {
        lemma_sleeve_rows_none_stays(rows, goal, band, total, k + 1, n);
    }
}

/// The underweight sleeves of a drift report: every row that is not cash and needs cash
/// to reach its desired level, in row order.
pub fn sleeve_shortfalls(rows: &Vec<DriftRow>, goal: RebalanceGoal, band: i32, total: Dec) -> (r: Result<Vec<SleeveShortfall>, Error>)
    requires
        rows_wf(rows@),
        total.wf(),
    ensures
        match sleeve_rows(rows@, goal, band, total, rows@.len() as int) {
            None => r matches Err(e) && e is Calculation,
            Some(idx) => r matches Ok(v) && sleeves_ok(v@, rows@, idx, goal, band, total),
        },
{
    let mut out: Vec<SleeveShortfall> = Vec::new();
    let mut k: usize = 0;
    while k < rows.len()
        invariant
            0 <= k <= rows@.len(),
            rows_wf(rows@),
            total.wf(),
            sleeve_rows(rows@, goal, band, total, k as int) matches Some(idx) && sleeves_ok(out@, rows@, idx, goal, band, total)
                && forall|m: int| 0 <= m < idx.len() ==> idx[m] < k,
        decreases rows@.len() - k,
    {
        let row = &rows[k];
        let ghost prev = sleeve_rows(rows@, goal, band, total, k as int).unwrap();
        if !row.is_cash {
            match row_shortfall(row, goal, band, total) {
                None => {
                    proof {
                        lemma_sleeve_rows_none_stays(rows@, goal, band, total, k + 1, rows@.len() as int);
                    }
                    return Err(overflow("sleeve shortfall"));
                },
                Some(sf) => {
                    if dec_lt(Dec::zero(), sf) {
                        out.push(SleeveShortfall {
                            category_id: row.category_id.clone(),
                            category_name: row.category_name.clone(),
                            shortfall: sf,
                        });
                        proof {
                            let idx = prev.push(k as int);
                            assert(sleeve_rows(rows@, goal, band, total, k + 1) == Some(idx));
                            assert forall|m: int| 0 <= m < out@.len() implies {
                                &&& (#[trigger] out@[m]).category_id@ == rows@[idx[m]].category_id@
                                &&& out@[m].category_name@ == rows@[idx[m]].category_name@
                                &&& !rows@[idx[m]].is_cash
                                &&& spec_row_shortfall(rows@[idx[m]], goal, band, total) == Some(out@[m].shortfall)
                                &&& out@[m].shortfall.wf()
                                &&& units(out@[m].shortfall) > 0
                            } by {
                                if m < prev.len() {
                                    assert(idx[m] == prev[m]);
                                }
                            }
                        }
                    }
                },
            }
        }
        k = k + 1;
    }
    Ok(out)
}

/// Sum of the shortfalls of the first `k` sleeves, added in order; `None` on overflow.
pub open spec fn shortfall_sum(sleeves: Seq<SleeveShortfall>, k: int) -> Option<Dec>
    decreases k,
{
    if k <= 0 {
        Some(dec_zero())
    } else {
        match shortfall_sum(sleeves, k - 1) {
            Some(acc) => spec_checked_add(acc, sleeves[k - 1].shortfall),
            None => None,
        }
    }
}

proof fn lemma_shortfall_sum_none_stays(sleeves: Seq<SleeveShortfall>, k: int, n: int)
    requires
        0 <= k <= n,
        shortfall_sum(sleeves, k) is None,
    ensures
        shortfall_sum(sleeves, n) is None,
    decreases n - k,
{
    if k < n {
        lemma_shortfall_sum_none_stays(sleeves, k + 1, n);
    }
}

/// Total shortfall of the sleeves.
pub fn total_shortfall(sleeves: &Vec<SleeveShortfall>) -> (r: Result<Dec, Error>)
    requires
        forall|m: int| 0 <= m < sleeves@.len() ==> (#[trigger] sleeves@[m]).shortfall.wf(),
    ensures
        match shortfall_sum(sleeves@, sleeves@.len() as int) {
            Some(t) => r == Ok::<Dec, Error>(t),
            None => r matches Err(e) && e is Calculation,
        },
        r matches Ok(t) ==> t.wf(),
{
    let mut acc = Dec::zero();
    let mut k: usize = 0;
    while k < sleeves.len()
        invariant
            0 <= k <= sleeves@.len(),
            forall|m: int| 0 <= m < sleeves@.len() ==> (#[trigger] sleeves@[m]).shortfall.wf(),
            shortfall_sum(sleeves@, k as int) == Some(acc),
            acc.wf(),
        decreases sleeves@.len() - k,
    {
        match dec_checked_add(acc, sleeves[k].shortfall) {
            Some(v) => {
                acc = v;
            },
            None => {
                proof {
                    lemma_shortfall_sum_none_stays(sleeves@, k + 1, sleeves@.len() as int);
                }
                return Err(overflow("total shortfall"));
            },
        }
        k = k + 1;
    }
    Ok(acc)
}

/// Factor by which shortfalls are scaled to the cash: 0 when there is no shortfall or no
/// cash, 1 when the cash covers all shortfalls, otherwise `cash / total_shortfall`.
pub open spec fn spec_scale_factor(total_sf: Dec, cash: Dec) -> Option<Dec> {
    if units(total_sf) == 0 || units(cash) == 0 {
        Some(dec_zero())
    } else if units(total_sf) <= units(cash) {
        Some(Dec { mantissa: 1, scale: 0 })
    } else {
        spec_checked_div(cash, total_sf)
    }
}

/// The factor by which shortfalls are scaled to the available cash.
pub fn shortfall_scale_factor(total_sf: Dec, cash: Dec) -> (r: Option<Dec>)
    requires
        total_sf.wf(),
        cash.wf(),
    ensures
        r == spec_scale_factor(total_sf, cash),
        r matches Some(f) ==> f.wf(),
{
    let zero = Dec::zero();
    let sf_zero = !dec_lt(total_sf, zero) && !dec_lt(zero, total_sf);
    let cash_zero = !dec_lt(cash, zero) && !dec_lt(zero, cash);
    if sf_zero || cash_zero {
        Some(zero)
    } else if !dec_lt(cash, total_sf) {
        Some(Dec::one())
    } else {
        dec_checked_div(cash, total_sf)
    }
}


// ── Planning one sleeve ──────────────────────────────────────────────────────

/// Decimal fields of the holdings are representable.
pub open spec fn summaries_wf(hs: Seq<HoldingSummary>) -> bool {
    forall|k: int|
        0 <= k < hs.len() ==> {
            &&& (#[trigger] hs[k]).market_value.wf()
            &&& hs[k].quantity.wf()
            &&& hs[k].unit_price matches Some(p) ==> p.wf()
        }
}

/// Decimal fields of a trade are representable.
pub open spec fn trade_wf(t: SuggestedManualTrade) -> bool {
    &&& t.estimated_amount.wf()
    &&& t.quantity matches Some(q) ==> q.wf()
    &&& t.estimated_price matches Some(p) ==> p.wf()
}

pub open spec fn trades_wf(ts: Seq<SuggestedManualTrade>) -> bool {
    forall|k: int| 0 <= k < ts.len() ==> trade_wf(#[trigger] ts[k])
}

/// Every quantity is a whole number of shares (a decimal of scale 0).
pub open spec fn all_whole(ts: Seq<SuggestedManualTrade>) -> bool {
    forall|k: int| 0 <= k < ts.len() ==> ((#[trigger] ts[k]).quantity matches Some(q) ==> q.scale == 0)
}

/// A buy in the sleeve.
pub open spec fn sleeve_buy(t: SuggestedManualTrade, sleeve: SleeveShortfall) -> bool {
    &&& t.action@ == "buy"@
    &&& t.category_id@ == sleeve.category_id@
    &&& t.category_name@ == sleeve.category_name@
}

/// `new` is `old` with at most its quantity and amount changed.
pub open spec fn same_trade_but_size(new: SuggestedManualTrade, old: SuggestedManualTrade) -> bool {
    &&& new.action == old.action
    &&& new.category_id == old.category_id
    &&& new.category_name == old.category_name
    &&& new.asset_id == old.asset_id
    &&& new.symbol == old.symbol
    &&& new.name == old.name
    &&& new.estimated_price == old.estimated_price
    &&& new.reason == old.reason
    &&& new.quantity is Some == old.quantity is Some
}

/// The price of a holding: its quote when positive, else market value over quantity
/// when both are positive; `Some(None)` when it has no valid price, `None` when the
/// division overflows.
pub open spec fn spec_holding_price(h: HoldingSummary) -> Option<Option<Dec>> {
    if h.unit_price is Some && units(h.unit_price.unwrap()) > 0 {
        Some(Some(h.unit_price.unwrap()))
    } else if units(h.quantity) > 0 && units(h.market_value) > 0 {
        match spec_checked_div(h.market_value, h.quantity) {
            Some(p) => Some(Some(p)),
            None => None,
        }
    } else {
        Some(None)
    }
}

fn holding_price(h: &HoldingSummary) -> (r: Option<Option<Dec>>)
    requires
        h.market_value.wf(),
        h.quantity.wf(),
        h.unit_price matches Some(p) ==> p.wf(),
    ensures
        r == spec_holding_price(*h),
        r matches Some(Some(p)) ==> p.wf() && units(p) > 0 || h.unit_price is None || units(h.unit_price.unwrap()) <= 0,
        r matches Some(Some(p)) ==> p.wf(),
{
    let zero = Dec::zero();
    match h.unit_price {
        Some(p) => {
            if dec_lt(zero, p) {
                return Some(Some(p));
            }
        },
        None => {},
    }
    if dec_lt(zero, h.quantity) && dec_lt(zero, h.market_value) {
        match dec_checked_div(h.market_value, h.quantity) {
            Some(p) => Some(Some(p)),
            None => None,
        }
    } else {
        Some(None)
    }
}

fn clone_opt(s: &Option<String>) -> (r: Option<String>)
    ensures
        r == *s,
{
    match s {
        Some(x) => Some(x.clone()),
        None => None,
    }
}

fn underweight_reason(symbol: &String, sleeve_name: &String) -> (m: String)
    ensures
        m@ == symbol@ + " is underweight in "@ + sleeve_name@ + "."@,
{
    let mut m = symbol.clone();
    m.append(" is underweight in ");
    m.append(sleeve_name.as_str());
    m.append(".");
    m
}

fn sleeve_trade(sleeve: &SleeveShortfall, budget: Dec) -> (t: SuggestedManualTrade)
    ensures
        is_sleeve_level_buy(t, *sleeve, budget),
{
    let mut reason = String::from_str("Sleeve ");
    reason.append(sleeve.category_name.as_str());
    reason.append(" is underweight. Suggested amount to buy.");
    SuggestedManualTrade {
        action: String::from_str("buy"),
        category_id: sleeve.category_id.clone(),
        category_name: sleeve.category_name.clone(),
        asset_id: None,
        symbol: None,
        name: None,
        quantity: None,
        estimated_price: None,
        estimated_amount: budget,
        reason,
    }
}

fn holding_trade(
    sleeve: &SleeveShortfall,
    h: &HoldingSummary,
    quantity: Option<Dec>,
    price: Option<Dec>,
    amount: Dec,
) -> (t: SuggestedManualTrade)
    ensures
        sleeve_buy(t, *sleeve),
        t.asset_id == Some(h.id),
        t.symbol == Some(h.symbol),
        t.name == h.name,
        t.reason@ == h.symbol@ + " is underweight in "@ + sleeve.category_name@ + "."@,
        t.quantity == quantity,
        t.estimated_price == price,
        t.estimated_amount == amount,
{
    SuggestedManualTrade {
        action: String::from_str("buy"),
        category_id: sleeve.category_id.clone(),
        category_name: sleeve.category_name.clone(),
        asset_id: Some(h.id.clone()),
        symbol: Some(h.symbol.clone()),
        name: clone_opt(&h.name),
        quantity,
        estimated_price: price,
        estimated_amount: amount,
        reason: underweight_reason(&h.symbol, &sleeve.category_name),
    }
}

/// The trade buys the asset in the category.
pub open spec fn trade_for_asset(t: SuggestedManualTrade, asset_id: Seq<char>, category_id: Seq<char>) -> bool {
    &&& t.asset_id is Some
    &&& t.asset_id.unwrap()@ == asset_id
    &&& t.category_id@ == category_id
}

/// The trade buys the symbol in the category.
pub open spec fn trade_for_symbol(t: SuggestedManualTrade, symbol: Seq<char>, category_id: Seq<char>) -> bool {
    &&& t.symbol is Some
    &&& t.symbol.unwrap()@ == symbol
    &&& t.category_id@ == category_id
}

/// Index of the last trade that buys the asset in the category.
fn find_existing_trade(trades: &Vec<SuggestedManualTrade>, asset_id: &String, category_id: &String) -> (r: Option<usize>)
    ensures
        match r {
            Some(i) => i < trades@.len() && trade_for_asset(trades@[i as int], asset_id@, category_id@)
                && forall|j: int| i < j < trades@.len() ==> !trade_for_asset(#[trigger] trades@[j], asset_id@, category_id@),
            None => forall|j: int| 0 <= j < trades@.len() ==> !trade_for_asset(#[trigger] trades@[j], asset_id@, category_id@),
        },
        match r {
            Some(i) => last_trade_for(trade_views(trades@), asset_id@, category_id@, trades@.len() as int) == Some(i as int),
            None => last_trade_for(trade_views(trades@), asset_id@, category_id@, trades@.len() as int) is None,
        },
{
    let mut i: usize = trades.len();
    while i > 0
        invariant
            i <= trades@.len(),
            forall|j: int| i <= j < trades@.len() ==> !trade_for_asset(#[trigger] trades@[j], asset_id@, category_id@),
        decreases i,
    {
        i = i - 1;
        let t = &trades[i];
        let same_asset = match &t.asset_id {
            Some(a) => crate::model::str_eq(a.as_str(), asset_id.as_str()),
            None => false,
        };
        if same_asset && crate::model::str_eq(t.category_id.as_str(), category_id.as_str()) {
            proof {
                lemma_last_trade_for(trades@, asset_id@, category_id@, trades@.len() as int, Some(i as int));
            }
            return Some(i);
        }
    }
    proof {
        lemma_last_trade_for(trades@, asset_id@, category_id@, trades@.len() as int, None);
    }
    None
}

/// Whether some trade buys the symbol in the category.
fn symbol_funded(trades: &Vec<SuggestedManualTrade>, symbol: &String, category_id: &String) -> (r: bool)
    ensures
        r == exists|j: int| 0 <= j < trades@.len() && trade_for_symbol(#[trigger] trades@[j], symbol@, category_id@),
{
    let mut i: usize = 0;
    while i < trades.len()
        invariant
            i <= trades@.len(),
            forall|j: int| 0 <= j < i ==> !trade_for_symbol(#[trigger] trades@[j], symbol@, category_id@),
        decreases trades@.len() - i,
    {
        let t = &trades[i];
        let same_symbol = match &t.symbol {
            Some(s) => crate::model::str_eq(s.as_str(), symbol.as_str()),
            None => false,
        };
        if same_symbol && crate::model::str_eq(t.category_id.as_str(), category_id.as_str()) {
            return true;
        }
        i = i + 1;
    }
    false
}

/// `x` is one of the items of `v`.
pub open spec fn is_item_of<T>(x: T, v: Seq<T>) -> bool {
    exists|j: int| 0 <= j < v.len() && v[j] == x
}

/// `s` with `x` put after every pair whose price is not above its own.
pub open spec fn insert_by_price(s: Seq<(usize, Dec)>, x: (usize, Dec)) -> Seq<(usize, Dec)>
    decreases s.len(),
{
    if s.len() == 0 {
        seq![x]
    } else if units(x.1) < units(s[0].1) {
        seq![x] + s
    } else {
        seq![s[0]] + insert_by_price(s.drop_first(), x)
    }
}

/// The pairs sorted by price, pairs of equal price keeping their order.
pub open spec fn sorted_by_price(s: Seq<(usize, Dec)>) -> Seq<(usize, Dec)>
    decreases s.len(),
{
    if s.len() == 0 {
        s
    } else {
        insert_by_price(sorted_by_price(s.drop_last()), s.last())
    }
}

proof fn lemma_insert_by_price_at(s: Seq<(usize, Dec)>, x: (usize, Dec), p: int)
    requires
        0 <= p <= s.len(),
        forall|q: int| 0 <= q < p ==> units(#[trigger] s[q].1) <= units(x.1),
        p < s.len() ==> units(x.1) < units(s[p].1),
    ensures
        insert_by_price(s, x) == s.insert(p, x),
    decreases s.len(),
{
    if s.len() == 0 {
        assert(s.insert(p, x) =~= seq![x]);
    } else if p == 0 {
        assert(s.insert(p, x) =~= seq![x] + s);
    } else {
        let t = s.drop_first();
        assert forall|q: int| 0 <= q < p - 1 implies units(#[trigger] t[q].1) <= units(x.1) by {
            assert(t[q] == s[q + 1]);
        }
        lemma_insert_by_price_at(t, x, p - 1);
        assert(units(s[0].1) <= units(x.1));
        assert(s.insert(p, x) =~= seq![s[0]] + t.insert(p - 1, x));
    }
}

/// Sorts (index, price) pairs by price, keeping the order of equal prices.
fn sort_by_price(v: Vec<(usize, Dec)>) -> (r: Vec<(usize, Dec)>)
    requires
        forall|k: int| 0 <= k < v@.len() ==> (#[trigger] v@[k]).1.wf() && units(v@[k].1) > 0,
    ensures
        r@ == sorted_by_price(v@),
        r@.len() == v@.len(),
        forall|k: int| 0 <= k < r@.len() ==> is_item_of(#[trigger] r@[k], v@),
        forall|k: int| 0 <= k < v@.len() ==> is_item_of(#[trigger] v@[k], r@),
        forall|k: int| 0 <= k < r@.len() ==> (#[trigger] r@[k]).1.wf() && units(r@[k].1) > 0,
        forall|a: int, b: int| 0 <= a < b < r@.len() ==> units(r@[a].1) <= units(r@[b].1),
{
    let mut out: Vec<(usize, Dec)> = Vec::new();
    let mut i: usize = 0;
    while i < v.len()
        invariant
            0 <= i <= v@.len(),
            out@.len() == i,
            forall|k: int| 0 <= k < v@.len() ==> (#[trigger] v@[k]).1.wf() && units(v@[k].1) > 0,
            forall|k: int| 0 <= k < out@.len() ==> is_item_of(#[trigger] out@[k], v@),
            forall|k: int| 0 <= k < i ==> is_item_of(#[trigger] v@[k], out@),
            forall|k: int| 0 <= k < out@.len() ==> (#[trigger] out@[k]).1.wf() && units(out@[k].1) > 0,
            forall|a: int, b: int| 0 <= a < b < out@.len() ==> units(out@[a].1) <= units(out@[b].1),
            out@ == sorted_by_price(v@.subrange(0, i as int)),
        decreases v@.len() - i,
    {
        let item = v[i];
        let mut p: usize = 0;
        while p < out.len() && !dec_lt(item.1, out[p].1)
            invariant
                0 <= p <= out@.len(),
                item == v@[i as int],
                item.1.wf(),
                forall|k: int| 0 <= k < out@.len() ==> (#[trigger] out@[k]).1.wf(),
                forall|q: int| 0 <= q < p ==> units(out@[q].1) <= units(item.1),
            decreases out@.len() - p,
        {
            p = p + 1;
        }
        let ghost old_out = out@;
        out.insert(p, item);
        proof {
            lemma_insert_by_price_at(old_out, item, p as int);
            assert(v@.subrange(0, i + 1).drop_last() =~= v@.subrange(0, i as int));
            assert(out@ == sorted_by_price(v@.subrange(0, i + 1)));
            assert forall|k: int| 0 <= k < out@.len() implies is_item_of(#[trigger] out@[k], v@) by {
                if k < p {
                    assert(out@[k] == old_out[k]);
                } else if k == p {
                    assert(out@[k] == v@[i as int]);
                } else {
                    assert(out@[k] == old_out[k - 1]);
                }
            }
            assert forall|k: int| 0 <= k < i + 1 implies is_item_of(#[trigger] v@[k], out@) by {
                if k == i {
                    assert(out@[p as int] == v@[k]);
                } else {
                    let m = choose|m: int| 0 <= m < old_out.len() && old_out[m] == v@[k];
                    if m < p {
                        assert(out@[m] == v@[k]);
                    } else {
                        assert(out@[m + 1] == v@[k]);
                    }
                }
            }
            assert forall|k: int| 0 <= k < out@.len() implies (#[trigger] out@[k]).1.wf() && units(out@[k].1) > 0 by {
                if k < p {
                    assert(out@[k] == old_out[k]);
                } else if k > p {
                    assert(out@[k] == old_out[k - 1]);
                }
            }
            assert forall|a: int, b: int| 0 <= a < b < out@.len() implies units(out@[a].1) <= units(out@[b].1) by {
                if p < old_out.len() {
                    assert(units(item.1) < units(old_out[p as int].1));
                }
                if a < p && b < p {
                    assert(out@[a] == old_out[a] && out@[b] == old_out[b]);
                } else if a < p && b == p {
                    assert(out@[a] == old_out[a]);
                } else if a < p && b > p {
                    assert(out@[a] == old_out[a] && out@[b] == old_out[b - 1]);
                    assert(units(old_out[p as int].1) <= units(old_out[b - 1].1));
                } else if a == p {
                    assert(out@[b] == old_out[b - 1]);
                    assert(units(old_out[p as int].1) <= units(old_out[b - 1].1));
                } else {
                    assert(out@[a] == old_out[a - 1] && out@[b] == old_out[b - 1]);
                }
            }
        }
        i = i + 1;
    }
    assert(v@.subrange(0, v@.len() as int) =~= v@);
    out
}


/// `new` is `old` with trades appended, each a buy in the sleeve, and with the size of
/// trades of the sleeve's category possibly changed; other trades are untouched.
pub open spec fn grows_in_sleeve(old: Seq<SuggestedManualTrade>, new: Seq<SuggestedManualTrade>, sleeve: SleeveShortfall) -> bool {
    &&& old.len() <= new.len()
    &&& forall|i: int| 0 <= i < old.len() ==> same_trade_but_size(#[trigger] new[i], old[i])
    &&& forall|i: int| 0 <= i < old.len() && old[i].category_id@ != sleeve.category_id@ ==> #[trigger] new[i] == old[i]
    &&& forall|i: int| old.len() <= i < new.len() ==> sleeve_buy(#[trigger] new[i], sleeve)
}

/// `new` is `old` with warnings about the sleeve appended.
pub open spec fn warns_in_sleeve(old: Seq<RebalanceWarning>, new: Seq<RebalanceWarning>, sleeve: SleeveShortfall) -> bool {
    &&& old.len() <= new.len()
    &&& forall|i: int| 0 <= i < old.len() ==> #[trigger] new[i] == old[i]
    &&& forall|i: int| old.len() <= i < new.len() ==> (#[trigger] new[i]).category_id@ == sleeve.category_id@
}

proof fn lemma_grows_trans(a: Seq<SuggestedManualTrade>, b: Seq<SuggestedManualTrade>, c: Seq<SuggestedManualTrade>, sleeve: SleeveShortfall)
    requires
        grows_in_sleeve(a, b, sleeve),
        grows_in_sleeve(b, c, sleeve),
    ensures
        grows_in_sleeve(a, c, sleeve),
{
    assert forall|i: int| 0 <= i < a.len() implies same_trade_but_size(#[trigger] c[i], a[i]) by {
        assert(same_trade_but_size(c[i], b[i]));
        assert(same_trade_but_size(b[i], a[i]));
    }
    assert forall|i: int| 0 <= i < a.len() && a[i].category_id@ != sleeve.category_id@ implies #[trigger] c[i] == a[i] by {
        assert(b[i] == a[i]);
        assert(c[i] == b[i]);
    }
    assert forall|i: int| a.len() <= i < c.len() implies sleeve_buy(#[trigger] c[i], sleeve) by {
        if i < b.len() {
            assert(sleeve_buy(b[i], sleeve));
            assert(same_trade_but_size(c[i], b[i]));
        }
    }
}

proof fn lemma_warns_trans(a: Seq<RebalanceWarning>, b: Seq<RebalanceWarning>, c: Seq<RebalanceWarning>, sleeve: SleeveShortfall)
    requires
        warns_in_sleeve(a, b, sleeve),
        warns_in_sleeve(b, c, sleeve),
    ensures
        warns_in_sleeve(a, c, sleeve),
{
    assert forall|i: int| a.len() <= i < c.len() implies (#[trigger] c[i]).category_id@ == sleeve.category_id@ by {
        if i < b.len() {
            assert(b[i].category_id@ == sleeve.category_id@);
        }
    }
}

fn missing_quote_warning(sleeve: &SleeveShortfall, h: &HoldingSummary) -> (w: RebalanceWarning)
    ensures
        w.kind == RebalanceWarningKind::MissingQuote,
        w.category_id@ == sleeve.category_id@,
        w.message@ == h.symbol@ + ": no valid price/quantity for whole-share rounding. Skipped."@,
{
    let mut m = h.symbol.clone();
    m.append(": no valid price/quantity for whole-share rounding. Skipped.");
    RebalanceWarning {
        kind: RebalanceWarningKind::MissingQuote,
        category_id: sleeve.category_id.clone(),
        message: m,
    }
}

/// A holding that whole-share rounding left without a share, with its budget and price.
pub struct SkippedHolding {
    pub symbol: String,
    pub budget: Dec,
    pub price: Dec,
}

pub open spec fn skipped_wf(s: Seq<SkippedHolding>) -> bool {
    forall|k: int| 0 <= k < s.len() ==> (#[trigger] s[k]).budget.wf() && s[k].price.wf()
}

/// The `Ok` value of an optional decimal step, or the overflow error.
pub(crate) fn need(r: Option<Dec>, what: &str) -> (res: Result<Dec, Error>)
    ensures
        r is Some ==> res == Ok::<Dec, Error>(r.unwrap()),
        r is None ==> (res matches Err(e) && e is Calculation),
{
    match r {
        Some(d) => Ok(d),
        None => Err(overflow(what)),
    }
}

/// A trade is worth at least the minimum trade amount.
pub open spec fn trade_meets_min(t: SuggestedManualTrade, min_trade: Dec) -> bool {
    units(t.estimated_amount) >= units(min_trade)
}

/// Every trade is worth at least the minimum trade amount.
pub open spec fn trades_meet_min(ts: Seq<SuggestedManualTrade>, min_trade: Dec) -> bool {
    forall|i: int| 0 <= i < ts.len() ==> trade_meets_min(#[trigger] ts[i], min_trade)
}

/// New trades in the sleeve carry representable decimals, and whole shares when asked.
pub open spec fn new_trades_ok(old_len: int, ts: Seq<SuggestedManualTrade>, whole: bool) -> bool {
    forall|i: int| old_len <= i < ts.len() ==> trade_wf(#[trigger] ts[i]) && (whole ==> (ts[i].quantity matches Some(q) ==> q.scale == 0))
}

/// Value of the first `k` holdings of a sleeve, added in order; `None` on overflow.
pub open spec fn spec_sleeve_value(hs: Seq<HoldingSummary>, k: int) -> Option<Dec>
    decreases k,
{
    if k <= 0 {
        Some(dec_zero())
    } else {
        match spec_sleeve_value(hs, k - 1) {
            Some(acc) => spec_checked_add(acc, hs[k - 1].market_value),
            None => None,
        }
    }
}

/// The part of a sleeve budget that a holding gets: the budget times the holding's share
/// of the sleeve value, or times `1 / n` when the sleeve has no value.
pub open spec fn spec_holding_budget(budget: Dec, h: HoldingSummary, total: Dec, n: int) -> Option<Dec> {
    let weight = if units(total) > 0 {
        spec_checked_div(h.market_value, total)
    } else {
        spec_checked_div(Dec { mantissa: 1, scale: 0 }, Dec { mantissa: (n as i64) as i128, scale: 0 })
    };
    match weight {
        Some(w) => spec_checked_mul(budget, w),
        None => None,
    }
}

/// What the first phase does with one holding.
pub enum HoldingOutcome {
    /// A buy of the quantity (if any) at the price (if any), for the amount.
    Buy { quantity: Option<Dec>, price: Option<Dec>, amount: Dec },
    /// Whole-share rounding left no share; handed to the second phase.
    Skip { budget: Dec, price: Dec },
    /// Whole shares asked for, and the holding has no price.
    MissingQuote,
    /// The trade would be below the minimum trade amount.
    Nothing,
}

/// A decimal rounded down to a whole number.
pub open spec fn floor_dec(d: Dec) -> Dec {
    Dec { mantissa: (d.mantissa as int / pow10(d.scale as nat)) as i128, scale: 0 }
}

/// What the first phase does with a holding given its budget `hb`: with a price, a buy of
/// `hb / price` shares for `hb` (whole-share mode: `floor(hb / price)` shares for their
/// cost, or a skip when that is none); without one, a buy of `hb` with no quantity (in
/// whole-share mode, a missing-quote warning). A buy below the minimum is nothing. `None`
/// when a decimal step overflows.
pub open spec fn phase_one_outcome(h: HoldingSummary, hb: Dec, whole: bool, min_trade: Dec) -> Option<HoldingOutcome> {
    match spec_holding_price(h) {
        None => None,
        Some(None) => if whole {
            Some(HoldingOutcome::MissingQuote)
        } else if units(hb) >= units(min_trade) {
            Some(HoldingOutcome::Buy { quantity: None, price: None, amount: hb })
        } else {
            Some(HoldingOutcome::Nothing)
        },
        Some(Some(p)) => match spec_checked_div(hb, p) {
            None => None,
            Some(per) => if whole {
                let q = floor_dec(per);
                if q.mantissa == 0 {
                    Some(HoldingOutcome::Skip { budget: hb, price: p })
                } else {
                    match spec_checked_mul(q, p) {
                        None => None,
                        Some(amt) => if units(amt) >= units(min_trade) {
                            Some(HoldingOutcome::Buy { quantity: Some(q), price: Some(p), amount: amt })
                        } else {
                            Some(HoldingOutcome::Nothing)
                        },
                    }
                }
            } else if units(hb) >= units(min_trade) {
                Some(HoldingOutcome::Buy { quantity: Some(per), price: Some(p), amount: hb })
            } else {
                Some(HoldingOutcome::Nothing)
            },
        },
    }
}

/// The first-phase outcome of holding `j` of a sleeve whose value is `total`.
pub open spec fn outcome_at(budget: Dec, hs: Seq<HoldingSummary>, total: Dec, whole: bool, min_trade: Dec, j: int) -> Option<HoldingOutcome> {
    match spec_holding_budget(budget, hs[j], total, hs.len() as int) {
        Some(hb) => phase_one_outcome(hs[j], hb, whole, min_trade),
        None => None,
    }
}

/// Which kind of outcome: 0 buy, 1 skip, 2 missing quote, 3 nothing or overflow.
pub open spec fn outcome_kind(o: Option<HoldingOutcome>) -> int {
    match o {
        Some(HoldingOutcome::Buy { .. }) => 0,
        Some(HoldingOutcome::Skip { .. }) => 1,
        Some(HoldingOutcome::MissingQuote) => 2,
        _ => 3,
    }
}

/// Indices, in order, of the first `k` holdings whose outcome is of the kind.
pub open spec fn indices_of_kind(budget: Dec, hs: Seq<HoldingSummary>, total: Dec, whole: bool, min_trade: Dec, kind: int, k: int) -> Seq<int>
    decreases k,
{
    if k <= 0 {
        Seq::empty()
    } else {
        let prev = indices_of_kind(budget, hs, total, whole, min_trade, kind, k - 1);
        if outcome_kind(outcome_at(budget, hs, total, whole, min_trade, k - 1)) == kind {
            prev.push(k - 1)
        } else {
            prev
        }
    }
}

/// The trade buys holding `h` in the sleeve as the outcome says.
pub open spec fn is_holding_buy(t: SuggestedManualTrade, sleeve: SleeveShortfall, h: HoldingSummary, o: Option<HoldingOutcome>) -> bool {
    &&& sleeve_buy(t, sleeve)
    &&& t.asset_id == Some(h.id)
    &&& t.symbol == Some(h.symbol)
    &&& t.name == h.name
    &&& t.reason@ == h.symbol@ + " is underweight in "@ + sleeve.category_name@ + "."@
    &&& o matches Some(HoldingOutcome::Buy { quantity, price, amount })
    &&& t.quantity == quantity
    &&& t.estimated_price == price
    &&& t.estimated_amount == amount
}

/// The first phase over the first `k` holdings: every outcome is computed; the new trades
/// are, in holding order, the buys; the new warnings are the missing quotes; the skipped
/// holdings are the skips; and `deployed` is the sum of the new trades' amounts.
pub open spec fn phase_one_prefix_ok(
    sleeve: SleeveShortfall,
    budget: Dec,
    hs: Seq<HoldingSummary>,
    total: Dec,
    whole: bool,
    min_trade: Dec,
    new_trades: Seq<SuggestedManualTrade>,
    new_warnings: Seq<RebalanceWarning>,
    skipped: Seq<SkippedHolding>,
    deployed: Dec,
    k: int,
) -> bool {
    let bi = indices_of_kind(budget, hs, total, whole, min_trade, 0, k);
    let si = indices_of_kind(budget, hs, total, whole, min_trade, 1, k);
    let mi = indices_of_kind(budget, hs, total, whole, min_trade, 2, k);
    &&& forall|j: int| 0 <= j < k ==> (#[trigger] outcome_at(budget, hs, total, whole, min_trade, j)) is Some
    &&& new_trades.len() == bi.len()
    &&& forall|i: int| 0 <= i < bi.len() ==> is_holding_buy(#[trigger] new_trades[i], sleeve, hs[bi[i]],
        outcome_at(budget, hs, total, whole, min_trade, bi[i]))
    &&& new_warnings.len() == mi.len()
    &&& forall|i: int| 0 <= i < mi.len() ==> (#[trigger] new_warnings[i]).kind == RebalanceWarningKind::MissingQuote
        && new_warnings[i].category_id@ == sleeve.category_id@
        && new_warnings[i].message@ == hs[mi[i]].symbol@ + ": no valid price/quantity for whole-share rounding. Skipped."@
    &&& skipped.len() == si.len()
    &&& forall|i: int| 0 <= i < si.len() ==> (#[trigger] skipped[i]).symbol == hs[si[i]].symbol
        && outcome_at(budget, hs, total, whole, min_trade, si[i]) == Some(HoldingOutcome::Skip { budget: skipped[i].budget, price: skipped[i].price })
    &&& crate::optimizer::amount_sum(new_trades, new_trades.len() as int) == Some(deployed)
}

/// What the first phase of a sleeve produces, over all its holdings.
pub open spec fn phase_one_ok(
    sleeve: SleeveShortfall,
    budget: Dec,
    hs: Seq<HoldingSummary>,
    whole: bool,
    min_trade: Dec,
    new_trades: Seq<SuggestedManualTrade>,
    new_warnings: Seq<RebalanceWarning>,
    skipped: Seq<SkippedHolding>,
    deployed: Dec,
) -> bool {
    spec_sleeve_value(hs, hs.len() as int) matches Some(total) && phase_one_prefix_ok(sleeve, budget, hs, total,
        whole, min_trade, new_trades, new_warnings, skipped, deployed, hs.len() as int)
}

/// The cash the first phase deploys over the first `k` holdings: the sum, in order, of
/// the amounts of their buys; `None` when an outcome or the sum overflows.
pub open spec fn phase_one_deployed(budget: Dec, hs: Seq<HoldingSummary>, total: Dec, whole: bool, min_trade: Dec, k: int) -> Option<Dec>
    decreases k,
{
    if k <= 0 {
        Some(dec_zero())
    } else {
        match phase_one_deployed(budget, hs, total, whole, min_trade, k - 1) {
            None => None,
            Some(d) => match outcome_at(budget, hs, total, whole, min_trade, k - 1) {
                None => None,
                Some(HoldingOutcome::Buy { amount, .. }) => spec_checked_add(d, amount),
                Some(_) => Some(d),
            },
        }
    }
}

/// The first phase of a sleeve goes through: the sleeve's value, every holding's
/// outcome and the deployed sum can be computed.
pub open spec fn phase_one_succeeds(budget: Dec, hs: Seq<HoldingSummary>, whole: bool, min_trade: Dec) -> bool {
    spec_sleeve_value(hs, hs.len() as int) matches Some(total)
        && phase_one_deployed(budget, hs, total, whole, min_trade, hs.len() as int) is Some
}

proof fn lemma_sleeve_value_none_stays(hs: Seq<HoldingSummary>, k: int, n: int)
    requires
        0 <= k <= n,
        spec_sleeve_value(hs, k) is None,
    ensures
        spec_sleeve_value(hs, n) is None,
    decreases n - k,
{
    if k < n {
        lemma_sleeve_value_none_stays(hs, k + 1, n);
    }
}

proof fn lemma_phase_one_deployed_none_stays(budget: Dec, hs: Seq<HoldingSummary>, total: Dec, whole: bool, min_trade: Dec, k: int, n: int)
    requires
        0 <= k <= n,
        phase_one_deployed(budget, hs, total, whole, min_trade, k) is None,
    ensures
        phase_one_deployed(budget, hs, total, whole, min_trade, n) is None,
    decreases n - k,
{
    if k < n {
        lemma_phase_one_deployed_none_stays(budget, hs, total, whole, min_trade, k + 1, n);
    }
}

proof fn lemma_amount_sum_prefix(a: Seq<SuggestedManualTrade>, b: Seq<SuggestedManualTrade>, k: int)
    requires
        0 <= k <= a.len(),
        k <= b.len(),
        forall|i: int| 0 <= i < k ==> a[i] == b[i],
    ensures
        crate::optimizer::amount_sum(a, k) == crate::optimizer::amount_sum(b, k),
    decreases k,
{
    if k > 0 {
        lemma_amount_sum_prefix(a, b, k - 1);
    }
}

/// What the first phase does with holding `h` of a sleeve of `n` holdings whose value is
/// `total` (`valued` when it is positive): its outcome, `None` when a decimal step
/// overflows.
fn holding_outcome(
    budget: Dec,
    h: &HoldingSummary,
    total: Dec,
    valued: bool,
    n: usize,
    whole: bool,
    min_trade: Dec,
) -> (r: Option<HoldingOutcome>)
    requires
        budget.wf(),
        total.wf(),
        min_trade.wf(),
        valued == (units(total) > 0),
        h.market_value.wf(),
        h.quantity.wf(),
        h.unit_price matches Some(p) ==> p.wf(),
    ensures
        r == (match spec_holding_budget(budget, *h, total, n as int) {
            Some(hb) => phase_one_outcome(*h, hb, whole, min_trade),
            None => None,
        }),
        r matches Some(HoldingOutcome::Buy { quantity, price, amount }) ==> amount.wf()
            && (quantity matches Some(q) ==> q.wf() && (whole ==> q.scale == 0))
            && (price matches Some(p) ==> p.wf()) && units(amount) >= units(min_trade),
        r matches Some(HoldingOutcome::Skip { budget, price }) ==> budget.wf() && price.wf(),
{
    let weight = if valued {
        dec_checked_div(h.market_value, total)
    } else {
        dec_checked_div(Dec::one(), Dec::from_i64(n as i64))
    };
    let weight = match weight {
        Some(v) => v,
        None => return None,
    };
    let hb = match dec_checked_mul(budget, weight) {
        Some(v) => v,
        None => return None,
    };
    proof {
        assert(spec_holding_budget(budget, *h, total, n as int) == Some(hb));
    }
    let price = match holding_price(h) {
        Some(p) => p,
        None => return None,
    };
    match price {
        None => {
            if whole {
                Some(HoldingOutcome::MissingQuote)
            } else if !dec_lt(hb, min_trade) {
                Some(HoldingOutcome::Buy { quantity: None, price: None, amount: hb })
            } else {
                Some(HoldingOutcome::Nothing)
            }
        },
        Some(p) => {
            let per = match dec_checked_div(hb, p) {
                Some(v) => v,
                None => return None,
            };
            if whole {
                let q = dec_floor(per);
                proof {
                    assert(q == floor_dec(per));
                }
                if q.mantissa == 0 {
                    Some(HoldingOutcome::Skip { budget: hb, price: p })
                } else {
                    let amt = match dec_checked_mul(q, p) {
                        Some(v) => v,
                        None => return None,
                    };
                    if !dec_lt(amt, min_trade) {
                        Some(HoldingOutcome::Buy { quantity: Some(q), price: Some(p), amount: amt })
                    } else {
                        Some(HoldingOutcome::Nothing)
                    }
                }
            } else if !dec_lt(hb, min_trade) {
                Some(HoldingOutcome::Buy { quantity: Some(per), price: Some(p), amount: hb })
            } else {
                Some(HoldingOutcome::Nothing)
            }
        },
    }
}

/// First phase of planning a sleeve: each holding gets the part of the budget that its
/// value weighs in the sleeve (equal parts when the sleeve has no value), bought at its
/// price; in whole-share mode, the shares are rounded down and holdings that get no
/// share are handed back for the second phase.
fn sleeve_phase_one(
    sleeve: &SleeveShortfall,
    budget: Dec,
    holdings: &Vec<HoldingSummary>,
    whole: bool,
    min_trade: Dec,
    trades: &mut Vec<SuggestedManualTrade>,
    warnings: &mut Vec<RebalanceWarning>,
) -> (r: Result<(Dec, Vec<SkippedHolding>), Error>)
    requires
        budget.wf(),
        min_trade.wf(),
        summaries_wf(holdings@),
    ensures
        r is Err ==> r->Err_0 is Calculation,
        r is Ok <==> phase_one_succeeds(budget, holdings@, whole, min_trade),
        r is Ok ==> {
            &&& grows_in_sleeve(old(trades)@, final(trades)@, *sleeve)
            &&& forall|i: int| 0 <= i < old(trades)@.len() ==> #[trigger] final(trades)@[i] == old(trades)@[i]
            &&& new_trades_ok(old(trades)@.len() as int, final(trades)@, whole)
            &&& forall|i: int| old(trades)@.len() <= i < final(trades)@.len() ==> trade_meets_min(#[trigger] final(trades)@[i], min_trade)
            &&& warns_in_sleeve(old(warnings)@, final(warnings)@, *sleeve)
            &&& r->Ok_0.0.wf()
            &&& skipped_wf(r->Ok_0.1@)
            &&& phase_one_ok(*sleeve, budget, holdings@, whole, min_trade,
                final(trades)@.subrange(old(trades)@.len() as int, final(trades)@.len() as int),
                final(warnings)@.subrange(old(warnings)@.len() as int, final(warnings)@.len() as int),
                r->Ok_0.1@, r->Ok_0.0)
        },
{
    let ghost t0 = trades@;
    let ghost w0 = warnings@;
    let n = holdings.len();
    let zero = Dec::zero();
    let mut sleeve_total = Dec::zero();
    let mut k: usize = 0;
    while k < n
        invariant
            n == holdings@.len(),
            k <= n,
            summaries_wf(holdings@),
            sleeve_total.wf(),
            spec_sleeve_value(holdings@, k as int) == Some(sleeve_total),
        decreases n - k,
    {
        sleeve_total = match need(dec_checked_add(sleeve_total, holdings[k].market_value), "sleeve value") {
            Ok(v) => v,
            Err(e) => {
                proof {
                    lemma_sleeve_value_none_stays(holdings@, k + 1, n as int);
                }
                return Err(e);
            },
        };
        k = k + 1;
    }
    let ghost total = sleeve_total;
    let ghost hs = holdings@;
    let valued = dec_lt(zero, sleeve_total);
    let mut deployed = Dec::zero();
    let mut skipped: Vec<SkippedHolding> = Vec::new();
    let mut k: usize = 0;
    proof {
        assert(trades@.subrange(t0.len() as int, trades@.len() as int) =~= Seq::<SuggestedManualTrade>::empty());
        assert(warnings@.subrange(w0.len() as int, warnings@.len() as int) =~= Seq::<RebalanceWarning>::empty());
    }
    while k < n
        invariant
            n == holdings@.len(),
            hs == holdings@,
            k <= n,
            summaries_wf(holdings@),
            sleeve_total.wf(),
            sleeve_total == total,
            spec_sleeve_value(hs, n as int) == Some(total),
            valued == (units(total) > 0),
            budget.wf(),
            min_trade.wf(),
            deployed.wf(),
            skipped_wf(skipped@),
            t0 == old(trades)@,
            w0 == old(warnings)@,
            t0.len() <= trades@.len(),
            w0.len() <= warnings@.len(),
            forall|i: int| 0 <= i < t0.len() ==> #[trigger] trades@[i] == t0[i],
            forall|i: int| t0.len() <= i < trades@.len() ==> sleeve_buy(#[trigger] trades@[i], *sleeve),
            new_trades_ok(t0.len() as int, trades@, whole),
            forall|i: int| t0.len() <= i < trades@.len() ==> trade_meets_min(#[trigger] trades@[i], min_trade),
            warns_in_sleeve(w0, warnings@, *sleeve),
            phase_one_prefix_ok(*sleeve, budget, hs, total, whole, min_trade,
                trades@.subrange(t0.len() as int, trades@.len() as int),
                warnings@.subrange(w0.len() as int, warnings@.len() as int),
                skipped@, deployed, k as int),
            phase_one_deployed(budget, hs, total, whole, min_trade, k as int) == Some(deployed),
        decreases n - k,
    {
        let ghost nt = trades@.subrange(t0.len() as int, trades@.len() as int);
        let ghost nw = warnings@.subrange(w0.len() as int, warnings@.len() as int);
        let ghost sk = skipped@;
        let h = &holdings[k];
        let outcome = holding_outcome(budget, h, sleeve_total, valued, n, whole, min_trade);
        proof {
            assert(outcome == outcome_at(budget, hs, total, whole, min_trade, k as int));
        }
        match outcome {
            None => {
                proof {
                    lemma_phase_one_deployed_none_stays(budget, hs, total, whole, min_trade, k + 1, n as int);
                }
                return Err(overflow("holding outcome"));
            },
            Some(HoldingOutcome::Buy { quantity, price, amount }) => {
                trades.push(holding_trade(sleeve, h, quantity, price, amount));
                deployed = match need(dec_checked_add(deployed, amount), "sleeve deployment") {
                    Ok(v) => v,
                    Err(e) => {
                        proof {
                            lemma_phase_one_deployed_none_stays(budget, hs, total, whole, min_trade, k + 1, n as int);
                        }
                        return Err(e);
                    },
                };
            },
            Some(HoldingOutcome::Skip { budget: hb, price }) => {
                skipped.push(SkippedHolding { symbol: h.symbol.clone(), budget: hb, price });
            },
            Some(HoldingOutcome::MissingQuote) => {
                warnings.push(missing_quote_warning(sleeve, h));
            },
            Some(HoldingOutcome::Nothing) => {},
        }
        proof {
            let o = outcome_at(budget, hs, total, whole, min_trade, k as int);
            let nt2 = trades@.subrange(t0.len() as int, trades@.len() as int);
            let nw2 = warnings@.subrange(w0.len() as int, warnings@.len() as int);
            if outcome_kind(o) == 0 {
                assert(nt2 =~= nt.push(trades@.last()));
                lemma_amount_sum_prefix(nt2, nt, nt.len() as int);
                assert(is_holding_buy(nt2[nt.len() as int], *sleeve, hs[k as int], o));
            } else {
                assert(nt2 =~= nt);
            }
            if outcome_kind(o) == 2 {
                assert(nw2 =~= nw.push(warnings@.last()));
            } else {
                assert(nw2 =~= nw);
            }
        }
        k = k + 1;
    }
    Ok((deployed, skipped))
}


/// Adds one share at `price` to the trade at `ti`: its quantity, if it has one, grows
/// by one and its amount by the price.
fn grow_trade(trades: &mut Vec<SuggestedManualTrade>, ti: usize, price: Dec) -> (r: Result<(), Error>)
    requires
        ti < old(trades)@.len(),
        trade_wf(old(trades)@[ti as int]),
        price.wf(),
    ensures
        r is Err ==> r->Err_0 is Calculation,
        r is Ok ==> {
            &&& final(trades)@.len() == old(trades)@.len()
            &&& forall|i: int| 0 <= i < old(trades)@.len() && i != ti ==> #[trigger] final(trades)@[i] == old(trades)@[i]
            &&& same_trade_but_size(final(trades)@[ti as int], old(trades)@[ti as int])
            &&& trade_wf(final(trades)@[ti as int])
            &&& (old(trades)@[ti as int].quantity matches Some(q) && q.scale == 0) ==> (final(trades)@[ti as int].quantity matches Some(q2) && q2.scale == 0)
            &&& units(final(trades)@[ti as int].estimated_amount) >= units(old(trades)@[ti as int].estimated_amount)
            &&& spec_grown(old(trades)@[ti as int]@, price) == Some(final(trades)@[ti as int]@)
        },
        r is Err ==> spec_grown(old(trades)@[ti as int]@, price) is None,
{
    let t = &trades[ti];
    let quantity = match t.quantity {
        Some(q) => {
            if q.scale == 0 && q.mantissa >= MAX_MANTISSA {
                return Err(overflow("share count"));
            }
            let one = Dec::one();
            proof {
                if q.scale == 0 {
                    let p = pow10(28);
                    crate::dec::lemma_pow10_values();
                    assert(units(q) + units(one) == (q.mantissa + 1) * p) by (nonlinear_arith)
                        requires units(q) == q.mantissa * p, units(one) == p;
                    assert(((q.mantissa + 1) * p) / p == q.mantissa + 1) by (nonlinear_arith)
                        requires p > 0;
                }
            }
            match need(dec_checked_add(q, one), "share count") {
                Ok(v) => Some(v),
                Err(e) => return Err(e),
            }
        },
        None => None,
    };
    let amount = match need(dec_checked_add(t.estimated_amount, price), "trade amount") {
        Ok(v) => v,
        Err(e) => return Err(e),
    };
    if dec_lt(amount, t.estimated_amount) {
        return Err(overflow("trade amount"));
    }
    let nt = SuggestedManualTrade {
        action: t.action.clone(),
        category_id: t.category_id.clone(),
        category_name: t.category_name.clone(),
        asset_id: clone_opt(&t.asset_id),
        symbol: clone_opt(&t.symbol),
        name: clone_opt(&t.name),
        quantity,
        estimated_price: t.estimated_price,
        estimated_amount: amount,
        reason: t.reason.clone(),
    };
    trades.set(ti, nt);
    Ok(())
}

spec fn priced_ok(priced: Seq<(usize, Dec)>, n: int) -> bool {
    forall|k: int| 0 <= k < priced.len() ==> (#[trigger] priced[k]).0 < n && priced[k].1.wf() && units(priced[k].1) > 0
}

/// Measure of the residue left to absorb.
pub open spec fn residue_measure(d: Dec) -> int {
    if units(d) > 0 { units(d) } else { 0 }
}

/// The trade after one more share at `price`: its quantity, if it has one, grows by one
/// and its amount by the price. `None` when a decimal step fails.
pub open spec fn spec_grown(t: TradeView, price: Dec) -> Option<TradeView> {
    let quantity: Option<Option<Dec>> = match t.quantity {
        Some(q) => if q.scale == 0 && q.mantissa >= MAX_MANTISSA {
            None
        } else {
            match spec_checked_add(q, Dec { mantissa: 1, scale: 0 }) {
                Some(q2) => Some(Some(q2)),
                None => None,
            }
        },
        None => Some(None),
    };
    match quantity {
        None => None,
        Some(q) => match spec_checked_add(t.estimated_amount, price) {
            None => None,
            Some(a) => if units(a) < units(t.estimated_amount) {
                None
            } else {
                Some(TradeView { quantity: q, estimated_amount: a, ..t })
            },
        },
    }
}

/// A buy of holding `h` in the sleeve, as contracts read it.
pub open spec fn holding_buy_view(sleeve: SleeveShortfall, h: HoldingSummary, quantity: Option<Dec>, price: Option<Dec>, amount: Dec) -> TradeView {
    TradeView {
        action: "buy"@,
        category_id: sleeve.category_id@,
        category_name: sleeve.category_name@,
        asset_id: Some(h.id@),
        symbol: Some(h.symbol@),
        name: opt_chars(h.name),
        quantity: quantity,
        estimated_price: price,
        estimated_amount: amount,
        reason: h.symbol@ + " is underweight in "@ + sleeve.category_name@ + "."@,
    }
}

/// Position of the last of the first `k` trades that buys the asset in the category.
pub open spec fn last_trade_for(vs: Seq<TradeView>, asset_id: Seq<char>, category_id: Seq<char>, k: int) -> Option<int>
    decreases k,
{
    if k <= 0 {
        None
    } else if vs[k - 1].asset_id == Some(asset_id) && vs[k - 1].category_id == category_id {
        Some(k - 1)
    } else {
        last_trade_for(vs, asset_id, category_id, k - 1)
    }
}

/// The holdings of a sleeve that have a positive price, as (position, price) in holding
/// order, among the first `k`; `None` when a price overflows.
pub open spec fn priced_holdings(hs: Seq<HoldingSummary>, k: int) -> Option<Seq<(usize, Dec)>>
    decreases k,
{
    if k <= 0 {
        Some(Seq::empty())
    } else {
        match priced_holdings(hs, k - 1) {
            None => None,
            Some(prev) => match spec_holding_price(hs[k - 1]) {
                None => None,
                Some(Some(p)) => if units(p) > 0 {
                    Some(prev.push(((k - 1) as usize, p)))
                } else {
                    Some(prev)
                },
                Some(None) => Some(prev),
            },
        }
    }
}

/// One step of the second phase at holding `h` priced `price`, from the state (trades,
/// residue, deployed): when the residue covers the price, one share is bought, added to
/// the last trade of the holding in the sleeve or else, when the price reaches the
/// minimum trade amount, bought by a new trade; the price then moves from the residue
/// to the deployed amount. Gives the new state and whether a share was bought; `None`
/// when a decimal step fails.
pub open spec fn residue_step(
    sleeve: SleeveShortfall,
    h: HoldingSummary,
    price: Dec,
    min_trade: Dec,
    st: (Seq<TradeView>, Dec, Dec),
) -> Option<((Seq<TradeView>, Dec, Dec), bool)> {
    let ts = st.0;
    let residue = st.1;
    let deployed = st.2;
    if units(residue) < units(price) {
        Some((st, false))
    } else {
        let bought: Option<Option<Seq<TradeView>>> = match last_trade_for(ts, h.id@, sleeve.category_id@, ts.len() as int) {
            Some(i) => match spec_grown(ts[i], price) {
                Some(t) => Some(Some(ts.update(i, t))),
                None => None,
            },
            None => if units(price) >= units(min_trade) {
                Some(Some(ts.push(holding_buy_view(sleeve, h, Some(Dec { mantissa: 1, scale: 0 }), Some(price), price))))
            } else {
                Some(None)
            },
        };
        match bought {
            None => None,
            Some(None) => Some((st, false)),
            Some(Some(ts2)) => match (spec_checked_add(deployed, price), spec_checked_sub(residue, price)) {
                (Some(d2), Some(r2)) => if units(r2) < units(residue) {
                    Some(((ts2, r2, d2), true))
                } else {
                    None
                },
                _ => None,
            },
        }
    }
}

/// A pass of the second phase over the priced holdings from position `j`, stopping as
/// soon as the residue is used up. Gives the state after it, whether a share was bought
/// (or `bought` already was), and whether the residue ran out.
pub open spec fn residue_pass(
    sleeve: SleeveShortfall,
    hs: Seq<HoldingSummary>,
    priced: Seq<(usize, Dec)>,
    min_trade: Dec,
    st: (Seq<TradeView>, Dec, Dec),
    bought: bool,
    j: int,
) -> Option<((Seq<TradeView>, Dec, Dec), bool, bool)>
    decreases priced.len() - j,
{
    if j < 0 || j >= priced.len() {
        Some((st, bought, false))
    } else if units(st.1) <= 0 {
        Some((st, bought, true))
    } else {
        match residue_step(sleeve, hs[priced[j].0 as int], priced[j].1, min_trade, st) {
            None => None,
            Some(next) => residue_pass(sleeve, hs, priced, min_trade, next.0, bought || next.1, j + 1),
        }
    }
}

/// Passes of the second phase until one buys nothing or the residue runs out (a pass
/// that buys always lowers the residue).
pub open spec fn residue_run(
    sleeve: SleeveShortfall,
    hs: Seq<HoldingSummary>,
    priced: Seq<(usize, Dec)>,
    min_trade: Dec,
    st: (Seq<TradeView>, Dec, Dec),
) -> Option<(Seq<TradeView>, Dec, Dec)>
    decreases residue_measure(st.1),
{
    match residue_pass(sleeve, hs, priced, min_trade, st, false, 0) {
        None => None,
        Some(out) => if out.2 || !out.1 || residue_measure(out.0.1) >= residue_measure(st.1) {
            Some(out.0)
        } else {
            residue_run(sleeve, hs, priced, min_trade, out.0)
        },
    }
}

/// What the second phase of a sleeve makes of the trades `ts` once the first phase has
/// deployed `deployed` of the budget: the residue is spent over the holdings sorted by
/// price. Gives the trades and the deployed amount; `None` when a decimal step fails.
pub open spec fn phase_two_result(
    sleeve: SleeveShortfall,
    budget: Dec,
    deployed: Dec,
    hs: Seq<HoldingSummary>,
    min_trade: Dec,
    ts: Seq<TradeView>,
) -> Option<(Seq<TradeView>, Dec)> {
    match (spec_checked_sub(budget, deployed), priced_holdings(hs, hs.len() as int)) {
        (Some(residue), Some(pairs)) => match residue_run(sleeve, hs, sorted_by_price(pairs), min_trade, (ts, residue, deployed)) {
            Some(st) => Some((st.0, st.2)),
            None => None,
        },
        _ => None,
    }
}

proof fn lemma_priced_none_stays(hs: Seq<HoldingSummary>, k: int, n: int)
    requires
        0 <= k <= n,
        priced_holdings(hs, k) is None,
    ensures
        priced_holdings(hs, n) is None,
    decreases n - k,
{
    if k < n {
        lemma_priced_none_stays(hs, k + 1, n);
    }
}

proof fn lemma_last_trade_for(ts: Seq<SuggestedManualTrade>, asset_id: Seq<char>, category_id: Seq<char>, k: int, i: Option<int>)
    requires
        0 <= k <= ts.len(),
        match i {
            Some(i) => 0 <= i < k && trade_for_asset(ts[i], asset_id, category_id)
                && forall|j: int| i < j < k ==> !trade_for_asset(#[trigger] ts[j], asset_id, category_id),
            None => forall|j: int| 0 <= j < k ==> !trade_for_asset(#[trigger] ts[j], asset_id, category_id),
        },
    ensures
        last_trade_for(trade_views(ts), asset_id, category_id, k) == i,
    decreases k,
{
    if k > 0 {
        let v = trade_views(ts)[k - 1];
        assert(v == ts[k - 1]@);
        if trade_for_asset(ts[k - 1], asset_id, category_id) {
            assert(v.asset_id == Some(asset_id) && v.category_id == category_id);
        } else {
            assert(!(v.asset_id == Some(asset_id) && v.category_id == category_id));
            lemma_last_trade_for(ts, asset_id, category_id, k - 1, i);
        }
    }
}

/// One step of the second phase: when `residue` covers `price`, buys one share of `h`,
/// adding it to the last trade of the holding in the sleeve or, when the price reaches
/// the minimum trade amount, as a new trade; then moves the price from the residue to
/// the deployed amount. Returns the new residue and deployed amount when a share was
/// bought.
fn residue_step_exec(
    sleeve: &SleeveShortfall,
    h: &HoldingSummary,
    price: Dec,
    min_trade: Dec,
    residue: Dec,
    deployed: Dec,
    trades: &mut Vec<SuggestedManualTrade>,
) -> (r: Result<Option<(Dec, Dec)>, Error>)
    requires
        price.wf(),
        units(price) > 0,
        min_trade.wf(),
        residue.wf(),
        deployed.wf(),
        trades_wf(old(trades)@),
        trades_meet_min(old(trades)@, min_trade),
    ensures
        r is Err ==> r->Err_0 is Calculation,
        r is Err ==> residue_step(*sleeve, *h, price, min_trade, (trade_views(old(trades)@), residue, deployed)) is None,
        r matches Ok(None) ==> final(trades)@ == old(trades)@ && residue_step(*sleeve, *h, price, min_trade,
            (trade_views(old(trades)@), residue, deployed)) == Some(((trade_views(old(trades)@), residue, deployed), false)),
        r matches Ok(Some(x)) ==> {
            &&& residue_step(*sleeve, *h, price, min_trade, (trade_views(old(trades)@), residue, deployed))
                == Some(((trade_views(final(trades)@), x.0, x.1), true))
            &&& x.0.wf() && x.1.wf()
            &&& units(x.0) < units(residue)
            &&& units(residue) > 0
        },
        r is Ok ==> {
            &&& grows_in_sleeve(old(trades)@, final(trades)@, *sleeve)
            &&& trades_wf(final(trades)@)
            &&& all_whole(old(trades)@) ==> all_whole(final(trades)@)
            &&& trades_meet_min(final(trades)@, min_trade)
        },
{
    let ghost before = trades@;
    if dec_lt(residue, price) {
        proof {
            assert(grows_in_sleeve(before, trades@, *sleeve)) by {
                assert forall|i: int| 0 <= i < before.len() implies same_trade_but_size(#[trigger] trades@[i], before[i]) by {}
            }
        }
        return Ok(None);
    }
    let bought = match find_existing_trade(trades, &h.id, &sleeve.category_id) {
        Some(ti) => {
            match grow_trade(trades, ti, price) {
                Ok(()) => {},
                Err(e) => {
                    proof {
                        assert(trade_views(before)[ti as int] == before[ti as int]@);
                    }
                    return Err(e);
                },
            }
            proof {
                assert(grows_in_sleeve(before, trades@, *sleeve)) by {
                    assert(before[ti as int].category_id@ == sleeve.category_id@);
                }
                assert forall|i: int| 0 <= i < trades@.len() implies trade_wf(#[trigger] trades@[i]) by {
                    if i != ti {
                        assert(trades@[i] == before[i]);
                    }
                }
                assert forall|i: int| 0 <= i < trades@.len() implies trade_meets_min(#[trigger] trades@[i], min_trade) by {
                    if i != ti {
                        assert(trades@[i] == before[i]);
                    } else {
                        assert(trade_meets_min(before[i], min_trade));
                    }
                }
                if all_whole(before) {
                    assert forall|i: int| 0 <= i < trades@.len() implies ((#[trigger] trades@[i]).quantity matches Some(q) ==> q.scale == 0) by {
                        if i != ti {
                            assert(trades@[i] == before[i]);
                        } else {
                            assert(before[i].quantity matches Some(q) ==> q.scale == 0);
                        }
                    }
                }
                assert(trade_views(before)[ti as int] == before[ti as int]@);
                assert(trade_views(trades@) =~= trade_views(before).update(ti as int, trades@[ti as int]@)) by {
                    assert forall|i: int| 0 <= i < trades@.len() && i != ti implies trades@[i] == before[i] by {}
                }
            }
            true
        },
        None => {
            if !dec_lt(price, min_trade) {
                let one = Dec::one();
                let nt = holding_trade(sleeve, h, Some(one), Some(price), price);
                proof {
                    assert(nt@ =~= holding_buy_view(*sleeve, *h, Some(Dec { mantissa: 1, scale: 0 }), Some(price), price));
                }
                trades.push(nt);
                proof {
                    assert(grows_in_sleeve(before, trades@, *sleeve)) by {
                        assert forall|i: int| 0 <= i < before.len() implies #[trigger] trades@[i] == before[i] by {}
                    }
                    assert forall|i: int| 0 <= i < trades@.len() implies trade_wf(#[trigger] trades@[i]) by {
                        if i < before.len() {
                            assert(trades@[i] == before[i]);
                        }
                    }
                    assert forall|i: int| 0 <= i < trades@.len() implies trade_meets_min(#[trigger] trades@[i], min_trade) by {
                        if i < before.len() {
                            assert(trades@[i] == before[i]);
                        }
                    }
                    if all_whole(before) {
                        assert forall|i: int| 0 <= i < trades@.len() implies ((#[trigger] trades@[i]).quantity matches Some(q) ==> q.scale == 0) by {
                            if i < before.len() {
                                assert(trades@[i] == before[i]);
                            }
                        }
                    }
                    assert(trade_views(trades@) =~= trade_views(before).push(nt@));
                }
                true
            } else {
                proof {
                    assert(grows_in_sleeve(before, trades@, *sleeve)) by {
                        assert forall|i: int| 0 <= i < before.len() implies same_trade_but_size(#[trigger] trades@[i], before[i]) by {}
                    }
                }
                false
            }
        },
    };
    if !bought {
        return Ok(None);
    }
    let new_deployed = match need(dec_checked_add(deployed, price), "sleeve deployment") {
        Ok(v) => v,
        Err(e) => return Err(e),
    };
    let next = match need(dec_checked_sub(residue, price), "sleeve residue") {
        Ok(v) => v,
        Err(e) => return Err(e),
    };
    if !dec_lt(next, residue) {
        return Err(overflow("sleeve residue"));
    }
    Ok(Some((next, new_deployed)))
}

/// Second phase of planning a sleeve in whole-share mode: the budget left over by the
/// first phase is spent one share at a time, passing over the holdings from the cheapest
/// up, until no holding's price fits in what is left. A share goes to the last trade of
/// the holding in the category, or to a new trade when its price reaches the minimum
/// trade amount. Returns the new deployed amount.
#[verifier::spinoff_prover]
fn sleeve_phase_two(
    sleeve: &SleeveShortfall,
    budget: Dec,
    deployed: Dec,
    holdings: &Vec<HoldingSummary>,
    min_trade: Dec,
    trades: &mut Vec<SuggestedManualTrade>,
) -> (r: Result<Dec, Error>)
    requires
        budget.wf(),
        deployed.wf(),
        min_trade.wf(),
        summaries_wf(holdings@),
        trades_wf(old(trades)@),
        trades_meet_min(old(trades)@, min_trade),
    ensures
        r is Err ==> r->Err_0 is Calculation,
        r is Err ==> phase_two_result(*sleeve, budget, deployed, holdings@, min_trade, trade_views(old(trades)@)) is None,
        r is Ok ==> {
            &&& phase_two_result(*sleeve, budget, deployed, holdings@, min_trade, trade_views(old(trades)@))
                == Some((trade_views(final(trades)@), r->Ok_0))
            &&& grows_in_sleeve(old(trades)@, final(trades)@, *sleeve)
            &&& trades_wf(final(trades)@)
            &&& all_whole(old(trades)@) ==> all_whole(final(trades)@)
            &&& trades_meet_min(final(trades)@, min_trade)
            &&& r->Ok_0.wf()
        },
{
    let ghost t0 = trades@;
    let ghost hs = holdings@;
    let ghost sl = *sleeve;
    let zero = Dec::zero();
    let mut residue = match need(dec_checked_sub(budget, deployed), "sleeve residue") {
        Ok(v) => v,
        Err(e) => return Err(e),
    };
    let ghost residue0 = residue;
    let mut spent = deployed;
    let n = holdings.len();
    let mut pairs: Vec<(usize, Dec)> = Vec::new();
    let mut k: usize = 0;
    while k < n
        invariant
            n == holdings@.len(),
            k <= n,
            summaries_wf(holdings@),
            priced_ok(pairs@, n as int),
            zero.wf(),
            units(zero) == 0,
            priced_holdings(holdings@, k as int) == Some(pairs@),
        decreases n - k,
    {
        match holding_price(&holdings[k]) {
            Some(Some(p)) => {
                if dec_lt(zero, p) {
                    pairs.push((k, p));
                }
            },
            Some(None) => {},
            None => {
                proof {
                    lemma_priced_none_stays(holdings@, k + 1, n as int);
                }
                return Err(overflow("holding price"));
            },
        }
        k = k + 1;
    }
    let ghost pairs0 = pairs@;
    let priced = sort_by_price(pairs);
    let ghost init = (trade_views(t0), residue0, deployed);
    proof {
        assert forall|k: int| 0 <= k < priced@.len() implies (#[trigger] priced@[k]).0 < n && priced@[k].1.wf() && units(priced@[k].1) > 0 by {
            assert(is_item_of(priced@[k], pairs0));
            let j = choose|j: int| 0 <= j < pairs0.len() && pairs0[j] == priced@[k];
            assert(pairs0[j].0 < n);
        }
    }
    loop
        invariant_except_break
            residue_run(sl, hs, priced@, min_trade, init) == residue_run(sl, hs, priced@, min_trade, (trade_views(trades@), residue, spent)),
        invariant
            n == holdings@.len(),
            hs == holdings@,
            sl == *sleeve,
            summaries_wf(holdings@),
            priced_ok(priced@, n as int),
            zero.wf(),
            units(zero) == 0,
            min_trade.wf(),
            residue.wf(),
            spent.wf(),
            t0 == old(trades)@,
            grows_in_sleeve(t0, trades@, *sleeve),
            trades_wf(trades@),
            all_whole(t0) ==> all_whole(trades@),
            trades_meet_min(trades@, min_trade),
            phase_two_result(sl, budget, deployed, hs, min_trade, trade_views(t0)) == (match residue_run(sl, hs, priced@, min_trade, init) {
                Some(st) => Some((st.0, st.2)),
                None => None,
            }),
        ensures
            grows_in_sleeve(t0, trades@, *sleeve),
            trades_wf(trades@),
            all_whole(t0) ==> all_whole(trades@),
            trades_meet_min(trades@, min_trade),
            spent.wf(),
            phase_two_result(sl, budget, deployed, hs, min_trade, trade_views(t0)) == Some((trade_views(trades@), spent)),
        decreases residue_measure(residue),
    {
        let ghost r_start = residue;
        let ghost st_start = (trade_views(trades@), residue, spent);
        let mut absorbed = false;
        let mut done = false;
        let mut j: usize = 0;
        while j < priced.len() && !done
            invariant
                n == holdings@.len(),
                hs == holdings@,
                sl == *sleeve,
                summaries_wf(holdings@),
                priced_ok(priced@, n as int),
                j <= priced@.len(),
                zero.wf(),
                units(zero) == 0,
                min_trade.wf(),
                residue.wf(),
                spent.wf(),
                grows_in_sleeve(t0, trades@, *sleeve),
                trades_wf(trades@),
                all_whole(t0) ==> all_whole(trades@),
                trades_meet_min(trades@, min_trade),
                t0 == old(trades)@,
                units(residue) <= units(r_start),
                absorbed ==> units(residue) < units(r_start) && units(r_start) > 0,
                phase_two_result(sl, budget, deployed, hs, min_trade, trade_views(t0)) == (match residue_run(sl, hs, priced@, min_trade, init) {
                    Some(st) => Some((st.0, st.2)),
                    None => None,
                }),
                residue_run(sl, hs, priced@, min_trade, init) == residue_run(sl, hs, priced@, min_trade, st_start),
                !done ==> residue_pass(sl, hs, priced@, min_trade, st_start, false, 0)
                    == residue_pass(sl, hs, priced@, min_trade, (trade_views(trades@), residue, spent), absorbed, j as int),
                done ==> residue_pass(sl, hs, priced@, min_trade, st_start, false, 0)
                    == Some(((trade_views(trades@), residue, spent), absorbed, true)),
            decreases priced@.len() - j,
        {
            let (hi, price) = priced[j];
            let ghost cur = (trade_views(trades@), residue, spent);
            let ghost before = trades@;
            if !dec_lt(zero, residue) {
                done = true;
            } else {
                match residue_step_exec(sleeve, &holdings[hi], price, min_trade, residue, spent, trades) {
                    Ok(Some((r2, d2))) => {
                        residue = r2;
                        spent = d2;
                        absorbed = true;
                    },
                    Ok(None) => {},
                    Err(e) => {
                        proof {
                            assert(residue_pass(sl, hs, priced@, min_trade, cur, absorbed, j as int) is None);
                            assert(residue_run(sl, hs, priced@, min_trade, st_start) is None);
                            assert(residue_run(sl, hs, priced@, min_trade, init) is None);
                            assert(phase_two_result(sl, budget, deployed, hs, min_trade, trade_views(t0)) is None);
                        }
                        return Err(e);
                    },
                }
                proof {
                    lemma_grows_trans(t0, before, trades@, *sleeve);
                }
            }
            j = j + 1;
        }
        if done || !absorbed {
            break;
        }
    }
    Ok(spent)
}


/// Some trade buys the symbol in the category.
pub open spec fn symbol_bought(ts: Seq<TradeView>, symbol: Seq<char>, category_id: Seq<char>) -> bool {
    exists|j: int| 0 <= j < ts.len() && (#[trigger] ts[j]).symbol == Some(symbol) && ts[j].category_id == category_id
}

/// The warning that a holding's budget falls short of one share, and by how much.
pub open spec fn topup_message(symbol: Seq<char>, budget: Dec, price: Dec, topup: Dec) -> Seq<char> {
    symbol + ": budget "@ + spec_format_2dp(budget) + " is short of 1 share at "@ + spec_format_2dp(price) + ". Add ~"@
        + spec_format_2dp(topup) + " more cash to fund 1 share, or "@ + symbol + " will drift below target over time."@
}

/// The top-up messages, in order, for the first `k` skipped holdings that no trade of
/// `ts` buys in the sleeve, the top-up being the price less the budget; `None` when a
/// subtraction fails.
pub open spec fn topup_messages(sleeve: SleeveShortfall, skipped: Seq<SkippedHolding>, ts: Seq<TradeView>, k: int) -> Option<Seq<Seq<char>>>
    decreases k,
{
    if k <= 0 {
        Some(Seq::empty())
    } else {
        match topup_messages(sleeve, skipped, ts, k - 1) {
            None => None,
            Some(prev) => {
                let sk = skipped[k - 1];
                if symbol_bought(ts, sk.symbol@, sleeve.category_id@) {
                    Some(prev)
                } else {
                    match spec_checked_sub(sk.price, sk.budget) {
                        None => None,
                        Some(t) => Some(prev.push(topup_message(sk.symbol@, sk.budget, sk.price, t))),
                    }
                }
            },
        }
    }
}

/// The warnings are whole-share residue warnings about the sleeve with these messages.
pub open spec fn topup_warnings_are(ws: Seq<RebalanceWarning>, sleeve: SleeveShortfall, msgs: Seq<Seq<char>>) -> bool {
    &&& ws.len() == msgs.len()
    &&& forall|i: int| 0 <= i < ws.len() ==> (#[trigger] ws[i]).kind == RebalanceWarningKind::WholeShareResidue
        && ws[i].category_id@ == sleeve.category_id@ && ws[i].message@ == msgs[i]
}

proof fn lemma_topup_none_stays(sleeve: SleeveShortfall, skipped: Seq<SkippedHolding>, ts: Seq<TradeView>, k: int, n: int)
    requires
        0 <= k <= n,
        topup_messages(sleeve, skipped, ts, k) is None,
    ensures
        topup_messages(sleeve, skipped, ts, n) is None,
    decreases n - k,
{
    if k < n {
        lemma_topup_none_stays(sleeve, skipped, ts, k + 1, n);
    }
}

/// Warns, for each holding that whole-share rounding left without a share and that no
/// trade of the sleeve funds, how much more cash one share needs.
fn topup_warnings(
    sleeve: &SleeveShortfall,
    skipped: &Vec<SkippedHolding>,
    trades: &Vec<SuggestedManualTrade>,
    warnings: &mut Vec<RebalanceWarning>,
) -> (r: Result<(), Error>)
    requires
        skipped_wf(skipped@),
    ensures
        r is Err ==> r->Err_0 is Calculation,
        r is Err ==> topup_messages(*sleeve, skipped@, trade_views(trades@), skipped@.len() as int) is None,
        r is Ok ==> warns_in_sleeve(old(warnings)@, final(warnings)@, *sleeve),
        r is Ok ==> (topup_messages(*sleeve, skipped@, trade_views(trades@), skipped@.len() as int) matches Some(msgs)
            && topup_warnings_are(final(warnings)@.subrange(old(warnings)@.len() as int, final(warnings)@.len() as int), *sleeve, msgs)),
{
    let ghost w0 = warnings@;
    let ghost tv = trade_views(trades@);
    let mut k: usize = 0;
    while k < skipped.len()
        invariant
            k <= skipped@.len(),
            skipped_wf(skipped@),
            w0 == old(warnings)@,
            tv == trade_views(trades@),
            warns_in_sleeve(w0, warnings@, *sleeve),
            topup_messages(*sleeve, skipped@, tv, k as int) matches Some(msgs)
                && topup_warnings_are(warnings@.subrange(w0.len() as int, warnings@.len() as int), *sleeve, msgs),
        decreases skipped@.len() - k,
    {
        let s = &skipped[k];
        let funded = symbol_funded(trades, &s.symbol, &sleeve.category_id);
        proof {
            if funded {
                let j = choose|j: int| 0 <= j < trades@.len() && trade_for_symbol(#[trigger] trades@[j], s.symbol@, sleeve.category_id@);
                assert(tv[j] == trades@[j]@);
                assert(symbol_bought(tv, s.symbol@, sleeve.category_id@));
            } else {
                assert forall|j: int| 0 <= j < tv.len() implies !((#[trigger] tv[j]).symbol == Some(s.symbol@) && tv[j].category_id == sleeve.category_id@) by {
                    assert(tv[j] == trades@[j]@);
                    assert(!trade_for_symbol(trades@[j], s.symbol@, sleeve.category_id@));
                }
                assert(!symbol_bought(tv, s.symbol@, sleeve.category_id@));
            }
        }
        let ghost before = warnings@;
        if !funded {
            let topup = match need(dec_checked_sub(s.price, s.budget), "top-up") {
                Ok(v) => v,
                Err(e) => {
                    proof {
                        lemma_topup_none_stays(*sleeve, skipped@, tv, k + 1, skipped@.len() as int);
                    }
                    return Err(e);
                },
            };
            let mut m = s.symbol.clone();
            m.append(": budget ");
            m.append(dec_format_2dp(s.budget).as_str());
            m.append(" is short of 1 share at ");
            m.append(dec_format_2dp(s.price).as_str());
            m.append(". Add ~");
            m.append(dec_format_2dp(topup).as_str());
            m.append(" more cash to fund 1 share, or ");
            m.append(s.symbol.as_str());
            m.append(" will drift below target over time.");
            warnings.push(RebalanceWarning {
                kind: RebalanceWarningKind::WholeShareResidue,
                category_id: sleeve.category_id.clone(),
                message: m,
            });
            proof {
                let msgs = topup_messages(*sleeve, skipped@, tv, k as int).unwrap();
                assert(m@ =~= topup_message(s.symbol@, s.budget, s.price, topup));
                assert(warnings@.subrange(w0.len() as int, warnings@.len() as int)
                    =~= before.subrange(w0.len() as int, before.len() as int).push(warnings@.last()));
                assert(topup_warnings_are(warnings@.subrange(w0.len() as int, warnings@.len() as int), *sleeve,
                    msgs.push(topup_message(s.symbol@, s.budget, s.price, topup))));
            }
        }
        k = k + 1;
    }
    Ok(())
}

/// The sleeve-level buy suggested for a sleeve without holdings.
pub open spec fn is_sleeve_level_buy(t: SuggestedManualTrade, sleeve: SleeveShortfall, amount: Dec) -> bool {
    &&& sleeve_buy(t, sleeve)
    &&& t.asset_id is None
    &&& t.symbol is None
    &&& t.name is None
    &&& t.quantity is None
    &&& t.estimated_price is None
    &&& t.estimated_amount == amount
    &&& t.reason@ == "Sleeve "@ + sleeve.category_name@ + " is underweight. Suggested amount to buy."@
}

/// The warning that a sleeve without holdings must get its budget by hand.
pub open spec fn no_holdings_warning(w: RebalanceWarning, sleeve: SleeveShortfall, budget: Dec) -> bool {
    &&& w.kind == RebalanceWarningKind::NoBuyCandidate
    &&& w.category_id@ == sleeve.category_id@
    &&& w.message@ == "No holdings found in "@ + sleeve.category_name@ + ". Allocate "@ + spec_format_2dp(budget)
        + " to this sleeve manually."@
}

/// The plan of one sleeve with its budget: from the trades and warnings before to those
/// after, and the cash it deploys. Without holdings, a warning and one sleeve-level buy
/// of the whole budget, unless that is below the minimum trade amount; otherwise the first phase, and in whole-share mode the second
/// phase and the top-up warnings.
pub open spec fn sleeve_plan_ok(
    sleeve: SleeveShortfall,
    budget: Dec,
    hs: Seq<HoldingSummary>,
    whole: bool,
    min_trade: Dec,
    old_trades: Seq<SuggestedManualTrade>,
    trades: Seq<SuggestedManualTrade>,
    old_warnings: Seq<RebalanceWarning>,
    warnings: Seq<RebalanceWarning>,
    deployed: Dec,
) -> bool {
    if hs.len() == 0 {
        &&& if units(budget) >= units(min_trade) {
            &&& deployed == budget
            &&& trades.len() == old_trades.len() + 1
            &&& trades.drop_last() == old_trades
            &&& is_sleeve_level_buy(trades.last(), sleeve, budget)
        } else {
            deployed == dec_zero() && trades == old_trades
        }
        &&& warnings.len() == old_warnings.len() + 1
        &&& warnings.drop_last() == old_warnings
        &&& no_holdings_warning(warnings.last(), sleeve, budget)
    } else if whole {
        whole_sleeve_ok(sleeve, budget, hs, min_trade, old_trades, trades, old_warnings, warnings, deployed)
    } else {
        &&& old_trades.len() <= trades.len()
        &&& trades.subrange(0, old_trades.len() as int) == old_trades
        &&& old_warnings.len() <= warnings.len()
        &&& warnings.subrange(0, old_warnings.len() as int) == old_warnings
        &&& fractional_sleeve_ok(sleeve, budget, hs, min_trade, trades.subrange(old_trades.len() as int, trades.len() as int),
            warnings.subrange(old_warnings.len() as int, warnings.len() as int), deployed)
    }
}

/// In fractional mode, the first phase is the whole plan of a sleeve.
pub open spec fn fractional_sleeve_ok(
    sleeve: SleeveShortfall,
    budget: Dec,
    hs: Seq<HoldingSummary>,
    min_trade: Dec,
    new_trades: Seq<SuggestedManualTrade>,
    new_warnings: Seq<RebalanceWarning>,
    deployed: Dec,
) -> bool {
    exists|sk: Seq<SkippedHolding>| #[trigger] phase_one_ok(sleeve, budget, hs, false, min_trade, new_trades, new_warnings, sk, deployed)
}

/// In whole-share mode, the plan of a sleeve is the first phase, then the second phase
/// on its trades, then a top-up warning for each skipped holding still not bought.
pub open spec fn whole_sleeve_ok(
    sleeve: SleeveShortfall,
    budget: Dec,
    hs: Seq<HoldingSummary>,
    min_trade: Dec,
    old_trades: Seq<SuggestedManualTrade>,
    trades: Seq<SuggestedManualTrade>,
    old_warnings: Seq<RebalanceWarning>,
    warnings: Seq<RebalanceWarning>,
    deployed: Dec,
) -> bool {
    exists|mid: Seq<SuggestedManualTrade>, midw: Seq<RebalanceWarning>, sk: Seq<SkippedHolding>, dep: Dec|
        #[trigger] phase_one_ok(sleeve, budget, hs, true, min_trade, mid.subrange(old_trades.len() as int, mid.len() as int),
            midw.subrange(old_warnings.len() as int, midw.len() as int), sk, dep)
        && old_trades.len() <= mid.len() && mid.subrange(0, old_trades.len() as int) == old_trades
        && old_warnings.len() <= midw.len() && midw.subrange(0, old_warnings.len() as int) == old_warnings
        && phase_two_result(sleeve, budget, dep, hs, min_trade, trade_views(mid)) == Some((trade_views(trades), deployed))
        && midw.len() <= warnings.len() && warnings.subrange(0, midw.len() as int) == midw
        && (topup_messages(sleeve, sk, trade_views(trades), sk.len() as int) matches Some(msgs)
        && topup_warnings_are(warnings.subrange(midw.len() as int, warnings.len() as int), sleeve, msgs))
}

proof fn lemma_amount_sum_same_amounts(a: Seq<SuggestedManualTrade>, b: Seq<SuggestedManualTrade>, k: int)
    requires
        0 <= k <= a.len(),
        k <= b.len(),
        forall|i: int| 0 <= i < k ==> (#[trigger] a[i]).estimated_amount == b[i].estimated_amount,
    ensures
        crate::optimizer::amount_sum(a, k) == crate::optimizer::amount_sum(b, k),
    decreases k,
{
    if k > 0 {
        lemma_amount_sum_same_amounts(a, b, k - 1);
        assert(a[k - 1].estimated_amount == b[k - 1].estimated_amount);
    }
}

/// What the first phase produces is determined by the sleeve, up to how its texts are
/// held: the views of the new trades, the skipped holdings and the deployed amount.
proof fn lemma_phase_one_unique(
    sleeve: SleeveShortfall,
    budget: Dec,
    hs: Seq<HoldingSummary>,
    whole: bool,
    min_trade: Dec,
    nt1: Seq<SuggestedManualTrade>,
    nw1: Seq<RebalanceWarning>,
    sk1: Seq<SkippedHolding>,
    d1: Dec,
    nt2: Seq<SuggestedManualTrade>,
    nw2: Seq<RebalanceWarning>,
    sk2: Seq<SkippedHolding>,
    d2: Dec,
)
    requires
        phase_one_ok(sleeve, budget, hs, whole, min_trade, nt1, nw1, sk1, d1),
        phase_one_ok(sleeve, budget, hs, whole, min_trade, nt2, nw2, sk2, d2),
    ensures
        nt1.len() == nt2.len(),
        forall|i: int| 0 <= i < nt1.len() ==> (#[trigger] nt1[i])@ == nt2[i]@,
        sk1 == sk2,
        d1 == d2,
{
    let total = spec_sleeve_value(hs, hs.len() as int).unwrap();
    let n = hs.len() as int;
    let bi = indices_of_kind(budget, hs, total, whole, min_trade, 0, n);
    let si = indices_of_kind(budget, hs, total, whole, min_trade, 1, n);
    assert forall|i: int| 0 <= i < nt1.len() implies (#[trigger] nt1[i])@ == nt2[i]@ by {
        assert(is_holding_buy(nt1[i], sleeve, hs[bi[i]], outcome_at(budget, hs, total, whole, min_trade, bi[i])));
        assert(is_holding_buy(nt2[i], sleeve, hs[bi[i]], outcome_at(budget, hs, total, whole, min_trade, bi[i])));
        assert(nt1[i]@ =~= nt2[i]@);
    }
    assert forall|i: int| 0 <= i < nt1.len() implies (#[trigger] nt1[i]).estimated_amount == nt2[i].estimated_amount by {
        assert(is_holding_buy(nt1[i], sleeve, hs[bi[i]], outcome_at(budget, hs, total, whole, min_trade, bi[i])));
        assert(is_holding_buy(nt2[i], sleeve, hs[bi[i]], outcome_at(budget, hs, total, whole, min_trade, bi[i])));
    }
    lemma_amount_sum_same_amounts(nt1, nt2, nt1.len() as int);
    assert forall|i: int| 0 <= i < sk1.len() implies #[trigger] sk1[i] == sk2[i] by {
        assert(sk1[i].symbol == hs[si[i]].symbol && sk2[i].symbol == hs[si[i]].symbol);
        assert(outcome_at(budget, hs, total, whole, min_trade, si[i])
            == Some(HoldingOutcome::Skip { budget: sk1[i].budget, price: sk1[i].price }));
        assert(outcome_at(budget, hs, total, whole, min_trade, si[i])
            == Some(HoldingOutcome::Skip { budget: sk2[i].budget, price: sk2[i].price }));
    }
    assert(sk1 =~= sk2);
}

/// In whole-share mode, the first phase of a sleeve goes through but the second phase or
/// a top-up warning fails on a decimal step.
pub open spec fn whole_sleeve_fails(
    sleeve: SleeveShortfall,
    budget: Dec,
    hs: Seq<HoldingSummary>,
    min_trade: Dec,
    old_trades: Seq<SuggestedManualTrade>,
    old_warnings: Seq<RebalanceWarning>,
) -> bool {
    exists|mid: Seq<SuggestedManualTrade>, midw: Seq<RebalanceWarning>, sk: Seq<SkippedHolding>, dep: Dec|
        #[trigger] phase_one_ok(sleeve, budget, hs, true, min_trade, mid.subrange(old_trades.len() as int, mid.len() as int),
            midw.subrange(old_warnings.len() as int, midw.len() as int), sk, dep)
        && old_trades.len() <= mid.len() && mid.subrange(0, old_trades.len() as int) == old_trades
        && old_warnings.len() <= midw.len() && midw.subrange(0, old_warnings.len() as int) == old_warnings
        && match phase_two_result(sleeve, budget, dep, hs, min_trade, trade_views(mid)) {
            None => true,
            Some(out) => topup_messages(sleeve, sk, out.0, sk.len() as int) is None,
        }
}

/// Plans the buys of one sleeve with its budget, appending trades and warnings, and
/// returns the cash the sleeve deploys. A sleeve without holdings gets a warning that no
/// holding can take its budget, and one sleeve-level buy of the whole budget unless
/// that is below the minimum trade amount. Otherwise each
/// holding gets its share of the budget in a first phase; in whole-share mode a second
/// phase spends the rounding residue one share at a time, cheapest first, and warns
/// about holdings still without a share.
pub fn plan_sleeve(
    sleeve: &SleeveShortfall,
    budget: Dec,
    holdings: &Vec<HoldingSummary>,
    whole: bool,
    min_trade: Dec,
    trades: &mut Vec<SuggestedManualTrade>,
    warnings: &mut Vec<RebalanceWarning>,
) -> (r: Result<Dec, Error>)
    requires
        budget.wf(),
        min_trade.wf(),
        summaries_wf(holdings@),
        trades_wf(old(trades)@),
        trades_meet_min(old(trades)@, min_trade),
    ensures
        r is Err ==> r->Err_0 is Calculation,
        r is Ok ==> {
            &&& grows_in_sleeve(old(trades)@, final(trades)@, *sleeve)
            &&& trades_wf(final(trades)@)
            &&& (whole && all_whole(old(trades)@)) ==> all_whole(final(trades)@)
            &&& trades_meet_min(final(trades)@, min_trade)
            &&& warns_in_sleeve(old(warnings)@, final(warnings)@, *sleeve)
            &&& r->Ok_0.wf()
        },
        r is Ok ==> sleeve_plan_ok(*sleeve, budget, holdings@, whole, min_trade, old(trades)@, final(trades)@,
            old(warnings)@, final(warnings)@, r->Ok_0),
        holdings@.len() == 0 ==> r is Ok,
        holdings@.len() > 0 && !whole ==> (r is Ok <==> phase_one_succeeds(budget, holdings@, false, min_trade)),
        holdings@.len() > 0 && whole ==> (r is Ok <==> phase_one_succeeds(budget, holdings@, true, min_trade)
            && !whole_sleeve_fails(*sleeve, budget, holdings@, min_trade, old(trades)@, old(warnings)@)),
{
    let ghost t0 = trades@;
    let ghost w0 = warnings@;
    if holdings.len() == 0 {
        let mut m = String::from_str("No holdings found in ");
        m.append(sleeve.category_name.as_str());
        m.append(". Allocate ");
        m.append(dec_format_2dp(budget).as_str());
        m.append(" to this sleeve manually.");
        proof {
            assert(m@ =~= "No holdings found in "@ + sleeve.category_name@ + ". Allocate "@ + spec_format_2dp(budget)
                + " to this sleeve manually."@);
        }
        warnings.push(RebalanceWarning {
            kind: RebalanceWarningKind::NoBuyCandidate,
            category_id: sleeve.category_id.clone(),
            message: m,
        });
        if dec_lt(budget, min_trade) {
            proof {
                assert(warnings@.drop_last() =~= w0);
            }
            return Ok(Dec::zero());
        }
        trades.push(sleeve_trade(sleeve, budget));
        proof {
            assert(trades@.drop_last() =~= t0);
            assert(warnings@.drop_last() =~= w0);
            assert forall|i: int| 0 <= i < t0.len() implies #[trigger] trades@[i] == t0[i] by {}
            assert forall|i: int| 0 <= i < trades@.len() implies trade_wf(#[trigger] trades@[i]) by {
                if i < t0.len() {
                    assert(trades@[i] == t0[i]);
                }
            }
            assert forall|i: int| 0 <= i < trades@.len() implies trade_meets_min(#[trigger] trades@[i], min_trade) by {
                if i < t0.len() {
                    assert(trades@[i] == t0[i]);
                }
            }
            if all_whole(t0) {
                assert forall|i: int| 0 <= i < trades@.len() implies ((#[trigger] trades@[i]).quantity matches Some(q) ==> q.scale == 0) by {
                    if i < t0.len() {
                        assert(trades@[i] == t0[i]);
                    }
                }
            }
        }
        return Ok(budget);
    }
    let (deployed, skipped) = match sleeve_phase_one(sleeve, budget, holdings, whole, min_trade, trades, warnings) {
        Ok(v) => v,
        Err(e) => return Err(e),
    };
    let ghost t1 = trades@;
    let ghost w1 = warnings@;
    proof {
        assert forall|i: int| 0 <= i < t1.len() implies trade_wf(#[trigger] t1[i]) by {
            if i < t0.len() {
                assert(t1[i] == t0[i]);
            }
        }
        assert forall|i: int| 0 <= i < t1.len() implies trade_meets_min(#[trigger] t1[i], min_trade) by {
            if i < t0.len() {
                assert(t1[i] == t0[i]);
            }
        }
        if whole && all_whole(t0) {
            assert forall|i: int| 0 <= i < t1.len() implies ((#[trigger] t1[i]).quantity matches Some(q) ==> q.scale == 0) by {
                if i < t0.len() {
                    assert(t1[i] == t0[i]);
                }
            }
        }
    }
    if !whole {
        proof {
            assert(phase_one_ok(*sleeve, budget, holdings@, false, min_trade,
                trades@.subrange(t0.len() as int, trades@.len() as int),
                warnings@.subrange(w0.len() as int, warnings@.len() as int), skipped@, deployed));
            assert(trades@.subrange(0, t0.len() as int) =~= t0);
            assert(warnings@.subrange(0, w0.len() as int) =~= w0);
        }
        return Ok(deployed);
    }
    proof {
        assert(t1.subrange(0, t0.len() as int) =~= t0);
        assert(w1.subrange(0, w0.len() as int) =~= w0);
        assert(phase_one_ok(*sleeve, budget, holdings@, true, min_trade,
            t1.subrange(t0.len() as int, t1.len() as int), w1.subrange(w0.len() as int, w1.len() as int), skipped@, deployed));
    }
    let ghost dep1 = deployed;
    let deployed = match sleeve_phase_two(sleeve, budget, deployed, holdings, min_trade, trades) {
        Ok(v) => v,
        Err(e) => return Err(e),
    };
    proof {
        lemma_grows_trans(t0, t1, trades@, *sleeve);
    }
    match topup_warnings(sleeve, &skipped, trades, warnings) {
        Ok(()) => {},
        Err(e) => return Err(e),
    }
    proof {
        lemma_warns_trans(w0, w1, warnings@, *sleeve);
        assert(warnings@.subrange(0, w1.len() as int) =~= w1);
        assert(whole_sleeve_ok(*sleeve, budget, holdings@, min_trade, t0, trades@, w0, warnings@, deployed));
        if whole_sleeve_fails(*sleeve, budget, holdings@, min_trade, t0, w0) {
            let (mid, midw, sk, dep) = choose|mid: Seq<SuggestedManualTrade>, midw: Seq<RebalanceWarning>, sk: Seq<SkippedHolding>, dep: Dec|
                #[trigger] phase_one_ok(*sleeve, budget, holdings@, true, min_trade, mid.subrange(t0.len() as int, mid.len() as int),
                    midw.subrange(w0.len() as int, midw.len() as int), sk, dep)
                && t0.len() <= mid.len() && mid.subrange(0, t0.len() as int) == t0
                && w0.len() <= midw.len() && midw.subrange(0, w0.len() as int) == w0
                && match phase_two_result(*sleeve, budget, dep, holdings@, min_trade, trade_views(mid)) {
                    None => true,
                    Some(out) => topup_messages(*sleeve, sk, out.0, sk.len() as int) is None,
                };
            let nta = mid.subrange(t0.len() as int, mid.len() as int);
            let ntb = t1.subrange(t0.len() as int, t1.len() as int);
            lemma_phase_one_unique(*sleeve, budget, holdings@, true, min_trade, nta,
                midw.subrange(w0.len() as int, midw.len() as int), sk, dep,
                ntb, w1.subrange(w0.len() as int, w1.len() as int), skipped@, dep1);
            assert(trade_views(mid) =~= trade_views(t1)) by {
                assert forall|i: int| 0 <= i < mid.len() implies #[trigger] trade_views(mid)[i] == trade_views(t1)[i] by {
                    if i < t0.len() {
                        assert(mid[i] == mid.subrange(0, t0.len() as int)[i]);
                        assert(t1[i] == t0[i]);
                    } else {
                        assert(mid[i] == nta[i - t0.len()]);
                        assert(t1[i] == ntb[i - t0.len()]);
                    }
                }
            }
            assert(false);
        }
    }
    Ok(deployed)
}


// ── Drift after the plan ─────────────────────────────────────────────────────

/// Cash deployed into a category: the value of the first entry with that id, else zero.
pub open spec fn deployed_of(entries: Seq<(String, Dec)>, id: Seq<char>) -> Dec
    decreases entries.len(),
{
    if entries.len() == 0 {
        dec_zero()
    } else if entries[0].0@ == id {
        entries[0].1
    } else {
        deployed_of(entries.drop_first(), id)
    }
}

pub open spec fn entries_wf(entries: Seq<(String, Dec)>) -> bool {
    forall|k: int| 0 <= k < entries.len() ==> (#[trigger] entries[k]).1.wf()
}

/// No category has two entries: the entries are a map from category to cash.
pub open spec fn entries_unique(entries: Seq<(String, Dec)>) -> bool {
    forall|i: int, j: int| 0 <= i < j < entries.len() ==> (#[trigger] entries[i]).0@ != (#[trigger] entries[j]).0@
}

proof fn lemma_deployed_of_wf(entries: Seq<(String, Dec)>, id: Seq<char>)
    requires
        entries_wf(entries),
    ensures
        deployed_of(entries, id).wf(),
    decreases entries.len(),
{
    if entries.len() > 0 && entries[0].0@ != id {
        assert(entries_wf(entries.drop_first())) by {
            assert forall|k: int| 0 <= k < entries.drop_first().len() implies (#[trigger] entries.drop_first()[k]).1.wf() by {
                assert(entries.drop_first()[k] == entries[k + 1]);
            }
        }
        lemma_deployed_of_wf(entries.drop_first(), id);
    }
}

proof fn lemma_deployed_of_index(entries: Seq<(String, Dec)>, id: Seq<char>, k: int)
    requires
        0 <= k < entries.len(),
        entries[k].0@ == id,
        forall|j: int| 0 <= j < k ==> (#[trigger] entries[j]).0@ != id,
    ensures
        deployed_of(entries, id) == entries[k].1,
    decreases k,
{
    if k > 0 {
        assert(entries[0].0@ != id);
        assert forall|j: int| 0 <= j < k - 1 implies (#[trigger] entries.drop_first()[j]).0@ != id by {
            assert(entries.drop_first()[j] == entries[j + 1]);
        }
        lemma_deployed_of_index(entries.drop_first(), id, k - 1);
    }
}

proof fn lemma_deployed_of_absent(entries: Seq<(String, Dec)>, id: Seq<char>)
    requires
        forall|j: int| 0 <= j < entries.len() ==> (#[trigger] entries[j]).0@ != id,
    ensures
        deployed_of(entries, id) == dec_zero(),
    decreases entries.len(),
{
    if entries.len() > 0 {
        assert(entries[0].0@ != id);
        assert forall|j: int| 0 <= j < entries.drop_first().len() implies (#[trigger] entries.drop_first()[j]).0@ != id by {
            assert(entries.drop_first()[j] == entries[j + 1]);
        }
        lemma_deployed_of_absent(entries.drop_first(), id);
    }
}

/// Position of the first entry of the category at or after `k`.
pub open spec fn entry_index(entries: Seq<(String, Dec)>, id: Seq<char>, k: int) -> Option<int>
    decreases entries.len() - k,
{
    if k < 0 || k >= entries.len() {
        None
    } else if entries[k].0@ == id {
        Some(k)
    } else {
        entry_index(entries, id, k + 1)
    }
}

/// The entries with `amount` added to the first entry of the category, or with a new
/// entry for it when there is none; `None` when the sum overflows.
pub open spec fn spec_add_deployed(entries: Seq<(String, Dec)>, id: String, amount: Dec) -> Option<Seq<(String, Dec)>> {
    match entry_index(entries, id@, 0) {
        Some(i) => match spec_checked_add(entries[i].1, amount) {
            Some(sum) => Some(entries.update(i, (entries[i].0, sum))),
            None => None,
        },
        None => Some(entries.push((id, amount))),
    }
}

/// Adds `amount` to the entry of the category, creating it when missing.
fn add_deployed(entries: &mut Vec<(String, Dec)>, id: &String, amount: Dec) -> (r: Result<(), Error>)
    requires
        entries_wf(old(entries)@),
        amount.wf(),
    ensures
        r is Err ==> r->Err_0 is Calculation,
        r is Err ==> spec_add_deployed(old(entries)@, *id, amount) is None,
        r is Ok ==> entries_wf(final(entries)@),
        r is Ok && entries_unique(old(entries)@) ==> entries_unique(final(entries)@),
        r is Ok ==> spec_add_deployed(old(entries)@, *id, amount) == Some(final(entries)@),
{
    let ghost e0 = entries@;
    let mut k: usize = 0;
    while k < entries.len()
        invariant
            k <= entries@.len(),
            entries@ == e0,
            e0 == old(entries)@,
            entries_wf(entries@),
            amount.wf(),
            entry_index(e0, id@, 0) == entry_index(e0, id@, k as int),
            forall|j: int| 0 <= j < k ==> (#[trigger] e0[j]).0@ != id@,
        decreases entries@.len() - k,
    {
        if crate::model::str_eq(entries[k].0.as_str(), id.as_str()) {
            let sum = match need(dec_checked_add(entries[k].1, amount), "sleeve deployment") {
                Ok(v) => v,
                Err(e) => return Err(e),
            };
            let key = entries[k].0.clone();
            entries.set(k, (key, sum));
            proof {
                assert forall|i: int, j: int| 0 <= i < j < entries@.len() && entries_unique(e0)
                    implies (#[trigger] entries@[i]).0@ != (#[trigger] entries@[j]).0@ by {
                    assert(entries@[i].0 == e0[i].0 && entries@[j].0 == e0[j].0);
                }
            }
            return Ok(());
        }
        k = k + 1;
    }
    entries.push((id.clone(), amount));
    proof {
        assert forall|i: int, j: int| 0 <= i < j < entries@.len() && entries_unique(e0)
            implies (#[trigger] entries@[i]).0@ != (#[trigger] entries@[j]).0@ by {
            if j == e0.len() {
                assert(entries@[i] == e0[i]);
            } else {
                assert(entries@[i] == e0[i] && entries@[j] == e0[j]);
            }
        }
    }
    Ok(())
}

/// Share of `total` held by `value`, in bps: `round(value / total * 10000)` as an
/// `i32`, or 0 when the rounded number is outside `i32`. `None` when a decimal step
/// overflows.
pub open spec fn spec_ratio_bps(value: Dec, total: Dec) -> Option<i32> {
    match spec_checked_div(value, total) {
        Some(q) => match spec_checked_mul(q, bps_scale()) {
            Some(p) => Some(crate::drift::i32_or_zero(spec_round_mantissa(p))),
            None => None,
        },
        None => None,
    }
}

fn ratio_bps(value: Dec, total: Dec) -> (r: Option<i32>)
    requires
        value.wf(),
        total.wf(),
    ensures
        r == spec_ratio_bps(value, total),
{
    match dec_checked_div(value, total) {
        Some(q) => match dec_checked_mul(q, Dec::new(10000, 0)) {
            Some(p) => Some(crate::drift::mantissa_to_i32_or_zero(dec_round(p).mantissa)),
            None => None,
        },
        None => None,
    }
}

/// Value of a row after the plan: a cash row loses the cash used (not below zero), any
/// other row gains what was deployed into its category.
pub open spec fn spec_value_after(row: DriftRow, used: Dec, entries: Seq<(String, Dec)>) -> Option<Dec> {
    if row.is_cash {
        match spec_checked_sub(row.current_value, used) {
            Some(d) => Some(dec_max(d, dec_zero())),
            None => None,
        }
    } else {
        spec_checked_add(row.current_value, deployed_of(entries, row.category_id@))
    }
}

/// `|after bps - target bps|` of a row, or `None` when a step overflows (`i32` included).
pub open spec fn spec_drift_after(row: DriftRow, total: Dec, used: Dec, entries: Seq<(String, Dec)>) -> Option<int> {
    match spec_value_after(row, used, entries) {
        Some(v) => match spec_ratio_bps(v, total) {
            Some(b) => {
                let d = crate::drift::abs_i(b - row.target_bps);
                if d <= i32::MAX { Some(d) } else { None }
            },
            None => None,
        },
        None => None,
    }
}

/// Largest after-plan drift of the required rows among the first `k` (0 when none).
pub open spec fn spec_max_after(rows: Seq<DriftRow>, total: Dec, used: Dec, entries: Seq<(String, Dec)>, k: int) -> Option<int>
    decreases k,
{
    if k <= 0 {
        Some(0)
    } else {
        match spec_max_after(rows, total, used, entries, k - 1) {
            None => None,
            Some(m) => if rows[k - 1].is_required {
                match spec_drift_after(rows[k - 1], total, used, entries) {
                    Some(d) => Some(if d > m { d } else { m }),
                    None => None,
                }
            } else {
                Some(m)
            },
        }
    }
}

proof fn lemma_max_after_none_stays(rows: Seq<DriftRow>, total: Dec, used: Dec, entries: Seq<(String, Dec)>, k: int, n: int)
    requires
        0 <= k <= n,
        spec_max_after(rows, total, used, entries, k) is None,
    ensures
        spec_max_after(rows, total, used, entries, n) is None,
    decreases n - k,
{
    if k < n {
        lemma_max_after_none_stays(rows, total, used, entries, k + 1, n);
    }
}

fn deployed_lookup(entries: &Vec<(String, Dec)>, id: &String) -> (r: Dec)
    requires
        entries_wf(entries@),
    ensures
        r == deployed_of(entries@, id@),
{
    let mut k: usize = 0;
    while k < entries.len()
        invariant
            k <= entries@.len(),
            entries_wf(entries@),
            forall|j: int| 0 <= j < k ==> (#[trigger] entries@[j]).0@ != id@,
        decreases entries@.len() - k,
    {
        if crate::model::str_eq(entries[k].0.as_str(), id.as_str()) {
            proof {
                lemma_deployed_of_index(entries@, id@, k as int);
            }
            return entries[k].1;
        }
        k = k + 1;
    }
    proof {
        lemma_deployed_of_absent(entries@, id@);
    }
    Dec::zero()
}

/// Largest drift, in bps, of the required rows once the plan is carried out: the total
/// stays the same, cash rows shed the cash used and each category gains what was
/// deployed into it. Zero when the total is zero.
pub fn max_drift_after(rows: &Vec<DriftRow>, total: Dec, used: Dec, entries: &Vec<(String, Dec)>) -> (r: Result<i32, Error>)
    requires
        rows_wf(rows@),
        total.wf(),
        used.wf(),
        entries_wf(entries@),
    ensures
        units(total) == 0 ==> r == Ok::<i32, Error>(0),
        units(total) != 0 ==> match spec_max_after(rows@, total, used, entries@, rows@.len() as int) {
            Some(m) => r == Ok::<i32, Error>(m as i32) && 0 <= m <= i32::MAX,
            None => r matches Err(e) && e is Calculation,
        },
{
    let zero = Dec::zero();
    if !dec_lt(total, zero) && !dec_lt(zero, total) {
        return Ok(0);
    }
    let mut best: i32 = 0;
    let mut k: usize = 0;
    while k < rows.len()
        invariant
            k <= rows@.len(),
            rows_wf(rows@),
            total.wf(),
            used.wf(),
            entries_wf(entries@),
            zero.wf(),
            units(zero) == 0,
            spec_max_after(rows@, total, used, entries@, k as int) == Some(best as int),
            best >= 0,
            units(total) != 0,
            zero == dec_zero(),
        decreases rows@.len() - k,
    {
        let row = &rows[k];
        if row.is_required {
            let value = if row.is_cash {
                match dec_checked_sub(row.current_value, used) {
                    Some(d) => dec_max_exec(d, zero),
                    None => {
                        proof { lemma_max_after_none_stays(rows@, total, used, entries@, k + 1, rows@.len() as int); }
                        return Err(overflow("drift after plan"));
                    },
                }
            } else {
                let dep = deployed_lookup(entries, &row.category_id);
                proof { lemma_deployed_of_wf(entries@, row.category_id@); }
                match dec_checked_add(row.current_value, dep) {
                    Some(d) => d,
                    None => {
                        proof { lemma_max_after_none_stays(rows@, total, used, entries@, k + 1, rows@.len() as int); }
                        return Err(overflow("drift after plan"));
                    },
                }
            };
            assert(spec_value_after(*row, used, entries@) == Some(value));
            let bps = match ratio_bps(value, total) {
                Some(b) => b,
                None => {
                    proof { lemma_max_after_none_stays(rows@, total, used, entries@, k + 1, rows@.len() as int); }
                    return Err(overflow("drift after plan"));
                },
            };
            let diff: i64 = bps as i64 - row.target_bps as i64;
            let d: i64 = if diff < 0 { -diff } else { diff };
            if d > 2147483647i64 {
                proof { lemma_max_after_none_stays(rows@, total, used, entries@, k + 1, rows@.len() as int); }
                return Err(overflow("drift after plan"));
            }
            let d32 = d as i32;
            if d32 > best {
                best = d32;
            }
        }
        k = k + 1;
    }
    Ok(best)
}


// ── The plan ─────────────────────────────────────────────────────────────────

/// Row `j` is one the planner buys into: not cash, and short of its desired level.
pub open spec fn buyable_row(rows: Seq<DriftRow>, j: int, goal: RebalanceGoal, band: i32, total: Dec) -> bool {
    &&& 0 <= j < rows.len()
    &&& !rows[j].is_cash
    &&& spec_row_shortfall(rows[j], goal, band, total) is Some
    &&& units(spec_row_shortfall(rows[j], goal, band, total).unwrap()) > 0
}

/// `id` is the category of a row the planner buys into.
pub open spec fn buyable_category(rows: Seq<DriftRow>, id: Seq<char>, goal: RebalanceGoal, band: i32, total: Dec) -> bool {
    exists|j: int| buyable_row(rows, j, goal, band, total) && (#[trigger] rows[j]).category_id@ == id
}

/// Every trade buys, in a category the planner buys into; every warning is about such a
/// category; trades carry representable decimals, and whole shares when the target asks
/// for them.
pub open spec fn plan_trades_ok(plan: RebalancePlan, profile: AllocationTarget, drift: DriftReport) -> bool {
    &&& forall|i: int| 0 <= i < plan.trades@.len() ==> (#[trigger] plan.trades@[i]).action@ == "buy"@
        && buyable_category(drift.rows@, plan.trades@[i].category_id@, profile.rebalance_goal, profile.drift_band_bps, drift.total_value)
    &&& forall|i: int| 0 <= i < plan.warnings@.len() ==> buyable_category(drift.rows@, (#[trigger] plan.warnings@[i]).category_id@,
        profile.rebalance_goal, profile.drift_band_bps, drift.total_value)
    &&& trades_wf(plan.trades@)
    &&& profile.whole_shares_only ==> all_whole(plan.trades@)
    &&& trades_meet_min(plan.trades@, spec_min_trade(profile))
}

/// The minimum trade amount of a target: its text read as a decimal, zero when it does
/// not read as one.
pub open spec fn spec_min_trade(profile: AllocationTarget) -> Dec {
    match spec_parse_decimal(profile.min_trade_amount@) {
        Some(d) => d,
        None => dec_zero(),
    }
}

/// The plan of nothing: all amounts zero, no trades, no warnings.
pub open spec fn is_empty_plan(plan: RebalancePlan) -> bool {
    &&& plan.available_cash == dec_zero()
    &&& plan.cash_used == dec_zero()
    &&& plan.cash_remaining == dec_zero()
    &&& plan.max_drift_bps_before == 0
    &&& plan.max_drift_bps_after == 0
    &&& plan.trades@.len() == 0
    &&& plan.warnings@.len() == 0
}

/// The planner at sleeve `m`: `next` follows from `st` (trades, warnings, cash used,
/// cash deployed per category) while cash remains, by planning the sleeve over the
/// holdings read for it with its budget, its shortfall scaled by `factor` and capped by
/// the cash left; a zero budget changes nothing.
pub open spec fn plan_step_ok(
    sleeve: SleeveShortfall,
    factor: Dec,
    cash: Dec,
    whole: bool,
    min_trade: Dec,
    hs: Seq<HoldingSummary>,
    st: (Seq<SuggestedManualTrade>, Seq<RebalanceWarning>, Dec, Seq<(String, Dec)>),
    next: (Seq<SuggestedManualTrade>, Seq<RebalanceWarning>, Dec, Seq<(String, Dec)>),
) -> bool {
    match (spec_checked_sub(cash, st.2), spec_checked_mul(sleeve.shortfall, factor)) {
        (Some(rem), Some(scaled)) => {
            let budget = dec_min(scaled, rem);
            &&& units(rem) > 0
            &&& if units(budget) == 0 {
                next == st
            } else {
                &&& summaries_wf(hs)
                &&& exists|dep: Dec| #[trigger] sleeve_plan_ok(sleeve, budget, hs, whole, min_trade, st.0, next.0, st.1, next.1, dep)
                    && spec_checked_add(st.2, dep) == Some(next.2)
                    && spec_add_deployed(st.3, sleeve.category_id, dep) == Some(next.3)
            }
        },
        _ => false,
    }
}

/// Step `m` of a run of the planner.
pub open spec fn run_step_at(
    sleeves: Seq<SleeveShortfall>,
    factor: Dec,
    cash: Dec,
    whole: bool,
    min_trade: Dec,
    hss: Seq<Seq<HoldingSummary>>,
    states: Seq<(Seq<SuggestedManualTrade>, Seq<RebalanceWarning>, Dec, Seq<(String, Dec)>)>,
    m: int,
) -> bool {
    plan_step_ok(sleeves[m], factor, cash, whole, min_trade, hss[m], states[m], states[m + 1])
}

/// A run of the planner over the sleeves in order, from no trades, no warnings and no
/// cash used: each step plans one sleeve with the holdings read for it, and the run
/// ends after the last sleeve or as soon as no cash remains.
pub open spec fn plan_run_ok(
    sleeves: Seq<SleeveShortfall>,
    factor: Dec,
    cash: Dec,
    whole: bool,
    min_trade: Dec,
    hss: Seq<Seq<HoldingSummary>>,
    states: Seq<(Seq<SuggestedManualTrade>, Seq<RebalanceWarning>, Dec, Seq<(String, Dec)>)>,
) -> bool {
    &&& 1 <= states.len() <= sleeves.len() + 1
    &&& hss.len() + 1 == states.len()
    &&& states[0] == (Seq::<SuggestedManualTrade>::empty(), Seq::<RebalanceWarning>::empty(), dec_zero(), Seq::<(String, Dec)>::empty())
    &&& forall|m: int| 0 <= m < hss.len() ==> #[trigger] run_step_at(sleeves, factor, cash, whole, min_trade, hss, states, m)
    &&& states.len() <= sleeves.len() ==> (spec_checked_sub(cash, states.last().2) matches Some(rem) && units(rem) <= 0)
}

/// A run of the planner under way: from no trades, no warnings and no cash used, each
/// step so far planned one sleeve with the holdings read for it.
pub open spec fn plan_run_prefix_ok(
    sleeves: Seq<SleeveShortfall>,
    factor: Dec,
    cash: Dec,
    whole: bool,
    min_trade: Dec,
    hss: Seq<Seq<HoldingSummary>>,
    states: Seq<(Seq<SuggestedManualTrade>, Seq<RebalanceWarning>, Dec, Seq<(String, Dec)>)>,
) -> bool {
    &&& 1 <= states.len() <= sleeves.len() + 1
    &&& hss.len() + 1 == states.len()
    &&& states[0] == (Seq::<SuggestedManualTrade>::empty(), Seq::<RebalanceWarning>::empty(), dec_zero(), Seq::<(String, Dec)>::empty())
    &&& forall|m: int| 0 <= m < hss.len() ==> #[trigger] run_step_at(sleeves, factor, cash, whole, min_trade, hss, states, m)
}

/// The planner's step at `sleeve` from `st` fails on a decimal step before any holdings
/// are read, or reads the sleeve's holdings (the read, and planning the sleeve with
/// what it returns, may fail).
pub open spec fn step_fails_or_reads(
    sleeve: SleeveShortfall,
    factor: Dec,
    cash: Dec,
    st: (Seq<SuggestedManualTrade>, Seq<RebalanceWarning>, Dec, Seq<(String, Dec)>),
) -> bool {
    match spec_checked_sub(cash, st.2) {
        None => true,
        Some(rem) => units(rem) > 0 && match spec_checked_mul(sleeve.shortfall, factor) {
            None => true,
            Some(scaled) => units(dec_min(scaled, rem)) != 0,
        },
    }
}

/// Planning with these sleeves, scale factor and run can fail: the total shortfall or
/// the scale factor overflows, or the run reaches a step that fails or reads holdings,
/// or the finished run's remaining cash or after-plan drift overflows.
pub open spec fn plan_fails_at(
    cash: Dec,
    profile: AllocationTarget,
    drift: DriftReport,
    sleeves: Seq<SleeveShortfall>,
    factor: Dec,
    hss: Seq<Seq<HoldingSummary>>,
    states: Seq<(Seq<SuggestedManualTrade>, Seq<RebalanceWarning>, Dec, Seq<(String, Dec)>)>,
) -> bool {
    let rows = drift.rows@;
    let goal = profile.rebalance_goal;
    let band = profile.drift_band_bps;
    let total = drift.total_value;
    let whole = profile.whole_shares_only;
    let min_trade = spec_min_trade(profile);
    &&& sleeve_rows(rows, goal, band, total, rows.len() as int) matches Some(idx)
    &&& sleeves_ok(sleeves, rows, idx, goal, band, total)
    &&& match shortfall_sum(sleeves, sleeves.len() as int) {
        None => true,
        Some(tsf) => match spec_scale_factor(tsf, cash) {
            None => true,
            Some(f) => {
                &&& f == factor
                &&& plan_run_prefix_ok(sleeves, factor, cash, whole, min_trade, hss, states)
                &&& (states.len() <= sleeves.len() && step_fails_or_reads(sleeves[states.len() - 1], factor, cash, states.last()))
                    || (plan_run_ok(sleeves, factor, cash, whole, min_trade, hss, states)
                        && (spec_checked_sub(cash, states.last().2) is None || (units(total) != 0
                            && spec_max_after(rows, total, states.last().2, states.last().3, rows.len() as int) is None)))
            },
        },
    }
}

/// Planning can fail only where a decimal step overflows or holdings are read.
pub open spec fn plan_may_fail(cash: Dec, profile: AllocationTarget, drift: DriftReport) -> bool {
    &&& !(units(drift.total_value) == 0 && units(cash) == 0)
    &&& (sleeve_rows(drift.rows@, profile.rebalance_goal, profile.drift_band_bps, drift.total_value, drift.rows@.len() as int) is None
        || exists|sleeves: Seq<SleeveShortfall>, factor: Dec, hss: Seq<Seq<HoldingSummary>>,
            states: Seq<(Seq<SuggestedManualTrade>, Seq<RebalanceWarning>, Dec, Seq<(String, Dec)>)>|
            #[trigger] plan_fails_at(cash, profile, drift, sleeves, factor, hss, states))
}

/// The step at `sleeve` from `st` reads the sleeve's holdings: cash remains and the
/// sleeve's budget is not zero.
pub open spec fn reading_step(
    sleeve: SleeveShortfall,
    factor: Dec,
    cash: Dec,
    st: (Seq<SuggestedManualTrade>, Seq<RebalanceWarning>, Dec, Seq<(String, Dec)>),
) -> bool {
    match (spec_checked_sub(cash, st.2), spec_checked_mul(sleeve.shortfall, factor)) {
        (Some(rem), Some(scaled)) => units(rem) > 0 && units(dec_min(scaled, rem)) != 0,
        _ => false,
    }
}

/// The holdings that the allocation service answered, for the accounts, currency and
/// scope of the request, when asked for a category of the taxonomy.
pub open spec fn holdings_reads<A: AllocationServiceTrait>(a: A, input: CalculateRebalancePlanInput, taxonomy_id: Seq<char>)
    -> spec_fn(Seq<char>, Seq<HoldingSummary>) -> bool {
    |cat: Seq<char>, hs: Seq<HoldingSummary>| exists|ah: AllocationHoldings|
        #[trigger] a.allocation_holdings_answer(input.account_ids@, input.base_currency@, taxonomy_id, cat,
            input.aggregated_account_id@, Ok(ah)) && ah.holdings@ == hs
}

/// The plan is the end of a run of the planner over the underweight sleeves of the drift
/// report, their shortfalls scaled to the cash, given the holdings read for each sleeve;
/// each step that reads a sleeve's holdings has what `reads` allows for its category.
pub open spec fn plan_follows_run(plan: RebalancePlan, cash: Dec, profile: AllocationTarget, drift: DriftReport,
    reads: spec_fn(Seq<char>, Seq<HoldingSummary>) -> bool) -> bool {
    let rows = drift.rows@;
    let goal = profile.rebalance_goal;
    let band = profile.drift_band_bps;
    let total = drift.total_value;
    exists|sleeves: Seq<SleeveShortfall>, factor: Dec, hss: Seq<Seq<HoldingSummary>>,
        states: Seq<(Seq<SuggestedManualTrade>, Seq<RebalanceWarning>, Dec, Seq<(String, Dec)>)>|
        #[trigger] plan_run_ok(sleeves, factor, cash, profile.whole_shares_only, spec_min_trade(profile), hss, states)
        && (sleeve_rows(rows, goal, band, total, rows.len() as int) matches Some(idx) && sleeves_ok(sleeves, rows, idx, goal, band, total))
        && (shortfall_sum(sleeves, sleeves.len() as int) matches Some(tsf) && spec_scale_factor(tsf, cash) == Some(factor))
        && (forall|m: int| 0 <= m < hss.len() && #[trigger] reading_step(sleeves[m], factor, cash, states[m])
            ==> reads(sleeves[m].category_id@, hss[m]))
        && plan.trades@ == states.last().0
        && plan.warnings@ == states.last().1
        && plan.cash_used == states.last().2
        && (units(total) != 0 ==> spec_max_after(rows, total, plan.cash_used, states.last().3, rows.len() as int)
            == Some(plan.max_drift_bps_after as int))
}

/// What a plan computed from a target, a drift report and the cash to deploy states,
/// the holdings of each sleeve being read as `reads` allows.
pub open spec fn plan_ok(plan: RebalancePlan, target_id: Seq<char>, cash: Dec, profile: AllocationTarget, drift: DriftReport,
    reads: spec_fn(Seq<char>, Seq<HoldingSummary>) -> bool) -> bool {
    &&& plan.target_id@ == target_id
    &&& plan.after_bps_by_category@.len() == 0
    &&& if units(drift.total_value) == 0 && units(cash) == 0 {
        is_empty_plan(plan)
    } else {
        &&& plan.available_cash == cash
        &&& plan.max_drift_bps_before == drift.max_drift_bps
        &&& spec_checked_sub(cash, plan.cash_used) == Some(plan.cash_remaining)
        &&& plan_trades_ok(plan, profile, drift)
        &&& units(cash) <= 0 ==> plan.trades@.len() == 0 && units(plan.cash_used) == 0
        &&& units(drift.total_value) == 0 ==> plan.max_drift_bps_after == 0
        &&& plan_follows_run(plan, cash, profile, drift, reads)
    }
}

spec fn in_sleeves(id: Seq<char>, sleeves: Seq<SleeveShortfall>, m: int) -> bool {
    exists|q: int| 0 <= q < m && (#[trigger] sleeves[q]).category_id@ == id
}

spec fn trades_from_sleeves(ts: Seq<SuggestedManualTrade>, sleeves: Seq<SleeveShortfall>, m: int) -> bool {
    forall|i: int| 0 <= i < ts.len() ==> (#[trigger] ts[i]).action@ == "buy"@ && in_sleeves(ts[i].category_id@, sleeves, m)
}

spec fn warnings_from_sleeves(ws: Seq<RebalanceWarning>, sleeves: Seq<SleeveShortfall>, m: int) -> bool {
    forall|i: int| 0 <= i < ws.len() ==> in_sleeves((#[trigger] ws[i]).category_id@, sleeves, m)
}

proof fn lemma_units_mantissa(d: Dec)
    requires
        d.wf(),
    ensures
        units(d) / pow10((28 - d.scale) as nat) == d.mantissa,
{
    let p = pow10((28 - d.scale) as nat);
    crate::dec::lemma_pow10_positive((28 - d.scale) as nat);
    assert((d.mantissa * p) / p == d.mantissa) by (nonlinear_arith)
        requires p > 0;
}

/// Whether the decimals of the holdings are representable.
fn summaries_are_wf(hs: &Vec<HoldingSummary>) -> (r: bool)
    ensures
        r == summaries_wf(hs@),
{
    let mut k: usize = 0;
    while k < hs.len()
        invariant
            k <= hs@.len(),
            forall|j: int| 0 <= j < k ==> {
                &&& (#[trigger] hs@[j]).market_value.wf()
                &&& hs@[j].quantity.wf()
                &&& hs@[j].unit_price matches Some(p) ==> p.wf()
            },
        decreases hs@.len() - k,
    {
        let h = &hs[k];
        let price_ok = match h.unit_price {
            Some(p) => p.is_wf(),
            None => true,
        };
        if !(h.market_value.is_wf() && h.quantity.is_wf() && price_ok) {
            return false;
        }
        k = k + 1;
    }
    true
}

fn invalid_decimal() -> (e: Error)
    ensures
        e matches Error::Calculation(m) && m@ == "a decimal outside the range of a 96-bit decimal"@,
{
    Error::Calculation(String::from_str("a decimal outside the range of a 96-bit decimal"))
}

pub(crate) fn is_zero(d: Dec) -> (r: bool)
    requires
        d.wf(),
    ensures
        r == (units(d) == 0),
{
    let zero = Dec::zero();
    !dec_lt(d, zero) && !dec_lt(zero, d)
}

/// Plans the deployment of `cash` for a target from its drift report, reading the
/// holdings of each sleeve it buys into from `alloc`. Sleeves are served in row order,
/// each with its shortfall scaled to the cash and capped by the cash still left.
#[verifier::spinoff_prover]
pub fn plan_with_holdings<A: AllocationServiceTrait>(
    alloc: &A,
    input: &CalculateRebalancePlanInput,
    cash: Dec,
    profile: &AllocationTarget,
    drift: &DriftReport,
) -> (r: Result<RebalancePlan, Error>)
    requires
        cash.wf(),
        rows_wf(drift.rows@),
        drift.total_value.wf(),
    ensures
        r matches Ok(plan) ==> plan_ok(plan, input.target_id@, cash, *profile, *drift, holdings_reads(*alloc, *input, profile.taxonomy_id@)),
        units(drift.total_value) == 0 && units(cash) == 0 ==> r is Ok,
        !(units(drift.total_value) == 0 && units(cash) == 0) && sleeve_rows(drift.rows@, profile.rebalance_goal,
            profile.drift_band_bps, drift.total_value, drift.rows@.len() as int) is None ==> r is Err,
        r is Err ==> plan_may_fail(cash, *profile, *drift),
{
    let total = drift.total_value;
    if is_zero(total) && is_zero(cash) {
        return Ok(RebalancePlan {
            target_id: input.target_id.clone(),
            available_cash: Dec::zero(),
            cash_used: Dec::zero(),
            cash_remaining: Dec::zero(),
            max_drift_bps_before: 0,
            max_drift_bps_after: 0,
            trades: Vec::new(),
            warnings: Vec::new(),
            after_bps_by_category: Vec::new(),
        });
    }
    let min_trade = match dec_parse(profile.min_trade_amount.as_str()) {
        Some(d) => d,
        None => Dec::zero(),
    };
    let goal = profile.rebalance_goal;
    let band = profile.drift_band_bps;
    let sleeves = match sleeve_shortfalls(&drift.rows, goal, band, total) {
        Ok(v) => v,
        Err(e) => return Err(e),
    };
    let ghost idx = sleeve_rows(drift.rows@, goal, band, total, drift.rows@.len() as int).unwrap();
    let total_sf = match total_shortfall(&sleeves) {
        Ok(v) => v,
        Err(e) => {
            proof {
                let e0 = seq![(Seq::<SuggestedManualTrade>::empty(), Seq::<RebalanceWarning>::empty(), dec_zero(), Seq::<(String, Dec)>::empty())];
                assert(plan_fails_at(cash, *profile, *drift, sleeves@, dec_zero(), Seq::empty(), e0));
            }
            return Err(e);
        },
    };
    let factor = match need(shortfall_scale_factor(total_sf, cash), "scale factor") {
        Ok(v) => v,
        Err(e) => {
            proof {
                let e0 = seq![(Seq::<SuggestedManualTrade>::empty(), Seq::<RebalanceWarning>::empty(), dec_zero(), Seq::<(String, Dec)>::empty())];
                assert(plan_fails_at(cash, *profile, *drift, sleeves@, dec_zero(), Seq::empty(), e0));
            }
            return Err(e);
        },
    };
    let whole = profile.whole_shares_only;
    let mut trades: Vec<SuggestedManualTrade> = Vec::new();
    let mut warnings: Vec<RebalanceWarning> = Vec::new();
    let mut used = Dec::zero();
    let mut entries: Vec<(String, Dec)> = Vec::new();
    let mut stop = false;
    let mut m: usize = 0;
    let ghost mut hss: Seq<Seq<HoldingSummary>> = Seq::empty();
    let ghost mut states: Seq<(Seq<SuggestedManualTrade>, Seq<RebalanceWarning>, Dec, Seq<(String, Dec)>)> =
        seq![(trades@, warnings@, used, entries@)];
    proof {
        assert(trades@ =~= Seq::<SuggestedManualTrade>::empty());
        assert(warnings@ =~= Seq::<RebalanceWarning>::empty());
        assert(entries@ =~= Seq::<(String, Dec)>::empty());
    }
    while m < sleeves.len() && !stop
        invariant
            m <= sleeves@.len(),
            !(units(drift.total_value) == 0 && units(cash) == 0),
            whole == profile.whole_shares_only,
            states.len() == m + 1,
            hss.len() == m,
            states.last() == (trades@, warnings@, used, entries@),
            states[0] == (Seq::<SuggestedManualTrade>::empty(), Seq::<RebalanceWarning>::empty(), dec_zero(), Seq::<(String, Dec)>::empty()),
            forall|q: int| 0 <= q < hss.len() ==> #[trigger] run_step_at(sleeves@, factor, cash, whole, min_trade, hss, states, q),
            forall|q: int| 0 <= q < hss.len() && #[trigger] reading_step(sleeves@[q], factor, cash, states[q])
                ==> holdings_reads(*alloc, *input, profile.taxonomy_id@)(sleeves@[q].category_id@, hss[q]),
            stop ==> (spec_checked_sub(cash, used) matches Some(rem) && units(rem) <= 0),
            sleeves_ok(sleeves@, drift.rows@, idx, goal, band, total),
            cash.wf(),
            factor.wf(),
            min_trade.wf(),
            used.wf(),
            entries_wf(entries@),
            entries_unique(entries@),
            sleeve_rows(drift.rows@, goal, band, total, drift.rows@.len() as int) == Some(idx),
            shortfall_sum(sleeves@, sleeves@.len() as int) == Some(total_sf),
            spec_scale_factor(total_sf, cash) == Some(factor),
            goal == profile.rebalance_goal,
            band == profile.drift_band_bps,
            total == drift.total_value,
            trades_wf(trades@),
            whole ==> all_whole(trades@),
            trades_meet_min(trades@, min_trade),
            min_trade == spec_min_trade(*profile),
            trades_from_sleeves(trades@, sleeves@, m as int),
            warnings_from_sleeves(warnings@, sleeves@, m as int),
            units(cash) <= 0 ==> trades@.len() == 0 && used == dec_zero(),
        decreases (sleeves@.len() - m) * 2 + (if stop { 0int } else { 1int }),
    {
        let remaining = match need(dec_checked_sub(cash, used), "remaining cash") {
            Ok(v) => v,
            Err(e) => {
                proof {
                    assert(plan_fails_at(cash, *profile, *drift, sleeves@, factor, hss, states));
                }
                return Err(e);
            },
        };
        proof {
            if units(cash) <= 0 {
                lemma_units_mantissa(cash);
                assert(units(used) == 0);
                assert(max_scale(cash, used) == cash.scale);
                assert(crate::dec::fits_at_scale(units(cash) - units(used), max_scale(cash, used)));
                assert(units(remaining) == units(cash));
            }
        }
        if !dec_lt(Dec::zero(), remaining) {
            stop = true;
        } else {
            let ghost st = states.last();
            let sleeve = &sleeves[m];
            let scaled = match need(dec_checked_mul(sleeve.shortfall, factor), "sleeve budget") {
                Ok(v) => v,
                Err(e) => {
                proof {
                    assert(plan_fails_at(cash, *profile, *drift, sleeves@, factor, hss, states));
                }
                return Err(e);
            },
            };
            let budget = dec_min_exec(scaled, remaining);
            if !is_zero(budget) {
                let ah = match alloc.get_holdings_by_allocation_for_accounts(
                    input.account_ids.as_slice(),
                    input.base_currency.as_str(),
                    profile.taxonomy_id.as_str(),
                    sleeve.category_id.as_str(),
                    input.aggregated_account_id.as_str(),
                ) {
                    Ok(v) => v,
                    Err(e) => {
                proof {
                    assert(plan_fails_at(cash, *profile, *drift, sleeves@, factor, hss, states));
                }
                return Err(e);
            },
                };
                if !summaries_are_wf(&ah.holdings) {
                    proof {
                        assert(plan_fails_at(cash, *profile, *drift, sleeves@, factor, hss, states));
                    }
                    return Err(invalid_decimal());
                }
                let ghost t_before = trades@;
                let ghost w_before = warnings@;
                let dep = match plan_sleeve(sleeve, budget, &ah.holdings, whole, min_trade, &mut trades, &mut warnings) {
                    Ok(v) => v,
                    Err(e) => {
                proof {
                    assert(plan_fails_at(cash, *profile, *drift, sleeves@, factor, hss, states));
                }
                return Err(e);
            },
                };
                proof {
                    assert forall|i: int| 0 <= i < trades@.len() implies (#[trigger] trades@[i]).action@ == "buy"@
                        && in_sleeves(trades@[i].category_id@, sleeves@, m + 1) by {
                        if i < t_before.len() {
                            assert(same_trade_but_size(trades@[i], t_before[i]));
                            assert(in_sleeves(t_before[i].category_id@, sleeves@, m as int));
                            let q = choose|q: int| 0 <= q < m && (#[trigger] sleeves@[q]).category_id@ == t_before[i].category_id@;
                            assert(sleeves@[q].category_id@ == trades@[i].category_id@);
                        } else {
                            assert(sleeve_buy(trades@[i], sleeves@[m as int]));
                            assert(sleeves@[m as int].category_id@ == trades@[i].category_id@);
                        }
                    }
                    assert forall|i: int| 0 <= i < warnings@.len() implies in_sleeves((#[trigger] warnings@[i]).category_id@, sleeves@, m + 1) by {
                        if i < w_before.len() {
                            assert(warnings@[i] == w_before[i]);
                            assert(in_sleeves(w_before[i].category_id@, sleeves@, m as int));
                            let q = choose|q: int| 0 <= q < m && (#[trigger] sleeves@[q]).category_id@ == w_before[i].category_id@;
                            assert(sleeves@[q].category_id@ == warnings@[i].category_id@);
                        } else {
                            assert(sleeves@[m as int].category_id@ == warnings@[i].category_id@);
                        }
                    }
                }
                match add_deployed(&mut entries, &sleeve.category_id, dep) {
                    Ok(()) => {},
                    Err(e) => {
                proof {
                    assert(plan_fails_at(cash, *profile, *drift, sleeves@, factor, hss, states));
                }
                return Err(e);
            },
                }
                used = match need(dec_checked_add(used, dep), "cash used") {
                    Ok(v) => v,
                    Err(e) => {
                proof {
                    assert(plan_fails_at(cash, *profile, *drift, sleeves@, factor, hss, states));
                }
                return Err(e);
            },
                };
                proof {
                    let next = (trades@, warnings@, used, entries@);
                    assert(sleeve_plan_ok(*sleeve, budget, ah.holdings@, whole, min_trade, st.0, next.0, st.1, next.1, dep));
                    assert(plan_step_ok(sleeves@[m as int], factor, cash, whole, min_trade, ah.holdings@, st, next));
                    let hss2 = hss.push(ah.holdings@);
                    let states2 = states.push(next);
                    assert forall|q: int| 0 <= q < hss2.len() implies #[trigger] run_step_at(sleeves@, factor, cash, whole, min_trade, hss2, states2, q) by {
                        if q < hss.len() {
                            assert(run_step_at(sleeves@, factor, cash, whole, min_trade, hss, states, q));
                            assert(hss2[q] == hss[q]);
                            assert(states2[q] == states[q]);
                            assert(states2[q + 1] == states[q + 1]);
                        } else {
                            assert(hss2[q] == ah.holdings@);
                            assert(states2[q] == st);
                            assert(states2[q + 1] == next);
                        }
                    }
                    assert(holdings_reads(*alloc, *input, profile.taxonomy_id@)(sleeves@[m as int].category_id@, ah.holdings@));
                    assert forall|q: int| 0 <= q < hss2.len() && #[trigger] reading_step(sleeves@[q], factor, cash, states2[q])
                        implies holdings_reads(*alloc, *input, profile.taxonomy_id@)(sleeves@[q].category_id@, hss2[q]) by {
                        if q < hss.len() {
                            assert(hss2[q] == hss[q]);
                            assert(states2[q] == states[q]);
                        }
                    }
                    hss = hss2;
                    states = states2;
                }
            } else {
                proof {
                    let hss2 = hss.push(Seq::<HoldingSummary>::empty());
                    let states2 = states.push(st);
                    assert(plan_step_ok(sleeves@[m as int], factor, cash, whole, min_trade, Seq::<HoldingSummary>::empty(), st, st));
                    assert forall|q: int| 0 <= q < hss2.len() implies #[trigger] run_step_at(sleeves@, factor, cash, whole, min_trade, hss2, states2, q) by {
                        if q < hss.len() {
                            assert(run_step_at(sleeves@, factor, cash, whole, min_trade, hss, states, q));
                            assert(hss2[q] == hss[q]);
                            assert(states2[q] == states[q]);
                            assert(states2[q + 1] == states[q + 1]);
                        } else {
                            assert(hss2[q] == Seq::<HoldingSummary>::empty());
                            assert(states2[q] == st);
                            assert(states2[q + 1] == st);
                        }
                    }
                    assert forall|q: int| 0 <= q < hss2.len() && #[trigger] reading_step(sleeves@[q], factor, cash, states2[q])
                        implies holdings_reads(*alloc, *input, profile.taxonomy_id@)(sleeves@[q].category_id@, hss2[q]) by {
                        if q < hss.len() {
                            assert(hss2[q] == hss[q]);
                            assert(states2[q] == states[q]);
                        } else {
                            assert(states2[q] == st);
                        }
                    }
                    hss = hss2;
                    states = states2;
                }
                proof {
                    assert forall|i: int| 0 <= i < trades@.len() implies (#[trigger] trades@[i]).action@ == "buy"@
                        && in_sleeves(trades@[i].category_id@, sleeves@, m + 1) by {
                        let q = choose|q: int| 0 <= q < m && (#[trigger] sleeves@[q]).category_id@ == trades@[i].category_id@;
                    }
                    assert forall|i: int| 0 <= i < warnings@.len() implies in_sleeves((#[trigger] warnings@[i]).category_id@, sleeves@, m + 1) by {
                        let q = choose|q: int| 0 <= q < m && (#[trigger] sleeves@[q]).category_id@ == warnings@[i].category_id@;
                    }
                }
            }
            m = m + 1;
        }
    }
    proof {
        assert(plan_run_ok(sleeves@, factor, cash, whole, min_trade, hss, states));
    }
    let after = if is_zero(total) {
        0
    } else {
        match max_drift_after(&drift.rows, total, used, &entries) {
            Ok(v) => v,
            Err(e) => {
                proof {
                    assert(plan_fails_at(cash, *profile, *drift, sleeves@, factor, hss, states));
                }
                return Err(e);
            },
        }
    };
    let remaining = match need(dec_checked_sub(cash, used), "remaining cash") {
        Ok(v) => v,
        Err(e) => {
                proof {
                    assert(plan_fails_at(cash, *profile, *drift, sleeves@, factor, hss, states));
                }
                return Err(e);
            },
    };
    let plan = RebalancePlan {
        target_id: input.target_id.clone(),
        available_cash: cash,
        cash_used: used,
        cash_remaining: remaining,
        max_drift_bps_before: drift.max_drift_bps,
        max_drift_bps_after: after,
        trades,
        warnings,
        after_bps_by_category: Vec::new(),
    };
    proof {
        let rows = drift.rows@;
        assert forall|i: int| 0 <= i < plan.trades@.len() implies (#[trigger] plan.trades@[i]).action@ == "buy"@
            && buyable_category(rows, plan.trades@[i].category_id@, goal, band, total) by {
            let q = choose|q: int| 0 <= q < m && (#[trigger] sleeves@[q]).category_id@ == plan.trades@[i].category_id@;
            assert(buyable_row(rows, idx[q], goal, band, total));
            assert(rows[idx[q]].category_id@ == plan.trades@[i].category_id@);
        }
        assert forall|i: int| 0 <= i < plan.warnings@.len() implies buyable_category(rows, (#[trigger] plan.warnings@[i]).category_id@, goal, band, total) by {
            let q = choose|q: int| 0 <= q < m && (#[trigger] sleeves@[q]).category_id@ == plan.warnings@[i].category_id@;
            assert(buyable_row(rows, idx[q], goal, band, total));
            assert(rows[idx[q]].category_id@ == plan.warnings@[i].category_id@);
        }
        assert(plan_run_ok(sleeves@, factor, cash, whole, min_trade, hss, states));
        assert(plan_follows_run(plan, cash, *profile, *drift, holdings_reads(*alloc, *input, profile.taxonomy_id@)));
    }
    Ok(plan)
}


// ── The service ──────────────────────────────────────────────────────────────

/// Reads allocation targets.
pub trait AllocationTargetServiceTrait {
    /// `r` is an answer the service gives when asked for target `id`.
    /// Implementations may say which results these are; by default any result is one.
    closed spec fn target_answer(&self, id: Seq<char>, r: Result<Option<AllocationTarget>, Error>) -> bool {
        true
    }

    /// The target with the id, if there is one.
    fn get_target(&self, id: &str) -> (r: Result<Option<AllocationTarget>, Error>)
        ensures
            self.target_answer(id@, r),
    ;
}

/// Plans how to deploy cash toward a target.
pub trait RebalanceServiceTrait {
    /// A cash-flow-only plan: buys only, funded by the tracked cash in scope.
    fn calculate_plan(&self, input: CalculateRebalancePlanInput) -> Result<RebalancePlan, Error>;
}

/// Plans cash deployment from a target, its drift report, the holdings of its sleeves
/// and the cash held in scope.
pub struct RebalanceService<T, D, A, H> {
    allocation_target_service: T,
    drift_service: D,
    allocation_service: A,
    holdings_service: H,
}

impl<T, D, A, H> RebalanceService<T, D, A, H> {
    /// The services the planner reads, in the order `new` takes them.
    pub closed spec fn services(&self) -> (T, D, A, H) {
        (self.allocation_target_service, self.drift_service, self.allocation_service, self.holdings_service)
    }

    pub fn new(allocation_target_service: T, drift_service: D, allocation_service: A, holdings_service: H) -> (s: Self)
        ensures
            s.services() == (allocation_target_service, drift_service, allocation_service, holdings_service),
    {
        RebalanceService { allocation_target_service, drift_service, allocation_service, holdings_service }
    }
}

/// Whether the base values of the holdings are representable.
fn holdings_are_wf(hs: &Vec<Holding>) -> (r: bool)
    ensures
        r == holdings_wf(hs@),
{
    let mut k: usize = 0;
    while k < hs.len()
        invariant
            k <= hs@.len(),
            forall|j: int| 0 <= j < k ==> (#[trigger] hs@[j]).market_value.base.wf(),
        decreases hs@.len() - k,
    {
        if !hs[k].market_value.base.is_wf() {
            return false;
        }
        k = k + 1;
    }
    true
}

/// Whether the current values of the rows are representable.
fn rows_are_wf(rows: &Vec<DriftRow>) -> (r: bool)
    ensures
        r == rows_wf(rows@),
{
    let mut k: usize = 0;
    while k < rows.len()
        invariant
            k <= rows@.len(),
            forall|j: int| 0 <= j < k ==> (#[trigger] rows@[j]).current_value.wf(),
        decreases rows@.len() - k,
    {
        if !rows[k].current_value.is_wf() {
            return false;
        }
        k = k + 1;
    }
    true
}

/// What a lookup of target `id` comes to: the target when there is one, a not-found
/// error when there is none, and the lookup's own error when it failed.
pub fn found_target(lookup: Result<Option<AllocationTarget>, Error>, id: &str) -> (r: Result<AllocationTarget, Error>)
    ensures
        lookup matches Ok(Some(t)) ==> r == Ok::<AllocationTarget, Error>(t),
        lookup is Ok && lookup->Ok_0 is None ==> (r matches Err(e)
            && crate::errors::is_not_found(e, "AllocationTarget "@ + id@ + " not found"@)),
        lookup matches Err(e) ==> r == Err::<AllocationTarget, Error>(e),
{
    match lookup {
        Ok(Some(t)) => Ok(t),
        Ok(None) => {
            let mut m = String::from_str("AllocationTarget ");
            m.append(id);
            m.append(" not found");
            proof {
                reveal_strlit("AllocationTarget ");
                reveal_strlit(" not found");
            }
            Err(not_found(m))
        },
        Err(e) => Err(e),
    }
}

/// Law: a quote prices a holding. When a holding has a positive unit price, that price
/// is the one the planner uses for it: its price is the quote, a first-phase buy of it
/// is at the quote, and a fractional buy is for the budget divided by the quote (a
/// whole-share buy for that quotient rounded down); its market value and quantity play
/// no part.
pub proof fn law_quote_prices_the_holding(h: HoldingSummary, hb: Dec, whole: bool, min_trade: Dec)
    requires
        h.unit_price is Some,
        units(h.unit_price.unwrap()) > 0,
    ensures
        spec_holding_price(h) == Some(Some(h.unit_price.unwrap())),
        forall|q: Option<Dec>, pr: Option<Dec>, amt: Dec|
            phase_one_outcome(h, hb, whole, min_trade) == Some(HoldingOutcome::Buy { quantity: q, price: pr, amount: amt })
            ==> pr == h.unit_price && (spec_checked_div(hb, h.unit_price.unwrap()) matches Some(per)
                && q == Some(if whole { floor_dec(per) } else { per })),
        forall|h2: HoldingSummary| h2.unit_price == h.unit_price ==> #[trigger] spec_holding_price(h2) == spec_holding_price(h),
{
}

/// Law: without a positive quote, a holding is priced at its market value over its
/// quantity when both are positive, and has no price otherwise.
pub proof fn law_market_price_without_quote(h: HoldingSummary)
    requires
        !(h.unit_price is Some && units(h.unit_price.unwrap()) > 0),
    ensures
        units(h.quantity) > 0 && units(h.market_value) > 0 ==> spec_holding_price(h) == match spec_checked_div(h.market_value, h.quantity) {
            Some(p) => Some(Some(p)),
            None => None::<Option<Dec>>,
        },
        !(units(h.quantity) > 0 && units(h.market_value) > 0) ==> spec_holding_price(h) == Some(None::<Dec>),
{
}

/// Law: a nearest-band rebalance aims each sleeve no higher than an exact-target one.
/// For a target and a band that are not negative, the share a nearest-band plan aims a
/// sleeve at (the lower band edge) lies between zero and the target, the share an
/// exact-target plan aims it at.
pub proof fn law_nearest_band_aims_no_higher(target_bps: i32, band: i32)
    requires
        0 <= target_bps,
        0 <= band,
    ensures
        0 <= desired_bps(target_bps, RebalanceGoal::NearestBand, band),
        desired_bps(target_bps, RebalanceGoal::NearestBand, band) <= desired_bps(target_bps, RebalanceGoal::ExactTarget, band),
{
}

/// What every plan promises of the request it answers: it is for the target asked about,
/// it only buys, it never plans more cash than was asked for, what remains is what was
/// available less what was used, and without cash it suggests no trade.
pub open spec fn plan_answers(plan: RebalancePlan, input: CalculateRebalancePlanInput) -> bool {
    &&& plan.target_id@ == input.target_id@
    &&& forall|i: int| 0 <= i < plan.trades@.len() ==> (#[trigger] plan.trades@[i]).action@ == "buy"@
    &&& units(plan.available_cash) <= units(input.available_cash)
    &&& (spec_checked_sub(plan.available_cash, plan.cash_used) == Some(plan.cash_remaining)
        || is_empty_plan(plan))
    &&& units(input.available_cash) == 0 ==> plan.trades@.len() == 0 && units(plan.cash_used) == 0
}

/// Why planning fails with `e`, given what the services answered for the request: the
/// cash asked for is not a representable, non-negative amount; or the holdings read
/// failed, or its values or their cash sum do not compute, or the cash asked for exceeds
/// the tracked cash by more than the currency's minor unit; or, with the cash to deploy
/// settled, the target lookup failed or found no target (`e` then says so), or the drift
/// report failed or does not compute, or planning failed as `plan_may_fail` allows.
pub open spec fn plan_error<T: AllocationTargetServiceTrait, D: crate::drift::DriftServiceTrait, A: AllocationServiceTrait,
    H: HoldingsServiceTrait>(t: T, d: D, a: A, h: H, input: CalculateRebalancePlanInput, e: Error) -> bool {
    let accts = input.account_ids@;
    let ccy = input.base_currency@;
    let agg = input.aggregated_account_id@;
    let id = input.target_id@;
    ||| !(input.available_cash.wf() && units(input.available_cash) >= 0)
    ||| h.holdings_answer(accts, ccy, agg, Err(e))
    ||| exists|hs: Vec<Holding>| #[trigger] h.holdings_answer(accts, ccy, agg, Ok(hs)) && (!holdings_wf(hs@)
        || match cash_sum(hs@, hs@.len() as int) {
            None => true,
            Some(held) => match spec_cash_to_deploy(input.available_cash, held, ccy) {
                None => true,
                Some(cash) => t.target_answer(id, Err(e))
                    || (t.target_answer(id, Ok(None)) && crate::errors::is_not_found(e, "AllocationTarget "@ + id + " not found"@))
                    || exists|p: AllocationTarget| #[trigger] t.target_answer(id, Ok(Some(p))) && (
                        d.profile_report_answer(id, accts, ccy, agg, Err(e))
                        || exists|dr: DriftReport| #[trigger] d.profile_report_answer(id, accts, ccy, agg, Ok(dr))
                            && (!(dr.total_value.wf() && rows_wf(dr.rows@)) || plan_may_fail(cash, p, dr))),
            },
        })
}

impl<T: AllocationTargetServiceTrait, D: crate::drift::DriftServiceTrait, A: AllocationServiceTrait, H: HoldingsServiceTrait> RebalanceServiceTrait for RebalanceService<T, D, A, H> {
    /// Rejects negative cash; measures the tracked cash in scope and refuses to deploy more
    /// than it (beyond one minor unit of the currency, which is capped); loads the target
    /// and its drift report; then plans with `plan_with_holdings`.
    fn calculate_plan(&self, input: CalculateRebalancePlanInput) -> (r: Result<RebalancePlan, Error>)
        ensures
            input.available_cash.wf() && units(input.available_cash) < 0 ==> (r matches Err(e)
                && crate::errors::is_invalid_input(e, "available_cash must be non-negative"@)),
            r is Ok ==> input.available_cash.wf() && units(input.available_cash) >= 0,
            r matches Err(e) ==> plan_error(self.services().0, self.services().1, self.services().2, self.services().3, input, e),
            r matches Ok(plan) ==> plan_answers(plan, input),
            r matches Ok(plan) ==> exists|hs: Vec<Holding>, held: Dec, cash: Dec, profile: AllocationTarget, drift: DriftReport|
                #![trigger self.services().3.holdings_answer(input.account_ids@, input.base_currency@, input.aggregated_account_id@, Ok(hs)),
                    self.services().0.target_answer(input.target_id@, Ok(Some(profile))),
                    self.services().1.profile_report_answer(input.target_id@, input.account_ids@, input.base_currency@,
                        input.aggregated_account_id@, Ok(drift)),
                    spec_cash_to_deploy(input.available_cash, held, input.base_currency@),
                    plan_ok(plan, input.target_id@, cash, profile, drift, holdings_reads(self.services().2, input, profile.taxonomy_id@))]
                self.services().3.holdings_answer(input.account_ids@, input.base_currency@, input.aggregated_account_id@, Ok(hs))
                && cash_sum(hs@, hs@.len() as int) == Some(held)
                && spec_cash_to_deploy(input.available_cash, held, input.base_currency@) == Some(cash)
                && self.services().0.target_answer(input.target_id@, Ok(Some(profile)))
                && self.services().1.profile_report_answer(input.target_id@, input.account_ids@, input.base_currency@,
                    input.aggregated_account_id@, Ok(drift))
                && plan_ok(plan, input.target_id@, cash, profile, drift,
                    holdings_reads(self.services().2, input, profile.taxonomy_id@)),
    {
        let requested = input.available_cash;
        if !requested.is_wf() {
            return Err(invalid_decimal());
        }
        if dec_lt(requested, Dec::zero()) {
            return Err(invalid(String::from_str("available_cash must be non-negative")));
        }
        let holdings = match self.holdings_service.get_holdings_for_accounts(
            input.account_ids.as_slice(),
            input.base_currency.as_str(),
            input.aggregated_account_id.as_str(),
        ) {
            Ok(v) => v,
            Err(e) => return Err(e),
        };
        let ghost hs0 = holdings;
        proof {
            assert(self.services().3.holdings_answer(input.account_ids@, input.base_currency@, input.aggregated_account_id@, Ok(hs0)));
        }
        if !holdings_are_wf(&holdings) {
            return Err(invalid_decimal());
        }
        let held = match cash_in_scope(&holdings) {
            Ok(v) => v,
            Err(e) => return Err(e),
        };
        let cash = match resolve_available_cash(requested, held, input.base_currency.as_str()) {
            Ok(v) => v,
            Err(e) => return Err(e),
        };
        let profile = match found_target(self.allocation_target_service.get_target(input.target_id.as_str()), input.target_id.as_str()) {
            Ok(p) => p,
            Err(e) => return Err(e),
        };
        proof {
            assert(self.services().0.target_answer(input.target_id@, Ok(Some(profile))));
        }
        let drift = match self.drift_service.get_drift_report_for_profile(
            input.target_id.as_str(),
            input.account_ids.as_slice(),
            input.base_currency.as_str(),
            input.aggregated_account_id.as_str(),
        ) {
            Ok(v) => v,
            Err(e) => return Err(e),
        };
        proof {
            assert(self.services().1.profile_report_answer(input.target_id@, input.account_ids@, input.base_currency@,
                input.aggregated_account_id@, Ok(drift)));
        }
        if !drift.total_value.is_wf() || !rows_are_wf(&drift.rows) {
            return Err(invalid_decimal());
        }
        let r = plan_with_holdings(&self.allocation_service, &input, cash, &profile, &drift);
        proof {
            if r is Ok {
                let plan = r->Ok_0;
                assert(plan_ok(plan, input.target_id@, cash, profile, drift,
                    holdings_reads(self.services().2, input, profile.taxonomy_id@)));
                assert(self.services().3.holdings_answer(input.account_ids@, input.base_currency@, input.aggregated_account_id@, Ok(hs0)));
                assert(self.services().0.target_answer(input.target_id@, Ok(Some(profile))));
                assert(self.services().1.profile_report_answer(input.target_id@, input.account_ids@, input.base_currency@,
                    input.aggregated_account_id@, Ok(drift)));
                assert(cash_sum(holdings@, holdings@.len() as int) == Some(held));
                assert(spec_cash_to_deploy(input.available_cash, held, input.base_currency@) == Some(cash));
                if units(input.available_cash) == 0 {
                    assert(units(cash) <= 0);
                }
            }
        }
        r
    }
}

} // verus!
