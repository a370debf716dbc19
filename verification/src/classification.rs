//! Asset classification drafts for the chat assistant: resolving which asset a query
//! names, listing asset taxonomies, and previewing a proposed set of category weights
//! against the current one. Nothing here writes; the user applies accepted drafts.

use vstd::prelude::*;
use std::sync::Arc;
use crate::errors::Error;
use crate::taxonomies::{AssetTaxonomyAssignment, Category, TaxonomyWithCategories};
use crate::text::{ascii_lower_code, collapse_whitespace, collapse_ws, eq_ignore_ascii_case, eq_ignore_case, push_char,
    spec_to_lowercase, to_lowercase, trim, trim_string};

verus! {

// ── Errors and environment ───────────────────────────────────────────────────

/// Errors of the assistant tools.
#[derive(Debug, Clone, PartialEq, Eq)]
pub enum AiError {
    /// The request cannot be served as asked; the message says why.
    InvalidInput(String),
    /// A service the tools read from failed.
    Service(String),
}

impl AiError {
    /// An invalid-input error with the message.
    pub fn invalid_input(msg: String) -> (e: AiError)
        ensures
            e == AiError::InvalidInput(msg),
    {
        AiError::InvalidInput(msg)
    }

    /// The error for a failed read of a service: its message kept.
    pub fn from_service(e: &Error) -> (r: AiError)
        ensures
            r matches AiError::Service(m) && m@ == e.spec_message(),
    {
        AiError::Service(e.message())
    }

    /// The human-readable message of the error.
    pub fn message(&self) -> (s: String)
        ensures
            s@ == match self {
                AiError::InvalidInput(m) => "Invalid input: "@ + m@,
                AiError::Service(m) => m@,
            },
    {
        match self {
            AiError::InvalidInput(m) => {
                let mut s = String::from_str("Invalid input: ");
                s.append(m.as_str());
                s
            },
            AiError::Service(m) => m.clone(),
        }
    }
}

/// The error carries exactly this invalid-input message.
pub open spec fn is_invalid(e: AiError, msg: Seq<char>) -> bool {
    e matches AiError::InvalidInput(m) && m@ == msg
}

/// An asset as the resolver reads it.
#[derive(Debug, Clone)]
pub struct Asset {
    pub id: String,
    pub name: Option<String>,
    pub display_code: Option<String>,
    pub is_active: bool,
    pub quote_ccy: String,
    pub instrument_symbol: Option<String>,
    pub instrument_exchange_mic: Option<String>,
}

/// What the assistant tools read.
pub trait AiEnvironment {
    /// `r` is an answer the environment gives when asked for all assets.
    /// Implementations may say which results these are; by default any result is one.
    closed spec fn assets_answer(&self, r: Result<Vec<Asset>, Error>) -> bool {
        true
    }
    /// `r` is an answer the environment gives when asked for all taxonomies.
    /// Implementations may say which results these are; by default any result is one.
    closed spec fn taxonomies_answer(&self, r: Result<Vec<TaxonomyWithCategories>, Error>) -> bool {
        true
    }
    /// `r` is an answer the environment gives when asked for the assignments of an asset.
    /// Implementations may say which results these are; by default any result is one.
    closed spec fn assignments_answer(&self, asset_id: Seq<char>, r: Result<Vec<AssetTaxonomyAssignment>, Error>) -> bool {
        true
    }

    /// All assets.
    fn get_assets(&self) -> (r: Result<Vec<Asset>, Error>)
        ensures
            self.assets_answer(r),
    ;
    /// All taxonomies with their categories.
    fn get_taxonomies_with_categories(&self) -> (r: Result<Vec<TaxonomyWithCategories>, Error>)
        ensures
            self.taxonomies_answer(r),
    ;
    /// The taxonomy assignments of one asset.
    fn get_asset_assignments(&self, asset_id: &str) -> (r: Result<Vec<AssetTaxonomyAssignment>, Error>)
        ensures
            self.assignments_answer(asset_id@, r),
    ;
}

/// The environment answered the read of all assets with `assets`.
pub open spec fn read_assets<E: AiEnvironment>(env: E, assets: Seq<Asset>) -> bool {
    exists|v: Vec<Asset>| #[trigger] env.assets_answer(Ok(v)) && v@ == assets
}

/// `ts` are the asset taxonomies among those the environment answered the read of all
/// taxonomies with.
pub open spec fn read_asset_taxonomies<E: AiEnvironment>(env: E, ts: Seq<TaxonomyWithCategories>) -> bool {
    exists|v: Vec<TaxonomyWithCategories>| #[trigger] env.taxonomies_answer(Ok(v)) && asset_scoped(v@) == ts
}

// ── Arguments and outputs ────────────────────────────────────────────────────

/// Arguments of the taxonomy listing tool.
#[derive(Debug, Clone, Default)]
pub struct ListAssetTaxonomiesArgs {
    pub taxonomy_id: Option<String>,
    pub taxonomy_name: Option<String>,
    pub include_categories: Option<bool>,
    pub category_depth: Option<String>,
}

/// Arguments of the assignment reading tool.
#[derive(Debug, Clone, Default)]
pub struct GetAssetTaxonomyAssignmentsArgs {
    pub asset_query: String,
    pub taxonomy_id: Option<String>,
}

/// Arguments of the classification drafting tool.
#[derive(Debug, Clone, Default)]
pub struct PrepareAssetClassificationArgs {
    pub asset_query: String,
    pub taxonomy_id: String,
    pub assignments: Vec<PreparedAssignmentInput>,
}

/// One proposed category weight, with the label it was read from.
#[derive(Debug, Clone, Default)]
pub struct PreparedAssignmentInput {
    pub category_id: String,
    pub weight_basis_points: i32,
    pub source_label: String,
}

/// The asset a query resolved to, and how it matched.
#[derive(Debug, Clone)]
pub struct ResolvedAssetDto {
    pub asset_id: String,
    pub label: String,
    pub display_code: Option<String>,
    pub symbol: Option<String>,
    pub name: Option<String>,
    pub exchange_mic: Option<String>,
    pub currency: String,
    pub matched_by: String,
}

/// A category of an asset taxonomy.
#[derive(Debug, Clone)]
pub struct AssetTaxonomyCategoryDto {
    pub category_id: String,
    pub taxonomy_id: String,
    pub parent_id: Option<String>,
    pub name: String,
    pub key: String,
    pub color: String,
    pub sort_order: i32,
}

/// An asset taxonomy, with its categories when asked.
#[derive(Debug, Clone)]
pub struct AssetTaxonomyDto {
    pub taxonomy_id: String,
    pub name: String,
    pub description: Option<String>,
    pub color: String,
    pub is_single_select: bool,
    pub sort_order: i32,
    pub category_count: usize,
    pub categories: Vec<AssetTaxonomyCategoryDto>,
}

/// Output of the taxonomy listing tool.
#[derive(Debug, Clone)]
pub struct ListAssetTaxonomiesOutput {
    pub taxonomies: Vec<AssetTaxonomyDto>,
}

/// A current assignment of an asset, with its taxonomy and category names.
#[derive(Debug, Clone)]
pub struct AssetTaxonomyAssignmentDto {
    pub assignment_id: String,
    pub taxonomy_id: String,
    pub taxonomy_name: String,
    pub category_id: String,
    pub category_name: String,
    pub category_key: String,
    pub weight_basis_points: i32,
    pub source: String,
}

/// Output of the assignment reading tool.
#[derive(Debug, Clone)]
pub struct GetAssetTaxonomyAssignmentsOutput {
    pub asset_query: String,
    pub resolved_asset: ResolvedAssetDto,
    pub assignments: Vec<AssetTaxonomyAssignmentDto>,
}

/// The taxonomy of a draft.
#[derive(Debug, Clone)]
pub struct PreparedTaxonomyDto {
    pub taxonomy_id: String,
    pub name: String,
    pub is_single_select: bool,
}

/// One assignment of a draft preview, current or proposed.
#[derive(Debug, Clone)]
pub struct AssignmentPreviewDto {
    pub assignment_id: Option<String>,
    pub category_id: String,
    pub category_name: String,
    pub category_key: String,
    pub category_color: String,
    pub weight_basis_points: i32,
    pub source: String,
    pub source_label: Option<String>,
}

/// How a proposal changes the current assignments.
#[derive(Debug, Clone, Default)]
pub struct ClassificationChangesDto {
    pub add_count: usize,
    pub update_count: usize,
    pub remove_count: usize,
    pub unchanged_count: usize,
}

/// The current assignments of one candidate asset, and how the proposal changes them.
#[derive(Debug, Clone)]
pub struct CandidateAssignmentPreviewDto {
    pub asset_id: String,
    pub current_assignments: Vec<AssignmentPreviewDto>,
    pub changes: ClassificationChangesDto,
}

/// Output of the classification drafting tool.
#[derive(Debug, Clone)]
pub struct PrepareAssetClassificationOutput {
    pub asset_query: String,
    pub resolved_asset: Option<ResolvedAssetDto>,
    pub taxonomy: PreparedTaxonomyDto,
    pub current_assignments: Vec<AssignmentPreviewDto>,
    pub proposed_assignments: Vec<AssignmentPreviewDto>,
    pub changes: ClassificationChangesDto,
    pub unallocated_basis_points: i32,
    pub draft_status: String,
    pub asset_candidates: Vec<ResolvedAssetDto>,
    pub candidate_current_assignments: Vec<CandidateAssignmentPreviewDto>,
    pub applied_at: Option<String>,
}

// ── Text helpers ─────────────────────────────────────────────────────────────

/// The value is present and, trimmed, equals the trimmed query up to ASCII case.
pub open spec fn opt_eq_ignore_case(value: Option<String>, query: Seq<char>) -> bool {
    value is Some && eq_ignore_case(trim(value.unwrap()@), trim(query))
}

/// Whether the value is present and, trimmed, equals the trimmed query up to ASCII case.
pub fn option_eq_ignore_ascii_case(value: Option<&str>, query: &str) -> (r: bool)
    ensures
        r == (value is Some && eq_ignore_case(trim(value.unwrap()@), trim(query@))),
{
    match value {
        Some(v) => {
            let a = trim_string(v);
            let b = trim_string(query);
            eq_ignore_ascii_case(a.as_str(), b.as_str())
        },
        None => false,
    }
}

/// A text trimmed, lower-cased and with its words joined by single spaces.
pub open spec fn spec_normalize_lookup(value: Seq<char>) -> Seq<char> {
    collapse_ws(spec_to_lowercase(trim(value)))
}

/// A text trimmed, lower-cased and with its words joined by single spaces.
pub fn normalize_lookup(value: &str) -> (r: String)
    ensures
        r@ == spec_normalize_lookup(value@),
{
    let t = trim_string(value);
    let l = to_lowercase(t.as_str());
    collapse_whitespace(l.as_str())
}

/// ASCII letters and digits.
pub open spec fn is_ascii_alnum(c: char) -> bool {
    ('a' <= c && c <= 'z') || ('A' <= c && c <= 'Z') || ('0' <= c && c <= '9')
}

/// Every character that is not an ASCII letter or digit replaced by a space.
pub open spec fn alnum_or_space(s: Seq<char>) -> Seq<char> {
    s.map_values(|c: char| if is_ascii_alnum(c) { c } else { ' ' })
}

/// A label trimmed, lower-cased, with every character that is not an ASCII letter or
/// digit made a space, and its words joined by single spaces.
pub open spec fn spec_normalize_category_label(value: Seq<char>) -> Seq<char> {
    collapse_ws(alnum_or_space(spec_to_lowercase(trim(value))))
}

/// Normalises a category label for comparison.
pub fn normalize_category_label(value: &str) -> (r: String)
    ensures
        r@ == spec_normalize_category_label(value@),
{
    let t = trim_string(value);
    let l = to_lowercase(t.as_str());
    let n = l.as_str().unicode_len();
    let mut mapped = String::new();
    let mut i: usize = 0;
    while i < n
        invariant
            n == l@.len(),
            i <= n,
            mapped@ == alnum_or_space(l@.subrange(0, i as int)),
        decreases n - i,
    {
        let c = l.as_str().get_char(i);
        let keep = ('a' <= c && c <= 'z') || ('A' <= c && c <= 'Z') || ('0' <= c && c <= '9');
        push_char(&mut mapped, if keep { c } else { ' ' });
        proof {
            assert(alnum_or_space(l@.subrange(0, i + 1)) =~= alnum_or_space(l@.subrange(0, i as int)).push(
                if is_ascii_alnum(c) { c } else { ' ' },
            ));
        }
        i = i + 1;
    }
    proof {
        assert(l@.subrange(0, n as int) =~= l@);
    }
    collapse_whitespace(mapped.as_str())
}

/// Normalised labels of buckets that hold what a breakdown did not classify.
pub open spec fn residual_label(n: Seq<char>) -> bool {
    n == "unknown"@ || n == "other"@ || n == "unclassified"@ || n == "uncategorized"@
        || n == "unallocated"@ || n == "not classified"@ || n == "not applicable"@ || n == "n a"@
        || n == "na"@ || n == "misc"@ || n == "miscellaneous"@ || n == "remainder"@
        || n == "remaining"@ || n == "residual"@ || n == "rest"@
}

/// Whether a label names a residual bucket (Unknown, Other, N/A and the like).
pub fn is_residual_bucket_label(label: &str) -> (r: bool)
    ensures
        r == residual_label(spec_normalize_category_label(label@)),
{
    let n = normalize_category_label(label);
    let s = n.as_str();
    crate::model::str_eq(s, "unknown") || crate::model::str_eq(s, "other")
        || crate::model::str_eq(s, "unclassified") || crate::model::str_eq(s, "uncategorized")
        || crate::model::str_eq(s, "unallocated") || crate::model::str_eq(s, "not classified")
        || crate::model::str_eq(s, "not applicable") || crate::model::str_eq(s, "n a")
        || crate::model::str_eq(s, "na") || crate::model::str_eq(s, "misc")
        || crate::model::str_eq(s, "miscellaneous") || crate::model::str_eq(s, "remainder")
        || crate::model::str_eq(s, "remaining") || crate::model::str_eq(s, "residual")
        || crate::model::str_eq(s, "rest")
}

/// The category's name, key or id normalises to the same text as the label.
pub open spec fn category_matches_label(category: Category, label: Seq<char>) -> bool {
    let n = spec_normalize_category_label(label);
    spec_normalize_category_label(category.name@) == n || spec_normalize_category_label(category.key@) == n
        || spec_normalize_category_label(category.id@) == n
}

/// Whether a source label names the category itself (by name, key or id).
pub fn category_matches_source_label(category: &Category, source_label: &str) -> (r: bool)
    ensures
        r == category_matches_label(*category, source_label@),
{
    let n = normalize_category_label(source_label);
    let a = normalize_category_label(category.name.as_str());
    let b = normalize_category_label(category.key.as_str());
    let c = normalize_category_label(category.id.as_str());
    crate::model::str_eq(a.as_str(), n.as_str()) || crate::model::str_eq(b.as_str(), n.as_str())
        || crate::model::str_eq(c.as_str(), n.as_str())
}

/// Which categories of a taxonomy to list.
#[derive(Debug, Clone, Copy, PartialEq, Eq, Structural)]
pub enum CategoryDepth {
    Root,
    All,
}

/// The category depth a value asks for: `Root` when absent or blank; `root` or `all`
/// in any ASCII case; any other value is an error that quotes it trimmed.
pub open spec fn category_depth_verdict(value: Option<Seq<char>>) -> Result<CategoryDepth, Seq<char>> {
    match value {
        None => Ok(CategoryDepth::Root),
        Some(v) => {
            let t = trim(v);
            if t.len() == 0 {
                Ok(CategoryDepth::Root)
            } else if eq_ignore_case(t, "root"@) {
                Ok(CategoryDepth::Root)
            } else if eq_ignore_case(t, "all"@) {
                Ok(CategoryDepth::All)
            } else {
                Err("categoryDepth must be 'root' or 'all', got '"@ + t + "'"@)
            }
        },
    }
}

/// Parses the category depth argument.
pub fn parse_category_depth(value: Option<&str>) -> (r: Result<CategoryDepth, AiError>)
    ensures
        match category_depth_verdict(match value { Some(v) => Some(v@), None => None }) {
            Ok(d) => r == Ok::<CategoryDepth, AiError>(d),
            Err(m) => r matches Err(e) && is_invalid(e, m),
        },
{
    match value {
        None => Ok(CategoryDepth::Root),
        Some(v) => {
            let t = trim_string(v);
            if t.as_str().unicode_len() == 0 {
                Ok(CategoryDepth::Root)
            } else if eq_ignore_ascii_case(t.as_str(), "root") {
                Ok(CategoryDepth::Root)
            } else if eq_ignore_ascii_case(t.as_str(), "all") {
                Ok(CategoryDepth::All)
            } else {
                let mut m = String::from_str("categoryDepth must be 'root' or 'all', got '");
                m.append(t.as_str());
                m.append("'");
                Err(AiError::invalid_input(m))
            }
        },
    }
}


// ── Asset labels ─────────────────────────────────────────────────────────────

fn clone_opt(s: &Option<String>) -> (r: Option<String>)
    ensures
        r == *s,
{
    match s {
        Some(x) => Some(x.clone()),
        None => None,
    }
}

/// A copy of an asset.
pub fn clone_asset(a: &Asset) -> (r: Asset)
    ensures
        r == *a,
{
    Asset {
        id: a.id.clone(),
        name: clone_opt(&a.name),
        display_code: clone_opt(&a.display_code),
        is_active: a.is_active,
        quote_ccy: a.quote_ccy.clone(),
        instrument_symbol: clone_opt(&a.instrument_symbol),
        instrument_exchange_mic: clone_opt(&a.instrument_exchange_mic),
    }
}

/// The code an asset is shown by: its display code, else its symbol, else its id.
pub open spec fn asset_code(a: Asset) -> Seq<char> {
    if a.display_code is Some {
        a.display_code.unwrap()@
    } else if a.instrument_symbol is Some {
        a.instrument_symbol.unwrap()@
    } else {
        a.id@
    }
}

/// `code - name` when the asset has a name that is not blank, else the code.
pub open spec fn spec_asset_label(a: Asset) -> Seq<char> {
    if a.name is Some && trim(a.name.unwrap()@).len() > 0 {
        asset_code(a) + " - "@ + a.name.unwrap()@
    } else {
        asset_code(a)
    }
}

fn code_of(a: &Asset) -> (r: &str)
    ensures
        r@ == asset_code(*a),
{
    match &a.display_code {
        Some(c) => c.as_str(),
        None => match &a.instrument_symbol {
            Some(s) => s.as_str(),
            None => a.id.as_str(),
        },
    }
}

/// The label of an asset: its code, and its name when it has one.
pub fn asset_label(a: &Asset) -> (r: String)
    ensures
        r@ == spec_asset_label(*a),
{
    let mut out = String::from_str(code_of(a));
    match &a.name {
        Some(n) => {
            let t = trim_string(n.as_str());
            if t.as_str().unicode_len() > 0 {
                out.append(" - ");
                out.append(n.as_str());
            }
        },
        None => {},
    }
    out
}

/// Texts joined with `", "`.
pub open spec fn join_comma(parts: Seq<Seq<char>>) -> Seq<char>
    decreases parts.len(),
{
    if parts.len() == 0 {
        seq![]
    } else if parts.len() == 1 {
        parts[0]
    } else {
        join_comma(parts.drop_last()) + ", "@ + parts.last()
    }
}

/// What tells an asset apart: its exchange when it has one, its currency when not
/// blank, and its id.
pub open spec fn qualifiers(a: Asset) -> Seq<Seq<char>> {
    let q0: Seq<Seq<char>> = if a.instrument_exchange_mic is Some && trim(a.instrument_exchange_mic.unwrap()@).len() > 0 {
        seq!["mic: "@ + trim(a.instrument_exchange_mic.unwrap()@)]
    } else {
        seq![]
    };
    let q1 = if trim(a.quote_ccy@).len() > 0 { q0.push("currency: "@ + a.quote_ccy@) } else { q0 };
    q1.push("id: "@ + a.id@)
}

/// `label (qualifiers)`: a label that tells assets with the same code apart.
pub open spec fn spec_candidate_label(a: Asset) -> Seq<char> {
    spec_asset_label(a) + " ("@ + join_comma(qualifiers(a)) + ")"@
}

/// The label of an asset with the qualifiers that tell it apart.
pub fn asset_candidate_label(a: &Asset) -> (r: String)
    ensures
        r@ == spec_candidate_label(*a),
{
    let ghost q0: Seq<Seq<char>> = if a.instrument_exchange_mic is Some && trim(a.instrument_exchange_mic.unwrap()@).len() > 0 {
        seq!["mic: "@ + trim(a.instrument_exchange_mic.unwrap()@)]
    } else {
        seq![]
    };
    let mut joined = String::new();
    let mut count: usize = 0;
    match &a.instrument_exchange_mic {
        Some(m) => {
            let t = trim_string(m.as_str());
            if t.as_str().unicode_len() > 0 {
                joined.append("mic: ");
                joined.append(t.as_str());
                count = 1;
            }
        },
        None => {},
    }
    proof {
        assert(joined@ == join_comma(q0));
        assert(count == q0.len());
    }
    let ghost q1 = if trim(a.quote_ccy@).len() > 0 { q0.push("currency: "@ + a.quote_ccy@) } else { q0 };
    let ct = trim_string(a.quote_ccy.as_str());
    if ct.as_str().unicode_len() > 0 {
        if count > 0 {
            joined.append(", ");
        }
        joined.append("currency: ");
        joined.append(a.quote_ccy.as_str());
        count = count + 1;
        proof {
            let q = q0.push("currency: "@ + a.quote_ccy@);
            assert(q.drop_last() =~= q0);
            if q0.len() == 0 {
                assert(joined@ =~= q[0]);
            } else {
                assert(joined@ =~= join_comma(q0) + ", "@ + q.last());
            }
        }
    }
    proof {
        assert(joined@ == join_comma(q1));
        assert(count == q1.len());
    }
    if count > 0 {
        joined.append(", ");
    }
    joined.append("id: ");
    joined.append(a.id.as_str());
    proof {
        let q = q1.push("id: "@ + a.id@);
        assert(q =~= qualifiers(*a));
        assert(q.drop_last() =~= q1);
        if q1.len() == 0 {
            assert(joined@ =~= q[0]);
        } else {
            assert(joined@ =~= join_comma(q1) + ", "@ + q.last());
        }
    }
    let mut out = asset_label(a);
    out.append(" (");
    out.append(joined.as_str());
    out.append(")");
    out
}


// ── Provider tickers ─────────────────────────────────────────────────────────

/// The exchange (MIC) that a provider ticker suffix stands for, in any ASCII case.
pub open spec fn mic_for_suffix(suffix: Seq<char>) -> Option<Seq<char>> {
    if eq_ignore_case(suffix, "TO"@) {
        Some("XTSE"@)
    } else if eq_ignore_case(suffix, "V"@) {
        Some("XTSX"@)
    } else if eq_ignore_case(suffix, "CN"@) {
        Some("XCNQ"@)
    } else if eq_ignore_case(suffix, "NE"@) {
        Some("XNEO"@)
    } else if eq_ignore_case(suffix, "L"@) {
        Some("XLON"@)
    } else if eq_ignore_case(suffix, "DE"@) {
        Some("XETR"@)
    } else if eq_ignore_case(suffix, "F"@) {
        Some("XFRA"@)
    } else if eq_ignore_case(suffix, "PA"@) {
        Some("XPAR"@)
    } else if eq_ignore_case(suffix, "AS"@) {
        Some("XAMS"@)
    } else if eq_ignore_case(suffix, "BR"@) {
        Some("XBRU"@)
    } else if eq_ignore_case(suffix, "MI"@) {
        Some("XMIL"@)
    } else if eq_ignore_case(suffix, "MC"@) {
        Some("XMAD"@)
    } else if eq_ignore_case(suffix, "SW"@) {
        Some("XSWX"@)
    } else if eq_ignore_case(suffix, "ST"@) {
        Some("XSTO"@)
    } else if eq_ignore_case(suffix, "OL"@) {
        Some("XOSL"@)
    } else if eq_ignore_case(suffix, "CO"@) {
        Some("XCSE"@)
    } else if eq_ignore_case(suffix, "HE"@) {
        Some("XHEL"@)
    } else if eq_ignore_case(suffix, "HK"@) {
        Some("XHKG"@)
    } else if eq_ignore_case(suffix, "T"@) {
        Some("XTKS"@)
    } else if eq_ignore_case(suffix, "AX"@) {
        Some("XASX"@)
    } else if eq_ignore_case(suffix, "NZ"@) {
        Some("XNZE"@)
    } else if eq_ignore_case(suffix, "SI"@) {
        Some("XSES"@)
    } else if eq_ignore_case(suffix, "KS"@) {
        Some("XKRX"@)
    } else if eq_ignore_case(suffix, "SS"@) {
        Some("XSHG"@)
    } else if eq_ignore_case(suffix, "SZ"@) {
        Some("XSHE"@)
    } else if eq_ignore_case(suffix, "NS"@) {
        Some("XNSE"@)
    } else if eq_ignore_case(suffix, "BO"@) {
        Some("XBOM"@)
    } else if eq_ignore_case(suffix, "SA"@) {
        Some("BVMF"@)
    } else if eq_ignore_case(suffix, "MX"@) {
        Some("XMEX"@)
    } else {
        None
    }
}

fn mic_of_suffix(suffix: &str) -> (r: Option<&'static str>)
    ensures
        match r { Some(m) => mic_for_suffix(suffix@) == Some(m@), None => mic_for_suffix(suffix@) is None },
{
    if eq_ignore_ascii_case(suffix, "TO") {
        Some("XTSE")
    } else if eq_ignore_ascii_case(suffix, "V") {
        Some("XTSX")
    } else if eq_ignore_ascii_case(suffix, "CN") {
        Some("XCNQ")
    } else if eq_ignore_ascii_case(suffix, "NE") {
        Some("XNEO")
    } else if eq_ignore_ascii_case(suffix, "L") {
        Some("XLON")
    } else if eq_ignore_ascii_case(suffix, "DE") {
        Some("XETR")
    } else if eq_ignore_ascii_case(suffix, "F") {
        Some("XFRA")
    } else if eq_ignore_ascii_case(suffix, "PA") {
        Some("XPAR")
    } else if eq_ignore_ascii_case(suffix, "AS") {
        Some("XAMS")
    } else if eq_ignore_ascii_case(suffix, "BR") {
        Some("XBRU")
    } else if eq_ignore_ascii_case(suffix, "MI") {
        Some("XMIL")
    } else if eq_ignore_ascii_case(suffix, "MC") {
        Some("XMAD")
    } else if eq_ignore_ascii_case(suffix, "SW") {
        Some("XSWX")
    } else if eq_ignore_ascii_case(suffix, "ST") {
        Some("XSTO")
    } else if eq_ignore_ascii_case(suffix, "OL") {
        Some("XOSL")
    } else if eq_ignore_ascii_case(suffix, "CO") {
        Some("XCSE")
    } else if eq_ignore_ascii_case(suffix, "HE") {
        Some("XHEL")
    } else if eq_ignore_ascii_case(suffix, "HK") {
        Some("XHKG")
    } else if eq_ignore_ascii_case(suffix, "T") {
        Some("XTKS")
    } else if eq_ignore_ascii_case(suffix, "AX") {
        Some("XASX")
    } else if eq_ignore_ascii_case(suffix, "NZ") {
        Some("XNZE")
    } else if eq_ignore_ascii_case(suffix, "SI") {
        Some("XSES")
    } else if eq_ignore_ascii_case(suffix, "KS") {
        Some("XKRX")
    } else if eq_ignore_ascii_case(suffix, "SS") {
        Some("XSHG")
    } else if eq_ignore_ascii_case(suffix, "SZ") {
        Some("XSHE")
    } else if eq_ignore_ascii_case(suffix, "NS") {
        Some("XNSE")
    } else if eq_ignore_ascii_case(suffix, "BO") {
        Some("XBOM")
    } else if eq_ignore_ascii_case(suffix, "SA") {
        Some("BVMF")
    } else if eq_ignore_ascii_case(suffix, "MX") {
        Some("XMEX")
    } else {
        None
    }
}

/// Index of the last `.` of a text, if any.
pub open spec fn last_dot(s: Seq<char>) -> Option<int> {
    if exists|i: int| 0 <= i < s.len() && s[i] == '.' {
        Some(choose|i: int| 0 <= i < s.len() && s[i] == '.' && forall|j: int| i < j < s.len() ==> s[j] != '.')
    } else {
        None
    }
}

/// A provider ticker such as `SHOP.TO` split into its symbol and the exchange its
/// suffix stands for; any other text is kept whole with no exchange.
pub open spec fn spec_split_suffix(q: Seq<char>) -> (Seq<char>, Option<Seq<char>>) {
    match last_dot(q) {
        Some(p) => if p > 0 && mic_for_suffix(q.subrange(p + 1, q.len() as int)) is Some {
            (q.subrange(0, p), mic_for_suffix(q.subrange(p + 1, q.len() as int)))
        } else {
            (q, None)
        },
        None => (q, None),
    }
}

/// Splits a provider ticker into its symbol and exchange.
pub fn parse_symbol_with_exchange_suffix(q: &str) -> (r: (String, Option<String>))
    ensures
        r.0@ == spec_split_suffix(q@).0,
        match r.1 { Some(m) => spec_split_suffix(q@).1 == Some(m@), None => spec_split_suffix(q@).1 is None },
{
    let n = q.unicode_len();
    let mut p: usize = n;
    while p > 0 && q.get_char(p - 1) != '.'
        invariant
            n == q@.len(),
            p <= n,
            forall|j: int| p <= j < n ==> q@[j] != '.',
        decreases p,
    {
        p = p - 1;
    }
    if p == 0 {
        proof {
            assert(!exists|i: int| 0 <= i < q@.len() && q@[i] == '.');
        }
        return (String::from_str(q), None);
    }
    let d = p - 1;
    proof {
        assert(q@[d as int] == '.');
        let c = choose|i: int| 0 <= i < q@.len() && q@[i] == '.' && forall|j: int| i < j < q@.len() ==> q@[j] != '.';
        assert(c == d) by {
            if c < d {
                assert(q@[d as int] != '.');
            }
            if c > d {
                assert(q@[c] != '.');
            }
        }
    }
    let suffix = q.substring_char(p, n);
    if d > 0 {
        match mic_of_suffix(suffix) {
            Some(m) => return (String::from_str(q.substring_char(0, d)), Some(String::from_str(m))),
            None => {},
        }
    }
    (String::from_str(q), None)
}

// ── Resolving assets ─────────────────────────────────────────────────────────

/// The successive ways a query is matched against assets, in the order they are tried.
#[derive(Debug, Clone, Copy, PartialEq, Eq, Structural)]
pub enum MatchRule {
    AssetId,
    Symbol,
    ProviderSuffix,
    SymbolExchangeMic,
    Name,
    Label,
    NameFuzzy,
}

impl MatchRule {
    /// How a resolved asset is reported to have matched.
    pub open spec fn spec_name(self) -> Seq<char> {
        match self {
            MatchRule::AssetId => "asset_id"@,
            MatchRule::Symbol => "symbol"@,
            MatchRule::ProviderSuffix => "provider_suffix"@,
            MatchRule::SymbolExchangeMic => "symbol_exchange_mic"@,
            MatchRule::Name => "name"@,
            MatchRule::Label => "label"@,
            MatchRule::NameFuzzy => "name_fuzzy"@,
        }
    }

    pub fn name(&self) -> (s: &'static str)
        ensures
            s@ == self.spec_name(),
    {
        match self {
            MatchRule::AssetId => "asset_id",
            MatchRule::Symbol => "symbol",
            MatchRule::ProviderSuffix => "provider_suffix",
            MatchRule::SymbolExchangeMic => "symbol_exchange_mic",
            MatchRule::Name => "name",
            MatchRule::Label => "label",
            MatchRule::NameFuzzy => "name_fuzzy",
        }
    }
}

/// `needle` occurs in `hay`.
pub open spec fn contains_seq(hay: Seq<char>, needle: Seq<char>) -> bool {
    exists|i: int| 0 <= i && i + needle.len() <= hay.len() && #[trigger] hay.subrange(i, i + needle.len()) == needle
}

fn contains_text(hay: &str, needle: &str) -> (r: bool)
    ensures
        r == contains_seq(hay@, needle@),
{
    let n = hay.unicode_len();
    let m = needle.unicode_len();
    if m > n {
        return false;
    }
    if m == 0 {
        proof {
            assert(hay@.subrange(0int, 0int + needle@.len()) =~= needle@);
        }
        return true;
    }
    let mut i: usize = 0;
    let last = n - m;
    while i <= last
        invariant
            n == hay@.len(),
            m == needle@.len(),
            m <= n,
            m >= 1,
            last == n - m,
            i <= last + 1,
            forall|k: int| 0 <= k < i ==> #[trigger] hay@.subrange(k, k + m) != needle@,
        decreases last + 1 - i,
    {
        if crate::model::str_eq(hay.substring_char(i, i + m), needle) {
            return true;
        }
        i = i + 1;
    }
    false
}

/// The asset's symbol, followed by its exchange (and its currency), normalises to the
/// normalised query.
pub open spec fn symbol_mic_matches(a: Asset, nq: Seq<char>) -> bool {
    let has_code = a.display_code is Some || a.instrument_symbol is Some;
    let code = asset_code(a);
    has_code && a.instrument_exchange_mic is Some && {
        let mic = a.instrument_exchange_mic.unwrap()@;
        spec_normalize_lookup(code + " "@ + mic) == nq || spec_normalize_lookup(code + " "@ + mic + " "@ + a.quote_ccy@) == nq
    }
}

/// Whether an asset matches a query under a rule. `base` and `mic` are the parts of a
/// provider ticker; the provider rule matches nothing when the query has no suffix.
pub open spec fn rule_matches(rule: MatchRule, a: Asset, q: Seq<char>, base: Seq<char>, mic: Option<Seq<char>>) -> bool {
    let nq = spec_normalize_lookup(q);
    match rule {
        MatchRule::AssetId => eq_ignore_case(a.id@, q),
        MatchRule::Symbol => opt_eq_ignore_case(a.display_code, q) || opt_eq_ignore_case(a.instrument_symbol, q),
        MatchRule::ProviderSuffix => mic is Some && (opt_eq_ignore_case(a.display_code, base)
            || opt_eq_ignore_case(a.instrument_symbol, base)) && opt_eq_ignore_case(a.instrument_exchange_mic, mic.unwrap()),
        MatchRule::SymbolExchangeMic => symbol_mic_matches(a, nq),
        MatchRule::Name => a.name is Some && spec_normalize_lookup(a.name.unwrap()@) == nq,
        MatchRule::Label => spec_normalize_lookup(spec_asset_label(a)) == nq
            || spec_normalize_lookup(spec_candidate_label(a)) == nq,
        MatchRule::NameFuzzy => a.name is Some && contains_seq(spec_normalize_lookup(a.name.unwrap()@), nq),
    }
}

proof fn lemma_eq_ignore_case_swap(x: Seq<char>, t1: Seq<char>, t2: Seq<char>)
    requires
        t1.len() == t2.len(),
        forall|i: int| 0 <= i < t1.len() ==> ascii_lower_code(#[trigger] t1[i]) == ascii_lower_code(t2[i]),
    ensures
        eq_ignore_case(x, t1) == eq_ignore_case(x, t2),
{
    if eq_ignore_case(x, t1) {
        assert forall|i: int| 0 <= i < x.len() implies ascii_lower_code(#[trigger] x[i]) == ascii_lower_code(t2[i]) by {
            assert(ascii_lower_code(t1[i]) == ascii_lower_code(t2[i]));
        }
    }
    if eq_ignore_case(x, t2) {
        assert forall|i: int| 0 <= i < x.len() implies ascii_lower_code(#[trigger] x[i]) == ascii_lower_code(t1[i]) by {
            assert(ascii_lower_code(t1[i]) == ascii_lower_code(t2[i]));
        }
    }
}

/// Law: the ticker rule ignores ASCII case. Two queries whose trimmed texts have the
/// same length and agree character by character once ASCII letters are lowered match
/// exactly the same assets under the symbol rule.
pub proof fn law_symbol_rule_ignores_case(a: Asset, q1: Seq<char>, q2: Seq<char>, base: Seq<char>, mic: Option<Seq<char>>)
    requires
        trim(q1).len() == trim(q2).len(),
        forall|i: int| 0 <= i < trim(q1).len() ==> ascii_lower_code(#[trigger] trim(q1)[i]) == ascii_lower_code(trim(q2)[i]),
    ensures
        rule_matches(MatchRule::Symbol, a, q1, base, mic) == rule_matches(MatchRule::Symbol, a, q2, base, mic),
{
    if a.display_code is Some {
        lemma_eq_ignore_case_swap(trim(a.display_code.unwrap()@), trim(q1), trim(q2));
    }
    if a.instrument_symbol is Some {
        lemma_eq_ignore_case_swap(trim(a.instrument_symbol.unwrap()@), trim(q1), trim(q2));
    }
}

/// Law: an asset whose display code or instrument symbol, trimmed, agrees with the
/// trimmed query once ASCII letters are lowered, matches the query under the symbol rule.
pub proof fn law_symbol_rule_matches_ticker_in_any_case(a: Asset, q: Seq<char>, base: Seq<char>, mic: Option<Seq<char>>, code: String)
    requires
        a.display_code == Some(code) || a.instrument_symbol == Some(code),
        trim(code@).len() == trim(q).len(),
        forall|i: int| 0 <= i < trim(q).len() ==> ascii_lower_code(#[trigger] trim(code@)[i]) == ascii_lower_code(trim(q)[i]),
    ensures
        rule_matches(MatchRule::Symbol, a, q, base, mic),
{
}

fn opt_str(s: &Option<String>) -> (r: Option<&str>)
    ensures
        r is Some == s is Some,
        r is Some ==> r.unwrap()@ == s.unwrap()@,
{
    match s {
        Some(x) => Some(x.as_str()),
        None => None,
    }
}

fn symbol_mic_holds(a: &Asset, nq: &str) -> (r: bool)
    ensures
        r == symbol_mic_matches(*a, nq@),
{
    if a.display_code.is_none() && a.instrument_symbol.is_none() {
        return false;
    }
    match &a.instrument_exchange_mic {
        Some(mic) => {
            let mut c1 = String::from_str(code_of(a));
            c1.append(" ");
            c1.append(mic.as_str());
            let mut c2 = String::from_str(code_of(a));
            c2.append(" ");
            c2.append(mic.as_str());
            c2.append(" ");
            c2.append(a.quote_ccy.as_str());
            let n1 = normalize_lookup(c1.as_str());
            let n2 = normalize_lookup(c2.as_str());
            crate::model::str_eq(n1.as_str(), nq) || crate::model::str_eq(n2.as_str(), nq)
        },
        None => false,
    }
}

fn rule_holds(rule: MatchRule, a: &Asset, q: &str, base: &str, mic: Option<&str>, nq: &str) -> (r: bool)
    requires
        nq@ == spec_normalize_lookup(q@),
    ensures
        r == rule_matches(rule, *a, q@, base@, match mic { Some(m) => Some(m@), None => None }),
{
    match rule {
        MatchRule::AssetId => eq_ignore_ascii_case(a.id.as_str(), q),
        MatchRule::Symbol => option_eq_ignore_ascii_case(opt_str(&a.display_code), q)
            || option_eq_ignore_ascii_case(opt_str(&a.instrument_symbol), q),
        MatchRule::ProviderSuffix => match mic {
            Some(m) => (option_eq_ignore_ascii_case(opt_str(&a.display_code), base)
                || option_eq_ignore_ascii_case(opt_str(&a.instrument_symbol), base))
                && option_eq_ignore_ascii_case(opt_str(&a.instrument_exchange_mic), m),
            None => false,
        },
        MatchRule::SymbolExchangeMic => symbol_mic_holds(a, nq),
        MatchRule::Name => match &a.name {
            Some(n) => {
                let nn = normalize_lookup(n.as_str());
                crate::model::str_eq(nn.as_str(), nq)
            },
            None => false,
        },
        MatchRule::Label => {
            let l1 = normalize_lookup(asset_label(a).as_str());
            let l2 = normalize_lookup(asset_candidate_label(a).as_str());
            crate::model::str_eq(l1.as_str(), nq) || crate::model::str_eq(l2.as_str(), nq)
        },
        MatchRule::NameFuzzy => match &a.name {
            Some(n) => {
                let nn = normalize_lookup(n.as_str());
                contains_text(nn.as_str(), nq)
            },
            None => false,
        },
    }
}

/// The assets that match under a rule, in order.
pub open spec fn matched_by(assets: Seq<Asset>, rule: MatchRule, q: Seq<char>, base: Seq<char>, mic: Option<Seq<char>>) -> Seq<Asset> {
    assets.filter(|a: Asset| rule_matches(rule, a, q, base, mic))
}

/// The outcome of matching under one rule.
pub enum UniqueAssetMatch {
    Unmatched,
    One(Asset),
    /// The first eight of the matching assets.
    Ambiguous(Vec<Asset>),
}

/// No match, one match, or the first eight of several matches.
pub open spec fn unique_ok(r: UniqueAssetMatch, matched: Seq<Asset>) -> bool {
    match r {
        UniqueAssetMatch::Unmatched => matched.len() == 0,
        UniqueAssetMatch::One(a) => matched.len() == 1 && a == matched[0],
        UniqueAssetMatch::Ambiguous(v) => matched.len() > 1 && v@ == matched.take(if matched.len() < 8 { matched.len() as int } else { 8 }),
    }
}

/// The assets that match a query under a rule: none, exactly one, or several (of which
/// the first eight are kept).
pub fn unique_by_result(assets: &Vec<Asset>, rule: MatchRule, q: &str, base: &str, mic: Option<&str>) -> (r: UniqueAssetMatch)
    ensures
        unique_ok(r, matched_by(assets@, rule, q@, base@, match mic { Some(m) => Some(m@), None => None })),
{
    let ghost gm = match mic { Some(m) => Some(m@), None => None::<Seq<char>> };
    let ghost pred = |a: Asset| rule_matches(rule, a, q@, base@, gm);
    let nq = normalize_lookup(q);
    let mut found: Vec<Asset> = Vec::new();
    let mut k: usize = 0;
    proof {
        assert(assets@.subrange(0, 0) =~= Seq::<Asset>::empty());
        reveal(Seq::filter);
    }
    while k < assets.len()
        invariant
            k <= assets@.len(),
            nq@ == spec_normalize_lookup(q@),
            gm == (match mic { Some(m) => Some(m@), None => None::<Seq<char>> }),
            pred == (|a: Asset| rule_matches(rule, a, q@, base@, gm)),
            found@ == assets@.subrange(0, k as int).filter(pred),
        decreases assets@.len() - k,
    {
        let a = &assets[k];
        proof {
            assert(assets@.subrange(0, k + 1) =~= assets@.subrange(0, k as int).push(assets@[k as int]));
            assets@.subrange(0, k as int).lemma_filter_push(assets@[k as int], pred);
        }
        if rule_holds(rule, a, q, base, mic, nq.as_str()) {
            found.push(clone_asset(a));
        }
        k = k + 1;
    }
    proof {
        assert(assets@.subrange(0, assets@.len() as int) =~= assets@);
        assert(matched_by(assets@, rule, q@, base@, gm) == assets@.filter(pred));
    }
    if found.len() == 0 {
        UniqueAssetMatch::Unmatched
    } else if found.len() == 1 {
        UniqueAssetMatch::One(clone_asset(&found[0]))
    } else {
        let lim: usize = if found.len() < 8 { found.len() } else { 8 };
        let mut first: Vec<Asset> = Vec::new();
        let mut j: usize = 0;
        while j < lim
            invariant
                j <= lim,
                lim <= found@.len(),
                first@ == found@.take(j as int),
            decreases lim - j,
        {
            first.push(clone_asset(&found[j]));
            proof {
                assert(found@.take(j + 1) =~= found@.take(j as int).push(found@[j as int]));
            }
            j = j + 1;
        }
        UniqueAssetMatch::Ambiguous(first)
    }
}


/// The rules in the order they are tried.
pub open spec fn match_rules() -> Seq<MatchRule> {
    seq![MatchRule::AssetId, MatchRule::Symbol, MatchRule::ProviderSuffix, MatchRule::SymbolExchangeMic,
        MatchRule::Name, MatchRule::Label, MatchRule::NameFuzzy]
}

fn rule_at(k: usize) -> (r: MatchRule)
    requires
        k < 7,
    ensures
        r == match_rules()[k as int],
{
    if k == 0 {
        MatchRule::AssetId
    } else if k == 1 {
        MatchRule::Symbol
    } else if k == 2 {
        MatchRule::ProviderSuffix
    } else if k == 3 {
        MatchRule::SymbolExchangeMic
    } else if k == 4 {
        MatchRule::Name
    } else if k == 5 {
        MatchRule::Label
    } else {
        MatchRule::NameFuzzy
    }
}

/// The first rule, from the `k`-th on, under which some asset matches.
pub open spec fn first_matching_rule(active: Seq<Asset>, q: Seq<char>, base: Seq<char>, mic: Option<Seq<char>>, k: nat) -> Option<nat>
    decreases 7 - k,
{
    if k >= 7 {
        None
    } else if matched_by(active, match_rules()[k as int], q, base, mic).len() > 0 {
        Some(k)
    } else {
        first_matching_rule(active, q, base, mic, k + 1)
    }
}

/// An asset the query resolved to, and the rule it matched by.
pub struct ResolvedAsset {
    pub asset: Asset,
    pub matched_by: String,
}

/// What a query resolves to among the active assets.
pub enum ActiveAssetResolution {
    Resolved(ResolvedAsset),
    /// The first eight of the assets that match equally well.
    Ambiguous(Vec<Asset>),
    NotFound(String),
}

/// The active assets.
pub open spec fn active_assets(assets: Seq<Asset>) -> Seq<Asset> {
    assets.filter(|a: Asset| a.is_active)
}

/// The rules are tried in order on the active assets; the first under which some asset
/// matches decides: one match resolves, several are ambiguous (the first eight are
/// kept). When none matches, the query is not found.
pub open spec fn resolution_ok(r: ActiveAssetResolution, assets: Seq<Asset>, q: Seq<char>) -> bool {
    let active = active_assets(assets);
    let split = spec_split_suffix(q);
    match first_matching_rule(active, q, split.0, split.1, 0) {
        None => r matches ActiveAssetResolution::NotFound(s) && s@ == q,
        Some(k) => {
            let m = matched_by(active, match_rules()[k as int], q, split.0, split.1);
            if m.len() == 1 {
                r matches ActiveAssetResolution::Resolved(ra) && ra.asset == m[0] && ra.matched_by@
                    == match_rules()[k as int].spec_name()
            } else {
                r matches ActiveAssetResolution::Ambiguous(v) && v@ == m.take(if m.len() < 8 { m.len() as int } else { 8 })
            }
        },
    }
}

proof fn lemma_first_rule_skip(active: Seq<Asset>, q: Seq<char>, base: Seq<char>, mic: Option<Seq<char>>, k: nat)
    requires
        k <= 7,
        forall|j: int| 0 <= j < k ==> matched_by(active, #[trigger] match_rules()[j], q, base, mic).len() == 0,
    ensures
        first_matching_rule(active, q, base, mic, 0) == first_matching_rule(active, q, base, mic, k),
    decreases k,
{
    if k > 0 {
        lemma_first_rule_skip(active, q, base, mic, (k - 1) as nat);
        assert(matched_by(active, match_rules()[k - 1], q, base, mic).len() == 0);
    }
}

/// Resolves a (trimmed) query among assets.
pub fn resolve_among(assets: &Vec<Asset>, q: &str) -> (r: ActiveAssetResolution)
    ensures
        resolution_ok(r, assets@, q@),
{
    let ghost pred = |a: Asset| a.is_active;
    let mut active: Vec<Asset> = Vec::new();
    let mut i: usize = 0;
    proof {
        assert(assets@.subrange(0, 0) =~= Seq::<Asset>::empty());
        reveal(Seq::filter);
    }
    while i < assets.len()
        invariant
            i <= assets@.len(),
            pred == (|a: Asset| a.is_active),
            active@ == assets@.subrange(0, i as int).filter(pred),
        decreases assets@.len() - i,
    {
        proof {
            assert(assets@.subrange(0, i + 1) =~= assets@.subrange(0, i as int).push(assets@[i as int]));
            assets@.subrange(0, i as int).lemma_filter_push(assets@[i as int], pred);
        }
        if assets[i].is_active {
            active.push(clone_asset(&assets[i]));
        }
        i = i + 1;
    }
    proof {
        assert(assets@.subrange(0, assets@.len() as int) =~= assets@);
        assert(active@ == active_assets(assets@));
    }
    let (base, mic) = parse_symbol_with_exchange_suffix(q);
    let mic_ref: Option<&str> = match &mic {
        Some(m) => Some(m.as_str()),
        None => None,
    };
    let ghost split = spec_split_suffix(q@);
    proof {
        assert(base@ == split.0);
        assert((match mic_ref { Some(m) => Some(m@), None => None::<Seq<char>> }) == split.1);
    }
    let mut k: usize = 0;
    while k < 7
        invariant
            k <= 7,
            active@ == active_assets(assets@),
            base@ == split.0,
            (match mic_ref { Some(m) => Some(m@), None => None::<Seq<char>> }) == split.1,
            split == spec_split_suffix(q@),
            forall|j: int| 0 <= j < k ==> matched_by(active@, #[trigger] match_rules()[j], q@, split.0, split.1).len() == 0,
        decreases 7 - k,
    {
        let rule = rule_at(k);
        proof {
            lemma_first_rule_skip(active@, q@, split.0, split.1, k as nat);
        }
        match unique_by_result(&active, rule, q, base.as_str(), mic_ref) {
            UniqueAssetMatch::One(a) => {
                return ActiveAssetResolution::Resolved(ResolvedAsset { asset: a, matched_by: String::from_str(rule.name()) });
            },
            UniqueAssetMatch::Ambiguous(v) => {
                return ActiveAssetResolution::Ambiguous(v);
            },
            UniqueAssetMatch::Unmatched => {},
        }
        k = k + 1;
    }
    proof {
        lemma_first_rule_skip(active@, q@, split.0, split.1, 7);
    }
    ActiveAssetResolution::NotFound(String::from_str(q))
}

/// Resolves a query among the active assets of the environment. A blank query is an
/// error, raised before any asset is read.
pub fn resolve_active_asset_match<E: AiEnvironment>(env: &Arc<E>, asset_query: &str) -> (r: Result<ActiveAssetResolution, AiError>)
    ensures
        trim(asset_query@).len() == 0 ==> (r matches Err(e) && is_invalid(e, "assetQuery is required"@)),
        trim(asset_query@).len() > 0 ==> (r matches Err(e) ==> e is Service),
        r matches Ok(res) ==> exists|assets: Seq<Asset>| #[trigger] resolution_ok(res, assets, trim(asset_query@))
            && read_assets(**env, assets),
{
    let q = trim_string(asset_query);
    if q.as_str().unicode_len() == 0 {
        return Err(AiError::invalid_input(String::from_str("assetQuery is required")));
    }
    let read = env.get_assets();
    let ghost read0 = read;
    let r = resolve_read(read, q.as_str());
    proof {
        if r is Ok {
            let v = read0->Ok_0;
            assert((**env).assets_answer(Ok(v)));
            assert(resolution_ok(r->Ok_0, v@, trim(asset_query@)) && read_assets(**env, v@));
        }
    }
    r
}

/// Resolves a trimmed query among the assets that a read of the environment gave; a
/// failed read is a service error.
pub fn resolve_read(read: Result<Vec<Asset>, Error>, q: &str) -> (r: Result<ActiveAssetResolution, AiError>)
    ensures
        read matches Ok(assets) ==> (r matches Ok(res) && resolution_ok(res, assets@, q@)),
        read matches Err(e) ==> (r matches Err(x) && x matches AiError::Service(m) && m@ == e.spec_message()),
{
    match read {
        Ok(assets) => Ok(resolve_among(&assets, q)),
        Err(e) => Err(AiError::from_service(&e)),
    }
}


// ── Proposals ────────────────────────────────────────────────────────────────

/// Index of the last category with the id: the one a lookup by id finds.
pub open spec fn last_category(cats: Seq<Category>, id: Seq<char>) -> Option<int> {
    if exists|i: int| 0 <= i < cats.len() && (#[trigger] cats[i]).id@ == id {
        Some(choose|i: int| 0 <= i < cats.len() && (#[trigger] cats[i]).id@ == id && forall|j: int| i < j < cats.len() ==> (#[trigger] cats[j]).id@ != id)
    } else {
        None
    }
}

/// Finds the last category with the id.
pub fn find_category(cats: &Vec<Category>, id: &str) -> (r: Option<usize>)
    ensures
        match r {
            Some(i) => last_category(cats@, id@) == Some(i as int) && i < cats@.len() && cats@[i as int].id@ == id@,
            None => last_category(cats@, id@) is None,
        },
{
    let mut k: usize = cats.len();
    while k > 0
        invariant
            k <= cats@.len(),
            forall|j: int| k <= j < cats@.len() ==> (#[trigger] cats@[j]).id@ != id@,
        decreases k,
    {
        k = k - 1;
        if crate::model::str_eq(cats[k].id.as_str(), id) {
            proof {
                let c = choose|i: int| 0 <= i < cats@.len() && (#[trigger] cats@[i]).id@ == id@ && forall|j: int| i < j < cats@.len() ==> (#[trigger] cats@[j]).id@ != id@;
                assert(c == k) by {
                    if c < k {
                        assert(cats@[k as int].id@ != id@);
                    }
                    if c > k {
                        assert(cats@[c].id@ != id@);
                    }
                }
            }
            return Some(k);
        }
    }
    None
}

/// An earlier proposed assignment with a weight names the same category.
pub open spec fn repeats_category(asg: Seq<PreparedAssignmentInput>, i: int) -> bool {
    exists|j: int| 0 <= j < i && asg[j].weight_basis_points > 0 && (#[trigger] asg[j]).category_id@ == asg[i].category_id@
}

/// What is wrong with the `i`-th proposed assignment, given that the earlier ones are
/// fine: a weight out of range, a missing source label, a category outside the
/// taxonomy, a residual bucket mapped to a real category, or a repeated category.
/// Zero weights are only range-checked.
pub open spec fn entry_error(cats: Seq<Category>, asg: Seq<PreparedAssignmentInput>, i: int) -> Option<Seq<char>> {
    let a = asg[i];
    let label = trim(a.source_label@);
    if a.weight_basis_points < 0 || a.weight_basis_points > 10000 {
        Some("Weight for category '"@ + a.category_id@ + "' must be between 0 and 10000 basis points"@)
    } else if a.weight_basis_points == 0 {
        None
    } else if label.len() == 0 {
        Some("sourceLabel is required for category '"@ + a.category_id@ + "'"@)
    } else {
        match last_category(cats, a.category_id@) {
            None => Some("Category '"@ + a.category_id@ + "' does not belong to the selected taxonomy"@),
            Some(ci) => if residual_label(spec_normalize_category_label(label)) && !category_matches_label(cats[ci], label) {
                Some("Residual bucket '"@ + label + "' cannot be mapped to category '"@ + cats[ci].name@
                    + "'. Omit that bucket so it remains unallocated."@)
            } else if repeats_category(asg, i) {
                Some("Duplicate category ID '"@ + a.category_id@ + "'"@)
            } else {
                None
            },
        }
    }
}

/// The error of the first faulty assignment among the first `k`.
pub open spec fn first_entry_error(cats: Seq<Category>, asg: Seq<PreparedAssignmentInput>, k: int) -> Option<Seq<char>>
    decreases k,
{
    if k <= 0 {
        None
    } else {
        match first_entry_error(cats, asg, k - 1) {
            Some(m) => Some(m),
            None => entry_error(cats, asg, k - 1),
        }
    }
}

/// The assignments with a positive weight.
pub open spec fn weighted(asg: Seq<PreparedAssignmentInput>) -> Seq<PreparedAssignmentInput> {
    asg.filter(|a: PreparedAssignmentInput| a.weight_basis_points > 0)
}

/// Why a proposal is refused, if it is: the first faulty assignment; or, for a
/// single-select taxonomy, more than one weighted category or one short of 10000.
pub open spec fn proposal_error(single: bool, cats: Seq<Category>, asg: Seq<PreparedAssignmentInput>) -> Option<Seq<char>> {
    match first_entry_error(cats, asg, asg.len() as int) {
        Some(m) => Some(m),
        None => if single && weighted(asg).len() > 1 {
            Some("Single-select taxonomies allow only one category"@)
        } else if single && weighted(asg).len() == 1 && weighted(asg)[0].weight_basis_points != 10000 {
            Some("Single-select taxonomies require 10000 basis points"@)
        } else {
            None
        },
    }
}

fn repeats_earlier(asg: &Vec<PreparedAssignmentInput>, i: usize) -> (r: bool)
    requires
        i < asg@.len(),
    ensures
        r == repeats_category(asg@, i as int),
{
    let mut j: usize = 0;
    while j < i
        invariant
            j <= i,
            i < asg@.len(),
            forall|q: int| 0 <= q < j ==> !(asg@[q].weight_basis_points > 0 && (#[trigger] asg@[q]).category_id@ == asg@[i as int].category_id@),
        decreases i - j,
    {
        if asg[j].weight_basis_points > 0 && crate::model::str_eq(asg[j].category_id.as_str(), asg[i].category_id.as_str()) {
            return true;
        }
        j = j + 1;
    }
    false
}

/// Checks that a residual bucket label is not mapped to a category with another name.
pub fn validate_source_label_mapping(a: &PreparedAssignmentInput, category: &Category) -> (r: Result<(), AiError>)
    ensures
        ({
            let label = trim(a.source_label@);
            if !residual_label(spec_normalize_category_label(label)) || category_matches_label(*category, label) {
                r is Ok
            } else {
                r matches Err(e) && is_invalid(e, "Residual bucket '"@ + label + "' cannot be mapped to category '"@
                    + category.name@ + "'. Omit that bucket so it remains unallocated."@)
            }
        }),
{
    let label = trim_string(a.source_label.as_str());
    if !is_residual_bucket_label(label.as_str()) || category_matches_source_label(category, label.as_str()) {
        return Ok(());
    }
    let mut m = String::from_str("Residual bucket '");
    m.append(label.as_str());
    m.append("' cannot be mapped to category '");
    m.append(category.name.as_str());
    m.append("'. Omit that bucket so it remains unallocated.");
    Err(AiError::invalid_input(m))
}

#[verifier::spinoff_prover]
#[verifier::rlimit(40)]
fn entry_check(cats: &Vec<Category>, asg: &Vec<PreparedAssignmentInput>, i: usize) -> (r: Result<(), AiError>)
    requires
        i < asg@.len(),
    ensures
        match entry_error(cats@, asg@, i as int) {
            None => r is Ok,
            Some(m) => r matches Err(e) && is_invalid(e, m),
        },
{
    let a = &asg[i];
    if a.weight_basis_points < 0 || a.weight_basis_points > 10000 {
        let mut m = String::from_str("Weight for category '");
        m.append(a.category_id.as_str());
        m.append("' must be between 0 and 10000 basis points");
        return Err(AiError::invalid_input(m));
    }
    if a.weight_basis_points == 0 {
        return Ok(());
    }
    let label = trim_string(a.source_label.as_str());
    if label.as_str().unicode_len() == 0 {
        let mut m = String::from_str("sourceLabel is required for category '");
        m.append(a.category_id.as_str());
        m.append("'");
        return Err(AiError::invalid_input(m));
    }
    let ci = match find_category(cats, a.category_id.as_str()) {
        Some(ci) => ci,
        None => {
            let mut m = String::from_str("Category '");
            m.append(a.category_id.as_str());
            m.append("' does not belong to the selected taxonomy");
            return Err(AiError::invalid_input(m));
        },
    };
    match validate_source_label_mapping(a, &cats[ci]) {
        Ok(()) => {},
        Err(e) => return Err(e),
    }
    if repeats_earlier(asg, i) {
        let mut m = String::from_str("Duplicate category ID '");
        m.append(a.category_id.as_str());
        m.append("'");
        return Err(AiError::invalid_input(m));
    }
    Ok(())
}

/// Checks a proposal against the taxonomy and its selection rule.
pub fn validate_proposed_assignments(is_single_select: bool, cats: &Vec<Category>, asg: &Vec<PreparedAssignmentInput>) -> (r: Result<(), AiError>)
    ensures
        match proposal_error(is_single_select, cats@, asg@) {
            None => r is Ok,
            Some(m) => r matches Err(e) && is_invalid(e, m),
        },
{
    let mut i: usize = 0;
    while i < asg.len()
        invariant
            i <= asg@.len(),
            first_entry_error(cats@, asg@, i as int) is None,
        decreases asg@.len() - i,
    {
        match entry_check(cats, asg, i) {
            Ok(()) => {},
            Err(e) => {
                proof {
                    lemma_first_entry_error_stays(cats@, asg@, i + 1, asg@.len() as int);
                }
                return Err(e);
            },
        }
        i = i + 1;
    }
    if is_single_select {
        let ghost pred = |a: PreparedAssignmentInput| a.weight_basis_points > 0;
        let mut count: usize = 0;
        let mut first_weight: i32 = 0;
        let mut k: usize = 0;
        proof {
            reveal(Seq::filter);
            assert(asg@.subrange(0, 0) =~= Seq::<PreparedAssignmentInput>::empty());
        }
        while k < asg.len()
            invariant
                k <= asg@.len(),
                pred == (|a: PreparedAssignmentInput| a.weight_basis_points > 0),
                count == asg@.subrange(0, k as int).filter(pred).len(),
                count > 0 ==> first_weight == asg@.subrange(0, k as int).filter(pred)[0].weight_basis_points,
                count <= k,
            decreases asg@.len() - k,
        {
            proof {
                assert(asg@.subrange(0, k + 1) =~= asg@.subrange(0, k as int).push(asg@[k as int]));
                asg@.subrange(0, k as int).lemma_filter_push(asg@[k as int], pred);
            }
            if asg[k].weight_basis_points > 0 {
                if count == 0 {
                    first_weight = asg[k].weight_basis_points;
                }
                count = count + 1;
            }
            k = k + 1;
        }
        proof {
            assert(asg@.subrange(0, asg@.len() as int) =~= asg@);
        }
        if count > 1 {
            return Err(AiError::invalid_input(String::from_str("Single-select taxonomies allow only one category")));
        }
        if count == 1 && first_weight != 10000 {
            return Err(AiError::invalid_input(String::from_str("Single-select taxonomies require 10000 basis points")));
        }
    }
    Ok(())
}

proof fn lemma_first_entry_error_stays(cats: Seq<Category>, asg: Seq<PreparedAssignmentInput>, k: int, n: int)
    requires
        0 <= k <= n,
        first_entry_error(cats, asg, k) is Some,
    ensures
        first_entry_error(cats, asg, n) == first_entry_error(cats, asg, k),
    decreases n - k,
{
    if k < n {
        lemma_first_entry_error_stays(cats, asg, k + 1, n);
    }
}


// ── Changes of a proposal ────────────────────────────────────────────────────

/// Index of the last current assignment in the category: the one a lookup finds.
pub open spec fn last_in_category(cur: Seq<AssignmentPreviewDto>, id: Seq<char>) -> Option<int> {
    if exists|i: int| 0 <= i < cur.len() && (#[trigger] cur[i]).category_id@ == id {
        Some(choose|i: int| 0 <= i < cur.len() && (#[trigger] cur[i]).category_id@ == id && forall|j: int| i < j < cur.len() ==> (#[trigger] cur[j]).category_id@ != id)
    } else {
        None
    }
}

/// How a proposed assignment changes the current ones: 0 adds a category, 1 updates
/// one whose weight differs or that was not set by the assistant, 2 leaves it as is.
pub open spec fn change_kind(p: AssignmentPreviewDto, cur: Seq<AssignmentPreviewDto>) -> int {
    match last_in_category(cur, p.category_id@) {
        None => 0,
        Some(i) => if cur[i].weight_basis_points != p.weight_basis_points || cur[i].source@ != "ai"@ { 1 } else { 2 },
    }
}

/// How many of the first `k` proposed assignments are of the kind.
pub open spec fn count_kind(proposed: Seq<AssignmentPreviewDto>, cur: Seq<AssignmentPreviewDto>, kind: int, k: int) -> nat
    decreases k,
{
    if k <= 0 {
        0
    } else {
        count_kind(proposed, cur, kind, k - 1) + if change_kind(proposed[k - 1], cur) == kind { 1nat } else { 0nat }
    }
}

/// Some proposed assignment is in the category.
pub open spec fn proposes(proposed: Seq<AssignmentPreviewDto>, id: Seq<char>) -> bool {
    exists|j: int| 0 <= j < proposed.len() && (#[trigger] proposed[j]).category_id@ == id
}

/// How many of the first `k` current assignments no proposed one keeps.
pub open spec fn count_removed(cur: Seq<AssignmentPreviewDto>, proposed: Seq<AssignmentPreviewDto>, k: int) -> nat
    decreases k,
{
    if k <= 0 {
        0
    } else {
        count_removed(cur, proposed, k - 1) + if !proposes(proposed, cur[k - 1].category_id@) { 1nat } else { 0nat }
    }
}

/// The counts of a proposal's changes against the current assignments.
pub open spec fn changes_ok(ch: ClassificationChangesDto, cur: Seq<AssignmentPreviewDto>, proposed: Seq<AssignmentPreviewDto>) -> bool {
    &&& ch.add_count == count_kind(proposed, cur, 0, proposed.len() as int)
    &&& ch.update_count == count_kind(proposed, cur, 1, proposed.len() as int)
    &&& ch.unchanged_count == count_kind(proposed, cur, 2, proposed.len() as int)
    &&& ch.remove_count == count_removed(cur, proposed, cur.len() as int)
}

fn last_current(cur: &Vec<AssignmentPreviewDto>, id: &str) -> (r: Option<usize>)
    ensures
        match r {
            Some(i) => last_in_category(cur@, id@) == Some(i as int) && i < cur@.len() && cur@[i as int].category_id@ == id@,
            None => last_in_category(cur@, id@) is None,
        },
{
    let mut k: usize = cur.len();
    while k > 0
        invariant
            k <= cur@.len(),
            forall|j: int| k <= j < cur@.len() ==> (#[trigger] cur@[j]).category_id@ != id@,
        decreases k,
    {
        k = k - 1;
        if crate::model::str_eq(cur[k].category_id.as_str(), id) {
            proof {
                let c = choose|i: int| 0 <= i < cur@.len() && (#[trigger] cur@[i]).category_id@ == id@ && forall|j: int| i < j < cur@.len() ==> (#[trigger] cur@[j]).category_id@ != id@;
                assert(c == k) by {
                    if c < k {
                        assert(cur@[k as int].category_id@ != id@);
                    }
                    if c > k {
                        assert(cur@[c].category_id@ != id@);
                    }
                }
            }
            return Some(k);
        }
    }
    None
}

fn any_proposed(proposed: &Vec<AssignmentPreviewDto>, id: &str) -> (r: bool)
    ensures
        r == proposes(proposed@, id@),
{
    let mut k: usize = 0;
    while k < proposed.len()
        invariant
            k <= proposed@.len(),
            forall|j: int| 0 <= j < k ==> (#[trigger] proposed@[j]).category_id@ != id@,
        decreases proposed@.len() - k,
    {
        if crate::model::str_eq(proposed[k].category_id.as_str(), id) {
            return true;
        }
        k = k + 1;
    }
    false
}

/// Counts what a proposal adds, updates, keeps and removes against the current
/// assignments.
#[verifier::spinoff_prover]
pub fn compute_changes(current: &Vec<AssignmentPreviewDto>, proposed: &Vec<AssignmentPreviewDto>) -> (ch: ClassificationChangesDto)
    ensures
        changes_ok(ch, current@, proposed@),
{
    let mut ch = ClassificationChangesDto { add_count: 0, update_count: 0, remove_count: 0, unchanged_count: 0 };
    let mut k: usize = 0;
    while k < proposed.len()
        invariant
            k <= proposed@.len(),
            ch.add_count == count_kind(proposed@, current@, 0, k as int),
            ch.update_count == count_kind(proposed@, current@, 1, k as int),
            ch.unchanged_count == count_kind(proposed@, current@, 2, k as int),
            ch.add_count + ch.update_count + ch.unchanged_count == k,
            ch.remove_count == 0,
        decreases proposed@.len() - k,
    {
        let p = &proposed[k];
        let ghost kind = change_kind(proposed@[k as int], current@);
        proof {
            assert(count_kind(proposed@, current@, 0, k + 1) == count_kind(proposed@, current@, 0, k as int) + if kind == 0 { 1nat } else { 0nat });
            assert(count_kind(proposed@, current@, 1, k + 1) == count_kind(proposed@, current@, 1, k as int) + if kind == 1 { 1nat } else { 0nat });
            assert(count_kind(proposed@, current@, 2, k + 1) == count_kind(proposed@, current@, 2, k as int) + if kind == 2 { 1nat } else { 0nat });
        }
        match last_current(current, p.category_id.as_str()) {
            None => {
                ch.add_count = ch.add_count + 1;
            },
            Some(i) => {
                if current[i].weight_basis_points != p.weight_basis_points || !crate::model::str_eq(current[i].source.as_str(), "ai") {
                    ch.update_count = ch.update_count + 1;
                } else {
                    ch.unchanged_count = ch.unchanged_count + 1;
                }
            },
        }
        k = k + 1;
    }
    let mut j: usize = 0;
    while j < current.len()
        invariant
            j <= current@.len(),
            ch.add_count == count_kind(proposed@, current@, 0, proposed@.len() as int),
            ch.update_count == count_kind(proposed@, current@, 1, proposed@.len() as int),
            ch.unchanged_count == count_kind(proposed@, current@, 2, proposed@.len() as int),
            ch.remove_count == count_removed(current@, proposed@, j as int),
            ch.remove_count <= j,
        decreases current@.len() - j,
    {
        if !any_proposed(proposed, current[j].category_id.as_str()) {
            ch.remove_count = ch.remove_count + 1;
        }
        j = j + 1;
    }
    ch
}

proof fn lemma_count_kinds(proposed: Seq<AssignmentPreviewDto>, cur: Seq<AssignmentPreviewDto>, k: int)
    requires
        0 <= k <= proposed.len(),
    ensures
        count_kind(proposed, cur, 0, k) + count_kind(proposed, cur, 1, k) + count_kind(proposed, cur, 2, k) == k,
    decreases k,
{
    if k > 0 {
        lemma_count_kinds(proposed, cur, k - 1);
    }
}

/// Every proposed assignment is counted once: as an addition, an update or unchanged.
pub proof fn law_changes_partition_proposal(ch: ClassificationChangesDto, cur: Seq<AssignmentPreviewDto>, proposed: Seq<AssignmentPreviewDto>)
    requires
        changes_ok(ch, cur, proposed),
    ensures
        ch.add_count + ch.update_count + ch.unchanged_count == proposed.len(),
{
    lemma_count_kinds(proposed, cur, proposed.len() as int);
}

proof fn lemma_removed_bound(cur: Seq<AssignmentPreviewDto>, proposed: Seq<AssignmentPreviewDto>, k: int)
    requires
        0 <= k <= cur.len(),
    ensures
        count_removed(cur, proposed, k) <= k,
    decreases k,
{
    if k > 0 {
        lemma_removed_bound(cur, proposed, k - 1);
    }
}

/// A proposal never removes more assignments than there are.
pub proof fn law_removals_bounded(ch: ClassificationChangesDto, cur: Seq<AssignmentPreviewDto>, proposed: Seq<AssignmentPreviewDto>)
    requires
        changes_ok(ch, cur, proposed),
    ensures
        ch.remove_count <= cur.len(),
{
    lemma_removed_bound(cur, proposed, cur.len() as int);
}

/// The categories of the assignments are all different.
pub open spec fn distinct_categories(s: Seq<AssignmentPreviewDto>) -> bool {
    forall|i: int, j: int| 0 <= i < j < s.len() ==> (#[trigger] s[i]).category_id@ != (#[trigger] s[j]).category_id@
}

/// Proposing again exactly the current assignments, when the assistant set them all and
/// no category repeats, changes nothing.
pub proof fn law_same_proposal_changes_nothing(ch: ClassificationChangesDto, cur: Seq<AssignmentPreviewDto>)
    requires
        changes_ok(ch, cur, cur),
        distinct_categories(cur),
        forall|i: int| 0 <= i < cur.len() ==> (#[trigger] cur[i]).source@ == "ai"@,
    ensures
        ch.add_count == 0,
        ch.update_count == 0,
        ch.remove_count == 0,
        ch.unchanged_count == cur.len(),
{
    assert forall|k: int| 0 <= k < cur.len() implies change_kind(#[trigger] cur[k], cur) == 2 by {
        assert(exists|i: int| 0 <= i < cur.len() && (#[trigger] cur[i]).category_id@ == cur[k].category_id@);
        let i = last_in_category(cur, cur[k].category_id@).unwrap();
        if i != k {
            if i < k {
                assert(cur[i].category_id@ != cur[k].category_id@);
            } else {
                assert(cur[k].category_id@ != cur[i].category_id@);
            }
        }
    }
    lemma_same_counts(cur, cur.len() as int);
    lemma_none_removed(cur, cur.len() as int);
}

proof fn lemma_same_counts(cur: Seq<AssignmentPreviewDto>, k: int)
    requires
        0 <= k <= cur.len(),
        forall|q: int| 0 <= q < cur.len() ==> change_kind(#[trigger] cur[q], cur) == 2,
    ensures
        count_kind(cur, cur, 0, k) == 0,
        count_kind(cur, cur, 1, k) == 0,
        count_kind(cur, cur, 2, k) == k,
    decreases k,
{
    if k > 0 {
        lemma_same_counts(cur, k - 1);
        assert(change_kind(cur[k - 1], cur) == 2);
    }
}

proof fn lemma_none_removed(cur: Seq<AssignmentPreviewDto>, k: int)
    requires
        0 <= k <= cur.len(),
    ensures
        count_removed(cur, cur, k) == 0,
    decreases k,
{
    if k > 0 {
        lemma_none_removed(cur, k - 1);
        assert(proposes(cur, cur[k - 1].category_id@));
    }
}


// ── Views of taxonomies and assignments ──────────────────────────────────────

/// The view of a category.
pub open spec fn category_dto_of(c: Category, d: AssetTaxonomyCategoryDto) -> bool {
    &&& d.category_id == c.id
    &&& d.taxonomy_id == c.taxonomy_id
    &&& d.parent_id == c.parent_id
    &&& d.name == c.name
    &&& d.key == c.key
    &&& d.color == c.color
    &&& d.sort_order == c.sort_order
}

/// The view of a category.
pub fn to_category_dto(c: &Category) -> (d: AssetTaxonomyCategoryDto)
    ensures
        category_dto_of(*c, d),
{
    AssetTaxonomyCategoryDto {
        category_id: c.id.clone(),
        taxonomy_id: c.taxonomy_id.clone(),
        parent_id: clone_opt(&c.parent_id),
        name: c.name.clone(),
        key: c.key.clone(),
        color: c.color.clone(),
        sort_order: c.sort_order,
    }
}

/// The categories listed at a depth: all of them, or those without a parent.
pub open spec fn listed_categories(cats: Seq<Category>, depth: CategoryDepth) -> Seq<Category> {
    cats.filter(|c: Category| depth == CategoryDepth::All || c.parent_id is None)
}

/// The view of a taxonomy: its fields, its category count, and the categories listed at
/// the depth when they are asked for.
pub open spec fn taxonomy_dto_of(t: TaxonomyWithCategories, with_categories: bool, depth: CategoryDepth, d: AssetTaxonomyDto) -> bool {
    let sel = if with_categories { listed_categories(t.categories@, depth) } else { Seq::<Category>::empty() };
    &&& d.taxonomy_id == t.taxonomy.id
    &&& d.name == t.taxonomy.name
    &&& d.description == t.taxonomy.description
    &&& d.color == t.taxonomy.color
    &&& d.is_single_select == t.taxonomy.is_single_select
    &&& d.sort_order == t.taxonomy.sort_order
    &&& d.category_count == t.categories@.len()
    &&& d.categories@.len() == sel.len()
    &&& forall|i: int| 0 <= i < sel.len() ==> category_dto_of(sel[i], #[trigger] d.categories@[i])
}

/// The view of a taxonomy.
pub fn to_asset_taxonomy_dto(t: &TaxonomyWithCategories, with_categories: bool, depth: CategoryDepth) -> (d: AssetTaxonomyDto)
    ensures
        taxonomy_dto_of(*t, with_categories, depth, d),
{
    let ghost pred = |c: Category| depth == CategoryDepth::All || c.parent_id is None;
    let mut cats: Vec<AssetTaxonomyCategoryDto> = Vec::new();
    if with_categories {
        let mut k: usize = 0;
        proof {
            reveal(Seq::filter);
            assert(t.categories@.subrange(0, 0) =~= Seq::<Category>::empty());
        }
        while k < t.categories.len()
            invariant
                k <= t.categories@.len(),
                pred == (|c: Category| depth == CategoryDepth::All || c.parent_id is None),
                cats@.len() == t.categories@.subrange(0, k as int).filter(pred).len(),
                forall|i: int| 0 <= i < cats@.len() ==> category_dto_of(t.categories@.subrange(0, k as int).filter(pred)[i], #[trigger] cats@[i]),
            decreases t.categories@.len() - k,
        {
            let c = &t.categories[k];
            proof {
                assert(t.categories@.subrange(0, k + 1) =~= t.categories@.subrange(0, k as int).push(t.categories@[k as int]));
                t.categories@.subrange(0, k as int).lemma_filter_push(t.categories@[k as int], pred);
            }
            if depth == CategoryDepth::All || c.parent_id.is_none() {
                cats.push(to_category_dto(c));
            }
            k = k + 1;
        }
        proof {
            assert(t.categories@.subrange(0, t.categories@.len() as int) =~= t.categories@);
        }
    }
    AssetTaxonomyDto {
        taxonomy_id: t.taxonomy.id.clone(),
        name: t.taxonomy.name.clone(),
        description: clone_opt(&t.taxonomy.description),
        color: t.taxonomy.color.clone(),
        is_single_select: t.taxonomy.is_single_select,
        sort_order: t.taxonomy.sort_order,
        category_count: t.categories.len(),
        categories: cats,
    }
}

/// The view of a resolved asset.
pub open spec fn asset_dto_of(a: Asset, matched_by: Seq<char>, d: ResolvedAssetDto) -> bool {
    &&& d.asset_id == a.id
    &&& d.label@ == spec_asset_label(a)
    &&& d.display_code == a.display_code
    &&& d.symbol == a.instrument_symbol
    &&& d.name == a.name
    &&& d.exchange_mic == a.instrument_exchange_mic
    &&& d.currency == a.quote_ccy
    &&& d.matched_by@ == matched_by
}

/// The view of an asset, with how it matched.
pub fn asset_to_dto(a: &Asset, matched_by: &str) -> (d: ResolvedAssetDto)
    ensures
        asset_dto_of(*a, matched_by@, d),
{
    ResolvedAssetDto {
        asset_id: a.id.clone(),
        label: asset_label(a),
        display_code: clone_opt(&a.display_code),
        symbol: clone_opt(&a.instrument_symbol),
        name: clone_opt(&a.name),
        exchange_mic: clone_opt(&a.instrument_exchange_mic),
        currency: a.quote_ccy.clone(),
        matched_by: String::from_str(matched_by),
    }
}

/// The preview of a current assignment in a category.
pub open spec fn current_preview_of(a: AssetTaxonomyAssignment, c: Category, d: AssignmentPreviewDto) -> bool {
    &&& d.assignment_id == Some(a.id)
    &&& d.category_id == a.category_id
    &&& d.category_name == c.name
    &&& d.category_key == c.key
    &&& d.category_color == c.color
    &&& d.weight_basis_points == a.weight
    &&& d.source == a.source
    &&& d.source_label is None
}

/// The preview of a current assignment, when its category is in the taxonomy.
pub fn current_preview_dto(a: &AssetTaxonomyAssignment, cats: &Vec<Category>) -> (r: Option<AssignmentPreviewDto>)
    ensures
        match last_category(cats@, a.category_id@) {
            None => r is None,
            Some(i) => r matches Some(d) && current_preview_of(*a, cats@[i], d),
        },
{
    match find_category(cats, a.category_id.as_str()) {
        None => None,
        Some(i) => {
            let c = &cats[i];
            Some(AssignmentPreviewDto {
                assignment_id: Some(a.id.clone()),
                category_id: a.category_id.clone(),
                category_name: c.name.clone(),
                category_key: c.key.clone(),
                category_color: c.color.clone(),
                weight_basis_points: a.weight,
                source: a.source.clone(),
                source_label: None,
            })
        },
    }
}

/// The preview of a proposed assignment in a category.
pub open spec fn proposed_preview_of(p: PreparedAssignmentInput, c: Category, d: AssignmentPreviewDto) -> bool {
    &&& d.assignment_id is None
    &&& d.category_id == p.category_id
    &&& d.category_name == c.name
    &&& d.category_key == c.key
    &&& d.category_color == c.color
    &&& d.weight_basis_points == p.weight_basis_points
    &&& d.source@ == "ai"@
    &&& d.source_label == Some(p.source_label)
}

/// The preview of a proposed assignment; an error when its category is not in the
/// taxonomy.
pub fn proposed_preview_dto(p: &PreparedAssignmentInput, cats: &Vec<Category>) -> (r: Result<AssignmentPreviewDto, AiError>)
    ensures
        match last_category(cats@, p.category_id@) {
            None => r matches Err(e) && is_invalid(e, "Category '"@ + p.category_id@ + "' does not belong to the selected taxonomy"@),
            Some(i) => r matches Ok(d) && proposed_preview_of(*p, cats@[i], d),
        },
{
    match find_category(cats, p.category_id.as_str()) {
        None => {
            let mut m = String::from_str("Category '");
            m.append(p.category_id.as_str());
            m.append("' does not belong to the selected taxonomy");
            Err(AiError::invalid_input(m))
        },
        Some(i) => {
            let c = &cats[i];
            Ok(AssignmentPreviewDto {
                assignment_id: None,
                category_id: p.category_id.clone(),
                category_name: c.name.clone(),
                category_key: c.key.clone(),
                category_color: c.color.clone(),
                weight_basis_points: p.weight_basis_points,
                source: String::from_str("ai"),
                source_label: Some(p.source_label.clone()),
            })
        },
    }
}

/// The view of an assignment with its taxonomy and category names.
pub open spec fn assignment_dto_of(a: AssetTaxonomyAssignment, t: TaxonomyWithCategories, c: Category, d: AssetTaxonomyAssignmentDto) -> bool {
    &&& d.assignment_id == a.id
    &&& d.taxonomy_id == a.taxonomy_id
    &&& d.taxonomy_name == t.taxonomy.name
    &&& d.category_id == a.category_id
    &&& d.category_name == c.name
    &&& d.category_key == c.key
    &&& d.weight_basis_points == a.weight
    &&& d.source == a.source
}

/// The pair `(t, c)` is a taxonomy and one of its categories with the ids.
pub open spec fn pair_matches(ts: Seq<TaxonomyWithCategories>, t: int, c: int, tid: Seq<char>, cid: Seq<char>) -> bool {
    0 <= t < ts.len() && 0 <= c < ts[t].categories@.len() && ts[t].taxonomy.id@ == tid && ts[t].categories@[c].id@ == cid
}

/// `(t2, c2)` comes after `(t1, c1)` in the order taxonomies and their categories are
/// listed.
pub open spec fn pair_after(t1: int, c1: int, t2: int, c2: int) -> bool {
    t2 > t1 || (t2 == t1 && c2 > c1)
}

/// The last taxonomy and category with the ids, in listing order: the pair a lookup
/// keyed by both ids finds.
pub open spec fn last_pair(ts: Seq<TaxonomyWithCategories>, tid: Seq<char>, cid: Seq<char>) -> Option<(int, int)> {
    if exists|t: int, c: int| pair_matches(ts, t, c, tid, cid) {
        Some(choose|p: (int, int)| pair_matches(ts, p.0, p.1, tid, cid) && forall|t: int, c: int|
            pair_matches(ts, t, c, tid, cid) ==> !pair_after(p.0, p.1, t, c))
    } else {
        None
    }
}

fn find_pair(ts: &Vec<TaxonomyWithCategories>, tid: &str, cid: &str) -> (r: Option<(usize, usize)>)
    ensures
        match r {
            Some(p) => last_pair(ts@, tid@, cid@) == Some((p.0 as int, p.1 as int)) && pair_matches(ts@, p.0 as int, p.1 as int, tid@, cid@),
            None => last_pair(ts@, tid@, cid@) is None,
        },
{
    let mut t: usize = ts.len();
    while t > 0
        invariant
            t <= ts@.len(),
            forall|t2: int, c2: int| t <= t2 ==> !pair_matches(ts@, t2, c2, tid@, cid@),
        decreases t,
    {
        t = t - 1;
        if crate::model::str_eq(ts[t].taxonomy.id.as_str(), tid) {
            let cats = &ts[t].categories;
            let mut c: usize = cats.len();
            while c > 0
                invariant
                    t < ts@.len(),
                    c <= cats@.len(),
                    cats == ts@[t as int].categories,
                    ts@[t as int].taxonomy.id@ == tid@,
                    forall|t2: int, c2: int| t < t2 ==> !pair_matches(ts@, t2, c2, tid@, cid@),
                    forall|c2: int| c <= c2 ==> !pair_matches(ts@, t as int, c2, tid@, cid@),
                decreases c,
            {
                c = c - 1;
                if crate::model::str_eq(cats[c].id.as_str(), cid) {
                    proof {
                        let w: (int, int) = (t as int, c as int);
                        assert(pair_matches(ts@, w.0, w.1, tid@, cid@));
                        assert forall|t3: int, c3: int| pair_matches(ts@, t3, c3, tid@, cid@) implies !pair_after(w.0, w.1, t3, c3) by {}
                        assert(exists|q: (int, int)| pair_matches(ts@, q.0, q.1, tid@, cid@) && forall|t3: int, c3: int|
                            pair_matches(ts@, t3, c3, tid@, cid@) ==> !pair_after(q.0, q.1, t3, c3));
                        let p = choose|q: (int, int)| pair_matches(ts@, q.0, q.1, tid@, cid@) && forall|t3: int, c3: int|
                            pair_matches(ts@, t3, c3, tid@, cid@) ==> !pair_after(q.0, q.1, t3, c3);
                        assert(pair_matches(ts@, p.0, p.1, tid@, cid@));
                        assert(!pair_after(p.0, p.1, w.0, w.1));
                        assert(!pair_after(w.0, w.1, p.0, p.1));
                        assert(p == w);
                    }
                    return Some((t, c));
                }
            }
        }
    }
    None
}

/// The view of an assignment, when its taxonomy and category are known.
pub fn assignment_dto(a: &AssetTaxonomyAssignment, ts: &Vec<TaxonomyWithCategories>) -> (r: Option<AssetTaxonomyAssignmentDto>)
    ensures
        match last_pair(ts@, a.taxonomy_id@, a.category_id@) {
            None => r is None,
            Some(p) => r matches Some(d) && assignment_dto_of(*a, ts@[p.0], ts@[p.0].categories@[p.1], d),
        },
{
    match find_pair(ts, a.taxonomy_id.as_str(), a.category_id.as_str()) {
        None => None,
        Some((t, c)) => {
            let tax = &ts[t];
            let cat = &tax.categories[c];
            Some(AssetTaxonomyAssignmentDto {
                assignment_id: a.id.clone(),
                taxonomy_id: a.taxonomy_id.clone(),
                taxonomy_name: tax.taxonomy.name.clone(),
                category_id: a.category_id.clone(),
                category_name: cat.name.clone(),
                category_key: cat.key.clone(),
                weight_basis_points: a.weight,
                source: a.source.clone(),
            })
        },
    }
}


// ── Taxonomy selection ───────────────────────────────────────────────────────

/// The taxonomies that classify assets.
pub open spec fn asset_scoped(ts: Seq<TaxonomyWithCategories>) -> Seq<TaxonomyWithCategories> {
    ts.filter(|t: TaxonomyWithCategories| t.taxonomy.scope@ == "asset"@)
}

/// Keeps the taxonomies that classify assets.
pub fn keep_asset_scoped(ts: Vec<TaxonomyWithCategories>) -> (r: Vec<TaxonomyWithCategories>)
    ensures
        r@ == asset_scoped(ts@),
{
    let ghost pred = |t: TaxonomyWithCategories| t.taxonomy.scope@ == "asset"@;
    let mut rest = ts;
    let ghost all = rest@;
    let n = rest.len();
    let mut items: Vec<TaxonomyWithCategories> = Vec::new();
    while rest.len() > 0
        invariant
            all.len() == n,
            rest@.len() + items@.len() == n,
            forall|j: int| 0 <= j < rest@.len() ==> rest@[j] == all[j],
            forall|j: int| 0 <= j < items@.len() ==> items@[j] == #[trigger] all[n - 1 - j],
        decreases rest@.len(),
    {
        let t = rest.pop().unwrap();
        items.push(t);
    }
    let mut out: Vec<TaxonomyWithCategories> = Vec::new();
    proof {
        reveal(Seq::filter);
        assert(all.subrange(0, 0) =~= Seq::<TaxonomyWithCategories>::empty());
    }
    while items.len() > 0
        invariant
            items@.len() <= n,
            all.len() == n,
            pred == (|t: TaxonomyWithCategories| t.taxonomy.scope@ == "asset"@),
            forall|q: int| 0 <= q < items@.len() ==> items@[q] == #[trigger] all[n - 1 - q],
            out@ == all.subrange(0, n - items@.len()).filter(pred),
        decreases items@.len(),
    {
        let ghost m = items@.len();
        let ghost before = items@;
        proof {
            assert(before[m - 1] == all[n - 1 - (m - 1)]);
        }
        let t = items.pop().unwrap();
        proof {
            assert(t == before[m - 1]);
            assert(t == all[n - m]);
            assert(all.subrange(0, n - m + 1) =~= all.subrange(0, n - m).push(all[n - m]));
            all.subrange(0, n - m).lemma_filter_push(all[n - m], pred);
        }
        if crate::model::str_eq(t.taxonomy.scope.as_str(), "asset") {
            out.push(t);
        }
    }
    proof {
        assert(all.subrange(0, n as int) =~= all);
    }
    out
}

/// Index of the first taxonomy with the id.
pub open spec fn first_taxonomy(ts: Seq<TaxonomyWithCategories>, id: Seq<char>) -> Option<int> {
    if exists|i: int| 0 <= i < ts.len() && (#[trigger] ts[i]).taxonomy.id@ == id {
        Some(choose|i: int| 0 <= i < ts.len() && (#[trigger] ts[i]).taxonomy.id@ == id && forall|j: int| 0 <= j < i ==> (#[trigger] ts[j]).taxonomy.id@ != id)
    } else {
        None
    }
}

/// The first taxonomy with the id; an error when there is none.
pub fn validate_asset_taxonomy(ts: &Vec<TaxonomyWithCategories>, id: &str) -> (r: Result<usize, AiError>)
    ensures
        match first_taxonomy(ts@, id@) {
            Some(i) => r == Ok::<usize, AiError>(i as usize) && i < ts@.len(),
            None => r matches Err(e) && is_invalid(e, "Taxonomy '"@ + id@ + "' was not found or is not asset-scoped"@),
        },
        r matches Ok(i) ==> i < ts@.len() && first_taxonomy(ts@, id@) == Some(i as int),
{
    let mut k: usize = 0;
    while k < ts.len()
        invariant
            k <= ts@.len(),
            forall|j: int| 0 <= j < k ==> (#[trigger] ts@[j]).taxonomy.id@ != id@,
        decreases ts@.len() - k,
    {
        if crate::model::str_eq(ts[k].taxonomy.id.as_str(), id) {
            proof {
                let c = choose|i: int| 0 <= i < ts@.len() && (#[trigger] ts@[i]).taxonomy.id@ == id@ && forall|j: int| 0 <= j < i ==> (#[trigger] ts@[j]).taxonomy.id@ != id@;
                assert(c == k) by {
                    if c < k {
                        assert(ts@[c].taxonomy.id@ != id@);
                    }
                    if c > k {
                        assert(ts@[k as int].taxonomy.id@ != id@);
                    }
                }
            }
            return Ok(k);
        }
        k = k + 1;
    }
    let mut m = String::from_str("Taxonomy '");
    m.append(id);
    m.append("' was not found or is not asset-scoped");
    Err(AiError::invalid_input(m))
}

/// The taxonomy passes the id and name filters (the name up to ASCII case).
pub open spec fn taxonomy_passes(t: TaxonomyWithCategories, id: Option<Seq<char>>, name: Option<Seq<char>>) -> bool {
    (id is None || t.taxonomy.id@ == id.unwrap()) && (name is None || eq_ignore_case(t.taxonomy.name@, name.unwrap()))
}

/// Indices, in order, of the first `k` taxonomies that pass the filters.
pub open spec fn passing(ts: Seq<TaxonomyWithCategories>, id: Option<Seq<char>>, name: Option<Seq<char>>, k: int) -> Seq<int>
    decreases k,
{
    if k <= 0 {
        seq![]
    } else if taxonomy_passes(ts[k - 1], id, name) {
        passing(ts, id, name, k - 1).push(k - 1)
    } else {
        passing(ts, id, name, k - 1)
    }
}

/// The taxonomies that pass the filters; an error when a filter matches none, or a
/// name alone matches several.
pub open spec fn filter_verdict(ts: Seq<TaxonomyWithCategories>, id: Option<Seq<char>>, name: Option<Seq<char>>) -> Result<Seq<int>, Seq<char>> {
    let f = passing(ts, id, name, ts.len() as int);
    if (id is Some || name is Some) && f.len() == 0 {
        Err("No asset-scoped taxonomy matched the requested taxonomy filter"@)
    } else if id is None && name is Some && f.len() > 1 {
        Err("Taxonomy name matched multiple asset-scoped taxonomies; use taxonomyId"@)
    } else {
        Ok(f)
    }
}

proof fn lemma_passing_range(ts: Seq<TaxonomyWithCategories>, id: Option<Seq<char>>, name: Option<Seq<char>>, k: int)
    requires
        0 <= k <= ts.len(),
    ensures
        forall|j: int| 0 <= j < passing(ts, id, name, k).len() ==> 0 <= #[trigger] passing(ts, id, name, k)[j] < k,
    decreases k,
{
    if k > 0 {
        lemma_passing_range(ts, id, name, k - 1);
        let p = passing(ts, id, name, k - 1);
        assert forall|j: int| 0 <= j < passing(ts, id, name, k).len() implies 0 <= #[trigger] passing(ts, id, name, k)[j] < k by {
            if j < p.len() {
                assert(passing(ts, id, name, k)[j] == p[j]);
            }
        }
    }
}

/// Filters taxonomies by id and by name.
pub fn filter_asset_taxonomies(ts: &Vec<TaxonomyWithCategories>, id: Option<&str>, name: Option<&str>) -> (r: Result<Vec<usize>, AiError>)
    ensures
        match filter_verdict(ts@, match id { Some(x) => Some(x@), None => None }, match name { Some(x) => Some(x@), None => None }) {
            Ok(f) => r matches Ok(v) && v@.len() == f.len() && forall|j: int| 0 <= j < f.len() ==> #[trigger] v@[j] as int == f[j],
            Err(m) => r matches Err(e) && is_invalid(e, m),
        },
{
    let ghost gid = match id { Some(x) => Some(x@), None => None::<Seq<char>> };
    let ghost gname = match name { Some(x) => Some(x@), None => None::<Seq<char>> };
    let mut out: Vec<usize> = Vec::new();
    let mut k: usize = 0;
    while k < ts.len()
        invariant
            k <= ts@.len(),
            gid == (match id { Some(x) => Some(x@), None => None::<Seq<char>> }),
            gname == (match name { Some(x) => Some(x@), None => None::<Seq<char>> }),
            out@.len() == passing(ts@, gid, gname, k as int).len(),
            forall|j: int| 0 <= j < out@.len() ==> #[trigger] out@[j] as int == passing(ts@, gid, gname, k as int)[j],
        decreases ts@.len() - k,
    {
        let t = &ts[k];
        let id_ok = match id {
            Some(x) => crate::model::str_eq(t.taxonomy.id.as_str(), x),
            None => true,
        };
        let name_ok = match name {
            Some(x) => eq_ignore_ascii_case(t.taxonomy.name.as_str(), x),
            None => true,
        };
        if id_ok && name_ok {
            out.push(k);
        }
        k = k + 1;
    }
    if (id.is_some() || name.is_some()) && out.len() == 0 {
        return Err(AiError::invalid_input(String::from_str("No asset-scoped taxonomy matched the requested taxonomy filter")));
    }
    if id.is_none() && name.is_some() && out.len() > 1 {
        return Err(AiError::invalid_input(String::from_str("Taxonomy name matched multiple asset-scoped taxonomies; use taxonomyId")));
    }
    Ok(out)
}

/// A trimmed text, absent when blank.
pub open spec fn nonblank(o: Option<String>) -> Option<Seq<char>> {
    match o {
        Some(s) => if trim(s@).len() > 0 { Some(trim(s@)) } else { None },
        None => None,
    }
}

fn nonblank_exec(o: &Option<String>) -> (r: Option<String>)
    ensures
        match r { Some(s) => nonblank(*o) == Some(s@), None => nonblank(*o) is None },
{
    match o {
        Some(s) => {
            let t = trim_string(s.as_str());
            if t.as_str().unicode_len() > 0 { Some(t) } else { None }
        },
        None => None,
    }
}

/// The listing the taxonomy tool gives for asset taxonomies and its arguments: the
/// depth is checked first, then the filters; categories are included when asked, or by
/// default when a filter is given.
pub open spec fn listing_ok(ts: Seq<TaxonomyWithCategories>, args: ListAssetTaxonomiesArgs, r: Result<ListAssetTaxonomiesOutput, AiError>) -> bool {
    let id = nonblank(args.taxonomy_id);
    let name = nonblank(args.taxonomy_name);
    let with_categories = match args.include_categories { Some(b) => b, None => id is Some || name is Some };
    match category_depth_verdict(match args.category_depth { Some(d) => Some(d@), None => None }) {
        Err(m) => r matches Err(e) && is_invalid(e, m),
        Ok(depth) => match filter_verdict(ts, id, name) {
            Err(m) => r matches Err(e) && is_invalid(e, m),
            Ok(f) => r matches Ok(out) && out.taxonomies@.len() == f.len() && forall|j: int| 0 <= j < f.len()
                ==> taxonomy_dto_of(ts[f[j]], with_categories, depth, #[trigger] out.taxonomies@[j]),
        },
    }
}

/// Lists asset taxonomies as the arguments ask.
pub fn list_asset_taxonomies(ts: &Vec<TaxonomyWithCategories>, args: &ListAssetTaxonomiesArgs) -> (r: Result<ListAssetTaxonomiesOutput, AiError>)
    ensures
        listing_ok(ts@, *args, r),
{
    let id = nonblank_exec(&args.taxonomy_id);
    let name = nonblank_exec(&args.taxonomy_name);
    let with_categories = match args.include_categories {
        Some(b) => b,
        None => id.is_some() || name.is_some(),
    };
    let depth_arg: Option<&str> = match &args.category_depth {
        Some(d) => Some(d.as_str()),
        None => None,
    };
    let depth = match parse_category_depth(depth_arg) {
        Ok(d) => d,
        Err(e) => return Err(e),
    };
    let id_ref: Option<&str> = match &id {
        Some(x) => Some(x.as_str()),
        None => None,
    };
    let name_ref: Option<&str> = match &name {
        Some(x) => Some(x.as_str()),
        None => None,
    };
    let picked = match filter_asset_taxonomies(ts, id_ref, name_ref) {
        Ok(v) => v,
        Err(e) => return Err(e),
    };
    let ghost f = passing(ts@, nonblank(args.taxonomy_id), nonblank(args.taxonomy_name), ts@.len() as int);
    proof {
        lemma_passing_range(ts@, nonblank(args.taxonomy_id), nonblank(args.taxonomy_name), ts@.len() as int);
    }
    let mut out: Vec<AssetTaxonomyDto> = Vec::new();
    let mut j: usize = 0;
    while j < picked.len()
        invariant
            j <= picked@.len(),
            picked@.len() == f.len(),
            forall|q: int| 0 <= q < f.len() ==> #[trigger] picked@[q] as int == f[q],
            forall|q: int| 0 <= q < f.len() ==> 0 <= #[trigger] f[q] < ts@.len(),
            out@.len() == j,
            forall|q: int| 0 <= q < j ==> taxonomy_dto_of(ts@[f[q]], with_categories, depth, #[trigger] out@[q]),
        decreases picked@.len() - j,
    {
        let i = picked[j];
        assert(picked@[j as int] as int == f[j as int]);
        out.push(to_asset_taxonomy_dto(&ts[i], with_categories, depth));
        j = j + 1;
    }
    Ok(ListAssetTaxonomiesOutput { taxonomies: out })
}


// ── Resolving for the tools ──────────────────────────────────────────────────

/// The candidate labels of the first eight assets, joined with `", "`.
pub open spec fn candidates_text(cands: Seq<Asset>) -> Seq<char> {
    let n = if cands.len() < 8 { cands.len() as int } else { 8 };
    join_comma(Seq::new(n as nat, |i: int| spec_candidate_label(cands[i])))
}

/// The error for an ambiguous query, naming (at most eight of) the candidates.
pub fn ambiguous_asset_error(cands: &Vec<Asset>) -> (e: AiError)
    ensures
        is_invalid(e, "Asset query is ambiguous. Candidates: "@ + candidates_text(cands@)),
{
    let n: usize = if cands.len() < 8 { cands.len() } else { 8 };
    let ghost labels = Seq::new(n as nat, |i: int| spec_candidate_label(cands@[i]));
    let mut joined = String::new();
    let mut k: usize = 0;
    while k < n
        invariant
            k <= n,
            n <= cands@.len(),
            labels == Seq::new(n as nat, |i: int| spec_candidate_label(cands@[i])),
            joined@ == join_comma(labels.take(k as int)),
        decreases n - k,
    {
        if k > 0 {
            joined.append(", ");
        }
        let l = asset_candidate_label(&cands[k]);
        joined.append(l.as_str());
        proof {
            let t = labels.take(k + 1);
            assert(t.drop_last() =~= labels.take(k as int));
            assert(t.last() == l@);
            if k == 0 {
                assert(joined@ =~= t[0]);
            } else {
                assert(joined@ =~= join_comma(labels.take(k as int)) + ", "@ + t.last());
            }
        }
        k = k + 1;
    }
    proof {
        assert(labels.take(n as int) =~= labels);
    }
    let mut m = String::from_str("Asset query is ambiguous. Candidates: ");
    m.append(joined.as_str());
    AiError::invalid_input(m)
}

fn not_found_error(q: &String) -> (e: AiError)
    ensures
        is_invalid(e, "Asset '"@ + q@ + "' was not found among active assets"@),
{
    let mut m = String::from_str("Asset '");
    m.append(q.as_str());
    m.append("' was not found among active assets");
    AiError::invalid_input(m)
}

/// What a resolution gives a caller that needs one asset: the asset when the query
/// resolved; otherwise the error that lists the candidates, or that says the query was
/// not found.
pub open spec fn resolution_gives(res: ActiveAssetResolution, r: Result<ResolvedAsset, AiError>) -> bool {
    match res {
        ActiveAssetResolution::Resolved(ra) => r == Ok::<ResolvedAsset, AiError>(ra),
        ActiveAssetResolution::Ambiguous(v) => r matches Err(e)
            && is_invalid(e, "Asset query is ambiguous. Candidates: "@ + candidates_text(v@)),
        ActiveAssetResolution::NotFound(q) => r matches Err(e)
            && is_invalid(e, "Asset '"@ + q@ + "' was not found among active assets"@),
    }
}

/// What a resolution gives a caller that needs one asset: the asset when the query
/// resolved; otherwise the error that lists the candidates, or that says the query was
/// not found.
pub fn resolution_result(res: ActiveAssetResolution) -> (r: Result<ResolvedAsset, AiError>)
    ensures
        resolution_gives(res, r),
{
    match res {
        ActiveAssetResolution::Resolved(ra) => Ok(ra),
        ActiveAssetResolution::Ambiguous(cands) => Err(ambiguous_asset_error(&cands)),
        ActiveAssetResolution::NotFound(q) => Err(not_found_error(&q)),
    }
}

/// Resolves a query to one active asset: a blank query, an ambiguous one and one that
/// is not found are errors. Apart from a failed read of the assets (a service error),
/// what comes back is what the resolution of the trimmed query among the assets read
/// gives.
pub fn resolve_active_asset<E: AiEnvironment>(env: &Arc<E>, asset_query: &str) -> (r: Result<ResolvedAsset, AiError>)
    ensures
        trim(asset_query@).len() == 0 ==> (r matches Err(e) && is_invalid(e, "assetQuery is required"@)),
        trim(asset_query@).len() > 0 && !(r matches Err(e) && e is Service) ==> exists|assets: Seq<Asset>, res: ActiveAssetResolution|
            #[trigger] resolution_ok(res, assets, trim(asset_query@)) && read_assets(**env, assets) && resolution_gives(res, r),
{
    match resolve_active_asset_match(env, asset_query) {
        Ok(res) => {
            let ghost res0 = res;
            let r = resolution_result(res);
            proof {
                let assets = choose|assets: Seq<Asset>| #[trigger] resolution_ok(res0, assets, trim(asset_query@))
                    && read_assets(**env, assets);
                assert(resolution_ok(res0, assets, trim(asset_query@)) && read_assets(**env, assets) && resolution_gives(res0, r));
            }
            r
        },
        Err(e) => Err(e),
    }
}

/// The taxonomies of the environment that classify assets.
pub fn asset_taxonomies<E: AiEnvironment>(env: &Arc<E>) -> (r: Result<Vec<TaxonomyWithCategories>, AiError>)
    ensures
        r matches Ok(v) ==> read_asset_taxonomies(**env, v@),
        r matches Err(e) ==> e is Service,
{
    match env.get_taxonomies_with_categories() {
        Ok(all) => {
            let ghost g = all;
            let v = keep_asset_scoped(all);
            proof {
                assert((**env).taxonomies_answer(Ok(g)));
                assert(asset_scoped(g@) == v@);
            }
            Ok(v)
        },
        Err(e) => Err(AiError::from_service(&e)),
    }
}

/// The current assignments of the taxonomy whose category is known.
pub open spec fn current_selected(asg: Seq<AssetTaxonomyAssignment>, tid: Seq<char>, cats: Seq<Category>) -> Seq<AssetTaxonomyAssignment> {
    asg.filter(|a: AssetTaxonomyAssignment| a.taxonomy_id@ == tid && last_category(cats, a.category_id@) is Some)
}

/// The previews are those of the selected current assignments, in order.
pub open spec fn current_previews_ok(out: Seq<AssignmentPreviewDto>, asg: Seq<AssetTaxonomyAssignment>, tid: Seq<char>, cats: Seq<Category>) -> bool {
    let sel = current_selected(asg, tid, cats);
    &&& out.len() == sel.len()
    &&& forall|i: int| 0 <= i < sel.len() ==> current_preview_of(sel[i], cats[last_category(cats, sel[i].category_id@).unwrap()], #[trigger] out[i])
}

/// Previews of an asset's current assignments in one taxonomy.
pub fn current_previews(asg: &Vec<AssetTaxonomyAssignment>, taxonomy_id: &str, cats: &Vec<Category>) -> (out: Vec<AssignmentPreviewDto>)
    ensures
        current_previews_ok(out@, asg@, taxonomy_id@, cats@),
{
    let ghost pred = |a: AssetTaxonomyAssignment| a.taxonomy_id@ == taxonomy_id@ && last_category(cats@, a.category_id@) is Some;
    let mut out: Vec<AssignmentPreviewDto> = Vec::new();
    let mut k: usize = 0;
    proof {
        reveal(Seq::filter);
        assert(asg@.subrange(0, 0) =~= Seq::<AssetTaxonomyAssignment>::empty());
    }
    while k < asg.len()
        invariant
            k <= asg@.len(),
            pred == (|a: AssetTaxonomyAssignment| a.taxonomy_id@ == taxonomy_id@ && last_category(cats@, a.category_id@) is Some),
            out@.len() == asg@.subrange(0, k as int).filter(pred).len(),
            forall|i: int| 0 <= i < out@.len() ==> current_preview_of(asg@.subrange(0, k as int).filter(pred)[i],
                cats@[last_category(cats@, asg@.subrange(0, k as int).filter(pred)[i].category_id@).unwrap()], #[trigger] out@[i]),
        decreases asg@.len() - k,
    {
        let a = &asg[k];
        proof {
            assert(asg@.subrange(0, k + 1) =~= asg@.subrange(0, k as int).push(asg@[k as int]));
            asg@.subrange(0, k as int).lemma_filter_push(asg@[k as int], pred);
        }
        if crate::model::str_eq(a.taxonomy_id.as_str(), taxonomy_id) {
            match current_preview_dto(a, cats) {
                Some(d) => {
                    out.push(d);
                },
                None => {},
            }
        }
        k = k + 1;
    }
    proof {
        assert(asg@.subrange(0, asg@.len() as int) =~= asg@);
    }
    out
}

/// The previews are those of the assignments the environment answered the read of
/// asset `asset_id`'s assignments with.
pub open spec fn previews_read<E: AiEnvironment>(env: E, asset_id: Seq<char>, out: Seq<AssignmentPreviewDto>, tid: Seq<char>,
    cats: Seq<Category>) -> bool {
    exists|v: Vec<AssetTaxonomyAssignment>| #[trigger] env.assignments_answer(asset_id, Ok(v)) && current_previews_ok(out, v@, tid, cats)
}

/// Reads an asset's current assignments in one taxonomy and previews them.
pub fn current_assignments_for_asset<E: AiEnvironment>(env: &Arc<E>, asset_id: &str, taxonomy_id: &str, cats: &Vec<Category>) -> (r: Result<Vec<AssignmentPreviewDto>, AiError>)
    ensures
        r is Ok ==> previews_read(**env, asset_id@, r->Ok_0@, taxonomy_id@, cats@),
        r matches Err(e) ==> e is Service,
{
    match env.get_asset_assignments(asset_id) {
        Ok(asg) => {
            let ghost w = asg;
            let v = current_previews(&asg, taxonomy_id, cats);
            proof {
                assert((**env).assignments_answer(asset_id@, Ok(w)));
                assert(current_previews_ok(v@, w@, taxonomy_id@, cats@));
                assert(previews_read(**env, asset_id@, v@, taxonomy_id@, cats@));
            }
            Ok(v)
        },
        Err(e) => Err(AiError::from_service(&e)),
    }
}


// ── Drafting a proposal ──────────────────────────────────────────────────────

/// Sum of the weights of the first `k` assignments.
pub open spec fn weight_sum(s: Seq<PreparedAssignmentInput>, k: int) -> int
    decreases k,
{
    if k <= 0 {
        0
    } else {
        weight_sum(s, k - 1) + s[k - 1].weight_basis_points
    }
}

/// The total weight a proposal assigns.
pub open spec fn proposed_weight(asg: Seq<PreparedAssignmentInput>) -> int {
    weight_sum(weighted(asg), weighted(asg).len() as int)
}

/// The previews are those of the weighted proposed assignments, in order.
pub open spec fn proposed_previews_ok(out: Seq<AssignmentPreviewDto>, asg: Seq<PreparedAssignmentInput>, cats: Seq<Category>) -> bool {
    let w = weighted(asg);
    &&& out.len() == w.len()
    &&& forall|i: int| 0 <= i < w.len() ==> proposed_preview_of(w[i], cats[last_category(cats, w[i].category_id@).unwrap()], #[trigger] out[i])
}

proof fn lemma_no_entry_error(cats: Seq<Category>, asg: Seq<PreparedAssignmentInput>, k: int, i: int)
    requires
        0 <= i < k <= asg.len(),
        first_entry_error(cats, asg, k) is None,
    ensures
        entry_error(cats, asg, i) is None,
    decreases k,
{
    if i < k - 1 {
        lemma_no_entry_error(cats, asg, k - 1, i);
    }
}

/// Checks a proposal and previews its weighted assignments, with the basis points it
/// leaves unallocated (negative when it over-allocates). Weights whose total leaves
/// `i32` are refused.
#[verifier::spinoff_prover]
pub fn prepare_proposal(single: bool, cats: &Vec<Category>, asg: &Vec<PreparedAssignmentInput>) -> (r: Result<(Vec<AssignmentPreviewDto>, i32), AiError>)
    ensures
        proposal_error(single, cats@, asg@) matches Some(m) ==> (r matches Err(e) && is_invalid(e, m)),
        proposal_error(single, cats@, asg@) is None && proposed_weight(asg@) <= i32::MAX ==> (r matches Ok(p)
            && proposed_previews_ok(p.0@, asg@, cats@) && p.1 == 10000 - proposed_weight(asg@)),
        r is Ok ==> proposal_error(single, cats@, asg@) is None,
        r matches Ok(p) ==> proposed_previews_ok(p.0@, asg@, cats@) && p.1 == 10000 - proposed_weight(asg@),
{
    match validate_proposed_assignments(single, cats, asg) {
        Ok(()) => {},
        Err(e) => return Err(e),
    }
    let ghost pred = |a: PreparedAssignmentInput| a.weight_basis_points > 0;
    let mut out: Vec<AssignmentPreviewDto> = Vec::new();
    let mut total: i64 = 0;
    let mut k: usize = 0;
    proof {
        reveal(Seq::filter);
        assert(asg@.subrange(0, 0) =~= Seq::<PreparedAssignmentInput>::empty());
    }
    while k < asg.len()
        invariant
            k <= asg@.len(),
            first_entry_error(cats@, asg@, asg@.len() as int) is None,
            proposal_error(single, cats@, asg@) is None,
            pred == (|a: PreparedAssignmentInput| a.weight_basis_points > 0),
            out@.len() == asg@.subrange(0, k as int).filter(pred).len(),
            forall|i: int| 0 <= i < out@.len() ==> proposed_preview_of(asg@.subrange(0, k as int).filter(pred)[i],
                cats@[last_category(cats@, asg@.subrange(0, k as int).filter(pred)[i].category_id@).unwrap()], #[trigger] out@[i]),
            total == weight_sum(asg@.subrange(0, k as int).filter(pred), out@.len() as int),
            0 <= total <= i32::MAX,
            forall|i: int| 0 <= i < asg@.subrange(0, k as int).filter(pred).len() ==> (#[trigger] asg@.subrange(0, k as int).filter(pred)[i]).weight_basis_points > 0,
        decreases asg@.len() - k,
    {
        let a = &asg[k];
        let ghost prev = asg@.subrange(0, k as int).filter(pred);
        proof {
            assert(asg@.subrange(0, k + 1) =~= asg@.subrange(0, k as int).push(asg@[k as int]));
            asg@.subrange(0, k as int).lemma_filter_push(asg@[k as int], pred);
            lemma_no_entry_error(cats@, asg@, asg@.len() as int, k as int);
        }
        if a.weight_basis_points > 0 {
            let d = match proposed_preview_dto(a, cats) {
                Ok(d) => d,
                Err(e) => return Err(e),
            };
            out.push(d);
            total = total + a.weight_basis_points as i64;
            proof {
                let cur = prev.push(asg@[k as int]);
                assert(cur.drop_last() =~= prev);
                assert(weight_sum(cur, cur.len() as int) == weight_sum(prev, prev.len() as int) + asg@[k as int].weight_basis_points) by {
                    lemma_weight_sum_prefix(cur, prev.len() as int);
                }
            }
            if total > 2147483647i64 {
                proof {
                    lemma_weight_sum_grows(asg@, k + 1);
                }
                return Err(AiError::invalid_input(String::from_str("Proposed weights exceed the range of basis points")));
            }
        }
        k = k + 1;
    }
    proof {
        assert(asg@.subrange(0, asg@.len() as int) =~= asg@);
    }
    Ok((out, 10000 - total as i32))
}

proof fn lemma_weight_sum_prefix(s: Seq<PreparedAssignmentInput>, k: int)
    requires
        0 <= k < s.len(),
    ensures
        weight_sum(s, k) == weight_sum(s.drop_last(), k),
    decreases k,
{
    if k > 0 {
        lemma_weight_sum_prefix(s, k - 1);
    }
}

/// Total weight of the weighted assignments among the first `j`.
spec fn prefix_weight(asg: Seq<PreparedAssignmentInput>, j: int) -> int {
    weight_sum(weighted(asg.subrange(0, j)), weighted(asg.subrange(0, j)).len() as int)
}

proof fn lemma_prefix_weight_step(asg: Seq<PreparedAssignmentInput>, j: int)
    requires
        0 <= j < asg.len(),
    ensures
        prefix_weight(asg, j) <= prefix_weight(asg, j + 1),
{
    let pred = |a: PreparedAssignmentInput| a.weight_basis_points > 0;
    let p = asg.subrange(0, j).filter(pred);
    assert(asg.subrange(0, j + 1) =~= asg.subrange(0, j).push(asg[j]));
    asg.subrange(0, j).lemma_filter_push(asg[j], pred);
    if asg[j].weight_basis_points > 0 {
        let q = p.push(asg[j]);
        assert(q.drop_last() =~= p);
        lemma_weight_sum_prefix(q, p.len() as int);
    }
}

proof fn lemma_prefix_weight_mono(asg: Seq<PreparedAssignmentInput>, k: int, n: int)
    requires
        0 <= k <= n <= asg.len(),
    ensures
        prefix_weight(asg, k) <= prefix_weight(asg, n),
    decreases n - k,
{
    if k < n {
        lemma_prefix_weight_step(asg, k);
        lemma_prefix_weight_mono(asg, k + 1, n);
    }
}

proof fn lemma_weight_sum_grows(asg: Seq<PreparedAssignmentInput>, k: int)
    requires
        0 <= k <= asg.len(),
    ensures
        weight_sum(weighted(asg.subrange(0, k)), weighted(asg.subrange(0, k)).len() as int) <= proposed_weight(asg),
{
    lemma_prefix_weight_mono(asg, k, asg.len() as int);
    assert(asg.subrange(0, asg.len() as int) =~= asg);
}


// ── The tools ────────────────────────────────────────────────────────────────

/// Lists asset taxonomies, or the categories of one.
pub struct ListAssetTaxonomiesTool<E> {
    env: Arc<E>,
}

impl<E: AiEnvironment> ListAssetTaxonomiesTool<E> {
    /// The environment the tool reads.
    pub closed spec fn env(&self) -> Arc<E> {
        self.env
    }

    pub fn new(env: Arc<E>) -> (t: Self)
        ensures
            t.env() == env,
    {
        ListAssetTaxonomiesTool { env }
    }

    /// Lists the asset taxonomies of the environment as the arguments ask.
    pub fn call(&self, args: ListAssetTaxonomiesArgs) -> (r: Result<ListAssetTaxonomiesOutput, AiError>)
        ensures
            r is Ok ==> listing_of_some(*self.env(), args, r),
    {
        let ts = match asset_taxonomies(&self.env) {
            Ok(v) => v,
            Err(e) => return Err(e),
        };
        let r = list_asset_taxonomies(&ts, &args);
        proof {
            assert(listing_ok(ts@, args, r));
        }
        r
    }
}

/// The listing is that of the asset taxonomies the environment answered with.
pub open spec fn listing_of_some<E: AiEnvironment>(env: E, args: ListAssetTaxonomiesArgs, r: Result<ListAssetTaxonomiesOutput, AiError>) -> bool {
    exists|ts: Seq<TaxonomyWithCategories>| #[trigger] listing_ok(ts, args, r) && read_asset_taxonomies(env, ts)
}

/// Reads the current taxonomy assignments of one asset.
pub struct GetAssetTaxonomyAssignmentsTool<E> {
    env: Arc<E>,
}

/// The listing keeps the assignment: it is in the taxonomy asked for, if one was, and
/// its taxonomy and category are known among `ts`.
pub open spec fn listing_keeps(a: AssetTaxonomyAssignment, ts: Seq<TaxonomyWithCategories>, tid: Option<String>) -> bool {
    &&& (tid matches Some(t) ==> a.taxonomy_id@ == t@)
    &&& last_pair(ts, a.taxonomy_id@, a.category_id@) is Some
}

/// Positions, in order, of the assignments among the first `k` that the listing keeps.
pub open spec fn kept_assignments(all: Seq<AssetTaxonomyAssignment>, ts: Seq<TaxonomyWithCategories>, tid: Option<String>, k: int) -> Seq<int>
    decreases k,
{
    if k <= 0 {
        Seq::empty()
    } else {
        let prev = kept_assignments(all, ts, tid, k - 1);
        if listing_keeps(all[k - 1], ts, tid) {
            prev.push(k - 1)
        } else {
            prev
        }
    }
}

/// `d` is the view of the assignment, with the taxonomy and category a lookup finds.
pub open spec fn listed_as(a: AssetTaxonomyAssignment, ts: Seq<TaxonomyWithCategories>, d: AssetTaxonomyAssignmentDto) -> bool {
    match last_pair(ts, a.taxonomy_id@, a.category_id@) {
        Some(p) => assignment_dto_of(a, ts[p.0], ts[p.0].categories@[p.1], d),
        None => false,
    }
}

/// The listing of the assignments: the view of each one kept, in order.
pub open spec fn assignment_listing_ok(out: Seq<AssetTaxonomyAssignmentDto>, all: Seq<AssetTaxonomyAssignment>, ts: Seq<TaxonomyWithCategories>,
    tid: Option<String>) -> bool {
    listing_prefix_ok(out, all, ts, tid, all.len() as int)
}

/// The listing of the first `k` assignments.
pub open spec fn listing_prefix_ok(out: Seq<AssetTaxonomyAssignmentDto>, all: Seq<AssetTaxonomyAssignment>, ts: Seq<TaxonomyWithCategories>,
    tid: Option<String>, k: int) -> bool {
    let idx = kept_assignments(all, ts, tid, k);
    &&& out.len() == idx.len()
    &&& forall|i: int| 0 <= i < out.len() ==> listed_as(all[idx[i]], ts, #[trigger] out[i])
}

/// Every assignment listed is in the taxonomy asked for, if one was.
pub open spec fn assignments_in(out: Seq<AssetTaxonomyAssignmentDto>, taxonomy_id: Option<String>) -> bool {
    taxonomy_id is Some ==> forall|i: int| 0 <= i < out.len() ==> (#[trigger] out[i]).taxonomy_id@ == taxonomy_id.unwrap()@
}

impl<E: AiEnvironment> GetAssetTaxonomyAssignmentsTool<E> {
    /// The environment the tool reads.
    pub closed spec fn env(&self) -> Arc<E> {
        self.env
    }

    pub fn new(env: Arc<E>) -> (t: Self)
        ensures
            t.env() == env,
    {
        GetAssetTaxonomyAssignmentsTool { env }
    }

    /// Resolves the asset, then lists its assignments (in the taxonomy asked for, if
    /// one is) whose taxonomy and category are known. A taxonomy filter that names no
    /// asset taxonomy is an error, raised before the asset is resolved.
    pub fn call(&self, args: GetAssetTaxonomyAssignmentsArgs) -> (r: Result<GetAssetTaxonomyAssignmentsOutput, AiError>)
        ensures
            r matches Ok(out) ==> out.asset_query == args.asset_query && assignments_in(out.assignments@, args.taxonomy_id),
            r matches Ok(out) ==> exists|all: Vec<AssetTaxonomyAssignment>, ts: Seq<TaxonomyWithCategories>, assets: Seq<Asset>,
                ra: ResolvedAsset|
                #![trigger assignment_listing_ok(out.assignments@, all@, ts, args.taxonomy_id),
                    resolution_ok(ActiveAssetResolution::Resolved(ra), assets, trim(args.asset_query@))]
                resolution_ok(ActiveAssetResolution::Resolved(ra), assets, trim(args.asset_query@))
                && read_assets(*self.env(), assets)
                && asset_dto_of(ra.asset, ra.matched_by@, out.resolved_asset)
                && (*self.env()).assignments_answer(ra.asset.id@, Ok(all))
                && read_asset_taxonomies(*self.env(), ts)
                && assignment_listing_ok(out.assignments@, all@, ts, args.taxonomy_id),
            trim(args.asset_query@).len() == 0 ==> r is Err,
    {
        let ts = match asset_taxonomies(&self.env) {
            Ok(v) => v,
            Err(e) => return Err(e),
        };
        match &args.taxonomy_id {
            Some(tid) => match validate_asset_taxonomy(&ts, tid.as_str()) {
                Ok(_) => {},
                Err(e) => return Err(e),
            },
            None => {},
        }
        let asset = match resolve_active_asset(&self.env, args.asset_query.as_str()) {
            Ok(a) => a,
            Err(e) => return Err(e),
        };
        let all = match self.env.get_asset_assignments(asset.asset.id.as_str()) {
            Ok(v) => v,
            Err(e) => return Err(AiError::from_service(&e)),
        };
        proof {
            assert((*self.env).assignments_answer(asset.asset.id@, Ok(all)));
        }
        let mut out: Vec<AssetTaxonomyAssignmentDto> = Vec::new();
        let mut k: usize = 0;
        while k < all.len()
            invariant
                k <= all@.len(),
                assignments_in(out@, args.taxonomy_id),
                listing_prefix_ok(out@, all@, ts@, args.taxonomy_id, k as int),
            decreases all@.len() - k,
        {
            let a = &all[k];
            let ghost prev = out@;
            let keep = match &args.taxonomy_id {
                Some(tid) => crate::model::str_eq(a.taxonomy_id.as_str(), tid.as_str()),
                None => true,
            };
            if keep {
                match assignment_dto(a, &ts) {
                    Some(d) => {
                        out.push(d);
                        proof {
                            assert(out@[prev.len() as int] == d);
                            assert(listed_as(all@[k as int], ts@, d));
                        }
                    },
                    None => {},
                }
            }
            proof {
                let idx = kept_assignments(all@, ts@, args.taxonomy_id, k + 1);
                assert forall|i: int| 0 <= i < out@.len() implies listed_as(all@[idx[i]], ts@, #[trigger] out@[i]) by {
                    if i < prev.len() {
                        assert(out@[i] == prev[i]);
                    }
                }
            }
            k = k + 1;
        }
        let resolved = asset_to_dto(&asset.asset, asset.matched_by.as_str());
        let ghost mut assets0: Seq<Asset> = Seq::empty();
        proof {
            let (assets, res) = choose|assets: Seq<Asset>, res: ActiveAssetResolution|
                #[trigger] resolution_ok(res, assets, trim(args.asset_query@)) && read_assets(*self.env, assets)
                && resolution_gives(res, Ok::<ResolvedAsset, AiError>(asset));
            assert(res == ActiveAssetResolution::Resolved(asset));
            assert(resolution_ok(ActiveAssetResolution::Resolved(asset), assets, trim(args.asset_query@)));
            assets0 = assets;
        }
        let ghost tid = args.taxonomy_id;
        let res = GetAssetTaxonomyAssignmentsOutput {
            asset_query: args.asset_query,
            resolved_asset: resolved,
            assignments: out,
        };
        proof {
            assert(assignment_listing_ok(res.assignments@, all@, ts@, tid));
            assert(resolution_ok(ActiveAssetResolution::Resolved(asset), assets0, trim(args.asset_query@)));
            assert(read_assets(*self.env(), assets0));
            assert(read_asset_taxonomies(*self.env(), ts@));
        }
        Ok(res)
    }
}

/// The views of the candidates of an ambiguous query, in order, each with the changes of
/// the proposal against current assignments read for it.
fn candidate_drafts<E: AiEnvironment>(env: &Arc<E>, candidates: &Vec<Asset>, taxonomy_id: &str, cats: &Vec<Category>,
    proposed: &Vec<AssignmentPreviewDto>) -> (r: Result<(Vec<ResolvedAssetDto>, Vec<CandidateAssignmentPreviewDto>), AiError>)
    ensures
        r matches Ok(p) ==> p.0@.len() == candidates@.len() && p.1@.len() == candidates@.len()
            && forall|i: int| 0 <= i < candidates@.len() ==> candidate_preview_ok(**env, candidates@[i], #[trigger] p.0@[i], p.1@[i],
                proposed@, taxonomy_id@, cats@),
{
    let mut previews: Vec<CandidateAssignmentPreviewDto> = Vec::new();
    let mut dtos: Vec<ResolvedAssetDto> = Vec::new();
    let mut k: usize = 0;
    while k < candidates.len()
        invariant
            k <= candidates@.len(),
            previews@.len() == k,
            dtos@.len() == k,
            forall|i: int| 0 <= i < k ==> candidate_preview_ok(**env, candidates@[i], #[trigger] dtos@[i], previews@[i],
                proposed@, taxonomy_id@, cats@),
        decreases candidates@.len() - k,
    {
        let c = &candidates[k];
        let current = match current_assignments_for_asset(env, c.id.as_str(), taxonomy_id, cats) {
            Ok(v) => v,
            Err(e) => return Err(e),
        };
        let changes = compute_changes(&current, proposed);
        previews.push(CandidateAssignmentPreviewDto {
            asset_id: c.id.clone(),
            current_assignments: current,
            changes,
        });
        dtos.push(asset_to_dto(c, "candidate"));
        k = k + 1;
    }
    Ok((dtos, previews))
}

/// The taxonomy a draft names.
fn prepared_taxonomy(t: &TaxonomyWithCategories) -> (d: PreparedTaxonomyDto)
    ensures
        d.taxonomy_id == t.taxonomy.id,
        d.name == t.taxonomy.name,
        d.is_single_select == t.taxonomy.is_single_select,
{
    PreparedTaxonomyDto {
        taxonomy_id: t.taxonomy.id.clone(),
        name: t.taxonomy.name.clone(),
        is_single_select: t.taxonomy.is_single_select,
    }
}

/// The draft for a query resolved to `ra`, with current assignments read for it.
fn resolved_draft<E: AiEnvironment>(env: &Arc<E>, args: PrepareAssetClassificationArgs, t: &TaxonomyWithCategories, proposed: Vec<AssignmentPreviewDto>,
    unallocated: i32, ra: ResolvedAsset, current: Vec<AssignmentPreviewDto>) -> (out: PrepareAssetClassificationOutput)
    requires
        proposal_error(t.taxonomy.is_single_select, t.categories@, args.assignments@) is None,
        proposed_previews_ok(proposed@, args.assignments@, t.categories@),
        unallocated == 10000 - proposed_weight(args.assignments@),
        previews_read(**env, ra.asset.id@, current@, args.taxonomy_id@, t.categories@),
    ensures
        draft_from(**env, out, args, *t, ActiveAssetResolution::Resolved(ra)),
{
    let changes = compute_changes(&current, &proposed);
    let resolved = asset_to_dto(&ra.asset, ra.matched_by.as_str());
    let out = PrepareAssetClassificationOutput {
        asset_query: args.asset_query,
        resolved_asset: Some(resolved),
        taxonomy: prepared_taxonomy(t),
        current_assignments: current,
        proposed_assignments: proposed,
        changes,
        unallocated_basis_points: unallocated,
        draft_status: String::from_str("draft"),
        asset_candidates: Vec::new(),
        candidate_current_assignments: Vec::new(),
        applied_at: None,
    };
    proof {
        reveal_strlit("draft");
        reveal(draft_from);
    }
    out
}

/// The draft for an ambiguous query: a selection among the candidates.
fn ambiguous_draft<E: AiEnvironment>(env: &Arc<E>, args: PrepareAssetClassificationArgs, t: &TaxonomyWithCategories, proposed: Vec<AssignmentPreviewDto>,
    unallocated: i32, candidates: Vec<Asset>, dtos: Vec<ResolvedAssetDto>, previews: Vec<CandidateAssignmentPreviewDto>)
    -> (out: PrepareAssetClassificationOutput)
    requires
        proposal_error(t.taxonomy.is_single_select, t.categories@, args.assignments@) is None,
        proposed_previews_ok(proposed@, args.assignments@, t.categories@),
        unallocated == 10000 - proposed_weight(args.assignments@),
        dtos@.len() == candidates@.len(),
        previews@.len() == candidates@.len(),
        forall|i: int| 0 <= i < candidates@.len() ==> candidate_preview_ok(**env, candidates@[i], #[trigger] dtos@[i], previews@[i],
            proposed@, args.taxonomy_id@, t.categories@),
    ensures
        draft_from(**env, out, args, *t, ActiveAssetResolution::Ambiguous(candidates)),
{
    let out = PrepareAssetClassificationOutput {
        asset_query: args.asset_query,
        resolved_asset: None,
        taxonomy: prepared_taxonomy(t),
        current_assignments: Vec::new(),
        proposed_assignments: proposed,
        changes: ClassificationChangesDto { add_count: 0, update_count: 0, remove_count: 0, unchanged_count: 0 },
        unallocated_basis_points: unallocated,
        draft_status: String::from_str("needsAssetSelection"),
        asset_candidates: dtos,
        candidate_current_assignments: previews,
        applied_at: None,
    };
    proof {
        reveal_strlit("needsAssetSelection");
        reveal(draft_from);
    }
    out
}

/// Prepares a classification draft for review.
pub struct PrepareAssetClassificationTool<E> {
    env: Arc<E>,
}

/// The draft for resolution `res` of the query under taxonomy `t`. It answers the query
/// and names the taxonomy; its proposal passed the checks, and its proposed assignments
/// are the weighted ones asked for, leaving `10000 - total` basis points unallocated. A
/// resolved query gives a draft for that asset, whose changes count against current
/// assignments read for it; an ambiguous one asks for a selection among the candidates,
/// in order, each with current assignments read for it and its own changes; a query
/// that was not found gives no draft.
#[verifier::opaque]
pub open spec fn draft_from<E: AiEnvironment>(env: E, out: PrepareAssetClassificationOutput, args: PrepareAssetClassificationArgs,
    t: TaxonomyWithCategories, res: ActiveAssetResolution) -> bool {
    let cats = t.categories@;
    let tid = args.taxonomy_id@;
    &&& out.asset_query == args.asset_query
    &&& out.taxonomy.taxonomy_id == t.taxonomy.id
    &&& out.taxonomy.name == t.taxonomy.name
    &&& out.taxonomy.is_single_select == t.taxonomy.is_single_select
    &&& proposal_error(t.taxonomy.is_single_select, cats, args.assignments@) is None
    &&& proposed_previews_ok(out.proposed_assignments@, args.assignments@, cats)
    &&& out.unallocated_basis_points == 10000 - proposed_weight(args.assignments@)
    &&& out.applied_at is None
    &&& match res {
        ActiveAssetResolution::Resolved(ra) => {
            &&& out.draft_status@ == "draft"@
            &&& out.resolved_asset matches Some(d) && asset_dto_of(ra.asset, ra.matched_by@, d)
            &&& out.asset_candidates@.len() == 0
            &&& out.candidate_current_assignments@.len() == 0
            &&& previews_read(env, ra.asset.id@, out.current_assignments@, tid, cats)
            &&& changes_ok(out.changes, out.current_assignments@, out.proposed_assignments@)
        },
        ActiveAssetResolution::Ambiguous(v) => {
            &&& out.draft_status@ == "needsAssetSelection"@
            &&& out.resolved_asset is None
            &&& out.current_assignments@.len() == 0
            &&& out.changes.add_count == 0 && out.changes.update_count == 0
            &&& out.changes.remove_count == 0 && out.changes.unchanged_count == 0
            &&& out.asset_candidates@.len() == v@.len()
            &&& out.candidate_current_assignments@.len() == v@.len()
            &&& forall|i: int| 0 <= i < v@.len() ==> candidate_preview_ok(env, v@[i], #[trigger] out.asset_candidates@[i],
                out.candidate_current_assignments@[i], out.proposed_assignments@, tid, cats)
        },
        ActiveAssetResolution::NotFound(_) => false,
    }
}

/// A candidate of an ambiguous query: its view, and the changes of the proposal against
/// current assignments read for it.
pub open spec fn candidate_preview_ok<E: AiEnvironment>(env: E, a: Asset, d: ResolvedAssetDto, c: CandidateAssignmentPreviewDto,
    proposed: Seq<AssignmentPreviewDto>, tid: Seq<char>, cats: Seq<Category>) -> bool {
    &&& asset_dto_of(a, "candidate"@, d)
    &&& c.asset_id == a.id
    &&& previews_read(env, a.id@, c.current_assignments@, tid, cats)
    &&& changes_ok(c.changes, c.current_assignments@, proposed)
}

/// The draft that the tool prepares from the asset taxonomies `ts` and the assets
/// `assets`: the taxonomy asked for is the first of `ts` with its id, and `res` is what
/// the trimmed query resolves to among `assets`.
pub open spec fn prepared_draft<E: AiEnvironment>(env: E, out: PrepareAssetClassificationOutput, args: PrepareAssetClassificationArgs,
    ts: Seq<TaxonomyWithCategories>, assets: Seq<Asset>, res: ActiveAssetResolution) -> bool {
    &&& read_asset_taxonomies(env, ts)
    &&& read_assets(env, assets)
    &&& first_taxonomy(ts, args.taxonomy_id@) is Some
    &&& resolution_ok(res, assets, trim(args.asset_query@))
    &&& draft_from(env, out, args, ts[first_taxonomy(ts, args.taxonomy_id@).unwrap()], res)
}

impl<E: AiEnvironment> PrepareAssetClassificationTool<E> {
    /// The environment the tool reads.
    pub closed spec fn env(&self) -> Arc<E> {
        self.env
    }

    pub fn new(env: Arc<E>) -> (t: Self)
        ensures
            t.env() == env,
    {
        PrepareAssetClassificationTool { env }
    }

    /// Checks the taxonomy and the proposal, resolves the asset and previews the draft.
    /// It writes nothing.
    #[verifier::spinoff_prover]
    pub fn call(&self, args: PrepareAssetClassificationArgs) -> (r: Result<PrepareAssetClassificationOutput, AiError>)
        ensures
            r matches Ok(out) ==> exists|ts: Seq<TaxonomyWithCategories>, assets: Seq<Asset>, res: ActiveAssetResolution|
                #[trigger] prepared_draft(*self.env(), out, args, ts, assets, res),
            trim(args.asset_query@).len() == 0 ==> r is Err,
    {
        let ts = match asset_taxonomies(&self.env) {
            Ok(v) => v,
            Err(e) => return Err(e),
        };
        let ti = match validate_asset_taxonomy(&ts, args.taxonomy_id.as_str()) {
            Ok(i) => i,
            Err(e) => return Err(e),
        };
        let taxonomy = &ts[ti];
        let cats = &taxonomy.categories;
        let (proposed, unallocated) = match prepare_proposal(taxonomy.taxonomy.is_single_select, cats, &args.assignments) {
            Ok(p) => p,
            Err(e) => return Err(e),
        };
        let resolution = match resolve_active_asset_match(&self.env, args.asset_query.as_str()) {
            Ok(res) => res,
            Err(e) => return Err(e),
        };
        let ghost assets = choose|assets: Seq<Asset>| #[trigger] resolution_ok(resolution, assets, trim(args.asset_query@))
            && read_assets(*self.env, assets);
        let ghost res0 = resolution;
        let ghost args0 = args;
        match resolution {
            ActiveAssetResolution::Resolved(asset) => {
                let current = match current_assignments_for_asset(&self.env, asset.asset.id.as_str(), args.taxonomy_id.as_str(), cats) {
                    Ok(v) => v,
                    Err(e) => return Err(e),
                };
                let out = resolved_draft(&self.env, args, taxonomy, proposed, unallocated, asset, current);
                proof {
                    assert(first_taxonomy(ts@, args0.taxonomy_id@) == Some(ti as int));
                    assert(draft_from(*self.env, out, args0, ts@[ti as int], res0));
                    assert(prepared_draft(*self.env(), out, args0, ts@, assets, res0));
                }
                Ok(out)
            },
            ActiveAssetResolution::Ambiguous(candidates) => {
                let (dtos, previews) = match candidate_drafts(&self.env, &candidates, args.taxonomy_id.as_str(), cats, &proposed) {
                    Ok(p) => p,
                    Err(e) => return Err(e),
                };
                let out = ambiguous_draft(&self.env, args, taxonomy, proposed, unallocated, candidates, dtos, previews);
                proof {
                    assert(first_taxonomy(ts@, args0.taxonomy_id@) == Some(ti as int));
                    assert(draft_from(*self.env, out, args0, ts@[ti as int], res0));
                    assert(prepared_draft(*self.env(), out, args0, ts@, assets, res0));
                }
                Ok(out)
            },
            ActiveAssetResolution::NotFound(q) => Err(not_found_error(&q)),
        }
    }
}

} // verus!
