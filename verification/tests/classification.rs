use std::sync::Arc;

use allocation_targets::classification::{
    compute_changes, is_residual_bucket_label, normalize_category_label, normalize_lookup,
    parse_category_depth, parse_symbol_with_exchange_suffix, AiEnvironment, AiError, Asset,
    AssignmentPreviewDto, CategoryDepth, GetAssetTaxonomyAssignmentsArgs,
    GetAssetTaxonomyAssignmentsTool, ListAssetTaxonomiesArgs, ListAssetTaxonomiesTool,
    PrepareAssetClassificationArgs, PrepareAssetClassificationOutput,
    PrepareAssetClassificationTool, PreparedAssignmentInput, resolve_read, resolution_result,
    ActiveAssetResolution,
};
use allocation_targets::errors::{DatabaseError, Error};
use allocation_targets::taxonomies::{
    AssetTaxonomyAssignment, Category, Taxonomy, TaxonomyWithCategories,
};

// ── Fixtures ─────────────────────────────────────────────────────────────

struct MockEnvironment {
    assets: Vec<Asset>,
    taxonomies: Vec<TaxonomyWithCategories>,
    assignments: Vec<AssetTaxonomyAssignment>,
}

impl AiEnvironment for MockEnvironment {
    fn get_assets(&self) -> Result<Vec<Asset>, Error> {
        Ok(self.assets.clone())
    }
    fn get_taxonomies_with_categories(&self) -> Result<Vec<TaxonomyWithCategories>, Error> {
        Ok(self.taxonomies.clone())
    }
    fn get_asset_assignments(&self, asset_id: &str) -> Result<Vec<AssetTaxonomyAssignment>, Error> {
        Ok(self.assignments.iter().filter(|a| a.asset_id == asset_id).cloned().collect())
    }
}

fn env_with(
    assets: Vec<Asset>,
    taxonomies: Vec<TaxonomyWithCategories>,
    assignments: Vec<AssetTaxonomyAssignment>,
) -> Arc<MockEnvironment> {
    Arc::new(MockEnvironment { assets, taxonomies, assignments })
}

fn test_asset(
    id: &str,
    display_code: &str,
    symbol: &str,
    exchange_mic: Option<&str>,
    name: &str,
    is_active: bool,
) -> Asset {
    Asset {
        id: id.to_string(),
        name: Some(name.to_string()),
        display_code: Some(display_code.to_string()),
        is_active,
        quote_ccy: "USD".to_string(),
        instrument_symbol: Some(symbol.to_string()),
        instrument_exchange_mic: exchange_mic.map(str::to_string),
    }
}

fn aapl() -> Asset {
    test_asset("asset-aapl", "AAPL", "AAPL", Some("XNAS"), "Apple Inc.", true)
}

fn test_taxonomy(id: &str, scope: &str, is_single_select: bool, categories: Vec<Category>) -> TaxonomyWithCategories {
    TaxonomyWithCategories {
        taxonomy: Taxonomy {
            id: id.to_string(),
            name: "Asset Class".to_string(),
            color: "#2563eb".to_string(),
            description: None,
            is_system: false,
            is_single_select,
            sort_order: 1,
            scope: scope.to_string(),
        },
        categories,
    }
}

fn test_category(taxonomy_id: &str, id: &str, name: &str) -> Category {
    Category {
        id: id.to_string(),
        taxonomy_id: taxonomy_id.to_string(),
        parent_id: None,
        name: name.to_string(),
        key: name.to_lowercase().replace(' ', "_"),
        color: "#64748b".to_string(),
        description: None,
        sort_order: 1,
    }
}

fn test_child_category(taxonomy_id: &str, id: &str, parent_id: &str, name: &str) -> Category {
    Category { parent_id: Some(parent_id.to_string()), ..test_category(taxonomy_id, id, name) }
}

fn test_assignment(
    id: &str,
    asset_id: &str,
    taxonomy_id: &str,
    category_id: &str,
    weight: i32,
    source: &str,
) -> AssetTaxonomyAssignment {
    AssetTaxonomyAssignment {
        id: id.to_string(),
        asset_id: asset_id.to_string(),
        taxonomy_id: taxonomy_id.to_string(),
        category_id: category_id.to_string(),
        weight,
        source: source.to_string(),
    }
}

fn prepared(category_id: &str, weight_basis_points: i32) -> PreparedAssignmentInput {
    prepared_with_source(category_id, weight_basis_points, category_id)
}

fn prepared_with_source(category_id: &str, weight_basis_points: i32, source_label: &str) -> PreparedAssignmentInput {
    PreparedAssignmentInput {
        category_id: category_id.to_string(),
        weight_basis_points,
        source_label: source_label.to_string(),
    }
}

fn resolve_query(asset_query: &str, assets: Vec<Asset>) -> Result<String, AiError> {
    let tool = GetAssetTaxonomyAssignmentsTool::new(env_with(assets, vec![], vec![]));
    tool.call(GetAssetTaxonomyAssignmentsArgs { asset_query: asset_query.to_string(), taxonomy_id: None })
        .map(|output| output.resolved_asset.asset_id)
}

fn prepare_with_single_select(
    assignments: Vec<PreparedAssignmentInput>,
    is_single_select: bool,
) -> Result<PrepareAssetClassificationOutput, AiError> {
    let env = env_with(
        vec![aapl()],
        vec![test_taxonomy(
            "asset-tax",
            "asset",
            is_single_select,
            vec![test_category("asset-tax", "equity", "Equity"), test_category("asset-tax", "cash", "Cash")],
        )],
        vec![],
    );
    PrepareAssetClassificationTool::new(env).call(PrepareAssetClassificationArgs {
        asset_query: "AAPL".to_string(),
        taxonomy_id: "asset-tax".to_string(),
        assignments,
    })
}

fn prepare_success(assignments: Vec<PreparedAssignmentInput>) -> PrepareAssetClassificationOutput {
    prepare_with_single_select(assignments, false).unwrap()
}

fn prepare_error(assignments: Vec<PreparedAssignmentInput>) -> AiError {
    prepare_with_single_select(assignments, false).unwrap_err()
}

fn prepare_single_select_error(assignments: Vec<PreparedAssignmentInput>) -> AiError {
    prepare_with_single_select(assignments, true).unwrap_err()
}

// ── Listing ──────────────────────────────────────────────────────────────

#[test]
fn list_asset_taxonomies_returns_asset_scope_summaries_by_default() {
    let env = env_with(
        vec![],
        vec![
            test_taxonomy(
                "asset-tax",
                "asset",
                false,
                vec![
                    test_category("asset-tax", "equity", "Equity"),
                    test_child_category("asset-tax", "equity-us", "equity", "US Equity"),
                ],
            ),
            test_taxonomy("activity-tax", "activity", false, vec![test_category("activity-tax", "food", "Food")]),
        ],
        vec![],
    );
    let output = ListAssetTaxonomiesTool::new(env).call(ListAssetTaxonomiesArgs::default()).unwrap();
    assert_eq!(output.taxonomies.len(), 1);
    assert_eq!(output.taxonomies[0].taxonomy_id, "asset-tax");
    assert_eq!(output.taxonomies[0].category_count, 2);
    assert!(output.taxonomies[0].categories.is_empty());
}

#[test]
fn list_asset_taxonomies_can_return_root_categories_for_selected_taxonomy() {
    let env = env_with(
        vec![],
        vec![test_taxonomy(
            "asset-tax",
            "asset",
            false,
            vec![
                test_category("asset-tax", "equity", "Equity"),
                test_child_category("asset-tax", "equity-us", "equity", "US Equity"),
                test_category("asset-tax", "cash", "Cash"),
            ],
        )],
        vec![],
    );
    let output = ListAssetTaxonomiesTool::new(env)
        .call(ListAssetTaxonomiesArgs {
            taxonomy_id: Some("asset-tax".to_string()),
            include_categories: Some(true),
            ..Default::default()
        })
        .unwrap();
    assert_eq!(output.taxonomies.len(), 1);
    assert_eq!(output.taxonomies[0].category_count, 3);
    assert_eq!(
        output.taxonomies[0].categories.iter().map(|c| c.category_id.as_str()).collect::<Vec<_>>(),
        vec!["equity", "cash"]
    );
}

#[test]
fn list_asset_taxonomies_can_return_all_categories_for_selected_taxonomy() {
    let env = env_with(
        vec![],
        vec![test_taxonomy(
            "asset-tax",
            "asset",
            false,
            vec![
                test_category("asset-tax", "equity", "Equity"),
                test_child_category("asset-tax", "equity-us", "equity", "US Equity"),
            ],
        )],
        vec![],
    );
    let output = ListAssetTaxonomiesTool::new(env)
        .call(ListAssetTaxonomiesArgs {
            taxonomy_name: Some("Asset Class".to_string()),
            include_categories: Some(true),
            category_depth: Some("all".to_string()),
            ..Default::default()
        })
        .unwrap();
    assert_eq!(
        output.taxonomies[0].categories.iter().map(|c| c.category_id.as_str()).collect::<Vec<_>>(),
        vec!["equity", "equity-us"]
    );
}

// ── Reading assignments ──────────────────────────────────────────────────

#[test]
fn get_assignments_resolves_asset_and_enriches_rows() {
    let env = env_with(
        vec![aapl()],
        vec![test_taxonomy("asset-tax", "asset", false, vec![test_category("asset-tax", "equity", "Equity")])],
        vec![test_assignment("assignment-1", "asset-aapl", "asset-tax", "equity", 10000, "manual")],
    );
    let output = GetAssetTaxonomyAssignmentsTool::new(env)
        .call(GetAssetTaxonomyAssignmentsArgs {
            asset_query: "Apple".to_string(),
            taxonomy_id: Some("asset-tax".to_string()),
        })
        .unwrap();
    assert_eq!(output.resolved_asset.asset_id, "asset-aapl");
    assert_eq!(output.assignments.len(), 1);
    assert_eq!(output.assignments[0].category_name, "Equity");
}

#[test]
fn get_assignments_handles_duplicate_category_ids_across_taxonomies() {
    let env = env_with(
        vec![aapl()],
        vec![
            test_taxonomy("asset-tax", "asset", false, vec![test_category("asset-tax", "shared", "Equity")]),
            test_taxonomy("factor-tax", "asset", false, vec![test_category("factor-tax", "shared", "Value")]),
        ],
        vec![test_assignment("assignment-1", "asset-aapl", "asset-tax", "shared", 10000, "manual")],
    );
    let output = GetAssetTaxonomyAssignmentsTool::new(env)
        .call(GetAssetTaxonomyAssignmentsArgs {
            asset_query: "AAPL".to_string(),
            taxonomy_id: Some("asset-tax".to_string()),
        })
        .unwrap();
    assert_eq!(output.assignments.len(), 1);
    assert_eq!(output.assignments[0].taxonomy_id, "asset-tax");
    assert_eq!(output.assignments[0].category_name, "Equity");
}

// ── Drafting ─────────────────────────────────────────────────────────────

#[test]
fn prepare_asset_classification_returns_draft_preview() {
    let env = env_with(
        vec![aapl()],
        vec![test_taxonomy(
            "asset-tax",
            "asset",
            false,
            vec![test_category("asset-tax", "equity", "Equity"), test_category("asset-tax", "cash", "Cash")],
        )],
        vec![test_assignment("assignment-1", "asset-aapl", "asset-tax", "equity", 10000, "manual")],
    );
    let output = PrepareAssetClassificationTool::new(env)
        .call(PrepareAssetClassificationArgs {
            asset_query: "AAPL".to_string(),
            taxonomy_id: "asset-tax".to_string(),
            assignments: vec![prepared("equity", 6000), prepared("cash", 3000)],
        })
        .unwrap();
    assert_eq!(output.draft_status, "draft");
    assert_eq!(output.resolved_asset.as_ref().map(|a| a.asset_id.as_str()), Some("asset-aapl"));
    assert_eq!(output.current_assignments.len(), 1);
    assert_eq!(output.proposed_assignments.len(), 2);
    assert_eq!(output.changes.add_count, 1);
    assert_eq!(output.changes.update_count, 1);
    assert_eq!(output.unallocated_basis_points, 1000);
}

#[test]
fn prepare_returns_asset_selection_candidates_when_query_is_ambiguous() {
    let name = "Vanguard Total World Stock Index Fund ETF Shares";
    let env = env_with(
        vec![
            test_asset("asset-vt-xnas", "VT", "VT", Some("XNAS"), name, true),
            test_asset("asset-vt-arcx", "VT", "VT", Some("ARCX"), name, true),
        ],
        vec![test_taxonomy("asset-tax", "asset", false, vec![test_category("asset-tax", "equity", "Equity")])],
        vec![test_assignment("assignment-xnas", "asset-vt-xnas", "asset-tax", "equity", 10000, "manual")],
    );
    let output = PrepareAssetClassificationTool::new(env)
        .call(PrepareAssetClassificationArgs {
            asset_query: "VT".to_string(),
            taxonomy_id: "asset-tax".to_string(),
            assignments: vec![prepared("equity", 9000)],
        })
        .unwrap();
    assert_eq!(output.draft_status, "needsAssetSelection");
    assert!(output.resolved_asset.is_none());
    assert_eq!(output.asset_candidates.len(), 2);
    assert_eq!(output.asset_candidates[0].asset_id, "asset-vt-xnas");
    assert_eq!(output.asset_candidates[0].exchange_mic.as_deref(), Some("XNAS"));
    assert_eq!(output.asset_candidates[1].asset_id, "asset-vt-arcx");
    assert_eq!(output.proposed_assignments.len(), 1);
    assert_eq!(output.candidate_current_assignments.len(), 2);
    assert_eq!(output.candidate_current_assignments[0].asset_id, "asset-vt-xnas");
    assert_eq!(output.candidate_current_assignments[0].current_assignments.len(), 1);
    assert_eq!(output.candidate_current_assignments[0].changes.update_count, 1);
    assert_eq!(output.candidate_current_assignments[1].asset_id, "asset-vt-arcx");
    assert_eq!(output.candidate_current_assignments[1].current_assignments.len(), 0);
    assert_eq!(output.candidate_current_assignments[1].changes.add_count, 1);
    assert_eq!(output.unallocated_basis_points, 1000);
}

#[test]
fn prepare_counts_source_only_difference_as_update() {
    let env = env_with(
        vec![aapl()],
        vec![test_taxonomy("asset-tax", "asset", false, vec![test_category("asset-tax", "equity", "Equity")])],
        vec![test_assignment("assignment-1", "asset-aapl", "asset-tax", "equity", 10000, "manual")],
    );
    let output = PrepareAssetClassificationTool::new(env)
        .call(PrepareAssetClassificationArgs {
            asset_query: "AAPL".to_string(),
            taxonomy_id: "asset-tax".to_string(),
            assignments: vec![prepared("equity", 10000)],
        })
        .unwrap();
    assert_eq!(output.changes.update_count, 1);
    assert_eq!(output.changes.unchanged_count, 0);
}

// ── Resolver ─────────────────────────────────────────────────────────────

#[test]
fn resolver_matches_asset_id() {
    assert_eq!(resolve_query("asset-aapl", vec![aapl()]).unwrap(), "asset-aapl");
}

#[test]
fn resolver_matches_exact_candidate_label() {
    let id = resolve_query(
        "VT - Vanguard Total World Stock Index Fund ETF Shares (mic: ARCX, currency: USD, id: asset-vt-world)",
        vec![
            test_asset("asset-vt-world", "VT", "VT", Some("ARCX"), "Vanguard Total World Stock Index Fund ETF Shares", true),
            test_asset("asset-vt-vistra", "VT", "VT", Some("XNYS"), "Vistra Corp.", true),
        ],
    )
    .unwrap();
    assert_eq!(id, "asset-vt-world");
}

#[test]
fn resolver_matches_symbol_with_xnas_mic() {
    let name = "Vanguard Total World Stock Index Fund ETF Shares";
    let id = resolve_query(
        "VT XNAS",
        vec![
            test_asset("asset-vt-xnas", "VT", "VT", Some("XNAS"), name, true),
            test_asset("asset-vt-arcx", "VT", "VT", Some("ARCX"), name, true),
        ],
    )
    .unwrap();
    assert_eq!(id, "asset-vt-xnas");
}

#[test]
fn resolver_matches_symbol_with_exchange_mic() {
    let name = "Vanguard Total World Stock Index Fund ETF Shares";
    let id = resolve_query(
        "VT ARCX",
        vec![
            test_asset("asset-vt-xnas", "VT", "VT", Some("XNAS"), name, true),
            test_asset("asset-vt-arcx", "VT", "VT", Some("ARCX"), name, true),
        ],
    )
    .unwrap();
    assert_eq!(id, "asset-vt-arcx");
}

#[test]
fn resolver_ambiguity_candidates_include_unique_identifiers() {
    let name = "Vanguard Total World Stock Index Fund ETF Shares";
    let error = resolve_query(
        "VT",
        vec![
            test_asset("asset-vt-arcx", "VT", "VT", Some("ARCX"), name, true),
            test_asset("asset-vt-xnys", "VT", "VT", Some("XNYS"), name, true),
        ],
    )
    .unwrap_err();
    let message = error.message();
    assert!(message.contains(
        "VT - Vanguard Total World Stock Index Fund ETF Shares (mic: ARCX, currency: USD, id: asset-vt-arcx)"
    ));
    assert!(message.contains(
        "VT - Vanguard Total World Stock Index Fund ETF Shares (mic: XNYS, currency: USD, id: asset-vt-xnys)"
    ));
}

#[test]
fn resolver_matches_ticker() {
    assert_eq!(resolve_query("AAPL", vec![aapl()]).unwrap(), "asset-aapl");
}

#[test]
fn resolver_matches_provider_suffix() {
    let id = resolve_query(
        "SHOP.TO",
        vec![test_asset("asset-shop", "SHOP", "SHOP", Some("XTSE"), "Shopify Inc.", true)],
    )
    .unwrap();
    assert_eq!(id, "asset-shop");
}

#[test]
fn resolver_matches_exact_name() {
    assert_eq!(resolve_query("Apple Inc.", vec![aapl()]).unwrap(), "asset-aapl");
}

#[test]
fn resolver_matches_unambiguous_fuzzy_name() {
    assert_eq!(resolve_query("Apple", vec![aapl()]).unwrap(), "asset-aapl");
}

#[test]
fn resolver_excludes_inactive_assets() {
    let error = resolve_query(
        "AAPL",
        vec![test_asset("asset-aapl", "AAPL", "AAPL", Some("XNAS"), "Apple Inc.", false)],
    )
    .unwrap_err();
    assert!(error.message().contains("not found among active assets"));
}

#[test]
fn resolver_returns_ambiguity_with_candidate_labels() {
    let error = resolve_query(
        "Apple",
        vec![aapl(), test_asset("asset-aple", "APLE", "APLE", Some("XNYS"), "Apple Hospitality REIT", true)],
    )
    .unwrap_err();
    let message = error.message();
    assert!(message.contains("ambiguous"));
    assert!(message.contains("AAPL - Apple Inc. (mic: XNAS, currency: USD, id: asset-aapl)"));
    assert!(message.contains("APLE - Apple Hospitality REIT (mic: XNYS, currency: USD, id: asset-aple)"));
}

#[test]
fn resolver_returns_not_found_for_missing_active_asset() {
    let error = resolve_query("MSFT", vec![aapl()]).unwrap_err();
    assert!(error.message().contains("not found among active assets"));
}

// ── Proposal validation ──────────────────────────────────────────────────

#[test]
fn prepare_rejects_duplicate_categories() {
    let error = prepare_error(vec![prepared("equity", 5000), prepared("equity", 5000)]);
    assert!(error.message().contains("Duplicate category ID"));
}

#[test]
fn prepare_rejects_single_select_multiple_categories() {
    let error = prepare_single_select_error(vec![prepared("equity", 5000), prepared("cash", 5000)]);
    assert!(error.message().contains("allow only one category"));
}

#[test]
fn prepare_rejects_single_select_partial_weight() {
    let error = prepare_single_select_error(vec![prepared("equity", 5000)]);
    assert!(error.message().contains("require 10000 basis points"));
}

#[test]
fn prepare_rejects_invalid_weights() {
    let error = prepare_error(vec![prepared("equity", -1)]);
    assert!(error.message().contains("between 0 and 10000"));
}

#[test]
fn prepare_rejects_missing_source_label() {
    let error = prepare_error(vec![prepared_with_source("equity", 10000, "")]);
    assert!(error.message().contains("sourceLabel is required"));
}

#[test]
fn prepare_rejects_residual_bucket_mapped_to_category() {
    let error = prepare_error(vec![prepared_with_source("cash", 935, "Other")]);
    let message = error.message();
    assert!(message.contains("Residual bucket"));
    assert!(message.contains("cannot be mapped"));
}

#[test]
fn prepare_allows_residual_bucket_when_category_matches_exactly() {
    let env = env_with(
        vec![aapl()],
        vec![test_taxonomy("asset-tax", "asset", false, vec![test_category("asset-tax", "other", "Other")])],
        vec![],
    );
    let output = PrepareAssetClassificationTool::new(env)
        .call(PrepareAssetClassificationArgs {
            asset_query: "AAPL".to_string(),
            taxonomy_id: "asset-tax".to_string(),
            assignments: vec![prepared_with_source("other", 935, "Other")],
        })
        .unwrap();
    assert_eq!(output.proposed_assignments.len(), 1);
    assert_eq!(output.proposed_assignments[0].category_id, "other");
    assert_eq!(output.proposed_assignments[0].source_label.as_deref(), Some("Other"));
}

#[test]
fn prepare_allows_over_allocation_as_invalid_draft() {
    let output = prepare_success(vec![prepared("equity", 7000), prepared("cash", 4000)]);
    assert_eq!(output.unallocated_basis_points, -1000);
    assert_eq!(output.proposed_assignments.len(), 2);
}

#[test]
fn prepare_allows_under_allocation() {
    let output = prepare_success(vec![prepared("equity", 6000)]);
    assert_eq!(output.unallocated_basis_points, 4000);
}

#[test]
fn prepare_treats_zero_weight_assignments_as_removals() {
    let env = env_with(
        vec![aapl()],
        vec![test_taxonomy(
            "asset-tax",
            "asset",
            false,
            vec![test_category("asset-tax", "equity", "Equity"), test_category("asset-tax", "cash", "Cash")],
        )],
        vec![
            test_assignment("assignment-equity", "asset-aapl", "asset-tax", "equity", 6000, "ai"),
            test_assignment("assignment-cash", "asset-aapl", "asset-tax", "cash", 4000, "manual"),
        ],
    );
    let output = PrepareAssetClassificationTool::new(env)
        .call(PrepareAssetClassificationArgs {
            asset_query: "AAPL".to_string(),
            taxonomy_id: "asset-tax".to_string(),
            assignments: vec![prepared("equity", 6000), prepared("cash", 0)],
        })
        .unwrap();
    assert_eq!(output.current_assignments.len(), 2);
    assert_eq!(output.proposed_assignments.len(), 1);
    assert_eq!(output.proposed_assignments[0].category_id, "equity");
    assert_eq!(output.changes.remove_count, 1);
    assert_eq!(output.changes.unchanged_count, 1);
    assert_eq!(output.changes.add_count, 0);
    assert_eq!(output.changes.update_count, 0);
    assert_eq!(output.unallocated_basis_points, 4000);
}

#[test]
fn prepare_ignores_zero_weight_unknown_category() {
    let output = prepare_success(vec![prepared("UNKNOWN", 0), prepared("equity", 10000)]);
    assert_eq!(output.proposed_assignments.len(), 1);
    assert_eq!(output.proposed_assignments[0].category_id, "equity");
    assert_eq!(output.unallocated_basis_points, 0);
}

// ── Further cases ────────────────────────────────────────────────────────

fn preview(category_id: &str, weight: i32, source: &str) -> AssignmentPreviewDto {
    AssignmentPreviewDto {
        assignment_id: None,
        category_id: category_id.to_string(),
        category_name: category_id.to_string(),
        category_key: category_id.to_string(),
        category_color: "#000".to_string(),
        weight_basis_points: weight,
        source: source.to_string(),
        source_label: None,
    }
}

#[test]
fn changes_partition_the_proposal() {
    let current = vec![preview("a", 5000, "ai"), preview("b", 5000, "manual"), preview("c", 1, "ai")];
    let proposed = vec![preview("a", 5000, "ai"), preview("b", 5000, "ai"), preview("d", 10, "ai")];
    let ch = compute_changes(&current, &proposed);
    assert_eq!(ch.unchanged_count, 1);
    assert_eq!(ch.update_count, 1);
    assert_eq!(ch.add_count, 1);
    assert_eq!(ch.remove_count, 1);
    assert_eq!(ch.add_count + ch.update_count + ch.unchanged_count, proposed.len());
}

#[test]
fn same_ai_proposal_changes_nothing() {
    let current = vec![preview("a", 4000, "ai"), preview("b", 6000, "ai")];
    let ch = compute_changes(&current, &current.clone());
    assert_eq!((ch.add_count, ch.update_count, ch.remove_count, ch.unchanged_count), (0, 0, 0, 2));
}

#[test]
fn unknown_category_with_weight_is_rejected() {
    let error = prepare_error(vec![prepared("gold", 1000)]);
    assert_eq!(
        error,
        AiError::InvalidInput("Category 'gold' does not belong to the selected taxonomy".to_string())
    );
}

#[test]
fn unknown_taxonomy_is_rejected() {
    let env = env_with(vec![aapl()], vec![], vec![]);
    let error = PrepareAssetClassificationTool::new(env)
        .call(PrepareAssetClassificationArgs {
            asset_query: "AAPL".to_string(),
            taxonomy_id: "nope".to_string(),
            assignments: vec![prepared("equity", 10000)],
        })
        .unwrap_err();
    assert!(matches!(error, AiError::InvalidInput(_)));
}

#[test]
fn category_depth_parsing() {
    assert_eq!(parse_category_depth(None).unwrap(), CategoryDepth::Root);
    assert_eq!(parse_category_depth(Some("all")).unwrap(), CategoryDepth::All);
    assert!(parse_category_depth(Some("leaves")).is_err());
}

#[test]
fn provider_suffix_maps_to_mic() {
    assert_eq!(
        parse_symbol_with_exchange_suffix("SHOP.TO"),
        ("SHOP".to_string(), Some("XTSE".to_string()))
    );
    assert_eq!(parse_symbol_with_exchange_suffix("AAPL"), ("AAPL".to_string(), None));
}

#[test]
fn label_normalisation() {
    assert_eq!(normalize_lookup("  Apple   Inc. "), "apple inc.");
    assert!(is_residual_bucket_label("Other"));
    assert!(!is_residual_bucket_label("Equity"));
    assert_eq!(normalize_category_label("US  Equity"), normalize_category_label("us equity"));
}

struct UnreachableAssets;

impl AiEnvironment for UnreachableAssets {
    fn get_assets(&self) -> Result<Vec<Asset>, Error> {
        Err(Error::Database(DatabaseError::NotFound("assets table".to_string())))
    }
    fn get_taxonomies_with_categories(&self) -> Result<Vec<TaxonomyWithCategories>, Error> {
        Ok(vec![])
    }
    fn get_asset_assignments(&self, _asset_id: &str) -> Result<Vec<AssetTaxonomyAssignment>, Error> {
        Ok(vec![])
    }
}

#[test]
fn failed_asset_read_is_a_service_error() {
    let tool = GetAssetTaxonomyAssignmentsTool::new(Arc::new(UnreachableAssets));
    let error = tool
        .call(GetAssetTaxonomyAssignmentsArgs { asset_query: "AAPL".to_string(), taxonomy_id: None })
        .unwrap_err();
    assert_eq!(error, AiError::Service("Not found: assets table".to_string()));
}

#[test]
fn a_read_of_assets_resolves_the_query_or_passes_its_failure_on() {
    let resolved = resolve_read(Ok(vec![aapl()]), "AAPL").unwrap();
    match resolution_result(resolved) {
        Ok(ra) => {
            assert_eq!(ra.asset.id, "asset-aapl");
            assert_eq!(ra.matched_by, "symbol");
        }
        Err(e) => panic!("unexpected error {:?}", e),
    }
    let failed = resolve_read(Err(Error::Database(DatabaseError::NotFound("x".to_string()))), "AAPL");
    assert!(matches!(failed, Err(AiError::Service(m)) if m == "Not found: x"));
    let missing = resolve_read(Ok(vec![aapl()]), "MSFT").unwrap();
    assert!(matches!(missing, ActiveAssetResolution::NotFound(ref q) if q == "MSFT"));
}
