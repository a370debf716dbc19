//! Current allocation of a portfolio across the categories of its taxonomies.

use vstd::prelude::*;
use crate::dec::Dec;
use crate::errors::Error;

verus! {

/// Value held in one category.
#[derive(Debug, Clone)]
pub struct CategoryAllocation {
    pub category_id: String,
    pub category_name: String,
    pub color: String,
    pub value: Dec,
    pub percentage: Dec,
}

/// Allocation across the categories of one taxonomy.
#[derive(Debug, Clone)]
pub struct TaxonomyAllocation {
    pub taxonomy_id: String,
    pub taxonomy_name: String,
    pub color: String,
    pub categories: Vec<CategoryAllocation>,
}

/// Allocation of a portfolio across all its taxonomies.
#[derive(Debug, Clone)]
pub struct PortfolioAllocations {
    pub asset_classes: TaxonomyAllocation,
    pub sectors: TaxonomyAllocation,
    pub regions: TaxonomyAllocation,
    pub risk_category: TaxonomyAllocation,
    pub security_types: TaxonomyAllocation,
    pub custom_groups: Vec<TaxonomyAllocation>,
    pub total_value: Dec,
}

/// One holding as the allocation view lists it within a category.
#[derive(Debug, Clone)]
pub struct HoldingSummary {
    pub id: String,
    pub symbol: String,
    pub name: Option<String>,
    pub holding_type: HoldingType,
    pub quantity: Dec,
    pub market_value: Dec,
    pub currency: String,
    pub weight_in_category: Dec,
    pub unit_price: Option<Dec>,
}

/// Kind of holding.
#[derive(Debug, Clone, Copy, PartialEq, Eq, Structural)]
pub enum HoldingType {
    Cash,
    Security,
    AlternativeAsset,
}

/// The holdings of one category.
#[derive(Debug, Clone)]
pub struct AllocationHoldings {
    pub taxonomy_id: String,
    pub taxonomy_name: String,
    pub category_id: String,
    pub category_name: String,
    pub color: String,
    pub holdings: Vec<HoldingSummary>,
    pub total_value: Dec,
    pub currency: String,
}


/// An amount in the holding's own currency and in the base currency.
#[derive(Debug, Clone, Copy)]
pub struct MonetaryValue {
    pub local: Dec,
    pub base: Dec,
}

/// A position held in an account.
#[derive(Debug, Clone)]
pub struct Holding {
    pub id: String,
    pub account_id: String,
    pub holding_type: HoldingType,
    pub quantity: Dec,
    pub local_currency: String,
    pub base_currency: String,
    pub market_value: MonetaryValue,
}

/// Reads the current allocation of a set of accounts.
pub trait AllocationServiceTrait {
    /// `r` is an answer the service gives when asked for the allocation of the accounts.
    /// Implementations may say which results these are; by default any result is one.
    closed spec fn allocations_answer(&self, account_ids: Seq<String>, base_currency: Seq<char>, aggregated_account_id: Seq<char>,
        r: Result<PortfolioAllocations, Error>) -> bool {
        true
    }

    /// `r` is an answer the service gives when asked for the holdings of the accounts in
    /// one category of a taxonomy.
    /// Implementations may say which results these are; by default any result is one.
    closed spec fn allocation_holdings_answer(&self, account_ids: Seq<String>, base_currency: Seq<char>, taxonomy_id: Seq<char>,
        category_id: Seq<char>, aggregated_account_id: Seq<char>, r: Result<AllocationHoldings, Error>) -> bool {
        true
    }

    /// The allocation of the accounts across all taxonomies.
    fn get_portfolio_allocations_for_accounts(
        &self,
        account_ids: &[String],
        base_currency: &str,
        aggregated_account_id: &str,
    ) -> (r: Result<PortfolioAllocations, Error>)
        ensures
            self.allocations_answer(account_ids@, base_currency@, aggregated_account_id@, r),
    ;

    /// The holdings of the accounts that fall in one category of a taxonomy.
    fn get_holdings_by_allocation_for_accounts(
        &self,
        account_ids: &[String],
        base_currency: &str,
        taxonomy_id: &str,
        category_id: &str,
        aggregated_account_id: &str,
    ) -> (r: Result<AllocationHoldings, Error>)
        ensures
            self.allocation_holdings_answer(account_ids@, base_currency@, taxonomy_id@, category_id@, aggregated_account_id@, r),
    ;
}

/// Reads the holdings of a set of accounts.
pub trait HoldingsServiceTrait {
    /// `r` is an answer the service gives when asked for the holdings of the accounts.
    /// Implementations may say which results these are; by default any result is one.
    closed spec fn holdings_answer(&self, account_ids: Seq<String>, base_currency: Seq<char>, aggregated_account_id: Seq<char>,
        r: Result<Vec<Holding>, Error>) -> bool {
        true
    }

    /// All holdings of the accounts, valued in the base currency.
    fn get_holdings_for_accounts(
        &self,
        account_ids: &[String],
        base_currency: &str,
        aggregated_account_id: &str,
    ) -> (r: Result<Vec<Holding>, Error>)
        ensures
            self.holdings_answer(account_ids@, base_currency@, aggregated_account_id@, r),
    ;
}

} // verus!
