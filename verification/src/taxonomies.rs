//! Taxonomies, their categories and the assignments of assets to them, as plain values.

use vstd::prelude::*;

verus! {

/// A taxonomy: a way of classifying assets.
#[derive(Debug, Clone)]
pub struct Taxonomy {
    pub id: String,
    pub name: String,
    pub color: String,
    pub description: Option<String>,
    pub is_system: bool,
    pub is_single_select: bool,
    pub sort_order: i32,
    /// What the taxonomy classifies, such as `asset`.
    pub scope: String,
}

/// A category of a taxonomy.
#[derive(Debug, Clone)]
pub struct Category {
    pub id: String,
    pub taxonomy_id: String,
    pub parent_id: Option<String>,
    pub name: String,
    pub key: String,
    pub color: String,
    pub description: Option<String>,
    pub sort_order: i32,
}

/// A taxonomy with its categories.
#[derive(Debug, Clone)]
pub struct TaxonomyWithCategories {
    pub taxonomy: Taxonomy,
    pub categories: Vec<Category>,
}

/// The weight of an asset in one category of a taxonomy.
#[derive(Debug, Clone)]
pub struct AssetTaxonomyAssignment {
    pub id: String,
    pub asset_id: String,
    pub taxonomy_id: String,
    pub category_id: String,
    pub weight: i32,
    pub source: String,
}

/// Reads taxonomies.
pub trait TaxonomyServiceTrait {
    /// `r` is an answer the service gives when asked for the taxonomy with the id.
    /// Implementations may say which results these are; by default any result is one.
    closed spec fn taxonomy_answer(&self, id: Seq<char>, r: Result<Option<TaxonomyWithCategories>, crate::errors::Error>) -> bool {
        true
    }

    /// The taxonomy with the id and its categories, if there is one.
    fn get_taxonomy(&self, id: &str) -> (r: Result<Option<TaxonomyWithCategories>, crate::errors::Error>)
        ensures
            self.taxonomy_answer(id@, r),
    ;
}

} // verus!
