//! Target profiles and their category weights: validation, identities and timestamps,
//! and the rules of activation and archiving.

use vstd::prelude::*;
use uuid::Uuid;
use crate::dates::utc_now_text;
use crate::errors::{Error, invalid, not_found};
use crate::model::{NewTargetAllocationNode, NewTargetProfile, ProfileStatus, TargetAllocationNode,
    TargetProfile, opt_chars, opt_str};
use crate::taxonomies::{Category, TaxonomyServiceTrait, TaxonomyWithCategories};
use crate::text::{trim, trim_string};
use crate::validation::{lemma_ok_nodes_fit, new_profile_verdict, nodes_ok, validate_new_profile,
    validate_nodes_sum};

verus! {

/// `Uuid::new_v4().to_string()`: a fresh random identifier. Nothing is promised of it.
#[verifier::external_body]
fn new_id() -> (s: String)
{
    Uuid::new_v4().to_string()
}

/// Stores target profiles and their nodes.
pub trait TargetProfileRepositoryTrait {
    /// `r` is an answer the store gives when asked for profile `id`.
    /// Implementations may say which results these are; by default any result is one.
    closed spec fn profile_answer(&self, id: Seq<char>, r: Result<Option<TargetProfile>, Error>) -> bool {
        true
    }
    /// `r` is an answer the store gives when asked for all profiles.
    /// Implementations may say which results these are; by default any result is one.
    closed spec fn profiles_answer(&self, r: Result<Vec<TargetProfile>, Error>) -> bool {
        true
    }
    /// `r` is an answer the store gives when asked for the active profile of a scope.
    /// Implementations may say which results these are; by default any result is one.
    closed spec fn active_answer(&self, scope_type: Seq<char>, scope_id: Option<Seq<char>>, r: Result<Option<TargetProfile>, Error>) -> bool {
        true
    }
    /// `r` is an answer the store gives when asked for the nodes of a profile.
    /// Implementations may say which results these are; by default any result is one.
    closed spec fn nodes_answer(&self, profile_id: Seq<char>, r: Result<Vec<TargetAllocationNode>, Error>) -> bool {
        true
    }
    /// `r` is an answer the store gives when handed a new profile to create.
    /// Implementations may say which results these are; by default any result is one.
    closed spec fn create_answer(&self, profile: TargetProfile, r: Result<TargetProfile, Error>) -> bool {
        true
    }
    /// `r` is an answer the store gives when handed a profile to update.
    /// Implementations may say which results these are; by default any result is one.
    closed spec fn update_answer(&self, profile: TargetProfile, r: Result<TargetProfile, Error>) -> bool {
        true
    }
    /// `r` is an answer the store gives when asked to delete profile `id`.
    /// Implementations may say which results these are; by default any result is one.
    closed spec fn delete_answer(&self, id: Seq<char>, r: Result<usize, Error>) -> bool {
        true
    }
    /// `r` is an answer the store gives when handed the nodes to save for a profile.
    /// Implementations may say which results these are; by default any result is one.
    closed spec fn save_nodes_answer(&self, profile_id: Seq<char>, nodes: Seq<TargetAllocationNode>, r: Result<Vec<TargetAllocationNode>, Error>) -> bool {
        true
    }

    fn get_profile(&self, id: &str) -> (r: Result<Option<TargetProfile>, Error>)
        ensures
            self.profile_answer(id@, r),
    ;
    fn list_profiles(&self) -> (r: Result<Vec<TargetProfile>, Error>)
        ensures
            self.profiles_answer(r),
    ;
    fn get_active_profile_for_scope(&self, scope_type: &str, scope_id: Option<&str>) -> (r: Result<Option<TargetProfile>, Error>)
        ensures
            self.active_answer(scope_type@, opt_str(scope_id), r),
    ;
    fn list_nodes_for_profile(&self, profile_id: &str) -> (r: Result<Vec<TargetAllocationNode>, Error>)
        ensures
            self.nodes_answer(profile_id@, r),
    ;
    fn create_profile(&self, profile: TargetProfile) -> (r: Result<TargetProfile, Error>)
        ensures
            self.create_answer(profile, r),
    ;
    fn update_profile(&self, profile: TargetProfile) -> (r: Result<TargetProfile, Error>)
        ensures
            self.update_answer(profile, r),
    ;
    fn delete_profile(&self, id: &str) -> (r: Result<usize, Error>)
        ensures
            self.delete_answer(id@, r),
    ;
    fn save_nodes(&self, profile_id: &str, nodes: Vec<TargetAllocationNode>) -> (r: Result<Vec<TargetAllocationNode>, Error>)
        ensures
            self.save_nodes_answer(profile_id@, nodes@, r),
    ;
}

/// Manages target profiles.
pub trait TargetProfileServiceTrait {
    /// `r` is an answer the service gives when asked for profile `id`.
    /// Implementations may say which results these are; by default any result is one.
    closed spec fn profile_answer(&self, id: Seq<char>, r: Result<Option<TargetProfile>, Error>) -> bool {
        true
    }
    /// `r` is an answer the service gives when asked for the active profile of a scope.
    /// Implementations may say which results these are; by default any result is one.
    closed spec fn active_answer(&self, scope_type: Seq<char>, scope_id: Option<Seq<char>>, r: Result<Option<TargetProfile>, Error>) -> bool {
        true
    }
    /// `r` is an answer the service gives when asked for the nodes of a profile.
    /// Implementations may say which results these are; by default any result is one.
    closed spec fn nodes_answer(&self, profile_id: Seq<char>, r: Result<Vec<TargetAllocationNode>, Error>) -> bool {
        true
    }

    fn get_profile(&self, id: &str) -> (r: Result<Option<TargetProfile>, Error>)
        ensures
            self.profile_answer(id@, r),
    ;
    fn list_profiles(&self) -> Result<Vec<TargetProfile>, Error>;
    fn get_active_profile_for_scope(&self, scope_type: &str, scope_id: Option<&str>) -> (r: Result<Option<TargetProfile>, Error>)
        ensures
            self.active_answer(scope_type@, opt_str(scope_id), r),
    ;
    fn list_nodes_for_profile(&self, profile_id: &str) -> (r: Result<Vec<TargetAllocationNode>, Error>)
        ensures
            self.nodes_answer(profile_id@, r),
    ;
    fn create_profile(&self, input: NewTargetProfile) -> Result<TargetProfile, Error>;
    fn update_profile(&self, id: &str, input: NewTargetProfile) -> Result<TargetProfile, Error>;
    fn activate_profile(&self, id: &str) -> Result<TargetProfile, Error>;
    fn archive_profile(&self, id: &str) -> Result<TargetProfile, Error>;
    fn delete_profile(&self, id: &str) -> Result<(), Error>;
    fn save_nodes(&self, profile_id: &str, nodes: Vec<NewTargetAllocationNode>) -> Result<Vec<TargetAllocationNode>, Error>;
}

fn clone_opt(s: &Option<String>) -> (r: Option<String>)
    ensures
        r == *s,
{
    match s {
        Some(x) => Some(x.clone()),
        None => None,
    }
}

/// A new draft profile from validated input: the name trimmed, both timestamps `now`.
pub fn draft_profile(input: &NewTargetProfile, id: String, now: String) -> (p: TargetProfile)
    ensures
        p.id == id,
        p.name@ == trim(input.name@),
        p.status == ProfileStatus::Draft,
        p.scope_type == input.scope_type,
        p.scope_id == input.scope_id,
        p.taxonomy_id == input.taxonomy_id,
        p.trigger_type == input.trigger_type,
        p.drift_band_bps == input.drift_band_bps,
        p.created_at == now,
        p.updated_at == now,
{
    TargetProfile {
        id,
        name: trim_string(input.name.as_str()),
        status: ProfileStatus::Draft,
        scope_type: input.scope_type,
        scope_id: clone_opt(&input.scope_id),
        taxonomy_id: input.taxonomy_id.clone(),
        trigger_type: input.trigger_type,
        drift_band_bps: input.drift_band_bps,
        created_at: now.clone(),
        updated_at: now,
    }
}

/// An existing profile edited by validated input: identity, status and creation time
/// kept, the name trimmed, the update time `now`.
pub fn edited_profile(existing: &TargetProfile, input: &NewTargetProfile, now: String) -> (p: TargetProfile)
    ensures
        p.id == existing.id,
        p.name@ == trim(input.name@),
        p.status == existing.status,
        p.scope_type == input.scope_type,
        p.scope_id == input.scope_id,
        p.taxonomy_id == input.taxonomy_id,
        p.trigger_type == input.trigger_type,
        p.drift_band_bps == input.drift_band_bps,
        p.created_at == existing.created_at,
        p.updated_at == now,
{
    TargetProfile {
        id: existing.id.clone(),
        name: trim_string(input.name.as_str()),
        status: existing.status,
        scope_type: input.scope_type,
        scope_id: clone_opt(&input.scope_id),
        taxonomy_id: input.taxonomy_id.clone(),
        trigger_type: input.trigger_type,
        drift_band_bps: input.drift_band_bps,
        created_at: existing.created_at.clone(),
        updated_at: now,
    }
}

/// A profile with a new status and update time, all else kept.
pub fn with_status(existing: &TargetProfile, status: ProfileStatus, now: String) -> (p: TargetProfile)
    ensures
        p == (TargetProfile { status, updated_at: now, ..*existing }),
{
    TargetProfile {
        id: existing.id.clone(),
        name: existing.name.clone(),
        status,
        scope_type: existing.scope_type,
        scope_id: clone_opt(&existing.scope_id),
        taxonomy_id: existing.taxonomy_id.clone(),
        trigger_type: existing.trigger_type,
        drift_band_bps: existing.drift_band_bps,
        created_at: existing.created_at.clone(),
        updated_at: now,
    }
}

/// Activating profile `id` first archives the profile active for its scope, when that
/// is another profile.
pub open spec fn archives_current(current: Option<TargetProfile>, id: Seq<char>) -> bool {
    current matches Some(c) && c.id@ != id
}

/// The profile to archive before activating `id`, given the one active for its scope:
/// that profile archived at `now` when it is another one, none otherwise.
pub fn displaced_profile(current: &Option<TargetProfile>, id: &str, now: String) -> (r: Option<TargetProfile>)
    ensures
        r is Some <==> archives_current(*current, id@),
        r matches Some(p) ==> p == (TargetProfile { status: ProfileStatus::Archived, updated_at: now, ..current.unwrap() }),
{
    match current {
        Some(c) => {
            if crate::model::str_eq(c.id.as_str(), id) {
                None
            } else {
                Some(with_status(c, ProfileStatus::Archived, now))
            }
        },
        None => None,
    }
}

/// The profiles that activating `existing` saves, in order, given `current`, the profile
/// active for its scope: that profile archived at `now` when it is not profile `id`, and
/// then `existing` made active at `now`.
pub open spec fn activation_saves(existing: TargetProfile, current: Option<TargetProfile>, id: Seq<char>, now: String)
    -> (Option<TargetProfile>, TargetProfile)
{
    (
        if archives_current(current, id) {
            Some(TargetProfile { status: ProfileStatus::Archived, updated_at: now, ..current.unwrap() })
        } else {
            None
        },
        TargetProfile { status: ProfileStatus::Active, updated_at: now, ..existing },
    )
}

/// The profiles to save, in order, when activating `existing` (profile `id`), given the
/// profile active for its scope: the displaced one, if any, and then the activated one.
pub fn activation_writes(existing: &TargetProfile, current: &Option<TargetProfile>, id: &str, now: String)
    -> (w: (Option<TargetProfile>, TargetProfile))
    ensures
        w == activation_saves(*existing, *current, id@, now),
{
    let displaced = displaced_profile(current, id, now.clone());
    let activated = with_status(existing, ProfileStatus::Active, now);
    (displaced, activated)
}

/// Two profiles apply to the same scope.
pub open spec fn same_scope(a: TargetProfile, b: TargetProfile) -> bool {
    a.scope_type == b.scope_type && crate::model::opt_chars(a.scope_id) == crate::model::opt_chars(b.scope_id)
}

/// A store of profiles, keyed by id.
pub open spec fn keyed_by_id(store: Map<Seq<char>, TargetProfile>) -> bool {
    forall|i: Seq<char>| #[trigger] store.dom().contains(i) ==> store[i].id@ == i
}

/// No two active profiles of the store apply to the same scope.
pub open spec fn one_active_per_scope(store: Map<Seq<char>, TargetProfile>) -> bool {
    forall|i: Seq<char>, j: Seq<char>|
        #![trigger store[i], store[j]]
        store.dom().contains(i) && store.dom().contains(j) && i != j && store[i].status == ProfileStatus::Active
            && store[j].status == ProfileStatus::Active ==> !same_scope(store[i], store[j])
}

/// The store after saving a profile: the profile under its id.
pub open spec fn save_profile(store: Map<Seq<char>, TargetProfile>, p: TargetProfile) -> Map<Seq<char>, TargetProfile> {
    store.insert(p.id@, p)
}

/// The store after the saves of activating `existing` given `current`, the profile
/// active for its scope: the displaced profile saved first, when there is one, then the
/// activated one.
pub open spec fn store_after_activation(
    store: Map<Seq<char>, TargetProfile>,
    existing: TargetProfile,
    current: Option<TargetProfile>,
    now: String,
) -> Map<Seq<char>, TargetProfile> {
    let saves = activation_saves(existing, current, existing.id@, now);
    let mid = match saves.0 {
        Some(d) => save_profile(store, d),
        None => store,
    };
    save_profile(mid, saves.1)
}

/// Law: activation keeps one active profile per scope. For a store with at most one
/// active profile per scope, where `current` is the active profile of the scope of the
/// profile to activate (or none is active there), saving what activation saves leaves
/// the activated profile active, the profile it displaces archived, every other profile
/// as it was, and still at most one active profile per scope.
pub proof fn law_activation_keeps_one_active_per_scope(
    store: Map<Seq<char>, TargetProfile>,
    existing: TargetProfile,
    current: Option<TargetProfile>,
    now: String,
)
    requires
        keyed_by_id(store),
        one_active_per_scope(store),
        store.dom().contains(existing.id@),
        store[existing.id@] == existing,
        current matches Some(c) ==> store.dom().contains(c.id@) && store[c.id@] == c
            && c.status == ProfileStatus::Active && same_scope(c, existing),
        current is None ==> forall|i: Seq<char>| #[trigger] store.dom().contains(i)
            && store[i].status == ProfileStatus::Active ==> !same_scope(store[i], existing),
    ensures
        keyed_by_id(store_after_activation(store, existing, current, now)),
        one_active_per_scope(store_after_activation(store, existing, current, now)),
        store_after_activation(store, existing, current, now)[existing.id@]
            == (TargetProfile { status: ProfileStatus::Active, updated_at: now, ..existing }),
        archives_current(current, existing.id@) ==> store_after_activation(store, existing, current, now)[current.unwrap().id@]
            == (TargetProfile { status: ProfileStatus::Archived, updated_at: now, ..current.unwrap() }),
        store_after_activation(store, existing, current, now).dom() == store.dom(),
        forall|i: Seq<char>| #[trigger] store.dom().contains(i) && i != existing.id@
            && !(current matches Some(c) && c.id@ == i) ==> store_after_activation(store, existing, current, now)[i] == store[i],
{
    let after = store_after_activation(store, existing, current, now);
    let e = existing.id@;
    assert forall|i: Seq<char>, j: Seq<char>|
        after.dom().contains(i) && after.dom().contains(j) && i != j && after[i].status == ProfileStatus::Active
            && after[j].status == ProfileStatus::Active implies !same_scope(after[i], after[j]) by {
        if i == e || j == e {
            let o = if i == e { j } else { i };
            assert(after[o] == store[o]);
            assert(store[o].status == ProfileStatus::Active);
            if same_scope(after[i], after[j]) {
                assert(same_scope(store[o], existing));
                match current {
                    Some(c) => {
                        assert(o != c.id@);
                        assert(!same_scope(store[o], store[c.id@]));
                    },
                    None => {},
                }
            }
        } else {
            assert(after[i] == store[i] && after[j] == store[j]);
        }
    }
}

/// A stored node from a validated input node, under the profile and with both
/// timestamps `now`.
pub fn stored_node(profile_id: &str, n: &NewTargetAllocationNode, id: String, now: String) -> (node: TargetAllocationNode)
    ensures
        node.id == id,
        node.profile_id@ == profile_id@,
        node.category_id == n.category_id,
        node.target_bps == n.target_bps,
        node.is_locked == n.is_locked,
        node.is_required == n.is_required,
        node.created_at == now,
        node.updated_at == now,
{
    TargetAllocationNode {
        id,
        profile_id: profile_id.to_string(),
        category_id: n.category_id.clone(),
        target_bps: n.target_bps,
        is_locked: n.is_locked,
        is_required: n.is_required,
        created_at: now.clone(),
        updated_at: now,
    }
}

/// The nodes to store for validated input nodes: one per input node, in order, under
/// the profile, each with a fresh id and both timestamps `now`.
pub fn nodes_to_store(profile_id: &str, nodes: &Vec<NewTargetAllocationNode>, now: String) -> (out: Vec<TargetAllocationNode>)
    ensures
        out@.len() == nodes@.len(),
        forall|i: int| 0 <= i < out@.len() ==> {
            &&& (#[trigger] out@[i]).profile_id@ == profile_id@
            &&& out@[i].category_id == nodes@[i].category_id
            &&& out@[i].target_bps == nodes@[i].target_bps
            &&& out@[i].is_locked == nodes@[i].is_locked
            &&& out@[i].is_required == nodes@[i].is_required
            &&& out@[i].created_at == now
            &&& out@[i].updated_at == now
        },
{
    let mut stored: Vec<TargetAllocationNode> = Vec::new();
    let mut k: usize = 0;
    while k < nodes.len()
        invariant
            k <= nodes@.len(),
            stored@.len() == k,
            forall|i: int| 0 <= i < k ==> {
                &&& (#[trigger] stored@[i]).profile_id@ == profile_id@
                &&& stored@[i].category_id == nodes@[i].category_id
                &&& stored@[i].target_bps == nodes@[i].target_bps
                &&& stored@[i].is_locked == nodes@[i].is_locked
                &&& stored@[i].is_required == nodes@[i].is_required
                &&& stored@[i].created_at == now
                &&& stored@[i].updated_at == now
            },
        decreases nodes@.len() - k,
    {
        stored.push(stored_node(profile_id, &nodes[k], new_id(), now.clone()));
        k = k + 1;
    }
    stored
}

/// The category is one of the taxonomy's.
pub open spec fn in_categories(cats: Seq<Category>, id: Seq<char>) -> bool {
    exists|k: int| 0 <= k < cats.len() && (#[trigger] cats[k]).id@ == id
}

fn has_category(cats: &Vec<Category>, id: &String) -> (r: bool)
    ensures
        r == in_categories(cats@, id@),
{
    let mut k: usize = 0;
    while k < cats.len()
        invariant
            k <= cats@.len(),
            forall|j: int| 0 <= j < k ==> (#[trigger] cats@[j]).id@ != id@,
        decreases cats@.len() - k,
    {
        if crate::model::str_eq(cats[k].id.as_str(), id.as_str()) {
            return true;
        }
        k = k + 1;
    }
    false
}

/// Every node targets a category of the taxonomy; otherwise the first node that does
/// not is named in the error.
pub fn check_node_categories(nodes: &Vec<NewTargetAllocationNode>, cats: &Vec<Category>, taxonomy_id: &str) -> (r: Result<(), Error>)
    ensures
        r is Ok <==> forall|i: int| 0 <= i < nodes@.len() ==> in_categories(cats@, (#[trigger] nodes@[i]).category_id@),
        r matches Err(e) ==> exists|i: int| 0 <= i < nodes@.len() && !in_categories(cats@, (#[trigger] nodes@[i]).category_id@)
            && (forall|j: int| 0 <= j < i ==> in_categories(cats@, (#[trigger] nodes@[j]).category_id@))
            && crate::errors::is_invalid_input(e, "category_id '"@ + nodes@[i].category_id@
                + "' does not belong to taxonomy '"@ + taxonomy_id@ + "'"@),
{
    let mut k: usize = 0;
    while k < nodes.len()
        invariant
            k <= nodes@.len(),
            forall|j: int| 0 <= j < k ==> in_categories(cats@, (#[trigger] nodes@[j]).category_id@),
        decreases nodes@.len() - k,
    {
        if !has_category(cats, &nodes[k].category_id) {
            let mut m = String::from_str("category_id '");
            m.append(nodes[k].category_id.as_str());
            m.append("' does not belong to taxonomy '");
            m.append(taxonomy_id);
            m.append("'");
            proof {
                reveal_strlit("category_id '");
                reveal_strlit("' does not belong to taxonomy '");
                reveal_strlit("'");
                assert(m@ == "category_id '"@ + nodes@[k as int].category_id@ + "' does not belong to taxonomy '"@
                    + taxonomy_id@ + "'"@);
            }
            return Err(invalid(m));
        }
        k = k + 1;
    }
    Ok(())
}

/// The weights rules: each within 0..=10000, no category twice, summing to 10000.
fn check_nodes(nodes: &Vec<NewTargetAllocationNode>) -> (r: Result<(), Error>)
    ensures
        r is Ok <==> nodes_ok(nodes@),
        r matches Err(e) ==> e is Validation,
{
    if !crate::validation::bps_sums_fit(nodes.as_slice()) {
        proof {
            if nodes_ok(nodes@) {
                lemma_ok_nodes_fit(nodes@);
            }
        }
        return Err(invalid(String::from_str("target_bps sum is out of range")));
    }
    validate_nodes_sum(nodes.as_slice())
}

/// The categories that nodes may target, given what the taxonomy service found for the
/// profile's taxonomy: that taxonomy's categories, and none when it found nothing.
pub open spec fn known_categories(taxonomy: Option<TaxonomyWithCategories>) -> Seq<Category> {
    match taxonomy {
        Some(t) => t.categories@,
        None => Seq::empty(),
    }
}

/// Every node targets a category known under the taxonomy lookup `taxonomy`; otherwise
/// the first node that does not is named in the error.
pub fn check_nodes_for_taxonomy(nodes: &Vec<NewTargetAllocationNode>, taxonomy: &Option<TaxonomyWithCategories>, taxonomy_id: &str) -> (r: Result<(), Error>)
    ensures
        r is Ok <==> forall|i: int| 0 <= i < nodes@.len()
            ==> in_categories(known_categories(*taxonomy), (#[trigger] nodes@[i]).category_id@),
        r matches Err(e) ==> exists|i: int| 0 <= i < nodes@.len()
            && !in_categories(known_categories(*taxonomy), (#[trigger] nodes@[i]).category_id@)
            && (forall|j: int| 0 <= j < i ==> in_categories(known_categories(*taxonomy), (#[trigger] nodes@[j]).category_id@))
            && crate::errors::is_invalid_input(e, "category_id '"@ + nodes@[i].category_id@
                + "' does not belong to taxonomy '"@ + taxonomy_id@ + "'"@),
{
    match taxonomy {
        Some(t) => check_node_categories(nodes, &t.categories, taxonomy_id),
        None => {
            let none: Vec<Category> = Vec::new();
            proof {
                assert(none@ == known_categories(*taxonomy));
            }
            check_node_categories(nodes, &none, taxonomy_id)
        },
    }
}

/// A profile's taxonomy must be one that classifies assets: `taxonomy` is what the
/// taxonomy service found for `taxonomy_id`.
pub fn check_asset_taxonomy(taxonomy: &Option<TaxonomyWithCategories>, taxonomy_id: &str) -> (r: Result<(), Error>)
    ensures
        r is Ok <==> (taxonomy matches Some(t) && t.taxonomy.scope@ == "asset"@),
        r matches Err(e) ==> crate::errors::is_invalid_input(e, "taxonomy_id '"@ + taxonomy_id@
            + "' must reference an asset taxonomy"@),
{
    let ok = match taxonomy {
        Some(t) => crate::model::str_eq(t.taxonomy.scope.as_str(), "asset"),
        None => false,
    };
    if ok {
        proof {
            reveal_strlit("asset");
        }
        Ok(())
    } else {
        let mut m = String::from_str("taxonomy_id '");
        m.append(taxonomy_id);
        m.append("' must reference an asset taxonomy");
        proof {
            reveal_strlit("asset");
        }
        Err(invalid(m))
    }
}

fn profile_not_found(id: &str) -> (e: Error)
    ensures
        crate::errors::is_not_found(e, "TargetProfile "@ + id@ + " not found"@),
{
    let mut m = String::from_str("TargetProfile ");
    m.append(id);
    m.append(" not found");
    proof {
        reveal_strlit("TargetProfile ");
        reveal_strlit(" not found");
    }
    not_found(m)
}

/// What a lookup of profile `id` comes to: the profile when there is one, a not-found
/// error when there is none, and the lookup's own error when it failed.
pub fn found_profile(lookup: Result<Option<TargetProfile>, Error>, id: &str) -> (r: Result<TargetProfile, Error>)
    ensures
        lookup matches Ok(Some(p)) ==> r == Ok::<TargetProfile, Error>(p),
        lookup is Ok && lookup->Ok_0 is None ==> (r matches Err(e)
            && crate::errors::is_not_found(e, "TargetProfile "@ + id@ + " not found"@)),
        lookup matches Err(e) ==> r == Err::<TargetProfile, Error>(e),
{
    match lookup {
        Ok(Some(p)) => Ok(p),
        Ok(None) => Err(profile_not_found(id)),
        Err(e) => Err(e),
    }
}

/// Manages target profiles over a repository, checking node categories against the
/// taxonomy service.
pub struct TargetProfileService<R, X> {
    repository: R,
    taxonomy_service: X,
}

impl<R, X> TargetProfileService<R, X> {
    /// The repository and taxonomy service the service reads and writes.
    pub closed spec fn parts(&self) -> (R, X) {
        (self.repository, self.taxonomy_service)
    }

    pub fn new(repository: R, taxonomy_service: X) -> (s: Self)
        ensures
            s.parts() == (repository, taxonomy_service),
    {
        TargetProfileService { repository, taxonomy_service }
    }
}

/// `p` is a new draft of `input`: its name trimmed, the input's fields, status draft,
/// and one timestamp for its creation and its update.
pub open spec fn is_draft_of(p: TargetProfile, input: NewTargetProfile) -> bool {
    &&& p.name@ == trim(input.name@)
    &&& p.status == ProfileStatus::Draft
    &&& p.scope_type == input.scope_type
    &&& p.scope_id == input.scope_id
    &&& p.taxonomy_id == input.taxonomy_id
    &&& p.trigger_type == input.trigger_type
    &&& p.drift_band_bps == input.drift_band_bps
    &&& p.created_at == p.updated_at
}

/// `p` is `existing` edited by `input`: identity, status and creation time kept, the
/// name trimmed and the other fields from the input.
pub open spec fn is_edit_of(p: TargetProfile, existing: TargetProfile, input: NewTargetProfile) -> bool {
    &&& p.id == existing.id
    &&& p.name@ == trim(input.name@)
    &&& p.status == existing.status
    &&& p.scope_type == input.scope_type
    &&& p.scope_id == input.scope_id
    &&& p.taxonomy_id == input.taxonomy_id
    &&& p.trigger_type == input.trigger_type
    &&& p.drift_band_bps == input.drift_band_bps
    &&& p.created_at == existing.created_at
}

/// `out` are the nodes stored for validated input nodes: one per input node, in order,
/// under the profile, each with the input node's weights and flags and both timestamps
/// `now`.
pub open spec fn stored_nodes_of(out: Seq<TargetAllocationNode>, profile_id: Seq<char>, nodes: Seq<NewTargetAllocationNode>,
    now: String) -> bool {
    &&& out.len() == nodes.len()
    &&& forall|i: int| 0 <= i < out.len() ==> {
        &&& (#[trigger] out[i]).profile_id@ == profile_id
        &&& out[i].category_id == nodes[i].category_id
        &&& out[i].target_bps == nodes[i].target_bps
        &&& out[i].is_locked == nodes[i].is_locked
        &&& out[i].is_required == nodes[i].is_required
        &&& out[i].created_at == now
        &&& out[i].updated_at == now
    }
}

/// The taxonomy service answered the lookup of taxonomy `id` with an asset taxonomy.
pub open spec fn asset_taxonomy_answered<X: TaxonomyServiceTrait>(x: X, id: Seq<char>) -> bool {
    exists|t: TaxonomyWithCategories| #[trigger] x.taxonomy_answer(id, Ok(Some(t))) && t.taxonomy.scope@ == "asset"@
}

/// Why the taxonomy check of a profile fails with `e`: the taxonomy service failed with
/// `e`, or it answered with no asset taxonomy and `e` says the id must name one.
pub open spec fn taxonomy_check_error<X: TaxonomyServiceTrait>(x: X, id: Seq<char>, e: Error) -> bool {
    ||| x.taxonomy_answer(id, Err(e))
    ||| (exists|t: Option<TaxonomyWithCategories>| #[trigger] x.taxonomy_answer(id, Ok(t))
        && !(t matches Some(tw) && tw.taxonomy.scope@ == "asset"@))
        && crate::errors::is_invalid_input(e, "taxonomy_id '"@ + id + "' must reference an asset taxonomy"@)
}

/// Why a lookup of profile `id` fails with `e`: the store failed with `e`, or it has no
/// such profile and `e` is the not-found error.
pub open spec fn lookup_error<R: TargetProfileRepositoryTrait>(repo: R, id: Seq<char>, e: Error) -> bool {
    ||| repo.profile_answer(id, Err(e))
    ||| repo.profile_answer(id, Ok(None)) && crate::errors::is_not_found(e, "TargetProfile "@ + id + " not found"@)
}

/// What activation reads: profile `id` is `existing`, and the profile active for its
/// scope is `current`.
pub open spec fn activation_read<R: TargetProfileRepositoryTrait>(repo: R, id: Seq<char>, existing: TargetProfile,
    current: Option<TargetProfile>) -> bool {
    &&& repo.profile_answer(id, Ok(Some(existing)))
    &&& repo.active_answer(existing.scope_type.spec_str(), opt_chars(existing.scope_id), Ok(current))
}

/// The displaced profile, if any, was saved.
pub open spec fn displaced_saved<R: TargetProfileRepositoryTrait>(repo: R, displaced: Option<TargetProfile>) -> bool {
    match displaced {
        Some(d) => exists|x: TargetProfile| #[trigger] repo.update_answer(d, Ok(x)),
        None => true,
    }
}

/// Why the saves of an activation fail with `e`: saving the displaced profile failed,
/// or it was saved (or there was none) and saving the activated one failed.
pub open spec fn activation_save_error<R: TargetProfileRepositoryTrait>(repo: R, saves: (Option<TargetProfile>, TargetProfile), e: Error) -> bool {
    ||| (saves.0 matches Some(d) && repo.update_answer(d, Err(e)))
    ||| displaced_saved(repo, saves.0) && repo.update_answer(saves.1, Err(e))
}

impl<R: TargetProfileRepositoryTrait, X: TaxonomyServiceTrait> TargetProfileServiceTrait for TargetProfileService<R, X> {
    open spec fn profile_answer(&self, id: Seq<char>, r: Result<Option<TargetProfile>, Error>) -> bool {
        self.parts().0.profile_answer(id, r)
    }

    open spec fn active_answer(&self, scope_type: Seq<char>, scope_id: Option<Seq<char>>, r: Result<Option<TargetProfile>, Error>) -> bool {
        self.parts().0.active_answer(scope_type, scope_id, r)
    }

    open spec fn nodes_answer(&self, profile_id: Seq<char>, r: Result<Vec<TargetAllocationNode>, Error>) -> bool {
        self.parts().0.nodes_answer(profile_id, r)
    }

    /// The store's answer for the profile.
    fn get_profile(&self, id: &str) -> (r: Result<Option<TargetProfile>, Error>) {
        self.repository.get_profile(id)
    }

    /// The store's answer for all profiles.
    fn list_profiles(&self) -> (r: Result<Vec<TargetProfile>, Error>)
        ensures
            self.parts().0.profiles_answer(r),
    {
        self.repository.list_profiles()
    }

    /// The store's answer for the active profile of the scope.
    fn get_active_profile_for_scope(&self, scope_type: &str, scope_id: Option<&str>) -> (r: Result<Option<TargetProfile>, Error>) {
        self.repository.get_active_profile_for_scope(scope_type, scope_id)
    }

    /// The store's answer for the nodes of the profile.
    fn list_nodes_for_profile(&self, profile_id: &str) -> (r: Result<Vec<TargetAllocationNode>, Error>) {
        self.repository.list_nodes_for_profile(profile_id)
    }

    /// Validates the input and checks that its taxonomy classifies assets, then hands the
    /// store a new draft of it and returns the store's answer.
    fn create_profile(&self, input: NewTargetProfile) -> (r: Result<TargetProfile, Error>)
        ensures
            new_profile_verdict(input) matches Err(m) ==> (r matches Err(e) && crate::errors::is_invalid_input(e, m)),
            r matches Ok(p) ==> new_profile_verdict(input) is Ok && asset_taxonomy_answered(self.parts().1, input.taxonomy_id@)
                && exists|d: TargetProfile| #[trigger] self.parts().0.create_answer(d, Ok(p)) && is_draft_of(d, input),
            r matches Err(e) ==> (new_profile_verdict(input) is Ok ==> taxonomy_check_error(self.parts().1, input.taxonomy_id@, e)
                || (asset_taxonomy_answered(self.parts().1, input.taxonomy_id@)
                    && exists|d: TargetProfile| #[trigger] self.parts().0.create_answer(d, Err(e)) && is_draft_of(d, input))),
    {
        match validate_new_profile(&input) {
            Ok(()) => {},
            Err(e) => return Err(e),
        }
        let t = match self.taxonomy_service.get_taxonomy(input.taxonomy_id.as_str()) {
            Ok(t) => t,
            Err(e) => return Err(e),
        };
        match check_asset_taxonomy(&t, input.taxonomy_id.as_str()) {
            Ok(()) => {},
            Err(e) => return Err(e),
        }
        proof {
            let tw = t->Some_0;
            assert(self.parts().1.taxonomy_answer(input.taxonomy_id@, Ok(Some(tw))));
        }
        let profile = draft_profile(&input, new_id(), utc_now_text());
        let ghost d = profile;
        let r = self.repository.create_profile(profile);
        proof {
            assert(self.parts().0.create_answer(d, r) && is_draft_of(d, input));
        }
        r
    }

    /// Validates the input and checks that its taxonomy classifies assets, then hands the
    /// store the existing profile edited by it and returns the store's answer.
    fn update_profile(&self, id: &str, input: NewTargetProfile) -> (r: Result<TargetProfile, Error>)
        ensures
            new_profile_verdict(input) matches Err(m) ==> (r matches Err(e) && crate::errors::is_invalid_input(e, m)),
            r matches Ok(p) ==> new_profile_verdict(input) is Ok && asset_taxonomy_answered(self.parts().1, input.taxonomy_id@)
                && exists|existing: TargetProfile, d: TargetProfile|
                    #![trigger self.parts().0.update_answer(d, Ok(p)), self.parts().0.profile_answer(id@, Ok(Some(existing)))]
                    self.parts().0.update_answer(d, Ok(p))
                    && self.parts().0.profile_answer(id@, Ok(Some(existing))) && is_edit_of(d, existing, input),
            r matches Err(e) ==> (new_profile_verdict(input) is Ok ==> taxonomy_check_error(self.parts().1, input.taxonomy_id@, e)
                || (asset_taxonomy_answered(self.parts().1, input.taxonomy_id@) && (lookup_error(self.parts().0, id@, e)
                    || exists|existing: TargetProfile, d: TargetProfile|
                        #![trigger self.parts().0.update_answer(d, Err(e)), self.parts().0.profile_answer(id@, Ok(Some(existing)))]
                        self.parts().0.update_answer(d, Err(e))
                        && self.parts().0.profile_answer(id@, Ok(Some(existing))) && is_edit_of(d, existing, input)))),
    {
        match validate_new_profile(&input) {
            Ok(()) => {},
            Err(e) => return Err(e),
        }
        let t = match self.taxonomy_service.get_taxonomy(input.taxonomy_id.as_str()) {
            Ok(t) => t,
            Err(e) => return Err(e),
        };
        match check_asset_taxonomy(&t, input.taxonomy_id.as_str()) {
            Ok(()) => {},
            Err(e) => return Err(e),
        }
        proof {
            let tw = t->Some_0;
            assert(self.parts().1.taxonomy_answer(input.taxonomy_id@, Ok(Some(tw))));
        }
        let existing = match found_profile(self.repository.get_profile(id), id) {
            Ok(p) => p,
            Err(e) => return Err(e),
        };
        let updated = edited_profile(&existing, &input, utc_now_text());
        let ghost d = updated;
        let r = self.repository.update_profile(updated);
        proof {
            assert(self.parts().0.update_answer(d, r) && self.parts().0.profile_answer(id@, Ok(Some(existing)))
                && is_edit_of(d, existing, input));
        }
        r
    }

    /// Reads the profile and the profile active for its scope, hands the store that one
    /// archived (when it is another profile) and then this one active, and returns the
    /// store's answer to the last save.
    fn activate_profile(&self, id: &str) -> (r: Result<TargetProfile, Error>)
        ensures
            r matches Ok(p) ==> exists|existing: TargetProfile, current: Option<TargetProfile>, now: String|
                #![trigger activation_saves(existing, current, id@, now)]
                activation_read(self.parts().0, id@, existing, current)
                && displaced_saved(self.parts().0, activation_saves(existing, current, id@, now).0)
                && self.parts().0.update_answer(activation_saves(existing, current, id@, now).1, Ok(p)),
            r matches Err(e) ==> lookup_error(self.parts().0, id@, e)
                || (exists|existing: TargetProfile| #[trigger] self.parts().0.profile_answer(id@, Ok(Some(existing)))
                    && self.parts().0.active_answer(existing.scope_type.spec_str(), opt_chars(existing.scope_id), Err(e)))
                || (exists|existing: TargetProfile, current: Option<TargetProfile>, now: String|
                    #![trigger activation_saves(existing, current, id@, now)]
                    activation_read(self.parts().0, id@, existing, current)
                    && activation_save_error(self.parts().0, activation_saves(existing, current, id@, now), e)),
    {
        let existing = match found_profile(self.repository.get_profile(id), id) {
            Ok(p) => p,
            Err(e) => return Err(e),
        };
        let scope_id: Option<&str> = match &existing.scope_id {
            Some(s) => Some(s.as_str()),
            None => None,
        };
        proof {
            assert(opt_str(scope_id) == opt_chars(existing.scope_id));
        }
        let current = match self.repository.get_active_profile_for_scope(existing.scope_type.as_str(), scope_id) {
            Ok(c) => c,
            Err(e) => {
                proof {
                    assert(self.parts().0.profile_answer(id@, Ok(Some(existing))));
                }
                return Err(e);
            },
        };
        let now = utc_now_text();
        let ghost now0 = now;
        let (displaced, activated) = activation_writes(&existing, &current, id, now);
        let ghost saves = activation_saves(existing, current, id@, now0);
        proof {
            assert(activation_read(self.parts().0, id@, existing, current));
        }
        match displaced {
            Some(archived) => {
                let ghost d = archived;
                match self.repository.update_profile(archived) {
                    Ok(x) => {
                        proof {
                            assert(self.parts().0.update_answer(d, Ok(x)));
                        }
                    },
                    Err(e) => {
                        proof {
                            assert(activation_save_error(self.parts().0, saves, e));
                        }
                        return Err(e);
                    },
                }
            },
            None => {},
        }
        proof {
            assert(displaced_saved(self.parts().0, saves.0));
        }
        let r = self.repository.update_profile(activated);
        proof {
            if r is Err {
                assert(activation_save_error(self.parts().0, saves, r->Err_0));
            }
        }
        r
    }

    /// Reads the profile, hands the store it archived, and returns the store's answer.
    fn archive_profile(&self, id: &str) -> (r: Result<TargetProfile, Error>)
        ensures
            r matches Ok(p) ==> exists|existing: TargetProfile, now: String|
                #[trigger] self.parts().0.update_answer(TargetProfile { status: ProfileStatus::Archived, updated_at: now, ..existing }, Ok(p))
                && self.parts().0.profile_answer(id@, Ok(Some(existing))),
            r matches Err(e) ==> lookup_error(self.parts().0, id@, e)
                || exists|existing: TargetProfile, now: String|
                    #[trigger] self.parts().0.update_answer(TargetProfile { status: ProfileStatus::Archived, updated_at: now, ..existing }, Err(e))
                    && self.parts().0.profile_answer(id@, Ok(Some(existing))),
    {
        let existing = match found_profile(self.repository.get_profile(id), id) {
            Ok(p) => p,
            Err(e) => return Err(e),
        };
        let now = utc_now_text();
        let ghost now0 = now;
        let updated = with_status(&existing, ProfileStatus::Archived, now);
        let r = self.repository.update_profile(updated);
        proof {
            assert(self.parts().0.update_answer(TargetProfile { status: ProfileStatus::Archived, updated_at: now0, ..existing }, r));
        }
        r
    }

    /// Asks the store to delete the profile; its answer, without the count.
    fn delete_profile(&self, id: &str) -> (r: Result<(), Error>)
        ensures
            r is Ok ==> exists|n: usize| #[trigger] self.parts().0.delete_answer(id@, Ok(n)),
            r matches Err(e) ==> self.parts().0.delete_answer(id@, Err(e)),
    {
        match self.repository.delete_profile(id) {
            Ok(n) => {
                proof {
                    assert(self.parts().0.delete_answer(id@, Ok(n)));
                }
                Ok(())
            },
            Err(e) => Err(e),
        }
    }

    /// Validates the weights (each within 0..=10000, no category twice, summing to
    /// 10000) and their categories against the profile's taxonomy (none is known when
    /// the taxonomy is missing), then hands the store the nodes and returns its answer.
    fn save_nodes(&self, profile_id: &str, nodes: Vec<NewTargetAllocationNode>) -> (r: Result<Vec<TargetAllocationNode>, Error>)
        ensures
            !nodes_ok(nodes@) ==> (r matches Err(e) && e is Validation),
            r matches Ok(v) ==> nodes_ok(nodes@) && exists|profile: TargetProfile, t: Option<TaxonomyWithCategories>,
                stored: Seq<TargetAllocationNode>, now: String|
                #![trigger self.parts().0.save_nodes_answer(profile_id@, stored, Ok(v)), self.parts().0.profile_answer(profile_id@, Ok(Some(profile))),
                    self.parts().1.taxonomy_answer(profile.taxonomy_id@, Ok(t)), stored_nodes_of(stored, profile_id@, nodes@, now)]
                self.parts().0.save_nodes_answer(profile_id@, stored, Ok(v))
                && self.parts().0.profile_answer(profile_id@, Ok(Some(profile)))
                && self.parts().1.taxonomy_answer(profile.taxonomy_id@, Ok(t))
                && (forall|i: int| 0 <= i < nodes@.len() ==> in_categories(known_categories(t), (#[trigger] nodes@[i]).category_id@))
                && stored_nodes_of(stored, profile_id@, nodes@, now),
            r matches Err(e) ==> !nodes_ok(nodes@) || lookup_error(self.parts().0, profile_id@, e)
                || exists|profile: TargetProfile| #[trigger] self.parts().0.profile_answer(profile_id@, Ok(Some(profile))) && (
                    self.parts().1.taxonomy_answer(profile.taxonomy_id@, Err(e))
                    || (exists|t: Option<TaxonomyWithCategories>| #[trigger] self.parts().1.taxonomy_answer(profile.taxonomy_id@, Ok(t))
                        && !(forall|i: int| 0 <= i < nodes@.len() ==> in_categories(known_categories(t), (#[trigger] nodes@[i]).category_id@))
                        && e is Validation)
                    || (exists|stored: Seq<TargetAllocationNode>, now: String|
                        #![trigger self.parts().0.save_nodes_answer(profile_id@, stored, Err(e)), stored_nodes_of(stored, profile_id@, nodes@, now)]
                        self.parts().0.save_nodes_answer(profile_id@, stored, Err(e))
                        && stored_nodes_of(stored, profile_id@, nodes@, now))),
    {
        match check_nodes(&nodes) {
            Ok(()) => {},
            Err(e) => return Err(e),
        }
        let profile = match found_profile(self.repository.get_profile(profile_id), profile_id) {
            Ok(p) => p,
            Err(e) => return Err(e),
        };
        let t = match self.taxonomy_service.get_taxonomy(profile.taxonomy_id.as_str()) {
            Ok(t) => t,
            Err(e) => {
                proof {
                    assert(self.parts().0.profile_answer(profile_id@, Ok(Some(profile))));
                }
                return Err(e);
            },
        };
        match check_nodes_for_taxonomy(&nodes, &t, profile.taxonomy_id.as_str()) {
            Ok(()) => {},
            Err(e) => {
                proof {
                    assert(self.parts().0.profile_answer(profile_id@, Ok(Some(profile))));
                    assert(self.parts().1.taxonomy_answer(profile.taxonomy_id@, Ok(t)));
                }
                return Err(e);
            },
        }
        let now = utc_now_text();
        let ghost now0 = now;
        let stored = nodes_to_store(profile_id, &nodes, now);
        let ghost st = stored@;
        let r = self.repository.save_nodes(profile_id, stored);
        proof {
            assert(stored_nodes_of(st, profile_id@, nodes@, now0));
            assert(self.parts().0.save_nodes_answer(profile_id@, st, r));
            assert(self.parts().0.profile_answer(profile_id@, Ok(Some(profile))));
            assert(self.parts().1.taxonomy_answer(profile.taxonomy_id@, Ok(t)));
            assert(forall|i: int| 0 <= i < nodes@.len() ==> in_categories(known_categories(t), (#[trigger] nodes@[i]).category_id@));
            assert(nodes_ok(nodes@));
            if r is Ok {
                let v = r->Ok_0;
                assert(self.parts().0.save_nodes_answer(profile_id@, st, Ok(v)));
            }
        }
        r
    }
}

} // verus!
