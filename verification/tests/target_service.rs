use std::cell::RefCell;

use allocation_targets::errors::{DatabaseError, Error, ValidationError};
use allocation_targets::model::{
    NewTargetAllocationNode, NewTargetProfile, ProfileStatus, ScopeType, TargetAllocationNode,
    TargetProfile, TriggerType,
};
use allocation_targets::target_service::{
    activation_writes, check_asset_taxonomy, check_nodes_for_taxonomy, displaced_profile, found_profile,
    nodes_to_store, TargetProfileRepositoryTrait, TargetProfileService, TargetProfileServiceTrait,
};
use allocation_targets::taxonomies::{Category, Taxonomy, TaxonomyServiceTrait, TaxonomyWithCategories};

#[derive(Default)]
struct MemoryRepo {
    profiles: RefCell<Vec<TargetProfile>>,
    nodes: RefCell<Vec<TargetAllocationNode>>,
}

impl TargetProfileRepositoryTrait for MemoryRepo {
    fn get_profile(&self, id: &str) -> Result<Option<TargetProfile>, Error> {
        Ok(self.profiles.borrow().iter().find(|p| p.id == id).cloned())
    }
    fn list_profiles(&self) -> Result<Vec<TargetProfile>, Error> {
        Ok(self.profiles.borrow().clone())
    }
    fn get_active_profile_for_scope(
        &self,
        scope_type: &str,
        scope_id: Option<&str>,
    ) -> Result<Option<TargetProfile>, Error> {
        Ok(self
            .profiles
            .borrow()
            .iter()
            .find(|p| {
                p.status == ProfileStatus::Active
                    && p.scope_type.as_str() == scope_type
                    && p.scope_id.as_deref() == scope_id
            })
            .cloned())
    }
    fn list_nodes_for_profile(&self, profile_id: &str) -> Result<Vec<TargetAllocationNode>, Error> {
        Ok(self.nodes.borrow().iter().filter(|n| n.profile_id == profile_id).cloned().collect())
    }
    fn create_profile(&self, profile: TargetProfile) -> Result<TargetProfile, Error> {
        self.profiles.borrow_mut().push(profile.clone());
        Ok(profile)
    }
    fn update_profile(&self, profile: TargetProfile) -> Result<TargetProfile, Error> {
        let mut ps = self.profiles.borrow_mut();
        for p in ps.iter_mut() {
            if p.id == profile.id {
                *p = profile.clone();
            }
        }
        Ok(profile)
    }
    fn delete_profile(&self, id: &str) -> Result<usize, Error> {
        let mut ps = self.profiles.borrow_mut();
        let before = ps.len();
        ps.retain(|p| p.id != id);
        Ok(before - ps.len())
    }
    fn save_nodes(
        &self,
        profile_id: &str,
        nodes: Vec<TargetAllocationNode>,
    ) -> Result<Vec<TargetAllocationNode>, Error> {
        let mut all = self.nodes.borrow_mut();
        all.retain(|n| n.profile_id != profile_id);
        all.extend(nodes.iter().cloned());
        Ok(nodes)
    }
}

struct Taxonomies;

impl TaxonomyServiceTrait for Taxonomies {
    fn get_taxonomy(&self, id: &str) -> Result<Option<TaxonomyWithCategories>, Error> {
        if id != "asset_classes" {
            return Ok(None);
        }
        let cat = |cid: &str| Category {
            id: cid.to_string(),
            taxonomy_id: id.to_string(),
            parent_id: None,
            name: cid.to_string(),
            key: cid.to_lowercase(),
            color: "#000".to_string(),
            description: None,
            sort_order: 0,
        };
        Ok(Some(TaxonomyWithCategories {
            taxonomy: Taxonomy {
                id: id.to_string(),
                name: "Asset Classes".to_string(),
                color: "#000".to_string(),
                description: None,
                is_system: true,
                is_single_select: false,
                sort_order: 0,
                scope: "asset".to_string(),
            },
            categories: vec![cat("EQUITY"), cat("BONDS")],
        }))
    }
}

fn service() -> TargetProfileService<MemoryRepo, Taxonomies> {
    TargetProfileService::new(MemoryRepo::default(), Taxonomies)
}

fn input(name: &str) -> NewTargetProfile {
    NewTargetProfile {
        name: name.to_string(),
        scope_type: ScopeType::All,
        scope_id: None,
        taxonomy_id: "asset_classes".to_string(),
        trigger_type: TriggerType::Threshold,
        drift_band_bps: 500,
    }
}

fn node(category_id: &str, bps: i32) -> NewTargetAllocationNode {
    NewTargetAllocationNode {
        profile_id: "ignored".to_string(),
        category_id: category_id.to_string(),
        target_bps: bps,
        is_locked: false,
        is_required: true,
    }
}

#[test]
fn create_profile_stores_a_trimmed_draft() {
    let svc = service();
    let p = svc.create_profile(input("  Growth  ")).unwrap();
    assert_eq!(p.name, "Growth");
    assert_eq!(p.status, ProfileStatus::Draft);
    assert_eq!(p.created_at, p.updated_at);
    assert!(!p.id.is_empty());
    assert_eq!(svc.list_profiles().unwrap().len(), 1);
}

#[test]
fn create_profile_rejects_blank_name() {
    let err = service().create_profile(input("   ")).unwrap_err();
    assert!(matches!(err, Error::Validation(ValidationError::InvalidInput(_))));
}

#[test]
fn update_of_missing_profile_is_not_found() {
    let err = service().update_profile("nope", input("X")).unwrap_err();
    assert_eq!(err, Error::Database(DatabaseError::NotFound("TargetProfile nope not found".to_string())));
}

#[test]
fn activating_archives_the_previous_active_profile() {
    let svc = service();
    let a = svc.create_profile(input("A")).unwrap();
    let b = svc.create_profile(input("B")).unwrap();
    svc.activate_profile(&a.id).unwrap();
    svc.activate_profile(&b.id).unwrap();
    assert_eq!(svc.get_profile(&a.id).unwrap().unwrap().status, ProfileStatus::Archived);
    assert_eq!(svc.get_profile(&b.id).unwrap().unwrap().status, ProfileStatus::Active);
    let archived = svc.archive_profile(&b.id).unwrap();
    assert_eq!(archived.status, ProfileStatus::Archived);
}

#[test]
fn save_nodes_stores_valid_weights_under_the_profile() {
    let svc = service();
    let p = svc.create_profile(input("A")).unwrap();
    let saved = svc.save_nodes(&p.id, vec![node("EQUITY", 6000), node("BONDS", 4000)]).unwrap();
    assert_eq!(saved.len(), 2);
    assert!(saved.iter().all(|n| n.profile_id == p.id));
    assert_eq!(saved[0].category_id, "EQUITY");
    assert_eq!(saved[1].target_bps, 4000);
    assert_eq!(svc.list_nodes_for_profile(&p.id).unwrap().len(), 2);
}

#[test]
fn save_nodes_rejects_weights_not_summing_to_whole() {
    let svc = service();
    let p = svc.create_profile(input("A")).unwrap();
    let err = svc.save_nodes(&p.id, vec![node("EQUITY", 6000), node("BONDS", 3000)]).unwrap_err();
    assert!(matches!(err, Error::Validation(_)));
}

#[test]
fn save_nodes_rejects_category_outside_taxonomy() {
    let svc = service();
    let p = svc.create_profile(input("A")).unwrap();
    let err = svc.save_nodes(&p.id, vec![node("EQUITY", 6000), node("GOLD", 4000)]).unwrap_err();
    assert_eq!(
        err,
        Error::Validation(ValidationError::InvalidInput(
            "category_id 'GOLD' does not belong to taxonomy 'asset_classes'".to_string()
        ))
    );
}

#[test]
fn delete_removes_the_profile() {
    let svc = service();
    let p = svc.create_profile(input("A")).unwrap();
    svc.delete_profile(&p.id).unwrap();
    assert!(svc.get_profile(&p.id).unwrap().is_none());
}

fn stored(id: &str, status: ProfileStatus) -> TargetProfile {
    TargetProfile {
        id: id.to_string(),
        name: id.to_string(),
        status,
        scope_type: ScopeType::All,
        scope_id: None,
        taxonomy_id: "asset_classes".to_string(),
        trigger_type: TriggerType::Threshold,
        drift_band_bps: 500,
        created_at: "2026-01-01T00:00:00Z".to_string(),
        updated_at: "2026-01-01T00:00:00Z".to_string(),
    }
}

#[test]
fn displaced_profile_is_the_other_active_one() {
    let now = "2026-02-01T00:00:00Z".to_string();
    let other = Some(stored("a", ProfileStatus::Active));
    let d = displaced_profile(&other, "b", now.clone()).unwrap();
    assert_eq!(d.id, "a");
    assert_eq!(d.status, ProfileStatus::Archived);
    assert_eq!(d.updated_at, now);
    assert_eq!(d.created_at, "2026-01-01T00:00:00Z");
    assert!(displaced_profile(&other, "a", now.clone()).is_none());
    assert!(displaced_profile(&None, "a", now).is_none());
}

#[test]
fn create_profile_rejects_taxonomy_that_is_not_an_asset_taxonomy() {
    let svc = service();
    let err = svc.create_profile(NewTargetProfile { taxonomy_id: "regions-x".to_string(), ..input("A") }).unwrap_err();
    assert_eq!(
        err,
        Error::Validation(ValidationError::InvalidInput(
            "taxonomy_id 'regions-x' must reference an asset taxonomy".to_string()
        ))
    );
}

#[test]
fn missing_taxonomy_is_not_an_asset_taxonomy() {
    assert!(check_asset_taxonomy(&None, "t").is_err());
}

#[test]
fn found_profile_reports_a_missing_profile() {
    let err = found_profile(Ok(None), "p-9").unwrap_err();
    assert_eq!(err, Error::Database(DatabaseError::NotFound("TargetProfile p-9 not found".to_string())));
    let p = found_profile(Ok(Some(stored("a", ProfileStatus::Draft))), "a").unwrap();
    assert_eq!(p.id, "a");
    let down = Error::Database(DatabaseError::NotFound("db".to_string()));
    assert_eq!(found_profile(Err(down.clone()), "a").unwrap_err(), down);
}

#[test]
fn activation_writes_archive_the_other_active_profile_first() {
    let now = "2026-03-01T00:00:00Z".to_string();
    let existing = stored("b", ProfileStatus::Draft);
    let (displaced, activated) = activation_writes(&existing, &Some(stored("a", ProfileStatus::Active)), "b", now.clone());
    let displaced = displaced.unwrap();
    assert_eq!(displaced.id, "a");
    assert_eq!(displaced.status, ProfileStatus::Archived);
    assert_eq!(activated.id, "b");
    assert_eq!(activated.status, ProfileStatus::Active);
    assert_eq!(activated.updated_at, now);
    assert_eq!(activated.created_at, "2026-01-01T00:00:00Z");
    let (none, again) = activation_writes(&existing, &Some(stored("b", ProfileStatus::Active)), "b", now);
    assert!(none.is_none());
    assert_eq!(again.status, ProfileStatus::Active);
}

#[test]
fn activating_one_profile_keeps_one_active_per_scope() {
    let svc = service();
    let a = svc.create_profile(input("A")).unwrap();
    let b = svc.create_profile(input("B")).unwrap();
    let c = svc.create_profile(input("C")).unwrap();
    svc.activate_profile(&a.id).unwrap();
    svc.activate_profile(&b.id).unwrap();
    let r = svc.activate_profile(&c.id).unwrap();
    assert_eq!(r.status, ProfileStatus::Active);
    let active: Vec<_> = svc.list_profiles().unwrap().into_iter().filter(|p| p.status == ProfileStatus::Active).collect();
    assert_eq!(active.len(), 1);
    assert_eq!(active[0].id, c.id);
    assert_eq!(svc.get_profile(&b.id).unwrap().unwrap().status, ProfileStatus::Archived);
}

#[test]
fn nodes_without_a_taxonomy_name_no_known_category() {
    let err = check_nodes_for_taxonomy(&vec![node("EQUITY", 10000)], &None, "gone").unwrap_err();
    assert_eq!(
        err,
        Error::Validation(ValidationError::InvalidInput(
            "category_id 'EQUITY' does not belong to taxonomy 'gone'".to_string()
        ))
    );
}

#[test]
fn nodes_to_store_keep_the_input_weights() {
    let out = nodes_to_store("p-1", &vec![node("EQUITY", 7000), node("BONDS", 3000)], "2026-04-01T00:00:00Z".to_string());
    assert_eq!(out.len(), 2);
    assert_eq!(out[0].profile_id, "p-1");
    assert_eq!(out[0].category_id, "EQUITY");
    assert_eq!(out[1].target_bps, 3000);
    assert!(out[1].is_required);
    assert_eq!(out[0].created_at, "2026-04-01T00:00:00Z");
    assert_ne!(out[0].id, out[1].id);
}

#[test]
fn save_nodes_rejects_a_weight_above_the_whole() {
    let svc = service();
    let p = svc.create_profile(input("A")).unwrap();
    let err = svc.save_nodes(&p.id, vec![node("EQUITY", 12000), node("BONDS", -2000)]).unwrap_err();
    assert!(matches!(err, Error::Validation(_)));
}
