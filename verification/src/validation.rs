//! Validation rules for target profiles and their weights.

use vstd::prelude::*;
use crate::errors::{Error, ValidationError, invalid, is_invalid_input};
use crate::model::{NewTargetAllocationNode, NewTargetProfile, ScopeType};
use crate::text::{int_to_string, trim, trim_string};

verus! {

/// The sum of the first `k` node weights.
pub open spec fn prefix_bps_sum(nodes: Seq<NewTargetAllocationNode>, k: int) -> int
    decreases k,
{
    if k <= 0 {
        0
    } else {
        prefix_bps_sum(nodes, k - 1) + nodes[k - 1].target_bps
    }
}

/// Every running sum of the node weights fits in an `i32`.
pub open spec fn sums_fit_i32(nodes: Seq<NewTargetAllocationNode>) -> bool {
    forall|k: int| 0 <= k <= nodes.len() ==> i32::MIN <= #[trigger] prefix_bps_sum(nodes, k) <= i32::MAX
}

/// The weights rules: the weights sum to exactly 10000 bps, each lies between 0 and
/// 10000, and no category appears twice.
pub open spec fn nodes_ok(nodes: Seq<NewTargetAllocationNode>) -> bool {
    prefix_bps_sum(nodes, nodes.len() as int) == 10000 && forall|i: int| 0 <= i < nodes.len() ==> !node_invalid(nodes, i)
}

proof fn lemma_prefix_nonneg(nodes: Seq<NewTargetAllocationNode>, k: int)
    requires
        0 <= k <= nodes.len(),
        forall|i: int| 0 <= i < nodes.len() ==> 0 <= #[trigger] nodes[i].target_bps,
    ensures
        0 <= prefix_bps_sum(nodes, k),
    decreases k,
{
    if k > 0 {
        lemma_prefix_nonneg(nodes, k - 1);
    }
}

proof fn lemma_prefix_below_total(nodes: Seq<NewTargetAllocationNode>, k: int)
    requires
        0 <= k <= nodes.len(),
        forall|i: int| 0 <= i < nodes.len() ==> 0 <= #[trigger] nodes[i].target_bps,
    ensures
        prefix_bps_sum(nodes, k) <= prefix_bps_sum(nodes, nodes.len() as int),
    decreases nodes.len() - k,
{
    if k < nodes.len() {
        lemma_prefix_below_total(nodes, k + 1);
    }
}

/// Weights that obey the rules have every running sum between 0 and 10000, so all of
/// them fit in an `i32`.
pub proof fn lemma_ok_nodes_fit(nodes: Seq<NewTargetAllocationNode>)
    requires
        nodes_ok(nodes),
    ensures
        sums_fit_i32(nodes),
{
    assert forall|i: int| 0 <= i < nodes.len() implies 0 <= #[trigger] nodes[i].target_bps by {
        assert(!node_invalid(nodes, i));
    }
    assert forall|k: int| 0 <= k <= nodes.len() implies i32::MIN <= #[trigger] prefix_bps_sum(nodes, k) <= i32::MAX by {
        lemma_prefix_nonneg(nodes, k);
        lemma_prefix_below_total(nodes, k);
    }
}

/// Node `i` repeats the category of an earlier node.
pub open spec fn repeats_earlier(nodes: Seq<NewTargetAllocationNode>, i: int) -> bool {
    exists|j: int| 0 <= j < i && #[trigger] nodes[j].category_id@ == nodes[i].category_id@
}

/// Node `i` breaks a per-node rule: weight out of range, or a repeated category.
pub open spec fn node_invalid(nodes: Seq<NewTargetAllocationNode>, i: int) -> bool {
    nodes[i].target_bps < 0 || nodes[i].target_bps > 10000 || repeats_earlier(nodes, i)
}

/// The message for the first offending node.
pub open spec fn node_error_message(nodes: Seq<NewTargetAllocationNode>, i: int) -> Seq<char> {
    if nodes[i].target_bps < 0 || nodes[i].target_bps > 10000 {
        "target_bps for category "@ + nodes[i].category_id@ + " must be between 0 and 10000"@
    } else {
        "Duplicate category_id: "@ + nodes[i].category_id@
    }
}

/// What `validate_new_profile` decides for an input.
pub open spec fn new_profile_verdict(input: NewTargetProfile) -> core::result::Result<(), Seq<char>> {
    if trim(input.name@).len() == 0 {
        Err("Profile name is required"@)
    } else if (input.scope_type == ScopeType::Account || input.scope_type == ScopeType::Portfolio)
        && input.scope_id is None {
        Err("scope_id required for account/portfolio scope"@)
    } else if input.scope_type == ScopeType::All && input.scope_id is Some {
        Err("scope_id must be empty for the all scope"@)
    } else if input.drift_band_bps < 0 || input.drift_band_bps > 10000 {
        Err("drift_band_bps must be between 0 and 10000"@)
    } else {
        Ok(())
    }
}

/// Law: which profiles are accepted. A new or edited profile is accepted exactly when
/// its name is not blank, it carries a scope id if and only if its scope is an account
/// or a portfolio, and its drift band lies in 0..=10000.
pub proof fn law_profile_acceptance(input: NewTargetProfile)
    ensures
        new_profile_verdict(input) is Ok <==> (trim(input.name@).len() > 0
            && ((input.scope_type == ScopeType::Account || input.scope_type == ScopeType::Portfolio) <==> input.scope_id is Some)
            && 0 <= input.drift_band_bps <= 10000),
{
}

/// Checks the fields of a new or edited profile: a name that is not blank, a scope id
/// for account and portfolio scopes and none for the all scope, and a drift band
/// between 0 and 10000 bps.
pub fn validate_new_profile(input: &NewTargetProfile) -> (r: Result<(), Error>)
    ensures
        new_profile_verdict(*input) is Ok <==> r is Ok,
        new_profile_verdict(*input) matches Err(m) ==> (r matches Err(e) && is_invalid_input(e, m)),
{
    let trimmed = trim_string(input.name.as_str());
    if trimmed.as_str().unicode_len() == 0 {
        return Err(invalid(String::from_str("Profile name is required")));
    }
    let needs_scope_id = match input.scope_type {
        ScopeType::Account | ScopeType::Portfolio => true,
        ScopeType::All => false,
    };
    if needs_scope_id && input.scope_id.is_none() {
        return Err(invalid(String::from_str("scope_id required for account/portfolio scope")));
    }
    if !needs_scope_id && input.scope_id.is_some() {
        return Err(invalid(String::from_str("scope_id must be empty for the all scope")));
    }
    if input.drift_band_bps < 0 || input.drift_band_bps > 10000 {
        return Err(invalid(String::from_str("drift_band_bps must be between 0 and 10000")));
    }
    Ok(())
}

/// Checks a full set of weights: they sum to exactly 10000 bps, each lies between 0 and
/// 10000, and no category appears twice. The sum is checked first; then the nodes in
/// order, each for its range before its category.
pub fn validate_nodes_sum(nodes: &[NewTargetAllocationNode]) -> (r: Result<(), Error>)
    requires
        sums_fit_i32(nodes@),
    ensures
        r is Ok <==> (prefix_bps_sum(nodes@, nodes@.len() as int) == 10000 && forall|i: int|
            0 <= i < nodes@.len() ==> !node_invalid(nodes@, i)),
        r matches Err(e) ==> e is Validation,
        prefix_bps_sum(nodes@, nodes@.len() as int) != 10000 ==> (r matches Err(
            Error::Validation(ValidationError::InvalidInput(m)),
        ) && m@ == "Target allocations must sum to 10000 bps (100%), got "@ + crate::text::int_text(
            prefix_bps_sum(nodes@, nodes@.len() as int),
        )),
        prefix_bps_sum(nodes@, nodes@.len() as int) == 10000 ==> forall|i: int|
            0 <= i < nodes@.len() && node_invalid(nodes@, i) && (forall|j: int|
                0 <= j < i ==> !node_invalid(nodes@, j)) ==> (r matches Err(
                Error::Validation(ValidationError::InvalidInput(m)),
            ) && m@ == node_error_message(nodes@, i)),
{
    let mut total: i32 = 0;
    let mut k: usize = 0;
    while k < nodes.len()
        invariant
            0 <= k <= nodes@.len(),
            sums_fit_i32(nodes@),
            total == prefix_bps_sum(nodes@, k as int),
        decreases nodes@.len() - k,
    {
        assert(i32::MIN <= prefix_bps_sum(nodes@, k + 1) <= i32::MAX);
        total = total + nodes[k].target_bps;
        k = k + 1;
    }
    assert(k == nodes@.len());
    assert(total == prefix_bps_sum(nodes@, nodes@.len() as int));
    if total != 10000 {
        let mut m = String::from_str("Target allocations must sum to 10000 bps (100%), got ");
        let t = int_to_string(total as i64);
        m.append(t.as_str());
        return Err(invalid(m));
    }
    let mut i: usize = 0;
    while i < nodes.len()
        invariant
            0 <= i <= nodes@.len(),
            prefix_bps_sum(nodes@, nodes@.len() as int) == 10000,
            forall|j: int| 0 <= j < i ==> !node_invalid(nodes@, j),
        decreases nodes@.len() - i,
    {
        let node = &nodes[i];
        if node.target_bps < 0 || node.target_bps > 10000 {
            let mut m = String::from_str("target_bps for category ");
            m.append(node.category_id.as_str());
            m.append(" must be between 0 and 10000");
            assert(node_invalid(nodes@, i as int));
            assert forall|i2: int|
                0 <= i2 < nodes@.len() && node_invalid(nodes@, i2) && (forall|j2: int|
                    0 <= j2 < i2 ==> !node_invalid(nodes@, j2)) implies i2 == i by {
                if i2 > i {
                    assert(!node_invalid(nodes@, i as int));
                }
            }
            return Err(invalid(m));
        }
        let mut j: usize = 0;
        while j < i
            invariant
                0 <= j <= i < nodes@.len(),
                prefix_bps_sum(nodes@, nodes@.len() as int) == 10000,
                forall|q: int| 0 <= q < i ==> !node_invalid(nodes@, q),
                !(nodes@[i as int].target_bps < 0 || nodes@[i as int].target_bps > 10000),
                forall|q: int| 0 <= q < j ==> nodes@[q].category_id@ != nodes@[i as int].category_id@,
            decreases i - j,
        {
            if nodes[j].category_id == nodes[i].category_id {
                let mut m = String::from_str("Duplicate category_id: ");
                m.append(nodes[i].category_id.as_str());
                assert(repeats_earlier(nodes@, i as int));
                assert(node_invalid(nodes@, i as int));
                assert forall|i2: int|
                    0 <= i2 < nodes@.len() && node_invalid(nodes@, i2) && (forall|j2: int|
                        0 <= j2 < i2 ==> !node_invalid(nodes@, j2)) implies i2 == i by {
                    if i2 > i {
                        assert(!node_invalid(nodes@, i as int));
                    }
                }
                return Err(invalid(m));
            }
            j = j + 1;
        }
        assert(!repeats_earlier(nodes@, i as int));
        i = i + 1;
    }
    Ok(())
}


/// Whether every running sum of the weights stays within `i32`.
pub fn bps_sums_fit(nodes: &[NewTargetAllocationNode]) -> (r: bool)
    ensures
        r == sums_fit_i32(nodes@),
{
    let mut total: i64 = 0;
    let mut k: usize = 0;
    while k < nodes.len()
        invariant
            0 <= k <= nodes@.len(),
            total == prefix_bps_sum(nodes@, k as int),
            forall|q: int| 0 <= q <= k ==> i32::MIN <= #[trigger] prefix_bps_sum(nodes@, q) <= i32::MAX,
        decreases nodes@.len() - k,
    {
        total = total + nodes[k].target_bps as i64;
        if total < -2147483648i64 || total > 2147483647i64 {
            assert(!(i32::MIN <= prefix_bps_sum(nodes@, k + 1) <= i32::MAX));
            return false;
        }
        k = k + 1;
    }
    true
}

} // verus!
