//! How target profiles, their nodes and broker sync states are stored: the row shapes,
//! the conversions to and from them, and what each sync event writes.

use vstd::prelude::*;
use crate::dates::{midnight_rfc3339, rfc3339_in_utc, spec_midnight_rfc3339, spec_rfc3339_in_utc,
    spec_ymd_date, ymd_date};
use crate::errors::{Error, invalid, is_invalid_input};
use crate::model::{ProfileStatus, ScopeType, TargetAllocationNode, TargetProfile, TriggerType};

verus! {

// ── Target profiles ──────────────────────────────────────────────────────────

/// A stored target profile: enums as their stored names.
#[derive(Debug, Clone)]
pub struct TargetProfileDB {
    pub id: String,
    pub name: String,
    pub status: String,
    pub scope_type: String,
    pub scope_id: Option<String>,
    pub taxonomy_id: String,
    pub trigger_type: String,
    pub drift_band_bps: i32,
    pub created_at: String,
    pub updated_at: String,
}

/// A stored node: flags as 0 or 1.
#[derive(Debug, Clone)]
pub struct TargetAllocationNodeDB {
    pub id: String,
    pub profile_id: String,
    pub category_id: String,
    pub target_bps: i32,
    pub is_locked: i32,
    pub is_required: i32,
    pub created_at: String,
    pub updated_at: String,
}

/// The status a stored name stands for.
pub open spec fn decode_status(s: Seq<char>) -> Option<ProfileStatus> {
    if s == "draft"@ {
        Some(ProfileStatus::Draft)
    } else if s == "active"@ {
        Some(ProfileStatus::Active)
    } else if s == "archived"@ {
        Some(ProfileStatus::Archived)
    } else {
        None
    }
}

/// The scope type a stored name stands for.
pub open spec fn decode_scope(s: Seq<char>) -> Option<ScopeType> {
    if s == "all"@ {
        Some(ScopeType::All)
    } else if s == "portfolio"@ {
        Some(ScopeType::Portfolio)
    } else if s == "account"@ {
        Some(ScopeType::Account)
    } else {
        None
    }
}

/// The trigger type a stored name stands for.
pub open spec fn decode_trigger(s: Seq<char>) -> Option<TriggerType> {
    if s == "manual"@ {
        Some(TriggerType::Manual)
    } else if s == "threshold"@ {
        Some(TriggerType::Threshold)
    } else {
        None
    }
}

/// The row stores the profile.
pub open spec fn stores_profile(db: TargetProfileDB, p: TargetProfile) -> bool {
    &&& db.id == p.id
    &&& db.name == p.name
    &&& db.status@ == p.status.spec_str()
    &&& db.scope_type@ == p.scope_type.spec_str()
    &&& db.scope_id == p.scope_id
    &&& db.taxonomy_id == p.taxonomy_id
    &&& db.trigger_type@ == p.trigger_type.spec_str()
    &&& db.drift_band_bps == p.drift_band_bps
    &&& db.created_at == p.created_at
    &&& db.updated_at == p.updated_at
}

/// The profile is read from the row, its stored names decoded.
pub open spec fn read_profile(p: TargetProfile, db: TargetProfileDB) -> bool {
    &&& p.id == db.id
    &&& p.name == db.name
    &&& decode_status(db.status@) == Some(p.status)
    &&& decode_scope(db.scope_type@) == Some(p.scope_type)
    &&& p.scope_id == db.scope_id
    &&& p.taxonomy_id == db.taxonomy_id
    &&& decode_trigger(db.trigger_type@) == Some(p.trigger_type)
    &&& p.drift_band_bps == db.drift_band_bps
    &&& p.created_at == db.created_at
    &&& p.updated_at == db.updated_at
}

impl TargetProfileDB {
    /// The row that stores a profile.
    pub fn from(p: TargetProfile) -> (db: TargetProfileDB)
        ensures
            stores_profile(db, p),
    {
        TargetProfileDB {
            status: String::from_str(p.status.as_str()),
            scope_type: String::from_str(p.scope_type.as_str()),
            trigger_type: String::from_str(p.trigger_type.as_str()),
            id: p.id,
            name: p.name,
            scope_id: p.scope_id,
            taxonomy_id: p.taxonomy_id,
            drift_band_bps: p.drift_band_bps,
            created_at: p.created_at,
            updated_at: p.updated_at,
        }
    }
}

impl TargetProfile {
    /// Reads a stored profile; an unknown stored name is an error (status first, then
    /// scope type, then trigger type).
    pub fn try_from(db: TargetProfileDB) -> (r: Result<TargetProfile, String>)
        ensures
            (decode_status(db.status@) is Some && decode_scope(db.scope_type@) is Some && decode_trigger(db.trigger_type@) is Some)
                <==> r is Ok,
            r matches Ok(p) ==> read_profile(p, db),
            decode_status(db.status@) is None ==> (r matches Err(m) && m@ == "unknown profile status: "@ + db.status@),
    {
        proof {
            reveal_strlit("draft");
            reveal_strlit("active");
            reveal_strlit("archived");
            reveal_strlit("all");
            reveal_strlit("portfolio");
            reveal_strlit("account");
            reveal_strlit("manual");
            reveal_strlit("threshold");
        }
        let status = match ProfileStatus::try_from(db.status.as_str()) {
            Ok(s) => s,
            Err(e) => return Err(e),
        };
        let scope_type = match ScopeType::try_from(db.scope_type.as_str()) {
            Ok(s) => s,
            Err(e) => return Err(e),
        };
        let trigger_type = match TriggerType::try_from(db.trigger_type.as_str()) {
            Ok(s) => s,
            Err(e) => return Err(e),
        };
        Ok(TargetProfile {
            id: db.id,
            name: db.name,
            status,
            scope_type,
            scope_id: db.scope_id,
            taxonomy_id: db.taxonomy_id,
            trigger_type,
            drift_band_bps: db.drift_band_bps,
            created_at: db.created_at,
            updated_at: db.updated_at,
        })
    }
}

/// Storing a profile and reading it back gives the same profile.
pub proof fn law_profile_round_trip(p: TargetProfile, db: TargetProfileDB, back: TargetProfile)
    requires
        stores_profile(db, p),
        read_profile(back, db),
    ensures
        back == p,
{
    crate::model::lemma_profile_status_round_trip(p.status);
    crate::model::lemma_scope_type_round_trip(p.scope_type);
    crate::model::lemma_trigger_type_round_trip(p.trigger_type);
    reveal_strlit("draft");
    reveal_strlit("active");
    reveal_strlit("archived");
    reveal_strlit("all");
    reveal_strlit("portfolio");
    reveal_strlit("account");
    reveal_strlit("manual");
    reveal_strlit("threshold");
}

/// A stored profile can always be read back.
pub proof fn law_stored_profile_decodes(p: TargetProfile, db: TargetProfileDB)
    requires
        stores_profile(db, p),
    ensures
        decode_status(db.status@) == Some(p.status),
        decode_scope(db.scope_type@) == Some(p.scope_type),
        decode_trigger(db.trigger_type@) == Some(p.trigger_type),
{
    crate::model::lemma_profile_status_round_trip(p.status);
    crate::model::lemma_scope_type_round_trip(p.scope_type);
    crate::model::lemma_trigger_type_round_trip(p.trigger_type);
    reveal_strlit("draft");
    reveal_strlit("active");
    reveal_strlit("archived");
    reveal_strlit("all");
    reveal_strlit("portfolio");
    reveal_strlit("account");
    reveal_strlit("manual");
    reveal_strlit("threshold");
}

// ── Nodes ────────────────────────────────────────────────────────────────────

/// The row stores the node, flags as 1 for true and 0 for false.
pub open spec fn stores_node(db: TargetAllocationNodeDB, n: TargetAllocationNode) -> bool {
    &&& db.id == n.id
    &&& db.profile_id == n.profile_id
    &&& db.category_id == n.category_id
    &&& db.target_bps == n.target_bps
    &&& db.is_locked == (if n.is_locked { 1i32 } else { 0i32 })
    &&& db.is_required == (if n.is_required { 1i32 } else { 0i32 })
    &&& db.created_at == n.created_at
    &&& db.updated_at == n.updated_at
}

/// The node is read from the row: a flag is true when its stored number is not zero.
pub open spec fn read_node(n: TargetAllocationNode, db: TargetAllocationNodeDB) -> bool {
    &&& n.id == db.id
    &&& n.profile_id == db.profile_id
    &&& n.category_id == db.category_id
    &&& n.target_bps == db.target_bps
    &&& n.is_locked == (db.is_locked != 0)
    &&& n.is_required == (db.is_required != 0)
    &&& n.created_at == db.created_at
    &&& n.updated_at == db.updated_at
}

impl TargetAllocationNodeDB {
    /// The row that stores a node.
    pub fn from(n: TargetAllocationNode) -> (db: TargetAllocationNodeDB)
        ensures
            stores_node(db, n),
    {
        TargetAllocationNodeDB {
            id: n.id,
            profile_id: n.profile_id,
            category_id: n.category_id,
            target_bps: n.target_bps,
            is_locked: if n.is_locked { 1 } else { 0 },
            is_required: if n.is_required { 1 } else { 0 },
            created_at: n.created_at,
            updated_at: n.updated_at,
        }
    }
}

impl TargetAllocationNode {
    /// Reads a stored node.
    pub fn from(db: TargetAllocationNodeDB) -> (n: TargetAllocationNode)
        ensures
            read_node(n, db),
    {
        TargetAllocationNode {
            id: db.id,
            profile_id: db.profile_id,
            category_id: db.category_id,
            target_bps: db.target_bps,
            is_locked: db.is_locked != 0,
            is_required: db.is_required != 0,
            created_at: db.created_at,
            updated_at: db.updated_at,
        }
    }
}

/// Storing a node and reading it back gives the same node.
pub proof fn law_node_round_trip(n: TargetAllocationNode, db: TargetAllocationNodeDB, back: TargetAllocationNode)
    requires
        stores_node(db, n),
        read_node(back, db),
    ensures
        back == n,
{
}

// ── Broker sync cursors and states ───────────────────────────────────────────

/// The stored form of a sync cursor: an RFC 3339 timestamp converted to UTC, or a
/// `%Y-%m-%d` date taken at midnight UTC; any other text is an error naming it.
pub open spec fn cursor_verdict(s: Seq<char>) -> Result<Seq<char>, Seq<char>> {
    match spec_rfc3339_in_utc(s) {
        Some(t) => Ok(t),
        None => match spec_ymd_date(s) {
            Some(d) => Ok(spec_midnight_rfc3339(d)),
            None => Err("Invalid broker sync cursor '"@ + s + "'"@),
        },
    }
}

/// Normalises a sync cursor for storage.
pub fn parse_sync_cursor(last_synced_date: &str) -> (r: Result<String, Error>)
    ensures
        match cursor_verdict(last_synced_date@) {
            Ok(t) => r matches Ok(s) && s@ == t,
            Err(m) => r matches Err(e) && is_invalid_input(e, m),
        },
{
    match rfc3339_in_utc(last_synced_date) {
        Some(s) => return Ok(s),
        None => {},
    }
    match ymd_date(last_synced_date) {
        Some(d) => Ok(midnight_rfc3339(d)),
        None => {
            let mut m = String::from_str("Invalid broker sync cursor '");
            m.append(last_synced_date);
            m.append("'");
            Err(invalid(m))
        },
    }
}

/// A stored broker sync state.
#[derive(Debug, Clone)]
pub struct BrokerSyncStateDB {
    pub account_id: String,
    pub provider: String,
    pub checkpoint_json: Option<String>,
    pub last_attempted_at: Option<String>,
    pub last_successful_at: Option<String>,
    pub last_error: Option<String>,
    pub last_run_id: Option<String>,
    pub sync_status: String,
    pub created_at: String,
    pub updated_at: String,
}

/// What happened to a sync of one account with one provider.
pub enum SyncEvent {
    /// A sync started.
    Attempt,
    /// A sync finished, up to the cursor (already normalised).
    Success { cursor: String, run_id: Option<String> },
    /// A sync failed.
    Failure { error: String, run_id: Option<String> },
    /// A sync finished with something to review.
    NeedsReview { warning: String, run_id: Option<String> },
}

/// The status an event leaves a sync in.
pub open spec fn status_after(e: SyncEvent) -> Seq<char> {
    match e {
        SyncEvent::Attempt => "RUNNING"@,
        SyncEvent::Success { .. } => "IDLE"@,
        SyncEvent::Failure { .. } => "FAILED"@,
        SyncEvent::NeedsReview { .. } => "NEEDS_REVIEW"@,
    }
}

/// The row after an event, given the row before (if any) and the time now.
///
/// An existing row keeps its keys, checkpoint and creation time and is stamped with
/// `now`: an attempt sets the attempt time; a success sets the successful cursor,
/// clears the error and sets the run; a failure or a review sets the message as the
/// error and sets the run. A new row is attempted `now`, created `now`, and holds what
/// the event says.
pub open spec fn row_after(existing: Option<BrokerSyncStateDB>, account_id: Seq<char>, provider: Seq<char>, e: SyncEvent, now: Seq<char>, row: BrokerSyncStateDB) -> bool {
    &&& row.sync_status@ == status_after(e)
    &&& row.updated_at@ == now
    &&& match existing {
        Some(old) => {
            &&& row.account_id == old.account_id
            &&& row.provider == old.provider
            &&& row.checkpoint_json == old.checkpoint_json
            &&& row.created_at == old.created_at
            &&& match e {
                SyncEvent::Attempt => {
                    &&& row.last_attempted_at matches Some(t) && t@ == now
                    &&& row.last_successful_at == old.last_successful_at
                    &&& row.last_error == old.last_error
                    &&& row.last_run_id == old.last_run_id
                },
                SyncEvent::Success { cursor, run_id } => {
                    &&& row.last_attempted_at == old.last_attempted_at
                    &&& row.last_successful_at == Some(cursor)
                    &&& row.last_error is None
                    &&& row.last_run_id == run_id
                },
                SyncEvent::Failure { error, run_id } => {
                    &&& row.last_attempted_at == old.last_attempted_at
                    &&& row.last_successful_at == old.last_successful_at
                    &&& row.last_error == Some(error)
                    &&& row.last_run_id == run_id
                },
                SyncEvent::NeedsReview { warning, run_id } => {
                    &&& row.last_attempted_at == old.last_attempted_at
                    &&& row.last_successful_at == old.last_successful_at
                    &&& row.last_error == Some(warning)
                    &&& row.last_run_id == run_id
                },
            }
        },
        None => {
            &&& row.account_id@ == account_id
            &&& row.provider@ == provider
            &&& row.checkpoint_json is None
            &&& row.last_attempted_at matches Some(t) && t@ == now
            &&& row.created_at@ == now
            &&& match e {
                SyncEvent::Attempt => row.last_successful_at is None && row.last_error is None && row.last_run_id is None,
                SyncEvent::Success { cursor, run_id } => row.last_successful_at == Some(cursor) && row.last_error is None
                    && row.last_run_id == run_id,
                SyncEvent::Failure { error, run_id } => row.last_successful_at is None && row.last_error == Some(error)
                    && row.last_run_id == run_id,
                SyncEvent::NeedsReview { warning, run_id } => row.last_successful_at is None && row.last_error == Some(warning)
                    && row.last_run_id == run_id,
            }
        },
    }
}

/// The row an event leaves, from the row before (if any) and the time now.
pub fn sync_row_after(existing: Option<BrokerSyncStateDB>, account_id: String, provider: String, e: SyncEvent, now: String) -> (row: BrokerSyncStateDB)
    ensures
        row_after(existing, account_id@, provider@, e, now@, row),
{
    let ghost g = e;
    let status = match &e {
        SyncEvent::Attempt => "RUNNING",
        SyncEvent::Success { .. } => "IDLE",
        SyncEvent::Failure { .. } => "FAILED",
        SyncEvent::NeedsReview { .. } => "NEEDS_REVIEW",
    };
    match existing {
        Some(old) => match e {
            SyncEvent::Attempt => BrokerSyncStateDB {
                last_attempted_at: Some(now.clone()),
                sync_status: String::from_str(status),
                updated_at: now,
                ..old
            },
            SyncEvent::Success { cursor, run_id } => BrokerSyncStateDB {
                last_successful_at: Some(cursor),
                last_error: None,
                last_run_id: run_id,
                sync_status: String::from_str(status),
                updated_at: now,
                ..old
            },
            SyncEvent::Failure { error, run_id } => BrokerSyncStateDB {
                last_error: Some(error),
                last_run_id: run_id,
                sync_status: String::from_str(status),
                updated_at: now,
                ..old
            },
            SyncEvent::NeedsReview { warning, run_id } => BrokerSyncStateDB {
                last_error: Some(warning),
                last_run_id: run_id,
                sync_status: String::from_str(status),
                updated_at: now,
                ..old
            },
        },
        None => {
            let (succ, err, run) = match e {
                SyncEvent::Attempt => (None, None, None),
                SyncEvent::Success { cursor, run_id } => (Some(cursor), None, run_id),
                SyncEvent::Failure { error, run_id } => (None, Some(error), run_id),
                SyncEvent::NeedsReview { warning, run_id } => (None, Some(warning), run_id),
            };
            BrokerSyncStateDB {
                account_id,
                provider,
                checkpoint_json: None,
                last_attempted_at: Some(now.clone()),
                last_successful_at: succ,
                last_error: err,
                last_run_id: run,
                sync_status: String::from_str(status),
                created_at: now.clone(),
                updated_at: now,
            }
        },
    }
}

/// A success never records an error; a failure or a review always does.
pub proof fn law_sync_outcome_error(existing: Option<BrokerSyncStateDB>, account_id: Seq<char>, provider: Seq<char>, e: SyncEvent, now: Seq<char>, row: BrokerSyncStateDB)
    requires
        row_after(existing, account_id, provider, e, now, row),
    ensures
        e is Success ==> row.last_error is None,
        (e is Failure || e is NeedsReview) ==> row.last_error is Some,
        e is Success ==> row.last_successful_at is Some,
{
}

} // verus!
