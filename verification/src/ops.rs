//! What the engine's operations take and give: warnings, change envelopes,
//! commit envelopes and the outcomes of the git layer.

use crate::entity::EntityId;
use vstd::prelude::*;

verus! {

/// The cursor that stands before all history.
pub const EMPTY_TREE_SHA: &'static str = "4b825dc642cb6eb9a060e54bf8d69288fbee4904";

/// Why a mount has nothing behind it.
#[derive(Debug, Clone, Copy, PartialEq, Eq, Structural)]
pub enum MountUnbackedReason {
    MissingRef,
    MissingPath,
    Empty,
}

/// How a stamped engine version stands to the running one.
#[derive(Debug, Clone, Copy, PartialEq, Eq, Structural)]
pub enum SkewDirection {
    /// The stamp is of an older engine.
    StampOlder,
    /// The stamp is of a newer engine.
    StampNewer,
}

/// A warning that stops nothing.
#[derive(Debug)]
#[allow(inconsistent_fields)]
pub enum WarningHint {
    /// A mem moved on disk and was read again.
    MemReloaded { mem: String, old_head: String, new_head: String, entities_loaded: usize },
    /// The mount expects another pin than the mem's config.
    SchemaPinMismatch { mem: String, config_pin: String, mount_pin: String },
    /// The mem was last written by another engine version.
    EngineVersionSkew {
        mem: String,
        stamped_engine: String,
        running_engine: String,
        stamped_schema: Option<String>,
        direction: SkewDirection,
    },
    /// The built-in catalogue holds a newer version of the pinned schema.
    SchemaGenerationsBehind { mem: String, pinned: String, newest: String },
    /// Section headings of the schema do not lead back to their keys.
    SchemaHeadingRoundtripViolation { mem: String, schema_ref: String, violations: Vec<String> },
    /// The mount has nothing behind it.
    MountUnbacked { mem: String, reason: MountUnbackedReason, location: String },
    /// A link names an id that looks like a nested mem prefix.
    SuspiciousNestedPrefix { mem: String, resolved_id: EntityId },
    /// The version stamp of a mutation merged over another writer's change.
    ConfigWriteIntervened { mem: String },
    /// Any other warning of the loader, by its code and message.
    Loader { code: String, message: String },
}

impl WarningHint {
    /// The stable code of the warning.
    pub open spec fn code_text(&self) -> Seq<char> {
        match *self {
            WarningHint::MemReloaded { .. } => "MEM_RELOADED"@,
            WarningHint::SchemaPinMismatch { .. } => "SCHEMA_PIN_MISMATCH"@,
            WarningHint::EngineVersionSkew { .. } => "ENGINE_VERSION_SKEW"@,
            WarningHint::SchemaGenerationsBehind { .. } => "SCHEMA_GENERATIONS_BEHIND"@,
            WarningHint::SchemaHeadingRoundtripViolation {
                ..
            } => "SCHEMA_HEADING_ROUNDTRIP_VIOLATION"@,
            WarningHint::MountUnbacked { .. } => "MOUNT_UNBACKED"@,
            WarningHint::SuspiciousNestedPrefix { .. } => "SUSPICIOUS_NESTED_PREFIX"@,
            WarningHint::ConfigWriteIntervened { .. } => "CONFIG_WRITE_INTERVENED"@,
            WarningHint::Loader { code, .. } => code@,
        }
    }

    /// The stable code of the warning.
    pub fn code(&self) -> (r: &str)
        ensures
            r@ == self.code_text(),
    {
        match self {
            WarningHint::MemReloaded { .. } => "MEM_RELOADED",
            WarningHint::SchemaPinMismatch { .. } => "SCHEMA_PIN_MISMATCH",
            WarningHint::EngineVersionSkew { .. } => "ENGINE_VERSION_SKEW",
            WarningHint::SchemaGenerationsBehind { .. } => "SCHEMA_GENERATIONS_BEHIND",
            WarningHint::SchemaHeadingRoundtripViolation {
                ..
            } => "SCHEMA_HEADING_ROUNDTRIP_VIOLATION",
            WarningHint::MountUnbacked { .. } => "MOUNT_UNBACKED",
            WarningHint::SuspiciousNestedPrefix { .. } => "SUSPICIOUS_NESTED_PREFIX",
            WarningHint::ConfigWriteIntervened { .. } => "CONFIG_WRITE_INTERVENED",
            WarningHint::Loader { code, .. } => code.as_str(),
        }
    }
}

/// What happened to one entity.
#[derive(Debug)]
pub enum ChangeEnvelope {
    Added { id: EntityId, title: Option<String>, entity_type: Option<String> },
    Updated { id: EntityId, title: Option<String>, entity_type: Option<String> },
    Removed { id: EntityId, title: Option<String>, entity_type: Option<String> },
    Renamed {
        from_id: EntityId,
        to_id: EntityId,
        title: Option<String>,
        entity_type: Option<String>,
    },
}

/// The changes that a backend reports after a cursor.
#[derive(Debug)]
pub struct BackendChanges {
    pub since: String,
    pub head: String,
    pub changes: Vec<ChangeEnvelope>,
    pub notes: Vec<String>,
    pub memstead_ref: Option<String>,
}

/// The changes of a mem after a cursor.
#[derive(Debug)]
pub struct ChangesReport {
    pub mem: String,
    pub since: String,
    pub head: String,
    pub changes: Vec<ChangeEnvelope>,
    pub warnings: Vec<WarningHint>,
    pub notes: Option<Vec<String>>,
    pub memstead_ref: Option<String>,
}

/// What a reload applied to a mem.
#[derive(Debug)]
pub struct MemChangedNotice {
    pub mem: String,
    pub from_head: String,
    pub to_head: String,
    pub changes: Vec<ChangeEnvelope>,
}

/// One entity change of a commit that the engine did not author.
#[derive(Debug, Clone)]
#[allow(inconsistent_fields)]
pub enum EntityChange {
    Added { path: String, content: String },
    Modified { path: String, content: String },
    Deleted { path: String },
    Renamed { from: String, to: String, content: String },
}

/// A commit that the engine did not author.
#[derive(Debug, Clone)]
pub struct CommitEnvelope {
    pub mem: String,
    pub sha: String,
    pub changes: Vec<EntityChange>,
}

/// An entity file that was read.
#[derive(Debug, Clone)]
pub struct SourceEntry {
    /// The path inside the mem.
    pub relative_path: String,
    pub content: String,
}

impl View for SourceEntry {
    type V = (Seq<char>, Seq<char>);

    /// The path and the content.
    open spec fn view(&self) -> (Seq<char>, Seq<char>) {
        (self.relative_path@, self.content@)
    }
}

/// An entity file that could not be read.
#[derive(Debug, Clone)]
pub struct SourceReadError {
    pub path: String,
    pub error: String,
}

impl View for SourceReadError {
    type V = (Seq<char>, Seq<char>);

    /// The path and the reason.
    open spec fn view(&self) -> (Seq<char>, Seq<char>) {
        (self.path@, self.error@)
    }
}

/// What a fetch brought.
#[derive(Debug, Clone)]
pub struct FetchOutcome {
    pub remote: String,
    pub updated_refs: Vec<String>,
}

/// Where a pull moved the branch.
#[derive(Debug, Clone)]
pub struct PullOutcome {
    pub previous_sha: String,
    pub new_sha: String,
}

/// What a push wrote.
#[derive(Debug, Clone)]
pub struct PushOutcome {
    pub remote: String,
    pub sha: String,
}

/// What configuring a remote did.
#[derive(Debug, Clone)]
pub struct RemoteAddOutcome {
    pub name: String,
    pub url: String,
}

/// Where a reset moved the branch.
#[derive(Debug, Clone)]
pub struct BranchResetOutcome {
    pub previous_sha: String,
    pub new_sha: String,
}

/// How two refs are compared.
#[derive(Debug, Clone)]
pub struct DiffConfig {
    pub rename_similarity: Similarity,
    /// What else the git layer is told, by name.
    pub settings: Vec<(String, String)>,
}

/// A structural diff of two refs.
#[derive(Debug)]
pub struct Diff {
    pub changes: Vec<ChangeEnvelope>,
}

/// An edge from another mem that a reset would leave without a target.
#[derive(Debug, Clone)]
pub struct StrandedCrossMemRef {
    pub from_id: String,
    pub from_mem: String,
    pub to_id: String,
    pub rel_type: String,
}

/// A requested rename similarity. Comparing the number with the allowed range
/// is the caller's part; the engine refuses what lies outside.
#[derive(Debug, Clone)]
pub enum Similarity {
    /// None was given; the default applies.
    Default,
    /// The number lies in the allowed range; its decimal form.
    InRange(String),
    /// The number lies outside; the decimal forms of it and of the range.
    OutOfRange { requested: String, allowed_min: String, allowed_max: String },
}

} // verus!
