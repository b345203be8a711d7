//! Checks of entities: kinds, verdicts, records, and the state that the
//! newest record gives an entity.

use crate::text::{begins, opt_text, own, own_opt, same, same_opt, starts};
use vstd::prelude::*;

verus! {

/// The outcome of a check.
#[derive(Debug, Clone, Copy, PartialEq, Eq, Structural)]
pub enum Verdict {
    Passed,
    Failed,
}

impl Verdict {
    /// The wire token.
    pub open spec fn token(&self) -> Seq<char> {
        match self {
            Verdict::Passed => "ok"@,
            Verdict::Failed => "failed"@,
        }
    }

    /// The wire token.
    pub fn as_str(&self) -> (r: &'static str)
        ensures
            r@ == self.token(),
    {
        match self {
            Verdict::Passed => "ok",
            Verdict::Failed => "failed",
        }
    }
}

/// The kinds of checks that the engine reads.
#[derive(Debug, Clone, Copy, PartialEq, Eq, Structural)]
pub enum CheckKind {
    Verification,
    Conformance,
}

impl CheckKind {
    /// The wire token.
    pub open spec fn token(&self) -> Seq<char> {
        match self {
            CheckKind::Verification => "verification"@,
            CheckKind::Conformance => "conformance"@,
        }
    }

    /// The wire token.
    pub fn as_str(&self) -> (r: &'static str)
        ensures
            r@ == self.token(),
    {
        match self {
            CheckKind::Verification => "verification",
            CheckKind::Conformance => "conformance",
        }
    }
}

/// The prefix of a kind that a caller declares and the engine never reads.
pub const FOREIGN_KIND_PREFIX: &'static str = "x-";

/// The kind of a record: one of the engine's, or a caller's own.
#[derive(Debug, Clone)]
pub enum RecordKind {
    Engine(CheckKind),
    Foreign(String),
}

/// Whether `r` is the kind that a wire token names: one that has the token, a
/// caller's own only under its prefix, and none where no kind has it.
pub open spec fn names_kind(s: Seq<char>, r: Option<RecordKind>) -> bool {
    match r {
        Some(RecordKind::Engine(k)) => k.token() == s,
        Some(RecordKind::Foreign(t)) => t@ == s && starts(s, FOREIGN_KIND_PREFIX@),
        None => s != CheckKind::Verification.token() && s != CheckKind::Conformance.token()
            && !starts(s, FOREIGN_KIND_PREFIX@),
    }
}

impl RecordKind {
    /// The wire token.
    pub open spec fn token(&self) -> Seq<char> {
        match *self {
            RecordKind::Engine(k) => k.token(),
            RecordKind::Foreign(s) => s@,
        }
    }

    /// The kind that a wire token names.
    pub fn from_wire(s: &str) -> (r: Option<RecordKind>)
        ensures
            if s@ == CheckKind::Verification.token() {
                r == Some(RecordKind::Engine(CheckKind::Verification))
            } else if s@ == CheckKind::Conformance.token() {
                r == Some(RecordKind::Engine(CheckKind::Conformance))
            } else if starts(s@, FOREIGN_KIND_PREFIX@) {
                r matches Some(RecordKind::Foreign(t)) && t@ == s@
            } else {
                r is None
            },
            names_kind(s@, r),
    {
        if same(s, "verification") {
            Some(RecordKind::Engine(CheckKind::Verification))
        } else if same(s, "conformance") {
            Some(RecordKind::Engine(CheckKind::Conformance))
        } else if begins(s, FOREIGN_KIND_PREFIX) {
            Some(RecordKind::Foreign(own(s)))
        } else {
            None
        }
    }

    /// The wire token.
    pub fn as_wire(&self) -> (r: String)
        ensures
            r@ == self.token(),
    {
        match self {
            RecordKind::Engine(k) => own(k.as_str()),
            RecordKind::Foreign(s) => s.clone(),
        }
    }
}

/// What a checker found.
#[derive(Debug, Clone)]
pub struct CheckFinding {
    pub code: String,
    pub message: String,
}

impl CheckFinding {
    /// A copy of the finding.
    pub fn copy(&self) -> (r: CheckFinding)
        ensures
            r == *self,
    {
        CheckFinding { code: self.code.clone(), message: self.message.clone() }
    }
}

/// From which content a record was carried, and why.
#[derive(Debug, Clone)]
pub struct CarriedFrom {
    pub hash: String,
    pub reason: String,
}

/// One recorded check.
#[derive(Debug, Clone)]
pub struct CheckRecord {
    pub ts: u64,
    pub entity: String,
    pub verdict: String,
    pub method: Option<String>,
    /// The content hash of the entity when it was checked.
    pub entity_hash: String,
    pub actor: String,
    pub client: Option<String>,
    pub role: String,
    pub identity: Option<String>,
    /// The wire kind; a verification leaves it out.
    pub kind: Option<String>,
    /// The pin that a conformance check is bound to.
    pub schema_ref: Option<String>,
    pub finding: Option<CheckFinding>,
    pub renamed_from: Option<String>,
    pub carried_from: Option<CarriedFrom>,
}

impl CheckRecord {
    /// The wire kind of the record.
    pub open spec fn wire_kind(&self) -> Seq<char> {
        match self.kind {
            Some(k) => k@,
            None => CheckKind::Verification.token(),
        }
    }

    /// The wire kind of the record.
    pub fn kind_token(&self) -> (r: String)
        ensures
            r@ == self.wire_kind(),
    {
        match &self.kind {
            Some(k) => k.clone(),
            None => own(CheckKind::Verification.as_str()),
        }
    }

    /// A copy of the record.
    pub fn copy(&self) -> (r: CheckRecord)
        ensures
            r == *self,
    {
        CheckRecord {
            ts: self.ts,
            entity: self.entity.clone(),
            verdict: self.verdict.clone(),
            method: own_opt(&self.method),
            entity_hash: self.entity_hash.clone(),
            actor: self.actor.clone(),
            client: own_opt(&self.client),
            role: self.role.clone(),
            identity: own_opt(&self.identity),
            kind: own_opt(&self.kind),
            schema_ref: own_opt(&self.schema_ref),
            finding: match &self.finding {
                Some(f) => Some(f.copy()),
                None => None,
            },
            renamed_from: own_opt(&self.renamed_from),
            carried_from: match &self.carried_from {
                Some(c) => Some(
                    CarriedFrom { hash: c.hash.clone(), reason: c.reason.clone() },
                ),
                None => None,
            },
        }
    }
}

/// A check record that an archive carries: of which path and kind it is.
#[derive(Debug, Clone)]
pub struct SealedCheck {
    pub path: String,
    pub kind: String,
    pub record: CheckRecord,
}

/// Where an entity stands with its checks.
#[derive(Debug, Clone, Copy, PartialEq, Eq, Structural)]
pub enum CheckState {
    NeverChecked,
    CheckedOk,
    CheckFailed,
    CheckStale,
}

/// The state that the newest record gives content of the hash `current`.
pub open spec fn state_of(latest: Option<CheckRecord>, current: Seq<char>) -> CheckState {
    match latest {
        None => CheckState::NeverChecked,
        Some(rec) => if rec.entity_hash@ != current {
            CheckState::CheckStale
        } else if rec.verdict@ == Verdict::Passed.token() {
            CheckState::CheckedOk
        } else {
            CheckState::CheckFailed
        },
    }
}

/// The state that the newest record gives content of the hash `current` under
/// the pin `pin`: another pin than the one the record is bound to makes it
/// stale, as other content does.
pub open spec fn pinned_state_of(
    latest: Option<CheckRecord>,
    current: Seq<char>,
    pin: Option<Seq<char>>,
) -> CheckState {
    match latest {
        Some(rec) if opt_text(rec.schema_ref) != pin => CheckState::CheckStale,
        _ => state_of(latest, current),
    }
}

/// The state that the newest record gives content of the hash `current`.
pub fn derive_state(latest: Option<&CheckRecord>, current: &str) -> (r: CheckState)
    ensures
        r == state_of(
            match latest {
                Some(rec) => Some(*rec),
                None => None,
            },
            current@,
        ),
{
    match latest {
        None => CheckState::NeverChecked,
        Some(rec) => if !same(&rec.entity_hash, current) {
            CheckState::CheckStale
        } else if same(&rec.verdict, Verdict::Passed.as_str()) {
            CheckState::CheckedOk
        } else {
            CheckState::CheckFailed
        },
    }
}

/// The state that the newest record gives content of the hash `current` under
/// the pin `pin`.
pub fn derive_state_pinned(latest: Option<&CheckRecord>, current: &str, pin: &Option<String>) -> (r:
    CheckState)
    ensures
        r == pinned_state_of(
            match latest {
                Some(rec) => Some(*rec),
                None => None,
            },
            current@,
            opt_text(*pin),
        ),
{
    match latest {
        Some(rec) => if !same_opt(&rec.schema_ref, pin) {
            CheckState::CheckStale
        } else {
            derive_state(latest, current)
        },
        None => derive_state(latest, current),
    }
}

/// A check is fresh only at the content it was made of: no record reads as
/// confirming once the entity's hash has moved on.
pub proof fn law_moved_content_is_stale(
    rec: CheckRecord,
    current: Seq<char>,
    pin: Option<Seq<char>>,
)
    requires
        rec.entity_hash@ != current,
    ensures
        state_of(Some(rec), current) == CheckState::CheckStale,
        pinned_state_of(Some(rec), current, pin) == CheckState::CheckStale,
{
}

} // verus!
