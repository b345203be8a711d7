//! Drift: whether a mem moved on in its storage, reading it again where it
//! did, and what changed between two of its states.

use crate::apply_commit::lemma_put_entities;
use crate::backend::{head_reply, head_told, reads_reply, BackendError, MemBackend};
use crate::boot::{
    add_errors, located, probed_hint, read_entries, read_failures, unbacked_mount_warning,
    upsert_all, with_entities,
};
use crate::engine::{
    asked, mems_apart, mount_index, says_unknown, says_unmounted, schema_of, Engine, MountedBackend,
};
use crate::entity::{entity_of, ids_unique, Entity, EntityId, Store};
use crate::error::EngineError;
use crate::events::VaultChangedEvent;
use crate::host::{
    diff_reply, fetch_reply, folder_changes_reply, git_changes_reply, parse_reply, pull_reply,
    push_reply, remote_add_reply, reset_reply, strict_reply, tree_reply, Host, HostCall, LoadResult,
    Surroundings,
};
use crate::ops::{
    BackendChanges, BranchResetOutcome, ChangeEnvelope, ChangesReport, Diff, DiffConfig,
    FetchOutcome, MemChangedNotice, PullOutcome, PushOutcome, RemoteAddOutcome, Similarity,
    SourceEntry, SourceReadError, StrandedCrossMemRef, WarningHint,
};
use crate::schema::Schema;
use crate::sort::{sorted, stable_sort, views, Ranked};
use crate::text::{
    after_prefix, before, begins, chars_of, decimal, decimal_of, join, join_list, lex_less, listed,
    next_char, next_of, opt_str, opt_text, own, own_opt, same, slice_of, starts, strip_all,
    strip_prefix, strip_repeated, texts, trim, trimmed,
};
use crate::workspace::MountStorage;
use std::sync::Arc;
use vstd::prelude::*;

verus! {

// ---------------------------------------------------------------------
// Change reports
// ---------------------------------------------------------------------

/// The title and the type under which the store knows an id.
pub open spec fn known_as(
    entities: Seq<Entity>,
    id: Seq<char>,
) -> (Option<String>, Option<String>) {
    match entity_of(entities, id) {
        Some(e) => (Some(e.title), Some(e.entity_type)),
        None => (None, None),
    }
}

/// The title and the type under which the store knows an id.
pub fn lookup_title_and_type(store: &Store, id: &EntityId) -> (r: (Option<String>, Option<String>))
    ensures
        r == known_as(store.entities@, id.0@),
{
    match store.get(id) {
        Some(e) => (Some(e.title.clone()), Some(e.entity_type.clone())),
        None => (None, None),
    }
}

/// A change with the title and the type that the store knows. What was
/// removed has neither.
pub open spec fn enriched(entities: Seq<Entity>, change: ChangeEnvelope) -> ChangeEnvelope {
    match change {
        ChangeEnvelope::Added { id, title, entity_type } => ChangeEnvelope::Added {
            id,
            title: known_as(entities, id.0@).0,
            entity_type: known_as(entities, id.0@).1,
        },
        ChangeEnvelope::Updated { id, title, entity_type } => ChangeEnvelope::Updated {
            id,
            title: known_as(entities, id.0@).0,
            entity_type: known_as(entities, id.0@).1,
        },
        ChangeEnvelope::Removed { id, title, entity_type } => ChangeEnvelope::Removed {
            id,
            title: None,
            entity_type: None,
        },
        ChangeEnvelope::Renamed { from_id, to_id, title, entity_type } => ChangeEnvelope::Renamed {
            from_id,
            to_id,
            title: known_as(entities, to_id.0@).0,
            entity_type: known_as(entities, to_id.0@).1,
        },
    }
}

/// Changes with the titles and types that the store knows.
pub open spec fn all_enriched(entities: Seq<Entity>, changes: Seq<ChangeEnvelope>) -> Seq<
    ChangeEnvelope,
> {
    changes.map_values(|c: ChangeEnvelope| enriched(entities, c))
}

/// A change with the title and the type that the store knows.
fn enrich(store: &Store, change: ChangeEnvelope) -> (r: ChangeEnvelope)
    ensures
        r == enriched(store.entities@, change),
{
    match change {
        ChangeEnvelope::Added { id, .. } => {
            let (title, entity_type) = lookup_title_and_type(store, &id);
            ChangeEnvelope::Added { id, title, entity_type }
        },
        ChangeEnvelope::Updated { id, .. } => {
            let (title, entity_type) = lookup_title_and_type(store, &id);
            ChangeEnvelope::Updated { id, title, entity_type }
        },
        ChangeEnvelope::Removed { id, .. } => ChangeEnvelope::Removed {
            id,
            title: None,
            entity_type: None,
        },
        ChangeEnvelope::Renamed { from_id, to_id, .. } => {
            let (title, entity_type) = lookup_title_and_type(store, &to_id);
            ChangeEnvelope::Renamed { from_id, to_id, title, entity_type }
        },
    }
}

/// Whether `report` is the report on the changes that a backend told of.
pub open spec fn reports(
    mem: Seq<char>,
    entities: Seq<Entity>,
    told: BackendChanges,
    report: ChangesReport,
) -> bool {
    &&& report.mem@ == mem
    &&& report.since == told.since
    &&& report.head == told.head
    &&& report.changes@ == all_enriched(entities, told.changes@)
    &&& report.warnings@.len() == 0
    &&& report.notes == (if told.notes@.len() == 0 && told.memstead_ref is None {
        None
    } else {
        Some(told.notes)
    })
    &&& report.memstead_ref == told.memstead_ref
}

/// Whether `report` tells of no change and hands the cursor back.
pub open spec fn reports_nothing(
    mem: Seq<char>,
    since: Seq<char>,
    report: ChangesReport,
) -> bool {
    &&& report.mem@ == mem
    &&& report.since@ == since
    &&& report.head@ == since
    &&& report.changes@.len() == 0
    &&& report.warnings@.len() == 0
    &&& report.notes is None
    &&& report.memstead_ref is None
}

/// The report on the changes that a backend told of.
pub fn report_changes(store: &Store, mem: &str, told: BackendChanges) -> (r: ChangesReport)
    ensures
        reports(mem@, store.entities@, told, r),
{
    let ghost given = told;
    let BackendChanges { since, head, changes, notes, memstead_ref } = told;
    let ghost all = changes@;
    let mut rest = changes;
    let ghost mut done: Seq<ChangeEnvelope> = Seq::empty();
    let mut out: Vec<ChangeEnvelope> = Vec::new();
    assert(done + rest@ =~= all);
    assert(out@ =~= all_enriched(store.entities@, done));
    while rest.len() > 0
        invariant
            done + rest@ == all,
            out@ == all_enriched(store.entities@, done),
        decreases rest@.len(),
    {
        let c = rest.remove(0);
        let ghost before = out@;
        let e = enrich(store, c);
        out.push(e);
        proof {
            let next = done.push(c);
            assert(next + rest@ =~= all);
            assert(out@ =~= all_enriched(store.entities@, next));
            done = next;
        }
    }
    assert(done =~= all);
    let silent = notes.len() == 0 && memstead_ref.is_none();
    let told_notes = if silent {
        None
    } else {
        Some(notes)
    };
    ChangesReport {
        mem: own(mem),
        since,
        head,
        changes: out,
        warnings: Vec::new(),
        notes: told_notes,
        memstead_ref,
    }
}

/// The report of no change.
fn report_nothing(mem: &str, since: &str) -> (r: ChangesReport)
    ensures
        reports_nothing(mem@, since@, r),
{
    ChangesReport {
        mem: own(mem),
        since: own(since),
        head: own(since),
        changes: Vec::new(),
        warnings: Vec::new(),
        notes: None,
        memstead_ref: None,
    }
}

/// Whether a character is a lower-case hexadecimal digit.
pub open spec fn is_lower_hex(c: char) -> bool {
    '0' <= c <= '9' || 'a' <= c <= 'f'
}

/// How many digits a write id has: those of its time and those of its count.
pub const WRITE_ID_LEN: usize = 48;

/// Whether a text is the write id of a mutation, which is an identity and no
/// cursor.
pub open spec fn is_write_id(s: Seq<char>) -> bool {
    s.len() == WRITE_ID_LEN && forall|i: int| 0 <= i < s.len() ==> is_lower_hex(#[trigger] s[i])
}

/// Whether a text is the write id of a mutation.
pub fn looks_like_write_id(s: &str) -> (r: bool)
    ensures
        r == is_write_id(s@),
{
    let x = chars_of(s);
    if x.len() != WRITE_ID_LEN {
        return false;
    }
    for i in 0..x.len()
        invariant
            x@ == s@,
            forall|k: int| 0 <= k < i ==> is_lower_hex(#[trigger] x@[k]),
    {
        let c = x[i];
        if !(('0' <= c && c <= '9') || ('a' <= c && c <= 'f')) {
            assert(!is_lower_hex(s@[i as int]));
            return false;
        }
    }
    true
}

/// The commit that a backend could not find, where it says so.
pub open spec fn lost_commit(e: BackendError) -> Option<Seq<char>> {
    match e {
        BackendError::Other(m) => after_prefix(m@, "COMMIT_NOT_FOUND:"@),
        _ => None,
    }
}

/// Whether `r` answers a request for changes, for what the git layer replied.
pub open spec fn answers_git_changes(
    mem: Seq<char>,
    since: Seq<char>,
    entities: Seq<Entity>,
    reply: Option<Result<BackendChanges, BackendError>>,
    r: Result<ChangesReport, EngineError>,
) -> bool {
    match reply {
        None => r matches Ok(report) && reports_nothing(mem, since, report),
        Some(Ok(told)) => r matches Ok(report) && reports(mem, entities, told, report),
        Some(Err(e)) => match lost_commit(e) {
            Some(sha) => r matches Err(EngineError::InvalidChangesCursor { mem: m, since: s })
                && m@ == mem && s@ == sha,
            None => r matches Err(EngineError::Backend(b)) && b == e,
        },
    }
}

/// Whether `r` answers a request for changes, for what the folder's mutation
/// log replied.
pub open spec fn answers_folder_changes(
    mem: Seq<char>,
    entities: Seq<Entity>,
    reply: Result<BackendChanges, BackendError>,
    r: Result<ChangesReport, EngineError>,
) -> bool {
    match reply {
        Ok(told) => r matches Ok(report) && reports(mem, entities, told, report),
        Err(e) => r matches Err(EngineError::Backend(b)) && b == e,
    }
}

/// Answer a request for changes with what the git layer replied.
pub fn answer_git_changes(
    store: &Store,
    mem: &str,
    since: &str,
    reply: Option<Result<BackendChanges, BackendError>>,
) -> (r: Result<ChangesReport, EngineError>)
    ensures
        answers_git_changes(mem@, since@, store.entities@, reply, r),
{
    match reply {
        None => Ok(report_nothing(mem, since)),
        Some(Ok(told)) => Ok(report_changes(store, mem, told)),
        Some(Err(e)) => {
            let sha = match &e {
                BackendError::Other(m) => strip_prefix(m, "COMMIT_NOT_FOUND:"),
                _ => None,
            };
            match sha {
                Some(since) => Err(EngineError::InvalidChangesCursor { mem: own(mem), since }),
                None => Err(EngineError::Backend(e)),
            }
        },
    }
}

/// Whether an error refuses a similarity outside the allowed range.
pub open spec fn refuses_similarity(similarity: Similarity, e: EngineError) -> bool {
    similarity matches Similarity::OutOfRange { requested, allowed_min, allowed_max } && e
        matches EngineError::RenameSimilarityOutOfRange {
        requested: r,
        allowed_min: lo,
        allowed_max: hi,
    } && r == requested && lo == allowed_min && hi == allowed_max
}

/// The error for a similarity outside the allowed range.
fn similarity_error(similarity: &Similarity) -> (r: Option<EngineError>)
    ensures
        match r {
            Some(e) => refuses_similarity(*similarity, e),
            None => !(similarity is OutOfRange),
        },
{
    match similarity {
        Similarity::OutOfRange { requested, allowed_min, allowed_max } => Some(
            EngineError::RenameSimilarityOutOfRange {
                requested: requested.clone(),
                allowed_min: allowed_min.clone(),
                allowed_max: allowed_max.clone(),
            },
        ),
        _ => None,
    }
}

// ---------------------------------------------------------------------
// What the git layer says
// ---------------------------------------------------------------------

/// The payload of a failure that a backend marks with a prefix.
pub open spec fn marked(e: BackendError, prefix: Seq<char>) -> Option<Seq<char>> {
    match e {
        BackendError::Other(m) => if starts(m@, prefix) {
            Some(strip_all(m@, prefix))
        } else {
            None
        },
        _ => None,
    }
}

/// The payload of a failure that a backend marks with a prefix.
fn marked_of(e: &BackendError, prefix: &str) -> (r: Option<String>)
    ensures
        opt_text(r) == marked(*e, prefix@),
{
    match e {
        BackendError::Other(m) => if begins(m, prefix) {
            Some(strip_repeated(m, prefix))
        } else {
            None
        },
        _ => None,
    }
}

/// What stands before the first colon of a payload.
pub open spec fn payload_head(payload: Seq<char>) -> Seq<char> {
    payload.take(next_char(payload, ':', 0))
}

/// What follows the first colon of a payload, or `other` where it has none.
pub open spec fn payload_tail(payload: Seq<char>, other: Seq<char>) -> Seq<char> {
    let p = next_char(payload, ':', 0);
    if p < payload.len() {
        payload.skip(p + 1)
    } else {
        other
    }
}

/// The two parts of a payload.
fn split_payload(payload: &str, other: &str) -> (r: (String, String))
    ensures
        r.0@ == payload_head(payload@),
        r.1@ == payload_tail(payload@, other@),
{
    let x = chars_of(payload);
    let p = next_of(&x, ':', 0);
    let head = slice_of(&x, 0, p);
    assert(head@ =~= payload@.take(p as int));
    if p < x.len() {
        let tail = slice_of(&x, p + 1, x.len());
        assert(tail@ =~= payload@.skip(p + 1));
        (head, tail)
    } else {
        (head, own(other))
    }
}

/// Whether an error says that the git layer is not wired for an operation.
pub open spec fn says_unwired(verb: Seq<char>, e: EngineError) -> bool {
    e matches EngineError::Backend(BackendError::Other(m)) && m@ == "git-branch "@ + verb
        + " hook not installed (full flavour not loaded)"@
}

/// The error for an operation that the git layer is not wired for.
fn unwired(verb: &str) -> (r: EngineError)
    ensures
        says_unwired(verb@, r),
{
    EngineError::Backend(
        BackendError::Other(
            "git-branch ".to_owned().concat(verb).concat(
                " hook not installed (full flavour not loaded)",
            ),
        ),
    )
}

/// Whether an error says that an operation needs a mem on a git branch.
pub open spec fn says_not_git(mem: Seq<char>, verb: Seq<char>, e: EngineError) -> bool {
    e matches EngineError::InvalidInput(m) && m@ == "mem '"@ + mem
        + "' is not git-backed — `memstead_"@ + verb + "` requires a git-branch mount"@
}

/// The error for an operation on a mem that is not on a git branch.
fn not_git(mem: &str, verb: &str) -> (r: EngineError)
    ensures
        says_not_git(mem@, verb@, r),
{
    EngineError::InvalidInput(
        "mem '".to_owned().concat(mem).concat("' is not git-backed — `memstead_").concat(
            verb,
        ).concat("` requires a git-branch mount"),
    )
}

/// Whether `out` is the engine's error for a failure that may name an unknown
/// remote.
pub open spec fn lifts_remote(e: BackendError, out: EngineError) -> bool {
    match marked(e, "UNKNOWN_REMOTE:"@) {
        Some(p) => out matches EngineError::UnknownRemote(name) && name@ == trim(p),
        None => out matches EngineError::Backend(b) && b == e,
    }
}

/// The engine's error for a failure that may name an unknown remote.
pub fn remote_error(e: BackendError) -> (r: EngineError)
    ensures
        lifts_remote(e, r),
{
    match marked_of(&e, "UNKNOWN_REMOTE:") {
        Some(p) => EngineError::UnknownRemote(trimmed(&p)),
        None => EngineError::Backend(e),
    }
}

/// Whether `out` is the engine's error for a failure that may name an unknown
/// ref.
pub open spec fn lifts_ref(e: BackendError, out: EngineError) -> bool {
    match marked(e, "UNKNOWN_REF:"@) {
        Some(p) => out matches EngineError::UnknownRef(name) && name@ == trim(p),
        None => out matches EngineError::Backend(b) && b == e,
    }
}

/// The engine's error for a failure that may name an unknown ref.
pub fn ref_error(e: BackendError) -> (r: EngineError)
    ensures
        lifts_ref(e, r),
{
    match marked_of(&e, "UNKNOWN_REF:") {
        Some(p) => EngineError::UnknownRef(trimmed(&p)),
        None => EngineError::Backend(e),
    }
}

/// Whether `out` is the engine's error for a pull that failed.
pub open spec fn lifts_pull(e: BackendError, out: EngineError) -> bool {
    if marked(e, "UNKNOWN_REMOTE:"@) is Some {
        lifts_remote(e, out)
    } else {
        match marked(e, "LOCAL_DIVERGENCE:"@) {
            Some(p) => out matches EngineError::LocalDivergence { mem, remote_ref } && mem@
                == payload_head(p) && remote_ref@ == payload_tail(p, "refs/remotes/?/?"@),
            None => out matches EngineError::Backend(b) && b == e,
        }
    }
}

/// The engine's error for a pull that failed.
pub fn pull_error(e: BackendError) -> (r: EngineError)
    ensures
        lifts_pull(e, r),
{
    if marked_of(&e, "UNKNOWN_REMOTE:").is_some() {
        return remote_error(e);
    }
    match marked_of(&e, "LOCAL_DIVERGENCE:") {
        Some(p) => {
            let (mem, remote_ref) = split_payload(&p, "refs/remotes/?/?");
            EngineError::LocalDivergence { mem, remote_ref }
        },
        None => EngineError::Backend(e),
    }
}

/// Whether `out` is the engine's error for a push that failed.
pub open spec fn lifts_push(remote: Seq<char>, e: BackendError, out: EngineError) -> bool {
    if marked(e, "UNKNOWN_REMOTE:"@) is Some {
        lifts_remote(e, out)
    } else {
        match marked(e, "NON_FAST_FORWARD:"@) {
            Some(p) => out matches EngineError::NonFastForward { mem, remote: r } && mem@
                == payload_head(p) && r@ == payload_tail(p, remote),
            None => lifts_ref(e, out),
        }
    }
}

/// The engine's error for a push that failed.
pub fn push_error(remote: &str, e: BackendError) -> (r: EngineError)
    ensures
        lifts_push(remote@, e, r),
{
    if marked_of(&e, "UNKNOWN_REMOTE:").is_some() {
        return remote_error(e);
    }
    match marked_of(&e, "NON_FAST_FORWARD:") {
        Some(p) => {
            let (mem, r) = split_payload(&p, remote);
            EngineError::NonFastForward { mem, remote: r }
        },
        None => ref_error(e),
    }
}

/// The parts of a list that commas separate, from `from` on, without the
/// white space around them and without the empty ones.
pub open spec fn listed_parts(s: Seq<char>, from: int) -> Seq<Seq<char>>
    decreases s.len() + 1 - from,
{
    if from < 0 || from > s.len() {
        Seq::empty()
    } else {
        let end = next_char(s, ',', from);
        if from <= end <= s.len() {
            let part = trim(s.subrange(from, end));
            let rest = listed_parts(s, end + 1);
            if part.len() > 0 {
                seq![part] + rest
            } else {
                rest
            }
        } else {
            Seq::empty()
        }
    }
}

/// The parts of a list that commas separate.
fn listed_parts_of(s: &str) -> (r: Vec<String>)
    ensures
        texts(r@) == listed_parts(s@, 0),
{
    let x = chars_of(s);
    let n: usize = x.len();
    let mut out: Vec<String> = Vec::new();
    let mut from: usize = 0;
    assert(texts(out@) + listed_parts(s@, 0) =~= listed_parts(s@, 0));
    loop
        invariant_except_break
            listed_parts(s@, 0) == texts(out@) + listed_parts(s@, from as int),
        invariant
            x@ == s@,
            n == x@.len(),
            from <= n,
        ensures
            listed_parts(s@, 0) == texts(out@),
        decreases n - from,
    {
        let end = next_of(&x, ',', from);
        let ghost done = texts(out@);
        let part = trimmed(&slice_of(&x, from, end));
        let filled = chars_of(&part).len() > 0;
        if filled {
            out.push(part);
            assert(texts(out@) =~= done.push(part@));
        }
        proof {
            let rest = listed_parts(s@, end + 1);
            if filled {
                assert(done + (seq![part@] + rest) =~= texts(out@) + rest);
            }
        }
        if end >= n {
            assert(listed_parts(s@, end + 1) =~= Seq::empty());
            assert(texts(out@) + listed_parts(s@, end + 1) =~= texts(out@));
            break;
        }
        from = end + 1;
    }
    out
}

/// Whether `out` is the engine's error for a reset that failed.
pub open spec fn lifts_reset(
    mem: Seq<char>,
    target: Seq<char>,
    e: BackendError,
    out: EngineError,
) -> bool {
    if marked(e, "UNKNOWN_REF:"@) is Some {
        lifts_ref(e, out)
    } else {
        match marked(e, "PUSHED_COMMITS_PROTECTED:"@) {
            Some(p) => out matches EngineError::PushedCommitsProtected {
                mem: m,
                target_sha,
                pushed_shas,
            } && m@ == mem && target_sha@ == target && texts(pushed_shas@) == listed_parts(
                trim(p),
                0,
            ),
            None => out matches EngineError::Backend(b) && b == e,
        }
    }
}

/// The engine's error for a reset that failed.
pub fn reset_error(mem: &str, target: &str, e: BackendError) -> (r: EngineError)
    ensures
        lifts_reset(mem@, target@, e, r),
{
    if marked_of(&e, "UNKNOWN_REF:").is_some() {
        return ref_error(e);
    }
    match marked_of(&e, "PUSHED_COMMITS_PROTECTED:") {
        Some(p) => EngineError::PushedCommitsProtected {
            mem: own(mem),
            target_sha: own(target),
            pushed_shas: listed_parts_of(&trimmed(&p)),
        },
        None => EngineError::Backend(e),
    }
}

// ---------------------------------------------------------------------
// Reading a mem again
// ---------------------------------------------------------------------

/// What reading a mem again brought: the entities that are new, and those
/// whose content is another.
#[derive(Debug)]
pub struct MemReload {
    pub added: Vec<EntityId>,
    pub changed: Vec<EntityId>,
}

/// What reading a mem again brought, and between which heads.
#[derive(Debug)]
pub struct ReloadReport {
    /// The head at which the mem was known before.
    pub head_before: String,
    pub head_after: String,
    pub added: Vec<EntityId>,
    pub changed: Vec<EntityId>,
}

/// The ids of the entities among `loaded` that the store did not know.
pub open spec fn added_ids(known: Seq<Entity>, loaded: Seq<Entity>) -> Seq<EntityId>
    decreases loaded.len(),
{
    if loaded.len() == 0 {
        Seq::empty()
    } else if entity_of(known, loaded.last().id.0@) is None {
        added_ids(known, loaded.drop_last()).push(loaded.last().id)
    } else {
        added_ids(known, loaded.drop_last())
    }
}

/// The ids of the entities among `loaded` that the store knew with other
/// content.
pub open spec fn changed_ids(known: Seq<Entity>, loaded: Seq<Entity>) -> Seq<EntityId>
    decreases loaded.len(),
{
    if loaded.len() == 0 {
        Seq::empty()
    } else {
        let rest = changed_ids(known, loaded.drop_last());
        match entity_of(known, loaded.last().id.0@) {
            Some(e) => if e.content_hash@ != loaded.last().content_hash@ {
                rest.push(loaded.last().id)
            } else {
                rest
            },
            None => rest,
        }
    }
}

/// The store without the entities of a mem.
pub open spec fn without_mem(entities: Seq<Entity>, mem: Seq<char>) -> Seq<Entity>
    decreases entities.len(),
{
    if entities.len() == 0 {
        Seq::empty()
    } else if entities.last().mem@ == mem {
        without_mem(entities.drop_last(), mem)
    } else {
        without_mem(entities.drop_last(), mem).push(entities.last())
    }
}

/// Take the entities of a mem out of the store.
fn drop_mem(store: &mut Store, mem: &str)
    ensures
        final(store).entities@ == without_mem(old(store).entities@, mem@),
{
    let ghost all = store.entities@;
    let mut rest: Vec<Entity> = Vec::new();
    std::mem::swap(&mut rest, &mut store.entities);
    let ghost mut done: Seq<Entity> = Seq::empty();
    let mut out: Vec<Entity> = Vec::new();
    assert(done + rest@ =~= all);
    while rest.len() > 0
        invariant
            done + rest@ == all,
            out@ == without_mem(done, mem@),
        decreases rest@.len(),
    {
        let e = rest.remove(0);
        proof {
            let next = done.push(e);
            assert(next.drop_last() =~= done);
            assert(next + rest@ =~= all);
            done = next;
        }
        if !same(&e.mem, mem) {
            out.push(e);
        }
    }
    assert(done =~= all);
    store.entities = out;
}

/// Whether a path is a directory or lies under it.
pub open spec fn lies_under(path: Seq<char>, root: Seq<char>) -> bool {
    starts(path, root) && (path.len() == root.len() || root.len() == 0 || root.last() == '/'
        || path[root.len() as int] == '/')
}

/// Whether a path is a directory or lies under it.
fn is_under(path: &str, root: &str) -> (r: bool)
    ensures
        r == lies_under(path@, root@),
{
    if !begins(path, root) {
        return false;
    }
    let p = chars_of(path);
    let q = chars_of(root);
    p.len() == q.len() || q.len() == 0 || q[q.len() - 1] == '/' || p[q.len()] == '/'
}

/// Whether a load error is one of the mem in this storage: it lies under the
/// folder's root, or on one of the paths that were read again.
pub open spec fn is_error_of(
    storage: MountStorage,
    read: Seq<Seq<char>>,
    path: Seq<char>,
) -> bool {
    match storage {
        MountStorage::Folder { path: root } => lies_under(path, root@),
        _ => read.contains(path),
    }
}

/// Load errors without those of the mem in this storage.
pub open spec fn without_errors(
    errors: Seq<(Seq<char>, Seq<char>)>,
    storage: MountStorage,
    read: Seq<Seq<char>>,
) -> Seq<(Seq<char>, Seq<char>)>
    decreases errors.len(),
{
    if errors.len() == 0 {
        Seq::empty()
    } else if is_error_of(storage, read, errors.last().0) {
        without_errors(errors.drop_last(), storage, read)
    } else {
        without_errors(errors.drop_last(), storage, read).push(errors.last())
    }
}

/// Drop the load errors of the mem in this storage.
fn drop_errors(errors: &mut Vec<(String, String)>, storage: &MountStorage, read: &Vec<String>)
    ensures
        views(final(errors)@) == without_errors(views(old(errors)@), *storage, texts(read@)),
{
    let ghost all = errors@;
    let mut rest: Vec<(String, String)> = Vec::new();
    std::mem::swap(&mut rest, errors);
    let ghost mut done: Seq<(String, String)> = Seq::empty();
    let mut out: Vec<(String, String)> = Vec::new();
    assert(done + rest@ =~= all);
    assert(views(out@) =~= without_errors(views(done), *storage, texts(read@)));
    while rest.len() > 0
        invariant
            done + rest@ == all,
            views(out@) == without_errors(views(done), *storage, texts(read@)),
        decreases rest@.len(),
    {
        let e = rest.remove(0);
        let ghost kept = views(out@);
        proof {
            let next = done.push(e);
            assert(next + rest@ =~= all);
            assert(views(next) =~= views(done).push(e@));
            assert(views(next).drop_last() =~= views(done));
            done = next;
        }
        let of_mem = match storage {
            MountStorage::Folder { path: root } => is_under(&e.0, root),
            _ => listed(read, &e.0),
        };
        if !of_mem {
            out.push(e);
            assert(views(out@) =~= kept.push(e@));
        }
    }
    assert(done =~= all);
    *errors = out;
}

/// Warnings without those on what stands behind the mount of a mem.
pub open spec fn without_unbacked(ws: Seq<WarningHint>, mem: Seq<char>) -> Seq<WarningHint>
    decreases ws.len(),
{
    if ws.len() == 0 {
        Seq::empty()
    } else {
        let rest = without_unbacked(ws.drop_last(), mem);
        match ws.last() {
            WarningHint::MountUnbacked { mem: m, reason, location } => if m@ == mem {
                rest
            } else {
                rest.push(ws.last())
            },
            _ => rest.push(ws.last()),
        }
    }
}

/// Drop the warnings on what stands behind the mount of a mem.
fn drop_unbacked(warnings: &mut Vec<WarningHint>, mem: &str)
    ensures
        final(warnings)@ == without_unbacked(old(warnings)@, mem@),
{
    let ghost all = warnings@;
    let mut rest: Vec<WarningHint> = Vec::new();
    std::mem::swap(&mut rest, warnings);
    let ghost mut done: Seq<WarningHint> = Seq::empty();
    let mut out: Vec<WarningHint> = Vec::new();
    assert(done + rest@ =~= all);
    while rest.len() > 0
        invariant
            done + rest@ == all,
            out@ == without_unbacked(done, mem@),
        decreases rest@.len(),
    {
        let w = rest.remove(0);
        proof {
            let next = done.push(w);
            assert(next.drop_last() =~= done);
            assert(next + rest@ =~= all);
            done = next;
        }
        let gone = match &w {
            WarningHint::MountUnbacked { mem: m, .. } => same(m, mem),
            _ => false,
        };
        if !gone {
            out.push(w);
        }
    }
    assert(done =~= all);
    *warnings = out;
}

/// The paths of files.
pub open spec fn paths(files: Seq<(Seq<char>, Seq<char>)>) -> Seq<Seq<char>> {
    files.map_values(|f: (Seq<char>, Seq<char>)| f.0)
}

/// Whether an engine went from `pre` to `post` by loading what was read of
/// the mem of mount `at`: its entities, its load errors and the warning on
/// what stands behind its mount are those of the new reading; nothing else
/// changed.
pub open spec fn swaps_mem<B, H>(
    pre: Engine<B, H>,
    post: Engine<B, H>,
    at: int,
    reads: Seq<(String, Result<Vec<u8>, String>)>,
    hint: Option<WarningHint>,
    load: LoadResult,
) -> bool {
    let m = pre.mounts@[at];
    let read = paths(read_entries(reads)) + paths(read_failures(reads));
    &&& post.store.entities@ == with_entities(
        without_mem(pre.store.entities@, m.mount.mem@),
        load.entities@,
    )
    &&& views(post.load_errors@) == without_errors(
        views(pre.load_errors@),
        m.mount.storage,
        read,
    ) + located(m.mount.storage, views(load.errors@))
    &&& post.load_warnings@ == without_unbacked(pre.load_warnings@, m.mount.mem@)
        + crate::boot::hints(hint)
    &&& post.mounts@ == pre.mounts@.update(at, MountedBackend { deferred: false, ..m })
    &&& post == (Engine {
        store: post.store,
        load_errors: post.load_errors,
        load_warnings: post.load_warnings,
        mounts: post.mounts,
        ..pre
    })
}

/// Whether `r` is what reading a mem again gives, with the engine before and
/// after it. Where it fails, nothing changes.
pub open spec fn reloads<B: MemBackend, H: Host>(
    pre: Engine<B, H>,
    mem: Seq<char>,
    post: Engine<B, H>,
    r: Result<MemReload, EngineError>,
) -> bool {
    match pre.mount_at(mem) {
        None => post == pre && (r matches Err(e) && says_unknown(pre.quarantined@, mem, e)),
        Some(at) => match schema_of(pre.schemas@, mem) {
            None => post == pre && (r matches Err(e) && says_unknown(pre.quarantined@, mem, e)),
            Some(schema) => exists|
                reply: Result<Vec<(String, Result<Vec<u8>, String>)>, BackendError>,
            | #[trigger]
                reads_reply(&pre.mounts@[at].backend, reply) && match reply {
                    Err(e) => post == pre && (r matches Err(EngineError::Backend(b)) && b == e),
                    Ok(reads) => r matches Ok(report) && reload_lands(
                        pre,
                        mem,
                        at,
                        schema,
                        reads@,
                        post,
                        report,
                    ),
                },
        },
    }
}

/// Whether an engine went from `pre` to `post` by parsing what was read of a
/// mem, and `report` tells what that brought.
pub open spec fn reload_lands<B: MemBackend, H: Host>(
    pre: Engine<B, H>,
    mem: Seq<char>,
    at: int,
    schema: Arc<Schema>,
    reads: Seq<(String, Result<Vec<u8>, String>)>,
    post: Engine<B, H>,
    report: MemReload,
) -> bool {
    exists|hint: Option<WarningHint>, load: LoadResult|
        #![trigger probed_hint(pre.mounts@[at].mount, &pre.mounts@[at].backend, Some(read_entries(reads).len()), hint), parse_reply(&pre.host, read_entries(reads), read_failures(reads), mem, schema, Seq::empty(), load)]
        probed_hint(
            pre.mounts@[at].mount,
            &pre.mounts@[at].backend,
            Some(read_entries(reads).len()),
            hint,
        ) && parse_reply(
            &pre.host,
            read_entries(reads),
            read_failures(reads),
            mem,
            schema,
            Seq::empty(),
            load,
        ) && swaps_mem(pre, post, at, reads, hint, load) && report.added@ == added_ids(
            pre.store.entities@,
            load.entities@,
        ) && report.changed@ == changed_ids(pre.store.entities@, load.entities@)
}

/// The paths of what was read of a mem.
fn read_paths(entries: &Vec<SourceEntry>, failures: &Vec<SourceReadError>) -> (r: Vec<String>)
    ensures
        texts(r@) == paths(views(entries@)) + paths(views(failures@)),
{
    let mut out: Vec<String> = Vec::new();
    let ghost ep = paths(views(entries@));
    let ghost fp = paths(views(failures@));
    for i in 0..entries.len()
        invariant
            ep == paths(views(entries@)),
            texts(out@) == ep.take(i as int),
    {
        let ghost done = texts(out@);
        out.push(entries[i].relative_path.clone());
        assert(views(entries@)[i as int] == entries@[i as int]@);
        assert(texts(out@) =~= done.push(entries@[i as int].relative_path@));
        assert(ep.take(i + 1) =~= ep.take(i as int).push(ep[i as int]));
    }
    assert(ep.take(ep.len() as int) =~= ep);
    assert(ep + fp.take(0) =~= ep);
    for i in 0..failures.len()
        invariant
            fp == paths(views(failures@)),
            texts(out@) == ep + fp.take(i as int),
    {
        let ghost done = texts(out@);
        out.push(failures[i].path.clone());
        assert(views(failures@)[i as int] == failures@[i as int]@);
        assert(texts(out@) =~= done.push(failures@[i as int].path@));
        assert(ep + fp.take(i + 1) =~= (ep + fp.take(i as int)).push(fp[i as int]));
    }
    assert(fp.take(fp.len() as int) =~= fp);
    out
}

/// What loading entities over a store brings.
fn compare_load(store: &Store, loaded: &Vec<Entity>) -> (r: MemReload)
    ensures
        r.added@ == added_ids(store.entities@, loaded@),
        r.changed@ == changed_ids(store.entities@, loaded@),
        r.added@.len() + r.changed@.len() <= loaded@.len(),
{
    let mut added: Vec<EntityId> = Vec::new();
    let mut changed: Vec<EntityId> = Vec::new();
    assert(added@ =~= added_ids(store.entities@, loaded@.take(0)));
    assert(changed@ =~= changed_ids(store.entities@, loaded@.take(0)));
    for i in 0..loaded.len()
        invariant
            added@ == added_ids(store.entities@, loaded@.take(i as int)),
            changed@ == changed_ids(store.entities@, loaded@.take(i as int)),
            added@.len() + changed@.len() <= i,
    {
        assert(loaded@.take(i + 1).drop_last() =~= loaded@.take(i as int));
        let e = &loaded[i];
        match store.get(&e.id) {
            None => {
                added.push(e.id.copy());
            },
            Some(old) => {
                if !same(&old.content_hash, &e.content_hash) {
                    changed.push(e.id.copy());
                }
            },
        }
    }
    assert(loaded@.take(loaded@.len() as int) =~= loaded@);
    MemReload { added, changed }
}

/// Whether a live head shows that a mem moved on from the head at which it is
/// known. Storage that tells of no head shows nothing.
pub open spec fn moved_on(cached: Option<Seq<char>>, live: Option<Seq<char>>) -> bool {
    live is Some && live != cached
}

/// The head at which a mem is known, or nothing as the empty text.
pub open spec fn head_or_empty(head: Option<String>) -> Seq<char> {
    match head {
        Some(h) => h@,
        None => Seq::empty(),
    }
}

/// Whether `post` is `pre` with another head for mount `at`.
pub open spec fn sets_head<B, H>(
    pre: Engine<B, H>,
    post: Engine<B, H>,
    at: int,
    head: Seq<char>,
) -> bool {
    &&& 0 <= at < pre.mounts@.len()
    &&& post.mounts@.len() == pre.mounts@.len()
    &&& opt_text(post.mounts@[at].last_known_head) == Some(head)
    &&& post.mounts@ == pre.mounts@.update(
        at,
        MountedBackend {
            last_known_head: post.mounts@[at].last_known_head,
            ..pre.mounts@[at]
        },
    )
    &&& post == (Engine { mounts: post.mounts, ..pre })
}

/// Whether `post` is `pre` after the head of mount `at` moved from `previous`
/// to `head`: where it moved at all, the engine knows the new head and an
/// event waits to be delivered.
pub open spec fn head_moves<B, H>(
    pre: Engine<B, H>,
    post: Engine<B, H>,
    at: int,
    mem: Seq<char>,
    previous: Seq<char>,
    head: Seq<char>,
) -> bool {
    if previous == head {
        post == pre
    } else {
        &&& sets_head(pre, Engine { pending_events: pre.pending_events, ..post }, at, head)
        &&& post.pending_events@.len() == pre.pending_events@.len() + 1
        &&& post.pending_events@.drop_last() == pre.pending_events@
        &&& post.pending_events@.last().tells(mem, head, previous)
    }
}

/// Whether `post` is `pre` after the engine's own write of mount `at`: its
/// head is known, and an event tells of the move where there was one.
pub open spec fn records_write<B, H>(
    pre: Engine<B, H>,
    post: Engine<B, H>,
    at: int,
    sha: Seq<char>,
) -> bool {
    if sha.len() == 0 || at < 0 || at >= pre.mounts@.len() {
        post == pre
    } else {
        let m = pre.mounts@[at];
        if head_or_empty(m.last_known_head) == sha {
            sets_head(pre, post, at, sha)
        } else {
            head_moves(pre, post, at, m.mount.mem@, head_or_empty(m.last_known_head), sha)
        }
    }
}

/// Whether `r` answers a request for the changes of a mem.
pub open spec fn tells_changes<B, H: Host>(
    engine: Engine<B, H>,
    mem: Seq<char>,
    since: Seq<char>,
    similarity: Similarity,
    r: Result<ChangesReport, EngineError>,
) -> bool {
    match engine.mount_of(mem) {
        None => r matches Err(e) && says_unknown(engine.quarantined@, mem, e),
        Some(m) => if similarity is OutOfRange {
            r matches Err(e) && refuses_similarity(similarity, e)
        } else {
            match m.mount.storage {
                MountStorage::Folder { path } => if is_write_id(since) {
                    r matches Err(EngineError::InvalidTimestampCursor { mem: n, since: s }) && n@
                        == mem && s@ == since
                } else {
                    exists|reply: Result<BackendChanges, BackendError>| #[trigger]
                        folder_changes_reply(&engine.host, path@, mem, since, reply)
                            && answers_folder_changes(mem, engine.store.entities@, reply, r)
                },
                MountStorage::GitBranch { gitdir, branch } => exists|
                    reply: Option<Result<BackendChanges, BackendError>>,
                | #[trigger]
                    git_changes_reply(
                        &engine.host,
                        gitdir@,
                        branch@,
                        mem,
                        since,
                        similarity,
                        reply,
                    ) && answers_git_changes(mem, since, engine.store.entities@, reply, r),
                _ => r matches Ok(report) && reports_nothing(mem, since, report),
            }
        },
    }
}

/// Whether `notice` tells what moved a mem from one head to another; where
/// the changes cannot be had, the heads alone.
pub open spec fn notices<B, H: Host>(
    engine: Engine<B, H>,
    mem: Seq<char>,
    from: Seq<char>,
    to: Seq<char>,
    notice: MemChangedNotice,
) -> bool {
    notice.mem@ == mem && notice.from_head@ == from && notice.to_head@ == to && exists|
        r: Result<ChangesReport, EngineError>,
    | #[trigger]
        tells_changes(engine, mem, from, Similarity::Default, r) && notice.changes@ == (match r {
            Ok(report) => report.changes@,
            Err(_) => Seq::empty(),
        })
}

/// Whether probing one mem took an engine from `pre` to `post` with the
/// warning `w`, for the head that its storage told of. A mem that moved on is
/// read again, the new head is kept, and a notice waits for the response. A
/// reading that fails leaves the engine as it was.
pub open spec fn catches_up<B: MemBackend, H: Host>(
    pre: Engine<B, H>,
    mem: Seq<char>,
    live: Option<Seq<char>>,
    post: Engine<B, H>,
    w: Option<WarningHint>,
) -> bool {
    match pre.mount_of(mem) {
        None => post == pre && w is None,
        Some(m) => if moved_on(opt_text(m.last_known_head), live) {
            exists|mid: Engine<B, H>, r: Result<MemReload, EngineError>| #[trigger]
                reloads(pre, mem, mid, r) && match r {
                    Err(_) => post == mid && w is None,
                    Ok(report) => w matches Some(
                        WarningHint::MemReloaded { mem: n, old_head, new_head, entities_loaded },
                    ) && n@ == mem && old_head@ == head_or_empty(m.last_known_head) && Some(
                        new_head@,
                    ) == live && entities_loaded == report.added@.len() + report.changed@.len()
                        && reload_is_noted(
                        mid,
                        mem,
                        head_or_empty(m.last_known_head),
                        new_head@,
                        post,
                    ),
                }
        } else {
            post == pre && w is None
        },
    }
}

/// Whether `post` is `mid` with the new head and a notice of what moved it.
pub open spec fn reload_is_noted<B: MemBackend, H: Host>(
    mid: Engine<B, H>,
    mem: Seq<char>,
    from: Seq<char>,
    to: Seq<char>,
    post: Engine<B, H>,
) -> bool {
    &&& mid.mount_at(mem) matches Some(at) && sets_head(
        mid,
        Engine { pending_mem_changed: mid.pending_mem_changed, ..post },
        at,
        to,
    )
    &&& post.pending_mem_changed@.len() == mid.pending_mem_changed@.len() + 1
    &&& post.pending_mem_changed@.drop_last() == mid.pending_mem_changed@
    &&& notices(
        Engine { pending_mem_changed: mid.pending_mem_changed, ..post },
        mem,
        from,
        to,
        post.pending_mem_changed@.last(),
    )
}

/// The names of the mems that a probe of one mem or of all looks at.
pub open spec fn probed_mems<B>(mounts: Seq<MountedBackend<B>>, mem: Option<Seq<char>>) -> Seq<
    Seq<char>,
>
    decreases mounts.len(),
{
    if mounts.len() == 0 {
        Seq::empty()
    } else {
        let rest = probed_mems(mounts.drop_last(), mem);
        let name = mounts.last().mount.mem@;
        match mem {
            Some(wanted) => if name == wanted {
                rest.push(name)
            } else {
                rest
            },
            None => rest.push(name),
        }
    }
}

/// The warnings of a list of probes.
pub open spec fn gathered(ws: Seq<Option<WarningHint>>) -> Seq<WarningHint>
    decreases ws.len(),
{
    if ws.len() == 0 {
        Seq::empty()
    } else {
        gathered(ws.drop_last()) + crate::boot::hints(ws.last())
    }
}

/// Whether probing mems one after another took an engine through the states
/// `trace`, with a warning or none from each. Each head was told by the
/// storage of the mem before anything was read again.
pub open spec fn all_catch_up<B: MemBackend, H: Host>(
    names: Seq<Seq<char>>,
    heads: Seq<Option<Seq<char>>>,
    trace: Seq<Engine<B, H>>,
    ws: Seq<Option<WarningHint>>,
) -> bool {
    &&& heads.len() == names.len()
    &&& ws.len() == names.len()
    &&& trace.len() == names.len() + 1
    &&& forall|i: int|
        0 <= i < names.len() ==> head_was_told(trace[0], names[i], #[trigger] heads[i])
    &&& forall|i: int|
        0 <= i < names.len() ==> catches_up(
            trace[i],
            names[i],
            heads[i],
            trace[i + 1],
            #[trigger] ws[i],
        )
}

/// Whether probing mems one after another, for the heads that their storage
/// told of, took an engine from `pre` to `post` with the warnings `r`.
pub open spec fn brings_up<B: MemBackend, H: Host>(
    pre: Engine<B, H>,
    names: Seq<Seq<char>>,
    heads: Seq<Option<Seq<char>>>,
    post: Engine<B, H>,
    r: Seq<WarningHint>,
) -> bool {
    exists|trace: Seq<Engine<B, H>>, ws: Seq<Option<WarningHint>>| #[trigger]
        all_catch_up(names, heads, trace, ws) && trace[0] == pre && trace.last() == post && r
            == gathered(ws)
}

/// Whether the storage of a mem may have told of this head.
pub open spec fn head_was_told<B: MemBackend, H>(
    engine: Engine<B, H>,
    mem: Seq<char>,
    head: Option<Seq<char>>,
) -> bool {
    match engine.mount_of(mem) {
        Some(m) => exists|reply: Result<Option<String>, BackendError>| #[trigger]
            head_reply(&m.backend, reply) && head == head_told(reply),
        None => head is None,
    }
}

impl<B: MemBackend, H: Host> Engine<B, H> {
    /// The changes of `mem` after the cursor `since`. A folder mem tells them
    /// from its mutation log, a branch from its commits; where no git layer is
    /// wired, and for an archive or a mem in memory, there are none. A write
    /// id is an identity and no cursor: a folder mem refuses it.
    pub fn changes_since(&self, mem: &str, since: &str, rename_similarity: &Similarity) -> (r:
        Result<ChangesReport, EngineError>)
        ensures
            tells_changes(*self, mem@, since@, *rename_similarity, r),
    {
        let at = match self.find_mount(mem) {
            Ok(i) => i,
            Err(e) => {
                return Err(e);
            },
        };
        if let Some(e) = similarity_error(rename_similarity) {
            return Err(e);
        }
        match &self.mounts[at].mount.storage {
            MountStorage::Folder { path } => {
                if looks_like_write_id(since) {
                    return Err(
                        EngineError::InvalidTimestampCursor { mem: own(mem), since: own(since) },
                    );
                }
                let reply = self.host.folder_changes_since(path, mem, since);
                let ghost told = reply;
                assert(folder_changes_reply(&self.host, path@, mem@, since@, told));
                match reply {
                    Ok(c) => Ok(report_changes(&self.store, mem, c)),
                    Err(e) => Err(EngineError::Backend(e)),
                }
            },
            MountStorage::GitBranch { gitdir, branch } => {
                let reply = self.host.git_changes_since(
                    gitdir,
                    branch,
                    mem,
                    since,
                    rename_similarity,
                );
                let ghost told = reply;
                assert(git_changes_reply(
                    &self.host,
                    gitdir@,
                    branch@,
                    mem@,
                    since@,
                    *rename_similarity,
                    told,
                ));
                answer_git_changes(&self.store, mem, since, reply)
            },
            _ => Ok(report_nothing(mem, since)),
        }
    }

    /// What moved a mem from one head to another, for the next response. Where
    /// the changes cannot be had, the heads alone tell that it moved.
    pub fn mem_changed_notice(&self, mem: &str, from_head: &str, to_head: &str) -> (r:
        MemChangedNotice)
        ensures
            notices(*self, mem@, from_head@, to_head@, r),
    {
        let answer = self.changes_since(mem, from_head, &Similarity::Default);
        let ghost told = answer;
        assert(tells_changes(*self, mem@, from_head@, Similarity::Default, told));
        let changes = match answer {
            Ok(report) => report.changes,
            Err(_) => Vec::new(),
        };
        MemChangedNotice {
            mem: own(mem),
            from_head: own(from_head),
            to_head: own(to_head),
            changes,
        }
    }

    /// Take the notices of what reloads applied since they were last taken.
    pub fn take_mem_changed_notices(&mut self) -> (r: Vec<MemChangedNotice>)
        ensures
            r@ == old(self).pending_mem_changed@,
            final(self).pending_mem_changed@.len() == 0,
            *final(self) == (Engine {
                pending_mem_changed: final(self).pending_mem_changed,
                ..*old(self)
            }),
    {
        let mut out: Vec<MemChangedNotice> = Vec::new();
        std::mem::swap(&mut out, &mut self.pending_mem_changed);
        out
    }

    /// Read a mem again from its storage.
    pub fn reload_one_mem(&mut self, mem: &str) -> (r: Result<MemReload, EngineError>)
        ensures
            reloads(*old(self), mem@, *final(self), r),
            r matches Ok(report) ==> report.added@.len() + report.changed@.len() <= usize::MAX,
    {
        let ghost pre = *self;
        let at = match self.find_mount(mem) {
            Ok(i) => i,
            Err(e) => {
                return Err(e);
            },
        };
        let schema = match self.schema_for(mem) {
            Some(s) => s.clone(),
            None => {
                return Err(self.unknown_mem_error(mem));
            },
        };
        let reply = self.mounts[at].backend.read_all_entities();
        let ghost answered = reply;
        assert(reads_reply(&pre.mounts@[at as int].backend, answered));
        let reads = match reply {
            Ok(reads) => reads,
            Err(e) => {
                return Err(EngineError::Backend(e));
            },
        };
        let ghost raw = reads@;
        let (entries, failures) = crate::boot::sort_reads(reads);
        let count: usize = entries.len();
        assert(views(entries@).len() == entries@.len());
        let hint = unbacked_mount_warning(
            &self.mounts[at].mount,
            &self.mounts[at].backend,
            Some(count),
        );
        let ghost warned = hint;
        let silent: Vec<String> = Vec::new();
        assert(texts(silent@) =~= Seq::empty());
        let load = self.host.parse_entries(&entries, &failures, mem, &schema, &silent);
        let ghost told = load;
        assert(parse_reply(
            &pre.host,
            read_entries(raw),
            read_failures(raw),
            mem@,
            schema,
            Seq::empty(),
            told,
        ));
        assert(probed_hint(
            pre.mounts@[at as int].mount,
            &pre.mounts@[at as int].backend,
            Some(read_entries(raw).len()),
            warned,
        ));
        let LoadResult { entities, errors, .. } = load;
        let total: usize = entities.len();
        let report = compare_load(&self.store, &entities);
        assert(report.added@.len() + report.changed@.len() <= total);
        let read = read_paths(&entries, &failures);
        drop_mem(&mut self.store, mem);
        upsert_all(&mut self.store, entities);
        drop_errors(&mut self.load_errors, &self.mounts[at].mount.storage, &read);
        add_errors(&mut self.load_errors, &self.mounts[at].mount.storage, &errors);
        drop_unbacked(&mut self.load_warnings, mem);
        if let Some(h) = hint {
            self.load_warnings.push(h);
        }
        self.mounts[at].deferred = false;
        proof {
            crate::engine::lemma_mount_index(pre.mounts@, mem@, 0);
            let ws = without_unbacked(pre.load_warnings@, mem@);
            assert(self.load_warnings@ =~= ws + crate::boot::hints(warned));
            assert(self.mounts@ =~= pre.mounts@.update(
                at as int,
                MountedBackend { deferred: false, ..pre.mounts@[at as int] },
            ));
            assert(swaps_mem(pre, *self, at as int, raw, warned, told));
            assert(reload_lands(pre, mem@, at as int, schema, raw, *self, report));
        }
        Ok(report)
    }

    /// Whether a mem moved on in its storage since the engine last read or
    /// wrote it. Nothing is read again for the answer.
    pub fn mem_drifted(&self, mem: &str) -> (r: Result<bool, EngineError>)
        ensures
            match self.mount_of(mem@) {
                None => r matches Err(e) && says_unknown(self.quarantined@, mem@, e),
                Some(m) => exists|reply: Result<Option<String>, BackendError>| #[trigger]
                    head_reply(&m.backend, reply) && r == Ok::<bool, EngineError>(
                        moved_on(opt_text(m.last_known_head), head_told(reply)),
                    ),
            },
            tells_drift(*self, mem@, r),
    {
        let at = match self.find_mount(mem) {
            Ok(i) => i,
            Err(e) => {
                return Err(e);
            },
        };
        let m = &self.mounts[at];
        let reply = m.backend.current_head();
        let ghost told = reply;
        assert(head_reply(&m.backend, told));
        let live = match reply {
            Ok(h) => h,
            Err(_) => None,
        };
        Ok(live.is_some() && !crate::text::same_opt(&live, &m.last_known_head))
    }

    /// Read a mem again and report between which heads: the one at which it
    /// was known before, and the one that its storage told of right before the
    /// reading, which the engine knows from then on.
    pub fn reload_one_mem_report(&mut self, mem: &str) -> (r: Result<ReloadReport, EngineError>)
        ensures
            match old(self).mount_of(mem@) {
                None => *final(self) == *old(self) && (r matches Err(e) && says_unknown(
                    old(self).quarantined@,
                    mem@,
                    e,
                )),
                Some(m) => exists|
                    head: Option<Seq<char>>,
                    mid: Engine<B, H>,
                    got: Result<MemReload, EngineError>,
                |
                    #[trigger] head_was_told(*old(self), mem@, head) && #[trigger] reloads(
                        *old(self),
                        mem@,
                        mid,
                        got,
                    ) && reported(m, mid, mem@, head, got, *final(self), r),
            },
    {
        let ghost pre = *self;
        let at = match self.find_mount(mem) {
            Ok(i) => i,
            Err(e) => {
                return Err(e);
            },
        };
        let reply = self.mounts[at].backend.current_head();
        let ghost told = reply;
        assert(head_reply(&pre.mounts@[at as int].backend, told));
        let live = match reply {
            Ok(h) => h,
            Err(_) => None,
        };
        let ghost head = opt_text(live);
        assert(head_was_told(pre, mem@, head));
        let known = match &self.mounts[at].last_known_head {
            Some(h) => h.clone(),
            None => String::new(),
        };
        assert(known@ =~= head_or_empty(pre.mounts@[at as int].last_known_head));
        let got = self.reload_one_mem(mem);
        let ghost mid = *self;
        let ghost outcome = got;
        assert(reloads(pre, mem@, mid, outcome));
        let report = match got {
            Ok(report) => report,
            Err(e) => {
                return Err(e);
            },
        };
        let head_after = match &live {
            Some(h) => h.clone(),
            None => known.clone(),
        };
        if let Some(h) = live {
            proof {
                lemma_reload_keeps_mounts(pre, mem@, mid, outcome);
            }
            let n: usize = self.mounts.len();
            if at < n {
                self.mounts[at].last_known_head = Some(h);
                assert(sets_head(mid, *self, at as int, head->0));
            }
        }
        Ok(
            ReloadReport {
                head_before: known,
                head_after,
                added: report.added,
                changed: report.changed,
            },
        )
    }

    /// Bring one mem up to the head that its storage told of: read it again
    /// where it moved on.
    pub fn catch_up(&mut self, mem: &str, live: Option<String>) -> (r: Option<WarningHint>)
        ensures
            catches_up(*old(self), mem@, opt_text(live), *final(self), r),
    {
        let ghost pre = *self;
        let ghost head = opt_text(live);
        let at = match self.position(mem) {
            Some(i) => i,
            None => {
                return None;
            },
        };
        let new_head = match live {
            Some(h) => h,
            None => {
                return None;
            },
        };
        let known = own_opt(&self.mounts[at].last_known_head);
        let old_head = match &known {
            Some(h) => {
                if same(h, &new_head) {
                    return None;
                }
                h.clone()
            },
            None => String::new(),
        };
        assert(old_head@ =~= head_or_empty(pre.mounts@[at as int].last_known_head));
        let got = self.reload_one_mem(mem);
        let ghost mid = *self;
        let ghost outcome = got;
        assert(reloads(pre, mem@, mid, outcome));
        let report = match got {
            Ok(report) => report,
            Err(_) => {
                return None;
            },
        };
        proof {
            lemma_reload_keeps_mounts(pre, mem@, mid, outcome);
        }
        let entities_loaded: usize = report.added.len() + report.changed.len();
        self.mounts[at].last_known_head = Some(new_head.clone());
        let ghost moved = *self;
        assert(sets_head(mid, moved, at as int, new_head@));
        let notice = self.mem_changed_notice(mem, &old_head, &new_head);
        let ghost noted = notice;
        assert(notices(moved, mem@, old_head@, new_head@, noted));
        self.pending_mem_changed.push(notice);
        let w = WarningHint::MemReloaded {
            mem: own(mem),
            old_head,
            new_head,
            entities_loaded,
        };
        proof {
            let post = *self;
            assert(post.pending_mem_changed@.drop_last() =~= mid.pending_mem_changed@);
            assert(Engine { pending_mem_changed: mid.pending_mem_changed, ..post } == moved);
            assert(reload_is_noted(
                mid,
                mem@,
                head_or_empty(pre.mounts@[at as int].last_known_head),
                w->new_head@,
                post,
            ));
        }
        Some(w)
    }

    /// Before an operation: read every mem again that moved on in its storage,
    /// one mem or all, and warn of each. The heads are probed on every call.
    pub fn reload_if_stale(&mut self, mem: Option<&str>) -> (r: Vec<WarningHint>)
        ensures
            exists|heads: Seq<Option<Seq<char>>>| #[trigger]
                brings_up(
                    *old(self),
                    probed_mems(old(self).mounts@, opt_str(mem)),
                    heads,
                    *final(self),
                    r@,
                ),
    {
        let ghost pre = *self;
        let ghost wanted = opt_str(mem);
        let mut names: Vec<String> = Vec::new();
        assert(texts(names@) =~= probed_mems(self.mounts@.take(0), wanted));
        for i in 0..self.mounts.len()
            invariant
                *self == pre,
                wanted == opt_str(mem),
                texts(names@) == probed_mems(self.mounts@.take(i as int), wanted),
        {
            let ghost done = texts(names@);
            assert(self.mounts@.take(i + 1).drop_last() =~= self.mounts@.take(i as int));
            let name = &self.mounts[i].mount.mem;
            let probe = match mem {
                Some(m) => same(name, m),
                None => true,
            };
            if probe {
                names.push(name.clone());
                assert(texts(names@) =~= done.push(name@));
            }
        }
        assert(self.mounts@.take(self.mounts@.len() as int) =~= self.mounts@);
        let ghost nv = texts(names@);
        let mut heads: Vec<Option<String>> = Vec::new();
        let ghost mut told: Seq<Option<Seq<char>>> = Seq::empty();
        for i in 0..names.len()
            invariant
                *self == pre,
                nv == texts(names@),
                heads@.len() == i,
                told.len() == i,
                forall|k: int| 0 <= k < i ==> opt_text(heads@[k]) == #[trigger] told[k],
                forall|k: int| 0 <= k < i ==> head_was_told(pre, nv[k], #[trigger] told[k]),
        {
            let ghost before = told;
            let ghost kept = heads@;
            assert(nv[i as int] == names@[i as int]@);
            let head = match self.position(&names[i]) {
                Some(at) => {
                    let reply = self.mounts[at].backend.current_head();
                    let ghost answer = reply;
                    assert(head_reply(&pre.mounts@[at as int].backend, answer));
                    match reply {
                        Ok(h) => h,
                        Err(_) => None,
                    }
                },
                None => None,
            };
            proof {
                told = before.push(opt_text(head));
                assert(head_was_told(pre, nv[i as int], opt_text(head)));
            }
            heads.push(head);
            proof {
                assert forall|k: int| 0 <= k < i + 1 implies opt_text(heads@[k])
                    == #[trigger] told[k] by {
                    if k < i {
                        assert(told[k] == before[k]);
                        assert(heads@[k] == kept[k]);
                    }
                }
                assert forall|k: int| 0 <= k < i + 1 implies head_was_told(
                    pre,
                    nv[k],
                    #[trigger] told[k],
                ) by {
                    if k < i {
                        assert(told[k] == before[k]);
                    }
                }
            }
        }
        let mut warnings: Vec<WarningHint> = Vec::new();
        let ghost mut trace: Seq<Engine<B, H>> = seq![*self];
        let ghost mut ws: Seq<Option<WarningHint>> = Seq::empty();
        let n: usize = names.len();
        for i in 0..n
            invariant
                n == names@.len(),
                nv == texts(names@),
                heads@.len() == n,
                told.len() == n,
                forall|k: int| 0 <= k < n ==> opt_text(heads@[k]) == #[trigger] told[k],
                trace.len() == i + 1,
                ws.len() == i,
                trace[0] == pre,
                trace[i as int] == *self,
                forall|k: int|
                    0 <= k < i ==> catches_up(
                        trace[k],
                        nv[k],
                        told[k],
                        trace[k + 1],
                        #[trigger] ws[k],
                    ),
                warnings@ == gathered(ws),
        {
            let ghost past = trace;
            let ghost before = ws;
            let ghost kept = warnings@;
            assert(nv[i as int] == names@[i as int]@);
            let live = own_opt(&heads[i]);
            assert(opt_text(live) == told[i as int]);
            let w = self.catch_up(&names[i], live);
            proof {
                trace = past.push(*self);
                ws = before.push(w);
                assert(ws.drop_last() =~= before);
                assert forall|k: int| 0 <= k < i + 1 implies catches_up(
                    trace[k],
                    nv[k],
                    told[k],
                    trace[k + 1],
                    #[trigger] ws[k],
                ) by {
                    if k < i {
                        assert(ws[k] == before[k]);
                        assert(trace[k] == past[k] && trace[k + 1] == past[k + 1]);
                    }
                }
            }
            let ghost hint = w;
            if let Some(h) = w {
                warnings.push(h);
            }
            assert(warnings@ =~= kept + crate::boot::hints(hint));
        }
        assert(all_catch_up(nv, told, trace, ws));
        assert(brings_up(pre, nv, told, *self, warnings@));
        warnings
    }

    /// Know the head that the engine's own write made, so that the next probe
    /// does not take it for another's. The move is an event; a write that did
    /// not move the head is none, and neither is one without an id.
    pub fn record_self_write(&mut self, mount_idx: usize, commit_sha: &str)
        ensures
            records_write(*old(self), *final(self), mount_idx as int, commit_sha@),
    {
        let ghost pre = *self;
        if chars_of(commit_sha).len() == 0 || mount_idx >= self.mounts.len() {
            return;
        }
        let vault = self.mounts[mount_idx].mount.mem.clone();
        let previous = match &self.mounts[mount_idx].last_known_head {
            Some(h) => h.clone(),
            None => String::new(),
        };
        assert(previous@ =~= head_or_empty(pre.mounts@[mount_idx as int].last_known_head));
        self.mounts[mount_idx].last_known_head = Some(own(commit_sha));
        assert(sets_head(pre, *self, mount_idx as int, commit_sha@));
        if same(&previous, commit_sha) {
            return;
        }
        let ghost mid = *self;
        self.pending_events.push(
            VaultChangedEvent { vault, head: own(commit_sha), previous, n_commits: 1 },
        );
        proof {
            assert(self.pending_events@.drop_last() =~= pre.pending_events@);
            assert(Engine { pending_events: pre.pending_events, ..*self } == mid);
        }
    }
}

/// Whether reading a mem again and reporting on it took an engine to `post`
/// with the answer `r`.
pub open spec fn reported<B, H>(
    m: MountedBackend<B>,
    mid: Engine<B, H>,
    mem: Seq<char>,
    head: Option<Seq<char>>,
    got: Result<MemReload, EngineError>,
    post: Engine<B, H>,
    r: Result<ReloadReport, EngineError>,
) -> bool {
    match got {
        Err(e) => r == Err::<ReloadReport, EngineError>(e) && post == mid,
        Ok(reload) => r matches Ok(report) && report.head_before@ == head_or_empty(
            m.last_known_head,
        ) && report.added == reload.added && report.changed == reload.changed && (match head {
            Some(h) => report.head_after@ == h && (mid.mount_at(mem) matches Some(at)
                && sets_head(mid, post, at, h)),
            None => report.head_after@ == report.head_before@ && post == mid,
        }),
    }
}

/// Reading a mem again keeps the mounts, their order and their backends.
proof fn lemma_reload_keeps_mounts<B: MemBackend, H: Host>(
    pre: Engine<B, H>,
    mem: Seq<char>,
    post: Engine<B, H>,
    r: Result<MemReload, EngineError>,
)
    requires
        reloads(pre, mem, post, r),
    ensures
        post.mounts@.len() == pre.mounts@.len(),
        post.mount_at(mem) == pre.mount_at(mem),
{
    crate::engine::lemma_mount_index(pre.mounts@, mem, 0);
    assert forall|i: int| 0 <= i < pre.mounts@.len() implies (#[trigger] post.mounts@[i]).mount
        == pre.mounts@[i].mount by {}
    lemma_same_names(pre.mounts@, post.mounts@, mem, 0);
}

/// Mounts with the same names are found at the same places.
pub proof fn lemma_same_names<B>(
    a: Seq<MountedBackend<B>>,
    b: Seq<MountedBackend<B>>,
    mem: Seq<char>,
    i: int,
)
    requires
        a.len() == b.len(),
        forall|k: int| 0 <= k < a.len() ==> (#[trigger] b[k]).mount == a[k].mount,
        0 <= i <= a.len(),
    ensures
        mount_index(a, mem, i) == mount_index(b, mem, i),
    decreases a.len() - i,
{
    if i < a.len() {
        assert(b[i].mount == a[i].mount);
        lemma_same_names(a, b, mem, i + 1);
    }
}

/// Setting a head keeps the mounts at their places.
proof fn lemma_set_head<B, H>(
    pre: Engine<B, H>,
    post: Engine<B, H>,
    mem: Seq<char>,
    at: int,
    head: Seq<char>,
)
    requires
        sets_head(pre, post, at, head),
        pre.mount_at(mem) == Some(at),
    ensures
        post.mount_at(mem) == Some(at),
        post.mount_of(mem) matches Some(m) && opt_text(m.last_known_head) == Some(head),
{
    assert forall|i: int| 0 <= i < pre.mounts@.len() implies (#[trigger] post.mounts@[i]).mount
        == pre.mounts@[i].mount by {}
    lemma_same_names(pre.mounts@, post.mounts@, mem, 0);
}

/// A mem that was brought up to a head is quiet until its head moves again:
/// the next probe that tells of the same head reads nothing and warns of
/// nothing.
pub proof fn law_caught_up_is_quiet<B: MemBackend, H: Host>(
    pre: Engine<B, H>,
    mem: Seq<char>,
    live: Option<Seq<char>>,
    post: Engine<B, H>,
    w: WarningHint,
    later: Engine<B, H>,
    again: Option<WarningHint>,
)
    requires
        catches_up(pre, mem, live, post, Some(w)),
        catches_up(post, mem, live, later, again),
    ensures
        later == post,
        again is None,
{
    let (mid, r) = choose|mid: Engine<B, H>, r: Result<MemReload, EngineError>| #[trigger]
        reloads(pre, mem, mid, r) && match r {
            Err(_) => false,
            Ok(report) => w matches WarningHint::MemReloaded {
                mem: n,
                old_head,
                new_head,
                entities_loaded,
            } && Some(new_head@) == live && reload_is_noted(
                mid,
                mem,
                head_or_empty(pre.mount_of(mem)->0.last_known_head),
                new_head@,
                post,
            ),
        };
    match mid.mount_at(mem) {
        Some(at) => {
            let quiet = Engine { pending_mem_changed: mid.pending_mem_changed, ..post };
            lemma_set_head(mid, quiet, mem, at, live->0);
            assert(quiet.mounts@ == post.mounts@);
        },
        None => {},
    }
}

/// Whether reading a mem of an engine again may fail: its storage may answer
/// with an error, or the mem has no schema to be read under.
pub open spec fn reading_failed<B: MemBackend, H>(engine: Engine<B, H>, mem: Seq<char>) -> bool {
    engine.mount_of(mem) matches Some(m) && (schema_of(engine.schemas@, mem) is None || exists|
        e: BackendError,
    | #[trigger]
        reads_reply(
            &m.backend,
            Err::<Vec<(String, Result<Vec<u8>, String>)>, BackendError>(e),
        ))
}

/// A mem whose head moved is told of on the very next probe: it is read again
/// and warned of. Silence means that reading it failed, and that nothing
/// changed.
pub proof fn law_moved_head_is_told<B: MemBackend, H: Host>(
    pre: Engine<B, H>,
    mem: Seq<char>,
    live: Seq<char>,
    post: Engine<B, H>,
    w: Option<WarningHint>,
)
    requires
        catches_up(pre, mem, Some(live), post, w),
        pre.mount_of(mem) matches Some(m) && opt_text(m.last_known_head) != Some(live),
    ensures
        w is None ==> post == pre && reading_failed(pre, mem),
        w matches Some(h) ==> (h matches WarningHint::MemReloaded { mem: n, old_head, new_head, .. }
            && n@ == mem && new_head@ == live && old_head@ == head_or_empty(
            pre.mount_of(mem)->0.last_known_head,
        )),
{
    if w is None {
        lemma_catch_up(pre, mem, Some(live), post, w);
    }
}

/// Whether a warning tells that a mem was read again.
pub open spec fn tells_reload(w: WarningHint, mem: Seq<char>) -> bool {
    w matches WarningHint::MemReloaded { mem: n, .. } && n@ == mem
}

/// Whether a warning tells that a mem went from one head to another.
pub open spec fn tells_move(
    w: WarningHint,
    mem: Seq<char>,
    from: Option<Seq<char>>,
    to: Option<Seq<char>>,
) -> bool {
    w matches WarningHint::MemReloaded { mem: n, old_head, new_head, .. } && n@ == mem && old_head@
        == (match from {
        Some(h) => h,
        None => Seq::empty(),
    }) && Some(new_head@) == to
}

/// Whether a warning tells that one of the mems moved to the head told of it.
pub open spec fn tells_some_move<B, H>(
    pre: Engine<B, H>,
    names: Seq<Seq<char>>,
    heads: Seq<Option<Seq<char>>>,
    w: WarningHint,
) -> bool {
    exists|i: int|
        0 <= i < names.len() && tells_move(
            w,
            #[trigger] names[i],
            pre.known_head(names[i]),
            heads[i],
        )
}

/// Whether two lists are of the same mounts over the same storage.
pub open spec fn same_mounts<B>(a: Seq<MountedBackend<B>>, b: Seq<MountedBackend<B>>) -> bool {
    a.len() == b.len() && forall|k: int|
        0 <= k < a.len() ==> (#[trigger] b[k]).mount == a[k].mount && b[k].backend == a[k].backend
}

/// Probing one mem keeps the mounts, and the heads of the other mems. Without
/// a warning it keeps everything; with one the new head is known.
proof fn lemma_catch_up<B: MemBackend, H: Host>(
    pre: Engine<B, H>,
    mem: Seq<char>,
    live: Option<Seq<char>>,
    post: Engine<B, H>,
    w: Option<WarningHint>,
)
    requires
        catches_up(pre, mem, live, post, w),
    ensures
        post.schemas == pre.schemas,
        post.host == pre.host,
        same_mounts(pre.mounts@, post.mounts@),
        forall|other: Seq<char>| other != mem ==> #[trigger] post.known_head(other)
            == pre.known_head(other),
        w is None ==> post == pre,
        w is Some ==> post.known_head(mem) == live && moved_on(pre.known_head(mem), live)
            && tells_move(w->0, mem, pre.known_head(mem), live),
        w is None && moved_on(pre.known_head(mem), live) && pre.mount_at(mem) is Some
            ==> reading_failed(pre, mem),
{
    crate::engine::lemma_mount_index(pre.mounts@, mem, 0);
    if pre.mount_of(mem) is Some && moved_on(
        opt_text(pre.mount_of(mem)->0.last_known_head),
        live,
    ) {
        let m = pre.mount_of(mem)->0;
        let (mid, r) = choose|mid: Engine<B, H>, r: Result<MemReload, EngineError>| #[trigger]
            reloads(pre, mem, mid, r) && match r {
                Err(_) => post == mid && w is None,
                Ok(report) => w matches Some(
                    WarningHint::MemReloaded { mem: n, old_head, new_head, entities_loaded },
                ) && n@ == mem && old_head@ == head_or_empty(m.last_known_head) && Some(new_head@)
                    == live && entities_loaded == report.added@.len() + report.changed@.len()
                    && reload_is_noted(
                    mid,
                    mem,
                    head_or_empty(m.last_known_head),
                    new_head@,
                    post,
                ),
            };
        match r {
            Err(e) => {
                assert(mid == pre);
            },
            Ok(_) => {
                lemma_reload_keeps_mounts(pre, mem, mid, r);
                let at = mid.mount_at(mem)->0;
                let quiet = Engine { pending_mem_changed: mid.pending_mem_changed, ..post };
                lemma_set_head(mid, quiet, mem, at, live->0);
                assert(quiet.mounts@ == post.mounts@);
                assert forall|k: int| 0 <= k < pre.mounts@.len() implies (
                #[trigger] post.mounts@[k]).mount == pre.mounts@[k].mount && post.mounts@[k].backend
                    == pre.mounts@[k].backend by {
                    assert(mid.mounts@[k].mount == pre.mounts@[k].mount);
                }
                assert forall|other: Seq<char>| other != mem implies #[trigger] post.known_head(
                    other,
                ) == pre.known_head(other) by {
                    lemma_same_names(pre.mounts@, post.mounts@, other, 0);
                    crate::engine::lemma_mount_index(pre.mounts@, other, 0);
                }
            },
        }
    }
}

/// Mounts of the same mems have the same names to probe.
proof fn lemma_same_probes<B>(
    a: Seq<MountedBackend<B>>,
    b: Seq<MountedBackend<B>>,
    mem: Option<Seq<char>>,
)
    requires
        a.len() == b.len(),
        forall|k: int| 0 <= k < a.len() ==> (#[trigger] b[k]).mount == a[k].mount,
    ensures
        probed_mems(a, mem) == probed_mems(b, mem),
    decreases a.len(),
{
    if a.len() > 0 {
        assert(b[a.len() - 1].mount == a[a.len() - 1].mount);
        assert forall|k: int| 0 <= k < a.len() - 1 implies (#[trigger] b.drop_last()[k]).mount
            == a.drop_last()[k].mount by {
            assert(b[k].mount == a[k].mount);
        }
        lemma_same_probes(a.drop_last(), b.drop_last(), mem);
    }
}

/// What is probed are mounted mems, each once where each is mounted once.
proof fn lemma_probes_apart<B>(s: Seq<MountedBackend<B>>, mem: Option<Seq<char>>)
    ensures
        forall|i: int|
            0 <= i < probed_mems(s, mem).len() ==> exists|k: int|
                0 <= k < s.len() && (#[trigger] s[k]).mount.mem@ == #[trigger] probed_mems(
                    s,
                    mem,
                )[i],
        mems_apart(s) ==> probed_mems(s, mem).no_duplicates(),
    decreases s.len(),
{
    let names = probed_mems(s, mem);
    if s.len() > 0 {
        let n = s.len() - 1;
        let head = s.drop_last();
        let rest = probed_mems(head, mem);
        lemma_probes_apart(head, mem);
        assert forall|i: int| 0 <= i < rest.len() implies exists|k: int|
            0 <= k < n && (#[trigger] s[k]).mount.mem@ == #[trigger] rest[i] by {
            let k = choose|k: int|
                0 <= k < head.len() && (#[trigger] head[k]).mount.mem@ == rest[i];
            assert(s[k] == head[k]);
        }
        assert(s[n].mount.mem@ == s.last().mount.mem@);
        assert forall|i: int| 0 <= i < names.len() implies exists|k: int|
            0 <= k < s.len() && (#[trigger] s[k]).mount.mem@ == #[trigger] names[i] by {
            if i < rest.len() {
                assert(names[i] == rest[i]);
                let k = choose|k: int| 0 <= k < n && (#[trigger] s[k]).mount.mem@ == rest[i];
                assert(s[k].mount.mem@ == names[i]);
            } else {
                assert(s[n].mount.mem@ == names[i]);
            }
        }
        if mems_apart(s) {
            assert(mems_apart(head)) by {
                assert forall|i: int, j: int|
                    #![trigger head[i], head[j]]
                    0 <= i < j < head.len() implies head[i].mount.mem@ != head[j].mount.mem@ by {
                    assert(s[i] == head[i] && s[j] == head[j]);
                }
            }
            assert forall|i: int, j: int| 0 <= i < j < names.len() implies names[i] != names[j] by {
                if j < rest.len() {
                    assert(rest[i] != rest[j]);
                } else {
                    let k = choose|k: int|
                        0 <= k < n && (#[trigger] s[k]).mount.mem@ == rest[i];
                    assert(s[k].mount.mem@ != s[n].mount.mem@);
                }
            }
        }
    }
}

/// After the first `n` probes, the mounts are the same, and the heads known
/// are those told where a warning came, and else those of before.
proof fn lemma_heads_after<B: MemBackend, H: Host>(
    names: Seq<Seq<char>>,
    heads: Seq<Option<Seq<char>>>,
    trace: Seq<Engine<B, H>>,
    ws: Seq<Option<WarningHint>>,
    n: int,
)
    requires
        all_catch_up(names, heads, trace, ws),
        names.no_duplicates(),
        0 <= n <= names.len(),
    ensures
        trace[n].schemas == trace[0].schemas,
        same_mounts(trace[0].mounts@, trace[n].mounts@),
        forall|i: int|
            0 <= i < n ==> #[trigger] trace[n].known_head(names[i]) == (if ws[i] is Some {
                heads[i]
            } else {
                trace[0].known_head(names[i])
            }),
        forall|i: int|
            n <= i < names.len() ==> #[trigger] trace[n].known_head(names[i])
                == trace[0].known_head(names[i]),
    decreases n,
{
    if n > 0 {
        let l = n - 1;
        lemma_heads_after(names, heads, trace, ws, l);
        assert(catches_up(trace[l], names[l], heads[l], trace[l + 1], ws[l]));
        lemma_catch_up(trace[l], names[l], heads[l], trace[n], ws[l]);
        assert(trace[l].known_head(names[l]) == trace[0].known_head(names[l]));
        assert forall|k: int| 0 <= k < trace[0].mounts@.len() implies (
        #[trigger] trace[n].mounts@[k]).mount == trace[0].mounts@[k].mount
            && trace[n].mounts@[k].backend == trace[0].mounts@[k].backend by {
            assert(trace[l].mounts@[k].mount == trace[0].mounts@[k].mount);
        }
        assert forall|i: int| 0 <= i < n implies #[trigger] trace[n].known_head(names[i]) == (
        if ws[i] is Some {
            heads[i]
        } else {
            trace[0].known_head(names[i])
        }) by {
            if i < l {
                assert(names[i] != names[l]);
                assert(trace[n].known_head(names[i]) == trace[l].known_head(names[i]));
            }
        }
        assert forall|i: int| n <= i < names.len() implies #[trigger] trace[n].known_head(names[i])
            == trace[0].known_head(names[i]) by {
            assert(names[i] != names[l]);
            assert(trace[n].known_head(names[i]) == trace[l].known_head(names[i]));
        }
    }
}

/// A warning was gathered where a probe gave it, and nowhere else.
proof fn lemma_gathered(ws: Seq<Option<WarningHint>>)
    ensures
        forall|i: int|
            0 <= i < ws.len() && (#[trigger] ws[i]) is Some ==> gathered(ws).contains(ws[i]->0),
        forall|k: int|
            0 <= k < gathered(ws).len() ==> exists|i: int|
                0 <= i < ws.len() && #[trigger] ws[i] == Some(#[trigger] gathered(ws)[k]),
    decreases ws.len(),
{
    if ws.len() > 0 {
        let n = ws.len() - 1;
        let head = ws.drop_last();
        let rest = gathered(head);
        let all = gathered(ws);
        lemma_gathered(head);
        assert forall|i: int| 0 <= i < ws.len() && (#[trigger] ws[i]) is Some implies all.contains(
            ws[i]->0,
        ) by {
            if i < n {
                assert(head[i] == ws[i]);
                let k = choose|k: int| 0 <= k < rest.len() && rest[k] == ws[i]->0;
                assert(all[k] == ws[i]->0);
            } else {
                assert(all[rest.len() as int] == ws[i]->0);
            }
        }
        assert forall|k: int| 0 <= k < all.len() implies exists|i: int|
            0 <= i < ws.len() && #[trigger] ws[i] == Some(#[trigger] all[k]) by {
            if k < rest.len() {
                assert(all[k] == rest[k]);
                let i = choose|i: int| 0 <= i < head.len() && #[trigger] head[i] == Some(rest[k]);
                assert(ws[i] == Some(all[k]));
            } else {
                assert(ws[n] == Some(all[k]));
            }
        }
    }
}

/// Bringing mems up to date looks at the head of each: one that did not move,
/// or of which none is told, is neither warned of nor known at another head.
/// One that moved, and so one that appeared where none was known, is warned
/// of with the head left and the head reached, which is known from then on;
/// the one exception is a mem that could not be read, of which nothing
/// changes. No warning is of anything else.
pub proof fn law_moved_heads_are_told<B: MemBackend, H: Host>(
    pre: Engine<B, H>,
    mem: Option<Seq<char>>,
    heads: Seq<Option<Seq<char>>>,
    post: Engine<B, H>,
    r: Seq<WarningHint>,
)
    requires
        brings_up(pre, probed_mems(pre.mounts@, mem), heads, post, r),
        mems_apart(pre.mounts@),
    ensures
        forall|i: int|
            0 <= i < heads.len() ==> head_is_told(
                pre,
                post,
                r,
                #[trigger] probed_mems(pre.mounts@, mem)[i],
                heads[i],
            ),
        forall|k: int|
            0 <= k < r.len() ==> tells_some_move(
                pre,
                probed_mems(pre.mounts@, mem),
                heads,
                #[trigger] r[k],
            ),
{
    let names = probed_mems(pre.mounts@, mem);
    let (trace, ws) = choose|trace: Seq<Engine<B, H>>, ws: Seq<Option<WarningHint>>| #[trigger]
        all_catch_up(names, heads, trace, ws) && trace[0] == pre && trace.last() == post && r
            == gathered(ws);
    let n = names.len() as int;
    lemma_probes_apart(pre.mounts@, mem);
    lemma_heads_after(names, heads, trace, ws, n);
    lemma_gathered(ws);
    assert forall|i: int| 0 <= i < n implies #[trigger] step_told(
        pre,
        names[i],
        heads[i],
        ws[i],
    ) by {
        lemma_heads_after(names, heads, trace, ws, i);
        assert(catches_up(trace[i], names[i], heads[i], trace[i + 1], ws[i]));
        lemma_catch_up(trace[i], names[i], heads[i], trace[i + 1], ws[i]);
        assert(trace[i].known_head(names[i]) == pre.known_head(names[i]));
        let k = choose|k: int|
            0 <= k < pre.mounts@.len() && (#[trigger] pre.mounts@[k]).mount.mem@ == names[i];
        assert(trace[i].mounts@[k].mount == pre.mounts@[k].mount);
        crate::engine::lemma_mount_index(trace[i].mounts@, names[i], 0);
        lemma_same_names(pre.mounts@, trace[i].mounts@, names[i], 0);
    }
    assert forall|i: int| 0 <= i < n implies was_told(
        r,
        #[trigger] names[i],
    ) == (ws[i] is Some) by {
        assert(step_told(pre, names[i], heads[i], ws[i]));
        if ws[i] is Some {
            let k = choose|k: int| 0 <= k < r.len() && r[k] == ws[i]->0;
            assert(tells_reload(r[k], names[i]));
        }
        if was_told(r, names[i]) {
            let k = choose|k: int| 0 <= k < r.len() && #[trigger] tells_reload(r[k], names[i]);
            let j = choose|j: int| 0 <= j < ws.len() && #[trigger] ws[j] == Some(r[k]);
            assert(step_told(pre, names[j], heads[j], ws[j]));
            assert(names[j] == names[i]);
        }
    }
    assert forall|i: int| 0 <= i < heads.len() implies head_is_told(
        pre,
        post,
        r,
        #[trigger] probed_mems(pre.mounts@, mem)[i],
        heads[i],
    ) by {
        assert(step_told(pre, names[i], heads[i], ws[i]));
        assert(was_told(r, names[i]) == (ws[i] is Some));
        assert(trace[n].known_head(names[i]) == (if ws[i] is Some {
            heads[i]
        } else {
            pre.known_head(names[i])
        }));
        if ws[i] is Some {
            let k = choose|k: int| 0 <= k < r.len() && r[k] == ws[i]->0;
            assert(tells_move(r[k], names[i], pre.known_head(names[i]), heads[i]));
        }
    }
    assert forall|k: int| 0 <= k < r.len() implies tells_some_move(
        pre,
        names,
        heads,
        #[trigger] r[k],
    ) by {
        let i = choose|i: int| 0 <= i < ws.len() && #[trigger] ws[i] == Some(r[k]);
        assert(step_told(pre, names[i], heads[i], ws[i]));
        assert(tells_move(r[k], names[i], pre.known_head(names[i]), heads[i]));
    }
}

/// Whether the warnings tell that a mem was read again.
pub open spec fn was_told(r: Seq<WarningHint>, mem: Seq<char>) -> bool {
    exists|k: int| 0 <= k < r.len() && #[trigger] tells_reload(r[k], mem)
}

/// Whether the warnings tell that a mem went from one head to another.
pub open spec fn move_was_told(
    r: Seq<WarningHint>,
    mem: Seq<char>,
    from: Option<Seq<char>>,
    to: Option<Seq<char>>,
) -> bool {
    exists|k: int| 0 <= k < r.len() && #[trigger] tells_move(r[k], mem, from, to)
}

/// Whether the warnings and the engine after them do a mem right for the head
/// told of it: where it did not move, no warning is of it and its head stays;
/// where it moved, either a warning tells the move and the new head is known,
/// or none does, its head stays, and reading it failed.
pub open spec fn head_is_told<B: MemBackend, H: Host>(
    pre: Engine<B, H>,
    post: Engine<B, H>,
    r: Seq<WarningHint>,
    mem: Seq<char>,
    head: Option<Seq<char>>,
) -> bool {
    if !moved_on(pre.known_head(mem), head) {
        !was_told(r, mem) && post.known_head(mem) == pre.known_head(mem)
    } else if was_told(r, mem) {
        move_was_told(r, mem, pre.known_head(mem), head) && post.known_head(mem) == head
    } else {
        post.known_head(mem) == pre.known_head(mem) && reading_failed(pre, mem)
    }
}

/// Whether a probe warned of a move from the head known before, and failed to
/// only where reading failed.
spec fn step_told<B: MemBackend, H: Host>(
    pre: Engine<B, H>,
    mem: Seq<char>,
    head: Option<Seq<char>>,
    w: Option<WarningHint>,
) -> bool {
    if w is Some {
        moved_on(pre.known_head(mem), head) && tells_move(w->0, mem, pre.known_head(mem), head)
    } else {
        moved_on(pre.known_head(mem), head) ==> reading_failed(pre, mem)
    }
}

/// Probes whose heads are all known change nothing and warn of nothing.
proof fn lemma_known_heads_are_quiet<B: MemBackend, H: Host>(
    names: Seq<Seq<char>>,
    heads: Seq<Option<Seq<char>>>,
    trace: Seq<Engine<B, H>>,
    ws: Seq<Option<WarningHint>>,
    n: int,
)
    requires
        all_catch_up(names, heads, trace, ws),
        0 <= n <= names.len(),
        forall|i: int|
            0 <= i < names.len() ==> !moved_on(
                #[trigger] trace[0].known_head(names[i]),
                heads[i],
            ),
    ensures
        trace[n] == trace[0],
        gathered(ws.take(n)).len() == 0,
    decreases n,
{
    if n > 0 {
        let l = n - 1;
        lemma_known_heads_are_quiet(names, heads, trace, ws, l);
        assert(catches_up(trace[l], names[l], heads[l], trace[l + 1], ws[l]));
        assert(!moved_on(trace[0].known_head(names[l]), heads[l]));
        assert(ws.take(n).drop_last() =~= ws.take(l));
    }
}

/// Mems that were brought up to the heads that their storage told of are quiet
/// until a head moves again: bringing them up once more, for the same heads,
/// reads nothing, changes nothing and warns of nothing.
pub proof fn law_brought_up_is_quiet<B: MemBackend, H: Host>(
    pre: Engine<B, H>,
    mem: Option<Seq<char>>,
    heads: Seq<Option<Seq<char>>>,
    post: Engine<B, H>,
    r: Seq<WarningHint>,
    later: Engine<B, H>,
    again: Seq<WarningHint>,
)
    requires
        brings_up(pre, probed_mems(pre.mounts@, mem), heads, post, r),
        mems_apart(pre.mounts@),
        forall|i: int|
            0 <= i < heads.len() && moved_on(
                pre.known_head(probed_mems(pre.mounts@, mem)[i]),
                heads[i],
            ) ==> was_told(r, #[trigger] probed_mems(pre.mounts@, mem)[i]),
        brings_up(post, probed_mems(post.mounts@, mem), heads, later, again),
    ensures
        later == post,
        again.len() == 0,
{
    let names = probed_mems(pre.mounts@, mem);
    law_moved_heads_are_told(pre, mem, heads, post, r);
    lemma_probes_apart(pre.mounts@, mem);
    let (first, fs) = choose|trace: Seq<Engine<B, H>>, ws: Seq<Option<WarningHint>>| #[trigger]
        all_catch_up(names, heads, trace, ws) && trace[0] == pre && trace.last() == post && r
            == gathered(ws);
    lemma_heads_after(names, heads, first, fs, names.len() as int);
    lemma_same_probes(pre.mounts@, post.mounts@, mem);
    let (trace, ws) = choose|trace: Seq<Engine<B, H>>, ws: Seq<Option<WarningHint>>| #[trigger]
        all_catch_up(names, heads, trace, ws) && trace[0] == post && trace.last() == later
            && again == gathered(ws);
    assert forall|i: int| 0 <= i < names.len() implies !moved_on(
        #[trigger] post.known_head(names[i]),
        heads[i],
    ) by {
        assert(head_is_told(pre, post, r, names[i], heads[i]));
        if moved_on(pre.known_head(names[i]), heads[i]) {
            assert(was_told(r, names[i]));
        }
    }
    lemma_known_heads_are_quiet(names, heads, trace, ws, names.len() as int);
    assert(ws.take(names.len() as int) =~= ws);
}

/// Whether the host's loader may have given this of what the storage of a mem
/// read.
pub open spec fn was_loaded<B: MemBackend, H: Host>(
    engine: Engine<B, H>,
    mem: Seq<char>,
    load: LoadResult,
) -> bool {
    exists|reads: Vec<(String, Result<Vec<u8>, String>)>, schema: Arc<Schema>|
        #![trigger parse_reply(&engine.host, read_entries(reads@), read_failures(reads@), mem, schema, Seq::empty(), load)]
        engine.mount_of(mem) is Some && reads_reply(
            &engine.mount_of(mem)->0.backend,
            Ok::<Vec<(String, Result<Vec<u8>, String>)>, BackendError>(reads),
        ) && schema_of(engine.schemas@, mem) == Some(schema) && parse_reply(
            &engine.host,
            read_entries(reads@),
            read_failures(reads@),
            mem,
            schema,
            Seq::empty(),
            load,
        )
}

/// Whether a warning tells how many entities a load brought or changed over a
/// store, and the store after it holds them in the place of the mem's own.
pub open spec fn brought(
    before: Seq<Entity>,
    mem: Seq<char>,
    load: LoadResult,
    w: WarningHint,
    after: Seq<Entity>,
) -> bool {
    &&& after == with_entities(without_mem(before, mem), load.entities@)
    &&& w matches WarningHint::MemReloaded { entities_loaded, .. } && entities_loaded == added_ids(
        before,
        load.entities@,
    ).len() + changed_ids(before, load.entities@).len()
}

/// Of entities that are all new, each is added and none changed.
proof fn lemma_all_new(known: Seq<Entity>, loaded: Seq<Entity>)
    requires
        forall|i: int|
            0 <= i < loaded.len() ==> entity_of(known, (#[trigger] loaded[i]).id.0@) is None,
    ensures
        added_ids(known, loaded).len() == loaded.len(),
        changed_ids(known, loaded).len() == 0,
    decreases loaded.len(),
{
    if loaded.len() > 0 {
        let head = loaded.drop_last();
        assert forall|i: int| 0 <= i < head.len() implies entity_of(
            known,
            (#[trigger] head[i]).id.0@,
        ) is None by {
            assert(loaded[i] == head[i]);
        }
        lemma_all_new(known, head);
        assert(loaded[loaded.len() - 1] == loaded.last());
    }
}

/// A reload brings what the loader gives of what the storage reads, and its
/// warning counts what is new or changed. Where none of it was known, that is
/// every entity of the load; where the load holds each id once, every entity
/// of it is then found as it was loaded.
pub proof fn law_reload_tells_what_it_brought<B: MemBackend, H: Host>(
    pre: Engine<B, H>,
    mem: Seq<char>,
    live: Option<Seq<char>>,
    post: Engine<B, H>,
    w: WarningHint,
) -> (load: LoadResult)
    requires
        catches_up(pre, mem, live, post, Some(w)),
    ensures
        was_loaded(pre, mem, load),
        brought(pre.store.entities@, mem, load, w, post.store.entities@),
        (forall|i: int|
            0 <= i < load.entities@.len() ==> entity_of(
                pre.store.entities@,
                (#[trigger] load.entities@[i]).id.0@,
            ) is None) ==> (w matches WarningHint::MemReloaded { entities_loaded, .. }
            && entities_loaded == load.entities@.len()),
        ids_unique(load.entities@) ==> forall|i: int|
            0 <= i < load.entities@.len() ==> entity_of(
                post.store.entities@,
                (#[trigger] load.entities@[i]).id.0@,
            ) == Some(load.entities@[i]),
{
    let m = pre.mount_of(mem)->0;
    let (mid, r) = choose|mid: Engine<B, H>, r: Result<MemReload, EngineError>| #[trigger]
        reloads(pre, mem, mid, r) && match r {
            Err(_) => false,
            Ok(report) => w matches WarningHint::MemReloaded {
                mem: n,
                old_head,
                new_head,
                entities_loaded,
            } && n@ == mem && entities_loaded == report.added@.len() + report.changed@.len()
                && reload_is_noted(
                mid,
                mem,
                head_or_empty(m.last_known_head),
                new_head@,
                post,
            ),
        };
    let report = r->Ok_0;
    let at = pre.mount_at(mem)->0;
    let schema = schema_of(pre.schemas@, mem)->0;
    let reply = choose|reply: Result<Vec<(String, Result<Vec<u8>, String>)>, BackendError>|
        #[trigger]
        reads_reply(&pre.mounts@[at].backend, reply) && match reply {
            Err(e) => false,
            Ok(reads) => reload_lands(pre, mem, at, schema, reads@, mid, report),
        };
    let reads = reply->Ok_0;
    assert(reply == Ok::<Vec<(String, Result<Vec<u8>, String>)>, BackendError>(reads));
    let (hint, load) = choose|hint: Option<WarningHint>, load: LoadResult|
        #![trigger probed_hint(pre.mounts@[at].mount, &pre.mounts@[at].backend, Some(read_entries(reads@).len()), hint), parse_reply(&pre.host, read_entries(reads@), read_failures(reads@), mem, schema, Seq::empty(), load)]
        probed_hint(
            pre.mounts@[at].mount,
            &pre.mounts@[at].backend,
            Some(read_entries(reads@).len()),
            hint,
        ) && parse_reply(
            &pre.host,
            read_entries(reads@),
            read_failures(reads@),
            mem,
            schema,
            Seq::empty(),
            load,
        ) && swaps_mem(pre, mid, at, reads@, hint, load) && report.added@ == added_ids(
            pre.store.entities@,
            load.entities@,
        ) && report.changed@ == changed_ids(pre.store.entities@, load.entities@);
    crate::engine::lemma_mount_index(pre.mounts@, mem, 0);
    assert(was_loaded(pre, mem, load));
    assert(post.store == mid.store);
    if forall|i: int|
        0 <= i < load.entities@.len() ==> entity_of(
            pre.store.entities@,
            (#[trigger] load.entities@[i]).id.0@,
        ) is None {
        lemma_all_new(pre.store.entities@, load.entities@);
    }
    if ids_unique(load.entities@) {
        lemma_put_entities(without_mem(pre.store.entities@, mem), load.entities@);
    }
    load
}

/// Of one wanted mem only its name is probed, where it is mounted.
proof fn lemma_wanted_probe<B>(s: Seq<MountedBackend<B>>, mem: Seq<char>)
    ensures
        forall|i: int|
            0 <= i < probed_mems(s, Some(mem)).len() ==> #[trigger] probed_mems(s, Some(mem))[i]
                == mem,
        (exists|k: int| 0 <= k < s.len() && (#[trigger] s[k]).mount.mem@ == mem)
            ==> probed_mems(s, Some(mem)).len() > 0,
    decreases s.len(),
{
    if s.len() > 0 {
        let head = s.drop_last();
        lemma_wanted_probe(head, mem);
        if exists|k: int| 0 <= k < s.len() && (#[trigger] s[k]).mount.mem@ == mem {
            let k = choose|k: int| 0 <= k < s.len() && (#[trigger] s[k]).mount.mem@ == mem;
            if k < head.len() {
                assert(head[k].mount.mem@ == mem);
            }
        }
    }
}

/// Bringing one mem up whose head moved, or appeared where none was known,
/// and that can be read, warns of it once, with the head left and the head
/// reached. The store then holds what the loader gives of what the storage
/// reads, and the warning counts what of it is new or changed.
pub proof fn law_moved_mem_is_brought_up<B: MemBackend, H: Host>(
    pre: Engine<B, H>,
    mem: Seq<char>,
    heads: Seq<Option<Seq<char>>>,
    post: Engine<B, H>,
    r: Seq<WarningHint>,
) -> (load: LoadResult)
    requires
        brings_up(pre, probed_mems(pre.mounts@, Some(mem)), heads, post, r),
        mems_apart(pre.mounts@),
        pre.mount_of(mem) is Some,
        moved_on(pre.known_head(mem), heads[0]),
        !reading_failed(pre, mem),
    ensures
        probed_mems(pre.mounts@, Some(mem)) == seq![mem],
        r.len() == 1,
        tells_move(r[0], mem, pre.known_head(mem), heads[0]),
        post.known_head(mem) == heads[0],
        was_loaded(pre, mem, load),
        brought(pre.store.entities@, mem, load, r[0], post.store.entities@),
        (forall|i: int|
            0 <= i < load.entities@.len() ==> entity_of(
                pre.store.entities@,
                (#[trigger] load.entities@[i]).id.0@,
            ) is None) ==> (r[0] matches WarningHint::MemReloaded { entities_loaded, .. }
            && entities_loaded == load.entities@.len()),
        ids_unique(load.entities@) ==> forall|i: int|
            0 <= i < load.entities@.len() ==> entity_of(
                post.store.entities@,
                (#[trigger] load.entities@[i]).id.0@,
            ) == Some(load.entities@[i]),
{
    let names = probed_mems(pre.mounts@, Some(mem));
    crate::engine::lemma_mount_index(pre.mounts@, mem, 0);
    lemma_wanted_probe(pre.mounts@, mem);
    lemma_probes_apart(pre.mounts@, Some(mem));
    assert(pre.mounts@[pre.mount_at(mem)->0].mount.mem@ == mem);
    if names.len() > 1 {
        assert(names[0] == names[1]);
    }
    assert(names =~= seq![mem]);
    let (trace, ws) = choose|trace: Seq<Engine<B, H>>, ws: Seq<Option<WarningHint>>| #[trigger]
        all_catch_up(names, heads, trace, ws) && trace[0] == pre && trace.last() == post && r
            == gathered(ws);
    assert(catches_up(trace[0], names[0], heads[0], trace[1], ws[0]));
    lemma_catch_up(pre, mem, heads[0], post, ws[0]);
    assert(gathered(ws.drop_last()) =~= Seq::empty());
    assert(r =~= crate::boot::hints(ws[0]));
    law_reload_tells_what_it_brought(pre, mem, heads[0], post, ws[0]->0)
}

/// A mem that cannot be read again is left as it was.
pub proof fn law_failed_reload_changes_nothing<B: MemBackend, H: Host>(
    pre: Engine<B, H>,
    mem: Seq<char>,
    post: Engine<B, H>,
    e: EngineError,
)
    requires
        reloads(pre, mem, post, Err::<MemReload, EngineError>(e)),
    ensures
        post == pre,
{
}

/// The engine's own write is no drift: once it is recorded, a probe that tells
/// of its head finds that nothing moved.
pub proof fn law_own_write_is_no_drift<B, H>(
    pre: Engine<B, H>,
    post: Engine<B, H>,
    mem: Seq<char>,
    at: int,
    head: Seq<char>,
)
    requires
        records_write(pre, post, at, head),
        pre.mount_at(mem) == Some(at),
        head.len() > 0,
    ensures
        post.mount_of(mem) matches Some(m) && !moved_on(
            opt_text(m.last_known_head),
            Some(head),
        ),
{
    crate::engine::lemma_mount_index(pre.mounts@, mem, 0);
    if head_or_empty(pre.mounts@[at].last_known_head) == head {
        lemma_set_head(pre, post, mem, at, head);
    } else {
        let quiet = Engine { pending_events: pre.pending_events, ..post };
        lemma_set_head(pre, quiet, mem, at, head);
        assert(quiet.mounts@ == post.mounts@);
    }
}

/// Two writes of the engine's own are told one behind the other, and the
/// second from where the first left the mem.
pub proof fn law_told_writes_hang_together<B, H>(
    pre: Engine<B, H>,
    mid: Engine<B, H>,
    post: Engine<B, H>,
    mem: Seq<char>,
    at: int,
    first: Seq<char>,
    second: Seq<char>,
)
    requires
        records_write(pre, mid, at, first),
        records_write(mid, post, at, second),
        pre.mount_at(mem) == Some(at),
        first.len() > 0,
        second.len() > 0,
        first != second,
    ensures
        post.pending_events@.len() == mid.pending_events@.len() + 1,
        post.pending_events@.drop_last() == mid.pending_events@,
        post.pending_events@.last().tells(mem, second, first),
{
    crate::engine::lemma_mount_index(pre.mounts@, mem, 0);
    if head_or_empty(pre.mounts@[at].last_known_head) == first {
        lemma_set_head(pre, mid, mem, at, first);
    } else {
        let quiet = Engine { pending_events: pre.pending_events, ..mid };
        lemma_set_head(pre, quiet, mem, at, first);
        assert(quiet.mounts@ == mid.mounts@);
    }
    assert(head_or_empty(mid.mounts@[at].last_known_head) == first);
}

// ---------------------------------------------------------------------
// Remotes
// ---------------------------------------------------------------------

/// The entity of a file among those that were parsed, the last of its path.
pub open spec fn parsed_at(entities: Seq<Entity>, path: Seq<char>) -> Option<Entity>
    decreases entities.len(),
{
    if entities.len() == 0 {
        None
    } else if entities.last().file_path@ == path {
        Some(entities.last())
    } else {
        parsed_at(entities.drop_last(), path)
    }
}

/// What is wrong with one file of a tree, given what holding it to the
/// invariants of an entity found. A file that did not parse is told of
/// elsewhere.
pub open spec fn file_violation(
    file: (Seq<char>, Seq<char>),
    entities: Seq<Entity>,
    schema: Arc<Schema>,
    verdict: Result<(), String>,
) -> Seq<Seq<char>> {
    match parsed_at(entities, file.0) {
        None => Seq::empty(),
        Some(e) => match schema.type_named(e.entity_type@) {
            None => seq![
                file.0 + ": unknown entity_type '"@ + e.entity_type@ + "' in schema"@,
            ],
            Some(t) => match verdict {
                Ok(_) => Seq::empty(),
                Err(m) => seq![file.0 + ": "@ + m@],
            },
        },
    }
}

/// Whether the host may have found this when it held a file to the invariants
/// of an entity. A file that is not held to them has no verdict of its own.
pub open spec fn verdict_was_told<H: Host>(
    h: &Surroundings<H>,
    file: (Seq<char>, Seq<char>),
    entities: Seq<Entity>,
    schema: Arc<Schema>,
    verdict: Result<(), String>,
) -> bool {
    match parsed_at(entities, file.0) {
        Some(e) => match schema.type_named(e.entity_type@) {
            Some(t) => strict_reply(h, file.1, e, t, file.0, verdict),
            None => true,
        },
        None => true,
    }
}

/// What is wrong with the files of a tree.
pub open spec fn tree_violations(
    files: Seq<(Seq<char>, Seq<char>)>,
    entities: Seq<Entity>,
    schema: Arc<Schema>,
    verdicts: Seq<Result<(), String>>,
) -> Seq<Seq<char>>
    decreases files.len(),
{
    if files.len() == 0 || verdicts.len() != files.len() {
        Seq::empty()
    } else {
        tree_violations(files.drop_last(), entities, schema, verdicts.drop_last())
            + file_violation(files.last(), entities, schema, verdicts.last())
    }
}

/// The files that did not parse, as violations.
pub open spec fn parse_violations(errors: Seq<(Seq<char>, Seq<char>)>) -> Seq<Seq<char>> {
    errors.map_values(|e: (Seq<char>, Seq<char>)| e.0 + ": "@ + e.1)
}

/// Whether `r` is what holding the tree at a ref to the mem's schema gives.
pub open spec fn checks_ref<B, H: Host>(
    engine: Engine<B, H>,
    gitdir: Seq<char>,
    mem: Seq<char>,
    ref_name: Seq<char>,
    r: Result<(), EngineError>,
) -> bool {
    match schema_of(engine.schemas@, mem) {
        None => r matches Err(EngineError::SchemaNotFound { mem: m, pin, sources, install_hint })
            && m@ == mem && pin@ == "<missing engine-side resolution>"@ && sources@.len() == 0
            && install_hint is None,
        Some(schema) => exists|reply: Option<Result<Vec<SourceEntry>, BackendError>>| #[trigger]
            tree_reply(&engine.host, gitdir, ref_name, reply) && match reply {
                None => r matches Err(e) && says_unwired("read_tree"@, e),
                Some(Err(e)) => r matches Err(out) && lifts_ref(e, out),
                Some(Ok(files)) => checks_tree(
                    &engine.host,
                    mem,
                    ref_name,
                    schema,
                    views(files@),
                    r,
                ),
            },
    }
}

/// Whether `r` is what holding files to a schema gives.
pub open spec fn checks_tree<H: Host>(
    h: &Surroundings<H>,
    mem: Seq<char>,
    ref_name: Seq<char>,
    schema: Arc<Schema>,
    files: Seq<(Seq<char>, Seq<char>)>,
    r: Result<(), EngineError>,
) -> bool {
    exists|load: LoadResult, verdicts: Seq<Result<(), String>>|
        #![trigger parse_reply(h, files, Seq::empty(), mem, schema, Seq::empty(), load), tree_violations(files, load.entities@, schema, verdicts)]
        parse_reply(
            h,
            files,
            Seq::empty(),
            mem,
            schema,
            Seq::empty(),
            load,
        ) && verdicts.len() == files.len()
            && (forall|i: int|
            0 <= i < files.len() ==> verdict_was_told(
                h,
                files[i],
                load.entities@,
                schema,
                #[trigger] verdicts[i],
            )) && refuses_violations(
            mem,
            ref_name,
            parse_violations(views(load.errors@)) + tree_violations(
                files,
                load.entities@,
                schema,
                verdicts,
            ),
            r,
        )
}

/// Whether `r` refuses a tree for its violations, or accepts it where there
/// are none.
pub open spec fn refuses_violations(
    mem: Seq<char>,
    ref_name: Seq<char>,
    violations: Seq<Seq<char>>,
    r: Result<(), EngineError>,
) -> bool {
    if violations.len() == 0 {
        r is Ok
    } else {
        r matches Err(EngineError::SchemaViolationInFetch { mem: m, ref_name: n, violations: v })
            && m@ == mem && n@ == ref_name && texts(v@) == violations
    }
}

/// Refuse a tree for its violations, or accept it where there are none.
pub fn judge_violations(mem: &str, ref_name: &str, violations: Vec<String>) -> (r: Result<
    (),
    EngineError,
>)
    ensures
        refuses_violations(mem@, ref_name@, texts(violations@), r),
{
    if violations.len() == 0 {
        Ok(())
    } else {
        Err(
            EngineError::SchemaViolationInFetch {
                mem: own(mem),
                ref_name: own(ref_name),
                violations,
            },
        )
    }
}

/// The entity of a file among those that were parsed.
fn find_parsed<'a>(entities: &'a Vec<Entity>, path: &str) -> (r: Option<&'a Entity>)
    ensures
        match r {
            Some(e) => parsed_at(entities@, path@) == Some(*e),
            None => parsed_at(entities@, path@) is None,
        },
{
    let mut i: usize = entities.len();
    assert(entities@.take(i as int) =~= entities@);
    while i > 0
        invariant
            i <= entities@.len(),
            parsed_at(entities@, path@) == parsed_at(entities@.take(i as int), path@),
        decreases i,
    {
        assert(entities@.take(i as int).drop_last() =~= entities@.take(i - 1));
        i = i - 1;
        if same(&entities[i].file_path, path) {
            return Some(&entities[i]);
        }
    }
    None
}

/// Whether a pull took an engine from `pre` to `post` with the answer `r`:
/// fetch, hold what was fetched to the schema, then fast-forward. The
/// fast-forward is asked for only where the schema accepts what was fetched.
/// Whatever is refused leaves the engine as it was.
pub open spec fn pulls<B, H: Host>(
    pre: Engine<B, H>,
    mem: Seq<char>,
    remote: Seq<char>,
    post: Engine<B, H>,
    r: Result<PullOutcome, EngineError>,
) -> bool {
    match pre.mount_at(mem) {
        None => post == pre && (r matches Err(e) && says_unmounted(mem, e)),
        Some(at) => match pre.mounts@[at].mount.storage {
            MountStorage::GitBranch { gitdir, branch } => exists|
                fetched: Option<Result<FetchOutcome, BackendError>>,
                mid: Engine<B, H>,
            |
                #![trigger fetch_reply(&pre.host, gitdir@, remote, Seq::empty(), fetched), asked(pre, mid, seq![fetch_all(gitdir@, remote)])]
                fetch_reply(&pre.host, gitdir@, remote, Seq::empty(), fetched) && asked(
                    pre,
                    mid,
                    seq![fetch_all(gitdir@, remote)],
                ) && match fetched {
                    None => post == mid && (r matches Err(e) && says_unwired("pull"@, e)),
                    Some(Err(b)) => post == mid && (r matches Err(e) && lifts_remote(b, e)),
                    Some(Ok(_)) => pulls_fetched(mid, at, gitdir@, mem, remote, post, r),
                },
            _ => post == pre && (r matches Err(e) && says_not_git(mem, "pull"@, e)),
        },
    }
}

/// The call that fetches what a remote is configured for.
pub open spec fn fetch_all(gitdir: Seq<char>, remote: Seq<char>) -> HostCall {
    HostCall::Fetch { gitdir, remote, refspecs: Seq::empty() }
}

/// Whether the rest of a pull, after the fetch, took an engine from `pre` to
/// `post` with the answer `r`.
pub open spec fn pulls_fetched<B, H: Host>(
    pre: Engine<B, H>,
    at: int,
    gitdir: Seq<char>,
    mem: Seq<char>,
    remote: Seq<char>,
    post: Engine<B, H>,
    r: Result<PullOutcome, EngineError>,
) -> bool {
    exists|valid: Result<(), EngineError>| #[trigger]
        checks_ref(pre, gitdir, mem, "refs/remotes/"@ + remote + "/"@ + mem, valid)
            && match valid {
            Err(e) => post == pre && r == Err::<PullOutcome, EngineError>(e),
            Ok(_) => pulls_valid(pre, at, gitdir, mem, remote, post, r),
        }
}

/// Whether the fast-forward of a pull took an engine from `pre` to `post` with
/// the answer `r`.
pub open spec fn pulls_valid<B, H: Host>(
    pre: Engine<B, H>,
    at: int,
    gitdir: Seq<char>,
    mem: Seq<char>,
    remote: Seq<char>,
    post: Engine<B, H>,
    r: Result<PullOutcome, EngineError>,
) -> bool {
    exists|pulled: Option<Result<PullOutcome, BackendError>>, mid: Engine<B, H>|
        #![trigger pull_reply(&pre.host, gitdir, remote, mem, pulled), asked(pre, mid, seq![HostCall::Pull { gitdir, remote, mem }])]
        pull_reply(&pre.host, gitdir, remote, mem, pulled) && asked(
            pre,
            mid,
            seq![HostCall::Pull { gitdir, remote, mem }],
        ) && match pulled {
            None => post == mid && (r matches Err(e) && says_unwired("pull"@, e)),
            Some(Err(b)) => post == mid && (r matches Err(e) && lifts_pull(b, e)),
            Some(Ok(o)) => r == Ok::<PullOutcome, EngineError>(o) && head_moves(
                mid,
                post,
                at,
                mem,
                o.previous_sha@,
                o.new_sha@,
            ),
        }
}

/// Whether a push took an engine from `pre` to `post` with the answer `r`:
/// hold the branch to the schema, then push it. A branch that the schema
/// refuses is not pushed: nothing is asked of the surroundings.
pub open spec fn pushes<B, H: Host>(
    pre: Engine<B, H>,
    mem: Seq<char>,
    remote: Seq<char>,
    force: bool,
    post: Engine<B, H>,
    r: Result<PushOutcome, EngineError>,
) -> bool {
    match pre.mount_of(mem) {
        None => post == pre && (r matches Err(e) && says_unknown(pre.quarantined@, mem, e)),
        Some(m) => match m.mount.storage {
            MountStorage::GitBranch { gitdir, branch } => exists|valid: Result<(), EngineError>|
                #[trigger] checks_ref(pre, gitdir@, mem, "refs/heads/"@ + mem, valid)
                    && match valid {
                    Err(
                        EngineError::SchemaViolationInFetch { mem: n, ref_name, violations },
                    ) => post == pre && (r matches Err(
                        EngineError::LocalInvalidState { mem: m2, remote: r2, detail },
                    ) && m2@ == mem && r2@ == remote && detail@ == decimal(violations@.len())
                        + " violation(s) in local branch: "@ + join(texts(violations@), "; "@)),
                    _ => pushes_valid(pre, gitdir@, mem, remote, force, post, r),
                },
            _ => post == pre && (r matches Err(e) && says_not_git(mem, "push"@, e)),
        },
    }
}

/// Whether the push of a branch that the schema does not refuse took an
/// engine from `pre` to `post` with the answer `r`: one push is asked for.
pub open spec fn pushes_valid<B, H: Host>(
    pre: Engine<B, H>,
    gitdir: Seq<char>,
    mem: Seq<char>,
    remote: Seq<char>,
    force: bool,
    post: Engine<B, H>,
    r: Result<PushOutcome, EngineError>,
) -> bool {
    asked(pre, post, seq![HostCall::Push { gitdir, remote, mem, force }]) && exists|
        pushed: Option<Result<PushOutcome, BackendError>>,
    | #[trigger]
        push_reply(&pre.host, gitdir, remote, mem, force, pushed) && match pushed {
            None => r matches Err(e) && says_unwired("push"@, e),
            Some(Err(b)) => r matches Err(e) && lifts_push(remote, b, e),
            Some(Ok(o)) => r == Ok::<PushOutcome, EngineError>(o),
        }
}

/// The first mem-repo of the mounts, from `i` on.
pub open spec fn repo_from<B>(mounts: Seq<MountedBackend<B>>, i: int) -> Option<Seq<char>>
    decreases mounts.len() - i,
{
    if i < 0 || i >= mounts.len() {
        None
    } else {
        match mounts[i].mount.storage {
            MountStorage::GitBranch { gitdir, branch } => Some(gitdir@),
            _ => repo_from(mounts, i + 1),
        }
    }
}

/// Whether a fetch took an engine from `pre` to `post` with the answer `r`.
pub open spec fn fetches<B, H: Host>(
    pre: Engine<B, H>,
    mem: Seq<char>,
    remote: Seq<char>,
    refspecs: Seq<Seq<char>>,
    post: Engine<B, H>,
    r: Result<FetchOutcome, EngineError>,
) -> bool {
    match pre.mount_of(mem) {
        None => post == pre && (r matches Err(e) && says_unknown(pre.quarantined@, mem, e)),
        Some(m) => match m.mount.storage {
            MountStorage::GitBranch { gitdir, branch } => asked(
                pre,
                post,
                seq![HostCall::Fetch { gitdir: gitdir@, remote, refspecs }],
            ) && exists|reply: Option<Result<FetchOutcome, BackendError>>| #[trigger]
                fetch_reply(&pre.host, gitdir@, remote, refspecs, reply) && match reply {
                    None => r matches Err(e) && says_unwired("fetch"@, e),
                    Some(Err(b)) => r matches Err(e) && lifts_remote(b, e),
                    Some(Ok(o)) => r == Ok::<FetchOutcome, EngineError>(o),
                },
            _ => post == pre && (r matches Err(e) && says_not_git(mem, "fetch"@, e)),
        },
    }
}

/// Whether configuring a remote of a mem-repo took an engine from `pre` to
/// `post` with the answer `r`.
pub open spec fn adds_remote<B, H: Host>(
    pre: Engine<B, H>,
    gitdir: Seq<char>,
    name: Seq<char>,
    url: Seq<char>,
    post: Engine<B, H>,
    r: Result<RemoteAddOutcome, EngineError>,
) -> bool {
    asked(pre, post, seq![HostCall::RemoteAdd { gitdir, name, url }]) && exists|
        reply: Option<Result<RemoteAddOutcome, BackendError>>,
    | #[trigger]
        remote_add_reply(&pre.host, gitdir, name, url, reply) && match reply {
            None => r matches Err(e) && says_unwired("remote_add"@, e),
            Some(Err(b)) => r matches Err(EngineError::Backend(e)) && e == b,
            Some(Ok(o)) => r == Ok::<RemoteAddOutcome, EngineError>(o),
        }
}

/// Whether a text may stand as an argument of a git command: it is not empty
/// and no flag.
pub open spec fn is_plain_argument(s: Seq<char>) -> bool {
    s.len() > 0 && !starts(s, "-"@)
}

impl<B: MemBackend, H: Host> Engine<B, H> {
    /// Fetch from a remote into the mem-repo. The branch itself does not
    /// move.
    pub fn fetch(&mut self, mem: &str, remote: &str, refspecs: &Vec<String>) -> (r: Result<
        FetchOutcome,
        EngineError,
    >)
        ensures
            fetches(*old(self), mem@, remote@, texts(refspecs@), *final(self), r),
    {
        let ghost pre = *self;
        let at = match self.find_mount(mem) {
            Ok(i) => i,
            Err(e) => {
                return Err(e);
            },
        };
        match &self.mounts[at].mount.storage {
            MountStorage::GitBranch { gitdir, .. } => {
                let reply = self.host.git_fetch(gitdir, remote, refspecs);
                let ghost told = reply;
                assert(fetch_reply(&pre.host, gitdir@, remote@, texts(refspecs@), told));
                assert(asked(
                    pre,
                    *self,
                    seq![
                        HostCall::Fetch {
                            gitdir: gitdir@,
                            remote: remote@,
                            refspecs: texts(refspecs@),
                        },
                    ],
                ));
                match reply {
                    None => Err(unwired("fetch")),
                    Some(Err(e)) => Err(remote_error(e)),
                    Some(Ok(o)) => Ok(o),
                }
            },
            _ => Err(not_git(mem, "fetch")),
        }
    }

    /// Hold every entity file of the tree at a ref to the mem's schema.
    pub fn validate_ref_against_schema(&self, gitdir: &str, mem: &str, ref_name: &str) -> (r:
        Result<(), EngineError>)
        ensures
            checks_ref(*self, gitdir@, mem@, ref_name@, r),
    {
        let schema = match self.schema_for(mem) {
            Some(s) => s.clone(),
            None => {
                return Err(
                    EngineError::SchemaNotFound {
                        mem: own(mem),
                        pin: own("<missing engine-side resolution>"),
                        sources: Vec::new(),
                        install_hint: None,
                    },
                );
            },
        };
        let reply = self.host.git_read_tree(gitdir, ref_name);
        let ghost told = reply;
        assert(tree_reply(&self.host, gitdir@, ref_name@, told));
        let files = match reply {
            None => {
                return Err(unwired("read_tree"));
            },
            Some(Err(e)) => {
                return Err(ref_error(e));
            },
            Some(Ok(f)) => f,
        };
        let ghost fv = views(files@);
        let none: Vec<SourceReadError> = Vec::new();
        assert(views(none@) =~= Seq::empty());
        let silent: Vec<String> = Vec::new();
        assert(texts(silent@) =~= Seq::empty());
        let load = self.host.parse_entries(&files, &none, mem, &schema, &silent);
        assert(parse_reply(&self.host, fv, Seq::empty(), mem@, schema, Seq::empty(), load));
        let mut violations: Vec<String> = Vec::new();
        let ghost pv = parse_violations(views(load.errors@));
        for i in 0..load.errors.len()
            invariant
                pv == parse_violations(views(load.errors@)),
                texts(violations@) == pv.take(i as int),
        {
            let ghost done = texts(violations@);
            let line = load.errors[i].0.clone().concat(": ").concat(&load.errors[i].1);
            assert(views(load.errors@)[i as int] == load.errors@[i as int]@);
            violations.push(line);
            assert(texts(violations@) =~= done.push(line@));
            assert(pv.take(i + 1) =~= pv.take(i as int).push(pv[i as int]));
        }
        assert(pv.take(pv.len() as int) =~= pv);
        let ghost mut verdicts: Seq<Result<(), String>> = Seq::empty();
        assert(pv + tree_violations(fv.take(0), load.entities@, schema, verdicts) =~= pv);
        for i in 0..files.len()
            invariant
                fv == views(files@),
                verdicts.len() == i,
                forall|k: int|
                    0 <= k < i ==> verdict_was_told(
                        &self.host,
                        fv[k],
                        load.entities@,
                        schema,
                        #[trigger] verdicts[k],
                    ),
                texts(violations@) == pv + tree_violations(
                    fv.take(i as int),
                    load.entities@,
                    schema,
                    verdicts,
                ),
        {
            let ghost done = texts(violations@);
            let ghost past = verdicts;
            let file = &files[i];
            assert(fv[i as int] == file@);
            let ghost mut verdict: Result<(), String> = Ok(());
            let mut found: Option<String> = None;
            match find_parsed(&load.entities, &file.relative_path) {
                None => {},
                Some(e) => match schema.get_type(&e.entity_type) {
                    None => {
                        found = Some(
                            file.relative_path.clone().concat(": unknown entity_type '").concat(
                                &e.entity_type,
                            ).concat("' in schema"),
                        );
                    },
                    Some(t) => {
                        let answer = self.host.validate_strict(
                            &file.content,
                            e,
                            t,
                            &file.relative_path,
                        );
                        proof {
                            verdict = answer;
                            assert(strict_reply(
                                &self.host,
                                file.content@,
                                *e,
                                *t,
                                file.relative_path@,
                                answer,
                            ));
                        }
                        if let Err(m) = answer {
                            found = Some(file.relative_path.clone().concat(": ").concat(&m));
                        }
                    },
                },
            }
            proof {
                verdicts = past.push(verdict);
                assert(verdicts.drop_last() =~= past);
                assert(fv.take(i + 1).drop_last() =~= fv.take(i as int));
                assert forall|k: int| 0 <= k < i + 1 implies verdict_was_told(
                    &self.host,
                    fv[k],
                    load.entities@,
                    schema,
                    #[trigger] verdicts[k],
                ) by {
                    if k < i {
                        assert(verdicts[k] == past[k]);
                    }
                }
            }
            let ghost line = found;
            if let Some(v) = found {
                violations.push(v);
            }
            proof {
                let extra = file_violation(fv[i as int], load.entities@, schema, verdict);
                match line {
                    Some(v) => {
                        assert(extra =~= seq![v@]);
                        assert(texts(violations@) =~= done + extra);
                    },
                    None => {
                        assert(extra =~= Seq::empty());
                        assert(texts(violations@) =~= done + extra);
                    },
                }
                let before = tree_violations(fv.take(i as int), load.entities@, schema, past);
                assert((pv + before) + extra =~= pv + (before + extra));
            }
        }
        assert(fv.take(fv.len() as int) =~= fv);
        judge_violations(mem, ref_name, violations)
    }

    /// Pull a mem's branch from a remote: fetch, hold what was fetched to the
    /// schema, then fast-forward. A branch that diverged and a tree that the
    /// schema refuses leave the branch where it was.
    pub fn pull(&mut self, mem: &str, remote: &str) -> (r: Result<PullOutcome, EngineError>)
        ensures
            pulls(*old(self), mem@, remote@, *final(self), r),
    {
        let ghost pre = *self;
        let at = match self.position(mem) {
            Some(i) => i,
            None => {
                return Err(EngineError::UnknownMem(own(mem)));
            },
        };
        let gitdir = match &self.mounts[at].mount.storage {
            MountStorage::GitBranch { gitdir, .. } => gitdir.clone(),
            _ => {
                return Err(not_git(mem, "pull"));
            },
        };
        let none: Vec<String> = Vec::new();
        assert(texts(none@) =~= Seq::empty());
        let fetched = self.host.git_fetch(&gitdir, remote, &none);
        let ghost got = fetched;
        let ghost mid = *self;
        assert(fetch_reply(&pre.host, gitdir@, remote@, Seq::empty(), got));
        assert(asked(pre, mid, seq![fetch_all(gitdir@, remote@)]));
        match fetched {
            None => {
                return Err(unwired("pull"));
            },
            Some(Err(e)) => {
                return Err(remote_error(e));
            },
            Some(Ok(_)) => {},
        }
        let remote_ref = "refs/remotes/".to_owned().concat(remote).concat("/").concat(mem);
        let valid = self.validate_ref_against_schema(&gitdir, mem, &remote_ref);
        let ghost judged = valid;
        assert(checks_ref(
            mid,
            gitdir@,
            mem@,
            "refs/remotes/"@ + remote@ + "/"@ + mem@,
            judged,
        ));
        if let Err(e) = valid {
            assert(pulls_fetched(mid, at as int, gitdir@, mem@, remote@, *self, Err(e)));
            return Err(e);
        }
        let pulled = self.host.git_pull(&gitdir, remote, mem);
        let ghost done = pulled;
        let ghost past = *self;
        assert(pull_reply(&mid.host, gitdir@, remote@, mem@, done));
        assert(asked(
            mid,
            past,
            seq![HostCall::Pull { gitdir: gitdir@, remote: remote@, mem: mem@ }],
        ));
        let outcome = match pulled {
            None => {
                let e = unwired("pull");
                assert(pulls_valid(mid, at as int, gitdir@, mem@, remote@, *self, Err(e)));
                assert(pulls_fetched(mid, at as int, gitdir@, mem@, remote@, *self, Err(e)));
                return Err(e);
            },
            Some(Err(b)) => {
                let e = pull_error(b);
                assert(pulls_valid(mid, at as int, gitdir@, mem@, remote@, *self, Err(e)));
                assert(pulls_fetched(mid, at as int, gitdir@, mem@, remote@, *self, Err(e)));
                return Err(e);
            },
            Some(Ok(o)) => o,
        };
        self.advance_head(at, mem, &outcome.previous_sha, &outcome.new_sha);
        assert(pulls_valid(mid, at as int, gitdir@, mem@, remote@, *self, Ok(outcome)));
        assert(pulls_fetched(mid, at as int, gitdir@, mem@, remote@, *self, Ok(outcome)));
        Ok(outcome)
    }

    /// Know a head that moved, and let an event tell of it.
    fn advance_head(&mut self, at: usize, mem: &str, previous: &String, head: &String)
        requires
            at < old(self).mounts@.len(),
        ensures
            head_moves(*old(self), *final(self), at as int, mem@, previous@, head@),
    {
        if same(previous, head) {
            return;
        }
        let ghost pre = *self;
        self.mounts[at].last_known_head = Some(head.clone());
        let ghost mid = *self;
        assert(sets_head(pre, mid, at as int, head@));
        self.pending_events.push(
            VaultChangedEvent {
                vault: own(mem),
                head: head.clone(),
                previous: previous.clone(),
                n_commits: 1,
            },
        );
        proof {
            assert(self.pending_events@.drop_last() =~= pre.pending_events@);
            assert(Engine { pending_events: pre.pending_events, ..*self } == mid);
        }
    }

    /// Push a mem's branch to a remote. A branch that the schema refuses is
    /// not pushed, and the remote is not contacted for it.
    pub fn push(&mut self, mem: &str, remote: &str, force: bool) -> (r: Result<
        PushOutcome,
        EngineError,
    >)
        ensures
            pushes(*old(self), mem@, remote@, force, *final(self), r),
    {
        let ghost pre = *self;
        let at = match self.find_mount(mem) {
            Ok(i) => i,
            Err(e) => {
                return Err(e);
            },
        };
        let gitdir = match &self.mounts[at].mount.storage {
            MountStorage::GitBranch { gitdir, .. } => gitdir.clone(),
            _ => {
                return Err(not_git(mem, "push"));
            },
        };
        let local_ref = "refs/heads/".to_owned().concat(mem);
        let valid = self.validate_ref_against_schema(&gitdir, mem, &local_ref);
        let ghost judged = valid;
        assert(checks_ref(pre, gitdir@, mem@, "refs/heads/"@ + mem@, judged));
        if let Err(EngineError::SchemaViolationInFetch { violations, .. }) = &valid {
            return Err(
                EngineError::LocalInvalidState {
                    mem: own(mem),
                    remote: own(remote),
                    detail: decimal_of(violations.len() as u64).concat(
                        " violation(s) in local branch: ",
                    ).concat(&join_list(violations, "; ")),
                },
            );
        }
        let pushed = self.host.git_push(&gitdir, remote, mem, force);
        let ghost told = pushed;
        assert(push_reply(&pre.host, gitdir@, remote@, mem@, force, told));
        assert(asked(
            pre,
            *self,
            seq![HostCall::Push { gitdir: gitdir@, remote: remote@, mem: mem@, force }],
        ));
        let r = match pushed {
            None => Err(unwired("push")),
            Some(Err(e)) => Err(push_error(remote, e)),
            Some(Ok(o)) => Ok(o),
        };
        assert(pushes_valid(pre, gitdir@, mem@, remote@, force, *self, r));
        r
    }

    /// Configure a remote of the mem-repo, or point it elsewhere. The mem-repo
    /// is the one that any mount on a git branch lies in.
    pub fn remote_add(&mut self, name: &str, url: &str) -> (r: Result<
        RemoteAddOutcome,
        EngineError,
    >)
        ensures
            if !is_plain_argument(name@) || !is_plain_argument(url@) {
                *final(self) == *old(self) && (r matches Err(EngineError::InvalidInput(m)) && m@
                    == "remote name and url must be non-empty and must not start with '-' (got name '"@
                    + name@ + "', url '"@ + url@ + "')"@)
            } else {
                match repo_from(old(self).mounts@, 0) {
                    None => *final(self) == *old(self) && (r matches Err(
                        EngineError::InvalidInput(m),
                    ) && m@
                        == "no git-branch mounts — `remote-add` requires a mem-repo workspace"@),
                    Some(gitdir) => adds_remote(
                        *old(self),
                        gitdir,
                        name@,
                        url@,
                        *final(self),
                        r,
                    ),
                }
            },
            adds_named_remote(*old(self), name@, url@, *final(self), r),
    {
        let ghost pre = *self;
        let name_ok = chars_of(name).len() > 0 && !begins(name, "-");
        let url_ok = chars_of(url).len() > 0 && !begins(url, "-");
        if !name_ok || !url_ok {
            return Err(
                EngineError::InvalidInput(
                    "remote name and url must be non-empty and must not start with '-' (got name '".to_owned().concat(
                    name).concat("', url '").concat(url).concat("')"),
                ),
            );
        }
        let gitdir = match self.find_repo() {
            Some(g) => g.clone(),
            None => {
                return Err(
                    EngineError::InvalidInput(
                        own("no git-branch mounts — `remote-add` requires a mem-repo workspace"),
                    ),
                );
            },
        };
        let reply = self.host.git_remote_add(&gitdir, name, url);
        let ghost told = reply;
        assert(remote_add_reply(&pre.host, gitdir@, name@, url@, told));
        assert(asked(
            pre,
            *self,
            seq![HostCall::RemoteAdd { gitdir: gitdir@, name: name@, url: url@ }],
        ));
        let r = match reply {
            None => Err(unwired("remote_add")),
            Some(Err(e)) => Err(EngineError::Backend(e)),
            Some(Ok(o)) => Ok(o),
        };
        assert(adds_remote(pre, gitdir@, name@, url@, *self, r));
        r
    }

    /// The first mem-repo of the mounts.
    fn find_repo(&self) -> (r: Option<&String>)
        ensures
            match r {
                Some(g) => repo_from(self.mounts@, 0) == Some(g@),
                None => repo_from(self.mounts@, 0) is None,
            },
    {
        let mut i: usize = 0;
        while i < self.mounts.len()
            invariant
                i <= self.mounts@.len(),
                repo_from(self.mounts@, 0) == repo_from(self.mounts@, i as int),
            decreases self.mounts@.len() - i,
        {
            if let MountStorage::GitBranch { gitdir, .. } = &self.mounts[i].mount.storage {
                return Some(gitdir);
            }
            i = i + 1;
        }
        None
    }

    /// Move a mem's branch to a commit. Commits that a remote holds are not
    /// discarded.
    pub fn branch_reset(&mut self, mem: &str, target_sha: &str) -> (r: Result<
        BranchResetOutcome,
        EngineError,
    >)
        ensures
            resets(*old(self), mem@, target_sha@, *final(self), r),
    {
        let ghost pre = *self;
        let at = match self.position(mem) {
            Some(i) => i,
            None => {
                return Err(EngineError::UnknownMem(own(mem)));
            },
        };
        let reply = match &self.mounts[at].mount.storage {
            MountStorage::GitBranch { gitdir, branch } => {
                let reply = self.host.git_branch_reset(gitdir, branch, target_sha);
                let ghost told = reply;
                assert(reset_reply(&pre.host, gitdir@, branch@, target_sha@, told));
                assert(asked(
                    pre,
                    *self,
                    seq![
                        HostCall::Reset {
                            gitdir: gitdir@,
                            branch: branch@,
                            target: target_sha@,
                        },
                    ],
                ));
                reply
            },
            _ => {
                return Err(not_git(mem, "branch_reset"));
            },
        };
        let outcome = match reply {
            None => {
                return Err(unwired("branch_reset"));
            },
            Some(Err(e)) => {
                return Err(reset_error(mem, target_sha, e));
            },
            Some(Ok(o)) => o,
        };
        self.advance_head(at, mem, &outcome.previous_sha, &outcome.new_sha);
        Ok(outcome)
    }

    /// Compare the trees of two refs of a mem-repo. The git layer gets the
    /// config whole; without one the default applies.
    pub fn diff(&self, mem: &str, ref_a: &str, ref_b: &str, config: Option<DiffConfig>) -> (r:
        Result<Diff, EngineError>)
        ensures
            exists|c: DiffConfig| #[trigger]
                is_config(config, c) && diffs(*self, mem@, ref_a@, ref_b@, c, r),
    {
        let ghost given = config;
        let config = match config {
            Some(c) => c,
            None => DiffConfig { rename_similarity: Similarity::Default, settings: Vec::new() },
        };
        assert(is_config(given, config));
        self.diff_with(mem, ref_a, ref_b, &config)
    }

    /// Compare the trees of two refs of a mem-repo under a config.
    pub fn diff_with(&self, mem: &str, ref_a: &str, ref_b: &str, config: &DiffConfig) -> (r: Result<
        Diff,
        EngineError,
    >)
        ensures
            diffs(*self, mem@, ref_a@, ref_b@, *config, r),
    {
        let at = match self.find_mount(mem) {
            Ok(i) => i,
            Err(e) => {
                return Err(e);
            },
        };
        if let Some(e) = similarity_error(&config.rename_similarity) {
            return Err(e);
        }
        match &self.mounts[at].mount.storage {
            MountStorage::GitBranch { gitdir, .. } => {
                let reply = self.host.git_diff(gitdir, mem, ref_a, ref_b, config);
                let ghost told = reply;
                assert(diff_reply(&self.host, gitdir@, mem@, ref_a@, ref_b@, *config, told));
                match reply {
                    None => Err(unwired("diff")),
                    Some(Err(e)) => Err(ref_error(e)),
                    Some(Ok(d)) => Ok(d),
                }
            },
            _ => Err(not_git(mem, "diff")),
        }
    }
}

/// Whether `c` is the config that was given, or else the default.
pub open spec fn is_config(given: Option<DiffConfig>, c: DiffConfig) -> bool {
    match given {
        Some(g) => c == g,
        None => c.rename_similarity is Default && c.settings@.len() == 0,
    }
}

/// Whether `r` answers a request for the difference of two refs.
pub open spec fn diffs<B, H: Host>(
    engine: Engine<B, H>,
    mem: Seq<char>,
    ref_a: Seq<char>,
    ref_b: Seq<char>,
    config: DiffConfig,
    r: Result<Diff, EngineError>,
) -> bool {
    match engine.mount_of(mem) {
        None => r matches Err(e) && says_unknown(engine.quarantined@, mem, e),
        Some(m) => if config.rename_similarity is OutOfRange {
            r matches Err(e) && refuses_similarity(config.rename_similarity, e)
        } else {
            match m.mount.storage {
                MountStorage::GitBranch { gitdir, branch } => exists|
                    reply: Option<Result<Diff, BackendError>>,
                | #[trigger]
                    diff_reply(&engine.host, gitdir@, mem, ref_a, ref_b, config, reply)
                        && match reply {
                        None => r matches Err(e) && says_unwired("diff"@, e),
                        Some(Err(b)) => r matches Err(e) && lifts_ref(b, e),
                        Some(Ok(d)) => r == Ok::<Diff, EngineError>(d),
                    },
                _ => r matches Err(e) && says_not_git(mem, "diff"@, e),
            }
        },
    }
}

/// Whether a reset took an engine from `pre` to `post` with the answer `r`.
/// Whatever is refused leaves the engine as it was.
pub open spec fn resets<B, H: Host>(
    pre: Engine<B, H>,
    mem: Seq<char>,
    target: Seq<char>,
    post: Engine<B, H>,
    r: Result<BranchResetOutcome, EngineError>,
) -> bool {
    match pre.mount_at(mem) {
        None => post == pre && (r matches Err(e) && says_unmounted(mem, e)),
        Some(at) => match pre.mounts@[at].mount.storage {
            MountStorage::GitBranch { gitdir, branch } => exists|
                reply: Option<Result<BranchResetOutcome, BackendError>>,
                mid: Engine<B, H>,
            |
                #![trigger reset_reply(&pre.host, gitdir@, branch@, target, reply), asked(pre, mid, seq![HostCall::Reset { gitdir: gitdir@, branch: branch@, target }])]
                reset_reply(&pre.host, gitdir@, branch@, target, reply) && asked(
                    pre,
                    mid,
                    seq![HostCall::Reset { gitdir: gitdir@, branch: branch@, target }],
                ) && match reply {
                    None => post == mid && (r matches Err(e) && says_unwired("branch_reset"@, e)),
                    Some(Err(b)) => post == mid && (r matches Err(e) && lifts_reset(
                        mem,
                        target,
                        b,
                        e,
                    )),
                    Some(Ok(o)) => r == Ok::<BranchResetOutcome, EngineError>(o) && head_moves(
                        mid,
                        post,
                        at,
                        mem,
                        o.previous_sha@,
                        o.new_sha@,
                    ),
                },
            _ => post == pre && (r matches Err(e) && says_not_git(mem, "branch_reset"@, e)),
        },
    }
}

/// The mem-repo that the branch of a mem lies in.
pub open spec fn repo_of<B, H>(engine: Engine<B, H>, mem: Seq<char>) -> Option<Seq<char>> {
    match engine.mount_of(mem) {
        Some(m) => match m.mount.storage {
            MountStorage::GitBranch { gitdir, branch } => Some(gitdir@),
            _ => None,
        },
        None => None,
    }
}

/// A pull that is refused moves nothing: but for the account of what was
/// asked, the engine is as it was. Where the schema refuses what was fetched,
/// the fetch is all that was asked for.
pub proof fn law_refused_pull_changes_nothing<B, H: Host>(
    pre: Engine<B, H>,
    mem: Seq<char>,
    remote: Seq<char>,
    post: Engine<B, H>,
    e: EngineError,
)
    requires
        pulls(pre, mem, remote, post, Err::<PullOutcome, EngineError>(e)),
    ensures
        post == (Engine { host: post.host, ..pre }),
        post.host.inner() == pre.host.inner(),
        e is SchemaViolationInFetch ==> repo_of(pre, mem) is Some && post.host.calls()
            == pre.host.calls() + seq![fetch_all(repo_of(pre, mem)->0, remote)],
{
}

/// A branch that the schema refuses is not pushed: nothing is asked of the
/// surroundings, and the engine is as it was.
pub proof fn law_refused_branch_is_not_pushed<B, H: Host>(
    pre: Engine<B, H>,
    mem: Seq<char>,
    remote: Seq<char>,
    force: bool,
    post: Engine<B, H>,
    e: EngineError,
)
    requires
        pushes(pre, mem, remote, force, post, Err::<PushOutcome, EngineError>(e)),
        e is LocalInvalidState,
    ensures
        post == pre,
        post.host.calls() == pre.host.calls(),
{
}

/// A push asks for at most one push, and for nothing else.
pub proof fn law_push_asks_once<B, H: Host>(
    pre: Engine<B, H>,
    mem: Seq<char>,
    remote: Seq<char>,
    force: bool,
    post: Engine<B, H>,
    r: Result<PushOutcome, EngineError>,
)
    requires
        pushes(pre, mem, remote, force, post, r),
    ensures
        post.host.calls() == pre.host.calls() || (repo_of(pre, mem) is Some && post.host.calls()
            == pre.host.calls() + seq![
            HostCall::Push { gitdir: repo_of(pre, mem)->0, remote, mem, force },
        ]),
        r is Ok ==> post.host.calls().len() == pre.host.calls().len() + 1,
{
}

/// A reset that is refused moves nothing: but for the account of what was
/// asked, the engine is as it was.
pub proof fn law_refused_reset_changes_nothing<B, H: Host>(
    pre: Engine<B, H>,
    mem: Seq<char>,
    target: Seq<char>,
    post: Engine<B, H>,
    e: EngineError,
)
    requires
        resets(pre, mem, target, post, Err::<BranchResetOutcome, EngineError>(e)),
    ensures
        post == (Engine { host: post.host, ..pre }),
        post.host.inner() == pre.host.inner(),
{
}

// ---------------------------------------------------------------------
// What a reset would strand
// ---------------------------------------------------------------------

/// What a `StrandedCrossMemRef` holds.
pub struct StrandedView {
    pub from_id: Seq<char>,
    pub from_mem: Seq<char>,
    pub to_id: Seq<char>,
    pub rel_type: Seq<char>,
}

impl View for StrandedCrossMemRef {
    type V = StrandedView;

    open spec fn view(&self) -> StrandedView {
        StrandedView {
            from_id: self.from_id@,
            from_mem: self.from_mem@,
            to_id: self.to_id@,
            rel_type: self.rel_type@,
        }
    }
}

/// Whether one stranded edge goes before another: by where it comes from,
/// then by where it leads, then by its type.
pub open spec fn stranded_less(a: StrandedView, b: StrandedView) -> bool {
    lex_less(a.from_id, b.from_id) || (a.from_id == b.from_id && (lex_less(a.to_id, b.to_id) || (
    a.to_id == b.to_id && lex_less(a.rel_type, b.rel_type))))
}

impl Ranked for StrandedCrossMemRef {
    open spec fn ranks_before(a: StrandedView, b: StrandedView) -> bool {
        stranded_less(a, b)
    }

    fn goes_before(&self, other: &Self) -> (r: bool) {
        before(&self.from_id, &other.from_id) || (same(&self.from_id, &other.from_id) && (before(
            &self.to_id,
            &other.to_id,
        ) || (same(&self.to_id, &other.to_id) && before(&self.rel_type, &other.rel_type))))
    }
}

/// The ids that would not exist without the changes: those that were added,
/// and those that entities were renamed to.
pub open spec fn discarded(changes: Seq<ChangeEnvelope>) -> Seq<Seq<char>>
    decreases changes.len(),
{
    if changes.len() == 0 {
        Seq::empty()
    } else {
        let rest = discarded(changes.drop_last());
        match changes.last() {
            ChangeEnvelope::Added { id, title, entity_type } => rest.push(id.0@),
            ChangeEnvelope::Renamed { from_id, to_id, title, entity_type } => rest.push(to_id.0@),
            _ => rest,
        }
    }
}

/// The edges of one entity that lead to a discarded id.
pub open spec fn stranded_edges(
    e: Entity,
    edges: Seq<crate::entity::Relationship>,
    gone: Seq<Seq<char>>,
) -> Seq<StrandedView>
    decreases edges.len(),
{
    if edges.len() == 0 {
        Seq::empty()
    } else {
        let rest = stranded_edges(e, edges.drop_last(), gone);
        let last = edges.last();
        if gone.contains(last.target.0@) {
            rest.push(
                StrandedView {
                    from_id: e.id.0@,
                    from_mem: e.mem@,
                    to_id: last.target.0@,
                    rel_type: last.rel_type@,
                },
            )
        } else {
            rest
        }
    }
}

/// The edges from other mems that lead to a discarded id.
pub open spec fn stranded_among(
    entities: Seq<Entity>,
    mem: Seq<char>,
    gone: Seq<Seq<char>>,
) -> Seq<StrandedView>
    decreases entities.len(),
{
    if entities.len() == 0 {
        Seq::empty()
    } else {
        let rest = stranded_among(entities.drop_last(), mem, gone);
        let e = entities.last();
        if e.mem@ == mem {
            rest
        } else {
            rest + stranded_edges(e, e.relationships@, gone)
        }
    }
}

/// The edges from other mems that would be left without a target if the
/// changes of a mem were undone, in order.
pub open spec fn stranded(
    entities: Seq<Entity>,
    mem: Seq<char>,
    changes: Seq<ChangeEnvelope>,
) -> Seq<StrandedView> {
    sorted(
        stranded_among(entities, mem, discarded(changes)),
        |a: StrandedView, b: StrandedView| stranded_less(a, b),
    )
}

/// The edges from other mems that would be left without a target if the
/// changes of `mem` were undone.
pub fn stranded_refs(store: &Store, mem: &str, changes: &Vec<ChangeEnvelope>) -> (r: Vec<
    StrandedCrossMemRef,
>)
    ensures
        views(r@) == stranded(store.entities@, mem@, changes@),
{
    let mut gone: Vec<String> = Vec::new();
    assert(texts(gone@) =~= discarded(changes@.take(0)));
    for i in 0..changes.len()
        invariant
            texts(gone@) == discarded(changes@.take(i as int)),
    {
        let ghost done = texts(gone@);
        assert(changes@.take(i + 1).drop_last() =~= changes@.take(i as int));
        match &changes[i] {
            ChangeEnvelope::Added { id, .. } => {
                gone.push(id.0.clone());
                assert(texts(gone@) =~= done.push(id.0@));
            },
            ChangeEnvelope::Renamed { to_id, .. } => {
                gone.push(to_id.0.clone());
                assert(texts(gone@) =~= done.push(to_id.0@));
            },
            _ => {},
        }
    }
    assert(changes@.take(changes@.len() as int) =~= changes@);
    let ghost gv = texts(gone@);
    let entities = &store.entities;
    let mut out: Vec<StrandedCrossMemRef> = Vec::new();
    assert(views(out@) =~= stranded_among(entities@.take(0), mem@, gv));
    for i in 0..entities.len()
        invariant
            gv == texts(gone@),
            views(out@) == stranded_among(entities@.take(i as int), mem@, gv),
    {
        assert(entities@.take(i + 1).drop_last() =~= entities@.take(i as int));
        let e = &entities[i];
        if !same(&e.mem, mem) {
            let ghost before = views(out@);
            let edges = &e.relationships;
            assert(before + stranded_edges(*e, edges@.take(0), gv) =~= before);
            for j in 0..edges.len()
                invariant
                    gv == texts(gone@),
                    views(out@) == before + stranded_edges(*e, edges@.take(j as int), gv),
            {
                let ghost done = views(out@);
                assert(edges@.take(j + 1).drop_last() =~= edges@.take(j as int));
                let edge = &edges[j];
                if listed(&gone, &edge.target.0) {
                    let item = StrandedCrossMemRef {
                        from_id: e.id.0.clone(),
                        from_mem: e.mem.clone(),
                        to_id: edge.target.0.clone(),
                        rel_type: edge.rel_type.clone(),
                    };
                    out.push(item);
                    assert(views(out@) =~= done.push(item@));
                    assert(before + stranded_edges(*e, edges@.take(j + 1), gv) =~= done.push(
                        item@,
                    ));
                }
            }
            assert(edges@.take(edges@.len() as int) =~= edges@);
        }
    }
    assert(entities@.take(entities@.len() as int) =~= entities@);
    let r = stable_sort(out);
    proof {
        assert((|a: StrandedView, b: StrandedView|
            <StrandedCrossMemRef as Ranked>::ranks_before(a, b)) =~= (|
            a: StrandedView,
            b: StrandedView,
        | stranded_less(a, b)));
    }
    r
}

/// An edge is told of only where another mem holds it and its target is among
/// what the changes brought.
pub proof fn law_stranded_edges_come_from_other_mems(
    entities: Seq<Entity>,
    mem: Seq<char>,
    gone: Seq<Seq<char>>,
)
    ensures
        forall|k: int|
            0 <= k < stranded_among(entities, mem, gone).len() ==> (#[trigger] stranded_among(
                entities,
                mem,
                gone,
            )[k]).from_mem != mem && gone.contains(stranded_among(entities, mem, gone)[k].to_id),
    decreases entities.len(),
{
    if entities.len() > 0 {
        law_stranded_edges_come_from_other_mems(entities.drop_last(), mem, gone);
        let e = entities.last();
        lemma_stranded_edges(e, e.relationships@, gone);
        let rest = stranded_among(entities.drop_last(), mem, gone);
        let own_edges = stranded_edges(e, e.relationships@, gone);
        let all = stranded_among(entities, mem, gone);
        assert forall|k: int| 0 <= k < all.len() implies (#[trigger] all[k]).from_mem != mem
            && gone.contains(all[k].to_id) by {
            if k < rest.len() {
                assert(all[k] == rest[k]);
            } else {
                assert(all[k] == own_edges[k - rest.len()]);
            }
        }
    }
}

/// The stranded edges of an entity are its own and lead to discarded ids.
proof fn lemma_stranded_edges(
    e: Entity,
    edges: Seq<crate::entity::Relationship>,
    gone: Seq<Seq<char>>,
)
    ensures
        forall|k: int|
            0 <= k < stranded_edges(e, edges, gone).len() ==> (#[trigger] stranded_edges(
                e,
                edges,
                gone,
            )[k]).from_mem == e.mem@ && gone.contains(stranded_edges(e, edges, gone)[k].to_id),
    decreases edges.len(),
{
    if edges.len() > 0 {
        lemma_stranded_edges(e, edges.drop_last(), gone);
        let rest = stranded_edges(e, edges.drop_last(), gone);
        let all = stranded_edges(e, edges, gone);
        assert forall|k: int| 0 <= k < all.len() implies (#[trigger] all[k]).from_mem == e.mem@
            && gone.contains(all[k].to_id) by {
            if k < rest.len() {
                assert(all[k] == rest[k]);
            }
        }
    }
}

impl<B: MemBackend, H: Host> Engine<B, H> {
    /// The edges from other mems that a reset of `mem` to `target_sha` would
    /// leave without a target. Nothing moves for the answer.
    pub fn branch_reset_stranded_refs(&self, mem: &str, target_sha: &str) -> (r: Result<
        Vec<StrandedCrossMemRef>,
        EngineError,
    >)
        ensures
            match self.mount_of(mem@) {
                None => r matches Err(e) && says_unknown(self.quarantined@, mem@, e),
                Some(m) => if m.mount.storage is GitBranch {
                    exists|told: Result<ChangesReport, EngineError>| #[trigger]
                        tells_changes(
                            *self,
                            mem@,
                            target_sha@,
                            Similarity::Default,
                            told,
                        ) && match told {
                            Err(e) => r == Err::<Vec<StrandedCrossMemRef>, EngineError>(e),
                            Ok(report) => r matches Ok(v) && views(v@) == stranded(
                                self.store.entities@,
                                mem@,
                                report.changes@,
                            ),
                        }
                } else {
                    r matches Err(e) && says_not_git(mem@, "branch_reset"@, e)
                },
            },
            tells_stranded(*self, mem@, target_sha@, r),
    {
        let at = match self.find_mount(mem) {
            Ok(i) => i,
            Err(e) => {
                return Err(e);
            },
        };
        let on_branch = match &self.mounts[at].mount.storage {
            MountStorage::GitBranch { .. } => true,
            _ => false,
        };
        if !on_branch {
            return Err(not_git(mem, "branch_reset"));
        }
        let told = self.changes_since(mem, target_sha, &Similarity::Default);
        let ghost answer = told;
        assert(tells_changes(*self, mem@, target_sha@, Similarity::Default, answer));
        match told {
            Err(e) => Err(e),
            Ok(report) => Ok(stranded_refs(&self.store, mem, &report.changes)),
        }
    }
}

/// Whether `r` tells if a mem has moved on from the head at which it is known.
pub open spec fn tells_drift<B: MemBackend, H>(
    engine: Engine<B, H>,
    mem: Seq<char>,
    r: Result<bool, EngineError>,
) -> bool {
    match engine.mount_of(mem) {
        None => r is Err,
        Some(m) => exists|reply: Result<Option<String>, BackendError>| #[trigger]
            head_reply(&m.backend, reply) && r == Ok::<bool, EngineError>(
                moved_on(opt_text(m.last_known_head), head_told(reply)),
            ),
    }
}

/// Whether `r` tells what a reset of a mem would strand.
pub open spec fn tells_stranded<B, H: Host>(
    engine: Engine<B, H>,
    mem: Seq<char>,
    target: Seq<char>,
    r: Result<Vec<StrandedCrossMemRef>, EngineError>,
) -> bool {
    r matches Ok(v) ==> exists|report: ChangesReport| #[trigger]
        tells_changes(
            engine,
            mem,
            target,
            Similarity::Default,
            Ok::<ChangesReport, EngineError>(report),
        ) && views(v@) == stranded(engine.store.entities@, mem, report.changes@)
}

/// Whether adding a remote took an engine from `pre` to `post`.
pub open spec fn adds_named_remote<B, H: Host>(
    pre: Engine<B, H>,
    name: Seq<char>,
    url: Seq<char>,
    post: Engine<B, H>,
    r: Result<RemoteAddOutcome, EngineError>,
) -> bool {
    if !is_plain_argument(name) || !is_plain_argument(url) {
        post == pre && (r matches Err(EngineError::InvalidInput(_)))
    } else {
        match repo_from(pre.mounts@, 0) {
            None => post == pre && (r matches Err(EngineError::InvalidInput(_))),
            Some(gitdir) => adds_remote(pre, gitdir, name, url, post, r),
        }
    }
}

} // verus!
