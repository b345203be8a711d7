//! Error envelopes of the engine: what each error is called, what it says in
//! one line, what its structured payload holds and what its full prose says.

use crate::backend::BackendError;
use crate::entity::EntityId;
use crate::json::{empty_object, opt_text_value, text_list, Json, JsonView};
use crate::schema::Schema;
use crate::text::{
    chars_of, contains, debug_form, debug_quoted, decimal, decimal_of, holds, join, join_list,
    listed, next_char, next_of, opt_text, own, same, slice_of, texts,
};
use crate::version::{add_version, ascending};
use std::sync::Arc;
use vstd::prelude::*;

verus! {

/// How many items of a list stand in a message before the rest is counted.
pub const INLINE_LIST_CAP: usize = 3;

// ---------------------------------------------------------------------
// Lists in messages
// ---------------------------------------------------------------------

/// A list in a message: the first items, and where there are more, how many
/// and where they are to be read.
pub open spec fn inline_list(items: Seq<Seq<char>>, field: Seq<char>) -> Seq<char> {
    if items.len() > INLINE_LIST_CAP {
        join(items.take(INLINE_LIST_CAP as int), ", "@) + " +"@ + decimal(
            (items.len() - INLINE_LIST_CAP) as nat,
        ) + " more — see details."@ + field
    } else {
        join(items, ", "@)
    }
}

/// Render a list for a message: the first `INLINE_LIST_CAP` items, and for a
/// longer list the count of the rest with a pointer to `details.<field>`.
pub fn format_inline_list_overflow(items: &Vec<String>, field: &str) -> (r: String)
    ensures
        r@ == inline_list(texts(items@), field@),
{
    if items.len() > INLINE_LIST_CAP {
        let mut head: Vec<String> = Vec::new();
        for i in 0..INLINE_LIST_CAP
            invariant
                items@.len() > INLINE_LIST_CAP,
                texts(head@) == texts(items@).take(i as int),
        {
            let ghost done = texts(head@);
            head.push(items[i].clone());
            assert(texts(head@) =~= done.push(items@[i as int]@));
            assert(texts(items@).take(i + 1) =~= texts(items@).take(i as int).push(
                items@[i as int]@,
            ));
        }
        join_list(&head, ", ").concat(" +").concat(
            &decimal_of((items.len() - INLINE_LIST_CAP) as u64),
        ).concat(" more — see details.").concat(field)
    } else {
        join_list(items, ", ")
    }
}

/// The `Debug` form of a list of texts.
pub open spec fn debug_list(items: Seq<Seq<char>>) -> Seq<char> {
    "["@ + join(items.map_values(|s: Seq<char>| debug_form(s)), ", "@) + "]"@
}

/// The `Debug` form of a list of strings.
fn debug_list_of(items: &Vec<String>) -> (r: String)
    ensures
        r@ == debug_list(texts(items@)),
{
    let mut quoted: Vec<String> = Vec::new();
    let ghost forms = texts(items@).map_values(|s: Seq<char>| debug_form(s));
    for i in 0..items.len()
        invariant
            forms == texts(items@).map_values(|s: Seq<char>| debug_form(s)),
            texts(quoted@) == forms.take(i as int),
    {
        let ghost done = texts(quoted@);
        let q = debug_quoted(&items[i]);
        quoted.push(q);
        assert(texts(quoted@) =~= done.push(q@));
        assert(forms.take(i + 1) =~= forms.take(i as int).push(forms[i as int]));
    }
    assert(forms.take(items@.len() as int) =~= forms);
    "[".to_owned().concat(&join_list(&quoted, ", ")).concat("]")
}

// ---------------------------------------------------------------------
// Payloads
// ---------------------------------------------------------------------

/// One direction in which a rename is blocked, with the number of distinct
/// referrers that it counts.
#[derive(Debug, Clone)]
pub struct BlockedReferrer {
    /// The referrer's mem.
    pub from_mem: String,
    /// The mem of the entity that is renamed.
    pub to_mem: String,
    pub count: usize,
}

impl BlockedReferrer {
    /// `from → to (n referrers)`.
    pub open spec fn text(&self) -> Seq<char> {
        self.from_mem@ + " → "@ + self.to_mem@ + " ("@ + decimal(self.count as nat)
            + " referrer"@ + (if self.count == 1 {
            ""@
        } else {
            "s"@
        }) + ")"@
    }

    /// `from → to (n referrers)`.
    pub fn to_text(&self) -> (r: String)
        ensures
            r@ == self.text(),
    {
        let plural = if self.count == 1 {
            ""
        } else {
            "s"
        };
        self.from_mem.clone().concat(" → ").concat(&self.to_mem).concat(" (").concat(
            &decimal_of(self.count as u64),
        ).concat(" referrer").concat(plural).concat(")")
    }
}

/// One entity that refers to another, with the types of all its edges there.
#[derive(Debug, Clone)]
pub struct ReferrerInfo {
    pub from_id: String,
    pub rel_types: Vec<String>,
    pub mem: String,
}

impl ReferrerInfo {
    /// The id, and for more than one edge their number and types.
    pub open spec fn text(&self) -> Seq<char> {
        if self.rel_types@.len() <= 1 {
            self.from_id@
        } else {
            self.from_id@ + " ×"@ + decimal(self.rel_types@.len()) + " ["@ + join(
                texts(self.rel_types@),
                ", "@,
            ) + "]"@
        }
    }

    /// The id, and for more than one edge their number and types.
    pub fn to_text(&self) -> (r: String)
        ensures
            r@ == self.text(),
    {
        if self.rel_types.len() <= 1 {
            self.from_id.clone()
        } else {
            self.from_id.clone().concat(" ×").concat(
                &decimal_of(self.rel_types.len() as u64),
            ).concat(" [").concat(&join_list(&self.rel_types, ", ")).concat("]")
        }
    }
}

/// A wiki-link in a section body that no relation backs.
#[derive(Debug, Clone)]
pub struct MissingWikiLink {
    pub section_key: String,
    pub target_id: String,
}

impl MissingWikiLink {
    /// `section→target`.
    pub open spec fn text(&self) -> Seq<char> {
        self.section_key@ + "→"@ + self.target_id@
    }

    /// `section→target`.
    pub fn to_text(&self) -> (r: String)
        ensures
            r@ == self.text(),
    {
        self.section_key.clone().concat("→").concat(&self.target_id)
    }
}

/// A required metadata field that was not given.
#[derive(Debug, Clone)]
pub struct MissingRequiredField {
    pub entity_type: String,
    pub key: String,
    pub description: String,
    pub enum_values: Vec<String>,
}

/// A required section that is absent or blank.
#[derive(Debug, Clone)]
pub struct MissingRequiredSection {
    pub entity_type: String,
    pub key: String,
    pub heading: String,
    pub write_rules: Vec<String>,
}

/// Why a title gives no slug.
#[derive(Debug, Clone)]
pub struct SlugError {
    pub message: String,
}

/// Why markdown does not parse.
#[derive(Debug, Clone)]
pub struct ParseError {
    pub message: String,
}

/// What the runtime validator says of a write that it refuses.
#[derive(Debug)]
pub struct ValidationError {
    pub code: String,
    pub message: String,
    pub details: Json,
    pub prose: String,
}

/// The package that would supply a missing schema, once installed.
#[derive(Debug, Clone)]
pub struct SchemaInstallHint {
    pub package: String,
    pub command: String,
}

/// What one schema source held for the name of a pin that did not resolve.
#[derive(Debug, Clone)]
pub struct SchemaSourceDiagnostic {
    /// `local_storage`, `builtin` or `remote`.
    pub source: &'static str,
    /// The versions of the name that the source held, ascending.
    pub versions_found: Vec<String>,
    /// Whether the pinned version is among them.
    pub pinned_version_match: bool,
    /// The status of a source that does not list versions.
    pub status: Option<&'static str>,
}

/// The versions of the schemas called `name`.
pub open spec fn versions_named(schemas: Seq<Arc<Schema>>, name: Seq<char>) -> Seq<Seq<char>>
    decreases schemas.len(),
{
    if schemas.len() == 0 {
        Seq::empty()
    } else {
        let head = versions_named(schemas.drop_last(), name);
        if schemas.last().name@ == name {
            head.push(schemas.last().version@)
        } else {
            head
        }
    }
}

/// The versions of the schemas called `name` that do not stand in `known`.
pub open spec fn other_versions(
    schemas: Seq<Arc<Schema>>,
    name: Seq<char>,
    known: Seq<Seq<char>>,
) -> Seq<Seq<char>>
    decreases schemas.len(),
{
    if schemas.len() == 0 {
        Seq::empty()
    } else {
        let head = other_versions(schemas.drop_last(), name, known);
        if schemas.last().name@ == name && !known.contains(schemas.last().version@) {
            head.push(schemas.last().version@)
        } else {
            head
        }
    }
}

/// The built-in versions of `name`, each once, ascending.
pub open spec fn builtin_versions(builtins: Seq<Arc<Schema>>, name: Seq<char>) -> Seq<Seq<char>> {
    ascending(versions_named(builtins, name))
}

/// The versions of `name` that the consulted schemas add to the built-in
/// ones, each once, ascending.
pub open spec fn local_versions(
    consulted: Seq<Arc<Schema>>,
    builtins: Seq<Arc<Schema>>,
    name: Seq<char>,
) -> Seq<Seq<char>> {
    ascending(other_versions(consulted, name, builtin_versions(builtins, name)))
}

/// Whether a diagnostic says that a source listed these versions.
pub open spec fn lists(
    d: SchemaSourceDiagnostic,
    source: Seq<char>,
    versions: Seq<Seq<char>>,
    requested: Seq<char>,
) -> bool {
    &&& d.source@ == source
    &&& texts(d.versions_found@) == versions
    &&& d.pinned_version_match == versions.contains(requested)
    &&& d.status is None
}

/// Whether diagnostics are those of a pin that did not resolve: local
/// storage, the built-in catalogue and the reserved remote, in that order.
pub open spec fn is_failed_pin(
    ds: Seq<SchemaSourceDiagnostic>,
    name: Seq<char>,
    requested: Seq<char>,
    consulted: Seq<Arc<Schema>>,
    builtins: Seq<Arc<Schema>>,
) -> bool {
    &&& ds.len() == 3
    &&& lists(ds[0], "local_storage"@, local_versions(consulted, builtins, name), requested)
    &&& lists(ds[1], "builtin"@, builtin_versions(builtins, name), requested)
    &&& ds[2].source@ == "remote"@
    &&& ds[2].versions_found@.len() == 0
    &&& !ds[2].pinned_version_match
    &&& ds[2].status matches Some(s) && s@ == "not_configured"@
}

/// The versions of the schemas called `name`, each once, ascending; with
/// `known`, those alone that do not stand in it.
fn collect_versions(schemas: &Vec<Arc<Schema>>, name: &str, known: &Vec<String>) -> (r: Vec<String>)
    ensures
        texts(r@) == ascending(other_versions(schemas@, name@, texts(known@))),
{
    let mut out: Vec<String> = Vec::new();
    let ghost all = schemas@;
    assert(other_versions(all.take(0), name@, texts(known@)) =~= Seq::<Seq<char>>::empty());
    assert(texts(out@) =~= Seq::<Seq<char>>::empty());
    for i in 0..schemas.len()
        invariant
            all == schemas@,
            texts(out@) == ascending(other_versions(all.take(i as int), name@, texts(known@))),
    {
        let s = &schemas[i];
        let ghost head = other_versions(all.take(i as int), name@, texts(known@));
        assert(all.take(i + 1).drop_last() =~= all.take(i as int));
        if same(&s.name, name) && !listed(known, &s.version) {
            add_version(&mut out, &s.version);
            assert(head.push(s.version@).drop_last() =~= head);
        }
    }
    assert(all.take(all.len() as int) =~= all);
    out
}

/// Nothing known, nothing left out.
proof fn lemma_none_known(schemas: Seq<Arc<Schema>>, name: Seq<char>)
    ensures
        other_versions(schemas, name, Seq::empty()) == versions_named(schemas, name),
    decreases schemas.len(),
{
    if schemas.len() > 0 {
        lemma_none_known(schemas.drop_last(), name);
    }
}

impl SchemaSourceDiagnostic {
    /// The fixed-order diagnostics of a pin that did not resolve.
    /// `consulted` is the set that was searched; what it holds beyond
    /// `builtins` counts as local storage.
    pub fn for_failed_pin(
        name: &str,
        requested: &str,
        consulted: &Vec<Arc<Schema>>,
        builtins: &Vec<Arc<Schema>>,
    ) -> (r: Vec<SchemaSourceDiagnostic>)
        ensures
            is_failed_pin(r@, name@, requested@, consulted@, builtins@),
    {
        let nothing: Vec<String> = Vec::new();
        let builtin = collect_versions(builtins, name, &nothing);
        proof {
            assert(texts(nothing@) =~= Seq::<Seq<char>>::empty());
            lemma_none_known(builtins@, name@);
        }
        let local = collect_versions(consulted, name, &builtin);
        let mut out: Vec<SchemaSourceDiagnostic> = Vec::new();
        let local_match = listed(&local, requested);
        let builtin_match = listed(&builtin, requested);
        out.push(
            SchemaSourceDiagnostic {
                source: "local_storage",
                versions_found: local,
                pinned_version_match: local_match,
                status: None,
            },
        );
        out.push(
            SchemaSourceDiagnostic {
                source: "builtin",
                versions_found: builtin,
                pinned_version_match: builtin_match,
                status: None,
            },
        );
        out.push(
            SchemaSourceDiagnostic {
                source: "remote",
                versions_found: Vec::new(),
                pinned_version_match: false,
                status: Some("not_configured"),
            },
        );
        out
    }

    /// What the source held, in words.
    pub open spec fn text(&self, name: Seq<char>) -> Seq<char> {
        self.source@ + " ("@ + (match self.status {
            Some(s) => s@,
            None => if self.versions_found@.len() == 0 {
                "nothing for "@ + debug_form(name)
            } else {
                "holds "@ + join(texts(self.versions_found@), ", "@)
            },
        }) + ")"@
    }

    /// What the source held, in words.
    pub fn to_text(&self, name: &str) -> (r: String)
        ensures
            r@ == self.text(name@),
    {
        let inner = match self.status {
            Some(s) => own(s),
            None => if self.versions_found.len() == 0 {
                "nothing for ".to_owned().concat(&debug_quoted(name))
            } else {
                "holds ".to_owned().concat(&join_list(&self.versions_found, ", "))
            },
        };
        own(self.source).concat(" (").concat(&inner).concat(")")
    }
}

// ---------------------------------------------------------------------
// The errors
// ---------------------------------------------------------------------

/// Errors of the engine.
#[derive(Debug)]
#[allow(inconsistent_fields)]
pub enum EngineError {
    /// Two mounts name the same mem.
    DuplicateMem(String),
    /// No mount names the requested mem.
    UnknownMem(String),
    /// A change subscription names a vault that is not mounted.
    UnknownVault(String),
    /// The mem is mounted but held in quarantine until it is repaired.
    MemQuarantined { mem: String, reason_code: String, reason_message: String },
    /// The mount is read-only; the mutation never reaches the backend.
    ReadOnlyMount(String),
    /// The entity type is not declared in the pinned schema.
    UnknownType {
        name: String,
        schema_ref: String,
        declared: Vec<String>,
        suggestion: Option<String>,
    },
    /// The title has no usable slug.
    InvalidTitle(SlugError),
    /// The id is taken, by a written entity or by a stub.
    AlreadyExists { id: String, existing_title: String, existing_is_stub: bool },
    /// The mem exists, the entity does not.
    NotFound { id: String },
    /// The caller's expected hash is not the entity's current one.
    HashMismatch { id: String, current: String, is_stub: bool },
    /// Entities of writable mems still refer to the entity.
    HasIncomingRefs { id: String, referrers: Vec<ReferrerInfo> },
    /// Entities of other writable mems still refer into the mem.
    MemHasIncomingRefs { mem: String, referrers: Vec<ReferrerInfo> },
    /// The workspace's link policy does not permit the direction.
    CrossMemLinkNotAllowed { from_mem: String, to_mem: String },
    /// The target is absent in a read-only mem, where no stub can be made.
    CrossMemTargetNotFound { target_id: String, target_mem: String },
    /// The source schema declares no edge into the target schema's domain.
    CrossMemEdgeNotDeclared {
        source_schema: String,
        target_schema: String,
        rel_type: String,
        from_id: String,
        to_id: String,
    },
    /// Repair input came for an entity that conforms.
    RepairNotNeeded { id: String, recovery: String },
    /// The new title gives the same id.
    RenameNoOp { id: String, new_title: String },
    /// The update carries no mutation content.
    EmptyUpdate { id: String },
    /// A rename would write into a mem that the policy closes.
    RenameBlockedByCrossMemPolicy { from_mem: String, blocked_referrers: Vec<BlockedReferrer> },
    /// Section bodies hold wiki-links without a backing relation.
    WikiLinkWithoutRelation { from_id: String, missing: Vec<MissingWikiLink> },
    /// Section bodies still link to the target of the relation.
    RelationHasBodyLinks {
        from_id: String,
        to_id: String,
        rel_type: String,
        body_links: Vec<String>,
    },
    /// A rename across mems landed in some of them only.
    RenamePartialFailure { committed_mems: Vec<String>, failed_mem: String, failure_cause: String },
    /// A stub cannot be the source of a relation.
    StubCannotRelate { id: String },
    /// A stub cannot be updated.
    StubNotUpdatable { id: String },
    /// A stub cannot be renamed.
    StubNotRenamable { id: String },
    /// The id does not follow the grammar of ids.
    InvalidEntityId { id: String, reason: String },
    /// A wiki-link target is not in slug form.
    InvalidWikiLinkTarget {
        raw: String,
        suggested: Option<String>,
        section: String,
        link_source: String,
        reason: String,
    },
    /// The mem prefix of a wiki-link is no mem name.
    InvalidWikiLinkMem { raw: String, section: String, reason: String },
    /// One section key is under more than one mutation mode.
    ConflictingSectionModes { section: String, modes: Vec<String> },
    /// The edge would close a cycle in an acyclic subgraph.
    RelationshipCycle {
        rel_type: String,
        from: EntityId,
        to: EntityId,
        existing_path: Vec<EntityId>,
        path_truncated: bool,
        acyclic_set: Option<Vec<String>>,
        existing_path_rel_types: Option<Vec<String>>,
    },
    /// Metadata keys stand in both the set and the unset list.
    SetAndUnsetConflict { keys: Vec<String> },
    /// A required metadata field was unset, or not given on create.
    RequiredFieldUnset {
        field: String,
        entity_type: String,
        field_description: Option<String>,
        enum_values: Vec<String>,
        type_write_rules: Vec<String>,
        on_create: bool,
        missing: Vec<MissingRequiredField>,
    },
    /// Required sections are absent or blank on create.
    MissingRequiredSection {
        entity_type: String,
        missing_count: usize,
        sections: Vec<MissingRequiredSection>,
        type_guidance: Vec<(String, Vec<String>)>,
        pre_announced_missing_fields: Vec<MissingRequiredField>,
    },
    /// The section to patch has no body.
    PatchSectionEmpty { section: String },
    /// The text to patch is not in the section.
    PatchOldNotFound { section: String, current_content: String, truncated: bool },
    /// The runtime validator refused the write.
    Validation(ValidationError),
    /// Freshly generated markdown did not parse.
    ParseAfterWrite(String),
    /// Markdown did not parse.
    Parse(ParseError),
    /// A backend operation failed.
    Backend(BackendError),
    /// A schema pin did not resolve. Empty `sources` mark an internal lookup miss.
    SchemaNotFound {
        mem: String,
        pin: String,
        sources: Vec<SchemaSourceDiagnostic>,
        install_hint: Option<SchemaInstallHint>,
    },
    /// The built-in catalogue did not load.
    SchemaResolverInit(String),
    /// The mem exists, but not the resource that was asked of it.
    Mem(String),
    /// The name of a mem is taken.
    MemNameCollision { name: String, source_origin: String },
    /// The input was rejected; the message says why.
    InvalidInput(String),
    /// The remote is not configured.
    UnknownRemote(String),
    /// The local branch has commits that the remote one has not.
    LocalDivergence { mem: String, remote_ref: String },
    /// The push is no fast-forward.
    NonFastForward { mem: String, remote: String },
    /// The local state fails validation; the remote was not contacted.
    LocalInvalidState { mem: String, remote: String, detail: String },
    /// The fetched state fails validation; the branch did not move.
    SchemaViolationInFetch { mem: String, ref_name: String, violations: Vec<String> },
    /// The reset would discard pushed commits.
    PushedCommitsProtected { mem: String, target_sha: String, pushed_shas: Vec<String> },
    /// A ref does not resolve.
    UnknownRef(String),
    /// A rename similarity lies outside the allowed range. The numbers are held in their decimal form.
    RenameSimilarityOutOfRange { requested: String, allowed_min: String, allowed_max: String },
    /// The cursor is no commit of the mem.
    InvalidChangesCursor { mem: String, since: String },
    /// The cursor of a folder mem is a write token and no timestamp.
    InvalidTimestampCursor { mem: String, since: String },
    /// The mem's config lacks required fields.
    MemConfigIncomplete { mem: String, missing_fields: Vec<String> },
    /// The relation type asks for a description.
    MissingRequiredDescription { rel_type: String, from_id: String, to_id: String },
    /// The relation type forbids a description.
    DescriptionNotPermitted { rel_type: String, from_id: String, to_id: String },
    /// The relation type is reserved for the engine.
    RelationManualAuthoringForbidden {
        rel_type: String,
        from_id: String,
        to_id: String,
        guidance: String,
    },
    /// The build carries no full-text search.
    SearchUnavailable,
    /// The backend of the mem cannot regenerate markdown in place.
    MarkdownExportUnsupportedBackend {
        mem: String,
        active_backend: String,
        supported_backends: Vec<String>,
    },
    /// A check finding is malformed.
    InvalidCheckFinding { reason: String },
    /// A check could not be recorded.
    CheckNotRecorded { reason: String },
    /// The entity's file holds no merge conflict.
    NotConflicted { id: String },
    /// Merge conflicts are resolved in folder mems only.
    MergeConflictUnsupportedBackend { mem: String },
}

/// The texts of a list of referrers.
pub open spec fn referrer_texts(v: Seq<ReferrerInfo>) -> Seq<Seq<char>> {
    v.map_values(|r: ReferrerInfo| r.text())
}

/// The texts of a list of referrers.
fn referrer_list(v: &Vec<ReferrerInfo>) -> (r: Vec<String>)
    ensures
        texts(r@) == referrer_texts(v@),
{
    let mut out: Vec<String> = Vec::new();
    for i in 0..v.len()
        invariant
            texts(out@) == referrer_texts(v@).take(i as int),
    {
        let ghost done = texts(out@);
        let t = v[i].to_text();
        out.push(t);
        assert(texts(out@) =~= done.push(t@));
        assert(referrer_texts(v@).take(i + 1) =~= referrer_texts(v@).take(i as int).push(t@));
    }
    assert(referrer_texts(v@).take(v@.len() as int) =~= referrer_texts(v@));
    out
}

/// The texts of a list of blocked directions.
pub open spec fn blocked_texts(v: Seq<BlockedReferrer>) -> Seq<Seq<char>> {
    v.map_values(|r: BlockedReferrer| r.text())
}

/// The texts of a list of blocked directions.
fn blocked_list(v: &Vec<BlockedReferrer>) -> (r: Vec<String>)
    ensures
        texts(r@) == blocked_texts(v@),
{
    let mut out: Vec<String> = Vec::new();
    for i in 0..v.len()
        invariant
            texts(out@) == blocked_texts(v@).take(i as int),
    {
        let ghost done = texts(out@);
        let t = v[i].to_text();
        out.push(t);
        assert(texts(out@) =~= done.push(t@));
        assert(blocked_texts(v@).take(i + 1) =~= blocked_texts(v@).take(i as int).push(t@));
    }
    assert(blocked_texts(v@).take(v@.len() as int) =~= blocked_texts(v@));
    out
}

/// The blocked directions as they stand in a message.
fn format_blocked_referrers(v: &Vec<BlockedReferrer>) -> (r: String)
    ensures
        r@ == inline_list(blocked_texts(v@), "blocked_referrers"@),
{
    format_inline_list_overflow(&blocked_list(v), "blocked_referrers")
}

/// The texts of a list of unbacked links.
pub open spec fn link_texts(v: Seq<MissingWikiLink>) -> Seq<Seq<char>> {
    v.map_values(|r: MissingWikiLink| r.text())
}

/// The texts of a list of unbacked links.
fn link_list(v: &Vec<MissingWikiLink>) -> (r: Vec<String>)
    ensures
        texts(r@) == link_texts(v@),
{
    let mut out: Vec<String> = Vec::new();
    for i in 0..v.len()
        invariant
            texts(out@) == link_texts(v@).take(i as int),
    {
        let ghost done = texts(out@);
        let t = v[i].to_text();
        out.push(t);
        assert(texts(out@) =~= done.push(t@));
        assert(link_texts(v@).take(i + 1) =~= link_texts(v@).take(i as int).push(t@));
    }
    assert(link_texts(v@).take(v@.len() as int) =~= link_texts(v@));
    out
}

/// The texts of a list of ids.
pub open spec fn id_texts(v: Seq<EntityId>) -> Seq<Seq<char>> {
    v.map_values(|r: EntityId| r.0@)
}

/// The texts of a list of ids.
fn id_list(v: &Vec<EntityId>) -> (r: Vec<String>)
    ensures
        texts(r@) == id_texts(v@),
{
    let mut out: Vec<String> = Vec::new();
    for i in 0..v.len()
        invariant
            texts(out@) == id_texts(v@).take(i as int),
    {
        let ghost done = texts(out@);
        let t = v[i].0.clone();
        out.push(t);
        assert(texts(out@) =~= done.push(t@));
        assert(id_texts(v@).take(i + 1) =~= id_texts(v@).take(i as int).push(t@));
    }
    assert(id_texts(v@).take(v@.len() as int) =~= id_texts(v@));
    out
}

/// The clause that suggests a type.
pub open spec fn suggestion_clause(s: Option<Seq<char>>) -> Seq<char> {
    match s {
        Some(t) => ". Did you mean '"@ + t + "'?"@,
        None => ""@,
    }
}

/// The clause that suggests a type.
fn suggestion_clause_of(s: &Option<String>) -> (r: String)
    ensures
        r@ == suggestion_clause(opt_text(*s)),
{
    match s {
        Some(t) => ". Did you mean '".to_owned().concat(t).concat("'?"),
        None => own(""),
    }
}

/// Who occupies an id.
pub open spec fn occupant(title: Seq<char>, is_stub: bool) -> Seq<char> {
    if !is_stub {
        "'"@ + title + "'"@
    } else if title.len() == 0 {
        "a stub"@
    } else {
        "a stub titled '"@ + title + "'"@
    }
}

/// Who occupies an id.
fn occupant_of(title: &str, is_stub: bool) -> (r: String)
    ensures
        r@ == occupant(title@, is_stub),
{
    if !is_stub {
        "'".to_owned().concat(title).concat("'")
    } else if title.is_empty() {
        own("a stub")
    } else {
        "a stub titled '".to_owned().concat(title).concat("'")
    }
}

/// What a hash mismatch says: a stub has no hash to compare with.
pub open spec fn hash_mismatch_msg(id: Seq<char>, current: Seq<char>, is_stub: bool) -> Seq<char> {
    if is_stub {
        "hash mismatch for "@ + id
            + " — entity is a stub (no content_hash); pass expected_hash: \"\" to operate on stubs"@
    } else {
        "hash mismatch for "@ + id + " — entity was modified concurrently (current: "@ + current
            + ")"@
    }
}

/// What a hash mismatch says: a stub has no hash to compare with.
fn _hash_mismatch_msg(id: &str, current: &str, is_stub: bool) -> (r: String)
    ensures
        r@ == hash_mismatch_msg(id@, current@, is_stub),
{
    if is_stub {
        "hash mismatch for ".to_owned().concat(id).concat(
            " — entity is a stub (no content_hash); pass expected_hash: \"\" to operate on stubs",
        )
    } else {
        "hash mismatch for ".to_owned().concat(id).concat(
            " — entity was modified concurrently (current: ",
        ).concat(current).concat(")")
    }
}

/// What is said of a required field: on create it was never given, later it
/// cannot be unset.
pub open spec fn required_field_unset_msg(
    field: Seq<char>,
    entity_type: Seq<char>,
    on_create: bool,
) -> Seq<char> {
    if on_create {
        "required metadata field '"@ + field + "' not provided — type '"@ + entity_type
            + "' declares the field as required and has no default for it"@
    } else {
        "cannot unset required field '"@ + field + "' for type '"@ + entity_type + "'"@
    }
}

/// What is said of a required field: on create it was never given, later it
/// cannot be unset.
fn _required_field_unset_msg(field: &str, entity_type: &str, on_create: bool) -> (r: String)
    ensures
        r@ == required_field_unset_msg(field@, entity_type@, on_create),
{
    if on_create {
        "required metadata field '".to_owned().concat(field).concat(
            "' not provided — type '",
        ).concat(entity_type).concat(
            "' declares the field as required and has no default for it",
        )
    } else {
        "cannot unset required field '".to_owned().concat(field).concat("' for type '").concat(
            entity_type,
        ).concat("'")
    }
}

/// The name that a pin `name@version` pins.
pub open spec fn pin_name(pin: Seq<char>) -> Seq<char> {
    pin.take(next_char(pin, '@', 0))
}

/// The name that a pin `name@version` pins.
fn pin_name_of(pin: &str) -> (r: String)
    ensures
        r@ == pin_name(pin@),
{
    let x = chars_of(pin);
    let i = next_of(&x, '@', 0);
    let r = slice_of(&x, 0, i);
    assert(r@ =~= pin@.take(i as int));
    r
}

/// What the sources held, in words.
pub open spec fn source_texts(v: Seq<SchemaSourceDiagnostic>, name: Seq<char>) -> Seq<Seq<char>> {
    v.map_values(|d: SchemaSourceDiagnostic| d.text(name))
}

/// The newest version that the first source with any holds.
pub open spec fn held_version(v: Seq<SchemaSourceDiagnostic>) -> Option<Seq<char>>
    decreases v.len(),
{
    if v.len() == 0 {
        None
    } else if v[0].versions_found@.len() > 0 {
        Some(v[0].versions_found@.last()@)
    } else {
        held_version(v.drop_first())
    }
}

/// The newest version that the first source with any holds.
fn held_version_of(v: &Vec<SchemaSourceDiagnostic>) -> (r: Option<String>)
    ensures
        opt_text(r) == held_version(v@),
{
    let mut i: usize = 0;
    assert(v@.skip(0) =~= v@);
    while i < v.len()
        invariant
            i <= v@.len(),
            held_version(v@) == held_version(v@.skip(i as int)),
        decreases v@.len() - i,
    {
        let n: usize = v[i].versions_found.len();
        if n > 0 {
            return Some(v[i].versions_found[n - 1].clone());
        }
        assert(v@.skip(i as int).drop_first() =~= v@.skip(i + 1));
        i = i + 1;
    }
    None
}

/// What follows the bare sentence of a pin that did not resolve: what was
/// searched, and what to do about it. A version held somewhere makes the
/// pinned version wrong; otherwise the package is not installed.
pub open spec fn trail_clause(
    mem: Seq<char>,
    pin: Seq<char>,
    sources: Seq<SchemaSourceDiagnostic>,
    hint: Option<SchemaInstallHint>,
) -> Seq<char> {
    if sources.len() == 0 {
        ""@
    } else {
        " — searched "@ + join(source_texts(sources, pin_name(pin)), ", "@) + (match held_version(
            sources,
        ) {
            Some(v) => "; the pinned version is wrong — run `memstead mem set-schema "@ + mem + " "@
                + pin_name(pin) + "@"@ + v + "`"@,
            None => match hint {
                Some(h) => "; run `"@ + h.command@ + "`"@,
                None => "; run `memstead schema install <package-dir>`"@,
            },
        })
    }
}

/// What follows the bare sentence of a pin that did not resolve.
fn trail_clause_of(
    mem: &str,
    pin: &str,
    sources: &Vec<SchemaSourceDiagnostic>,
    hint: &Option<SchemaInstallHint>,
) -> (r: String)
    ensures
        r@ == trail_clause(mem@, pin@, sources@, *hint),
{
    if sources.len() == 0 {
        return own("");
    }
    let name = pin_name_of(pin);
    let mut parts: Vec<String> = Vec::new();
    let ghost all = source_texts(sources@, name@);
    for i in 0..sources.len()
        invariant
            all == source_texts(sources@, name@),
            texts(parts@) == all.take(i as int),
    {
        let ghost done = texts(parts@);
        let t = sources[i].to_text(&name);
        parts.push(t);
        assert(texts(parts@) =~= done.push(t@));
        assert(all.take(i + 1) =~= all.take(i as int).push(t@));
    }
    assert(all.take(sources@.len() as int) =~= all);
    let remedy = match held_version_of(sources) {
        Some(v) => "; the pinned version is wrong — run `memstead mem set-schema ".to_owned().concat(
            mem,
        ).concat(" ").concat(&name).concat("@").concat(&v).concat("`"),
        None => match hint {
            Some(h) => "; run `".to_owned().concat(&h.command).concat("`"),
            None => own("; run `memstead schema install <package-dir>`"),
        },
    };
    " — searched ".to_owned().concat(&join_list(&parts, ", ")).concat(&remedy)
}

/// The retry that a refused link target suggests, where it is a bare slug.
pub open spec fn proposed_slug(suggested: Option<Seq<char>>) -> Option<Seq<char>> {
    match suggested {
        Some(s) => if contains(s, ":"@) || contains(s, "--"@) {
            None
        } else {
            Some(s)
        },
        None => None,
    }
}

/// The retry that a refused link target suggests, where it is a bare slug.
fn proposed_slug_of(suggested: &Option<String>) -> (r: Option<String>)
    ensures
        opt_text(r) == proposed_slug(opt_text(*suggested)),
{
    match suggested {
        Some(s) => if holds(s, ":") || holds(s, "--") {
            None
        } else {
            Some(s.clone())
        },
        None => None,
    }
}

/// The keys under which an update carries mutation content.
pub open spec fn recognised_keys() -> Seq<Seq<char>> {
    seq![
        "sections"@,
        "append_sections"@,
        "patch_sections"@,
        "metadata"@,
        "metadata_unset"@,
        "declare_relations"@,
        "relations_unset"@,
    ]
}

/// The keys under which an update carries mutation content.
fn recognised_key_list() -> (r: Vec<String>)
    ensures
        texts(r@) == recognised_keys(),
{
    let mut v: Vec<String> = Vec::new();
    v.push(own("sections"));
    v.push(own("append_sections"));
    v.push(own("patch_sections"));
    v.push(own("metadata"));
    v.push(own("metadata_unset"));
    v.push(own("declare_relations"));
    v.push(own("relations_unset"));
    assert(texts(v@) =~= recognised_keys());
    v
}

// ---------------------------------------------------------------------
// Structured payloads
// ---------------------------------------------------------------------

/// One referrer as JSON.
pub open spec fn referrer_value(r: ReferrerInfo) -> JsonView {
    empty_object().with("from_id"@, JsonView::Text(r.from_id@)).with(
        "rel_types"@,
        text_list(texts(r.rel_types@)),
    ).with("mem"@, JsonView::Text(r.mem@))
}

/// Referrers as JSON.
pub open spec fn referrers_value(v: Seq<ReferrerInfo>) -> JsonView {
    JsonView::List(v.map_values(|r: ReferrerInfo| referrer_value(r)))
}

/// Referrers as JSON.
fn referrers_json(v: &Vec<ReferrerInfo>) -> (r: Json)
    ensures
        r@ == referrers_value(v@),
{
    let ghost all = v@.map_values(|r: ReferrerInfo| referrer_value(r));
    let mut out = Json::list();
    assert(all.take(0) =~= Seq::<JsonView>::empty());
    for i in 0..v.len()
        invariant
            all == v@.map_values(|r: ReferrerInfo| referrer_value(r)),
            out is List,
            out@ == JsonView::List(all.take(i as int)),
    {
        let item = Json::object().with("from_id", Json::text(&v[i].from_id)).with(
            "rel_types",
            Json::texts(&v[i].rel_types),
        ).with("mem", Json::text(&v[i].mem));
        assert(item@ == all[i as int]);
        out = out.then_item(item);
        assert(all.take(i + 1) =~= all.take(i as int).push(all[i as int]));
    }
    assert(all.take(v@.len() as int) =~= all);
    out
}

/// One blocked direction as JSON.
pub open spec fn blocked_item(r: BlockedReferrer) -> JsonView {
    empty_object().with("from_mem"@, JsonView::Text(r.from_mem@)).with(
        "to_mem"@,
        JsonView::Text(r.to_mem@),
    ).with("count"@, JsonView::Number(r.count as nat))
}

/// Blocked directions as JSON.
pub open spec fn blocked_value(v: Seq<BlockedReferrer>) -> JsonView {
    JsonView::List(v.map_values(|r: BlockedReferrer| blocked_item(r)))
}

/// Blocked directions as JSON.
fn blocked_json(v: &Vec<BlockedReferrer>) -> (r: Json)
    ensures
        r@ == blocked_value(v@),
{
    let ghost all = v@.map_values(|r: BlockedReferrer| blocked_item(r));
    let mut out = Json::list();
    assert(all.take(0) =~= Seq::<JsonView>::empty());
    for i in 0..v.len()
        invariant
            all == v@.map_values(|r: BlockedReferrer| blocked_item(r)),
            out is List,
            out@ == JsonView::List(all.take(i as int)),
    {
        let item = Json::object().with("from_mem", Json::text(&v[i].from_mem)).with(
            "to_mem",
            Json::text(&v[i].to_mem),
        ).with("count", Json::Number(v[i].count as u64));
        assert(item@ == all[i as int]);
        out = out.then_item(item);
        assert(all.take(i + 1) =~= all.take(i as int).push(all[i as int]));
    }
    assert(all.take(v@.len() as int) =~= all);
    out
}

/// One unbacked link as JSON.
pub open spec fn link_value(r: MissingWikiLink) -> JsonView {
    empty_object().with("section_key"@, JsonView::Text(r.section_key@)).with(
        "target_id"@,
        JsonView::Text(r.target_id@),
    )
}

/// Unbacked links as JSON.
pub open spec fn links_value(v: Seq<MissingWikiLink>) -> JsonView {
    JsonView::List(v.map_values(|r: MissingWikiLink| link_value(r)))
}

/// Unbacked links as JSON.
fn links_json(v: &Vec<MissingWikiLink>) -> (r: Json)
    ensures
        r@ == links_value(v@),
{
    let ghost all = v@.map_values(|r: MissingWikiLink| link_value(r));
    let mut out = Json::list();
    assert(all.take(0) =~= Seq::<JsonView>::empty());
    for i in 0..v.len()
        invariant
            all == v@.map_values(|r: MissingWikiLink| link_value(r)),
            out is List,
            out@ == JsonView::List(all.take(i as int)),
    {
        let item = Json::object().with("section_key", Json::text(&v[i].section_key)).with(
            "target_id",
            Json::text(&v[i].target_id),
        );
        assert(item@ == all[i as int]);
        out = out.then_item(item);
        assert(all.take(i + 1) =~= all.take(i as int).push(all[i as int]));
    }
    assert(all.take(v@.len() as int) =~= all);
    out
}

/// One missing field as JSON, with the write rules of its type.
pub open spec fn missing_field_value(m: MissingRequiredField, rules: Seq<Seq<char>>) -> JsonView {
    empty_object().with("field"@, JsonView::Text(m.key@)).with(
        "description"@,
        JsonView::Text(m.description@),
    ).with("enum_values"@, text_list(texts(m.enum_values@))).with("write_rules"@, text_list(rules))
}

/// Missing fields as JSON.
pub open spec fn missing_fields_value(
    v: Seq<MissingRequiredField>,
    rules: Seq<Seq<char>>,
) -> JsonView {
    JsonView::List(v.map_values(|m: MissingRequiredField| missing_field_value(m, rules)))
}

/// Missing fields as JSON.
fn missing_fields_json(v: &Vec<MissingRequiredField>, rules: &Vec<String>) -> (r: Json)
    ensures
        r@ == missing_fields_value(v@, texts(rules@)),
        r is List,
{
    let ghost all = v@.map_values(
        |m: MissingRequiredField| missing_field_value(m, texts(rules@)),
    );
    let mut out = Json::list();
    assert(all.take(0) =~= Seq::<JsonView>::empty());
    for i in 0..v.len()
        invariant
            all == v@.map_values(
                |m: MissingRequiredField| missing_field_value(m, texts(rules@)),
            ),
            out is List,
            out@ == JsonView::List(all.take(i as int)),
    {
        let item = Json::object().with("field", Json::text(&v[i].key)).with(
            "description",
            Json::text(&v[i].description),
        ).with("enum_values", Json::texts(&v[i].enum_values)).with(
            "write_rules",
            Json::texts(rules),
        );
        assert(item@ == all[i as int]);
        out = out.then_item(item);
        assert(all.take(i + 1) =~= all.take(i as int).push(all[i as int]));
    }
    assert(all.take(v@.len() as int) =~= all);
    out
}

/// One missing section as JSON.
pub open spec fn section_value(s: MissingRequiredSection) -> JsonView {
    empty_object().with("entity_type"@, JsonView::Text(s.entity_type@)).with(
        "key"@,
        JsonView::Text(s.key@),
    ).with("heading"@, JsonView::Text(s.heading@)).with(
        "write_rules"@,
        text_list(texts(s.write_rules@)),
    )
}

/// Write rules by type as JSON.
pub open spec fn guidance_value(v: Seq<(String, Vec<String>)>) -> JsonView
    decreases v.len(),
{
    if v.len() == 0 {
        empty_object()
    } else {
        guidance_value(v.drop_last()).with(v.last().0@, text_list(texts(v.last().1@)))
    }
}

/// A range of numbers, by their decimal forms.
pub open spec fn range_value(min: Seq<char>, max: Seq<char>) -> JsonView {
    JsonView::List(seq![JsonView::Decimal(min), JsonView::Decimal(max)])
}

/// A range of numbers, by their decimal forms.
fn range_json(min: &String, max: &String) -> (r: Json)
    ensures
        r@ == range_value(min@, max@),
{
    let r = Json::list().then_item(Json::Decimal(min.clone())).then_item(
        Json::Decimal(max.clone()),
    );
    assert(r@->List_0 =~= seq![JsonView::Decimal(min@), JsonView::Decimal(max@)]);
    r
}

/// The payload of missing sections.
pub open spec fn sections_details(
    entity_type: Seq<char>,
    missing_count: nat,
    sections: Seq<MissingRequiredSection>,
    guidance: Seq<(String, Vec<String>)>,
    fields: Seq<MissingRequiredField>,
) -> JsonView {
    let base = empty_object().with("entity_type"@, JsonView::Text(entity_type)).with(
        "missing_count"@,
        JsonView::Number(missing_count),
    ).with(
        "sections"@,
        JsonView::List(sections.map_values(|s: MissingRequiredSection| section_value(s))),
    ).with("type_guidance"@, guidance_value(guidance));
    if fields.len() == 0 {
        base
    } else {
        base.with(
            "pre_announced_missing_fields"@,
            missing_fields_value(fields, Seq::empty()),
        )
    }
}

/// The payload of missing sections.
fn sections_details_json(
    entity_type: &str,
    missing_count: usize,
    sections: &Vec<MissingRequiredSection>,
    guidance: &Vec<(String, Vec<String>)>,
    fields: &Vec<MissingRequiredField>,
) -> (r: Json)
    ensures
        r@ == sections_details(entity_type@, missing_count as nat, sections@, guidance@, fields@),
{
    let ghost all = sections@.map_values(|s: MissingRequiredSection| section_value(s));
    let mut list = Json::list();
    assert(all.take(0) =~= Seq::<JsonView>::empty());
    for i in 0..sections.len()
        invariant
            all == sections@.map_values(|s: MissingRequiredSection| section_value(s)),
            list is List,
            list@ == JsonView::List(all.take(i as int)),
    {
        let s = &sections[i];
        let item = Json::object().with("entity_type", Json::text(&s.entity_type)).with(
            "key",
            Json::text(&s.key),
        ).with("heading", Json::text(&s.heading)).with("write_rules", Json::texts(&s.write_rules));
        assert(item@ == all[i as int]);
        list = list.then_item(item);
        assert(all.take(i + 1) =~= all.take(i as int).push(all[i as int]));
    }
    assert(all.take(sections@.len() as int) =~= all);
    let mut by_type = Json::object();
    for i in 0..guidance.len()
        invariant
            by_type is Object,
            by_type@ == guidance_value(guidance@.take(i as int)),
    {
        by_type = by_type.with(&guidance[i].0, Json::texts(&guidance[i].1));
        assert(guidance@.take(i + 1).drop_last() =~= guidance@.take(i as int));
    }
    assert(guidance@.take(guidance@.len() as int) =~= guidance@);
    let base = Json::object().with("entity_type", Json::text(entity_type)).with(
        "missing_count",
        Json::Number(missing_count as u64),
    ).with("sections", list).with("type_guidance", by_type);
    if fields.len() == 0 {
        base
    } else {
        let nothing: Vec<String> = Vec::new();
        assert(texts(nothing@) =~= Seq::<Seq<char>>::empty());
        base.with("pre_announced_missing_fields", missing_fields_json(fields, &nothing))
    }
}

/// The payload of a cycle.
pub open spec fn cycle_value(
    rel_type: Seq<char>,
    from: Seq<char>,
    to: Seq<char>,
    path: Seq<Seq<char>>,
    truncated: bool,
    acyclic_set: Option<Vec<String>>,
    path_types: Option<Vec<String>>,
) -> JsonView {
    let base = empty_object().with("rel_type"@, JsonView::Text(rel_type)).with(
        "from"@,
        JsonView::Text(from),
    ).with("to"@, JsonView::Text(to)).with("existing_path"@, text_list(path)).with(
        "path_truncated"@,
        JsonView::Bool(truncated),
    );
    let with_set = match acyclic_set {
        Some(v) => base.with("acyclic_set"@, text_list(texts(v@))),
        None => base,
    };
    match path_types {
        Some(v) => with_set.with("existing_path_rel_types"@, text_list(texts(v@))),
        None => with_set,
    }
}

/// The payload of a cycle.
fn cycle_json(
    rel_type: &str,
    from: &EntityId,
    to: &EntityId,
    path: &Vec<EntityId>,
    truncated: bool,
    acyclic_set: &Option<Vec<String>>,
    path_types: &Option<Vec<String>>,
) -> (r: Json)
    ensures
        r@ == cycle_value(
            rel_type@,
            from.0@,
            to.0@,
            id_texts(path@),
            truncated,
            *acyclic_set,
            *path_types,
        ),
{
    let base = Json::object().with("rel_type", Json::text(rel_type)).with(
        "from",
        Json::text(&from.0),
    ).with("to", Json::text(&to.0)).with("existing_path", Json::texts(&id_list(path))).with(
        "path_truncated",
        Json::Bool(truncated),
    );
    let with_set = match acyclic_set {
        Some(v) => base.with("acyclic_set", Json::texts(v)),
        None => base,
    };
    match path_types {
        Some(v) => with_set.with("existing_path_rel_types", Json::texts(v)),
        None => with_set,
    }
}

/// One source diagnostic as JSON; a status stands there where there is one.
pub open spec fn source_value(d: SchemaSourceDiagnostic) -> JsonView {
    let base = empty_object().with("source"@, JsonView::Text(d.source@)).with(
        "versions_found"@,
        text_list(texts(d.versions_found@)),
    ).with("pinned_version_match"@, JsonView::Bool(d.pinned_version_match));
    match d.status {
        Some(s) => base.with("status"@, JsonView::Text(s@)),
        None => base,
    }
}

/// The payload of a pin that did not resolve.
pub open spec fn schema_details(
    mem: Seq<char>,
    pin: Seq<char>,
    sources: Seq<SchemaSourceDiagnostic>,
    hint: Option<SchemaInstallHint>,
) -> JsonView {
    let base = empty_object().with("mem"@, JsonView::Text(mem)).with(
        "pin"@,
        JsonView::Text(pin),
    ).with(
        "sources"@,
        JsonView::List(sources.map_values(|d: SchemaSourceDiagnostic| source_value(d))),
    );
    match hint {
        Some(h) => base.with(
            "install_hint"@,
            empty_object().with("package"@, JsonView::Text(h.package@)).with(
                "command"@,
                JsonView::Text(h.command@),
            ),
        ),
        None => base,
    }
}

/// The payload of a pin that did not resolve.
fn schema_details_json(
    mem: &str,
    pin: &str,
    sources: &Vec<SchemaSourceDiagnostic>,
    hint: &Option<SchemaInstallHint>,
) -> (r: Json)
    ensures
        r@ == schema_details(mem@, pin@, sources@, *hint),
{
    let ghost all = sources@.map_values(|d: SchemaSourceDiagnostic| source_value(d));
    let mut list = Json::list();
    assert(all.take(0) =~= Seq::<JsonView>::empty());
    for i in 0..sources.len()
        invariant
            all == sources@.map_values(|d: SchemaSourceDiagnostic| source_value(d)),
            list is List,
            list@ == JsonView::List(all.take(i as int)),
    {
        let d = &sources[i];
        let base = Json::object().with("source", Json::text(d.source)).with(
            "versions_found",
            Json::texts(&d.versions_found),
        ).with("pinned_version_match", Json::Bool(d.pinned_version_match));
        let item = match d.status {
            Some(s) => base.with("status", Json::text(s)),
            None => base,
        };
        assert(item@ == all[i as int]);
        list = list.then_item(item);
        assert(all.take(i + 1) =~= all.take(i as int).push(all[i as int]));
    }
    assert(all.take(sources@.len() as int) =~= all);
    let base = Json::object().with("mem", Json::text(mem)).with("pin", Json::text(pin)).with(
        "sources",
        list,
    );
    match hint {
        Some(h) => base.with(
            "install_hint",
            Json::object().with("package", Json::text(&h.package)).with(
                "command",
                Json::text(&h.command),
            ),
        ),
        None => base,
    }
}

// ---------------------------------------------------------------------
// Full prose
// ---------------------------------------------------------------------

/// The path of a cycle in words.
pub open spec fn path_clause(path: Seq<Seq<char>>) -> Seq<char> {
    if path.len() == 0 {
        "(unavailable)"@
    } else {
        join(path, " → "@)
    }
}

/// The purpose of a field in words.
pub open spec fn purpose_clause(description: Option<Seq<char>>) -> Seq<char> {
    match description {
        Some(d) => " Field purpose: "@ + d + "."@,
        None => ""@,
    }
}

/// The keys of the missing fields.
pub open spec fn field_keys(v: Seq<MissingRequiredField>) -> Seq<Seq<char>> {
    v.map_values(|m: MissingRequiredField| m.key@)
}

/// The full prose of an unset required field.
pub open spec fn required_field_prose(
    field: Seq<char>,
    entity_type: Seq<char>,
    description: Option<Seq<char>>,
    enum_values: Seq<Seq<char>>,
    rules: Seq<Seq<char>>,
    on_create: bool,
    missing: Seq<MissingRequiredField>,
) -> Seq<char> {
    required_field_unset_msg(field, entity_type, on_create) + "."@ + purpose_clause(description)
        + (if enum_values.len() == 0 {
        ""@
    } else {
        " Allowed values: "@ + join(enum_values, ", "@) + "."@
    }) + (if rules.len() == 0 {
        ""@
    } else {
        " Type-level write_rules: "@ + join(rules, "; "@) + "."@
    }) + (if missing.len() > 1 {
        " Also unset (declaration order): "@ + join(field_keys(missing).drop_first(), ", "@)
            + "."@
    } else {
        ""@
    })
}

/// The full prose of an unset required field.
fn required_field_prose_of(
    field: &str,
    entity_type: &str,
    description: &Option<String>,
    enum_values: &Vec<String>,
    rules: &Vec<String>,
    on_create: bool,
    missing: &Vec<MissingRequiredField>,
) -> (r: String)
    ensures
        r@ == required_field_prose(
            field@,
            entity_type@,
            opt_text(*description),
            texts(enum_values@),
            texts(rules@),
            on_create,
            missing@,
        ),
{
    let purpose = match description {
        Some(d) => " Field purpose: ".to_owned().concat(d).concat("."),
        None => own(""),
    };
    let allowed = if enum_values.len() == 0 {
        own("")
    } else {
        " Allowed values: ".to_owned().concat(&join_list(enum_values, ", ")).concat(".")
    };
    let rule_clause = if rules.len() == 0 {
        own("")
    } else {
        " Type-level write_rules: ".to_owned().concat(&join_list(rules, "; ")).concat(".")
    };
    let tail = if missing.len() > 1 {
        let mut others: Vec<String> = Vec::new();
        let ghost all = field_keys(missing@).drop_first();
        for i in 1..missing.len()
            invariant
                missing@.len() > 1,
                all == field_keys(missing@).drop_first(),
                texts(others@) == all.take(i - 1),
        {
            let ghost done = texts(others@);
            let k = missing[i].key.clone();
            others.push(k);
            assert(texts(others@) =~= done.push(k@));
            assert(all.take(i as int) =~= all.take(i - 1).push(k@));
        }
        assert(all.take(missing@.len() - 1) =~= all);
        " Also unset (declaration order): ".to_owned().concat(&join_list(&others, ", ")).concat(
            ".",
        )
    } else {
        own("")
    };
    _required_field_unset_msg(field, entity_type, on_create).concat(".").concat(&purpose).concat(
        &allowed,
    ).concat(&rule_clause).concat(&tail)
}

/// One missing section in words.
pub open spec fn section_line(s: MissingRequiredSection) -> Seq<char> {
    "\n  - '"@ + s.key@ + "' ("@ + s.heading@ + ")"@ + (if s.write_rules@.len() == 0 {
        ""@
    } else {
        " — write_rules: "@ + join(texts(s.write_rules@), "; "@)
    })
}

/// Missing sections in words.
pub open spec fn section_lines(v: Seq<MissingRequiredSection>) -> Seq<char>
    decreases v.len(),
{
    if v.len() == 0 {
        ""@
    } else {
        section_lines(v.drop_last()) + section_line(v.last())
    }
}

/// Write rules by type in words; types without rules are passed over.
pub open spec fn guidance_lines(v: Seq<(String, Vec<String>)>) -> Seq<char>
    decreases v.len(),
{
    if v.len() == 0 {
        ""@
    } else if v.last().1@.len() == 0 {
        guidance_lines(v.drop_last())
    } else {
        guidance_lines(v.drop_last()) + ("\n  - "@ + v.last().0@ + ": "@ + join(
            texts(v.last().1@),
            "; "@,
        ))
    }
}

/// The full prose of missing sections.
pub open spec fn sections_prose(
    entity_type: Seq<char>,
    missing_count: nat,
    sections: Seq<MissingRequiredSection>,
    guidance: Seq<(String, Vec<String>)>,
    fields: Seq<MissingRequiredField>,
) -> Seq<char> {
    "missing "@ + decimal(missing_count) + " required section(s) for type '"@ + entity_type
        + "':"@ + section_lines(sections) + (if guidance.len() == 0 {
        ""@
    } else {
        "\nType guidance:"@ + guidance_lines(guidance)
    }) + (if fields.len() == 0 {
        ""@
    } else {
        "\nRequired metadata field(s) still unset: "@ + join(field_keys(fields), ", "@)
    })
}

/// The keys of missing fields.
fn field_key_list(fields: &Vec<MissingRequiredField>) -> (r: Vec<String>)
    ensures
        texts(r@) == field_keys(fields@),
{
    let mut out: Vec<String> = Vec::new();
    for i in 0..fields.len()
        invariant
            texts(out@) == field_keys(fields@).take(i as int),
    {
        let ghost done = texts(out@);
        out.push(fields[i].key.clone());
        assert(texts(out@) =~= done.push(fields@[i as int].key@));
        assert(field_keys(fields@).take(i + 1) =~= field_keys(fields@).take(i as int).push(
            fields@[i as int].key@,
        ));
    }
    assert(field_keys(fields@).take(fields@.len() as int) =~= field_keys(fields@));
    out
}

/// The full prose of missing sections.
fn sections_prose_of(
    entity_type: &str,
    missing_count: usize,
    sections: &Vec<MissingRequiredSection>,
    guidance: &Vec<(String, Vec<String>)>,
    fields: &Vec<MissingRequiredField>,
) -> (r: String)
    ensures
        r@ == sections_prose(entity_type@, missing_count as nat, sections@, guidance@, fields@),
{
    let mut lines = own("");
    for i in 0..sections.len()
        invariant
            lines@ == section_lines(sections@.take(i as int)),
    {
        let s = &sections[i];
        let rules = if s.write_rules.len() == 0 {
            own("")
        } else {
            " — write_rules: ".to_owned().concat(&join_list(&s.write_rules, "; "))
        };
        let line = "\n  - '".to_owned().concat(&s.key).concat("' (").concat(&s.heading).concat(
            ")",
        ).concat(&rules);
        lines.append(&line);
        assert(sections@.take(i + 1).drop_last() =~= sections@.take(i as int));
    }
    assert(sections@.take(sections@.len() as int) =~= sections@);
    let advice = if guidance.len() == 0 {
        own("")
    } else {
        let mut by_type = own("");
        for i in 0..guidance.len()
            invariant
                by_type@ == guidance_lines(guidance@.take(i as int)),
        {
            assert(guidance@.take(i + 1).drop_last() =~= guidance@.take(i as int));
            if guidance[i].1.len() > 0 {
                let line = "\n  - ".to_owned().concat(&guidance[i].0).concat(": ").concat(
                    &join_list(&guidance[i].1, "; "),
                );
                by_type.append(&line);
            }
        }
        assert(guidance@.take(guidance@.len() as int) =~= guidance@);
        "\nType guidance:".to_owned().concat(&by_type)
    };
    let unset = if fields.len() == 0 {
        own("")
    } else {
        "\nRequired metadata field(s) still unset: ".to_owned().concat(
            &join_list(&field_key_list(fields), ", "),
        )
    };
    "missing ".to_owned().concat(&decimal_of(missing_count as u64)).concat(
        " required section(s) for type '",
    ).concat(entity_type).concat("':").concat(&lines).concat(&advice).concat(&unset)
}

/// Every referrer of a list, inline.
fn render_referrers_inline(v: &Vec<ReferrerInfo>) -> (r: String)
    ensures
        r@ == join(referrer_texts(v@), ", "@),
{
    join_list(&referrer_list(v), ", ")
}

impl EngineError {
    /// The stable code of the error.
    pub open spec fn code_text(&self) -> Seq<char> {
        match *self {
            EngineError::DuplicateMem(_) => "DUPLICATE_MEM"@,
            EngineError::UnknownMem(_) => "UNKNOWN_MEM"@,
            EngineError::UnknownVault(_) => "UNKNOWN_VAULT"@,
            EngineError::MemQuarantined { .. } => "MEM_QUARANTINED"@,
            EngineError::ReadOnlyMount(_) => "READ_ONLY_MOUNT"@,
            EngineError::UnknownType { .. } => "UNKNOWN_ENTITY_TYPE"@,
            EngineError::InvalidTitle(_) => "INVALID_TITLE"@,
            EngineError::AlreadyExists { .. } => "ENTITY_ALREADY_EXISTS"@,
            EngineError::NotFound { .. } => "ENTITY_NOT_FOUND"@,
            EngineError::HashMismatch { .. } => "HASH_MISMATCH"@,
            EngineError::HasIncomingRefs { .. } => "HAS_INCOMING_REFS"@,
            EngineError::MemHasIncomingRefs { .. } => "MEM_HAS_INCOMING_REFS"@,
            EngineError::CrossMemLinkNotAllowed { .. } => "CROSS_MEM_LINK_NOT_ALLOWED"@,
            EngineError::CrossMemTargetNotFound { .. } => "CROSS_MEM_TARGET_NOT_FOUND"@,
            EngineError::CrossMemEdgeNotDeclared { .. } => "CROSS_MEM_EDGE_NOT_DECLARED"@,
            EngineError::RepairNotNeeded { .. } => "REPAIR_NOT_NEEDED"@,
            EngineError::RenameNoOp { .. } => "RENAME_NO_OP"@,
            EngineError::EmptyUpdate { .. } => "EMPTY_UPDATE"@,
            EngineError::RenameBlockedByCrossMemPolicy { .. } => "RENAME_BLOCKED_BY_CROSS_MEM_POLICY"@,
            EngineError::WikiLinkWithoutRelation { .. } => "WIKILINK_WITHOUT_RELATION"@,
            EngineError::RelationHasBodyLinks { .. } => "RELATION_HAS_BODY_LINKS"@,
            EngineError::RenamePartialFailure { .. } => "RENAME_PARTIAL_FAILURE"@,
            EngineError::StubCannotRelate { .. } => "STUB_CANNOT_RELATE"@,
            EngineError::StubNotUpdatable { .. } => "STUB_NOT_UPDATABLE"@,
            EngineError::StubNotRenamable { .. } => "STUB_NOT_RENAMABLE"@,
            EngineError::InvalidEntityId { .. } => "INVALID_ENTITY_ID"@,
            EngineError::InvalidWikiLinkTarget { .. } => "INVALID_WIKI_LINK_TARGET"@,
            EngineError::InvalidWikiLinkMem { .. } => "INVALID_MEM_NAME"@,
            EngineError::ConflictingSectionModes { .. } => "CONFLICTING_SECTION_MODES"@,
            EngineError::RelationshipCycle { .. } => "RELATIONSHIP_CYCLE"@,
            EngineError::SetAndUnsetConflict { .. } => "SET_AND_UNSET_CONFLICT"@,
            EngineError::RequiredFieldUnset { .. } => "REQUIRED_FIELD_UNSET"@,
            EngineError::MissingRequiredSection { .. } => "MISSING_REQUIRED_SECTION"@,
            EngineError::PatchSectionEmpty { .. } => "PATCH_SECTION_EMPTY"@,
            EngineError::PatchOldNotFound { .. } => "PATCH_OLD_NOT_FOUND"@,
            EngineError::Validation(v) => v.code@,
            EngineError::ParseAfterWrite(_) => "PARSE_ERROR"@,
            EngineError::Parse(_) => "PARSE_ERROR"@,
            EngineError::Backend(_) => "MEM_ERROR"@,
            EngineError::SchemaNotFound { .. } => "SCHEMA_NOT_FOUND"@,
            EngineError::SchemaResolverInit(_) => "SCHEMA_RESOLVER_INIT_FAILED"@,
            EngineError::Mem(_) => "MEM_ERROR"@,
            EngineError::MemNameCollision { .. } => "MEM_NAME_COLLISION"@,
            EngineError::InvalidInput(_) => "INVALID_INPUT"@,
            EngineError::UnknownRemote(_) => "UNKNOWN_REMOTE"@,
            EngineError::LocalDivergence { .. } => "LOCAL_DIVERGENCE"@,
            EngineError::NonFastForward { .. } => "NON_FAST_FORWARD"@,
            EngineError::LocalInvalidState { .. } => "LOCAL_INVALID_STATE"@,
            EngineError::SchemaViolationInFetch { .. } => "SCHEMA_VIOLATION_IN_FETCH"@,
            EngineError::PushedCommitsProtected { .. } => "PUSHED_COMMITS_PROTECTED"@,
            EngineError::UnknownRef(_) => "UNKNOWN_REF"@,
            EngineError::RenameSimilarityOutOfRange { .. } => "INVALID_INPUT"@,
            EngineError::InvalidChangesCursor { .. } => "INVALID_CURSOR"@,
            EngineError::InvalidTimestampCursor { .. } => "INVALID_CURSOR"@,
            EngineError::MemConfigIncomplete { .. } => "MEM_CONFIG_INCOMPLETE"@,
            EngineError::MissingRequiredDescription { .. } => "MISSING_REQUIRED_DESCRIPTION"@,
            EngineError::DescriptionNotPermitted { .. } => "DESCRIPTION_NOT_PERMITTED"@,
            EngineError::RelationManualAuthoringForbidden { .. } => "RELATION_MANUAL_AUTHORING_FORBIDDEN"@,
            EngineError::SearchUnavailable => "SEARCH_UNAVAILABLE_IN_WASM"@,
            EngineError::MarkdownExportUnsupportedBackend { .. } => "MARKDOWN_EXPORT_UNSUPPORTED_BACKEND"@,
            EngineError::InvalidCheckFinding { .. } => "INVALID_CHECK_FINDING"@,
            EngineError::CheckNotRecorded { .. } => "CHECK_NOT_RECORDED"@,
            EngineError::NotConflicted { .. } => "NOT_CONFLICTED"@,
            EngineError::MergeConflictUnsupportedBackend { .. } => "CONFLICT_RESOLVE_UNSUPPORTED_BACKEND"@,
        }
    }

    /// The stable code of the error, the same on every surface.
    pub fn code(&self) -> (r: &str)
        ensures
            r@ == self.code_text(),
    {
        match self {
            EngineError::DuplicateMem(_) => "DUPLICATE_MEM",
            EngineError::UnknownMem(_) => "UNKNOWN_MEM",
            EngineError::UnknownVault(_) => "UNKNOWN_VAULT",
            EngineError::MemQuarantined { .. } => "MEM_QUARANTINED",
            EngineError::ReadOnlyMount(_) => "READ_ONLY_MOUNT",
            EngineError::UnknownType { .. } => "UNKNOWN_ENTITY_TYPE",
            EngineError::InvalidTitle(_) => "INVALID_TITLE",
            EngineError::AlreadyExists { .. } => "ENTITY_ALREADY_EXISTS",
            EngineError::NotFound { .. } => "ENTITY_NOT_FOUND",
            EngineError::HashMismatch { .. } => "HASH_MISMATCH",
            EngineError::HasIncomingRefs { .. } => "HAS_INCOMING_REFS",
            EngineError::MemHasIncomingRefs { .. } => "MEM_HAS_INCOMING_REFS",
            EngineError::CrossMemLinkNotAllowed { .. } => "CROSS_MEM_LINK_NOT_ALLOWED",
            EngineError::CrossMemTargetNotFound { .. } => "CROSS_MEM_TARGET_NOT_FOUND",
            EngineError::CrossMemEdgeNotDeclared { .. } => "CROSS_MEM_EDGE_NOT_DECLARED",
            EngineError::RepairNotNeeded { .. } => "REPAIR_NOT_NEEDED",
            EngineError::RenameNoOp { .. } => "RENAME_NO_OP",
            EngineError::EmptyUpdate { .. } => "EMPTY_UPDATE",
            EngineError::RenameBlockedByCrossMemPolicy { .. } => "RENAME_BLOCKED_BY_CROSS_MEM_POLICY",
            EngineError::WikiLinkWithoutRelation { .. } => "WIKILINK_WITHOUT_RELATION",
            EngineError::RelationHasBodyLinks { .. } => "RELATION_HAS_BODY_LINKS",
            EngineError::RenamePartialFailure { .. } => "RENAME_PARTIAL_FAILURE",
            EngineError::StubCannotRelate { .. } => "STUB_CANNOT_RELATE",
            EngineError::StubNotUpdatable { .. } => "STUB_NOT_UPDATABLE",
            EngineError::StubNotRenamable { .. } => "STUB_NOT_RENAMABLE",
            EngineError::InvalidEntityId { .. } => "INVALID_ENTITY_ID",
            EngineError::InvalidWikiLinkTarget { .. } => "INVALID_WIKI_LINK_TARGET",
            EngineError::InvalidWikiLinkMem { .. } => "INVALID_MEM_NAME",
            EngineError::ConflictingSectionModes { .. } => "CONFLICTING_SECTION_MODES",
            EngineError::RelationshipCycle { .. } => "RELATIONSHIP_CYCLE",
            EngineError::SetAndUnsetConflict { .. } => "SET_AND_UNSET_CONFLICT",
            EngineError::RequiredFieldUnset { .. } => "REQUIRED_FIELD_UNSET",
            EngineError::MissingRequiredSection { .. } => "MISSING_REQUIRED_SECTION",
            EngineError::PatchSectionEmpty { .. } => "PATCH_SECTION_EMPTY",
            EngineError::PatchOldNotFound { .. } => "PATCH_OLD_NOT_FOUND",
            EngineError::Validation(v) => v.code.as_str(),
            EngineError::ParseAfterWrite(_) => "PARSE_ERROR",
            EngineError::Parse(_) => "PARSE_ERROR",
            EngineError::Backend(_) => "MEM_ERROR",
            EngineError::SchemaNotFound { .. } => "SCHEMA_NOT_FOUND",
            EngineError::SchemaResolverInit(_) => "SCHEMA_RESOLVER_INIT_FAILED",
            EngineError::Mem(_) => "MEM_ERROR",
            EngineError::MemNameCollision { .. } => "MEM_NAME_COLLISION",
            EngineError::InvalidInput(_) => "INVALID_INPUT",
            EngineError::UnknownRemote(_) => "UNKNOWN_REMOTE",
            EngineError::LocalDivergence { .. } => "LOCAL_DIVERGENCE",
            EngineError::NonFastForward { .. } => "NON_FAST_FORWARD",
            EngineError::LocalInvalidState { .. } => "LOCAL_INVALID_STATE",
            EngineError::SchemaViolationInFetch { .. } => "SCHEMA_VIOLATION_IN_FETCH",
            EngineError::PushedCommitsProtected { .. } => "PUSHED_COMMITS_PROTECTED",
            EngineError::UnknownRef(_) => "UNKNOWN_REF",
            EngineError::RenameSimilarityOutOfRange { .. } => "INVALID_INPUT",
            EngineError::InvalidChangesCursor { .. } => "INVALID_CURSOR",
            EngineError::InvalidTimestampCursor { .. } => "INVALID_CURSOR",
            EngineError::MemConfigIncomplete { .. } => "MEM_CONFIG_INCOMPLETE",
            EngineError::MissingRequiredDescription { .. } => "MISSING_REQUIRED_DESCRIPTION",
            EngineError::DescriptionNotPermitted { .. } => "DESCRIPTION_NOT_PERMITTED",
            EngineError::RelationManualAuthoringForbidden { .. } => "RELATION_MANUAL_AUTHORING_FORBIDDEN",
            EngineError::SearchUnavailable => "SEARCH_UNAVAILABLE_IN_WASM",
            EngineError::MarkdownExportUnsupportedBackend { .. } => "MARKDOWN_EXPORT_UNSUPPORTED_BACKEND",
            EngineError::InvalidCheckFinding { .. } => "INVALID_CHECK_FINDING",
            EngineError::CheckNotRecorded { .. } => "CHECK_NOT_RECORDED",
            EngineError::NotConflicted { .. } => "NOT_CONFLICTED",
            EngineError::MergeConflictUnsupportedBackend { .. } => "CONFLICT_RESOLVE_UNSUPPORTED_BACKEND",
        }
    }

    /// What the error says in one line.
    pub open spec fn text(&self) -> Seq<char> {
        match *self {
            EngineError::DuplicateMem(a) => "duplicate mem in mount list: "@ + a@,
            EngineError::UnknownMem(a) => "unknown mem: "@ + a@,
            EngineError::UnknownVault(a) => "unknown vault: "@ + a@,
            EngineError::MemQuarantined { mem, reason_code, reason_message } => "mem "@ + mem@
                + " is quarantined ("@ + reason_code@ + "): "@ + reason_message@,
            EngineError::ReadOnlyMount(a) => "mem "@ + a@
                + " is mounted read-only; mutations rejected"@,
            EngineError::UnknownType { name, schema_ref, declared, suggestion } => "unknown entity type '"@
                + name@ + "' in schema '"@ + schema_ref@ + "'. Declared types: ["@
                + join(texts(declared@), ", "@) + "]"@ + suggestion_clause(opt_text(suggestion)),
            EngineError::InvalidTitle(a) => "title is invalid: "@ + a.message@,
            EngineError::AlreadyExists { id, existing_title, existing_is_stub } => "entity already exists: "@
                + id@ + " (occupied by "@ + occupant(existing_title@, existing_is_stub) + ")"@,
            EngineError::NotFound { id } => "entity not found: "@ + id@,
            EngineError::HashMismatch { id, current, is_stub } => hash_mismatch_msg(
                id@,
                current@,
                is_stub,
            ),
            EngineError::HasIncomingRefs { id, referrers } => "entity "@ + id@ + " has "@
                + decimal(referrers@.len()) + " incoming reference(s) in write mems ("@
                + inline_list(referrer_texts(referrers@), "referrers"@)
                + "); remove them first via memstead_relate --remove or memstead_update"@,
            EngineError::MemHasIncomingRefs { mem, referrers } => "mem `"@ + mem@ + "` has "@
                + decimal(referrers@.len()) + " incoming reference(s) in write mems ("@
                + inline_list(referrer_texts(referrers@), "referrers"@)
                + "); remove them first via memstead_relate --remove or memstead_update"@,
            EngineError::CrossMemLinkNotAllowed { from_mem, to_mem } => "cross-mem link from mem `"@
                + from_mem@ + "` to mem `"@ + to_mem@
                + "` is not allowed by the workspace `[cross_mem_links]` policy"@,
            EngineError::CrossMemTargetNotFound { target_id, target_mem } => "cross-mem relate target "@
                + target_id@ + " is absent in read-only mem `"@ + target_mem@
                + "` — auto-stub is unavailable across the read-only boundary; the target must exist before relating"@,
            EngineError::CrossMemEdgeNotDeclared {
                source_schema,
                target_schema,
                rel_type,
                from_id,
                to_id,
            } => "cross-mem edge "@ + rel_type@ + " from `"@ + from_id@ + "` (schema "@
                + source_schema@ + ") to `"@ + to_id@ + "` (schema "@ + target_schema@
                + ") is not declared in "@ + source_schema@
                + "'s `cross_mem_relationships:` section"@,
            EngineError::RepairNotNeeded { id, recovery } => "repair input refused for "@ + id@
                + ": the entity currently passes the conformance check — "@ + recovery@,
            EngineError::RenameNoOp { id, new_title } => "rename would not change the id of "@
                + id@ + " — new title "@ + debug_form(new_title@) + " produces the same slug"@,
            EngineError::EmptyUpdate { id } => "no mutation content for "@ + id@
                + " — payload carries an id but every mutation map is empty (recognised keys: sections, append_sections, patch_sections, metadata, metadata_unset, declare_relations, relations_unset)"@,
            EngineError::RenameBlockedByCrossMemPolicy { from_mem, blocked_referrers } => "rename blocked: cross-mem rewrite from referrer mem(s) into `"@
                + from_mem@ + "` is not permitted by `[cross_mem_links]` — blocked: "@
                + inline_list(blocked_texts(blocked_referrers@), "blocked_referrers"@)
                + " — grant the missing direction or rewrite the blocked referrers manually"@,
            EngineError::WikiLinkWithoutRelation { from_id, missing } => "post-mutation body of "@
                + from_id@ + " has "@ + decimal(missing@.len())
                + " wiki-link(s) without a backing relation ("@
                + inline_list(link_texts(missing@), "missing"@)
                + ") — declare the relation(s) via memstead_relate first (REFERENCES or a more specific rel-type), then retry"@,
            EngineError::RelationHasBodyLinks { from_id, to_id, rel_type, body_links } => "cannot remove "@
                + rel_type@ + " "@ + from_id@ + " → "@ + to_id@
                + ": source body still contains wiki-link(s) to the target in section(s) "@
                + inline_list(texts(body_links@), "body_links"@)
                + " — drop them via memstead_update before removing the relation"@,
            EngineError::RenamePartialFailure {
                committed_mems,
                failed_mem,
                failure_cause,
            } => "rename partial-failure: mem `"@ + failed_mem@ + "` aborted with cause "@
                + debug_form(failure_cause@) + " after "@ + debug_list(texts(committed_mems@))
                + " already committed — reload and retry, or reconcile manually"@,
            EngineError::StubCannotRelate { id } => "source entity "@ + id@
                + " is a stub — promote it to a real entity via memstead_create first"@,
            EngineError::StubNotUpdatable { id } => "entity "@ + id@
                + " is a stub — promote it to a real entity via memstead_create first"@,
            EngineError::StubNotRenamable { id } => "entity "@ + id@
                + " is a stub — promote it to a real entity via memstead_create before renaming"@,
            EngineError::InvalidEntityId { id, reason } => "entity id '"@ + id@
                + "' is malformed: "@ + reason@,
            EngineError::InvalidWikiLinkTarget { raw, section, reason, .. } => "body wiki-link target '"@
                + raw@ + "' in section '"@ + section@ + "' is not slug-form: "@ + reason@,
            EngineError::InvalidWikiLinkMem { raw, section, reason } => "body wiki-link mem prefix '"@
                + raw@ + "' in section '"@ + section@ + "' is not a valid mem name: "@ + reason@,
            EngineError::ConflictingSectionModes { section, modes } => "conflicting section modes for "@
                + section@ + ": "@ + debug_list(texts(modes@)),
            EngineError::RelationshipCycle { rel_type, from, to, .. } => "creating edge "@
                + rel_type@ + " from '"@ + from.0@ + "' to '"@ + to.0@
                + "' would close a cycle in the "@ + rel_type@ + " subgraph"@,
            EngineError::SetAndUnsetConflict { keys } => "metadata keys appear in both set and unset: "@
                + debug_list(texts(keys@)),
            EngineError::RequiredFieldUnset { field, entity_type, on_create, .. } => required_field_unset_msg(
                field@,
                entity_type@,
                on_create,
            ),
            EngineError::MissingRequiredSection { entity_type, missing_count, .. } => "missing "@
                + decimal(missing_count as nat) + " required section(s) for type '"@ + entity_type@
                + "'"@,
            EngineError::PatchSectionEmpty { section } => "patch target section is empty: "@
                + section@,
            EngineError::PatchOldNotFound { section, .. } => "patch `old` substring not found in "@
                + section@,
            EngineError::Validation(a) => "schema validation: "@ + a.message@,
            EngineError::ParseAfterWrite(a) => "parse-after-write failed: "@ + a@,
            EngineError::Parse(a) => "parse error: "@ + a.message@,
            EngineError::Backend(a) => a.text(),
            EngineError::SchemaNotFound { mem, pin, sources, install_hint } => "mem "@ + mem@
                + ": schema pin "@ + debug_form(pin@) + " did not resolve in any schema source"@
                + trail_clause(mem@, pin@, sources@, install_hint),
            EngineError::SchemaResolverInit(a) => "built-in schema catalogue failed to load: "@
                + a@,
            EngineError::Mem(a) => "mem error: "@ + a@,
            EngineError::MemNameCollision { name, source_origin } => "mem name collision: "@
                + name@ + " is already registered ("@ + source_origin@ + ")"@,
            EngineError::InvalidInput(a) => "invalid input: "@ + a@,
            EngineError::UnknownRemote(a) => "unknown remote: "@ + a@,
            EngineError::LocalDivergence { mem, remote_ref } => "mem `"@ + mem@
                + "`'s local branch has diverged from `"@ + remote_ref@
                + "` — pull cannot fast-forward without losing local commits; rebase / replay first or run memstead branch-reset"@,
            EngineError::NonFastForward { mem, remote } => "push to remote `"@ + remote@
                + "` for mem `"@ + mem@
                + "` is not a fast-forward; rebase / replay locally or pass `force: true` to overwrite the remote"@,
            EngineError::LocalInvalidState { mem, remote, detail } => "mem `"@ + mem@
                + "` failed pre-push schema validation; remote `"@ + remote@
                + "` was not contacted: "@ + detail@,
            EngineError::SchemaViolationInFetch { mem, ref_name, violations } => "mem `"@ + mem@
                + "` would fail schema validation at `"@ + ref_name@ + "` — "@
                + decimal(violations@.len())
                + " violation(s); fix the remote or replay locally first"@,
            EngineError::PushedCommitsProtected { pushed_shas, .. } => "branch_reset refused: "@
                + decimal(pushed_shas@.len()) + " pushed commit(s) would be discarded ("@
                + join(texts(pushed_shas@), ", "@)
                + "); pick a target that preserves the pushed segment or push the pre-reset state under a different branch first"@,
            EngineError::UnknownRef(a) => "unknown ref: "@ + a@,
            EngineError::RenameSimilarityOutOfRange {
                requested,
                allowed_min,
                allowed_max,
            } => "rename_similarity "@ + requested@ + " outside allowed range ["@ + allowed_min@
                + ", "@ + allowed_max@ + "]"@,
            EngineError::InvalidChangesCursor { mem, since } => "commit cursor '"@ + since@
                + "' is not a known commit in mem '"@ + mem@
                + "' — pass a commit_sha from a prior mutation, or the empty-tree sentinel to re-seed"@,
            EngineError::InvalidTimestampCursor { mem, since } => "cursor '"@ + since@
                + "' is not an RFC3339 timestamp cursor for mem '"@ + mem@
                + "' — a `write_id` is an identity, not a cursor; pass the `head` of a prior report, or an empty cursor to re-seed"@,
            EngineError::MemConfigIncomplete { mem, missing_fields } => "mem `"@ + mem@
                + "` config is missing required field(s) "@ + debug_list(texts(missing_fields@))
                + " — set via `memstead mem set-version "@ + mem@ + " <version>` (e.g. 0.1.0)"@,
            EngineError::MissingRequiredDescription { rel_type, from_id, to_id } => "rel-type `"@
                + rel_type@ + "` declares `per_edge_description: required` — "@ + from_id@ + " → "@
                + to_id@ + " needs a description; re-issue with `--description \"<text>\"`."@,
            EngineError::DescriptionNotPermitted { rel_type, from_id, to_id } => "rel-type `"@
                + rel_type@ + "` declares `per_edge_description: forbidden` — "@ + from_id@
                + " → "@ + to_id@
                + " cannot carry a description; drop the `--description` argument."@,
            EngineError::RelationManualAuthoringForbidden {
                rel_type,
                from_id,
                to_id,
                guidance,
            } => "rel-type `"@ + rel_type@ + "` declares `manual_authoring: forbidden` — "@
                + from_id@ + " → "@ + to_id@
                + " cannot be authored explicitly; this rel-type is reserved for engine-emitted synthesis via the body-link → relation alias path. "@
                + guidance@,
            EngineError::SearchUnavailable => "full-text search is unavailable in this engine build (wasm32); route search queries to the bridge's memstead_search endpoint"@,
            EngineError::MarkdownExportUnsupportedBackend {
                mem,
                active_backend,
                supported_backends,
            } => "mem `"@ + mem@ + "` is on backend `"@ + active_backend@
                + "`; `memstead export --format markdown` is supported only on backends ["@
                + join(texts(supported_backends@), ", "@)
                + "] — use `--format mem` to produce a portable `.mem` archive instead"@,
            EngineError::InvalidCheckFinding { reason } => "invalid check finding: "@ + reason@,
            EngineError::CheckNotRecorded { reason } => "check not recorded: "@ + reason@,
            EngineError::NotConflicted { id } => "entity "@ + id@
                + " carries no merge-conflict markers"@,
            EngineError::MergeConflictUnsupportedBackend { mem } => "mem `"@ + mem@
                + "` is not folder-backed — merge conflicts are resolved in folder mems only"@,
        }
    }

    /// What the error says in one line.
    pub fn to_text(&self) -> (r: String)
        ensures
            r@ == self.text(),
    {
        match self {
            EngineError::DuplicateMem(a) => "duplicate mem in mount list: ".to_owned().concat(a),
            EngineError::UnknownMem(a) => "unknown mem: ".to_owned().concat(a),
            EngineError::UnknownVault(a) => "unknown vault: ".to_owned().concat(a),
            EngineError::MemQuarantined { mem, reason_code, reason_message } => "mem ".to_owned()
                .concat(mem).concat(" is quarantined (").concat(reason_code).concat("): ")
                .concat(reason_message),
            EngineError::ReadOnlyMount(a) => "mem ".to_owned().concat(a)
                .concat(" is mounted read-only; mutations rejected"),
            EngineError::UnknownType { name, schema_ref, declared, suggestion } => "unknown entity type '".to_owned()
                .concat(name).concat("' in schema '").concat(schema_ref)
                .concat("'. Declared types: [").concat(&join_list(declared, ", ")).concat("]")
                .concat(&suggestion_clause_of(suggestion)),
            EngineError::InvalidTitle(a) => "title is invalid: ".to_owned().concat(&a.message),
            EngineError::AlreadyExists { id, existing_title, existing_is_stub } => "entity already exists: ".to_owned()
                .concat(id).concat(" (occupied by ")
                .concat(&occupant_of(existing_title, *existing_is_stub)).concat(")"),
            EngineError::NotFound { id } => "entity not found: ".to_owned().concat(id),
            EngineError::HashMismatch { id, current, is_stub } => _hash_mismatch_msg(
                id,
                current,
                *is_stub,
            ),
            EngineError::HasIncomingRefs { id, referrers } => "entity ".to_owned().concat(id)
                .concat(" has ").concat(&decimal_of(referrers.len() as u64))
                .concat(" incoming reference(s) in write mems (")
                .concat(&format_inline_list_overflow(&referrer_list(referrers), "referrers"))
                .concat("); remove them first via memstead_relate --remove or memstead_update"),
            EngineError::MemHasIncomingRefs { mem, referrers } => "mem `".to_owned().concat(mem)
                .concat("` has ").concat(&decimal_of(referrers.len() as u64))
                .concat(" incoming reference(s) in write mems (")
                .concat(&format_inline_list_overflow(&referrer_list(referrers), "referrers"))
                .concat("); remove them first via memstead_relate --remove or memstead_update"),
            EngineError::CrossMemLinkNotAllowed { from_mem, to_mem } => "cross-mem link from mem `".to_owned()
                .concat(from_mem).concat("` to mem `").concat(to_mem)
                .concat("` is not allowed by the workspace `[cross_mem_links]` policy"),
            EngineError::CrossMemTargetNotFound { target_id, target_mem } => "cross-mem relate target ".to_owned()
                .concat(target_id).concat(" is absent in read-only mem `").concat(target_mem)
                .concat("` — auto-stub is unavailable across the read-only boundary; the target must exist before relating"),
            EngineError::CrossMemEdgeNotDeclared {
                source_schema,
                target_schema,
                rel_type,
                from_id,
                to_id,
            } => "cross-mem edge ".to_owned().concat(rel_type).concat(" from `").concat(from_id)
                .concat("` (schema ").concat(source_schema).concat(") to `").concat(to_id)
                .concat("` (schema ").concat(target_schema).concat(") is not declared in ")
                .concat(source_schema).concat("'s `cross_mem_relationships:` section"),
            EngineError::RepairNotNeeded { id, recovery } => "repair input refused for ".to_owned()
                .concat(id).concat(": the entity currently passes the conformance check — ")
                .concat(recovery),
            EngineError::RenameNoOp { id, new_title } => "rename would not change the id of ".to_owned()
                .concat(id).concat(" — new title ").concat(&debug_quoted(new_title))
                .concat(" produces the same slug"),
            EngineError::EmptyUpdate { id } => "no mutation content for ".to_owned().concat(id)
                .concat(" — payload carries an id but every mutation map is empty (recognised keys: sections, append_sections, patch_sections, metadata, metadata_unset, declare_relations, relations_unset)"),
            EngineError::RenameBlockedByCrossMemPolicy { from_mem, blocked_referrers } => "rename blocked: cross-mem rewrite from referrer mem(s) into `".to_owned()
                .concat(from_mem).concat("` is not permitted by `[cross_mem_links]` — blocked: ")
                .concat(&format_blocked_referrers(blocked_referrers))
                .concat(" — grant the missing direction or rewrite the blocked referrers manually"),
            EngineError::WikiLinkWithoutRelation { from_id, missing } => "post-mutation body of ".to_owned()
                .concat(from_id).concat(" has ").concat(&decimal_of(missing.len() as u64))
                .concat(" wiki-link(s) without a backing relation (")
                .concat(&format_inline_list_overflow(&link_list(missing), "missing"))
                .concat(") — declare the relation(s) via memstead_relate first (REFERENCES or a more specific rel-type), then retry"),
            EngineError::RelationHasBodyLinks { from_id, to_id, rel_type, body_links } => "cannot remove ".to_owned()
                .concat(rel_type).concat(" ").concat(from_id).concat(" → ").concat(to_id)
                .concat(": source body still contains wiki-link(s) to the target in section(s) ")
                .concat(&format_inline_list_overflow(body_links, "body_links"))
                .concat(" — drop them via memstead_update before removing the relation"),
            EngineError::RenamePartialFailure {
                committed_mems,
                failed_mem,
                failure_cause,
            } => "rename partial-failure: mem `".to_owned().concat(failed_mem)
                .concat("` aborted with cause ").concat(&debug_quoted(failure_cause))
                .concat(" after ").concat(&debug_list_of(committed_mems))
                .concat(" already committed — reload and retry, or reconcile manually"),
            EngineError::StubCannotRelate { id } => "source entity ".to_owned().concat(id)
                .concat(" is a stub — promote it to a real entity via memstead_create first"),
            EngineError::StubNotUpdatable { id } => "entity ".to_owned().concat(id)
                .concat(" is a stub — promote it to a real entity via memstead_create first"),
            EngineError::StubNotRenamable { id } => "entity ".to_owned().concat(id)
                .concat(" is a stub — promote it to a real entity via memstead_create before renaming"),
            EngineError::InvalidEntityId { id, reason } => "entity id '".to_owned().concat(id)
                .concat("' is malformed: ").concat(reason),
            EngineError::InvalidWikiLinkTarget { raw, section, reason, .. } => "body wiki-link target '".to_owned()
                .concat(raw).concat("' in section '").concat(section)
                .concat("' is not slug-form: ").concat(reason),
            EngineError::InvalidWikiLinkMem { raw, section, reason } => "body wiki-link mem prefix '".to_owned()
                .concat(raw).concat("' in section '").concat(section)
                .concat("' is not a valid mem name: ").concat(reason),
            EngineError::ConflictingSectionModes { section, modes } => "conflicting section modes for ".to_owned()
                .concat(section).concat(": ").concat(&debug_list_of(modes)),
            EngineError::RelationshipCycle { rel_type, from, to, .. } => "creating edge ".to_owned()
                .concat(rel_type).concat(" from '").concat(&from.0).concat("' to '").concat(&to.0)
                .concat("' would close a cycle in the ").concat(rel_type).concat(" subgraph"),
            EngineError::SetAndUnsetConflict { keys } => "metadata keys appear in both set and unset: ".to_owned()
                .concat(&debug_list_of(keys)),
            EngineError::RequiredFieldUnset { field, entity_type, on_create, .. } => _required_field_unset_msg(
                field,
                entity_type,
                *on_create,
            ),
            EngineError::MissingRequiredSection { entity_type, missing_count, .. } => "missing ".to_owned()
                .concat(&decimal_of(*missing_count as u64))
                .concat(" required section(s) for type '").concat(entity_type).concat("'"),
            EngineError::PatchSectionEmpty { section } => "patch target section is empty: ".to_owned()
                .concat(section),
            EngineError::PatchOldNotFound { section, .. } => "patch `old` substring not found in ".to_owned()
                .concat(section),
            EngineError::Validation(a) => "schema validation: ".to_owned().concat(&a.message),
            EngineError::ParseAfterWrite(a) => "parse-after-write failed: ".to_owned().concat(a),
            EngineError::Parse(a) => "parse error: ".to_owned().concat(&a.message),
            EngineError::Backend(a) => a.message(),
            EngineError::SchemaNotFound { mem, pin, sources, install_hint } => "mem ".to_owned()
                .concat(mem).concat(": schema pin ").concat(&debug_quoted(pin))
                .concat(" did not resolve in any schema source")
                .concat(&trail_clause_of(mem, pin, sources, install_hint)),
            EngineError::SchemaResolverInit(a) => "built-in schema catalogue failed to load: ".to_owned()
                .concat(a),
            EngineError::Mem(a) => "mem error: ".to_owned().concat(a),
            EngineError::MemNameCollision { name, source_origin } => "mem name collision: ".to_owned()
                .concat(name).concat(" is already registered (").concat(source_origin).concat(")"),
            EngineError::InvalidInput(a) => "invalid input: ".to_owned().concat(a),
            EngineError::UnknownRemote(a) => "unknown remote: ".to_owned().concat(a),
            EngineError::LocalDivergence { mem, remote_ref } => "mem `".to_owned().concat(mem)
                .concat("`'s local branch has diverged from `").concat(remote_ref)
                .concat("` — pull cannot fast-forward without losing local commits; rebase / replay first or run memstead branch-reset"),
            EngineError::NonFastForward { mem, remote } => "push to remote `".to_owned()
                .concat(remote).concat("` for mem `").concat(mem)
                .concat("` is not a fast-forward; rebase / replay locally or pass `force: true` to overwrite the remote"),
            EngineError::LocalInvalidState { mem, remote, detail } => "mem `".to_owned()
                .concat(mem).concat("` failed pre-push schema validation; remote `").concat(remote)
                .concat("` was not contacted: ").concat(detail),
            EngineError::SchemaViolationInFetch { mem, ref_name, violations } => "mem `".to_owned()
                .concat(mem).concat("` would fail schema validation at `").concat(ref_name)
                .concat("` — ").concat(&decimal_of(violations.len() as u64))
                .concat(" violation(s); fix the remote or replay locally first"),
            EngineError::PushedCommitsProtected { pushed_shas, .. } => "branch_reset refused: ".to_owned()
                .concat(&decimal_of(pushed_shas.len() as u64))
                .concat(" pushed commit(s) would be discarded (")
                .concat(&join_list(pushed_shas, ", "))
                .concat("); pick a target that preserves the pushed segment or push the pre-reset state under a different branch first"),
            EngineError::UnknownRef(a) => "unknown ref: ".to_owned().concat(a),
            EngineError::RenameSimilarityOutOfRange {
                requested,
                allowed_min,
                allowed_max,
            } => "rename_similarity ".to_owned().concat(requested)
                .concat(" outside allowed range [").concat(allowed_min).concat(", ")
                .concat(allowed_max).concat("]"),
            EngineError::InvalidChangesCursor { mem, since } => "commit cursor '".to_owned()
                .concat(since).concat("' is not a known commit in mem '").concat(mem)
                .concat("' — pass a commit_sha from a prior mutation, or the empty-tree sentinel to re-seed"),
            EngineError::InvalidTimestampCursor { mem, since } => "cursor '".to_owned()
                .concat(since).concat("' is not an RFC3339 timestamp cursor for mem '").concat(mem)
                .concat("' — a `write_id` is an identity, not a cursor; pass the `head` of a prior report, or an empty cursor to re-seed"),
            EngineError::MemConfigIncomplete { mem, missing_fields } => "mem `".to_owned()
                .concat(mem).concat("` config is missing required field(s) ")
                .concat(&debug_list_of(missing_fields))
                .concat(" — set via `memstead mem set-version ").concat(mem)
                .concat(" <version>` (e.g. 0.1.0)"),
            EngineError::MissingRequiredDescription { rel_type, from_id, to_id } => "rel-type `".to_owned()
                .concat(rel_type).concat("` declares `per_edge_description: required` — ")
                .concat(from_id).concat(" → ").concat(to_id)
                .concat(" needs a description; re-issue with `--description \"<text>\"`."),
            EngineError::DescriptionNotPermitted { rel_type, from_id, to_id } => "rel-type `".to_owned()
                .concat(rel_type).concat("` declares `per_edge_description: forbidden` — ")
                .concat(from_id).concat(" → ").concat(to_id)
                .concat(" cannot carry a description; drop the `--description` argument."),
            EngineError::RelationManualAuthoringForbidden {
                rel_type,
                from_id,
                to_id,
                guidance,
            } => "rel-type `".to_owned().concat(rel_type)
                .concat("` declares `manual_authoring: forbidden` — ").concat(from_id)
                .concat(" → ").concat(to_id)
                .concat(" cannot be authored explicitly; this rel-type is reserved for engine-emitted synthesis via the body-link → relation alias path. ")
                .concat(guidance),
            EngineError::SearchUnavailable => "full-text search is unavailable in this engine build (wasm32); route search queries to the bridge's memstead_search endpoint".to_owned(),
            EngineError::MarkdownExportUnsupportedBackend {
                mem,
                active_backend,
                supported_backends,
            } => "mem `".to_owned().concat(mem).concat("` is on backend `").concat(active_backend)
                .concat("`; `memstead export --format markdown` is supported only on backends [")
                .concat(&join_list(supported_backends, ", "))
                .concat("] — use `--format mem` to produce a portable `.mem` archive instead"),
            EngineError::InvalidCheckFinding { reason } => "invalid check finding: ".to_owned()
                .concat(reason),
            EngineError::CheckNotRecorded { reason } => "check not recorded: ".to_owned()
                .concat(reason),
            EngineError::NotConflicted { id } => "entity ".to_owned().concat(id)
                .concat(" carries no merge-conflict markers"),
            EngineError::MergeConflictUnsupportedBackend { mem } => "mem `".to_owned().concat(mem)
                .concat("` is not folder-backed — merge conflicts are resolved in folder mems only"),
        }
    }

    /// The structured payload of the error.
    pub open spec fn details_value(&self) -> JsonView {
        match *self {
            EngineError::MemQuarantined { mem, reason_code, reason_message } => empty_object()
                .with("mem"@, JsonView::Text(mem@))
                .with("reason_code"@, JsonView::Text(reason_code@))
                .with("reason_message"@, JsonView::Text(reason_message@)),
            EngineError::UnknownType { name, schema_ref, declared, suggestion } => empty_object()
                .with("name"@, JsonView::Text(name@))
                .with("schema_ref"@, JsonView::Text(schema_ref@))
                .with("declared"@, text_list(texts(declared@)))
                .with("suggestion"@, opt_text_value(opt_text(suggestion))),
            EngineError::AlreadyExists { id, existing_title, existing_is_stub } => empty_object()
                .with("id"@, JsonView::Text(id@))
                .with("existing_title"@, JsonView::Text(existing_title@))
                .with("existing_is_stub"@, JsonView::Bool(existing_is_stub)),
            EngineError::NotFound { id } => empty_object().with("id"@, JsonView::Text(id@)),
            EngineError::HashMismatch { id, current, is_stub } => empty_object()
                .with("id"@, JsonView::Text(id@)).with("current"@, JsonView::Text(current@))
                .with("is_stub"@, JsonView::Bool(is_stub)),
            EngineError::HasIncomingRefs { id, referrers } => empty_object()
                .with("id"@, JsonView::Text(id@)).with("referrers"@, referrers_value(referrers@)),
            EngineError::MemHasIncomingRefs { mem, referrers } => empty_object()
                .with("mem"@, JsonView::Text(mem@))
                .with("referrers"@, referrers_value(referrers@)),
            EngineError::CrossMemLinkNotAllowed { from_mem, to_mem } => empty_object()
                .with("from_mem"@, JsonView::Text(from_mem@))
                .with("to_mem"@, JsonView::Text(to_mem@)),
            EngineError::CrossMemTargetNotFound { target_id, target_mem } => empty_object()
                .with("target_id"@, JsonView::Text(target_id@))
                .with("target_mem"@, JsonView::Text(target_mem@)),
            EngineError::RepairNotNeeded { id, recovery } => empty_object()
                .with("id"@, JsonView::Text(id@)).with("recovery"@, JsonView::Text(recovery@)),
            EngineError::EmptyUpdate { id } => empty_object().with("id"@, JsonView::Text(id@))
                .with("recognised_keys"@, text_list(recognised_keys())),
            EngineError::RenameBlockedByCrossMemPolicy { from_mem, blocked_referrers } => empty_object()
                .with("from_mem"@, JsonView::Text(from_mem@))
                .with("blocked_referrers"@, blocked_value(blocked_referrers@)),
            EngineError::WikiLinkWithoutRelation { from_id, missing } => empty_object()
                .with("from_id"@, JsonView::Text(from_id@))
                .with("missing"@, links_value(missing@)),
            EngineError::RelationHasBodyLinks { from_id, to_id, rel_type, body_links } => empty_object()
                .with("from_id"@, JsonView::Text(from_id@)).with("to_id"@, JsonView::Text(to_id@))
                .with("rel_type"@, JsonView::Text(rel_type@))
                .with("body_links"@, text_list(texts(body_links@))),
            EngineError::InvalidEntityId { id, reason } => empty_object()
                .with("id"@, JsonView::Text(id@)).with("reason"@, JsonView::Text(reason@)),
            EngineError::InvalidWikiLinkTarget {
                raw,
                suggested,
                section,
                link_source,
                reason,
            } => empty_object().with("raw"@, JsonView::Text(raw@))
                .with("suggested"@, opt_text_value(opt_text(suggested)))
                .with("proposed_slug"@, opt_text_value(proposed_slug(opt_text(suggested))))
                .with("section"@, JsonView::Text(section@))
                .with("source"@, JsonView::Text(link_source@))
                .with("reason"@, JsonView::Text(reason@)),
            EngineError::InvalidWikiLinkMem { raw, section, reason } => empty_object()
                .with("raw"@, JsonView::Text(raw@)).with("section"@, JsonView::Text(section@))
                .with("reason"@, JsonView::Text(reason@)),
            EngineError::ConflictingSectionModes { section, modes } => empty_object()
                .with("section"@, JsonView::Text(section@))
                .with("modes"@, text_list(texts(modes@))),
            EngineError::RelationshipCycle {
                rel_type,
                from,
                to,
                existing_path,
                path_truncated,
                acyclic_set,
                existing_path_rel_types,
            } => cycle_value(
                rel_type@,
                from.0@,
                to.0@,
                id_texts(existing_path@),
                path_truncated,
                acyclic_set,
                existing_path_rel_types,
            ),
            EngineError::SetAndUnsetConflict { keys } => empty_object()
                .with("keys"@, text_list(texts(keys@))),
            EngineError::RequiredFieldUnset {
                field,
                entity_type,
                field_description,
                enum_values,
                type_write_rules,
                missing,
                ..
            } => empty_object().with("field"@, JsonView::Text(field@))
                .with("entity_type"@, JsonView::Text(entity_type@))
                .with("field_description"@, opt_text_value(opt_text(field_description)))
                .with("enum_values"@, text_list(texts(enum_values@)))
                .with("type_write_rules"@, text_list(texts(type_write_rules@)))
                .with("missing"@, missing_fields_value(missing@, texts(type_write_rules@))),
            EngineError::MissingRequiredSection {
                entity_type,
                missing_count,
                sections,
                type_guidance,
                pre_announced_missing_fields,
            } => sections_details(
                entity_type@,
                missing_count as nat,
                sections@,
                type_guidance@,
                pre_announced_missing_fields@,
            ),
            EngineError::PatchSectionEmpty { section } => empty_object()
                .with("section"@, JsonView::Text(section@)),
            EngineError::PatchOldNotFound { section, current_content, truncated } => empty_object()
                .with("section"@, JsonView::Text(section@))
                .with("current_content"@, JsonView::Text(current_content@))
                .with("truncated"@, JsonView::Bool(truncated)),
            EngineError::Validation(v) => v.details@,
            EngineError::SchemaNotFound { mem, pin, sources, install_hint } => schema_details(
                mem@,
                pin@,
                sources@,
                install_hint,
            ),
            EngineError::RenameSimilarityOutOfRange {
                requested,
                allowed_min,
                allowed_max,
            } => empty_object().with("requested"@, JsonView::Decimal(requested@))
                .with("allowed_range"@, range_value(allowed_min@, allowed_max@)),
            EngineError::InvalidChangesCursor { mem, since } => empty_object()
                .with("mem"@, JsonView::Text(mem@)).with("since"@, JsonView::Text(since@)),
            EngineError::InvalidTimestampCursor { mem, since } => empty_object()
                .with("mem"@, JsonView::Text(mem@)).with("since"@, JsonView::Text(since@)),
            EngineError::MissingRequiredDescription { rel_type, from_id, to_id } => empty_object()
                .with("rel_type"@, JsonView::Text(rel_type@))
                .with("from_id"@, JsonView::Text(from_id@)).with("to_id"@, JsonView::Text(to_id@)),
            EngineError::DescriptionNotPermitted { rel_type, from_id, to_id } => empty_object()
                .with("rel_type"@, JsonView::Text(rel_type@))
                .with("from_id"@, JsonView::Text(from_id@)).with("to_id"@, JsonView::Text(to_id@)),
            EngineError::RelationManualAuthoringForbidden {
                rel_type,
                from_id,
                to_id,
                guidance,
            } => empty_object().with("rel_type"@, JsonView::Text(rel_type@))
                .with("from_id"@, JsonView::Text(from_id@)).with("to_id"@, JsonView::Text(to_id@))
                .with("guidance"@, JsonView::Text(guidance@)),
            EngineError::MarkdownExportUnsupportedBackend {
                mem,
                active_backend,
                supported_backends,
            } => empty_object().with("mem"@, JsonView::Text(mem@))
                .with("active_backend"@, JsonView::Text(active_backend@))
                .with("supported_backends"@, text_list(texts(supported_backends@))),
            EngineError::InvalidCheckFinding { reason } => empty_object()
                .with("reason"@, JsonView::Text(reason@)),
            EngineError::CheckNotRecorded { reason } => empty_object()
                .with("reason"@, JsonView::Text(reason@)),
            EngineError::NotConflicted { id } => empty_object().with("id"@, JsonView::Text(id@)),
            EngineError::MergeConflictUnsupportedBackend { mem } => empty_object()
                .with("mem"@, JsonView::Text(mem@)),
            _ => empty_object(),
        }
    }

    /// The structured payload of the error, empty where the message says it
    /// all.
    pub fn details(&self) -> (r: Json)
        ensures
            r@ == self.details_value(),
    {
        match self {
            EngineError::MemQuarantined { mem, reason_code, reason_message } => Json::object()
                .with("mem", Json::text(mem)).with("reason_code", Json::text(reason_code))
                .with("reason_message", Json::text(reason_message)),
            EngineError::UnknownType { name, schema_ref, declared, suggestion } => Json::object()
                .with("name", Json::text(name)).with("schema_ref", Json::text(schema_ref))
                .with("declared", Json::texts(declared))
                .with("suggestion", Json::opt_text(suggestion)),
            EngineError::AlreadyExists { id, existing_title, existing_is_stub } => Json::object()
                .with("id", Json::text(id)).with("existing_title", Json::text(existing_title))
                .with("existing_is_stub", Json::Bool(*existing_is_stub)),
            EngineError::NotFound { id } => Json::object().with("id", Json::text(id)),
            EngineError::HashMismatch { id, current, is_stub } => Json::object()
                .with("id", Json::text(id)).with("current", Json::text(current))
                .with("is_stub", Json::Bool(*is_stub)),
            EngineError::HasIncomingRefs { id, referrers } => Json::object()
                .with("id", Json::text(id)).with("referrers", referrers_json(referrers)),
            EngineError::MemHasIncomingRefs { mem, referrers } => Json::object()
                .with("mem", Json::text(mem)).with("referrers", referrers_json(referrers)),
            EngineError::CrossMemLinkNotAllowed { from_mem, to_mem } => Json::object()
                .with("from_mem", Json::text(from_mem)).with("to_mem", Json::text(to_mem)),
            EngineError::CrossMemTargetNotFound { target_id, target_mem } => Json::object()
                .with("target_id", Json::text(target_id))
                .with("target_mem", Json::text(target_mem)),
            EngineError::RepairNotNeeded { id, recovery } => Json::object()
                .with("id", Json::text(id)).with("recovery", Json::text(recovery)),
            EngineError::EmptyUpdate { id } => Json::object().with("id", Json::text(id))
                .with("recognised_keys", Json::texts(&recognised_key_list())),
            EngineError::RenameBlockedByCrossMemPolicy { from_mem, blocked_referrers } => Json::object()
                .with("from_mem", Json::text(from_mem))
                .with("blocked_referrers", blocked_json(blocked_referrers)),
            EngineError::WikiLinkWithoutRelation { from_id, missing } => Json::object()
                .with("from_id", Json::text(from_id)).with("missing", links_json(missing)),
            EngineError::RelationHasBodyLinks { from_id, to_id, rel_type, body_links } => Json::object()
                .with("from_id", Json::text(from_id)).with("to_id", Json::text(to_id))
                .with("rel_type", Json::text(rel_type))
                .with("body_links", Json::texts(body_links)),
            EngineError::InvalidEntityId { id, reason } => Json::object()
                .with("id", Json::text(id)).with("reason", Json::text(reason)),
            EngineError::InvalidWikiLinkTarget {
                raw,
                suggested,
                section,
                link_source,
                reason,
            } => Json::object().with("raw", Json::text(raw))
                .with("suggested", Json::opt_text(suggested))
                .with("proposed_slug", Json::opt_text(&proposed_slug_of(suggested)))
                .with("section", Json::text(section)).with("source", Json::text(link_source))
                .with("reason", Json::text(reason)),
            EngineError::InvalidWikiLinkMem { raw, section, reason } => Json::object()
                .with("raw", Json::text(raw)).with("section", Json::text(section))
                .with("reason", Json::text(reason)),
            EngineError::ConflictingSectionModes { section, modes } => Json::object()
                .with("section", Json::text(section)).with("modes", Json::texts(modes)),
            EngineError::RelationshipCycle {
                rel_type,
                from,
                to,
                existing_path,
                path_truncated,
                acyclic_set,
                existing_path_rel_types,
            } => cycle_json(
                rel_type,
                from,
                to,
                existing_path,
                *path_truncated,
                acyclic_set,
                existing_path_rel_types,
            ),
            EngineError::SetAndUnsetConflict { keys } => Json::object()
                .with("keys", Json::texts(keys)),
            EngineError::RequiredFieldUnset {
                field,
                entity_type,
                field_description,
                enum_values,
                type_write_rules,
                missing,
                ..
            } => Json::object().with("field", Json::text(field))
                .with("entity_type", Json::text(entity_type))
                .with("field_description", Json::opt_text(field_description))
                .with("enum_values", Json::texts(enum_values))
                .with("type_write_rules", Json::texts(type_write_rules))
                .with("missing", missing_fields_json(missing, type_write_rules)),
            EngineError::MissingRequiredSection {
                entity_type,
                missing_count,
                sections,
                type_guidance,
                pre_announced_missing_fields,
            } => sections_details_json(
                entity_type,
                *missing_count,
                sections,
                type_guidance,
                pre_announced_missing_fields,
            ),
            EngineError::PatchSectionEmpty { section } => Json::object()
                .with("section", Json::text(section)),
            EngineError::PatchOldNotFound { section, current_content, truncated } => Json::object()
                .with("section", Json::text(section))
                .with("current_content", Json::text(current_content))
                .with("truncated", Json::Bool(*truncated)),
            EngineError::Validation(v) => v.details.copy(),
            EngineError::SchemaNotFound { mem, pin, sources, install_hint } => schema_details_json(
                mem,
                pin,
                sources,
                install_hint,
            ),
            EngineError::RenameSimilarityOutOfRange {
                requested,
                allowed_min,
                allowed_max,
            } => Json::object().with("requested", Json::Decimal(requested.clone()))
                .with("allowed_range", range_json(allowed_min, allowed_max)),
            EngineError::InvalidChangesCursor { mem, since } => Json::object()
                .with("mem", Json::text(mem)).with("since", Json::text(since)),
            EngineError::InvalidTimestampCursor { mem, since } => Json::object()
                .with("mem", Json::text(mem)).with("since", Json::text(since)),
            EngineError::MissingRequiredDescription { rel_type, from_id, to_id } => Json::object()
                .with("rel_type", Json::text(rel_type)).with("from_id", Json::text(from_id))
                .with("to_id", Json::text(to_id)),
            EngineError::DescriptionNotPermitted { rel_type, from_id, to_id } => Json::object()
                .with("rel_type", Json::text(rel_type)).with("from_id", Json::text(from_id))
                .with("to_id", Json::text(to_id)),
            EngineError::RelationManualAuthoringForbidden {
                rel_type,
                from_id,
                to_id,
                guidance,
            } => Json::object().with("rel_type", Json::text(rel_type))
                .with("from_id", Json::text(from_id)).with("to_id", Json::text(to_id))
                .with("guidance", Json::text(guidance)),
            EngineError::MarkdownExportUnsupportedBackend {
                mem,
                active_backend,
                supported_backends,
            } => Json::object().with("mem", Json::text(mem))
                .with("active_backend", Json::text(active_backend))
                .with("supported_backends", Json::texts(supported_backends)),
            EngineError::InvalidCheckFinding { reason } => Json::object()
                .with("reason", Json::text(reason)),
            EngineError::CheckNotRecorded { reason } => Json::object()
                .with("reason", Json::text(reason)),
            EngineError::NotConflicted { id } => Json::object().with("id", Json::text(id)),
            EngineError::MergeConflictUnsupportedBackend { mem } => Json::object()
                .with("mem", Json::text(mem)),
            _ => Json::object(),
        }
    }

    /// The full prose of the error: every list item stands inline.
    pub open spec fn prose(&self) -> Seq<char> {
        match *self {
            EngineError::HasIncomingRefs { id, referrers } => "entity "@ + id@ + " has "@ + decimal(
                referrers@.len(),
            ) + " incoming reference(s) in write mems ("@ + join(
                referrer_texts(referrers@),
                ", "@,
            ) + "); remove them first via memstead_relate --remove or memstead_update"@,
            EngineError::MemHasIncomingRefs { mem, referrers } => "mem `"@ + mem@ + "` has "@
                + decimal(referrers@.len()) + " incoming reference(s) in write mems ("@ + join(
                referrer_texts(referrers@),
                ", "@,
            ) + "); remove them first via memstead_relate --remove or memstead_update"@,
            EngineError::WikiLinkWithoutRelation { from_id, missing } => "post-mutation body of "@
                + from_id@ + " has "@ + decimal(missing@.len())
                + " wiki-link(s) without a backing relation ("@ + join(
                link_texts(missing@),
                ", "@,
            )
                + ") — declare the relation(s) via memstead_relate first (REFERENCES or a more specific rel-type), then retry"@,
            EngineError::RelationHasBodyLinks {
                from_id,
                to_id,
                rel_type,
                body_links,
            } => "cannot remove "@ + rel_type@ + " "@ + from_id@ + " → "@ + to_id@
                + ": source body still contains wiki-link(s) to the target in section(s) "@ + join(
                texts(body_links@),
                ", "@,
            ) + " — drop them via memstead_update before removing the relation"@,
            EngineError::RelationshipCycle {
                rel_type,
                from,
                to,
                existing_path,
                path_truncated,
                ..
            } => "creating edge "@ + rel_type@ + " from '"@ + from.0@ + "' to '"@ + to.0@
                + "' would close a cycle in the "@ + rel_type@ + " subgraph — existing path: "@
                + path_clause(id_texts(existing_path@)) + (if path_truncated {
                " (path truncated)"@
            } else {
                ""@
            }) + "; remove an edge along this path to break the cycle, then retry"@,
            EngineError::RequiredFieldUnset {
                field,
                entity_type,
                field_description,
                enum_values,
                type_write_rules,
                on_create,
                missing,
            } => required_field_prose(
                field@,
                entity_type@,
                opt_text(field_description),
                texts(enum_values@),
                texts(type_write_rules@),
                on_create,
                missing@,
            ),
            EngineError::MissingRequiredSection {
                entity_type,
                missing_count,
                sections,
                type_guidance,
                pre_announced_missing_fields,
            } => sections_prose(
                entity_type@,
                missing_count as nat,
                sections@,
                type_guidance@,
                pre_announced_missing_fields@,
            ),
            EngineError::RenameBlockedByCrossMemPolicy {
                from_mem,
                blocked_referrers,
            } => "rename blocked: cross-mem rewrite from referrer mem(s) into `"@ + from_mem@
                + "` is not permitted by `[cross_mem_links]` — blocked: "@ + join(
                blocked_texts(blocked_referrers@),
                ", "@,
            ) + " — grant the missing direction or rewrite the blocked referrers manually"@,
            EngineError::SchemaViolationInFetch { violations, .. } => self.text() + (
            if violations@.len() == 0 {
                ""@
            } else {
                ": "@ + join(texts(violations@), "; "@)
            }),
            EngineError::Validation(v) => v.prose@,
            _ => self.text(),
        }
    }

    /// The full prose of the error, for a reader who sees no structured
    /// payload: every list item stands inline. Errors whose one line says it
    /// all keep that line.
    pub fn prose_render(&self) -> (r: String)
        ensures
            r@ == self.prose(),
    {
        match self {
            EngineError::HasIncomingRefs { id, referrers } => "entity ".to_owned().concat(
                id,
            ).concat(" has ").concat(&decimal_of(referrers.len() as u64)).concat(
                " incoming reference(s) in write mems (",
            ).concat(&render_referrers_inline(referrers)).concat(
                "); remove them first via memstead_relate --remove or memstead_update",
            ),
            EngineError::MemHasIncomingRefs { mem, referrers } => "mem `".to_owned().concat(
                mem,
            ).concat("` has ").concat(&decimal_of(referrers.len() as u64)).concat(
                " incoming reference(s) in write mems (",
            ).concat(&render_referrers_inline(referrers)).concat(
                "); remove them first via memstead_relate --remove or memstead_update",
            ),
            EngineError::WikiLinkWithoutRelation {
                from_id,
                missing,
            } => "post-mutation body of ".to_owned().concat(from_id).concat(" has ").concat(
                &decimal_of(missing.len() as u64),
            ).concat(" wiki-link(s) without a backing relation (").concat(
                &join_list(&link_list(missing), ", "),
            ).concat(
                ") — declare the relation(s) via memstead_relate first (REFERENCES or a more specific rel-type), then retry",
            ),
            EngineError::RelationHasBodyLinks {
                from_id,
                to_id,
                rel_type,
                body_links,
            } => "cannot remove ".to_owned().concat(rel_type).concat(" ").concat(from_id).concat(
                " → ",
            ).concat(to_id).concat(
                ": source body still contains wiki-link(s) to the target in section(s) ",
            ).concat(&join_list(body_links, ", ")).concat(
                " — drop them via memstead_update before removing the relation",
            ),
            EngineError::RelationshipCycle {
                rel_type,
                from,
                to,
                existing_path,
                path_truncated,
                ..
            } => {
                let path = if existing_path.len() == 0 {
                    own("(unavailable)")
                } else {
                    join_list(&id_list(existing_path), " → ")
                };
                let cut = if *path_truncated {
                    " (path truncated)"
                } else {
                    ""
                };
                "creating edge ".to_owned().concat(rel_type).concat(" from '").concat(
                    &from.0,
                ).concat("' to '").concat(&to.0).concat("' would close a cycle in the ").concat(
                    rel_type,
                ).concat(" subgraph — existing path: ").concat(&path).concat(cut).concat(
                    "; remove an edge along this path to break the cycle, then retry",
                )
            },
            EngineError::RequiredFieldUnset {
                field,
                entity_type,
                field_description,
                enum_values,
                type_write_rules,
                on_create,
                missing,
            } => required_field_prose_of(
                field,
                entity_type,
                field_description,
                enum_values,
                type_write_rules,
                *on_create,
                missing,
            ),
            EngineError::MissingRequiredSection {
                entity_type,
                missing_count,
                sections,
                type_guidance,
                pre_announced_missing_fields,
            } => sections_prose_of(
                entity_type,
                *missing_count,
                sections,
                type_guidance,
                pre_announced_missing_fields,
            ),
            EngineError::RenameBlockedByCrossMemPolicy {
                from_mem,
                blocked_referrers,
            } => "rename blocked: cross-mem rewrite from referrer mem(s) into `".to_owned().concat(
                from_mem,
            ).concat("` is not permitted by `[cross_mem_links]` — blocked: ").concat(
                &join_list(&blocked_list(blocked_referrers), ", "),
            ).concat(
                " — grant the missing direction or rewrite the blocked referrers manually",
            ),
            EngineError::SchemaViolationInFetch { violations, .. } => {
                let listed = if violations.len() == 0 {
                    own("")
                } else {
                    ": ".to_owned().concat(&join_list(violations, "; "))
                };
                self.to_text().concat(&listed)
            },
            EngineError::Validation(v) => v.prose.clone(),
            _ => self.to_text(),
        }
    }

    /// Name the package that would supply a missing schema. `package` is
    /// the authoring folder that holds a loadable package of the pinned name,
    /// where the workspace has one. The hint attaches to a pin that did not
    /// resolve and of whose name no source holds any version; every other
    /// error stays as it is.
    pub fn with_schema_install_probe(self, package: Option<&str>) -> (r: EngineError)
        ensures
            match (self, package) {
                (
                    EngineError::SchemaNotFound { mem, pin, sources, install_hint },
                    Some(p),
                ) if held_version(sources@) is None => r matches EngineError::SchemaNotFound {
                    mem: m2,
                    pin: p2,
                    sources: s2,
                    install_hint: Some(h),
                } && m2 == mem && p2 == pin && s2 == sources && h.package@ == p@ && h.command@
                    == "memstead schema install "@ + p@,
                _ => r == self,
            },
    {
        match self {
            EngineError::SchemaNotFound { mem, pin, sources, install_hint } => {
                match package {
                    Some(p) => {
                        if held_version_of(&sources).is_none() {
                            EngineError::SchemaNotFound {
                                mem,
                                pin,
                                sources,
                                install_hint: Some(
                                    SchemaInstallHint {
                                        package: own(p),
                                        command: "memstead schema install ".to_owned().concat(p),
                                    },
                                ),
                            }
                        } else {
                            EngineError::SchemaNotFound { mem, pin, sources, install_hint }
                        }
                    },
                    None => EngineError::SchemaNotFound { mem, pin, sources, install_hint },
                }
            },
            other => other,
        }
    }
}

/// Errors of booting an engine from a workspace root.
#[derive(Debug)]
pub enum BootError {
    /// The root carries no workspace layout.
    NotInitialised(String),
    /// The workspace store did not load; the message says why.
    Store(String),
    /// The backend of a mount could not be made; the message says why.
    Instantiate(String),
    /// The engine could not be built.
    Engine(EngineError),
}

impl BootError {
    /// What the error says in one line.
    pub open spec fn text(&self) -> Seq<char> {
        match *self {
            BootError::NotInitialised(root) => "workspace at "@ + root@
                + " is not initialised — run `memstead mem-repo init` first"@,
            BootError::Store(m) => m@,
            BootError::Instantiate(m) => m@,
            BootError::Engine(e) => e.text(),
        }
    }

    /// What the error says in one line.
    pub fn to_text(&self) -> (r: String)
        ensures
            r@ == self.text(),
    {
        match self {
            BootError::NotInitialised(root) => "workspace at ".to_owned().concat(root).concat(
                " is not initialised — run `memstead mem-repo init` first",
            ),
            BootError::Store(m) => m.clone(),
            BootError::Instantiate(m) => m.clone(),
            BootError::Engine(e) => e.to_text(),
        }
    }
}

// ---------------------------------------------------------------------
// Laws
// ---------------------------------------------------------------------

/// A list of few items stands in a message whole; of a longer one the message
/// begins with the first items and names the rest by number.
pub proof fn law_inline_list(items: Seq<Seq<char>>, field: Seq<char>)
    ensures
        items.len() <= INLINE_LIST_CAP ==> inline_list(items, field) == join(items, ", "@),
        items.len() > INLINE_LIST_CAP ==> inline_list(items, field) == join(
            items.take(INLINE_LIST_CAP as int),
            ", "@,
        ) + (" +"@ + decimal((items.len() - INLINE_LIST_CAP) as nat) + " more — see details."@
            + field),
        items.len() == 0 ==> inline_list(items, field).len() == 0,
{
    if items.len() > INLINE_LIST_CAP {
        assert(inline_list(items, field) =~= join(items.take(INLINE_LIST_CAP as int), ", "@) + (
        " +"@ + decimal((items.len() - INLINE_LIST_CAP) as nat) + " more — see details."@
            + field));
    }
}

/// Where every list of an error is short, its one line already says all that
/// its prose says.
pub proof fn law_short_lists_need_no_prose(e: EngineError)
    requires
        match e {
            EngineError::HasIncomingRefs { referrers, .. } => referrers@.len() <= INLINE_LIST_CAP,
            EngineError::MemHasIncomingRefs { referrers, .. } => referrers@.len()
                <= INLINE_LIST_CAP,
            EngineError::WikiLinkWithoutRelation { missing, .. } => missing@.len()
                <= INLINE_LIST_CAP,
            EngineError::RelationHasBodyLinks { body_links, .. } => body_links@.len()
                <= INLINE_LIST_CAP,
            EngineError::RenameBlockedByCrossMemPolicy { blocked_referrers, .. } =>
                blocked_referrers@.len() <= INLINE_LIST_CAP,
            EngineError::SchemaViolationInFetch { violations, .. } => violations@.len() == 0,
            EngineError::RelationshipCycle { .. } => false,
            EngineError::RequiredFieldUnset { .. } => false,
            EngineError::MissingRequiredSection { .. } => false,
            EngineError::Validation(_) => false,
            _ => true,
        },
    ensures
        e.prose() == e.text(),
{
    reveal_strlit("");
    assert(e.text() + ""@ =~= e.text());
}

/// The structured payload of every error is an object; one that a validator
/// wrote is taken as it is.
pub proof fn law_details_are_an_object(e: EngineError)
    requires
        !(e is Validation),
    ensures
        e.details_value() is Object,
{
}

} // verus!
