//! Making an engine from mounts: which schema each mem is held to, which mems
//! serve, which wait and which are held back with a reason.

use crate::backend::{
    config_reply, counts_as_present, head_reply, present_reply, reads_reply, sealed_reply,
    text_of_bytes, utf8_error, BackendError, MemBackend, Storage,
};
use crate::engine::{mems_apart, schema_of, Engine, MountedBackend, QuarantinedMem, RouterEntry};
use crate::entity::{entity_of, lemma_entity_index, with_entity, Entity, Store};
use crate::error::{
    held_version, is_failed_pin, versions_named, BootError, EngineError, SchemaSourceDiagnostic,
};
use crate::host::{
    builtin_reply, embedded_reply, parse_reply, relations_reply, version_reply, Host, LoadResult,
    Surroundings,
};
use crate::ops::{MountUnbackedReason, SkewDirection, SourceEntry, SourceReadError, WarningHint};
use crate::schema::{Schema, SchemaRef};
use crate::sort::views;
use crate::text::{
    begins, chars_of, lines, lines_of, opt_text, own, own_list, same, slice_of, starts,
    strip_prefix, texts, trim, trimmed,
};
use crate::version::{newest, older, semver_precedence, version_order, version_precedence, Order};
use crate::workspace::{MemConfig, Mount, MountCapability, MountLifecycle, MountStorage};
use std::sync::Arc;
use vstd::prelude::*;
use vstd::utf8::{decode_utf8, valid_utf8};

verus! {

// ---------------------------------------------------------------------
// Reading a mem
// ---------------------------------------------------------------------

/// The entity files among what a backend read: those whose bytes are text.
pub open spec fn read_entries(reads: Seq<(String, Result<Vec<u8>, String>)>) -> Seq<
    (Seq<char>, Seq<char>),
>
    decreases reads.len(),
{
    if reads.len() == 0 {
        Seq::empty()
    } else {
        let rest = read_entries(reads.drop_last());
        match reads.last().1 {
            Ok(bytes) => if valid_utf8(bytes@) {
                rest.push((reads.last().0@, decode_utf8(bytes@)))
            } else {
                rest
            },
            Err(_) => rest,
        }
    }
}

/// The files that could not be read, or whose bytes are no text.
pub open spec fn read_failures(reads: Seq<(String, Result<Vec<u8>, String>)>) -> Seq<
    (Seq<char>, Seq<char>),
>
    decreases reads.len(),
{
    if reads.len() == 0 {
        Seq::empty()
    } else {
        let rest = read_failures(reads.drop_last());
        match reads.last().1 {
            Ok(bytes) => if valid_utf8(bytes@) {
                rest
            } else {
                rest.push((reads.last().0@, utf8_error(bytes@)))
            },
            Err(e) => rest.push((reads.last().0@, e@)),
        }
    }
}

/// Part what a backend read into entity files and failures.
pub fn sort_reads(reads: Vec<(String, Result<Vec<u8>, String>)>) -> (r: (
    Vec<SourceEntry>,
    Vec<SourceReadError>,
))
    ensures
        views(r.0@) == read_entries(reads@),
        views(r.1@) == read_failures(reads@),
{
    let ghost all = reads@;
    let mut rest = reads;
    let ghost mut done: Seq<(String, Result<Vec<u8>, String>)> = Seq::empty();
    let mut entries: Vec<SourceEntry> = Vec::new();
    let mut errors: Vec<SourceReadError> = Vec::new();
    assert(views(entries@) =~= read_entries(done));
    assert(views(errors@) =~= read_failures(done));
    assert(done + rest@ =~= all);
    while rest.len() > 0
        invariant
            done + rest@ == all,
            views(entries@) == read_entries(done),
            views(errors@) == read_failures(done),
        decreases rest@.len(),
    {
        let ghost left = rest@;
        let item = rest.remove(0);
        let ghost next = done.push(item);
        proof {
            assert(next.drop_last() =~= done);
            assert(next + rest@ =~= all);
        }
        let ghost read_before = views(entries@);
        let ghost failed_before = views(errors@);
        let (path, read) = item;
        match read {
            Ok(bytes) => {
                let ghost raw = bytes@;
                match text_of_bytes(bytes) {
                    Ok(content) => {
                        proof {
                            vstd::utf8::encode_utf8_decode_utf8(content@);
                        }
                        let entry = SourceEntry { relative_path: path, content };
                        entries.push(entry);
                        assert(views(entries@) =~= read_before.push(entry@));
                    },
                    Err(error) => {
                        let failure = SourceReadError { path, error };
                        errors.push(failure);
                        assert(views(errors@) =~= failed_before.push(failure@));
                    },
                }
            },
            Err(error) => {
                let failure = SourceReadError { path, error };
                errors.push(failure);
                assert(views(errors@) =~= failed_before.push(failure@));
            },
        }
        proof {
            done = next;
        }
    }
    assert(done =~= all);
    (entries, errors)
}

/// Whether `r` is what reading a mem gives, for what the backend answered.
pub open spec fn reads_as(
    reply: Result<Vec<(String, Result<Vec<u8>, String>)>, BackendError>,
    r: Result<(Vec<SourceEntry>, Vec<SourceReadError>), EngineError>,
) -> bool {
    match reply {
        Ok(reads) => r matches Ok(pair) && views(pair.0@) == read_entries(reads@) && views(
            pair.1@,
        ) == read_failures(reads@),
        Err(e) => r matches Err(EngineError::Backend(b)) && b == e,
    }
}

/// Read every entity file of a mem, in one pass of its backend.
pub fn collect_source_entries<B: MemBackend>(backend: &Storage<B>) -> (r: Result<
    (Vec<SourceEntry>, Vec<SourceReadError>),
    EngineError,
>)
    ensures
        exists|reply: Result<Vec<(String, Result<Vec<u8>, String>)>, BackendError>| #[trigger]
            reads_reply(backend, reply) && reads_as(reply, r),
{
    let reply = backend.read_all_entities();
    assert(reads_reply(backend, reply));
    match reply {
        Ok(reads) => Ok(sort_reads(reads)),
        Err(e) => Err(EngineError::Backend(e)),
    }
}

/// Where the storage of a mount lies, as messages name it.
pub open spec fn location_of(storage: MountStorage) -> Seq<char> {
    match storage {
        MountStorage::GitBranch { gitdir, branch } => branch@,
        MountStorage::Folder { path } => path@,
        MountStorage::Archive { path } => path@,
        MountStorage::InMemory => Seq::empty(),
    }
}

/// Where the storage of a mount lies, as messages name it.
fn location(storage: &MountStorage) -> (r: String)
    ensures
        r@ == location_of(*storage),
{
    match storage {
        MountStorage::GitBranch { branch, .. } => branch.clone(),
        MountStorage::Folder { path } => path.clone(),
        MountStorage::Archive { path } => path.clone(),
        MountStorage::InMemory => String::new(),
    }
}

/// Whether `w` is the warning for a mount that has nothing behind it: its
/// storage is missing, or holds no entity where their number is known. A mem
/// that lives in memory is never without storage.
pub open spec fn unbacked_hint(
    mount: Mount,
    present: bool,
    count: Option<nat>,
    w: Option<WarningHint>,
) -> bool {
    if mount.storage is InMemory {
        w is None
    } else if !present {
        w matches Some(WarningHint::MountUnbacked { mem, reason, location }) && mem == mount.mem
            && location@ == location_of(mount.storage) && reason == (
        if mount.storage is GitBranch {
            MountUnbackedReason::MissingRef
        } else {
            MountUnbackedReason::MissingPath
        })
    } else if count == Some(0nat) {
        w matches Some(WarningHint::MountUnbacked { mem, reason, location }) && mem == mount.mem
            && location@ == location_of(mount.storage) && reason == MountUnbackedReason::Empty
    } else {
        w is None
    }
}

/// The warning for a mount that has nothing behind it, given whether its
/// storage exists and how many entities it holds, where that is known.
pub fn unbacked_warning(mount: &Mount, present: bool, entity_count: Option<usize>) -> (r: Option<
    WarningHint,
>)
    ensures
        unbacked_hint(
            *mount,
            present,
            match entity_count {
                Some(n) => Some(n as nat),
                None => None,
            },
            r,
        ),
{
    let missing = match &mount.storage {
        MountStorage::GitBranch { .. } => MountUnbackedReason::MissingRef,
        MountStorage::Folder { .. } => MountUnbackedReason::MissingPath,
        MountStorage::Archive { .. } => MountUnbackedReason::MissingPath,
        MountStorage::InMemory => {
            return None;
        },
    };
    if !present {
        return Some(
            WarningHint::MountUnbacked {
                mem: mount.mem.clone(),
                reason: missing,
                location: location(&mount.storage),
            },
        );
    }
    match entity_count {
        Some(n) if n == 0 => Some(
            WarningHint::MountUnbacked {
                mem: mount.mem.clone(),
                reason: MountUnbackedReason::Empty,
                location: location(&mount.storage),
            },
        ),
        _ => None,
    }
}

/// Whether `w` is the warning of probing a mount's storage.
pub open spec fn probed_hint<B: MemBackend>(
    mount: Mount,
    backend: &Storage<B>,
    count: Option<nat>,
    w: Option<WarningHint>,
) -> bool {
    exists|reply: Result<bool, BackendError>| #[trigger]
        present_reply(backend, reply) && unbacked_hint(
            mount,
            counts_as_present(reply),
            count,
            w,
        )
}

/// Whether the storage of a mem exists; a failed probe reads as present.
fn storage_there<B: MemBackend>(backend: &Storage<B>) -> (r: bool)
    ensures
        exists|reply: Result<bool, BackendError>| #[trigger]
            present_reply(backend, reply) && r == counts_as_present(reply),
{
    let reply = backend.storage_present();
    assert(present_reply(backend, reply));
    match reply {
        Ok(p) => p,
        Err(_) => true,
    }
}

/// Probe the storage of one mount: the warning where nothing stands behind
/// it. A probe that fails reads as present. A mount whose entities are not
/// read yet passes no count, and its storage alone is judged.
pub fn unbacked_mount_warning<B: MemBackend>(
    mount: &Mount,
    backend: &Storage<B>,
    entity_count: Option<usize>,
) -> (r: Option<WarningHint>)
    ensures
        probed_hint(
            *mount,
            backend,
            match entity_count {
                Some(n) => Some(n as nat),
                None => None,
            },
            r,
        ),
{
    let present = storage_there(backend);
    unbacked_warning(mount, present, entity_count)
}

// ---------------------------------------------------------------------
// Schemas
// ---------------------------------------------------------------------

/// Where the schema that a pin names first stands, from `i` on.
pub open spec fn pin_index(catalogue: Seq<Arc<Schema>>, pin: SchemaRef, i: int) -> Option<int>
    decreases catalogue.len() - i,
{
    if i < 0 || i >= catalogue.len() {
        None
    } else if catalogue[i].answers(&pin) {
        Some(i)
    } else {
        pin_index(catalogue, pin, i + 1)
    }
}

/// The schema that a pin names: the first of the catalogue.
pub open spec fn pinned(catalogue: Seq<Arc<Schema>>, pin: SchemaRef) -> Option<Arc<Schema>> {
    match pin_index(catalogue, pin, 0) {
        Some(i) => Some(catalogue[i]),
        None => None,
    }
}

/// What is found is the first schema that answers to the pin.
pub proof fn lemma_pin_index(catalogue: Seq<Arc<Schema>>, pin: SchemaRef, i: int)
    requires
        0 <= i <= catalogue.len(),
    ensures
        pin_index(catalogue, pin, i) matches Some(k) ==> i <= k < catalogue.len()
            && catalogue[k].answers(&pin) && (forall|j: int|
            i <= j < k ==> !(#[trigger] catalogue[j]).answers(&pin)),
        pin_index(catalogue, pin, i) is None ==> forall|j: int|
            i <= j < catalogue.len() ==> !(#[trigger] catalogue[j]).answers(&pin),
    decreases catalogue.len() - i,
{
    if i < catalogue.len() && !catalogue[i].answers(&pin) {
        lemma_pin_index(catalogue, pin, i + 1);
    }
}

/// A schema of the workspace wins over a built-in one of the same name and
/// version.
pub proof fn law_local_schema_wins(
    local: Seq<Arc<Schema>>,
    builtins: Seq<Arc<Schema>>,
    pin: SchemaRef,
    at: int,
)
    requires
        0 <= at < local.len(),
        local[at].answers(&pin),
    ensures
        pin_index(local + builtins, pin, 0) matches Some(k) && 0 <= k <= at && pinned(
            local + builtins,
            pin,
        ) == Some(local[k]),
{
    let all = local + builtins;
    lemma_pin_index(all, pin, 0);
    assert(all[at] == local[at]);
    match pin_index(all, pin, 0) {
        Some(k) => {
            if k > at {
                assert(!all[at].answers(&pin));
            }
            assert(all[k] == local[k]);
        },
        None => {},
    }
}

/// The schema that a pin names: the first of the catalogue.
pub fn resolve_builtin_schema_pin(pin: &SchemaRef, catalogue: &Vec<Arc<Schema>>) -> (r: Option<
    Arc<Schema>,
>)
    ensures
        r == pinned(catalogue@, *pin),
{
    let mut i: usize = 0;
    while i < catalogue.len()
        invariant
            i <= catalogue@.len(),
            pin_index(catalogue@, *pin, 0) == pin_index(catalogue@, *pin, i as int),
        decreases catalogue@.len() - i,
    {
        if catalogue[i].is_pinned_by(pin) {
            return Some(catalogue[i].clone());
        }
        i = i + 1;
    }
    None
}

/// The schema that a pin names in the built-in catalogue.
pub fn resolve_builtin_schema_pin_pub(pin: &SchemaRef, catalogue: &Vec<Arc<Schema>>) -> (r: Option<
    Arc<Schema>,
>)
    ensures
        r == pinned(catalogue@, *pin),
{
    resolve_builtin_schema_pin(pin, catalogue)
}

/// Whether no other version of a list is newer than `v`.
pub open spec fn none_newer(versions: Seq<Seq<char>>, v: Seq<char>) -> bool {
    forall|k: int|
        0 <= k < versions.len() && #[trigger] versions[k] != v ==> !older(v, versions[k])
}

/// The newest version that the built-in catalogue holds of a name, by the
/// order of versions and never by that of texts. No other version of the name
/// is newer.
pub fn newest_builtin_version(name: &str, builtins: &Vec<Arc<Schema>>) -> (r: Option<String>)
    ensures
        opt_text(r) == newest(versions_named(builtins@, name@)),
        r matches Some(b) ==> none_newer(versions_named(builtins@, name@), b@),
{
    let mut best: Option<String> = None;
    assert(versions_named(builtins@.take(0), name@) =~= Seq::empty());
    for i in 0..builtins.len()
        invariant
            opt_text(best) == newest(versions_named(builtins@.take(i as int), name@)),
            best is None ==> versions_named(builtins@.take(i as int), name@).len() == 0,
            best matches Some(b) ==> none_newer(
                versions_named(builtins@.take(i as int), name@),
                b@,
            ),
    {
        let ghost head = versions_named(builtins@.take(i as int), name@);
        assert(builtins@.take(i + 1).drop_last() =~= builtins@.take(i as int));
        let s = &builtins[i];
        if same(&s.name, name) {
            assert(head.push(s.version@).drop_last() =~= head);
            let better = match &best {
                None => true,
                Some(b) => match version_order(b, &s.version) {
                    Some(Order::Before) => true,
                    _ => false,
                },
            };
            if better {
                proof {
                    assert forall|k: int|
                        0 <= k < head.len() && #[trigger] head[k] != s.version@ implies !older(
                        s.version@,
                        head[k],
                    ) by {
                        if let Some(b) = best {
                            if head[k] != b@ {
                                assert(!older(b@, head[k]));
                            }
                        }
                    }
                }
                best = Some(s.version.clone());
            }
        }
    }
    assert(builtins@.take(builtins@.len() as int) =~= builtins@);
    best
}

/// The resolver of schema pins: local storage first, then the built-in
/// catalogue; a remote is reserved. Where nothing answers, it says what each
/// source held.
pub struct SchemaResolver<'a> {
    pub catalogue: &'a Vec<Arc<Schema>>,
}

impl<'a> SchemaResolver<'a> {
    /// A resolver over a catalogue in which local schemas stand before the
    /// built-in ones.
    pub fn new(catalogue: &'a Vec<Arc<Schema>>) -> (r: SchemaResolver<'a>)
        ensures
            r.catalogue@ == catalogue@,
    {
        SchemaResolver { catalogue }
    }

    /// The schema that a pin names, or what each source held.
    pub fn resolve(&self, pin: &SchemaRef, builtins: &Vec<Arc<Schema>>) -> (r: Result<
        Arc<Schema>,
        Vec<SchemaSourceDiagnostic>,
    >)
        ensures
            match r {
                Ok(s) => pinned(self.catalogue@, *pin) == Some(s),
                Err(ds) => pinned(self.catalogue@, *pin) is None && is_failed_pin(
                    ds@,
                    pin.name@,
                    pin.version@,
                    self.catalogue@,
                    builtins@,
                ),
            },
    {
        match resolve_builtin_schema_pin(pin, self.catalogue) {
            Some(s) => Ok(s),
            None => Err(
                SchemaSourceDiagnostic::for_failed_pin(
                    &pin.name,
                    &pin.version,
                    self.catalogue,
                    builtins,
                ),
            ),
        }
    }
}

/// A schema package of the workspace that did not load. A mem that pins it is
/// held back with this failure as its reason.
#[derive(Debug, Clone)]
pub struct FailedSchemaPackage {
    pub path: String,
    /// The name that the package's header gives, where it gives one.
    pub name: Option<String>,
    /// The version that the package's header gives, where it gives one.
    pub version: Option<String>,
    pub error: String,
}

/// An entry of a schemas directory as it was read.
#[derive(Debug)]
pub struct SchemaEntry {
    pub path: String,
    pub is_dir: bool,
    pub has_manifest: bool,
    /// The schema that the package loads as, or why it does not.
    pub loaded: Result<Arc<Schema>, String>,
    /// The manifest's text.
    pub header: String,
}

/// `s` without the quotes at its start.
pub open spec fn unquoted_start(s: Seq<char>) -> Seq<char>
    decreases s.len(),
{
    if s.len() > 0 && s[0] == '"' {
        unquoted_start(s.drop_first())
    } else {
        s
    }
}

/// `s` without the quotes at its end.
pub open spec fn unquoted_end(s: Seq<char>) -> Seq<char>
    decreases s.len(),
{
    if s.len() > 0 && s.last() == '"' {
        unquoted_end(s.drop_last())
    } else {
        s
    }
}

/// `s` without the quotes at its two ends.
pub open spec fn unquoted(s: Seq<char>) -> Seq<char> {
    unquoted_end(unquoted_start(s))
}

/// `s` without the quotes at its two ends.
fn unquoted_of(s: &str) -> (r: String)
    ensures
        r@ == unquoted(s@),
{
    let x = chars_of(s);
    let mut from: usize = 0;
    assert(x@.skip(0) =~= s@);
    while from < x.len() && x[from] == '"'
        invariant
            from <= x@.len(),
            unquoted_start(s@) == unquoted_start(x@.skip(from as int)),
        decreases x@.len() - from,
    {
        assert(x@.skip(from as int).drop_first() =~= x@.skip(from + 1));
        from = from + 1;
    }
    let mut to: usize = x.len();
    let ghost front = x@.skip(from as int);
    assert(unquoted_start(s@) == front);
    assert(x@.subrange(from as int, to as int) =~= front);
    while to > from && x[to - 1] == '"'
        invariant
            from <= to <= x@.len(),
            unquoted_end(front) == unquoted_end(x@.subrange(from as int, to as int)),
        decreases to,
    {
        assert(x@.subrange(from as int, to as int).drop_last() =~= x@.subrange(
            from as int,
            to - 1,
        ));
        to = to - 1;
    }
    slice_of(&x, from, to)
}

/// The first line from `i` on that starts with `prefix`, without it.
pub open spec fn line_after(ls: Seq<Seq<char>>, prefix: Seq<char>, i: int) -> Option<Seq<char>>
    decreases ls.len() - i,
{
    if i < 0 || i >= ls.len() {
        None
    } else if starts(ls[i], prefix) {
        Some(ls[i].skip(prefix.len() as int))
    } else {
        line_after(ls, prefix, i + 1)
    }
}

/// The value that a manifest gives a key on a line of its own, where it is
/// not empty.
pub open spec fn header_value(header: Seq<char>, key: Seq<char>) -> Option<Seq<char>> {
    match line_after(lines(header), key + ":"@, 0) {
        Some(v) => if unquoted(trim(v)).len() > 0 {
            Some(unquoted(trim(v)))
        } else {
            None
        },
        None => None,
    }
}

/// The value that a manifest gives a key on a line of its own.
pub fn peek_header(header: &str, key: &str) -> (r: Option<String>)
    ensures
        opt_text(r) == header_value(header@, key@),
{
    let prefix = own(key).concat(":");
    let ls = lines_of(header);
    let ghost lv = texts(ls@);
    let mut i: usize = 0;
    while i < ls.len()
        invariant
            i <= ls@.len(),
            lv == texts(ls@),
            lv == lines(header@),
            prefix@ == key@ + ":"@,
            line_after(lv, prefix@, 0) == line_after(lv, prefix@, i as int),
        decreases ls@.len() - i,
    {
        assert(lv[i as int] == ls@[i as int]@);
        if let Some(v) = strip_prefix(&ls[i], &prefix) {
            let value = unquoted_of(&trimmed(&v));
            if chars_of(&value).len() > 0 {
                return Some(value);
            }
            return None;
        }
        i = i + 1;
    }
    None
}

/// The schemas that the entries of a directory load as.
pub open spec fn loaded_schemas(entries: Seq<SchemaEntry>) -> Seq<Arc<Schema>>
    decreases entries.len(),
{
    if entries.len() == 0 {
        Seq::empty()
    } else {
        let rest = loaded_schemas(entries.drop_last());
        let e = entries.last();
        match e.loaded {
            Ok(s) if e.is_dir && e.has_manifest => rest.push(s),
            _ => rest,
        }
    }
}

/// The packages among the entries of a directory that did not load.
pub open spec fn failed_entries(entries: Seq<SchemaEntry>) -> Seq<SchemaEntry>
    decreases entries.len(),
{
    if entries.len() == 0 {
        Seq::empty()
    } else {
        let rest = failed_entries(entries.drop_last());
        let e = entries.last();
        if e.is_dir && e.has_manifest && e.loaded is Err {
            rest.push(e)
        } else {
            rest
        }
    }
}

/// Whether a failure record is that of an entry.
pub open spec fn is_failure_of(f: FailedSchemaPackage, e: SchemaEntry) -> bool {
    &&& f.path == e.path
    &&& opt_text(f.name) == header_value(e.header@, "name"@)
    &&& opt_text(f.version) == header_value(e.header@, "version"@)
    &&& e.loaded matches Err(m) && f.error == m
}

/// Sort the entries of a schemas directory: the schemas that loaded and the
/// packages that did not. An entry that is no directory or carries no
/// manifest is skipped; a broken package stops nothing. Without a directory
/// there is neither.
pub fn load_workspace_schemas_with_failures(entries: Option<&Vec<SchemaEntry>>) -> (r: (
    Vec<Arc<Schema>>,
    Vec<FailedSchemaPackage>,
))
    ensures
        match entries {
            Some(es) => r.0@ == loaded_schemas(es@) && r.1@.len() == failed_entries(es@).len()
                && (forall|i: int|
                0 <= i < r.1@.len() ==> is_failure_of(
                    #[trigger] r.1@[i],
                    failed_entries(es@)[i],
                )),
            None => r.0@.len() == 0 && r.1@.len() == 0,
        },
{
    let es = match entries {
        Some(es) => es,
        None => {
            return (Vec::new(), Vec::new());
        },
    };
    let mut schemas: Vec<Arc<Schema>> = Vec::new();
    let mut failures: Vec<FailedSchemaPackage> = Vec::new();
    assert(schemas@ =~= loaded_schemas(es@.take(0)));
    assert(failed_entries(es@.take(0)).len() == 0);
    for i in 0..es.len()
        invariant
            schemas@ == loaded_schemas(es@.take(i as int)),
            failures@.len() == failed_entries(es@.take(i as int)).len(),
            forall|k: int|
                0 <= k < failures@.len() ==> is_failure_of(
                    #[trigger] failures@[k],
                    failed_entries(es@.take(i as int))[k],
                ),
    {
        assert(es@.take(i + 1).drop_last() =~= es@.take(i as int));
        let e = &es[i];
        if e.is_dir && e.has_manifest {
            match &e.loaded {
                Ok(s) => {
                    schemas.push(s.clone());
                },
                Err(m) => {
                    failures.push(
                        FailedSchemaPackage {
                            path: e.path.clone(),
                            name: peek_header(&e.header, "name"),
                            version: peek_header(&e.header, "version"),
                            error: m.clone(),
                        },
                    );
                },
            }
        }
    }
    assert(es@.take(es@.len() as int) =~= es@);
    (schemas, failures)
}

/// The schemas that the entries of a directory load as; broken packages are
/// left out.
pub fn load_workspace_schemas(entries: Option<&Vec<SchemaEntry>>) -> (r: Result<
    Vec<Arc<Schema>>,
    EngineError,
>)
    ensures
        r matches Ok(v) && v@ == (match entries {
            Some(es) => loaded_schemas(es@),
            None => Seq::empty(),
        }),
{
    let (schemas, _) = load_workspace_schemas_with_failures(entries);
    Ok(schemas)
}

// ---------------------------------------------------------------------
// Admitting a mount
// ---------------------------------------------------------------------

/// What mounts are loaded against: the schemas that pins resolve to, by where
/// they come from, and the roster.
#[derive(Debug)]
pub struct Tiers {
    /// Schemas of the workspace.
    pub workspace: Vec<Arc<Schema>>,
    /// Schemas that are built in.
    pub builtins: Vec<Arc<Schema>>,
    /// Packages of the workspace that did not load.
    pub failed: Vec<FailedSchemaPackage>,
    /// The version of the running engine.
    pub running: String,
    /// The names of all mems that are mounted.
    pub mem_names: Vec<String>,
}

/// The pin that a mem's own config carries.
pub open spec fn config_pin(config: Option<MemConfig>) -> Option<SchemaRef> {
    match config {
        Some(c) => c.schema,
        None => None,
    }
}

/// The pin that a mem is held to: the target of a migration under way, else
/// the pin of its own config, else what the mount expects.
pub open spec fn effective_pin(mount: Mount, config: Option<MemConfig>) -> Option<SchemaRef> {
    match mount.migration_target {
        Some(t) => Some(t),
        None => match config_pin(config) {
            Some(p) => Some(p),
            None => mount.schema,
        },
    }
}

/// Whether `w` is the warning for a mount that expects another pin than the
/// one in the mem's config.
pub open spec fn mismatch_hint(
    mount: Mount,
    config: Option<MemConfig>,
    w: Option<WarningHint>,
) -> bool {
    match (config_pin(config), mount.schema) {
        (Some(c), Some(m)) => if c.names(&m) {
            w is None
        } else {
            w matches Some(WarningHint::SchemaPinMismatch { mem, config_pin, mount_pin }) && mem
                == mount.mem && config_pin@ == c.display() && mount_pin@ == m.display()
        },
        _ => w is None,
    }
}

/// The direction in which a stamped engine version differs from the running
/// one. Build metadata makes no difference, and a text that is no version
/// differs from nothing.
pub open spec fn skew_of(stamped: Seq<char>, running: Seq<char>) -> Option<SkewDirection> {
    match semver_precedence(stamped, running) {
        Some(Order::Before) => Some(SkewDirection::StampOlder),
        Some(Order::After) => Some(SkewDirection::StampNewer),
        _ => None,
    }
}

/// The direction that the precedence of a stamped version to the running one
/// tells of.
pub fn direction_of(precedence: Option<Order>) -> (r: Option<SkewDirection>)
    ensures
        r == (match precedence {
            Some(Order::Before) => Some(SkewDirection::StampOlder),
            Some(Order::After) => Some(SkewDirection::StampNewer),
            _ => None,
        }),
{
    match precedence {
        Some(Order::Before) => Some(SkewDirection::StampOlder),
        Some(Order::After) => Some(SkewDirection::StampNewer),
        _ => None,
    }
}

/// The direction in which a stamped engine version differs from the running
/// one.
pub fn skew_direction(stamped: &str, running: &str) -> (r: Option<SkewDirection>)
    ensures
        r == skew_of(stamped@, running@),
{
    direction_of(version_precedence(stamped, running))
}

/// Whether `w` is the warning for a mem that another engine version wrote
/// last. A mem without a stamp is silent.
pub open spec fn skew_hint(
    mount: Mount,
    config: Option<MemConfig>,
    running: Seq<char>,
    w: Option<WarningHint>,
) -> bool {
    match config {
        Some(c) => match c.mutation_stamp {
            Some(stamp) => match skew_of(stamp.engine_version@, running) {
                Some(d) => w matches Some(
                    WarningHint::EngineVersionSkew {
                        mem,
                        stamped_engine,
                        running_engine,
                        stamped_schema,
                        direction,
                    },
                ) && mem == mount.mem && stamped_engine == stamp.engine_version
                    && running_engine@ == running && stamped_schema == stamp.schema && direction
                    == d,
                None => w is None,
            },
            None => w is None,
        },
        None => w is None,
    }
}

/// Whether a schema of the list answers to the pin.
pub open spec fn held(schemas: Seq<Arc<Schema>>, pin: SchemaRef) -> bool {
    pinned(schemas, pin) is Some
}

/// Whether `w` is the warning for a pin on a built-in schema of which a newer
/// version is built in. A pin that the workspace itself answers is silent.
pub open spec fn behind_hint(
    mount: Mount,
    pin: SchemaRef,
    workspace: Seq<Arc<Schema>>,
    builtins: Seq<Arc<Schema>>,
    w: Option<WarningHint>,
) -> bool {
    match newest(versions_named(builtins, pin.name@)) {
        Some(v) => if !held(workspace, pin) && held(builtins, pin) && older(pin.version@, v) {
            w matches Some(WarningHint::SchemaGenerationsBehind { mem, pinned, newest }) && mem
                == mount.mem && pinned@ == pin.display() && newest@ == v
        } else {
            w is None
        },
        None => w is None,
    }
}

/// Whether `w` is the warning for a schema whose headings do not lead back to
/// their keys.
pub open spec fn headings_hint(mount: Mount, schema: Arc<Schema>, w: Option<WarningHint>) -> bool {
    if schema.heading_violations@.len() > 0 {
        w matches Some(
            WarningHint::SchemaHeadingRoundtripViolation { mem, schema_ref, violations },
        ) && mem == mount.mem && schema_ref@ == schema.display() && violations@
            == schema.heading_violations@
    } else {
        w is None
    }
}

/// Whether a failed package is one of the pin's name, and of its version
/// where the header gives one.
pub open spec fn fails_pin(f: FailedSchemaPackage, pin: SchemaRef) -> bool {
    opt_text(f.name) == Some(pin.name@) && match f.version {
        Some(v) => v@ == pin.version@,
        None => true,
    }
}

/// The first failed package of the pin, from `i` on.
pub open spec fn failed_pin(
    failed: Seq<FailedSchemaPackage>,
    pin: SchemaRef,
    i: int,
) -> Option<FailedSchemaPackage>
    decreases failed.len() - i,
{
    if i < 0 || i >= failed.len() {
        None
    } else if fails_pin(failed[i], pin) {
        Some(failed[i])
    } else {
        failed_pin(failed, pin, i + 1)
    }
}

/// The schemas that a mount's pin resolves against: those of the workspace,
/// those that the mount carries sealed, the built-in ones.
pub open spec fn catalogue_of(tiers: Tiers, embedded: Seq<Arc<Schema>>) -> Seq<Arc<Schema>> {
    tiers.workspace@ + embedded + tiers.builtins@
}

/// The schema a mem is held to, or why it is held back.
pub enum Verdict {
    Serves(Arc<Schema>),
    Refused { code: String, message: String },
}

/// Whether a mem without a pin is refused in these words.
pub open spec fn refuses_pinless(mount: Mount, code: Seq<char>, message: Seq<char>) -> bool {
    exists|e: EngineError|
        (e matches EngineError::MemConfigIncomplete { mem, missing_fields } && mem == mount.mem
            && texts(missing_fields@) == seq!["schema"@]) && code == e.code_text() && message
            == #[trigger] e.text()
}

/// Whether a mem whose pin nothing answers is refused in these words: with
/// the failure of the package that it pins, or with what each source held.
pub open spec fn refuses_pin(
    mount: Mount,
    pin: SchemaRef,
    tiers: Tiers,
    embedded: Seq<Arc<Schema>>,
    code: Seq<char>,
    message: Seq<char>,
) -> bool {
    match failed_pin(tiers.failed@, pin, 0) {
        Some(f) => code == "SCHEMA_LOAD_FAILED"@ && message == "schema package at "@ + f.path@
            + " failed to load: "@ + f.error@,
        None => exists|e: EngineError|
            (e matches EngineError::SchemaNotFound { mem, pin: p, sources, install_hint } && mem
                == mount.mem && p@ == pin.display() && install_hint is None && is_failed_pin(
                sources@,
                pin.name@,
                pin.version@,
                catalogue_of(tiers, embedded),
                tiers.builtins@,
            )) && code == e.code_text() && message == #[trigger] e.text(),
    }
}

/// What admitting a mount found, in the order in which it is reported.
pub struct Admission {
    pub mismatch: Option<WarningHint>,
    pub skew: Option<WarningHint>,
    pub verdict: Verdict,
    pub behind: Option<WarningHint>,
    pub headings: Option<WarningHint>,
}

/// Whether `a` is what admitting a mount finds.
pub open spec fn admits(
    mount: Mount,
    config: Option<MemConfig>,
    tiers: Tiers,
    embedded: Seq<Arc<Schema>>,
    a: Admission,
) -> bool {
    &&& mismatch_hint(mount, config, a.mismatch)
    &&& skew_hint(mount, config, tiers.running@, a.skew)
    &&& match effective_pin(mount, config) {
        None => a.behind is None && a.headings is None && (a.verdict matches Verdict::Refused {
            code,
            message,
        } && refuses_pinless(mount, code@, message@)),
        Some(pin) => match pinned(catalogue_of(tiers, embedded), pin) {
            None => a.behind is None && a.headings is None && (a.verdict matches Verdict::Refused {
                code,
                message,
            } && refuses_pin(mount, pin, tiers, embedded, code@, message@)),
            Some(schema) => a.verdict == Verdict::Serves(schema) && behind_hint(
                mount,
                pin,
                tiers.workspace@,
                tiers.builtins@,
                a.behind,
            ) && headings_hint(mount, schema, a.headings),
        },
    }
}

/// The first failed package of the pin.
fn find_failed<'a>(failed: &'a Vec<FailedSchemaPackage>, pin: &SchemaRef) -> (r: Option<
    &'a FailedSchemaPackage,
>)
    ensures
        match r {
            Some(f) => failed_pin(failed@, *pin, 0) == Some(*f),
            None => failed_pin(failed@, *pin, 0) is None,
        },
{
    let mut i: usize = 0;
    while i < failed.len()
        invariant
            i <= failed@.len(),
            failed_pin(failed@, *pin, 0) == failed_pin(failed@, *pin, i as int),
        decreases failed@.len() - i,
    {
        let named = match &failed[i].name {
            Some(n) => same(n, &pin.name),
            None => false,
        };
        let versioned = match &failed[i].version {
            Some(v) => same(v, &pin.version),
            None => true,
        };
        if named && versioned {
            return Some(&failed[i]);
        }
        i = i + 1;
    }
    None
}

/// One catalogue out of the tiers and what a mount carries sealed.
fn catalogue_for(tiers: &Tiers, embedded: &Vec<Arc<Schema>>) -> (r: Vec<Arc<Schema>>)
    ensures
        r@ == catalogue_of(*tiers, embedded@),
{
    let mut out: Vec<Arc<Schema>> = Vec::new();
    add_all(&mut out, &tiers.workspace);
    add_all(&mut out, embedded);
    add_all(&mut out, &tiers.builtins);
    out
}

/// Put copies of schema handles behind a list.
fn add_all(out: &mut Vec<Arc<Schema>>, more: &Vec<Arc<Schema>>)
    ensures
        final(out)@ == old(out)@ + more@,
{
    let ghost before = out@;
    for i in 0..more.len()
        invariant
            out@ == before + more@.take(i as int),
    {
        out.push(more[i].clone());
        assert(out@ =~= before + more@.take(i + 1));
    }
    assert(more@.take(more@.len() as int) =~= more@);
}

/// Why a pin that nothing answers holds its mem back.
fn refusal(mount: &Mount, pin: &SchemaRef, tiers: &Tiers, embedded: &Vec<Arc<Schema>>, sources: Vec<
    SchemaSourceDiagnostic,
>) -> (r: (String, String))
    requires
        is_failed_pin(
            sources@,
            pin.name@,
            pin.version@,
            catalogue_of(*tiers, embedded@),
            tiers.builtins@,
        ),
    ensures
        refuses_pin(*mount, *pin, *tiers, embedded@, r.0@, r.1@),
{
    match find_failed(&tiers.failed, pin) {
        Some(f) => (
            own("SCHEMA_LOAD_FAILED"),
            "schema package at ".to_owned().concat(&f.path).concat(" failed to load: ").concat(
                &f.error,
            ),
        ),
        None => {
            let e = EngineError::SchemaNotFound {
                mem: mount.mem.clone(),
                pin: pin.as_display(),
                sources,
                install_hint: None,
            };
            (own(e.code()), e.to_text())
        },
    }
}

/// Hold a mount to its pin: which schema it serves under or why it is held
/// back, and what is to be warned of on the way. `config` is what the mem
/// carries of its own, `embedded` the schemas that it carries sealed.
pub fn judge_mount(
    mount: &Mount,
    config: &Option<MemConfig>,
    tiers: &Tiers,
    embedded: &Vec<Arc<Schema>>,
) -> (r: Admission)
    ensures
        admits(*mount, *config, *tiers, embedded@, r),
{
    let own_pin: Option<&SchemaRef> = match config {
        Some(c) => c.schema.as_ref(),
        None => None,
    };
    let mismatch = match (own_pin, &mount.schema) {
        (Some(c), Some(m)) => if c.same_as(m) {
            None
        } else {
            Some(
                WarningHint::SchemaPinMismatch {
                    mem: mount.mem.clone(),
                    config_pin: c.as_display(),
                    mount_pin: m.as_display(),
                },
            )
        },
        _ => None,
    };
    let skew = match config {
        Some(c) => match &c.mutation_stamp {
            Some(stamp) => match skew_direction(&stamp.engine_version, &tiers.running) {
                Some(direction) => Some(
                    WarningHint::EngineVersionSkew {
                        mem: mount.mem.clone(),
                        stamped_engine: stamp.engine_version.clone(),
                        running_engine: tiers.running.clone(),
                        stamped_schema: crate::text::own_opt(&stamp.schema),
                        direction,
                    },
                ),
                None => None,
            },
            None => None,
        },
        None => None,
    };
    let settled: Option<&SchemaRef> = match own_pin {
        Some(p) => Some(p),
        None => mount.schema.as_ref(),
    };
    let pin = match &mount.migration_target {
        Some(t) => t,
        None => match settled {
            Some(p) => p,
            None => {
                let missing: Vec<String> = vec![own("schema")];
                proof {
                    assert(texts(missing@) =~= seq!["schema"@]);
                }
                let e = EngineError::MemConfigIncomplete {
                    mem: mount.mem.clone(),
                    missing_fields: missing,
                };
                let verdict = Verdict::Refused { code: own(e.code()), message: e.to_text() };
                return Admission { mismatch, skew, verdict, behind: None, headings: None };
            },
        },
    };
    let catalogue = catalogue_for(tiers, embedded);
    let schema = match SchemaResolver::new(&catalogue).resolve(pin, &tiers.builtins) {
        Ok(s) => s,
        Err(sources) => {
            let (code, message) = refusal(mount, pin, tiers, embedded, sources);
            let verdict = Verdict::Refused { code, message };
            return Admission { mismatch, skew, verdict, behind: None, headings: None };
        },
    };
    let local = resolve_builtin_schema_pin(pin, &tiers.workspace).is_some();
    let builtin = resolve_builtin_schema_pin(pin, &tiers.builtins).is_some();
    let behind = match newest_builtin_version(&pin.name, &tiers.builtins) {
        Some(v) => {
            let order = version_order(&pin.version, &v);
            if !local && builtin && order == Some(Order::Before) {
                Some(
                    WarningHint::SchemaGenerationsBehind {
                        mem: mount.mem.clone(),
                        pinned: pin.as_display(),
                        newest: v,
                    },
                )
            } else {
                None
            }
        },
        None => None,
    };
    let headings = if schema.heading_violations.len() > 0 {
        Some(
            WarningHint::SchemaHeadingRoundtripViolation {
                mem: mount.mem.clone(),
                schema_ref: schema.as_display(),
                violations: own_list(&schema.heading_violations),
            },
        )
    } else {
        None
    };
    Admission { mismatch, skew, verdict: Verdict::Serves(schema), behind, headings }
}

// ---------------------------------------------------------------------
// Loading a mount
// ---------------------------------------------------------------------

/// What becomes of a mount.
#[derive(Debug, Clone, Copy, PartialEq, Eq, Structural)]
pub enum Fate {
    /// Its entities are loaded.
    Serving,
    /// It serves; its entities are loaded when they are first asked for.
    Deferred,
    /// It is held back, with a reason.
    Quarantined,
}

/// What loading has gathered so far.
#[derive(Debug)]
pub struct Loading {
    pub store: Store,
    pub schemas: Vec<(String, Arc<Schema>)>,
    pub load_errors: Vec<(String, String)>,
    pub load_warnings: Vec<WarningHint>,
    pub quarantined: Vec<QuarantinedMem>,
}

/// What a `Loading` holds.
#[verifier::ext_equal]
pub struct LoadingView {
    pub entities: Seq<Entity>,
    pub schemas: Seq<(String, Arc<Schema>)>,
    pub errors: Seq<(Seq<char>, Seq<char>)>,
    pub warnings: Seq<WarningHint>,
    pub quarantined: Seq<QuarantinedMem>,
}

impl View for Loading {
    type V = LoadingView;

    open spec fn view(&self) -> LoadingView {
        LoadingView {
            entities: self.store.entities@,
            schemas: self.schemas@,
            errors: views(self.load_errors@),
            warnings: self.load_warnings@,
            quarantined: self.quarantined@,
        }
    }
}

/// A list of at most one warning.
pub open spec fn hints(w: Option<WarningHint>) -> Seq<WarningHint> {
    match w {
        Some(h) => seq![h],
        None => Seq::empty(),
    }
}

/// Put a warning behind the others, where there is one.
fn push_hint(warnings: &mut Vec<WarningHint>, w: Option<WarningHint>)
    ensures
        final(warnings)@ == old(warnings)@ + hints(w),
{
    let ghost before = warnings@;
    match w {
        Some(h) => {
            warnings.push(h);
            assert(warnings@ =~= before + seq![h]);
        },
        None => {
            assert(before + Seq::<WarningHint>::empty() =~= before);
        },
    }
}

/// Put entities into a store one after another.
pub open spec fn with_entities(s: Seq<Entity>, more: Seq<Entity>) -> Seq<Entity>
    decreases more.len(),
{
    if more.len() == 0 {
        s
    } else {
        with_entity(with_entities(s, more.drop_last()), more.last())
    }
}

/// A path under a directory.
pub open spec fn joined_path(root: Seq<char>, path: Seq<char>) -> Seq<char> {
    if root.len() == 0 {
        path
    } else if root.last() == '/' {
        root + path
    } else {
        root + "/"@ + path
    }
}

/// A path under a directory.
pub fn path_joined(root: &str, path: &str) -> (r: String)
    ensures
        r@ == joined_path(root@, path@),
{
    let x = chars_of(root);
    if x.len() == 0 {
        own(path)
    } else if x[x.len() - 1] == '/' {
        own(root).concat(path)
    } else {
        own(root).concat("/").concat(path)
    }
}

/// The path of an entity file as load errors name it: in full for a folder
/// mem, so that a later reload replaces the errors of this mem alone.
pub open spec fn located_path(storage: MountStorage, path: Seq<char>) -> Seq<char> {
    match storage {
        MountStorage::Folder { path: root } => if starts(path, "/"@) {
            path
        } else {
            joined_path(root@, path)
        },
        _ => path,
    }
}

/// Load errors with their paths in the form that they are kept in.
pub open spec fn located(storage: MountStorage, errors: Seq<(Seq<char>, Seq<char>)>) -> Seq<
    (Seq<char>, Seq<char>),
> {
    errors.map_values(|e: (Seq<char>, Seq<char>)| (located_path(storage, e.0), e.1))
}

/// The path of an entity file as load errors name it.
fn located_path_of(storage: &MountStorage, path: &str) -> (r: String)
    ensures
        r@ == located_path(*storage, path@),
{
    match storage {
        MountStorage::Folder { path: root } => {
            if begins(path, "/") {
                return own(path);
            }
            path_joined(root, path)
        },
        _ => own(path),
    }
}

/// Put load errors behind the others, in the form that they are kept in.
pub(crate) fn add_errors(
    out: &mut Vec<(String, String)>,
    storage: &MountStorage,
    errors: &Vec<(String, String)>,
)
    ensures
        views(final(out)@) == views(old(out)@) + located(*storage, views(errors@)),
{
    let ghost before = views(out@);
    let ghost all = located(*storage, views(errors@));
    assert(all.take(0) =~= Seq::empty());
    assert(before + all.take(0) =~= before);
    for i in 0..errors.len()
        invariant
            all == located(*storage, views(errors@)),
            views(out@) == before + all.take(i as int),
    {
        let ghost done = views(out@);
        let e = (located_path_of(storage, &errors[i].0), errors[i].1.clone());
        proof {
            assert(views(errors@)[i as int] == errors@[i as int]@);
            assert(all[i as int] == e@);
        }
        out.push(e);
        assert(views(out@) =~= done.push(e@));
        assert(before + all.take(i + 1) =~= (before + all.take(i as int)).push(all[i as int]));
    }
    assert(all.take(all.len() as int) =~= all);
}

/// Put entities into a store one after another.
pub(crate) fn upsert_all(store: &mut Store, entities: Vec<Entity>)
    ensures
        final(store).entities@ == with_entities(old(store).entities@, entities@),
{
    let ghost all = entities@;
    let ghost before = store.entities@;
    let mut rest = entities;
    let ghost mut done: Seq<Entity> = Seq::empty();
    assert(done + rest@ =~= all);
    while rest.len() > 0
        invariant
            done + rest@ == all,
            store.entities@ == with_entities(before, done),
        decreases rest@.len(),
    {
        let e = rest.remove(0);
        proof {
            let next = done.push(e);
            assert(next.drop_last() =~= done);
            assert(next + rest@ =~= all);
            done = next;
        }
        store.upsert(e);
    }
    assert(done =~= all);
}

/// Whether a mount is held back with this reason, everything else left as it
/// was.
pub open spec fn held_back(
    mount: Mount,
    code: Seq<char>,
    message: Seq<char>,
    seen: LoadingView,
    post: LoadingView,
    fate: Fate,
) -> bool {
    &&& fate == Fate::Quarantined
    &&& post.quarantined.len() == seen.quarantined.len() + 1
    &&& post.quarantined.drop_last() == seen.quarantined
    &&& post.quarantined.last().mount == mount
    &&& post.quarantined.last().reason_code@ == code
    &&& post.quarantined.last().reason_message@ == message
    &&& post == (LoadingView { quarantined: post.quarantined, ..seen })
}

/// The schemas that a mount carries sealed: those of its archive. A mount on
/// anything else, or on an archive without a path, carries none.
pub open spec fn carries<H: Host>(
    h: &Surroundings<H>,
    mount: Mount,
    embedded: Seq<Arc<Schema>>,
) -> bool {
    match mount.storage {
        MountStorage::Archive { path } => if path@.len() == 0 {
            embedded.len() == 0
        } else {
            exists|reply: Vec<Arc<Schema>>| #[trigger]
                embedded_reply(h, path@, reply) && embedded == reply@
        },
        _ => embedded.len() == 0,
    }
}

/// The schemas that a mount carries sealed.
pub fn embedded_archive_schemas<H: Host>(
    host: &Surroundings<H>,
    mount: &Mount,
) -> (r: Vec<Arc<Schema>>)
    ensures
        carries(host, *mount, r@),
{
    match &mount.storage {
        MountStorage::Archive { path } => {
            if chars_of(path).len() == 0 {
                return Vec::new();
            }
            let reply = host.embedded_schemas(path);
            assert(embedded_reply(host, path@, reply));
            reply
        },
        _ => Vec::new(),
    }
}

/// Whether a mount lies at a path.
pub open spec fn path_backed(storage: MountStorage) -> bool {
    storage is Folder || storage is Archive
}

/// What is said of a mount whose storage is gone.
pub open spec fn gone_message(storage: MountStorage) -> Seq<char> {
    "the mount's storage is gone ("@ + location_of(storage)
        + "); it is configured but cannot serve, so it is held out of the roster rather than answering reads with an empty graph"@
}

/// Whether the files of a mem were loaded under its schema.
pub open spec fn files_load<B: MemBackend, H: Host>(
    h: &Surroundings<H>,
    m: MountedBackend<B>,
    schema: Arc<Schema>,
    known: Seq<Seq<char>>,
    reads: Seq<(String, Result<Vec<u8>, String>)>,
    seen: LoadingView,
    post: LoadingView,
    fate: Fate,
) -> bool {
    fate == Fate::Serving && exists|hint: Option<WarningHint>, load: LoadResult|
        #![trigger probed_hint(m.mount, &m.backend, Some(read_entries(reads).len()), hint), parse_reply(h, read_entries(reads), read_failures(reads), m.mount.mem@, schema, known, load)]
        probed_hint(m.mount, &m.backend, Some(read_entries(reads).len()), hint) && parse_reply(
            h,
            read_entries(reads),
            read_failures(reads),
            m.mount.mem@,
            schema,
            known,
            load,
        ) && post == (LoadingView {
            entities: with_entities(seen.entities, load.entities@),
            schemas: seen.schemas.push((m.mount.mem, schema)),
            errors: seen.errors + located(m.mount.storage, views(load.errors@)),
            warnings: seen.warnings + hints(hint) + load.warnings@,
            quarantined: seen.quarantined,
        })
}

/// Whether the entities of a mem were loaded, or the mem held back because
/// its storage does not read or is gone.
pub open spec fn entities_load<B: MemBackend, H: Host>(
    h: &Surroundings<H>,
    m: MountedBackend<B>,
    schema: Arc<Schema>,
    known: Seq<Seq<char>>,
    seen: LoadingView,
    post: LoadingView,
    fate: Fate,
) -> bool {
    exists|reply: Result<Vec<(String, Result<Vec<u8>, String>)>, BackendError>| #[trigger]
        reads_reply(&m.backend, reply) && match reply {
            Err(e) => held_back(
                m.mount,
                EngineError::Backend(e).code_text(),
                EngineError::Backend(e).text(),
                seen,
                post,
                fate,
            ),
            Ok(reads) => if path_backed(m.mount.storage) {
                exists|present: Result<bool, BackendError>| #[trigger]
                    present_reply(&m.backend, present) && if counts_as_present(present) {
                        files_load(h, m, schema, known, reads@, seen, post, fate)
                    } else {
                        held_back(
                            m.mount,
                            "MOUNT_UNBACKED"@,
                            gone_message(m.mount.storage),
                            seen,
                            post,
                            fate,
                        )
                    }
            } else {
                files_load(h, m, schema, known, reads@, seen, post, fate)
            },
        }
}

/// Whether an admitted mount went on to serve, to wait or to be held back.
pub open spec fn admitted_loads<B: MemBackend, H: Host>(
    h: &Surroundings<H>,
    m: MountedBackend<B>,
    a: Admission,
    known: Seq<Seq<char>>,
    pre: LoadingView,
    post: LoadingView,
    fate: Fate,
) -> bool {
    let judged = pre.warnings + hints(a.mismatch) + hints(a.skew);
    match a.verdict {
        Verdict::Refused { code, message } => held_back(
            m.mount,
            code@,
            message@,
            LoadingView { warnings: judged, ..pre },
            post,
            fate,
        ),
        Verdict::Serves(schema) => {
            let seen = LoadingView {
                warnings: judged + hints(a.behind) + hints(a.headings),
                ..pre
            };
            match m.mount.lifecycle {
                MountLifecycle::Lazy => fate == Fate::Deferred && exists|hint: Option<WarningHint>|
                    #[trigger] probed_hint(m.mount, &m.backend, None, hint) && post == (
                    LoadingView {
                        schemas: seen.schemas.push((m.mount.mem, schema)),
                        warnings: seen.warnings + hints(hint),
                        ..seen
                    }),
                MountLifecycle::Eager => entities_load(h, m, schema, known, seen, post, fate),
            }
        },
    }
}

/// Whether loading a mount took what was gathered from `pre` to `post`.
pub open spec fn mount_loads<B: MemBackend, H: Host>(
    h: &Surroundings<H>,
    m: MountedBackend<B>,
    tiers: Tiers,
    pre: LoadingView,
    post: LoadingView,
    fate: Fate,
) -> bool {
    exists|embedded: Seq<Arc<Schema>>, a: Admission|
        carries(h, m.mount, embedded) && #[trigger] admits(
            m.mount,
            m.mem_config,
            tiers,
            embedded,
            a,
        ) && admitted_loads(h, m, a, texts(tiers.mem_names@), pre, post, fate)
}

/// Hold a mount back with a reason.
fn hold_back(state: &mut Loading, mount: &Mount, code: String, message: String) -> (r: Fate)
    ensures
        held_back(*mount, code@, message@, old(state)@, final(state)@, r),
{
    let ghost before = state@;
    state.quarantined.push(
        QuarantinedMem { mount: mount.copy(), reason_code: code, reason_message: message },
    );
    assert(state.quarantined@.drop_last() =~= before.quarantined);
    assert(state@ =~= (LoadingView { quarantined: state.quarantined@, ..before }));
    Fate::Quarantined
}

/// Load the entities of a mem under its schema.
fn load_entities<B: MemBackend, H: Host>(
    host: &Surroundings<H>,
    m: &MountedBackend<B>,
    schema: Arc<Schema>,
    known: &Vec<String>,
    state: &mut Loading,
) -> (r: Fate)
    ensures
        entities_load(host, *m, schema, texts(known@), old(state)@, final(state)@, r),
{
    let ghost seen = state@;
    let reply = m.backend.read_all_entities();
    let ghost answered = reply;
    assert(reads_reply(&m.backend, answered));
    let reads = match reply {
        Ok(reads) => reads,
        Err(e) => {
            let err = EngineError::Backend(e);
            let code = own(err.code());
            let message = err.to_text();
            return hold_back(state, &m.mount, code, message);
        },
    };
    let ghost read = reads@;
    let (entries, failures) = sort_reads(reads);
    let at_path = match &m.mount.storage {
        MountStorage::Folder { .. } => true,
        MountStorage::Archive { .. } => true,
        _ => false,
    };
    if at_path {
        let present = m.backend.storage_present();
        assert(present_reply(&m.backend, present));
        let there = match present {
            Ok(p) => p,
            Err(_) => true,
        };
        if !there {
            let message = "the mount's storage is gone (".to_owned().concat(
                &location(&m.mount.storage),
            ).concat(
                "); it is configured but cannot serve, so it is held out of the roster rather than answering reads with an empty graph",
            );
            return hold_back(state, &m.mount, own("MOUNT_UNBACKED"), message);
        }
    }
    let count: usize = entries.len();
    assert(views(entries@).len() == entries@.len());
    let hint = unbacked_mount_warning(&m.mount, &m.backend, Some(count));
    let load = host.parse_entries(&entries, &failures, &m.mount.mem, &schema, known);
    let ghost told = load;
    let ghost warned = hint;
    assert(parse_reply(
        host,
        read_entries(read),
        read_failures(read),
        m.mount.mem@,
        schema,
        texts(known@),
        told,
    ));
    assert(probed_hint(m.mount, &m.backend, Some(read_entries(read).len()), warned));
    push_hint(&mut state.load_warnings, hint);
    let LoadResult { entities, errors, warnings } = load;
    let mut more = warnings;
    upsert_all(&mut state.store, entities);
    state.load_warnings.append(&mut more);
    add_errors(&mut state.load_errors, &m.mount.storage, &errors);
    state.schemas.push((m.mount.mem.clone(), schema));
    proof {
        assert(state@ =~= (LoadingView {
            entities: with_entities(seen.entities, told.entities@),
            schemas: seen.schemas.push((m.mount.mem, schema)),
            errors: seen.errors + located(m.mount.storage, views(told.errors@)),
            warnings: seen.warnings + hints(warned) + told.warnings@,
            quarantined: seen.quarantined,
        }));
        assert(files_load(
            host,
            *m,
            schema,
            texts(known@),
            read,
            seen,
            state@,
            Fate::Serving,
        ));
    }
    Fate::Serving
}

/// Load one mount: resolve its pin, then read its entities, unless they wait
/// for the first operation that needs them. What fails for one mem holds that
/// mem back and no other.
pub fn load_mount<B: MemBackend, H: Host>(
    host: &Surroundings<H>,
    m: &MountedBackend<B>,
    tiers: &Tiers,
    state: &mut Loading,
) -> (r: Fate)
    ensures
        mount_loads(host, *m, *tiers, old(state)@, final(state)@, r),
{
    let ghost pre = state@;
    let embedded = embedded_archive_schemas(host, &m.mount);
    let admission = judge_mount(&m.mount, &m.mem_config, tiers, &embedded);
    let ghost a = admission;
    assert(admits(m.mount, m.mem_config, *tiers, embedded@, a));
    let Admission { mismatch, skew, verdict, behind, headings } = admission;
    push_hint(&mut state.load_warnings, mismatch);
    push_hint(&mut state.load_warnings, skew);
    let ghost judged = pre.warnings + hints(a.mismatch) + hints(a.skew);
    assert(state@ =~= (LoadingView { warnings: judged, ..pre }));
    let schema = match verdict {
        Verdict::Serves(s) => s,
        Verdict::Refused { code, message } => {
            let fate = hold_back(state, &m.mount, code, message);
            assert(admitted_loads(host, *m, a, texts(tiers.mem_names@), pre, state@, fate));
            return fate;
        },
    };
    push_hint(&mut state.load_warnings, behind);
    push_hint(&mut state.load_warnings, headings);
    let ghost seen = LoadingView {
        warnings: judged + hints(a.behind) + hints(a.headings),
        ..pre
    };
    assert(state@ =~= seen);
    let fate = match m.mount.lifecycle {
        MountLifecycle::Lazy => {
            let hint = unbacked_mount_warning(&m.mount, &m.backend, None);
            let ghost warned = hint;
            assert(probed_hint(m.mount, &m.backend, None, warned));
            push_hint(&mut state.load_warnings, hint);
            state.schemas.push((m.mount.mem.clone(), schema));
            assert(state@ =~= (LoadingView {
                schemas: seen.schemas.push((m.mount.mem, schema)),
                warnings: seen.warnings + hints(warned),
                ..seen
            }));
            Fate::Deferred
        },
        MountLifecycle::Eager => load_entities(host, m, schema, &tiers.mem_names, state),
    };
    assert(admitted_loads(host, *m, a, texts(tiers.mem_names@), pre, state@, fate));
    fate
}

// ---------------------------------------------------------------------
// The engine
// ---------------------------------------------------------------------

/// The first mount from `i` on whose mem an earlier mount names.
pub open spec fn duplicate_from<B>(mounts: Seq<(Mount, Storage<B>)>, i: int) -> Option<int>
    decreases mounts.len() - i,
{
    if i < 0 || i >= mounts.len() {
        None
    } else if exists|j: int| 0 <= j < i && (#[trigger] mounts[j]).0.mem@ == mounts[i].0.mem@ {
        Some(i)
    } else {
        duplicate_from(mounts, i + 1)
    }
}

/// Whether `m` is a mount as it stands after its backend was asked for its
/// head, its config and its sealed checks. A head that could not be had
/// counts as none.
pub open spec fn is_probed<B: MemBackend>(
    given: (Mount, Storage<B>),
    m: MountedBackend<B>,
) -> bool {
    &&& m.mount == given.0
    &&& m.backend == given.1
    &&& !m.deferred
    &&& exists|reply: Result<Option<String>, BackendError>| #[trigger]
        head_reply(&given.1, reply) && m.last_known_head == (match reply {
            Ok(h) => h,
            Err(_) => None,
        })
    &&& config_reply(&given.1, m.mem_config)
    &&& sealed_reply(&given.1, m.sealed_checks)
}

/// Ask a backend for its head, its config and its sealed checks.
fn probe<B: MemBackend>(mount: Mount, backend: Storage<B>) -> (r: MountedBackend<B>)
    ensures
        is_probed((mount, backend), r),
{
    let reply = backend.current_head();
    let ghost answered = reply;
    assert(head_reply(&backend, answered));
    let last_known_head = match reply {
        Ok(h) => h,
        Err(_) => None,
    };
    let mem_config = backend.read_mem_config();
    assert(config_reply(&backend, mem_config));
    let sealed_checks = backend.read_sealed_checks();
    assert(sealed_reply(&backend, sealed_checks));
    let r = MountedBackend {
        mount,
        backend,
        last_known_head,
        mem_config,
        sealed_checks,
        deferred: false,
    };
    assert(head_reply(&(mount, backend).1, answered));
    assert(config_reply(&(mount, backend).1, r.mem_config));
    assert(sealed_reply(&(mount, backend).1, r.sealed_checks));
    assert(r.last_known_head == (match answered {
        Ok(h) => h,
        Err(_) => None,
    }));
    r
}

/// Loading before any mount.
pub open spec fn nothing_loaded() -> LoadingView {
    LoadingView {
        entities: Seq::empty(),
        schemas: Seq::empty(),
        errors: Seq::empty(),
        warnings: Seq::empty(),
        quarantined: Seq::empty(),
    }
}

/// Whether `trace` is what was gathered before the first mount and after each
/// one, and `fates` what became of each.
pub open spec fn all_load<B: MemBackend, H: Host>(
    h: &Surroundings<H>,
    mounted: Seq<MountedBackend<B>>,
    tiers: Tiers,
    trace: Seq<LoadingView>,
    fates: Seq<Fate>,
) -> bool {
    &&& trace.len() == mounted.len() + 1
    &&& fates.len() == mounted.len()
    &&& trace[0] == nothing_loaded()
    &&& forall|i: int|
        0 <= i < mounted.len() ==> mount_loads(
            h,
            mounted[i],
            tiers,
            trace[i],
            trace[i + 1],
            #[trigger] fates[i],
        )
}

/// The mounts that serve or wait.
pub open spec fn serving<B>(mounted: Seq<MountedBackend<B>>, fates: Seq<Fate>) -> Seq<
    MountedBackend<B>,
>
    decreases mounted.len(),
{
    if mounted.len() == 0 || fates.len() != mounted.len() {
        Seq::empty()
    } else {
        let rest = serving(mounted.drop_last(), fates.drop_last());
        match fates.last() {
            Fate::Quarantined => rest,
            Fate::Deferred => rest.push(MountedBackend { deferred: true, ..mounted.last() }),
            Fate::Serving => rest.push(MountedBackend { deferred: false, ..mounted.last() }),
        }
    }
}

/// Whether a warning holds once every mem is loaded: one about a link whose
/// target turned out to be an entity does not.
pub open spec fn still_holds(w: WarningHint, entities: Seq<Entity>) -> bool {
    match w {
        WarningHint::SuspiciousNestedPrefix { mem, resolved_id } => match entity_of(
            entities,
            resolved_id.0@,
        ) {
            Some(e) => e.stub,
            None => true,
        },
        _ => true,
    }
}

/// The warnings that hold once every mem is loaded.
pub open spec fn holding(ws: Seq<WarningHint>, entities: Seq<Entity>) -> Seq<WarningHint>
    decreases ws.len(),
{
    if ws.len() == 0 {
        Seq::empty()
    } else if still_holds(ws.last(), entities) {
        holding(ws.drop_last(), entities).push(ws.last())
    } else {
        holding(ws.drop_last(), entities)
    }
}

/// Drop the warnings that do not hold once every mem is loaded.
fn keep_holding(warnings: Vec<WarningHint>, store: &Store) -> (r: Vec<WarningHint>)
    ensures
        r@ == holding(warnings@, store.entities@),
{
    let ghost all = warnings@;
    let mut rest = warnings;
    let ghost mut done: Seq<WarningHint> = Seq::empty();
    let mut out: Vec<WarningHint> = Vec::new();
    assert(done + rest@ =~= all);
    while rest.len() > 0
        invariant
            done + rest@ == all,
            out@ == holding(done, store.entities@),
        decreases rest@.len(),
    {
        let w = rest.remove(0);
        proof {
            let next = done.push(w);
            assert(next.drop_last() =~= done);
            assert(next + rest@ =~= all);
            done = next;
        }
        let keep = match &w {
            WarningHint::SuspiciousNestedPrefix { resolved_id, .. } => match store.get(
                resolved_id,
            ) {
                Some(e) => e.stub,
                None => true,
            },
            _ => true,
        };
        if keep {
            out.push(w);
        }
    }
    assert(done =~= all);
    out
}

/// The entry of a mount in the router: a writable mount with its directory
/// where it is a folder, a read-only one with the path that its storage
/// offers. A read-only mem in memory has none.
pub open spec fn is_route<B>(m: MountedBackend<B>, e: RouterEntry) -> bool {
    match m.mount.capability {
        MountCapability::Write => e matches RouterEntry::Writable { mem, dir } && mem
            == m.mount.mem && (match m.mount.storage {
            MountStorage::Folder { path } => dir == Some(path),
            _ => dir is None,
        }),
        MountCapability::ReadOnly => e matches RouterEntry::ReadOnly { mem, path: p } && mem
            == m.mount.mem && (match m.mount.storage {
            MountStorage::Archive { path } => p == path,
            MountStorage::Folder { path } => p == path,
            MountStorage::GitBranch { gitdir, branch } => p == gitdir,
            MountStorage::InMemory => false,
        }),
    }
}

/// The mounts that the router lists.
pub open spec fn routed<B>(mounts: Seq<MountedBackend<B>>) -> Seq<MountedBackend<B>>
    decreases mounts.len(),
{
    if mounts.len() == 0 {
        Seq::empty()
    } else if mounts.last().mount.capability == MountCapability::ReadOnly
        && mounts.last().mount.storage is InMemory {
        routed(mounts.drop_last())
    } else {
        routed(mounts.drop_last()).push(mounts.last())
    }
}

/// Whether `router` lists the mounts in their order.
pub open spec fn is_router<B>(mounts: Seq<MountedBackend<B>>, router: Seq<RouterEntry>) -> bool {
    &&& router.len() == routed(mounts).len()
    &&& forall|i: int|
        0 <= i < router.len() ==> is_route(routed(mounts)[i], #[trigger] router[i])
}

/// The router of a list of mounts.
pub fn build_mem_router_from_mounts<B>(mounts: &Vec<MountedBackend<B>>) -> (r: Vec<RouterEntry>)
    ensures
        is_router(mounts@, r@),
{
    let mut out: Vec<RouterEntry> = Vec::new();
    assert(routed(mounts@.take(0)).len() == 0);
    for i in 0..mounts.len()
        invariant
            is_router(mounts@.take(i as int), out@),
    {
        assert(mounts@.take(i + 1).drop_last() =~= mounts@.take(i as int));
        let m = &mounts[i];
        match m.mount.capability {
            MountCapability::Write => {
                let dir = match &m.mount.storage {
                    MountStorage::Folder { path } => Some(path.clone()),
                    _ => None,
                };
                out.push(RouterEntry::Writable { mem: m.mount.mem.clone(), dir });
            },
            MountCapability::ReadOnly => {
                let path = match &m.mount.storage {
                    MountStorage::Archive { path } => Some(path.clone()),
                    MountStorage::Folder { path } => Some(path.clone()),
                    MountStorage::GitBranch { gitdir, .. } => Some(gitdir.clone()),
                    MountStorage::InMemory => None,
                };
                if let Some(path) = path {
                    out.push(RouterEntry::ReadOnly { mem: m.mount.mem.clone(), path });
                }
            },
        }
    }
    assert(mounts@.take(mounts@.len() as int) =~= mounts@);
    out
}

/// Whether `engine` is the engine over mounts that were probed, given what
/// loading them gathered.
pub open spec fn is_engine_of<B: MemBackend, H: Host>(
    host: Surroundings<H>,
    mounted: Seq<MountedBackend<B>>,
    tiers: Tiers,
    trace: Seq<LoadingView>,
    fates: Seq<Fate>,
    engine: Engine<B, H>,
) -> bool {
    let loaded = trace.last();
    &&& engine.host == host
    &&& engine.mounts@ == serving(mounted, fates)
    &&& engine.schemas@ == loaded.schemas
    &&& engine.workspace_schemas@ == tiers.workspace@
    &&& engine.builtin_schemas@ == tiers.builtins@
    &&& views(engine.load_errors@) == loaded.errors
    &&& engine.quarantined@ == loaded.quarantined
    &&& is_router(engine.mounts@, engine.router@)
    &&& engine.pending_mem_changed@.len() == 0
    &&& engine.pending_events@.len() == 0
    &&& engine.workspace_root is None
    &&& engine.current_role is None
    &&& engine.current_identity is None
    &&& exists|reply: (Store, Vec<WarningHint>)| #[trigger]
        relations_reply(
            &host,
            loaded.entities,
            loaded.schemas,
            capabilities(engine.mounts@),
            reply,
        ) && engine.store.entities@ == reply.0.entities@ && engine.load_warnings@ == holding(
            loaded.warnings + reply.1@,
            reply.0.entities@,
        )
}

/// Whether `r` is what booting over the mounts gives.
pub open spec fn boots<B: MemBackend, H: Host>(
    host: Surroundings<H>,
    mounts: Seq<(Mount, Storage<B>)>,
    workspace: Seq<Arc<Schema>>,
    failed: Seq<FailedSchemaPackage>,
    r: Result<Engine<B, H>, EngineError>,
) -> bool {
    match duplicate_from(mounts, 0) {
        Some(i) => r matches Err(EngineError::DuplicateMem(m)) && m == mounts[i].0.mem,
        None => exists|reply: Result<Vec<Arc<Schema>>, String>| #[trigger]
            builtin_reply(&host, reply) && match reply {
                Err(m) => r matches Err(EngineError::SchemaResolverInit(e)) && e == m,
                Ok(builtins) => r matches Ok(engine) && loads_over(
                    host,
                    mounts,
                    workspace,
                    builtins@,
                    failed,
                    engine,
                ),
            },
    }
}

/// The names of the mems that are mounted.
pub open spec fn roster<B>(mounts: Seq<(Mount, Storage<B>)>) -> Seq<Seq<char>> {
    mounts.map_values(|m: (Mount, Storage<B>)| m.0.mem@)
}

/// What may be done to each serving mem.
pub open spec fn capabilities<B>(mounts: Seq<MountedBackend<B>>) -> Seq<
    (String, MountCapability),
> {
    mounts.map_values(|m: MountedBackend<B>| (m.mount.mem, m.mount.capability))
}

/// What may be done to each serving mem.
fn capabilities_of<B>(mounts: &Vec<MountedBackend<B>>) -> (r: Vec<(String, MountCapability)>)
    ensures
        r@ == capabilities(mounts@),
{
    let mut out: Vec<(String, MountCapability)> = Vec::new();
    for i in 0..mounts.len()
        invariant
            out@ == capabilities(mounts@).take(i as int),
    {
        let ghost done = out@;
        out.push((mounts[i].mount.mem.clone(), mounts[i].mount.capability));
        assert(capabilities(mounts@).take(i + 1) =~= done.push(capabilities(mounts@)[i as int]));
    }
    assert(capabilities(mounts@).take(mounts@.len() as int) =~= capabilities(mounts@));
    out
}

/// Whether `engine` is what loading the mounts over the schemas gives.
pub open spec fn loads_over<B: MemBackend, H: Host>(
    host: Surroundings<H>,
    mounts: Seq<(Mount, Storage<B>)>,
    workspace: Seq<Arc<Schema>>,
    builtins: Seq<Arc<Schema>>,
    failed: Seq<FailedSchemaPackage>,
    engine: Engine<B, H>,
) -> bool {
    exists|
        mounted: Seq<MountedBackend<B>>,
        tiers: Tiers,
        trace: Seq<LoadingView>,
        fates: Seq<Fate>,
    |
        mounted.len() == mounts.len() && (forall|i: int|
            0 <= i < mounts.len() ==> is_probed(mounts[i], #[trigger] mounted[i]))
            && tiers.workspace@ == workspace && tiers.builtins@ == builtins && tiers.failed@
            == failed && texts(tiers.mem_names@) == roster(mounts) && version_reply(
            &host,
            tiers.running,
        ) && #[trigger] all_load(&host, mounted, tiers, trace, fates) && is_engine_of(
            host,
            mounted,
            tiers,
            trace,
            fates,
            engine,
        )
}

/// A mount that is held back leaves no entity, no schema and no load error,
/// and takes nothing of what other mounts loaded.
pub proof fn law_quarantine_holds_one_mem_back<B: MemBackend, H: Host>(
    h: &Surroundings<H>,
    m: MountedBackend<B>,
    tiers: Tiers,
    pre: LoadingView,
    post: LoadingView,
)
    requires
        mount_loads(h, m, tiers, pre, post, Fate::Quarantined),
    ensures
        post.entities == pre.entities,
        post.schemas == pre.schemas,
        post.errors == pre.errors,
        post.quarantined.len() == pre.quarantined.len() + 1,
        post.quarantined.drop_last() == pre.quarantined,
        post.quarantined.last().mount == m.mount,
{
}

/// A mount that is not held back is served under the schema that its pin
/// names, and no other mem is held back for it.
pub proof fn law_serving_mount_has_its_schema<B: MemBackend, H: Host>(
    h: &Surroundings<H>,
    m: MountedBackend<B>,
    tiers: Tiers,
    pre: LoadingView,
    post: LoadingView,
    fate: Fate,
)
    requires
        mount_loads(h, m, tiers, pre, post, fate),
        fate != Fate::Quarantined,
    ensures
        post.quarantined == pre.quarantined,
        post.schemas.len() == pre.schemas.len() + 1,
        post.schemas.drop_last() == pre.schemas,
        post.schemas.last().0 == m.mount.mem,
        effective_pin(m.mount, m.mem_config) matches Some(pin) && post.schemas.last().1.answers(
            &pin,
        ),
{
    let (embedded, a) = choose|embedded: Seq<Arc<Schema>>, a: Admission|
        carries(h, m.mount, embedded) && #[trigger] admits(
            m.mount,
            m.mem_config,
            tiers,
            embedded,
            a,
        ) && admitted_loads(h, m, a, texts(tiers.mem_names@), pre, post, fate);
    match a.verdict {
        Verdict::Serves(schema) => {
            match effective_pin(m.mount, m.mem_config) {
                Some(pin) => {
                    lemma_pin_index(catalogue_of(tiers, embedded), pin, 0);
                },
                None => {},
            }
            assert(post.schemas == pre.schemas.push((m.mount.mem, schema)));
            assert(pre.schemas.push((m.mount.mem, schema)).drop_last() =~= pre.schemas);
        },
        Verdict::Refused { code, message } => {},
    }
}

/// No mount disappears: each one serves, waits, or is held back with a reason,
/// and the two rosters together are as many as the mounts.
pub proof fn law_no_mount_disappears<B: MemBackend, H: Host>(
    h: &Surroundings<H>,
    mounted: Seq<MountedBackend<B>>,
    tiers: Tiers,
    trace: Seq<LoadingView>,
    fates: Seq<Fate>,
)
    requires
        all_load(h, mounted, tiers, trace, fates),
    ensures
        serving(mounted, fates).len() + trace.last().quarantined.len() == mounted.len(),
        forall|i: int|
            0 <= i < mounted.len() ==> roster_holds(
                serving(mounted, fates),
                trace.last().quarantined,
                (#[trigger] mounted[i]).mount,
            ),
    decreases mounted.len(),
{
    let n = mounted.len();
    if n > 0 {
        let head = mounted.drop_last();
        let past = trace.drop_last();
        let before = fates.drop_last();
        assert forall|i: int| 0 <= i < head.len() implies mount_loads(
            h,
            head[i],
            tiers,
            past[i],
            past[i + 1],
            #[trigger] before[i],
        ) by {
            assert(before[i] == fates[i]);
        }
        assert(all_load(h, head, tiers, past, before));
        law_no_mount_disappears(h, head, tiers, past, before);
        let m = mounted[n - 1];
        let fate = fates[n - 1];
        assert(mount_loads(h, m, tiers, trace[n - 1], trace[n - 1 + 1], fate));
        let kept = serving(head, before);
        let now = serving(mounted, fates);
        let q0 = past.last().quarantined;
        let q1 = trace.last().quarantined;
        if fate == Fate::Quarantined {
            law_quarantine_holds_one_mem_back(h, m, tiers, trace[n - 1], trace[n - 1 + 1]);
            assert(now == kept);
        } else {
            law_serving_mount_has_its_schema(h, m, tiers, trace[n - 1], trace[n - 1 + 1], fate);
            assert(q1 == q0);
        }
        assert forall|i: int| 0 <= i < n implies roster_holds(
            now,
            q1,
            (#[trigger] mounted[i]).mount,
        ) by {
            if i < n - 1 {
                assert(head[i] == mounted[i]);
                if exists|k: int| 0 <= k < kept.len() && (#[trigger] kept[k]).mount == head[i].mount
                {
                    let k = choose|k: int|
                        0 <= k < kept.len() && (#[trigger] kept[k]).mount == head[i].mount;
                    assert(now[k] == kept[k]);
                } else {
                    let k = choose|k: int|
                        0 <= k < q0.len() && (#[trigger] q0[k]).mount == head[i].mount;
                    assert(q1[k] == q0[k]);
                }
            } else if fate == Fate::Quarantined {
                assert(q1[q1.len() - 1].mount == m.mount);
            } else {
                assert(now[now.len() - 1].mount == m.mount);
            }
        }
    }
}

/// The mounts that serve are among those that were probed, with their storage.
proof fn lemma_serving_was_mounted<B>(mounted: Seq<MountedBackend<B>>, fates: Seq<Fate>, i: int)
    requires
        0 <= i < serving(mounted, fates).len(),
    ensures
        exists|k: int|
            0 <= k < mounted.len() && (#[trigger] mounted[k]).mount == serving(
                mounted,
                fates,
            )[i].mount && mounted[k].backend == serving(mounted, fates)[i].backend,
    decreases mounted.len(),
{
    let head = serving(mounted.drop_last(), fates.drop_last());
    let m = serving(mounted, fates)[i];
    if i < head.len() {
        lemma_serving_was_mounted(mounted.drop_last(), fates.drop_last(), i);
        let k = choose|k: int|
            0 <= k < mounted.len() - 1 && (#[trigger] mounted.drop_last()[k]).mount
                == head[i].mount && mounted.drop_last()[k].backend == head[i].backend;
        assert(mounted[k] == mounted.drop_last()[k]);
    } else {
        assert(mounted[mounted.len() - 1].mount == m.mount);
    }
}

/// An engine serves no mount that it was not given, and each one through the
/// storage that it was given with.
pub proof fn law_served_mounts_were_given<B: MemBackend, H: Host>(
    host: Surroundings<H>,
    mounts: Seq<(Mount, Storage<B>)>,
    workspace: Seq<Arc<Schema>>,
    failed: Seq<FailedSchemaPackage>,
    engine: Engine<B, H>,
)
    requires
        boots(host, mounts, workspace, failed, Ok::<Engine<B, H>, EngineError>(engine)),
    ensures
        forall|i: int|
            0 <= i < engine.mounts@.len() ==> was_given(mounts, #[trigger] engine.mounts@[i]),
{
    let reply = choose|reply: Result<Vec<Arc<Schema>>, String>| #[trigger]
        builtin_reply(&host, reply) && match reply {
            Err(m) => false,
            Ok(builtins) => loads_over(host, mounts, workspace, builtins@, failed, engine),
        };
    let builtins = reply->Ok_0@;
    let (mounted, tiers, trace, fates) = choose|
        mounted: Seq<MountedBackend<B>>,
        tiers: Tiers,
        trace: Seq<LoadingView>,
        fates: Seq<Fate>,
    |
        mounted.len() == mounts.len() && (forall|i: int|
            0 <= i < mounts.len() ==> is_probed(mounts[i], #[trigger] mounted[i]))
            && tiers.workspace@ == workspace && tiers.builtins@ == builtins && tiers.failed@
            == failed && texts(tiers.mem_names@) == roster(mounts) && version_reply(
            &host,
            tiers.running,
        ) && #[trigger] all_load(
            &host,
            mounted,
            tiers,
            trace,
            fates,
        ) && is_engine_of(host, mounted, tiers, trace, fates, engine);
    assert forall|i: int| 0 <= i < engine.mounts@.len() implies was_given(
        mounts,
        #[trigger] engine.mounts@[i],
    ) by {
        lemma_serving_was_mounted(mounted, fates, i);
        let m = serving(mounted, fates)[i];
        let k = choose|k: int|
            0 <= k < mounted.len() && (#[trigger] mounted[k]).mount == m.mount
                && mounted[k].backend == m.backend;
        assert(is_probed(mounts[k], mounted[k]));
        assert(mounts[k].0 == m.mount && mounts[k].1 == m.backend);
    }
}

/// The records of mounts that serve.
pub open spec fn records_of<B>(mounts: Seq<MountedBackend<B>>) -> Seq<Mount> {
    mounts.map_values(|m: MountedBackend<B>| m.mount)
}

/// The records of mounts that are held back.
pub open spec fn held_records(quarantined: Seq<QuarantinedMem>) -> Seq<Mount> {
    quarantined.map_values(|q: QuarantinedMem| q.mount)
}

/// The records that were given.
pub open spec fn given_records<B>(mounts: Seq<(Mount, Storage<B>)>) -> Seq<Mount> {
    mounts.map_values(|m: (Mount, Storage<B>)| m.0)
}

/// Those of the records for which `held` is `want`, in their order.
pub open spec fn parted(records: Seq<Mount>, held: Seq<bool>, want: bool) -> Seq<Mount>
    decreases records.len(),
{
    if records.len() == 0 || held.len() != records.len() {
        Seq::empty()
    } else {
        let rest = parted(records.drop_last(), held.drop_last(), want);
        if held.last() == want {
            rest.push(records.last())
        } else {
            rest
        }
    }
}

/// Whether `held` parts the records given into those that serve and those held
/// back, each in the order given.
pub open spec fn parts_roster<B, H>(
    engine: Engine<B, H>,
    records: Seq<Mount>,
    held: Seq<bool>,
) -> bool {
    &&& held.len() == records.len()
    &&& records_of(engine.mounts@) == parted(records, held, false)
    &&& held_records(engine.quarantined@) == parted(records, held, true)
}

/// Which mounts are held back.
pub open spec fn held_of(fates: Seq<Fate>) -> Seq<bool> {
    fates.map_values(|f: Fate| f == Fate::Quarantined)
}

/// Whether an entity is of a mem that serves.
pub open spec fn of_served<B>(mounts: Seq<MountedBackend<B>>, e: Entity) -> bool {
    exists|k: int| 0 <= k < mounts.len() && (#[trigger] mounts[k]).mount.mem@ == e.mem@
}

/// Whether the host's loader gives entities the mem that it loads.
pub open spec fn loads_own<H: Host>(h: &Surroundings<H>) -> bool {
    forall|
        entries: Seq<(Seq<char>, Seq<char>)>,
        failures: Seq<(Seq<char>, Seq<char>)>,
        mem: Seq<char>,
        schema: Arc<Schema>,
        known: Seq<Seq<char>>,
        load: LoadResult,
        i: int,
    |
        #![trigger parse_reply(h, entries, failures, mem, schema, known, load), load.entities@[i]]
        parse_reply(h, entries, failures, mem, schema, known, load) && 0 <= i
            < load.entities@.len() ==> load.entities@[i].mem@ == mem
}

/// Whether what the host leaves of a store, but for stubs, is of mems that the
/// store held.
pub open spec fn keeps_mems<H: Host>(h: &Surroundings<H>) -> bool {
    forall|
        entities: Seq<Entity>,
        schemas: Seq<(String, Arc<Schema>)>,
        capabilities: Seq<(String, MountCapability)>,
        reply: (Store, Vec<WarningHint>),
        i: int,
    |
        #![trigger relations_reply(h, entities, schemas, capabilities, reply), reply.0.entities@[i]]
        relations_reply(h, entities, schemas, capabilities, reply) && 0 <= i
            < reply.0.entities@.len() && !reply.0.entities@[i].stub ==> exists|k: int|
            0 <= k < entities.len() && (#[trigger] entities[k]).mem@ == reply.0.entities@[i].mem@
}

/// What stands in a store after entities were put into it stood there before
/// or is one of them.
proof fn lemma_entities_stem(s: Seq<Entity>, more: Seq<Entity>, i: int)
    requires
        0 <= i < with_entities(s, more).len(),
    ensures
        s.contains(with_entities(s, more)[i]) || more.contains(with_entities(s, more)[i]),
    decreases more.len(),
{
    let e = with_entities(s, more)[i];
    if more.len() == 0 {
        assert(s.contains(e));
    } else {
        let rest = with_entities(s, more.drop_last());
        lemma_entity_index(rest, more.last().id.0@, 0);
        if e == more.last() {
            assert(more[more.len() - 1] == e);
        } else {
            assert(rest.contains(e)) by {
                if i < rest.len() {
                    assert(rest[i] == e);
                }
            }
            let k = choose|k: int| 0 <= k < rest.len() && rest[k] == e;
            lemma_entities_stem(s, more.drop_last(), k);
            if more.drop_last().contains(e) {
                let j = choose|j: int| 0 <= j < more.drop_last().len() && more.drop_last()[j] == e;
                assert(more[j] == e);
            }
        }
    }
}

/// What loading gathers parts the mounts: those that serve, with their schemas
/// and entities, and those held back, each in order.
proof fn lemma_loading_parts<B: MemBackend, H: Host>(
    h: &Surroundings<H>,
    mounted: Seq<MountedBackend<B>>,
    tiers: Tiers,
    trace: Seq<LoadingView>,
    fates: Seq<Fate>,
)
    requires
        all_load(h, mounted, tiers, trace, fates),
    ensures
        records_of(serving(mounted, fates)) == parted(records_of(mounted), held_of(fates), false),
        held_records(trace.last().quarantined) == parted(
            records_of(mounted),
            held_of(fates),
            true,
        ),
        schema_names(trace.last().schemas) == served_names(serving(mounted, fates)),
        loads_own(h) ==> forall|i: int|
            0 <= i < trace.last().entities.len() ==> of_served(
                serving(mounted, fates),
                #[trigger] trace.last().entities[i],
            ),
    decreases mounted.len(),
{
    let n = mounted.len();
    let now = serving(mounted, fates);
    if n == 0 {
        assert(records_of(now) =~= Seq::empty());
        assert(held_records(trace.last().quarantined) =~= Seq::empty());
        assert(schema_names(trace.last().schemas) =~= served_names(now));
    } else {
        let head = mounted.drop_last();
        let past = trace.drop_last();
        let before = fates.drop_last();
        assert forall|i: int| 0 <= i < head.len() implies mount_loads(
            h,
            head[i],
            tiers,
            past[i],
            past[i + 1],
            #[trigger] before[i],
        ) by {
            assert(before[i] == fates[i]);
        }
        assert(all_load(h, head, tiers, past, before));
        lemma_loading_parts(h, head, tiers, past, before);
        let m = mounted[n - 1];
        let fate = fates[n - 1];
        let kept = serving(head, before);
        let last = past.last();
        let next = trace.last();
        assert(mount_loads(h, m, tiers, trace[n - 1], trace[n - 1 + 1], fate));
        assert(records_of(mounted).drop_last() =~= records_of(head));
        assert(held_of(fates).drop_last() =~= held_of(before));
        if fate == Fate::Quarantined {
            law_quarantine_holds_one_mem_back(h, m, tiers, last, next);
            assert(held_records(next.quarantined) =~= held_records(last.quarantined).push(
                m.mount,
            )) by {
                assert(next.quarantined =~= last.quarantined.push(next.quarantined.last()));
            }
        } else {
            law_serving_mount_has_its_schema(h, m, tiers, last, next, fate);
            assert(records_of(now) =~= records_of(kept).push(m.mount));
            assert(schema_names(next.schemas) =~= schema_names(last.schemas).push(m.mount.mem@))
                by {
                assert(next.schemas =~= last.schemas.push(next.schemas.last()));
            }
            assert(served_names(now) =~= served_names(kept).push(m.mount.mem@));
        }
        if loads_own(h) {
            assert forall|i: int| 0 <= i < next.entities.len() implies of_served(
                now,
                #[trigger] next.entities[i],
            ) by {
                let e = next.entities[i];
                lemma_loaded_entity(h, m, tiers, last, next, fate, i);
                if last.entities.contains(e) {
                    let k = choose|k: int| 0 <= k < last.entities.len() && last.entities[k] == e;
                    assert(of_served(kept, last.entities[k]));
                    let j = choose|j: int|
                        0 <= j < kept.len() && (#[trigger] kept[j]).mount.mem@ == e.mem@;
                    assert(now[j] == kept[j]);
                } else {
                    assert(now[now.len() - 1].mount.mem@ == e.mem@);
                }
            }
        }
    }
}

/// An entity that loading a mount leaves stood there before, or is of the
/// mount's mem, which then serves.
proof fn lemma_loaded_entity<B: MemBackend, H: Host>(
    h: &Surroundings<H>,
    m: MountedBackend<B>,
    tiers: Tiers,
    pre: LoadingView,
    post: LoadingView,
    fate: Fate,
    i: int,
)
    requires
        mount_loads(h, m, tiers, pre, post, fate),
        loads_own(h),
        0 <= i < post.entities.len(),
    ensures
        pre.entities.contains(post.entities[i]) || (post.entities[i].mem@ == m.mount.mem@ && fate
            != Fate::Quarantined),
{
    let e = post.entities[i];
    if post.entities == pre.entities {
        assert(pre.entities.contains(e));
    } else {
        let (embedded, a) = choose|embedded: Seq<Arc<Schema>>, a: Admission|
            carries(h, m.mount, embedded) && #[trigger] admits(
                m.mount,
                m.mem_config,
                tiers,
                embedded,
                a,
            ) && admitted_loads(h, m, a, texts(tiers.mem_names@), pre, post, fate);
        let schema = a.verdict->Serves_0;
        let known = texts(tiers.mem_names@);
        let seen = LoadingView {
            warnings: pre.warnings + hints(a.mismatch) + hints(a.skew) + hints(a.behind) + hints(
                a.headings,
            ),
            ..pre
        };
        assert(entities_load(h, m, schema, known, seen, post, fate));
        let reply = choose|
            reply: Result<Vec<(String, Result<Vec<u8>, String>)>, BackendError>,
        | #[trigger]
            reads_reply(&m.backend, reply) && match reply {
                Err(e) => false,
                Ok(reads) => files_load(h, m, schema, known, reads@, seen, post, fate),
            };
        let reads = reply->Ok_0@;
        assert(files_load(h, m, schema, known, reads, seen, post, fate));
        let (hint, load) = choose|hint: Option<WarningHint>, load: LoadResult|
            #![trigger probed_hint(m.mount, &m.backend, Some(read_entries(reads).len()), hint), parse_reply(h, read_entries(reads), read_failures(reads), m.mount.mem@, schema, known, load)]
            probed_hint(m.mount, &m.backend, Some(read_entries(reads).len()), hint) && parse_reply(
                h,
                read_entries(reads),
                read_failures(reads),
                m.mount.mem@,
                schema,
                known,
                load,
            ) && post.entities == with_entities(seen.entities, load.entities@);
        lemma_entities_stem(seen.entities, load.entities@, i);
        if load.entities@.contains(e) {
            let k = choose|k: int| 0 <= k < load.entities@.len() && load.entities@[k] == e;
            assert(load.entities@[k].mem@ == m.mount.mem@);
        }
    }
}

/// The names under which schemas stand.
pub open spec fn schema_names(schemas: Seq<(String, Arc<Schema>)>) -> Seq<Seq<char>> {
    schemas.map_values(|s: (String, Arc<Schema>)| s.0@)
}

/// The names of the mems that serve.
pub open spec fn served_names<B>(mounts: Seq<MountedBackend<B>>) -> Seq<Seq<char>> {
    mounts.map_values(|m: MountedBackend<B>| m.mount.mem@)
}

/// A record of a part was given, and for it `held` is as the part says.
proof fn lemma_parted(records: Seq<Mount>, held: Seq<bool>, want: bool, i: int) -> (k: int)
    requires
        held.len() == records.len(),
        0 <= i < parted(records, held, want).len(),
    ensures
        0 <= k < records.len(),
        held[k] == want,
        records[k] == parted(records, held, want)[i],
    decreases records.len(),
{
    let rest = parted(records.drop_last(), held.drop_last(), want);
    if i < rest.len() {
        lemma_parted(records.drop_last(), held.drop_last(), want, i)
    } else {
        records.len() - 1
    }
}

/// Two records of a part were given in their order.
proof fn lemma_parted_order(
    records: Seq<Mount>,
    held: Seq<bool>,
    want: bool,
    i: int,
    j: int,
) -> (at: (int, int))
    requires
        held.len() == records.len(),
        0 <= i < j < parted(records, held, want).len(),
    ensures
        0 <= at.0 < at.1 < records.len(),
        records[at.0] == parted(records, held, want)[i],
        records[at.1] == parted(records, held, want)[j],
    decreases records.len(),
{
    let rest = parted(records.drop_last(), held.drop_last(), want);
    if j < rest.len() {
        lemma_parted_order(records.drop_last(), held.drop_last(), want, i, j)
    } else {
        (lemma_parted(records.drop_last(), held.drop_last(), want, i), records.len() - 1)
    }
}

/// Without a duplicate no two mounts have the same mem.
proof fn lemma_no_duplicate<B>(mounts: Seq<(Mount, Storage<B>)>, n: int, i: int, j: int)
    requires
        duplicate_from(mounts, n) is None,
        0 <= n <= j < mounts.len(),
        0 <= i < j,
    ensures
        mounts[i].0.mem@ != mounts[j].0.mem@,
    decreases mounts.len() - n,
{
    if n < j {
        lemma_no_duplicate(mounts, n + 1, i, j);
    } else {
        assert(mounts[i].0.mem@ != mounts[j].0.mem@);
    }
}

/// An engine parts the mounts given: each serves or is held back, none is
/// both, and both rosters keep the order given. No two mounts are of the same
/// mem. The mems that have a schema
/// are those that serve, in the same order. Where the host's loader gives
/// entities the mem that it loads and its relation pass brings in no other,
/// every entity that is no stub is of a mem that serves, so none is of a mem
/// that is held back.
pub proof fn law_rosters_part_the_mounts<B: MemBackend, H: Host>(
    host: Surroundings<H>,
    mounts: Seq<(Mount, Storage<B>)>,
    workspace: Seq<Arc<Schema>>,
    failed: Seq<FailedSchemaPackage>,
    engine: Engine<B, H>,
)
    requires
        boots(host, mounts, workspace, failed, Ok::<Engine<B, H>, EngineError>(engine)),
    ensures
        exists|held: Seq<bool>| #[trigger] parts_roster(engine, given_records(mounts), held),
        mems_apart(engine.mounts@),
        forall|i: int, j: int|
            0 <= i < engine.mounts@.len() && 0 <= j < engine.quarantined@.len() ==> (
            #[trigger] engine.mounts@[i]).mount.mem@ != (
            #[trigger] engine.quarantined@[j]).mount.mem@,
        schema_names(engine.schemas@) == served_names(engine.mounts@),
        loads_own(&host) && keeps_mems(&host) ==> forall|i: int|
            0 <= i < engine.store.entities@.len() && !(
            #[trigger] engine.store.entities@[i]).stub ==> of_served(
                engine.mounts@,
                engine.store.entities@[i],
            ) && forall|j: int|
                0 <= j < engine.quarantined@.len() ==> (
                #[trigger] engine.quarantined@[j]).mount.mem@
                    != engine.store.entities@[i].mem@,
{
    let reply = choose|reply: Result<Vec<Arc<Schema>>, String>| #[trigger]
        builtin_reply(&host, reply) && match reply {
            Err(m) => false,
            Ok(builtins) => loads_over(host, mounts, workspace, builtins@, failed, engine),
        };
    let builtins = reply->Ok_0@;
    let (mounted, tiers, trace, fates) = choose|
        mounted: Seq<MountedBackend<B>>,
        tiers: Tiers,
        trace: Seq<LoadingView>,
        fates: Seq<Fate>,
    |
        mounted.len() == mounts.len() && (forall|i: int|
            0 <= i < mounts.len() ==> is_probed(mounts[i], #[trigger] mounted[i]))
            && tiers.workspace@ == workspace && tiers.builtins@ == builtins && tiers.failed@
            == failed && texts(tiers.mem_names@) == roster(mounts) && version_reply(
            &host,
            tiers.running,
        ) && #[trigger] all_load(&host, mounted, tiers, trace, fates) && is_engine_of(
            host,
            mounted,
            tiers,
            trace,
            fates,
            engine,
        );
    lemma_loading_parts(&host, mounted, tiers, trace, fates);
    let records = given_records(mounts);
    let held = held_of(fates);
    assert(records_of(mounted) =~= records) by {
        assert forall|i: int| 0 <= i < mounts.len() implies records_of(mounted)[i] == records[i] by {
            assert(is_probed(mounts[i], mounted[i]));
        }
    }
    assert(parts_roster(engine, records, held));
    assert forall|i: int, j: int|
        #![trigger engine.mounts@[i], engine.mounts@[j]]
        0 <= i < j < engine.mounts@.len() implies engine.mounts@[i].mount.mem@
        != engine.mounts@[j].mount.mem@ by {
        assert(records_of(engine.mounts@)[i] == engine.mounts@[i].mount);
        assert(records_of(engine.mounts@)[j] == engine.mounts@[j].mount);
        let at = lemma_parted_order(records, held, false, i, j);
        lemma_no_duplicate(mounts, 0, at.0, at.1);
    }
    assert forall|i: int, j: int|
        0 <= i < engine.mounts@.len() && 0 <= j < engine.quarantined@.len() implies (
    #[trigger] engine.mounts@[i]).mount.mem@ != (#[trigger] engine.quarantined@[j]).mount.mem@ by {
        assert(records_of(engine.mounts@)[i] == engine.mounts@[i].mount);
        assert(held_records(engine.quarantined@)[j] == engine.quarantined@[j].mount);
        let k = lemma_parted(records, held, false, i);
        let l = lemma_parted(records, held, true, j);
        if k < l {
            lemma_no_duplicate(mounts, 0, k, l);
        } else {
            lemma_no_duplicate(mounts, 0, l, k);
        }
    }
    if loads_own(&host) && keeps_mems(&host) {
        let loaded = trace.last();
        let told = choose|told: (Store, Vec<WarningHint>)| #[trigger]
            relations_reply(
                &host,
                loaded.entities,
                loaded.schemas,
                capabilities(engine.mounts@),
                told,
            ) && engine.store.entities@ == told.0.entities@ && engine.load_warnings@ == holding(
                loaded.warnings + told.1@,
                told.0.entities@,
            );
        assert forall|i: int|
            0 <= i < engine.store.entities@.len() && !(
            #[trigger] engine.store.entities@[i]).stub implies of_served(
            engine.mounts@,
            engine.store.entities@[i],
        ) && forall|j: int|
            0 <= j < engine.quarantined@.len() ==> (
            #[trigger] engine.quarantined@[j]).mount.mem@ != engine.store.entities@[i].mem@ by {
            let e = told.0.entities@[i];
            let k = choose|k: int|
                0 <= k < loaded.entities.len() && (#[trigger] loaded.entities[k]).mem@ == e.mem@;
            assert(of_served(engine.mounts@, loaded.entities[k]));
            let at = choose|at: int|
                0 <= at < engine.mounts@.len() && (#[trigger] engine.mounts@[at]).mount.mem@
                    == loaded.entities[k].mem@;
            assert(engine.mounts@[at].mount.mem@ == e.mem@);
        }
    }
}

/// Whether an engine of one mem holds what loading these files gives: the
/// host's loader parsed them under the mem's schema, knowing of no other mem,
/// and its relation pass went over the entities.
pub open spec fn loaded_from<B, H: Host>(
    engine: Engine<B, H>,
    mem: Seq<char>,
    entries: Seq<(Seq<char>, Seq<char>)>,
    failures: Seq<(Seq<char>, Seq<char>)>,
) -> bool {
    exists|schema: Arc<Schema>, load: LoadResult, told: (Store, Vec<WarningHint>)|
        #![trigger parse_reply(&engine.host, entries, failures, mem, schema, seq![mem], load), relations_reply(&engine.host, with_entities(Seq::empty(), load.entities@), engine.schemas@, capabilities(engine.mounts@), told)]
        schema_of(engine.schemas@, mem) == Some(schema) && parse_reply(
            &engine.host,
            entries,
            failures,
            mem,
            schema,
            seq![mem],
            load,
        ) && relations_reply(
            &engine.host,
            with_entities(Seq::empty(), load.entities@),
            engine.schemas@,
            capabilities(engine.mounts@),
            told,
        ) && engine.store.entities@ == told.0.entities@
}

/// An engine over one eager mount that serves holds what loading the files
/// gives that the mount's storage read.
pub proof fn law_one_mount_serves_what_it_reads<B: MemBackend, H: Host>(
    host: Surroundings<H>,
    mount: Mount,
    backend: Storage<B>,
    workspace: Seq<Arc<Schema>>,
    failed: Seq<FailedSchemaPackage>,
    engine: Engine<B, H>,
) -> (reads: Vec<(String, Result<Vec<u8>, String>)>)
    requires
        boots(
            host,
            seq![(mount, backend)],
            workspace,
            failed,
            Ok::<Engine<B, H>, EngineError>(engine),
        ),
        mount.lifecycle == MountLifecycle::Eager,
        engine.mounts@.len() > 0,
    ensures
        reads_reply(
            &backend,
            Ok::<Vec<(String, Result<Vec<u8>, String>)>, BackendError>(reads),
        ),
        loaded_from(engine, mount.mem@, read_entries(reads@), read_failures(reads@)),
        engine.host == host,
{
    let mounts = seq![(mount, backend)];
    let reply = choose|reply: Result<Vec<Arc<Schema>>, String>| #[trigger]
        builtin_reply(&host, reply) && match reply {
            Err(m) => false,
            Ok(builtins) => loads_over(host, mounts, workspace, builtins@, failed, engine),
        };
    let builtins = reply->Ok_0@;
    let (mounted, tiers, trace, fates) = choose|
        mounted: Seq<MountedBackend<B>>,
        tiers: Tiers,
        trace: Seq<LoadingView>,
        fates: Seq<Fate>,
    |
        mounted.len() == mounts.len() && (forall|i: int|
            0 <= i < mounts.len() ==> is_probed(mounts[i], #[trigger] mounted[i]))
            && tiers.workspace@ == workspace && tiers.builtins@ == builtins && tiers.failed@
            == failed && texts(tiers.mem_names@) == roster(mounts) && version_reply(
            &host,
            tiers.running,
        ) && #[trigger] all_load(&host, mounted, tiers, trace, fates) && is_engine_of(
            host,
            mounted,
            tiers,
            trace,
            fates,
            engine,
        );
    let m = mounted[0];
    assert(is_probed(mounts[0], mounted[0]));
    assert(mount_loads(&host, mounted[0], tiers, trace[0], trace[1], fates[0]));
    let known = texts(tiers.mem_names@);
    assert(known =~= seq![mount.mem@]);
    assert(serving(mounted.drop_last(), fates.drop_last()) =~= Seq::empty());
    assert(fates.last() == fates[0]);
    let (embedded, a) = choose|embedded: Seq<Arc<Schema>>, a: Admission|
        carries(&host, m.mount, embedded) && #[trigger] admits(
            m.mount,
            m.mem_config,
            tiers,
            embedded,
            a,
        ) && admitted_loads(&host, m, a, known, trace[0], trace[1], fates[0]);
    let schema = a.verdict->Serves_0;
    let seen = LoadingView {
        warnings: trace[0].warnings + hints(a.mismatch) + hints(a.skew) + hints(a.behind) + hints(
            a.headings,
        ),
        ..trace[0]
    };
    assert(entities_load(&host, m, schema, known, seen, trace[1], fates[0]));
    let reply = choose|reply: Result<Vec<(String, Result<Vec<u8>, String>)>, BackendError>|
        #[trigger]
        reads_reply(&m.backend, reply) && match reply {
            Err(e) => false,
            Ok(reads) => files_load(
                &host,
                m,
                schema,
                known,
                reads@,
                seen,
                trace[1],
                fates[0],
            ),
        };
    let reads = reply->Ok_0;
    assert(files_load(&host, m, schema, known, reads@, seen, trace[1], fates[0]));
    let (hint, load) = choose|hint: Option<WarningHint>, load: LoadResult|
        #![trigger probed_hint(m.mount, &m.backend, Some(read_entries(reads@).len()), hint), parse_reply(&host, read_entries(reads@), read_failures(reads@), m.mount.mem@, schema, known, load)]
        probed_hint(m.mount, &m.backend, Some(read_entries(reads@).len()), hint) && parse_reply(
            &host,
            read_entries(reads@),
            read_failures(reads@),
            m.mount.mem@,
            schema,
            known,
            load,
        ) && trace[1] == (LoadingView {
            entities: with_entities(seen.entities, load.entities@),
            schemas: seen.schemas.push((m.mount.mem, schema)),
            errors: seen.errors + located(m.mount.storage, views(load.errors@)),
            warnings: seen.warnings + hints(hint) + load.warnings@,
            quarantined: seen.quarantined,
        });
    assert(trace.last() == trace[1]);
    assert(seen.entities =~= Seq::empty());
    assert(engine.schemas@ =~= seq![(m.mount.mem, schema)]);
    assert(schema_of(engine.schemas@, mount.mem@) == Some(schema));
    let told = choose|told: (Store, Vec<WarningHint>)| #[trigger]
        relations_reply(
            &host,
            trace.last().entities,
            trace.last().schemas,
            capabilities(engine.mounts@),
            told,
        ) && engine.store.entities@ == told.0.entities@;
    assert(relations_reply(
        &engine.host,
        with_entities(Seq::empty(), load.entities@),
        engine.schemas@,
        capabilities(engine.mounts@),
        told,
    ));
    reads
}

/// Whether nothing that is outside the engine keeps a mount from serving: the
/// built-in schemas can be had, the workspace answers the pin that the mem is
/// held to, and the storage is there and reads.
pub open spec fn can_serve<B: MemBackend, H: Host>(
    h: &Surroundings<H>,
    mount: Mount,
    backend: Storage<B>,
    workspace: Seq<Arc<Schema>>,
) -> bool {
    &&& forall|reply: Result<Vec<Arc<Schema>>, String>| #[trigger]
        builtin_reply(h, reply) ==> reply is Ok
    &&& forall|config: Option<MemConfig>| #[trigger]
        config_reply(&backend, config) ==> (effective_pin(mount, config) matches Some(pin) && held(
            workspace,
            pin,
        ))
    &&& forall|reply: Result<Vec<(String, Result<Vec<u8>, String>)>, BackendError>| #[trigger]
        reads_reply(&backend, reply) ==> reply is Ok
    &&& forall|present: Result<bool, BackendError>| #[trigger]
        present_reply(&backend, present) ==> counts_as_present(present)
}

/// One eager mount that nothing outside keeps from serving is served: an
/// engine over it boots, with that mount and nothing held back.
pub proof fn law_one_mount_is_served<B: MemBackend, H: Host>(
    host: Surroundings<H>,
    mount: Mount,
    backend: Storage<B>,
    workspace: Seq<Arc<Schema>>,
    failed: Seq<FailedSchemaPackage>,
    r: Result<Engine<B, H>, EngineError>,
)
    requires
        boots(host, seq![(mount, backend)], workspace, failed, r),
        mount.lifecycle == MountLifecycle::Eager,
        can_serve(&host, mount, backend, workspace),
    ensures
        r matches Ok(engine) && engine.host == host && engine.mounts@.len() == 1
            && engine.mounts@[0].mount == mount && engine.mounts@[0].backend == backend
            && engine.quarantined@.len() == 0,
{
    let mounts = seq![(mount, backend)];
    reveal_with_fuel(duplicate_from, 2);
    let reply = choose|reply: Result<Vec<Arc<Schema>>, String>| #[trigger]
        builtin_reply(&host, reply) && match reply {
            Err(m) => r matches Err(EngineError::SchemaResolverInit(e)) && e == m,
            Ok(builtins) => r matches Ok(engine) && loads_over(
                host,
                mounts,
                workspace,
                builtins@,
                failed,
                engine,
            ),
        };
    let engine = r->Ok_0;
    let builtins = reply->Ok_0@;
    let (mounted, tiers, trace, fates) = choose|
        mounted: Seq<MountedBackend<B>>,
        tiers: Tiers,
        trace: Seq<LoadingView>,
        fates: Seq<Fate>,
    |
        mounted.len() == mounts.len() && (forall|i: int|
            0 <= i < mounts.len() ==> is_probed(mounts[i], #[trigger] mounted[i]))
            && tiers.workspace@ == workspace && tiers.builtins@ == builtins && tiers.failed@
            == failed && texts(tiers.mem_names@) == roster(mounts) && version_reply(
            &host,
            tiers.running,
        ) && #[trigger] all_load(&host, mounted, tiers, trace, fates) && is_engine_of(
            host,
            mounted,
            tiers,
            trace,
            fates,
            engine,
        );
    let m = mounted[0];
    assert(is_probed(mounts[0], mounted[0]));
    assert(mount_loads(&host, mounted[0], tiers, trace[0], trace[1], fates[0]));
    let known = texts(tiers.mem_names@);
    let (embedded, a) = choose|embedded: Seq<Arc<Schema>>, a: Admission|
        carries(&host, m.mount, embedded) && #[trigger] admits(
            m.mount,
            m.mem_config,
            tiers,
            embedded,
            a,
        ) && admitted_loads(&host, m, a, known, trace[0], trace[1], fates[0]);
    assert(config_reply(&backend, m.mem_config));
    let pin = effective_pin(mount, m.mem_config)->0;
    let all = catalogue_of(tiers, embedded);
    lemma_pin_index(workspace, pin, 0);
    lemma_pin_index(all, pin, 0);
    let k = pin_index(workspace, pin, 0)->0;
    assert(all[k] == workspace[k]);
    let schema = a.verdict->Serves_0;
    let seen = LoadingView {
        warnings: trace[0].warnings + hints(a.mismatch) + hints(a.skew) + hints(a.behind) + hints(
            a.headings,
        ),
        ..trace[0]
    };
    assert(entities_load(&host, m, schema, known, seen, trace[1], fates[0]));
    assert(fates[0] == Fate::Serving);
    assert(serving(mounted.drop_last(), fates.drop_last()) =~= Seq::empty());
    assert(fates.last() == fates[0]);
    assert(trace.last() == trace[1]);
}

/// Whether the host's loader gives the entity `id` for a mem in which a file
/// reads so.
pub open spec fn loads_file<H: Host>(
    h: &Surroundings<H>,
    mem: Seq<char>,
    path: Seq<char>,
    content: Seq<char>,
    id: Seq<char>,
) -> bool {
    forall|
        entries: Seq<(Seq<char>, Seq<char>)>,
        failures: Seq<(Seq<char>, Seq<char>)>,
        schema: Arc<Schema>,
        known: Seq<Seq<char>>,
        load: LoadResult,
    | #[trigger]
        parse_reply(h, entries, failures, mem, schema, known, load) && entries.contains(
            (path, content),
        ) ==> exists|i: int|
            0 <= i < load.entities@.len() && (#[trigger] load.entities@[i]).id.0@ == id
}

/// Whether a mount that serves is one of those that were given.
pub open spec fn was_given<B>(mounts: Seq<(Mount, Storage<B>)>, m: MountedBackend<B>) -> bool {
    exists|k: int|
        0 <= k < mounts.len() && (#[trigger] mounts[k]).0 == m.mount && mounts[k].1 == m.backend
}

/// Whether a mount stands among those that serve or among those held back.
pub open spec fn roster_holds<B>(
    serving: Seq<MountedBackend<B>>,
    quarantined: Seq<QuarantinedMem>,
    mount: Mount,
) -> bool {
    (exists|k: int| 0 <= k < serving.len() && (#[trigger] serving[k]).mount == mount) || (exists|
        k: int,
    | 0 <= k < quarantined.len() && (#[trigger] quarantined[k]).mount == mount)
}

impl<B: MemBackend, H: Host> Engine<B, H> {
    /// Build an engine from mounts and their backends. Two mounts of one mem
    /// are refused; no mounts are allowed.
    pub fn from_mounts(
        host: Surroundings<H>,
        mounts: Vec<(Mount, Storage<B>)>,
    ) -> (r: Result<Engine<B, H>, EngineError>)
        ensures
            boots(host, mounts@, Seq::empty(), Seq::empty(), r),
    {
        Engine::from_mounts_inner(host, mounts, Vec::new(), Vec::new())
    }

    /// Build an engine from mounts and the schemas of a workspace directory.
    /// A schema of the workspace wins over a built-in one of the same name and
    /// version.
    pub fn from_mounts_with_schemas_dir(
        host: Surroundings<H>,
        mounts: Vec<(Mount, Storage<B>)>,
        schemas_dir: Option<&Vec<SchemaEntry>>,
    ) -> (r: Result<Engine<B, H>, EngineError>)
        ensures
            exists|local: Vec<Arc<Schema>>, failed: Vec<FailedSchemaPackage>|
                is_listing(schemas_dir, local@, failed@) && #[trigger] boots(
                    host,
                    mounts@,
                    local@,
                    failed@,
                    r,
                ),
    {
        let (local, failed) = load_workspace_schemas_with_failures(schemas_dir);
        assert(is_listing(schemas_dir, local@, failed@));
        Engine::from_mounts_inner(host, mounts, local, failed)
    }

    /// Build an engine from mounts, the schemas of a workspace directory and
    /// further schemas of local storage behind them.
    pub fn from_mounts_with_schemas_dir_and_extra(
        host: Surroundings<H>,
        mounts: Vec<(Mount, Storage<B>)>,
        schemas_dir: Option<&Vec<SchemaEntry>>,
        extra: Vec<Arc<Schema>>,
    ) -> (r: Result<Engine<B, H>, EngineError>)
        ensures
            exists|local: Vec<Arc<Schema>>, failed: Vec<FailedSchemaPackage>|
                is_listing(schemas_dir, local@, failed@) && #[trigger] boots(
                    host,
                    mounts@,
                    local@ + extra@,
                    failed@,
                    r,
                ),
    {
        let (local, failed) = load_workspace_schemas_with_failures(schemas_dir);
        assert(is_listing(schemas_dir, local@, failed@));
        let ghost listed = local;
        let mut all = local;
        let mut more = extra;
        all.append(&mut more);
        assert(all@ =~= listed@ + extra@);
        Engine::from_mounts_inner(host, mounts, all, failed)
    }

    /// Build an engine from mounts and their backends over the schemas of the
    /// workspace, given the packages that did not load.
    pub fn from_mounts_inner(
        host: Surroundings<H>,
        mounts: Vec<(Mount, Storage<B>)>,
        extra_schemas: Vec<Arc<Schema>>,
        failed_schema_packages: Vec<FailedSchemaPackage>,
    ) -> (r: Result<Engine<B, H>, EngineError>)
        ensures
            boots(host, mounts@, extra_schemas@, failed_schema_packages@, r),
    {
        let ghost given = mounts@;
        let ghost workspace = extra_schemas@;
        let ghost packages = failed_schema_packages@;
        let mut mounted: Vec<MountedBackend<B>> = Vec::new();
        let mut rest = mounts;
        assert(given.skip(0) =~= given);
        while rest.len() > 0
            invariant
                given == mounts@,
                rest@ == given.skip(mounted@.len() as int),
                mounted@.len() <= given.len(),
                forall|i: int|
                    0 <= i < mounted@.len() ==> is_probed(given[i], #[trigger] mounted@[i]),
                duplicate_from(given, 0) == duplicate_from(given, mounted@.len() as int),
            decreases rest@.len(),
        {
            let ghost at = mounted@.len() as int;
            assert(rest@[0] == given[at]);
            let (mount, backend) = rest.remove(0);
            assert(rest@ =~= given.skip(at + 1));
            for k in 0..mounted.len()
                invariant
                    given == mounts@,
                    at == mounted@.len(),
                    0 <= at < given.len(),
                    mount == given[at].0,
                    forall|i: int|
                        0 <= i < mounted@.len() ==> is_probed(given[i], #[trigger] mounted@[i]),
                    duplicate_from(given, 0) == duplicate_from(given, at),
                    forall|j: int| 0 <= j < k ==> (#[trigger] given[j]).0.mem@ != mount.mem@,
            {
                assert(mounted@[k as int].mount == given[k as int].0);
                if same(&mounted[k].mount.mem, &mount.mem) {
                    assert(given[k as int].0.mem@ == given[at].0.mem@);
                    return Err(EngineError::DuplicateMem(mount.mem));
                }
            }
            mounted.push(probe(mount, backend));
        }
        assert(duplicate_from(given, 0) is None);
        let reply = host.builtin_schemas();
        let ghost answered = reply;
        assert(builtin_reply(&host, answered));
        let builtins = match reply {
            Ok(b) => b,
            Err(m) => {
                return Err(EngineError::SchemaResolverInit(m));
            },
        };
        let running = host.engine_version();
        let mut mem_names: Vec<String> = Vec::new();
        for i in 0..mounted.len()
            invariant
                mounted@.len() == given.len(),
                forall|k: int|
                    0 <= k < mounted@.len() ==> is_probed(given[k], #[trigger] mounted@[k]),
                texts(mem_names@) == roster(given).take(i as int),
        {
            let ghost done = texts(mem_names@);
            mem_names.push(mounted[i].mount.mem.clone());
            assert(mounted@[i as int].mount == given[i as int].0);
            assert(texts(mem_names@) =~= done.push(given[i as int].0.mem@));
            assert(roster(given).take(i + 1) =~= done.push(roster(given)[i as int]));
        }
        assert(roster(given).take(given.len() as int) =~= roster(given));
        let tiers = Tiers {
            workspace: extra_schemas,
            builtins,
            failed: failed_schema_packages,
            running,
            mem_names,
        };
        let ghost t = tiers;
        let ghost probed = mounted@;
        let mut state = Loading {
            store: Store::new(),
            schemas: Vec::new(),
            load_errors: Vec::new(),
            load_warnings: Vec::new(),
            quarantined: Vec::new(),
        };
        assert(state@ =~= nothing_loaded());
        let mut fates: Vec<Fate> = Vec::new();
        let ghost mut trace: Seq<LoadingView> = seq![state@];
        for i in 0..mounted.len()
            invariant
                probed == mounted@,
                t == tiers,
                trace.len() == i + 1,
                fates@.len() == i,
                trace[0] == nothing_loaded(),
                trace[i as int] == state@,
                forall|k: int|
                    0 <= k < i ==> mount_loads(
                        &host,
                        probed[k],
                        t,
                        trace[k],
                        trace[k + 1],
                        #[trigger] fates@[k],
                    ),
        {
            let ghost past = trace;
            let ghost before = fates@;
            let fate = load_mount(&host, &mounted[i], &tiers, &mut state);
            fates.push(fate);
            proof {
                trace = past.push(state@);
                assert forall|k: int| 0 <= k < i + 1 implies mount_loads(
                    &host,
                    probed[k],
                    t,
                    trace[k],
                    trace[k + 1],
                    #[trigger] fates@[k],
                ) by {
                    if k < i {
                        assert(fates@[k] == before[k]);
                        assert(trace[k] == past[k] && trace[k + 1] == past[k + 1]);
                    }
                }
            }
        }
        assert(all_load(&host, probed, t, trace, fates@));
        let ghost fate_list = fates@;
        let mut kept: Vec<MountedBackend<B>> = Vec::new();
        let mut waiting = mounted;
        let mut at: usize = 0;
        let n: usize = fates.len();
        assert(probed.skip(0) =~= probed);
        assert(serving(probed.take(0), fate_list.take(0)) =~= Seq::empty());
        while at < n
            invariant
                n == fates@.len(),
                at <= n,
                fate_list == fates@,
                probed.len() == n,
                waiting@ == probed.skip(at as int),
                kept@ == serving(probed.take(at as int), fate_list.take(at as int)),
            decreases n - at,
        {
            assert(waiting@[0] == probed[at as int]);
            let mut m = waiting.remove(0);
            proof {
                assert(waiting@ =~= probed.skip(at + 1));
                assert(probed.take(at + 1).drop_last() =~= probed.take(at as int));
                assert(fate_list.take(at + 1).drop_last() =~= fate_list.take(at as int));
            }
            match fates[at] {
                Fate::Quarantined => {},
                Fate::Deferred => {
                    m.deferred = true;
                    kept.push(m);
                },
                Fate::Serving => {
                    m.deferred = false;
                    kept.push(m);
                },
            }
            at = at + 1;
        }
        assert(probed.take(n as int) =~= probed);
        assert(fate_list.take(n as int) =~= fate_list);
        let Loading { store, schemas, load_errors, load_warnings, quarantined } = state;
        let ghost loaded = trace.last();
        let allowed = capabilities_of(&kept);
        let (checked, more) = host.validate_loaded_relations(store, &schemas, &allowed);
        let ghost relations = (checked, more);
        assert(relations_reply(
            &host,
            loaded.entities,
            loaded.schemas,
            capabilities(kept@),
            relations,
        ));
        let mut warnings = load_warnings;
        let mut found = more;
        warnings.append(&mut found);
        let held = keep_holding(warnings, &checked);
        let router = build_mem_router_from_mounts(&kept);
        let engine = Engine {
            host,
            mounts: kept,
            store: checked,
            schemas,
            workspace_schemas: tiers.workspace,
            builtin_schemas: tiers.builtins,
            load_errors,
            load_warnings: held,
            quarantined,
            router,
            pending_mem_changed: Vec::new(),
            pending_events: Vec::new(),
            workspace_root: None,
            current_role: None,
            current_identity: None,
        };
        proof {
            assert(relations_reply(
                &engine.host,
                loaded.entities,
                loaded.schemas,
                capabilities(engine.mounts@),
                relations,
            ));
            assert(engine.load_warnings@ == holding(
                loaded.warnings + relations.1@,
                relations.0.entities@,
            ));
            assert(is_engine_of(engine.host, probed, t, trace, fate_list, engine));
            assert(loads_over(engine.host, given, workspace, t.builtins@, packages, engine));
        }
        Ok(engine)
    }
}

/// Whether schemas and failures are those of a directory.
pub open spec fn is_listing(
    entries: Option<&Vec<SchemaEntry>>,
    schemas: Seq<Arc<Schema>>,
    failed: Seq<FailedSchemaPackage>,
) -> bool {
    match entries {
        Some(es) => schemas == loaded_schemas(es@) && failed.len() == failed_entries(es@).len()
            && (forall|i: int|
            0 <= i < failed.len() ==> is_failure_of(
                #[trigger] failed[i],
                failed_entries(es@)[i],
            )),
        None => schemas.len() == 0 && failed.len() == 0,
    }
}

/// The mounts of a workspace whose backend could be made.
pub open spec fn opened<B>(
    mounts: Seq<(Mount, Result<Storage<B>, (String, String)>)>,
) -> Seq<(Mount, Storage<B>)>
    decreases mounts.len(),
{
    if mounts.len() == 0 {
        Seq::empty()
    } else {
        let rest = opened(mounts.drop_last());
        match mounts.last().1 {
            Ok(b) => rest.push((mounts.last().0, b)),
            Err(_) => rest,
        }
    }
}

/// The mounts of a workspace whose backend could not be made, held back with
/// the code and the message of that failure.
pub open spec fn unopened<B>(mounts: Seq<(Mount, Result<Storage<B>, (String, String)>)>) -> Seq<
    QuarantinedMem,
>
    decreases mounts.len(),
{
    if mounts.len() == 0 {
        Seq::empty()
    } else {
        let rest = unopened(mounts.drop_last());
        match mounts.last().1 {
            Ok(_) => rest,
            Err(e) => rest.push(
                QuarantinedMem { mount: mounts.last().0, reason_code: e.0, reason_message: e.1 },
            ),
        }
    }
}

/// Whether `r` is what booting a workspace gives, for what building its
/// engine gave.
pub open spec fn boots_workspace<B, H>(
    root: Seq<char>,
    held: Seq<QuarantinedMem>,
    package: Option<&str>,
    built: Result<Engine<B, H>, EngineError>,
    r: Result<Engine<B, H>, BootError>,
) -> bool {
    match built {
        Err(e) => r matches Err(BootError::Engine(out)) && (match (e, package) {
            (
                EngineError::SchemaNotFound { mem, pin, sources, install_hint },
                Some(p),
            ) if held_version(sources@) is None => out matches EngineError::SchemaNotFound {
                mem: m2,
                pin: p2,
                sources: s2,
                install_hint: Some(h),
            } && m2 == mem && p2 == pin && s2 == sources && h.package@ == p@,
            _ => out == e,
        }),
        Ok(engine) => r matches Ok(out) && out.quarantined@ == engine.quarantined@ + held
            && opt_text(out.workspace_root) == Some(root) && out == (Engine {
            quarantined: out.quarantined,
            workspace_root: out.workspace_root,
            ..engine
        }),
    }
}

impl<B: MemBackend, H: Host> Engine<B, H> {
    /// Boot an engine over a workspace. `mounts` are those of the workspace
    /// store with their backends, or why a backend could not be made; without
    /// them the root is not initialised. `schemas_dir` lists the workspace's
    /// schema packages, and `package` is the authoring folder that would
    /// supply a pin that did not resolve.
    pub fn from_workspace_root(
        host: Surroundings<H>,
        workspace_root: &str,
        mounts: Option<Vec<(Mount, Result<Storage<B>, (String, String)>)>>,
        schemas_dir: Option<&Vec<SchemaEntry>>,
        package: Option<&str>,
    ) -> (r: Result<Engine<B, H>, BootError>)
        ensures
            match mounts {
                None => r matches Err(BootError::NotInitialised(root)) && root@ == workspace_root@,
                Some(ms) => exists|
                    local: Vec<Arc<Schema>>,
                    failed: Vec<FailedSchemaPackage>,
                    built: Result<Engine<B, H>, EngineError>,
                |
                    is_listing(schemas_dir, local@, failed@) && #[trigger] boots(
                        host,
                        opened(ms@),
                        local@,
                        failed@,
                        built,
                    ) && boots_workspace(workspace_root@, unopened(ms@), package, built, r),
            },
    {
        let all = match mounts {
            Some(ms) => ms,
            None => {
                return Err(BootError::NotInitialised(own(workspace_root)));
            },
        };
        let ghost given = all@;
        let mut rest = all;
        let ghost mut done: Seq<(Mount, Result<Storage<B>, (String, String)>)> = Seq::empty();
        let mut ready: Vec<(Mount, Storage<B>)> = Vec::new();
        let mut held: Vec<QuarantinedMem> = Vec::new();
        assert(done + rest@ =~= given);
        while rest.len() > 0
            invariant
                done + rest@ == given,
                ready@ == opened(done),
                held@ == unopened(done),
            decreases rest@.len(),
        {
            let item = rest.remove(0);
            proof {
                let next = done.push(item);
                assert(next.drop_last() =~= done);
                assert(next + rest@ =~= given);
                done = next;
            }
            let (mount, backend) = item;
            match backend {
                Ok(b) => {
                    ready.push((mount, b));
                },
                Err((reason_code, reason_message)) => {
                    held.push(QuarantinedMem { mount, reason_code, reason_message });
                },
            }
        }
        assert(done =~= given);
        let (local, failed) = load_workspace_schemas_with_failures(schemas_dir);
        assert(is_listing(schemas_dir, local@, failed@));
        let built = Engine::from_mounts_inner(host, ready, local, failed);
        let ghost told = built;
        assert(boots(host, opened(given), local@, failed@, told));
        let mut engine = match built {
            Ok(e) => e,
            Err(e) => {
                return Err(BootError::Engine(e.with_schema_install_probe(package)));
            },
        };
        engine.quarantined.append(&mut held);
        engine.workspace_root = Some(own(workspace_root));
        Ok(engine)
    }
}

} // verus!
