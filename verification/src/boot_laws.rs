//! What holds of booting: which schema a mem gets, which mounts serve, what is
//! warned of and what is accounted for.

use crate::backend::{present_reply, reads_reply, BackendError, MemBackend, Storage};
use crate::boot::{
    behind_hint, boots, boots_workspace, duplicate_from, effective_pin, failed_entries, failed_pin,
    header_value, held, holding, is_route, is_router, line_after, loaded_schemas, located_path,
    mismatch_hint, mount_loads, opened, pin_index, pinned, read_entries, read_failures, routed,
    skew_hint, still_holds, unbacked_hint, unopened, unquoted, unquoted_end, unquoted_start,
    FailedSchemaPackage, Fate, LoadingView, SchemaEntry, Tiers,
};
use crate::engine::{
    quarantine_index, says_unknown, schema_index, schema_of, Engine, MountedBackend, QuarantinedMem,
    RouterEntry,
};
use crate::entity::{entity_of, Entity};
use crate::error::{held_version, BootError, EngineError};
use crate::host::{Host, Surroundings};
use crate::ops::{MountUnbackedReason, SkewDirection, WarningHint};
use crate::schema::{type_index, Schema, SchemaRef, TypeDefinition};
use crate::text::{
    closed_lines, is_line, is_space, law_lines_read_back, starts, trim_end, trim_start,
};
use crate::version::{older, semver_precedence, Order};
use crate::workspace::{MemConfig, Mount, MountCapability, MountLifecycle, MountStorage};
use std::sync::Arc;
use vstd::prelude::*;
use vstd::utf8::{decode_utf8, valid_utf8};

verus! {

// ---------------------------------------------------------------------
// Reads
// ---------------------------------------------------------------------

/// Every file that a backend tells of is accounted for: one that was read and
/// is text gives an entry with that text, every other a failure; none gives
/// both, and none gives neither.
pub proof fn law_every_read_is_accounted_for(
    reads: Seq<(String, Result<Vec<u8>, String>)>,
    path: Seq<char>,
    text: Seq<char>,
)
    ensures
        read_entries(reads).len() + read_failures(reads).len() == reads.len(),
        read_entries(reads).contains((path, text)) <==> exists|i: int|
            0 <= i < reads.len() && was_read(#[trigger] reads[i], path, text),
        (exists|k: int|
            0 <= k < read_failures(reads).len() && (#[trigger] read_failures(reads)[k]).0 == path)
            <==> exists|i: int|
            0 <= i < reads.len() && was_not_read(#[trigger] reads[i], path),
    decreases reads.len(),
{
    let es = read_entries(reads);
    let fs = read_failures(reads);
    if reads.len() > 0 {
        let head = reads.drop_last();
        let n = reads.len() - 1;
        let he = read_entries(head);
        let hf = read_failures(head);
        law_every_read_is_accounted_for(head, path, text);
        if es.contains((path, text)) {
            let k = choose|k: int| 0 <= k < es.len() && es[k] == (path, text);
            if k < he.len() {
                assert(he[k] == (path, text));
                assert(he.contains((path, text)));
                let i = choose|i: int| 0 <= i < head.len() && was_read(
                    #[trigger] head[i],
                    path,
                    text,
                );
                assert(was_read(reads[i], path, text));
            } else {
                assert(was_read(reads[n], path, text));
            }
        }
        if exists|i: int| 0 <= i < reads.len() && was_read(#[trigger] reads[i], path, text) {
            let i = choose|i: int| 0 <= i < reads.len() && was_read(
                #[trigger] reads[i],
                path,
                text,
            );
            if i < n {
                assert(was_read(head[i], path, text));
                let k = choose|k: int| 0 <= k < he.len() && he[k] == (path, text);
                assert(es[k] == (path, text));
            } else {
                assert(es[he.len() as int] == (path, text));
            }
        }
        if exists|k: int| 0 <= k < fs.len() && (#[trigger] fs[k]).0 == path {
            let k = choose|k: int| 0 <= k < fs.len() && (#[trigger] fs[k]).0 == path;
            if k < hf.len() {
                assert(hf[k].0 == path);
                let i = choose|i: int| 0 <= i < head.len() && was_not_read(
                    #[trigger] head[i],
                    path,
                );
                assert(was_not_read(reads[i], path));
            } else {
                assert(was_not_read(reads[n], path));
            }
        }
        if exists|i: int| 0 <= i < reads.len() && was_not_read(#[trigger] reads[i], path) {
            let i = choose|i: int| 0 <= i < reads.len() && was_not_read(#[trigger] reads[i], path);
            if i < n {
                assert(was_not_read(head[i], path));
                let k = choose|k: int| 0 <= k < hf.len() && (#[trigger] hf[k]).0 == path;
                assert(fs[k].0 == path);
            } else {
                assert(fs[hf.len() as int].0 == path);
            }
        }
    }
}

/// Whether a read gave a text.
pub open spec fn was_read(
    read: (String, Result<Vec<u8>, String>),
    path: Seq<char>,
    text: Seq<char>,
) -> bool {
    read.0@ == path && (read.1 matches Ok(bytes) && valid_utf8(bytes@) && decode_utf8(bytes@)
        == text)
}

/// Whether a read gave no text.
pub open spec fn was_not_read(read: (String, Result<Vec<u8>, String>), path: Seq<char>) -> bool {
    read.0@ == path && (read.1 matches Ok(bytes) ==> !valid_utf8(bytes@))
}

// ---------------------------------------------------------------------
// Pins and schemas
// ---------------------------------------------------------------------

/// Where the migration of a mem has a target, that is its pin; otherwise what
/// its config says; otherwise what its mount says.
pub proof fn law_pin_goes_by_rank(mount: Mount, config: Option<MemConfig>, pin: SchemaRef)
    ensures
        mount.migration_target == Some(pin) ==> effective_pin(mount, config) == Some(pin),
        mount.migration_target is None && (config matches Some(c) && c.schema == Some(pin))
            ==> effective_pin(mount, config) == Some(pin),
        mount.migration_target is None && (config matches Some(c) ==> c.schema is None)
            ==> effective_pin(mount, config) == mount.schema,
{
}

/// A pin leads to the first schema of a catalogue with its name and version,
/// and to none where there is none.
pub proof fn law_pin_leads_to_its_schema(catalogue: Seq<Arc<Schema>>, pin: SchemaRef)
    ensures
        match pinned(catalogue, pin) {
            Some(s) => s.name@ == pin.name@ && s.version@ == pin.version@ && exists|k: int|
                0 <= k < catalogue.len() && #[trigger] catalogue[k] == s && forall|j: int|
                    0 <= j < k ==> !((#[trigger] catalogue[j]).name@ == pin.name@
                        && catalogue[j].version@ == pin.version@),
            None => forall|j: int|
                0 <= j < catalogue.len() ==> !((#[trigger] catalogue[j]).name@ == pin.name@
                    && catalogue[j].version@ == pin.version@),
        },
{
    lemma_pin_index(catalogue, pin, 0);
    if let Some(k) = pin_index(catalogue, pin, 0) {
        assert(catalogue[k] == pinned(catalogue, pin)->0);
    }
}

/// The first schema that answers a pin.
proof fn lemma_pin_index(catalogue: Seq<Arc<Schema>>, pin: SchemaRef, i: int)
    requires
        0 <= i,
    ensures
        match pin_index(catalogue, pin, i) {
            Some(k) => i <= k < catalogue.len() && catalogue[k].name@ == pin.name@
                && catalogue[k].version@ == pin.version@ && forall|j: int|
                i <= j < k ==> !((#[trigger] catalogue[j]).name@ == pin.name@
                    && catalogue[j].version@ == pin.version@),
            None => forall|j: int|
                i <= j < catalogue.len() ==> !((#[trigger] catalogue[j]).name@ == pin.name@
                    && catalogue[j].version@ == pin.version@),
        },
    decreases catalogue.len() - i,
{
    if i < catalogue.len() {
        lemma_pin_index(catalogue, pin, i + 1);
    }
}

/// The schema of a mem is the first that is listed for it, and the type of a
/// name is the first of the schema with that name.
pub proof fn law_lookups_find_the_first(
    schemas: Seq<(String, Arc<Schema>)>,
    mem: Seq<char>,
    k: int,
    schema: Schema,
    name: Seq<char>,
    t: int,
)
    requires
        0 <= k <= schemas.len(),
        forall|j: int| 0 <= j < k ==> (#[trigger] schemas[j]).0@ != mem,
        k < schemas.len() ==> schemas[k].0@ == mem,
        0 <= t <= schema.types@.len(),
        forall|j: int| 0 <= j < t ==> (#[trigger] schema.types@[j]).name@ != name,
        t < schema.types@.len() ==> schema.types@[t].name@ == name,
    ensures
        schema_of(schemas, mem) == (if k < schemas.len() {
            Some(schemas[k].1)
        } else {
            None
        }),
        schema.type_named(name) == (if t < schema.types@.len() {
            Some(schema.types@[t])
        } else {
            None
        }),
{
    lemma_schema_index(schemas, mem, 0, k);
    lemma_type_index(schema.types@, name, 0, t);
}

/// Where the schema of a mem stands.
proof fn lemma_schema_index(schemas: Seq<(String, Arc<Schema>)>, mem: Seq<char>, i: int, k: int)
    requires
        0 <= i <= k <= schemas.len(),
        forall|j: int| i <= j < k ==> (#[trigger] schemas[j]).0@ != mem,
        k < schemas.len() ==> schemas[k].0@ == mem,
    ensures
        schema_index(schemas, mem, i) == (if k < schemas.len() {
            Some(k)
        } else {
            None
        }),
    decreases k - i,
{
    if i < k {
        lemma_schema_index(schemas, mem, i + 1, k);
    }
}

/// Where the type of a name stands.
proof fn lemma_type_index(types: Seq<TypeDefinition>, name: Seq<char>, i: int, t: int)
    requires
        0 <= i <= t <= types.len(),
        forall|j: int| i <= j < t ==> (#[trigger] types[j]).name@ != name,
        t < types.len() ==> types[t].name@ == name,
    ensures
        type_index(types, name, i) == (if t < types.len() {
            Some(t)
        } else {
            None
        }),
    decreases t - i,
{
    if i < t {
        lemma_type_index(types, name, i + 1, t);
    }
}

/// A mismatch of pins is warned of just where a mem has one in its config and
/// one in its mount and they name different schemas or versions; the warning
/// names the mem and both pins.
pub proof fn law_pin_mismatch_is_warned_of(
    mount: Mount,
    config: MemConfig,
    w: Option<WarningHint>,
)
    requires
        mismatch_hint(mount, Some(config), w),
    ensures
        w is Some <==> (config.schema matches Some(c) && (mount.schema matches Some(m) && !(c.name@
            == m.name@ && c.version@ == m.version@))),
        w matches Some(h) ==> (h matches WarningHint::SchemaPinMismatch {
            mem,
            config_pin,
            mount_pin,
        } && mem == mount.mem && config_pin@ == config.schema->0.name@ + "@"@
            + config.schema->0.version@ && mount_pin@ == mount.schema->0.name@ + "@"@
            + mount.schema->0.version@),
{
}

/// A mem that nothing backs is warned of: where its storage is missing, by
/// what is missing; where it is there and empty, as empty. A mem in memory and
/// one with files are not.
pub proof fn law_unbacked_mount_is_warned_of(
    mount: Mount,
    present: bool,
    count: Option<nat>,
    w: Option<WarningHint>,
)
    requires
        unbacked_hint(mount, present, count, w),
    ensures
        w is Some <==> !(mount.storage is InMemory) && (!present || count == Some(0nat)),
        w matches Some(h) ==> (h matches WarningHint::MountUnbacked { mem, reason, location }
            && mem == mount.mem && (!present && mount.storage is GitBranch ==> reason
            == MountUnbackedReason::MissingRef) && (!present && !(mount.storage is GitBranch)
            ==> reason == MountUnbackedReason::MissingPath) && (present ==> reason
            == MountUnbackedReason::Empty) && match mount.storage {
            MountStorage::GitBranch { gitdir, branch } => location@ == branch@,
            MountStorage::Folder { path } => location@ == path@,
            MountStorage::Archive { path } => location@ == path@,
            MountStorage::InMemory => true,
        }),
{
}

// ---------------------------------------------------------------------
// Schema packages
// ---------------------------------------------------------------------

/// Quotes around a text are taken off.
proof fn lemma_unquoted(v: Seq<char>)
    requires
        v.len() > 0,
        v[0] != '"',
        v.last() != '"',
    ensures
        unquoted(v) == v,
        unquoted(seq!['"'] + v + seq!['"']) == v,
{
    let q = seq!['"'] + v + seq!['"'];
    let r = v + seq!['"'];
    assert(q.drop_first() =~= r);
    assert(r[0] == v[0]);
    assert(unquoted_start(r) == r);
    assert(unquoted_start(q) == r) by {
        assert(q[0] == '"');
    }
    assert(r.drop_last() =~= v);
    assert(r.last() == '"');
    assert(unquoted_end(v) == v);
    assert(unquoted_end(r) == v);
    assert(unquoted_start(v) == v);
}

/// Where the first line with a prefix stands.
proof fn lemma_line_after(ls: Seq<Seq<char>>, prefix: Seq<char>, i: int, k: int)
    requires
        0 <= i <= k < ls.len(),
        forall|j: int| i <= j < k ==> !starts(#[trigger] ls[j], prefix),
        starts(ls[k], prefix),
    ensures
        line_after(ls, prefix, i) == Some(ls[k].skip(prefix.len() as int)),
    decreases k - i,
{
    if i < k {
        lemma_line_after(ls, prefix, i + 1, k);
    }
}

/// A header says of a key what its first line with the key says, with or
/// without quotes around it.
pub proof fn law_header_value_reads_back(
    before: Seq<Seq<char>>,
    key: Seq<char>,
    value: Seq<char>,
    after: Seq<Seq<char>>,
)
    requires
        value.len() > 0,
        value[0] != '"' && value.last() != '"',
        !is_space(value[0]) && !is_space(value.last()),
        forall|i: int|
            0 <= i < before.len() ==> is_line(#[trigger] before[i]) && !starts(
                before[i],
                key + ":"@,
            ),
        forall|i: int| 0 <= i < after.len() ==> is_line(#[trigger] after[i]),
        !key.contains('\n') && !value.contains('\n'),
    ensures
        header_value(
            closed_lines(before + seq![key + ":"@ + " "@ + value] + after),
            key,
        ) == Some(value),
        header_value(
            closed_lines(before + seq![key + ":"@ + " "@ + (seq!['"'] + value + seq!['"'])] + after),
            key,
        ) == Some(value),
{
    reveal_strlit(":");
    reveal_strlit(" ");
    lemma_header(before, key, value, after);
    let q = seq!['"'] + value + seq!['"'];
    assert(!q.contains('\n')) by {
        if q.contains('\n') {
            let i = choose|i: int| 0 <= i < q.len() && q[i] == '\n';
            assert(q[i] == value[i - 1]);
            assert(value.contains('\n'));
        }
    }
    lemma_header(before, key, q, after);
    lemma_unquoted(value);
}

/// What a header line says of its key, trimmed.
#[verifier::rlimit(40)]
proof fn lemma_header(
    before: Seq<Seq<char>>,
    key: Seq<char>,
    value: Seq<char>,
    after: Seq<Seq<char>>,
)
    requires
        value.len() > 0,
        !is_space(value[0]) && !is_space(value.last()),
        forall|i: int|
            0 <= i < before.len() ==> is_line(#[trigger] before[i]) && !starts(
                before[i],
                key + ":"@,
            ),
        forall|i: int| 0 <= i < after.len() ==> is_line(#[trigger] after[i]),
        !key.contains('\n') && !value.contains('\n'),
    ensures
        header_value(closed_lines(before + seq![key + ":"@ + " "@ + value] + after), key) == (
        if unquoted(value).len() > 0 {
            Some(unquoted(value))
        } else {
            None
        }),
{
    reveal_strlit(":");
    reveal_strlit(" ");
    let prefix = key + ":"@;
    let line = key + ":"@ + " "@ + value;
    let all = before + seq![line] + after;
    let n = before.len() as int;
    assert(!line.contains('\n')) by {
        if line.contains('\n') {
            let i = choose|i: int| 0 <= i < line.len() && line[i] == '\n';
            if i < key.len() {
                assert(key[i] == '\n');
            } else if i >= key.len() + 2 {
                assert(value[i - key.len() - 2] == '\n');
            }
        }
    }
    assert(line.last() == value.last());
    assert(is_line(line));
    assert forall|i: int| 0 <= i < all.len() implies is_line(#[trigger] all[i]) by {
        if i < n {
            assert(all[i] == before[i]);
        } else if i > n {
            assert(all[i] == after[i - n - 1]);
        }
    }
    law_lines_read_back(all);
    assert(all[n] == line);
    assert(line.subrange(0, prefix.len() as int) =~= prefix);
    assert forall|j: int| 0 <= j < n implies !starts(#[trigger] all[j], prefix) by {
        assert(all[j] == before[j]);
    }
    lemma_line_after(all, prefix, 0, n);
    let rest = line.skip(prefix.len() as int);
    assert(rest =~= seq![' '] + value);
    assert(rest.drop_first() =~= value);
    assert(trim_start(value) == value);
    assert(trim_start(rest) == value);
    assert(trim_end(value) == value);
}

/// Of the directories that hold a manifest, each is loaded or has failed, and
/// nothing else is listed.
pub proof fn law_packages_load_or_fail(entries: Seq<SchemaEntry>, e: SchemaEntry, s: Arc<Schema>)
    ensures
        loaded_schemas(entries).contains(s) <==> exists|i: int|
            0 <= i < entries.len() && (#[trigger] entries[i]).is_dir && entries[i].has_manifest
                && entries[i].loaded == Ok::<Arc<Schema>, String>(s),
        failed_entries(entries).contains(e) <==> entries.contains(e) && e.is_dir && e.has_manifest
            && e.loaded is Err,
    decreases entries.len(),
{
    let ls = loaded_schemas(entries);
    let fs = failed_entries(entries);
    if entries.len() > 0 {
        let head = entries.drop_last();
        let n = entries.len() - 1;
        let hl = loaded_schemas(head);
        let hf = failed_entries(head);
        law_packages_load_or_fail(head, e, s);
        if ls.contains(s) {
            let k = choose|k: int| 0 <= k < ls.len() && ls[k] == s;
            if k < hl.len() {
                assert(hl[k] == s);
                assert(hl.contains(s));
                let i = choose|i: int|
                    0 <= i < head.len() && (#[trigger] head[i]).is_dir && head[i].has_manifest
                        && head[i].loaded == Ok::<Arc<Schema>, String>(s);
                assert(entries[i] == head[i]);
            } else {
                assert(entries[n].is_dir);
            }
        }
        if exists|i: int|
            0 <= i < entries.len() && (#[trigger] entries[i]).is_dir && entries[i].has_manifest
                && entries[i].loaded == Ok::<Arc<Schema>, String>(s) {
            let i = choose|i: int|
                0 <= i < entries.len() && (#[trigger] entries[i]).is_dir
                    && entries[i].has_manifest && entries[i].loaded == Ok::<Arc<Schema>, String>(
                    s,
                );
            if i < n {
                assert(head[i] == entries[i]);
                let k = choose|k: int| 0 <= k < hl.len() && hl[k] == s;
                assert(ls[k] == s);
            } else {
                assert(ls[hl.len() as int] == s);
            }
        }
        if fs.contains(e) {
            let k = choose|k: int| 0 <= k < fs.len() && fs[k] == e;
            if k < hf.len() {
                assert(hf[k] == e);
                assert(hf.contains(e));
                let i = choose|i: int| 0 <= i < head.len() && head[i] == e;
                assert(entries[i] == e);
            } else {
                assert(entries[n] == e);
            }
        }
        if entries.contains(e) && e.is_dir && e.has_manifest && e.loaded is Err {
            let i = choose|i: int| 0 <= i < entries.len() && entries[i] == e;
            if i < n {
                assert(head[i] == e);
                assert(head.contains(e));
                let k = choose|k: int| 0 <= k < hf.len() && hf[k] == e;
                assert(fs[k] == e);
            } else {
                assert(fs[hf.len() as int] == e);
            }
        }
    }
}

// ---------------------------------------------------------------------
// Loading
// ---------------------------------------------------------------------

/// A mount that is to load later is deferred and its files are not read: it
/// brings no entity and no error. One that is to load at once serves or is
/// held back.
pub proof fn law_lazy_mounts_wait<B: MemBackend, H: Host>(
    h: &Surroundings<H>,
    m: MountedBackend<B>,
    tiers: Tiers,
    pre: LoadingView,
    post: LoadingView,
    fate: Fate,
)
    requires
        mount_loads(h, m, tiers, pre, post, fate),
    ensures
        m.mount.lifecycle == MountLifecycle::Lazy ==> fate != Fate::Serving && post.entities
            == pre.entities && post.errors == pre.errors,
        m.mount.lifecycle == MountLifecycle::Eager ==> fate != Fate::Deferred,
        fate == Fate::Deferred ==> m.mount.lifecycle == MountLifecycle::Lazy,
{
}

/// A mount whose pin no tier holds, or that has no pin, is held back, whatever
/// its files are.
pub proof fn law_mount_without_schema_is_held_back<B: MemBackend, H: Host>(
    h: &Surroundings<H>,
    m: MountedBackend<B>,
    tiers: Tiers,
    pre: LoadingView,
    post: LoadingView,
    fate: Fate,
)
    requires
        mount_loads(h, m, tiers, pre, post, fate),
        !(m.mount.storage is Archive),
        effective_pin(m.mount, m.mem_config) matches Some(pin) ==> !held(tiers.workspace@, pin)
            && !held(tiers.builtins@, pin),
    ensures
        fate == Fate::Quarantined,
        post.entities == pre.entities,
        post.schemas == pre.schemas,
{
    if let Some(pin) = effective_pin(m.mount, m.mem_config) {
        assert forall|embedded: Seq<Arc<Schema>>| embedded.len() == 0 implies #[trigger] pinned(
            crate::boot::catalogue_of(tiers, embedded),
            pin,
        ) is None by {
            let all = crate::boot::catalogue_of(tiers, embedded);
            law_pin_leads_to_its_schema(all, pin);
            law_pin_leads_to_its_schema(tiers.workspace@, pin);
            law_pin_leads_to_its_schema(tiers.builtins@, pin);
            if pinned(all, pin) is Some {
                let k = choose|k: int|
                    0 <= k < all.len() && #[trigger] all[k] == pinned(all, pin)->0;
                if k < tiers.workspace@.len() {
                    assert(all[k] == tiers.workspace@[k]);
                } else {
                    assert(all[k] == tiers.builtins@[k - tiers.workspace@.len()]);
                }
            }
        }
    }
}

/// A mount whose storage is gone, and one that cannot be read, is held back:
/// it never answers with an empty graph.
pub proof fn law_gone_storage_is_held_back<B: MemBackend, H: Host>(
    h: &Surroundings<H>,
    m: MountedBackend<B>,
    tiers: Tiers,
    pre: LoadingView,
    post: LoadingView,
    fate: Fate,
)
    requires
        mount_loads(h, m, tiers, pre, post, fate),
        m.mount.lifecycle == MountLifecycle::Eager,
        (forall|reply: Result<Vec<(String, Result<Vec<u8>, String>)>, BackendError>| #[trigger]
            reads_reply(&m.backend, reply) ==> reply is Err) || ((m.mount.storage is Folder
            || m.mount.storage is Archive) && forall|present: Result<bool, BackendError>| #[trigger]
            present_reply(&m.backend, present) ==> present == Ok::<bool, BackendError>(false)),
    ensures
        fate == Fate::Quarantined,
        post.entities == pre.entities,
        post.schemas == pre.schemas,
        post.quarantined.len() == pre.quarantined.len() + 1,
        post.quarantined.last().mount == m.mount,
{
}

/// Two mounts of one mem are refused, and the refusal names the mem; mounts of
/// different mems are not refused for that.
pub proof fn law_mems_are_mounted_once<B: MemBackend, H: Host>(
    host: Surroundings<H>,
    mounts: Seq<(Mount, Storage<B>)>,
    workspace: Seq<Arc<Schema>>,
    failed: Seq<FailedSchemaPackage>,
    r: Result<Engine<B, H>, EngineError>,
)
    requires
        boots(host, mounts, workspace, failed, r),
    ensures
        (exists|i: int, j: int|
            0 <= i < j < mounts.len() && (#[trigger] mounts[i]).0.mem@ == (
            #[trigger] mounts[j]).0.mem@) <==> (r matches Err(EngineError::DuplicateMem(_))),
        r matches Err(EngineError::DuplicateMem(m)) ==> exists|i: int, j: int|
            0 <= i < j < mounts.len() && (#[trigger] mounts[i]).0.mem@ == m@ && (
            #[trigger] mounts[j]).0.mem@ == m@,
{
    lemma_duplicate(mounts, 0);
    if exists|i: int, j: int|
        0 <= i < j < mounts.len() && (#[trigger] mounts[i]).0.mem@ == (
        #[trigger] mounts[j]).0.mem@ {
        let (i, j) = choose|i: int, j: int|
            0 <= i < j < mounts.len() && (#[trigger] mounts[i]).0.mem@ == (
            #[trigger] mounts[j]).0.mem@;
        assert(mounts[i].0.mem@ == mounts[j].0.mem@);
        assert(duplicate_from(mounts, 0) is Some);
    }
    if let Some(k) = duplicate_from(mounts, 0) {
        let j = choose|j: int| 0 <= j < k && (#[trigger] mounts[j]).0.mem@ == mounts[k].0.mem@;
        assert(mounts[j].0.mem@ == mounts[k].0.mem@);
    }
}

/// The first mount whose mem an earlier one has.
proof fn lemma_duplicate<B>(mounts: Seq<(Mount, Storage<B>)>, i: int)
    requires
        0 <= i,
    ensures
        match duplicate_from(mounts, i) {
            Some(k) => i <= k < mounts.len() && exists|j: int|
                0 <= j < k && (#[trigger] mounts[j]).0.mem@ == mounts[k].0.mem@,
            None => forall|j: int, k: int|
                0 <= j < k && i <= k < mounts.len() ==> (#[trigger] mounts[j]).0.mem@ != (
                #[trigger] mounts[k]).0.mem@,
        },
    decreases mounts.len() - i,
{
    if i < mounts.len() {
        lemma_duplicate(mounts, i + 1);
    }
}

/// Of the mounts that were to be opened, each is mounted or held back, in
/// their order, with the reason that was given.
#[verifier::rlimit(40)]
pub proof fn law_unopened_mounts_are_held_back<B>(
    mounts: Seq<(Mount, Result<Storage<B>, (String, String)>)>,
)
    ensures
        opened(mounts).len() + unopened(mounts).len() == mounts.len(),
        forall|i: int|
            0 <= i < mounts.len() ==> (match (#[trigger] mounts[i]).1 {
                Ok(b) => opened(mounts).contains((mounts[i].0, b)),
                Err(e) => unopened(mounts).contains(
                    QuarantinedMem {
                        mount: mounts[i].0,
                        reason_code: e.0,
                        reason_message: e.1,
                    },
                ),
            }),
    decreases mounts.len(),
{
    if mounts.len() > 0 {
        let head = mounts.drop_last();
        let n = mounts.len() - 1;
        law_unopened_mounts_are_held_back(head);
        let o = opened(mounts);
        let u = unopened(mounts);
        let ho = opened(head);
        let hu = unopened(head);
        assert forall|i: int| 0 <= i < mounts.len() implies (match (#[trigger] mounts[i]).1 {
            Ok(b) => o.contains((mounts[i].0, b)),
            Err(e) => u.contains(
                QuarantinedMem { mount: mounts[i].0, reason_code: e.0, reason_message: e.1 },
            ),
        }) by {
            if i < n {
                assert(head[i] == mounts[i]);
                match mounts[i].1 {
                    Ok(b) => {
                        let k = choose|k: int| 0 <= k < ho.len() && ho[k] == (mounts[i].0, b);
                        assert(o[k] == (mounts[i].0, b));
                    },
                    Err(e) => {
                        let q = QuarantinedMem {
                            mount: mounts[i].0,
                            reason_code: e.0,
                            reason_message: e.1,
                        };
                        let k = choose|k: int| 0 <= k < hu.len() && hu[k] == q;
                        assert(u[k] == q);
                    },
                }
            } else {
                match mounts[i].1 {
                    Ok(b) => {
                        assert(o[ho.len() as int] == (mounts[i].0, b));
                    },
                    Err(e) => {
                        let q = QuarantinedMem {
                            mount: mounts[i].0,
                            reason_code: e.0,
                            reason_message: e.1,
                        };
                        assert(u[hu.len() as int] == q);
                    },
                }
            }
        }
    }
}

/// A path inside a folder is told with the folder in front and one slash
/// between them; a path from the root, and one of another storage, stays.
pub proof fn law_paths_are_told_from_their_folder(root: String, path: Seq<char>)
    requires
        path.len() > 0 ==> path[0] != '/',
    ensures
        root@.len() > 0 && root@.last() != '/' ==> located_path(
            MountStorage::Folder { path: root },
            path,
        ) == root@ + seq!['/'] + path,
        root@.len() > 0 && root@.last() == '/' ==> located_path(
            MountStorage::Folder { path: root },
            path,
        ) == root@ + path,
        located_path(MountStorage::Folder { path: root }, seq!['/'] + path) == seq!['/'] + path,
        located_path(MountStorage::Archive { path: root }, path) == path,
        located_path(MountStorage::InMemory, path) == path,
{
    reveal_strlit("/");
    assert("/"@ =~= seq!['/']);
    if path.len() > 0 {
        assert(path.subrange(0, 1)[0] == path[0]);
    }
    assert((seq!['/'] + path).subrange(0, 1) =~= "/"@);
}

/// Of the warnings, those stay that still hold: all but that of a nested
/// prefix whose id names a written entity after all.
pub proof fn law_warnings_stay_while_they_hold(
    ws: Seq<WarningHint>,
    entities: Seq<Entity>,
    w: WarningHint,
)
    ensures
        holding(ws, entities).contains(w) <==> ws.contains(w) && !(w
            matches WarningHint::SuspiciousNestedPrefix { mem, resolved_id } && (entity_of(
            entities,
            resolved_id.0@,
        ) matches Some(e) && !e.stub)),
    decreases ws.len(),
{
    let all = holding(ws, entities);
    if ws.len() > 0 {
        let head = ws.drop_last();
        let rest = holding(head, entities);
        let n = ws.len() - 1;
        law_warnings_stay_while_they_hold(head, entities, w);
        if all.contains(w) {
            let k = choose|k: int| 0 <= k < all.len() && all[k] == w;
            if k < rest.len() {
                assert(rest[k] == w);
                assert(rest.contains(w));
                let i = choose|i: int| 0 <= i < head.len() && head[i] == w;
                assert(ws[i] == w);
            } else {
                assert(ws[n] == w);
            }
        }
        if ws.contains(w) && still_holds(w, entities) {
            let i = choose|i: int| 0 <= i < ws.len() && ws[i] == w;
            if i < n {
                assert(head[i] == w);
                assert(head.contains(w));
                let k = choose|k: int| 0 <= k < rest.len() && rest[k] == w;
                assert(all[k] == w);
            } else {
                assert(all[rest.len() as int] == w);
            }
        }
    }
}

/// Whether a route leads to a mount: for writing just where the mount is
/// writable, under the mem's name, and to where its files are.
pub open spec fn leads_to<B>(e: RouterEntry, m: MountedBackend<B>) -> bool {
    match e {
        RouterEntry::Writable { mem, dir } => m.mount.capability == MountCapability::Write && mem@
            == m.mount.mem@ && (m.mount.storage matches MountStorage::Folder { path } ==> dir
            == Some(path)),
        RouterEntry::ReadOnly { mem, path } => m.mount.capability == MountCapability::ReadOnly
            && mem@ == m.mount.mem@ && (m.mount.storage matches MountStorage::Folder { path: p }
            ==> path == p) && (m.mount.storage matches MountStorage::Archive { path: p } ==> path
            == p),
    }
}

/// Every mount has a route that leads to it, but for one in memory that is
/// mounted for reading alone; and every route leads to a mount.
pub proof fn law_every_mount_is_routed<B>(
    mounts: Seq<MountedBackend<B>>,
    router: Seq<RouterEntry>,
)
    requires
        is_router(mounts, router),
    ensures
        forall|k: int|
            0 <= k < mounts.len() && !((#[trigger] mounts[k]).mount.capability
                == MountCapability::ReadOnly && mounts[k].mount.storage is InMemory)
                ==> exists|i: int| 0 <= i < router.len() && leads_to(
                    #[trigger] router[i],
                    mounts[k],
                ),
        forall|i: int|
            0 <= i < router.len() ==> exists|k: int|
                0 <= k < mounts.len() && leads_to(#[trigger] router[i], #[trigger] mounts[k]),
{
    let rs = routed(mounts);
    assert forall|k: int|
        0 <= k < mounts.len() && !((#[trigger] mounts[k]).mount.capability
            == MountCapability::ReadOnly && mounts[k].mount.storage is InMemory) implies exists|
        i: int,
    | 0 <= i < router.len() && leads_to(#[trigger] router[i], mounts[k]) by {
        lemma_routed(mounts, mounts[k]);
        assert(mounts.contains(mounts[k]));
        let i = choose|i: int| 0 <= i < rs.len() && rs[i] == mounts[k];
        assert(is_route(rs[i], router[i]));
        assert(leads_to(router[i], mounts[k]));
    }
    assert forall|i: int| 0 <= i < router.len() implies exists|k: int|
        0 <= k < mounts.len() && leads_to(#[trigger] router[i], #[trigger] mounts[k]) by {
        assert(is_route(rs[i], router[i]));
        lemma_routed(mounts, rs[i]);
        assert(rs.contains(rs[i]));
        let k = choose|k: int| 0 <= k < mounts.len() && mounts[k] == rs[i];
        assert(leads_to(router[i], mounts[k]));
    }
}

/// Which mounts are routed.
proof fn lemma_routed<B>(mounts: Seq<MountedBackend<B>>, m: MountedBackend<B>)
    ensures
        routed(mounts).contains(m) <==> mounts.contains(m) && !(m.mount.capability
            == MountCapability::ReadOnly && m.mount.storage is InMemory),
    decreases mounts.len(),
{
    let all = routed(mounts);
    if mounts.len() > 0 {
        let head = mounts.drop_last();
        let rest = routed(head);
        let n = mounts.len() - 1;
        lemma_routed(head, m);
        if all.contains(m) {
            let k = choose|k: int| 0 <= k < all.len() && all[k] == m;
            if k < rest.len() {
                assert(rest[k] == m);
                assert(rest.contains(m));
                let i = choose|i: int| 0 <= i < head.len() && head[i] == m;
                assert(mounts[i] == m);
            } else {
                assert(mounts[n] == m);
            }
        }
        if mounts.contains(m) && !(m.mount.capability == MountCapability::ReadOnly
            && m.mount.storage is InMemory) {
            let i = choose|i: int| 0 <= i < mounts.len() && mounts[i] == m;
            if i < n {
                assert(head[i] == m);
                assert(head.contains(m));
                let k = choose|k: int| 0 <= k < rest.len() && rest[k] == m;
                assert(all[k] == m);
            } else {
                assert(all[rest.len() as int] == m);
            }
        }
    }
}

// ---------------------------------------------------------------------
// What else is warned of
// ---------------------------------------------------------------------

/// A mem that a newer engine wrote last is warned of as newer, one that an
/// older wrote as older, with both versions; one of the running version, and
/// one whose version cannot be compared, is not warned of.
pub proof fn law_version_skew_is_warned_of(
    mount: Mount,
    config: MemConfig,
    running: Seq<char>,
    w: Option<WarningHint>,
)
    requires
        skew_hint(mount, Some(config), running, w),
    ensures
        w is Some <==> (config.mutation_stamp matches Some(s) && (semver_precedence(
            s.engine_version@,
            running,
        ) == Some(Order::Before) || semver_precedence(s.engine_version@, running) == Some(
            Order::After,
        ))),
        w matches Some(h) ==> (h matches WarningHint::EngineVersionSkew {
            mem,
            stamped_engine,
            running_engine,
            direction,
            ..
        } && mem == mount.mem && stamped_engine == config.mutation_stamp->0.engine_version
            && running_engine@ == running && (direction == SkewDirection::StampNewer
            <==> semver_precedence(stamped_engine@, running) == Some(Order::After))),
{
}

/// A mem whose pin only the built-in catalogue holds is warned of just where
/// that catalogue has a newer version, and with that version.
pub proof fn law_old_generation_is_warned_of(
    mount: Mount,
    pin: SchemaRef,
    workspace: Seq<Arc<Schema>>,
    builtins: Seq<Arc<Schema>>,
    w: Option<WarningHint>,
)
    requires
        behind_hint(mount, pin, workspace, builtins, w),
    ensures
        held(workspace, pin) ==> w is None,
        !held(builtins, pin) ==> w is None,
        w matches Some(h) ==> (h matches WarningHint::SchemaGenerationsBehind {
            mem,
            pinned,
            newest,
        } && mem == mount.mem && pinned@ == pin.name@ + "@"@ + pin.version@ && older(
            pin.version@,
            newest@,
        )),
        !held(workspace, pin) && held(builtins, pin) && (crate::version::newest(
            crate::error::versions_named(builtins, pin.name@),
        ) matches Some(v) && older(pin.version@, v)) ==> w is Some,
{
}

/// A mem that is asked for and not mounted is told as quarantined, with the
/// reason, where it is held back, and as unknown otherwise.
pub proof fn law_held_back_mem_says_why(
    quarantined: Seq<QuarantinedMem>,
    mem: Seq<char>,
    k: int,
    e: EngineError,
)
    requires
        says_unknown(quarantined, mem, e),
        0 <= k <= quarantined.len(),
        forall|j: int| 0 <= j < k ==> (#[trigger] quarantined[j]).mount.mem@ != mem,
        k < quarantined.len() ==> quarantined[k].mount.mem@ == mem,
    ensures
        k < quarantined.len() ==> (e matches EngineError::MemQuarantined {
            mem: m,
            reason_code,
            reason_message,
        } && m@ == mem && reason_code@ == quarantined[k].reason_code@ && reason_message@
            == quarantined[k].reason_message@),
        k == quarantined.len() ==> (e matches EngineError::UnknownMem(m) && m@ == mem),
{
    lemma_quarantine_index(quarantined, mem, 0, k);
}

/// Where the quarantine of a mem stands.
proof fn lemma_quarantine_index(quarantined: Seq<QuarantinedMem>, mem: Seq<char>, i: int, k: int)
    requires
        0 <= i <= k <= quarantined.len(),
        forall|j: int| i <= j < k ==> (#[trigger] quarantined[j]).mount.mem@ != mem,
        k < quarantined.len() ==> quarantined[k].mount.mem@ == mem,
    ensures
        quarantine_index(quarantined, mem, i) == (if k < quarantined.len() {
            Some(k)
        } else {
            None
        }),
    decreases k - i,
{
    if i < k {
        lemma_quarantine_index(quarantined, mem, i + 1, k);
    }
}

/// A package that did not load is the reason of a pin with its name, where it
/// says the pin's version or says none.
pub proof fn law_failed_package_is_the_reason(
    failed: Seq<FailedSchemaPackage>,
    pin: SchemaRef,
    i: int,
)
    requires
        0 <= i <= failed.len(),
    ensures
        match failed_pin(failed, pin, i) {
            Some(f) => failed.contains(f) && (f.name matches Some(n) && n@ == pin.name@) && (
            f.version matches Some(v) ==> v@ == pin.version@),
            None => forall|j: int|
                i <= j < failed.len() ==> !(((#[trigger] failed[j]).name matches Some(n) && n@
                    == pin.name@) && (failed[j].version matches Some(v) ==> v@ == pin.version@)),
        },
    decreases failed.len() - i,
{
    if i < failed.len() {
        law_failed_package_is_the_reason(failed, pin, i + 1);
        assert(failed.contains(failed[i]));
    }
}

/// A workspace that booted has its root, every mem that the engine held back
/// and behind them those whose storage could not be opened, and the mounts and
/// entities of the engine. One that did not boot says why; where no source held
/// any version of a pin, it also names the folder that would supply it.
pub proof fn law_workspace_boots_as_built<B, H>(
    root: Seq<char>,
    held: Seq<QuarantinedMem>,
    package: Option<&str>,
    built: Result<Engine<B, H>, EngineError>,
    r: Result<Engine<B, H>, BootError>,
)
    requires
        boots_workspace(root, held, package, built, r),
    ensures
        built is Ok <==> r is Ok,
        r matches Ok(out) ==> {
            let engine = built->Ok_0;
            &&& out.workspace_root matches Some(w) && w@ == root
            &&& out.mounts == engine.mounts && out.store == engine.store
            &&& forall|q: QuarantinedMem| #[trigger]
                out.quarantined@.contains(q) <==> engine.quarantined@.contains(q) || held.contains(
                    q,
                )
            &&& engine.quarantined@.is_prefix_of(out.quarantined@)
        },
        r matches Err(b) ==> (b matches BootError::Engine(out) && (match (built->Err_0, package) {
            (
                EngineError::SchemaNotFound { mem, pin, sources, install_hint },
                Some(p),
            ) => out matches EngineError::SchemaNotFound { mem: m2, pin: p2, sources: s2, install_hint:
                h2 } && m2 == mem && p2 == pin && s2 == sources && (if held_version(sources@)
                is None {
                h2 matches Some(h) && h.package@ == p@
            } else {
                h2 == install_hint
            }),
            _ => out == built->Err_0,
        })),
{
    if let Ok(out) = r {
        let engine = built->Ok_0;
        let first = engine.quarantined@;
        assert forall|q: QuarantinedMem| #[trigger]
            out.quarantined@.contains(q) <==> first.contains(q) || held.contains(q) by {
            if first.contains(q) {
                let i = choose|i: int| 0 <= i < first.len() && first[i] == q;
                assert(out.quarantined@[i] == q);
            }
            if held.contains(q) {
                let i = choose|i: int| 0 <= i < held.len() && held[i] == q;
                assert(out.quarantined@[first.len() + i] == q);
            }
        }
    }
}

} // verus!
