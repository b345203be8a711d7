//! A mem that was exported and hydrated: the engine over the archive bytes
//! holds what the exporting engine held of it.

use crate::archive::{
    all_read, boots_sealed, exports, file_failures, file_list, file_texts, files_found, hydrates,
    hydrates_entries, hydrates_mem, is_sealed_mount, law_exported_mem_reads_back,
    law_exported_storage_reads_back, lemma_hydrated_host, loads_embedded, seals_faithfully,
    were_read, ArchiveEntries, ExportRequest, FromArchiveBytesError, MemExportBytes,
    PublishedMemConfig, ValidationError, ValidatorLimits,
};
use crate::backend::{
    config_reply, counts_as_present, present_reply, reads_reply, sealed_over, BackendError,
    SealedBackend, Storage,
};
use crate::boot::{
    boots, can_serve, capabilities, effective_pin, held, law_one_mount_is_served, loaded_from,
    with_entities,
};
use crate::engine::{schema_of, Engine};
use crate::entity::{
    entity_index, entity_of, lemma_entity_index, with_entity, Entity, MetadataValue, Relationship,
    Store,
};
use crate::error::EngineError;
use crate::host::{
    builtin_reply, extract_reply, formats_reply, git_seal_reply, parse_reply, relations_reply,
    seal_reply, Host, LoadResult, Surroundings,
};
use crate::ops::WarningHint;
use crate::schema::Schema;
use crate::workspace::{MemConfig, Mount, MountCapability};
use std::sync::Arc;
use vstd::prelude::*;

verus! {

// ---------------------------------------------------------------------
// Stores that hold the same
// ---------------------------------------------------------------------

/// What an entity says: its title and type, its metadata and sections in
/// their order, its content hash, and the edges that leave it.
pub struct ContentView {
    pub title: Seq<char>,
    pub entity_type: Seq<char>,
    /// Keys and values; the flag is set where a value is a plain string.
    pub metadata: Seq<(Seq<char>, bool, Seq<char>)>,
    pub sections: Seq<(Seq<char>, Seq<char>)>,
    pub content_hash: Seq<char>,
    pub edges: Seq<(Seq<char>, Seq<char>)>,
}

/// What an entity says.
pub open spec fn content_of(e: Entity) -> ContentView {
    ContentView {
        title: e.title@,
        entity_type: e.entity_type@,
        metadata: e.metadata@.map_values(
            |m: (String, MetadataValue)| (m.0@, m.1 is String, m.1.frontmatter()),
        ),
        sections: e.sections@.map_values(|s: (String, String)| (s.0@, s.1@)),
        content_hash: e.content_hash@,
        edges: e.relationships@.map_values(|r: Relationship| (r.rel_type@, r.target.0@)),
    }
}

/// What a store holds under an id of a mem: whether it is a stub, and what it
/// says.
pub open spec fn in_mem(s: Seq<Entity>, mem: Seq<char>, id: Seq<char>) -> Option<
    (bool, ContentView),
> {
    match entity_of(s, id) {
        Some(e) => if e.mem@ == mem {
            Some((e.stub, content_of(e)))
        } else {
            None
        },
        None => None,
    }
}

/// Whether two stores hold the same of a mem: the same ids, and under each the
/// same.
pub open spec fn hold_the_same(a: Seq<Entity>, b: Seq<Entity>, mem: Seq<char>) -> bool {
    forall|id: Seq<char>| #[trigger] in_mem(a, mem, id) == in_mem(b, mem, id)
}

/// Whether two entities are the same in all but their file and their render.
pub open spec fn agree(a: Entity, b: Entity) -> bool {
    a.id.0@ == b.id.0@ && a.mem@ == b.mem@ && a.stub == b.stub && content_of(a) == content_of(b)
}

/// Whether two lists are of the same entities, in the same order.
pub open spec fn lists_agree(a: Seq<Entity>, b: Seq<Entity>) -> bool {
    a.len() == b.len() && forall|i: int| 0 <= i < a.len() ==> agree(#[trigger] a[i], b[i])
}

/// In lists of the same entities an id stands at the same place.
proof fn lemma_same_place(a: Seq<Entity>, b: Seq<Entity>, id: Seq<char>, i: int)
    requires
        lists_agree(a, b),
        0 <= i <= a.len(),
    ensures
        entity_index(a, id, i) == entity_index(b, id, i),
    decreases a.len() - i,
{
    if i < a.len() {
        assert(agree(a[i], b[i]));
        lemma_same_place(a, b, id, i + 1);
    }
}

/// Putting the same entities into lists of the same entities keeps them so.
proof fn lemma_put_agrees(a: Seq<Entity>, b: Seq<Entity>, x: Seq<Entity>, y: Seq<Entity>)
    requires
        lists_agree(a, b),
        lists_agree(x, y),
    ensures
        lists_agree(with_entities(a, x), with_entities(b, y)),
    decreases x.len(),
{
    if x.len() > 0 {
        let n = x.len() - 1;
        assert forall|i: int| 0 <= i < n implies agree(
            #[trigger] x.drop_last()[i],
            y.drop_last()[i],
        ) by {
            assert(agree(x[i], y[i]));
        }
        lemma_put_agrees(a, b, x.drop_last(), y.drop_last());
        let p = with_entities(a, x.drop_last());
        let q = with_entities(b, y.drop_last());
        assert(agree(x[n], y[n]));
        lemma_same_place(p, q, x[n].id.0@, 0);
        lemma_entity_index(p, x[n].id.0@, 0);
        assert forall|i: int| 0 <= i < with_entity(p, x[n]).len() implies agree(
            #[trigger] with_entity(p, x[n])[i],
            with_entity(q, y[n])[i],
        ) by {
            if i < p.len() {
                assert(agree(p[i], q[i]));
            }
        }
    }
}

// ---------------------------------------------------------------------
// What a host makes of files
// ---------------------------------------------------------------------

/// Whether the host's loader makes the same entities of these files each time,
/// whatever else it is told.
pub open spec fn parses_alike<H: Host>(
    h: &Surroundings<H>,
    mem: Seq<char>,
    entries: Seq<(Seq<char>, Seq<char>)>,
    failures: Seq<(Seq<char>, Seq<char>)>,
) -> bool {
    forall|
        s: Arc<Schema>,
        k: Seq<Seq<char>>,
        x: LoadResult,
        t: Arc<Schema>,
        l: Seq<Seq<char>>,
        y: LoadResult,
    |
        #![trigger parse_reply(h, entries, failures, mem, s, k, x), parse_reply(h, entries, failures, mem, t, l, y)]
        parse_reply(h, entries, failures, mem, s, k, x) && parse_reply(
            h,
            entries,
            failures,
            mem,
            t,
            l,
            y,
        ) ==> lists_agree(x.entities@, y.entities@)
}

/// Whether the host's relation pass makes the same of a mem out of the same
/// entities each time.
pub open spec fn settles_alike<H: Host>(h: &Surroundings<H>, mem: Seq<char>) -> bool {
    forall|
        a: Seq<Entity>,
        s: Seq<(String, Arc<Schema>)>,
        c: Seq<(String, MountCapability)>,
        x: (Store, Vec<WarningHint>),
        b: Seq<Entity>,
        t: Seq<(String, Arc<Schema>)>,
        d: Seq<(String, MountCapability)>,
        y: (Store, Vec<WarningHint>),
    |
        #![trigger relations_reply(h, a, s, c, x), relations_reply(h, b, t, d, y)]
        lists_agree(a, b) && relations_reply(h, a, s, c, x) && relations_reply(h, b, t, d, y)
            ==> hold_the_same(x.0.entities@, y.0.entities@, mem)
}

/// Whether an engine holds of a mem what its host makes of these files: the
/// loader parsed them, and the relation pass went over what came out.
pub open spec fn matches_files<B, H: Host>(
    engine: Engine<B, H>,
    mem: Seq<char>,
    files: Seq<(Seq<char>, Seq<u8>)>,
) -> bool {
    exists|
        schema: Arc<Schema>,
        known: Seq<Seq<char>>,
        load: LoadResult,
        schemas: Seq<(String, Arc<Schema>)>,
        allowed: Seq<(String, MountCapability)>,
        told: (Store, Vec<WarningHint>),
    |
        #![trigger parse_reply(&engine.host, file_texts(files), file_failures(files), mem, schema, known, load), relations_reply(&engine.host, with_entities(Seq::empty(), load.entities@), schemas, allowed, told)]
        parse_reply(
            &engine.host,
            file_texts(files),
            file_failures(files),
            mem,
            schema,
            known,
            load,
        ) && relations_reply(
            &engine.host,
            with_entities(Seq::empty(), load.entities@),
            schemas,
            allowed,
            told,
        ) && hold_the_same(engine.store.entities@, told.0.entities@, mem)
}

/// An engine of one mem that was loaded from files holds what its host makes
/// of them.
pub proof fn law_loaded_engine_matches_its_files<B, H: Host>(
    engine: Engine<B, H>,
    mem: Seq<char>,
    files: Seq<(Seq<char>, Seq<u8>)>,
)
    requires
        loaded_from(engine, mem, file_texts(files), file_failures(files)),
    ensures
        matches_files(engine, mem, files),
{
    let entries = file_texts(files);
    let failures = file_failures(files);
    let (schema, load, told) = choose|
        schema: Arc<Schema>,
        load: LoadResult,
        told: (Store, Vec<WarningHint>),
    |
        #![trigger parse_reply(&engine.host, entries, failures, mem, schema, seq![mem], load), relations_reply(&engine.host, with_entities(Seq::empty(), load.entities@), engine.schemas@, capabilities(engine.mounts@), told)]
        schema_of(engine.schemas@, mem) == Some(schema) && parse_reply(
            &engine.host,
            entries,
            failures,
            mem,
            schema,
            seq![mem],
            load,
        ) && relations_reply(
            &engine.host,
            with_entities(Seq::empty(), load.entities@),
            engine.schemas@,
            capabilities(engine.mounts@),
            told,
        ) && engine.store.entities@ == told.0.entities@;
    assert(hold_the_same(engine.store.entities@, told.0.entities@, mem));
}

/// Two engines of the same host that match the same files hold the same of the
/// mem, where the host makes the same of the same files each time.
pub proof fn law_same_files_hold_the_same<B, H: Host>(
    a: Engine<B, H>,
    b: Engine<B, H>,
    mem: Seq<char>,
    files: Seq<(Seq<char>, Seq<u8>)>,
)
    requires
        a.host == b.host,
        matches_files(a, mem, files),
        matches_files(b, mem, files),
        parses_alike(&a.host, mem, file_texts(files), file_failures(files)),
        settles_alike(&a.host, mem),
    ensures
        hold_the_same(a.store.entities@, b.store.entities@, mem),
{
    let entries = file_texts(files);
    let failures = file_failures(files);
    let (sa, ka, la, ta, ca, ra) = choose|
        schema: Arc<Schema>,
        known: Seq<Seq<char>>,
        load: LoadResult,
        schemas: Seq<(String, Arc<Schema>)>,
        allowed: Seq<(String, MountCapability)>,
        told: (Store, Vec<WarningHint>),
    |
        #![trigger parse_reply(&a.host, entries, failures, mem, schema, known, load), relations_reply(&a.host, with_entities(Seq::empty(), load.entities@), schemas, allowed, told)]
        parse_reply(&a.host, entries, failures, mem, schema, known, load) && relations_reply(
            &a.host,
            with_entities(Seq::empty(), load.entities@),
            schemas,
            allowed,
            told,
        ) && hold_the_same(a.store.entities@, told.0.entities@, mem);
    let (sb, kb, lb, tb, cb, rb) = choose|
        schema: Arc<Schema>,
        known: Seq<Seq<char>>,
        load: LoadResult,
        schemas: Seq<(String, Arc<Schema>)>,
        allowed: Seq<(String, MountCapability)>,
        told: (Store, Vec<WarningHint>),
    |
        #![trigger parse_reply(&b.host, entries, failures, mem, schema, known, load), relations_reply(&b.host, with_entities(Seq::empty(), load.entities@), schemas, allowed, told)]
        parse_reply(&b.host, entries, failures, mem, schema, known, load) && relations_reply(
            &b.host,
            with_entities(Seq::empty(), load.entities@),
            schemas,
            allowed,
            told,
        ) && hold_the_same(b.store.entities@, told.0.entities@, mem);
    assert(lists_agree(la.entities@, lb.entities@));
    assert(lists_agree(Seq::<Entity>::empty(), Seq::<Entity>::empty()));
    lemma_put_agrees(Seq::empty(), Seq::empty(), la.entities@, lb.entities@);
    assert(hold_the_same(ra.0.entities@, rb.0.entities@, mem));
    assert forall|id: Seq<char>| #[trigger] in_mem(a.store.entities@, mem, id) == in_mem(
        b.store.entities@,
        mem,
        id,
    ) by {
        assert(in_mem(a.store.entities@, mem, id) == in_mem(ra.0.entities@, mem, id));
        assert(in_mem(ra.0.entities@, mem, id) == in_mem(rb.0.entities@, mem, id));
        assert(in_mem(b.store.entities@, mem, id) == in_mem(rb.0.entities@, mem, id));
    }
}

// ---------------------------------------------------------------------
// There and back
// ---------------------------------------------------------------------

/// Whether nothing outside the engine keeps an archive from being hydrated:
/// the bytes come apart with a config of an accepted format and a schema
/// package that loads and answers the pin, the built-in schemas can be had,
/// and a backend over the bytes is there and reads.
pub open spec fn can_hydrate<B: SealedBackend, H: Host>(
    h: &Surroundings<H>,
    bytes: Vec<u8>,
    limits: ValidatorLimits,
) -> bool {
    &&& forall|reply: Result<ArchiveEntries, ValidationError>| #[trigger]
        extract_reply(h, bytes@, limits, reply) ==> (reply matches Ok(entries) && (
        entries.config matches Ok(config) && package_serves::<B, H>(h, bytes, entries, config)))
    &&& forall|reply: Result<Vec<Arc<Schema>>, String>| #[trigger]
        builtin_reply(h, reply) ==> reply is Ok
    &&& forall|b: Storage<B>, reply: Result<Vec<(String, Result<Vec<u8>, String>)>, BackendError>|
        #![trigger sealed_over(bytes, b), reads_reply(&b, reply)]
        sealed_over(bytes, b) && reads_reply(&b, reply) ==> reply is Ok
    &&& forall|b: Storage<B>, present: Result<bool, BackendError>|
        #![trigger sealed_over(bytes, b), present_reply(&b, present)]
        sealed_over(bytes, b) && present_reply(&b, present) ==> counts_as_present(present)
}

/// Whether the format of an archive is accepted, and its package loads and
/// answers the pin that the mem is held to.
pub open spec fn package_serves<B: SealedBackend, H: Host>(
    h: &Surroundings<H>,
    bytes: Vec<u8>,
    entries: ArchiveEntries,
    config: PublishedMemConfig,
) -> bool {
    &&& forall|accepted: Vec<u32>| #[trigger]
        formats_reply(h, accepted) ==> accepted@.contains(config.format)
    &&& forall|loaded: Result<Vec<Arc<Schema>>, FromArchiveBytesError>| #[trigger]
        loads_embedded(h, entries.schema_files@, loaded) ==> (loaded matches Ok(schemas)
            && answers_pins::<B>(bytes, schemas@, config))
}

/// Whether schemas answer the pin of an archive's mem, whatever config a
/// backend over its bytes tells of.
pub open spec fn answers_pins<B: SealedBackend>(
    bytes: Vec<u8>,
    schemas: Seq<Arc<Schema>>,
    config: PublishedMemConfig,
) -> bool {
    forall|b: Storage<B>, own: Option<MemConfig>, mount: Mount|
        #![trigger sealed_over(bytes, b), config_reply(&b, own), is_sealed_mount(config, mount)]
        sealed_over(bytes, b) && config_reply(&b, own) && is_sealed_mount(config, mount) ==> (
        effective_pin(mount, own) matches Some(pin) && held(schemas, pin))
}

/// Archive bytes that nothing outside keeps from being hydrated give an
/// engine of one mount, sealed and only to read, with nothing held back.
pub proof fn law_hydration_serves<B: SealedBackend, H: Host>(
    host: Surroundings<H>,
    bytes: Vec<u8>,
    limits: ValidatorLimits,
    r: Result<Engine<B, H>, FromArchiveBytesError>,
)
    requires
        hydrates(host, bytes, limits, r),
        can_hydrate::<B, H>(&host, bytes, limits),
    ensures
        r matches Ok(engine) && engine.mounts@.len() == 1 && engine.quarantined@.len() == 0
            && engine.mounts@[0].mount.capability == MountCapability::ReadOnly,
{
    let reply = choose|reply: Result<ArchiveEntries, ValidationError>| #[trigger]
        extract_reply(&host, bytes@, limits, reply) && match reply {
            Err(e) => r == Err::<Engine<B, H>, FromArchiveBytesError>(
                FromArchiveBytesError::Validation(e),
            ),
            Ok(entries) => hydrates_entries(host, bytes, entries, r),
        };
    let entries = reply->Ok_0;
    let config = entries.config->Ok_0;
    assert(package_serves::<B, H>(&host, bytes, entries, config));
    assert(hydrates_mem(host, bytes, config, entries.schema_files@, r));
    let loaded = choose|loaded: Result<Vec<Arc<Schema>>, FromArchiveBytesError>| #[trigger]
        loads_embedded(&host, entries.schema_files@, loaded) && match loaded {
            Err(e) => r == Err::<Engine<B, H>, FromArchiveBytesError>(e),
            Ok(schemas) => boots_sealed(host, bytes, config, schemas@, r),
        };
    let schemas = loaded->Ok_0@;
    let (mount, backend, booted) = choose|
        mount: Mount,
        backend: Storage<B>,
        booted: Result<Engine<B, H>, EngineError>,
    |
        is_sealed_mount(
            config,
            mount,
        ) && #[trigger] sealed_over(bytes, backend) && #[trigger] boots(
            host,
            seq![(mount, backend)],
            schemas,
            Seq::empty(),
            booted,
        ) && match booted {
            Ok(engine) => r == Ok::<Engine<B, H>, FromArchiveBytesError>(engine),
            Err(e) => r == Err::<Engine<B, H>, FromArchiveBytesError>(
                FromArchiveBytesError::Engine(e),
            ),
        };
    assert(can_serve(&host, mount, backend, schemas));
    law_one_mount_is_served(host, mount, backend, schemas, Seq::empty(), booted);
}

/// A mem of a folder or of a branch comes back from its archive as it was:
/// where the mem's storage reads these files and the engine matches them, the
/// surroundings seal what they are asked to, and the host makes the same of
/// the same files each time, the hydrated engine holds the same of the mem as
/// the engine that exported it: the same ids, and under each the same title,
/// type, metadata, sections, content hash and edges.
pub proof fn law_stored_mem_comes_back<B: SealedBackend, H: Host>(
    engine: Engine<B, H>,
    mem: Seq<char>,
    reads: Vec<(String, Result<Vec<u8>, String>)>,
    out: MemExportBytes,
    limits: ValidatorLimits,
    hydrated: Engine<B, H>,
)
    requires
        exports(engine, mem, Ok::<MemExportBytes, EngineError>(out)),
        engine.mount_of(mem) matches Some(m) && (m.mount.storage is Folder || m.mount.storage
            is GitBranch) && reads_reply(
            &m.backend,
            Ok::<Vec<(String, Result<Vec<u8>, String>)>, BackendError>(reads),
        ),
        all_read(reads@),
        matches_files(engine, mem, file_list(reads@)),
        forall|request: ExportRequest, reply: MemExportBytes| #[trigger]
            seal_reply(&engine.host, request, Ok::<MemExportBytes, String>(reply))
                ==> seals_faithfully::<B, H>(
                &engine.host,
                &engine.mount_of(mem)->0.backend,
                request,
                reply.bytes,
            ),
        forall|request: ExportRequest, reply: MemExportBytes| #[trigger]
            git_seal_reply(&engine.host, request, Ok::<MemExportBytes, BackendError>(reply))
                ==> seals_faithfully::<B, H>(
                &engine.host,
                &engine.mount_of(mem)->0.backend,
                request,
                reply.bytes,
            ),
        parses_alike(
            &engine.host,
            mem,
            file_texts(file_list(reads@)),
            file_failures(file_list(reads@)),
        ),
        settles_alike(&engine.host, mem),
        can_hydrate::<B, H>(&engine.host, out.bytes, limits),
        hydrates(
            engine.host,
            out.bytes,
            limits,
            Ok::<Engine<B, H>, FromArchiveBytesError>(hydrated),
        ),
    ensures
        hydrated.mounts@.len() == 1,
        hydrated.mounts@[0].mount.mem@ == mem,
        hydrated.mounts@[0].mount.capability == MountCapability::ReadOnly,
        hold_the_same(engine.store.entities@, hydrated.store.entities@, mem),
{
    law_hydration_serves(
        engine.host,
        out.bytes,
        limits,
        Ok::<Engine<B, H>, FromArchiveBytesError>(hydrated),
    );
    law_exported_storage_reads_back(engine, mem, reads, out, limits, hydrated);
    lemma_hydrated_host(engine.host, out.bytes, limits, hydrated);
    assert(hydrated.mounts@[0].mount.mem@ == mem);
    law_loaded_engine_matches_its_files(hydrated, mem, file_list(reads@));
    law_same_files_hold_the_same(engine, hydrated, mem, file_list(reads@));
}

/// A mem in memory comes back from its archive as it was, under the same
/// premises.
pub proof fn law_mem_in_memory_comes_back<B: SealedBackend, H: Host>(
    engine: Engine<B, H>,
    mem: Seq<char>,
    out: MemExportBytes,
    limits: ValidatorLimits,
    hydrated: Engine<B, H>,
)
    requires
        exports(engine, mem, Ok::<MemExportBytes, EngineError>(out)),
        engine.mount_of(mem) matches Some(m) && m.mount.storage is InMemory,
        forall|paths: Seq<String>, read: Seq<Option<Vec<u8>>>| #[trigger]
            were_read(&engine.mount_of(mem)->0.backend, paths, read) && read.len() == paths.len()
                ==> matches_files(engine, mem, files_found(paths, read)) && parses_alike(
                &engine.host,
                mem,
                file_texts(files_found(paths, read)),
                file_failures(files_found(paths, read)),
            ),
        forall|request: ExportRequest, reply: MemExportBytes| #[trigger]
            seal_reply(&engine.host, request, Ok::<MemExportBytes, String>(reply))
                ==> seals_faithfully::<B, H>(
                &engine.host,
                &engine.mount_of(mem)->0.backend,
                request,
                reply.bytes,
            ),
        settles_alike(&engine.host, mem),
        can_hydrate::<B, H>(&engine.host, out.bytes, limits),
        hydrates(
            engine.host,
            out.bytes,
            limits,
            Ok::<Engine<B, H>, FromArchiveBytesError>(hydrated),
        ),
    ensures
        hydrated.mounts@.len() == 1,
        hydrated.mounts@[0].mount.mem@ == mem,
        hydrated.mounts@[0].mount.capability == MountCapability::ReadOnly,
        hold_the_same(engine.store.entities@, hydrated.store.entities@, mem),
{
    law_hydration_serves(
        engine.host,
        out.bytes,
        limits,
        Ok::<Engine<B, H>, FromArchiveBytesError>(hydrated),
    );
    let found = law_exported_mem_reads_back(engine, mem, out, limits, hydrated);
    let files = files_found(found.0, found.1);
    lemma_hydrated_host(engine.host, out.bytes, limits, hydrated);
    assert(hydrated.mounts@[0].mount.mem@ == mem);
    law_loaded_engine_matches_its_files(hydrated, mem, files);
    law_same_files_hold_the_same(engine, hydrated, mem, files);
}

} // verus!
