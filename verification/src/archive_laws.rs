//! What holds of archives: what is read of the schema that one carries, which
//! are refused, and what goes into one.

use crate::archive::{
    exports, files_found, format_of, hydrates, loads_embedded, manifest_of, reads_files,
    seals_files, seals_listed_memory, seals_memory, type_stem, types_of, were_read, ArchiveEntries,
    ExportRequest, ExportSource, FromArchiveBytesError, MemExportBytes, PolarityFormat,
    PublishedMemConfig, RedactedProvenance, SCHEMA_MANIFEST, SchemaFile, ValidationError,
    ValidatorLimits,
};
use crate::backend::{
    entity_reply, list_reply, log_reply, log_told, BackendError, MemBackend, Provenance,
    SealedBackend,
};
use crate::engine::Engine;
use crate::error::EngineError;
use crate::host::{extract_reply, formats_reply, redact_reply, seal_reply, Host, Surroundings};
use crate::schema::Schema;
use crate::sort::views;
use crate::text::{starts, texts};
use std::sync::Arc;
use vstd::prelude::*;

verus! {

// ---------------------------------------------------------------------
// The schema that an archive carries
// ---------------------------------------------------------------------

/// The file of a type is named by the type: a `.yaml` file in the directory of
/// the types. The manifest is none, nor is a file elsewhere or with another
/// ending.
#[verifier::rlimit(40)]
pub proof fn law_type_is_named_by_its_file(stem: Seq<char>, path: Seq<char>)
    ensures
        type_stem(".memstead/schema/types/"@ + stem + ".yaml"@) == Some(stem),
        type_stem(".memstead/schema/schema.yaml"@) is None,
        !starts(path, ".memstead/schema/types/"@) ==> type_stem(path) is None,
        type_stem(path) matches Some(s) ==> path == ".memstead/schema/types/"@ + s + ".yaml"@,
{
    let front = ".memstead/schema/types/"@;
    let end = ".yaml"@;
    reveal_strlit(".memstead/schema/types/");
    reveal_strlit(".memstead/schema/schema.yaml");
    reveal_strlit(".yaml");
    let s = front + stem + end;
    assert(s[17] == front[17]);
    assert(s.subrange(0, front.len() as int) =~= front);
    let rest = s.skip(front.len() as int);
    assert(rest =~= stem + end);
    assert(rest.subrange(rest.len() - end.len(), rest.len() as int) =~= end);
    assert(rest.take(rest.len() - end.len()) =~= stem);
    assert(s != SCHEMA_MANIFEST@) by {
        assert(SCHEMA_MANIFEST@[17] == 's');
        assert(front[17] == 't');
    }
    if let Some(x) = type_stem(path) {
        let tail = path.skip(front.len() as int);
        assert(path.subrange(0, front.len() as int) =~= front);
        assert(tail.subrange(tail.len() - end.len(), tail.len() as int) =~= end);
        assert(tail =~= x + end);
        assert(path =~= front + tail);
        assert(front + (x + end) =~= front + x + end);
    }
}

/// The types of a package are those of its type files, with what these hold.
pub proof fn law_types_are_those_of_the_files(
    files: Seq<SchemaFile>,
    stem: Seq<char>,
    content: Seq<char>,
)
    ensures
        types_of(files).contains((stem, content)) <==> exists|i: int|
            0 <= i < files.len() && (#[trigger] files[i]).archive_path@
                == ".memstead/schema/types/"@ + stem + ".yaml"@ && files[i].content@ == content,
    decreases files.len(),
{
    let all = types_of(files);
    if files.len() > 0 {
        let head = files.drop_last();
        let rest = types_of(head);
        let n = files.len() - 1;
        let path = ".memstead/schema/types/"@ + stem + ".yaml"@;
        law_types_are_those_of_the_files(head, stem, content);
        law_type_is_named_by_its_file(stem, files[n].archive_path@);
        if all.contains((stem, content)) {
            let k = choose|k: int| 0 <= k < all.len() && all[k] == (stem, content);
            if k < rest.len() {
                assert(rest[k] == (stem, content));
                assert(rest.contains((stem, content)));
                let i = choose|i: int|
                    0 <= i < head.len() && (#[trigger] head[i]).archive_path@ == path
                        && head[i].content@ == content;
                assert(files[i] == head[i]);
            } else {
                assert(files[n].content@ == content);
            }
        }
        if exists|i: int|
            0 <= i < files.len() && (#[trigger] files[i]).archive_path@ == path
                && files[i].content@ == content {
            let i = choose|i: int|
                0 <= i < files.len() && (#[trigger] files[i]).archive_path@ == path
                    && files[i].content@ == content;
            if i < n {
                assert(head[i] == files[i]);
                let k = choose|k: int| 0 <= k < rest.len() && rest[k] == (stem, content);
                assert(all[k] == (stem, content));
            } else {
                assert(all[rest.len() as int] == (stem, content));
            }
        }
    }
}

/// The manifest of a package is the file of that name, and a package without
/// one has none.
pub proof fn law_manifest_is_the_file_of_that_name(files: Seq<SchemaFile>)
    ensures
        match manifest_of(files) {
            Some(m) => exists|i: int|
                0 <= i < files.len() && (#[trigger] files[i]).archive_path@
                    == ".memstead/schema/schema.yaml"@ && files[i].content@ == m,
            None => forall|i: int|
                0 <= i < files.len() ==> (#[trigger] files[i]).archive_path@
                    != ".memstead/schema/schema.yaml"@,
        },
    decreases files.len(),
{
    if files.len() > 0 {
        let head = files.drop_last();
        let n = files.len() - 1;
        law_manifest_is_the_file_of_that_name(head);
        assert(files[n] == files.last());
        match manifest_of(files) {
            Some(m) => {
                if files[n].archive_path@ != SCHEMA_MANIFEST@ {
                    let i = choose|i: int|
                        0 <= i < head.len() && (#[trigger] head[i]).archive_path@
                            == SCHEMA_MANIFEST@ && head[i].content@ == m;
                    assert(files[i] == head[i]);
                }
            },
            None => {
                assert forall|i: int| 0 <= i < files.len() implies (
                #[trigger] files[i]).archive_path@ != SCHEMA_MANIFEST@ by {
                    if i < n {
                        assert(files[i] == head[i]);
                    }
                }
            },
        }
    }
}

/// A package means its fields as opt-in just where it holds the marker.
pub proof fn law_marker_sets_the_format(files: Seq<SchemaFile>, marker: Seq<char>)
    ensures
        format_of(files, marker) == PolarityFormat::RequiredOptIn <==> exists|i: int|
            0 <= i < files.len() && (#[trigger] files[i]).archive_path@ == ".memstead/schema/"@
                + marker,
{
}

/// A package without a manifest is refused; an archive without a package has
/// no schemas, and one with a package has just one.
pub proof fn law_package_needs_its_manifest<H: Host>(
    h: &Surroundings<H>,
    files: Seq<SchemaFile>,
    r: Result<Vec<Arc<Schema>>, FromArchiveBytesError>,
)
    requires
        loads_embedded(h, files, r),
    ensures
        files.len() == 0 ==> (r matches Ok(v) && v@.len() == 0),
        files.len() > 0 && (forall|i: int|
            0 <= i < files.len() ==> (#[trigger] files[i]).archive_path@
                != ".memstead/schema/schema.yaml"@) ==> (r matches Err(
            FromArchiveBytesError::EmbeddedSchemaInvalid(_),
        )),
        files.len() > 0 ==> (r matches Ok(v) ==> v@.len() == 1),
{
    law_manifest_is_the_file_of_that_name(files);
}

// ---------------------------------------------------------------------
// Opening an archive
// ---------------------------------------------------------------------

/// An engine comes of archive bytes only where the host took them apart, their
/// config is one, and it declares a format that the host accepts. Bytes that
/// declare another are refused with that format.
pub proof fn law_hydrated_archive_was_sound<B: SealedBackend, H: Host>(
    host: Surroundings<H>,
    bytes: Vec<u8>,
    limits: ValidatorLimits,
    r: Result<Engine<B, H>, FromArchiveBytesError>,
)
    requires
        hydrates(host, bytes, limits, r),
    ensures
        r is Ok ==> exists|entries: ArchiveEntries, accepted: Vec<u32>|
            #![trigger extract_reply(&host, bytes@, limits, Ok(entries)), formats_reply(&host, accepted)]
            extract_reply(&host, bytes@, limits, Ok(entries)) && formats_reply(&host, accepted) && (
            entries.config matches Ok(c) && accepted@.contains(c.format)),
        r matches Err(FromArchiveBytesError::UnsupportedFormat { declared, accepted })
            ==> formats_reply(&host, accepted) && !accepted@.contains(declared),
        (forall|reply: Result<ArchiveEntries, ValidationError>| #[trigger]
            extract_reply(&host, bytes@, limits, reply) ==> reply is Err) ==> (r matches Err(
            FromArchiveBytesError::Validation(_),
        )),
{
    let reply = choose|reply: Result<ArchiveEntries, ValidationError>| #[trigger]
        extract_reply(&host, bytes@, limits, reply) && match reply {
            Err(e) => r == Err::<Engine<B, H>, FromArchiveBytesError>(
                FromArchiveBytesError::Validation(e),
            ),
            Ok(entries) => crate::archive::hydrates_entries(host, bytes, entries, r),
        };
    if let Ok(entries) = reply {
        assert(extract_reply(&host, bytes@, limits, Ok(entries)));
        if let Ok(config) = entries.config {
            let accepted = choose|accepted: Vec<u32>| #[trigger]
                formats_reply(&host, accepted) && if accepted@.contains(config.format) {
                    crate::archive::hydrates_mem(host, bytes, config, entries.schema_files@, r)
                } else {
                    r matches Err(FromArchiveBytesError::UnsupportedFormat { declared, accepted: a })
                        && declared == config.format && a == accepted
                };
            assert(formats_reply(&host, accepted));
            if accepted@.contains(config.format) {
                lemma_no_format_error(host, bytes, config, entries.schema_files@, r);
            }
        }
    }
}

/// Past the format nothing is refused for it.
proof fn lemma_no_format_error<B: SealedBackend, H: Host>(
    host: Surroundings<H>,
    bytes: Vec<u8>,
    config: PublishedMemConfig,
    files: Seq<SchemaFile>,
    r: Result<Engine<B, H>, FromArchiveBytesError>,
)
    requires
        crate::archive::hydrates_mem(host, bytes, config, files, r),
    ensures
        !(r matches Err(FromArchiveBytesError::UnsupportedFormat { .. })),
        !(r matches Err(FromArchiveBytesError::Validation(_))),
{
    let loaded = choose|loaded: Result<Vec<Arc<Schema>>, FromArchiveBytesError>| #[trigger]
        loads_embedded(&host, files, loaded) && match loaded {
            Err(e) => r == Err::<Engine<B, H>, FromArchiveBytesError>(e),
            Ok(schemas) => crate::archive::boots_sealed(host, bytes, config, schemas@, r),
        };
}

// ---------------------------------------------------------------------
// Sealing an archive
// ---------------------------------------------------------------------

/// What cannot be sealed is refused for what it is: a mem without a version by
/// the field that is missing, and one that is sealed already as sealed.
pub proof fn law_export_needs_a_version<B: MemBackend, H: Host>(
    engine: Engine<B, H>,
    mem: Seq<char>,
    r: Result<MemExportBytes, EngineError>,
)
    requires
        exports(engine, mem, r),
        engine.mount_of(mem) is Some,
        engine.mount_of(mem)->0.mem_config is Some,
    ensures
        engine.mount_of(mem)->0.mem_config->0.version is None ==> (r matches Err(
            EngineError::MemConfigIncomplete { mem: m, missing_fields },
        ) && m@ == mem && texts(missing_fields@) == seq!["version"@]),
        engine.mount_of(mem)->0.mem_config->0.version is Some && engine.mount_of(
            mem,
        )->0.mount.storage is Archive ==> (r matches Err(
            EngineError::Backend(BackendError::Sealed),
        )),
        r is Ok ==> engine.mount_of(mem)->0.mem_config->0.version is Some && !(engine.mount_of(
            mem,
        )->0.mount.storage is Archive),
{
}

/// The files that were found are those that were read, by their paths.
proof fn lemma_files_found(
    paths: Seq<String>,
    read: Seq<Option<Vec<u8>>>,
    path: Seq<char>,
    bytes: Seq<u8>,
)
    requires
        read.len() == paths.len(),
    ensures
        files_found(paths, read).contains((path, bytes)) <==> exists|i: int|
            0 <= i < paths.len() && (#[trigger] paths[i])@ == path && (read[i] matches Some(b)
                && b@ == bytes),
    decreases paths.len(),
{
    let all = files_found(paths, read);
    if paths.len() > 0 {
        let hp = paths.drop_last();
        let hr = read.drop_last();
        let rest = files_found(hp, hr);
        let n = paths.len() - 1;
        lemma_files_found(hp, hr, path, bytes);
        if all.contains((path, bytes)) {
            let k = choose|k: int| 0 <= k < all.len() && all[k] == (path, bytes);
            if k < rest.len() {
                assert(rest[k] == (path, bytes));
                assert(rest.contains((path, bytes)));
                let i = choose|i: int|
                    0 <= i < hp.len() && (#[trigger] hp[i])@ == path && (hr[i] matches Some(b)
                        && b@ == bytes);
                assert(paths[i] == hp[i] && read[i] == hr[i]);
            } else {
                assert(paths[n]@ == path);
            }
        }
        if exists|i: int|
            0 <= i < paths.len() && (#[trigger] paths[i])@ == path && (read[i] matches Some(b)
                && b@ == bytes) {
            let i = choose|i: int|
                0 <= i < paths.len() && (#[trigger] paths[i])@ == path && (read[i] matches Some(b)
                    && b@ == bytes);
            if i < n {
                assert(hp[i] == paths[i] && hr[i] == read[i]);
                let k = choose|k: int| 0 <= k < rest.len() && rest[k] == (path, bytes);
                assert(all[k] == (path, bytes));
            } else {
                assert(all[rest.len() as int] == (path, bytes));
            }
        }
    }
}

/// Whether entries hold a file as the storage has it, where it has it.
pub open spec fn holds_file_of<B: MemBackend>(
    backend: &crate::backend::Storage<B>,
    path: Seq<char>,
    entries: Seq<(String, Vec<u8>)>,
) -> bool {
    exists|found: Option<Vec<u8>>| #[trigger]
        entity_reply(backend, path, Ok::<Option<Vec<u8>>, BackendError>(found)) && (found
            matches Some(b) ==> views(entries).contains((path, b@)))
}

/// Whether entries hold every listed file that the storage has, as it is.
pub open spec fn holds_every_file<B: MemBackend>(
    backend: &crate::backend::Storage<B>,
    paths: Seq<String>,
    entries: Seq<(String, Vec<u8>)>,
) -> bool {
    forall|i: int|
        0 <= i < paths.len() ==> holds_file_of(backend, (#[trigger] paths[i])@, entries)
}

/// A mem in memory is sealed with every file that its storage lists and has,
/// under the name of the mem, and what was left out of its log is told.
#[verifier::rlimit(40)]
pub proof fn law_every_file_is_sealed<B: MemBackend, H: Host>(
    engine: Engine<B, H>,
    mem: Seq<char>,
    out: MemExportBytes,
)
    requires
        exports(engine, mem, Ok::<MemExportBytes, EngineError>(out)),
        engine.mount_of(mem) is Some,
        engine.mount_of(mem)->0.mount.storage is InMemory,
    ensures
        exists|
            paths: Vec<String>,
            log: Result<Vec<Provenance>, BackendError>,
            carried: RedactedProvenance,
            request: ExportRequest,
            sealed: MemExportBytes,
        |
            #![trigger list_reply(&engine.mount_of(mem)->0.backend, Ok(paths)), redact_reply(&engine.host, log_told(log), paths@, carried), seal_reply(&engine.host, request, Ok(sealed))]
            list_reply(&engine.mount_of(mem)->0.backend, Ok(paths)) && redact_reply(
                &engine.host,
                log_told(log),
                paths@,
                carried,
            ) && seal_reply(&engine.host, request, Ok(sealed)) && request.mem@ == mem && out.bytes
                == sealed.bytes && out.redactions == carried.redactions && (request.source
                matches ExportSource::Entries { entries, provenance, .. } && provenance
                == carried.payload && holds_every_file(
                &engine.mount_of(mem)->0.backend,
                paths@,
                entries@,
            )),
{
    let m = engine.mount_of(mem)->0;
    let config = m.mem_config->0;
    let r = Ok::<MemExportBytes, EngineError>(out);
    assert(seals_memory(engine, &m.backend, mem, config, r));
    let listing = choose|listing: Result<Vec<String>, BackendError>| #[trigger]
        list_reply(&m.backend, listing) && match listing {
            Err(e) => false,
            Ok(paths) => seals_listed_memory(engine, &m.backend, mem, config, paths@, r),
        };
    let paths = listing->Ok_0;
    assert(list_reply(&m.backend, Ok(paths)));
    let files = choose|files: Result<Vec<(String, Vec<u8>)>, BackendError>| #[trigger]
        reads_files(&m.backend, paths@, files) && match files {
            Err(e) => false,
            Ok(entries) => seals_files(engine, &m.backend, mem, config, paths@, entries, r),
        };
    let entries = files->Ok_0;
    let read = choose|read: Seq<Option<Vec<u8>>>| #[trigger]
        were_read(&m.backend, paths@, read) && read.len() == paths@.len() && views(entries@)
            == files_found(paths@, read);
    assert forall|i: int| 0 <= i < paths@.len() implies holds_file_of(
        &m.backend,
        (#[trigger] paths@[i])@,
        entries@,
    ) by {
        let found = read[i];
        assert(entity_reply(
            &m.backend,
            paths@[i]@,
            Ok::<Option<Vec<u8>>, BackendError>(found),
        ));
        if let Some(b) = found {
            lemma_files_found(paths@, read, paths@[i]@, b@);
        }
    }
    assert(holds_every_file(&m.backend, paths@, entries@));
    let (log, carried, anchors) = choose|
        log: Result<Vec<Provenance>, BackendError>,
        carried: RedactedProvenance,
        anchors: Result<Option<Vec<u8>>, BackendError>,
    | #[trigger]
        log_reply(&m.backend, log) && #[trigger] redact_reply(
            &engine.host,
            log_told(log),
            paths@,
            carried,
        ) && #[trigger] crate::backend::anchors_reply(&m.backend, anchors) && match anchors {
            Err(e) => false,
            Ok(a) => crate::archive::seals_entries(engine, mem, config, entries, carried, a, r),
        };
    let a = anchors->Ok_0;
    let (request, reply) = choose|request: ExportRequest, reply: Result<MemExportBytes, String>|
        crate::archive::is_request(engine, mem, config, request) && request.source == (
        ExportSource::Entries { entries, provenance: carried.payload, anchors: a })
            && #[trigger] seal_reply(&engine.host, request, reply)
            && crate::archive::answers_sealing(
            match reply {
                Ok(out) => Ok(crate::archive::with_redactions(out, carried.redactions)),
                Err(m) => Err(m),
            },
            r,
        );
    let sealed = reply->Ok_0;
    assert(seal_reply(&engine.host, request, Ok(sealed)));
}

} // verus!
