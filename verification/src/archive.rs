//! Sealed archives: an engine over archive bytes, and a mem sealed into them.

use crate::backend::{
    anchors_reply, entity_reply, list_reply, log_reply, log_told, reads_reply, sealed_over,
    utf8_error, BackendError, MemBackend, Provenance, SealedBackend, Storage,
};
use crate::boot::{
    boots, joined_path, law_one_mount_serves_what_it_reads, loaded_from, path_joined, read_entries,
    read_failures, was_given,
};
use crate::check::RecordKind;
use crate::check_ops::{is_subject, Subject};
use crate::engine::{says_unknown, Engine, MountedBackend};
use crate::error::EngineError;
use crate::host::{
    extract_reply, formats_reply, git_seal_reply, marker_reply, package_reply, redact_reply,
    seal_reply, source_reply, wired_reply, Host, Surroundings,
};
use crate::schema::{Schema, SchemaRef};
use crate::sort::views;
use crate::text::{
    after_prefix, chars_of, decimal, decimal_of, ends, join, join_list, opt_text, own, own_opt,
    same, slice_of, stands_at, strip_prefix, texts,
};
use crate::workspace::{MemConfig, Mount, MountCapability, MountLifecycle, MountStorage};
use std::sync::Arc;
use vstd::prelude::*;
use vstd::utf8::{decode_utf8, valid_utf8};

verus! {

// ---------------------------------------------------------------------
// What an archive holds
// ---------------------------------------------------------------------

/// Caps on what an archive may hold. One that is not given is the host's own.
#[derive(Debug, Clone)]
pub struct ValidatorLimits {
    /// The caps by name.
    pub caps: Vec<(String, u64)>,
}

impl Default for ValidatorLimits {
    /// No cap but the host's own.
    fn default() -> (r: ValidatorLimits)
        ensures
            r.caps@.len() == 0,
    {
        ValidatorLimits { caps: Vec::new() }
    }
}

/// Why archive bytes were refused.
#[derive(Debug, Clone)]
pub struct ValidationError {
    pub code: String,
    pub message: String,
}

/// The config that a published mem carries.
#[derive(Debug, Clone)]
pub struct PublishedMemConfig {
    pub name: String,
    pub format: u32,
    pub schema: SchemaRef,
}

/// A file of the schema package that an archive carries.
#[derive(Debug, Clone)]
pub struct SchemaFile {
    pub archive_path: String,
    pub content: String,
}

/// An archive taken apart.
#[derive(Debug)]
pub struct ArchiveEntries {
    /// The config, or why it is none.
    pub config: Result<PublishedMemConfig, String>,
    pub schema_files: Vec<SchemaFile>,
}

/// How a schema package means a field that does not say whether it is
/// required.
#[derive(Debug, Clone, Copy, PartialEq, Eq, Structural)]
pub enum PolarityFormat {
    /// As it was written before fields had to say so.
    Legacy,
    /// Such a field is optional.
    RequiredOptIn,
}

/// What of a mutation log an archive carries.
#[derive(Debug, Clone)]
pub struct RedactedProvenance {
    /// The log as an archive holds it, where it could be written.
    pub payload: Option<Vec<u8>>,
    /// How many values were left out, by their class.
    pub redactions: Vec<(String, usize)>,
}

/// What an export seals.
#[derive(Debug, Clone)]
pub enum ExportSource {
    /// The entity files of a directory.
    Folder { path: String },
    /// The tree of a branch.
    Branch {
        gitdir: String,
        branch: String,
        provenance: Option<Vec<u8>>,
        anchors: Option<Vec<u8>>,
    },
    /// Entity files by their paths.
    Entries {
        entries: Vec<(String, Vec<u8>)>,
        provenance: Option<Vec<u8>>,
        anchors: Option<Vec<u8>>,
    },
}

/// What an export is asked to seal.
#[derive(Debug, Clone)]
pub struct ExportRequest {
    pub mem: String,
    pub config: MemConfig,
    pub workspace_root: Option<String>,
    /// Where the workspace keeps the schemas that it authors.
    pub schemas_dir: Option<String>,
    /// Where the pinned schema is taken from, where it does not lie in the
    /// workspace. The git layer finds it in the branch.
    pub schema_source: Option<String>,
    pub source: ExportSource,
}

/// What an export sealed.
#[derive(Debug, Clone)]
pub struct MemExportBytes {
    pub bytes: Vec<u8>,
    pub entities: usize,
    /// Edges into other mems, which the archive does not carry.
    pub dangling_edges: usize,
    /// How many values were left out of the mutation log, by their class.
    pub redactions: Vec<(String, usize)>,
}

/// Why no engine came out of archive bytes.
#[derive(Debug)]
pub enum FromArchiveBytesError {
    /// The bytes were refused.
    Validation(ValidationError),
    /// The config is none.
    InvalidConfig(String),
    /// The archive is of a format that the engine does not accept.
    UnsupportedFormat { declared: u32, accepted: Vec<u32> },
    /// The schema package that the archive carries did not load.
    EmbeddedSchemaInvalid(String),
    /// The engine did not boot.
    Engine(EngineError),
}

/// The numbers of a list in decimals.
pub open spec fn decimals(list: Seq<u32>) -> Seq<Seq<char>> {
    list.map_values(|n: u32| decimal(n as nat))
}

impl FromArchiveBytesError {
    /// What the error says.
    pub open spec fn text(&self) -> Seq<char> {
        match *self {
            FromArchiveBytesError::Validation(e) => "archive validation: "@ + e.message@,
            FromArchiveBytesError::InvalidConfig(m) => "invalid published config: "@ + m@,
            FromArchiveBytesError::UnsupportedFormat { declared, accepted } =>
                "unsupported archive format "@ + decimal(declared as nat)
                + " — this engine accepts formats ["@ + join(decimals(accepted@), ", "@)
                + "]; re-export the mem with a current engine or upgrade this one"@,
            FromArchiveBytesError::EmbeddedSchemaInvalid(m) => "embedded schema failed to load: "@
                + m@,
            FromArchiveBytesError::Engine(e) => e.text(),
        }
    }

    /// What the error says.
    pub fn to_text(&self) -> (r: String)
        ensures
            r@ == self.text(),
    {
        match self {
            FromArchiveBytesError::Validation(e) => "archive validation: ".to_owned().concat(
                &e.message,
            ),
            FromArchiveBytesError::InvalidConfig(m) => "invalid published config: ".to_owned().concat(
                m,
            ),
            FromArchiveBytesError::UnsupportedFormat { declared, accepted } => {
                let mut list: Vec<String> = Vec::new();
                for i in 0..accepted.len()
                    invariant
                        texts(list@) == decimals(accepted@).take(i as int),
                {
                    let ghost past = texts(list@);
                    list.push(decimal_of(accepted[i] as u64));
                    assert(texts(list@) =~= past.push(decimal(accepted@[i as int] as nat)));
                    assert(decimals(accepted@).take(i + 1) =~= decimals(accepted@).take(
                        i as int,
                    ).push(decimals(accepted@)[i as int]));
                }
                assert(decimals(accepted@).take(accepted@.len() as int) =~= decimals(accepted@));
                "unsupported archive format ".to_owned().concat(
                    &decimal_of(*declared as u64),
                ).concat(" — this engine accepts formats [").concat(&join_list(&list, ", ")).concat(
                    "]; re-export the mem with a current engine or upgrade this one",
                )
            },
            FromArchiveBytesError::EmbeddedSchemaInvalid(m) => "embedded schema failed to load: ".to_owned().concat(
            m),
            FromArchiveBytesError::Engine(e) => e.to_text(),
        }
    }
}

// ---------------------------------------------------------------------
// Embedded schemas
// ---------------------------------------------------------------------

/// Where an archive carries its schema package.
pub const SCHEMA_DIR: &'static str = ".memstead/schema/";

/// Where an archive carries the manifest of its schema package.
pub const SCHEMA_MANIFEST: &'static str = ".memstead/schema/schema.yaml";

/// Where an archive carries the types of its schema package.
pub const SCHEMA_TYPES: &'static str = ".memstead/schema/types/";

/// The manifest among the files; the last counts.
pub open spec fn manifest_of(files: Seq<SchemaFile>) -> Option<Seq<char>>
    decreases files.len(),
{
    if files.len() == 0 {
        None
    } else if files.last().archive_path@ == SCHEMA_MANIFEST@ {
        Some(files.last().content@)
    } else {
        manifest_of(files.drop_last())
    }
}

/// A text without `suffix` at its end, where it stands there.
pub open spec fn before_suffix(s: Seq<char>, suffix: Seq<char>) -> Option<Seq<char>> {
    if ends(s, suffix) {
        Some(s.take(s.len() - suffix.len()))
    } else {
        None
    }
}

/// The name of the type that a file of the package defines.
pub open spec fn type_stem(path: Seq<char>) -> Option<Seq<char>> {
    if path == SCHEMA_MANIFEST@ {
        None
    } else {
        match after_prefix(path, SCHEMA_TYPES@) {
            Some(rest) => before_suffix(rest, ".yaml"@),
            None => None,
        }
    }
}

/// The types among the files, each by its name.
pub open spec fn types_of(files: Seq<SchemaFile>) -> Seq<(Seq<char>, Seq<char>)>
    decreases files.len(),
{
    if files.len() == 0 {
        Seq::empty()
    } else {
        match type_stem(files.last().archive_path@) {
            Some(stem) => types_of(files.drop_last()).push((stem, files.last().content@)),
            None => types_of(files.drop_last()),
        }
    }
}

/// Whether a file of that path is among the files.
pub open spec fn holds_file(files: Seq<SchemaFile>, path: Seq<char>) -> bool {
    exists|i: int| 0 <= i < files.len() && (#[trigger] files[i]).archive_path@ == path
}

/// How the package means its fields: a marker file says so.
pub open spec fn format_of(files: Seq<SchemaFile>, marker: Seq<char>) -> PolarityFormat {
    if holds_file(files, SCHEMA_DIR@ + marker) {
        PolarityFormat::RequiredOptIn
    } else {
        PolarityFormat::Legacy
    }
}

/// Whether `r` is what the schema package of an archive gives: nothing where
/// there is none, else the one schema of it.
pub open spec fn loads_embedded<H: Host>(
    h: &Surroundings<H>,
    files: Seq<SchemaFile>,
    r: Result<Vec<Arc<Schema>>, FromArchiveBytesError>,
) -> bool {
    if files.len() == 0 {
        r matches Ok(v) && v@.len() == 0
    } else {
        match manifest_of(files) {
            None => r matches Err(FromArchiveBytesError::EmbeddedSchemaInvalid(m)) && m@
                == "embedded schema package present but `.memstead/schema/schema.yaml` missing"@,
            Some(manifest) => loads_package(h, files, manifest, r),
        }
    }
}

/// Whether `r` is what loading a package with a manifest gives.
pub open spec fn loads_package<H: Host>(
    h: &Surroundings<H>,
    files: Seq<SchemaFile>,
    manifest: Seq<char>,
    r: Result<Vec<Arc<Schema>>, FromArchiveBytesError>,
) -> bool {
    exists|marker: String, reply: Result<Arc<Schema>, String>| #[trigger]
        marker_reply(h, marker) && #[trigger] package_reply(
            h,
            manifest,
            types_of(files),
            format_of(files, marker@),
            reply,
        ) && match reply {
            Ok(schema) => r matches Ok(v) && v@ == seq![schema],
            Err(e) => r matches Err(FromArchiveBytesError::EmbeddedSchemaInvalid(m)) && m == e,
        }
}

/// A text without `suffix` at its end.
fn strip_suffix(s: &str, suffix: &str) -> (r: Option<String>)
    ensures
        opt_text(r) == before_suffix(s@, suffix@),
{
    let x = chars_of(s);
    let p = chars_of(suffix);
    if p.len() > x.len() {
        return None;
    }
    let at: usize = x.len() - p.len();
    if stands_at(&x, &p, at) {
        assert(ends(s@, suffix@));
        assert(s@.subrange(0, at as int) =~= s@.take(at as int));
        Some(slice_of(&x, 0, at))
    } else {
        assert(!ends(s@, suffix@));
        None
    }
}

/// The name of the type that a file of the package defines.
fn stem_of(path: &str) -> (r: Option<String>)
    ensures
        opt_text(r) == type_stem(path@),
{
    if same(path, SCHEMA_MANIFEST) {
        return None;
    }
    match strip_prefix(path, SCHEMA_TYPES) {
        Some(rest) => strip_suffix(&rest, ".yaml"),
        None => None,
    }
}

/// Load the schema package that an archive carries, if it carries one.
pub fn load_embedded_schemas<H: Host>(
    host: &Surroundings<H>,
    schema_files: &Vec<SchemaFile>,
) -> (r: Result<
    Vec<Arc<Schema>>,
    FromArchiveBytesError,
>)
    ensures
        loads_embedded(host, schema_files@, r),
{
    if schema_files.len() == 0 {
        return Ok(Vec::new());
    }
    let mut manifest: Option<String> = None;
    let mut types: Vec<(String, String)> = Vec::new();
    assert(views(types@) =~= types_of(schema_files@.take(0)));
    for i in 0..schema_files.len()
        invariant
            opt_text(manifest) == manifest_of(schema_files@.take(i as int)),
            views(types@) == types_of(schema_files@.take(i as int)),
    {
        assert(schema_files@.take(i + 1).drop_last() =~= schema_files@.take(i as int));
        let sf = &schema_files[i];
        if same(&sf.archive_path, SCHEMA_MANIFEST) {
            manifest = Some(sf.content.clone());
        }
        if let Some(stem) = stem_of(&sf.archive_path) {
            let ghost past = views(types@);
            types.push((stem, sf.content.clone()));
            assert(views(types@) =~= past.push((stem@, sf.content@)));
        }
    }
    assert(schema_files@.take(schema_files@.len() as int) =~= schema_files@);
    let manifest = match manifest {
        Some(m) => m,
        None => {
            return Err(
                FromArchiveBytesError::EmbeddedSchemaInvalid(
                    own(
                        "embedded schema package present but `.memstead/schema/schema.yaml` missing",
                    ),
                ),
            );
        },
    };
    let marker = host.schema_format_marker();
    assert(marker_reply(host, marker));
    let marker_path = SCHEMA_DIR.to_owned().concat(&marker);
    let mut format = PolarityFormat::Legacy;
    for i in 0..schema_files.len()
        invariant
            marker_path@ == SCHEMA_DIR@ + marker@,
            format == PolarityFormat::Legacy || format == PolarityFormat::RequiredOptIn,
            format == PolarityFormat::RequiredOptIn <==> exists|k: int|
                0 <= k < i && (#[trigger] schema_files@[k]).archive_path@ == marker_path@,
    {
        if same(&schema_files[i].archive_path, &marker_path) {
            format = PolarityFormat::RequiredOptIn;
            assert(schema_files@[i as int].archive_path@ == marker_path@);
        }
    }
    assert(format == format_of(schema_files@, marker@));
    let reply = host.load_schema(&manifest, &types, format);
    let ghost told = reply;
    assert(package_reply(host, manifest@, types_of(schema_files@), format, told));
    let r = match reply {
        Ok(schema) => {
            let mut out: Vec<Arc<Schema>> = Vec::new();
            out.push(schema);
            assert(out@ =~= seq![schema]);
            Ok(out)
        },
        Err(e) => Err(FromArchiveBytesError::EmbeddedSchemaInvalid(e)),
    };
    assert(loads_package(host, schema_files@, manifest@, r));
    r
}

// ---------------------------------------------------------------------
// Hydration
// ---------------------------------------------------------------------

/// Whether `mount` is the mount of a hydrated mem: sealed, and only to read.
pub open spec fn is_sealed_mount(config: PublishedMemConfig, mount: Mount) -> bool {
    &&& mount.mem == config.name
    &&& mount.schema == Some(config.schema)
    &&& mount.storage matches MountStorage::Archive { path } && path@.len() == 0
    &&& mount.capability == MountCapability::ReadOnly
    &&& mount.lifecycle == MountLifecycle::Eager
    &&& !mount.cross_linkable
    &&& mount.migration_target is None
}

/// Whether `r` is what archive bytes under caps give.
pub open spec fn hydrates<B: SealedBackend, H: Host>(
    host: Surroundings<H>,
    bytes: Vec<u8>,
    limits: ValidatorLimits,
    r: Result<Engine<B, H>, FromArchiveBytesError>,
) -> bool {
    exists|reply: Result<ArchiveEntries, ValidationError>| #[trigger]
        extract_reply(&host, bytes@, limits, reply) && match reply {
            Err(e) => r == Err::<Engine<B, H>, FromArchiveBytesError>(
                FromArchiveBytesError::Validation(e),
            ),
            Ok(entries) => hydrates_entries(host, bytes, entries, r),
        }
}

/// Whether `r` is what an archive taken apart gives.
pub open spec fn hydrates_entries<B: SealedBackend, H: Host>(
    host: Surroundings<H>,
    bytes: Vec<u8>,
    entries: ArchiveEntries,
    r: Result<Engine<B, H>, FromArchiveBytesError>,
) -> bool {
    match entries.config {
        Err(e) => r == Err::<Engine<B, H>, FromArchiveBytesError>(
            FromArchiveBytesError::InvalidConfig(e),
        ),
        Ok(config) => exists|accepted: Vec<u32>| #[trigger]
            formats_reply(&host, accepted) && if accepted@.contains(config.format) {
                hydrates_mem(host, bytes, config, entries.schema_files@, r)
            } else {
                r matches Err(FromArchiveBytesError::UnsupportedFormat { declared, accepted: a })
                    && declared == config.format && a == accepted
            },
    }
}

/// Whether `r` is what an archive of an accepted format gives.
pub open spec fn hydrates_mem<B: SealedBackend, H: Host>(
    host: Surroundings<H>,
    bytes: Vec<u8>,
    config: PublishedMemConfig,
    files: Seq<SchemaFile>,
    r: Result<Engine<B, H>, FromArchiveBytesError>,
) -> bool {
    exists|loaded: Result<Vec<Arc<Schema>>, FromArchiveBytesError>| #[trigger]
        loads_embedded(&host, files, loaded) && match loaded {
            Err(e) => r == Err::<Engine<B, H>, FromArchiveBytesError>(e),
            Ok(schemas) => boots_sealed(host, bytes, config, schemas@, r),
        }
}

/// Whether `r` is what booting over the one sealed mount gives.
pub open spec fn boots_sealed<B: SealedBackend, H: Host>(
    host: Surroundings<H>,
    bytes: Vec<u8>,
    config: PublishedMemConfig,
    schemas: Seq<Arc<Schema>>,
    r: Result<Engine<B, H>, FromArchiveBytesError>,
) -> bool {
    exists|mount: Mount, backend: Storage<B>, booted: Result<Engine<B, H>, EngineError>|
        is_sealed_mount(
            config,
            mount,
        ) && #[trigger] sealed_over(bytes, backend) && #[trigger] boots(
            host,
            seq![(mount, backend)],
            schemas,
            Seq::empty(),
            booted,
        ) && match booted {
            Ok(engine) => r == Ok::<Engine<B, H>, FromArchiveBytesError>(engine),
            Err(e) => r == Err::<Engine<B, H>, FromArchiveBytesError>(
                FromArchiveBytesError::Engine(e),
            ),
        }
}

impl<B: SealedBackend, H: Host> Engine<B, H> {
    /// Build an engine from the bytes of a sealed archive: one mount, only to
    /// read, served out of the bytes themselves.
    pub fn from_archive_bytes(host: Surroundings<H>, bytes: Vec<u8>) -> (r: Result<
        Engine<B, H>,
        FromArchiveBytesError,
    >)
        ensures
            exists|limits: ValidatorLimits|
                limits.caps@.len() == 0 && #[trigger] hydrates(host, bytes, limits, r),
    {
        let limits = ValidatorLimits { caps: Vec::new() };
        Engine::from_archive_bytes_with_limits(host, bytes, &limits)
    }

    /// Build an engine from the bytes of a sealed archive, under caps of the
    /// caller.
    pub fn from_archive_bytes_with_limits(
        host: Surroundings<H>,
        bytes: Vec<u8>,
        limits: &ValidatorLimits,
    ) -> (r: Result<Engine<B, H>, FromArchiveBytesError>)
        ensures
            hydrates(host, bytes, *limits, r),
    {
        let ghost given = bytes;
        let reply = host.extract_archive(&bytes, limits);
        let ghost told = reply;
        assert(extract_reply(&host, bytes@, *limits, told));
        let entries = match reply {
            Ok(entries) => entries,
            Err(e) => {
                return Err(FromArchiveBytesError::Validation(e));
            },
        };
        let ghost parts = entries;
        let published = match entries.config {
            Ok(c) => c,
            Err(e) => {
                let r = Err(FromArchiveBytesError::InvalidConfig(e));
                assert(hydrates_entries::<B, H>(host, given, parts, r));
                return r;
            },
        };
        let accepted = host.accepted_formats();
        assert(formats_reply(&host, accepted));
        let mut known = false;
        for i in 0..accepted.len()
            invariant
                known <==> exists|k: int| 0 <= k < i && #[trigger] accepted@[k] == published.format,
        {
            if accepted[i] == published.format {
                known = true;
            }
        }
        assert(known == accepted@.contains(published.format));
        if !known {
            let r = Err(
                FromArchiveBytesError::UnsupportedFormat { declared: published.format, accepted },
            );
            assert(hydrates_entries::<B, H>(host, given, parts, r));
            return r;
        }
        let loaded = load_embedded_schemas(&host, &entries.schema_files);
        let ghost package = loaded;
        assert(loads_embedded(&host, parts.schema_files@, package));
        let schemas = match loaded {
            Ok(s) => s,
            Err(e) => {
                let r = Err(e);
                assert(hydrates_mem::<B, H>(host, given, published, parts.schema_files@, r));
                assert(hydrates_entries::<B, H>(host, given, parts, r));
                return r;
            },
        };
        let ghost extra = schemas@;
        let ghost config = published;
        let ghost surroundings = host;
        let mount = Mount {
            mem: published.name,
            schema: Some(published.schema),
            storage: MountStorage::Archive { path: own("") },
            capability: MountCapability::ReadOnly,
            lifecycle: MountLifecycle::Eager,
            cross_linkable: false,
            migration_target: None,
        };
        proof {
            reveal_strlit("");
        }
        assert(is_sealed_mount(config, mount));
        let backend = Storage::new(B::from_bytes(bytes));
        let ghost sealed = backend;
        let ghost record = mount;
        assert(sealed_over(given, sealed));
        let mut mounts: Vec<(Mount, Storage<B>)> = Vec::new();
        mounts.push((mount, backend));
        assert(mounts@ =~= seq![(record, sealed)]);
        let booted = Engine::from_mounts_inner(host, mounts, schemas, Vec::new());
        let ghost outcome = booted;
        assert(boots(surroundings, seq![(record, sealed)], extra, Seq::empty(), outcome));
        let r = match booted {
            Ok(engine) => Ok(engine),
            Err(e) => Err(FromArchiveBytesError::Engine(e)),
        };
        assert(boots_sealed(surroundings, given, config, extra, r));
        assert(hydrates_mem(surroundings, given, config, parts.schema_files@, r));
        assert(hydrates_entries(surroundings, given, parts, r));
        r
    }
}

/// What a hydrated engine serves, it serves from a backend over the bytes,
/// sealed and under the name that the archive's config gives.
proof fn lemma_hydrated_mounts<B: SealedBackend, H: Host>(
    host: Surroundings<H>,
    bytes: Vec<u8>,
    limits: ValidatorLimits,
    engine: Engine<B, H>,
) -> (entries: ArchiveEntries)
    requires
        hydrates(host, bytes, limits, Ok::<Engine<B, H>, FromArchiveBytesError>(engine)),
    ensures
        extract_reply(&host, bytes@, limits, Ok::<ArchiveEntries, ValidationError>(entries)),
        entries.config is Ok,
        forall|i: int|
            0 <= i < engine.mounts@.len() ==> is_sealed_mount(
                entries.config->Ok_0,
                (#[trigger] engine.mounts@[i]).mount,
            ) && sealed_over(bytes, engine.mounts@[i].backend),
{
    let r = Ok::<Engine<B, H>, FromArchiveBytesError>(engine);
    let reply = choose|reply: Result<ArchiveEntries, ValidationError>| #[trigger]
        extract_reply(&host, bytes@, limits, reply) && match reply {
            Err(e) => r == Err::<Engine<B, H>, FromArchiveBytesError>(
                FromArchiveBytesError::Validation(e),
            ),
            Ok(entries) => hydrates_entries(host, bytes, entries, r),
        };
    let entries = reply->Ok_0;
    let config = entries.config->Ok_0;
    assert(hydrates_entries(host, bytes, entries, r));
    assert(hydrates_mem(host, bytes, config, entries.schema_files@, r));
    let loaded = choose|loaded: Result<Vec<Arc<Schema>>, FromArchiveBytesError>| #[trigger]
        loads_embedded(&host, entries.schema_files@, loaded) && match loaded {
            Err(e) => r == Err::<Engine<B, H>, FromArchiveBytesError>(e),
            Ok(schemas) => boots_sealed(host, bytes, config, schemas@, r),
        };
    let schemas = loaded->Ok_0@;
    assert(boots_sealed(host, bytes, config, schemas, r));
    let (mount, backend, booted) = choose|
        mount: Mount,
        backend: Storage<B>,
        booted: Result<Engine<B, H>, EngineError>,
    |
        is_sealed_mount(
            config,
            mount,
        ) && #[trigger] sealed_over(bytes, backend) && #[trigger] boots(
            host,
            seq![(mount, backend)],
            schemas,
            Seq::empty(),
            booted,
        ) && match booted {
            Ok(engine) => r == Ok::<Engine<B, H>, FromArchiveBytesError>(engine),
            Err(e) => r == Err::<Engine<B, H>, FromArchiveBytesError>(
                FromArchiveBytesError::Engine(e),
            ),
        };
    let mounts = seq![(mount, backend)];
    assert(boots(host, mounts, schemas, Seq::empty(), Ok(engine)));
    crate::boot::law_served_mounts_were_given(host, mounts, schemas, Seq::empty(), engine);
    assert forall|i: int| 0 <= i < engine.mounts@.len() implies is_sealed_mount(
        config,
        (#[trigger] engine.mounts@[i]).mount,
    ) && sealed_over(bytes, engine.mounts@[i].backend) by {
        let m = engine.mounts@[i];
        assert(was_given(mounts, m));
        let k = choose|k: int|
            0 <= k < mounts.len() && (#[trigger] mounts[k]).0 == m.mount && mounts[k].1
                == m.backend;
        assert(mounts[k] == (mount, backend));
    }
    entries
}

/// An engine over archive bytes serves nothing but what may only be read:
/// every mount of it is sealed.
pub proof fn law_hydrated_engine_is_read_only<B: SealedBackend, H: Host>(
    host: Surroundings<H>,
    bytes: Vec<u8>,
    limits: ValidatorLimits,
    engine: Engine<B, H>,
)
    requires
        hydrates(host, bytes, limits, Ok::<Engine<B, H>, FromArchiveBytesError>(engine)),
    ensures
        forall|i: int|
            0 <= i < engine.mounts@.len() ==> (#[trigger] engine.mounts@[i]).mount.capability
                == MountCapability::ReadOnly && engine.mounts@[i].mount.storage is Archive,
{
    let entries = lemma_hydrated_mounts(host, bytes, limits, engine);
}

/// Nothing is recorded of an entity in an engine all of whose mounts are only
/// to read: whatever is asked, the answer is an error.
pub proof fn law_read_only_engine_records_no_check<B: MemBackend, H: Host>(
    engine: Engine<B, H>,
    mem: Seq<char>,
    id: Seq<char>,
    kind: RecordKind,
    r: Result<Subject, EngineError>,
)
    requires
        forall|i: int|
            0 <= i < engine.mounts@.len() ==> (#[trigger] engine.mounts@[i]).mount.capability
                == MountCapability::ReadOnly,
        is_subject(engine, mem, id, kind, r),
    ensures
        r is Err,
{
    crate::engine::lemma_mount_index(engine.mounts@, mem, 0);
}

// ---------------------------------------------------------------------
// Export
// ---------------------------------------------------------------------

/// Where a workspace keeps the schemas that it authors.
pub open spec fn authored_dir(root: Option<String>) -> Option<Seq<char>> {
    match root {
        Some(r) => Some(joined_path(r@, ".memstead/schemas"@)),
        None => None,
    }
}

/// Whether a request seals a mem of an engine under a config.
pub open spec fn is_request<B, H: Host>(
    engine: Engine<B, H>,
    mem: Seq<char>,
    config: MemConfig,
    request: ExportRequest,
) -> bool {
    &&& request.mem@ == mem
    &&& request.config == config
    &&& request.workspace_root == engine.workspace_root
    &&& opt_text(request.schemas_dir) == authored_dir(engine.workspace_root)
    &&& if request.source is Branch {
        request.schema_source is None
    } else {
        source_reply(&engine.host, config, request.schema_source)
    }
}

/// Whether `r` is what the failed or done sealing of entity files is answered.
pub open spec fn answers_sealing(
    reply: Result<MemExportBytes, String>,
    r: Result<MemExportBytes, EngineError>,
) -> bool {
    match reply {
        Ok(out) => r == Ok::<MemExportBytes, EngineError>(out),
        Err(m) => r matches Err(EngineError::Backend(BackendError::Other(t))) && t@
            == "export_mem_to_bytes: "@ + m@,
    }
}

/// Whether `r` is what sealing a folder gives.
pub open spec fn seals_folder<B, H: Host>(
    engine: Engine<B, H>,
    mem: Seq<char>,
    config: MemConfig,
    path: String,
    r: Result<MemExportBytes, EngineError>,
) -> bool {
    exists|request: ExportRequest, reply: Result<MemExportBytes, String>|
        is_request(engine, mem, config, request) && request.source == (ExportSource::Folder {
            path,
        }) && #[trigger] seal_reply(&engine.host, request, reply) && answers_sealing(reply, r)
}

/// An export with the redactions of its log.
pub open spec fn with_redactions(
    out: MemExportBytes,
    redactions: Vec<(String, usize)>,
) -> MemExportBytes {
    MemExportBytes { redactions, ..out }
}

/// The anchors that a reply tells of; a failed read tells of none.
pub open spec fn anchors_told(reply: Result<Option<Vec<u8>>, BackendError>) -> Option<Vec<u8>> {
    match reply {
        Ok(a) => a,
        Err(_) => None,
    }
}

/// Whether `r` is what sealing a branch gives.
pub open spec fn seals_branch<B: MemBackend, H: Host>(
    engine: Engine<B, H>,
    backend: &Storage<B>,
    mem: Seq<char>,
    config: MemConfig,
    gitdir: String,
    branch: String,
    r: Result<MemExportBytes, EngineError>,
) -> bool {
    exists|wired: bool| #[trigger]
        wired_reply(&engine.host, wired) && if wired {
            seals_listed_branch(engine, backend, mem, config, gitdir, branch, r)
        } else {
            r matches Err(EngineError::Backend(BackendError::Other(t))) && t@
                == "git-branch export hook not installed (git-branch ops not wired)"@
        }
}

/// Whether `r` is what sealing a branch gives where the git layer can.
pub open spec fn seals_listed_branch<B: MemBackend, H: Host>(
    engine: Engine<B, H>,
    backend: &Storage<B>,
    mem: Seq<char>,
    config: MemConfig,
    gitdir: String,
    branch: String,
    r: Result<MemExportBytes, EngineError>,
) -> bool {
    exists|listing: Result<Vec<String>, BackendError>| #[trigger]
        list_reply(backend, listing) && match listing {
            Err(e) => r == Err::<MemExportBytes, EngineError>(EngineError::Backend(e)),
            Ok(paths) => seals_tree(engine, backend, mem, config, gitdir, branch, paths@, r),
        }
}

/// Whether `r` is what sealing the tree of a branch gives.
pub open spec fn seals_tree<B: MemBackend, H: Host>(
    engine: Engine<B, H>,
    backend: &Storage<B>,
    mem: Seq<char>,
    config: MemConfig,
    gitdir: String,
    branch: String,
    paths: Seq<String>,
    r: Result<MemExportBytes, EngineError>,
) -> bool {
    exists|
        log: Result<Vec<Provenance>, BackendError>,
        carried: RedactedProvenance,
        anchors: Result<Option<Vec<u8>>, BackendError>,
        request: ExportRequest,
        reply: Result<MemExportBytes, BackendError>,
    | #[trigger]
        log_reply(backend, log) && #[trigger] redact_reply(
            &engine.host,
            log_told(log),
            paths,
            carried,
        ) && #[trigger] anchors_reply(backend, anchors) && is_request(engine, mem, config, request)
            && request.source == (ExportSource::Branch {
            gitdir,
            branch,
            provenance: carried.payload,
            anchors: anchors_told(anchors),
        }) && #[trigger] git_seal_reply(&engine.host, request, reply) && match reply {
            Ok(out) => r == Ok::<MemExportBytes, EngineError>(
                with_redactions(out, carried.redactions),
            ),
            Err(e) => r == Err::<MemExportBytes, EngineError>(EngineError::Backend(e)),
        }
}

/// The files that were there, of those listed.
pub open spec fn files_found(paths: Seq<String>, read: Seq<Option<Vec<u8>>>) -> Seq<
    (Seq<char>, Seq<u8>),
>
    decreases paths.len(),
{
    if paths.len() == 0 || read.len() != paths.len() {
        Seq::empty()
    } else {
        let rest = files_found(paths.drop_last(), read.drop_last());
        match read.last() {
            Some(bytes) => rest.push((paths.last()@, bytes@)),
            None => rest,
        }
    }
}

/// Whether the storage may have read this of the first of the paths.
pub open spec fn were_read<B: MemBackend>(
    backend: &Storage<B>,
    paths: Seq<String>,
    read: Seq<Option<Vec<u8>>>,
) -> bool {
    read.len() <= paths.len() && forall|i: int|
        0 <= i < read.len() ==> entity_reply(
            backend,
            paths[i]@,
            Ok::<Option<Vec<u8>>, BackendError>(#[trigger] read[i]),
        )
}

/// Whether `r` is what reading the listed files gives: those that are there,
/// or the first failure.
pub open spec fn reads_files<B: MemBackend>(
    backend: &Storage<B>,
    paths: Seq<String>,
    r: Result<Vec<(String, Vec<u8>)>, BackendError>,
) -> bool {
    exists|read: Seq<Option<Vec<u8>>>| #[trigger]
        were_read(backend, paths, read) && match r {
            Ok(files) => read.len() == paths.len() && views(files@) == files_found(paths, read),
            Err(e) => read.len() < paths.len() && entity_reply(
                backend,
                paths[read.len() as int]@,
                Err::<Option<Vec<u8>>, BackendError>(e),
            ),
        }
}

/// Whether `r` is what sealing a mem in memory gives.
pub open spec fn seals_memory<B: MemBackend, H: Host>(
    engine: Engine<B, H>,
    backend: &Storage<B>,
    mem: Seq<char>,
    config: MemConfig,
    r: Result<MemExportBytes, EngineError>,
) -> bool {
    exists|listing: Result<Vec<String>, BackendError>| #[trigger]
        list_reply(backend, listing) && match listing {
            Err(e) => r == Err::<MemExportBytes, EngineError>(EngineError::Backend(e)),
            Ok(paths) => seals_listed_memory(engine, backend, mem, config, paths@, r),
        }
}

/// Whether `r` is what sealing the listed files of a mem in memory gives.
pub open spec fn seals_listed_memory<B: MemBackend, H: Host>(
    engine: Engine<B, H>,
    backend: &Storage<B>,
    mem: Seq<char>,
    config: MemConfig,
    paths: Seq<String>,
    r: Result<MemExportBytes, EngineError>,
) -> bool {
    exists|files: Result<Vec<(String, Vec<u8>)>, BackendError>| #[trigger]
        reads_files(backend, paths, files) && match files {
            Err(e) => r == Err::<MemExportBytes, EngineError>(EngineError::Backend(e)),
            Ok(entries) => seals_files(engine, backend, mem, config, paths, entries, r),
        }
}

/// Whether `r` is what sealing the files of a mem in memory gives.
pub open spec fn seals_files<B: MemBackend, H: Host>(
    engine: Engine<B, H>,
    backend: &Storage<B>,
    mem: Seq<char>,
    config: MemConfig,
    paths: Seq<String>,
    entries: Vec<(String, Vec<u8>)>,
    r: Result<MemExportBytes, EngineError>,
) -> bool {
    exists|
        log: Result<Vec<Provenance>, BackendError>,
        carried: RedactedProvenance,
        anchors: Result<Option<Vec<u8>>, BackendError>,
    | #[trigger]
        log_reply(backend, log) && #[trigger] redact_reply(
            &engine.host,
            log_told(log),
            paths,
            carried,
        ) && #[trigger] anchors_reply(backend, anchors) && match anchors {
            Err(e) => r == Err::<MemExportBytes, EngineError>(EngineError::Backend(e)),
            Ok(a) => seals_entries(engine, mem, config, entries, carried, a, r),
        }
}

/// Whether `r` is what sealing entity files with their log and anchors gives.
pub open spec fn seals_entries<B, H: Host>(
    engine: Engine<B, H>,
    mem: Seq<char>,
    config: MemConfig,
    entries: Vec<(String, Vec<u8>)>,
    carried: RedactedProvenance,
    anchors: Option<Vec<u8>>,
    r: Result<MemExportBytes, EngineError>,
) -> bool {
    exists|request: ExportRequest, reply: Result<MemExportBytes, String>|
        is_request(engine, mem, config, request) && request.source == (ExportSource::Entries {
            entries,
            provenance: carried.payload,
            anchors,
        }) && #[trigger] seal_reply(&engine.host, request, reply) && answers_sealing(
            match reply {
                Ok(out) => Ok(with_redactions(out, carried.redactions)),
                Err(m) => Err(m),
            },
            r,
        )
}

/// Whether `r` is what exporting a mem gives. An archive is not exported
/// again, and a mem without a version has nothing to be sealed under.
pub open spec fn exports<B: MemBackend, H: Host>(
    engine: Engine<B, H>,
    mem: Seq<char>,
    r: Result<MemExportBytes, EngineError>,
) -> bool {
    match engine.mount_of(mem) {
        None => r matches Err(e) && says_unknown(engine.quarantined@, mem, e),
        Some(m) => match m.mem_config {
            None => r matches Err(EngineError::InvalidInput(t)) && t@ == "mem '"@ + mem
                + "' has no loaded MemConfig — cannot export"@,
            Some(config) => if config.version is None {
                r matches Err(EngineError::MemConfigIncomplete { mem: n, missing_fields }) && n@
                    == mem && texts(missing_fields@) == seq!["version"@]
            } else {
                exports_storage(engine, m, mem, config, r)
            },
        },
    }
}

/// Whether `r` is what exporting a mem gives by where it is stored.
pub open spec fn exports_storage<B: MemBackend, H: Host>(
    engine: Engine<B, H>,
    m: MountedBackend<B>,
    mem: Seq<char>,
    config: MemConfig,
    r: Result<MemExportBytes, EngineError>,
) -> bool {
    match m.mount.storage {
        MountStorage::Folder { path } => seals_folder(engine, mem, config, path, r),
        MountStorage::Archive { .. } => r == Err::<MemExportBytes, EngineError>(
            EngineError::Backend(BackendError::Sealed),
        ),
        MountStorage::GitBranch { gitdir, branch } => seals_branch(
            engine,
            &m.backend,
            mem,
            config,
            gitdir,
            branch,
            r,
        ),
        MountStorage::InMemory => seals_memory(engine, &m.backend, mem, config, r),
    }
}

/// The listed files that are there, or the first failure.
fn read_files<B: MemBackend>(backend: &Storage<B>, paths: &Vec<String>) -> (r: Result<
    Vec<(String, Vec<u8>)>,
    BackendError,
>)
    ensures
        reads_files(backend, paths@, r),
{
    let mut out: Vec<(String, Vec<u8>)> = Vec::new();
    let ghost mut read: Seq<Option<Vec<u8>>> = Seq::empty();
    assert(views(out@) =~= files_found(paths@.take(0), read));
    for i in 0..paths.len()
        invariant
            read.len() == i,
            were_read(backend, paths@, read),
            views(out@) == files_found(paths@.take(i as int), read),
    {
        assert(paths@.take(i + 1).drop_last() =~= paths@.take(i as int));
        let ghost past = read;
        let reply = backend.read_entity(&paths[i]);
        let ghost told = reply;
        assert(entity_reply(backend, paths@[i as int]@, told));
        match reply {
            Err(e) => {
                return Err(e);
            },
            Ok(found) => {
                proof {
                    read = past.push(found);
                    assert(read.drop_last() =~= past);
                    assert(were_read(backend, paths@, read));
                }
                if let Some(bytes) = found {
                    let ghost seen = views(out@);
                    out.push((paths[i].clone(), bytes));
                    assert(views(out@) =~= seen.push((paths@[i as int]@, bytes@)));
                }
            },
        }
    }
    assert(paths@.take(paths@.len() as int) =~= paths@);
    Ok(out)
}

impl<B: MemBackend, H: Host> Engine<B, H> {
    /// Seal a mem into archive bytes.
    pub fn export_mem_to_bytes(&self, mem_name: &str) -> (r: Result<Vec<u8>, EngineError>)
        ensures
            exists|report: Result<MemExportBytes, EngineError>| #[trigger]
                exports(*self, mem_name@, report) && match report {
                    Ok(out) => r == Ok::<Vec<u8>, EngineError>(out.bytes),
                    Err(e) => r == Err::<Vec<u8>, EngineError>(e),
                },
    {
        let report = self.export_mem_bytes_report(mem_name);
        let ghost told = report;
        assert(exports(*self, mem_name@, told));
        match report {
            Ok(out) => Ok(out.bytes),
            Err(e) => Err(e),
        }
    }

    /// The request to seal what `source` holds of a mem.
    fn export_request(&self, mem_name: &str, config: &MemConfig, source: ExportSource) -> (r:
        ExportRequest)
        ensures
            is_request(*self, mem_name@, *config, r),
            r.source == source,
    {
        let schema_source = match &source {
            ExportSource::Branch { .. } => None,
            _ => self.host.schema_source(config),
        };
        ExportRequest {
            mem: own(mem_name),
            config: config.copy(),
            workspace_root: own_opt(&self.workspace_root),
            schemas_dir: match &self.workspace_root {
                Some(root) => Some(path_joined(root, ".memstead/schemas")),
                None => None,
            },
            schema_source,
            source,
        }
    }

    /// Seal a branch, with its log and its anchors.
    fn export_branch(
        &self,
        backend: &Storage<B>,
        mem_name: &str,
        config: &MemConfig,
        gitdir: &String,
        branch: &String,
    ) -> (r: Result<MemExportBytes, EngineError>)
        ensures
            seals_branch(*self, backend, mem_name@, *config, *gitdir, *branch, r),
    {
        let wired = self.host.git_export_wired();
        assert(wired_reply(&self.host, wired));
        if !wired {
            return Err(
                EngineError::Backend(
                    BackendError::Other(
                        own("git-branch export hook not installed (git-branch ops not wired)"),
                    ),
                ),
            );
        }
        let listing = backend.list_entities();
        let ghost listed = listing;
        assert(list_reply(backend, listed));
        let paths = match listing {
            Ok(p) => p,
            Err(e) => {
                let r = Err(EngineError::Backend(e));
                assert(seals_listed_branch(
                    *self,
                    backend,
                    mem_name@,
                    *config,
                    *gitdir,
                    *branch,
                    r,
                ));
                return r;
            },
        };
        let log = backend.read_provenance();
        let ghost told_log = log;
        assert(log_reply(backend, told_log));
        let records = match log {
            Ok(v) => v,
            Err(_) => Vec::new(),
        };
        assert(records@ =~= log_told(told_log));
        let carried = self.host.redact_provenance(&records, &paths);
        let ghost told_carried = carried;
        assert(redact_reply(&self.host, log_told(told_log), paths@, told_carried));
        let anchors = backend.read_anchors_sidecar();
        let ghost told_anchors = anchors;
        assert(anchors_reply(backend, told_anchors));
        let anchors = match anchors {
            Ok(a) => a,
            Err(_) => None,
        };
        let redactions = carried.redactions;
        let request = self.export_request(
            mem_name,
            config,
            ExportSource::Branch {
                gitdir: gitdir.clone(),
                branch: branch.clone(),
                provenance: carried.payload,
                anchors,
            },
        );
        let reply = self.host.git_seal_archive(&request);
        let ghost told = reply;
        assert(git_seal_reply(&self.host, request, told));
        let r = match reply {
            Ok(mut out) => {
                out.redactions = redactions;
                Ok(out)
            },
            Err(e) => Err(EngineError::Backend(e)),
        };
        assert(seals_tree(
            *self,
            backend,
            mem_name@,
            *config,
            *gitdir,
            *branch,
            paths@,
            r,
        ));
        assert(seals_listed_branch(*self, backend, mem_name@, *config, *gitdir, *branch, r));
        r
    }

    /// Seal a mem in memory, with its log and its anchors.
    fn export_memory(&self, backend: &Storage<B>, mem_name: &str, config: &MemConfig) -> (r: Result<
        MemExportBytes,
        EngineError,
    >)
        ensures
            seals_memory(*self, backend, mem_name@, *config, r),
    {
        let listing = backend.list_entities();
        let ghost listed = listing;
        assert(list_reply(backend, listed));
        let paths = match listing {
            Ok(p) => p,
            Err(e) => {
                return Err(EngineError::Backend(e));
            },
        };
        let files = read_files(backend, &paths);
        let ghost told_files = files;
        assert(reads_files(backend, paths@, told_files));
        let entries = match files {
            Ok(v) => v,
            Err(e) => {
                let r = Err(EngineError::Backend(e));
                assert(seals_listed_memory(*self, backend, mem_name@, *config, paths@, r));
                return r;
            },
        };
        let ghost told_entries = entries;
        let log = backend.read_provenance();
        let ghost told_log = log;
        assert(log_reply(backend, told_log));
        let records = match log {
            Ok(v) => v,
            Err(_) => Vec::new(),
        };
        assert(records@ =~= log_told(told_log));
        let carried = self.host.redact_provenance(&records, &paths);
        let ghost told_carried = carried;
        assert(redact_reply(&self.host, log_told(told_log), paths@, told_carried));
        let anchors = backend.read_anchors_sidecar();
        let ghost told_anchors = anchors;
        assert(anchors_reply(backend, told_anchors));
        let anchors = match anchors {
            Ok(a) => a,
            Err(e) => {
                let r = Err(EngineError::Backend(e));
                assert(seals_files(*self, backend, mem_name@, *config, paths@, told_entries, r));
                assert(seals_listed_memory(*self, backend, mem_name@, *config, paths@, r));
                return r;
            },
        };
        let ghost sealed_anchors = anchors;
        let redactions = carried.redactions;
        let request = self.export_request(
            mem_name,
            config,
            ExportSource::Entries { entries, provenance: carried.payload, anchors },
        );
        let reply = self.host.seal_archive(&request);
        let ghost told = reply;
        assert(seal_reply(&self.host, request, told));
        let r = match reply {
            Ok(mut out) => {
                out.redactions = redactions;
                Ok(out)
            },
            Err(m) => Err(
                EngineError::Backend(
                    BackendError::Other("export_mem_to_bytes: ".to_owned().concat(&m)),
                ),
            ),
        };
        assert(seals_entries(
            *self,
            mem_name@,
            *config,
            told_entries,
            told_carried,
            sealed_anchors,
            r,
        ));
        assert(seals_files(*self, backend, mem_name@, *config, paths@, told_entries, r));
        assert(seals_listed_memory(*self, backend, mem_name@, *config, paths@, r));
        r
    }

    /// Seal a mem into archive bytes and say what they carry.
    pub fn export_mem_bytes_report(&self, mem_name: &str) -> (r: Result<
        MemExportBytes,
        EngineError,
    >)
        ensures
            exports(*self, mem_name@, r),
    {
        let at = match self.find_mount(mem_name) {
            Ok(i) => i,
            Err(e) => {
                return Err(e);
            },
        };
        let m = &self.mounts[at];
        let config = match &m.mem_config {
            Some(c) => c,
            None => {
                return Err(
                    EngineError::InvalidInput(
                        "mem '".to_owned().concat(mem_name).concat(
                            "' has no loaded MemConfig — cannot export",
                        ),
                    ),
                );
            },
        };
        if config.version.is_none() {
            let mut missing_fields: Vec<String> = Vec::new();
            missing_fields.push(own("version"));
            assert(texts(missing_fields@) =~= seq!["version"@]);
            return Err(EngineError::MemConfigIncomplete { mem: own(mem_name), missing_fields });
        }
        match &m.mount.storage {
            MountStorage::Folder { path } => {
                let request = self.export_request(
                    mem_name,
                    config,
                    ExportSource::Folder { path: path.clone() },
                );
                let reply = self.host.seal_archive(&request);
                let ghost told = reply;
                assert(seal_reply(&self.host, request, told));
                let r = match reply {
                    Ok(out) => Ok(out),
                    Err(e) => Err(
                        EngineError::Backend(
                            BackendError::Other("export_mem_to_bytes: ".to_owned().concat(&e)),
                        ),
                    ),
                };
                assert(seals_folder(*self, mem_name@, *config, *path, r));
                r
            },
            MountStorage::Archive { .. } => Err(EngineError::Backend(BackendError::Sealed)),
            MountStorage::GitBranch { gitdir, branch } => self.export_branch(
                &m.backend,
                mem_name,
                config,
                gitdir,
                branch,
            ),
            MountStorage::InMemory => self.export_memory(&m.backend, mem_name, config),
        }
    }
}

/// Whether the surroundings seal what they are asked to: the bytes come apart
/// under the name of the request's mem, and a backend over them reads the very
/// files of the request. Where the request only says where the files lie,
/// those are the files that the mem's own storage reads.
pub open spec fn seals_faithfully<B: SealedBackend, H: Host>(
    h: &Surroundings<H>,
    storage: &Storage<B>,
    request: ExportRequest,
    bytes: Vec<u8>,
) -> bool {
    &&& forall|limits: ValidatorLimits, entries: ArchiveEntries| #[trigger]
        extract_reply(h, bytes@, limits, Ok::<ArchiveEntries, ValidationError>(entries))
            && entries.config is Ok ==> entries.config->Ok_0.name@ == request.mem@
    &&& match request.source {
        ExportSource::Entries { entries, .. } => bytes_hand_out::<B>(bytes, views(entries@)),
        _ => forall|reads: Vec<(String, Result<Vec<u8>, String>)>| #[trigger]
            reads_reply(
                storage,
                Ok::<Vec<(String, Result<Vec<u8>, String>)>, BackendError>(reads),
            ) && all_read(reads@) ==> bytes_hand_out::<B>(bytes, file_list(reads@)),
    }
}

/// Whether every backend over archive bytes reads these files and no others.
pub open spec fn bytes_hand_out<B: SealedBackend>(
    bytes: Vec<u8>,
    files: Seq<(Seq<char>, Seq<u8>)>,
) -> bool {
    forall|b: Storage<B>| #[trigger] sealed_over(bytes, b) ==> hands_out(&b, files)
}

/// Whether every read succeeded.
pub open spec fn all_read(reads: Seq<(String, Result<Vec<u8>, String>)>) -> bool {
    forall|i: int| 0 <= i < reads.len() ==> (#[trigger] reads[i]).1 is Ok
}

/// The files that were read.
pub open spec fn file_list(reads: Seq<(String, Result<Vec<u8>, String>)>) -> Seq<
    (Seq<char>, Seq<u8>),
> {
    reads.map_values(|f: (String, Result<Vec<u8>, String>)| (f.0@, f.1->Ok_0@))
}

/// The files whose bytes are text.
pub open spec fn file_texts(files: Seq<(Seq<char>, Seq<u8>)>) -> Seq<(Seq<char>, Seq<char>)>
    decreases files.len(),
{
    if files.len() == 0 {
        Seq::empty()
    } else {
        let rest = file_texts(files.drop_last());
        if valid_utf8(files.last().1) {
            rest.push((files.last().0, decode_utf8(files.last().1)))
        } else {
            rest
        }
    }
}

/// The files whose bytes are no text, with what is wrong with them.
pub open spec fn file_failures(files: Seq<(Seq<char>, Seq<u8>)>) -> Seq<(Seq<char>, Seq<char>)>
    decreases files.len(),
{
    if files.len() == 0 {
        Seq::empty()
    } else {
        let rest = file_failures(files.drop_last());
        if valid_utf8(files.last().1) {
            rest
        } else {
            rest.push((files.last().0, utf8_error(files.last().1)))
        }
    }
}

/// Reads of files part as the files do.
proof fn lemma_reads_part(
    reads: Seq<(String, Result<Vec<u8>, String>)>,
    files: Seq<(Seq<char>, Seq<u8>)>,
)
    requires
        were_handed_out(reads, files),
    ensures
        read_entries(reads) == file_texts(files),
        read_failures(reads) == file_failures(files),
    decreases files.len(),
{
    if files.len() > 0 {
        let n = files.len() - 1;
        assert(reads[n].0@ == files[n].0);
        assert forall|i: int| 0 <= i < n implies (#[trigger] reads.drop_last()[i]).0@
            == files.drop_last()[i].0 && (reads.drop_last()[i].1 matches Ok(bytes) && bytes@
            == files.drop_last()[i].1) by {
            assert(reads[i].0@ == files[i].0);
        }
        lemma_reads_part(reads.drop_last(), files.drop_last());
    }
}

/// What an engine hydrated from archive bytes serves is what loading the
/// files gives that a backend over the bytes reads.
proof fn lemma_hydrated_entities<B: SealedBackend, H: Host>(
    host: Surroundings<H>,
    bytes: Vec<u8>,
    limits: ValidatorLimits,
    engine: Engine<B, H>,
    files: Seq<(Seq<char>, Seq<u8>)>,
)
    requires
        hydrates(host, bytes, limits, Ok::<Engine<B, H>, FromArchiveBytesError>(engine)),
        bytes_hand_out::<B>(bytes, files),
        engine.mounts@.len() > 0,
    ensures
        loaded_from(
            engine,
            engine.mounts@[0].mount.mem@,
            file_texts(files),
            file_failures(files),
        ),
{
    let r = Ok::<Engine<B, H>, FromArchiveBytesError>(engine);
    let reply = choose|reply: Result<ArchiveEntries, ValidationError>| #[trigger]
        extract_reply(&host, bytes@, limits, reply) && match reply {
            Err(e) => false,
            Ok(entries) => hydrates_entries(host, bytes, entries, r),
        };
    let entries = reply->Ok_0;
    let config = entries.config->Ok_0;
    assert(hydrates_entries(host, bytes, entries, r));
    assert(hydrates_mem(host, bytes, config, entries.schema_files@, r));
    let loaded = choose|loaded: Result<Vec<Arc<Schema>>, FromArchiveBytesError>| #[trigger]
        loads_embedded(&host, entries.schema_files@, loaded) && match loaded {
            Err(e) => false,
            Ok(schemas) => boots_sealed(host, bytes, config, schemas@, r),
        };
    let schemas = loaded->Ok_0@;
    assert(boots_sealed(host, bytes, config, schemas, r));
    let (mount, backend, booted) = choose|
        mount: Mount,
        backend: Storage<B>,
        booted: Result<Engine<B, H>, EngineError>,
    |
        is_sealed_mount(
            config,
            mount,
        ) && #[trigger] sealed_over(bytes, backend) && #[trigger] boots(
            host,
            seq![(mount, backend)],
            schemas,
            Seq::empty(),
            booted,
        ) && match booted {
            Ok(engine) => r == Ok::<Engine<B, H>, FromArchiveBytesError>(engine),
            Err(e) => false,
        };
    let mounts = seq![(mount, backend)];
    assert(boots(host, mounts, schemas, Seq::empty(), Ok(engine)));
    crate::boot::law_served_mounts_were_given(host, mounts, schemas, Seq::empty(), engine);
    assert(was_given(mounts, engine.mounts@[0]));
    let k = choose|k: int|
        0 <= k < mounts.len() && (#[trigger] mounts[k]).0 == engine.mounts@[0].mount && mounts[k].1
            == engine.mounts@[0].backend;
    assert(mounts[k] == (mount, backend));
    let reads = law_one_mount_serves_what_it_reads(
        host,
        mount,
        backend,
        schemas,
        Seq::empty(),
        engine,
    );
    assert(hands_out(&backend, files));
    lemma_reads_part(reads@, files);
}

/// Whether a backend reads these files and no others.
pub open spec fn hands_out<B: MemBackend>(
    b: &Storage<B>,
    files: Seq<(Seq<char>, Seq<u8>)>,
) -> bool {
    forall|reply: Result<Vec<(String, Result<Vec<u8>, String>)>, BackendError>| #[trigger]
        reads_reply(b, reply) ==> (reply matches Ok(reads) && were_handed_out(reads@, files))
}

/// Whether these are the reads of the files, each of which succeeded.
pub open spec fn were_handed_out(
    reads: Seq<(String, Result<Vec<u8>, String>)>,
    files: Seq<(Seq<char>, Seq<u8>)>,
) -> bool {
    reads.len() == files.len() && forall|i: int|
        0 <= i < reads.len() ==> (#[trigger] reads[i]).0@ == files[i].0 && (reads[i].1 matches Ok(
            bytes,
        ) && bytes@ == files[i].1)
}

/// An engine over archive bytes has the host that it was given.
pub proof fn lemma_hydrated_host<B: SealedBackend, H: Host>(
    host: Surroundings<H>,
    bytes: Vec<u8>,
    limits: ValidatorLimits,
    engine: Engine<B, H>,
)
    requires
        hydrates(host, bytes, limits, Ok::<Engine<B, H>, FromArchiveBytesError>(engine)),
    ensures
        engine.host == host,
{
    let r = Ok::<Engine<B, H>, FromArchiveBytesError>(engine);
    let reply = choose|reply: Result<ArchiveEntries, ValidationError>| #[trigger]
        extract_reply(&host, bytes@, limits, reply) && match reply {
            Err(e) => false,
            Ok(entries) => hydrates_entries(host, bytes, entries, r),
        };
    let entries = reply->Ok_0;
    let config = entries.config->Ok_0;
    assert(hydrates_mem(host, bytes, config, entries.schema_files@, r));
    let loaded = choose|loaded: Result<Vec<Arc<Schema>>, FromArchiveBytesError>| #[trigger]
        loads_embedded(&host, entries.schema_files@, loaded) && match loaded {
            Err(e) => false,
            Ok(schemas) => boots_sealed(host, bytes, config, schemas@, r),
        };
    assert(boots_sealed(host, bytes, config, loaded->Ok_0@, r));
}

/// A mem in memory reads back as it was exported: where the surroundings seal
/// what they are asked to, an engine hydrated from the exported bytes serves
/// the mem under its name, from a backend that reads the files that the mem
/// held when it was exported, and it holds the entities that loading those
/// files gives.
pub proof fn law_exported_mem_reads_back<B: SealedBackend, H: Host>(
    engine: Engine<B, H>,
    mem: Seq<char>,
    out: MemExportBytes,
    limits: ValidatorLimits,
    hydrated: Engine<B, H>,
) -> (found: (Seq<String>, Seq<Option<Vec<u8>>>))
    requires
        exports(engine, mem, Ok::<MemExportBytes, EngineError>(out)),
        engine.mount_of(mem) matches Some(m) && m.mount.storage is InMemory,
        forall|request: ExportRequest, reply: MemExportBytes| #[trigger]
            seal_reply(&engine.host, request, Ok::<MemExportBytes, String>(reply))
                ==> seals_faithfully::<B, H>(
                &engine.host,
                &engine.mount_of(mem)->0.backend,
                request,
                reply.bytes,
            ),
        hydrates(
            engine.host,
            out.bytes,
            limits,
            Ok::<Engine<B, H>, FromArchiveBytesError>(hydrated),
        ),
    ensures
        found.0.len() == found.1.len(),
        were_read(&engine.mount_of(mem)->0.backend, found.0, found.1),
        forall|i: int|
            0 <= i < hydrated.mounts@.len() ==> (#[trigger] hydrated.mounts@[i]).mount.mem@ == mem
                && hands_out(&hydrated.mounts@[i].backend, files_found(found.0, found.1)),
        hydrated.mounts@.len() > 0 ==> loaded_from(
            hydrated,
            mem,
            file_texts(files_found(found.0, found.1)),
            file_failures(files_found(found.0, found.1)),
        ),
{
    let r = Ok::<MemExportBytes, EngineError>(out);
    let m = engine.mount_of(mem)->0;
    let backend = &m.backend;
    let config = m.mem_config->0;
    assert(exports_storage(engine, m, mem, config, r));
    assert(seals_memory(engine, backend, mem, config, r));
    let listing = choose|listing: Result<Vec<String>, BackendError>| #[trigger]
        list_reply(backend, listing) && match listing {
            Err(e) => r == Err::<MemExportBytes, EngineError>(EngineError::Backend(e)),
            Ok(paths) => seals_listed_memory(engine, backend, mem, config, paths@, r),
        };
    let paths = listing->Ok_0@;
    assert(seals_listed_memory(engine, backend, mem, config, paths, r));
    let files = choose|files: Result<Vec<(String, Vec<u8>)>, BackendError>| #[trigger]
        reads_files(backend, paths, files) && match files {
            Err(e) => r == Err::<MemExportBytes, EngineError>(EngineError::Backend(e)),
            Ok(entries) => seals_files(engine, backend, mem, config, paths, entries, r),
        };
    let entries = files->Ok_0;
    assert(reads_files(backend, paths, Ok::<Vec<(String, Vec<u8>)>, BackendError>(entries)));
    assert(seals_files(engine, backend, mem, config, paths, entries, r));
    let read = choose|read: Seq<Option<Vec<u8>>>| #[trigger]
        were_read(backend, paths, read) && read.len() == paths.len() && views(entries@)
            == files_found(paths, read);
    let (log, carried, anchors) = choose|
        log: Result<Vec<Provenance>, BackendError>,
        carried: RedactedProvenance,
        anchors: Result<Option<Vec<u8>>, BackendError>,
    | #[trigger]
        log_reply(backend, log) && #[trigger] redact_reply(
            &engine.host,
            log_told(log),
            paths,
            carried,
        ) && #[trigger] anchors_reply(backend, anchors) && match anchors {
            Err(e) => r == Err::<MemExportBytes, EngineError>(EngineError::Backend(e)),
            Ok(a) => seals_entries(engine, mem, config, entries, carried, a, r),
        };
    let kept = anchors->Ok_0;
    assert(seals_entries(engine, mem, config, entries, carried, kept, r));
    let (request, reply) = choose|request: ExportRequest, reply: Result<MemExportBytes, String>|
        is_request(engine, mem, config, request) && request.source == (ExportSource::Entries {
            entries,
            provenance: carried.payload,
            anchors: kept,
        }) && #[trigger] seal_reply(&engine.host, request, reply) && answers_sealing(
            match reply {
                Ok(out) => Ok(with_redactions(out, carried.redactions)),
                Err(m) => Err(m),
            },
            r,
        );
    let sealed = reply->Ok_0;
    assert(reply == Ok::<MemExportBytes, String>(sealed));
    assert(sealed.bytes == out.bytes);
    assert(seals_faithfully::<B, H>(&engine.host, backend, request, out.bytes));
    let apart = lemma_hydrated_mounts(engine.host, out.bytes, limits, hydrated);
    assert forall|i: int| 0 <= i < hydrated.mounts@.len() implies (
    #[trigger] hydrated.mounts@[i]).mount.mem@ == mem && hands_out(
        &hydrated.mounts@[i].backend,
        files_found(paths, read),
    ) by {
        assert(is_sealed_mount(apart.config->Ok_0, hydrated.mounts@[i].mount));
        assert(sealed_over(out.bytes, hydrated.mounts@[i].backend));
    }
    if hydrated.mounts@.len() > 0 {
        lemma_hydrated_entities(
            engine.host,
            out.bytes,
            limits,
            hydrated,
            files_found(paths, read),
        );
    }
    (paths, read)
}

/// A mem of a folder or of a branch reads back as it was exported: where the
/// surroundings seal what they are asked to, and the mem's storage reads these
/// files, an engine hydrated from the exported bytes serves the mem under its
/// name, from a backend that reads the same files, and it holds the entities
/// that loading them gives.
pub proof fn law_exported_storage_reads_back<B: SealedBackend, H: Host>(
    engine: Engine<B, H>,
    mem: Seq<char>,
    reads: Vec<(String, Result<Vec<u8>, String>)>,
    out: MemExportBytes,
    limits: ValidatorLimits,
    hydrated: Engine<B, H>,
)
    requires
        exports(engine, mem, Ok::<MemExportBytes, EngineError>(out)),
        engine.mount_of(mem) matches Some(m) && (m.mount.storage is Folder || m.mount.storage
            is GitBranch) && reads_reply(
            &m.backend,
            Ok::<Vec<(String, Result<Vec<u8>, String>)>, BackendError>(reads),
        ),
        all_read(reads@),
        forall|request: ExportRequest, reply: MemExportBytes| #[trigger]
            seal_reply(&engine.host, request, Ok::<MemExportBytes, String>(reply))
                ==> seals_faithfully::<B, H>(
                &engine.host,
                &engine.mount_of(mem)->0.backend,
                request,
                reply.bytes,
            ),
        forall|request: ExportRequest, reply: MemExportBytes| #[trigger]
            git_seal_reply(&engine.host, request, Ok::<MemExportBytes, BackendError>(reply))
                ==> seals_faithfully::<B, H>(
                &engine.host,
                &engine.mount_of(mem)->0.backend,
                request,
                reply.bytes,
            ),
        hydrates(
            engine.host,
            out.bytes,
            limits,
            Ok::<Engine<B, H>, FromArchiveBytesError>(hydrated),
        ),
    ensures
        forall|i: int|
            0 <= i < hydrated.mounts@.len() ==> (#[trigger] hydrated.mounts@[i]).mount.mem@ == mem
                && hands_out(&hydrated.mounts@[i].backend, file_list(reads@)),
        hydrated.mounts@.len() > 0 ==> loaded_from(
            hydrated,
            mem,
            file_texts(file_list(reads@)),
            file_failures(file_list(reads@)),
        ),
{
    let r = Ok::<MemExportBytes, EngineError>(out);
    let m = engine.mount_of(mem)->0;
    let backend = &m.backend;
    let config = m.mem_config->0;
    let files = file_list(reads@);
    assert(exports_storage(engine, m, mem, config, r));
    let request = lemma_sealed_request(engine, m, mem, config, out);
    assert(seals_faithfully::<B, H>(&engine.host, backend, request, out.bytes));
    assert(bytes_hand_out::<B>(out.bytes, files));
    let apart = lemma_hydrated_mounts(engine.host, out.bytes, limits, hydrated);
    assert forall|i: int| 0 <= i < hydrated.mounts@.len() implies (
    #[trigger] hydrated.mounts@[i]).mount.mem@ == mem && hands_out(
        &hydrated.mounts@[i].backend,
        files,
    ) by {
        assert(is_sealed_mount(apart.config->Ok_0, hydrated.mounts@[i].mount));
        assert(sealed_over(out.bytes, hydrated.mounts@[i].backend));
    }
    if hydrated.mounts@.len() > 0 {
        lemma_hydrated_entities(engine.host, out.bytes, limits, hydrated, files);
    }
}

/// Whether the surroundings may have answered a request with this export.
pub open spec fn was_sealed<H: Host>(
    h: &Surroundings<H>,
    request: ExportRequest,
    sealed: MemExportBytes,
) -> bool {
    seal_reply(h, request, Ok::<MemExportBytes, String>(sealed)) || git_seal_reply(
        h,
        request,
        Ok::<MemExportBytes, BackendError>(sealed),
    )
}

/// The request that sealed a folder or a branch.
proof fn lemma_sealed_request<B: MemBackend, H: Host>(
    engine: Engine<B, H>,
    m: MountedBackend<B>,
    mem: Seq<char>,
    config: MemConfig,
    out: MemExportBytes,
) -> (request: ExportRequest)
    requires
        exports_storage(engine, m, mem, config, Ok::<MemExportBytes, EngineError>(out)),
        m.mount.storage is Folder || m.mount.storage is GitBranch,
    ensures
        request.mem@ == mem,
        !(request.source is Entries),
        exists|sealed: MemExportBytes| #[trigger]
            was_sealed(&engine.host, request, sealed) && sealed.bytes == out.bytes,
{
    let r = Ok::<MemExportBytes, EngineError>(out);
    let backend = &m.backend;
    match m.mount.storage {
        MountStorage::Folder { path } => {
            let (request, reply) = choose|
                request: ExportRequest,
                reply: Result<MemExportBytes, String>,
            |
                is_request(engine, mem, config, request) && request.source == (
                ExportSource::Folder { path }) && #[trigger] seal_reply(
                    &engine.host,
                    request,
                    reply,
                ) && answers_sealing(reply, r);
            let sealed = reply->Ok_0;
            assert(reply == Ok::<MemExportBytes, String>(sealed));
            assert(was_sealed(&engine.host, request, sealed));
            request
        },
        MountStorage::GitBranch { gitdir, branch } => {
            let wired = choose|wired: bool| #[trigger]
                wired_reply(&engine.host, wired) && wired && seals_listed_branch(
                    engine,
                    backend,
                    mem,
                    config,
                    gitdir,
                    branch,
                    r,
                );
            assert(seals_listed_branch(engine, backend, mem, config, gitdir, branch, r));
            let listing = choose|listing: Result<Vec<String>, BackendError>| #[trigger]
                list_reply(backend, listing) && match listing {
                    Err(e) => false,
                    Ok(paths) => seals_tree(
                        engine,
                        backend,
                        mem,
                        config,
                        gitdir,
                        branch,
                        paths@,
                        r,
                    ),
                };
            let paths = listing->Ok_0@;
            let (log, carried, anchors, request, reply) = choose|
                log: Result<Vec<Provenance>, BackendError>,
                carried: RedactedProvenance,
                anchors: Result<Option<Vec<u8>>, BackendError>,
                request: ExportRequest,
                reply: Result<MemExportBytes, BackendError>,
            | #[trigger]
                log_reply(backend, log) && #[trigger] redact_reply(
                    &engine.host,
                    log_told(log),
                    paths,
                    carried,
                ) && #[trigger] anchors_reply(backend, anchors) && is_request(
                    engine,
                    mem,
                    config,
                    request,
                ) && request.source == (ExportSource::Branch {
                    gitdir,
                    branch,
                    provenance: carried.payload,
                    anchors: anchors_told(anchors),
                }) && #[trigger] git_seal_reply(&engine.host, request, reply) && match reply {
                    Ok(out) => r == Ok::<MemExportBytes, EngineError>(
                        with_redactions(out, carried.redactions),
                    ),
                    Err(e) => false,
                };
            let sealed = reply->Ok_0;
            assert(reply == Ok::<MemExportBytes, BackendError>(sealed));
            assert(was_sealed(&engine.host, request, sealed));
            request
        },
        _ => arbitrary(),
    }
}

// ---------------------------------------------------------------------
// Exporting twice
// ---------------------------------------------------------------------

/// Bytes that may be missing.
pub open spec fn opt_bytes(b: Option<Vec<u8>>) -> Option<Seq<u8>> {
    match b {
        Some(v) => Some(v@),
        None => None,
    }
}

/// Whether two sources hold the same.
pub open spec fn same_source(a: ExportSource, b: ExportSource) -> bool {
    match (a, b) {
        (ExportSource::Folder { path: p }, ExportSource::Folder { path: q }) => p@ == q@,
        (
            ExportSource::Branch { gitdir: g, branch: n, provenance: p, anchors: x },
            ExportSource::Branch { gitdir: h, branch: m, provenance: q, anchors: y },
        ) => g@ == h@ && n@ == m@ && opt_bytes(p) == opt_bytes(q) && opt_bytes(x) == opt_bytes(y),
        (
            ExportSource::Entries { entries: e, provenance: p, anchors: x },
            ExportSource::Entries { entries: f, provenance: q, anchors: y },
        ) => views(e@) == views(f@) && opt_bytes(p) == opt_bytes(q) && opt_bytes(x) == opt_bytes(
            y,
        ),
        _ => false,
    }
}

/// Whether two requests ask for the same.
pub open spec fn same_request(a: ExportRequest, b: ExportRequest) -> bool {
    &&& a.mem@ == b.mem@
    &&& a.config == b.config
    &&& opt_text(a.workspace_root) == opt_text(b.workspace_root)
    &&& opt_text(a.schemas_dir) == opt_text(b.schemas_dir)
    &&& opt_text(a.schema_source) == opt_text(b.schema_source)
    &&& same_source(a.source, b.source)
}

/// Whether storage answers the questions of an export always alike.
pub open spec fn storage_answers_alike<B: MemBackend>(b: &Storage<B>) -> bool {
    &&& forall|x: Result<Vec<String>, BackendError>, y: Result<Vec<String>, BackendError>|
        #![trigger list_reply(b, x), list_reply(b, y)]
        list_reply(b, x) && list_reply(b, y) ==> x == y
    &&& forall|
        path: Seq<char>,
        x: Result<Option<Vec<u8>>, BackendError>,
        y: Result<Option<Vec<u8>>, BackendError>,
    |
        #![trigger entity_reply(b, path, x), entity_reply(b, path, y)]
        entity_reply(b, path, x) && entity_reply(b, path, y) ==> x == y
    &&& forall|x: Result<Vec<Provenance>, BackendError>, y: Result<Vec<Provenance>, BackendError>|
        #![trigger log_reply(b, x), log_reply(b, y)]
        log_reply(b, x) && log_reply(b, y) ==> x == y
    &&& forall|x: Result<Option<Vec<u8>>, BackendError>, y: Result<Option<Vec<u8>>, BackendError>|
        #![trigger anchors_reply(b, x), anchors_reply(b, y)]
        anchors_reply(b, x) && anchors_reply(b, y) ==> x == y
}

/// Whether the host answers the questions of an export always alike, requests
/// that ask for the same among them.
pub open spec fn host_answers_alike<H: Host>(h: &Surroundings<H>) -> bool {
    &&& forall|config: MemConfig, x: Option<String>, y: Option<String>|
        #![trigger source_reply(h, config, x), source_reply(h, config, y)]
        source_reply(h, config, x) && source_reply(h, config, y) ==> x == y
    &&& forall|x: bool, y: bool|
        #![trigger wired_reply(h, x), wired_reply(h, y)]
        wired_reply(h, x) && wired_reply(h, y) ==> x == y
    &&& forall|
        log: Seq<Provenance>,
        paths: Seq<String>,
        x: RedactedProvenance,
        y: RedactedProvenance,
    |
        #![trigger redact_reply(h, log, paths, x), redact_reply(h, log, paths, y)]
        redact_reply(h, log, paths, x) && redact_reply(h, log, paths, y) ==> x == y
    &&& forall|
        p: ExportRequest,
        q: ExportRequest,
        x: Result<MemExportBytes, String>,
        y: Result<MemExportBytes, String>,
    |
        #![trigger seal_reply(h, p, x), seal_reply(h, q, y)]
        same_request(p, q) && seal_reply(h, p, x) && seal_reply(h, q, y) ==> x == y
    &&& forall|
        p: ExportRequest,
        q: ExportRequest,
        x: Result<MemExportBytes, BackendError>,
        y: Result<MemExportBytes, BackendError>,
    |
        #![trigger git_seal_reply(h, p, x), git_seal_reply(h, q, y)]
        same_request(p, q) && git_seal_reply(h, p, x) && git_seal_reply(h, q, y) ==> x == y
}

/// Whether two exports came out alike: both failed, or both gave the same
/// bytes with the same account of them.
pub open spec fn came_out_alike(
    a: Result<MemExportBytes, EngineError>,
    b: Result<MemExportBytes, EngineError>,
) -> bool {
    match (a, b) {
        (Ok(x), Ok(y)) => x.bytes@ == y.bytes@ && x.entities == y.entities && x.dangling_edges
            == y.dangling_edges && x.redactions@ == y.redactions@,
        (Err(_), Err(_)) => true,
        _ => false,
    }
}

/// Storage that answers always alike reads the same files of the same list.
proof fn lemma_reads_alike<B: MemBackend>(
    b: &Storage<B>,
    paths: Seq<String>,
    x: Result<Vec<(String, Vec<u8>)>, BackendError>,
    y: Result<Vec<(String, Vec<u8>)>, BackendError>,
)
    requires
        storage_answers_alike(b),
        reads_files(b, paths, x),
        reads_files(b, paths, y),
    ensures
        x is Ok == y is Ok,
        x is Ok && y is Ok ==> views(x->Ok_0@) == views(y->Ok_0@),
{
    let p = choose|read: Seq<Option<Vec<u8>>>| #[trigger]
        were_read(b, paths, read) && match x {
            Ok(files) => read.len() == paths.len() && views(files@) == files_found(paths, read),
            Err(e) => read.len() < paths.len() && entity_reply(
                b,
                paths[read.len() as int]@,
                Err::<Option<Vec<u8>>, BackendError>(e),
            ),
        };
    let q = choose|read: Seq<Option<Vec<u8>>>| #[trigger]
        were_read(b, paths, read) && match y {
            Ok(files) => read.len() == paths.len() && views(files@) == files_found(paths, read),
            Err(e) => read.len() < paths.len() && entity_reply(
                b,
                paths[read.len() as int]@,
                Err::<Option<Vec<u8>>, BackendError>(e),
            ),
        };
    assert forall|i: int| 0 <= i < p.len() && i < q.len() implies #[trigger] p[i] == q[i] by {
        assert(entity_reply(b, paths[i]@, Ok::<Option<Vec<u8>>, BackendError>(p[i])));
        assert(entity_reply(b, paths[i]@, Ok::<Option<Vec<u8>>, BackendError>(q[i])));
    }
    if x is Err && y is Ok {
        let k = p.len() as int;
        assert(entity_reply(b, paths[k]@, Ok::<Option<Vec<u8>>, BackendError>(q[k])));
    } else if x is Ok && y is Err {
        let k = q.len() as int;
        assert(entity_reply(b, paths[k]@, Ok::<Option<Vec<u8>>, BackendError>(p[k])));
    } else if x is Ok {
        assert(p =~= q);
    }
}

/// A folder that is sealed twice comes out alike.
proof fn lemma_folder_alike<B, H: Host>(
    engine: Engine<B, H>,
    mem: Seq<char>,
    config: MemConfig,
    path: String,
    a: Result<MemExportBytes, EngineError>,
    b: Result<MemExportBytes, EngineError>,
)
    requires
        host_answers_alike(&engine.host),
        seals_folder(engine, mem, config, path, a),
        seals_folder(engine, mem, config, path, b),
    ensures
        came_out_alike(a, b),
{
    let (p, x) = choose|request: ExportRequest, reply: Result<MemExportBytes, String>|
        is_request(engine, mem, config, request) && request.source == (ExportSource::Folder {
            path,
        }) && #[trigger] seal_reply(&engine.host, request, reply) && answers_sealing(reply, a);
    let (q, y) = choose|request: ExportRequest, reply: Result<MemExportBytes, String>|
        is_request(engine, mem, config, request) && request.source == (ExportSource::Folder {
            path,
        }) && #[trigger] seal_reply(&engine.host, request, reply) && answers_sealing(reply, b);
    assert(same_request(p, q));
    assert(x == y);
}

/// A branch that is sealed twice comes out alike.
proof fn lemma_branch_alike<B: MemBackend, H: Host>(
    engine: Engine<B, H>,
    backend: &Storage<B>,
    mem: Seq<char>,
    config: MemConfig,
    gitdir: String,
    branch: String,
    a: Result<MemExportBytes, EngineError>,
    b: Result<MemExportBytes, EngineError>,
)
    requires
        host_answers_alike(&engine.host),
        storage_answers_alike(backend),
        seals_branch(engine, backend, mem, config, gitdir, branch, a),
        seals_branch(engine, backend, mem, config, gitdir, branch, b),
    ensures
        came_out_alike(a, b),
{
    let v = choose|wired: bool| #[trigger]
        wired_reply(&engine.host, wired) && if wired {
            seals_listed_branch(engine, backend, mem, config, gitdir, branch, a)
        } else {
            a is Err
        };
    let w = choose|wired: bool| #[trigger]
        wired_reply(&engine.host, wired) && if wired {
            seals_listed_branch(engine, backend, mem, config, gitdir, branch, b)
        } else {
            b is Err
        };
    assert(v == w);
    if v {
        let l = choose|listing: Result<Vec<String>, BackendError>| #[trigger]
            list_reply(backend, listing) && match listing {
                Err(e) => a == Err::<MemExportBytes, EngineError>(EngineError::Backend(e)),
                Ok(paths) => seals_tree(engine, backend, mem, config, gitdir, branch, paths@, a),
            };
        let k = choose|listing: Result<Vec<String>, BackendError>| #[trigger]
            list_reply(backend, listing) && match listing {
                Err(e) => b == Err::<MemExportBytes, EngineError>(EngineError::Backend(e)),
                Ok(paths) => seals_tree(engine, backend, mem, config, gitdir, branch, paths@, b),
            };
        assert(l == k);
        if l is Ok {
            lemma_tree_alike(
                engine,
                backend,
                mem,
                config,
                gitdir,
                branch,
                l->Ok_0@,
                a,
                b,
            );
        }
    }
}

/// The tree of a branch that is sealed twice comes out alike.
proof fn lemma_tree_alike<B: MemBackend, H: Host>(
    engine: Engine<B, H>,
    backend: &Storage<B>,
    mem: Seq<char>,
    config: MemConfig,
    gitdir: String,
    branch: String,
    paths: Seq<String>,
    a: Result<MemExportBytes, EngineError>,
    b: Result<MemExportBytes, EngineError>,
)
    requires
        host_answers_alike(&engine.host),
        storage_answers_alike(backend),
        seals_tree(engine, backend, mem, config, gitdir, branch, paths, a),
        seals_tree(engine, backend, mem, config, gitdir, branch, paths, b),
    ensures
        came_out_alike(a, b),
{
    let (l, c, n, p, x) = choose|
        log: Result<Vec<Provenance>, BackendError>,
        carried: RedactedProvenance,
        anchors: Result<Option<Vec<u8>>, BackendError>,
        request: ExportRequest,
        reply: Result<MemExportBytes, BackendError>,
    | #[trigger]
        log_reply(backend, log) && #[trigger] redact_reply(
            &engine.host,
            log_told(log),
            paths,
            carried,
        ) && #[trigger] anchors_reply(backend, anchors) && is_request(engine, mem, config, request)
            && request.source == (ExportSource::Branch {
            gitdir,
            branch,
            provenance: carried.payload,
            anchors: anchors_told(anchors),
        }) && #[trigger] git_seal_reply(&engine.host, request, reply) && match reply {
            Ok(out) => a == Ok::<MemExportBytes, EngineError>(
                with_redactions(out, carried.redactions),
            ),
            Err(e) => a == Err::<MemExportBytes, EngineError>(EngineError::Backend(e)),
        };
    let (k, d, m, q, y) = choose|
        log: Result<Vec<Provenance>, BackendError>,
        carried: RedactedProvenance,
        anchors: Result<Option<Vec<u8>>, BackendError>,
        request: ExportRequest,
        reply: Result<MemExportBytes, BackendError>,
    | #[trigger]
        log_reply(backend, log) && #[trigger] redact_reply(
            &engine.host,
            log_told(log),
            paths,
            carried,
        ) && #[trigger] anchors_reply(backend, anchors) && is_request(engine, mem, config, request)
            && request.source == (ExportSource::Branch {
            gitdir,
            branch,
            provenance: carried.payload,
            anchors: anchors_told(anchors),
        }) && #[trigger] git_seal_reply(&engine.host, request, reply) && match reply {
            Ok(out) => b == Ok::<MemExportBytes, EngineError>(
                with_redactions(out, carried.redactions),
            ),
            Err(e) => b == Err::<MemExportBytes, EngineError>(EngineError::Backend(e)),
        };
    assert(l == k);
    assert(c == d);
    assert(n == m);
    assert(same_request(p, q));
    assert(x == y);
}

/// A mem in memory that is sealed twice comes out alike.
proof fn lemma_memory_alike<B: MemBackend, H: Host>(
    engine: Engine<B, H>,
    backend: &Storage<B>,
    mem: Seq<char>,
    config: MemConfig,
    a: Result<MemExportBytes, EngineError>,
    b: Result<MemExportBytes, EngineError>,
)
    requires
        host_answers_alike(&engine.host),
        storage_answers_alike(backend),
        seals_memory(engine, backend, mem, config, a),
        seals_memory(engine, backend, mem, config, b),
    ensures
        came_out_alike(a, b),
{
    let l = choose|listing: Result<Vec<String>, BackendError>| #[trigger]
        list_reply(backend, listing) && match listing {
            Err(e) => a == Err::<MemExportBytes, EngineError>(EngineError::Backend(e)),
            Ok(paths) => seals_listed_memory(engine, backend, mem, config, paths@, a),
        };
    let k = choose|listing: Result<Vec<String>, BackendError>| #[trigger]
        list_reply(backend, listing) && match listing {
            Err(e) => b == Err::<MemExportBytes, EngineError>(EngineError::Backend(e)),
            Ok(paths) => seals_listed_memory(engine, backend, mem, config, paths@, b),
        };
    assert(l == k);
    if l is Ok {
        let paths = l->Ok_0@;
        let f = choose|files: Result<Vec<(String, Vec<u8>)>, BackendError>| #[trigger]
            reads_files(backend, paths, files) && match files {
                Err(e) => a == Err::<MemExportBytes, EngineError>(EngineError::Backend(e)),
                Ok(entries) => seals_files(engine, backend, mem, config, paths, entries, a),
            };
        let g = choose|files: Result<Vec<(String, Vec<u8>)>, BackendError>| #[trigger]
            reads_files(backend, paths, files) && match files {
                Err(e) => b == Err::<MemExportBytes, EngineError>(EngineError::Backend(e)),
                Ok(entries) => seals_files(engine, backend, mem, config, paths, entries, b),
            };
        lemma_reads_alike(backend, paths, f, g);
        if f is Ok {
            lemma_files_alike(
                engine,
                backend,
                mem,
                config,
                paths,
                f->Ok_0,
                g->Ok_0,
                a,
                b,
            );
        }
    }
}

/// Entity files that are sealed twice come out alike.
proof fn lemma_files_alike<B: MemBackend, H: Host>(
    engine: Engine<B, H>,
    backend: &Storage<B>,
    mem: Seq<char>,
    config: MemConfig,
    paths: Seq<String>,
    f: Vec<(String, Vec<u8>)>,
    g: Vec<(String, Vec<u8>)>,
    a: Result<MemExportBytes, EngineError>,
    b: Result<MemExportBytes, EngineError>,
)
    requires
        host_answers_alike(&engine.host),
        storage_answers_alike(backend),
        views(f@) == views(g@),
        seals_files(engine, backend, mem, config, paths, f, a),
        seals_files(engine, backend, mem, config, paths, g, b),
    ensures
        came_out_alike(a, b),
{
    let (l, c, n) = choose|
        log: Result<Vec<Provenance>, BackendError>,
        carried: RedactedProvenance,
        anchors: Result<Option<Vec<u8>>, BackendError>,
    | #[trigger]
        log_reply(backend, log) && #[trigger] redact_reply(
            &engine.host,
            log_told(log),
            paths,
            carried,
        ) && #[trigger] anchors_reply(backend, anchors) && match anchors {
            Err(e) => a == Err::<MemExportBytes, EngineError>(EngineError::Backend(e)),
            Ok(x) => seals_entries(engine, mem, config, f, carried, x, a),
        };
    let (k, d, m) = choose|
        log: Result<Vec<Provenance>, BackendError>,
        carried: RedactedProvenance,
        anchors: Result<Option<Vec<u8>>, BackendError>,
    | #[trigger]
        log_reply(backend, log) && #[trigger] redact_reply(
            &engine.host,
            log_told(log),
            paths,
            carried,
        ) && #[trigger] anchors_reply(backend, anchors) && match anchors {
            Err(e) => b == Err::<MemExportBytes, EngineError>(EngineError::Backend(e)),
            Ok(x) => seals_entries(engine, mem, config, g, carried, x, b),
        };
    assert(l == k);
    assert(c == d);
    assert(n == m);
    if n is Ok {
        let kept = n->Ok_0;
        let (p, x) = choose|request: ExportRequest, reply: Result<MemExportBytes, String>|
            is_request(engine, mem, config, request) && request.source == (
            ExportSource::Entries { entries: f, provenance: c.payload, anchors: kept })
                && #[trigger] seal_reply(&engine.host, request, reply) && answers_sealing(
                match reply {
                    Ok(out) => Ok(with_redactions(out, c.redactions)),
                    Err(m) => Err(m),
                },
                a,
            );
        let (q, y) = choose|request: ExportRequest, reply: Result<MemExportBytes, String>|
            is_request(engine, mem, config, request) && request.source == (
            ExportSource::Entries { entries: g, provenance: c.payload, anchors: kept })
                && #[trigger] seal_reply(&engine.host, request, reply) && answers_sealing(
                match reply {
                    Ok(out) => Ok(with_redactions(out, c.redactions)),
                    Err(m) => Err(m),
                },
                b,
            );
        assert(same_request(p, q));
        assert(x == y);
    }
}

/// Exporting a mem twice gives the same bytes: where the mem's storage and
/// the host answer always alike, two exports of the mem of an engine both
/// fail, or both give the same bytes with the same account of them.
pub proof fn law_exports_come_out_alike<B: MemBackend, H: Host>(
    engine: Engine<B, H>,
    mem: Seq<char>,
    a: Result<MemExportBytes, EngineError>,
    b: Result<MemExportBytes, EngineError>,
)
    requires
        exports(engine, mem, a),
        exports(engine, mem, b),
        host_answers_alike(&engine.host),
        engine.mount_of(mem) matches Some(m) ==> storage_answers_alike(&m.backend),
    ensures
        came_out_alike(a, b),
{
    if let Some(m) = engine.mount_of(mem) {
        if let Some(config) = m.mem_config {
            if config.version is Some {
                match m.mount.storage {
                    MountStorage::Folder { path } => {
                        lemma_folder_alike(engine, mem, config, path, a, b);
                    },
                    MountStorage::Archive { .. } => {},
                    MountStorage::GitBranch { gitdir, branch } => {
                        lemma_branch_alike(
                            engine,
                            &m.backend,
                            mem,
                            config,
                            gitdir,
                            branch,
                            a,
                            b,
                        );
                    },
                    MountStorage::InMemory => {
                        lemma_memory_alike(engine, &m.backend, mem, config, a, b);
                    },
                }
            }
        }
    }
}

} // verus!
