//! The engine over storage and surroundings that live in memory.

use memstead_base::archive::{
    load_embedded_schemas, ArchiveEntries, ExportRequest, ExportSource, FromArchiveBytesError,
    MemExportBytes, PolarityFormat, PublishedMemConfig, RedactedProvenance, SchemaFile,
    ValidationError as ArchiveValidationError, ValidatorLimits,
};
use memstead_base::backend::{
    Actor, BackendError, ClientId, CommitContext, MemBackend, Provenance, SealedBackend, Storage,
};
use memstead_base::boot::{
    collect_source_entries, load_workspace_schemas, load_workspace_schemas_with_failures, resolve_builtin_schema_pin_pub,
    SchemaEntry, SchemaResolver,
};
use memstead_base::check::{
    CheckFinding, CheckKind, CheckRecord, CheckState, RecordKind, SealedCheck, Verdict,
};
use memstead_base::conflicts::{has_merge_conflict_markers, ConflictSide};
use memstead_base::due::DueWindow;
use memstead_base::engine::Engine;
use memstead_base::entity::{
    file_path_to_id, Entity, EntityId, MetadataValue, Relationship, Store,
};
use memstead_base::error::{BootError, EngineError, ParseError, ValidationError};
use memstead_base::events::{SubscriberRegistry, VaultChangedEvent};
use memstead_base::export_html::{percent_decode, ChainSet};
use memstead_base::export_llms_txt::LlmsTxtContext;
use memstead_base::host::{Host, LoadResult, Surroundings};
use memstead_base::json::Json;
use memstead_base::ops::{
    BackendChanges, BranchResetOutcome, ChangeEnvelope, CommitEnvelope, Diff, DiffConfig,
    EntityChange,
    FetchOutcome, PullOutcome, PushOutcome, RemoteAddOutcome, Similarity, SourceEntry,
    SourceReadError, WarningHint, EMPTY_TREE_SHA,
};
use memstead_base::schema::{
    ConstraintDef, DueAxis, Schema, SchemaRef, SectionDef, TypeDefinition,
};
use memstead_base::workspace::{
    MemConfig, Mount, MountCapability, MountLifecycle, MountStorage, MutationStamp,
};
use std::cell::RefCell;
use std::collections::BTreeMap;
use std::rc::Rc;
use std::sync::Arc;

// -- storage ---------------------------------------------------------------

#[derive(Default)]
struct Stored {
    files: BTreeMap<String, Vec<u8>>,
    unreadable: Vec<String>,
    head: Option<String>,
    config: Option<MemConfig>,
    sealed: Option<Vec<SealedCheck>>,
    absent: bool,
    log: Vec<Provenance>,
    anchors: Option<Vec<u8>>,
    anchors_fail: bool,
    listing_fails: bool,
    commits: Vec<(String, CommitContext)>,
}

/// A mem in memory; clones share it.
#[derive(Clone, Default)]
struct Mem(Rc<RefCell<Stored>>);

impl Mem {
    fn with(files: &[(&str, &str)]) -> Mem {
        let mem = Mem::default();
        for (path, content) in files {
            mem.put(path, content);
        }
        mem
    }

    fn put(&self, path: &str, content: &str) {
        self.0.borrow_mut().files.insert(path.to_string(), content.as_bytes().to_vec());
    }

    fn text(&self, path: &str) -> String {
        String::from_utf8(self.0.borrow().files[path].clone()).unwrap()
    }

    fn set_head(&self, head: Option<&str>) {
        self.0.borrow_mut().head = head.map(String::from);
    }

    fn configured(self, config: MemConfig) -> Mem {
        self.0.borrow_mut().config = Some(config);
        self
    }
}

impl MemBackend for Mem {
    fn current_head(&self) -> Result<Option<String>, BackendError> {
        Ok(self.0.borrow().head.clone())
    }

    fn read_mem_config(&self) -> Option<MemConfig> {
        self.0.borrow().config.clone()
    }

    fn read_sealed_checks(&self) -> Option<Vec<SealedCheck>> {
        self.0.borrow().sealed.clone()
    }

    fn storage_present(&self) -> Result<bool, BackendError> {
        Ok(!self.0.borrow().absent)
    }

    fn read_all_entities(&self) -> Result<Vec<(String, Result<Vec<u8>, String>)>, BackendError> {
        let stored = self.0.borrow();
        if stored.listing_fails {
            return Err(BackendError::Io("listing failed".to_string()));
        }
        Ok(stored
            .files
            .iter()
            .map(|(p, b)| {
                let read = if stored.unreadable.contains(p) {
                    Err("permission denied".to_string())
                } else {
                    Ok(b.clone())
                };
                (p.clone(), read)
            })
            .collect())
    }

    fn list_entities(&self) -> Result<Vec<String>, BackendError> {
        let stored = self.0.borrow();
        if stored.listing_fails {
            return Err(BackendError::Io("listing failed".to_string()));
        }
        Ok(stored.files.keys().cloned().collect())
    }

    fn read_entity(&self, path: &str) -> Result<Option<Vec<u8>>, BackendError> {
        let stored = self.0.borrow();
        if stored.unreadable.iter().any(|p| p == path) {
            return Err(BackendError::Io("permission denied".to_string()));
        }
        Ok(stored.files.get(path).cloned())
    }

    fn write_entity(&self, path: &str, content: &str) -> Result<(), BackendError> {
        self.put(path, content);
        Ok(())
    }

    fn commit(&self, message: &str, context: &CommitContext) -> Result<String, BackendError> {
        let mut stored = self.0.borrow_mut();
        stored.commits.push((message.to_string(), context.clone()));
        Ok(format!("write-{}", stored.commits.len()))
    }

    fn append_provenance(&self, record: &Provenance) -> Result<(), BackendError> {
        self.0.borrow_mut().log.push(record.clone());
        Ok(())
    }

    fn read_provenance(&self) -> Result<Vec<Provenance>, BackendError> {
        Ok(self.0.borrow().log.clone())
    }

    fn read_anchors_sidecar(&self) -> Result<Option<Vec<u8>>, BackendError> {
        if self.0.borrow().anchors_fail {
            return Err(BackendError::Io("anchors failed".to_string()));
        }
        Ok(self.0.borrow().anchors.clone())
    }
}

// -- archives --------------------------------------------------------------

/// An archive of the tests: a line per value, its bytes in hexadecimal digits.
#[derive(Default)]
struct Archive {
    name: String,
    format: u32,
    schema: (String, String),
    files: Vec<(String, Vec<u8>)>,
    schema_files: Vec<(String, Vec<u8>)>,
    provenance: Option<Vec<u8>>,
    anchors: Option<Vec<u8>>,
}

fn hex(bytes: &[u8]) -> String {
    bytes.iter().map(|b| format!("{b:02x}")).collect()
}

fn unhex(text: &str) -> Vec<u8> {
    (0..text.len() / 2)
        .map(|i| u8::from_str_radix(&text[2 * i..2 * i + 2], 16).unwrap())
        .collect()
}

fn encode(a: &Archive) -> Vec<u8> {
    let mut out = String::from("mem-archive\n");
    out.push_str(&format!("name {}\n", hex(a.name.as_bytes())));
    out.push_str(&format!("format {}\n", a.format));
    out.push_str(&format!("schema {} {}\n", a.schema.0, a.schema.1));
    for (p, b) in &a.files {
        out.push_str(&format!("file {} {}\n", hex(p.as_bytes()), hex(b)));
    }
    for (p, b) in &a.schema_files {
        out.push_str(&format!("schemafile {} {}\n", hex(p.as_bytes()), hex(b)));
    }
    if let Some(b) = &a.provenance {
        out.push_str(&format!("provenance {}\n", hex(b)));
    }
    if let Some(b) = &a.anchors {
        out.push_str(&format!("anchors {}\n", hex(b)));
    }
    out.into_bytes()
}

fn decode(bytes: &[u8]) -> Option<Archive> {
    let text = std::str::from_utf8(bytes).ok()?;
    let mut lines = text.lines();
    if lines.next()? != "mem-archive" {
        return None;
    }
    let mut a = Archive::default();
    let words = |l: &str| -> Vec<String> { l.split(' ').map(String::from).collect() };
    for line in lines {
        let w = words(line);
        let text_of = |s: &str| String::from_utf8(unhex(s)).unwrap();
        match w[0].as_str() {
            "name" => a.name = text_of(&w[1]),
            "format" => a.format = w[1].parse().unwrap(),
            "schema" => a.schema = (w[1].clone(), w[2].clone()),
            "file" => a.files.push((text_of(&w[1]), unhex(&w[2]))),
            "schemafile" => a.schema_files.push((text_of(&w[1]), unhex(&w[2]))),
            "provenance" => a.provenance = Some(unhex(&w[1])),
            "anchors" => a.anchors = Some(unhex(&w[1])),
            other => panic!("{other}"),
        }
    }
    Some(a)
}

impl SealedBackend for Mem {
    fn from_bytes(bytes: Vec<u8>) -> Mem {
        let a = decode(&bytes).expect("bytes that were taken apart before");
        let mem = Mem::default();
        {
            let mut stored = mem.0.borrow_mut();
            stored.files = a.files.into_iter().collect();
            stored.anchors = a.anchors;
            stored.config = Some(config(Some("1.0.0"), Some((&a.schema.0, &a.schema.1))));
        }
        mem
    }
}

// -- surroundings ----------------------------------------------------------

type GitChanges = Box<dyn Fn(&str) -> Option<Result<BackendChanges, BackendError>>>;

struct World {
    builtins: Result<Vec<Arc<Schema>>, String>,
    embedded: Vec<Arc<Schema>>,
    version: String,
    dirs: RefCell<BTreeMap<String, Mem>>,
    folder_changes: RefCell<Vec<(String, ChangeEnvelope)>>,
    git_changes: RefCell<Option<GitChanges>>,
    git_tree: RefCell<Option<Result<Vec<SourceEntry>, BackendError>>>,
    git_reply: RefCell<Option<Result<(String, String), BackendError>>>,
    git_export: bool,
    ledger: RefCell<Vec<CheckRecord>>,
    ledger_error: RefCell<Option<String>>,
    conditions: Vec<String>,
    formats: Vec<u32>,
    confirms: RefCell<Vec<String>>,
    pushes: RefCell<usize>,
    pulls: RefCell<usize>,
    known: RefCell<Vec<String>>,
    allowed: RefCell<Vec<(String, MountCapability)>>,
    settings: RefCell<Vec<(String, String)>>,
    schema_source: Option<String>,
    sources: RefCell<Vec<Option<String>>>,
    relation_warnings: Vec<(String, String)>,
}

impl World {
    fn new() -> World {
        World {
            builtins: Ok(vec![default_schema()]),
            embedded: Vec::new(),
            version: "1.4.0".to_string(),
            dirs: RefCell::new(BTreeMap::new()),
            folder_changes: RefCell::new(Vec::new()),
            git_changes: RefCell::new(None),
            git_tree: RefCell::new(None),
            git_reply: RefCell::new(None),
            git_export: true,
            ledger: RefCell::new(Vec::new()),
            ledger_error: RefCell::new(None),
            conditions: vec!["STALE_ENTITIES".to_string(), "ORPHANS".to_string()],
            formats: vec![1, 2],
            confirms: RefCell::new(Vec::new()),
            pushes: RefCell::new(0),
            pulls: RefCell::new(0),
            known: RefCell::new(Vec::new()),
            allowed: RefCell::new(Vec::new()),
            settings: RefCell::new(Vec::new()),
            schema_source: None,
            sources: RefCell::new(Vec::new()),
            relation_warnings: Vec::new(),
        }
    }
}

fn fingerprint(content: &str) -> String {
    let mut h: u64 = 0xcbf29ce484222325;
    for b in content.bytes() {
        h = (h ^ u64::from(b)).wrapping_mul(0x100000001b3);
    }
    format!("{h:016x}")
}

fn parse(content: &str, path: &str, mem: &str, schema: &Schema) -> Result<Entity, String> {
    if content.contains("!!broken") {
        return Err("does not parse".to_string());
    }
    if has_merge_conflict_markers(content) {
        return Err("conflict markers — run `memstead conflicts resolve`".to_string());
    }
    let mut metadata: Vec<(String, MetadataValue)> = Vec::new();
    let mut entity_type = String::new();
    let mut title = String::new();
    let mut sections: Vec<(String, String)> = Vec::new();
    let mut relationships: Vec<Relationship> = Vec::new();
    let mut body = content;
    if let Some(rest) = content.strip_prefix("---\n") {
        if let Some(end) = rest.find("---\n") {
            for line in rest[..end].lines() {
                if let Some((k, v)) = line.split_once(": ") {
                    if k == "type" {
                        entity_type = v.to_string();
                    }
                    metadata.push((k.to_string(), MetadataValue::String(v.to_string())));
                }
            }
            body = &rest[end + 4..];
        }
    }
    let declared = schema.types.iter().find(|t| t.name == entity_type);
    for line in body.lines() {
        if let Some(t) = line.strip_prefix("# ") {
            title = t.to_string();
        } else if let Some(h) = line.strip_prefix("## ") {
            let key = declared
                .and_then(|t| t.sections.iter().find(|s| s.heading == h))
                .map(|s| s.key.clone())
                .unwrap_or_else(|| h.to_lowercase().replace(' ', "_"));
            sections.push((key, String::new()));
        } else if let Some((_, text)) = sections.last_mut() {
            if !(text.is_empty() && line.is_empty()) {
                text.push_str(line);
                text.push('\n');
            }
        }
        if let Some(rest) = line.strip_prefix("- **") {
            if let Some((rel, target)) = rest.split_once("**: [[") {
                relationships.push(Relationship {
                    rel_type: rel.to_string(),
                    target: EntityId::canonical(target.trim_end_matches("]]")),
                });
            }
        }
    }
    for (_, text) in sections.iter_mut() {
        *text = text.trim_end().to_string();
    }
    Ok(Entity {
        id: file_path_to_id(path, mem),
        mem: mem.to_string(),
        title,
        entity_type,
        stub: false,
        content_hash: fingerprint(content),
        file_path: path.to_string(),
        metadata,
        sections,
        relationships,
        markdown: content.to_string(),
    })
}

/// The surroundings as the engine and the test share them.
#[derive(Clone)]
struct Shared(Rc<World>);

impl std::ops::Deref for Shared {
    type Target = World;

    fn deref(&self) -> &World {
        &self.0
    }
}

impl Host for Shared {
    fn builtin_schemas(&self) -> Result<Vec<Arc<Schema>>, String> {
        self.builtins.clone()
    }

    fn embedded_schemas(&self, _path: &str) -> Vec<Arc<Schema>> {
        self.embedded.clone()
    }

    fn engine_version(&self) -> String {
        self.version.clone()
    }

    fn parse_entries(
        &self,
        entries: &Vec<SourceEntry>,
        read_errors: &Vec<SourceReadError>,
        mem: &str,
        schema: &Arc<Schema>,
        known: &Vec<String>,
    ) -> LoadResult {
        self.known.borrow_mut().extend(known.iter().cloned());
        let mut out =
            LoadResult { entities: Vec::new(), errors: Vec::new(), warnings: Vec::new() };
        for e in read_errors {
            out.errors.push((e.path.clone(), e.error.clone()));
        }
        for e in entries {
            match parse(&e.content, &e.relative_path, mem, schema) {
                Ok(entity) => out.entities.push(entity),
                Err(m) => out.errors.push((e.relative_path.clone(), m)),
            }
        }
        out
    }

    fn validate_loaded_relations(
        &self,
        store: Store,
        _schemas: &Vec<(String, Arc<Schema>)>,
        capabilities: &Vec<(String, MountCapability)>,
    ) -> (Store, Vec<WarningHint>) {
        *self.allowed.borrow_mut() = capabilities.clone();
        let warnings = self
            .relation_warnings
            .iter()
            .map(|(mem, id)| WarningHint::SuspiciousNestedPrefix {
                mem: mem.clone(),
                resolved_id: EntityId::canonical(id),
            })
            .collect();
        (store, warnings)
    }

    fn validate_strict(
        &self,
        content: &str,
        _entity: &Entity,
        _type_def: &TypeDefinition,
        _path: &str,
    ) -> Result<(), String> {
        if content.contains("!!strict") {
            return Err("an invariant does not hold".to_string());
        }
        Ok(())
    }

    fn read_directory(&self, root: &str) -> Result<Vec<SourceEntry>, String> {
        let dirs = self.dirs.borrow();
        let mem = dirs.get(root).ok_or_else(|| format!("no directory {root}"))?;
        let stored = mem.0.borrow();
        Ok(stored
            .files
            .iter()
            .map(|(p, b)| SourceEntry {
                relative_path: p.clone(),
                content: String::from_utf8(b.clone()).unwrap(),
            })
            .collect())
    }

    fn entry_type(&self, schema: &Arc<Schema>, content: &str) -> TypeDefinition {
        schema
            .types
            .iter()
            .find(|t| content.contains(&format!("type: {}\n", t.name)))
            .cloned()
            .unwrap_or_else(|| typed("", &[]))
    }

    fn parse_entity(
        &self,
        content: &str,
        path: &str,
        type_def: &TypeDefinition,
        mem: &str,
    ) -> Result<Entity, ParseError> {
        let schema = schema("", "", vec![type_def.clone()]);
        parse(content, path, mem, &schema).map_err(|message| ParseError { message })
    }

    fn check_section_keys(
        &self,
        keys: &Vec<String>,
        type_def: &TypeDefinition,
    ) -> Result<(), ValidationError> {
        for k in keys {
            if !type_def.sections.iter().any(|s| &s.key == k) {
                return Err(refusal("UNKNOWN_SECTION", k));
            }
        }
        Ok(())
    }

    fn catch_all_headings(&self, type_def: &TypeDefinition) -> Option<Vec<String>> {
        Some(type_def.sections.iter().map(|s| s.heading.clone()).collect())
    }

    fn check_section_content(
        &self,
        sections: &Vec<(String, String)>,
        catch_all: &Option<Vec<String>>,
    ) -> Result<(), ValidationError> {
        assert!(catch_all.is_some());
        for (k, body) in sections {
            if body.contains("!!invalid") {
                return Err(refusal("INVALID_SECTION_CONTENT", k));
            }
        }
        Ok(())
    }

    fn schema_source(&self, _config: &MemConfig) -> Option<String> {
        self.schema_source.clone()
    }

    fn stamp_mutation_versions(&self, _mem: &str) -> Vec<WarningHint> {
        Vec::new()
    }

    fn folder_changes_since(
        &self,
        _path: &str,
        _mem: &str,
        since: &str,
    ) -> Result<BackendChanges, BackendError> {
        let changes = if since.is_empty() || since == EMPTY_TREE_SHA {
            self.folder_changes.borrow().iter().map(|(_, c)| copy_change(c)).collect()
        } else {
            Vec::new()
        };
        Ok(BackendChanges {
            since: since.to_string(),
            head: "2026-01-01T00:00:00Z".to_string(),
            changes,
            notes: Vec::new(),
            memstead_ref: None,
        })
    }

    fn git_changes_since(
        &self,
        _gitdir: &str,
        _branch: &str,
        _mem: &str,
        since: &str,
        _similarity: &Similarity,
    ) -> Option<Result<BackendChanges, BackendError>> {
        self.git_changes.borrow().as_ref().and_then(|f| f(since))
    }

    fn git_fetch(
        &self,
        _gitdir: &str,
        remote: &str,
        _refspecs: &Vec<String>,
    ) -> Option<Result<FetchOutcome, BackendError>> {
        self.git_reply.borrow().clone().map(|r| {
            r.map(|(_, b)| FetchOutcome { remote: remote.to_string(), updated_refs: vec![b] })
        })
    }

    fn git_pull(
        &self,
        _gitdir: &str,
        _remote: &str,
        _mem: &str,
    ) -> Option<Result<PullOutcome, BackendError>> {
        *self.pulls.borrow_mut() += 1;
        self.git_reply
            .borrow()
            .clone()
            .map(|r| r.map(|(a, b)| PullOutcome { previous_sha: a, new_sha: b }))
    }

    fn git_push(
        &self,
        _gitdir: &str,
        remote: &str,
        _mem: &str,
        _force: bool,
    ) -> Option<Result<PushOutcome, BackendError>> {
        *self.pushes.borrow_mut() += 1;
        self.git_reply
            .borrow()
            .clone()
            .map(|r| r.map(|(_, b)| PushOutcome { remote: remote.to_string(), sha: b }))
    }

    fn git_remote_add(
        &self,
        _gitdir: &str,
        name: &str,
        url: &str,
    ) -> Option<Result<RemoteAddOutcome, BackendError>> {
        self.git_reply.borrow().clone().map(|r| {
            r.map(|_| RemoteAddOutcome { name: name.to_string(), url: url.to_string() })
        })
    }

    fn git_read_tree(
        &self,
        _gitdir: &str,
        _ref_name: &str,
    ) -> Option<Result<Vec<SourceEntry>, BackendError>> {
        self.git_tree.borrow().clone()
    }

    fn git_branch_reset(
        &self,
        _gitdir: &str,
        _branch: &str,
        _target: &str,
    ) -> Option<Result<BranchResetOutcome, BackendError>> {
        self.git_reply
            .borrow()
            .clone()
            .map(|r| r.map(|(a, b)| BranchResetOutcome { previous_sha: a, new_sha: b }))
    }

    fn git_diff(
        &self,
        _gitdir: &str,
        _mem: &str,
        _ref_a: &str,
        _ref_b: &str,
        config: &DiffConfig,
    ) -> Option<Result<Diff, BackendError>> {
        *self.settings.borrow_mut() = config.settings.clone();
        self.git_reply.borrow().clone().map(|r| r.map(|_| Diff { changes: Vec::new() }))
    }

    fn extract_archive(
        &self,
        bytes: &Vec<u8>,
        limits: &ValidatorLimits,
    ) -> Result<ArchiveEntries, ArchiveValidationError> {
        for (name, cap) in &limits.caps {
            if name == "max_compressed_archive" && bytes.len() as u64 > *cap {
                return Err(ArchiveValidationError {
                    code: "SIZE_CAP_EXCEEDED".to_string(),
                    message: format!("{} bytes", bytes.len()),
                });
            }
        }
        let a = decode(bytes).ok_or_else(|| ArchiveValidationError {
            code: "ZIP".to_string(),
            message: "no archive".to_string(),
        })?;
        let config = if a.name.is_empty() {
            Err("missing field `name`".to_string())
        } else {
            Ok(PublishedMemConfig {
                name: a.name,
                format: a.format,
                schema: SchemaRef::new(&a.schema.0, &a.schema.1),
            })
        };
        Ok(ArchiveEntries {
            config,
            schema_files: a
                .schema_files
                .into_iter()
                .map(|(p, b)| SchemaFile {
                    archive_path: p,
                    content: String::from_utf8(b).unwrap(),
                })
                .collect(),
        })
    }

    fn accepted_formats(&self) -> Vec<u32> {
        self.formats.clone()
    }

    fn schema_format_marker(&self) -> String {
        "format-2".to_string()
    }

    fn load_schema(
        &self,
        manifest: &str,
        types: &Vec<(String, String)>,
        format: PolarityFormat,
    ) -> Result<Arc<Schema>, String> {
        let (name, version) = manifest.split_once('@').ok_or("no manifest".to_string())?;
        Ok(Arc::new(Schema {
            name: name.to_string(),
            version: version.to_string(),
            types: types
                .iter()
                .map(|(n, c)| TypeDefinition {
                    name: n.clone(),
                    sections: vec![SectionDef {
                        key: c.clone(),
                        heading: format!("{format:?}"),
                    }],
                    due: None,
                    constraints: Vec::new(),
                })
                .collect(),
            heading_violations: Vec::new(),
        }))
    }

    fn redact_provenance(
        &self,
        records: &Vec<Provenance>,
        paths: &Vec<String>,
    ) -> RedactedProvenance {
        RedactedProvenance {
            payload: if records.is_empty() { None } else { Some(vec![records.len() as u8]) },
            redactions: vec![("identity".to_string(), paths.len())],
        }
    }

    fn seal_archive(&self, request: &ExportRequest) -> Result<MemExportBytes, String> {
        self.sources.borrow_mut().push(request.schema_source.clone());
        let (files, provenance, anchors) = match &request.source {
            ExportSource::Folder { path } => {
                let dirs = self.dirs.borrow();
                let mem = dirs.get(path).ok_or_else(|| format!("no directory {path}"))?;
                let stored = mem.0.borrow();
                (
                    stored.files.clone().into_iter().collect::<Vec<_>>(),
                    None,
                    stored.anchors.clone(),
                )
            }
            ExportSource::Entries { entries, provenance, anchors } => {
                (entries.clone(), provenance.clone(), anchors.clone())
            }
            ExportSource::Branch { .. } => return Err("a branch".to_string()),
        };
        Ok(sealed(request, files, provenance, anchors))
    }

    fn git_export_wired(&self) -> bool {
        self.git_export
    }

    fn git_seal_archive(&self, request: &ExportRequest) -> Result<MemExportBytes, BackendError> {
        match &request.source {
            ExportSource::Branch { branch, provenance, anchors, .. } => Ok(sealed(
                request,
                vec![(format!("{branch}.md"), b"# B\n".to_vec())],
                provenance.clone(),
                anchors.clone(),
            )),
            _ => Err(BackendError::Other("no branch".to_string())),
        }
    }

    fn ledger_records(&self, _root: &str) -> Vec<CheckRecord> {
        self.ledger.borrow().clone()
    }

    fn ledger_append(&self, _root: &str, record: &CheckRecord) -> Result<(), String> {
        if let Some(e) = self.ledger_error.borrow().clone() {
            return Err(e);
        }
        self.ledger.borrow_mut().push(record.clone());
        Ok(())
    }

    fn ledger_carry_rename(&self, _root: &str, old: &str, new: &str) -> Result<usize, String> {
        if let Some(e) = self.ledger_error.borrow().clone() {
            return Err(e);
        }
        let carried: Vec<CheckRecord> = self
            .ledger
            .borrow()
            .iter()
            .filter(|r| r.entity == old)
            .map(|r| {
                let mut c = r.clone();
                c.entity = new.to_string();
                c.renamed_from = Some(old.to_string());
                c
            })
            .collect();
        let n = carried.len();
        self.ledger.borrow_mut().extend(carried);
        Ok(n)
    }

    fn ledger_carry_transition(
        &self,
        _root: &str,
        id: &str,
        kind: &str,
        pre_hash: &str,
        post_hash: &str,
    ) -> Result<bool, String> {
        if let Some(e) = self.ledger_error.borrow().clone() {
            return Err(e);
        }
        let found = self
            .ledger
            .borrow()
            .iter()
            .rev()
            .find(|r| r.entity == id && r.kind_token() == kind && r.entity_hash == pre_hash)
            .cloned();
        match found {
            Some(mut r) => {
                r.entity_hash = post_hash.to_string();
                self.ledger.borrow_mut().push(r);
                Ok(true)
            }
            None => Ok(false),
        }
    }

    fn check_confirms(&self, _entity: &Entity, kind: &str) -> bool {
        self.confirms.borrow().iter().any(|k| k == kind)
    }

    fn validate_finding(&self, finding: &CheckFinding) -> Result<(), String> {
        if finding.message.is_empty() {
            return Err("finding.message is empty".to_string());
        }
        Ok(())
    }

    fn health_conditions(&self) -> Vec<String> {
        self.conditions.clone()
    }

    fn now(&self) -> u64 {
        1_766_000_000
    }
}

fn sealed(
    request: &ExportRequest,
    files: Vec<(String, Vec<u8>)>,
    provenance: Option<Vec<u8>>,
    anchors: Option<Vec<u8>>,
) -> MemExportBytes {
    let pin = request.config.schema.as_ref().expect("a pinned config");
    let entities = files.len();
    let bytes = encode(&Archive {
        name: request.mem.clone(),
        format: 2,
        schema: (pin.name.clone(), pin.version.clone()),
        files,
        schema_files: Vec::new(),
        provenance,
        anchors,
    });
    MemExportBytes { bytes, entities, dangling_edges: 0, redactions: Vec::new() }
}

fn refusal(code: &str, key: &str) -> ValidationError {
    ValidationError {
        code: code.to_string(),
        message: format!("section {key}"),
        details: Json::object(),
        prose: format!("section {key}"),
    }
}

fn copy_change(c: &ChangeEnvelope) -> ChangeEnvelope {
    match c {
        ChangeEnvelope::Added { id, .. } => {
            ChangeEnvelope::Added { id: id.copy(), title: None, entity_type: None }
        }
        ChangeEnvelope::Updated { id, .. } => {
            ChangeEnvelope::Updated { id: id.copy(), title: None, entity_type: None }
        }
        ChangeEnvelope::Removed { id, .. } => ChangeEnvelope::Removed {
            id: id.copy(),
            title: Some("gone".to_string()),
            entity_type: Some("spec".to_string()),
        },
        ChangeEnvelope::Renamed { from_id, to_id, .. } => ChangeEnvelope::Renamed {
            from_id: from_id.copy(),
            to_id: to_id.copy(),
            title: None,
            entity_type: None,
        },
    }
}

// -- fixtures --------------------------------------------------------------

fn typed(name: &str, sections: &[(&str, &str)]) -> TypeDefinition {
    TypeDefinition {
        name: name.to_string(),
        sections: sections
            .iter()
            .map(|(k, h)| SectionDef { key: k.to_string(), heading: h.to_string() })
            .collect(),
        due: None,
        constraints: Vec::new(),
    }
}

fn schema(name: &str, version: &str, types: Vec<TypeDefinition>) -> Arc<Schema> {
    Arc::new(Schema {
        name: name.to_string(),
        version: version.to_string(),
        types,
        heading_violations: Vec::new(),
    })
}

fn default_schema() -> Arc<Schema> {
    schema(
        "default",
        "1.0.0",
        vec![
            typed("spec", &[("identity", "Identity"), ("purpose", "Purpose")]),
            typed(
                "inquiry",
                &[
                    ("question", "Question"),
                    ("significance", "Significance"),
                    ("current_state", "Current State"),
                ],
            ),
        ],
    )
}

fn config(version: Option<&str>, pin: Option<(&str, &str)>) -> MemConfig {
    MemConfig {
        version: version.map(String::from),
        schema: pin.map(|(n, v)| SchemaRef::new(n, v)),
        title: None,
        description: None,
        subject: None,
        mutation_stamp: None,
    }
}

fn folder_mount(mem: &str, path: &str) -> Mount {
    Mount {
        mem: mem.to_string(),
        schema: Some(SchemaRef::new("default", "1.0.0")),
        storage: MountStorage::Folder { path: path.to_string() },
        capability: MountCapability::Write,
        lifecycle: MountLifecycle::Eager,
        cross_linkable: true,
        migration_target: None,
    }
}

fn git_mount(mem: &str) -> Mount {
    Mount {
        storage: MountStorage::GitBranch {
            gitdir: "/repo".to_string(),
            branch: mem.to_string(),
        },
        ..folder_mount(mem, "")
    }
}

fn archive_mount(mem: &str, path: &str) -> Mount {
    Mount {
        storage: MountStorage::Archive { path: path.to_string() },
        capability: MountCapability::ReadOnly,
        cross_linkable: false,
        ..folder_mount(mem, "")
    }
}

fn spec_md(title: &str) -> String {
    format!("---\ntype: spec\n---\n# {title}\n\n## Identity\n\n{title} is.\n\n## Purpose\n\nexists.\n")
}

fn slug(title: &str) -> String {
    title.to_lowercase().replace(' ', "-")
}

/// An engine, and the surroundings that it has.
struct TestEngine {
    engine: Engine<Mem, Shared>,
    host: Shared,
}

impl std::ops::Deref for TestEngine {
    type Target = Engine<Mem, Shared>;

    fn deref(&self) -> &Engine<Mem, Shared> {
        &self.engine
    }
}

impl std::ops::DerefMut for TestEngine {
    fn deref_mut(&mut self) -> &mut Engine<Mem, Shared> {
        &mut self.engine
    }
}

fn surrounded(world: World) -> Surroundings<Shared> {
    Surroundings::new(Shared(Rc::new(world)))
}

/// What `make` builds in a world, with that world.
fn wired<E>(
    world: World,
    make: impl FnOnce(Surroundings<Shared>) -> Result<Engine<Mem, Shared>, E>,
) -> Result<TestEngine, E> {
    let host = Shared(Rc::new(world));
    let engine = make(Surroundings::new(host.clone()))?;
    Ok(TestEngine { engine, host })
}

fn stored(mounts: Vec<(Mount, Mem)>) -> Vec<(Mount, Storage<Mem>)> {
    mounts.into_iter().map(|(mount, mem)| (mount, Storage::new(mem))).collect()
}

fn boot(world: World, mounts: Vec<(Mount, Mem)>) -> TestEngine {
    wired(world, |host| Engine::from_mounts(host, stored(mounts))).expect("boots")
}

/// A folder mem `specs` at `/specs` with a version and the named entities.
fn folder_mem_with_entities(titles: &[&str]) -> (TestEngine, Mem) {
    let mem = Mem::default().configured(config(Some("1.0.0"), Some(("default", "1.0.0"))));
    for t in titles {
        mem.put(&format!("{}.md", slug(t)), &spec_md(t));
    }
    let world = World::new();
    world.dirs.borrow_mut().insert("/specs".to_string(), mem.clone());
    (boot(world, vec![(folder_mount("specs", "/specs"), mem.clone())]), mem)
}

/// Three written entities, each of which the folder's log tells as added.
fn build_demo_engine() -> TestEngine {
    let titles = ["Alpha One", "Beta Two", "Lonely Three"];
    let (engine, mem) = folder_mem_with_entities(&titles);
    for t in titles {
        engine.host.folder_changes.borrow_mut().push((
            slug(t),
            ChangeEnvelope::Added {
                id: EntityId::new("specs", &slug(t)),
                title: None,
                entity_type: None,
            },
        ));
    }
    mem.set_head(None);
    engine
}

const RENAME_SIMILARITY_MIN: f32 = 0.1;
const RENAME_SIMILARITY_MAX: f32 = 1.0;

fn similarity(requested: Option<f32>) -> Similarity {
    match requested {
        None => Similarity::Default,
        Some(v) if (RENAME_SIMILARITY_MIN..=RENAME_SIMILARITY_MAX).contains(&v) => {
            Similarity::InRange(format!("{v}"))
        }
        Some(v) => Similarity::OutOfRange {
            requested: format!("{v}"),
            allowed_min: format!("{RENAME_SIMILARITY_MIN}"),
            allowed_max: format!("{RENAME_SIMILARITY_MAX}"),
        },
    }
}

fn similar(v: f32) -> DiffConfig {
    DiffConfig { rename_similarity: similarity(Some(v)), settings: Vec::new() }
}

fn number(text: &str) -> f32 {
    text.parse().unwrap()
}

type Callback = Rc<dyn Fn(&VaultChangedEvent)>;

fn collector() -> (Rc<RefCell<Vec<VaultChangedEvent>>>, Callback) {
    let sink: Rc<RefCell<Vec<VaultChangedEvent>>> = Rc::new(RefCell::new(Vec::new()));
    let into = sink.clone();
    (sink, Rc::new(move |e: &VaultChangedEvent| into.borrow_mut().push(e.clone())))
}

/// Deliver what the engine has to tell.
fn deliver(engine: &mut TestEngine, registry: &SubscriberRegistry<Callback>) {
    let events: Vec<VaultChangedEvent> = engine.pending_events.drain(..).collect();
    for event in &events {
        for callback in engine.emit_vault_changed(registry, event) {
            callback(event);
        }
    }
}

// -- drift ------------------------------------------------------------------

#[test]
fn drift_engine_diff_unknown_mem_returns_typed_error() {
    let engine = build_demo_engine();
    let err = engine.diff("nope", "a", "b", None).unwrap_err();
    assert!(matches!(err, EngineError::UnknownMem(v) if v == "nope"));
}

#[test]
fn drift_engine_diff_folder_mount_refuses_with_invalid_input() {
    let engine = build_demo_engine();
    let err = engine.diff("specs", "a", "b", None).unwrap_err();
    match err {
        EngineError::InvalidInput(msg) => {
            assert!(msg.contains("not git-backed"), "unexpected msg: {msg}");
        }
        other => panic!("expected InvalidInput, got {other:?}"),
    }
}

#[test]
fn drift_engine_diff_rename_similarity_out_of_range_refuses() {
    let engine = build_demo_engine();
    let err = engine.diff("specs", "a", "b", Some(similar(2.0))).unwrap_err();
    assert!(matches!(err, EngineError::RenameSimilarityOutOfRange { .. }));
}

#[test]
fn drift_engine_changes_since_archive_mount_returns_empty_report() {
    let engine = boot(
        World::new(),
        vec![(archive_mount("ext", "/ext.mem"), Mem::with(&[("a.md", "a")]))],
    );
    let report = engine.changes_since("ext", "abc", &similarity(None)).expect("known mem");
    assert_eq!(report.mem, "ext");
    assert_eq!(report.since, "abc");
    assert_eq!(report.head, "abc");
    assert!(report.changes.is_empty());
    assert!(report.warnings.is_empty());
}

#[test]
fn drift_engine_changes_since_unknown_mem_returns_typed_error() {
    let engine = build_demo_engine();
    let err = engine.changes_since("does-not-exist", "abc", &similarity(None)).unwrap_err();
    assert!(matches!(err, EngineError::UnknownMem(_)));
}

#[test]
fn drift_engine_changes_since_refuses_rename_similarity_below_min() {
    let engine = build_demo_engine();
    let err = engine
        .changes_since("specs", "abc", &similarity(Some(0.05)))
        .expect_err("out-of-range refuses");
    match err {
        EngineError::RenameSimilarityOutOfRange { requested, allowed_min, allowed_max } => {
            assert!((number(&requested) - 0.05).abs() < f32::EPSILON);
            assert!((number(&allowed_min) - RENAME_SIMILARITY_MIN).abs() < f32::EPSILON);
            assert!((number(&allowed_max) - RENAME_SIMILARITY_MAX).abs() < f32::EPSILON);
        }
        other => panic!("expected RenameSimilarityOutOfRange, got {other:?}"),
    }
}

#[test]
fn drift_engine_changes_since_refuses_rename_similarity_above_max() {
    let engine = build_demo_engine();
    let err = engine
        .changes_since("specs", "abc", &similarity(Some(1.5)))
        .expect_err("out-of-range refuses");
    match err {
        EngineError::RenameSimilarityOutOfRange { requested, .. } => {
            assert!((number(&requested) - 1.5).abs() < f32::EPSILON);
        }
        other => panic!("expected RenameSimilarityOutOfRange, got {other:?}"),
    }
}

#[test]
fn drift_engine_changes_since_no_warning_when_rename_similarity_in_range() {
    let engine = build_demo_engine();
    let report =
        engine.changes_since("specs", "abc", &similarity(Some(0.5))).expect("known mem");
    assert!(report.warnings.is_empty());
}

#[test]
fn drift_engine_changes_since_no_warning_when_rename_similarity_omitted() {
    let engine = build_demo_engine();
    let report =
        engine.changes_since("specs", "abc", &similarity(None)).expect("known mem");
    assert!(report.warnings.is_empty());
}

#[test]
fn drift_engine_changes_since_enriches_envelope_title_and_type_from_store() {
    let engine = build_demo_engine();
    let report =
        engine.changes_since("specs", EMPTY_TREE_SHA, &similarity(None)).expect("known mem");

    assert_eq!(report.changes.len(), 3);
    for env in &report.changes {
        match env {
            ChangeEnvelope::Added { id, title, entity_type } => {
                assert!(title.is_some(), "title enriched for {id:?}");
                assert_eq!(entity_type.as_deref(), Some("spec"), "type for {id:?}");
            }
            other => panic!("expected Added envelope, got {other:?}"),
        }
    }
}

#[test]
fn drift_engine_changes_since_removed_envelope_keeps_title_and_type_none() {
    let engine = build_demo_engine();
    let id = EntityId::new("specs", "lonely-three");
    assert!(engine.get_entity(&id).is_some(), "seeded entity present");
    engine.host.folder_changes.borrow_mut()[2].1 = ChangeEnvelope::Removed {
        id: id.copy(),
        title: None,
        entity_type: None,
    };
    let report = engine.changes_since("specs", EMPTY_TREE_SHA, &similarity(None)).unwrap();
    let removed = report
        .changes
        .iter()
        .find(|e| matches!(e, ChangeEnvelope::Removed { id: rid, .. } if rid.0 == id.0))
        .expect("removed envelope for lonely-three");
    match removed {
        ChangeEnvelope::Removed { title, entity_type, .. } => {
            assert!(title.is_none());
            assert!(entity_type.is_none());
        }
        other => panic!("expected Removed, got {other:?}"),
    }
}

#[test]
fn drift_reload_if_stale_returns_empty_for_folder_only_engine() {
    let mut engine = build_demo_engine();
    let warnings = engine.reload_if_stale(None);
    assert!(warnings.is_empty());
    let warnings = engine.reload_if_stale(Some("specs"));
    assert!(warnings.is_empty());
}

#[test]
fn drift_reload_if_stale_short_circuits_for_unknown_mem_filter() {
    let mut engine = build_demo_engine();
    let warnings = engine.reload_if_stale(Some("does-not-exist"));
    assert!(warnings.is_empty());
}

#[test]
fn drift_reload_if_stale_emits_mem_reloaded_when_head_advances() {
    let shared = Mem::default();
    shared.set_head(Some("aaa"));
    let mut engine = boot(World::new(), vec![(folder_mount("specs", "/dev/null"), shared.clone())]);

    let warnings = engine.reload_if_stale(Some("specs"));
    assert!(warnings.is_empty());

    shared.set_head(Some("bbb"));

    let warnings = engine.reload_if_stale(Some("specs"));
    assert_eq!(warnings.len(), 1);
    match &warnings[0] {
        WarningHint::MemReloaded { mem, old_head, new_head, .. } => {
            assert_eq!(mem, "specs");
            assert_eq!(old_head, "aaa");
            assert_eq!(new_head, "bbb");
        }
        other => panic!("expected MemReloaded, got {other:?}"),
    }

    let warnings = engine.reload_if_stale(Some("specs"));
    assert!(warnings.is_empty());
}

#[test]
fn drift_mem_drifted_tracks_sibling_advance_until_reload() {
    let shared = Mem::default();
    shared.set_head(Some("aaa"));
    let mut engine = boot(World::new(), vec![(folder_mount("specs", "/dev/null"), shared.clone())]);

    assert!(!engine.mem_drifted("specs").unwrap());

    shared.set_head(Some("bbb"));
    assert!(engine.mem_drifted("specs").unwrap());
    assert!(engine.mem_drifted("specs").unwrap());

    let _ = engine.reload_if_stale(Some("specs"));
    assert!(!engine.mem_drifted("specs").unwrap());

    assert!(matches!(engine.mem_drifted("nope"), Err(EngineError::UnknownMem(_))));
}

#[test]
fn drift_reload_one_mem_report_head_before_is_prior_cursor_and_advances() {
    let shared = Mem::default();
    shared.set_head(Some("aaa"));
    let mut engine = boot(World::new(), vec![(folder_mount("specs", "/dev/null"), shared.clone())]);

    shared.set_head(Some("bbb"));

    let report = engine.reload_one_mem_report("specs").unwrap();
    assert_eq!(report.head_before, "aaa");
    assert_eq!(report.head_after, "bbb");

    let warnings = engine.reload_if_stale(Some("specs"));
    assert!(warnings.is_empty(), "cursor should have advanced to bbb, got {warnings:?}");
}

#[test]
fn drift_reload_if_stale_fires_every_call_no_throttle() {
    let shared = Mem::default();
    shared.set_head(Some("aaa"));
    let mut engine = boot(World::new(), vec![(folder_mount("specs", "/dev/null"), shared.clone())]);

    let warnings = engine.reload_if_stale(Some("specs"));
    assert!(warnings.is_empty());

    shared.set_head(Some("bbb"));
    let warnings = engine.reload_if_stale(Some("specs"));
    assert_eq!(
        warnings.len(),
        1,
        "no throttle window — the moved ref reloads on the next probe"
    );
}

#[test]
fn tests_engine_diff_unknown_mem_returns_typed_error() {
    let engine = build_demo_engine();
    let err = engine.diff("nope", "a", "b", None).unwrap_err();
    assert!(matches!(err, EngineError::UnknownMem(v) if v == "nope"));
}

#[test]
fn tests_engine_diff_folder_mount_refuses_with_invalid_input() {
    let engine = build_demo_engine();
    let err = engine.diff("specs", "a", "b", None).unwrap_err();
    match err {
        EngineError::InvalidInput(msg) => {
            assert!(msg.contains("not git-backed"), "unexpected msg: {msg}");
        }
        other => panic!("expected InvalidInput, got {other:?}"),
    }
}

#[test]
fn tests_engine_diff_rename_similarity_out_of_range_refuses() {
    let engine = build_demo_engine();
    let err = engine.diff("specs", "a", "b", Some(similar(2.0))).unwrap_err();
    assert!(matches!(err, EngineError::RenameSimilarityOutOfRange { .. }));
}

#[test]
fn tests_engine_changes_since_archive_mount_returns_empty_report() {
    let engine = boot(
        World::new(),
        vec![(archive_mount("ext", "/ext.mem"), Mem::with(&[("a.md", "a")]))],
    );
    let report = engine.changes_since("ext", "abc", &similarity(None)).expect("known mem");
    assert_eq!(report.mem, "ext");
    assert_eq!(report.since, "abc");
    assert_eq!(report.head, "abc");
    assert!(report.changes.is_empty());
    assert!(report.warnings.is_empty());
}

#[test]
fn tests_engine_changes_since_unknown_mem_returns_typed_error() {
    let engine = build_demo_engine();
    let err = engine.changes_since("does-not-exist", "abc", &similarity(None)).unwrap_err();
    assert!(matches!(err, EngineError::UnknownMem(_)));
}

#[test]
fn tests_engine_changes_since_refuses_rename_similarity_below_min() {
    let engine = build_demo_engine();
    let err = engine
        .changes_since("specs", "abc", &similarity(Some(0.05)))
        .expect_err("out-of-range refuses");
    match err {
        EngineError::RenameSimilarityOutOfRange { requested, allowed_min, allowed_max } => {
            assert!((number(&requested) - 0.05).abs() < f32::EPSILON);
            assert!((number(&allowed_min) - RENAME_SIMILARITY_MIN).abs() < f32::EPSILON);
            assert!((number(&allowed_max) - RENAME_SIMILARITY_MAX).abs() < f32::EPSILON);
        }
        other => panic!("expected RenameSimilarityOutOfRange, got {other:?}"),
    }
}

#[test]
fn tests_engine_changes_since_refuses_rename_similarity_above_max() {
    let engine = build_demo_engine();
    let err = engine
        .changes_since("specs", "abc", &similarity(Some(1.5)))
        .expect_err("out-of-range refuses");
    match err {
        EngineError::RenameSimilarityOutOfRange { requested, .. } => {
            assert!((number(&requested) - 1.5).abs() < f32::EPSILON);
        }
        other => panic!("expected RenameSimilarityOutOfRange, got {other:?}"),
    }
}

#[test]
fn tests_engine_changes_since_no_warning_when_rename_similarity_in_range() {
    let engine = build_demo_engine();
    let report =
        engine.changes_since("specs", "", &similarity(Some(0.5))).expect("known mem");
    assert!(report.warnings.is_empty());
}

#[test]
fn tests_engine_changes_since_no_warning_when_rename_similarity_omitted() {
    let engine = build_demo_engine();
    let report =
        engine.changes_since("specs", "", &similarity(None)).expect("known mem");
    assert!(report.warnings.is_empty());
}

#[test]
fn tests_engine_changes_since_enriches_envelope_title_and_type_from_store() {
    let engine = build_demo_engine();
    let report =
        engine.changes_since("specs", EMPTY_TREE_SHA, &similarity(None)).expect("known mem");

    assert_eq!(report.changes.len(), 3);
    for env in &report.changes {
        match env {
            ChangeEnvelope::Added { id, title, entity_type } => {
                assert!(title.is_some(), "title enriched for {id:?}");
                assert_eq!(entity_type.as_deref(), Some("spec"), "type for {id:?}");
            }
            other => panic!("expected Added envelope, got {other:?}"),
        }
    }
}

#[test]
fn tests_engine_changes_since_removed_envelope_keeps_title_and_type_none() {
    let engine = build_demo_engine();
    let id = EntityId::new("specs", "lonely-three");
    assert!(engine.get_entity(&id).is_some(), "seeded entity present");
    engine.host.folder_changes.borrow_mut()[2].1 = ChangeEnvelope::Removed {
        id: id.copy(),
        title: None,
        entity_type: None,
    };
    let report = engine.changes_since("specs", EMPTY_TREE_SHA, &similarity(None)).unwrap();
    let removed = report
        .changes
        .iter()
        .find(|e| matches!(e, ChangeEnvelope::Removed { id: rid, .. } if rid.0 == id.0))
        .expect("removed envelope for lonely-three");
    match removed {
        ChangeEnvelope::Removed { title, entity_type, .. } => {
            assert!(title.is_none());
            assert!(entity_type.is_none());
        }
        other => panic!("expected Removed, got {other:?}"),
    }
}

#[test]
fn tests_reload_if_stale_returns_empty_for_folder_only_engine() {
    let mut engine = build_demo_engine();
    let warnings = engine.reload_if_stale(None);
    assert!(warnings.is_empty());
    let warnings = engine.reload_if_stale(Some("specs"));
    assert!(warnings.is_empty());
}

#[test]
fn tests_reload_if_stale_short_circuits_for_unknown_mem_filter() {
    let mut engine = build_demo_engine();
    let warnings = engine.reload_if_stale(Some("does-not-exist"));
    assert!(warnings.is_empty());
}

#[test]
fn tests_reload_if_stale_emits_mem_reloaded_when_head_advances() {
    let shared = Mem::default();
    shared.set_head(Some("aaa"));
    let mut engine = boot(World::new(), vec![(folder_mount("specs", "/dev/null"), shared.clone())]);

    let warnings = engine.reload_if_stale(Some("specs"));
    assert!(warnings.is_empty());

    shared.set_head(Some("bbb"));

    let warnings = engine.reload_if_stale(Some("specs"));
    assert_eq!(warnings.len(), 1);
    match &warnings[0] {
        WarningHint::MemReloaded { mem, old_head, new_head, .. } => {
            assert_eq!(mem, "specs");
            assert_eq!(old_head, "aaa");
            assert_eq!(new_head, "bbb");
        }
        other => panic!("expected MemReloaded, got {other:?}"),
    }

    let warnings = engine.reload_if_stale(Some("specs"));
    assert!(warnings.is_empty());
}

#[test]
fn tests_mem_drifted_tracks_sibling_advance_until_reload() {
    let shared = Mem::default();
    shared.set_head(Some("aaa"));
    let mut engine = boot(World::new(), vec![(folder_mount("specs", "/dev/null"), shared.clone())]);

    assert!(!engine.mem_drifted("specs").unwrap());

    shared.set_head(Some("bbb"));
    assert!(engine.mem_drifted("specs").unwrap());
    assert!(engine.mem_drifted("specs").unwrap());

    let _ = engine.reload_if_stale(Some("specs"));
    assert!(!engine.mem_drifted("specs").unwrap());

    assert!(matches!(engine.mem_drifted("nope"), Err(EngineError::UnknownMem(_))));
}

#[test]
fn tests_reload_one_mem_report_head_before_is_prior_cursor_and_advances() {
    let shared = Mem::default();
    shared.set_head(Some("aaa"));
    let mut engine = boot(World::new(), vec![(folder_mount("specs", "/dev/null"), shared.clone())]);

    shared.set_head(Some("bbb"));

    let report = engine.reload_one_mem_report("specs").unwrap();
    assert_eq!(report.head_before, "aaa");
    assert_eq!(report.head_after, "bbb");

    let warnings = engine.reload_if_stale(Some("specs"));
    assert!(warnings.is_empty(), "cursor should have advanced to bbb, got {warnings:?}");
}

#[test]
fn tests_reload_if_stale_fires_every_call_no_throttle() {
    let shared = Mem::default();
    shared.set_head(Some("aaa"));
    let mut engine = boot(World::new(), vec![(folder_mount("specs", "/dev/null"), shared.clone())]);

    let warnings = engine.reload_if_stale(Some("specs"));
    assert!(warnings.is_empty());

    shared.set_head(Some("bbb"));
    let warnings = engine.reload_if_stale(Some("specs"));
    assert_eq!(
        warnings.len(),
        1,
        "no throttle window — the moved ref reloads on the next probe"
    );
}

#[test]
fn engine_changes_since_folder_refuses_write_token_as_cursor() {
    let engine = build_demo_engine();
    let token = format!("{:032x}{:016x}", 1_766_000_000_000_000_000u128, 7u64);
    let err = engine.changes_since("specs", &token, &similarity(None)).unwrap_err();
    assert_eq!(err.code(), "INVALID_CURSOR");
    match &err {
        EngineError::InvalidTimestampCursor { mem, since } => {
            assert_eq!(mem, "specs");
            assert_eq!(since, &token);
        }
        other => panic!("expected InvalidTimestampCursor, got {other:?}"),
    }
    let msg = err.to_text();
    assert!(msg.contains("RFC3339"), "message names the cursor dialect: {msg}");
    assert!(
        msg.contains("`write_id` is an identity, not a cursor"),
        "message names the confusion: {msg}"
    );
    assert!(engine.changes_since("specs", EMPTY_TREE_SHA, &similarity(None)).is_ok());
    assert!(engine.changes_since("specs", "", &similarity(None)).is_ok());
}

#[test]
fn reload_if_stale_reloads_a_mem_whose_branch_appeared() {
    let shared = Mem::default();
    let mut engine = boot(World::new(), vec![(folder_mount("specs", "/dev/null"), shared.clone())]);
    assert!(
        engine.load_warnings().iter().any(|w| w.code() == "MOUNT_UNBACKED"),
        "an entity-less mount warns at boot: {:?}",
        engine.load_warnings()
    );
    assert!(engine.reload_if_stale(Some("specs")).is_empty());

    shared.put(
        "first.md",
        "---\ntype: spec\n---\n# First\n\n## Identity\n\nfirst.\n\n## Purpose\n\nexists.\n",
    );
    shared.set_head(Some("aaa"));

    let warnings = engine.reload_if_stale(Some("specs"));
    match warnings.as_slice() {
        [WarningHint::MemReloaded { mem, old_head, new_head, entities_loaded }] => {
            assert_eq!(mem, "specs");
            assert!(old_head.is_empty(), "no head was cached: {old_head}");
            assert_eq!(new_head, "aaa");
            assert_eq!(*entities_loaded, 1);
        }
        other => panic!("expected one MemReloaded, got {other:?}"),
    }
    assert!(
        engine.store().get(&EntityId::new("specs", "first")).is_some(),
        "the appeared branch's entity is served"
    );
    assert!(
        !engine.load_warnings().iter().any(|w| w.code() == "MOUNT_UNBACKED"),
        "the boot-time probe is replaced by the reload's: {:?}",
        engine.load_warnings()
    );
    assert!(engine.reload_if_stale(Some("specs")).is_empty());
}

/// Of several mems those that moved are told, those that cannot be read are
/// tried again, and the others rest.
#[test]
fn moved_mems_are_told_at_once_and_then_rest() {
    let mems: Vec<Mem> =
        ["A", "B", "C"].iter().map(|t| Mem::with(&[("x.md", &spec_md(t))])).collect();
    for mem in &mems {
        mem.set_head(Some("one"));
    }
    let mounts = ["a", "b", "c"].iter().map(|m| git_mount(m)).zip(mems.iter().cloned()).collect();
    let mut engine = boot(World::new(), mounts);
    assert!(engine.reload_if_stale(None).is_empty());
    mems[0].set_head(Some("two"));
    mems[2].set_head(Some("two"));
    let told: Vec<String> = engine
        .reload_if_stale(None)
        .iter()
        .map(|w| match w {
            WarningHint::MemReloaded { mem, old_head, new_head, .. } => {
                format!("{mem}: {old_head} to {new_head}")
            }
            other => panic!("unexpected {other:?}"),
        })
        .collect();
    assert_eq!(told, ["a: one to two", "c: one to two"]);
    assert!(engine.reload_if_stale(None).is_empty());
}

/// A reload hands on what it applied once, and tells the rest of the engine
/// nothing else.
#[test]
fn a_reload_leaves_one_notice_until_it_is_taken() {
    let mem = Mem::with(&[("a.md", &spec_md("A"))]);
    mem.set_head(Some("aaa"));
    let mut engine = boot(World::new(), vec![(git_mount("specs"), mem.clone())]);
    *engine.host.git_changes.borrow_mut() = Some(Box::new(|since| {
        Some(Ok(BackendChanges {
            since: since.to_string(),
            head: "bbb".to_string(),
            changes: vec![ChangeEnvelope::Added {
                id: EntityId::new("specs", "b"),
                title: None,
                entity_type: None,
            }],
            notes: vec!["why".to_string()],
            memstead_ref: Some("main".to_string()),
        }))
    }));
    mem.put("b.md", &spec_md("B"));
    mem.set_head(Some("bbb"));
    assert_eq!(engine.reload_if_stale(None).len(), 1);
    let notices = engine.take_mem_changed_notices();
    assert_eq!(notices.len(), 1);
    assert_eq!(notices[0].mem, "specs");
    assert_eq!(notices[0].from_head, "aaa");
    assert_eq!(notices[0].to_head, "bbb");
    match notices[0].changes.as_slice() {
        [ChangeEnvelope::Added { id, title, entity_type }] => {
            assert_eq!(id.0, "specs--b");
            assert_eq!(title.as_deref(), Some("B"));
            assert_eq!(entity_type.as_deref(), Some("spec"));
        }
        other => panic!("expected one added entity, got {other:?}"),
    }
    assert!(engine.take_mem_changed_notices().is_empty());

    let report = engine.changes_since("specs", "aaa", &similarity(None)).unwrap();
    assert_eq!(report.notes, Some(vec!["why".to_string()]));
    assert_eq!(report.memstead_ref.as_deref(), Some("main"));
    let notice = engine.mem_changed_notice("specs", "aaa", "bbb");
    assert_eq!(notice.changes.len(), 1);
}

#[test]
fn a_reload_counts_what_is_new_and_what_changed() {
    let mem = Mem::with(&[("a.md", &spec_md("A")), ("b.md", &spec_md("B"))]);
    let mut engine = boot(World::new(), vec![(folder_mount("specs", "/s"), mem.clone())]);
    mem.put("b.md", &spec_md("B again"));
    mem.put("c.md", &spec_md("C"));
    mem.0.borrow_mut().files.remove("a.md");
    let reload = engine.reload_one_mem("specs").unwrap();
    assert_eq!(reload.added.iter().map(|i| i.0.as_str()).collect::<Vec<_>>(), ["specs--c"]);
    assert_eq!(reload.changed.iter().map(|i| i.0.as_str()).collect::<Vec<_>>(), ["specs--b"]);
    assert!(engine.get_entity(&EntityId::new("specs", "a")).is_none());
    assert!(engine.reload_one_mem("nope").is_err());
}

/// A write of the engine's own moves its cursor along: it is no drift.
#[test]
fn an_own_write_is_told_and_is_no_drift() {
    let mem = Mem::with(&[("a.md", &spec_md("A"))]);
    mem.set_head(Some("aaa"));
    let mut engine = boot(World::new(), vec![(folder_mount("specs", "/s"), mem.clone())]);
    mem.set_head(Some("bbb"));
    engine.record_self_write(0, "bbb");
    assert!(engine.reload_if_stale(None).is_empty());
    assert!(!engine.mem_drifted("specs").unwrap());
    assert_eq!(engine.pending_events.len(), 1);
    assert_eq!(engine.pending_events[0].head, "bbb");
    assert_eq!(engine.pending_events[0].previous, "aaa");
    engine.record_self_write(0, "");
    engine.record_self_write(7, "ccc");
    assert_eq!(engine.pending_events.len(), 1);
}

#[test]
fn the_git_layer_is_asked_and_its_marks_are_read() {
    let mem = Mem::with(&[("a.md", &spec_md("A"))]);
    mem.set_head(Some("aaa"));
    let mut engine = boot(World::new(), vec![(git_mount("specs"), mem.clone())]);
    // No git layer is wired.
    assert!(engine.fetch("specs", "origin", &Vec::new()).is_err());
    assert!(engine.diff("specs", "a", "b", None).is_err());

    *engine.host.git_reply.borrow_mut() = Some(Ok(("aaa".to_string(), "bbb".to_string())));
    *engine.host.git_tree.borrow_mut() = Some(Ok(vec![SourceEntry {
        relative_path: "a.md".to_string(),
        content: spec_md("A"),
    }]));
    let fetched = engine.fetch("specs", "origin", &Vec::new()).unwrap();
    assert_eq!(fetched.remote, "origin");
    assert_eq!(engine.push("specs", "origin", false).unwrap().sha, "bbb");
    assert!(engine.diff("specs", "a", "b", None).unwrap().changes.is_empty());
    let config = DiffConfig {
        rename_similarity: similarity(Some(0.5)),
        settings: vec![("sections".to_string(), "all".to_string())],
    };
    engine.diff("specs", "a", "b", Some(config)).unwrap();
    assert_eq!(engine.host.settings.borrow()[0].0, "sections");
    assert_eq!(engine.remote_add("origin", "https://h/r.git").unwrap().name, "origin");
    let pulled = engine.pull("specs", "origin").unwrap();
    assert_eq!(pulled.new_sha, "bbb");
    assert_eq!(engine.mounts[0].last_known_head.as_deref(), Some("bbb"));
    assert_eq!(engine.pending_events.len(), 1);
    assert_eq!(engine.pending_events[0].previous, "aaa");
    assert_eq!(engine.pending_events[0].head, "bbb");
    let reset = engine.branch_reset("specs", "aaa").unwrap();
    assert_eq!(reset.previous_sha, "aaa");

    // The fetched tree is held to the schema before the branch moves.
    *engine.host.git_tree.borrow_mut() = Some(Ok(vec![SourceEntry {
        relative_path: "a.md".to_string(),
        content: format!("{}!!strict\n", spec_md("A")),
    }]));
    let asked = (*engine.host.pulls.borrow(), *engine.host.pushes.borrow());
    assert_eq!(asked, (1, 1));
    let err = engine.pull("specs", "origin").unwrap_err();
    assert_eq!(err.code(), "SCHEMA_VIOLATION_IN_FETCH");
    let err = engine.push("specs", "origin", true).unwrap_err();
    assert_eq!(err.code(), "LOCAL_INVALID_STATE");
    assert_eq!((*engine.host.pulls.borrow(), *engine.host.pushes.borrow()), asked);

    assert_eq!(engine.remote_add("", "u").unwrap_err().code(), "INVALID_INPUT");
    assert_eq!(engine.remote_add("-x", "u").unwrap_err().code(), "INVALID_INPUT");
    assert_eq!(engine.fetch("nope", "o", &Vec::new()).unwrap_err().code(), "UNKNOWN_MEM");
    assert_eq!(engine.pull("nope", "o").unwrap_err().code(), "UNKNOWN_MEM");
    assert_eq!(engine.push("nope", "o", true).unwrap_err().code(), "UNKNOWN_MEM");
    assert_eq!(engine.branch_reset("nope", "x").unwrap_err().code(), "UNKNOWN_MEM");
}

#[test]
fn a_folder_mem_has_no_remote() {
    let mut engine = build_demo_engine();
    assert_eq!(engine.fetch("specs", "o", &Vec::new()).unwrap_err().code(), "INVALID_INPUT");
    assert_eq!(engine.pull("specs", "o").unwrap_err().code(), "INVALID_INPUT");
    assert_eq!(engine.push("specs", "o", false).unwrap_err().code(), "INVALID_INPUT");
    assert_eq!(engine.branch_reset("specs", "x").unwrap_err().code(), "INVALID_INPUT");
    assert_eq!(engine.remote_add("o", "u").unwrap_err().code(), "INVALID_INPUT");
    let err = engine.branch_reset_stranded_refs("specs", "x").unwrap_err();
    assert_eq!(err.code(), "INVALID_INPUT");
}

/// A reset would remove what came after its target: edges of other mems into
/// that are named.
#[test]
fn a_reset_names_the_edges_that_it_would_strand() {
    let target = Mem::with(&[("kept.md", &spec_md("Kept")), ("new.md", &spec_md("New"))]);
    let source = Mem::with(&[(
        "src.md",
        "---\ntype: spec\n---\n# Src\n\n## Relationships\n\n- **USES**: [[specs--new]]\n- **USES**: [[specs--kept]]\n",
    )]);
    let engine = boot(
        World::new(),
        vec![(git_mount("specs"), target), (folder_mount("other", "/o"), source)],
    );
    *engine.host.git_changes.borrow_mut() = Some(Box::new(|since| {
        Some(Ok(BackendChanges {
            since: since.to_string(),
            head: "tip".to_string(),
            changes: vec![ChangeEnvelope::Added {
                id: EntityId::new("specs", "new"),
                title: None,
                entity_type: None,
            }],
            notes: Vec::new(),
            memstead_ref: None,
        }))
    }));
    let stranded = engine.branch_reset_stranded_refs("specs", "old").unwrap();
    assert_eq!(stranded.len(), 1);
    assert_eq!(stranded[0].from_id, "other--src");
    assert_eq!(stranded[0].from_mem, "other");
    assert_eq!(stranded[0].to_id, "specs--new");
    assert_eq!(stranded[0].rel_type, "USES");
}

// -- commits of others -----------------------------------------------------

fn empty_folder_engine(mem: &str) -> TestEngine {
    boot(World::new(), vec![(folder_mount(mem, "/m"), Mem::default())])
}

fn envelope(mem: &str, sha: &str, changes: Vec<EntityChange>) -> CommitEnvelope {
    CommitEnvelope { mem: mem.to_string(), sha: sha.to_string(), changes }
}

fn well_formed_body(title: &str) -> String {
    format!(
        "---\ntype: spec\ncreated_date: 2026-01-01\nlast_modified: 2026-01-01\nlevel: M0\n---\n# {title}\n\n## Identity\n\n{title}\n"
    )
}

fn added(path: &str, title: &str) -> EntityChange {
    EntityChange::Added { path: path.to_string(), content: well_formed_body(title) }
}

#[test]
fn apply_external_commit_unknown_mem_refuses() {
    let mut engine = empty_folder_engine("specs");
    let env = envelope("missing", "deadbeef", vec![]);
    let err = engine.apply_external_commit(&env).unwrap_err();
    assert_eq!(err.code(), "UNKNOWN_MEM");
}

#[test]
fn apply_external_commit_added_lands_entity_in_store() {
    let mut engine = empty_folder_engine("specs");
    let env = envelope("specs", "abc123", vec![added("alpha.md", "Alpha")]);
    engine.apply_external_commit(&env).unwrap();
    let id = EntityId::new("specs", "alpha");
    assert!(
        engine.get_entity(&id).is_some(),
        "expected 'specs--alpha' in store after Added apply"
    );
}

#[test]
fn apply_external_commit_modified_replaces_existing_body() {
    let mut engine = empty_folder_engine("specs");
    engine
        .apply_external_commit(&envelope("specs", "sha1", vec![added("alpha.md", "Alpha-v0")]))
        .unwrap();
    engine
        .apply_external_commit(&envelope(
            "specs",
            "sha2",
            vec![EntityChange::Modified {
                path: "alpha.md".to_string(),
                content: well_formed_body("Alpha-v1"),
            }],
        ))
        .unwrap();
    let id = EntityId::new("specs", "alpha");
    let entity = engine.get_entity(&id).expect("alpha must still exist");
    assert_eq!(entity.title, "Alpha-v1");
}

#[test]
fn apply_external_commit_deleted_removes_entity_from_store() {
    let mut engine = empty_folder_engine("specs");
    engine
        .apply_external_commit(&envelope("specs", "sha1", vec![added("alpha.md", "Alpha")]))
        .unwrap();
    engine
        .apply_external_commit(&envelope(
            "specs",
            "sha2",
            vec![EntityChange::Deleted { path: "alpha.md".to_string() }],
        ))
        .unwrap();
    let id = EntityId::new("specs", "alpha");
    assert!(
        engine.get_entity(&id).is_none(),
        "expected 'specs--alpha' removed after Deleted apply"
    );
}

#[test]
fn apply_external_commit_renamed_moves_entity_to_new_id() {
    let mut engine = empty_folder_engine("specs");
    engine
        .apply_external_commit(&envelope("specs", "sha1", vec![added("alpha.md", "Alpha")]))
        .unwrap();
    engine
        .apply_external_commit(&envelope(
            "specs",
            "sha2",
            vec![EntityChange::Renamed {
                from: "alpha.md".to_string(),
                to: "alpha-renamed.md".to_string(),
                content: well_formed_body("Alpha Renamed"),
            }],
        ))
        .unwrap();
    let old_id = EntityId::new("specs", "alpha");
    let new_id = EntityId::new("specs", "alpha-renamed");
    assert!(engine.get_entity(&old_id).is_none(), "old id must be gone");
    assert!(engine.get_entity(&new_id).is_some(), "new id must be present");
}

#[test]
fn apply_external_commit_mixed_changes_apply_atomically() {
    let mut engine = empty_folder_engine("specs");
    engine
        .apply_external_commit(&envelope(
            "specs",
            "sha1",
            vec![added("alpha.md", "Alpha"), added("beta.md", "Beta")],
        ))
        .unwrap();
    engine
        .apply_external_commit(&envelope(
            "specs",
            "sha2",
            vec![
                EntityChange::Deleted { path: "alpha.md".to_string() },
                EntityChange::Modified {
                    path: "beta.md".to_string(),
                    content: well_formed_body("Beta-v2"),
                },
                added("gamma.md", "Gamma"),
            ],
        ))
        .unwrap();
    let alpha = EntityId::new("specs", "alpha");
    let beta = EntityId::new("specs", "beta");
    let gamma = EntityId::new("specs", "gamma");
    assert!(engine.get_entity(&alpha).is_none());
    assert_eq!(engine.get_entity(&beta).unwrap().title, "Beta-v2");
    assert!(engine.get_entity(&gamma).is_some());
}

#[test]
fn apply_external_commit_permissive_parser_accepts_minimal_body() {
    let mut engine = empty_folder_engine("specs");
    let bare_body = "# Bare\n\nNo frontmatter, no schema sections.\n";
    engine
        .apply_external_commit(&envelope(
            "specs",
            "sha1",
            vec![EntityChange::Added {
                path: "bare.md".to_string(),
                content: bare_body.to_string(),
            }],
        ))
        .unwrap();
    let id = EntityId::new("specs", "bare");
    let entity = engine
        .get_entity(&id)
        .expect("permissive parser must produce an entity even without frontmatter");
    assert_eq!(entity.title, "Bare");
}

#[test]
fn apply_external_commit_emits_mem_changed_event_to_subscribers() {
    let mut engine = empty_folder_engine("specs");
    let mut registry = SubscriberRegistry::new();
    let (observed, cb) = collector();
    let _handle = engine.subscribe_vault_changes(&mut registry, "specs", cb).unwrap();
    engine
        .apply_external_commit(&envelope("specs", "sha-new", vec![added("alpha.md", "Alpha")]))
        .unwrap();
    deliver(&mut engine, &registry);
    let events = observed.borrow();
    assert_eq!(events.len(), 1, "expected one MemChangedEvent");
    assert_eq!(events[0].head, "sha-new");
    assert_eq!(events[0].vault, "specs");
    assert_eq!(events[0].n_commits, 1);
}

#[test]
fn apply_external_commit_empty_changes_still_advances_head() {
    let mut engine = empty_folder_engine("specs");
    let mut registry = SubscriberRegistry::new();
    let (observed, cb) = collector();
    let _handle = engine.subscribe_vault_changes(&mut registry, "specs", cb).unwrap();
    engine.apply_external_commit(&envelope("specs", "empty-commit-sha", vec![])).unwrap();
    deliver(&mut engine, &registry);
    let events = observed.borrow();
    assert_eq!(events.len(), 1, "empty envelope must still emit one event");
    assert_eq!(events[0].head, "empty-commit-sha");
}

/// A commit with one change that does not parse lands nothing of it.
#[test]
fn a_commit_lands_whole_or_not_at_all() {
    let mut engine = empty_folder_engine("specs");
    let err = engine
        .apply_external_commit(&envelope(
            "specs",
            "sha1",
            vec![
                added("alpha.md", "Alpha"),
                EntityChange::Added {
                    path: "bad.md".to_string(),
                    content: "!!broken".to_string(),
                },
            ],
        ))
        .unwrap_err();
    assert_eq!(err.code(), "PARSE_ERROR");
    assert!(engine.get_entity(&EntityId::new("specs", "alpha")).is_none());
    assert!(engine.pending_events.is_empty());
}

// -- events ----------------------------------------------------------------

#[test]
fn registry_register_and_snapshot_roundtrip() {
    let mut reg: SubscriberRegistry<Callback> = SubscriberRegistry::new();
    let cb: Callback = Rc::new(|_| {});
    let id = reg.register("v1".to_string(), cb.clone());
    assert_eq!(reg.snapshot("v1").len(), 1);
    reg.remove("v1", id);
    assert!(reg.snapshot("v1").is_empty());
}

#[test]
fn registry_remove_unknown_id_is_noop() {
    let mut reg: SubscriberRegistry<Callback> = SubscriberRegistry::new();
    reg.remove("missing", 42);
    let cb: Callback = Rc::new(|_| {});
    let _ = reg.register("v1".to_string(), cb);
    reg.remove("v1", 999);
    assert_eq!(reg.snapshot("v1").len(), 1);
}

#[test]
fn subscribe_unknown_vault_refuses_with_typed_code() {
    let engine = build_demo_engine();
    let mut registry: SubscriberRegistry<Callback> = SubscriberRegistry::new();
    let cb: Callback = Rc::new(|_| {});
    let err = engine.subscribe_vault_changes(&mut registry, "missing", cb).unwrap_err();
    match err {
        EngineError::UnknownVault(v) => assert_eq!(v, "missing"),
        other => panic!("expected UnknownVault, got {other:?}"),
    }
}

#[test]
fn every_write_is_told_once_and_the_heads_chain() {
    let mut engine = build_demo_engine();
    let mut registry = SubscriberRegistry::new();
    let (sink, cb) = collector();
    let handle = engine.subscribe_vault_changes(&mut registry, "specs", cb).unwrap();
    assert_eq!(handle.vault(), "specs");
    engine.record_self_write(0, "one");
    engine.record_self_write(0, "two");
    deliver(&mut engine, &registry);
    let captured = sink.borrow();
    assert_eq!(captured.len(), 2, "two mutations must produce two events");
    for ev in captured.iter() {
        assert_eq!(ev.vault, "specs");
        assert!(!ev.head.is_empty(), "head must be the new sha");
        assert_eq!(ev.n_commits, 1);
    }
    assert_eq!(captured[1].previous, captured[0].head);
}

#[test]
fn multiple_subscribers_each_see_every_event() {
    let mut engine = build_demo_engine();
    let mut registry = SubscriberRegistry::new();
    let (sink_a, cb_a) = collector();
    let (sink_b, cb_b) = collector();
    let _h1 = engine.subscribe_vault_changes(&mut registry, "specs", cb_a).unwrap();
    let _h2 = engine.subscribe_vault_changes(&mut registry, "specs", cb_b).unwrap();
    engine.record_self_write(0, "one");
    deliver(&mut engine, &registry);
    assert_eq!(sink_a.borrow().len(), 1);
    assert_eq!(sink_b.borrow().len(), 1);
}

#[test]
fn unsubscribe_method_equivalent_to_drop() {
    let mut engine = build_demo_engine();
    let mut registry = SubscriberRegistry::new();
    let (sink, cb) = collector();
    let handle = engine.subscribe_vault_changes(&mut registry, "specs", cb).unwrap();
    handle.unsubscribe(&mut registry);
    engine.record_self_write(0, "one");
    deliver(&mut engine, &registry);
    assert!(sink.borrow().is_empty());
}

#[test]
fn each_subscriber_sees_every_event_of_its_vault_alone() {
    let mut engine = build_demo_engine();
    let mut registry = SubscriberRegistry::new();
    let (sink_a, cb_a) = collector();
    let (sink_b, cb_b) = collector();
    let (sink_c, cb_c) = collector();
    let _h1 = engine.subscribe_vault_changes(&mut registry, "specs", cb_a).unwrap();
    let h2 = engine.subscribe_vault_changes(&mut registry, "specs", cb_b).unwrap();
    let _ = registry.register("other".to_string(), cb_c);
    engine.record_self_write(0, "one");
    deliver(&mut engine, &registry);
    assert_eq!(sink_a.borrow().len(), 1);
    assert_eq!(sink_b.borrow().len(), 1);
    assert!(sink_c.borrow().is_empty());

    h2.unsubscribe(&mut registry);
    engine.record_self_write(0, "two");
    deliver(&mut engine, &registry);
    assert_eq!(sink_a.borrow().len(), 2);
    assert_eq!(sink_b.borrow().len(), 1);
}

#[test]
fn subscribe_archive_mount_accepted_but_no_emit() {
    let engine = boot(
        World::new(),
        vec![(
            archive_mount("ext", "/ext.mem"),
            Mem::with(&[("a.md", "---\ntype: spec\n---\n# A\n\n## Identity\n\nx.\n")]),
        )],
    );
    let mut registry = SubscriberRegistry::new();
    let (sink, cb) = collector();
    let handle = engine.subscribe_vault_changes(&mut registry, "ext", cb);
    assert!(handle.is_ok(), "subscribe must accept read-only vaults");
    assert!(sink.borrow().is_empty());
}

// -- boot ------------------------------------------------------------------

#[test]
fn two_mounts_of_one_mem_are_refused_and_none_are_allowed() {
    let twice = Engine::from_mounts(
        surrounded(World::new()),
        stored(vec![
            (folder_mount("specs", "/a"), Mem::default()),
            (folder_mount("specs", "/b"), Mem::default()),
        ]),
    );
    assert!(matches!(twice, Err(EngineError::DuplicateMem(m)) if m == "specs"));
    let none = boot(World::new(), Vec::new());
    assert!(none.mounts.is_empty());
    let world = World { builtins: Err("catalogue".to_string()), ..World::new() };
    let failed = wired(world, |host| Engine::from_mounts(host, Vec::new()));
    assert!(matches!(failed, Err(EngineError::SchemaResolverInit(m)) if m == "catalogue"));
}

/// One mem that cannot serve does not take the others down.
#[test]
fn an_unresolved_pin_holds_one_mem_back() {
    let mut lost = folder_mount("lost", "/lost");
    lost.schema = Some(SchemaRef::new("nowhere", "1.0.0"));
    let mut pinless = folder_mount("pinless", "/p");
    pinless.schema = None;
    let engine = boot(
        World::new(),
        vec![
            (lost, Mem::with(&[("a.md", &spec_md("A"))])),
            (folder_mount("specs", "/s"), Mem::with(&[("b.md", &spec_md("B"))])),
            (pinless, Mem::with(&[("c.md", &spec_md("C"))])),
        ],
    );
    assert_eq!(engine.mounts.len(), 1);
    assert_eq!(engine.quarantined.len(), 2);
    assert!(engine.get_entity(&EntityId::new("specs", "b")).is_some());
    assert!(engine.get_entity(&EntityId::new("lost", "a")).is_none());
    let err = engine.unknown_mem_error("lost");
    assert_eq!(err.code(), "MEM_QUARANTINED");
    assert_eq!(engine.quarantined[0].reason_code, "SCHEMA_NOT_FOUND");
    assert_eq!(engine.unknown_mem_error("nope").code(), "UNKNOWN_MEM");
}

/// Mems that serve and mems that are held back each keep the order in which
/// they were given, and those that serve are those with a schema.
#[test]
fn both_rosters_keep_the_order_given() {
    let lost = |mem: &str, path: &str| Mount {
        schema: Some(SchemaRef::new("nowhere", "1.0.0")),
        ..folder_mount(mem, path)
    };
    let engine = boot(
        World::new(),
        vec![
            (folder_mount("d", "/d"), Mem::with(&[("x.md", &spec_md("X"))])),
            (lost("c", "/c"), Mem::with(&[("x.md", &spec_md("X"))])),
            (folder_mount("b", "/b"), Mem::with(&[("x.md", &spec_md("X"))])),
            (lost("a", "/a"), Mem::with(&[("x.md", &spec_md("X"))])),
        ],
    );
    let serving: Vec<&str> = engine.mounts.iter().map(|m| m.mount.mem.as_str()).collect();
    let held: Vec<&str> = engine.quarantined.iter().map(|q| q.mount.mem.as_str()).collect();
    let keyed: Vec<&str> = engine.schemas.iter().map(|s| s.0.as_str()).collect();
    assert_eq!(serving, ["d", "b"]);
    assert_eq!(held, ["c", "a"]);
    assert_eq!(keyed, serving);
    assert!(engine.store().entities.iter().all(|e| serving.contains(&e.mem.as_str())));
}

#[test]
fn the_config_decides_and_boot_says_what_differs() {
    let mut conf = config(Some("1.0.0"), Some(("default", "1.0.0")));
    conf.mutation_stamp =
        Some(MutationStamp { engine_version: "0.9.0".to_string(), schema: None });
    let mut mount = folder_mount("specs", "/s");
    mount.schema = Some(SchemaRef::new("default", "2.0.0"));
    let mut world = World::new();
    world.builtins = Ok(vec![default_schema(), schema("default", "1.3.0", Vec::new())]);
    let engine = boot(
        world,
        vec![(mount, Mem::with(&[("a.md", &spec_md("A"))]).configured(conf))],
    );
    let codes: Vec<&str> = engine.load_warnings().iter().map(|w| w.code()).collect();
    assert!(codes.contains(&"SCHEMA_PIN_MISMATCH"), "{codes:?}");
    assert!(codes.contains(&"ENGINE_VERSION_SKEW"), "{codes:?}");
    assert!(codes.contains(&"SCHEMA_GENERATIONS_BEHIND"), "{codes:?}");
    assert_eq!(engine.schema_for("specs").unwrap().version, "1.0.0");
}

#[test]
fn files_that_do_not_load_are_named_in_full() {
    let mem = Mem::with(&[("a.md", &spec_md("A")), ("b.md", "!!broken"), ("c.md", "x")]);
    mem.0.borrow_mut().unreadable.push("c.md".to_string());
    mem.0.borrow_mut().files.insert("d.md".to_string(), vec![0xff]);
    let (entries, failures) = collect_source_entries(&Storage::new(mem.clone())).unwrap();
    assert_eq!(
        entries.iter().map(|e| e.relative_path.as_str()).collect::<Vec<_>>(),
        ["a.md", "b.md"]
    );
    assert_eq!(failures.iter().map(|f| f.path.as_str()).collect::<Vec<_>>(), ["c.md", "d.md"]);
    let engine = boot(World::new(), vec![(folder_mount("specs", "/s"), mem)]);
    let paths: Vec<&str> = engine.load_errors.iter().map(|e| e.0.as_str()).collect();
    assert_eq!(paths.len(), 3, "{paths:?}");
    for p in ["/s/b.md", "/s/c.md", "/s/d.md"] {
        assert!(paths.contains(&p), "{paths:?}");
    }
}

#[test]
fn a_lazy_archive_waits_and_a_missing_one_is_held_back() {
    let lazy = Mount { lifecycle: MountLifecycle::Lazy, ..archive_mount("ext", "/ext.mem") };
    let gone = archive_mount("gone", "/gone.mem");
    let absent = Mem::default();
    absent.0.borrow_mut().absent = true;
    let engine = boot(
        World::new(),
        vec![(lazy, Mem::with(&[("a.md", &spec_md("A"))])), (gone, absent)],
    );
    assert_eq!(engine.mounts.len() + engine.quarantined.len(), 2);
    assert!(engine.mounts.iter().any(|m| m.mount.mem == "ext"));
}

#[test]
fn a_link_warning_falls_where_its_target_turned_out_to_exist() {
    let mut world = World::new();
    world.relation_warnings = vec![
        ("specs".to_string(), "specs--a".to_string()),
        ("specs".to_string(), "specs--nowhere".to_string()),
    ];
    let engine = boot(
        world,
        vec![(folder_mount("specs", "/s"), Mem::with(&[("a.md", &spec_md("A"))]))],
    );
    let left: Vec<&str> = engine
        .load_warnings()
        .iter()
        .filter_map(|w| match w {
            WarningHint::SuspiciousNestedPrefix { resolved_id, .. } => {
                Some(resolved_id.0.as_str())
            }
            _ => None,
        })
        .collect();
    assert_eq!(left, ["specs--nowhere"]);
}

fn schema_entry(path: &str, loaded: Result<Arc<Schema>, String>, header: &str) -> SchemaEntry {
    SchemaEntry {
        path: path.to_string(),
        is_dir: true,
        has_manifest: true,
        loaded,
        header: header.to_string(),
    }
}

#[test]
fn a_broken_schema_package_is_named_and_holds_only_its_mems_back() {
    let entries = vec![
        schema_entry("/w/schemas/frist", Ok(schema("frist", "0.1.0", Vec::new())), ""),
        schema_entry(
            "/w/schemas/torn",
            Err("retired key".to_string()),
            "name: \"torn\"\nversion: 0.2.0\n",
        ),
        SchemaEntry {
            is_dir: false,
            ..schema_entry("/w/schemas/README", Err("no".to_string()), "")
        },
    ];
    let (loaded, failed) = load_workspace_schemas_with_failures(Some(&entries));
    assert_eq!(loaded.len(), 1);
    assert_eq!(failed.len(), 1);
    assert_eq!(failed[0].name.as_deref(), Some("torn"));
    assert_eq!(failed[0].version.as_deref(), Some("0.2.0"));
    assert_eq!(failed[0].error, "retired key");
    assert_eq!(load_workspace_schemas(Some(&entries)).unwrap().len(), 1);
    assert!(load_workspace_schemas(None).unwrap().is_empty());

    let mut torn = folder_mount("torn", "/t");
    torn.schema = Some(SchemaRef::new("torn", "0.2.0"));
    let mut fine = folder_mount("fine", "/f");
    fine.schema = Some(SchemaRef::new("frist", "0.1.0"));
    let engine = wired(World::new(), |host| {
        Engine::from_mounts_with_schemas_dir(
            host,
            stored(vec![(torn, Mem::default()), (fine, Mem::default())]),
            Some(&entries),
        )
    })
    .unwrap();
    assert_eq!(engine.mounts.len(), 1);
    assert_eq!(engine.mounts[0].mount.mem, "fine");
    assert_eq!(engine.quarantined[0].reason_code, "SCHEMA_LOAD_FAILED");
    assert!(engine.quarantined[0].reason_message.contains("/w/schemas/torn"));
    assert!(engine.quarantined[0].reason_message.contains("retired key"));
}

#[test]
fn extra_schemas_serve_a_pin() {
    let mut mount = folder_mount("m", "/m");
    mount.schema = Some(SchemaRef::new("extra", "3.0.0"));
    let engine = wired(World::new(), |host| {
        Engine::from_mounts_with_schemas_dir_and_extra(
            host,
            stored(vec![(mount, Mem::default())]),
            None,
            vec![schema("extra", "3.0.0", Vec::new())],
        )
    })
    .unwrap();
    assert_eq!(engine.schema_for("m").unwrap().name, "extra");
}

#[test]
fn a_pin_resolves_to_the_schema_of_its_name_and_version() {
    let catalogue = vec![default_schema(), schema("default", "1.3.0", Vec::new())];
    let found =
        resolve_builtin_schema_pin_pub(&SchemaRef::new("default", "1.3.0"), &catalogue).unwrap();
    assert_eq!(found.version, "1.3.0");
    assert!(resolve_builtin_schema_pin_pub(&SchemaRef::new("default", "9.0.0"), &catalogue)
        .is_none());
    let resolver = SchemaResolver::new(&catalogue);
    assert!(resolver.resolve(&SchemaRef::new("default", "1.0.0"), &catalogue).is_ok());
    let sources =
        resolver.resolve(&SchemaRef::new("default", "9.0.0"), &catalogue).unwrap_err();
    assert_eq!(sources[1].versions_found, vec!["1.0.0", "1.3.0"]);
}

#[test]
fn a_workspace_boots_with_what_could_be_opened() {
    let none = wired(World::new(), |host| {
        Engine::from_workspace_root(host, "/w", None, None, None)
    });
    assert!(matches!(none, Err(BootError::NotInitialised(r)) if r == "/w"));

    let engine = wired(World::new(), |host| {
        Engine::from_workspace_root(
            host,
            "/w",
            Some(vec![
                (
                    folder_mount("specs", "/w/specs"),
                    Ok(Storage::new(Mem::with(&[("a.md", &spec_md("A"))]))),
                ),
                (
                    folder_mount("dead", "/w/dead"),
                    Err(("BACKEND_UNAVAILABLE".to_string(), "no such repo".to_string())),
                ),
            ]),
            None,
            None,
        )
    })
    .unwrap();
    assert_eq!(engine.workspace_root.as_deref(), Some("/w"));
    assert_eq!(engine.mounts.len(), 1);
    assert!(engine
        .quarantined
        .iter()
        .any(|q| q.mount.mem == "dead" && q.reason_message.contains("no such repo")));
}

// -- archives --------------------------------------------------------------

fn hydrate(bytes: Vec<u8>) -> Result<TestEngine, FromArchiveBytesError> {
    wired(World::new(), |host| Engine::from_archive_bytes(host, bytes))
}

#[test]
fn export_to_bytes_produces_bytes_that_extract_cleanly() {
    let (engine, _mem) = folder_mem_with_entities(&["Alpha", "Beta"]);
    let bytes = engine.export_mem_to_bytes("specs").unwrap();
    assert!(!bytes.is_empty(), "export bytes must be non-empty");
    let entries = decode(&bytes).unwrap();
    assert_eq!(entries.files.len(), 2);
    let mut names: Vec<_> = entries.files.iter().map(|m| m.0.clone()).collect();
    names.sort();
    assert_eq!(names, vec!["alpha.md".to_string(), "beta.md".to_string()]);
}

#[test]
fn byte_hydration_refuses_unknown_archive_format() {
    let (engine, _mem) = folder_mem_with_entities(&["Alpha"]);
    let exported = engine.export_mem_to_bytes("specs").unwrap();

    let ok = hydrate(exported.clone()).expect("valid archive hydrates");
    assert!(ok.get_entity(&EntityId("specs--alpha".into())).is_some());

    let mut tampered = decode(&exported).unwrap();
    tampered.format = 99;
    let err = match hydrate(encode(&tampered)) {
        Ok(_) => panic!("format 99 must refuse, never hydrate"),
        Err(e) => e,
    };
    match err {
        FromArchiveBytesError::UnsupportedFormat { declared, accepted } => {
            assert_eq!(declared, 99);
            assert!(!accepted.is_empty());
        }
        other => panic!("expected UnsupportedFormat, got {other:?}"),
    }
}

#[test]
fn in_memory_mem_export_round_trips_anchors() {
    let anchors = br#"{"version":1,"entities":{"sketch--idea":[{"artifact":"notes/idea.md","grain":"file","class":"informed-by"}]}}"#;
    let backend = Mem::with(&[("idea.md", &spec_md("Idea"))])
        .configured(config(Some("0.1.0"), Some(("default", "1.0.0"))));
    backend.0.borrow_mut().anchors = Some(anchors.to_vec());
    let mount = Mount {
        mem: "sketch".to_string(),
        schema: Some(SchemaRef::new("default", "1.0.0")),
        storage: MountStorage::InMemory,
        capability: MountCapability::Write,
        lifecycle: MountLifecycle::Eager,
        cross_linkable: false,
        migration_target: None,
    };
    let engine = boot(World::new(), vec![(mount, backend)]);

    let bytes = engine.export_mem_to_bytes("sketch").unwrap();
    let entries = decode(&bytes).unwrap();
    assert!(
        entries.anchors.is_some(),
        "in-memory session export must carry the anchors sidecar"
    );

    let reimported = hydrate(bytes).unwrap();
    assert!(reimported.get_entity(&EntityId::new("sketch", "idea")).is_some());
    let carried = reimported.mounts[0].backend.read_anchors_sidecar().unwrap().unwrap();
    let text = String::from_utf8(carried).unwrap();
    assert_eq!(text.matches("\"artifact\"").count(), 1);
    assert!(text.contains("notes/idea.md"));
    assert!(text.contains("informed-by"));
}

#[test]
fn export_empty_mem_produces_valid_hydratable_archive() {
    let (engine, _mem) = folder_mem_with_entities(&[]);
    let bytes = engine.export_mem_to_bytes("specs").unwrap();
    let entries = decode(&bytes).unwrap();
    assert!(entries.files.is_empty());
    let hydrated = hydrate(bytes).unwrap();
    let names: Vec<&str> = hydrated.mounts.iter().map(|m| m.mount.mem.as_str()).collect();
    assert_eq!(names, vec!["specs"]);
    assert!(hydrated.store().entities.is_empty());
}

#[test]
fn export_unknown_mem_returns_unknown_mem_error() {
    let (engine, _mem) = folder_mem_with_entities(&[]);
    let err = engine.export_mem_to_bytes("missing").unwrap_err();
    match err {
        EngineError::UnknownMem(v) => assert_eq!(v, "missing"),
        other => panic!("expected UnknownMem, got {other:?}"),
    }
}

#[test]
fn export_archive_backend_returns_sealed() {
    let (engine, _mem) = folder_mem_with_entities(&["Alpha"]);
    let bytes = engine.export_mem_to_bytes("specs").unwrap();
    let archive_engine = boot(
        World::new(),
        vec![(
            Mount { lifecycle: MountLifecycle::Lazy, ..archive_mount("ext", "/ext.mem") },
            Mem::from_bytes(bytes),
        )],
    );
    let err = archive_engine.export_mem_to_bytes("ext").unwrap_err();
    assert!(matches!(err, EngineError::Backend(BackendError::Sealed)));
}

#[test]
fn from_archive_bytes_refuses_non_zip_with_validation_error() {
    match hydrate(b"not a zip at all".to_vec()) {
        Err(FromArchiveBytesError::Validation(e)) => assert_eq!(e.code, "ZIP"),
        Err(other) => panic!("expected Validation, got {other:?}"),
        Ok(_) => panic!("expected Validation"),
    }
}

#[test]
fn from_archive_bytes_refuses_oversized_with_size_cap() {
    let (engine, _mem) = folder_mem_with_entities(&["Alpha"]);
    let bytes = engine.export_mem_to_bytes("specs").unwrap();

    let mut limits = ValidatorLimits::default();
    limits.caps.push(("max_compressed_archive".to_string(), 1));
    let refused = wired(World::new(), |host| {
        Engine::from_archive_bytes_with_limits(host, bytes, &limits)
    });
    match refused {
        Err(FromArchiveBytesError::Validation(e)) => assert_eq!(e.code, "SIZE_CAP_EXCEEDED"),
        Err(other) => panic!("expected Validation, got {other:?}"),
        Ok(_) => panic!("expected Validation"),
    }
}

/// A hydrated engine serves what was sealed and takes no write.
#[test]
fn a_hydrated_engine_reads_and_takes_nothing() {
    let (engine, _mem) = folder_mem_with_entities(&["Hello", "World"]);
    let bytes = engine.export_mem_to_bytes("specs").unwrap();
    let mut hydrated = hydrate(bytes).unwrap();
    for (s, t) in [("hello", "Hello"), ("world", "World")] {
        let e = hydrated.get_entity(&EntityId::new("specs", s)).expect("round-trips");
        assert_eq!(e.title, t);
    }
    assert!(hydrated
        .mounts
        .iter()
        .all(|m| m.mount.capability == MountCapability::ReadOnly));
    let err = hydrated
        .record_check(
            "specs",
            "specs--hello",
            Verdict::Passed,
            CheckKind::Verification,
            None,
            Actor::Cli,
            None,
        )
        .unwrap_err();
    assert!(matches!(err, EngineError::ReadOnlyMount(v) if v == "specs"));
}

/// What an entity says, in a form that compares.
fn said(e: &Entity) -> (String, String, String, Vec<String>, Vec<(String, String)>, Vec<String>) {
    (
        e.title.clone(),
        e.entity_type.clone(),
        e.content_hash.clone(),
        e.metadata.iter().map(|m| format!("{m:?}")).collect(),
        e.sections.clone(),
        e.relationships.iter().map(|r| format!("{} {}", r.rel_type, r.target.0)).collect(),
    )
}

/// A mem comes back from its archive with the same entities, from a folder
/// and from memory.
#[test]
fn an_exported_mem_comes_back_as_it_was() {
    let text = "---\ntype: spec\nlevel: M0\n---\n# Left\n\n## Identity\n\nleft.\n\n## Purpose\n\n\
p.\n\n## Relationships\n\n- **USES**: [[specs--right]]\n";
    let files = [("left.md", text), ("right.md", &spec_md("Right"))];
    let folder = folder_mount("specs", "/specs");
    let memory = Mount { storage: MountStorage::InMemory, ..folder_mount("specs", "") };
    for mount in [folder, memory] {
        let mem =
            Mem::with(&files).configured(config(Some("1.0.0"), Some(("default", "1.0.0"))));
        let world = World::new();
        world.dirs.borrow_mut().insert("/specs".to_string(), mem.clone());
        let engine = boot(world, vec![(mount, mem)]);
        let hydrated = hydrate(engine.export_mem_to_bytes("specs").unwrap()).unwrap();
        assert_eq!(hydrated.mounts.len(), 1);
        assert_eq!(hydrated.mounts[0].mount.mem, "specs");
        let ids = |e: &TestEngine| {
            let mut ids: Vec<String> =
                e.store().entities.iter().map(|x| x.id.0.clone()).collect();
            ids.sort();
            ids
        };
        assert_eq!(ids(&hydrated), ids(&engine));
        for id in ids(&engine) {
            let (a, b) = (EntityId(id.clone()), EntityId(id));
            assert_eq!(
                said(hydrated.get_entity(&a).unwrap()),
                said(engine.get_entity(&b).unwrap())
            );
        }
    }
}

#[test]
fn an_archive_without_a_config_is_refused() {
    let bytes = encode(&Archive {
        format: 1,
        schema: ("default".to_string(), "1.0.0".to_string()),
        ..Archive::default()
    });
    assert!(matches!(hydrate(bytes), Err(FromArchiveBytesError::InvalidConfig(_))));
}

fn schema_file(path: &str, content: &str) -> SchemaFile {
    SchemaFile { archive_path: path.to_string(), content: content.to_string() }
}

#[test]
fn an_embedded_schema_package_is_read_by_its_paths() {
    let world = surrounded(World::new());
    assert!(load_embedded_schemas(&world, &Vec::new()).unwrap().is_empty());

    let files = vec![
        schema_file(".memstead/schema/types/plan.yaml", "p"),
        schema_file(".memstead/schema/schema.yaml", "own@0.1.0"),
        schema_file(".memstead/schema/types/notes.txt", "x"),
        schema_file(".memstead/schema/types/.yaml", "e"),
    ];
    let loaded = load_embedded_schemas(&world, &files).unwrap();
    assert_eq!(loaded.len(), 1);
    assert_eq!(loaded[0].name, "own");
    let names: Vec<&str> = loaded[0].types.iter().map(|t| t.name.as_str()).collect();
    assert_eq!(names, ["plan", ""]);
    assert_eq!(loaded[0].types[0].sections[0].key, "p");
    assert_eq!(loaded[0].types[0].sections[0].heading, "Legacy");

    let mut marked = files.clone();
    marked.push(schema_file(".memstead/schema/format-2", ""));
    let loaded = load_embedded_schemas(&world, &marked).unwrap();
    assert_eq!(loaded[0].types[0].sections[0].heading, "RequiredOptIn");

    let missing = load_embedded_schemas(&world, &files[..1].to_vec()).unwrap_err();
    match missing {
        FromArchiveBytesError::EmbeddedSchemaInvalid(m) => {
            assert!(m.contains("`.memstead/schema/schema.yaml` missing"));
        }
        other => panic!("expected EmbeddedSchemaInvalid, got {other:?}"),
    }
    let broken = vec![schema_file(".memstead/schema/schema.yaml", "no manifest")];
    assert!(load_embedded_schemas(&world, &broken).is_err());

    let bytes = encode(&Archive {
        name: "own".to_string(),
        format: 1,
        schema: ("own".to_string(), "0.1.0".to_string()),
        files: vec![("a.md".to_string(), b"# A\n".to_vec())],
        schema_files: vec![(
            ".memstead/schema/schema.yaml".to_string(),
            b"own@0.1.0".to_vec(),
        )],
        ..Archive::default()
    });
    let engine = hydrate(bytes).unwrap();
    assert_eq!(engine.schema_for("own").unwrap().name, "own");
}

#[test]
fn an_export_needs_a_config_with_a_version() {
    let engine = boot(
        World::new(),
        vec![
            (folder_mount("bare", "/b"), Mem::default()),
            (
                folder_mount("unversioned", "/u"),
                Mem::default().configured(config(None, Some(("default", "1.0.0")))),
            ),
        ],
    );
    let err = engine.export_mem_to_bytes("bare").unwrap_err();
    assert_eq!(err.code(), "INVALID_INPUT");
    assert!(err.to_text().contains("no loaded MemConfig"));
    match engine.export_mem_to_bytes("unversioned").unwrap_err() {
        EngineError::MemConfigIncomplete { mem, missing_fields } => {
            assert_eq!(mem, "unversioned");
            assert_eq!(missing_fields, vec!["version"]);
        }
        other => panic!("expected MemConfigIncomplete, got {other:?}"),
    }
}

#[test]
fn an_export_reports_what_it_left_out() {
    let versioned = || config(Some("1.0.0"), Some(("default", "1.0.0")));
    let mem = Mem::with(&[("a.md", &spec_md("A")), ("b.md", &spec_md("B"))])
        .configured(versioned());
    mem.0.borrow_mut().log.push(Provenance {
        ts: 1,
        kind: "create".to_string(),
        entity: Some("m--a".to_string()),
        actor: Actor::Cli,
        client: None,
        note: Some("why".to_string()),
        role: None,
        identity: None,
    });
    let memory = Mount { storage: MountStorage::InMemory, ..folder_mount("m", "") };
    let engine = boot(
        World::new(),
        vec![
            (memory, mem.clone()),
            (
                git_mount("g"),
                Mem::with(&[("x.md", &spec_md("X"))]).configured(versioned()),
            ),
        ],
    );
    let out = engine.export_mem_bytes_report("m").unwrap();
    assert_eq!(out.entities, 2);
    assert_eq!(out.redactions, vec![("identity".to_string(), 2)]);
    assert_eq!(decode(&out.bytes).unwrap().provenance, Some(vec![1]));

    let out = engine.export_mem_bytes_report("g").unwrap();
    assert_eq!(out.redactions, vec![("identity".to_string(), 1)]);
    assert_eq!(decode(&out.bytes).unwrap().files[0].0, "g.md");

    mem.0.borrow_mut().anchors_fail = true;
    assert!(matches!(
        engine.export_mem_to_bytes("m"),
        Err(EngineError::Backend(BackendError::Io(_)))
    ));
    mem.0.borrow_mut().unreadable.push("b.md".to_string());
    assert!(matches!(
        engine.export_mem_to_bytes("m"),
        Err(EngineError::Backend(BackendError::Io(m))) if m == "permission denied"
    ));
}

#[test]
fn a_failed_sealing_is_named() {
    let versioned = config(Some("1.0.0"), Some(("default", "1.0.0")));
    let world = World { git_export: false, ..World::new() };
    let engine = boot(
        world,
        vec![
            (folder_mount("f", "/nowhere"), Mem::default().configured(versioned.clone())),
            (git_mount("g"), Mem::default().configured(versioned)),
        ],
    );
    match engine.export_mem_to_bytes("f").unwrap_err() {
        EngineError::Backend(BackendError::Other(m)) => {
            assert_eq!(m, "export_mem_to_bytes: no directory /nowhere");
        }
        other => panic!("expected Backend, got {other:?}"),
    }
    match engine.export_mem_to_bytes("g").unwrap_err() {
        EngineError::Backend(BackendError::Other(m)) => {
            assert_eq!(m, "git-branch export hook not installed (git-branch ops not wired)");
        }
        other => panic!("expected Backend, got {other:?}"),
    }
}

// -- checks ----------------------------------------------------------------

fn ledgered(titles: &[&str]) -> TestEngine {
    let (mut engine, _mem) = folder_mem_with_entities(titles);
    engine.workspace_root = Some("/w".to_string());
    engine
}

#[test]
fn conformance_refuses_without_a_schema_pin() {
    let mut mount = folder_mount("m", "/m");
    mount.schema = None;
    let mut engine = boot(
        World::new(),
        vec![(
            mount,
            Mem::with(&[(
                "anything.md",
                "---\nid: anything\ntitle: Anything\ntype: note\n---\n\nBody.\n",
            )]),
        )],
    );
    let err = engine
        .record_check(
            "m",
            "m--anything",
            Verdict::Passed,
            CheckKind::Conformance,
            None,
            Actor::Cli,
            None,
        )
        .unwrap_err();
    assert_eq!(err.code(), "MEM_QUARANTINED");
}

#[test]
fn check_refuses_read_only_mounts_typed() {
    let mut mount = folder_mount("ro", "/ro");
    mount.capability = MountCapability::ReadOnly;
    let mut engine = boot(World::new(), vec![(mount, Mem::default())]);
    let err = engine
        .record_check(
            "ro",
            "ro--anything",
            Verdict::Passed,
            CheckKind::Verification,
            None,
            Actor::Cli,
            None,
        )
        .unwrap_err();
    assert_eq!(err.code(), "READ_ONLY_MOUNT");
}

#[test]
fn a_recorded_check_says_who_when_and_of_what() {
    let mut engine = ledgered(&["Alpha"]);
    engine.current_identity = Some("checker-c".to_string());
    engine.current_role = Some("checker".to_string());
    let client = ClientId { name: "cli".to_string(), version: "1.4.0".to_string() };
    let hash = engine.get_entity(&EntityId::new("specs", "alpha")).unwrap().content_hash.clone();
    let rec = engine
        .record_check(
            "specs",
            "specs--alpha",
            Verdict::Passed,
            CheckKind::Verification,
            Some("  walked  "),
            Actor::Cli,
            Some(&client),
        )
        .unwrap();
    assert_eq!(rec.ts, 1_766_000_000);
    assert_eq!(rec.entity, "specs--alpha");
    assert_eq!(rec.verdict, "ok");
    assert_eq!(rec.method.as_deref(), Some("walked"));
    assert_eq!(rec.entity_hash, hash);
    assert_eq!(rec.client.as_deref(), Some("cli@1.4.0"));
    assert_eq!(rec.role, "checker");
    assert_eq!(rec.identity.as_deref(), Some("checker-c"));
    assert_eq!(rec.kind, None);
    assert_eq!(rec.schema_ref, None);

    engine.current_role = None;
    let rec = engine
        .record_check(
            "specs",
            "specs--alpha",
            Verdict::Failed,
            CheckKind::Conformance,
            Some("   "),
            Actor::Agent,
            None,
        )
        .unwrap();
    assert_eq!(rec.verdict, "failed");
    assert_eq!(rec.method, None);
    assert_eq!(rec.kind.as_deref(), Some("conformance"));
    assert_eq!(rec.schema_ref.as_deref(), Some("default@1.0.0"));
    assert_eq!(rec.role, "unspecified");
    assert_eq!(engine.host.ledger.borrow().len(), 2);
}

#[test]
fn a_check_state_follows_the_newest_record_and_the_content() {
    let mut engine = ledgered(&["Alpha"]);
    let (state, latest) = engine.entity_check_state("specs", "specs--alpha").unwrap();
    assert_eq!(state, CheckState::NeverChecked);
    assert!(latest.is_none());
    for verdict in [Verdict::Passed, Verdict::Failed] {
        engine
            .record_check(
                "specs",
                "specs--alpha",
                verdict,
                CheckKind::Verification,
                None,
                Actor::Cli,
                None,
            )
            .unwrap();
    }
    assert_eq!(
        engine.entity_check_state("specs", "specs--alpha").unwrap().0,
        CheckState::CheckFailed
    );
    // Another kind has its own newest record.
    assert_eq!(
        engine.entity_conformance_state("specs", "specs--alpha").unwrap().0,
        CheckState::NeverChecked
    );
    engine
        .record_check(
            "specs",
            "specs--alpha",
            Verdict::Passed,
            CheckKind::Conformance,
            None,
            Actor::Cli,
            None,
        )
        .unwrap();
    assert_eq!(
        engine.entity_conformance_state("specs", "specs--alpha").unwrap().0,
        CheckState::CheckedOk
    );
    engine.mounts[0].mount.schema = Some(SchemaRef::new("default", "1.1.0"));
    assert_eq!(
        engine.entity_conformance_state("specs", "specs--alpha").unwrap().0,
        CheckState::CheckStale
    );
    engine.store.entities[0].content_hash = "another".to_string();
    assert_eq!(
        engine.entity_check_state("specs", "specs--alpha").unwrap().0,
        CheckState::CheckStale
    );
    assert_eq!(
        engine.entity_check_state("specs", "specs--no").unwrap_err().code(),
        "ENTITY_NOT_FOUND"
    );
    assert_eq!(
        engine.entity_check_state("nope", "nope--x").unwrap_err().code(),
        "UNKNOWN_MEM"
    );
    assert_eq!(
        engine.entity_conformance_state("nope", "nope--x").unwrap_err().code(),
        "UNKNOWN_MEM"
    );
}

#[test]
fn foreign_checks_are_listed_by_kind_with_the_newest_of_each() {
    let mut engine = ledgered(&["Alpha", "Beta"]);
    for (id, kind, method) in [
        ("specs--alpha", "x-projection", "one"),
        ("specs--alpha", "x-audit", "two"),
        ("specs--beta", "x-audit", "three"),
        ("specs--alpha", "x-projection", "four"),
    ] {
        engine
            .record_check_with(
                "specs",
                id,
                Verdict::Passed,
                &RecordKind::from_wire(kind).unwrap(),
                Some(method),
                None,
                Actor::Cli,
                None,
            )
            .unwrap();
    }
    let found = engine.latest_foreign_checks("specs", "specs--alpha");
    let listed: Vec<(&str, &str)> = found
        .iter()
        .map(|r| (r.kind.as_deref().unwrap(), r.method.as_deref().unwrap()))
        .collect();
    assert_eq!(listed, [("x-audit", "two"), ("x-projection", "four")]);
    assert!(engine.latest_check_record("specs", "specs--alpha", "verification").is_none());
    assert_eq!(
        engine
            .latest_check_record("specs", "specs--alpha", "x-projection")
            .and_then(|r| r.method),
        Some("four".to_string())
    );
}

#[test]
fn a_finding_names_a_condition_or_keeps_out_of_its_namespace() {
    let mut engine = ledgered(&["Alpha"]);
    let mut record = |verdict: Verdict, method: Option<&str>, code: &str, message: &str| {
        engine.record_check_with(
            "specs",
            "specs--alpha",
            verdict,
            &RecordKind::Engine(CheckKind::Verification),
            method,
            Some(CheckFinding { code: code.to_string(), message: message.to_string() }),
            Actor::Cli,
            None,
        )
    };
    let reason = |r: Result<CheckRecord, EngineError>| match r {
        Err(EngineError::InvalidCheckFinding { reason }) => reason,
        other => panic!("expected InvalidCheckFinding, got {other:?}"),
    };
    assert_eq!(
        reason(record(Verdict::Failed, Some("m"), "ORPHANS", "")),
        "finding.message is empty"
    );
    let said = reason(record(Verdict::Failed, Some("m"), "NO_SUCH", "x"));
    assert!(said.contains("`NO_SUCH`") && said.contains("STALE_ENTITIES, ORPHANS"), "{said}");
    let said = reason(record(Verdict::Failed, Some("  "), "ORPHANS", "x"));
    assert!(said.contains("names its owner"), "{said}");
    let said = reason(record(Verdict::Failed, None, "ORPHANS", "x"));
    assert!(said.contains("none was given"), "{said}");
    let rec = record(Verdict::Failed, Some("owner: a"), "ORPHANS", "x").unwrap();
    assert_eq!(rec.finding.unwrap().code, "ORPHANS");
    assert!(record(Verdict::Passed, None, "ORPHANS", "x").is_ok());
    assert!(record(Verdict::Failed, None, "hidden-premise", "x").is_ok());
}

#[test]
fn a_check_that_is_not_kept_is_refused() {
    let (mut rootless, _mem) = folder_mem_with_entities(&["Alpha"]);
    let check = |engine: &mut TestEngine, id: &str| {
        engine.record_check(
            "specs",
            id,
            Verdict::Passed,
            CheckKind::Verification,
            None,
            Actor::Cli,
            None,
        )
    };
    match check(&mut rootless, "specs--alpha") {
        Err(EngineError::CheckNotRecorded { reason }) => {
            assert_eq!(reason, "engine has no workspace root — no durable check store");
        }
        other => panic!("expected CheckNotRecorded, got {other:?}"),
    }
    let mut engine = ledgered(&["Alpha"]);
    assert_eq!(check(&mut engine, "specs--no").unwrap_err().code(), "ENTITY_NOT_FOUND");
    *engine.host.ledger_error.borrow_mut() = Some("disk full".to_string());
    match check(&mut engine, "specs--alpha") {
        Err(EngineError::CheckNotRecorded { reason }) => {
            assert_eq!(reason, "ledger append failed: disk full");
        }
        other => panic!("expected CheckNotRecorded, got {other:?}"),
    }
    assert_eq!(engine.unknown_mem_error("nope").code(), "UNKNOWN_MEM");
}

#[test]
fn the_ledger_goes_along_with_a_rename() {
    let mut engine = ledgered(&["Alpha"]);
    let old = EntityId::new("specs", "alpha");
    let new = EntityId::new("specs", "alpha-two");
    engine
        .record_check(
            "specs",
            "specs--alpha",
            Verdict::Passed,
            CheckKind::Verification,
            None,
            Actor::Cli,
            None,
        )
        .unwrap();
    assert_eq!(engine.carry_checks_across_rename(&old, &new).unwrap(), 1);
    let carried = engine.latest_check_record("specs", "specs--alpha-two", "verification").unwrap();
    assert_eq!(carried.renamed_from.as_deref(), Some("specs--alpha"));
    *engine.host.ledger_error.borrow_mut() = Some("disk full".to_string());
    match engine.carry_checks_across_rename(&old, &new) {
        Err(EngineError::CheckNotRecorded { reason }) => assert_eq!(
            reason,
            "ledger carry across rename specs--alpha → specs--alpha-two failed: disk full"
        ),
        other => panic!("expected CheckNotRecorded, got {other:?}"),
    }
    engine.workspace_root = None;
    assert_eq!(engine.carry_checks_across_rename(&old, &new).unwrap(), 0);
}

#[test]
fn a_gate_that_a_record_opened_carries_that_record() {
    let gate = |kind: &str| ConstraintDef::TransitionRequiresSelfCheck {
        field: "status".to_string(),
        to_value: "complete".to_string(),
        check_kind: kind.to_string(),
    };
    let mut plan = typed("plan", &[("body", "Body")]);
    plan.constraints = vec![
        gate("x-projection"),
        ConstraintDef::Other,
        gate("x-projection"),
        gate("verification"),
    ];
    let mut engine = ledgered(&["Alpha"]);
    *engine.host.confirms.borrow_mut() = vec!["x-projection".to_string()];
    let mut next = engine.store.entities[0].clone();
    assert!(engine.licensed_self_check_kinds(&next, &plan).is_empty());
    next.metadata
        .push(("status".to_string(), MetadataValue::String("complete".to_string())));
    let kinds = engine.licensed_self_check_kinds(&next, &plan);
    assert_eq!(kinds, vec!["x-projection"]);

    engine
        .record_check_with(
            "specs",
            "specs--alpha",
            Verdict::Passed,
            &RecordKind::Foreign("x-projection".to_string()),
            None,
            None,
            Actor::Cli,
            None,
        )
        .unwrap();
    let pre = engine.store.entities[0].content_hash.clone();
    let id = EntityId::new("specs", "alpha");
    assert_eq!(engine.carry_checks_across_transition(&id, &kinds, &pre, &pre).unwrap(), 0);
    assert_eq!(
        engine.carry_checks_across_transition(&id, &Vec::new(), &pre, "post").unwrap(),
        0
    );
    assert_eq!(engine.carry_checks_across_transition(&id, &kinds, &pre, "post").unwrap(), 1);
    assert_eq!(
        engine.latest_foreign_checks("specs", "specs--alpha")[0].entity_hash,
        "post"
    );
    *engine.host.ledger_error.borrow_mut() = Some("disk full".to_string());
    match engine.carry_checks_across_transition(&id, &kinds, "post", "later") {
        Err(EngineError::CheckNotRecorded { reason }) => assert_eq!(
            reason,
            "ledger carry of the `x-projection` record across the transition of specs--alpha failed: disk full"
        ),
        other => panic!("expected CheckNotRecorded, got {other:?}"),
    }
}

/// An archive is read by the records that it carries, a writable mem by the
/// ledger; neither reads the other's.
#[test]
fn sealed_checks_and_the_ledger_do_not_mix() {
    let record = |engine: &TestEngine, kind: Option<&str>, identity: &str| CheckRecord {
        ts: 1,
        entity: "specs--alpha".to_string(),
        verdict: "ok".to_string(),
        method: None,
        entity_hash: engine.store.entities[0].content_hash.clone(),
        actor: "cli".to_string(),
        client: None,
        role: "checker".to_string(),
        identity: Some(identity.to_string()),
        kind: kind.map(String::from),
        schema_ref: None,
        finding: None,
        renamed_from: None,
        carried_from: None,
    };
    let files = [("alpha.md", spec_md("Alpha"))];
    let files: Vec<(&str, &str)> = files.iter().map(|(a, b)| (*a, b.as_str())).collect();

    let mut archive =
        boot(World::new(), vec![(archive_mount("specs", "/s.mem"), Mem::with(&files))]);
    archive.workspace_root = Some("/w".to_string());
    let beside = record(&archive, None, "checker-beside");
    archive.host.ledger.borrow_mut().push(beside);
    let (state, latest) = archive.entity_check_state("specs", "specs--alpha").unwrap();
    assert_eq!(state, CheckState::NeverChecked);
    assert!(latest.is_none());

    let mut sealed = record(&archive, None, "checker-sealed");
    sealed.entity = "elsewhere".to_string();
    let audit = record(&archive, Some("x-audit"), "attacker-m");
    archive.mounts[0].sealed_checks = Some(vec![
        SealedCheck {
            path: "alpha".to_string(),
            kind: "verification".to_string(),
            record: sealed,
        },
        SealedCheck { path: "alpha".to_string(), kind: "x-audit".to_string(), record: audit },
    ]);
    let (state, latest) = archive.entity_check_state("specs", "specs--alpha").unwrap();
    assert_eq!(state, CheckState::CheckedOk);
    let latest = latest.unwrap();
    assert_eq!(latest.entity, "specs--alpha");
    assert_eq!(latest.identity.as_deref(), Some("checker-sealed"));
    let foreign = archive.latest_foreign_checks("specs", "specs--alpha");
    assert_eq!(foreign.len(), 1);
    assert_eq!(foreign[0].kind.as_deref(), Some("x-audit"));
    archive.store.entities[0].content_hash = "edited".to_string();
    assert_eq!(
        archive.entity_check_state("specs", "specs--alpha").unwrap().0,
        CheckState::CheckStale
    );

    let (mut writable, _mem) = folder_mem_with_entities(&["Alpha"]);
    let planted = record(&writable, None, "checker-planted");
    writable.mounts[0].sealed_checks = Some(vec![SealedCheck {
        path: "alpha".to_string(),
        kind: "verification".to_string(),
        record: planted,
    }]);
    let (state, rec) = writable.entity_check_state("specs", "specs--alpha").unwrap();
    assert_eq!(state, CheckState::NeverChecked);
    assert!(rec.is_none());
}

// -- merge conflicts -------------------------------------------------------

const CONFLICTED: &str = "---\ntype: spec\n---\n# Torn\n\n## Identity\n\n\
<<<<<<< HEAD\nours line\n||||||| base\nbase line\n=======\ntheirs line\n\
>>>>>>> feature\n\n## Purpose\n\nshared tail\n";

const CLEAN: &str = "---\ntype: spec\n---\n# Fine\n\n## Identity\n\nis\n\n## Purpose\n\nok\n";

fn folder_workspace(files: &[(&str, &str)]) -> (Mem, TestEngine) {
    let mem = Mem::with(files);
    let world = World::new();
    world.dirs.borrow_mut().insert("/w/specs".to_string(), mem.clone());
    let engine = wired(world, |host| {
        Engine::from_workspace_root(
            host,
            "/w",
            Some(vec![(folder_mount("specs", "/w/specs"), Ok(Storage::new(mem.clone())))]),
            None,
            None,
        )
    })
    .expect("workspace boots");
    (mem, engine)
}

#[test]
fn conflicted_folder_entity_lists_resolves_and_reads_clean() {
    let (mem, mut engine) = folder_workspace(&[("torn.md", CONFLICTED), ("fine.md", CLEAN)]);

    let errors = &engine.load_errors;
    assert_eq!(errors.len(), 1, "exactly the conflicted file refuses");
    assert!(
        errors[0].1.contains("memstead conflicts resolve"),
        "load error names the resolve operation: {}",
        errors[0].1
    );

    let listed = engine.list_merge_conflicts(None).unwrap();
    assert_eq!(listed.len(), 1);
    assert_eq!(listed[0].id.0, "specs--torn");
    assert_eq!(listed[0].file_path, "torn.md");

    let id = EntityId("specs--torn".into());
    let outcome = engine
        .resolve_merge_conflict(
            &id,
            ConflictSide::Theirs,
            Actor::Cli,
            None,
            Some("keeping upstream wording"),
        )
        .expect("resolution succeeds");
    assert_eq!(outcome.side, "theirs");

    assert!(engine.load_errors.is_empty(), "{:?}", engine.load_errors);
    let entity = engine.get_entity(&id).expect("resolved entity is loaded");
    assert!(!entity.stub);
    assert!(
        entity.section("identity").unwrap().contains("theirs line"),
        "the kept side's content is live: {:?}",
        entity.section("identity")
    );
    let on_disk = mem.text("torn.md");
    assert!(!on_disk.contains("<<<<<<<") && !on_disk.contains("ours line"));

    {
        let stored = mem.0.borrow();
        assert!(
            stored.log.iter().any(|p| p.entity.as_deref() == Some("specs--torn")
                && p.note.as_deref() == Some("keeping upstream wording")),
            "ledger records the resolution with its note: {:?}",
            stored.log
        );
        assert_eq!(stored.commits.len(), 1);
    }

    assert!(engine.list_merge_conflicts(Some("specs")).unwrap().is_empty());

    let err = engine
        .resolve_merge_conflict(&id, ConflictSide::Ours, Actor::Cli, None, None)
        .unwrap_err();
    assert_eq!(err.code(), "NOT_CONFLICTED");
    assert_eq!(mem.0.borrow().commits.len(), 1, "a second resolution commits nothing");
    let err = engine
        .resolve_merge_conflict(
            &EntityId("specs--absent".into()),
            ConflictSide::Ours,
            Actor::Cli,
            None,
            None,
        )
        .unwrap_err();
    assert_eq!(err.code(), "ENTITY_NOT_FOUND");
}

#[test]
fn fenced_marker_example_is_not_a_conflict() {
    let doc = "---\ntype: spec\n---\n# Git Lore\n\n## Identity\n\n\
```text\n<<<<<<< HEAD\nexample\n=======\nexample\n>>>>>>> branch\n```\n\n\
## Purpose\n\nteaching\n";
    let (_mem, engine) = folder_workspace(&[("lore.md", doc)]);
    assert!(engine.load_errors.is_empty(), "{:?}", engine.load_errors);
    assert!(engine.list_merge_conflicts(None).unwrap().is_empty());
    assert!(engine.get_entity(&EntityId("specs--lore".into())).is_some());
}

#[test]
fn invalid_chosen_side_refuses_and_writes_nothing() {
    let nested = "---\ntype: spec\n---\n# Nested\n\n## Identity\n\n\
<<<<<<< HEAD\nours\n=======\n<<<<<<< inner\ntheirs-a\n=======\ntheirs-b\n\
>>>>>>> inner\n>>>>>>> outer\n\n## Purpose\n\np\n";
    let (mem, mut engine) = folder_workspace(&[("nested.md", nested)]);

    let id = EntityId("specs--nested".into());
    let err = engine
        .resolve_merge_conflict(&id, ConflictSide::Theirs, Actor::Cli, None, None)
        .unwrap_err();
    assert_eq!(err.code(), "INVALID_INPUT", "got: {}", err.to_text());
    assert!(
        err.to_text().contains("still carries conflict markers"),
        "refusal names the residue: {}",
        err.to_text()
    );
    assert!(mem.text("nested.md").contains("<<<<<<< HEAD"), "file untouched on refusal");
    assert!(mem.0.borrow().commits.is_empty(), "nothing is committed on refusal");
    assert!(mem.0.borrow().log.is_empty(), "nothing is logged on refusal");

    engine
        .resolve_merge_conflict(&id, ConflictSide::Ours, Actor::Cli, None, None)
        .expect("clean side resolves");
    assert!(engine.load_errors.is_empty());
}

#[test]
fn conflicts_are_resolved_in_writable_folders_alone() {
    let torn = Mem::with(&[("torn.md", CONFLICTED)]);
    let mut engine = boot(World::new(), vec![(git_mount("g"), torn)]);
    let err = engine.list_merge_conflicts(Some("g")).unwrap_err();
    assert_eq!(err.code(), "CONFLICT_RESOLVE_UNSUPPORTED_BACKEND");
    assert!(engine.list_merge_conflicts(None).unwrap().is_empty());
    assert_eq!(engine.list_merge_conflicts(Some("nope")).unwrap_err().code(), "UNKNOWN_MEM");
    let err = engine
        .resolve_merge_conflict(
            &EntityId::new("g", "torn"),
            ConflictSide::Ours,
            Actor::Cli,
            None,
            None,
        )
        .unwrap_err();
    assert_eq!(err.code(), "CONFLICT_RESOLVE_UNSUPPORTED_BACKEND");

    let (mem, mut engine) =
        folder_workspace(&[("torn.md", &CONFLICTED.replace("ours line", "!!invalid"))]);
    let err = engine
        .resolve_merge_conflict(
            &EntityId::new("specs", "torn"),
            ConflictSide::Ours,
            Actor::Cli,
            None,
            None,
        )
        .unwrap_err();
    assert_eq!(err.code(), "INVALID_SECTION_CONTENT");
    assert!(mem.text("torn.md").contains("<<<<<<< HEAD"));
    assert!(mem.0.borrow().commits.is_empty() && mem.0.borrow().log.is_empty());

    let strange = CONFLICTED.replace("## Purpose", "## Elsewhere");
    let (mem, mut engine) = folder_workspace(&[("torn.md", &strange)]);
    let err = engine
        .resolve_merge_conflict(
            &EntityId::new("specs", "torn"),
            ConflictSide::Theirs,
            Actor::Cli,
            None,
            None,
        )
        .unwrap_err();
    assert_eq!(err.code(), "UNKNOWN_SECTION");
    assert!(mem.0.borrow().commits.is_empty());

    // A section that the type asks for may be missing.
    let partial = CONFLICTED.replace("## Purpose\n\nshared tail\n", "");
    let (_mem, mut engine) = folder_workspace(&[("torn.md", &partial)]);
    assert!(engine
        .resolve_merge_conflict(
            &EntityId::new("specs", "torn"),
            ConflictSide::Ours,
            Actor::Cli,
            None,
            None,
        )
        .is_ok());
    let again = engine
        .resolve_merge_conflict(
            &EntityId::new("specs", "torn"),
            ConflictSide::Theirs,
            Actor::Cli,
            None,
            None,
        )
        .unwrap_err();
    assert!(matches!(again, EngineError::NotConflicted { .. }));
    assert!(engine.list_merge_conflicts(None).unwrap().is_empty());
}

// -- the due brief ---------------------------------------------------------

fn frist_schema() -> Arc<Schema> {
    let mut obligation = typed("obligation", &[("body", "Body"), ("vorlauf", "Vorlauf")]);
    obligation.due = Some(DueAxis {
        date_field: "faellig_am".to_string(),
        status_field: "status".to_string(),
        open_values: vec!["offen".to_string(), "in_arbeit".to_string()],
        lead_section: Some("vorlauf".to_string()),
    });
    schema("frist", "0.1.0", vec![obligation, typed("note", &[("body", "Body")])])
}

fn obligation_md(title: &str, date: &str, status: &str, vorlauf: Option<&str>) -> String {
    let lead = vorlauf.map(|v| format!("\n## Vorlauf\n\n{v}\n")).unwrap_or_default();
    format!(
        "---\ntype: obligation\ncreated_date: 2026-01-01\nlast_modified: 2026-01-01\nfaellig_am: {date}\nstatus: {status}\n---\n# {title}\n\n## Body\n\nB.\n{lead}"
    )
}

#[test]
fn due_brief_membership_order_and_labels() {
    let fixture = || config(Some("1.0.0"), Some(("frist", "0.1.0")));
    let own = Mem::default().configured(fixture());
    let foreign = Mem::default().configured(fixture());
    own.put(
        "wartung.md",
        &obligation_md("Wartung", "2026-09-01", "offen", Some("Handwerker beauftragen")),
    );
    own.put("frist-alt.md", &obligation_md("Frist Alt", "2026-07-01", "in_arbeit", None));
    own.put("weit-weg.md", &obligation_md("Weit Weg", "2027-06-01", "offen", None));
    own.put("erledigt.md", &obligation_md("Erledigt", "2026-08-20", "erledigt", None));
    own.put(
        "plain-note.md",
        "---\ntype: note\ncreated_date: 2026-01-01\nlast_modified: 2026-01-01\n---\n# Plain Note\n\n## Body\n\nB.\n",
    );
    own.put("b-gleich.md", &obligation_md("B Gleich", "2026-09-10", "offen", None));
    own.put("a-gleich.md", &obligation_md("A Gleich", "2026-09-10", "offen", None));
    foreign.put(
        "fremd-frist.md",
        &obligation_md("Fremd Frist", "2026-06-15", "offen", Some("Nur zur Kenntnis")),
    );
    let pinned = |mem: &str, capability: MountCapability| Mount {
        schema: Some(SchemaRef::new("frist", "0.1.0")),
        capability,
        ..folder_mount(mem, &format!("/{mem}"))
    };
    let engine = wired(World::new(), |host| {
        Engine::from_mounts_with_schemas_dir(
            host,
            stored(vec![
                (pinned("own", MountCapability::Write), own),
                (pinned("foreign", MountCapability::ReadOnly), foreign),
            ]),
            Some(&vec![schema_entry("/schemas/frist", Ok(frist_schema()), "")]),
        )
    })
    .unwrap();

    let brief = engine.render_due_brief("2026-08-10", &DueWindow::Days(90), None).unwrap();

    for present in [
        "own--wartung",
        "own--frist-alt",
        "foreign--fremd-frist",
        "own--a-gleich",
        "own--b-gleich",
    ] {
        assert!(brief.contains(present), "{present} missing:\n{brief}");
    }
    for absent in ["weit-weg", "erledigt", "plain-note"] {
        assert!(!brief.contains(absent), "{absent} leaked:\n{brief}");
    }

    let pos = |needle: &str| brief.find(needle).unwrap();
    assert!(pos("foreign--fremd-frist") < pos("own--frist-alt"), "{brief}");
    assert!(pos("own--frist-alt") < pos("own--wartung"), "{brief}");
    assert!(pos("own--wartung") < pos("own--a-gleich"), "{brief}");
    assert!(pos("own--a-gleich") < pos("own--b-gleich"), "{brief}");

    assert!(brief.contains("**2026-07-01** **OVERDUE**"), "{brief}");
    assert!(brief.contains("Handwerker beauftragen"), "{brief}");
    assert!(brief.contains("status: offen"), "{brief}");

    assert!(brief.contains("[third-party]"), "{brief}");
    assert!(brief.contains("vorlauf (third-party, quoted):"), "{brief}");
    assert!(brief.contains("> Nur zur Kenntnis"), "{brief}");
    assert!(brief.contains("    Handwerker beauftragen"), "{brief}");

    let again = engine.render_due_brief("2026-08-10", &DueWindow::Days(90), None).unwrap();
    assert_eq!(brief, again);

    let own_only =
        engine.render_due_brief("2026-08-10", &DueWindow::Days(90), Some("own")).unwrap();
    assert!(!own_only.contains("foreign--fremd-frist"), "{own_only}");
    assert!(own_only.contains("own--wartung"), "{own_only}");

    assert!(engine.render_due_brief("tomorrow", &DueWindow::Days(90), None).is_err());
}

#[test]
fn no_declaring_schema_renders_honest_empty_brief() {
    let engine = boot(World::new(), vec![(folder_mount("specs", "/s"), Mem::default())]);
    let brief = engine.render_due_brief("2026-08-10", &DueWindow::Days(90), None).unwrap();
    assert!(brief.contains("No mounted mem's schema declares a due axis"), "{brief}");
}

// -- documents -------------------------------------------------------------

fn fixture_engine() -> (TestEngine, Mem) {
    let mem = Mem::with(&[
        (
            "bösenberg-söhne-rev-21.md",
            "---\ntype: spec\ncreated_date: 2026-01-01\nlast_modified: 2026-01-01\nlevel: M0\n---\n# Bösenberg & Söhne — Rev. 2.1\n\n## Identity\n\nCited in [[target-entity]] and [[über-ziele]] and cross-mem [[other--far-away]].\n\n<script>alert('x')</script>\n\n![diagram](https://evil.example/x.png)\n\nSee [docs](https://example.org/page), [broken](#bogus-frag), [evil](javascript:alert(2)).\n\n## Purpose\n\nZweck mit Umlauten: äöüß.\n",
        ),
        (
            "über-ziele.md",
            "---\ntype: spec\ncreated_date: 2026-01-01\nlast_modified: 2026-01-01\nlevel: M0\n---\n# Über-Ziele\n\n## Identity\n\nUmlaut-slug anchor target.\n\n## Purpose\n\nP.\n",
        ),
        (
            "target-entity.md",
            "---\ntype: spec\ncreated_date: 2026-01-01\nlast_modified: 2026-01-01\nlevel: M0\n---\n# Target Entity\n\n## Identity\n\nThe link target.\n\n## Purpose\n\nAnchors resolve here.\n",
        ),
    ]);
    (boot(World::new(), vec![(folder_mount("specs", "/s"), mem.clone())]), mem)
}

fn assert_no_dangling_anchors(html: &str) {
    let mut ids: Vec<&str> = Vec::new();
    for part in html.split("id=\"").skip(1) {
        if let Some(end) = part.find('"') {
            ids.push(&part[..end]);
        }
    }
    for part in html.split("href=\"#").skip(1) {
        if let Some(end) = part.find('"') {
            let anchor = percent_decode(&part[..end]);
            assert!(
                ids.iter().any(|id| *id == anchor),
                "dangling in-document anchor #{anchor}"
            );
        }
    }
}

#[test]
fn html_export_renders_the_declared_heading_not_the_section_key() {
    let mem = Mem::with(&[(
        "open-question.md",
        "---\ntype: inquiry\ncreated_date: 2026-01-01\nlast_modified: 2026-01-01\n\
         status: open\nurgency: medium\n---\n# Open Question\n\n## Question\n\nQ?\n\n\
         ## Significance\n\nS.\n\n## Current State\n\nWhere things stand.\n",
    )]);
    let engine = boot(World::new(), vec![(folder_mount("specs", "/s"), mem)]);

    let html = engine.render_html_export("specs", "2026-08-15").unwrap();

    assert!(
        html.contains("<h3>Current State</h3>"),
        "must render the declared heading; got:\n{html}"
    );
    assert!(
        !html.contains("<h3>current_state</h3>"),
        "must not render the storage key as a heading; got:\n{html}"
    );
    assert!(html.contains("<h3>Question</h3>"), "got:\n{html}");
    assert!(html.contains("<h3>Significance</h3>"), "got:\n{html}");
    assert_no_dangling_anchors(&html);

    let goal = Mem::with(&[(
        "second-goal.md",
        "---\ntype: goal\ncreated_date: 2026-01-01\nlast_modified: 2026-01-01\n\
         priority: high\nstatus: active\n---\n# Second Goal\n\n## Statement\n\nS.\n\n\
         ## Rationale\n\nR.\n\n## Success Criteria\n\nC.\n\n## Out of Scope\n\n\
         Everything else.\n",
    )]);
    let mut world = World::new();
    world.builtins = Ok(vec![schema(
        "planning",
        "0.4.0",
        vec![typed(
            "goal",
            &[
                ("statement", "Statement"),
                ("rationale", "Rationale"),
                ("success_criteria", "Success Criteria"),
                ("out_of_scope", "Out of Scope"),
            ],
        )],
    )]);
    let goal_mount = Mount {
        schema: Some(SchemaRef::new("planning", "0.4.0")),
        ..folder_mount("plans", "/p")
    };
    let goal_engine = boot(world, vec![(goal_mount, goal)]);
    let goal_html = goal_engine.render_html_export("plans", "2026-08-15").unwrap();
    assert!(
        goal_html.contains("<h3>Out of Scope</h3>"),
        "the interior word must stay lowercase, as declared; got:\n{goal_html}"
    );
    assert!(
        !goal_html.contains("<h3>Out Of Scope</h3>")
            && !goal_html.contains("<h3>out_of_scope</h3>"),
        "neither a title-cased guess nor the storage key; got:\n{goal_html}"
    );

    let again = engine.render_html_export("specs", "2026-08-15").unwrap();
    assert_eq!(html, again, "export must be byte-deterministic");
}

#[test]
fn html_export_renders_sanitises_and_stays_self_contained() {
    let (mut engine, mem) = fixture_engine();

    let html = engine.render_html_export("specs", "2026-08-10").unwrap();

    assert!(html.contains("<strong>Mem:</strong> specs"), "identity block");
    assert!(html.contains("<strong>Exported:</strong> 2026-08-10"));
    assert!(html.contains("<nav>"), "type-grouped index");
    assert!(
        html.contains("Bösenberg &amp; Söhne — Rev. 2.1"),
        "widened title escaped: {html}"
    );
    assert!(html.contains("äöüß"), "umlauts verbatim");

    assert!(!html.contains("<script>"), "raw HTML must not pass through");
    assert!(html.contains("&lt;script&gt;"), "escaped as visible text");

    assert!(!html.contains("<img"), "no image element: {html}");
    assert!(
        html.contains("<a href=\"https://evil.example/x.png\">image: diagram (https://evil.example/x.png)</a>"),
        "image degraded to labelled link: {html}"
    );
    assert!(html.contains("<a href=\"https://example.org/page\">docs</a>"));

    assert!(html.contains("href=\"#specs--target-entity\""), "in-doc anchor");
    assert!(html.contains("other--far-away"), "cross-mem labelled");
    assert!(!html.contains("href=\"#other--far-away\""), "cross-mem never an anchor");

    assert!(html.contains("ber-ziele"), "umlaut target linked: {html}");

    assert!(!html.contains("href=\"#bogus-frag\""), "dangling fragment neutralised");
    assert!(html.contains("(#bogus-frag — link removed)"), "{html}");

    assert!(!html.contains("href=\"javascript:"), "javascript scheme stripped: {html}");
    assert!(html.contains("link removed"), "neutralised destination surfaced");
    assert_no_dangling_anchors(&html);

    for fetching in
        ["<img", "<video", "<audio", "<iframe", "<link ", "<script src", "@import", "url("]
    {
        assert!(!html.contains(fetching), "self-containment violated by {fetching}");
    }

    let again = engine.render_html_export("specs", "2026-08-10").unwrap();
    assert_eq!(html, again, "byte-deterministic");

    let untouched_block = {
        let start = html.find("id=\"specs--bösenberg-söhne-rev-21\"").unwrap();
        let end = html[start..].find("</section>").unwrap() + start;
        html[start..end].to_string()
    };
    let edited = mem.text("target-entity.md").replace("Anchors resolve here.", "Geändert.");
    mem.put("target-entity.md", &edited);
    engine.reload_one_mem("specs").expect("edit lands");
    let after = engine.render_html_export("specs", "2026-08-10").unwrap();
    assert_ne!(html, after, "edit changes the export");
    assert!(
        after.contains(&untouched_block),
        "untouched entity's region byte-identical after the edit"
    );
    assert!(after.contains("Geändert."), "edited content present");
}

#[test]
fn read_only_origin_stated_and_unknown_mem_refuses() {
    let mem = Mem::with(&[(
        "note.md",
        "---\ntype: spec\ncreated_date: 2026-01-01\nlast_modified: 2026-01-01\nlevel: M0\n---\n# Foreign Note\n\n## Identity\n\nI.\n\n## Purpose\n\nP.\n",
    )]);
    let mount =
        Mount { capability: MountCapability::ReadOnly, ..folder_mount("foreign", "/f") };
    let engine = boot(World::new(), vec![(mount, mem)]);
    let html = engine.render_html_export("foreign", "2026-08-10").unwrap();
    assert!(html.contains("third-party (read-only mount"), "trust class stated: {html}");

    let err = engine.render_html_export("nope", "2026-08-10").unwrap_err();
    assert_eq!(err.code(), "UNKNOWN_MEM");
}

#[test]
fn a_scoped_export_holds_the_chain_alone() {
    let (engine, _mem) = fixture_engine();
    let chain = ChainSet {
        members: vec!["specs--target-entity".to_string()],
        description: "one step from the target".to_string(),
    };
    let html =
        engine.render_html_export_scoped("specs", "2026-08-10", Some(&chain)).unwrap();
    assert!(html.contains("id=\"specs--target-entity\""));
    assert!(!html.contains("id=\"specs--über-ziele\""));
    assert!(html.contains("one step from the target"));
    assert_no_dangling_anchors(&html);
}

#[test]
fn an_edge_out_of_the_chain_is_unresolved_and_not_foreign() {
    let mem = Mem::with(&[
        (
            "a.md",
            "---\ntype: spec\n---\n# A\n\n## Identity\n\nA.\n- **USES**: [[specs--b]]\n- **USES**: [[other--c]]\n",
        ),
        ("b.md", "---\ntype: spec\n---\n# B\n\n## Identity\n\nB.\n"),
    ]);
    let engine = boot(World::new(), vec![(folder_mount("specs", "/s"), mem)]);
    let chain =
        ChainSet { members: vec!["specs--a".to_string()], description: "a".to_string() };
    let html =
        engine.render_html_export_scoped("specs", "2026-08-10", Some(&chain)).unwrap();
    assert!(html.contains("specs--b (unresolved)</span>"), "{html}");
    assert!(!html.contains("specs--b <span class=\"badge\">other mem"), "{html}");
    assert!(html.contains("other--c <span class=\"badge\">other mem"), "{html}");
    let whole = engine.render_html_export("specs", "2026-08-10").unwrap();
    assert!(whole.contains("<a href=\"#specs--b\">"), "{whole}");
}

#[test]
fn a_loader_knows_the_roster_and_what_may_be_done() {
    let engine = boot(
        World::new(),
        vec![
            (folder_mount("specs", "/s"), Mem::with(&[("a.md", &spec_md("A"))])),
            (archive_mount("ext", "/ext.mem"), Mem::default()),
        ],
    );
    assert_eq!(engine.host.known.borrow()[..2], ["specs".to_string(), "ext".to_string()]);
    assert_eq!(
        *engine.host.allowed.borrow(),
        vec![
            ("specs".to_string(), MountCapability::Write),
            ("ext".to_string(), MountCapability::ReadOnly)
        ]
    );
}

#[test]
fn an_export_says_where_the_schema_comes_from() {
    let mem = Mem::with(&[("a.md", &spec_md("A"))])
        .configured(config(Some("1.0.0"), Some(("default", "1.0.0"))));
    let world = World { schema_source: Some("remote".to_string()), ..World::new() };
    let mount = Mount { storage: MountStorage::InMemory, ..folder_mount("specs", "") };
    let engine = boot(world, vec![(mount, mem)]);
    let bytes = engine.export_mem_to_bytes("specs").unwrap();
    assert_eq!(*engine.host.sources.borrow(), vec![Some("remote".to_string())]);
    assert_eq!(engine.export_mem_to_bytes("specs").unwrap(), bytes);
}

/// Reading one folder again leaves the load errors of its neighbours.
#[test]
fn a_neighbour_keeps_its_load_errors() {
    let a = Mem::with(&[("x.md", "!!broken")]);
    let b = Mem::with(&[("y.md", "!!broken")]);
    let mut engine = boot(
        World::new(),
        vec![(folder_mount("a", "/w/a"), a.clone()), (folder_mount("ab", "/w/ab"), b)],
    );
    assert_eq!(engine.load_errors.len(), 2);
    a.put("x.md", &spec_md("X"));
    engine.reload_one_mem("a").unwrap();
    assert_eq!(engine.load_errors.len(), 1);
    assert_eq!(engine.load_errors[0].0, "/w/ab/y.md");
}

#[test]
fn a_record_kind_is_named_by_its_token() {
    assert!(matches!(
        RecordKind::from_wire("verification"),
        Some(RecordKind::Engine(CheckKind::Verification))
    ));
    assert!(matches!(
        RecordKind::from_wire("conformance"),
        Some(RecordKind::Engine(CheckKind::Conformance))
    ));
    assert!(matches!(RecordKind::from_wire("x-audit"), Some(RecordKind::Foreign(k)) if k == "x-audit"));
    assert!(RecordKind::from_wire("audit").is_none());
}

#[test]
fn a_plain_text_document_lists_the_mem_and_links_its_entities() {
    let mem = Mem::with(&[
        ("b.md", "---\ntype: spec\n---\n# B\n\n## Identity\n\nSee [[a]] and [[ghost]].\n"),
        ("a.md", "---\ntype: spec\n---\n# A\n\n## Identity\n\nA.\n"),
    ]);
    let engine = boot(World::new(), vec![(folder_mount("specs", "/s"), mem)]);
    assert_eq!(
        engine.entity_id_titles(),
        vec![
            ("specs--a".to_string(), "A".to_string()),
            ("specs--b".to_string(), "B".to_string())
        ]
    );
    let ctx = LlmsTxtContext { href_prefix: "https://h".to_string(), ..LlmsTxtContext::default() };
    let out = engine.render_llms_txt("specs", &ctx).unwrap();
    assert!(out.contains("[A](https://h/entity/specs--a)"), "{out}");
    assert!(out.contains("See [A](https://h/entity/specs--a) and ghost."), "{out}");
    assert!(!out.contains("type: spec"), "{out}");
    assert_eq!(out, engine.render_llms_txt("specs", &ctx).unwrap());
    assert_eq!(engine.render_llms_txt("nope", &ctx).unwrap_err().code(), "UNKNOWN_MEM");
}
