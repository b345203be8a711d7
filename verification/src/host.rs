//! What surrounds the engine: parsing and validating entity files, the git
//! layer, the check ledger, the archive builder and the clock.

use crate::archive::{
    ArchiveEntries, ExportRequest, MemExportBytes, PolarityFormat, RedactedProvenance,
    ValidationError, ValidatorLimits,
};
use crate::backend::{BackendError, Provenance};
use crate::check::{CheckFinding, CheckRecord};
use crate::entity::{Entity, Store};
use crate::error::ParseError;
use crate::ops::{
    BackendChanges, BranchResetOutcome, Diff, DiffConfig, FetchOutcome, PullOutcome, PushOutcome,
    RemoteAddOutcome, Similarity, SourceEntry, SourceReadError, WarningHint,
};
use crate::schema::{Schema, TypeDefinition};
use crate::sort::views;
use crate::text::texts;
use crate::workspace::{MemConfig, MountCapability};
use std::sync::Arc;
use vstd::prelude::*;

verus! {

/// What parsing entity files gave.
#[derive(Debug)]
pub struct LoadResult {
    pub entities: Vec<Entity>,
    /// Files that did not parse, by path, with the reason.
    pub errors: Vec<(String, String)>,
    /// What the loader noticed along the way.
    pub warnings: Vec<WarningHint>,
}

/// The surroundings of an engine. Implementors do the work; of what they
/// answer the engine takes nothing for granted. A method of the git layer
/// answers nothing where no git layer is wired.
pub trait Host {
    /// The schemas that are built in.
    fn builtin_schemas(&self) -> Result<Vec<Arc<Schema>>, String>;

    /// The schemas that the archive at `path` carries sealed.
    fn embedded_schemas(&self, path: &str) -> Vec<Arc<Schema>>;

    /// The version of the running engine.
    fn engine_version(&self) -> String;

    /// Parse entity files against a schema. What links show, held
    /// against the names of the known mems, comes back as warnings.
    fn parse_entries(
        &self,
        entries: &Vec<SourceEntry>,
        read_errors: &Vec<SourceReadError>,
        mem: &str,
        schema: &Arc<Schema>,
        known: &Vec<String>,
    ) -> LoadResult;

    /// Check the relations of a loaded store; the store comes back without
    /// those that do not hold.
    fn validate_loaded_relations(
        &self,
        store: Store,
        schemas: &Vec<(String, Arc<Schema>)>,
        capabilities: &Vec<(String, MountCapability)>,
    ) -> (Store, Vec<WarningHint>);

    /// Hold one entity file to the invariants of a mem entity.
    fn validate_strict(
        &self,
        content: &str,
        entity: &Entity,
        type_def: &TypeDefinition,
        path: &str,
    ) -> Result<(), String>;

    /// Every entity file of a mem directory.
    fn read_directory(&self, root: &str) -> Result<Vec<SourceEntry>, String>;

    /// The type of the schema that an entity file is of.
    fn entry_type(&self, schema: &Arc<Schema>, content: &str) -> TypeDefinition;

    /// Parse one entity file as an entity of a type.
    fn parse_entity(
        &self,
        content: &str,
        path: &str,
        type_def: &TypeDefinition,
        mem: &str,
    ) -> Result<Entity, ParseError>;

    /// Hold section keys to those that a type declares.
    fn check_section_keys(&self, keys: &Vec<String>, type_def: &TypeDefinition) -> Result<
        (),
        crate::error::ValidationError,
    >;

    /// The headings that the catch-all section of a type leaves to others,
    /// where it has such a section.
    fn catch_all_headings(&self, type_def: &TypeDefinition) -> Option<Vec<String>>;

    /// Hold section bodies to what a section may hold.
    fn check_section_content(
        &self,
        sections: &Vec<(String, String)>,
        catch_all: &Option<Vec<String>>,
    ) -> Result<(), crate::error::ValidationError>;

    /// Where the schema that a config pins is taken from, where it does not
    /// lie in the workspace.
    fn schema_source(&self, config: &MemConfig) -> Option<String>;

    /// Stamp the engine's version into the mem's config after a write.
    fn stamp_mutation_versions(&self, mem: &str) -> Vec<WarningHint>;

    /// The changes of a folder mem after a cursor, from its mutation log.
    fn folder_changes_since(&self, path: &str, mem: &str, since: &str) -> Result<
        BackendChanges,
        BackendError,
    >;

    /// The changes of a branch after a commit.
    fn git_changes_since(
        &self,
        gitdir: &str,
        branch: &str,
        mem: &str,
        since: &str,
        similarity: &Similarity,
    ) -> Option<Result<BackendChanges, BackendError>>;

    /// Fetch from a remote.
    fn git_fetch(&self, gitdir: &str, remote: &str, refspecs: &Vec<String>) -> Option<
        Result<FetchOutcome, BackendError>,
    >;

    /// Fast-forward a branch to what was fetched.
    fn git_pull(&self, gitdir: &str, remote: &str, mem: &str) -> Option<
        Result<PullOutcome, BackendError>,
    >;

    /// Push a branch.
    fn git_push(&self, gitdir: &str, remote: &str, mem: &str, force: bool) -> Option<
        Result<PushOutcome, BackendError>,
    >;

    /// Configure a remote.
    fn git_remote_add(&self, gitdir: &str, name: &str, url: &str) -> Option<
        Result<RemoteAddOutcome, BackendError>,
    >;

    /// The entity files of the tree at a ref.
    fn git_read_tree(&self, gitdir: &str, ref_name: &str) -> Option<
        Result<Vec<SourceEntry>, BackendError>,
    >;

    /// Move a branch to a commit.
    fn git_branch_reset(&self, gitdir: &str, branch: &str, target: &str) -> Option<
        Result<BranchResetOutcome, BackendError>,
    >;

    /// Compare the trees of two refs.
    fn git_diff(
        &self,
        gitdir: &str,
        mem: &str,
        ref_a: &str,
        ref_b: &str,
        config: &DiffConfig,
    ) -> Option<Result<Diff, BackendError>>;

    /// Hold archive bytes to the rules of the format and take them apart.
    fn extract_archive(&self, bytes: &Vec<u8>, limits: &ValidatorLimits) -> Result<
        ArchiveEntries,
        ValidationError,
    >;

    /// The archive formats that the engine accepts.
    fn accepted_formats(&self) -> Vec<u32>;

    /// The name of the file by which a schema package says that its fields
    /// are optional unless it says otherwise.
    fn schema_format_marker(&self) -> String;

    /// Load a schema package from its manifest and its types, each by its
    /// name.
    fn load_schema(
        &self,
        manifest: &str,
        types: &Vec<(String, String)>,
        format: PolarityFormat,
    ) -> Result<Arc<Schema>, String>;

    /// What of a mutation log an archive with these entity files carries.
    fn redact_provenance(
        &self,
        records: &Vec<Provenance>,
        paths: &Vec<String>,
    ) -> RedactedProvenance;

    /// Seal a mem into archive bytes.
    fn seal_archive(&self, request: &ExportRequest) -> Result<MemExportBytes, String>;

    /// Whether the git layer can seal a branch.
    fn git_export_wired(&self) -> bool;

    /// Seal a branch into archive bytes.
    fn git_seal_archive(&self, request: &ExportRequest) -> Result<MemExportBytes, BackendError>;

    /// Every record of the check ledger under a workspace root, oldest first.
    fn ledger_records(&self, root: &str) -> Vec<CheckRecord>;

    /// Append a record to the check ledger.
    fn ledger_append(&self, root: &str, record: &CheckRecord) -> Result<(), String>;

    /// Append every record of `from` again under `to`; how many there were.
    fn ledger_carry_rename(&self, root: &str, from: &str, to: &str) -> Result<usize, String>;

    /// Append the record that licensed a transition again under the new
    /// content hash; whether there was one.
    fn ledger_carry_transition(
        &self,
        root: &str,
        id: &str,
        kind: &str,
        pre_hash: &str,
        post_hash: &str,
    ) -> Result<bool, String>;

    /// Whether a fresh, independent record of a kind confirms an entity.
    fn check_confirms(&self, entity: &Entity, kind: &str) -> bool;

    /// Whether a finding is well formed.
    fn validate_finding(&self, finding: &CheckFinding) -> Result<(), String>;

    /// The health conditions that a finding may acknowledge.
    fn health_conditions(&self) -> Vec<String>;

    /// Seconds since the epoch.
    fn now(&self) -> u64;
}

// ---------------------------------------------------------------------
// Asking
// ---------------------------------------------------------------------

/// What was asked of the surroundings beyond reading and judging.
pub enum HostCall {
    /// Stamp the engine's version into the mem's config after a write.
    Stamp { mem: Seq<char> },
    /// Fetch from a remote.
    Fetch { gitdir: Seq<char>, remote: Seq<char>, refspecs: Seq<Seq<char>> },
    /// Fast-forward a branch to what was fetched.
    Pull { gitdir: Seq<char>, remote: Seq<char>, mem: Seq<char> },
    /// Push a branch.
    Push { gitdir: Seq<char>, remote: Seq<char>, mem: Seq<char>, force: bool },
    /// Configure a remote.
    RemoteAdd { gitdir: Seq<char>, name: Seq<char>, url: Seq<char> },
    /// Move a branch to a commit.
    Reset { gitdir: Seq<char>, branch: Seq<char>, target: Seq<char> },
    /// Append a record to the check ledger.
    Append { root: Seq<char>, record: CheckRecord },
    /// Append every record of one id again under another.
    CarryRename { root: Seq<char>, from: Seq<char>, to: Seq<char> },
    /// Append the record that licensed a transition again under the new
    /// content hash.
    CarryTransition {
        root: Seq<char>,
        id: Seq<char>,
        kind: Seq<char>,
        pre_hash: Seq<char>,
        post_hash: Seq<char>,
    },
}

/// The surroundings of an engine with an account of what was asked of them
/// beyond reading and judging. The engine reaches its host through this
/// alone, so that a contract on the account tells which effects there were.
pub struct Surroundings<H> {
    host: H,
    calls: Ghost<Seq<HostCall>>,
}

impl<H> Surroundings<H> {
    /// The host itself.
    pub closed spec fn inner(&self) -> H {
        self.host
    }

    /// What was asked of the host, oldest first.
    pub closed spec fn calls(&self) -> Seq<HostCall> {
        self.calls@
    }

    /// Surroundings of which nothing was asked yet.
    pub fn new(host: H) -> (r: Surroundings<H>)
        ensures
            r.inner() == host,
            r.calls() == Seq::<HostCall>::empty(),
    {
        Surroundings { host, calls: Ghost(Seq::empty()) }
    }
}

impl<H: Host> Surroundings<H> {
    /// The schemas that are built in.
    pub fn builtin_schemas(&self) -> (r: Result<Vec<Arc<Schema>>, String>)
        ensures
            builtin_reply(self, r),
    {
        self.host.builtin_schemas()
    }

    /// The schemas that the archive at `path` carries sealed.
    pub fn embedded_schemas(&self, path: &str) -> (r: Vec<Arc<Schema>>)
        ensures
            embedded_reply(self, path@, r),
    {
        let r = self.host.embedded_schemas(path);
        assert(call_ensures(H::embedded_schemas, (&self.inner(), path), r));
        r
    }

    /// The version of the running engine.
    pub fn engine_version(&self) -> (r: String)
        ensures
            version_reply(self, r),
    {
        self.host.engine_version()
    }

    /// Parse entity files against a schema. What links show, held
    /// against the names of the known mems, comes back as warnings.
    pub fn parse_entries(
        &self,
        entries: &Vec<SourceEntry>,
        read_errors: &Vec<SourceReadError>,
        mem: &str,
        schema: &Arc<Schema>,
        known: &Vec<String>,
    ) -> (r: LoadResult)
        ensures
            parse_reply(
                self,
                views(entries@),
                views(read_errors@),
                mem@,
                *schema,
                texts(known@),
                r,
            ),
    {
        let r = self.host.parse_entries(entries, read_errors, mem, schema, known);
        assert(call_ensures(
            H::parse_entries,
            (&self.inner(), entries, read_errors, mem, schema, known),
            r,
        ));
        r
    }

    /// Check the relations of a loaded store; the store comes back without
    /// those that do not hold.
    pub fn validate_loaded_relations(
        &self,
        store: Store,
        schemas: &Vec<(String, Arc<Schema>)>,
        capabilities: &Vec<(String, MountCapability)>,
    ) -> (r: (Store, Vec<WarningHint>))
        ensures
            relations_reply(self, store.entities@, schemas@, capabilities@, r),
    {
        let r = self.host.validate_loaded_relations(store, schemas, capabilities);
        assert(call_ensures(
            H::validate_loaded_relations,
            (&self.inner(), store, schemas, capabilities),
            r,
        ));
        r
    }

    /// Hold one entity file to the invariants of a mem entity.
    pub fn validate_strict(
        &self,
        content: &str,
        entity: &Entity,
        type_def: &TypeDefinition,
        path: &str,
    ) -> (r: Result<(), String>)
        ensures
            strict_reply(self, content@, *entity, *type_def, path@, r),
    {
        let r = self.host.validate_strict(content, entity, type_def, path);
        assert(call_ensures(
            H::validate_strict,
            (&self.inner(), content, entity, type_def, path),
            r,
        ));
        r
    }

    /// Every entity file of a mem directory.
    pub fn read_directory(&self, root: &str) -> (r: Result<Vec<SourceEntry>, String>)
        ensures
            directory_reply(self, root@, r),
    {
        let r = self.host.read_directory(root);
        assert(call_ensures(H::read_directory, (&self.inner(), root), r));
        r
    }

    /// The type of the schema that an entity file is of.
    pub fn entry_type(&self, schema: &Arc<Schema>, content: &str) -> (r: TypeDefinition)
        ensures
            entry_type_reply(self, *schema, content@, r),
    {
        let r = self.host.entry_type(schema, content);
        assert(call_ensures(H::entry_type, (&self.inner(), schema, content), r));
        r
    }

    /// Parse one entity file as an entity of a type.
    pub fn parse_entity(
        &self,
        content: &str,
        path: &str,
        type_def: &TypeDefinition,
        mem: &str,
    ) -> (r: Result<Entity, ParseError>)
        ensures
            parse_one_reply(self, content@, path@, *type_def, mem@, r),
    {
        let r = self.host.parse_entity(content, path, type_def, mem);
        assert(call_ensures(H::parse_entity, (&self.inner(), content, path, type_def, mem), r));
        r
    }

    /// Hold section keys to those that a type declares.
    pub fn check_section_keys(&self, keys: &Vec<String>, type_def: &TypeDefinition) -> (r: Result<
        (),
        crate::error::ValidationError,
    >)
        ensures
            keys_reply(self, texts(keys@), *type_def, r),
    {
        let r = self.host.check_section_keys(keys, type_def);
        assert(call_ensures(H::check_section_keys, (&self.inner(), keys, type_def), r));
        r
    }

    /// The headings that the catch-all section of a type leaves to others,
    /// where it has such a section.
    pub fn catch_all_headings(&self, type_def: &TypeDefinition) -> (r: Option<Vec<String>>)
        ensures
            catch_all_reply(self, *type_def, r),
    {
        self.host.catch_all_headings(type_def)
    }

    /// Hold section bodies to what a section may hold.
    pub fn check_section_content(
        &self,
        sections: &Vec<(String, String)>,
        catch_all: &Option<Vec<String>>,
    ) -> (r: Result<(), crate::error::ValidationError>)
        ensures
            content_reply(self, sections@, *catch_all, r),
    {
        let r = self.host.check_section_content(sections, catch_all);
        assert(call_ensures(
            H::check_section_content,
            (&self.inner(), sections, catch_all),
            r,
        ));
        r
    }

    /// Where the schema that a config pins is taken from, where it does not
    /// lie in the workspace.
    pub fn schema_source(&self, config: &MemConfig) -> (r: Option<String>)
        ensures
            source_reply(self, *config, r),
    {
        self.host.schema_source(config)
    }

    /// Stamp the engine's version into the mem's config after a write.
    pub fn stamp_mutation_versions(&mut self, mem: &str) -> (r: Vec<WarningHint>)
        ensures
            final(self).inner() == old(self).inner(),
            final(self).calls() == old(self).calls() + seq![(HostCall::Stamp { mem: mem@ })],
            stamp_reply(old(self), mem@, r),
    {
        let r = self.host.stamp_mutation_versions(mem);
        proof {
            assert(call_ensures(H::stamp_mutation_versions, (&old(self).inner(), mem), r));
            assert(stamp_reply(old(self), mem@, r));
            self.calls@ = self.calls@ + seq![HostCall::Stamp { mem: mem@ }];
        }
        r
    }

    /// The changes of a folder mem after a cursor, from its mutation log.
    pub fn folder_changes_since(
        &self,
        path: &str,
        mem: &str,
        since: &str,
    ) -> (r: Result<BackendChanges, BackendError>)
        ensures
            folder_changes_reply(self, path@, mem@, since@, r),
    {
        let r = self.host.folder_changes_since(path, mem, since);
        assert(call_ensures(H::folder_changes_since, (&self.inner(), path, mem, since), r));
        r
    }

    /// The changes of a branch after a commit.
    pub fn git_changes_since(
        &self,
        gitdir: &str,
        branch: &str,
        mem: &str,
        since: &str,
        similarity: &Similarity,
    ) -> (r: Option<Result<BackendChanges, BackendError>>)
        ensures
            git_changes_reply(self, gitdir@, branch@, mem@, since@, *similarity, r),
    {
        let r = self.host.git_changes_since(gitdir, branch, mem, since, similarity);
        assert(call_ensures(
            H::git_changes_since,
            (&self.inner(), gitdir, branch, mem, since, similarity),
            r,
        ));
        r
    }

    /// Fetch from a remote.
    pub fn git_fetch(
        &mut self,
        gitdir: &str,
        remote: &str,
        refspecs: &Vec<String>,
    ) -> (r: Option<Result<FetchOutcome, BackendError>>)
        ensures
            final(self).inner() == old(self).inner(),
            final(self).calls() == old(self).calls() + seq![(HostCall::Fetch {
                gitdir: gitdir@,
                remote: remote@,
                refspecs: texts(refspecs@),
            })],
            fetch_reply(old(self), gitdir@, remote@, texts(refspecs@), r),
    {
        let r = self.host.git_fetch(gitdir, remote, refspecs);
        proof {
            assert(call_ensures(H::git_fetch, (&old(self).inner(), gitdir, remote, refspecs), r));
            assert(fetch_reply(old(self), gitdir@, remote@, texts(refspecs@), r));
            self.calls@ = self.calls@ + seq![HostCall::Fetch {
                gitdir: gitdir@,
                remote: remote@,
                refspecs: texts(refspecs@),
            }];
        }
        r
    }

    /// Fast-forward a branch to what was fetched.
    pub fn git_pull(
        &mut self,
        gitdir: &str,
        remote: &str,
        mem: &str,
    ) -> (r: Option<Result<PullOutcome, BackendError>>)
        ensures
            final(self).inner() == old(self).inner(),
            final(self).calls() == old(self).calls() + seq![(HostCall::Pull {
                gitdir: gitdir@,
                remote: remote@,
                mem: mem@,
            })],
            pull_reply(old(self), gitdir@, remote@, mem@, r),
    {
        let r = self.host.git_pull(gitdir, remote, mem);
        proof {
            assert(call_ensures(H::git_pull, (&old(self).inner(), gitdir, remote, mem), r));
            assert(pull_reply(old(self), gitdir@, remote@, mem@, r));
            self.calls@ = self.calls@ + seq![HostCall::Pull {
                gitdir: gitdir@,
                remote: remote@,
                mem: mem@,
            }];
        }
        r
    }

    /// Push a branch.
    pub fn git_push(
        &mut self,
        gitdir: &str,
        remote: &str,
        mem: &str,
        force: bool,
    ) -> (r: Option<Result<PushOutcome, BackendError>>)
        ensures
            final(self).inner() == old(self).inner(),
            final(self).calls() == old(self).calls() + seq![(HostCall::Push {
                gitdir: gitdir@,
                remote: remote@,
                mem: mem@,
                force: force,
            })],
            push_reply(old(self), gitdir@, remote@, mem@, force, r),
    {
        let r = self.host.git_push(gitdir, remote, mem, force);
        proof {
            assert(call_ensures(H::git_push, (&old(self).inner(), gitdir, remote, mem, force), r));
            assert(push_reply(old(self), gitdir@, remote@, mem@, force, r));
            self.calls@ = self.calls@ + seq![HostCall::Push {
                gitdir: gitdir@,
                remote: remote@,
                mem: mem@,
                force: force,
            }];
        }
        r
    }

    /// Configure a remote.
    pub fn git_remote_add(
        &mut self,
        gitdir: &str,
        name: &str,
        url: &str,
    ) -> (r: Option<Result<RemoteAddOutcome, BackendError>>)
        ensures
            final(self).inner() == old(self).inner(),
            final(self).calls() == old(self).calls() + seq![(HostCall::RemoteAdd {
                gitdir: gitdir@,
                name: name@,
                url: url@,
            })],
            remote_add_reply(old(self), gitdir@, name@, url@, r),
    {
        let r = self.host.git_remote_add(gitdir, name, url);
        proof {
            assert(call_ensures(H::git_remote_add, (&old(self).inner(), gitdir, name, url), r));
            assert(remote_add_reply(old(self), gitdir@, name@, url@, r));
            self.calls@ = self.calls@ + seq![HostCall::RemoteAdd {
                gitdir: gitdir@,
                name: name@,
                url: url@,
            }];
        }
        r
    }

    /// The entity files of the tree at a ref.
    pub fn git_read_tree(
        &self,
        gitdir: &str,
        ref_name: &str,
    ) -> (r: Option<Result<Vec<SourceEntry>, BackendError>>)
        ensures
            tree_reply(self, gitdir@, ref_name@, r),
    {
        let r = self.host.git_read_tree(gitdir, ref_name);
        assert(call_ensures(H::git_read_tree, (&self.inner(), gitdir, ref_name), r));
        r
    }

    /// Move a branch to a commit.
    pub fn git_branch_reset(
        &mut self,
        gitdir: &str,
        branch: &str,
        target: &str,
    ) -> (r: Option<Result<BranchResetOutcome, BackendError>>)
        ensures
            final(self).inner() == old(self).inner(),
            final(self).calls() == old(self).calls() + seq![(HostCall::Reset {
                gitdir: gitdir@,
                branch: branch@,
                target: target@,
            })],
            reset_reply(old(self), gitdir@, branch@, target@, r),
    {
        let r = self.host.git_branch_reset(gitdir, branch, target);
        proof {
            assert(call_ensures(
                H::git_branch_reset,
                (&old(self).inner(), gitdir, branch, target),
                r,
            ));
            assert(reset_reply(old(self), gitdir@, branch@, target@, r));
            self.calls@ = self.calls@ + seq![HostCall::Reset {
                gitdir: gitdir@,
                branch: branch@,
                target: target@,
            }];
        }
        r
    }

    /// Compare the trees of two refs.
    pub fn git_diff(
        &self,
        gitdir: &str,
        mem: &str,
        ref_a: &str,
        ref_b: &str,
        config: &DiffConfig,
    ) -> (r: Option<Result<Diff, BackendError>>)
        ensures
            diff_reply(self, gitdir@, mem@, ref_a@, ref_b@, *config, r),
    {
        let r = self.host.git_diff(gitdir, mem, ref_a, ref_b, config);
        assert(call_ensures(H::git_diff, (&self.inner(), gitdir, mem, ref_a, ref_b, config), r));
        r
    }

    /// Hold archive bytes to the rules of the format and take them apart.
    pub fn extract_archive(
        &self,
        bytes: &Vec<u8>,
        limits: &ValidatorLimits,
    ) -> (r: Result<ArchiveEntries, ValidationError>)
        ensures
            extract_reply(self, bytes@, *limits, r),
    {
        let r = self.host.extract_archive(bytes, limits);
        assert(call_ensures(H::extract_archive, (&self.inner(), bytes, limits), r));
        r
    }

    /// The archive formats that the engine accepts.
    pub fn accepted_formats(&self) -> (r: Vec<u32>)
        ensures
            formats_reply(self, r),
    {
        self.host.accepted_formats()
    }

    /// The name of the file by which a schema package says that its fields
    /// are optional unless it says otherwise.
    pub fn schema_format_marker(&self) -> (r: String)
        ensures
            marker_reply(self, r),
    {
        self.host.schema_format_marker()
    }

    /// Load a schema package from its manifest and its types, each by its
    /// name.
    pub fn load_schema(
        &self,
        manifest: &str,
        types: &Vec<(String, String)>,
        format: PolarityFormat,
    ) -> (r: Result<Arc<Schema>, String>)
        ensures
            package_reply(self, manifest@, views(types@), format, r),
    {
        let r = self.host.load_schema(manifest, types, format);
        assert(call_ensures(H::load_schema, (&self.inner(), manifest, types, format), r));
        r
    }

    /// What of a mutation log an archive with these entity files carries.
    pub fn redact_provenance(
        &self,
        records: &Vec<Provenance>,
        paths: &Vec<String>,
    ) -> (r: RedactedProvenance)
        ensures
            redact_reply(self, records@, paths@, r),
    {
        let r = self.host.redact_provenance(records, paths);
        assert(call_ensures(H::redact_provenance, (&self.inner(), records, paths), r));
        r
    }

    /// Seal a mem into archive bytes.
    pub fn seal_archive(&self, request: &ExportRequest) -> (r: Result<MemExportBytes, String>)
        ensures
            seal_reply(self, *request, r),
    {
        let r = self.host.seal_archive(request);
        assert(call_ensures(H::seal_archive, (&self.inner(), request), r));
        r
    }

    /// Whether the git layer can seal a branch.
    pub fn git_export_wired(&self) -> (r: bool)
        ensures
            wired_reply(self, r),
    {
        self.host.git_export_wired()
    }

    /// Seal a branch into archive bytes.
    pub fn git_seal_archive(
        &self,
        request: &ExportRequest,
    ) -> (r: Result<MemExportBytes, BackendError>)
        ensures
            git_seal_reply(self, *request, r),
    {
        let r = self.host.git_seal_archive(request);
        assert(call_ensures(H::git_seal_archive, (&self.inner(), request), r));
        r
    }

    /// Every record of the check ledger under a workspace root, oldest first.
    pub fn ledger_records(&self, root: &str) -> (r: Vec<CheckRecord>)
        ensures
            ledger_reply(self, root@, r),
    {
        let r = self.host.ledger_records(root);
        assert(call_ensures(H::ledger_records, (&self.inner(), root), r));
        r
    }

    /// Append a record to the check ledger.
    pub fn ledger_append(&mut self, root: &str, record: &CheckRecord) -> (r: Result<(), String>)
        ensures
            final(self).inner() == old(self).inner(),
            final(self).calls() == old(self).calls() + seq![(HostCall::Append {
                root: root@,
                record: *record,
            })],
            append_reply(old(self), root@, *record, r),
    {
        let r = self.host.ledger_append(root, record);
        proof {
            assert(call_ensures(H::ledger_append, (&old(self).inner(), root, record), r));
            assert(append_reply(old(self), root@, *record, r));
            self.calls@ = self.calls@ + seq![HostCall::Append { root: root@, record: *record }];
        }
        r
    }

    /// Append every record of `from` again under `to`; how many there were.
    pub fn ledger_carry_rename(
        &mut self,
        root: &str,
        from: &str,
        to: &str,
    ) -> (r: Result<usize, String>)
        ensures
            final(self).inner() == old(self).inner(),
            final(self).calls() == old(self).calls() + seq![(HostCall::CarryRename {
                root: root@,
                from: from@,
                to: to@,
            })],
            carry_rename_reply(old(self), root@, from@, to@, r),
    {
        let r = self.host.ledger_carry_rename(root, from, to);
        proof {
            assert(call_ensures(H::ledger_carry_rename, (&old(self).inner(), root, from, to), r));
            assert(carry_rename_reply(old(self), root@, from@, to@, r));
            self.calls@ = self.calls@ + seq![HostCall::CarryRename {
                root: root@,
                from: from@,
                to: to@,
            }];
        }
        r
    }

    /// Append the record that licensed a transition again under the new
    /// content hash; whether there was one.
    pub fn ledger_carry_transition(
        &mut self,
        root: &str,
        id: &str,
        kind: &str,
        pre_hash: &str,
        post_hash: &str,
    ) -> (r: Result<bool, String>)
        ensures
            final(self).inner() == old(self).inner(),
            final(self).calls() == old(self).calls() + seq![(HostCall::CarryTransition {
                root: root@,
                id: id@,
                kind: kind@,
                pre_hash: pre_hash@,
                post_hash: post_hash@,
            })],
            carry_transition_reply(old(self), root@, id@, kind@, pre_hash@, post_hash@, r),
    {
        let r = self.host.ledger_carry_transition(root, id, kind, pre_hash, post_hash);
        proof {
            assert(call_ensures(
                H::ledger_carry_transition,
                (&old(self).inner(), root, id, kind, pre_hash, post_hash),
                r,
            ));
            assert(carry_transition_reply(old(self), root@, id@, kind@, pre_hash@, post_hash@, r));
            self.calls@ = self.calls@ + seq![HostCall::CarryTransition {
                root: root@,
                id: id@,
                kind: kind@,
                pre_hash: pre_hash@,
                post_hash: post_hash@,
            }];
        }
        r
    }

    /// Whether a fresh, independent record of a kind confirms an entity.
    pub fn check_confirms(&self, entity: &Entity, kind: &str) -> (r: bool)
        ensures
            confirms_reply(self, *entity, kind@, r),
    {
        let r = self.host.check_confirms(entity, kind);
        assert(call_ensures(H::check_confirms, (&self.inner(), entity, kind), r));
        r
    }

    /// Whether a finding is well formed.
    pub fn validate_finding(&self, finding: &CheckFinding) -> (r: Result<(), String>)
        ensures
            finding_reply(self, *finding, r),
    {
        let r = self.host.validate_finding(finding);
        assert(call_ensures(H::validate_finding, (&self.inner(), finding), r));
        r
    }

    /// The health conditions that a finding may acknowledge.
    pub fn health_conditions(&self) -> (r: Vec<String>)
        ensures
            conditions_reply(self, r),
    {
        self.host.health_conditions()
    }

    /// Seconds since the epoch.
    pub fn now(&self) -> (r: u64)
        ensures
            now_reply(self, r),
    {
        self.host.now()
    }
}

// ---------------------------------------------------------------------
// Replies
// ---------------------------------------------------------------------

/// Whether `reply` may be what the host answers for the built-in schemas.
pub open spec fn builtin_reply<H: Host>(
    h: &Surroundings<H>,
    reply: Result<Vec<Arc<Schema>>, String>,
) -> bool {
    call_ensures(H::builtin_schemas, (&h.inner(),), reply)
}

/// Whether `reply` may be what the host finds sealed in the archive at
/// `path`.
pub open spec fn embedded_reply<H: Host>(
    h: &Surroundings<H>,
    path: Seq<char>,
    reply: Vec<Arc<Schema>>,
) -> bool {
    exists|p: &str| p@ == path && #[trigger] call_ensures(
        H::embedded_schemas,
        (&h.inner(), p),
        reply,
    )
}

/// Whether `reply` may be what the host says the engine's version is.
pub open spec fn version_reply<H: Host>(h: &Surroundings<H>, reply: String) -> bool {
    call_ensures(H::engine_version, (&h.inner(),), reply)
}

/// Whether `reply` may be what the host parses from entity files, given by
/// their paths and contents, and from those that could not be read.
pub open spec fn parse_reply<H: Host>(
    h: &Surroundings<H>,
    entries: Seq<(Seq<char>, Seq<char>)>,
    failures: Seq<(Seq<char>, Seq<char>)>,
    mem: Seq<char>,
    schema: Arc<Schema>,
    known: Seq<Seq<char>>,
    reply: LoadResult,
) -> bool {
    exists|e: Vec<SourceEntry>, f: Vec<SourceReadError>, m: &str, k: Vec<String>|
        views(e@) == entries && views(f@) == failures && m@ == mem && texts(k@) == known
            && #[trigger] call_ensures(
            H::parse_entries,
            (&h.inner(), &e, &f, m, &schema, &k),
            reply,
        )
}

/// Whether `reply` may be what the host leaves of a store whose relations it
/// checked.
pub open spec fn relations_reply<H: Host>(
    h: &Surroundings<H>,
    entities: Seq<Entity>,
    schemas: Seq<(String, Arc<Schema>)>,
    capabilities: Seq<(String, MountCapability)>,
    reply: (Store, Vec<WarningHint>),
) -> bool {
    exists|s: Store, m: Vec<(String, Arc<Schema>)>, c: Vec<(String, MountCapability)>|
        s.entities@ == entities && m@ == schemas && c@ == capabilities && #[trigger] call_ensures(
            H::validate_loaded_relations,
            (&h.inner(), s, &m, &c),
            reply,
        )
}

/// Whether `reply` may be what the host finds when it holds a file to the
/// invariants of a mem entity.
pub open spec fn strict_reply<H: Host>(
    h: &Surroundings<H>,
    content: Seq<char>,
    entity: Entity,
    type_def: TypeDefinition,
    path: Seq<char>,
    reply: Result<(), String>,
) -> bool {
    exists|c: &str, p: &str|
        c@ == content && p@ == path && #[trigger] call_ensures(
            H::validate_strict,
            (&h.inner(), c, &entity, &type_def, p),
            reply,
        )
}

/// Whether `reply` may be what the host reads from a mem directory.
pub open spec fn directory_reply<H: Host>(
    h: &Surroundings<H>,
    root: Seq<char>,
    reply: Result<Vec<SourceEntry>, String>,
) -> bool {
    exists|r: &str| r@ == root && #[trigger] call_ensures(H::read_directory, (&h.inner(), r), reply)
}

/// Whether `type_def` may be the type that the host finds an entity file to
/// be of.
pub open spec fn entry_type_reply<H: Host>(
    h: &Surroundings<H>,
    schema: Arc<Schema>,
    content: Seq<char>,
    type_def: TypeDefinition,
) -> bool {
    exists|c: &str|
        c@ == content && #[trigger] call_ensures(
            H::entry_type,
            (&h.inner(), &schema, c),
            type_def,
        )
}

/// Whether `reply` may be what the host parses from one entity file.
pub open spec fn parse_one_reply<H: Host>(
    h: &Surroundings<H>,
    content: Seq<char>,
    path: Seq<char>,
    type_def: TypeDefinition,
    mem: Seq<char>,
    reply: Result<Entity, ParseError>,
) -> bool {
    exists|c: &str, p: &str, m: &str|
        c@ == content && p@ == path && m@ == mem && #[trigger] call_ensures(
            H::parse_entity,
            (&h.inner(), c, p, &type_def, m),
            reply,
        )
}

/// Whether `reply` may be what the host says of section keys.
pub open spec fn keys_reply<H: Host>(
    h: &Surroundings<H>,
    keys: Seq<Seq<char>>,
    type_def: TypeDefinition,
    reply: Result<(), crate::error::ValidationError>,
) -> bool {
    exists|k: Vec<String>|
        texts(k@) == keys && #[trigger] call_ensures(
            H::check_section_keys,
            (&h.inner(), &k, &type_def),
            reply,
        )
}

/// Whether `reply` may be what the host says of a catch-all section.
pub open spec fn catch_all_reply<H: Host>(
    h: &Surroundings<H>,
    type_def: TypeDefinition,
    reply: Option<Vec<String>>,
) -> bool {
    call_ensures(H::catch_all_headings, (&h.inner(), &type_def), reply)
}

/// Whether `reply` may be what the host says of section bodies.
pub open spec fn content_reply<H: Host>(
    h: &Surroundings<H>,
    sections: Seq<(String, String)>,
    catch_all: Option<Vec<String>>,
    reply: Result<(), crate::error::ValidationError>,
) -> bool {
    exists|s: Vec<(String, String)>|
        s@ == sections && #[trigger] call_ensures(
            H::check_section_content,
            (&h.inner(), &s, &catch_all),
            reply,
        )
}

/// Whether `reply` may be where the host takes a pinned schema from.
pub open spec fn source_reply<H: Host>(
    h: &Surroundings<H>,
    config: MemConfig,
    reply: Option<String>,
) -> bool {
    call_ensures(H::schema_source, (&h.inner(), &config), reply)
}

/// Whether the host's clock may show this time.
pub open spec fn now_reply<H: Host>(h: &Surroundings<H>, reply: u64) -> bool {
    call_ensures(H::now, (&h.inner(),), reply)
}

/// Whether `reply` may be what stamping the mem's config warns of.
pub open spec fn stamp_reply<H: Host>(
    h: &Surroundings<H>,
    mem: Seq<char>,
    reply: Vec<WarningHint>,
) -> bool {
    exists|m: &str| m@ == mem && #[trigger] call_ensures(
        H::stamp_mutation_versions,
        (&h.inner(), m),
        reply,
    )
}

/// Whether `reply` may be the changes of a folder mem after a cursor.
pub open spec fn folder_changes_reply<H: Host>(
    h: &Surroundings<H>,
    path: Seq<char>,
    mem: Seq<char>,
    since: Seq<char>,
    reply: Result<BackendChanges, BackendError>,
) -> bool {
    exists|p: &str, m: &str, s: &str|
        p@ == path && m@ == mem && s@ == since && #[trigger] call_ensures(
            H::folder_changes_since,
            (&h.inner(), p, m, s),
            reply,
        )
}

/// Whether `reply` may be the changes of a branch after a commit.
pub open spec fn git_changes_reply<H: Host>(
    h: &Surroundings<H>,
    gitdir: Seq<char>,
    branch: Seq<char>,
    mem: Seq<char>,
    since: Seq<char>,
    similarity: Similarity,
    reply: Option<Result<BackendChanges, BackendError>>,
) -> bool {
    exists|g: &str, b: &str, m: &str, s: &str|
        g@ == gitdir && b@ == branch && m@ == mem && s@ == since && #[trigger] call_ensures(
            H::git_changes_since,
            (&h.inner(), g, b, m, s, &similarity),
            reply,
        )
}

/// Whether `reply` may be what a fetch brings.
pub open spec fn fetch_reply<H: Host>(
    h: &Surroundings<H>,
    gitdir: Seq<char>,
    remote: Seq<char>,
    refspecs: Seq<Seq<char>>,
    reply: Option<Result<FetchOutcome, BackendError>>,
) -> bool {
    exists|g: &str, r: &str, s: Vec<String>|
        g@ == gitdir && r@ == remote && texts(s@) == refspecs && #[trigger] call_ensures(
            H::git_fetch,
            (&h.inner(), g, r, &s),
            reply,
        )
}

/// Whether `reply` may be what a pull does.
pub open spec fn pull_reply<H: Host>(
    h: &Surroundings<H>,
    gitdir: Seq<char>,
    remote: Seq<char>,
    mem: Seq<char>,
    reply: Option<Result<PullOutcome, BackendError>>,
) -> bool {
    exists|g: &str, r: &str, m: &str|
        g@ == gitdir && r@ == remote && m@ == mem && #[trigger] call_ensures(
            H::git_pull,
            (&h.inner(), g, r, m),
            reply,
        )
}

/// Whether `reply` may be what a push does.
pub open spec fn push_reply<H: Host>(
    h: &Surroundings<H>,
    gitdir: Seq<char>,
    remote: Seq<char>,
    mem: Seq<char>,
    force: bool,
    reply: Option<Result<PushOutcome, BackendError>>,
) -> bool {
    exists|g: &str, r: &str, m: &str|
        g@ == gitdir && r@ == remote && m@ == mem && #[trigger] call_ensures(
            H::git_push,
            (&h.inner(), g, r, m, force),
            reply,
        )
}

/// Whether `reply` may be what configuring a remote does.
pub open spec fn remote_add_reply<H: Host>(
    h: &Surroundings<H>,
    gitdir: Seq<char>,
    name: Seq<char>,
    url: Seq<char>,
    reply: Option<Result<RemoteAddOutcome, BackendError>>,
) -> bool {
    exists|g: &str, n: &str, u: &str|
        g@ == gitdir && n@ == name && u@ == url && #[trigger] call_ensures(
            H::git_remote_add,
            (&h.inner(), g, n, u),
            reply,
        )
}

/// Whether `reply` may be the entity files of the tree at a ref.
pub open spec fn tree_reply<H: Host>(
    h: &Surroundings<H>,
    gitdir: Seq<char>,
    ref_name: Seq<char>,
    reply: Option<Result<Vec<SourceEntry>, BackendError>>,
) -> bool {
    exists|g: &str, r: &str|
        g@ == gitdir && r@ == ref_name && #[trigger] call_ensures(
            H::git_read_tree,
            (&h.inner(), g, r),
            reply,
        )
}

/// Whether `reply` may be what moving a branch does.
pub open spec fn reset_reply<H: Host>(
    h: &Surroundings<H>,
    gitdir: Seq<char>,
    branch: Seq<char>,
    target: Seq<char>,
    reply: Option<Result<BranchResetOutcome, BackendError>>,
) -> bool {
    exists|g: &str, b: &str, t: &str|
        g@ == gitdir && b@ == branch && t@ == target && #[trigger] call_ensures(
            H::git_branch_reset,
            (&h.inner(), g, b, t),
            reply,
        )
}

/// Whether `reply` may be the diff of two refs.
pub open spec fn diff_reply<H: Host>(
    h: &Surroundings<H>,
    gitdir: Seq<char>,
    mem: Seq<char>,
    ref_a: Seq<char>,
    ref_b: Seq<char>,
    config: DiffConfig,
    reply: Option<Result<Diff, BackendError>>,
) -> bool {
    exists|g: &str, m: &str, a: &str, b: &str|
        g@ == gitdir && m@ == mem && a@ == ref_a && b@ == ref_b && #[trigger] call_ensures(
            H::git_diff,
            (&h.inner(), g, m, a, b, &config),
            reply,
        )
}

/// Whether `reply` may be what the host says of a finding.
pub open spec fn finding_reply<H: Host>(
    h: &Surroundings<H>,
    finding: CheckFinding,
    reply: Result<(), String>,
) -> bool {
    call_ensures(H::validate_finding, (&h.inner(), &finding), reply)
}

/// Whether `reply` may be the health conditions that the host knows.
pub open spec fn conditions_reply<H: Host>(h: &Surroundings<H>, reply: Vec<String>) -> bool {
    call_ensures(H::health_conditions, (&h.inner(),), reply)
}

/// Whether `reply` may be the records of the ledger under a root.
pub open spec fn ledger_reply<H: Host>(
    h: &Surroundings<H>,
    root: Seq<char>,
    reply: Vec<CheckRecord>,
) -> bool {
    exists|r: &str| r@ == root && #[trigger] call_ensures(H::ledger_records, (&h.inner(), r), reply)
}

/// Whether `reply` may be what appending a record to the ledger does.
pub open spec fn append_reply<H: Host>(
    h: &Surroundings<H>,
    root: Seq<char>,
    record: CheckRecord,
    reply: Result<(), String>,
) -> bool {
    exists|r: &str| r@ == root && #[trigger] call_ensures(
        H::ledger_append,
        (&h.inner(), r, &record),
        reply,
    )
}

/// Whether `reply` may be what carrying the records of an id to another does.
pub open spec fn carry_rename_reply<H: Host>(
    h: &Surroundings<H>,
    root: Seq<char>,
    old: Seq<char>,
    new: Seq<char>,
    reply: Result<usize, String>,
) -> bool {
    exists|r: &str, o: &str, n: &str|
        r@ == root && o@ == old && n@ == new && #[trigger] call_ensures(
            H::ledger_carry_rename,
            (&h.inner(), r, o, n),
            reply,
        )
}

/// Whether `reply` may be what carrying a record across a transition does.
pub open spec fn carry_transition_reply<H: Host>(
    h: &Surroundings<H>,
    root: Seq<char>,
    id: Seq<char>,
    kind: Seq<char>,
    pre_hash: Seq<char>,
    post_hash: Seq<char>,
    reply: Result<bool, String>,
) -> bool {
    exists|r: &str, i: &str, k: &str, a: &str, b: &str|
        r@ == root && i@ == id && k@ == kind && a@ == pre_hash && b@ == post_hash
            && #[trigger] call_ensures(
                H::ledger_carry_transition,
                (&h.inner(), r, i, k, a, b),
                reply,
            )
}

/// Whether `reply` may be what the host says of the checks of an entity.
pub open spec fn confirms_reply<H: Host>(
    h: &Surroundings<H>,
    entity: Entity,
    kind: Seq<char>,
    reply: bool,
) -> bool {
    exists|k: &str| k@ == kind && #[trigger] call_ensures(
        H::check_confirms,
        (&h.inner(), &entity, k),
        reply,
    )
}

/// Whether `reply` may be what taking archive bytes apart gives.
pub open spec fn extract_reply<H: Host>(
    h: &Surroundings<H>,
    bytes: Seq<u8>,
    limits: ValidatorLimits,
    reply: Result<ArchiveEntries, ValidationError>,
) -> bool {
    exists|b: Vec<u8>|
        b@ == bytes && #[trigger] call_ensures(H::extract_archive, (&h.inner(), &b, &limits), reply)
}

/// Whether `reply` may be the archive formats that the engine accepts.
pub open spec fn formats_reply<H: Host>(h: &Surroundings<H>, reply: Vec<u32>) -> bool {
    call_ensures(H::accepted_formats, (&h.inner(),), reply)
}

/// Whether `reply` may be the name of the marker file.
pub open spec fn marker_reply<H: Host>(h: &Surroundings<H>, reply: String) -> bool {
    call_ensures(H::schema_format_marker, (&h.inner(),), reply)
}

/// Whether `reply` may be what loading a schema package gives.
pub open spec fn package_reply<H: Host>(
    h: &Surroundings<H>,
    manifest: Seq<char>,
    types: Seq<(Seq<char>, Seq<char>)>,
    format: PolarityFormat,
    reply: Result<Arc<Schema>, String>,
) -> bool {
    exists|m: &str, t: Vec<(String, String)>|
        m@ == manifest && views(t@) == types && #[trigger] call_ensures(
            H::load_schema,
            (&h.inner(), m, &t, format),
            reply,
        )
}

/// Whether `reply` may be what of a mutation log is carried.
pub open spec fn redact_reply<H: Host>(
    h: &Surroundings<H>,
    records: Seq<Provenance>,
    paths: Seq<String>,
    reply: RedactedProvenance,
) -> bool {
    exists|r: Vec<Provenance>, p: Vec<String>|
        r@ == records && p@ == paths && #[trigger] call_ensures(
            H::redact_provenance,
            (&h.inner(), &r, &p),
            reply,
        )
}

/// Whether `reply` may be what sealing a mem gives.
pub open spec fn seal_reply<H: Host>(
    h: &Surroundings<H>,
    request: ExportRequest,
    reply: Result<MemExportBytes, String>,
) -> bool {
    call_ensures(H::seal_archive, (&h.inner(), &request), reply)
}

/// Whether `reply` may be what the host says of its git layer's export.
pub open spec fn wired_reply<H: Host>(h: &Surroundings<H>, reply: bool) -> bool {
    call_ensures(H::git_export_wired, (&h.inner(),), reply)
}

/// Whether `reply` may be what sealing a branch gives.
pub open spec fn git_seal_reply<H: Host>(
    h: &Surroundings<H>,
    request: ExportRequest,
    reply: Result<MemExportBytes, BackendError>,
) -> bool {
    call_ensures(H::git_seal_archive, (&h.inner(), &request), reply)
}

} // verus!
