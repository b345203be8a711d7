//! The storage of a mem, as the engine sees it.

use crate::check::SealedCheck;
use crate::text::{opt_text, own};
use crate::workspace::MemConfig;
use vstd::prelude::*;
use vstd::utf8::{encode_utf8, valid_utf8};

verus! {

/// Why a backend operation failed.
#[derive(Debug, Clone)]
pub enum BackendError {
    /// The storage is sealed and takes no writes.
    Sealed,
    /// Reading or writing failed.
    Io(String),
    /// Any other failure. A backend marks a failure that the engine knows by
    /// a prefix of the message.
    Other(String),
}

impl BackendError {
    /// What the error says.
    pub open spec fn text(&self) -> Seq<char> {
        match *self {
            BackendError::Sealed => "backend is sealed"@,
            BackendError::Io(m) => m@,
            BackendError::Other(m) => m@,
        }
    }

    /// What the error says.
    pub fn message(&self) -> (r: String)
        ensures
            r@ == self.text(),
    {
        match self {
            BackendError::Sealed => own("backend is sealed"),
            BackendError::Io(m) => m.clone(),
            BackendError::Other(m) => m.clone(),
        }
    }
}

/// Who writes.
#[derive(Debug, Clone, Copy, PartialEq, Eq, Structural)]
pub enum Actor {
    Agent,
    Cli,
}

impl Actor {
    /// The token under which a commit names the actor.
    pub open spec fn token(&self) -> Seq<char> {
        match self {
            Actor::Agent => "agent"@,
            Actor::Cli => "cli"@,
        }
    }

    /// The token under which a commit names the actor.
    pub fn as_trailer(&self) -> (r: &'static str)
        ensures
            r@ == self.token(),
    {
        match self {
            Actor::Agent => "agent",
            Actor::Cli => "cli",
        }
    }
}

/// The client through which an actor writes.
#[derive(Debug, Clone)]
pub struct ClientId {
    pub name: String,
    pub version: String,
}

impl ClientId {
    /// A copy of the client.
    pub fn copy(&self) -> (r: ClientId)
        ensures
            r == *self,
    {
        ClientId { name: self.name.clone(), version: self.version.clone() }
    }
}

/// What a commit says of its origin.
#[derive(Debug, Clone)]
pub struct CommitContext {
    pub actor: Actor,
    pub client: Option<ClientId>,
    pub tool: String,
    pub note: Option<String>,
    pub role: Option<String>,
    pub identity: Option<String>,
}

/// One line of a mem's mutation log.
#[derive(Debug, Clone)]
pub struct Provenance {
    pub ts: u64,
    pub kind: String,
    pub entity: Option<String>,
    pub actor: Actor,
    pub client: Option<ClientId>,
    pub note: Option<String>,
    pub role: Option<String>,
    pub identity: Option<String>,
}

/// The storage of one mem. Implementors serve reads and writes; of what they
/// answer the engine takes nothing for granted.
pub trait MemBackend {
    /// The head of the storage, where it tracks one.
    fn current_head(&self) -> Result<Option<String>, BackendError>;

    /// The config that the mem carries, where it has a readable one.
    fn read_mem_config(&self) -> Option<MemConfig>;

    /// The check records that the mem carries sealed.
    fn read_sealed_checks(&self) -> Option<Vec<SealedCheck>>;

    /// Whether the storage that the mount names exists.
    fn storage_present(&self) -> Result<bool, BackendError>;

    /// Every entity file by its path, with its bytes or why they could not be
    /// read.
    fn read_all_entities(&self) -> Result<Vec<(String, Result<Vec<u8>, String>)>, BackendError>;

    /// The paths of the entity files.
    fn list_entities(&self) -> Result<Vec<String>, BackendError>;

    /// The bytes of one entity file, where it exists.
    fn read_entity(&self, path: &str) -> Result<Option<Vec<u8>>, BackendError>;

    /// Write one entity file.
    fn write_entity(&self, path: &str, content: &str) -> Result<(), BackendError>;

    /// Commit what was written; the id of the write comes back.
    fn commit(&self, message: &str, context: &CommitContext) -> Result<String, BackendError>;

    /// Append a line to the mutation log.
    fn append_provenance(&self, record: &Provenance) -> Result<(), BackendError>;

    /// The mutation log.
    fn read_provenance(&self) -> Result<Vec<Provenance>, BackendError>;

    /// The anchors that the mem carries.
    fn read_anchors_sidecar(&self) -> Result<Option<Vec<u8>>, BackendError>;
}

/// A backend that serves sealed archive bytes.
pub trait SealedBackend: MemBackend + Sized {
    /// The backend over the bytes of an archive.
    fn from_bytes(bytes: Vec<u8>) -> Self;
}

/// Where a write comes from.
pub struct Origin {
    pub actor: Actor,
    pub client: Option<ClientId>,
    pub note: Option<Seq<char>>,
    pub role: Option<String>,
    pub identity: Option<String>,
}

impl CommitContext {
    /// Where the commit comes from.
    pub open spec fn origin(&self) -> Origin {
        Origin {
            actor: self.actor,
            client: self.client,
            note: opt_text(self.note),
            role: self.role,
            identity: self.identity,
        }
    }
}

impl Provenance {
    /// Where the mutation comes from.
    pub open spec fn origin(&self) -> Origin {
        Origin {
            actor: self.actor,
            client: self.client,
            note: opt_text(self.note),
            role: self.role,
            identity: self.identity,
        }
    }
}

/// What was asked of a storage beyond reading.
pub enum StorageCall {
    /// Write a file.
    Write { path: Seq<char>, content: Seq<char> },
    /// Commit what was written.
    Commit { message: Seq<char>, tool: Seq<char>, from: Origin },
    /// Log a mutation.
    Log { ts: u64, kind: Seq<char>, entity: Option<Seq<char>>, from: Origin },
}

/// The storage of a mem with an account of what was asked of it beyond
/// reading. The engine reaches a backend through this alone, so that a
/// contract on the account tells which writes there were.
pub struct Storage<B> {
    backend: B,
    calls: Ghost<Seq<StorageCall>>,
}

impl<B> Storage<B> {
    /// The backend itself.
    pub closed spec fn inner(&self) -> B {
        self.backend
    }

    /// What was asked of the backend, oldest first.
    pub closed spec fn calls(&self) -> Seq<StorageCall> {
        self.calls@
    }

    /// Storage of which nothing was asked yet.
    pub fn new(backend: B) -> (r: Storage<B>)
        ensures
            r.inner() == backend,
            r.calls() == Seq::<StorageCall>::empty(),
    {
        Storage { backend, calls: Ghost(Seq::empty()) }
    }
}

impl<B: MemBackend> Storage<B> {
    /// The head of the storage, where it tracks one.
    pub fn current_head(&self) -> (r: Result<Option<String>, BackendError>)
        ensures
            head_reply(self, r),
    {
        self.backend.current_head()
    }

    /// The config that the mem carries, where it has a readable one.
    pub fn read_mem_config(&self) -> (r: Option<MemConfig>)
        ensures
            config_reply(self, r),
    {
        self.backend.read_mem_config()
    }

    /// The check records that the mem carries sealed.
    pub fn read_sealed_checks(&self) -> (r: Option<Vec<SealedCheck>>)
        ensures
            sealed_reply(self, r),
    {
        self.backend.read_sealed_checks()
    }

    /// Whether the storage that the mount names exists.
    pub fn storage_present(&self) -> (r: Result<bool, BackendError>)
        ensures
            present_reply(self, r),
    {
        self.backend.storage_present()
    }

    /// Every entity file by its path, with its bytes or why they could not be
    /// read.
    pub fn read_all_entities(&self) -> (r: Result<
        Vec<(String, Result<Vec<u8>, String>)>,
        BackendError,
    >)
        ensures
            reads_reply(self, r),
    {
        self.backend.read_all_entities()
    }

    /// The paths of the entity files.
    pub fn list_entities(&self) -> (r: Result<Vec<String>, BackendError>)
        ensures
            list_reply(self, r),
    {
        self.backend.list_entities()
    }

    /// The bytes of one entity file, where it exists.
    pub fn read_entity(&self, path: &str) -> (r: Result<Option<Vec<u8>>, BackendError>)
        ensures
            entity_reply(self, path@, r),
    {
        let r = self.backend.read_entity(path);
        assert(call_ensures(B::read_entity, (&self.inner(), path), r));
        r
    }

    /// Write one entity file.
    pub fn write_entity(&mut self, path: &str, content: &str) -> (r: Result<(), BackendError>)
        ensures
            final(self).inner() == old(self).inner(),
            final(self).calls() == old(self).calls() + seq![(StorageCall::Write {
                path: path@,
                content: content@,
            })],
            write_reply(old(self), path@, content@, r),
    {
        let r = self.backend.write_entity(path, content);
        proof {
            assert(call_ensures(B::write_entity, (&old(self).inner(), path, content), r));
            assert(write_reply(old(self), path@, content@, r));
            self.calls@ = self.calls@ + seq![StorageCall::Write { path: path@, content: content@ }];
        }
        r
    }

    /// Commit what was written; the id of the write comes back.
    pub fn commit(
        &mut self,
        message: &str,
        context: &CommitContext,
    ) -> (r: Result<String, BackendError>)
        ensures
            final(self).inner() == old(self).inner(),
            final(self).calls() == old(self).calls() + seq![(StorageCall::Commit {
                    message: message@,
                    tool: context.tool@,
                    from: context.origin(),
                })],
            commit_reply(old(self), message@, context.tool@, context.origin(), r),
    {
        let r = self.backend.commit(message, context);
        proof {
            assert(call_ensures(B::commit, (&old(self).inner(), message, context), r));
            assert(commit_reply(old(self), message@, context.tool@, context.origin(), r));
            self.calls@ = self.calls@ + seq![StorageCall::Commit {
                    message: message@,
                    tool: context.tool@,
                    from: context.origin(),
                }];
        }
        r
    }

    /// Append a line to the mutation log.
    pub fn append_provenance(&mut self, record: &Provenance) -> (r: Result<(), BackendError>)
        ensures
            final(self).inner() == old(self).inner(),
            final(self).calls() == old(self).calls() + seq![(StorageCall::Log {
                    ts: record.ts,
                    kind: record.kind@,
                    entity: opt_text(record.entity),
                    from: record.origin(),
                })],
            record.entity matches Some(e) ==> provenance_reply(
                old(self),
                record.ts,
                record.kind@,
                e@,
                record.origin(),
                r,
            ),
    {
        let r = self.backend.append_provenance(record);
        proof {
            assert(call_ensures(B::append_provenance, (&old(self).inner(), record), r));
            if let Some(e) = &record.entity {
                assert(provenance_reply(
                    old(self),
                    record.ts,
                    record.kind@,
                    e@,
                    record.origin(),
                    r,
                ));
            }
            self.calls@ = self.calls@ + seq![StorageCall::Log {
                    ts: record.ts,
                    kind: record.kind@,
                    entity: opt_text(record.entity),
                    from: record.origin(),
                }];
        }
        r
    }

    /// The mutation log.
    pub fn read_provenance(&self) -> (r: Result<Vec<Provenance>, BackendError>)
        ensures
            log_reply(self, r),
    {
        self.backend.read_provenance()
    }

    /// The anchors that the mem carries.
    pub fn read_anchors_sidecar(&self) -> (r: Result<Option<Vec<u8>>, BackendError>)
        ensures
            anchors_reply(self, r),
    {
        self.backend.read_anchors_sidecar()
    }
}

/// Whether `b` may be the backend over the bytes of an archive.
pub open spec fn sealed_over<B: SealedBackend>(bytes: Vec<u8>, b: Storage<B>) -> bool {
    call_ensures(B::from_bytes, (bytes,), b.inner())
}

/// Whether `reply` may be the head that the storage answers with.
pub open spec fn head_reply<B: MemBackend>(
    b: &Storage<B>,
    reply: Result<Option<String>, BackendError>,
) -> bool {
    call_ensures(B::current_head, (&b.inner(),), reply)
}

/// The head that a reply tells of; a failed probe tells of none.
pub open spec fn head_told(reply: Result<Option<String>, BackendError>) -> Option<Seq<char>> {
    match reply {
        Ok(h) => opt_text(h),
        Err(_) => None,
    }
}

/// Whether `reply` may be the config that the storage carries.
pub open spec fn config_reply<B: MemBackend>(b: &Storage<B>, reply: Option<MemConfig>) -> bool {
    call_ensures(B::read_mem_config, (&b.inner(),), reply)
}

/// Whether `reply` may be the check records that the storage carries sealed.
pub open spec fn sealed_reply<B: MemBackend>(
    b: &Storage<B>,
    reply: Option<Vec<SealedCheck>>,
) -> bool {
    call_ensures(B::read_sealed_checks, (&b.inner(),), reply)
}

/// Whether `reply` may be what the storage says of its own presence.
pub open spec fn present_reply<B: MemBackend>(
    b: &Storage<B>,
    reply: Result<bool, BackendError>,
) -> bool {
    call_ensures(B::storage_present, (&b.inner(),), reply)
}

/// Whether storage counts as present; a failed probe reads as present.
pub open spec fn counts_as_present(reply: Result<bool, BackendError>) -> bool {
    match reply {
        Ok(p) => p,
        Err(_) => true,
    }
}

/// Whether `reply` may be what the storage reads of its entity files.
pub open spec fn reads_reply<B: MemBackend>(
    b: &Storage<B>,
    reply: Result<Vec<(String, Result<Vec<u8>, String>)>, BackendError>,
) -> bool {
    call_ensures(B::read_all_entities, (&b.inner(),), reply)
}

/// Whether `reply` may be the paths that the storage lists.
pub open spec fn list_reply<B: MemBackend>(
    b: &Storage<B>,
    reply: Result<Vec<String>, BackendError>,
) -> bool {
    call_ensures(B::list_entities, (&b.inner(),), reply)
}

/// Whether `reply` may be what the storage reads of one file.
pub open spec fn entity_reply<B: MemBackend>(
    b: &Storage<B>,
    path: Seq<char>,
    reply: Result<Option<Vec<u8>>, BackendError>,
) -> bool {
    exists|p: &str| p@ == path && #[trigger] call_ensures(B::read_entity, (&b.inner(), p), reply)
}

/// Whether `reply` may be the mutation log of the storage.
pub open spec fn log_reply<B: MemBackend>(
    b: &Storage<B>,
    reply: Result<Vec<Provenance>, BackendError>,
) -> bool {
    call_ensures(B::read_provenance, (&b.inner(),), reply)
}

/// The mutation log that a reply tells of; a failed read tells of none.
pub open spec fn log_told(reply: Result<Vec<Provenance>, BackendError>) -> Seq<Provenance> {
    match reply {
        Ok(v) => v@,
        Err(_) => Seq::empty(),
    }
}

/// Whether `reply` may be the anchors that the storage carries.
pub open spec fn anchors_reply<B: MemBackend>(
    b: &Storage<B>,
    reply: Result<Option<Vec<u8>>, BackendError>,
) -> bool {
    call_ensures(B::read_anchors_sidecar, (&b.inner(),), reply)
}

/// Whether `reply` may be what writing a file does.
pub open spec fn write_reply<B: MemBackend>(
    b: &Storage<B>,
    path: Seq<char>,
    content: Seq<char>,
    reply: Result<(), BackendError>,
) -> bool {
    exists|p: &str, c: &str|
        p@ == path && c@ == content && #[trigger] call_ensures(
            B::write_entity,
            (&b.inner(), p, c),
            reply,
        )
}

/// Whether `reply` may be what committing does, under a message, for a tool
/// and from an origin.
pub open spec fn commit_reply<B: MemBackend>(
    b: &Storage<B>,
    message: Seq<char>,
    tool: Seq<char>,
    from: Origin,
    reply: Result<String, BackendError>,
) -> bool {
    exists|m: &str, c: CommitContext|
        m@ == message && c.tool@ == tool && c.origin() == from && #[trigger] call_ensures(
            B::commit,
            (&b.inner(), m, &c),
            reply,
        )
}

/// Whether `reply` may be what logging a mutation of an entity does.
pub open spec fn provenance_reply<B: MemBackend>(
    b: &Storage<B>,
    ts: u64,
    kind: Seq<char>,
    entity: Seq<char>,
    from: Origin,
    reply: Result<(), BackendError>,
) -> bool {
    exists|p: Provenance|
        p.ts == ts && p.kind@ == kind && opt_text(p.entity) == Some(entity) && p.origin() == from
            && #[trigger] call_ensures(
            B::append_provenance,
            (&b.inner(), &p),
            reply,
        )
}

/// What is said of bytes that are no UTF-8.
pub uninterp spec fn utf8_error(bytes: Seq<u8>) -> Seq<char>;

/// `String::from_utf8`: the text that bytes encode, where they are valid
/// UTF-8. The words of the error are left to the name `utf8_error`.
#[verifier::external_body]
pub(crate) fn text_of_bytes(bytes: Vec<u8>) -> (r: Result<String, String>)
    ensures
        match r {
            Ok(s) => valid_utf8(bytes@) && encode_utf8(s@) == bytes@,
            Err(m) => !valid_utf8(bytes@) && m@ == utf8_error(bytes@),
        },
{
    String::from_utf8(bytes).map_err(|e| e.to_string())
}

} // verus!
