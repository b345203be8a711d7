//! The engine: mounted mems, their schemas and entities, and what is held
//! back until a response is built.

use crate::backend::Storage;
use crate::check::SealedCheck;
use crate::entity::{entity_of, Entity, EntityId, Store};
use crate::error::EngineError;
use crate::events::{callbacks_of, SubscriberRegistry, SubscriptionHandle, VaultChangedEvent};
use crate::host::{HostCall, Surroundings};
use crate::ops::{MemChangedNotice, WarningHint};
use crate::schema::Schema;
use crate::text::{opt_text, own, same};
use crate::workspace::{MemConfig, Mount};
use std::sync::Arc;
use vstd::prelude::*;

verus! {

/// A mount with its storage and what the engine knows of it.
pub struct MountedBackend<B> {
    pub mount: Mount,
    pub backend: Storage<B>,
    /// The head at which the mem was last read or written.
    pub last_known_head: Option<String>,
    pub mem_config: Option<MemConfig>,
    pub sealed_checks: Option<Vec<SealedCheck>>,
    /// Whether reading the entities waits for the first operation on the mem.
    pub deferred: bool,
}

/// A mem that is configured but cannot serve, with the reason.
#[derive(Debug)]
pub struct QuarantinedMem {
    pub mount: Mount,
    pub reason_code: String,
    pub reason_message: String,
}

/// Where a mem's files lie, as the handlers ask for it.
#[derive(Debug, Clone)]
pub enum RouterEntry {
    Writable { mem: String, dir: Option<String> },
    ReadOnly { mem: String, path: String },
}

/// An engine over mounts with storage `B` in the surroundings `H`.
pub struct Engine<B, H> {
    pub host: Surroundings<H>,
    pub mounts: Vec<MountedBackend<B>>,
    pub store: Store,
    /// The schema of each serving mem.
    pub schemas: Vec<(String, Arc<Schema>)>,
    pub workspace_schemas: Vec<Arc<Schema>>,
    pub builtin_schemas: Vec<Arc<Schema>>,
    /// Entity files that did not load, by path, with the reason.
    pub load_errors: Vec<(String, String)>,
    pub load_warnings: Vec<WarningHint>,
    pub quarantined: Vec<QuarantinedMem>,
    pub router: Vec<RouterEntry>,
    /// What reloads applied, until a response takes it.
    pub pending_mem_changed: Vec<MemChangedNotice>,
    /// Events that are still to be delivered, oldest first.
    pub pending_events: Vec<VaultChangedEvent>,
    pub workspace_root: Option<String>,
    pub current_role: Option<String>,
    pub current_identity: Option<String>,
}

/// Where the mount of `mem` first stands, from `i` on.
pub open spec fn mount_index<B>(s: Seq<MountedBackend<B>>, mem: Seq<char>, i: int) -> Option<int>
    decreases s.len() - i,
{
    if i < 0 || i >= s.len() {
        None
    } else if s[i].mount.mem@ == mem {
        Some(i)
    } else {
        mount_index(s, mem, i + 1)
    }
}

/// What is found is the first mount of the mem.
pub proof fn lemma_mount_index<B>(s: Seq<MountedBackend<B>>, mem: Seq<char>, i: int)
    requires
        0 <= i <= s.len(),
    ensures
        mount_index(s, mem, i) matches Some(k) ==> i <= k < s.len() && s[k].mount.mem@ == mem,
        mount_index(s, mem, i) is None ==> forall|j: int|
            i <= j < s.len() ==> (#[trigger] s[j]).mount.mem@ != mem,
    decreases s.len() - i,
{
    if i < s.len() && s[i].mount.mem@ != mem {
        lemma_mount_index(s, mem, i + 1);
    }
}

/// Whether no two mounts are of the same mem.
pub open spec fn mems_apart<B>(s: Seq<MountedBackend<B>>) -> bool {
    forall|i: int, j: int|
        #![trigger s[i], s[j]]
        0 <= i < j < s.len() ==> s[i].mount.mem@ != s[j].mount.mem@
}

/// The schema of `mem`, from `i` on.
pub open spec fn schema_index(s: Seq<(String, Arc<Schema>)>, mem: Seq<char>, i: int) -> Option<int>
    decreases s.len() - i,
{
    if i < 0 || i >= s.len() {
        None
    } else if s[i].0@ == mem {
        Some(i)
    } else {
        schema_index(s, mem, i + 1)
    }
}

/// The schema of `mem`.
pub open spec fn schema_of(s: Seq<(String, Arc<Schema>)>, mem: Seq<char>) -> Option<Arc<Schema>> {
    match schema_index(s, mem, 0) {
        Some(i) => Some(s[i].1),
        None => None,
    }
}

/// Where the quarantine of `mem` first stands, from `i` on.
pub open spec fn quarantine_index(s: Seq<QuarantinedMem>, mem: Seq<char>, i: int) -> Option<int>
    decreases s.len() - i,
{
    if i < 0 || i >= s.len() {
        None
    } else if s[i].mount.mem@ == mem {
        Some(i)
    } else {
        quarantine_index(s, mem, i + 1)
    }
}

/// Whether an error says that a mem does not serve: that it is quarantined
/// and why, or else that nothing mounts it.
pub open spec fn says_unknown(q: Seq<QuarantinedMem>, mem: Seq<char>, e: EngineError) -> bool {
    match quarantine_index(q, mem, 0) {
        Some(i) => e matches EngineError::MemQuarantined { mem: m, reason_code, reason_message }
            && m@ == mem && reason_code == q[i].reason_code && reason_message
            == q[i].reason_message,
        None => e matches EngineError::UnknownMem(m) && m@ == mem,
    }
}

/// Whether an error says that nothing mounts the mem.
pub open spec fn says_unmounted(mem: Seq<char>, e: EngineError) -> bool {
    e matches EngineError::UnknownMem(m) && m@ == mem
}

/// Whether `post` is `pre` after its surroundings were asked for `calls` and
/// nothing else changed.
pub open spec fn asked<B, H>(pre: Engine<B, H>, post: Engine<B, H>, calls: Seq<HostCall>) -> bool {
    &&& post.host.inner() == pre.host.inner()
    &&& post.host.calls() == pre.host.calls() + calls
    &&& post == (Engine { host: post.host, ..pre })
}

impl<B, H> Engine<B, H> {
    /// Where the mount of `mem` stands.
    pub open spec fn mount_at(&self, mem: Seq<char>) -> Option<int> {
        mount_index(self.mounts@, mem, 0)
    }

    /// The mount of `mem`.
    pub open spec fn mount_of(&self, mem: Seq<char>) -> Option<MountedBackend<B>> {
        match self.mount_at(mem) {
            Some(i) => Some(self.mounts@[i]),
            None => None,
        }
    }

    /// The config of `mem`.
    pub open spec fn config_of(&self, mem: Seq<char>) -> Option<MemConfig> {
        match self.mount_of(mem) {
            Some(m) => m.mem_config,
            None => None,
        }
    }

    /// The head at which `mem` is known.
    pub open spec fn known_head(&self, mem: Seq<char>) -> Option<Seq<char>> {
        match self.mount_of(mem) {
            Some(m) => opt_text(m.last_known_head),
            None => None,
        }
    }

    /// Where the mount of `mem` stands.
    pub fn position(&self, mem: &str) -> (r: Option<usize>)
        ensures
            match r {
                Some(i) => self.mount_at(mem@) == Some(i as int) && i < self.mounts@.len()
                    && self.mounts@[i as int].mount.mem@ == mem@,
                None => self.mount_at(mem@) is None,
            },
    {
        let mut i: usize = 0;
        while i < self.mounts.len()
            invariant
                i <= self.mounts@.len(),
                self.mount_at(mem@) == mount_index(self.mounts@, mem@, i as int),
            decreases self.mounts@.len() - i,
        {
            if same(&self.mounts[i].mount.mem, mem) {
                return Some(i);
            }
            i = i + 1;
        }
        None
    }

    /// The schema of `mem`.
    pub fn schema_for(&self, mem: &str) -> (r: Option<&Arc<Schema>>)
        ensures
            match r {
                Some(s) => schema_of(self.schemas@, mem@) == Some(*s),
                None => schema_of(self.schemas@, mem@) is None,
            },
    {
        let mut i: usize = 0;
        while i < self.schemas.len()
            invariant
                i <= self.schemas@.len(),
                schema_index(self.schemas@, mem@, 0) == schema_index(
                    self.schemas@,
                    mem@,
                    i as int,
                ),
            decreases self.schemas@.len() - i,
        {
            if same(&self.schemas[i].0, mem) {
                return Some(&self.schemas[i].1);
            }
            i = i + 1;
        }
        None
    }

    /// The config of `mem`.
    pub fn mem_config_for(&self, mem: &str) -> (r: Option<&MemConfig>)
        ensures
            match r {
                Some(c) => self.config_of(mem@) == Some(*c),
                None => self.config_of(mem@) is None,
            },
    {
        match self.position(mem) {
            Some(i) => self.mounts[i].mem_config.as_ref(),
            None => None,
        }
    }

    /// The quarantine of `mem`.
    pub fn quarantine_for(&self, mem: &str) -> (r: Option<&QuarantinedMem>)
        ensures
            match r {
                Some(q) => exists|i: int|
                    quarantine_index(self.quarantined@, mem@, 0) == Some(i) && #[trigger]
                        self.quarantined@[i] == *q,
                None => quarantine_index(self.quarantined@, mem@, 0) is None,
            },
    {
        let mut i: usize = 0;
        while i < self.quarantined.len()
            invariant
                i <= self.quarantined@.len(),
                quarantine_index(self.quarantined@, mem@, 0) == quarantine_index(
                    self.quarantined@,
                    mem@,
                    i as int,
                ),
            decreases self.quarantined@.len() - i,
        {
            if same(&self.quarantined[i].mount.mem, mem) {
                return Some(&self.quarantined[i]);
            }
            i = i + 1;
        }
        None
    }

    /// The error for a mem that does not serve.
    pub fn unknown_mem_error(&self, mem: &str) -> (r: EngineError)
        ensures
            says_unknown(self.quarantined@, mem@, r),
    {
        match self.quarantine_for(mem) {
            Some(q) => EngineError::MemQuarantined {
                mem: own(mem),
                reason_code: q.reason_code.clone(),
                reason_message: q.reason_message.clone(),
            },
            None => EngineError::UnknownMem(own(mem)),
        }
    }

    /// Where the mount of `mem` stands, or why it does not serve.
    pub fn find_mount(&self, mem: &str) -> (r: Result<usize, EngineError>)
        ensures
            match r {
                Ok(i) => self.mount_at(mem@) == Some(i as int) && i < self.mounts@.len(),
                Err(e) => self.mount_at(mem@) is None && says_unknown(
                    self.quarantined@,
                    mem@,
                    e,
                ),
            },
    {
        match self.position(mem) {
            Some(i) => Ok(i),
            None => Err(self.unknown_mem_error(mem)),
        }
    }

    /// The entity `id`.
    pub fn get_entity(&self, id: &EntityId) -> (r: Option<&Entity>)
        ensures
            match r {
                Some(e) => entity_of(self.store.entities@, id.0@) == Some(*e),
                None => entity_of(self.store.entities@, id.0@) is None,
            },
    {
        self.store.get(id)
    }

    /// Whether a mount names `vault`.
    pub fn has_vault(&self, vault: &str) -> (r: bool)
        ensures
            r == (self.mount_at(vault@) is Some),
    {
        self.position(vault).is_some()
    }

    /// Subscribe `callback` to the events of `vault`. A read-only vault takes
    /// subscribers too, and has nothing to tell them.
    pub fn subscribe_vault_changes<C>(
        &self,
        registry: &mut SubscriberRegistry<C>,
        vault: &str,
        callback: C,
    ) -> (r: Result<SubscriptionHandle, EngineError>)
        requires
            old(registry).wf(),
            old(registry).next_id < u64::MAX,
        ensures
            final(registry).wf(),
            match r {
                Ok(h) => self.mount_at(vault@) is Some && h.vault_name@ == vault@ && h.id
                    == old(registry).next_id + 1 && final(registry).next_id == h.id
                    && final(registry).subscribers@.len() == old(registry).subscribers@.len() + 1
                    && final(registry).subscribers@.drop_last() == old(registry).subscribers@
                    && final(registry).subscribers@.last().id == h.id
                    && final(registry).subscribers@.last().vault@ == vault@
                    && final(registry).subscribers@.last().callback == callback,
                Err(e) => self.mount_at(vault@) is None && (e matches EngineError::UnknownVault(v)
                    && v@ == vault@) && *final(registry) == *old(registry),
            },
    {
        if !self.has_vault(vault) {
            return Err(EngineError::UnknownVault(own(vault)));
        }
        let ghost before = registry.subscribers@;
        let id = registry.register(own(vault), callback);
        proof {
            assert(registry.subscribers@.drop_last() =~= before);
        }
        Ok(SubscriptionHandle::new(id, own(vault)))
    }

    /// The callbacks that are to be called with `event`, in the order in
    /// which they registered. The caller calls them.
    pub fn emit_vault_changed<C: Clone>(
        &self,
        registry: &SubscriberRegistry<C>,
        event: &VaultChangedEvent,
    ) -> (r: Vec<C>)
        ensures
            r@.len() == callbacks_of(registry.subscribers@, event.vault@).len(),
            forall|i: int|
                0 <= i < r@.len() ==> cloned(
                    callbacks_of(registry.subscribers@, event.vault@)[i],
                    #[trigger] r@[i],
                ),
    {
        registry.snapshot(&event.vault)
    }

    /// The warnings of loading.
    pub fn load_warnings(&self) -> (r: &Vec<WarningHint>)
        ensures
            *r == self.load_warnings,
    {
        &self.load_warnings
    }

    /// The entities.
    pub fn store(&self) -> (r: &Store)
        ensures
            *r == self.store,
    {
        &self.store
    }
}

} // verus!
