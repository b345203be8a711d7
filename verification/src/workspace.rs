//! Mounts: which mem lies where, under which pin and with which rights.

use crate::schema::{copy_pin, SchemaRef};
use crate::text::own_opt;
use vstd::prelude::*;

verus! {

/// What may be done to a mounted mem.
#[derive(Debug, Clone, Copy, PartialEq, Eq, Structural)]
pub enum MountCapability {
    Write,
    ReadOnly,
}

/// When the entities of a mount are read.
#[derive(Debug, Clone, Copy, PartialEq, Eq, Structural)]
pub enum MountLifecycle {
    Eager,
    Lazy,
}

/// Where a mem is stored.
#[derive(Debug, Clone)]
pub enum MountStorage {
    Folder { path: String },
    Archive { path: String },
    GitBranch { gitdir: String, branch: String },
    InMemory,
}

impl MountStorage {
    /// A copy of the storage record.
    pub fn copy(&self) -> (r: MountStorage)
        ensures
            r == *self,
    {
        match self {
            MountStorage::Folder { path } => MountStorage::Folder { path: path.clone() },
            MountStorage::Archive { path } => MountStorage::Archive { path: path.clone() },
            MountStorage::GitBranch { gitdir, branch } => MountStorage::GitBranch {
                gitdir: gitdir.clone(),
                branch: branch.clone(),
            },
            MountStorage::InMemory => MountStorage::InMemory,
        }
    }
}

/// One mount record.
#[derive(Debug, Clone)]
pub struct Mount {
    pub mem: String,
    /// The pin that the mount expects; the mem's own config decides.
    pub schema: Option<SchemaRef>,
    pub storage: MountStorage,
    pub capability: MountCapability,
    pub lifecycle: MountLifecycle,
    pub cross_linkable: bool,
    /// The pin that a mem in the middle of a migration is held to.
    pub migration_target: Option<SchemaRef>,
}

impl Mount {
    /// A copy of the record.
    pub fn copy(&self) -> (r: Mount)
        ensures
            r == *self,
    {
        Mount {
            mem: self.mem.clone(),
            schema: copy_pin(&self.schema),
            storage: self.storage.copy(),
            capability: self.capability,
            lifecycle: self.lifecycle,
            cross_linkable: self.cross_linkable,
            migration_target: copy_pin(&self.migration_target),
        }
    }
}

/// What the engine last wrote into a mem's config about itself.
#[derive(Debug, Clone)]
pub struct MutationStamp {
    pub engine_version: String,
    pub schema: Option<String>,
}

/// The config that a mem carries.
#[derive(Debug, Clone)]
pub struct MemConfig {
    pub version: Option<String>,
    pub schema: Option<SchemaRef>,
    pub title: Option<String>,
    pub description: Option<String>,
    /// The scope of the mem's subject.
    pub subject: Option<String>,
    pub mutation_stamp: Option<MutationStamp>,
}

impl MemConfig {
    /// A copy of the config.
    pub fn copy(&self) -> (r: MemConfig)
        ensures
            r == *self,
    {
        MemConfig {
            version: own_opt(&self.version),
            schema: copy_pin(&self.schema),
            title: own_opt(&self.title),
            description: own_opt(&self.description),
            subject: own_opt(&self.subject),
            mutation_stamp: match &self.mutation_stamp {
                Some(s) => Some(
                    MutationStamp {
                        engine_version: s.engine_version.clone(),
                        schema: own_opt(&s.schema),
                    },
                ),
                None => None,
            },
        }
    }
}

} // verus!
