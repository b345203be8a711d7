//! Entities, their ids, and the store that holds them.

use crate::text::{chars_of, ends, find, find_chars, own, same, slice_of, stands_at};
use vstd::prelude::*;

verus! {

/// The id of an entity: the mem's name, `--`, and the path inside the mem.
#[derive(Debug, Clone, PartialEq, Eq, Hash)]
pub struct EntityId(pub String);

/// The mem that an id names: what stands before the first `--`.
pub open spec fn id_mem(id: Seq<char>) -> Seq<char> {
    match find(id, "--"@, 0) {
        Some(i) => id.take(i),
        None => id,
    }
}

/// The path that an id names inside its mem: what follows the first `--`.
pub open spec fn id_path(id: Seq<char>) -> Seq<char> {
    match find(id, "--"@, 0) {
        Some(i) => id.skip(i + "--"@.len()),
        None => id,
    }
}

/// The id of a path inside a mem.
pub open spec fn joined_id(mem: Seq<char>, path: Seq<char>) -> Seq<char> {
    mem + "--"@ + path
}

/// A path without `.md` at its end.
pub open spec fn without_md(path: Seq<char>) -> Seq<char> {
    if ends(path, ".md"@) {
        path.take(path.len() - ".md"@.len())
    } else {
        path
    }
}

impl EntityId {
    /// The id of `slug` in `mem`.
    pub fn new(mem: &str, slug: &str) -> (r: EntityId)
        ensures
            r.0@ == joined_id(mem@, slug@),
    {
        EntityId(mem.to_owned().concat("--").concat(slug))
    }

    /// The id that a text spells out.
    pub fn canonical(s: &str) -> (r: EntityId)
        ensures
            r.0@ == s@,
    {
        EntityId(own(s))
    }

    /// A copy of the id.
    pub fn copy(&self) -> (r: EntityId)
        ensures
            r == *self,
    {
        EntityId(self.0.clone())
    }

    /// The mem that the id names.
    pub fn mem(&self) -> (r: String)
        ensures
            r@ == id_mem(self.0@),
    {
        let x = chars_of(&self.0);
        match find_chars(&x, &chars_of("--"), 0) {
            Some(i) => {
                let r = slice_of(&x, 0, i);
                assert(r@ =~= self.0@.take(i as int));
                r
            },
            None => self.0.clone(),
        }
    }

    /// The path that the id names inside its mem.
    pub fn path(&self) -> (r: String)
        ensures
            r@ == id_path(self.0@),
    {
        let x = chars_of(&self.0);
        let sep = chars_of("--");
        match find_chars(&x, &sep, 0) {
            Some(i) => {
                let n: usize = x.len();
                let r = slice_of(&x, i + sep.len(), n);
                assert(r@ =~= self.0@.skip(i + "--"@.len()));
                r
            },
            None => self.0.clone(),
        }
    }
}

/// The id of the entity file at `path` in `mem`.
pub fn file_path_to_id(path: &str, mem: &str) -> (r: EntityId)
    ensures
        r.0@ == joined_id(mem@, without_md(path@)),
{
    let x = chars_of(path);
    let md = chars_of(".md");
    let stem = if md.len() <= x.len() && stands_at(&x, &md, x.len() - md.len()) {
        let stem = slice_of(&x, 0, x.len() - md.len());
        assert(stem@ =~= path@.take(path@.len() - ".md"@.len()));
        stem
    } else {
        own(path)
    };
    EntityId::new(mem, &stem)
}

/// A value of an entity's metadata.
#[derive(Debug, Clone)]
pub enum MetadataValue {
    /// A plain string.
    String(String),
    /// Any other value, in its frontmatter form.
    Other(String),
}

impl MetadataValue {
    /// The frontmatter form.
    pub open spec fn frontmatter(&self) -> Seq<char> {
        match self {
            MetadataValue::String(s) => s@,
            MetadataValue::Other(s) => s@,
        }
    }

    /// The frontmatter form.
    pub fn to_frontmatter_string(&self) -> (r: String)
        ensures
            r@ == self.frontmatter(),
    {
        match self {
            MetadataValue::String(s) => s.clone(),
            MetadataValue::Other(s) => s.clone(),
        }
    }
}

/// An edge that an entity declares.
#[derive(Debug, Clone)]
pub struct Relationship {
    pub rel_type: String,
    pub target: EntityId,
}

impl Relationship {
    /// A copy of the edge.
    pub fn copy(&self) -> (r: Relationship)
        ensures
            r == *self,
    {
        Relationship { rel_type: self.rel_type.clone(), target: self.target.copy() }
    }
}

/// One entity of a mem.
#[derive(Debug, Clone)]
pub struct Entity {
    pub id: EntityId,
    pub mem: String,
    pub title: String,
    pub entity_type: String,
    /// Whether the entity stands for a reference that nothing resolves.
    pub stub: bool,
    pub content_hash: String,
    pub file_path: String,
    /// Metadata in the order of the file.
    pub metadata: Vec<(String, MetadataValue)>,
    /// Section keys and bodies in the order of the file.
    pub sections: Vec<(String, String)>,
    pub relationships: Vec<Relationship>,
    /// The entity as the shared markdown render writes it.
    pub markdown: String,
}

/// The metadata value under `key`, the first from `i` on.
pub open spec fn meta_value(
    meta: Seq<(String, MetadataValue)>,
    key: Seq<char>,
    i: int,
) -> Option<MetadataValue>
    decreases meta.len() - i,
{
    if i < 0 || i >= meta.len() {
        None
    } else if meta[i].0@ == key {
        Some(meta[i].1)
    } else {
        meta_value(meta, key, i + 1)
    }
}

/// The body of the section `key`, the first from `i` on.
pub open spec fn section_body(
    sections: Seq<(String, String)>,
    key: Seq<char>,
    i: int,
) -> Option<Seq<char>>
    decreases sections.len() - i,
{
    if i < 0 || i >= sections.len() {
        None
    } else if sections[i].0@ == key {
        Some(sections[i].1@)
    } else {
        section_body(sections, key, i + 1)
    }
}

impl Entity {
    /// The metadata value under `key`.
    pub fn meta(&self, key: &str) -> (r: Option<&MetadataValue>)
        ensures
            match r {
                Some(v) => meta_value(self.metadata@, key@, 0) == Some(*v),
                None => meta_value(self.metadata@, key@, 0) is None,
            },
    {
        let mut i: usize = 0;
        while i < self.metadata.len()
            invariant
                i <= self.metadata@.len(),
                meta_value(self.metadata@, key@, 0) == meta_value(self.metadata@, key@, i as int),
            decreases self.metadata@.len() - i,
        {
            if same(&self.metadata[i].0, key) {
                return Some(&self.metadata[i].1);
            }
            i = i + 1;
        }
        None
    }

    /// The body of the section `key`.
    pub fn section(&self, key: &str) -> (r: Option<&String>)
        ensures
            match r {
                Some(s) => section_body(self.sections@, key@, 0) == Some(s@),
                None => section_body(self.sections@, key@, 0) is None,
            },
    {
        let mut i: usize = 0;
        while i < self.sections.len()
            invariant
                i <= self.sections@.len(),
                section_body(self.sections@, key@, 0) == section_body(
                    self.sections@,
                    key@,
                    i as int,
                ),
            decreases self.sections@.len() - i,
        {
            if same(&self.sections[i].0, key) {
                return Some(&self.sections[i].1);
            }
            i = i + 1;
        }
        None
    }
}

// ---------------------------------------------------------------------
// The store
// ---------------------------------------------------------------------

/// The entities of every mounted mem.
#[derive(Debug)]
pub struct Store {
    pub entities: Vec<Entity>,
}

/// Where the entity `id` first stands, from `i` on.
pub open spec fn entity_index(s: Seq<Entity>, id: Seq<char>, i: int) -> Option<int>
    decreases s.len() - i,
{
    if i < 0 || i >= s.len() {
        None
    } else if s[i].id.0@ == id {
        Some(i)
    } else {
        entity_index(s, id, i + 1)
    }
}

/// The entity `id`.
pub open spec fn entity_of(s: Seq<Entity>, id: Seq<char>) -> Option<Entity> {
    match entity_index(s, id, 0) {
        Some(i) => Some(s[i]),
        None => None,
    }
}

/// `s` without the entity `id`.
pub open spec fn without_entity(s: Seq<Entity>, id: Seq<char>) -> Seq<Entity> {
    match entity_index(s, id, 0) {
        Some(i) => s.remove(i),
        None => s,
    }
}

/// `s` with `e` in the place of the entity of its id, or at the end where
/// there is none.
pub open spec fn with_entity(s: Seq<Entity>, e: Entity) -> Seq<Entity> {
    match entity_index(s, e.id.0@, 0) {
        Some(i) => s.update(i, e),
        None => s.push(e),
    }
}

/// Whether no two entities share an id.
pub open spec fn ids_unique(s: Seq<Entity>) -> bool {
    forall|i: int, j: int|
        #![trigger s[i], s[j]]
        0 <= i < j < s.len() ==> s[i].id.0@ != s[j].id.0@
}

/// What is found is the first entity of the id.
pub proof fn lemma_entity_index(s: Seq<Entity>, id: Seq<char>, i: int)
    requires
        0 <= i <= s.len(),
    ensures
        entity_index(s, id, i) matches Some(k) ==> i <= k < s.len() && s[k].id.0@ == id,
        entity_index(s, id, i) is None ==> forall|j: int|
            i <= j < s.len() ==> (#[trigger] s[j]).id.0@ != id,
    decreases s.len() - i,
{
    if i < s.len() && s[i].id.0@ != id {
        lemma_entity_index(s, id, i + 1);
    }
}

/// Before what is found no entity has the id.
pub proof fn lemma_first_entity(s: Seq<Entity>, id: Seq<char>, i: int, k: int)
    requires
        0 <= i <= k < s.len(),
        s[k].id.0@ == id,
        forall|j: int| i <= j < k ==> (#[trigger] s[j]).id.0@ != id,
    ensures
        entity_index(s, id, i) == Some(k),
    decreases k - i,
{
    if i < k {
        lemma_first_entity(s, id, i + 1, k);
    }
}

/// What is found is not preceded by an entity of the id.
proof fn lemma_none_before(s: Seq<Entity>, id: Seq<char>, i: int)
    requires
        0 <= i <= s.len(),
    ensures
        entity_index(s, id, i) matches Some(k) ==> forall|j: int|
            i <= j < k ==> (#[trigger] s[j]).id.0@ != id,
    decreases s.len() - i,
{
    if i < s.len() && s[i].id.0@ != id {
        lemma_none_before(s, id, i + 1);
    }
}

/// Behind a store an entity is found where no other has its id.
pub proof fn lemma_push_entity(s: Seq<Entity>, e: Entity, id: Seq<char>)
    ensures
        entity_of(s.push(e), id) == (if entity_of(s, id) is Some {
            entity_of(s, id)
        } else if e.id.0@ == id {
            Some(e)
        } else {
            None
        }),
{
    let t = s.push(e);
    lemma_entity_index(s, id, 0);
    lemma_none_before(s, id, 0);
    lemma_entity_index(t, id, 0);
    match entity_index(s, id, 0) {
        Some(k) => {
            lemma_first_entity(t, id, 0, k);
        },
        None => {
            if e.id.0@ == id {
                lemma_first_entity(t, id, 0, s.len() as int);
            } else if let Some(k) = entity_index(t, id, 0) {
                assert(t[k] == s[k]);
            }
        },
    }
}

/// An entity that is put in is found under its id; what is found under another
/// stays.
pub proof fn lemma_put_entity(s: Seq<Entity>, e: Entity, id: Seq<char>)
    ensures
        entity_of(with_entity(s, e), id) == (if e.id.0@ == id {
            Some(e)
        } else {
            entity_of(s, id)
        }),
{
    lemma_entity_index(s, e.id.0@, 0);
    lemma_none_before(s, e.id.0@, 0);
    match entity_index(s, e.id.0@, 0) {
        None => {
            lemma_push_entity(s, e, id);
        },
        Some(at) => {
            let t = s.update(at, e);
            if e.id.0@ == id {
                lemma_first_entity(t, id, 0, at);
            } else {
                lemma_entity_index(s, id, 0);
                lemma_none_before(s, id, 0);
                lemma_entity_index(t, id, 0);
                match entity_index(s, id, 0) {
                    Some(k) => {
                        lemma_first_entity(t, id, 0, k);
                    },
                    None => {
                        if let Some(k) = entity_index(t, id, 0) {
                            assert(k != at);
                            assert(t[k] == s[k]);
                        }
                    },
                }
            }
        },
    }
}

/// Taking an entity out keeps the ids apart, and the id is gone.
pub proof fn law_without_entity(s: Seq<Entity>, id: Seq<char>)
    requires
        ids_unique(s),
    ensures
        ids_unique(without_entity(s, id)),
        entity_of(without_entity(s, id), id) is None,
{
    lemma_entity_index(s, id, 0);
    let t = without_entity(s, id);
    lemma_entity_index(t, id, 0);
}

/// Putting an entity in keeps the ids apart, and the entity is found.
pub proof fn law_with_entity(s: Seq<Entity>, e: Entity)
    requires
        ids_unique(s),
    ensures
        ids_unique(with_entity(s, e)),
        entity_of(with_entity(s, e), e.id.0@) == Some(e),
{
    lemma_entity_index(s, e.id.0@, 0);
    let t = with_entity(s, e);
    lemma_entity_index(t, e.id.0@, 0);
    match entity_index(s, e.id.0@, 0) {
        Some(k) => {
            assert(t[k] == e);
            assert forall|j: int| 0 <= j < t.len() && j != k implies (#[trigger] t[j]).id.0@
                != e.id.0@ by {
                assert(t[j] == s[j]);
                assert(s[k].id.0@ == e.id.0@);
            }
        },
        None => {
            assert(t[s.len() as int] == e);
        },
    }
}

impl Store {
    /// A store without entities.
    pub fn new() -> (r: Store)
        ensures
            r.entities@ == Seq::<Entity>::empty(),
    {
        Store { entities: Vec::new() }
    }

    /// Where the entity `id` stands.
    fn position(&self, id: &str) -> (r: Option<usize>)
        ensures
            match r {
                Some(i) => entity_index(self.entities@, id@, 0) == Some(i as int) && i
                    < self.entities@.len(),
                None => entity_index(self.entities@, id@, 0) is None,
            },
    {
        let mut i: usize = 0;
        while i < self.entities.len()
            invariant
                i <= self.entities@.len(),
                entity_index(self.entities@, id@, 0) == entity_index(
                    self.entities@,
                    id@,
                    i as int,
                ),
            decreases self.entities@.len() - i,
        {
            if same(&self.entities[i].id.0, id) {
                return Some(i);
            }
            i = i + 1;
        }
        None
    }

    /// The entity `id`.
    pub fn get(&self, id: &EntityId) -> (r: Option<&Entity>)
        ensures
            match r {
                Some(e) => entity_of(self.entities@, id.0@) == Some(*e),
                None => entity_of(self.entities@, id.0@) is None,
            },
    {
        match self.position(&id.0) {
            Some(i) => Some(&self.entities[i]),
            None => None,
        }
    }

    /// Take the entity `id` out.
    pub fn remove(&mut self, id: &EntityId)
        ensures
            final(self).entities@ == without_entity(old(self).entities@, id.0@),
    {
        match self.position(&id.0) {
            Some(i) => {
                self.entities.remove(i);
            },
            None => {},
        }
    }

    /// Put an entity in, in the place of the one that has its id.
    pub fn upsert(&mut self, e: Entity)
        ensures
            final(self).entities@ == with_entity(old(self).entities@, e),
    {
        match self.position(&e.id.0) {
            Some(i) => {
                self.entities[i] = e;
            },
            None => {
                self.entities.push(e);
            },
        }
    }
}

} // verus!
