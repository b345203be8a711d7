//! What the engine reads of a schema: its name and version, and of each type
//! the sections, the deadline axis and the self-check gates.

use crate::text::same;
use vstd::prelude::*;

verus! {

/// A schema pin: the name of a schema and one of its versions.
#[derive(Debug, Clone)]
pub struct SchemaRef {
    pub name: String,
    pub version: String,
}

/// `name@version`.
pub open spec fn pin_text(name: Seq<char>, version: Seq<char>) -> Seq<char> {
    name + "@"@ + version
}

impl SchemaRef {
    /// The pin as `name@version`.
    pub open spec fn display(&self) -> Seq<char> {
        pin_text(self.name@, self.version@)
    }

    /// A pin on one version of a schema.
    pub fn new(name: &str, version: &str) -> (r: SchemaRef)
        ensures
            r.name@ == name@,
            r.version@ == version@,
    {
        SchemaRef { name: name.to_owned(), version: version.to_owned() }
    }

    /// The pin as `name@version`.
    pub fn as_display(&self) -> (r: String)
        ensures
            r@ == self.display(),
    {
        self.name.clone().concat("@").concat(&self.version)
    }

    /// A copy of the pin.
    pub fn copy(&self) -> (r: SchemaRef)
        ensures
            r == *self,
    {
        SchemaRef { name: self.name.clone(), version: self.version.clone() }
    }

    /// Whether two pins name the same version of the same schema.
    pub open spec fn names(&self, other: &SchemaRef) -> bool {
        self.name@ == other.name@ && self.version@ == other.version@
    }

    /// Whether two pins name the same version of the same schema.
    pub fn same_as(&self, other: &SchemaRef) -> (r: bool)
        ensures
            r == self.names(other),
    {
        same(&self.name, &other.name) && same(&self.version, &other.version)
    }
}

/// A copy of an optional pin.
pub fn copy_pin(p: &Option<SchemaRef>) -> (r: Option<SchemaRef>)
    ensures
        r == *p,
{
    match p {
        Some(s) => Some(s.copy()),
        None => None,
    }
}

/// The deadline axis that a type declares.
#[derive(Debug, Clone)]
pub struct DueAxis {
    pub date_field: String,
    pub status_field: String,
    pub open_values: Vec<String>,
    pub lead_section: Option<String>,
}

/// A constraint of a type, as far as the engine's own operations read it.
#[derive(Debug, Clone)]
pub enum ConstraintDef {
    /// Setting `field` to `to_value` asks for a confirming check of the kind
    /// `check_kind`.
    TransitionRequiresSelfCheck { field: String, to_value: String, check_kind: String },
    /// Every other constraint.
    Other,
}

/// A section that a type declares.
#[derive(Debug, Clone)]
pub struct SectionDef {
    pub key: String,
    pub heading: String,
}

/// A type of a schema.
#[derive(Debug, Clone)]
pub struct TypeDefinition {
    pub name: String,
    pub sections: Vec<SectionDef>,
    pub due: Option<DueAxis>,
    pub constraints: Vec<ConstraintDef>,
}

/// A schema.
#[derive(Debug, Clone)]
pub struct Schema {
    pub name: String,
    /// The version, in the form of semantic versioning.
    pub version: String,
    pub types: Vec<TypeDefinition>,
    /// The section headings that do not lead back to their keys, as the
    /// schema loader reports them.
    pub heading_violations: Vec<String>,
}

/// Where the type `name` first stands in `types`, from `i` on.
pub open spec fn type_index(types: Seq<TypeDefinition>, name: Seq<char>, i: int) -> Option<int>
    decreases types.len() - i,
{
    if i < 0 || i >= types.len() {
        None
    } else if types[i].name@ == name {
        Some(i)
    } else {
        type_index(types, name, i + 1)
    }
}

impl Schema {
    /// The schema as `name@version`.
    pub open spec fn display(&self) -> Seq<char> {
        pin_text(self.name@, self.version@)
    }

    /// The type called `name`.
    pub open spec fn type_named(&self, name: Seq<char>) -> Option<TypeDefinition> {
        match type_index(self.types@, name, 0) {
            Some(i) => Some(self.types@[i]),
            None => None,
        }
    }

    /// The type called `name`.
    pub fn get_type(&self, name: &str) -> (r: Option<&TypeDefinition>)
        ensures
            match r {
                Some(t) => self.type_named(name@) == Some(*t),
                None => self.type_named(name@) is None,
            },
    {
        let mut i: usize = 0;
        while i < self.types.len()
            invariant
                i <= self.types@.len(),
                type_index(self.types@, name@, 0) == type_index(self.types@, name@, i as int),
            decreases self.types@.len() - i,
        {
            if same(&self.types[i].name, name) {
                return Some(&self.types[i]);
            }
            i = i + 1;
        }
        None
    }

    /// The schema as `name@version`.
    pub fn as_display(&self) -> (r: String)
        ensures
            r@ == self.display(),
    {
        self.name.clone().concat("@").concat(&self.version)
    }

    /// Whether a pin names this schema.
    pub open spec fn answers(&self, pin: &SchemaRef) -> bool {
        self.name@ == pin.name@ && self.version@ == pin.version@
    }

    /// Whether a pin names this schema.
    pub fn is_pinned_by(&self, pin: &SchemaRef) -> (r: bool)
        ensures
            r == self.answers(pin),
    {
        same(&self.name, &pin.name) && same(&self.version, &pin.version)
    }
}

} // verus!
