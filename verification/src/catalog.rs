//! Catalog entries: what the store's clients keep about schemas and views.

use vstd::prelude::*;

verus! {

/// Types of entries the catalog holds.
#[derive(Debug, Clone, Copy, PartialEq, Eq, Structural)]
pub enum EntryType {
    Schema,
    Table,
    View,
    Index,
    Sequence,
}

/// How the entry was created.
#[derive(Debug, Clone)]
pub enum EntryCreatedBy {
    /// The entry was created from a builtin object.
    System,
    /// The entry was created by the user, with this SQL statement.
    User { sql: String },
}

impl From<String> for EntryCreatedBy {
    fn from(sql: String) -> (created_by: Self) {
        EntryCreatedBy::User { sql }
    }
}

impl vstd::std_specs::convert::FromSpecImpl<String> for EntryCreatedBy {
    open spec fn obeys_from_spec() -> bool {
        true
    }

    open spec fn from_spec(sql: String) -> Self {
        EntryCreatedBy::User { sql }
    }
}

impl EntryCreatedBy {
    pub open spec fn spec_is_system(self) -> bool {
        self is System
    }

    pub fn is_system(&self) -> (r: bool)
        ensures
            r == self.spec_is_system(),
    {
        match self {
            EntryCreatedBy::System => true,
            EntryCreatedBy::User { .. } => false,
        }
    }
}

/// Special entry type for dropping catalog entries.
#[derive(Debug)]
pub struct DropEntry {
    /// Entry type to drop.
    pub typ: EntryType,
    /// Schema the entry is in.
    pub schema: String,
    /// Name of the entry to drop. If dropping a schema, must be the same
    /// name as the schema.
    pub name: String,
}

impl DropEntry {
    /// An entry that drops a schema names the schema itself.
    pub open spec fn wf(self) -> bool {
        self.typ is Schema ==> self.name@ == self.schema@
    }

    /// The entry that drops `name` of type `typ` in `schema`; `None` where
    /// a schema is to be dropped under another name than its own.
    pub fn new(typ: EntryType, schema: String, name: String) -> (entry: Option<DropEntry>)
        ensures
            entry is Some <==> (typ is Schema ==> name@ == schema@),
            entry matches Some(e) ==> e.wf() && e.typ == typ && e.schema == schema && e.name
                == name,
    {
        let is_schema = match typ {
            EntryType::Schema => true,
            _ => false,
        };
        if is_schema && !(name == schema) {
            None
        } else {
            Some(DropEntry { typ, schema, name })
        }
    }

    pub fn is_valid(&self) -> (r: bool)
        ensures
            r == self.wf(),
    {
        match self.typ {
            EntryType::Schema => self.name == self.schema,
            _ => true,
        }
    }
}

/// An entry tagged with a catalog revision number.
#[derive(Debug)]
pub struct TaggedEntry<T> {
    pub revision: u64,
    pub inner: T,
}

impl<T> TaggedEntry<T> {
    pub fn new(revision: u64, inner: T) -> (entry: TaggedEntry<T>)
        ensures
            entry.revision == revision,
            entry.inner == inner,
    {
        TaggedEntry { revision, inner }
    }

    /// The entry that is tagged.
    pub fn deref(&self) -> (inner: &T)
        ensures
            *inner == self.inner,
    {
        &self.inner
    }

    /// Whether this entry is of a later revision than `other`.
    pub fn is_newer_than(&self, other: &TaggedEntry<T>) -> (r: bool)
        ensures
            r == (self.revision > other.revision),
    {
        self.revision > other.revision
    }
}

/// A schema that the system defines.
#[derive(Debug, Clone, Copy)]
pub struct BuiltinSchema {
    pub name: &'static str,
}

/// A view that the system defines.
#[derive(Debug, Clone, Copy)]
pub struct BuiltinView {
    pub schema: &'static str,
    pub name: &'static str,
    pub sql: &'static str,
}

#[derive(Debug, Clone)]
pub struct SchemaEntry {
    pub created_by: EntryCreatedBy,
    pub name: String,
}

impl SchemaEntry {
    /// The entry of a builtin schema: created by the system, under the
    /// schema's name.
    pub fn from_builtin(builtin: &BuiltinSchema) -> (entry: SchemaEntry)
        ensures
            entry.created_by is System,
            entry.name@ == builtin.name@,
    {
        SchemaEntry { created_by: EntryCreatedBy::System, name: builtin.name.to_owned() }
    }
}

/// A column of a table. `D` is the type of its values, as the query engine
/// names it.
#[derive(Debug, Clone)]
pub struct ColumnDefinition<D> {
    pub name: String,
    pub datatype: D,
    pub nullable: bool,
}

/// A field of a schema of the query engine, as far as a column is made of
/// it.
#[derive(Debug, Clone)]
pub struct SchemaField<D> {
    pub name: String,
    pub datatype: D,
    pub nullable: bool,
}

impl<D> ColumnDefinition<D> {
    /// The column that a field describes.
    pub fn from_field(field: SchemaField<D>) -> (column: ColumnDefinition<D>)
        ensures
            column.name == field.name,
            column.datatype == field.datatype,
            column.nullable == field.nullable,
    {
        ColumnDefinition { name: field.name, datatype: field.datatype, nullable: field.nullable }
    }

    /// The field that describes the column.
    pub fn into_field(self) -> (field: SchemaField<D>)
        ensures
            field.name == self.name,
            field.datatype == self.datatype,
            field.nullable == self.nullable,
    {
        SchemaField { name: self.name, datatype: self.datatype, nullable: self.nullable }
    }

    /// The columns that the fields describe, one for each field, in order.
    pub fn from_arrow_fields(fields: Vec<SchemaField<D>>) -> (columns: Vec<ColumnDefinition<D>>)
        ensures
            columns.len() == fields.len(),
            forall|i: int|
                0 <= i < fields.len() ==> (#[trigger] columns[i]).name == fields[i].name
                    && columns[i].datatype == fields[i].datatype && columns[i].nullable
                    == fields[i].nullable,
    {
        // The fields are moved, not copied: taken from the end, then put
        // back in order.
        let ghost all = fields@;
        let mut fields = fields;
        let mut reversed: Vec<ColumnDefinition<D>> = Vec::new();
        while fields.len() > 0
            invariant
                fields.len() + reversed.len() == all.len(),
                forall|i: int| 0 <= i < fields.len() ==> fields[i] == all[i],
                forall|k: int|
                    0 <= k < reversed.len() ==> (#[trigger] reversed[k]).name == all[all.len() - 1
                        - k].name && reversed[k].datatype == all[all.len() - 1 - k].datatype
                        && reversed[k].nullable == all[all.len() - 1 - k].nullable,
            decreases fields.len(),
        {
            let field = fields.pop().unwrap();
            reversed.push(ColumnDefinition::from_field(field));
        }
        let mut columns: Vec<ColumnDefinition<D>> = Vec::new();
        while reversed.len() > 0
            invariant
                columns.len() + reversed.len() == all.len(),
                forall|k: int|
                    0 <= k < reversed.len() ==> (#[trigger] reversed[k]).name == all[all.len() - 1
                        - k].name && reversed[k].datatype == all[all.len() - 1 - k].datatype
                        && reversed[k].nullable == all[all.len() - 1 - k].nullable,
                forall|i: int|
                    0 <= i < columns.len() ==> (#[trigger] columns[i]).name == all[i].name
                        && columns[i].datatype == all[i].datatype && columns[i].nullable
                        == all[i].nullable,
            decreases reversed.len(),
        {
            let column = reversed.pop().unwrap();
            columns.push(column);
        }
        columns
    }
}

#[derive(Debug, Clone)]
pub struct ViewEntry {
    pub created_by: EntryCreatedBy,
    pub schema: String,
    pub name: String,
    pub sql: String,
}

impl ViewEntry {
    /// The entry of a builtin view: created by the system, with the view's
    /// schema, name and statement.
    pub fn from_builtin(builtin: &BuiltinView) -> (entry: ViewEntry)
        ensures
            entry.created_by is System,
            entry.schema@ == builtin.schema@,
            entry.name@ == builtin.name@,
            entry.sql@ == builtin.sql@,
    {
        ViewEntry {
            created_by: EntryCreatedBy::System,
            schema: builtin.schema.to_owned(),
            name: builtin.name.to_owned(),
            sql: builtin.sql.to_owned(),
        }
    }
}

} // verus!
