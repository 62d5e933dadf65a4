use vstd::prelude::*;

verus! {

/// Identifier of a physical table instance (a tablet).
pub type TabletId = u64;

/// The numeric table number assigned to a tablet.
pub type TableNumber = u64;

/// Stable identifier of one index: the internal id of the document that
/// defines it in the system index table.
pub type IndexId = u64;

/// Versioning token that selects the key-encoding rules.
pub type PersistenceVersion = u64;

/// A field path inside a document, written as one dotted string.
pub type FieldPath = String;

/// Identifier of a document: the tablet that holds it plus its internal id.
#[derive(Clone, Copy, Debug, PartialEq, Eq, Structural)]
pub struct DocumentId {
    pub tablet_id: TabletId,
    pub internal_id: u64,
}

/// Ghost form of a table-scoped index name.
pub ghost struct NameV {
    pub table: TabletId,
    pub descriptor: Seq<char>,
}

/// A table-scoped index name: the table it belongs to plus a descriptor
/// distinguishing the index within that table.
#[derive(Clone, Debug, PartialEq, Eq)]
pub struct TabletIndexName {
    pub table: TabletId,
    pub descriptor: String,
}

impl View for TabletIndexName {
    type V = NameV;

    open spec fn view(&self) -> NameV {
        NameV { table: self.table, descriptor: self.descriptor@ }
    }
}

impl DeepView for TabletIndexName {
    type V = NameV;

    open spec fn deep_view(&self) -> NameV {
        self.view()
    }
}

/// The descriptor of the index over document ids that every table carries.
pub open spec fn by_id_descriptor() -> Seq<char> {
    "by_id"@
}

/// The descriptor of the index over creation times that every table carries.
pub open spec fn by_creation_time_descriptor() -> Seq<char> {
    "by_creation_time"@
}

/// The name of the `by_id` index of a table.
pub open spec fn by_id_name(table: TabletId) -> NameV {
    NameV { table, descriptor: by_id_descriptor() }
}

/// A descriptor is reserved when the system assigns it rather than a developer.
pub open spec fn is_reserved_descriptor(d: Seq<char>) -> bool {
    d == by_id_descriptor() || d == by_creation_time_descriptor()
}

/// Builds the descriptor string of `by_id` indexes.
pub fn make_by_id_descriptor() -> (r: String)
    ensures
        r@ == by_id_descriptor(),
{
    "by_id".to_owned()
}

/// Builds the descriptor string of `by_creation_time` indexes.
pub fn make_by_creation_time_descriptor() -> (r: String)
    ensures
        r@ == by_creation_time_descriptor(),
{
    "by_creation_time".to_owned()
}

impl TabletIndexName {
    /// Compares two names.
    pub fn same_name(&self, other: &TabletIndexName) -> (r: bool)
        ensures
            r == (self@ == other@),
    {
        self.table == other.table && self.descriptor == other.descriptor
    }

    /// The `by_id` index name of a table.
    pub fn by_id(table: TabletId) -> (r: Self)
        ensures
            r@ == by_id_name(table),
    {
        TabletIndexName { table, descriptor: make_by_id_descriptor() }
    }

    /// Whether this is the `by_id` name of its table.
    pub fn is_by_id(&self) -> (r: bool)
        ensures
            r == (self@.descriptor == by_id_descriptor()),
    {
        let d = make_by_id_descriptor();
        self.descriptor == d
    }

    /// Whether this is one of the two system-assigned names of its table.
    pub fn is_by_id_or_creation_time(&self) -> (r: bool)
        ensures
            r == is_reserved_descriptor(self@.descriptor),
    {
        let d1 = make_by_id_descriptor();
        let d2 = make_by_creation_time_descriptor();
        self.descriptor == d1 || self.descriptor == d2
    }

    /// Copies this name.
    pub fn duplicate(&self) -> (r: Self)
        ensures
            r@ == self@,
    {
        TabletIndexName { table: self.table, descriptor: self.descriptor.clone() }
    }
}

/// Ghost form of a printable index name.
pub ghost struct IndexNameV {
    pub table: Seq<char>,
    pub descriptor: Seq<char>,
}

/// A printable index name, scoped to a table by its developer-visible name
/// rather than by its tablet.
#[derive(Clone, Debug, PartialEq, Eq)]
pub struct IndexName {
    pub table: String,
    pub descriptor: String,
}

impl View for IndexName {
    type V = IndexNameV;

    open spec fn view(&self) -> IndexNameV {
        IndexNameV { table: self.table@, descriptor: self.descriptor@ }
    }
}

impl IndexName {
    /// Copies this name.
    pub fn duplicate(&self) -> (r: Self)
        ensures
            r@ == self@,
    {
        IndexName { table: self.table.clone(), descriptor: self.descriptor.clone() }
    }
}

/// Ghost form of one document field value.
pub ghost enum FieldValueV {
    Null,
    Boolean(bool),
    Integer(i64),
    Text(Seq<char>),
}

/// The value stored at one field of a document.
#[derive(Clone, Debug, PartialEq, Eq)]
pub enum FieldValue {
    Null,
    Boolean(bool),
    Integer(i64),
    Text(String),
}

impl View for FieldValue {
    type V = FieldValueV;

    open spec fn view(&self) -> FieldValueV {
        match self {
            FieldValue::Null => FieldValueV::Null,
            FieldValue::Boolean(b) => FieldValueV::Boolean(*b),
            FieldValue::Integer(i) => FieldValueV::Integer(*i),
            FieldValue::Text(s) => FieldValueV::Text(s@),
        }
    }
}

impl DeepView for FieldValue {
    type V = FieldValueV;

    open spec fn deep_view(&self) -> FieldValueV {
        self.view()
    }
}

impl FieldValue {
    /// Copies this value.
    pub fn duplicate(&self) -> (r: Self)
        ensures
            r@ == self@,
    {
        match self {
            FieldValue::Null => FieldValue::Null,
            FieldValue::Boolean(b) => FieldValue::Boolean(*b),
            FieldValue::Integer(i) => FieldValue::Integer(*i),
            FieldValue::Text(s) => FieldValue::Text(s.clone()),
        }
    }
}

/// Ghost form of one table-mapping entry.
pub ghost struct TableMappingEntryV {
    pub name: Seq<char>,
    pub tablet_id: TabletId,
    pub table_number: TableNumber,
}

/// One entry of the table mapping: a table name resolved to its tablet and
/// its numeric table number.
#[derive(Clone, Debug, PartialEq, Eq)]
pub struct TableMappingEntry {
    pub name: String,
    pub tablet_id: TabletId,
    pub table_number: TableNumber,
}

impl View for TableMappingEntry {
    type V = TableMappingEntryV;

    open spec fn view(&self) -> TableMappingEntryV {
        TableMappingEntryV {
            name: self.name@,
            tablet_id: self.tablet_id,
            table_number: self.table_number,
        }
    }
}

impl DeepView for TableMappingEntry {
    type V = TableMappingEntryV;

    open spec fn deep_view(&self) -> TableMappingEntryV {
        self.view()
    }
}

/// The table-mapping service: resolves a table name to its tablet identifier
/// and numeric table number.
#[derive(Clone, Debug, PartialEq, Eq)]
pub struct TableMapping {
    pub entries: Vec<TableMappingEntry>,
}

impl View for TableMapping {
    type V = Seq<TableMappingEntryV>;

    open spec fn view(&self) -> Seq<TableMappingEntryV> {
        self.entries.deep_view()
    }
}

/// The first entry of `entries` whose name is `name`, if any.
pub open spec fn lookup_table_spec(entries: Seq<TableMappingEntryV>, name: Seq<char>) -> Option<
    TableMappingEntryV,
>
    decreases entries.len(),
{
    if entries.len() == 0 {
        None
    } else if entries[0].name == name {
        Some(entries[0])
    } else {
        lookup_table_spec(entries.drop_first(), name)
    }
}

impl TableMapping {
    /// Resolves a table name to its tablet id and table number.
    pub fn name_to_tablet(&self, name: &String) -> (r: Option<(TabletId, TableNumber)>)
        ensures
            match r {
                Some(pair) => {
                    let found = lookup_table_spec(self@, name@);
                    &&& found is Some
                    &&& pair.0 == found->Some_0.tablet_id
                    &&& pair.1 == found->Some_0.table_number
                },
                None => lookup_table_spec(self@, name@) is None,
            },
    {
        let mut i: usize = 0;
        proof {
            assert(self@.skip(0) =~= self@);
        }
        while i < self.entries.len()
            invariant
                0 <= i <= self.entries.len(),
                self@ == self.entries.deep_view(),
                lookup_table_spec(self@, name@) == lookup_table_spec(
                    self@.skip(i as int),
                    name@,
                ),
            decreases self.entries.len() - i,
        {
            proof {
                assert(self@.skip(i as int)[0] == self.entries[i as int]@);
                assert(self@.skip(i as int).drop_first() =~= self@.skip(i as int + 1));
            }
            if self.entries[i].name == *name {
                return Some((self.entries[i].tablet_id, self.entries[i].table_number));
            }
            i = i + 1;
        }
        proof {
            assert(self@.skip(i as int) =~= Seq::<TableMappingEntryV>::empty());
        }
        None
    }
}

/// The name of the system table that holds index definitions.
pub open spec fn index_table_name() -> Seq<char> {
    "_index"@
}

/// Builds the name of the system table that holds index definitions.
pub fn make_index_table_name() -> (r: String)
    ensures
        r@ == index_table_name(),
{
    "_index".to_owned()
}

} // verus!
