use vstd::prelude::*;

use crate::types::{DocumentId, FieldPath, IndexId, NameV, TabletIndexName};

verus! {

/// On-disk lifecycle state of a database index.
#[derive(Clone, Copy, Debug, PartialEq, Eq, Structural)]
pub enum DatabaseIndexState {
    Backfilling,
    Backfilled,
    Enabled,
}

/// On-disk lifecycle state of a text index.
#[derive(Clone, Copy, Debug, PartialEq, Eq, Structural)]
pub enum TextIndexState {
    Backfilling,
    Backfilled,
    Snapshotted,
}

/// On-disk lifecycle state of a vector index.
#[derive(Clone, Copy, Debug, PartialEq, Eq, Structural)]
pub enum VectorIndexState {
    Backfilling,
    Backfilled,
    Snapshotted,
}

/// Developer-visible configuration of a database index: its ordered list of
/// indexed field paths.
#[derive(Clone, Debug, PartialEq, Eq)]
pub struct DeveloperDatabaseIndexConfig {
    pub fields: Vec<FieldPath>,
}

/// Developer-visible configuration of a text index: the field searched over
/// and the fields usable in filter clauses.
#[derive(Clone, Debug, PartialEq, Eq)]
pub struct DeveloperTextIndexConfig {
    pub search_field: FieldPath,
    pub filter_fields: Vec<FieldPath>,
}

/// Developer-visible configuration of a vector index.
#[derive(Clone, Debug, PartialEq, Eq)]
pub struct DeveloperVectorIndexConfig {
    pub dimension: u32,
    pub filter_fields: Vec<FieldPath>,
}

/// The full configuration of one index: its kind, its developer-visible
/// configuration and its on-disk state.
#[derive(Clone, Debug, PartialEq, Eq)]
pub enum IndexConfig {
    Database { developer_config: DeveloperDatabaseIndexConfig, on_disk_state: DatabaseIndexState },
    Text { developer_config: DeveloperTextIndexConfig, on_disk_state: TextIndexState },
    Vector { developer_config: DeveloperVectorIndexConfig, on_disk_state: VectorIndexState },
}

/// Ghost form of an index configuration.
pub ghost enum IndexConfigV {
    Database { fields: Seq<Seq<char>>, on_disk_state: DatabaseIndexState },
    Text { search_field: Seq<char>, filter_fields: Seq<Seq<char>>, on_disk_state: TextIndexState },
    Vector { dimension: u32, filter_fields: Seq<Seq<char>>, on_disk_state: VectorIndexState },
}

impl View for IndexConfig {
    type V = IndexConfigV;

    open spec fn view(&self) -> IndexConfigV {
        match self {
            IndexConfig::Database { developer_config, on_disk_state } => IndexConfigV::Database {
                fields: developer_config.fields.deep_view(),
                on_disk_state: *on_disk_state,
            },
            IndexConfig::Text { developer_config, on_disk_state } => IndexConfigV::Text {
                search_field: developer_config.search_field@,
                filter_fields: developer_config.filter_fields.deep_view(),
                on_disk_state: *on_disk_state,
            },
            IndexConfig::Vector { developer_config, on_disk_state } => IndexConfigV::Vector {
                dimension: developer_config.dimension,
                filter_fields: developer_config.filter_fields.deep_view(),
                on_disk_state: *on_disk_state,
            },
        }
    }
}

/// An index is enabled exactly when its on-disk state says so; enabled
/// indexes are queryable, all others are pending.
pub open spec fn config_is_enabled(c: IndexConfigV) -> bool {
    match c {
        IndexConfigV::Database { on_disk_state, .. } => on_disk_state
            == DatabaseIndexState::Enabled,
        IndexConfigV::Text { on_disk_state, .. } => on_disk_state == TextIndexState::Snapshotted,
        IndexConfigV::Vector { on_disk_state, .. } => on_disk_state
            == VectorIndexState::Snapshotted,
    }
}

/// Two configurations agree on everything a developer declares: the kind and
/// the developer-visible fields, with the on-disk state left out.
pub open spec fn developer_config_eq(a: IndexConfigV, b: IndexConfigV) -> bool {
    match (a, b) {
        (
            IndexConfigV::Database { fields: fa, .. },
            IndexConfigV::Database { fields: fb, .. },
        ) => fa == fb,
        (
            IndexConfigV::Text { search_field: sa, filter_fields: fa, .. },
            IndexConfigV::Text { search_field: sb, filter_fields: fb, .. },
        ) => sa == sb && fa == fb,
        (
            IndexConfigV::Vector { dimension: da, filter_fields: fa, .. },
            IndexConfigV::Vector { dimension: db, filter_fields: fb, .. },
        ) => da == db && fa == fb,
        _ => false,
    }
}

/// Copies a list of field paths.
pub fn duplicate_field_paths(v: &Vec<FieldPath>) -> (r: Vec<FieldPath>)
    ensures
        r.deep_view() == v.deep_view(),
{
    let mut out: Vec<FieldPath> = Vec::new();
    let mut i: usize = 0;
    while i < v.len()
        invariant
            0 <= i <= v.len(),
            out.deep_view().len() == i,
            forall|j: int| 0 <= j < i ==> out.deep_view()[j] == v.deep_view()[j],
        decreases v.len() - i,
    {
        let s = v[i].clone();
        proof {
            assert(v[i as int]@ == v.deep_view()[i as int]);
        }
        out.push(s);
        proof {
            assert(out[i as int]@ == out.deep_view()[i as int]);
        }
        i = i + 1;
    }
    proof {
        assert(out.deep_view() =~= v.deep_view());
    }
    out
}

/// Compares two lists of field paths.
pub fn field_paths_equal(a: &Vec<FieldPath>, b: &Vec<FieldPath>) -> (r: bool)
    ensures
        r == (a.deep_view() == b.deep_view()),
{
    if a.len() != b.len() {
        proof {
            assert(a.deep_view().len() == a.len());
            assert(b.deep_view().len() == b.len());
        }
        return false;
    }
    let mut i: usize = 0;
    while i < a.len()
        invariant
            0 <= i <= a.len(),
            a.len() == b.len(),
            forall|j: int| 0 <= j < i ==> a.deep_view()[j] == b.deep_view()[j],
        decreases a.len() - i,
    {
        if !(a[i] == b[i]) {
            proof {
                assert(a.deep_view()[i as int] == a[i as int]@);
                assert(b.deep_view()[i as int] == b[i as int]@);
            }
            return false;
        }
        proof {
            assert(a.deep_view()[i as int] == a[i as int]@);
            assert(b.deep_view()[i as int] == b[i as int]@);
        }
        i = i + 1;
    }
    proof {
        assert(a.deep_view() =~= b.deep_view());
    }
    true
}

impl IndexConfig {
    /// Whether this configuration marks the index enabled.
    pub fn is_enabled(&self) -> (r: bool)
        ensures
            r == config_is_enabled(self@),
    {
        match self {
            IndexConfig::Database { on_disk_state, .. } => match on_disk_state {
                DatabaseIndexState::Enabled => true,
                _ => false,
            },
            IndexConfig::Text { on_disk_state, .. } => match on_disk_state {
                TextIndexState::Snapshotted => true,
                _ => false,
            },
            IndexConfig::Vector { on_disk_state, .. } => match on_disk_state {
                VectorIndexState::Snapshotted => true,
                _ => false,
            },
        }
    }

    /// Compares the developer-visible part of two configurations.
    pub fn developer_config_equals(&self, other: &IndexConfig) -> (r: bool)
        ensures
            r == developer_config_eq(self@, other@),
    {
        match (self, other) {
            (
                IndexConfig::Database { developer_config: a, .. },
                IndexConfig::Database { developer_config: b, .. },
            ) => field_paths_equal(&a.fields, &b.fields),
            (
                IndexConfig::Text { developer_config: a, .. },
                IndexConfig::Text { developer_config: b, .. },
            ) => a.search_field == b.search_field && field_paths_equal(
                &a.filter_fields,
                &b.filter_fields,
            ),
            (
                IndexConfig::Vector { developer_config: a, .. },
                IndexConfig::Vector { developer_config: b, .. },
            ) => a.dimension == b.dimension && field_paths_equal(
                &a.filter_fields,
                &b.filter_fields,
            ),
            _ => false,
        }
    }

    /// Copies this configuration.
    pub fn duplicate(&self) -> (r: Self)
        ensures
            r@ == self@,
    {
        match self {
            IndexConfig::Database { developer_config, on_disk_state } => IndexConfig::Database {
                developer_config: DeveloperDatabaseIndexConfig {
                    fields: developer_config.fields.clone(),
                },
                on_disk_state: *on_disk_state,
            },
            IndexConfig::Text { developer_config, on_disk_state } => IndexConfig::Text {
                developer_config: DeveloperTextIndexConfig {
                    search_field: developer_config.search_field.clone(),
                    filter_fields: developer_config.filter_fields.clone(),
                },
                on_disk_state: *on_disk_state,
            },
            IndexConfig::Vector { developer_config, on_disk_state } => IndexConfig::Vector {
                developer_config: DeveloperVectorIndexConfig {
                    dimension: developer_config.dimension,
                    filter_fields: developer_config.filter_fields.clone(),
                },
                on_disk_state: *on_disk_state,
            },
        }
    }
}

/// Ghost form of a parsed index-definition document.
pub ghost struct IndexMetadataV {
    pub document_id: DocumentId,
    pub name: NameV,
    pub config: IndexConfigV,
}

/// A parsed index-definition document from the system index table: the id of
/// the defining document, the index name and its configuration.
#[derive(Clone, Debug, PartialEq, Eq)]
pub struct IndexMetadata {
    pub document_id: DocumentId,
    pub name: TabletIndexName,
    pub config: IndexConfig,
}

impl View for IndexMetadata {
    type V = IndexMetadataV;

    open spec fn view(&self) -> IndexMetadataV {
        IndexMetadataV { document_id: self.document_id, name: self.name@, config: self.config@ }
    }
}

impl DeepView for IndexMetadata {
    type V = IndexMetadataV;

    open spec fn deep_view(&self) -> IndexMetadataV {
        self.view()
    }
}

impl IndexMetadata {
    /// Whether this metadata describes a text index.
    pub fn is_text_index(&self) -> (r: bool)
        ensures
            r == (self@.config is Text),
    {
        match self.config {
            IndexConfig::Text { .. } => true,
            _ => false,
        }
    }

    /// Whether this metadata describes a vector index.
    pub fn is_vector_index(&self) -> (r: bool)
        ensures
            r == (self@.config is Vector),
    {
        match self.config {
            IndexConfig::Vector { .. } => true,
            _ => false,
        }
    }

    /// Copies this metadata.
    pub fn duplicate(&self) -> (r: Self)
        ensures
            r@ == self@,
    {
        IndexMetadata {
            document_id: self.document_id,
            name: self.name.duplicate(),
            config: self.config.duplicate(),
        }
    }
}

/// Ghost form of a registered index.
pub ghost struct IndexV {
    pub id: IndexId,
    pub metadata: IndexMetadataV,
}

/// A registered index: its stable identifier plus the latest parsed
/// definition document.
#[derive(Clone, Debug, PartialEq, Eq)]
pub struct Index {
    pub id: IndexId,
    pub metadata: IndexMetadata,
}

impl View for Index {
    type V = IndexV;

    open spec fn view(&self) -> IndexV {
        IndexV { id: self.id, metadata: self.metadata@ }
    }
}

impl Index {
    /// Pairs an index id with its definition.
    pub fn new(id: IndexId, metadata: IndexMetadata) -> (r: Self)
        ensures
            r@ == (IndexV { id, metadata: metadata@ }),
    {
        Index { id, metadata }
    }

    /// The stable identifier of this index.
    pub fn id(&self) -> (r: IndexId)
        ensures
            r == self@.id,
    {
        self.id
    }

    /// The name of this index.
    pub fn name(&self) -> (r: TabletIndexName)
        ensures
            r@ == self@.metadata.name,
    {
        self.metadata.name.duplicate()
    }

    /// The latest parsed definition document of this index.
    pub fn metadata(&self) -> (r: &IndexMetadata)
        ensures
            r@ == self@.metadata,
    {
        &self.metadata
    }

    /// Copies this index.
    pub fn duplicate(&self) -> (r: Self)
        ensures
            r@ == self@,
    {
        Index { id: self.id, metadata: self.metadata.duplicate() }
    }
}

} // verus!
