use vstd::prelude::*;

use crate::keys::{encoded_key, get_path_exec, project_spec, IndexKey, IndexKeyBytes};
use crate::metadata::{IndexConfig, IndexConfigV, IndexMetadata, IndexMetadataV};
use crate::types::{DocumentId, FieldPath, FieldValue, FieldValueV, NameV, PersistenceVersion,
    TabletIndexName};

verus! {

/// Ghost form of an index definition carried by a document.
pub ghost struct IndexDefinitionV {
    pub name: NameV,
    pub config: IndexConfigV,
}

/// The index definition a document of the system index table carries: the
/// name of the defined index and its configuration. Turning a raw document
/// into this record is the document-parsing collaborator's work; a document
/// that does not parse carries none.
#[derive(Clone, Debug, PartialEq, Eq)]
pub struct IndexDefinition {
    pub name: TabletIndexName,
    pub config: IndexConfig,
}

impl View for IndexDefinition {
    type V = IndexDefinitionV;

    open spec fn view(&self) -> IndexDefinitionV {
        IndexDefinitionV { name: self.name@, config: self.config@ }
    }
}

/// Ghost form of a document.
pub ghost struct DocV {
    pub id: DocumentId,
    pub fields: Seq<(Seq<char>, FieldValueV)>,
    pub index_definition: Option<IndexDefinitionV>,
}

/// A materialized, fully-typed document: its id, its fields, and — where the
/// document parses as an index definition — that definition.
#[derive(Clone, Debug, PartialEq, Eq)]
pub struct ResolvedDocument {
    pub id: DocumentId,
    pub fields: Vec<(FieldPath, FieldValue)>,
    pub index_definition: Option<IndexDefinition>,
}

impl View for ResolvedDocument {
    type V = DocV;

    open spec fn view(&self) -> DocV {
        DocV {
            id: self.id,
            fields: self.fields.deep_view(),
            index_definition: match self.index_definition {
                Some(def) => Some(def@),
                None => None,
            },
        }
    }
}

impl DeepView for ResolvedDocument {
    type V = DocV;

    open spec fn deep_view(&self) -> DocV {
        self.view()
    }
}

/// The metadata a document parses to: its index definition, tied to the
/// document's own id. `None` where the document is no index definition.
pub open spec fn parsed_metadata(d: DocV) -> Option<IndexMetadataV> {
    match d.index_definition {
        Some(def) => Some(
            IndexMetadataV { document_id: d.id, name: def.name, config: def.config },
        ),
        None => None,
    }
}

impl ResolvedDocument {
    /// Parses this document as an index definition.
    pub fn parse_index_metadata(&self) -> (r: Option<IndexMetadata>)
        ensures
            match r {
                Some(m) => parsed_metadata(self@) == Some(m@),
                None => parsed_metadata(self@) is None,
            },
    {
        match &self.index_definition {
            Some(def) => Some(
                IndexMetadata {
                    document_id: self.id,
                    name: def.name.duplicate(),
                    config: def.config.duplicate(),
                },
            ),
            None => None,
        }
    }

    /// Projects this document onto a field list, as a structured key.
    pub fn index_key(&self, fields: &Vec<FieldPath>, persistence_version: PersistenceVersion) -> (k:
        IndexKey)
        ensures
            k@.values == project_spec(self@.fields, fields.deep_view()),
            k@.persistence_version == persistence_version,
    {
        let mut values: Vec<Option<FieldValue>> = Vec::new();
        let mut i: usize = 0;
        while i < fields.len()
            invariant
                0 <= i <= fields.len(),
                values.deep_view().len() == i,
                forall|j: int| 0 <= j < i ==> values.deep_view()[j] == get_path_spec_at(
                    self@.fields,
                    fields.deep_view(),
                    j,
                ),
            decreases fields.len() - i,
        {
            let v: Option<FieldValue> = match get_path_exec(&self.fields, &fields[i]) {
                Some(fv) => Some(fv.duplicate()),
                None => None,
            };
            proof {
                assert(fields.deep_view()[i as int] == fields[i as int]@);
            }
            let ghost prev = values@;
            let ghost prevdv = values.deep_view();
            values.push(v);
            proof {
                assert(values@ == prev.push(v));
                assert forall|j: int| 0 <= j < i as int + 1 implies values.deep_view()[j]
                    == get_path_spec_at(self@.fields, fields.deep_view(), j) by {
                    assert(values.deep_view()[j] == values@[j].deep_view());
                    if j < i as int {
                        assert(values@[j] == prev[j]);
                        assert(prevdv[j] == prev[j].deep_view());
                        assert(prevdv[j] == get_path_spec_at(self@.fields, fields.deep_view(), j));
                    } else {
                        assert(values@[j] == v);
                    }
                }
            }
            i = i + 1;
        }
        proof {
            assert(values.deep_view() =~= project_spec(self@.fields, fields.deep_view()));
        }
        IndexKey { values, persistence_version }
    }
}

/// The value `project_spec` puts at one position.
pub open spec fn get_path_spec_at(
    doc_fields: Seq<(Seq<char>, FieldValueV)>,
    field_list: Seq<Seq<char>>,
    i: int,
) -> Option<FieldValueV> {
    crate::keys::get_path_spec(doc_fields, field_list[i])
}

/// A compact, packed document: the same content as a materialized document,
/// but its key projection goes straight to bytes.
#[derive(Clone, Debug, PartialEq, Eq)]
pub struct PackedDocument {
    pub id: DocumentId,
    pub fields: Vec<(FieldPath, FieldValue)>,
}

impl View for PackedDocument {
    type V = DocV;

    open spec fn view(&self) -> DocV {
        DocV { id: self.id, fields: self.fields.deep_view(), index_definition: None }
    }
}

/// Copies a document's field list.
pub fn duplicate_fields(fields: &Vec<(FieldPath, FieldValue)>) -> (r: Vec<(FieldPath, FieldValue)>)
    ensures
        r.deep_view() == fields.deep_view(),
{
    let mut out: Vec<(FieldPath, FieldValue)> = Vec::new();
    let mut i: usize = 0;
    while i < fields.len()
        invariant
            0 <= i <= fields.len(),
            out.deep_view().len() == i,
            forall|j: int| 0 <= j < i ==> out.deep_view()[j] == fields.deep_view()[j],
        decreases fields.len() - i,
    {
        let pair = (fields[i].0.clone(), fields[i].1.duplicate());
        proof {
            assert(fields[i as int].deep_view() == fields.deep_view()[i as int]);
        }
        out.push(pair);
        proof {
            assert(out[i as int].deep_view() == out.deep_view()[i as int]);
        }
        i = i + 1;
    }
    proof {
        assert(out.deep_view() =~= fields.deep_view());
    }
    out
}

impl PackedDocument {
    /// Packs a materialized document.
    pub fn pack(doc: &ResolvedDocument) -> (r: Self)
        ensures
            r@.id == doc@.id,
            r@.fields == doc@.fields,
    {
        PackedDocument { id: doc.id, fields: duplicate_fields(&doc.fields) }
    }

    /// Projects this document onto a field list, straight to ordered key
    /// bytes.
    pub fn index_key_owned(
        &self,
        fields: &Vec<FieldPath>,
        persistence_version: PersistenceVersion,
    ) -> (k: IndexKeyBytes)
        ensures
            k@ == encoded_key(
                project_spec(self@.fields, fields.deep_view()),
                persistence_version,
            ),
    {
        let resolved = ResolvedDocument {
            id: self.id,
            fields: duplicate_fields(&self.fields),
            index_definition: None,
        };
        let key = resolved.index_key(fields, persistence_version);
        key.to_bytes()
    }
}

/// A capability for documents that can project an index key: both document
/// representations implement it, with different key output types.
pub trait IndexedDocument: Sized {
    /// The key representation this document form projects to.
    type Key;

    /// The document's content, as a ghost value.
    spec fn doc_view(&self) -> DocV;

    /// What it means for `key` to be this document's projection onto
    /// `field_list` under `version`.
    spec fn key_matches(
        &self,
        field_list: Seq<Seq<char>>,
        version: PersistenceVersion,
        key: &Self::Key,
    ) -> bool;

    /// The document's id.
    fn id(&self) -> (r: DocumentId)
        ensures
            r == self.doc_view().id,
    ;

    /// The document's projection onto `fields`.
    fn index_key_bytes(&self, fields: &Vec<FieldPath>, persistence_version: PersistenceVersion) -> (
        k: Self::Key)
        ensures
            self.key_matches(fields.deep_view(), persistence_version, &k),
    ;
}

impl IndexedDocument for ResolvedDocument {
    type Key = IndexKey;

    open spec fn doc_view(&self) -> DocV {
        self@
    }

    open spec fn key_matches(
        &self,
        field_list: Seq<Seq<char>>,
        version: PersistenceVersion,
        key: &IndexKey,
    ) -> bool {
        key@.values == project_spec(self@.fields, field_list) && key@.persistence_version
            == version
    }

    fn id(&self) -> (r: DocumentId)
        ensures
            r == self.doc_view().id,
    {
        self.id
    }

    fn index_key_bytes(&self, fields: &Vec<FieldPath>, persistence_version: PersistenceVersion) -> (
        k: IndexKey)
        ensures
            self.key_matches(fields.deep_view(), persistence_version, &k),
    {
        self.index_key(fields, persistence_version)
    }
}

impl IndexedDocument for PackedDocument {
    type Key = IndexKeyBytes;

    open spec fn doc_view(&self) -> DocV {
        self@
    }

    open spec fn key_matches(
        &self,
        field_list: Seq<Seq<char>>,
        version: PersistenceVersion,
        key: &IndexKeyBytes,
    ) -> bool {
        key@ == encoded_key(project_spec(self@.fields, field_list), version)
    }

    fn id(&self) -> (r: DocumentId)
        ensures
            r == self.doc_view().id,
    {
        self.id
    }

    fn index_key_bytes(&self, fields: &Vec<FieldPath>, persistence_version: PersistenceVersion) -> (
        k: IndexKeyBytes)
        ensures
            self.key_matches(fields.deep_view(), persistence_version, &k),
    {
        self.index_key_owned(fields, persistence_version)
    }
}

} // verus!
