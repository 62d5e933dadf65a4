use vstd::prelude::*;

use crate::document::{DocV, PackedDocument};
use crate::external::{name_of_pair, table_set_entries};
use crate::keys::{encoded_filter_value, encoded_key, get_path_exec, get_path_spec, project_spec,
    IndexKey, IndexKeyBytes, SearchFilterValue};
use crate::metadata::{IndexConfig, IndexConfigV, IndexV};
use crate::registry::{registered, IndexRegistry, RegistryV};
use crate::types::{FieldPath, FieldValue, FieldValueV, NameV, PersistenceVersion,
    TabletIndexName};

verus! {

/// Ghost form of one per-document index key value.
pub ghost enum DocumentIndexKeyValueV {
    Standard(Seq<u8>),
    Search {
        filter_values: Map<Seq<char>, Seq<u8>>,
        search_field: Seq<char>,
        search_field_value: Option<Seq<char>>,
    },
}

/// The per-document key material of one text index: the encoded value at
/// each filter field, the search field, and the literal string at the search
/// field when the document holds a string there.
#[derive(Clone, Debug, PartialEq, Eq)]
pub struct SearchIndexKeyValue {
    /// The encoded values of the fields usable in the must clauses of the
    /// text index.
    pub filter_values: Vec<(FieldPath, SearchFilterValue)>,
    pub search_field: FieldPath,
    pub search_field_value: Option<String>,
}

/// The map an association list of filter values stands for; a later entry of
/// one field wins.
pub open spec fn filter_values_map(s: Seq<(Seq<char>, Seq<u8>)>) -> Map<Seq<char>, Seq<u8>>
    decreases s.len(),
{
    if s.len() == 0 {
        Map::empty()
    } else {
        filter_values_map(s.drop_last()).insert(s.last().0, s.last().1)
    }
}

/// Ghost form of a text index's key material.
pub open spec fn search_key_value_view(v: &SearchIndexKeyValue) -> DocumentIndexKeyValueV {
    DocumentIndexKeyValueV::Search {
        filter_values: filter_values_map(v.filter_values.deep_view()),
        search_field: v.search_field@,
        search_field_value: match v.search_field_value {
            Some(ref s) => Some(s@),
            None => None,
        },
    }
}

/// The key material one document yields under one index: ordered key bytes
/// for a database index, filter and search values for a text index. Vector
/// indexes yield nothing, since they do not support subscriptions.
#[derive(Clone, Debug, PartialEq, Eq)]
pub enum DocumentIndexKeyValue {
    Standard(IndexKeyBytes),
    Search(SearchIndexKeyValue),
}

impl View for DocumentIndexKeyValue {
    type V = DocumentIndexKeyValueV;

    open spec fn view(&self) -> DocumentIndexKeyValueV {
        match self {
            DocumentIndexKeyValue::Standard(b) => DocumentIndexKeyValueV::Standard(b@),
            DocumentIndexKeyValue::Search(s) => search_key_value_view(s),
        }
    }
}

impl DeepView for DocumentIndexKeyValue {
    type V = DocumentIndexKeyValueV;

    open spec fn deep_view(&self) -> DocumentIndexKeyValueV {
        self.view()
    }
}

/// The map an association list of per-index key values stands for; a later
/// entry of one name wins.
pub open spec fn document_keys_map(s: Seq<(NameV, DocumentIndexKeyValueV)>) -> Map<
    NameV,
    DocumentIndexKeyValueV,
>
    decreases s.len(),
{
    if s.len() == 0 {
        Map::empty()
    } else {
        document_keys_map(s.drop_last()).insert(s.last().0, s.last().1)
    }
}

/// For one document, the key material of every index of the document's
/// table, by index name. The write log stores this in place of the full
/// document.
#[derive(Clone, Debug, PartialEq, Eq)]
pub struct DocumentIndexKeys {
    pub entries: Vec<(TabletIndexName, DocumentIndexKeyValue)>,
}

impl View for DocumentIndexKeys {
    type V = Map<NameV, DocumentIndexKeyValueV>;

    open spec fn view(&self) -> Map<NameV, DocumentIndexKeyValueV> {
        document_keys_map(self.entries.deep_view())
    }
}

proof fn lemma_singleton_keys_map(s: Seq<(NameV, DocumentIndexKeyValueV)>)
    requires
        s.len() == 1,
    ensures
        document_keys_map(s) == Map::<NameV, DocumentIndexKeyValueV>::empty().insert(
            s[0].0,
            s[0].1,
        ),
{
    assert(s.drop_last() =~= Seq::<(NameV, DocumentIndexKeyValueV)>::empty());
    assert(document_keys_map(s.drop_last()) == Map::<NameV, DocumentIndexKeyValueV>::empty());
    assert(s.last() == s[0]);
}

impl DocumentIndexKeys {
    /// The key material this document yields under the named index, if any.
    pub fn get(&self, index_name: &TabletIndexName) -> (r: Option<&DocumentIndexKeyValue>)
        ensures
            match r {
                Some(v) => self@.contains_key(index_name@) && v@ == self@[index_name@],
                None => !self@.contains_key(index_name@),
            },
    {
        let ghost s = self.entries.deep_view();
        let mut i: usize = self.entries.len();
        proof {
            assert(s.take(i as int) =~= s);
        }
        while i > 0
            invariant
                0 <= i <= self.entries.len(),
                s == self.entries.deep_view(),
                s.len() == self.entries.len(),
                self@ == document_keys_map(s),
                document_keys_map(s).contains_key(index_name@) == document_keys_map(
                    s.take(i as int),
                ).contains_key(index_name@),
                document_keys_map(s).contains_key(index_name@)
                    ==> document_keys_map(s)[index_name@] == document_keys_map(
                    s.take(i as int),
                )[index_name@],
            decreases i,
        {
            i = i - 1;
            proof {
                assert(s.take(i as int + 1).drop_last() =~= s.take(i as int));
                assert(s.take(i as int + 1).last() == s[i as int]);
                assert(s[i as int] == self.entries[i as int].deep_view());
            }
            if self.entries[i].0.same_name(index_name) {
                return Some(&self.entries[i].1);
            }
        }
        proof {
            assert(s.take(0) =~= Seq::<(NameV, DocumentIndexKeyValueV)>::empty());
        }
        None
    }

    /// A cache with no indexes, for tests.
    pub fn empty_for_test() -> (r: Self)
        ensures
            r@ == Map::<NameV, DocumentIndexKeyValueV>::empty(),
    {
        DocumentIndexKeys { entries: Vec::new() }
    }

    /// A cache holding one database index key, for tests.
    pub fn with_standard_index_for_test(index_name: TabletIndexName, index_value: IndexKey) -> (r:
        Self)
        ensures
            r@ == Map::<NameV, DocumentIndexKeyValueV>::empty().insert(
                index_name@,
                DocumentIndexKeyValueV::Standard(
                    encoded_key(index_value@.values, index_value@.persistence_version),
                ),
            ),
    {
        let bytes = index_value.to_bytes();
        let ghost bv = bytes@;
        let mut entries: Vec<(TabletIndexName, DocumentIndexKeyValue)> = Vec::new();
        let ghost nv = index_name@;
        entries.push((index_name, DocumentIndexKeyValue::Standard(bytes)));
        let r = DocumentIndexKeys { entries };
        proof {
            assert(r.entries.deep_view().len() == 1);
            assert(r.entries.deep_view()[0] == ((nv, DocumentIndexKeyValueV::Standard(bv))));
            lemma_singleton_keys_map(r.entries.deep_view());
        }
        r
    }

    /// A cache holding one text index entry without filter fields, for tests.
    pub fn with_search_index_for_test(
        index_name: TabletIndexName,
        search_field: FieldPath,
        search_field_value: String,
    ) -> (r: Self)
        ensures
            r@ == Map::<NameV, DocumentIndexKeyValueV>::empty().insert(
                index_name@,
                DocumentIndexKeyValueV::Search {
                    filter_values: Map::empty(),
                    search_field: search_field@,
                    search_field_value: Some(search_field_value@),
                },
            ),
    {
        let ghost sf = search_field@;
        let ghost sv = search_field_value@;
        let value = SearchIndexKeyValue {
            filter_values: Vec::new(),
            search_field,
            search_field_value: Some(search_field_value),
        };
        proof {
            assert(value.filter_values.deep_view() =~= Seq::<(Seq<char>, Seq<u8>)>::empty());
            assert(filter_values_map(value.filter_values.deep_view()) == Map::<
                Seq<char>,
                Seq<u8>,
            >::empty());
        }
        let ghost vv = search_key_value_view(&value);
        let mut entries: Vec<(TabletIndexName, DocumentIndexKeyValue)> = Vec::new();
        let ghost nv = index_name@;
        entries.push((index_name, DocumentIndexKeyValue::Search(value)));
        let r = DocumentIndexKeys { entries };
        proof {
            assert(r.entries.deep_view().len() == 1);
            assert(r.entries.deep_view()[0] == ((nv, vv)));
            lemma_singleton_keys_map(r.entries.deep_view());
            assert(vv == (DocumentIndexKeyValueV::Search {
                filter_values: Map::<Seq<char>, Seq<u8>>::empty(),
                search_field: sf,
                search_field_value: Some(sv),
            }));
        }
        r
    }

    /// A cache holding one text index entry with filter fields, for tests.
    pub fn with_search_index_for_test_with_filters(
        index_name: TabletIndexName,
        search_field: FieldPath,
        search_field_value: String,
        filter_values: Vec<(FieldPath, SearchFilterValue)>,
    ) -> (r: Self)
        ensures
            r@ == Map::<NameV, DocumentIndexKeyValueV>::empty().insert(
                index_name@,
                DocumentIndexKeyValueV::Search {
                    filter_values: filter_values_map(filter_values.deep_view()),
                    search_field: search_field@,
                    search_field_value: Some(search_field_value@),
                },
            ),
    {
        let ghost fm = filter_values_map(filter_values.deep_view());
        let ghost sf = search_field@;
        let ghost sv = search_field_value@;
        let value = SearchIndexKeyValue {
            filter_values,
            search_field,
            search_field_value: Some(search_field_value),
        };
        let ghost vv = search_key_value_view(&value);
        let mut entries: Vec<(TabletIndexName, DocumentIndexKeyValue)> = Vec::new();
        let ghost nv = index_name@;
        entries.push((index_name, DocumentIndexKeyValue::Search(value)));
        let r = DocumentIndexKeys { entries };
        proof {
            assert(r.entries.deep_view().len() == 1);
            assert(r.entries.deep_view()[0] == ((nv, vv)));
            lemma_singleton_keys_map(r.entries.deep_view());
            assert(vv == (DocumentIndexKeyValueV::Search {
                filter_values: fm,
                search_field: sf,
                search_field_value: Some(sv),
            }));
        }
        r
    }
}

/// The key material one index assigns to a document: ordered key bytes for a
/// database index, filter and search values for a text index, nothing for a
/// vector index.
pub open spec fn index_key_value(
    c: IndexConfigV,
    doc: DocV,
    version: PersistenceVersion,
) -> Option<DocumentIndexKeyValueV> {
    match c {
        IndexConfigV::Database { fields, .. } => Some(
            DocumentIndexKeyValueV::Standard(
                encoded_key(project_spec(doc.fields, fields), version),
            ),
        ),
        IndexConfigV::Text { search_field, filter_fields, .. } => Some(
            DocumentIndexKeyValueV::Search {
                filter_values: Map::new(
                    |f: Seq<char>| filter_fields.contains(f),
                    |f: Seq<char>| encoded_filter_value(get_path_spec(doc.fields, f)),
                ),
                search_field,
                search_field_value: match get_path_spec(doc.fields, search_field) {
                    Some(FieldValueV::Text(s)) => Some(s),
                    _ => None,
                },
            },
        ),
        IndexConfigV::Vector { .. } => None,
    }
}

/// The entry that supplies a name's key material: the pending one when both
/// states hold the name, since it is the later write.
pub open spec fn resolved_entry(v: RegistryV, n: NameV) -> IndexV {
    if v.pending.contains_key(n) {
        v.pending[n]
    } else {
        v.enabled[n]
    }
}

/// The full per-document cache a registry assigns to a document: for every
/// registered index of the document's table that yields key material, that
/// material under the index's name.
pub open spec fn document_index_keys_map(v: RegistryV, doc: DocV) -> Map<
    NameV,
    DocumentIndexKeyValueV,
> {
    Map::new(
        |n: NameV|
            registered(v, n) && n.table == doc.id.tablet_id && index_key_value(
                resolved_entry(v, n).metadata.config,
                doc,
                v.persistence_version,
            ) is Some,
        |n: NameV| index_key_value(
            resolved_entry(v, n).metadata.config,
            doc,
            v.persistence_version,
        )->Some_0,
    )
}

/// Computes the encoded filter values of a text index for one document.
#[verifier::rlimit(60)]
#[verifier::spinoff_prover]
fn compute_filter_values(
    filter_fields: &Vec<FieldPath>,
    document: &PackedDocument,
) -> (r: Vec<(FieldPath, SearchFilterValue)>)
    ensures
        filter_values_map(r.deep_view()) == Map::new(
            |f: Seq<char>| filter_fields.deep_view().contains(f),
            |f: Seq<char>| encoded_filter_value(get_path_spec(document@.fields, f)),
        ),
{
    let ghost goal = Map::new(
        |f: Seq<char>| filter_fields.deep_view().contains(f),
        |f: Seq<char>| encoded_filter_value(get_path_spec(document@.fields, f)),
    );
    let mut out: Vec<(FieldPath, SearchFilterValue)> = Vec::new();
    let mut i: usize = 0;
    proof {
        assert(filter_values_map(out.deep_view()) =~= Map::new(
            |f: Seq<char>| filter_fields.deep_view().take(0).contains(f),
            |f: Seq<char>| encoded_filter_value(get_path_spec(document@.fields, f)),
        ));
    }
    while i < filter_fields.len()
        invariant
            0 <= i <= filter_fields.len(),
            filter_fields.deep_view().len() == filter_fields.len(),
            filter_values_map(out.deep_view()) == Map::new(
                |f: Seq<char>| filter_fields.deep_view().take(i as int).contains(f),
                |f: Seq<char>| encoded_filter_value(get_path_spec(document@.fields, f)),
            ),
        decreases filter_fields.len() - i,
    {
        let field = &filter_fields[i];
        let value = get_path_exec(&document.fields, field);
        let encoded = SearchFilterValue::from_search_value(value);
        let ghost prev = out.deep_view();
        out.push((field.clone(), encoded));
        proof {
            let fdv = filter_fields.deep_view();
            assert(out.deep_view().drop_last() =~= prev);
            assert(out.deep_view().last() == out[out.len() - 1].deep_view());
            assert(out.deep_view().last().0 == fdv[i as int]);
            assert(out.deep_view().last().1 == encoded_filter_value(
                get_path_spec(document@.fields, fdv[i as int]),
            ));
            assert forall|f: Seq<char>|
                fdv.take(i as int + 1).contains(f) <==> (fdv.take(i as int).contains(f) || f
                    == fdv[i as int]) by {
                if fdv.take(i as int + 1).contains(f) {
                    let k = choose|k: int|
                        0 <= k < i + 1 && #[trigger] fdv.take(i as int + 1)[k] == f;
                    if k < i as int {
                        assert(fdv.take(i as int)[k] == f);
                    }
                }
                if fdv.take(i as int).contains(f) {
                    let k = choose|k: int| 0 <= k < i && #[trigger] fdv.take(i as int)[k] == f;
                    assert(fdv.take(i as int + 1)[k] == f);
                }
                if f == fdv[i as int] {
                    assert(fdv.take(i as int + 1)[i as int] == f);
                }
            }
            let m1 = filter_values_map(out.deep_view());
            let m2 = Map::new(
                |f: Seq<char>| fdv.take(i as int + 1).contains(f),
                |f: Seq<char>| encoded_filter_value(get_path_spec(document@.fields, f)),
            );
            assert(m1 == filter_values_map(prev).insert(
                out.deep_view().last().0,
                out.deep_view().last().1,
            ));
            assert forall|f: Seq<char>| m1.dom().contains(f) <==> m2.dom().contains(f) by {
                if f == fdv[i as int] {
                    assert(m1.dom().contains(f));
                    assert(fdv.take(i as int + 1)[i as int] == f);
                    assert(fdv.take(i as int + 1).contains(f));
                    assert(m2.dom().contains(f));
                } else {
                    if m1.dom().contains(f) {
                        assert(filter_values_map(prev).dom().contains(f));
                        assert(fdv.take(i as int).contains(f));
                        let k = choose|k: int| 0 <= k < i && #[trigger] fdv.take(i as int)[k] == f;
                        assert(fdv.take(i as int + 1)[k] == f);
                        assert(fdv.take(i as int + 1).contains(f));
                    }
                    if m2.dom().contains(f) {
                        let k = choose|k: int|
                            0 <= k < i + 1 && #[trigger] fdv.take(i as int + 1)[k] == f;
                        assert(k < i);
                        assert(fdv.take(i as int)[k] == f);
                        assert(fdv.take(i as int).contains(f));
                    }
                }
            }
            assert forall|f: Seq<char>| #[trigger] m1.dom().contains(f) implies m1[f] == m2[f] by {
                if f != fdv[i as int] {
                    assert(filter_values_map(prev).dom().contains(f));
                    assert(m1[f] == filter_values_map(prev)[f]);
                }
            }
            assert(m1 =~= m2);
        }
        i = i + 1;
    }
    proof {
        assert(filter_fields.deep_view().take(filter_fields.len() as int)
            =~= filter_fields.deep_view());
        assert(filter_values_map(out.deep_view()) =~= goal);
    }
    out
}

impl IndexRegistry {
    /// The full per-document key cache: for every registered index of the
    /// document's table, the key material the document yields under it —
    /// ordered key bytes for database indexes, filter and search values for
    /// text indexes, nothing for vector indexes.
    #[verifier::rlimit(100)]
    #[verifier::spinoff_prover]
    pub fn document_index_keys(&self, document: PackedDocument) -> (r: DocumentIndexKeys)
        requires
            self.wf(),
        ensures
            r@ == document_index_keys_map(self@, document@),
    {
        let ghost goal = document_index_keys_map(self@, document@);
        let tablet_id = document.id.tablet_id;
        let version = self.persistence_version;
        let entries = table_set_entries(&self.indexes_by_table);
        let mut out: Vec<(TabletIndexName, DocumentIndexKeyValue)> = Vec::new();
        let mut j: usize = 0;
        proof {
            assert(document_keys_map(out.deep_view()) =~= Map::empty());
        }
        while j < entries.len()
            invariant
                0 <= j <= entries.len(),
                self.wf(),
                tablet_id == document@.id.tablet_id,
                version == self@.persistence_version,
                goal == document_index_keys_map(self@, document@),
                forall|p: int|
                    0 <= p < entries@.len() ==> self@.tables.contains(
                        name_of_pair(#[trigger] entries@[p]),
                    ),
                forall|p1: int, p2: int|
                    0 <= p1 < p2 < entries@.len() ==> name_of_pair(#[trigger] entries@[p1])
                        != name_of_pair(#[trigger] entries@[p2]),
                forall|n: NameV|
                    self@.tables.contains(n) ==> exists|p: int|
                        0 <= p < entries@.len() && name_of_pair(#[trigger] entries@[p]) == n,
                forall|n: NameV| #[trigger]
                    document_keys_map(out.deep_view()).contains_key(n) ==> goal.contains_key(n)
                        && document_keys_map(out.deep_view())[n] == goal[n],
                forall|p: int|
                    0 <= p < j && goal.contains_key(name_of_pair(#[trigger] entries@[p]))
                        ==> document_keys_map(out.deep_view()).contains_key(
                        name_of_pair(entries@[p]),
                    ),
            decreases entries.len() - j,
        {
            let ghost n = name_of_pair(entries@[j as int]);
            let ghost before = out.deep_view();
            if entries[j].0 == tablet_id {
                let name = TabletIndexName {
                    table: entries[j].0,
                    descriptor: entries[j].1.clone(),
                };
                proof {
                    assert(name@ == n);
                    assert(self@.tables.contains(n));
                }
                let resolved = match self.get_pending(&name) {
                    Some(index) => Some(index),
                    None => self.get_enabled(&name),
                };
                match resolved {
                    Some(index) => {
                        proof {
                            assert(self@.enabled.dom().union(self@.pending.dom()).contains(n));
                            assert(registered(self@, n));
                            assert(index@ == resolved_entry(self@, n));
                            assert(index@.metadata.name == n);
                        }
                        match &index.metadata.config {
                            IndexConfig::Database { developer_config, .. } => {
                                let key = document.index_key_owned(
                                    &developer_config.fields,
                                    version,
                                );
                                out.push((name, DocumentIndexKeyValue::Standard(key)));
                                proof {
                                    assert(out.deep_view().drop_last() =~= before);
                                    assert(out.deep_view().last() == out[out.len()
                                        - 1].deep_view());
                                    assert(out.deep_view().last().0 == n);
                                    assert(goal.contains_key(n));
                                    assert(out.deep_view().last().1 == goal[n]);
                                }
                            },
                            IndexConfig::Text { developer_config, .. } => {
                                let filter_values = compute_filter_values(
                                    &developer_config.filter_fields,
                                    &document,
                                );
                                let search_field_value: Option<String> = match get_path_exec(
                                    &document.fields,
                                    &developer_config.search_field,
                                ) {
                                    Some(FieldValue::Text(s)) => Some(s.clone()),
                                    _ => None,
                                };
                                let value = SearchIndexKeyValue {
                                    filter_values,
                                    search_field: developer_config.search_field.clone(),
                                    search_field_value,
                                };
                                out.push((name, DocumentIndexKeyValue::Search(value)));
                                proof {
                                    assert(out.deep_view().drop_last() =~= before);
                                    assert(out.deep_view().last() == out[out.len()
                                        - 1].deep_view());
                                    assert(out.deep_view().last().0 == n);
                                    assert(goal.contains_key(n));
                                    assert(out.deep_view().last().1 == goal[n]);
                                }
                            },
                            IndexConfig::Vector { .. } => {
                                proof {
                                    assert(!goal.contains_key(n));
                                }
                            },
                        }
                    },
                    None => {
                        proof {
                            assert(self@.enabled.dom().union(self@.pending.dom()).contains(n));
                            assert(false);
                        }
                    },
                }
            } else {
                proof {
                    assert(!goal.contains_key(n));
                }
            }
            proof {
                assert forall|nn: NameV| #[trigger] document_keys_map(
                    out.deep_view(),
                ).contains_key(nn) implies goal.contains_key(nn) && document_keys_map(
                    out.deep_view(),
                )[nn] == goal[nn] by {
                    if out.deep_view().len() > before.len() {
                        assert(out.deep_view().drop_last() =~= before);
                        assert(document_keys_map(out.deep_view()) == document_keys_map(
                            before,
                        ).insert(out.deep_view().last().0, out.deep_view().last().1));
                        if nn != out.deep_view().last().0 {
                            assert(document_keys_map(before).contains_key(nn));
                        }
                    }
                }
                assert forall|p: int|
                    0 <= p < j as int + 1 && goal.contains_key(
                        name_of_pair(#[trigger] entries@[p]),
                    ) implies document_keys_map(out.deep_view()).contains_key(
                    name_of_pair(entries@[p]),
                ) by {
                    if p < j as int {
                        assert(document_keys_map(before).contains_key(name_of_pair(entries@[p])));
                        if out.deep_view().len() > before.len() {
                            assert(document_keys_map(out.deep_view()) == document_keys_map(
                                before,
                            ).insert(out.deep_view().last().0, out.deep_view().last().1));
                        }
                    }
                }
            }
            j = j + 1;
        }
        proof {
            assert forall|n: NameV| #[trigger] goal.contains_key(n) implies document_keys_map(
                out.deep_view(),
            ).contains_key(n) by {
                assert(registered(self@, n));
                assert(self@.tables.contains(n));
                let p = choose|p: int|
                    0 <= p < entries@.len() && name_of_pair(#[trigger] entries@[p]) == n;
            }
            assert(document_keys_map(out.deep_view()) =~= goal);
        }
        DocumentIndexKeys { entries: out }
    }
}

/// A sum clipped to what a usize can hold.
pub open spec fn cap_usize(n: nat) -> nat {
    if n > usize::MAX {
        usize::MAX as nat
    } else {
        n
    }
}

/// The heap bytes a list of filter values accounts for.
pub open spec fn filter_pairs_heap(s: Seq<(Seq<char>, Seq<u8>)>) -> nat
    decreases s.len(),
{
    if s.len() == 0 {
        0
    } else {
        filter_pairs_heap(s.drop_last()) + s.last().0.len() + s.last().1.len()
    }
}

/// The heap bytes one per-index key value accounts for.
pub open spec fn key_value_heap(v: DocumentIndexKeyValue) -> nat {
    match v {
        DocumentIndexKeyValue::Standard(b) => b@.len(),
        DocumentIndexKeyValue::Search(s) => filter_pairs_heap(s.filter_values.deep_view())
            + s.search_field@.len() + (match s.search_field_value {
            Some(t) => t@.len(),
            None => 0,
        }),
    }
}

/// The heap bytes a whole per-document cache accounts for.
pub open spec fn entries_heap(s: Seq<(TabletIndexName, DocumentIndexKeyValue)>) -> nat
    decreases s.len(),
{
    if s.len() == 0 {
        0
    } else {
        entries_heap(s.drop_last()) + s.last().0.descriptor@.len() + key_value_heap(s.last().1)
    }
}

/// Adds two sizes, clipping at the largest usize.
fn saturating_add_usize(a: usize, b: usize) -> (r: usize)
    ensures
        r as nat == cap_usize(a as nat + b as nat),
{
    if a > usize::MAX - b {
        usize::MAX
    } else {
        a + b
    }
}

impl DocumentIndexKeyValue {
    /// The heap bytes this key value accounts for, clipped at the largest
    /// usize.
    pub fn heap_size(&self) -> (r: usize)
        ensures
            r as nat == cap_usize(key_value_heap(*self)),
    {
        match self {
            DocumentIndexKeyValue::Standard(index_key) => index_key.bytes.len(),
            DocumentIndexKeyValue::Search(s) => {
                let mut total: usize = 0;
                let mut i: usize = 0;
                proof {
                    assert(s.filter_values.deep_view().take(0) =~= Seq::<
                        (Seq<char>, Seq<u8>),
                    >::empty());
                }
                while i < s.filter_values.len()
                    invariant
                        0 <= i <= s.filter_values.len(),
                        s.filter_values.deep_view().len() == s.filter_values.len(),
                        total as nat == cap_usize(
                            filter_pairs_heap(s.filter_values.deep_view().take(i as int)),
                        ),
                    decreases s.filter_values.len() - i,
                {
                    let ghost fdv = s.filter_values.deep_view();
                    let field_len = s.filter_values[i].0.as_str().unicode_len();
                    let value_len = s.filter_values[i].1.bytes.len();
                    total = saturating_add_usize(total, field_len);
                    total = saturating_add_usize(total, value_len);
                    proof {
                        assert(fdv.take(i as int + 1).drop_last() =~= fdv.take(i as int));
                        assert(fdv.take(i as int + 1).last() == fdv[i as int]);
                        assert(fdv[i as int] == s.filter_values[i as int].deep_view());
                        assert(fdv[i as int].0.len() == field_len as nat);
                        assert(fdv[i as int].1.len() == value_len as nat);
                    }
                    i = i + 1;
                }
                proof {
                    assert(s.filter_values.deep_view().take(s.filter_values.len() as int)
                        =~= s.filter_values.deep_view());
                }
                total = saturating_add_usize(total, s.search_field.as_str().unicode_len());
                let value_len: usize = match &s.search_field_value {
                    Some(t) => t.as_str().unicode_len(),
                    None => 0,
                };
                total = saturating_add_usize(total, value_len);
                total
            },
        }
    }
}

impl DocumentIndexKeys {
    /// The heap bytes this cache accounts for, clipped at the largest usize.
    pub fn heap_size(&self) -> (r: usize)
        ensures
            r as nat == cap_usize(entries_heap(self.entries@)),
    {
        let mut total: usize = 0;
        let mut i: usize = 0;
        proof {
            assert(self.entries@.take(0) =~= Seq::<
                (TabletIndexName, DocumentIndexKeyValue),
            >::empty());
        }
        while i < self.entries.len()
            invariant
                0 <= i <= self.entries.len(),
                total as nat == cap_usize(entries_heap(self.entries@.take(i as int))),
            decreases self.entries.len() - i,
        {
            let name_len = self.entries[i].0.descriptor.as_str().unicode_len();
            let value_size = self.entries[i].1.heap_size();
            total = saturating_add_usize(total, name_len);
            total = saturating_add_usize(total, value_size);
            proof {
                assert(self.entries@.take(i as int + 1).drop_last() =~= self.entries@.take(
                    i as int,
                ));
                assert(self.entries@.take(i as int + 1).last() == self.entries@[i as int]);
            }
            i = i + 1;
        }
        proof {
            assert(self.entries@.take(self.entries.len() as int) =~= self.entries@);
        }
        total
    }
}

} // verus!
