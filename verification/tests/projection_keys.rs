use indexing::doc_keys::{DocumentIndexKeyValue, DocumentIndexKeys, SearchIndexKeyValue};
use indexing::document::{IndexDefinition, IndexedDocument, PackedDocument, ResolvedDocument};
use indexing::keys::{IndexKey, SearchFilterValue};
use indexing::metadata::{
    DatabaseIndexState, DeveloperDatabaseIndexConfig, DeveloperTextIndexConfig, IndexConfig,
    TextIndexState,
};
use indexing::registry::IndexRegistry;
use indexing::types::{DocumentId, FieldValue, TableMapping, TableMappingEntry, TabletIndexName};

const INDEX_TABLE: u64 = 1;
const MESSAGES: u64 = 2;

fn name(table: u64, descriptor: &str) -> TabletIndexName {
    TabletIndexName { table, descriptor: descriptor.to_string() }
}

fn db_config(fields: &[&str], state: DatabaseIndexState) -> IndexConfig {
    IndexConfig::Database {
        developer_config: DeveloperDatabaseIndexConfig {
            fields: fields.iter().map(|f| f.to_string()).collect(),
        },
        on_disk_state: state,
    }
}

fn index_doc(internal_id: u64, index_name: TabletIndexName, config: IndexConfig) -> ResolvedDocument {
    ResolvedDocument {
        id: DocumentId { tablet_id: INDEX_TABLE, internal_id },
        fields: Vec::new(),
        index_definition: Some(IndexDefinition { name: index_name, config }),
    }
}

fn mapping() -> TableMapping {
    TableMapping {
        entries: vec![TableMappingEntry {
            name: "_index".to_string(),
            tablet_id: INDEX_TABLE,
            table_number: 10,
        }],
    }
}

fn be8(x: u64) -> Vec<u8> {
    vec![
        (x >> 56) as u8,
        (x >> 48) as u8,
        (x >> 40) as u8,
        (x >> 32) as u8,
        (x >> 24) as u8,
        (x >> 16) as u8,
        (x >> 8) as u8,
        x as u8,
    ]
}

fn be4(x: u32) -> Vec<u8> {
    vec![(x >> 24) as u8, (x >> 16) as u8, (x >> 8) as u8, x as u8]
}

#[test]
fn test_document_index_keys() {
    let by_id = name(MESSAGES, "by_id");
    let by_name = name(MESSAGES, "by_name");
    let by_content = name(MESSAGES, "by_content");
    let indexes = vec![
        index_doc(100, name(INDEX_TABLE, "by_id"), db_config(&[], DatabaseIndexState::Enabled)),
        index_doc(101, by_id.clone(), db_config(&[], DatabaseIndexState::Enabled)),
        index_doc(102, by_name.clone(), db_config(&["name"], DatabaseIndexState::Enabled)),
        index_doc(
            103,
            by_content.clone(),
            IndexConfig::Text {
                developer_config: DeveloperTextIndexConfig {
                    search_field: "content".to_string(),
                    filter_fields: vec!["author".to_string()],
                },
                on_disk_state: TextIndexState::Snapshotted,
            },
        ),
    ];
    let index_registry = IndexRegistry::bootstrap(&mapping(), &indexes, 0).expect("bootstrap");

    let doc = ResolvedDocument {
        id: DocumentId { tablet_id: MESSAGES, internal_id: 700 },
        fields: vec![
            ("name".to_string(), FieldValue::Text("test".to_string())),
            ("content".to_string(), FieldValue::Text("hello world".to_string())),
            ("author".to_string(), FieldValue::Text("alice".to_string())),
        ],
        index_definition: None,
    };

    let index_keys = index_registry.document_index_keys(PackedDocument::pack(&doc));

    let by_name_expected =
        doc.index_key(&vec!["name".to_string()], 0).to_bytes();
    match index_keys.get(&by_name).expect("by_name entry") {
        DocumentIndexKeyValue::Standard(bytes) => assert_eq!(*bytes, by_name_expected),
        other => panic!("by_name should be a standard key, got {:?}", other),
    }

    let author_value = FieldValue::Text("alice".to_string());
    let expected_search = SearchIndexKeyValue {
        filter_values: vec![(
            "author".to_string(),
            SearchFilterValue::from_search_value(Some(&author_value)),
        )],
        search_field: "content".to_string(),
        search_field_value: Some("hello world".to_string()),
    };
    match index_keys.get(&by_content).expect("by_content entry") {
        DocumentIndexKeyValue::Search(s) => assert_eq!(*s, expected_search),
        other => panic!("by_content should be a search entry, got {:?}", other),
    }

    let by_id_expected = doc.index_key(&Vec::new(), 0).to_bytes();
    match index_keys.get(&by_id).expect("by_id entry") {
        DocumentIndexKeyValue::Standard(bytes) => assert_eq!(*bytes, by_id_expected),
        other => panic!("by_id should be a standard key, got {:?}", other),
    }

    assert!(index_keys.get(&name(MESSAGES, "by_missing")).is_none());
}

#[test]
fn index_key_bytes_are_the_documented_encoding() {
    let doc = ResolvedDocument {
        id: DocumentId { tablet_id: MESSAGES, internal_id: 7 },
        fields: vec![
            ("a".to_string(), FieldValue::Integer(5)),
            ("b".to_string(), FieldValue::Text("hi".to_string())),
            ("c".to_string(), FieldValue::Boolean(true)),
            ("d".to_string(), FieldValue::Null),
        ],
        index_definition: None,
    };
    let fields = vec![
        "a".to_string(),
        "b".to_string(),
        "c".to_string(),
        "d".to_string(),
        "missing".to_string(),
    ];
    let key = doc.index_key(&fields, 7);
    assert_eq!(key.persistence_version, 7);
    assert_eq!(
        key.values,
        vec![
            Some(FieldValue::Integer(5)),
            Some(FieldValue::Text("hi".to_string())),
            Some(FieldValue::Boolean(true)),
            Some(FieldValue::Null),
            None,
        ]
    );
    let mut expected = be8(7);
    expected.push(4);
    expected.extend(be8(5));
    expected.push(5);
    expected.extend(be8(2));
    expected.extend(be4('h' as u32));
    expected.extend(be4('i' as u32));
    expected.push(3);
    expected.push(1);
    expected.push(0);
    assert_eq!(key.to_bytes().bytes, expected);
    // The packed representation projects straight to the same bytes.
    let packed = PackedDocument::pack(&doc);
    assert_eq!(packed.index_key_owned(&fields, 7).bytes, expected);
    assert_eq!(packed.id(), doc.id);
}

#[test]
fn search_filter_values_are_the_documented_encoding() {
    assert_eq!(SearchFilterValue::from_search_value(None).bytes, vec![0]);
    let null_value = FieldValue::Null;
    assert_eq!(SearchFilterValue::from_search_value(Some(&null_value)).bytes, vec![1, 1]);
    let text = FieldValue::Text("hi".to_string());
    let mut expected = vec![1, 5];
    expected.extend(be8(2));
    expected.extend(be4('h' as u32));
    expected.extend(be4('i' as u32));
    assert_eq!(SearchFilterValue::from_search_value(Some(&text)).bytes, expected);
}

#[test]
fn non_string_search_field_yields_no_value() {
    let indexes = vec![
        index_doc(100, name(INDEX_TABLE, "by_id"), db_config(&[], DatabaseIndexState::Enabled)),
        index_doc(101, name(MESSAGES, "by_id"), db_config(&[], DatabaseIndexState::Enabled)),
        index_doc(
            103,
            name(MESSAGES, "by_content"),
            IndexConfig::Text {
                developer_config: DeveloperTextIndexConfig {
                    search_field: "content".to_string(),
                    filter_fields: Vec::new(),
                },
                on_disk_state: TextIndexState::Snapshotted,
            },
        ),
    ];
    let registry = IndexRegistry::bootstrap(&mapping(), &indexes, 0).expect("bootstrap");
    let doc = ResolvedDocument {
        id: DocumentId { tablet_id: MESSAGES, internal_id: 701 },
        fields: vec![("content".to_string(), FieldValue::Integer(3))],
        index_definition: None,
    };
    let keys = registry.document_index_keys(PackedDocument::pack(&doc));
    match keys.get(&name(MESSAGES, "by_content")).expect("entry") {
        DocumentIndexKeyValue::Search(s) => {
            assert_eq!(s.search_field_value, None);
            assert_eq!(s.search_field, "content");
        },
        other => panic!("expected a search entry, got {:?}", other),
    }
}

#[test]
fn document_index_keys_test_constructors() {
    let empty = DocumentIndexKeys::empty_for_test();
    assert!(empty.get(&name(MESSAGES, "by_name")).is_none());

    let key = IndexKey {
        values: vec![Some(FieldValue::Text("test".to_string()))],
        persistence_version: 0,
    };
    let expected_bytes = key.to_bytes();
    let standard =
        DocumentIndexKeys::with_standard_index_for_test(name(MESSAGES, "by_name"), key);
    match standard.get(&name(MESSAGES, "by_name")).expect("entry") {
        DocumentIndexKeyValue::Standard(bytes) => assert_eq!(*bytes, expected_bytes),
        other => panic!("expected a standard key, got {:?}", other),
    }

    let search = DocumentIndexKeys::with_search_index_for_test(
        name(MESSAGES, "by_content"),
        "content".to_string(),
        "hello".to_string(),
    );
    match search.get(&name(MESSAGES, "by_content")).expect("entry") {
        DocumentIndexKeyValue::Search(s) => {
            assert!(s.filter_values.is_empty());
            assert_eq!(s.search_field, "content");
            assert_eq!(s.search_field_value, Some("hello".to_string()));
        },
        other => panic!("expected a search entry, got {:?}", other),
    }

    let author_value = FieldValue::Text("alice".to_string());
    let filters = vec![(
        "author".to_string(),
        SearchFilterValue::from_search_value(Some(&author_value)),
    )];
    let with_filters = DocumentIndexKeys::with_search_index_for_test_with_filters(
        name(MESSAGES, "by_content"),
        "content".to_string(),
        "hello".to_string(),
        filters.clone(),
    );
    match with_filters.get(&name(MESSAGES, "by_content")).expect("entry") {
        DocumentIndexKeyValue::Search(s) => assert_eq!(s.filter_values, filters),
        other => panic!("expected a search entry, got {:?}", other),
    }
}

#[test]
fn heap_sizes_count_key_material() {
    let bytes = SearchFilterValue::from_search_value(None);
    let standard = DocumentIndexKeyValue::Standard(
        IndexKey { values: Vec::new(), persistence_version: 0 }.to_bytes(),
    );
    // An empty key is just the eight version bytes.
    assert_eq!(standard.heap_size(), 8);
    let search = DocumentIndexKeyValue::Search(SearchIndexKeyValue {
        filter_values: vec![("author".to_string(), bytes)],
        search_field: "content".to_string(),
        search_field_value: Some("hello".to_string()),
    });
    // "author" (6) + one tag byte + "content" (7) + "hello" (5).
    assert_eq!(search.heap_size(), 6 + 1 + 7 + 5);
    let keys = DocumentIndexKeys {
        entries: vec![(name(MESSAGES, "by_content"), search)],
    };
    // "by_content" (10) + the search entry (19).
    assert_eq!(keys.heap_size(), 10 + 19);
}

#[test]
fn index_keys_cover_database_indexes_only() {
    let indexes = vec![
        index_doc(100, name(INDEX_TABLE, "by_id"), db_config(&[], DatabaseIndexState::Enabled)),
        index_doc(101, name(MESSAGES, "by_id"), db_config(&[], DatabaseIndexState::Enabled)),
        index_doc(102, name(MESSAGES, "by_name"), db_config(&["name"], DatabaseIndexState::Enabled)),
        index_doc(
            103,
            name(MESSAGES, "by_content"),
            IndexConfig::Text {
                developer_config: DeveloperTextIndexConfig {
                    search_field: "content".to_string(),
                    filter_fields: Vec::new(),
                },
                on_disk_state: TextIndexState::Snapshotted,
            },
        ),
    ];
    let registry = IndexRegistry::bootstrap(&mapping(), &indexes, 0).expect("bootstrap");
    let doc = ResolvedDocument {
        id: DocumentId { tablet_id: MESSAGES, internal_id: 702 },
        fields: vec![("name".to_string(), FieldValue::Text("x".to_string()))],
        index_definition: None,
    };
    let pairs = registry.index_keys(&doc);
    let mut ids: Vec<u64> = pairs.iter().map(|(i, _)| i.id()).collect();
    ids.sort();
    assert_eq!(ids, vec![101, 102]);
    for (index, key) in &pairs {
        if index.id() == 102 {
            assert_eq!(key.values, vec![Some(FieldValue::Text("x".to_string()))]);
        } else {
            assert!(key.values.is_empty());
        }
    }
}
