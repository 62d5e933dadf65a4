use indexing::document::{IndexDefinition, ResolvedDocument};
use indexing::errors::{BootstrapError, IndexErrorKind, RegistryError};
use indexing::metadata::{
    DatabaseIndexState, DeveloperDatabaseIndexConfig, DeveloperTextIndexConfig,
    DeveloperVectorIndexConfig, IndexConfig, TextIndexState, VectorIndexState,
};
use indexing::registry::{DatabaseIndexValue, IndexRegistry};
use indexing::types::{DocumentId, FieldValue, IndexName, TableMapping, TableMappingEntry,
    TabletIndexName};

const INDEX_TABLE: u64 = 1;
const MESSAGES: u64 = 2;

fn name(table: u64, descriptor: &str) -> TabletIndexName {
    TabletIndexName { table, descriptor: descriptor.to_string() }
}

fn db_config(fields: &[&str], state: DatabaseIndexState) -> IndexConfig {
    IndexConfig::Database {
        developer_config: DeveloperDatabaseIndexConfig {
            fields: fields.iter().map(|f| f.to_string()).collect(),
        },
        on_disk_state: state,
    }
}

fn text_config(search_field: &str, filter_fields: &[&str], state: TextIndexState) -> IndexConfig {
    IndexConfig::Text {
        developer_config: DeveloperTextIndexConfig {
            search_field: search_field.to_string(),
            filter_fields: filter_fields.iter().map(|f| f.to_string()).collect(),
        },
        on_disk_state: state,
    }
}

fn index_doc(internal_id: u64, index_name: TabletIndexName, config: IndexConfig) -> ResolvedDocument {
    ResolvedDocument {
        id: DocumentId { tablet_id: INDEX_TABLE, internal_id },
        fields: Vec::new(),
        index_definition: Some(IndexDefinition { name: index_name, config }),
    }
}

fn plain_doc(tablet_id: u64, internal_id: u64, fields: Vec<(String, FieldValue)>) -> ResolvedDocument {
    ResolvedDocument {
        id: DocumentId { tablet_id, internal_id },
        fields,
        index_definition: None,
    }
}

fn expect_bootstrap_err(r: Result<IndexRegistry, BootstrapError>) -> BootstrapError {
    match r {
        Err(e) => e,
        Ok(_) => panic!("expected a bootstrap error"),
    }
}

fn mapping() -> TableMapping {
    TableMapping {
        entries: vec![TableMappingEntry {
            name: "_index".to_string(),
            tablet_id: INDEX_TABLE,
            table_number: 10,
        }],
    }
}

fn base_docs() -> Vec<ResolvedDocument> {
    vec![
        index_doc(100, name(INDEX_TABLE, "by_id"), db_config(&[], DatabaseIndexState::Enabled)),
        index_doc(101, name(MESSAGES, "by_id"), db_config(&[], DatabaseIndexState::Enabled)),
        index_doc(102, name(MESSAGES, "by_name"), db_config(&["name"], DatabaseIndexState::Enabled)),
        index_doc(
            103,
            name(MESSAGES, "by_content"),
            text_config("content", &["author"], TextIndexState::Snapshotted),
        ),
        index_doc(
            104,
            name(MESSAGES, "by_other"),
            db_config(&["other"], DatabaseIndexState::Backfilling),
        ),
    ]
}

fn base_registry() -> IndexRegistry {
    IndexRegistry::bootstrap(&mapping(), &base_docs(), 1).expect("bootstrap")
}

#[test]
fn bootstrap_resolves_index_table() {
    let registry = base_registry();
    assert_eq!(registry.index_table(), INDEX_TABLE);
    assert_eq!(registry.index_table_number(), 10);
    assert_eq!(registry.persistence_version(), 1);
}

#[test]
fn bootstrap_unknown_table_mapping() {
    let empty_mapping = TableMapping { entries: Vec::new() };
    let err = expect_bootstrap_err(IndexRegistry::bootstrap(&empty_mapping, &base_docs(), 1));
    assert_eq!(err, BootstrapError::IndexTableNotFound);
}

#[test]
fn bootstrap_missing_meta_index() {
    let docs = vec![index_doc(
        101,
        name(MESSAGES, "by_id"),
        db_config(&[], DatabaseIndexState::Enabled),
    )];
    let err = expect_bootstrap_err(IndexRegistry::bootstrap(&mapping(), &docs, 1));
    assert_eq!(err, BootstrapError::MissingMetaIndex);
}

#[test]
fn bootstrap_duplicate_meta_index() {
    let docs = vec![
        index_doc(100, name(INDEX_TABLE, "by_id"), db_config(&[], DatabaseIndexState::Enabled)),
        index_doc(105, name(INDEX_TABLE, "by_id"), db_config(&[], DatabaseIndexState::Enabled)),
    ];
    let err = expect_bootstrap_err(IndexRegistry::bootstrap(&mapping(), &docs, 1));
    assert_eq!(err, BootstrapError::DuplicateMetaIndex);
}

#[test]
fn bootstrap_document_outside_index_table() {
    let mut docs = base_docs();
    docs.push(plain_doc(MESSAGES, 300, Vec::new()));
    let err = expect_bootstrap_err(IndexRegistry::bootstrap(&mapping(), &docs, 1));
    assert_eq!(err, BootstrapError::NotAnIndexDocument);
    let mut docs2 = base_docs();
    let mut stray = index_doc(301, name(MESSAGES, "by_x"), db_config(&[], DatabaseIndexState::Enabled));
    stray.id.tablet_id = MESSAGES;
    docs2.push(stray);
    let err2 = expect_bootstrap_err(IndexRegistry::bootstrap(&mapping(), &docs2, 1));
    assert_eq!(err2, BootstrapError::DocumentNotInIndexTable);
}

#[test]
fn lookups_after_bootstrap() {
    let registry = base_registry();
    let by_name = name(MESSAGES, "by_name");
    let found = registry.get_enabled(&by_name).expect("by_name is enabled");
    assert_eq!(found.id(), 102);
    assert!(registry.get_pending(&by_name).is_none());
    let by_other = name(MESSAGES, "by_other");
    assert!(registry.get_enabled(&by_other).is_none());
    assert_eq!(registry.get_pending(&by_other).expect("pending").id(), 104);
    let meta = registry.enabled_index_metadata(&by_name).expect("metadata");
    assert_eq!(meta.document_id.internal_id, 102);
    assert_eq!(registry.must_get_by_id(MESSAGES).expect("by_id").id(), 101);
    assert!(registry.must_get_by_id(3).is_err());
    assert_eq!(registry.enabled_index_by_index_id(102).expect("found").name(), by_name);
    assert!(registry.enabled_index_by_index_id(999).is_none());
}

#[test]
fn require_enabled_reports_structured_kinds() {
    let registry = base_registry();
    let printable = IndexName { table: "messages".to_string(), descriptor: "by_other".to_string() };
    let ok = registry.require_enabled(&name(MESSAGES, "by_name"), &printable);
    assert_eq!(ok.expect("enabled").id(), 102);
    let backfilling = registry
        .require_enabled(&name(MESSAGES, "by_other"), &printable)
        .unwrap_err();
    assert_eq!(backfilling.kind, IndexErrorKind::IndexBackfilling);
    assert_eq!(backfilling.name.descriptor, "by_other");
    let missing = registry
        .require_enabled(&name(MESSAGES, "by_missing"), &printable)
        .unwrap_err();
    assert_eq!(missing.kind, IndexErrorKind::IndexNotFound);
}

#[test]
fn indexes_by_table_lists_exactly_the_tables_indexes() {
    let registry = base_registry();
    let mut ids: Vec<u64> = registry.indexes_by_table(MESSAGES).iter().map(|i| i.id()).collect();
    ids.sort();
    assert_eq!(ids, vec![101, 102, 103, 104]);
    for index in registry.indexes_by_table(MESSAGES) {
        assert_eq!(index.metadata().name.table, MESSAGES);
    }
    let meta_ids: Vec<u64> =
        registry.indexes_by_table(INDEX_TABLE).iter().map(|i| i.id()).collect();
    assert_eq!(meta_ids, vec![100]);
    assert!(registry.indexes_by_table(3).is_empty());
    assert!(registry.has_no_indexes(3));
    assert!(!registry.has_no_indexes(MESSAGES));
}

#[test]
fn listing_surface() {
    let mut docs = base_docs();
    docs.push(index_doc(
        105,
        name(MESSAGES, "by_embedding"),
        IndexConfig::Vector {
            developer_config: DeveloperVectorIndexConfig {
                dimension: 2,
                filter_fields: vec!["author".to_string()],
            },
            on_disk_state: VectorIndexState::Backfilling,
        },
    ));
    let registry = IndexRegistry::bootstrap(&mapping(), &docs, 1).expect("bootstrap");
    assert_eq!(registry.all_indexes().len(), 6);
    assert_eq!(registry.all_enabled_indexes().len(), 4);
    let texts = registry.all_text_indexes();
    assert_eq!(texts.len(), 1);
    assert_eq!(texts[0].document_id.internal_id, 103);
    let vectors = registry.all_vector_indexes();
    assert_eq!(vectors.len(), 1);
    assert_eq!(vectors[0].document_id.internal_id, 105);
    assert_eq!(registry.all_search_and_vector_indexes().len(), 2);
    assert_eq!(registry.text_indexes_by_table(MESSAGES).len(), 1);
    assert_eq!(registry.vector_indexes_by_table(MESSAGES).len(), 1);
    assert!(registry.vector_indexes_by_table(INDEX_TABLE).is_empty());
    assert_eq!(registry.all_tables_with_indexes(), vec![INDEX_TABLE, MESSAGES]);
    let by_ids = registry.by_id_indexes();
    assert_eq!(by_ids.len(), 2);
    assert_eq!(by_ids[&INDEX_TABLE], 100);
    assert_eq!(by_ids[&MESSAGES], 101);
    let configs = registry.all_database_index_configs();
    assert_eq!(configs.len(), 4);
    let (by_name_name, by_name_fields) = &configs[&102];
    assert_eq!(*by_name_name, name(MESSAGES, "by_name"));
    assert_eq!(*by_name_fields, vec!["name".to_string()]);
    let ids: Vec<u64> = registry.index_ids().into_iter().collect();
    assert_eq!(ids, vec![100, 101, 102, 103, 104, 105]);
}

#[test]
fn update_rejects_second_enabled_index_and_accepts_same_id() {
    let mut registry = base_registry();
    let second = index_doc(200, name(MESSAGES, "by_name"), db_config(&["name"], DatabaseIndexState::Enabled));
    let err = registry.update(None, Some(&second)).unwrap_err();
    assert_eq!(err, RegistryError::SecondEnabledIndex);
    // Re-applying the same id and state is a no-op success.
    let same = index_doc(102, name(MESSAGES, "by_name"), db_config(&["name"], DatabaseIndexState::Enabled));
    registry.update(None, Some(&same)).expect("same id is accepted");
    assert_eq!(registry.get_enabled(&name(MESSAGES, "by_name")).expect("still there").id(), 102);
}

#[test]
fn update_rejects_second_pending_index() {
    let mut registry = base_registry();
    let second = index_doc(
        201,
        name(MESSAGES, "by_other"),
        db_config(&["other"], DatabaseIndexState::Backfilling),
    );
    let err = registry.update(None, Some(&second)).unwrap_err();
    assert_eq!(err, RegistryError::SecondPendingIndex);
}

#[test]
fn update_rejects_renaming_reserved_index() {
    let mut registry = base_registry();
    let old = index_doc(101, name(MESSAGES, "by_id"), db_config(&[], DatabaseIndexState::Enabled));
    let new = index_doc(101, name(MESSAGES, "by_renamed"), db_config(&[], DatabaseIndexState::Enabled));
    let err = registry.update(Some(&old), Some(&new)).unwrap_err();
    assert_eq!(err, RegistryError::RenamedReservedIndex);
}

#[test]
fn update_rejects_changed_developer_config() {
    let mut registry = base_registry();
    let old = index_doc(102, name(MESSAGES, "by_name"), db_config(&["name"], DatabaseIndexState::Enabled));
    let new = index_doc(102, name(MESSAGES, "by_name"), db_config(&["title"], DatabaseIndexState::Enabled));
    let err = registry.update(Some(&old), Some(&new)).unwrap_err();
    assert_eq!(err, RegistryError::ChangedDeveloperConfig);
}

#[test]
fn update_rejects_changed_indexed_table() {
    let mut registry = base_registry();
    let old = index_doc(102, name(MESSAGES, "by_name"), db_config(&["name"], DatabaseIndexState::Enabled));
    let new = index_doc(102, name(3, "by_name"), db_config(&["name"], DatabaseIndexState::Enabled));
    let err = registry.update(Some(&old), Some(&new)).unwrap_err();
    assert_eq!(err, RegistryError::ChangedIndexedTable);
}

#[test]
fn update_rejects_mismatched_document_ids() {
    let mut registry = base_registry();
    let old = index_doc(102, name(MESSAGES, "by_name"), db_config(&["name"], DatabaseIndexState::Enabled));
    let new = index_doc(103, name(MESSAGES, "by_name"), db_config(&["name"], DatabaseIndexState::Enabled));
    let err = registry.update(Some(&old), Some(&new)).unwrap_err();
    assert_eq!(err, RegistryError::DocumentIdMismatch);
}

#[test]
fn update_rejects_deleting_nonexistent_index() {
    let mut registry = base_registry();
    let unknown = index_doc(
        300,
        name(MESSAGES, "by_missing"),
        db_config(&["x"], DatabaseIndexState::Enabled),
    );
    let err = registry.update(Some(&unknown), None).unwrap_err();
    assert_eq!(err, RegistryError::UpdatingNonexistentIndex);
}

#[test]
fn update_rejects_documents_of_unknown_tables() {
    let mut registry = base_registry();
    let insert = plain_doc(3, 400, Vec::new());
    let err = registry.update(None, Some(&insert)).unwrap_err();
    assert_eq!(err, RegistryError::MissingByIdIndex);
    let delete = plain_doc(3, 401, Vec::new());
    let err2 = registry.update(Some(&delete), None).unwrap_err();
    assert_eq!(err2, RegistryError::DocumentTableNotRegistered);
}

#[test]
fn update_rejects_malformed_index_documents() {
    let mut registry = base_registry();
    let malformed = plain_doc(INDEX_TABLE, 500, Vec::new());
    let err = registry.update(None, Some(&malformed)).unwrap_err();
    assert_eq!(err, RegistryError::NotAnIndexDocument);
}

#[test]
fn update_rejects_bad_index_table_declarations() {
    let mut registry = base_registry();
    let non_by_id = index_doc(
        501,
        name(INDEX_TABLE, "by_name"),
        db_config(&["name"], DatabaseIndexState::Enabled),
    );
    let err = registry.update(None, Some(&non_by_id)).unwrap_err();
    assert_eq!(err, RegistryError::NonByIdOnIndexTable);
    let text_by_id = index_doc(
        502,
        name(5, "by_id"),
        text_config("content", &[], TextIndexState::Snapshotted),
    );
    let err2 = registry.update(None, Some(&text_by_id)).unwrap_err();
    assert_eq!(err2, RegistryError::ByIdNotDatabase);
    let pending_by_id = index_doc(503, name(5, "by_id"), db_config(&[], DatabaseIndexState::Backfilling));
    let err3 = registry.update(None, Some(&pending_by_id)).unwrap_err();
    assert_eq!(err3, RegistryError::ByIdNotEnabled);
}

#[test]
fn update_applies_deletes_and_state_transitions() {
    let mut registry = base_registry();
    // Transition by_other from backfilling to enabled: delete the old
    // version, insert the new one, under the same id.
    let old = index_doc(
        104,
        name(MESSAGES, "by_other"),
        db_config(&["other"], DatabaseIndexState::Backfilling),
    );
    let new = index_doc(
        104,
        name(MESSAGES, "by_other"),
        db_config(&["other"], DatabaseIndexState::Enabled),
    );
    registry.update(Some(&old), Some(&new)).expect("state transition");
    assert!(registry.get_pending(&name(MESSAGES, "by_other")).is_none());
    assert_eq!(registry.get_enabled(&name(MESSAGES, "by_other")).expect("enabled now").id(), 104);
    // Delete it outright.
    registry.update(Some(&new), None).expect("delete");
    assert!(registry.get_enabled(&name(MESSAGES, "by_other")).is_none());
    assert!(registry.get_pending(&name(MESSAGES, "by_other")).is_none());
}

#[test]
fn snapshots_are_isolated() {
    let mut registry = base_registry();
    let snapshot = registry.snapshot();
    let by_other = index_doc(
        104,
        name(MESSAGES, "by_other"),
        db_config(&["other"], DatabaseIndexState::Backfilling),
    );
    registry.update(Some(&by_other), None).expect("delete in the live registry");
    assert!(registry.get_pending(&name(MESSAGES, "by_other")).is_none());
    assert_eq!(snapshot.get_pending(&name(MESSAGES, "by_other")).expect("snapshot keeps it").id(), 104);
}

#[test]
fn same_indexes_compares_id_sets() {
    let registry = base_registry();
    let other = base_registry();
    assert!(registry.same_indexes(&other));
    // A state transition keeps the id, so the sets stay equal.
    let mut transitioned = base_registry();
    let old = index_doc(
        104,
        name(MESSAGES, "by_other"),
        db_config(&["other"], DatabaseIndexState::Backfilling),
    );
    let new = index_doc(
        104,
        name(MESSAGES, "by_other"),
        db_config(&["other"], DatabaseIndexState::Enabled),
    );
    transitioned.update(Some(&old), Some(&new)).expect("transition");
    assert!(registry.same_indexes(&transitioned));
    // Removing an index changes the set.
    let mut smaller = base_registry();
    smaller.update(Some(&old), None).expect("delete");
    assert!(!registry.same_indexes(&smaller));
    assert!(!smaller.same_indexes(&registry));
}

#[test]
fn identity_update_keeps_same_indexes() {
    let reference = base_registry();
    let mut registry = base_registry();
    for doc in base_docs() {
        registry.update(Some(&doc), Some(&doc)).expect("identity update");
    }
    assert!(registry.same_indexes(&reference));
    assert!(reference.same_indexes(&registry));
}

#[test]
fn index_updates_collapse_unchanged_keys() {
    let registry = base_registry();
    let old = plain_doc(
        MESSAGES,
        700,
        vec![("name".to_string(), FieldValue::Text("a".to_string()))],
    );
    let new = plain_doc(
        MESSAGES,
        700,
        vec![("name".to_string(), FieldValue::Text("b".to_string()))],
    );
    let updates = registry.index_updates(Some(&old), Some(&new));
    // by_id and by_other project the same key for both versions, so their
    // tombstones collapse into the insertion entries; by_name produces one
    // Deleted (key "a") and one NonClustered (key "b").
    assert_eq!(updates.len(), 4);
    let deleted: Vec<_> =
        updates.iter().filter(|u| u.value == DatabaseIndexValue::Deleted).collect();
    assert_eq!(deleted.len(), 1);
    assert_eq!(deleted[0].index_id, 102);
    for u in &updates {
        if u.value != DatabaseIndexValue::Deleted {
            assert_eq!(u.value, DatabaseIndexValue::NonClustered(new.id));
        }
    }
    let by_id_updates: Vec<_> = updates.iter().filter(|u| u.index_id == 101).collect();
    assert_eq!(by_id_updates.len(), 1);
    assert!(by_id_updates[0].is_system_index);
    // A delete alone produces only tombstones.
    let deletions = registry.index_updates(Some(&old), None);
    assert_eq!(deletions.len(), 3);
    assert!(deletions.iter().all(|u| u.value == DatabaseIndexValue::Deleted));
}

#[test]
fn set_persistence_version_updates_token() {
    let mut registry = base_registry();
    registry.set_persistence_version(9);
    assert_eq!(registry.persistence_version(), 9);
}
