use vstd::prelude::*;

use crate::keys::{project_spec, IndexKey};
use crate::external::{dedup_spec, dedup_u64s, name_of_pair, sorted_u64s, index_map_clone, index_map_contains, index_map_entries, index_map_get,
    index_map_insert, index_map_new, index_map_remove, table_set_clone, table_set_contains,
    table_set_entries, table_set_insert, table_set_new, table_set_remove, IndexMap, TableSet};
use crate::document::{parsed_metadata, DocV, IndexedDocument, ResolvedDocument};
use crate::errors::{index_backfilling_error, index_not_found_error, BootstrapError, ErrorMetadata,
    IndexErrorKind, RegistryError};
use crate::metadata::{config_is_enabled, developer_config_eq, duplicate_field_paths, Index, IndexConfig, IndexConfigV,
    IndexMetadata, IndexMetadataV, IndexV};
use crate::types::{by_id_descriptor, by_id_name, index_table_name, is_reserved_descriptor, DocumentId, FieldPath, FieldValue, FieldValueV, IndexId,
    lookup_table_spec, make_by_id_descriptor, make_index_table_name, IndexName, NameV,
    PersistenceVersion, TableMapping, TableNumber, TabletId, TabletIndexName};

verus! {

/// Ghost form of the whole registry: its two name-to-index mappings, the
/// secondary (table, descriptor) set, and its fixed identity.
pub ghost struct RegistryV {
    pub index_table: TabletId,
    pub index_table_number: TableNumber,
    pub enabled: Map<NameV, IndexV>,
    pub pending: Map<NameV, IndexV>,
    pub tables: Set<NameV>,
    pub persistence_version: PersistenceVersion,
}

/// What holds of every entry of a state mapping: the entry sits under its own
/// name, its id is the internal id of its defining document, and its
/// configuration agrees with the mapping it sits in.
pub open spec fn entry_ok(n: NameV, i: IndexV, enabled: bool) -> bool {
    &&& i.metadata.name == n
    &&& i.id == i.metadata.document_id.internal_id
    &&& config_is_enabled(i.metadata.config) == enabled
}

/// Well-formedness of a registry: every entry is under its own name and in
/// the mapping its state selects, and the secondary set holds exactly the
/// names registered in either mapping.
pub open spec fn wf_v(v: RegistryV) -> bool {
    &&& forall|n: NameV| #[trigger] v.enabled.contains_key(n) ==> entry_ok(n, v.enabled[n], true)
    &&& forall|n: NameV| #[trigger] v.pending.contains_key(n) ==> entry_ok(n, v.pending[n], false)
    &&& v.tables == v.enabled.dom().union(v.pending.dom())
}

/// A name is registered when either mapping holds it.
pub open spec fn registered(v: RegistryV, n: NameV) -> bool {
    v.enabled.contains_key(n) || v.pending.contains_key(n)
}

/// The index an index-definition document stands for.
pub open spec fn index_of_metadata(m: IndexMetadataV) -> IndexV {
    IndexV { id: m.document_id.internal_id, metadata: m }
}

/// The registry after the insert primitive: the index is placed into the
/// mapping its state selects and its (table, descriptor) pair is added.
pub open spec fn insert_v(v: RegistryV, idx: IndexV) -> RegistryV {
    let n = idx.metadata.name;
    if config_is_enabled(idx.metadata.config) {
        RegistryV { enabled: v.enabled.insert(n, idx), tables: v.tables.insert(n), ..v }
    } else {
        RegistryV { pending: v.pending.insert(n, idx), tables: v.tables.insert(n), ..v }
    }
}

/// The remove primitive finds its entry: the mapping selected by the removed
/// definition's state holds its name, with the same id.
pub open spec fn remove_ok(v: RegistryV, m: IndexMetadataV) -> bool {
    if config_is_enabled(m.config) {
        v.enabled.contains_key(m.name) && v.enabled[m.name].id == m.document_id.internal_id
    } else {
        v.pending.contains_key(m.name) && v.pending[m.name].id == m.document_id.internal_id
    }
}

/// The registry after the remove primitive: the entry leaves the mapping its
/// state selects, and the (table, descriptor) pair leaves the secondary set
/// unless a sibling in the other mapping still uses the name.
pub open spec fn remove_v(v: RegistryV, m: IndexMetadataV) -> RegistryV {
    let n = m.name;
    if config_is_enabled(m.config) {
        RegistryV {
            enabled: v.enabled.remove(n),
            tables: if v.pending.contains_key(n) {
                v.tables
            } else {
                v.tables.remove(n)
            },
            ..v
        }
    } else {
        RegistryV {
            pending: v.pending.remove(n),
            tables: if v.enabled.contains_key(n) {
                v.tables
            } else {
                v.tables.remove(n)
            },
            ..v
        }
    }
}

/// The registry of indexes: the authoritative, in-memory derived view of the
/// system index table. It records which indexes exist, on which tables, in
/// which lifecycle state and with what definition; enforces the
/// schema-evolution invariants on every mutation; and projects documents onto
/// index keys. Its mappings share structure, so a snapshot is a cheap copy.
pub struct IndexRegistry {
    /// The tablet of the system table whose documents define the indexes.
    pub index_table: TabletId,
    /// The numeric table number of that tablet.
    pub index_table_number: TableNumber,
    /// Indexes that are enabled and ready to be queried against.
    pub enabled_indexes: IndexMap,
    /// Indexes that are not yet enabled for queries, typically backfilling or
    /// waiting to be committed.
    pub pending_indexes: IndexMap,
    /// The (table, descriptor) pairs of every registered index.
    pub indexes_by_table: TableSet,
    /// The versioning token every key computation uses.
    pub persistence_version: PersistenceVersion,
}

impl View for IndexRegistry {
    type V = RegistryV;

    open spec fn view(&self) -> RegistryV {
        RegistryV {
            index_table: self.index_table,
            index_table_number: self.index_table_number,
            enabled: crate::external::index_map_model(self.enabled_indexes),
            pending: crate::external::index_map_model(self.pending_indexes),
            tables: crate::external::table_set_model(self.indexes_by_table),
            persistence_version: self.persistence_version,
        }
    }
}

impl IndexRegistry {
    /// Well-formedness of this registry.
    pub open spec fn wf(&self) -> bool {
        wf_v(self@)
    }

    /// The versioning token every key computation uses.
    pub fn persistence_version(&self) -> (r: PersistenceVersion)
        ensures
            r == self@.persistence_version,
    {
        self.persistence_version
    }

    /// Replaces the versioning token.
    pub fn set_persistence_version(&mut self, persistence_version: PersistenceVersion)
        ensures
            final(self)@ == (RegistryV { persistence_version, ..old(self)@ }),
            old(self).wf() ==> final(self).wf(),
    {
        self.persistence_version = persistence_version
    }

    /// The tablet of the system index table.
    pub fn index_table(&self) -> (r: TabletId)
        ensures
            r == self@.index_table,
    {
        self.index_table
    }

    /// The numeric table number of the system index table.
    pub fn index_table_number(&self) -> (r: TableNumber)
        ensures
            r == self@.index_table_number,
    {
        self.index_table_number
    }

    /// A snapshot of this registry: a cheap, structurally shared copy.
    pub fn snapshot(&self) -> (r: Self)
        ensures
            r@ == self@,
    {
        IndexRegistry {
            index_table: self.index_table,
            index_table_number: self.index_table_number,
            enabled_indexes: index_map_clone(&self.enabled_indexes),
            pending_indexes: index_map_clone(&self.pending_indexes),
            indexes_by_table: table_set_clone(&self.indexes_by_table),
            persistence_version: self.persistence_version,
        }
    }

    /// An empty registry for the given index table.
    fn empty(
        index_table: TabletId,
        index_table_number: TableNumber,
        persistence_version: PersistenceVersion,
    ) -> (r: Self)
        ensures
            r@ == (RegistryV {
                index_table,
                index_table_number,
                enabled: Map::empty(),
                pending: Map::empty(),
                tables: Set::empty(),
                persistence_version,
            }),
            r.wf(),
    {
        let r = IndexRegistry {
            index_table,
            index_table_number,
            enabled_indexes: index_map_new(),
            pending_indexes: index_map_new(),
            indexes_by_table: table_set_new(),
            persistence_version,
        };
        proof {
            assert(r@.tables =~= r@.enabled.dom().union(r@.pending.dom()));
        }
        r
    }

    /// The insert primitive: places the index into the mapping its state
    /// selects and adds its (table, descriptor) pair to the secondary set.
    /// Adding an already-present pair leaves the set as it is.
    fn insert(&mut self, index: Index) -> (prev: Option<Index>)
        requires
            old(self).wf(),
            index@.id == index@.metadata.document_id.internal_id,
        ensures
            final(self)@ == insert_v(old(self)@, index@),
            final(self).wf(),
    {
        let ghost v0 = self@;
        let ghost iv = index@;
        let name = index.name();
        let enabled = index.metadata.config.is_enabled();
        table_set_insert(&mut self.indexes_by_table, &name);
        let prev: Option<Index> = if enabled {
            index_map_insert(&mut self.enabled_indexes, &name, index)
        } else {
            index_map_insert(&mut self.pending_indexes, &name, index)
        };
        proof {
            let v1 = self@;
            let n = iv.metadata.name;
            assert(v1.tables =~= v1.enabled.dom().union(v1.pending.dom()));
            assert(v1 == insert_v(v0, iv));
            assert forall|m: NameV| #[trigger] v1.enabled.contains_key(m) implies entry_ok(
                m,
                v1.enabled[m],
                true,
            ) by {
                if m != n || !enabled {
                    assert(v0.enabled.contains_key(m));
                }
            }
            assert forall|m: NameV| #[trigger] v1.pending.contains_key(m) implies entry_ok(
                m,
                v1.pending[m],
                false,
            ) by {
                if m != n || enabled {
                    assert(v0.pending.contains_key(m));
                }
            }
        }
        prev
    }

    /// The remove primitive: removes the entry that the definition's name and
    /// state select, then drops the (table, descriptor) pair unless the other
    /// mapping still holds the name. The caller must know the entry is there
    /// with the same id: a mismatch would mean the registry's own bookkeeping
    /// is inconsistent, which is a fatal fault, not a validation failure.
    fn remove(&mut self, to_remove: &IndexMetadata)
        requires
            old(self).wf(),
            remove_ok(old(self)@, to_remove@),
        ensures
            final(self)@ == remove_v(old(self)@, to_remove@),
            final(self).wf(),
    {
        let ghost v0 = self@;
        let ghost mv = to_remove@;
        let enabled = to_remove.config.is_enabled();
        if enabled {
            let _removed = index_map_remove(&mut self.enabled_indexes, &to_remove.name);
            let sibling = index_map_contains(&self.pending_indexes, &to_remove.name);
            if !sibling {
                table_set_remove(
                    &mut self.indexes_by_table,
                    to_remove.name.table,
                    &to_remove.name.descriptor,
                );
            }
        } else {
            let _removed = index_map_remove(&mut self.pending_indexes, &to_remove.name);
            let sibling = index_map_contains(&self.enabled_indexes, &to_remove.name);
            if !sibling {
                table_set_remove(
                    &mut self.indexes_by_table,
                    to_remove.name.table,
                    &to_remove.name.descriptor,
                );
            }
        }
        proof {
            let v1 = self@;
            let n = mv.name;
            assert(NameV { table: to_remove.name.table, descriptor: to_remove.name.descriptor@ }
                == n);
            assert(v1 == remove_v(v0, mv));
            assert(v1.tables =~= v1.enabled.dom().union(v1.pending.dom()));
            assert forall|m: NameV| #[trigger] v1.enabled.contains_key(m) implies entry_ok(
                m,
                v1.enabled[m],
                true,
            ) by {
                assert(v0.enabled.contains_key(m));
            }
            assert forall|m: NameV| #[trigger] v1.pending.contains_key(m) implies entry_ok(
                m,
                v1.pending[m],
                false,
            ) by {
                assert(v0.pending.contains_key(m));
            }
        }
    }
}

/// The ghost content of an optional document argument.
pub open spec fn opt_doc_view(d: Option<&ResolvedDocument>) -> Option<DocV> {
    match d {
        Some(x) => Some(x@),
        None => None,
    }
}

/// The first failure of the checks a replace runs: the two documents must be
/// versions of one document, and an index definition may change neither its
/// table, nor a reserved name, nor its developer-visible configuration.
pub open spec fn replace_error(v: RegistryV, od: DocV, nd: DocV) -> Option<RegistryError> {
    if od.id != nd.id {
        Some(RegistryError::DocumentIdMismatch)
    } else if od.id.tablet_id == v.index_table {
        if parsed_metadata(od) is None || parsed_metadata(nd) is None {
            Some(RegistryError::NotAnIndexDocument)
        } else {
            let om = parsed_metadata(od)->Some_0;
            let nm = parsed_metadata(nd)->Some_0;
            if om.name.table != nm.name.table {
                Some(RegistryError::ChangedIndexedTable)
            } else if is_reserved_descriptor(om.name.descriptor) && om.name != nm.name {
                Some(RegistryError::RenamedReservedIndex)
            } else if !developer_config_eq(om.config, nm.config) {
                Some(RegistryError::ChangedDeveloperConfig)
            } else {
                None
            }
        }
    } else {
        None
    }
}

/// The first failure of the checks a delete or the old side of a replace
/// runs: an index definition must name a registered index, and the document's
/// table must appear in the secondary table index.
pub open spec fn deletion_error(v: RegistryV, od: DocV) -> Option<RegistryError> {
    if od.id.tablet_id == v.index_table && parsed_metadata(od) is None {
        Some(RegistryError::NotAnIndexDocument)
    } else if od.id.tablet_id == v.index_table && !registered(
        v,
        parsed_metadata(od)->Some_0.name,
    ) {
        Some(RegistryError::UpdatingNonexistentIndex)
    } else if !v.tables.contains(by_id_name(od.id.tablet_id)) {
        Some(RegistryError::DocumentTableNotRegistered)
    } else {
        None
    }
}

/// The first failure of the checks an insert or the new side of a replace
/// runs: the affected table must already have an enabled `by_id` index; on
/// the index table itself only a well-formed `by_id` definition is accepted;
/// and a new definition may not collide with a same-state index of another
/// id.
pub open spec fn insertion_error(v: RegistryV, nd: DocV) -> Option<RegistryError> {
    let t = nd.id.tablet_id;
    if !v.enabled.contains_key(by_id_name(t)) {
        Some(RegistryError::MissingByIdIndex)
    } else if t == v.index_table {
        if parsed_metadata(nd) is None {
            Some(RegistryError::NotAnIndexDocument)
        } else {
            let m = parsed_metadata(nd)->Some_0;
            if m.name.table == v.index_table && m.name.descriptor != by_id_descriptor() {
                Some(RegistryError::NonByIdOnIndexTable)
            } else if m.name.descriptor == by_id_descriptor() && !(m.config is Database) {
                Some(RegistryError::ByIdNotDatabase)
            } else if m.name.descriptor == by_id_descriptor() && !config_is_enabled(m.config) {
                Some(RegistryError::ByIdNotEnabled)
            } else {
                verify_index_state_error(
                    if v.enabled.contains_key(m.name) {
                        Some(v.enabled[m.name])
                    } else {
                        None
                    },
                    if v.pending.contains_key(m.name) {
                        Some(v.pending[m.name])
                    } else {
                        None
                    },
                    m,
                )
            }
        }
    } else {
        None
    }
}

/// The existing index leaves room for the updated definition: there is none,
/// or it is the same index id.
pub open spec fn existing_is_none_or_equal_spec(existing: Option<IndexV>, updated: IndexMetadataV) -> bool {
    existing is None || existing->Some_0.id == updated.document_id.internal_id
}

/// The duplicate-state check: a new enabled definition may not collide with
/// an enabled index of another id under its name, and symmetrically for
/// pending. Re-applying the same id — a state transition — is allowed.
pub open spec fn verify_index_state_error(
    enabled_index: Option<IndexV>,
    pending_index: Option<IndexV>,
    m: IndexMetadataV,
) -> Option<RegistryError> {
    if config_is_enabled(m.config) {
        if !existing_is_none_or_equal_spec(enabled_index, m) {
            Some(RegistryError::SecondEnabledIndex)
        } else {
            None
        }
    } else {
        if !existing_is_none_or_equal_spec(pending_index, m) {
            Some(RegistryError::SecondPendingIndex)
        } else {
            None
        }
    }
}

/// The first failure the update verifier finds, in the order it checks: the
/// replace checks, then the deletion checks, then the insertion checks.
/// `None` means the update is valid.
pub open spec fn verify_error(v: RegistryV, del: Option<DocV>, ins: Option<DocV>) -> Option<
    RegistryError,
> {
    let r1 = if del is Some && ins is Some {
        replace_error(v, del->Some_0, ins->Some_0)
    } else {
        None
    };
    if r1 is Some {
        r1
    } else {
        let r2 = match del {
            Some(d) => deletion_error(v, d),
            None => None,
        };
        if r2 is Some {
            r2
        } else {
            match ins {
                Some(d) => insertion_error(v, d),
                None => None,
            }
        }
    }
}

/// What applying the deletion side takes for granted: a document of the index
/// table parses, and the entry its name and state select is there with the
/// same id. A mismatch is a fatal internal-consistency fault, never a
/// validation failure.
pub open spec fn removal_precondition(v: RegistryV, del: Option<DocV>) -> bool {
    match del {
        Some(d) => d.id.tablet_id == v.index_table ==> (parsed_metadata(d) is Some && remove_ok(
            v,
            parsed_metadata(d)->Some_0,
        )),
        None => true,
    }
}

/// What applying the insertion side takes for granted: a document of the
/// index table parses.
pub open spec fn insertion_precondition(v: RegistryV, ins: Option<DocV>) -> bool {
    match ins {
        Some(d) => d.id.tablet_id == v.index_table ==> parsed_metadata(d) is Some,
        None => true,
    }
}

/// The registry after an already-verified update: the deletion side runs the
/// remove primitive, then the insertion side runs the insert primitive;
/// documents of other tables leave the registry as it is.
pub open spec fn apply_v(v: RegistryV, del: Option<DocV>, ins: Option<DocV>) -> RegistryV {
    let v1 = match del {
        Some(d) => if d.id.tablet_id == v.index_table {
            remove_v(v, parsed_metadata(d)->Some_0)
        } else {
            v
        },
        None => v,
    };
    match ins {
        Some(d) => if d.id.tablet_id == v.index_table {
            insert_v(v1, index_of_metadata(parsed_metadata(d)->Some_0))
        } else {
            v1
        },
        None => v1,
    }
}

/// Whether an update touches the index table at all.
pub open spec fn touches_index_table(v: RegistryV, del: Option<DocV>, ins: Option<DocV>) -> bool {
    (del is Some && del->Some_0.id.tablet_id == v.index_table) || (ins is Some
        && ins->Some_0.id.tablet_id == v.index_table)
}

impl IndexRegistry {
    /// The existing index leaves room for the updated definition: there is
    /// none, or it is the same index id.
    fn existing_is_none_or_equal(existing: Option<&Index>, updated: &IndexMetadata) -> (r: bool)
        ensures
            r == existing_is_none_or_equal_spec(
                match existing {
                    Some(i) => Some(i@),
                    None => None,
                },
                updated@,
            ),
    {
        match existing {
            None => true,
            Some(i) => i.id == updated.document_id.internal_id,
        }
    }

    /// The duplicate-state check: an index cannot be created while another
    /// index of the same name and state exists under a different id; the
    /// existing one must be deleted first. Indexes can still be edited, e.g.
    /// to move from backfilling to enabled, since that keeps the id.
    fn verify_index_state(
        enabled_index: Option<&Index>,
        pending_index: Option<&Index>,
        metadata: &IndexMetadata,
    ) -> (r: Result<(), RegistryError>)
        ensures
            match r {
                Ok(_) => verify_index_state_error(
                    match enabled_index {
                        Some(i) => Some(i@),
                        None => None,
                    },
                    match pending_index {
                        Some(i) => Some(i@),
                        None => None,
                    },
                    metadata@,
                ) is None,
                Err(e) => verify_index_state_error(
                    match enabled_index {
                        Some(i) => Some(i@),
                        None => None,
                    },
                    match pending_index {
                        Some(i) => Some(i@),
                        None => None,
                    },
                    metadata@,
                ) == Some(e),
            },
    {
        if metadata.config.is_enabled() {
            if !Self::existing_is_none_or_equal(enabled_index, metadata) {
                return Err(RegistryError::SecondEnabledIndex);
            }
        } else {
            if !Self::existing_is_none_or_equal(pending_index, metadata) {
                return Err(RegistryError::SecondPendingIndex);
            }
        }
        Ok(())
    }

    /// Verifies a proposed update: zero, one or two of the old and new
    /// version of a document of any table. Returns the first invariant the
    /// update would violate, and exactly when the update is valid, nothing.
    pub fn verify_update(
        &self,
        old_document: Option<&ResolvedDocument>,
        new_document: Option<&ResolvedDocument>,
    ) -> (r: Result<(), RegistryError>)
        requires
            self.wf(),
        ensures
            match r {
                Ok(_) => verify_error(
                    self@,
                    opt_doc_view(old_document),
                    opt_doc_view(new_document),
                ) is None,
                Err(e) => verify_error(
                    self@,
                    opt_doc_view(old_document),
                    opt_doc_view(new_document),
                ) == Some(e),
            },
    {
        // Checks performed when updating a document.
        if let (Some(od), Some(nd)) = (old_document, new_document) {
            if !(od.id == nd.id) {
                return Err(RegistryError::DocumentIdMismatch);
            }
            if od.id.tablet_id == self.index_table {
                let om = match od.parse_index_metadata() {
                    Some(m) => m,
                    None => {
                        return Err(RegistryError::NotAnIndexDocument);
                    },
                };
                let nm = match nd.parse_index_metadata() {
                    Some(m) => m,
                    None => {
                        return Err(RegistryError::NotAnIndexDocument);
                    },
                };
                if om.name.table != nm.name.table {
                    return Err(RegistryError::ChangedIndexedTable);
                }
                if om.name.is_by_id_or_creation_time() && !om.name.same_name(&nm.name) {
                    return Err(RegistryError::RenamedReservedIndex);
                }
                if !om.config.developer_config_equals(&nm.config) {
                    return Err(RegistryError::ChangedDeveloperConfig);
                }
            }
        }
        // Checks performed when updating or removing a document.
        if let Some(od) = old_document {
            if od.id.tablet_id == self.index_table {
                let m = match od.parse_index_metadata() {
                    Some(m) => m,
                    None => {
                        return Err(RegistryError::NotAnIndexDocument);
                    },
                };
                if !index_map_contains(&self.enabled_indexes, &m.name) && !index_map_contains(
                    &self.pending_indexes,
                    &m.name,
                ) {
                    return Err(RegistryError::UpdatingNonexistentIndex);
                }
            }
            let by_id_descriptor = make_by_id_descriptor();
            if !table_set_contains(&self.indexes_by_table, od.id.tablet_id, &by_id_descriptor) {
                return Err(RegistryError::DocumentTableNotRegistered);
            }
        }
        // Checks performed when updating or adding a document.
        if let Some(nd) = new_document {
            let by_id = TabletIndexName::by_id(nd.id.tablet_id);
            if !index_map_contains(&self.enabled_indexes, &by_id) {
                return Err(RegistryError::MissingByIdIndex);
            }
            if nd.id.tablet_id == self.index_table {
                let m = match nd.parse_index_metadata() {
                    Some(m) => m,
                    None => {
                        return Err(RegistryError::NotAnIndexDocument);
                    },
                };
                // Only the `by_id` index is allowed on the index table
                // itself: the registry cannot backfill its own table after
                // bootstrap, so no other index may ever be declared on it.
                let m_is_by_id = m.name.is_by_id();
                if m.name.table == self.index_table && !m_is_by_id {
                    return Err(RegistryError::NonByIdOnIndexTable);
                }
                if m_is_by_id {
                    match &m.config {
                        IndexConfig::Database { .. } => {
                            if !m.config.is_enabled() {
                                return Err(RegistryError::ByIdNotEnabled);
                            }
                        },
                        _ => {
                            return Err(RegistryError::ByIdNotDatabase);
                        },
                    }
                }
                // A new definition may not collide with an index of the same
                // name and state unless it is the same index id: the state
                // transition of one index re-uses its id, a second index
                // under the name must first delete the old one.
                let enabled_index = index_map_get(&self.enabled_indexes, &m.name);
                let pending_index = index_map_get(&self.pending_indexes, &m.name);
                match Self::verify_index_state(enabled_index, pending_index, &m) {
                    Ok(_) => {},
                    Err(e) => {
                        return Err(e);
                    },
                }
            }
        }
        Ok(())
    }

    /// Applies an already-verified update and reports whether the registry
    /// changed. Callers must have verified the update first: this step never
    /// re-validates, and the remove primitive demands that its entry is
    /// present with the expected id.
    pub fn apply_verified_update(
        &mut self,
        deletion: Option<&ResolvedDocument>,
        insertion: Option<&ResolvedDocument>,
    ) -> (modified: bool)
        requires
            old(self).wf(),
            removal_precondition(old(self)@, opt_doc_view(deletion)),
            insertion_precondition(old(self)@, opt_doc_view(insertion)),
        ensures
            final(self)@ == apply_v(old(self)@, opt_doc_view(deletion), opt_doc_view(insertion)),
            final(self).wf(),
            modified == touches_index_table(
                old(self)@,
                opt_doc_view(deletion),
                opt_doc_view(insertion),
            ),
    {
        let mut modified = false;
        if let Some(od) = deletion {
            if od.id.tablet_id == self.index_table {
                match od.parse_index_metadata() {
                    Some(m) => {
                        self.remove(&m);
                        modified = true;
                    },
                    None => {
                        proof {
                            assert(false);
                        }
                    },
                }
            }
        }
        if let Some(nd) = insertion {
            if nd.id.tablet_id == self.index_table {
                match nd.parse_index_metadata() {
                    Some(m) => {
                        let id = m.document_id.internal_id;
                        self.insert(Index::new(id, m));
                        modified = true;
                    },
                    None => {
                        proof {
                            assert(false);
                        }
                    },
                }
            }
        }
        modified
    }

    /// Verifies and applies an update: the sole externally-driven mutation
    /// entry point. A validation failure is returned and leaves the registry
    /// untouched.
    pub fn update(
        &mut self,
        deletion: Option<&ResolvedDocument>,
        insertion: Option<&ResolvedDocument>,
    ) -> (r: Result<(), RegistryError>)
        requires
            old(self).wf(),
            verify_error(old(self)@, opt_doc_view(deletion), opt_doc_view(insertion)) is None
                ==> removal_precondition(old(self)@, opt_doc_view(deletion)),
        ensures
            final(self).wf(),
            match r {
                Ok(_) => verify_error(
                    old(self)@,
                    opt_doc_view(deletion),
                    opt_doc_view(insertion),
                ) is None && final(self)@ == apply_v(
                    old(self)@,
                    opt_doc_view(deletion),
                    opt_doc_view(insertion),
                ),
                Err(e) => verify_error(
                    old(self)@,
                    opt_doc_view(deletion),
                    opt_doc_view(insertion),
                ) == Some(e) && final(self)@ == old(self)@,
            },
    {
        match self.verify_update(deletion, insertion) {
            Ok(_) => {
                proof {
                    let v = self@;
                    let dd = opt_doc_view(deletion);
                    let ii = opt_doc_view(insertion);
                    if ii is Some && ii->Some_0.id.tablet_id == v.index_table {
                        assert(insertion_error(v, ii->Some_0) is None);
                        assert(parsed_metadata(ii->Some_0) is Some);
                    }
                }
                self.apply_verified_update(deletion, insertion);
                Ok(())
            },
            Err(e) => Err(e),
        }
    }
}

/// Whether a document defines the index table's own `by_id` index.
pub open spec fn is_meta_doc(d: DocV, index_table: TabletId) -> bool {
    parsed_metadata(d) is Some && parsed_metadata(d)->Some_0.name == by_id_name(index_table)
}

/// The first structural failure of a bootstrap scan, walking the documents in
/// order: each must parse, live in the index table, and define the table's
/// own `by_id` index at most once; at the end, that index must have been
/// seen.
pub open spec fn scan_error(
    docs: Seq<DocV>,
    index_table: TabletId,
    meta_seen: bool,
) -> Option<BootstrapError>
    decreases docs.len(),
{
    if docs.len() == 0 {
        if meta_seen {
            None
        } else {
            Some(BootstrapError::MissingMetaIndex)
        }
    } else {
        let d = docs[0];
        if parsed_metadata(d) is None {
            Some(BootstrapError::NotAnIndexDocument)
        } else if d.id.tablet_id != index_table {
            Some(BootstrapError::DocumentNotInIndexTable)
        } else if is_meta_doc(d, index_table) {
            if meta_seen {
                Some(BootstrapError::DuplicateMetaIndex)
            } else {
                scan_error(docs.drop_first(), index_table, true)
            }
        } else {
            scan_error(docs.drop_first(), index_table, meta_seen)
        }
    }
}

/// The definition of the index table's own `by_id` index: the first such
/// definition among the documents.
pub open spec fn first_meta(docs: Seq<DocV>, index_table: TabletId) -> IndexMetadataV
    decreases docs.len(),
{
    if docs.len() == 0 {
        arbitrary()
    } else if is_meta_doc(docs[0], index_table) {
        parsed_metadata(docs[0])->Some_0
    } else {
        first_meta(docs.drop_first(), index_table)
    }
}

/// The definitions of all the other indexes, in document order.
pub open spec fn regular_metas(docs: Seq<DocV>, index_table: TabletId) -> Seq<IndexMetadataV>
    decreases docs.len(),
{
    if docs.len() == 0 {
        Seq::empty()
    } else if is_meta_doc(docs[0], index_table) {
        regular_metas(docs.drop_first(), index_table)
    } else {
        seq![parsed_metadata(docs[0])->Some_0] + regular_metas(docs.drop_first(), index_table)
    }
}

/// A sequence of definitions folded through the insert primitive, in order.
pub open spec fn fold_metas(v: RegistryV, ms: Seq<IndexMetadataV>) -> RegistryV
    decreases ms.len(),
{
    if ms.len() == 0 {
        v
    } else {
        fold_metas(insert_v(v, index_of_metadata(ms[0])), ms.drop_first())
    }
}

/// A registry with nothing registered.
pub open spec fn empty_registry_v(
    index_table: TabletId,
    index_table_number: TableNumber,
    persistence_version: PersistenceVersion,
) -> RegistryV {
    RegistryV {
        index_table,
        index_table_number,
        enabled: Map::empty(),
        pending: Map::empty(),
        tables: Set::empty(),
        persistence_version,
    }
}

/// The registry a bootstrap builds: the index table's own `by_id` index is
/// inserted first, then every other definition in document order.
pub open spec fn bootstrap_result(
    index_table: TabletId,
    index_table_number: TableNumber,
    persistence_version: PersistenceVersion,
    docs: Seq<DocV>,
) -> RegistryV {
    fold_metas(
        insert_v(
            empty_registry_v(index_table, index_table_number, persistence_version),
            index_of_metadata(first_meta(docs, index_table)),
        ),
        regular_metas(docs, index_table),
    )
}

impl IndexRegistry {
    /// Fills out the registry from the latest version of each document of the
    /// system index table: a one-shot cold start. The table mapping resolves
    /// the index table; the scan classifies each document as the table's own
    /// `by_id` definition or a regular definition, fails on the structural
    /// errors, and inserts the table's own index first. Bootstrap trusts the
    /// table's own invariants and does not run the update verifier.
    pub fn bootstrap(
        table_mapping: &TableMapping,
        index_documents: &Vec<ResolvedDocument>,
        persistence_version: PersistenceVersion,
    ) -> (r: Result<IndexRegistry, BootstrapError>)
        ensures
            match r {
                Ok(reg) => {
                    let found = lookup_table_spec(table_mapping@, index_table_name());
                    &&& found is Some
                    &&& scan_error(
                        index_documents.deep_view(),
                        found->Some_0.tablet_id,
                        false,
                    ) is None
                    &&& reg@ == bootstrap_result(
                        found->Some_0.tablet_id,
                        found->Some_0.table_number,
                        persistence_version,
                        index_documents.deep_view(),
                    )
                    &&& reg.wf()
                },
                Err(e) => {
                    let found = lookup_table_spec(table_mapping@, index_table_name());
                    if found is None {
                        e == BootstrapError::IndexTableNotFound
                    } else {
                        Some(e) == scan_error(
                            index_documents.deep_view(),
                            found->Some_0.tablet_id,
                            false,
                        )
                    }
                },
            },
    {
        let table_name = make_index_table_name();
        let (index_table, index_table_number) = match table_mapping.name_to_tablet(&table_name) {
            Some(pair) => pair,
            None => {
                return Err(BootstrapError::IndexTableNotFound);
            },
        };
        let ghost docs = index_documents.deep_view();
        let meta_name = TabletIndexName::by_id(index_table);
        let mut meta: Option<IndexMetadata> = None;
        let mut regular: Vec<IndexMetadata> = Vec::new();
        let mut i: usize = 0;
        proof {
            assert(docs.skip(0) =~= docs);
            assert(regular.deep_view() + regular_metas(docs.skip(0), index_table)
                =~= regular_metas(docs, index_table));
        }
        while i < index_documents.len()
            invariant
                0 <= i <= index_documents.len(),
                docs == index_documents.deep_view(),
                docs.len() == index_documents.len(),
                meta_name@ == by_id_name(index_table),
                lookup_table_spec(table_mapping@, index_table_name()) is Some,
                index_table == lookup_table_spec(
                    table_mapping@,
                    index_table_name(),
                )->Some_0.tablet_id,
                scan_error(docs, index_table, false) == scan_error(
                    docs.skip(i as int),
                    index_table,
                    meta is Some,
                ),
                match meta {
                    Some(m) => m@ == first_meta(docs, index_table),
                    None => first_meta(docs, index_table) == first_meta(
                        docs.skip(i as int),
                        index_table,
                    ),
                },
                regular_metas(docs, index_table) == regular.deep_view() + regular_metas(
                    docs.skip(i as int),
                    index_table,
                ),
            decreases index_documents.len() - i,
        {
            let document = &index_documents[i];
            proof {
                assert(docs.skip(i as int)[0] == index_documents[i as int].deep_view());
                assert(document.deep_view() == index_documents[i as int].deep_view());
                assert(document@ == docs.skip(i as int)[0]);
                assert(docs.skip(i as int).drop_first() =~= docs.skip(i as int + 1));
            }
            let metadata = match document.parse_index_metadata() {
                Some(m) => m,
                None => {
                    return Err(BootstrapError::NotAnIndexDocument);
                },
            };
            if document.id.tablet_id != index_table {
                return Err(BootstrapError::DocumentNotInIndexTable);
            }
            if metadata.name.same_name(&meta_name) {
                if meta.is_some() {
                    return Err(BootstrapError::DuplicateMetaIndex);
                }
                meta = Some(metadata);
            } else {
                let ghost prevdv = regular.deep_view();
                regular.push(metadata);
                proof {
                    assert(regular.deep_view() =~= prevdv.push(
                        parsed_metadata(docs.skip(i as int)[0])->Some_0,
                    ));
                    assert(regular.deep_view() + regular_metas(docs.skip(i as int + 1), index_table)
                        =~= prevdv + regular_metas(docs.skip(i as int), index_table));
                }
            }
            i = i + 1;
        }
        proof {
            assert(docs.skip(i as int) =~= Seq::<DocV>::empty());
            assert(regular.deep_view() + regular_metas(docs.skip(i as int), index_table)
                =~= regular.deep_view());
        }
        let meta = match meta {
            Some(m) => m,
            None => {
                return Err(BootstrapError::MissingMetaIndex);
            },
        };
        let mut registry = Self::empty(index_table, index_table_number, persistence_version);
        let ghost v1 = insert_v(registry@, index_of_metadata(meta@));
        let id = meta.document_id.internal_id;
        registry.insert(Index::new(id, meta));
        let ghost rms = regular.deep_view();
        let mut j: usize = 0;
        proof {
            assert(rms.skip(0) =~= rms);
        }
        while j < regular.len()
            invariant
                0 <= j <= regular.len(),
                rms == regular.deep_view(),
                rms.len() == regular.len(),
                registry.wf(),
                fold_metas(v1, rms) == fold_metas(registry@, rms.skip(j as int)),
            decreases regular.len() - j,
        {
            proof {
                assert(rms.skip(j as int)[0] == regular[j as int].deep_view());
                assert(rms.skip(j as int).drop_first() =~= rms.skip(j as int + 1));
            }
            let m = regular[j].duplicate();
            let id = m.document_id.internal_id;
            registry.insert(Index::new(id, m));
            j = j + 1;
        }
        proof {
            assert(rms.skip(j as int) =~= Seq::<IndexMetadataV>::empty());
        }
        Ok(registry)
    }
}

impl IndexRegistry {
    /// The enabled index of that name, if any.
    pub fn get_enabled(&self, index_name: &TabletIndexName) -> (r: Option<&Index>)
        ensures
            match r {
                Some(i) => self@.enabled.contains_key(index_name@) && i@ == self@.enabled[
                    index_name@
                ],
                None => !self@.enabled.contains_key(index_name@),
            },
    {
        index_map_get(&self.enabled_indexes, index_name)
    }

    /// The pending index of that name, if any.
    pub fn get_pending(&self, index_name: &TabletIndexName) -> (r: Option<&Index>)
        ensures
            match r {
                Some(i) => self@.pending.contains_key(index_name@) && i@ == self@.pending[
                    index_name@
                ],
                None => !self@.pending.contains_key(index_name@),
            },
    {
        index_map_get(&self.pending_indexes, index_name)
    }

    /// The definition of the enabled index of that name, if any.
    pub fn enabled_index_metadata(&self, name: &TabletIndexName) -> (r: Option<IndexMetadata>)
        ensures
            match r {
                Some(m) => self@.enabled.contains_key(name@) && m@ == self@.enabled[name@].metadata,
                None => !self@.enabled.contains_key(name@),
            },
    {
        match self.get_enabled(name) {
            Some(index) => Some(index.metadata.duplicate()),
            None => None,
        }
    }

    /// The enabled `by_id` index of a table; every table that holds documents
    /// must have one.
    pub fn must_get_by_id(&self, tablet_id: TabletId) -> (r: Result<&Index, RegistryError>)
        ensures
            match r {
                Ok(i) => self@.enabled.contains_key(by_id_name(tablet_id)) && i@ == self@.enabled[
                    by_id_name(tablet_id)
                ],
                Err(e) => e == RegistryError::MissingByIdIndex && !self@.enabled.contains_key(
                    by_id_name(tablet_id),
                ),
            },
    {
        let name = TabletIndexName::by_id(tablet_id);
        match index_map_get(&self.enabled_indexes, &name) {
            Some(index) => Ok(index),
            None => Err(RegistryError::MissingByIdIndex),
        }
    }

    /// Resolves an index name to its enabled index, or reports exactly why it
    /// cannot: a pending entry means the index is still backfilling, no entry
    /// at all means it does not exist.
    pub fn require_enabled(
        &self,
        index_name: &TabletIndexName,
        printable_index_name: &IndexName,
    ) -> (r: Result<Index, ErrorMetadata>)
        ensures
            match r {
                Ok(i) => self@.enabled.contains_key(index_name@) && i@ == self@.enabled[
                    index_name@
                ],
                Err(e) => {
                    &&& !self@.enabled.contains_key(index_name@)
                    &&& e@.name == printable_index_name@
                    &&& e@.kind == (if self@.pending.contains_key(index_name@) {
                        IndexErrorKind::IndexBackfilling
                    } else {
                        IndexErrorKind::IndexNotFound
                    })
                },
            },
    {
        match self.get_enabled(index_name) {
            Some(enabled) => Ok(enabled.duplicate()),
            None => {
                match self.get_pending(index_name) {
                    Some(_) => Err(index_backfilling_error(printable_index_name)),
                    None => Err(index_not_found_error(printable_index_name)),
                }
            },
        }
    }

    /// Returns both the enabled and the pending indexes of the given table:
    /// exactly the registered indexes whose name's table is `tablet_id`. Two
    /// indexes of one name are returned when an index is mutated but the
    /// mutated version is not yet enabled.
    #[verifier::rlimit(60)]
    pub fn indexes_by_table(&self, tablet_id: TabletId) -> (r: Vec<Index>)
        requires
            self.wf(),
        ensures
            forall|k: int|
                0 <= k < r@.len() ==> (#[trigger] r@[k])@.metadata.name.table == tablet_id && {
                    let n = r@[k]@.metadata.name;
                    (self@.enabled.contains_key(n) && r@[k]@ == self@.enabled[n])
                        || (self@.pending.contains_key(n) && r@[k]@ == self@.pending[n])
                },
            forall|n: NameV| #[trigger]
                self@.enabled.contains_key(n) && n.table == tablet_id ==> exists|k: int|
                    0 <= k < r@.len() && r@[k as int]@ == self@.enabled[n],
            forall|n: NameV| #[trigger]
                self@.pending.contains_key(n) && n.table == tablet_id ==> exists|k: int|
                    0 <= k < r@.len() && r@[k as int]@ == self@.pending[n],
            forall|k1: int, k2: int|
                0 <= k1 < k2 < r@.len() ==> !((#[trigger] r@[k1])@.metadata.name == (
                #[trigger] r@[k2])@.metadata.name && config_is_enabled(r@[k1]@.metadata.config)
                    == config_is_enabled(r@[k2]@.metadata.config)),
    {
        let entries = table_set_entries(&self.indexes_by_table);
        let ghost ev = entries.deep_view();
        let mut out: Vec<Index> = Vec::new();
        let mut j: usize = 0;
        while j < entries.len()
            invariant
                0 <= j <= entries.len(),
                self.wf(),
                forall|i: int|
                    0 <= i < entries@.len() ==> self@.tables.contains(
                        name_of_pair(#[trigger] entries@[i]),
                    ),
                forall|i1: int, i2: int|
                    0 <= i1 < i2 < entries@.len() ==> name_of_pair(#[trigger] entries@[i1])
                        != name_of_pair(#[trigger] entries@[i2]),
                forall|n: NameV|
                    self@.tables.contains(n) ==> exists|i: int|
                        0 <= i < entries@.len() && name_of_pair(#[trigger] entries@[i]) == n,
                forall|k: int|
                    0 <= k < out@.len() ==> (#[trigger] out@[k])@.metadata.name.table == tablet_id
                        && {
                        let n = out@[k]@.metadata.name;
                        (self@.enabled.contains_key(n) && out@[k]@ == self@.enabled[n])
                            || (self@.pending.contains_key(n) && out@[k]@ == self@.pending[n])
                    },
                forall|k: int|
                    0 <= k < out@.len() ==> exists|i: int|
                        0 <= i < j && (#[trigger] out@[k])@.metadata.name == name_of_pair(
                            entries@[i],
                        ),
                forall|i: int|
                    0 <= i < j && entries@[i].0 == tablet_id && self@.enabled.contains_key(
                        name_of_pair(#[trigger] entries@[i]),
                    ) ==> exists|k: int|
                        0 <= k < out@.len() && out@[k as int]@ == self@.enabled[name_of_pair(
                            entries@[i],
                        )],
                forall|i: int|
                    0 <= i < j && entries@[i].0 == tablet_id && self@.pending.contains_key(
                        name_of_pair(#[trigger] entries@[i]),
                    ) ==> exists|k: int|
                        0 <= k < out@.len() && out@[k as int]@ == self@.pending[name_of_pair(
                            entries@[i],
                        )],
                forall|k1: int, k2: int|
                    0 <= k1 < k2 < out@.len() ==> !((#[trigger] out@[k1])@.metadata.name == (
                    #[trigger] out@[k2])@.metadata.name && config_is_enabled(
                        out@[k1]@.metadata.config,
                    ) == config_is_enabled(out@[k2]@.metadata.config)),
            decreases entries.len() - j,
        {
            let ghost before = out@;
            let ghost n = name_of_pair(entries@[j as int]);
            if entries[j].0 == tablet_id {
                let name = TabletIndexName {
                    table: entries[j].0,
                    descriptor: entries[j].1.clone(),
                };
                proof {
                    assert(name@ == n);
                }
                match index_map_get(&self.enabled_indexes, &name) {
                    Some(index) => {
                        let got = index.duplicate();
                        proof {
                            assert(got@ == self@.enabled[n]);
                        }
                        out.push(got);
                    },
                    None => {},
                }
                match index_map_get(&self.pending_indexes, &name) {
                    Some(index) => {
                        let got = index.duplicate();
                        proof {
                            assert(got@ == self@.pending[n]);
                        }
                        out.push(got);
                    },
                    None => {},
                }
            }
            proof {
                assert forall|k: int| 0 <= k < before.len() implies out@[k] == before[k] by {}
                assert forall|i: int|
                    0 <= i < j as int + 1 && entries@[i].0 == tablet_id
                        && self@.enabled.contains_key(name_of_pair(entries@[i])) implies exists|
                    k: int,
                | 0 <= k < out@.len() && out@[k as int]@ == self@.enabled[name_of_pair(
                    entries@[i],
                )] by {
                    if i < j as int {
                        let k = choose|k: int|
                            0 <= k < before.len() && before[k as int]@ == self@.enabled[
                                name_of_pair(entries@[i])
                            ];
                        assert(out@[k as int]@ == self@.enabled[name_of_pair(entries@[i])]);
                    } else {
                        assert(name_of_pair(entries@[i]) == n);
                        assert(out@[before.len() as int]@ == self@.enabled[n]);
                    }
                }
                assert forall|i: int|
                    0 <= i < j as int + 1 && entries@[i].0 == tablet_id
                        && self@.pending.contains_key(name_of_pair(entries@[i])) implies exists|
                    k: int,
                | 0 <= k < out@.len() && out@[k as int]@ == self@.pending[name_of_pair(
                    entries@[i],
                )] by {
                    if i < j as int {
                        let k = choose|k: int|
                            0 <= k < before.len() && before[k as int]@ == self@.pending[
                                name_of_pair(entries@[i])
                            ];
                        assert(out@[k as int]@ == self@.pending[name_of_pair(entries@[i])]);
                    } else {
                        assert(name_of_pair(entries@[i]) == n);
                        let k: int = if self@.enabled.contains_key(n) {
                            before.len() as int + 1
                        } else {
                            before.len() as int
                        };
                        assert(out@[k]@ == self@.pending[n]);
                    }
                }
            }
            j = j + 1;
        }
        proof {
            assert forall|n: NameV|
                #[trigger] self@.enabled.contains_key(n) && n.table == tablet_id implies exists|
                k: int,
            | 0 <= k < out@.len() && out@[k as int]@ == self@.enabled[n] by {
                assert(self@.tables.contains(n));
                let i = choose|i: int|
                    0 <= i < entries@.len() && name_of_pair(#[trigger] entries@[i]) == n;
                assert(entries@[i].0 == n.table);
            }
            assert forall|n: NameV|
                #[trigger] self@.pending.contains_key(n) && n.table == tablet_id implies exists|
                k: int,
            | 0 <= k < out@.len() && out@[k as int]@ == self@.pending[n] by {
                assert(self@.tables.contains(n));
                let i = choose|i: int|
                    0 <= i < entries@.len() && name_of_pair(#[trigger] entries@[i]) == n;
                assert(entries@[i].0 == n.table);
            }
        }
        out
    }

    /// Whether the given table has neither pending nor enabled indexes.
    pub fn has_no_indexes(&self, tablet_id: TabletId) -> (r: bool)
        requires
            self.wf(),
        ensures
            r == !(exists|n: NameV| #[trigger] registered(self@, n) && n.table == tablet_id),
    {
        let table_indexes = self.indexes_by_table(tablet_id);
        let empty = table_indexes.len() == 0;
        proof {
            if empty {
                assert forall|n: NameV| #[trigger]
                    registered(self@, n) implies n.table != tablet_id by {
                    if n.table == tablet_id {
                        if self@.enabled.contains_key(n) {
                            assert(exists|k: int|
                                0 <= k < table_indexes@.len() && table_indexes@[k as int]@
                                    == self@.enabled[n]);
                        } else {
                            assert(exists|k: int|
                                0 <= k < table_indexes@.len() && table_indexes@[k as int]@
                                    == self@.pending[n]);
                        }
                    }
                }
            } else {
                let x = table_indexes@[0];
                assert(registered(self@, x@.metadata.name) && x@.metadata.name.table == tablet_id);
            }
        }
        empty
    }
}

/// An index metadata matches a registry entry: it is the definition of the
/// index registered under its own name, in the mapping its state selects.
pub open spec fn metadata_registered(v: RegistryV, m: IndexMetadataV) -> bool {
    (v.enabled.contains_key(m.name) && v.enabled[m.name].metadata == m) || (v.pending.contains_key(
        m.name,
    ) && v.pending[m.name].metadata == m)
}

impl IndexRegistry {
    /// The definitions of every registered index, enabled and pending:
    /// exactly one element per registry entry.
    #[verifier::rlimit(60)]
    pub fn all_indexes(&self) -> (r: Vec<IndexMetadata>)
        requires
            self.wf(),
        ensures
            forall|k: int|
                0 <= k < r@.len() ==> metadata_registered(self@, (#[trigger] r@[k])@),
            forall|n: NameV| #[trigger]
                self@.enabled.contains_key(n) ==> exists|k: int|
                    0 <= k < r@.len() && r@[k as int]@ == self@.enabled[n].metadata,
            forall|n: NameV| #[trigger]
                self@.pending.contains_key(n) ==> exists|k: int|
                    0 <= k < r@.len() && r@[k as int]@ == self@.pending[n].metadata,
            forall|k1: int, k2: int|
                0 <= k1 < k2 < r@.len() ==> !((#[trigger] r@[k1])@.name == (
                #[trigger] r@[k2])@.name && config_is_enabled(r@[k1]@.config) == config_is_enabled(
                    r@[k2]@.config,
                )),
    {
        let enabled_entries = index_map_entries(&self.enabled_indexes);
        let pending_entries = index_map_entries(&self.pending_indexes);
        let mut out: Vec<IndexMetadata> = Vec::new();
        let mut i: usize = 0;
        while i < enabled_entries.len()
            invariant
                0 <= i <= enabled_entries.len(),
                self.wf(),
                forall|p: int|
                    0 <= p < enabled_entries@.len() ==> #[trigger] self@.enabled.contains_key(
                        name_of_pair(enabled_entries@[p].0),
                    ) && self@.enabled[name_of_pair(enabled_entries@[p].0)]
                        == enabled_entries@[p].1@,
                forall|p1: int, p2: int|
                    0 <= p1 < p2 < enabled_entries@.len() ==> name_of_pair(
                        #[trigger] enabled_entries@[p1].0,
                    ) != name_of_pair(#[trigger] enabled_entries@[p2].0),
                forall|n: NameV|
                    self@.enabled.contains_key(n) ==> exists|p: int|
                        0 <= p < enabled_entries@.len() && name_of_pair(
                            #[trigger] enabled_entries@[p].0,
                        ) == n,
                out@.len() == i,
                forall|k: int|
                    0 <= k < i ==> (#[trigger] out@[k])@ == self@.enabled[name_of_pair(
                        enabled_entries@[k].0,
                    )].metadata && out@[k]@.name == name_of_pair(enabled_entries@[k].0),
            decreases enabled_entries.len() - i,
        {
            let m = enabled_entries[i].1.metadata.duplicate();
            proof {
                assert(self@.enabled.contains_key(name_of_pair(enabled_entries@[i as int].0)));
            }
            out.push(m);
            i = i + 1;
        }
        let ghost ecount = out@.len();
        let mut j: usize = 0;
        while j < pending_entries.len()
            invariant
                0 <= j <= pending_entries.len(),
                self.wf(),
                ecount == enabled_entries@.len(),
                forall|p: int|
                    0 <= p < enabled_entries@.len() ==> #[trigger] self@.enabled.contains_key(
                        name_of_pair(enabled_entries@[p].0),
                    ) && self@.enabled[name_of_pair(enabled_entries@[p].0)]
                        == enabled_entries@[p].1@,
                forall|n: NameV|
                    self@.enabled.contains_key(n) ==> exists|p: int|
                        0 <= p < enabled_entries@.len() && name_of_pair(
                            #[trigger] enabled_entries@[p].0,
                        ) == n,
                forall|p: int|
                    0 <= p < pending_entries@.len() ==> #[trigger] self@.pending.contains_key(
                        name_of_pair(pending_entries@[p].0),
                    ) && self@.pending[name_of_pair(pending_entries@[p].0)]
                        == pending_entries@[p].1@,
                forall|p1: int, p2: int|
                    0 <= p1 < p2 < pending_entries@.len() ==> name_of_pair(
                        #[trigger] pending_entries@[p1].0,
                    ) != name_of_pair(#[trigger] pending_entries@[p2].0),
                forall|n: NameV|
                    self@.pending.contains_key(n) ==> exists|p: int|
                        0 <= p < pending_entries@.len() && name_of_pair(
                            #[trigger] pending_entries@[p].0,
                        ) == n,
                out@.len() == ecount + j,
                forall|k: int|
                    0 <= k < ecount ==> (#[trigger] out@[k])@ == self@.enabled[name_of_pair(
                        enabled_entries@[k].0,
                    )].metadata && out@[k]@.name == name_of_pair(enabled_entries@[k].0),
                forall|k: int|
                    ecount <= k < out@.len() ==> (#[trigger] out@[k])@ == self@.pending[
                        name_of_pair(pending_entries@[k - ecount].0)
                    ].metadata && out@[k]@.name == name_of_pair(pending_entries@[k - ecount].0),
            decreases pending_entries.len() - j,
        {
            let m = pending_entries[j].1.metadata.duplicate();
            proof {
                assert(self@.pending.contains_key(name_of_pair(pending_entries@[j as int].0)));
            }
            out.push(m);
            j = j + 1;
        }
        proof {
            assert forall|n: NameV| #[trigger] self@.enabled.contains_key(n) implies exists|k: int|
                0 <= k < out@.len() && out@[k as int]@ == self@.enabled[n].metadata by {
                let p = choose|p: int|
                    0 <= p < enabled_entries@.len() && name_of_pair(
                        #[trigger] enabled_entries@[p].0,
                    ) == n;
                assert(out@[p]@ == self@.enabled[n].metadata);
            }
            assert forall|n: NameV| #[trigger] self@.pending.contains_key(n) implies exists|k: int|
                0 <= k < out@.len() && out@[k as int]@ == self@.pending[n].metadata by {
                let p = choose|p: int|
                    0 <= p < pending_entries@.len() && name_of_pair(
                        #[trigger] pending_entries@[p].0,
                    ) == n;
                assert(out@[p + ecount]@ == self@.pending[n].metadata);
            }
            assert forall|k1: int, k2: int| 0 <= k1 < k2 < out@.len() implies !((
            #[trigger] out@[k1])@.name == (#[trigger] out@[k2])@.name && config_is_enabled(
                out@[k1]@.config,
            ) == config_is_enabled(out@[k2]@.config)) by {
                if k1 < ecount && k2 < ecount {
                    assert(name_of_pair(enabled_entries@[k1].0) != name_of_pair(
                        enabled_entries@[k2].0,
                    ));
                } else if k1 >= ecount && k2 >= ecount {
                    assert(name_of_pair(pending_entries@[k1 - ecount].0) != name_of_pair(
                        pending_entries@[k2 - ecount].0,
                    ));
                } else {
                    assert(self@.enabled.contains_key(out@[k1]@.name));
                    assert(config_is_enabled(out@[k1]@.config));
                    assert(self@.pending.contains_key(out@[k2]@.name));
                    assert(!config_is_enabled(out@[k2]@.config));
                }
            }
        }
        out
    }

    /// The definitions of every enabled index.
    pub fn all_enabled_indexes(&self) -> (r: Vec<IndexMetadata>)
        requires
            self.wf(),
        ensures
            forall|k: int|
                0 <= k < r@.len() ==> self@.enabled.contains_key((#[trigger] r@[k])@.name)
                    && r@[k]@ == self@.enabled[r@[k]@.name].metadata,
            forall|n: NameV| #[trigger]
                self@.enabled.contains_key(n) ==> exists|k: int|
                    0 <= k < r@.len() && r@[k as int]@ == self@.enabled[n].metadata,
            forall|k1: int, k2: int|
                0 <= k1 < k2 < r@.len() ==> (#[trigger] r@[k1])@.name != (#[trigger] r@[k2])@.name,
    {
        let entries = index_map_entries(&self.enabled_indexes);
        let mut out: Vec<IndexMetadata> = Vec::new();
        let mut i: usize = 0;
        while i < entries.len()
            invariant
                0 <= i <= entries.len(),
                self.wf(),
                forall|p: int|
                    0 <= p < entries@.len() ==> #[trigger] self@.enabled.contains_key(
                        name_of_pair(entries@[p].0),
                    ) && self@.enabled[name_of_pair(entries@[p].0)] == entries@[p].1@,
                forall|p1: int, p2: int|
                    0 <= p1 < p2 < entries@.len() ==> name_of_pair(#[trigger] entries@[p1].0)
                        != name_of_pair(#[trigger] entries@[p2].0),
                forall|n: NameV|
                    self@.enabled.contains_key(n) ==> exists|p: int|
                        0 <= p < entries@.len() && name_of_pair(#[trigger] entries@[p].0) == n,
                out@.len() == i,
                forall|k: int|
                    0 <= k < i ==> (#[trigger] out@[k])@ == self@.enabled[name_of_pair(
                        entries@[k].0,
                    )].metadata && out@[k]@.name == name_of_pair(entries@[k].0),
            decreases entries.len() - i,
        {
            let m = entries[i].1.metadata.duplicate();
            proof {
                assert(self@.enabled.contains_key(name_of_pair(entries@[i as int].0)));
            }
            out.push(m);
            i = i + 1;
        }
        proof {
            assert forall|n: NameV| #[trigger] self@.enabled.contains_key(n) implies exists|k: int|
                0 <= k < out@.len() && out@[k as int]@ == self@.enabled[n].metadata by {
                let p = choose|p: int|
                    0 <= p < entries@.len() && name_of_pair(#[trigger] entries@[p].0) == n;
                assert(out@[p]@ == self@.enabled[n].metadata);
            }
        }
        out
    }

    /// The enabled index with the given id, if any. When several enabled
    /// entries share the id, one of them is returned.
    pub fn enabled_index_by_index_id(&self, index_id: IndexId) -> (r: Option<Index>)
        requires
            self.wf(),
        ensures
            match r {
                Some(i) => self@.enabled.contains_key(i@.metadata.name) && self@.enabled[
                    i@.metadata.name
                ] == i@ && i@.id == index_id,
                None => forall|n: NameV| #[trigger]
                    self@.enabled.contains_key(n) ==> self@.enabled[n].id != index_id,
            },
    {
        let entries = index_map_entries(&self.enabled_indexes);
        let mut i: usize = 0;
        while i < entries.len()
            invariant
                0 <= i <= entries.len(),
                self.wf(),
                forall|p: int|
                    0 <= p < entries@.len() ==> #[trigger] self@.enabled.contains_key(
                        name_of_pair(entries@[p].0),
                    ) && self@.enabled[name_of_pair(entries@[p].0)] == entries@[p].1@,
                forall|n: NameV|
                    self@.enabled.contains_key(n) ==> exists|p: int|
                        0 <= p < entries@.len() && name_of_pair(#[trigger] entries@[p].0) == n,
                forall|p: int| 0 <= p < i ==> (#[trigger] entries@[p].1)@.id != index_id,
            decreases entries.len() - i,
        {
            if entries[i].1.id() == index_id {
                let found = entries[i].1.duplicate();
                proof {
                    assert(self@.enabled.contains_key(name_of_pair(entries@[i as int].0)));
                    assert(found@.metadata.name == name_of_pair(entries@[i as int].0));
                }
                return Some(found);
            }
            i = i + 1;
        }
        proof {
            assert forall|n: NameV| #[trigger] self@.enabled.contains_key(n) implies self@.enabled[
                n
            ].id != index_id by {
                let p = choose|p: int|
                    0 <= p < entries@.len() && name_of_pair(#[trigger] entries@[p].0) == n;
                assert(entries@[p].1@.id != index_id);
            }
        }
        None
    }
}

/// Whether a configuration is a text index configuration.
pub open spec fn is_text_config(c: IndexConfigV) -> bool {
    c is Text
}

/// Whether a configuration is a vector index configuration.
pub open spec fn is_vector_config(c: IndexConfigV) -> bool {
    c is Vector
}

/// Whether a configuration is a text or vector index configuration.
pub open spec fn is_search_or_vector_config(c: IndexConfigV) -> bool {
    c is Text || c is Vector
}

impl IndexRegistry {

    /// The definitions of every registered text index.
    pub fn all_text_indexes(&self) -> (r: Vec<IndexMetadata>)
        requires
            self.wf(),
        ensures
            forall|k: int|
                0 <= k < r@.len() ==> metadata_registered(self@, (#[trigger] r@[k])@) && (is_text_config((
                #[trigger] r@[k])@.config)),
            forall|n: NameV| #[trigger]
                self@.enabled.contains_key(n) && (is_text_config(self@.enabled[n].metadata.config)) ==> exists|
                    k: int,
                | 0 <= k < r@.len() && r@[k as int]@ == self@.enabled[n].metadata,
            forall|n: NameV| #[trigger]
                self@.pending.contains_key(n) && (is_text_config(self@.pending[n].metadata.config)) ==> exists|
                    k: int,
                | 0 <= k < r@.len() && r@[k as int]@ == self@.pending[n].metadata,
            forall|k1: int, k2: int|
                0 <= k1 < k2 < r@.len() ==> !((#[trigger] r@[k1])@.name == (
                #[trigger] r@[k2])@.name && config_is_enabled(r@[k1]@.config) == config_is_enabled(
                    r@[k2]@.config,
                )),
    {
        let all = self.all_indexes();
        let mut out: Vec<IndexMetadata> = Vec::new();
        let ghost mut srcs: Seq<int> = Seq::empty();
        let mut p: usize = 0;
        while p < all.len()
            invariant
                0 <= p <= all.len(),
                self.wf(),
                forall|k: int|
                    0 <= k < all@.len() ==> metadata_registered(self@, (#[trigger] all@[k])@),
                forall|k1: int, k2: int|
                    0 <= k1 < k2 < all@.len() ==> !((#[trigger] all@[k1])@.name == (
                    #[trigger] all@[k2])@.name && config_is_enabled(all@[k1]@.config)
                        == config_is_enabled(all@[k2]@.config)),
                forall|n: NameV| #[trigger]
                    self@.enabled.contains_key(n) ==> exists|k: int|
                        0 <= k < all@.len() && all@[k as int]@ == self@.enabled[n].metadata,
                forall|n: NameV| #[trigger]
                    self@.pending.contains_key(n) ==> exists|k: int|
                        0 <= k < all@.len() && all@[k as int]@ == self@.pending[n].metadata,
                srcs.len() == out@.len(),
                forall|q: int| 0 <= q < out@.len() ==> 0 <= #[trigger] srcs[q] < p,
                forall|q1: int, q2: int| 0 <= q1 < q2 < out@.len() ==> srcs[q1] < srcs[q2],
                forall|q: int|
                    0 <= q < out@.len() ==> (#[trigger] out@[q])@ == all@[srcs[q]]@ && (is_text_config(
                        out@[q]@.config,
                    )),
                forall|k: int|
                    0 <= k < p && (is_text_config((#[trigger] all@[k])@.config)) ==> exists|q: int|
                        0 <= q < out@.len() && out@[q as int]@ == all@[k]@,
            decreases all.len() - p,
        {
            let ghost before = out@;
            if all[p].is_text_index() {
                out.push(all[p].duplicate());
                proof {
                    srcs = srcs.push(p as int);
                }
            }
            proof {
                assert forall|k: int|
                    0 <= k < p as int + 1 && (is_text_config((#[trigger] all@[k])@.config)) implies exists|
                    q: int,
                | 0 <= q < out@.len() && out@[q as int]@ == all@[k]@ by {
                    if k < p as int {
                        let q = choose|q: int|
                            0 <= q < before.len() && before[q as int]@ == all@[k]@;
                        assert(out@[q as int]@ == all@[k]@);
                    } else {
                        assert(out@[(out@.len() - 1) as int]@ == all@[k]@);
                    }
                }
            }
            p = p + 1;
        }
        proof {
            assert forall|n: NameV| #[trigger]
                self@.enabled.contains_key(n) && (is_text_config(
                    self@.enabled[n].metadata.config,
                )) implies exists|k: int|
                0 <= k < out@.len() && out@[k as int]@ == self@.enabled[n].metadata by {
                let k = choose|k: int|
                    0 <= k < all@.len() && (#[trigger] all@[k as int])@ == self@.enabled[
                        n
                    ].metadata;
                assert(is_text_config(all@[k]@.config));
            }
            assert forall|n: NameV| #[trigger]
                self@.pending.contains_key(n) && (is_text_config(
                    self@.pending[n].metadata.config,
                )) implies exists|k: int|
                0 <= k < out@.len() && out@[k as int]@ == self@.pending[n].metadata by {
                let k = choose|k: int|
                    0 <= k < all@.len() && (#[trigger] all@[k as int])@ == self@.pending[
                        n
                    ].metadata;
                assert(is_text_config(all@[k]@.config));
            }
            assert forall|q1: int, q2: int| 0 <= q1 < q2 < out@.len() implies !((
            #[trigger] out@[q1])@.name == (#[trigger] out@[q2])@.name && config_is_enabled(
                out@[q1]@.config,
            ) == config_is_enabled(out@[q2]@.config)) by {
                assert(out@[q1]@ == all@[srcs[q1]]@);
                assert(out@[q2]@ == all@[srcs[q2]]@);
            }
        }
        out
    }

    /// The definitions of every registered vector index.
    pub fn all_vector_indexes(&self) -> (r: Vec<IndexMetadata>)
        requires
            self.wf(),
        ensures
            forall|k: int|
                0 <= k < r@.len() ==> metadata_registered(self@, (#[trigger] r@[k])@) && (is_vector_config((
                #[trigger] r@[k])@.config)),
            forall|n: NameV| #[trigger]
                self@.enabled.contains_key(n) && (is_vector_config(self@.enabled[n].metadata.config)) ==> exists|
                    k: int,
                | 0 <= k < r@.len() && r@[k as int]@ == self@.enabled[n].metadata,
            forall|n: NameV| #[trigger]
                self@.pending.contains_key(n) && (is_vector_config(self@.pending[n].metadata.config)) ==> exists|
                    k: int,
                | 0 <= k < r@.len() && r@[k as int]@ == self@.pending[n].metadata,
            forall|k1: int, k2: int|
                0 <= k1 < k2 < r@.len() ==> !((#[trigger] r@[k1])@.name == (
                #[trigger] r@[k2])@.name && config_is_enabled(r@[k1]@.config) == config_is_enabled(
                    r@[k2]@.config,
                )),
    {
        let all = self.all_indexes();
        let mut out: Vec<IndexMetadata> = Vec::new();
        let ghost mut srcs: Seq<int> = Seq::empty();
        let mut p: usize = 0;
        while p < all.len()
            invariant
                0 <= p <= all.len(),
                self.wf(),
                forall|k: int|
                    0 <= k < all@.len() ==> metadata_registered(self@, (#[trigger] all@[k])@),
                forall|k1: int, k2: int|
                    0 <= k1 < k2 < all@.len() ==> !((#[trigger] all@[k1])@.name == (
                    #[trigger] all@[k2])@.name && config_is_enabled(all@[k1]@.config)
                        == config_is_enabled(all@[k2]@.config)),
                forall|n: NameV| #[trigger]
                    self@.enabled.contains_key(n) ==> exists|k: int|
                        0 <= k < all@.len() && all@[k as int]@ == self@.enabled[n].metadata,
                forall|n: NameV| #[trigger]
                    self@.pending.contains_key(n) ==> exists|k: int|
                        0 <= k < all@.len() && all@[k as int]@ == self@.pending[n].metadata,
                srcs.len() == out@.len(),
                forall|q: int| 0 <= q < out@.len() ==> 0 <= #[trigger] srcs[q] < p,
                forall|q1: int, q2: int| 0 <= q1 < q2 < out@.len() ==> srcs[q1] < srcs[q2],
                forall|q: int|
                    0 <= q < out@.len() ==> (#[trigger] out@[q])@ == all@[srcs[q]]@ && (is_vector_config(
                        out@[q]@.config,
                    )),
                forall|k: int|
                    0 <= k < p && (is_vector_config((#[trigger] all@[k])@.config)) ==> exists|q: int|
                        0 <= q < out@.len() && out@[q as int]@ == all@[k]@,
            decreases all.len() - p,
        {
            let ghost before = out@;
            if all[p].is_vector_index() {
                out.push(all[p].duplicate());
                proof {
                    srcs = srcs.push(p as int);
                }
            }
            proof {
                assert forall|k: int|
                    0 <= k < p as int + 1 && (is_vector_config((#[trigger] all@[k])@.config)) implies exists|
                    q: int,
                | 0 <= q < out@.len() && out@[q as int]@ == all@[k]@ by {
                    if k < p as int {
                        let q = choose|q: int|
                            0 <= q < before.len() && before[q as int]@ == all@[k]@;
                        assert(out@[q as int]@ == all@[k]@);
                    } else {
                        assert(out@[(out@.len() - 1) as int]@ == all@[k]@);
                    }
                }
            }
            p = p + 1;
        }
        proof {
            assert forall|n: NameV| #[trigger]
                self@.enabled.contains_key(n) && (is_vector_config(
                    self@.enabled[n].metadata.config,
                )) implies exists|k: int|
                0 <= k < out@.len() && out@[k as int]@ == self@.enabled[n].metadata by {
                let k = choose|k: int|
                    0 <= k < all@.len() && (#[trigger] all@[k as int])@ == self@.enabled[
                        n
                    ].metadata;
                assert(is_vector_config(all@[k]@.config));
            }
            assert forall|n: NameV| #[trigger]
                self@.pending.contains_key(n) && (is_vector_config(
                    self@.pending[n].metadata.config,
                )) implies exists|k: int|
                0 <= k < out@.len() && out@[k as int]@ == self@.pending[n].metadata by {
                let k = choose|k: int|
                    0 <= k < all@.len() && (#[trigger] all@[k as int])@ == self@.pending[
                        n
                    ].metadata;
                assert(is_vector_config(all@[k]@.config));
            }
            assert forall|q1: int, q2: int| 0 <= q1 < q2 < out@.len() implies !((
            #[trigger] out@[q1])@.name == (#[trigger] out@[q2])@.name && config_is_enabled(
                out@[q1]@.config,
            ) == config_is_enabled(out@[q2]@.config)) by {
                assert(out@[q1]@ == all@[srcs[q1]]@);
                assert(out@[q2]@ == all@[srcs[q2]]@);
            }
        }
        out
    }

    /// The definitions of every registered text or vector index.
    pub fn all_search_and_vector_indexes(&self) -> (r: Vec<IndexMetadata>)
        requires
            self.wf(),
        ensures
            forall|k: int|
                0 <= k < r@.len() ==> metadata_registered(self@, (#[trigger] r@[k])@) && (is_search_or_vector_config((
                #[trigger] r@[k])@.config)),
            forall|n: NameV| #[trigger]
                self@.enabled.contains_key(n) && (is_search_or_vector_config(self@.enabled[n].metadata.config)) ==> exists|
                    k: int,
                | 0 <= k < r@.len() && r@[k as int]@ == self@.enabled[n].metadata,
            forall|n: NameV| #[trigger]
                self@.pending.contains_key(n) && (is_search_or_vector_config(self@.pending[n].metadata.config)) ==> exists|
                    k: int,
                | 0 <= k < r@.len() && r@[k as int]@ == self@.pending[n].metadata,
            forall|k1: int, k2: int|
                0 <= k1 < k2 < r@.len() ==> !((#[trigger] r@[k1])@.name == (
                #[trigger] r@[k2])@.name && config_is_enabled(r@[k1]@.config) == config_is_enabled(
                    r@[k2]@.config,
                )),
    {
        let all = self.all_indexes();
        let mut out: Vec<IndexMetadata> = Vec::new();
        let ghost mut srcs: Seq<int> = Seq::empty();
        let mut p: usize = 0;
        while p < all.len()
            invariant
                0 <= p <= all.len(),
                self.wf(),
                forall|k: int|
                    0 <= k < all@.len() ==> metadata_registered(self@, (#[trigger] all@[k])@),
                forall|k1: int, k2: int|
                    0 <= k1 < k2 < all@.len() ==> !((#[trigger] all@[k1])@.name == (
                    #[trigger] all@[k2])@.name && config_is_enabled(all@[k1]@.config)
                        == config_is_enabled(all@[k2]@.config)),
                forall|n: NameV| #[trigger]
                    self@.enabled.contains_key(n) ==> exists|k: int|
                        0 <= k < all@.len() && all@[k as int]@ == self@.enabled[n].metadata,
                forall|n: NameV| #[trigger]
                    self@.pending.contains_key(n) ==> exists|k: int|
                        0 <= k < all@.len() && all@[k as int]@ == self@.pending[n].metadata,
                srcs.len() == out@.len(),
                forall|q: int| 0 <= q < out@.len() ==> 0 <= #[trigger] srcs[q] < p,
                forall|q1: int, q2: int| 0 <= q1 < q2 < out@.len() ==> srcs[q1] < srcs[q2],
                forall|q: int|
                    0 <= q < out@.len() ==> (#[trigger] out@[q])@ == all@[srcs[q]]@ && (is_search_or_vector_config(
                        out@[q]@.config,
                    )),
                forall|k: int|
                    0 <= k < p && (is_search_or_vector_config((#[trigger] all@[k])@.config)) ==> exists|q: int|
                        0 <= q < out@.len() && out@[q as int]@ == all@[k]@,
            decreases all.len() - p,
        {
            let ghost before = out@;
            if (all[p].is_text_index() || all[p].is_vector_index()) {
                out.push(all[p].duplicate());
                proof {
                    srcs = srcs.push(p as int);
                }
            }
            proof {
                assert forall|k: int|
                    0 <= k < p as int + 1 && (is_search_or_vector_config((#[trigger] all@[k])@.config)) implies exists|
                    q: int,
                | 0 <= q < out@.len() && out@[q as int]@ == all@[k]@ by {
                    if k < p as int {
                        let q = choose|q: int|
                            0 <= q < before.len() && before[q as int]@ == all@[k]@;
                        assert(out@[q as int]@ == all@[k]@);
                    } else {
                        assert(out@[(out@.len() - 1) as int]@ == all@[k]@);
                    }
                }
            }
            p = p + 1;
        }
        proof {
            assert forall|n: NameV| #[trigger]
                self@.enabled.contains_key(n) && (is_search_or_vector_config(
                    self@.enabled[n].metadata.config,
                )) implies exists|k: int|
                0 <= k < out@.len() && out@[k as int]@ == self@.enabled[n].metadata by {
                let k = choose|k: int|
                    0 <= k < all@.len() && (#[trigger] all@[k as int])@ == self@.enabled[
                        n
                    ].metadata;
                assert(is_search_or_vector_config(all@[k]@.config));
            }
            assert forall|n: NameV| #[trigger]
                self@.pending.contains_key(n) && (is_search_or_vector_config(
                    self@.pending[n].metadata.config,
                )) implies exists|k: int|
                0 <= k < out@.len() && out@[k as int]@ == self@.pending[n].metadata by {
                let k = choose|k: int|
                    0 <= k < all@.len() && (#[trigger] all@[k as int])@ == self@.pending[
                        n
                    ].metadata;
                assert(is_search_or_vector_config(all@[k]@.config));
            }
            assert forall|q1: int, q2: int| 0 <= q1 < q2 < out@.len() implies !((
            #[trigger] out@[q1])@.name == (#[trigger] out@[q2])@.name && config_is_enabled(
                out@[q1]@.config,
            ) == config_is_enabled(out@[q2]@.config)) by {
                assert(out@[q1]@ == all@[srcs[q1]]@);
                assert(out@[q2]@ == all@[srcs[q2]]@);
            }
        }
        out
    }

}

impl IndexRegistry {

    /// The registered text indexes of the given table.
    pub fn text_indexes_by_table(&self, tablet_id: TabletId) -> (r: Vec<Index>)
        requires
            self.wf(),
        ensures
            forall|k: int|
                0 <= k < r@.len() ==> (#[trigger] r@[k])@.metadata.name.table == tablet_id && (is_text_config(
                    r@[k]@.metadata.config,
                )) && {
                    let n = r@[k]@.metadata.name;
                    (self@.enabled.contains_key(n) && r@[k]@ == self@.enabled[n])
                        || (self@.pending.contains_key(n) && r@[k]@ == self@.pending[n])
                },
            forall|n: NameV| #[trigger]
                self@.enabled.contains_key(n) && n.table == tablet_id && (is_text_config(
                    self@.enabled[n].metadata.config,
                )) ==> exists|k: int| 0 <= k < r@.len() && r@[k as int]@ == self@.enabled[n],
            forall|n: NameV| #[trigger]
                self@.pending.contains_key(n) && n.table == tablet_id && (is_text_config(
                    self@.pending[n].metadata.config,
                )) ==> exists|k: int| 0 <= k < r@.len() && r@[k as int]@ == self@.pending[n],
            forall|k1: int, k2: int|
                0 <= k1 < k2 < r@.len() ==> !((#[trigger] r@[k1])@.metadata.name == (
                #[trigger] r@[k2])@.metadata.name && config_is_enabled(r@[k1]@.metadata.config)
                    == config_is_enabled(r@[k2]@.metadata.config)),
    {
        let all = self.indexes_by_table(tablet_id);
        let mut out: Vec<Index> = Vec::new();
        let ghost mut srcs: Seq<int> = Seq::empty();
        let mut p: usize = 0;
        while p < all.len()
            invariant
                0 <= p <= all.len(),
                self.wf(),
                forall|k: int|
                    0 <= k < all@.len() ==> (#[trigger] all@[k])@.metadata.name.table == tablet_id
                        && {
                        let n = all@[k]@.metadata.name;
                        (self@.enabled.contains_key(n) && all@[k]@ == self@.enabled[n])
                            || (self@.pending.contains_key(n) && all@[k]@ == self@.pending[n])
                    },
                forall|n: NameV| #[trigger]
                    self@.enabled.contains_key(n) && n.table == tablet_id ==> exists|k: int|
                        0 <= k < all@.len() && all@[k as int]@ == self@.enabled[n],
                forall|n: NameV| #[trigger]
                    self@.pending.contains_key(n) && n.table == tablet_id ==> exists|k: int|
                        0 <= k < all@.len() && all@[k as int]@ == self@.pending[n],
                forall|k1: int, k2: int|
                    0 <= k1 < k2 < all@.len() ==> !((#[trigger] all@[k1])@.metadata.name == (
                    #[trigger] all@[k2])@.metadata.name && config_is_enabled(
                        all@[k1]@.metadata.config,
                    ) == config_is_enabled(all@[k2]@.metadata.config)),
                srcs.len() == out@.len(),
                forall|q: int| 0 <= q < out@.len() ==> 0 <= #[trigger] srcs[q] < p,
                forall|q1: int, q2: int| 0 <= q1 < q2 < out@.len() ==> srcs[q1] < srcs[q2],
                forall|q: int|
                    0 <= q < out@.len() ==> (#[trigger] out@[q])@ == all@[srcs[q]]@ && (is_text_config(
                        out@[q]@.metadata.config,
                    )),
                forall|k: int|
                    0 <= k < p && (is_text_config((#[trigger] all@[k])@.metadata.config)) ==> exists|q: int|
                        0 <= q < out@.len() && out@[q as int]@ == all@[k]@,
            decreases all.len() - p,
        {
            let ghost before = out@;
            if all[p].metadata.is_text_index() {
                out.push(all[p].duplicate());
                proof {
                    srcs = srcs.push(p as int);
                }
            }
            proof {
                assert forall|k: int|
                    0 <= k < p as int + 1 && (is_text_config((#[trigger] all@[k])@.metadata.config)) implies
                    exists|q: int| 0 <= q < out@.len() && out@[q as int]@ == all@[k]@ by {
                    if k < p as int {
                        let q = choose|q: int|
                            0 <= q < before.len() && before[q as int]@ == all@[k]@;
                        assert(out@[q as int]@ == all@[k]@);
                    } else {
                        assert(out@[(out@.len() - 1) as int]@ == all@[k]@);
                    }
                }
            }
            p = p + 1;
        }
        proof {
            assert forall|n: NameV| #[trigger]
                self@.enabled.contains_key(n) && n.table == tablet_id && (is_text_config(
                    self@.enabled[n].metadata.config,
                )) implies exists|k: int|
                0 <= k < out@.len() && out@[k as int]@ == self@.enabled[n] by {
                let k = choose|k: int|
                    0 <= k < all@.len() && (#[trigger] all@[k as int])@ == self@.enabled[n];
                assert(is_text_config(all@[k]@.metadata.config));
            }
            assert forall|n: NameV| #[trigger]
                self@.pending.contains_key(n) && n.table == tablet_id && (is_text_config(
                    self@.pending[n].metadata.config,
                )) implies exists|k: int|
                0 <= k < out@.len() && out@[k as int]@ == self@.pending[n] by {
                let k = choose|k: int|
                    0 <= k < all@.len() && (#[trigger] all@[k as int])@ == self@.pending[n];
                assert(is_text_config(all@[k]@.metadata.config));
            }
            assert forall|q1: int, q2: int| 0 <= q1 < q2 < out@.len() implies !((
            #[trigger] out@[q1])@.metadata.name == (#[trigger] out@[q2])@.metadata.name
                && config_is_enabled(out@[q1]@.metadata.config) == config_is_enabled(
                out@[q2]@.metadata.config,
            )) by {
                assert(out@[q1]@ == all@[srcs[q1]]@);
                assert(out@[q2]@ == all@[srcs[q2]]@);
            }
        }
        out
    }

    /// The registered vector indexes of the given table.
    pub fn vector_indexes_by_table(&self, tablet_id: TabletId) -> (r: Vec<Index>)
        requires
            self.wf(),
        ensures
            forall|k: int|
                0 <= k < r@.len() ==> (#[trigger] r@[k])@.metadata.name.table == tablet_id && (is_vector_config(
                    r@[k]@.metadata.config,
                )) && {
                    let n = r@[k]@.metadata.name;
                    (self@.enabled.contains_key(n) && r@[k]@ == self@.enabled[n])
                        || (self@.pending.contains_key(n) && r@[k]@ == self@.pending[n])
                },
            forall|n: NameV| #[trigger]
                self@.enabled.contains_key(n) && n.table == tablet_id && (is_vector_config(
                    self@.enabled[n].metadata.config,
                )) ==> exists|k: int| 0 <= k < r@.len() && r@[k as int]@ == self@.enabled[n],
            forall|n: NameV| #[trigger]
                self@.pending.contains_key(n) && n.table == tablet_id && (is_vector_config(
                    self@.pending[n].metadata.config,
                )) ==> exists|k: int| 0 <= k < r@.len() && r@[k as int]@ == self@.pending[n],
            forall|k1: int, k2: int|
                0 <= k1 < k2 < r@.len() ==> !((#[trigger] r@[k1])@.metadata.name == (
                #[trigger] r@[k2])@.metadata.name && config_is_enabled(r@[k1]@.metadata.config)
                    == config_is_enabled(r@[k2]@.metadata.config)),
    {
        let all = self.indexes_by_table(tablet_id);
        let mut out: Vec<Index> = Vec::new();
        let ghost mut srcs: Seq<int> = Seq::empty();
        let mut p: usize = 0;
        while p < all.len()
            invariant
                0 <= p <= all.len(),
                self.wf(),
                forall|k: int|
                    0 <= k < all@.len() ==> (#[trigger] all@[k])@.metadata.name.table == tablet_id
                        && {
                        let n = all@[k]@.metadata.name;
                        (self@.enabled.contains_key(n) && all@[k]@ == self@.enabled[n])
                            || (self@.pending.contains_key(n) && all@[k]@ == self@.pending[n])
                    },
                forall|n: NameV| #[trigger]
                    self@.enabled.contains_key(n) && n.table == tablet_id ==> exists|k: int|
                        0 <= k < all@.len() && all@[k as int]@ == self@.enabled[n],
                forall|n: NameV| #[trigger]
                    self@.pending.contains_key(n) && n.table == tablet_id ==> exists|k: int|
                        0 <= k < all@.len() && all@[k as int]@ == self@.pending[n],
                forall|k1: int, k2: int|
                    0 <= k1 < k2 < all@.len() ==> !((#[trigger] all@[k1])@.metadata.name == (
                    #[trigger] all@[k2])@.metadata.name && config_is_enabled(
                        all@[k1]@.metadata.config,
                    ) == config_is_enabled(all@[k2]@.metadata.config)),
                srcs.len() == out@.len(),
                forall|q: int| 0 <= q < out@.len() ==> 0 <= #[trigger] srcs[q] < p,
                forall|q1: int, q2: int| 0 <= q1 < q2 < out@.len() ==> srcs[q1] < srcs[q2],
                forall|q: int|
                    0 <= q < out@.len() ==> (#[trigger] out@[q])@ == all@[srcs[q]]@ && (is_vector_config(
                        out@[q]@.metadata.config,
                    )),
                forall|k: int|
                    0 <= k < p && (is_vector_config((#[trigger] all@[k])@.metadata.config)) ==> exists|q: int|
                        0 <= q < out@.len() && out@[q as int]@ == all@[k]@,
            decreases all.len() - p,
        {
            let ghost before = out@;
            if all[p].metadata.is_vector_index() {
                out.push(all[p].duplicate());
                proof {
                    srcs = srcs.push(p as int);
                }
            }
            proof {
                assert forall|k: int|
                    0 <= k < p as int + 1 && (is_vector_config((#[trigger] all@[k])@.metadata.config)) implies
                    exists|q: int| 0 <= q < out@.len() && out@[q as int]@ == all@[k]@ by {
                    if k < p as int {
                        let q = choose|q: int|
                            0 <= q < before.len() && before[q as int]@ == all@[k]@;
                        assert(out@[q as int]@ == all@[k]@);
                    } else {
                        assert(out@[(out@.len() - 1) as int]@ == all@[k]@);
                    }
                }
            }
            p = p + 1;
        }
        proof {
            assert forall|n: NameV| #[trigger]
                self@.enabled.contains_key(n) && n.table == tablet_id && (is_vector_config(
                    self@.enabled[n].metadata.config,
                )) implies exists|k: int|
                0 <= k < out@.len() && out@[k as int]@ == self@.enabled[n] by {
                let k = choose|k: int|
                    0 <= k < all@.len() && (#[trigger] all@[k as int])@ == self@.enabled[n];
                assert(is_vector_config(all@[k]@.metadata.config));
            }
            assert forall|n: NameV| #[trigger]
                self@.pending.contains_key(n) && n.table == tablet_id && (is_vector_config(
                    self@.pending[n].metadata.config,
                )) implies exists|k: int|
                0 <= k < out@.len() && out@[k as int]@ == self@.pending[n] by {
                let k = choose|k: int|
                    0 <= k < all@.len() && (#[trigger] all@[k as int])@ == self@.pending[n];
                assert(is_vector_config(all@[k]@.metadata.config));
            }
            assert forall|q1: int, q2: int| 0 <= q1 < q2 < out@.len() implies !((
            #[trigger] out@[q1])@.metadata.name == (#[trigger] out@[q2])@.metadata.name
                && config_is_enabled(out@[q1]@.metadata.config) == config_is_enabled(
                out@[q2]@.metadata.config,
            )) by {
                assert(out@[q1]@ == all@[srcs[q1]]@);
                assert(out@[q2]@ == all@[srcs[q2]]@);
            }
        }
        out
    }

}

broadcast use {
    vstd::std_specs::btree::group_btree_axioms,
    vstd::laws_cmp::group_laws_cmp,
    vstd::seq_lib::group_seq_properties,
};

/// A sequence of ids in non-decreasing order.
pub open spec fn sorted_u64(s: Seq<u64>) -> bool {
    forall|i: int, j: int| 0 <= i < j < s.len() ==> s[i] <= s[j]
}

/// A sequence of ids in strictly increasing order.
pub open spec fn strictly_sorted_u64(s: Seq<u64>) -> bool {
    forall|i: int, j: int| 0 <= i < j < s.len() ==> s[i] < s[j]
}

/// Collapsing the consecutive duplicates of a sorted sequence yields a
/// strictly increasing sequence with the same elements.
proof fn lemma_dedup_sorted(s: Seq<u64>)
    requires
        sorted_u64(s),
    ensures
        strictly_sorted_u64(dedup_spec(s)),
        forall|x: u64| #[trigger] dedup_spec(s).contains(x) <==> s.contains(x),
    decreases s.len(),
{
    if s.len() <= 1 {
        assert(dedup_spec(s) == s);
    } else {
        let t = s.drop_first();
        assert forall|i: int, j: int| 0 <= i < j < t.len() implies t[i] <= t[j] by {
            assert(t[i] == s[i + 1]);
            assert(t[j] == s[j + 1]);
        }
        lemma_dedup_sorted(t);
        if s[0] == s[1] {
            assert(dedup_spec(s) == dedup_spec(t));
            assert forall|x: u64| s.contains(x) implies t.contains(x) by {
                let i = choose|i: int| 0 <= i < s.len() && s[i] == x;
                if i == 0 {
                    assert(t[0] == s[1]);
                    assert(t.contains(t[0]));
                } else {
                    assert(t[i - 1] == x);
                    assert(t.contains(t[i - 1]));
                }
            }
            assert forall|x: u64| t.contains(x) implies s.contains(x) by {
                let i = choose|i: int| 0 <= i < t.len() && t[i] == x;
                assert(s[i + 1] == x);
            }
        } else {
            let d = dedup_spec(s);
            assert(d == seq![s[0]] + dedup_spec(t));
            assert forall|x: u64| #[trigger] d.contains(x) implies s.contains(x) by {
                let i = choose|i: int| 0 <= i < d.len() && d[i] == x;
                if i == 0 {
                    assert(s[0] == x);
                } else {
                    assert(dedup_spec(t)[i - 1] == x);
                    assert(dedup_spec(t).contains(x));
                    assert(t.contains(x));
                    let k = choose|k: int| 0 <= k < t.len() && t[k] == x;
                    assert(s[k + 1] == x);
                }
            }
            assert forall|x: u64| s.contains(x) implies #[trigger] d.contains(x) by {
                let i = choose|i: int| 0 <= i < s.len() && s[i] == x;
                if i == 0 {
                    assert(d[0] == x);
                } else {
                    assert(t[i - 1] == x);
                    assert(t.contains(x));
                    assert(dedup_spec(t).contains(x));
                    let k = choose|k: int| 0 <= k < dedup_spec(t).len() && dedup_spec(t)[k] == x;
                    assert(d[k + 1] == x);
                }
            }
            assert forall|i: int, j: int| 0 <= i < j < d.len() implies d[i] < d[j] by {
                if i == 0 {
                    let y = d[j];
                    assert(dedup_spec(t)[j - 1] == y);
                    assert(dedup_spec(t).contains(y));
                    assert(t.contains(y));
                    let k = choose|k: int| 0 <= k < t.len() && t[k] == y;
                    assert(s[0] <= s[1]);
                    assert(s[1] == t[0]);
                    if k > 0 {
                        assert(t[0] <= t[k]);
                    }
                    assert(s[0] < y);
                } else {
                    assert(dedup_spec(t)[i - 1] == d[i]);
                    assert(dedup_spec(t)[j - 1] == d[j]);
                }
            }
        }
    }
}

/// Two strictly increasing sequences with the same elements are equal.
proof fn lemma_strictly_sorted_unique(a: Seq<u64>, b: Seq<u64>)
    requires
        strictly_sorted_u64(a),
        strictly_sorted_u64(b),
        forall|x: u64| #[trigger] a.contains(x) <==> #[trigger] b.contains(x),
    ensures
        a == b,
    decreases a.len(),
{
    if a.len() == 0 {
        if b.len() > 0 {
            assert(b.contains(b[0]));
            assert(a.contains(b[0]));
            assert(false);
        }
        assert(a =~= b);
    } else {
        assert(a.contains(a[0]));
        assert(b.contains(a[0]));
        if b.len() == 0 {
            assert(false);
        }
        let i = choose|i: int| 0 <= i < b.len() && b[i] == a[0];
        if i > 0 {
            assert(b[0] < b[i]);
        }
        assert(b.contains(b[0]));
        assert(a.contains(b[0]));
        let j = choose|j: int| 0 <= j < a.len() && a[j] == b[0];
        if j > 0 {
            assert(a[0] < a[j]);
        }
        assert(a[0] == b[0]);
        let ta = a.drop_first();
        let tb = b.drop_first();
        assert forall|i1: int, j1: int| 0 <= i1 < j1 < ta.len() implies ta[i1] < ta[j1] by {
            assert(ta[i1] == a[i1 + 1]);
            assert(ta[j1] == a[j1 + 1]);
        }
        assert forall|i1: int, j1: int| 0 <= i1 < j1 < tb.len() implies tb[i1] < tb[j1] by {
            assert(tb[i1] == b[i1 + 1]);
            assert(tb[j1] == b[j1 + 1]);
        }
        assert forall|x: u64| #[trigger] ta.contains(x) <==> #[trigger] tb.contains(x) by {
            if ta.contains(x) {
                let k = choose|k: int| 0 <= k < ta.len() && ta[k] == x;
                assert(a[k + 1] == x);
                assert(a[0] < x);
                assert(a.contains(x));
                assert(b.contains(x));
                let p = choose|p: int| 0 <= p < b.len() && b[p] == x;
                assert(p != 0);
                assert(tb[p - 1] == x);
                assert(tb.contains(tb[p - 1]));
            }
            if tb.contains(x) {
                let k = choose|k: int| 0 <= k < tb.len() && tb[k] == x;
                assert(b[k + 1] == x);
                assert(b[0] < x);
                assert(b.contains(x));
                assert(a.contains(x));
                let p = choose|p: int| 0 <= p < a.len() && a[p] == x;
                assert(p != 0);
                assert(ta[p - 1] == x);
                assert(ta.contains(ta[p - 1]));
            }
        }
        lemma_strictly_sorted_unique(ta, tb);
        assert(a =~= b);
    }
}

/// An id is registered at a name: the entry of one of the two mappings at
/// that name carries it.
pub open spec fn registered_id_at(v: RegistryV, n: NameV, id: IndexId) -> bool {
    (v.enabled.contains_key(n) && v.enabled[n].id == id) || (v.pending.contains_key(n)
        && v.pending[n].id == id)
}

/// The set of the ids of every registered index, enabled and pending.
pub open spec fn ids_set(v: RegistryV) -> Set<IndexId> {
    Set::new(|id: IndexId| exists|n: NameV| #[trigger] registered_id_at(v, n, id))
}

/// Compares two id vectors.
fn u64_vecs_equal(a: &Vec<u64>, b: &Vec<u64>) -> (r: bool)
    ensures
        r == (a@ == b@),
{
    if a.len() != b.len() {
        return false;
    }
    let mut i: usize = 0;
    while i < a.len()
        invariant
            0 <= i <= a.len(),
            a@.len() == b@.len(),
            forall|j: int| 0 <= j < i ==> a@[j] == b@[j],
        decreases a.len() - i,
    {
        if a[i] != b[i] {
            return false;
        }
        i = i + 1;
    }
    proof {
        assert(a@ =~= b@);
    }
    true
}

impl IndexRegistry {
    /// The ids of every registered index, in one strictly increasing vector.
    #[verifier::rlimit(100)]
    #[verifier::spinoff_prover]
    fn sorted_ids(&self) -> (r: Vec<u64>)
        requires
            self.wf(),
        ensures
            strictly_sorted_u64(r@),
            forall|id: u64| #[trigger] r@.contains(id) <==> ids_set(self@).contains(id),
    {
        let enabled_entries = index_map_entries(&self.enabled_indexes);
        let pending_entries = index_map_entries(&self.pending_indexes);
        let mut ids: Vec<u64> = Vec::new();
        let mut i: usize = 0;
        while i < enabled_entries.len()
            invariant
                0 <= i <= enabled_entries.len(),
                self.wf(),
                forall|p: int|
                    0 <= p < enabled_entries@.len() ==> #[trigger] self@.enabled.contains_key(
                        name_of_pair(enabled_entries@[p].0),
                    ) && self@.enabled[name_of_pair(enabled_entries@[p].0)]
                        == enabled_entries@[p].1@,
                forall|n: NameV|
                    self@.enabled.contains_key(n) ==> exists|p: int|
                        0 <= p < enabled_entries@.len() && name_of_pair(
                            #[trigger] enabled_entries@[p].0,
                        ) == n,
                ids@.len() == i,
                forall|k: int|
                    0 <= k < i ==> #[trigger] ids@[k] == enabled_entries@[k].1@.id,
            decreases enabled_entries.len() - i,
        {
            ids.push(enabled_entries[i].1.id());
            i = i + 1;
        }
        let ghost ecount = ids@.len();
        let mut j: usize = 0;
        while j < pending_entries.len()
            invariant
                0 <= j <= pending_entries.len(),
                self.wf(),
                ecount == enabled_entries@.len(),
                forall|p: int|
                    0 <= p < enabled_entries@.len() ==> #[trigger] self@.enabled.contains_key(
                        name_of_pair(enabled_entries@[p].0),
                    ) && self@.enabled[name_of_pair(enabled_entries@[p].0)]
                        == enabled_entries@[p].1@,
                forall|n: NameV|
                    self@.enabled.contains_key(n) ==> exists|p: int|
                        0 <= p < enabled_entries@.len() && name_of_pair(
                            #[trigger] enabled_entries@[p].0,
                        ) == n,
                forall|p: int|
                    0 <= p < pending_entries@.len() ==> #[trigger] self@.pending.contains_key(
                        name_of_pair(pending_entries@[p].0),
                    ) && self@.pending[name_of_pair(pending_entries@[p].0)]
                        == pending_entries@[p].1@,
                forall|n: NameV|
                    self@.pending.contains_key(n) ==> exists|p: int|
                        0 <= p < pending_entries@.len() && name_of_pair(
                            #[trigger] pending_entries@[p].0,
                        ) == n,
                ids@.len() == ecount + j,
                forall|k: int|
                    0 <= k < ecount ==> #[trigger] ids@[k] == enabled_entries@[k].1@.id,
                forall|k: int|
                    ecount <= k < ids@.len() ==> #[trigger] ids@[k] == pending_entries@[k
                        - ecount].1@.id,
            decreases pending_entries.len() - j,
        {
            ids.push(pending_entries[j].1.id());
            j = j + 1;
        }
        proof {
            assert forall|id: u64| #[trigger] ids@.contains(id) implies ids_set(
                self@,
            ).contains(id) by {
                let k = choose|k: int| 0 <= k < ids@.len() && ids@[k] == id;
                if k < ecount {
                    let n = name_of_pair(enabled_entries@[k].0);
                    assert(self@.enabled.contains_key(n));
                    assert(self@.enabled[n] == enabled_entries@[k].1@);
                    assert(ids@[k] == enabled_entries@[k].1@.id);
                    assert(registered_id_at(self@, n, id));
                } else {
                    let n = name_of_pair(pending_entries@[k - ecount].0);
                    assert(self@.pending.contains_key(n));
                    assert(self@.pending[n] == pending_entries@[k - ecount].1@);
                    assert(ids@[k] == pending_entries@[k - ecount].1@.id);
                    assert(registered_id_at(self@, n, id));
                }
            }
            assert forall|id: u64| ids_set(self@).contains(id) implies #[trigger] ids@.contains(
                id,
            ) by {
                let n = choose|n: NameV| #[trigger] registered_id_at(self@, n, id);
                if self@.enabled.contains_key(n) && self@.enabled[n].id == id {
                    let p = choose|p: int|
                        0 <= p < enabled_entries@.len() && name_of_pair(
                            #[trigger] enabled_entries@[p].0,
                        ) == n;
                    assert(ids@[p] == id);
                } else {
                    let p = choose|p: int|
                        0 <= p < pending_entries@.len() && name_of_pair(
                            #[trigger] pending_entries@[p].0,
                        ) == n;
                    assert(ids@[p + ecount] == id);
                }
            }
        }
        let sorted = sorted_u64s(ids);
        let deduped = dedup_u64s(sorted);
        proof {
            lemma_dedup_sorted(sorted@);
            assert forall|id: u64| #[trigger] deduped@.contains(id) <==> ids_set(
                self@,
            ).contains(id) by {
                assert(sorted@.contains(id) <==> sorted@.to_multiset().count(id) > 0);
            }
        }
        deduped
    }

    /// The set of the ids of every registered index.
    #[verifier::rlimit(100)]
    #[verifier::spinoff_prover]
    pub fn index_ids(&self) -> (r: std::collections::BTreeSet<u64>)
        requires
            self.wf(),
        ensures
            r@ == ids_set(self@),
    {
        let ids = self.sorted_ids();
        let mut out: std::collections::BTreeSet<u64> = std::collections::BTreeSet::new();
        let mut i: usize = 0;
        while i < ids.len()
            invariant
                0 <= i <= ids.len(),
                forall|id: u64| #[trigger] out@.contains(id) <==> ids@.take(i as int).contains(id),
            decreases ids.len() - i,
        {
            let id = ids[i];
            out.insert(id);
            proof {
                assert forall|x: u64| #[trigger] out@.contains(x) <==> ids@.take(
                    i as int + 1,
                ).contains(x) by {
                    assert(ids@.take(i as int + 1) =~= ids@.take(i as int).push(ids@[i as int]));
                    if x == id {
                        assert(ids@.take(i as int + 1)[i as int] == x);
                    } else {
                        if ids@.take(i as int).contains(x) {
                            let k = choose|k: int|
                                0 <= k < i && #[trigger] ids@.take(i as int)[k] == x;
                            assert(ids@.take(i as int + 1)[k] == x);
                        }
                        if ids@.take(i as int + 1).contains(x) {
                            let k = choose|k: int|
                                0 <= k < i + 1 && #[trigger] ids@.take(i as int + 1)[k] == x;
                            assert(k < i);
                            assert(ids@.take(i as int)[k] == x);
                        }
                    }
                }
            }
            i = i + 1;
        }
        proof {
            assert(ids@.take(ids@.len() as int) =~= ids@);
            assert(out@ =~= ids_set(self@));
        }
        out
    }

    /// Whether this registry and `other` describe the same index set: true
    /// exactly when their sets of index ids are equal. Index state (pending
    /// or enabled) may differ even when this holds, since an index keeps its
    /// id across state transitions while an unrelated re-creation mints a new
    /// one.
    #[verifier::rlimit(100)]
    #[verifier::spinoff_prover]
    pub fn same_indexes(&self, other: &IndexRegistry) -> (r: bool)
        requires
            self.wf(),
            other.wf(),
        ensures
            r == (ids_set(self@) == ids_set(other@)),
    {
        let a = self.sorted_ids();
        let b = other.sorted_ids();
        let eq = u64_vecs_equal(&a, &b);
        proof {
            if eq {
                assert forall|id: u64|
                    ids_set(self@).contains(id) <==> ids_set(other@).contains(id) by {
                    assert(a@.contains(id) <==> ids_set(self@).contains(id));
                    assert(b@.contains(id) <==> ids_set(other@).contains(id));
                }
                assert(ids_set(self@) =~= ids_set(other@));
            } else {
                if ids_set(self@) == ids_set(other@) {
                    assert forall|x: u64| #[trigger] a@.contains(x) <==> #[trigger] b@.contains(
                        x,
                    ) by {}
                    lemma_strictly_sorted_unique(a@, b@);
                    assert(false);
                }
            }
        }
        eq
    }

    /// The tables that have at least one registered index, in increasing
    /// order, each once.
    #[verifier::rlimit(100)]
    #[verifier::spinoff_prover]
    pub fn all_tables_with_indexes(&self) -> (r: Vec<TabletId>)
        requires
            self.wf(),
        ensures
            strictly_sorted_u64(r@),
            forall|t: TabletId| #[trigger]
                r@.contains(t) <==> (exists|n: NameV| #[trigger] registered(self@, n) && n.table
                    == t),
    {
        let entries = table_set_entries(&self.indexes_by_table);
        let mut tables: Vec<u64> = Vec::new();
        let mut i: usize = 0;
        while i < entries.len()
            invariant
                0 <= i <= entries.len(),
                tables@.len() == i,
                forall|k: int| 0 <= k < i ==> #[trigger] tables@[k] == entries@[k].0,
            decreases entries.len() - i,
        {
            tables.push(entries[i].0);
            i = i + 1;
        }
        let sorted = sorted_u64s(tables);
        let deduped = dedup_u64s(sorted);
        proof {
            lemma_dedup_sorted(sorted@);
            assert forall|t: TabletId| #[trigger]
                deduped@.contains(t) <==> (exists|n: NameV| #[trigger] registered(self@, n)
                    && n.table == t) by {
                assert(sorted@.contains(t) <==> sorted@.to_multiset().count(t) > 0);
                assert(sorted@.contains(t) <==> tables@.contains(t));
                if tables@.contains(t) {
                    let k = choose|k: int| 0 <= k < tables@.len() && tables@[k] == t;
                    let n = name_of_pair(entries@[k]);
                    assert(self@.tables.contains(n));
                    assert(registered(self@, n) && n.table == t);
                }
                if exists|n: NameV| #[trigger] registered(self@, n) && n.table == t {
                    let n = choose|n: NameV| #[trigger] registered(self@, n) && n.table == t;
                    assert(self@.tables.contains(n));
                    let p = choose|p: int|
                        0 <= p < entries@.len() && name_of_pair(#[trigger] entries@[p]) == n;
                    assert(tables@[p] == t);
                }
            }
        }
        deduped
    }
}

/// A registered database index with this id sits at `name`, with `fields` as
/// its developer field list.
pub open spec fn db_config_at(
    v: RegistryV,
    id: IndexId,
    name: NameV,
    fields: Seq<Seq<char>>,
) -> bool {
    ||| (v.enabled.contains_key(name) && v.enabled[name].id == id && (
    v.enabled[name].metadata.config matches IndexConfigV::Database { fields: f, .. } && f
        == fields))
    ||| (v.pending.contains_key(name) && v.pending[name].id == id && (
    v.pending[name].metadata.config matches IndexConfigV::Database { fields: f, .. } && f
        == fields))
}

/// Some registered database index carries this id.
pub open spec fn has_db_id(v: RegistryV, id: IndexId) -> bool {
    exists|n: NameV, fields: Seq<Seq<char>>| #[trigger] db_config_at(v, id, n, fields)
}

impl IndexRegistry {
    /// The id of the enabled `by_id` index of every table that has one.
    #[verifier::rlimit(100)]
    #[verifier::spinoff_prover]
    pub fn by_id_indexes(&self) -> (r: std::collections::BTreeMap<TabletId, IndexId>)
        requires
            self.wf(),
        ensures
            forall|t: TabletId| #[trigger]
                r@.contains_key(t) <==> self@.enabled.contains_key(by_id_name(t)),
            forall|t: TabletId| #[trigger]
                r@.contains_key(t) ==> r@[t] == self@.enabled[by_id_name(t)].id,
    {
        let entries = index_map_entries(&self.enabled_indexes);
        let mut out: std::collections::BTreeMap<TabletId, IndexId> =
            std::collections::BTreeMap::new();
        let mut i: usize = 0;
        while i < entries.len()
            invariant
                0 <= i <= entries.len(),
                self.wf(),
                forall|p: int|
                    0 <= p < entries@.len() ==> #[trigger] self@.enabled.contains_key(
                        name_of_pair(entries@[p].0),
                    ) && self@.enabled[name_of_pair(entries@[p].0)] == entries@[p].1@,
                forall|n: NameV|
                    self@.enabled.contains_key(n) ==> exists|p: int|
                        0 <= p < entries@.len() && name_of_pair(#[trigger] entries@[p].0) == n,
                forall|t: TabletId| #[trigger]
                    out@.contains_key(t) ==> self@.enabled.contains_key(by_id_name(t)) && out@[t]
                        == self@.enabled[by_id_name(t)].id,
                forall|p: int|
                    0 <= p < i && name_of_pair(#[trigger] entries@[p].0).descriptor
                        == by_id_descriptor() ==> out@.contains_key(entries@[p].0.0),
            decreases entries.len() - i,
        {
            proof {
                let n = name_of_pair(entries@[i as int].0);
                assert(self@.enabled.contains_key(n));
                assert(self@.enabled[n].metadata.name == n);
                assert(entries@[i as int].1@.metadata.name == n);
            }
            let is_by_id = entries[i].1.metadata.name.is_by_id();
            if is_by_id {
                let table = entries[i].1.metadata.name.table;
                let id = entries[i].1.id();
                proof {
                    let n = name_of_pair(entries@[i as int].0);
                    assert(n == by_id_name(table));
                }
                out.insert(table, id);
            }
            i = i + 1;
        }
        proof {
            assert forall|t: TabletId|
                self@.enabled.contains_key(by_id_name(t)) implies #[trigger] out@.contains_key(
                t,
            ) by {
                let p = choose|p: int|
                    0 <= p < entries@.len() && name_of_pair(#[trigger] entries@[p].0) == by_id_name(
                        t,
                    );
                assert(entries@[p].0.0 == t);
            }
        }
        out
    }

    /// The id, name and developer field list of every registered database
    /// index. Where an enabled and a pending entry share an id, one of them
    /// supplies the name and fields.
    #[verifier::rlimit(100)]
    #[verifier::spinoff_prover]
    pub fn all_database_index_configs(&self) -> (r: std::collections::BTreeMap<
        IndexId,
        (TabletIndexName, Vec<FieldPath>),
    >)
        requires
            self.wf(),
        ensures
            forall|id: IndexId| #[trigger] r@.contains_key(id) <==> has_db_id(self@, id),
            forall|id: IndexId| #[trigger]
                r@.contains_key(id) ==> db_config_at(
                    self@,
                    id,
                    r@[id].0@,
                    r@[id].1.deep_view(),
                ),
    {
        let enabled_entries = index_map_entries(&self.enabled_indexes);
        let pending_entries = index_map_entries(&self.pending_indexes);
        let mut out: std::collections::BTreeMap<IndexId, (TabletIndexName, Vec<FieldPath>)> =
            std::collections::BTreeMap::new();
        let mut i: usize = 0;
        while i < enabled_entries.len()
            invariant
                0 <= i <= enabled_entries.len(),
                self.wf(),
                forall|p: int|
                    0 <= p < enabled_entries@.len() ==> #[trigger] self@.enabled.contains_key(
                        name_of_pair(enabled_entries@[p].0),
                    ) && self@.enabled[name_of_pair(enabled_entries@[p].0)]
                        == enabled_entries@[p].1@,
                forall|n: NameV|
                    self@.enabled.contains_key(n) ==> exists|p: int|
                        0 <= p < enabled_entries@.len() && name_of_pair(
                            #[trigger] enabled_entries@[p].0,
                        ) == n,
                forall|id: IndexId| #[trigger]
                    out@.contains_key(id) ==> has_db_id(self@, id) && db_config_at(
                        self@,
                        id,
                        out@[id].0@,
                        out@[id].1.deep_view(),
                    ),
                forall|p: int|
                    0 <= p < i && (#[trigger] enabled_entries@[p].1)@.metadata.config is Database
                        ==> out@.contains_key(enabled_entries@[p].1@.id),
            decreases enabled_entries.len() - i,
        {
            match &enabled_entries[i].1.metadata.config {
                IndexConfig::Database { developer_config, .. } => {
                    let id = enabled_entries[i].1.id();
                    let name = enabled_entries[i].1.metadata.name.duplicate();
                    let fields = duplicate_field_paths(&developer_config.fields);
                    proof {
                        let n = name_of_pair(enabled_entries@[i as int].0);
                        assert(self@.enabled.contains_key(n));
                        assert(self@.enabled[n].metadata.name == n);
                        assert(db_config_at(self@, id, name@, fields.deep_view()));
                    }
                    out.insert(id, (name, fields));
                },
                _ => {},
            }
            i = i + 1;
        }
        let mut j: usize = 0;
        while j < pending_entries.len()
            invariant
                0 <= j <= pending_entries.len(),
                self.wf(),
                forall|p: int|
                    0 <= p < enabled_entries@.len() ==> #[trigger] self@.enabled.contains_key(
                        name_of_pair(enabled_entries@[p].0),
                    ) && self@.enabled[name_of_pair(enabled_entries@[p].0)]
                        == enabled_entries@[p].1@,
                forall|n: NameV|
                    self@.enabled.contains_key(n) ==> exists|p: int|
                        0 <= p < enabled_entries@.len() && name_of_pair(
                            #[trigger] enabled_entries@[p].0,
                        ) == n,
                forall|p: int|
                    0 <= p < pending_entries@.len() ==> #[trigger] self@.pending.contains_key(
                        name_of_pair(pending_entries@[p].0),
                    ) && self@.pending[name_of_pair(pending_entries@[p].0)]
                        == pending_entries@[p].1@,
                forall|n: NameV|
                    self@.pending.contains_key(n) ==> exists|p: int|
                        0 <= p < pending_entries@.len() && name_of_pair(
                            #[trigger] pending_entries@[p].0,
                        ) == n,
                forall|id: IndexId| #[trigger]
                    out@.contains_key(id) ==> has_db_id(self@, id) && db_config_at(
                        self@,
                        id,
                        out@[id].0@,
                        out@[id].1.deep_view(),
                    ),
                forall|p: int|
                    0 <= p < enabled_entries@.len() && (
                    #[trigger] enabled_entries@[p].1)@.metadata.config is Database
                        ==> out@.contains_key(enabled_entries@[p].1@.id),
                forall|p: int|
                    0 <= p < j && (#[trigger] pending_entries@[p].1)@.metadata.config is Database
                        ==> out@.contains_key(pending_entries@[p].1@.id),
            decreases pending_entries.len() - j,
        {
            match &pending_entries[j].1.metadata.config {
                IndexConfig::Database { developer_config, .. } => {
                    let id = pending_entries[j].1.id();
                    let name = pending_entries[j].1.metadata.name.duplicate();
                    let fields = duplicate_field_paths(&developer_config.fields);
                    proof {
                        let n = name_of_pair(pending_entries@[j as int].0);
                        assert(self@.pending.contains_key(n));
                        assert(self@.pending[n].metadata.name == n);
                        assert(db_config_at(self@, id, name@, fields.deep_view()));
                    }
                    out.insert(id, (name, fields));
                },
                _ => {},
            }
            j = j + 1;
        }
        proof {
            assert forall|id: IndexId| has_db_id(self@, id) implies #[trigger] out@.contains_key(
                id,
            ) by {
                let (n, fields): (NameV, Seq<Seq<char>>) = choose|
                    n: NameV,
                    fields: Seq<Seq<char>>,
                | #[trigger] db_config_at(self@, id, n, fields);
                if self@.enabled.contains_key(n) && self@.enabled[n].id == id
                    && self@.enabled[n].metadata.config is Database {
                    let p = choose|p: int|
                        0 <= p < enabled_entries@.len() && name_of_pair(
                            #[trigger] enabled_entries@[p].0,
                        ) == n;
                    assert(enabled_entries@[p].1@.id == id);
                } else {
                    let p = choose|p: int|
                        0 <= p < pending_entries@.len() && name_of_pair(
                            #[trigger] pending_entries@[p].0,
                        ) == n;
                    assert(pending_entries@[p].1@.id == id);
                }
            }
        }
        out
    }
}

/// The developer field list of a database index configuration.
pub open spec fn database_fields(c: IndexConfigV) -> Seq<Seq<char>> {
    match c {
        IndexConfigV::Database { fields, .. } => fields,
        _ => Seq::empty(),
    }
}

/// How an index entry turns a document into an update pair: the index is a
/// database index on the document's table, carries `id`, and assigns the
/// document the projection of its field list.
pub open spec fn index_yields(
    i: IndexV,
    doc: DocV,
    id: IndexId,
    key: Seq<Option<FieldValueV>>,
) -> bool {
    &&& i.metadata.name.table == doc.id.tablet_id
    &&& i.metadata.config is Database
    &&& i.id == id
    &&& key == project_spec(doc.fields, database_fields(i.metadata.config))
}

/// Some registered index yields this (id, key) pair for the document, with
/// `sys` telling whether that index's descriptor is system-assigned.
pub open spec fn doc_yields(
    v: RegistryV,
    doc: DocV,
    id: IndexId,
    key: Seq<Option<FieldValueV>>,
    sys: bool,
) -> bool {
    ||| exists|n: NameV| #[trigger]
        v.enabled.contains_key(n) && index_yields(v.enabled[n], doc, id, key) && sys
            == is_reserved_descriptor(n.descriptor)
    ||| exists|n: NameV| #[trigger]
        v.pending.contains_key(n) && index_yields(v.pending[n], doc, id, key) && sys
            == is_reserved_descriptor(n.descriptor)
}

/// `doc_yields` lifted to an optional document.
pub open spec fn opt_doc_yields(
    v: RegistryV,
    d: Option<DocV>,
    id: IndexId,
    key: Seq<Option<FieldValueV>>,
    sys: bool,
) -> bool {
    d is Some && doc_yields(v, d->Some_0, id, key, sys)
}

/// Whether some registered index yields the pair, whatever its descriptor.
pub open spec fn opt_doc_yields_any(
    v: RegistryV,
    d: Option<DocV>,
    id: IndexId,
    key: Seq<Option<FieldValueV>>,
) -> bool {
    opt_doc_yields(v, d, id, key, true) || opt_doc_yields(v, d, id, key, false)
}

/// The value side of one index-entry update.
#[derive(Clone, Copy, Debug, PartialEq, Eq, Structural)]
pub enum DatabaseIndexValue {
    /// The entry at this key is retracted.
    Deleted,
    /// The entry at this key now points at this document.
    NonClustered(DocumentId),
}

/// Ghost form of one index-entry update.
pub ghost struct DatabaseIndexUpdateV {
    pub index_id: IndexId,
    pub key: crate::keys::IndexKeyV,
    pub value: DatabaseIndexValue,
    pub is_system_index: bool,
}

/// One index-entry update: which index, at which key, gets which value.
#[derive(Clone, Debug, PartialEq, Eq)]
pub struct DatabaseIndexUpdate {
    pub index_id: IndexId,
    pub key: IndexKey,
    pub value: DatabaseIndexValue,
    pub is_system_index: bool,
}

impl View for DatabaseIndexUpdate {
    type V = DatabaseIndexUpdateV;

    open spec fn view(&self) -> DatabaseIndexUpdateV {
        DatabaseIndexUpdateV {
            index_id: self.index_id,
            key: self.key@,
            value: self.value,
            is_system_index: self.is_system_index,
        }
    }
}

/// Two updates write the same physical entry: same index, same key values.
pub open spec fn same_update_pair(a: DatabaseIndexUpdateV, b: DatabaseIndexUpdateV) -> bool {
    a.index_id == b.index_id && a.key.values == b.key.values
}

/// Compares two field values.
pub fn field_values_equal(a: &FieldValue, b: &FieldValue) -> (r: bool)
    ensures
        r == (a@ == b@),
{
    match (a, b) {
        (FieldValue::Null, FieldValue::Null) => true,
        (FieldValue::Boolean(x), FieldValue::Boolean(y)) => *x == *y,
        (FieldValue::Integer(x), FieldValue::Integer(y)) => *x == *y,
        (FieldValue::Text(x), FieldValue::Text(y)) => *x == *y,
        _ => false,
    }
}

/// Compares the projected values of two index keys.
pub fn key_values_equal(a: &IndexKey, b: &IndexKey) -> (r: bool)
    ensures
        r == (a@.values == b@.values),
{
    if a.values.len() != b.values.len() {
        proof {
            assert(a@.values.len() == a.values.len());
            assert(b@.values.len() == b.values.len());
        }
        return false;
    }
    let mut i: usize = 0;
    while i < a.values.len()
        invariant
            0 <= i <= a.values.len(),
            a.values.len() == b.values.len(),
            a@.values.len() == a.values.len(),
            b@.values.len() == b.values.len(),
            forall|j: int| 0 <= j < i ==> a@.values[j] == b@.values[j],
        decreases a.values.len() - i,
    {
        proof {
            assert(a@.values[i as int] == a.values[i as int].deep_view());
            assert(b@.values[i as int] == b.values[i as int].deep_view());
        }
        let same = match (&a.values[i], &b.values[i]) {
            (Some(x), Some(y)) => field_values_equal(x, y),
            (None, None) => true,
            _ => false,
        };
        if !same {
            return false;
        }
        i = i + 1;
    }
    proof {
        assert(a@.values =~= b@.values);
    }
    true
}

/// Inserts an update, overwriting the update of the same (index, key) pair if
/// one is present: entries are keyed for overwrite, so the later write wins.
fn upsert_update(updates: &mut Vec<DatabaseIndexUpdate>, u: DatabaseIndexUpdate)
    requires
        forall|q1: int, q2: int|
            0 <= q1 < q2 < old(updates)@.len() ==> !same_update_pair(
                (#[trigger] old(updates)@[q1])@,
                (#[trigger] old(updates)@[q2])@,
            ),
    ensures
        final(updates)@.len() >= old(updates)@.len(),
        forall|q1: int, q2: int|
            0 <= q1 < q2 < final(updates)@.len() ==> !same_update_pair(
                (#[trigger] final(updates)@[q1])@,
                (#[trigger] final(updates)@[q2])@,
            ),
        exists|q: int|
            0 <= q < final(updates)@.len() && (#[trigger] final(updates)@[q])@ == u@,
        forall|q: int|
            0 <= q < final(updates)@.len() && !same_update_pair(
                (#[trigger] final(updates)@[q])@,
                u@,
            ) ==> q < old(updates)@.len() && final(updates)@[q] == old(updates)@[q],
        forall|q: int|
            0 <= q < old(updates)@.len() && !same_update_pair((#[trigger] old(updates)@[q])@, u@)
                ==> final(updates)@[q] == old(updates)@[q],
    {
    let mut i: usize = 0;
    while i < updates.len()
        invariant
            0 <= i <= updates@.len(),
            updates@ == old(updates)@,
            forall|q1: int, q2: int|
                0 <= q1 < q2 < updates@.len() ==> !same_update_pair(
                    (#[trigger] updates@[q1])@,
                    (#[trigger] updates@[q2])@,
                ),
            forall|q: int|
                0 <= q < i ==> !same_update_pair((#[trigger] updates@[q])@, u@),
        decreases updates.len() - i,
    {
        if updates[i].index_id == u.index_id && key_values_equal(&updates[i].key, &u.key) {
            let ghost uu = u@;
            let ghost prev = updates@;
            updates.set(i, u);
            proof {
                assert(updates@ == prev.update(i as int, updates@[i as int]));
                assert(updates@[i as int]@ == uu);
                assert forall|q: int|
                    0 <= q < updates@.len() && q != i as int implies updates@[q] == prev[q] by {}
                assert forall|q1: int, q2: int|
                    0 <= q1 < q2 < updates@.len() implies !same_update_pair(
                    (#[trigger] updates@[q1])@,
                    (#[trigger] updates@[q2])@,
                ) by {
                    if q1 != i as int && q2 != i as int {
                        assert(!same_update_pair(prev[q1]@, prev[q2]@));
                    } else if q1 == i as int {
                        assert(!same_update_pair(prev[q1]@, prev[q2]@));
                        assert(same_update_pair(prev[i as int]@, uu));
                    } else {
                        assert(!same_update_pair(prev[q1]@, prev[q2]@));
                        assert(same_update_pair(prev[i as int]@, uu));
                    }
                }
            }
            return ;
        }
        i = i + 1;
    }
    let ghost uu = u@;
    let ghost prev = updates@;
    updates.push(u);
    proof {
        assert(updates@[prev.len() as int]@ == uu);
        assert forall|q1: int, q2: int|
            0 <= q1 < q2 < updates@.len() implies !same_update_pair(
            (#[trigger] updates@[q1])@,
            (#[trigger] updates@[q2])@,
        ) by {
            if q2 == prev.len() as int {
                assert(updates@[q1] == prev[q1]);
                assert(!same_update_pair(prev[q1]@, uu));
            } else {
                assert(updates@[q1] == prev[q1]);
                assert(updates@[q2] == prev[q2]);
            }
        }
    }
}

impl IndexRegistry {
    /// The index keys of a document under every registered database index of
    /// its table: the pair (index, projected key) for each, in the key form
    /// the document representation produces. Text and vector indexes take no
    /// part in index-entry maintenance and are skipped.
    pub fn index_keys<D: IndexedDocument>(&self, document: &D) -> (r: Vec<(Index, D::Key)>)
        requires
            self.wf(),
        ensures
            forall|k: int|
                0 <= k < r@.len() ==> {
                    let idx = (#[trigger] r@[k]).0;
                    &&& idx@.metadata.name.table == document.doc_view().id.tablet_id
                    &&& idx@.metadata.config is Database
                    &&& {
                        let n = idx@.metadata.name;
                        (self@.enabled.contains_key(n) && idx@ == self@.enabled[n])
                            || (self@.pending.contains_key(n) && idx@ == self@.pending[n])
                    }
                    &&& document.key_matches(
                        database_fields(idx@.metadata.config),
                        self@.persistence_version,
                        &r@[k].1,
                    )
                },
            forall|n: NameV| #[trigger]
                self@.enabled.contains_key(n) && n.table == document.doc_view().id.tablet_id
                    && self@.enabled[n].metadata.config is Database ==> exists|k: int|
                    0 <= k < r@.len() && (#[trigger] r@[k as int]).0@ == self@.enabled[n],
            forall|n: NameV| #[trigger]
                self@.pending.contains_key(n) && n.table == document.doc_view().id.tablet_id
                    && self@.pending[n].metadata.config is Database ==> exists|k: int|
                    0 <= k < r@.len() && (#[trigger] r@[k as int]).0@ == self@.pending[n],
            forall|k1: int, k2: int|
                0 <= k1 < k2 < r@.len() ==> !((#[trigger] r@[k1]).0@.metadata.name == (
                #[trigger] r@[k2]).0@.metadata.name && config_is_enabled(
                    r@[k1].0@.metadata.config,
                ) == config_is_enabled(r@[k2].0@.metadata.config)),
    {
        let tablet_id = document.id().tablet_id;
        let all = self.indexes_by_table(tablet_id);
        let version = self.persistence_version;
        let mut out: Vec<(Index, D::Key)> = Vec::new();
        let ghost mut srcs: Seq<int> = Seq::empty();
        let mut p: usize = 0;
        while p < all.len()
            invariant
                0 <= p <= all.len(),
                self.wf(),
                version == self@.persistence_version,
                tablet_id == document.doc_view().id.tablet_id,
                forall|k: int|
                    0 <= k < all@.len() ==> (#[trigger] all@[k])@.metadata.name.table == tablet_id
                        && {
                        let n = all@[k]@.metadata.name;
                        (self@.enabled.contains_key(n) && all@[k]@ == self@.enabled[n])
                            || (self@.pending.contains_key(n) && all@[k]@ == self@.pending[n])
                    },
                forall|n: NameV| #[trigger]
                    self@.enabled.contains_key(n) && n.table == tablet_id ==> exists|k: int|
                        0 <= k < all@.len() && all@[k as int]@ == self@.enabled[n],
                forall|n: NameV| #[trigger]
                    self@.pending.contains_key(n) && n.table == tablet_id ==> exists|k: int|
                        0 <= k < all@.len() && all@[k as int]@ == self@.pending[n],
                forall|k1: int, k2: int|
                    0 <= k1 < k2 < all@.len() ==> !((#[trigger] all@[k1])@.metadata.name == (
                    #[trigger] all@[k2])@.metadata.name && config_is_enabled(
                        all@[k1]@.metadata.config,
                    ) == config_is_enabled(all@[k2]@.metadata.config)),
                srcs.len() == out@.len(),
                forall|q: int| 0 <= q < out@.len() ==> 0 <= #[trigger] srcs[q] < p,
                forall|q1: int, q2: int| 0 <= q1 < q2 < out@.len() ==> srcs[q1] < srcs[q2],
                forall|q: int|
                    0 <= q < out@.len() ==> (#[trigger] out@[q]).0@ == all@[srcs[q]]@
                        && out@[q].0@.metadata.config is Database && document.key_matches(
                        database_fields(out@[q].0@.metadata.config),
                        version,
                        &out@[q].1,
                    ),
                forall|k: int|
                    0 <= k < p && (#[trigger] all@[k])@.metadata.config is Database ==> exists|
                        q: int,
                    | 0 <= q < out@.len() && (#[trigger] out@[q as int]).0@ == all@[k]@,
            decreases all.len() - p,
        {
            let ghost before = out@;
            match &all[p].metadata.config {
                IndexConfig::Database { developer_config, .. } => {
                    let key = document.index_key_bytes(&developer_config.fields, version);
                    let idx = all[p].duplicate();
                    proof {
                        assert(developer_config.fields.deep_view() == database_fields(
                            idx@.metadata.config,
                        ));
                    }
                    out.push((idx, key));
                    proof {
                        srcs = srcs.push(p as int);
                    }
                },
                _ => {},
            }
            proof {
                assert forall|k: int|
                    0 <= k < p as int + 1 && (#[trigger] all@[k])@.metadata.config is Database
                        implies exists|q: int|
                    0 <= q < out@.len() && (#[trigger] out@[q as int]).0@ == all@[k]@ by {
                    if k < p as int {
                        let q = choose|q: int|
                            0 <= q < before.len() && (#[trigger] before[q as int]).0@ == all@[k]@;
                        assert(out@[q as int].0@ == all@[k]@);
                    } else {
                        assert(out@[(out@.len() - 1) as int].0@ == all@[k]@);
                    }
                }
            }
            p = p + 1;
        }
        proof {
            assert forall|n: NameV| #[trigger]
                self@.enabled.contains_key(n) && n.table == document.doc_view().id.tablet_id
                    && self@.enabled[n].metadata.config is Database implies exists|k: int|
                0 <= k < out@.len() && (#[trigger] out@[k as int]).0@ == self@.enabled[n] by {
                let k = choose|k: int|
                    0 <= k < all@.len() && (#[trigger] all@[k as int])@ == self@.enabled[n];
                assert(all@[k]@.metadata.config is Database);
            }
            assert forall|n: NameV| #[trigger]
                self@.pending.contains_key(n) && n.table == document.doc_view().id.tablet_id
                    && self@.pending[n].metadata.config is Database implies exists|k: int|
                0 <= k < out@.len() && (#[trigger] out@[k as int]).0@ == self@.pending[n] by {
                let k = choose|k: int|
                    0 <= k < all@.len() && (#[trigger] all@[k as int])@ == self@.pending[n];
                assert(all@[k]@.metadata.config is Database);
            }
            assert forall|k1: int, k2: int| 0 <= k1 < k2 < out@.len() implies !((
            #[trigger] out@[k1]).0@.metadata.name == (#[trigger] out@[k2]).0@.metadata.name
                && config_is_enabled(out@[k1].0@.metadata.config) == config_is_enabled(
                out@[k2].0@.metadata.config,
            )) by {
                assert(out@[k1].0@ == all@[srcs[k1]]@);
                assert(out@[k2].0@ == all@[srcs[k2]]@);
            }
        }
        out
    }
}

impl IndexRegistry {
    /// Upserts one update per (index, key) pair the document produces, all
    /// carrying `value`.
    fn apply_update_side(
        &self,
        updates: &mut Vec<DatabaseIndexUpdate>,
        document: &ResolvedDocument,
        value: DatabaseIndexValue,
    )
        requires
            self.wf(),
            forall|q1: int, q2: int|
                0 <= q1 < q2 < old(updates)@.len() ==> !same_update_pair(
                    (#[trigger] old(updates)@[q1])@,
                    (#[trigger] old(updates)@[q2])@,
                ),
        ensures
            final(updates)@.len() >= old(updates)@.len(),
            forall|q1: int, q2: int|
                0 <= q1 < q2 < final(updates)@.len() ==> !same_update_pair(
                    (#[trigger] final(updates)@[q1])@,
                    (#[trigger] final(updates)@[q2])@,
                ),
            forall|q: int|
                0 <= q < old(updates)@.len() ==> same_update_pair(
                    (#[trigger] final(updates)@[q])@,
                    old(updates)@[q]@,
                ),
            forall|j: int|
                0 <= j < final(updates)@.len() ==> ((j < old(updates)@.len() && (
                #[trigger] final(updates)@[j]) == old(updates)@[j]) || (doc_yields(
                    self@,
                    document@,
                    final(updates)@[j]@.index_id,
                    final(updates)@[j]@.key.values,
                    final(updates)@[j]@.is_system_index,
                ) && final(updates)@[j]@.value == value
                    && final(updates)@[j]@.key.persistence_version
                    == self@.persistence_version)),
            forall|id: IndexId, key: Seq<Option<FieldValueV>>, sys: bool| #[trigger]
                doc_yields(self@, document@, id, key, sys) ==> exists|j: int|
                    0 <= j < final(updates)@.len() && (#[trigger] final(updates)@[j as int])@.index_id
                        == id && final(updates)@[j as int]@.key.values == key
                        && final(updates)@[j as int]@.value == value,
    {
        let mut pairs = self.index_keys(document);
        let ghost pairs0 = pairs@;
        let ghost base = updates@;
        proof {
            assert(pairs@ == pairs0.take(pairs0.len() as int));
        }
        while pairs.len() > 0
            invariant
                self.wf(),
                pairs@ == pairs0.take(pairs@.len() as int),
                pairs@.len() <= pairs0.len(),
                // what index_keys guaranteed of pairs0
                forall|k: int|
                    0 <= k < pairs0.len() ==> {
                        let idx = (#[trigger] pairs0[k]).0;
                        &&& idx@.metadata.name.table == document@.id.tablet_id
                        &&& idx@.metadata.config is Database
                        &&& {
                            let n = idx@.metadata.name;
                            (self@.enabled.contains_key(n) && idx@ == self@.enabled[n])
                                || (self@.pending.contains_key(n) && idx@ == self@.pending[n])
                        }
                        &&& pairs0[k].1@.values == project_spec(
                            document@.fields,
                            database_fields(idx@.metadata.config),
                        )
                        &&& pairs0[k].1@.persistence_version == self@.persistence_version
                    },
                updates@.len() >= base.len(),
                forall|q1: int, q2: int|
                    0 <= q1 < q2 < updates@.len() ==> !same_update_pair(
                        (#[trigger] updates@[q1])@,
                        (#[trigger] updates@[q2])@,
                    ),
                forall|q: int|
                    0 <= q < base.len() ==> same_update_pair(
                        (#[trigger] updates@[q])@,
                        base[q]@,
                    ),
                forall|j: int|
                    0 <= j < updates@.len() ==> ((j < base.len() && (#[trigger] updates@[j])
                        == base[j]) || (doc_yields(
                        self@,
                        document@,
                        updates@[j]@.index_id,
                        updates@[j]@.key.values,
                        updates@[j]@.is_system_index,
                    ) && updates@[j]@.value == value && updates@[j]@.key.persistence_version
                        == self@.persistence_version)),
                forall|k: int|
                    pairs@.len() <= k < pairs0.len() ==> exists|j: int|
                        0 <= j < updates@.len() && (#[trigger] updates@[j as int])@.index_id == (
                        #[trigger] pairs0[k]).0@.id && updates@[j as int]@.key.values
                            == pairs0[k].1@.values && updates@[j as int]@.value == value,
            decreases pairs.len(),
        {
            let ghost prevu = updates@;
            let ghost kcur = pairs@.len() - 1;
            let pair = match pairs.pop() {
                Some(p) => p,
                None => unreached(),
            };
            proof {
                assert(pairs0.take(kcur as int + 1)[kcur as int] == pair);
                assert(pairs@ == pairs0.take(kcur as int));
            }
            let (idx, key) = pair;
            let is_system_index = idx.metadata.name.is_by_id_or_creation_time();
            let u = DatabaseIndexUpdate { index_id: idx.id(), key, value, is_system_index };
            proof {
                let n = idx@.metadata.name;
                assert(index_yields(idx@, document@, u@.index_id, u@.key.values));
                assert(doc_yields(
                    self@,
                    document@,
                    u@.index_id,
                    u@.key.values,
                    u@.is_system_index,
                ));
            }
            let ghost uu = u@;
            upsert_update(updates, u);
            proof {
                assert forall|k: int|
                    kcur <= k < pairs0.len() implies exists|j: int|
                    0 <= j < updates@.len() && (#[trigger] updates@[j as int])@.index_id == (
                    #[trigger] pairs0[k]).0@.id && updates@[j as int]@.key.values
                        == pairs0[k].1@.values && updates@[j as int]@.value == value by {
                    if k == kcur {
                        let j = choose|j: int|
                            0 <= j < updates@.len() && (#[trigger] updates@[j])@ == uu;
                        assert(updates@[j]@.index_id == pairs0[k].0@.id);
                    } else {
                        let j = choose|j: int|
                            0 <= j < prevu.len() && (#[trigger] prevu[j as int])@.index_id == (
                            pairs0[k]).0@.id && prevu[j as int]@.key.values
                                == pairs0[k].1@.values && prevu[j as int]@.value == value;
                        if same_update_pair(prevu[j]@, uu) {
                            let j2 = choose|j2: int|
                                0 <= j2 < updates@.len() && (#[trigger] updates@[j2])@ == uu;
                            assert(updates@[j2]@.index_id == pairs0[k].0@.id);
                            assert(updates@[j2]@.key.values == pairs0[k].1@.values);
                        } else {
                            assert(updates@[j] == prevu[j]);
                        }
                    }
                }
            }
        }
        proof {
            assert forall|id: IndexId, key: Seq<Option<FieldValueV>>, sys: bool| #[trigger]
                doc_yields(self@, document@, id, key, sys) implies exists|j: int|
                0 <= j < updates@.len() && (#[trigger] updates@[j as int])@.index_id == id
                    && updates@[j as int]@.key.values == key && updates@[j as int]@.value
                    == value by {
                if exists|n: NameV| #[trigger]
                    self@.enabled.contains_key(n) && index_yields(self@.enabled[n], document@, id, key)
                        && sys == is_reserved_descriptor(n.descriptor) {
                    let n = choose|n: NameV| #[trigger]
                        self@.enabled.contains_key(n) && index_yields(
                            self@.enabled[n],
                            document@,
                            id,
                            key,
                        ) && sys == is_reserved_descriptor(n.descriptor);
                    let k = choose|k: int|
                        0 <= k < pairs0.len() && (#[trigger] pairs0[k as int]).0@ == self@.enabled[
                            n
                        ];
                    assert(pairs0[k].1@.values == key);
                } else {
                    let n = choose|n: NameV| #[trigger]
                        self@.pending.contains_key(n) && index_yields(
                            self@.pending[n],
                            document@,
                            id,
                            key,
                        ) && sys == is_reserved_descriptor(n.descriptor);
                    let k = choose|k: int|
                        0 <= k < pairs0.len() && (#[trigger] pairs0[k as int]).0@ == self@.pending[
                            n
                        ];
                    assert(pairs0[k].1@.values == key);
                }
            }
        }
    }

    /// The deduplicated index-entry updates of one document write: a retract
    /// for every key of the old version, an insert for every key of the new
    /// one — except that when the same (index, key) pair appears on both
    /// sides, the insertion side wins, since entries are keyed for overwrite.
    pub fn index_updates(
        &self,
        deletion: Option<&ResolvedDocument>,
        insertion: Option<&ResolvedDocument>,
    ) -> (r: Vec<DatabaseIndexUpdate>)
        requires
            self.wf(),
        ensures
            forall|j: int|
                0 <= j < r@.len() ==> {
                    let u = (#[trigger] r@[j])@;
                    &&& u.key.persistence_version == self@.persistence_version
                    &&& (opt_doc_yields(
                        self@,
                        opt_doc_view(deletion),
                        u.index_id,
                        u.key.values,
                        u.is_system_index,
                    ) || opt_doc_yields(
                        self@,
                        opt_doc_view(insertion),
                        u.index_id,
                        u.key.values,
                        u.is_system_index,
                    ))
                    &&& u.value == (if opt_doc_yields_any(
                        self@,
                        opt_doc_view(insertion),
                        u.index_id,
                        u.key.values,
                    ) {
                        DatabaseIndexValue::NonClustered(opt_doc_view(insertion)->Some_0.id)
                    } else {
                        DatabaseIndexValue::Deleted
                    })
                },
            forall|id: IndexId, key: Seq<Option<FieldValueV>>, sys: bool| #[trigger]
                opt_doc_yields(self@, opt_doc_view(deletion), id, key, sys) ==> exists|j: int|
                    0 <= j < r@.len() && (#[trigger] r@[j as int])@.index_id == id
                        && r@[j as int]@.key.values == key,
            forall|id: IndexId, key: Seq<Option<FieldValueV>>, sys: bool| #[trigger]
                opt_doc_yields(self@, opt_doc_view(insertion), id, key, sys) ==> exists|j: int|
                    0 <= j < r@.len() && (#[trigger] r@[j as int])@.index_id == id
                        && r@[j as int]@.key.values == key,
            forall|j1: int, j2: int|
                0 <= j1 < j2 < r@.len() ==> !same_update_pair(
                    (#[trigger] r@[j1])@,
                    (#[trigger] r@[j2])@,
                ),
    {
        let mut updates: Vec<DatabaseIndexUpdate> = Vec::new();
        if let Some(old_document) = deletion {
            self.apply_update_side(&mut updates, old_document, DatabaseIndexValue::Deleted);
        }
        let ghost mid = updates@;
        proof {
            assert forall|j: int|
                0 <= j < mid.len() implies doc_yields_of_opt_sound(
                self@,
                opt_doc_view(deletion),
                mid[j]@,
            ) && mid[j]@.value == DatabaseIndexValue::Deleted && mid[j]@.key.persistence_version
                == self@.persistence_version by {}
        }
        if let Some(new_document) = insertion {
            self.apply_update_side(
                &mut updates,
                new_document,
                DatabaseIndexValue::NonClustered(new_document.id),
            );
        }
        proof {
            let dd = opt_doc_view(deletion);
            let ii = opt_doc_view(insertion);
            assert forall|id: IndexId, key: Seq<Option<FieldValueV>>, sys: bool| #[trigger]
                opt_doc_yields(self@, dd, id, key, sys) implies exists|j: int|
                0 <= j < updates@.len() && (#[trigger] updates@[j as int])@.index_id == id
                    && updates@[j as int]@.key.values == key by {
                let j = choose|j: int|
                    0 <= j < mid.len() && (#[trigger] mid[j as int])@.index_id == id
                        && mid[j as int]@.key.values == key && mid[j as int]@.value
                        == DatabaseIndexValue::Deleted;
                assert(same_update_pair(updates@[j as int]@, mid[j as int]@));
                assert(updates@[j as int]@.index_id == id);
                assert(updates@[j as int]@.key.values == key);
            }
            assert forall|j: int| 0 <= j < updates@.len() implies {
                let u = (#[trigger] updates@[j])@;
                &&& u.key.persistence_version == self@.persistence_version
                &&& (opt_doc_yields(self@, dd, u.index_id, u.key.values, u.is_system_index)
                    || opt_doc_yields(self@, ii, u.index_id, u.key.values, u.is_system_index))
                &&& u.value == (if opt_doc_yields_any(self@, ii, u.index_id, u.key.values) {
                    DatabaseIndexValue::NonClustered(ii->Some_0.id)
                } else {
                    DatabaseIndexValue::Deleted
                })
            } by {
                let u = updates@[j]@;
                if opt_doc_yields_any(self@, ii, u.index_id, u.key.values) {
                    let sys = if opt_doc_yields(self@, ii, u.index_id, u.key.values, true) {
                        true
                    } else {
                        false
                    };
                    assert(opt_doc_yields(self@, ii, u.index_id, u.key.values, sys));
                    let j2 = choose|j2: int|
                        0 <= j2 < updates@.len() && (#[trigger] updates@[j2 as int])@.index_id
                            == u.index_id && updates@[j2 as int]@.key.values == u.key.values
                            && updates@[j2 as int]@.value == DatabaseIndexValue::NonClustered(
                            ii->Some_0.id,
                        );
                    assert(same_update_pair(updates@[j2]@, u));
                    if j2 != j {
                        assert(false);
                    }
                } else {
                }
            }
        }
        updates
    }
}

/// Soundness of one update against one optional document side.
pub open spec fn doc_yields_of_opt_sound(
    v: RegistryV,
    d: Option<DocV>,
    u: DatabaseIndexUpdateV,
) -> bool {
    opt_doc_yields(v, d, u.index_id, u.key.values, u.is_system_index)
}

} // verus!
