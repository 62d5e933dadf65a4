use vstd::prelude::*;

use crate::document::{parsed_metadata, DocV};
use crate::metadata::{config_is_enabled, IndexConfigV, IndexMetadataV, IndexV};
use crate::registry::{apply_v, first_meta, fold_metas, ids_set, index_of_metadata, insert_v,
    regular_metas,
    insertion_precondition, registered, registered_id_at, remove_ok, remove_v,
    removal_precondition, verify_error, wf_v, RegistryV};
use crate::types::{by_id_descriptor, by_id_name, NameV};

verus! {

/// The registry holds this index as its entry at this name.
pub open spec fn entry_at(v: RegistryV, n: NameV, i: IndexV) -> bool {
    (v.enabled.contains_key(n) && v.enabled[n] == i) || (v.pending.contains_key(n) && v.pending[n]
        == i)
}

/// An index is one of the registry's entries, under some name.
pub open spec fn index_in_registry(v: RegistryV, i: IndexV) -> bool {
    exists|n: NameV| #[trigger] entry_at(v, n, i)
}

/// No name carries two enabled indexes, nor two pending indexes: any two
/// registry entries that agree on their name and on their enabled state are
/// one and the same index.
pub proof fn lemma_at_most_one_index_per_name_and_state(v: RegistryV, i1: IndexV, i2: IndexV)
    requires
        wf_v(v),
        index_in_registry(v, i1),
        index_in_registry(v, i2),
        i1.metadata.name == i2.metadata.name,
        config_is_enabled(i1.metadata.config) == config_is_enabled(i2.metadata.config),
    ensures
        i1 == i2,
{
    let n1 = choose|n: NameV| #[trigger] entry_at(v, n, i1);
    let n2 = choose|n: NameV| #[trigger] entry_at(v, n, i2);
    assert(entry_at(v, n1, i1));
    assert(entry_at(v, n2, i2));
    if v.enabled.contains_key(n1) && v.enabled[n1] == i1 {
        assert(crate::registry::entry_ok(n1, v.enabled[n1], true));
    } else {
        assert(v.pending.contains_key(n1) && v.pending[n1] == i1);
        assert(crate::registry::entry_ok(n1, v.pending[n1], false));
    }
    if v.enabled.contains_key(n2) && v.enabled[n2] == i2 {
        assert(crate::registry::entry_ok(n2, v.enabled[n2], true));
    } else {
        assert(v.pending.contains_key(n2) && v.pending[n2] == i2);
        assert(crate::registry::entry_ok(n2, v.pending[n2], false));
    }
    assert(n1 == i1.metadata.name);
    assert(n2 == i2.metadata.name);
}

/// Every table that has a registered index at all has an enabled `by_id`
/// index of database kind. Bootstrap trusts its input rather than re-deriving
/// this, and the verifier alone does not force it, so it is a property of
/// well-covered states, preserved by updates of the right shape.
pub open spec fn tables_covered(v: RegistryV) -> bool {
    forall|n: NameV| #[trigger]
        registered(v, n) ==> v.enabled.contains_key(by_id_name(n.table))
            && v.enabled[by_id_name(n.table)].metadata.config is Database
}

/// A verified update keeps every table covered, provided it neither deletes a
/// `by_id` definition nor declares a table's first index under another name.
/// Those two shapes are left out: deleting `by_id` while a sibling index of
/// its table remains, or inserting a non-`by_id` index on a table that has no
/// enabled `by_id` yet, each passes verification and breaks coverage.
pub proof fn lemma_update_preserves_table_coverage(
    v: RegistryV,
    del: Option<DocV>,
    ins: Option<DocV>,
)
    requires
        wf_v(v),
        tables_covered(v),
        verify_error(v, del, ins) is None,
        removal_precondition(v, del),
        insertion_precondition(v, ins),
        match del {
            Some(d) => d.id.tablet_id == v.index_table
                ==> parsed_metadata(d)->Some_0.name.descriptor != by_id_descriptor(),
            None => true,
        },
        match ins {
            Some(d) => d.id.tablet_id == v.index_table ==> {
                let m = parsed_metadata(d)->Some_0;
                m.name.descriptor == by_id_descriptor() || v.enabled.contains_key(
                    by_id_name(m.name.table),
                )
            },
            None => true,
        },
    ensures
        tables_covered(apply_v(v, del, ins)),
{
    let v1 = match del {
        Some(d) => if d.id.tablet_id == v.index_table {
            remove_v(v, parsed_metadata(d)->Some_0)
        } else {
            v
        },
        None => v,
    };
    assert(tables_covered(v1)) by {
        if del is Some && del->Some_0.id.tablet_id == v.index_table {
            let m = parsed_metadata(del->Some_0)->Some_0;
            assert forall|n: NameV| #[trigger] registered(v1, n) implies v1.enabled.contains_key(
                by_id_name(n.table),
            ) && v1.enabled[by_id_name(n.table)].metadata.config is Database by {
                assert(registered(v, n));
                assert(by_id_name(n.table) != m.name);
            }
        }
    }
    let v2 = apply_v(v, del, ins);
    if ins is Some && ins->Some_0.id.tablet_id == v.index_table {
        let m = parsed_metadata(ins->Some_0)->Some_0;
        let idx = crate::registry::index_of_metadata(m);
        assert(v2 == insert_v(v1, idx));
        assert(crate::registry::insertion_error(v, ins->Some_0) is None);
        assert forall|n: NameV| #[trigger] registered(v2, n) implies v2.enabled.contains_key(
            by_id_name(n.table),
        ) && v2.enabled[by_id_name(n.table)].metadata.config is Database by {
            let b = by_id_name(n.table);
            if b == m.name {
                // The insert itself (re)defines that table's `by_id` index,
                // and the verifier only accepts an enabled database `by_id`
                // definition on the index table.
                assert(m.name.descriptor == by_id_descriptor());
                assert(m.config is Database);
                assert(config_is_enabled(m.config));
                assert(v2.enabled.contains_key(b));
                assert(v2.enabled[b] == idx);
            } else {
                // The cover of that table in the pre-insert state is not the
                // inserted name, so the insert leaves it in place.
                if n == m.name {
                    assert(m.name.descriptor != by_id_descriptor());
                    assert(v.enabled.contains_key(b));
                    assert(registered(v, b));
                    assert(v.enabled[b].metadata.config is Database);
                    if del is Some && del->Some_0.id.tablet_id == v.index_table {
                        let dm = parsed_metadata(del->Some_0)->Some_0;
                        assert(dm.name != b);
                    }
                    assert(v1.enabled.contains_key(b) && v1.enabled[b] == v.enabled[b]);
                } else {
                    assert(registered(v1, n));
                    assert(v1.enabled.contains_key(b));
                    assert(v1.enabled[b].metadata.config is Database);
                }
                assert(v2.enabled.contains_key(b) && v2.enabled[b] == v1.enabled[b]);
            }
        }
    } else {
        assert(v2 == v1);
    }
}

/// Applying the identity update — removing and re-inserting the same
/// document — leaves the set of registered index ids as it was, so the
/// updated registry still describes the same indexes.
pub proof fn lemma_identity_update_preserves_ids(v: RegistryV, d: DocV)
    requires
        wf_v(v),
        removal_precondition(v, Some(d)),
        insertion_precondition(v, Some(d)),
    ensures
        ids_set(apply_v(v, Some(d), Some(d))) == ids_set(v),
{
    let v2 = apply_v(v, Some(d), Some(d));
    if d.id.tablet_id == v.index_table {
        let m = parsed_metadata(d)->Some_0;
        let v1 = remove_v(v, m);
        assert(remove_ok(v, m));
        assert forall|id: u64| ids_set(v2).contains(id) <==> ids_set(v).contains(id) by {
            if ids_set(v2).contains(id) {
                let n = choose|n: NameV| #[trigger] registered_id_at(v2, n, id);
                if n == m.name {
                    assert(registered_id_at(v, n, id));
                } else {
                    assert(registered_id_at(v, n, id));
                }
            }
            if ids_set(v).contains(id) {
                let n = choose|n: NameV| #[trigger] registered_id_at(v, n, id);
                if n == m.name {
                    if config_is_enabled(m.config) {
                        if v.enabled.contains_key(n) && v.enabled[n].id == id {
                            assert(v2.enabled.contains_key(n) && v2.enabled[n].id
                                == m.document_id.internal_id);
                            assert(id == m.document_id.internal_id);
                            assert(registered_id_at(v2, n, id));
                        } else {
                            assert(v2.pending.contains_key(n) && v2.pending[n] == v.pending[n]);
                            assert(registered_id_at(v2, n, id));
                        }
                    } else {
                        if v.pending.contains_key(n) && v.pending[n].id == id {
                            assert(v2.pending.contains_key(n) && v2.pending[n].id
                                == m.document_id.internal_id);
                            assert(id == m.document_id.internal_id);
                            assert(registered_id_at(v2, n, id));
                        } else {
                            assert(v2.enabled.contains_key(n) && v2.enabled[n] == v.enabled[n]);
                            assert(registered_id_at(v2, n, id));
                        }
                    }
                } else {
                    assert(registered_id_at(v2, n, id));
                }
            }
        }
        assert(ids_set(v2) =~= ids_set(v));
    } else {
        assert(v2 == v);
    }
}

/// One definition of a sequence names `n` with the given enabled state.
pub open spec fn def_at(ms: Seq<IndexMetadataV>, k: int, n: NameV, enabled: bool) -> bool {
    0 <= k < ms.len() && ms[k].name == n && config_is_enabled(ms[k].config) == enabled
}

/// What folding a sequence of definitions through the insert primitive puts
/// into the enabled mapping: a name is there when it was there before or some
/// definition declares it enabled, and its entry is the original one or one
/// of those definitions.
pub proof fn lemma_fold_enabled_entries(v: RegistryV, ms: Seq<IndexMetadataV>, n: NameV)
    ensures
        fold_metas(v, ms).enabled.contains_key(n) <==> (v.enabled.contains_key(n) || exists|k: int|
            #[trigger] def_at(ms, k, n, true)),
        fold_metas(v, ms).enabled.contains_key(n) ==> ((v.enabled.contains_key(n) && fold_metas(
            v,
            ms,
        ).enabled[n] == v.enabled[n] && !(exists|k: int| #[trigger] def_at(ms, k, n, true))) || (
        exists|k: int| #[trigger]
            def_at(ms, k, n, true) && fold_metas(v, ms).enabled[n] == index_of_metadata(ms[k]))),
        fold_metas(v, ms).pending.contains_key(n) <==> (v.pending.contains_key(n) || exists|k: int|
            #[trigger] def_at(ms, k, n, false)),
    decreases ms.len(),
{
    if ms.len() == 0 {
    } else {
        let m0 = ms[0];
        let v1 = insert_v(v, crate::registry::index_of_metadata(m0));
        let t = ms.drop_first();
        assert(fold_metas(v, ms) == fold_metas(v1, t));
        lemma_fold_enabled_entries(v1, t, n);
        assert forall|k: int| #[trigger] def_at(t, k, n, true) implies def_at(
            ms,
            k + 1,
            n,
            true,
        ) by {
            assert(t[k] == ms[k + 1]);
        }
        assert forall|k: int| #[trigger] def_at(t, k, n, false) implies def_at(
            ms,
            k + 1,
            n,
            false,
        ) by {
            assert(t[k] == ms[k + 1]);
        }
        assert forall|k: int| #[trigger] def_at(ms, k, n, true) && k >= 1 implies def_at(
            t,
            k - 1,
            n,
            true,
        ) by {
            assert(t[k - 1] == ms[k]);
        }
        assert forall|k: int| #[trigger] def_at(ms, k, n, false) && k >= 1 implies def_at(
            t,
            k - 1,
            n,
            false,
        ) by {
            assert(t[k - 1] == ms[k]);
        }
        if fold_metas(v, ms).enabled.contains_key(n) {
            if v1.enabled.contains_key(n) && fold_metas(v1, t).enabled[n] == v1.enabled[n] && !(
            exists|k: int| #[trigger] def_at(t, k, n, true)) {
                if m0.name == n && config_is_enabled(m0.config) {
                    assert(def_at(ms, 0, n, true));
                    assert(v1.enabled[n] == index_of_metadata(m0));
                } else {
                    assert(v1.enabled[n] == v.enabled[n]);
                    assert forall|k: int| !(#[trigger] def_at(ms, k, n, true)) by {
                        if def_at(ms, k, n, true) {
                            assert(k >= 1);
                            assert(def_at(t, k - 1, n, true));
                        }
                    }
                }
            } else {
                let k = choose|k: int| #[trigger]
                    def_at(t, k, n, true) && fold_metas(v1, t).enabled[n] == index_of_metadata(
                        t[k],
                    );
                assert(def_at(ms, k + 1, n, true));
                assert(ms[k + 1] == t[k]);
            }
        }
        if v.enabled.contains_key(n) || (exists|k: int| #[trigger] def_at(ms, k, n, true)) {
            if v.enabled.contains_key(n) {
                assert(v1.enabled.contains_key(n));
            } else {
                let k = choose|k: int| #[trigger] def_at(ms, k, n, true);
                if k == 0 {
                    assert(v1.enabled.contains_key(n));
                } else {
                    assert(def_at(t, k - 1, n, true));
                }
            }
        }
        if fold_metas(v, ms).pending.contains_key(n) {
            if v1.pending.contains_key(n) && !v.pending.contains_key(n) {
                assert(m0.name == n && !config_is_enabled(m0.config));
                assert(def_at(ms, 0, n, false));
            }
        }
        if v.pending.contains_key(n) || (exists|k: int| #[trigger] def_at(ms, k, n, false)) {
            if v.pending.contains_key(n) {
                assert(v1.pending.contains_key(n));
            } else {
                let k = choose|k: int| #[trigger] def_at(ms, k, n, false);
                if k == 0 {
                    assert(v1.pending.contains_key(n));
                } else {
                    assert(def_at(t, k - 1, n, false));
                }
            }
        }
    }
}

/// The definitions a bootstrap inserts, in insertion order: the index table's
/// own `by_id` definition first, then the regular ones in document order.
pub open spec fn bootstrap_defs(docs: Seq<DocV>, index_table: crate::types::TabletId) -> Seq<
    IndexMetadataV,
> {
    seq![first_meta(docs, index_table)] + regular_metas(docs, index_table)
}

/// One definition of a sequence declares the `by_id` index of table `t`.
pub open spec fn by_id_def_at(ms: Seq<IndexMetadataV>, k: int, t: crate::types::TabletId) -> bool {
    0 <= k < ms.len() && ms[k].name == by_id_name(t)
}

/// A bootstrap whose input is itself covered yields a covered registry: when
/// every inserted definition's table also gets a `by_id` definition, and
/// every `by_id` definition is an enabled database index, then every table
/// with a registered index in the bootstrapped registry has an enabled
/// database `by_id` index. Bootstrap trusts this of the scanned table rather
/// than re-deriving it.
pub proof fn lemma_bootstrap_covered(
    index_table: crate::types::TabletId,
    index_table_number: crate::types::TableNumber,
    persistence_version: crate::types::PersistenceVersion,
    docs: Seq<DocV>,
)
    requires
        forall|k: int|
            0 <= k < bootstrap_defs(docs, index_table).len() ==> exists|k2: int| #[trigger]
                by_id_def_at(
                    bootstrap_defs(docs, index_table),
                    k2,
                    (#[trigger] bootstrap_defs(docs, index_table)[k]).name.table,
                ),
        forall|k: int|
            0 <= k < bootstrap_defs(docs, index_table).len() && (#[trigger] bootstrap_defs(
                docs,
                index_table,
            )[k]).name.descriptor == by_id_descriptor() ==> bootstrap_defs(docs, index_table)[
                k
            ].config is Database && config_is_enabled(bootstrap_defs(docs, index_table)[k].config),
    ensures
        tables_covered(
            crate::registry::bootstrap_result(
                index_table,
                index_table_number,
                persistence_version,
                docs,
            ),
        ),
{
    let defs = bootstrap_defs(docs, index_table);
    let v0 = crate::registry::empty_registry_v(
        index_table,
        index_table_number,
        persistence_version,
    );
    let r = crate::registry::bootstrap_result(
        index_table,
        index_table_number,
        persistence_version,
        docs,
    );
    assert(defs[0] == first_meta(docs, index_table));
    assert(defs.drop_first() =~= regular_metas(docs, index_table));
    assert(fold_metas(v0, defs) == fold_metas(
        insert_v(v0, index_of_metadata(defs[0])),
        defs.drop_first(),
    ));
    assert(r == fold_metas(v0, defs));
    assert forall|n: NameV| #[trigger] registered(r, n) implies r.enabled.contains_key(
        by_id_name(n.table),
    ) && r.enabled[by_id_name(n.table)].metadata.config is Database by {
        lemma_fold_enabled_entries(v0, defs, n);
        let k = if r.enabled.contains_key(n) {
            choose|k: int| #[trigger] def_at(defs, k, n, true)
        } else {
            choose|k: int| #[trigger] def_at(defs, k, n, false)
        };
        assert(0 <= k < defs.len() && defs[k].name == n);
        let b = by_id_name(n.table);
        let k2 = choose|k2: int| #[trigger] by_id_def_at(defs, k2, defs[k].name.table);
        assert(defs[k2].name == b);
        assert(defs[k2].name.descriptor == by_id_descriptor());
        assert(defs[k2].config is Database && config_is_enabled(defs[k2].config));
        assert(def_at(defs, k2, b, true));
        lemma_fold_enabled_entries(v0, defs, b);
        assert(r.enabled.contains_key(b));
        let k3 = choose|k3: int| #[trigger]
            def_at(defs, k3, b, true) && r.enabled[b] == index_of_metadata(defs[k3]);
        assert(defs[k3].name.descriptor == by_id_descriptor());
        assert(defs[k3].config is Database);
    }
}

} // verus!
