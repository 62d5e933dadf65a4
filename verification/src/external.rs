use vstd::prelude::*;

use crate::metadata::{Index, IndexV};
use crate::types::{NameV, TabletId, TabletIndexName};

verus! {

// The registry keeps its two name-to-index mappings and its secondary
// (table, descriptor) set in imbl's persistent ordered containers, so that a
// snapshot of the whole registry is a cheap structural-sharing copy. The
// containers are keyed by plain `(u64, String)` pairs, whose ordering and
// equality std documents; the contracts below speak of their contents through
// the two model functions.

/// A persistent mapping from index name to index, backed by imbl's
/// `OrdMap`.
#[verifier::external_body]
pub struct IndexMap {
    inner: imbl::OrdMap<NameKey, Index>,
}

/// A persistent ordered set of (table, descriptor) pairs, backed by imbl's
/// `OrdSet`.
#[verifier::external_body]
pub struct TableSet {
    inner: imbl::OrdSet<NameKey>,
}

/// The key form of a name in the ordered containers: a plain pair whose
/// ordering and equality std documents.
pub type NameKey = (TabletId, String);

/// The name a `(table, descriptor)` key stands for.
pub open spec fn name_of_pair(p: NameKey) -> NameV {
    NameV { table: p.0, descriptor: p.1@ }
}

/// What a name-to-index mapping holds, keyed by the name each key pair
/// stands for.
pub uninterp spec fn index_map_model(m: IndexMap) -> Map<NameV, IndexV>;

/// What a secondary (table, descriptor) set holds.
pub uninterp spec fn table_set_model(s: TableSet) -> Set<NameV>;

/// Relies on imbl's `OrdMap::new`: the new map is empty.
#[verifier::external_body]
pub fn index_map_new() -> (m: IndexMap)
    ensures
        index_map_model(m) =~= Map::empty(),
{
    IndexMap { inner: imbl::OrdMap::new() }
}

/// Relies on imbl's `OrdMap::insert`: it maps the key to the new value,
/// keeps every other entry, and returns the value the key held before.
#[verifier::external_body]
pub fn index_map_insert(
    m: &mut IndexMap,
    name: &TabletIndexName,
    index: Index,
) -> (prev: Option<Index>)
    ensures
        index_map_model(*final(m)) == index_map_model(*old(m)).insert(name@, index@),
        match prev {
            Some(p) => index_map_model(*old(m)).contains_key(name@) && p@ == index_map_model(
                *old(m),
            )[name@],
            None => !index_map_model(*old(m)).contains_key(name@),
        },
{
    m.inner.insert((name.table, name.descriptor.clone()), index)
}

/// Relies on imbl's `OrdMap::get`: it returns the value at the key, or
/// nothing when the map has no such key.
#[verifier::external_body]
pub fn index_map_get<'a>(
    m: &'a IndexMap,
    name: &TabletIndexName,
) -> (r: Option<&'a Index>)
    ensures
        match r {
            Some(i) => index_map_model(*m).contains_key(name@) && i@ == index_map_model(*m)[name@],
            None => !index_map_model(*m).contains_key(name@),
        },
{
    m.inner.get(&(name.table, name.descriptor.clone()))
}

/// Relies on imbl's `OrdMap::contains_key`.
#[verifier::external_body]
pub fn index_map_contains(
    m: &IndexMap,
    name: &TabletIndexName,
) -> (r: bool)
    ensures
        r == index_map_model(*m).contains_key(name@),
{
    m.inner.contains_key(&(name.table, name.descriptor.clone()))
}

/// Relies on imbl's `OrdMap::remove`: it removes the entry at the key,
/// keeps every other entry, and returns the removed value.
#[verifier::external_body]
pub fn index_map_remove(
    m: &mut IndexMap,
    name: &TabletIndexName,
) -> (r: Option<Index>)
    ensures
        index_map_model(*final(m)) == index_map_model(*old(m)).remove(name@),
        match r {
            Some(i) => index_map_model(*old(m)).contains_key(name@) && i@ == index_map_model(
                *old(m),
            )[name@],
            None => !index_map_model(*old(m)).contains_key(name@),
        },
{
    m.inner.remove(&(name.table, name.descriptor.clone()))
}

/// Relies on imbl's `OrdMap::iter`: it visits every entry exactly once.
#[verifier::external_body]
pub fn index_map_entries(m: &IndexMap) -> (r: Vec<(NameKey, Index)>)
    ensures
        forall|i: int|
            0 <= i < r@.len() ==> #[trigger] index_map_model(*m).contains_key(
                name_of_pair(r@[i].0),
            ) && index_map_model(*m)[name_of_pair(r@[i].0)] == r@[i].1@,
        forall|i: int, j: int|
            0 <= i < j < r@.len() ==> name_of_pair(#[trigger] r@[i].0) != name_of_pair(
                #[trigger] r@[j].0,
            ),
        forall|n: NameV|
            index_map_model(*m).contains_key(n) ==> exists|i: int|
                0 <= i < r@.len() && name_of_pair(#[trigger] r@[i].0) == n,
{
    m.inner.iter().map(|(k, v)| (k.clone(), v.clone())).collect()
}

/// Relies on imbl's `OrdMap::clone`: the copy holds the same entries, by
/// structural sharing.
#[verifier::external_body]
pub fn index_map_clone(m: &IndexMap) -> (r: IndexMap)
    ensures
        index_map_model(r) == index_map_model(*m),
{
    IndexMap { inner: m.inner.clone() }
}

/// Relies on imbl's `OrdSet::new`: the new set is empty.
#[verifier::external_body]
pub fn table_set_new() -> (s: TableSet)
    ensures
        table_set_model(s) =~= Set::empty(),
{
    TableSet { inner: imbl::OrdSet::new() }
}

/// Relies on imbl's `OrdSet::insert`: it adds the element and keeps every
/// other element; inserting a present element leaves the set as it is.
#[verifier::external_body]
pub fn table_set_insert(s: &mut TableSet, name: &TabletIndexName)
    ensures
        table_set_model(*final(s)) == table_set_model(*old(s)).insert(name@),
{
    let _ = s.inner.insert((name.table, name.descriptor.clone()));
}

/// Relies on imbl's `OrdSet::contains`.
#[verifier::external_body]
pub fn table_set_contains(
    s: &TableSet,
    table: TabletId,
    descriptor: &String,
) -> (r: bool)
    ensures
        r == table_set_model(*s).contains(NameV { table, descriptor: descriptor@ }),
{
    s.inner.contains(&(table, descriptor.clone()))
}

/// Relies on imbl's `OrdSet::remove`: it removes the element, keeps every
/// other element, and reports whether the element was present.
#[verifier::external_body]
pub fn table_set_remove(
    s: &mut TableSet,
    table: TabletId,
    descriptor: &String,
) -> (r: bool)
    ensures
        table_set_model(*final(s)) == table_set_model(*old(s)).remove(
            NameV { table, descriptor: descriptor@ },
        ),
        r == table_set_model(*old(s)).contains(NameV { table, descriptor: descriptor@ }),
{
    match s.inner.remove(&(table, descriptor.clone())) {
        Some(_) => true,
        None => false,
    }
}

/// Relies on imbl's `OrdSet::iter`: it visits every element exactly once.
#[verifier::external_body]
pub fn table_set_entries(s: &TableSet) -> (r: Vec<NameKey>)
    ensures
        forall|i: int|
            0 <= i < r@.len() ==> table_set_model(*s).contains(name_of_pair(#[trigger] r@[i])),
        forall|i: int, j: int|
            0 <= i < j < r@.len() ==> name_of_pair(#[trigger] r@[i]) != name_of_pair(
                #[trigger] r@[j],
            ),
        forall|n: NameV|
            table_set_model(*s).contains(n) ==> exists|i: int|
                0 <= i < r@.len() && name_of_pair(#[trigger] r@[i]) == n,
{
    s.inner.iter().cloned().collect()
}

/// Relies on imbl's `OrdSet::clone`: the copy holds the same elements, by
/// structural sharing.
#[verifier::external_body]
pub fn table_set_clone(s: &TableSet) -> (r: TableSet)
    ensures
        table_set_model(r) == table_set_model(*s),
{
    TableSet { inner: s.inner.clone() }
}

/// A sequence whose consecutive equal elements are collapsed, keeping one of
/// each run.
pub open spec fn dedup_spec(s: Seq<u64>) -> Seq<u64>
    decreases s.len(),
{
    if s.len() == 0 {
        Seq::empty()
    } else if s.len() == 1 {
        s
    } else if s[0] == s[1] {
        dedup_spec(s.drop_first())
    } else {
        seq![s[0]] + dedup_spec(s.drop_first())
    }
}

/// Relies on itertools' `Itertools::sorted`: it returns the same elements in
/// non-decreasing order.
#[verifier::external_body]
pub fn sorted_u64s(v: Vec<u64>) -> (r: Vec<u64>)
    ensures
        r@.to_multiset() == v@.to_multiset(),
        forall|i: int, j: int| 0 <= i < j < r@.len() ==> r@[i] <= r@[j],
{
    itertools::Itertools::sorted(v.into_iter()).collect()
}

/// Relies on itertools' `Itertools::dedup`: it removes consecutive repeated
/// elements.
#[verifier::external_body]
pub fn dedup_u64s(v: Vec<u64>) -> (r: Vec<u64>)
    ensures
        r@ == dedup_spec(v@),
{
    itertools::Itertools::dedup(v.into_iter()).collect()
}

} // verus!
