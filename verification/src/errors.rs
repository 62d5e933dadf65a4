use vstd::prelude::*;

use crate::types::{IndexName, IndexNameV};

verus! {

/// A validation failure of a proposed registry mutation. These abort only the
/// attempted mutation and leave the registry untouched.
#[derive(Clone, Copy, Debug, PartialEq, Eq, Structural)]
pub enum RegistryError {
    /// A replace pairs an old and a new document with different ids.
    DocumentIdMismatch,
    /// The document on the index table does not parse as an index definition.
    NotAnIndexDocument,
    /// A replace moves an index to a different table.
    ChangedIndexedTable,
    /// A replace renames a system-assigned (`by_id` / `by_creation_time`)
    /// index.
    RenamedReservedIndex,
    /// A replace changes the developer-visible configuration of an index.
    ChangedDeveloperConfig,
    /// A delete or replace names an index registered under neither state.
    UpdatingNonexistentIndex,
    /// A delete or replace touches a document of a table whose `by_id` entry
    /// is missing from the secondary table index.
    DocumentTableNotRegistered,
    /// An insert or replace writes to a table with no enabled `by_id` index.
    MissingByIdIndex,
    /// Only the `by_id` index may be declared on the index table itself.
    NonByIdOnIndexTable,
    /// A `by_id` index must be a database index.
    ByIdNotDatabase,
    /// A `by_id` index must be enabled.
    ByIdNotEnabled,
    /// A second enabled index is declared under a name that already has an
    /// enabled index with a different id.
    SecondEnabledIndex,
    /// A second pending index is declared under a name that already has a
    /// pending index with a different id.
    SecondPendingIndex,
}

/// A structural failure of a cold start. There is no partial bootstrap: any
/// of these aborts the whole bootstrap.
#[derive(Clone, Copy, Debug, PartialEq, Eq, Structural)]
pub enum BootstrapError {
    /// The table mapping does not know the system index table.
    IndexTableNotFound,
    /// A document handed to bootstrap does not live in the index table.
    DocumentNotInIndexTable,
    /// A document handed to bootstrap does not parse as an index definition.
    NotAnIndexDocument,
    /// The index table's own `by_id` definition is absent.
    MissingMetaIndex,
    /// The index table's own `by_id` definition appears twice.
    DuplicateMetaIndex,
}

/// The machine-readable kind of a user-facing index lookup failure. Both
/// kinds are client-correctable, not retryable-internal.
#[derive(Clone, Copy, Debug, PartialEq, Eq, Structural)]
pub enum IndexErrorKind {
    IndexBackfilling,
    IndexNotFound,
}

/// Ghost form of a user-facing index lookup failure.
pub ghost struct ErrorMetadataV {
    pub kind: IndexErrorKind,
    pub name: IndexNameV,
}

/// A structured, user-facing error signal: a stable machine-readable kind
/// plus the printable name of the index it concerns.
#[derive(Clone, Debug, PartialEq, Eq)]
pub struct ErrorMetadata {
    pub kind: IndexErrorKind,
    pub name: IndexName,
}

impl View for ErrorMetadata {
    type V = ErrorMetadataV;

    open spec fn view(&self) -> ErrorMetadataV {
        ErrorMetadataV { kind: self.kind, name: self.name@ }
    }
}

/// The failure reported when a queried index exists but is still
/// backfilling.
pub fn index_backfilling_error(name: &IndexName) -> (r: ErrorMetadata)
    ensures
        r@.kind == IndexErrorKind::IndexBackfilling,
        r@.name == name@,
{
    ErrorMetadata { kind: IndexErrorKind::IndexBackfilling, name: name.duplicate() }
}

/// The failure reported when a queried index does not exist at all.
pub fn index_not_found_error(name: &IndexName) -> (r: ErrorMetadata)
    ensures
        r@.kind == IndexErrorKind::IndexNotFound,
        r@.name == name@,
{
    ErrorMetadata { kind: IndexErrorKind::IndexNotFound, name: name.duplicate() }
}

} // verus!
