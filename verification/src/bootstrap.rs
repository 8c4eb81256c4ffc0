//! Start-up: which indexes the scheduler needs, and what to do about each
//! once the downstream service has said whether it exists.

use vstd::prelude::*;
use crate::error::BootstrapError;

verus! {

/// An index that must exist before the scheduler starts.
#[derive(Clone, Debug, PartialEq, Eq)]
pub struct IndexSpec {
    pub name: String,
    pub primary_key: String,
}

/// What the downstream service answered when asked for an index.
#[derive(Clone, Debug, PartialEq, Eq)]
pub enum IndexLookup {
    /// There is no such index.
    Missing,
    /// The index exists, but asking for its primary key failed.
    KeyUnavailable,
    /// The index exists and has no primary key.
    Keyless,
    /// The index exists and has this primary key.
    Keyed(String),
}

/// What is left to do for an index.
#[derive(Clone, Copy, Debug, PartialEq, Eq, Structural)]
pub enum BootstrapStep {
    /// Nothing: the index is as expected.
    Ready,
    /// Create the index with the expected primary key and wait for the
    /// creation job to complete.
    Create,
}

/// The verdict on an index: a missing one is to be created; an existing
/// one must have exactly the expected primary key.
pub open spec fn index_verdict(lookup: IndexLookup, expected_primary_key: Seq<char>) -> Result<
    BootstrapStep,
    BootstrapError,
> {
    match lookup {
        IndexLookup::Missing => Ok(BootstrapStep::Create),
        IndexLookup::KeyUnavailable => Err(BootstrapError::PrimaryKeyUnavailable),
        IndexLookup::Keyless => Err(BootstrapError::PrimaryKeyMismatch),
        IndexLookup::Keyed(key) => if key@ == expected_primary_key {
            Ok(BootstrapStep::Ready)
        } else {
            Err(BootstrapError::PrimaryKeyMismatch)
        },
    }
}

/// Decides what to do about an index.  A primary key that differs from the
/// expected one is never repaired: it is reported.
pub fn ensure_index(lookup: &IndexLookup, expected_primary_key: &String) -> (r: Result<
    BootstrapStep,
    BootstrapError,
>)
    ensures
        r == index_verdict(*lookup, expected_primary_key@),
{
    match lookup {
        IndexLookup::Missing => Ok(BootstrapStep::Create),
        IndexLookup::KeyUnavailable => Err(BootstrapError::PrimaryKeyUnavailable),
        IndexLookup::Keyless => Err(BootstrapError::PrimaryKeyMismatch),
        IndexLookup::Keyed(key) => if *key == *expected_primary_key {
            Ok(BootstrapStep::Ready)
        } else {
            Err(BootstrapError::PrimaryKeyMismatch)
        },
    }
}

/// What a completed attempt to create an index means for start-up.
pub fn creation_result(created: bool) -> (r: Result<(), BootstrapError>)
    ensures
        r == if created {
            Ok::<(), BootstrapError>(())
        } else {
            Err::<(), BootstrapError>(BootstrapError::CreationFailed)
        },
{
    if created {
        Ok(())
    } else {
        Err(BootstrapError::CreationFailed)
    }
}

/// The indexes that must be ready before the scheduler starts: `metadatas`
/// and `name_service`, each with the primary key `id`.
pub fn required_indexes() -> (indexes: Vec<IndexSpec>)
    ensures
        indexes@.len() == 2,
        indexes@[0].name@ == "metadatas"@,
        indexes@[0].primary_key@ == "id"@,
        indexes@[1].name@ == "name_service"@,
        indexes@[1].primary_key@ == "id"@,
{
    let mut indexes: Vec<IndexSpec> = Vec::new();
    indexes.push(IndexSpec { name: "metadatas".to_owned(), primary_key: "id".to_owned() });
    indexes.push(IndexSpec { name: "name_service".to_owned(), primary_key: "id".to_owned() });
    indexes
}

} // verus!
