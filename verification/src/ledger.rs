//! Chain identity and processed-version cursor decisions.
//!
//! The chain-identity table may only ever hold one row; before indexing,
//! the identity reported by the transaction stream is held against it.
//! The cursor decides where a run resumes.

use vstd::prelude::*;

use crate::errors::PipelineError;

verus! {

/// Database representation of the chain identity; at most one row exists.
#[derive(Clone, Copy, Debug, PartialEq, Eq, Structural)]
pub struct LedgerInfo {
    pub chain_id: i64,
}

impl LedgerInfo {
    /// How many columns the chain identity row occupies.
    pub fn field_count() -> (n: usize)
        ensures
            n == 1,
    {
        1
    }
}

/// What the chain-identity guard decides.
#[derive(Clone, Copy, Debug, PartialEq, Eq, Structural)]
pub enum ChainIdOutcome {
    /// The stored identity matches; indexing continues under it.
    Continue(u64),
    /// No identity is stored yet; this one must be seeded, then indexing
    /// continues under it.
    Seed(u64),
}

/// Holds the chain identity from the transaction stream against the stored
/// one: a match continues, an empty table seeds, a mismatch is fatal.
pub fn check_or_update_chain_id(existing_chain_id: Option<i64>, grpc_chain_id: i64) -> (r: Result<
    ChainIdOutcome,
    PipelineError,
>)
    requires
        grpc_chain_id >= 0,
        existing_chain_id matches Some(id) ==> id >= 0,
    ensures
        match existing_chain_id {
            Some(id) => if id == grpc_chain_id {
                r == Ok::<ChainIdOutcome, PipelineError>(ChainIdOutcome::Continue(id as u64))
            } else {
                r == Err::<ChainIdOutcome, PipelineError>(PipelineError::ChainIdMismatch)
            },
            None => r == Ok::<ChainIdOutcome, PipelineError>(
                ChainIdOutcome::Seed(grpc_chain_id as u64),
            ),
        },
{
    match existing_chain_id {
        Some(id) => {
            if id == grpc_chain_id {
                Ok(ChainIdOutcome::Continue(id as u64))
            } else {
                Err(PipelineError::ChainIdMismatch)
            }
        },
        None => Ok(ChainIdOutcome::Seed(grpc_chain_id as u64)),
    }
}

/// Where a run resumes: the greater of the configured starting version and
/// the version after the last fully processed one.  With neither, the run
/// starts from zero.
pub fn get_starting_version(
    starting_version_from_config: Option<u64>,
    last_success_version: Option<u64>,
) -> (r: u64)
    requires
        last_success_version matches Some(v) ==> v < u64::MAX,
    ensures
        ({
            let a: int = match starting_version_from_config {
                Some(v) => v as int,
                None => 0,
            };
            let b: int = match last_success_version {
                Some(v) => v + 1,
                None => 0,
            };
            r == if a >= b {
                a
            } else {
                b
            }
        }),
{
    let a: u64 = match starting_version_from_config {
        Some(v) => v,
        None => 0,
    };
    let b: u64 = match last_success_version {
        Some(v) => v + 1,
        None => 0,
    };
    if a >= b {
        a
    } else {
        b
    }
}

} // verus!
