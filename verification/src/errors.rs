//! The fatal conditions of the pipeline.
//!
//! A classification miss is never an error: events and changes that do not
//! belong to the contract are silently dropped.  Everything here poisons the
//! batch that produced it, and the processed-version cursor must not advance
//! past such a batch.

use vstd::prelude::*;

verus! {

/// A condition that aborts the batch being processed.
#[derive(Clone, Copy, Debug, PartialEq, Eq, Structural)]
pub enum PipelineError {
    /// A payload on a recognized event classification could not be read.
    MalformedEventPayload,
    /// A timestamp field of a recognized event is not an in-range decimal.
    MalformedEventTimestamp,
    /// A package-registry resource write could not be read.
    MalformedRegistryPayload,
    /// A declared upgrade sequence number is not an in-range decimal.
    MalformedUpgradeNumber,
    /// A module bytecode write at the contract address carries no data.
    MissingModuleData,
    /// A module bytecode write at the contract address carries no ABI.
    MissingModuleAbi,
    /// A package registry declares a module with no matching bytecode write.
    MissingModuleBytecode,
    /// The stored chain identity differs from the one being indexed.
    ChainIdMismatch,
}

} // verus!
