//! The plain shape of what the transaction stream hands the pipeline: per
//! transaction, the emitted events and the write-set changes, as the
//! extraction logic reads them.

use vstd::prelude::*;

verus! {

/// One event emitted by a transaction: its type tag and its payload text.
#[derive(Clone, Debug, PartialEq)]
pub struct RawEvent {
    pub type_str: String,
    pub data: String,
}

/// The ABI part of a module bytecode write that the pipeline reads: the
/// module name, and the whole ABI as JSON text to be stored alongside.
#[derive(Clone, Debug, PartialEq)]
pub struct RawModuleAbi {
    pub name: String,
    pub abi_json: String,
}

/// The data part of a module bytecode write.
#[derive(Clone, Debug, PartialEq)]
pub struct RawModuleBytecode {
    pub bytecode: Vec<u8>,
    pub abi: Option<RawModuleAbi>,
}

/// A module bytecode write; data and ABI may be absent in the raw payload,
/// which is fatal when the write sits at the contract address.
#[derive(Clone, Debug, PartialEq)]
pub struct RawModuleWrite {
    pub address: String,
    pub data: Option<RawModuleBytecode>,
}

/// A resource write: its owner address, declared type and payload text.
#[derive(Clone, Debug, PartialEq)]
pub struct RawResourceWrite {
    pub address: String,
    pub type_str: String,
    pub data: String,
}

/// One write-set change of a transaction.
#[derive(Clone, Debug, PartialEq)]
pub enum RawChange {
    ModuleWrite(RawModuleWrite),
    ResourceWrite(RawResourceWrite),
    /// Any other change kind; never read by this pipeline.
    Other,
}

/// One transaction of a batch.
#[derive(Clone, Debug, PartialEq)]
pub struct RawTransaction {
    pub version: i64,
    /// Whether the transaction committed; absent when the stream delivered
    /// no transaction info.
    pub info_success: Option<bool>,
    /// The emitted events; absent when the stream delivered no transaction
    /// data.
    pub events: Option<Vec<RawEvent>>,
    pub changes: Vec<RawChange>,
}

/// A transaction that contributes nothing: it failed, or the stream
/// delivered it without info or data.
pub open spec fn txn_skipped(t: RawTransaction) -> bool {
    t.info_success != Some(true) || t.events is None
}

} // verus!
