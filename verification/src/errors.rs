//! The error taxonomy of the searcher.
//!
//! Startup failures abort the process; a failed call against a node or
//! relay is recoverable at its call site and never unseats a sibling relay
//! or ladder rung; a task's abnormal end is reported through the join set,
//! never escalated on its own.

use vstd::prelude::*;

verus! {

/// Why a remote call against a node or relay failed.
#[derive(Clone, Copy, Debug, PartialEq, Eq, Structural)]
pub enum RpcError {
    /// The request never completed: the transport failed.
    Transport,
    /// The relay answered, refusing the request.
    RelayRejection,
    /// The relay's answer could not be decoded.
    ProtocolDecode,
}

/// What ended a component or the whole startup.
#[derive(Clone, Copy, Debug, PartialEq, Eq, Structural)]
pub enum EngineError {
    /// A collector's source could not be opened; fatal to that collector.
    SourceUnavailable,
    /// A strategy's one-time state load failed; aborts startup.
    StateSyncFailure,
    /// A remote call failed; recoverable at its call site.
    Rpc(RpcError),
    /// A spawned task ended abnormally; reported, not escalated.
    TaskFault,
}

} // verus!
