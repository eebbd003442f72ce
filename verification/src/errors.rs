//! Failure kinds shared by the whole crate.

use vstd::prelude::*;

verus! {

/// Errors raised while building handlers, planning transitions, executing
/// transactional blocks, or decoding recorded sessions.
#[derive(Debug, Clone, PartialEq, Eq)]
pub enum ConnectError {
    /// The target state cannot be reached from the current state.
    UnreachableState(String),
    /// An exit edge points at a state that is not declared.
    TargetStateNotExistError,
    /// The channel closed while waiting for a prompt.
    ChannelDisconnectError,
    /// The connection has already been closed.
    ConnectClosedError,
    /// The named state has no exit edge.
    NoExitCommandError(String),
    /// Command execution timed out; carries the partial output.
    ExecTimeout(String),
    /// The initial handshake timed out; carries the partial output.
    InitTimeout(String),
    /// Handler construction was given an invalid pattern set.
    InvalidDeviceHandlerConfig(String),
    /// A transaction block or workflow broke a validation rule.
    InvalidTransaction(String),
    /// No built-in template has the given name.
    TemplateNotFound(String),
    /// The replayer found no recorded output for a command.
    ReplayMismatchError(String),
    /// An unexpected internal condition.
    InternalServerError(String),
    /// Sending data to the channel failed; carries a description.
    SendDataError(String),
}

} // verus!
