//! Errors of the collaboration core.

use vstd::prelude::*;

verus! {

/// Why a collaboration group could not be created.
#[derive(Debug, PartialEq, Eq)]
pub enum CreateGroupFailedReason {
    /// The object belongs to another workspace than the one named.
    CollabWorkspaceIdNotMatch { expect: String, actual: String },
    StorageUnavailable,
    Unauthorized,
}

#[derive(Debug, PartialEq, Eq)]
pub enum RealtimeError {
    CreateGroupFailed(CreateGroupFailedReason),
    /// A message arrived for a user with no connection.
    NotConnected,
    /// The bounded command channel of a group refused a command.
    ChannelFull,
    /// The command named a group that does not exist.
    GroupNotFound,
    /// Reading or claiming from the durable control stream failed.
    DurableStreamFailure,
    /// Normal termination.
    Shutdown,
}

impl RealtimeError {
    /// Whether this error is the silent workspace mismatch, which callers do
    /// not report.
    pub fn is_workspace_mismatch(&self) -> (r: bool)
        ensures
            r == (self matches RealtimeError::CreateGroupFailed(
                CreateGroupFailedReason::CollabWorkspaceIdNotMatch { .. },
            )),
    {
        match self {
            RealtimeError::CreateGroupFailed(CreateGroupFailedReason::CollabWorkspaceIdNotMatch {
                ..
            }) => true,
            _ => false,
        }
    }
}

} // verus!
