//! What is sent to a remote node, and when a node's answer counts as success.

use vstd::prelude::*;

verus! {

/// A remote node: its name and the address that takes its tasks.
#[derive(Debug)]
pub struct Node {
    pub id: String,
    pub endpoint: String,
}

/// A task for a remote node: its name and a payload of JSON text.
#[derive(Debug)]
pub struct TaskMessage {
    pub task_id: String,
    pub payload: String,
}

/// Why a task did not reach a node.
#[derive(Debug, Clone, Copy, PartialEq, Eq, Structural)]
pub enum DispatchFailure {
    /// The node answered with a status outside the two hundreds.
    Status(u16),
}

/// Whether an answer with the given status is a success: it is one of the
/// two hundreds.
pub open spec fn is_success(status: u16) -> bool {
    200 <= status < 300
}

/// Judges the answer of a node by its status. Nothing is tried again after a
/// failure.
pub fn response_outcome(status: u16) -> (outcome: Result<(), DispatchFailure>)
    ensures
        outcome is Ok <==> is_success(status),
        outcome is Err ==> outcome->Err_0 == DispatchFailure::Status(status),
{
    if 200 <= status && status < 300 {
        Ok(())
    } else {
        Err(DispatchFailure::Status(status))
    }
}

} // verus!
