//! The input record a registry dispatches on.

use vstd::prelude::*;

use crate::command_node::AuthorityLevel;

verus! {

/// One incoming message: who sent it, its raw text, and the sender's
/// authority level (higher means more privileged).
#[derive(Debug, Clone)]
pub struct CommandMessage<S> {
    pub sender: S,
    pub message_text: String,
    pub authority_level: AuthorityLevel,
}

} // verus!
