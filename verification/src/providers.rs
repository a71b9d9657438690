//! Messages exchanged with a chat provider.
use vstd::prelude::*;

verus! {

/// One message of a conversation: who spoke (`user`, `assistant`, ...) and
/// what was said.
#[derive(Debug)]
pub struct ChatMessage {
    pub role: String,
    pub content: String,
}

} // verus!
