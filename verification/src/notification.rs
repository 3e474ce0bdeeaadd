use vstd::prelude::*;

verus! {

/// A JSON-RPC notification: a message that wants no answer.
pub struct Notification {
    pub rpc: String,
    pub method: String,
}

} // verus!
