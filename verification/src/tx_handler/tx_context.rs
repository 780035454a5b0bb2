use vstd::prelude::*;

verus! {

/// The transaction a request belongs to: its session, and whether the
/// request commits it.
#[derive(Debug, Clone)]
pub struct TxContext {
    pub session_id: String,
    pub commit: bool,
}

} // verus!
