pub mod handler;
pub mod tx_context;

use vstd::prelude::*;

verus! {

/// Error of a database request.
#[derive(Debug, Clone)]
pub enum DatabaseError {
    EngineError,
    TxError,
}

impl DatabaseError {
    /// The message that describes the error.
    pub fn to_string(&self) -> (r: String)
        ensures
            r@ == match self {
                DatabaseError::EngineError => "graph engine error"@,
                DatabaseError::TxError => "tx error"@,
            },
    {
        match *self {
            DatabaseError::EngineError => "graph engine error".to_owned(),
            DatabaseError::TxError => "tx error".to_owned(),
        }
    }
}

} // verus!
