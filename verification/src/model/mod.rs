pub mod init;

use vstd::prelude::*;

verus! {

/// What a query does with a node or relationship of its pattern.
#[derive(Hash, Eq, PartialEq, Clone, Copy, Debug, Structural)]
pub enum Status {
    Match,
    Create,
    Update,
    Empty,
}

} // verus!
