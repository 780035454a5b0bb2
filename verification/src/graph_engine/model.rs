use vstd::prelude::*;
use std::hash::{Hash, Hasher};
use vstd::std_specs::cmp::PartialEqSpecImpl;

verus! {

/// Id of a node of a graph loaded lazily from storage: its place in memory,
/// once loaded, and its id in storage. Two ids are equal when their storage
/// ids are.
#[derive(Copy, Clone, Debug)]
pub struct ProxyNodeId {
    pub mem_id: Option<usize>,
    pub store_id: u64,
}

impl PartialEq for ProxyNodeId {
    fn eq(&self, other: &Self) -> (r: bool) {
        self.store_id == other.store_id
    }
}

impl PartialEqSpecImpl for ProxyNodeId {
    open spec fn obeys_eq_spec() -> bool {
        true
    }

    open spec fn eq_spec(&self, other: &Self) -> bool {
        self.store_id == other.store_id
    }
}

impl Eq for ProxyNodeId {
}

impl Hash for ProxyNodeId {
    /// Feeds the storage id, and only it, to `state` through `u64::hash`.
    #[verifier::external_body]
    fn hash<H: Hasher>(&self, state: &mut H) {
        self.store_id.hash(state);
    }
}

impl ProxyNodeId {
    /// The id of a node known only in storage.
    pub fn new_db(db_id: u64) -> (r: Self)
        ensures
            r == (ProxyNodeId { mem_id: None, store_id: db_id }),
    {
        ProxyNodeId { mem_id: None, store_id: db_id }
    }

    /// The id of a node loaded at `mem_id`.
    pub fn new(mem_id: usize, db_id: u64) -> (r: Self)
        ensures
            r == (ProxyNodeId { mem_id: Some(mem_id), store_id: db_id }),
    {
        ProxyNodeId { mem_id: Some(mem_id), store_id: db_id }
    }

    pub fn get_store_id(&self) -> (r: u64)
        ensures
            r == self.store_id,
    {
        self.store_id
    }

    pub fn get_index(&self) -> (r: Option<usize>)
        ensures
            r == self.mem_id,
    {
        self.mem_id
    }
}

/// Id of a relationship of a graph loaded lazily from storage: its place in
/// memory, once loaded, and its id in storage.
#[derive(PartialEq, Eq, Copy, Clone, Debug, Hash, Structural)]
pub struct ProxyRelationshipId {
    mem_id: Option<usize>,
    store_id: u64,
}

impl View for ProxyRelationshipId {
    type V = (Option<usize>, u64);

    closed spec fn view(&self) -> (Option<usize>, u64) {
        (self.mem_id, self.store_id)
    }
}

impl ProxyRelationshipId {
    /// The id of a relationship known only in storage.
    pub fn new_db(db_id: u64) -> (r: Self)
        ensures
            r@ == (None::<usize>, db_id),
    {
        ProxyRelationshipId { mem_id: None, store_id: db_id }
    }

    /// The id of a relationship loaded at `mem_id`.
    pub fn new(mem_id: usize, db_id: u64) -> (r: Self)
        ensures
            r@ == (Some(mem_id), db_id),
    {
        ProxyRelationshipId { mem_id: Some(mem_id), store_id: db_id }
    }

    pub fn get_store_id(&self) -> (r: u64)
        ensures
            r == self@.1,
    {
        self.store_id
    }

    pub fn get_index(&self) -> (r: Option<usize>)
        ensures
            r == self@.0,
    {
        self.mem_id
    }
}

} // verus!
