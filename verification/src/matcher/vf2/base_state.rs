use vstd::prelude::*;
use std::collections::HashMap;
use vstd::std_specs::hash::obeys_key_model;

verus! {

broadcast use vstd::std_specs::hash::group_hash_axioms;

/// The state of a VF2 matching shared by both graphs' sides: the sizes of
/// the terminal sets and of the core, the matched pairs, and the depth at
/// which each node entered the inbound and outbound terminal sets.
pub struct BaseState<NID0, NID1> where NID0: std::hash::Hash + Eq + Copy, NID1: std::hash::Hash + Eq + Copy {
    pub term_in_count: usize,
    pub term_out_count: usize,
    pub term_both_count: usize,
    pub core_count: usize,
    pub core_map: HashMap<NID0, NID1>,
    pub multi_core_map: HashMap<NID0, Vec<NID1>>,
    pub in_map: HashMap<NID0, usize>,
    pub out_map: HashMap<NID0, usize>,
}

impl<NID0, NID1> BaseState<NID0, NID1> where NID0: std::hash::Hash + Eq + Copy, NID1: std::hash::Hash + Eq + Copy {
    pub fn new() -> (r: Self)
        ensures
            r.term_in_count == 0,
            r.term_out_count == 0,
            r.term_both_count == 0,
            r.core_count == 0,
            r.core_map@ == Map::<NID0, NID1>::empty(),
            r.multi_core_map@ == Map::<NID0, Vec<NID1>>::empty(),
            r.in_map@ == Map::<NID0, usize>::empty(),
            r.out_map@ == Map::<NID0, usize>::empty(),
    {
        BaseState {
            term_in_count: 0,
            term_out_count: 0,
            term_both_count: 0,
            core_count: 0,
            core_map: HashMap::new(),
            multi_core_map: HashMap::new(),
            in_map: HashMap::new(),
            out_map: HashMap::new(),
        }
    }

    /// `v0` is matched to a node of the other graph.
    pub open spec fn is_in_core(&self, v0: NID0) -> bool {
        self.core_map@.contains_key(v0)
    }

    /// `v0` is in the inbound terminal set and not matched.
    pub open spec fn is_term_in_vertex(&self, v0: NID0) -> bool {
        self.in_map@.contains_key(v0) && !self.is_in_core(v0)
    }

    /// `v0` is in the outbound terminal set and not matched.
    pub open spec fn is_term_out_vertex(&self, v0: NID0) -> bool {
        self.out_map@.contains_key(v0) && !self.is_in_core(v0)
    }

    /// `v0` is in both terminal sets and not matched.
    pub open spec fn is_term_both_vertex(&self, v0: NID0) -> bool {
        self.in_map@.contains_key(v0) && self.out_map@.contains_key(v0) && !self.is_in_core(v0)
    }

    /// A vertex is in both terminal sets exactly when it is in the inbound
    /// one and in the outbound one; a matched vertex is in none of them.
    pub proof fn lemma_term_both_vertex(&self, v0: NID0)
        ensures
            self.is_term_both_vertex(v0) == (self.is_term_in_vertex(v0) && self.is_term_out_vertex(v0)),
            self.is_in_core(v0) ==> !self.is_term_in_vertex(v0) && !self.is_term_out_vertex(v0) && !self.is_term_both_vertex(v0),
    {
    }

    /// Whether the inbound terminal set holds nodes outside the core.
    pub fn term_in(&self) -> (r: bool)
        ensures
            r == (self.core_count < self.term_in_count),
    {
        self.core_count < self.term_in_count
    }

    /// Whether `v0` is in the inbound terminal set and not matched.
    pub fn term_in_vertex(&self, v0: &NID0) -> (r: bool)
        ensures
            obeys_key_model::<NID0>() ==> r == self.is_term_in_vertex(*v0),
    {
        let has_in_count = self.in_map.contains_key(v0);
        has_in_count && !self.core_map.contains_key(v0)
    }

    /// Whether `v0` is in the inbound terminal set and not matched to any node.
    pub fn multi_term_in_vertex(&self, v0: &NID0) -> (r: bool)
        ensures
            obeys_key_model::<NID0>() ==> r == (self.in_map@.contains_key(*v0) && !self.multi_core_map@.contains_key(
                *v0,
            )),
    {
        let has_in_count = self.in_map.contains_key(v0);
        has_in_count && !self.multi_core_map.contains_key(v0)
    }

    /// Whether the outbound terminal set holds nodes outside the core.
    pub fn term_out(&self) -> (r: bool)
        ensures
            r == (self.core_count < self.term_out_count),
    {
        self.core_count < self.term_out_count
    }

    /// Whether `v0` is in the outbound terminal set and not matched.
    pub fn term_out_vertex(&self, v0: &NID0) -> (r: bool)
        ensures
            obeys_key_model::<NID0>() ==> r == self.is_term_out_vertex(*v0),
    {
        let has_out_count = self.out_map.contains_key(v0);
        has_out_count && !self.core_map.contains_key(v0)
    }

    /// Whether `v0` is in the outbound terminal set and not matched to any node.
    pub fn multi_term_out_vertex(&self, v0: &NID0) -> (r: bool)
        ensures
            obeys_key_model::<NID0>() ==> r == (self.out_map@.contains_key(*v0) && !self.multi_core_map@.contains_key(
                *v0,
            )),
    {
        let has_out_count = self.out_map.contains_key(v0);
        has_out_count && !self.multi_core_map.contains_key(v0)
    }

    /// Whether the set of nodes in both terminal sets holds nodes outside the core.
    pub fn term_both(&self) -> (r: bool)
        ensures
            r == (self.core_count < self.term_both_count),
    {
        self.core_count < self.term_both_count
    }

    /// Whether `v0` is in both terminal sets and not matched.
    pub fn term_both_vertex(&self, v0: &NID0) -> (r: bool)
        ensures
            obeys_key_model::<NID0>() ==> r == self.is_term_both_vertex(*v0),
    {
        let has_in_count = self.in_map.contains_key(v0);
        let has_out_count = self.out_map.contains_key(v0);
        has_in_count && has_out_count && !self.core_map.contains_key(v0)
    }

    /// Whether `v0` is in both terminal sets and not matched to any node.
    pub fn multi_term_both_vertex(&self, v0: &NID0) -> (r: bool)
        ensures
            obeys_key_model::<NID0>() ==> r == (self.in_map@.contains_key(*v0) && self.out_map@.contains_key(*v0)
                && !self.multi_core_map@.contains_key(*v0)),
    {
        let has_in_count = self.in_map.contains_key(v0);
        let has_out_count = self.out_map.contains_key(v0);
        has_in_count && has_out_count && !self.multi_core_map.contains_key(v0)
    }

    pub fn in_core(&self, v0: &NID0) -> (r: bool)
        ensures
            obeys_key_model::<NID0>() ==> r == self.is_in_core(*v0),
    {
        self.core_map.contains_key(v0)
    }

    pub fn in_multi_core(&self, v0: &NID0) -> (r: bool)
        ensures
            obeys_key_model::<NID0>() ==> r == self.multi_core_map@.contains_key(*v0),
    {
        self.multi_core_map.contains_key(v0)
    }

    pub fn count(&self) -> (r: usize)
        ensures
            r == self.core_count,
    {
        self.core_count
    }

    /// The node most recently matched to `v0`, if any.
    pub fn multi_core_last(&self, v0: &NID0) -> (r: Option<NID1>)
        requires
            obeys_key_model::<NID0>(),
            self.multi_core_map@.contains_key(*v0),
        ensures
            ({
                let l = self.multi_core_map@[*v0]@;
                r == if l.len() > 0 { Some(l.last()) } else { None }
            }),
    {
        let l = self.multi_core_map.get(v0).unwrap();
        let n = l.len();
        if n > 0 {
            Some(l[n - 1])
        } else {
            None
        }
    }

    pub fn get_map(&self) -> (r: &HashMap<NID0, NID1>)
        ensures
            r@ == self.core_map@,
    {
        &self.core_map
    }

    pub fn get_multi_core_map(&self) -> (r: &HashMap<NID0, Vec<NID1>>)
        ensures
            r@ == self.multi_core_map@,
    {
        &self.multi_core_map
    }

    /// The depth at which `v0` entered the inbound terminal set; zero if it
    /// is not in it.
    pub fn in_depth(&self, v0: &NID0) -> (r: usize)
        ensures
            obeys_key_model::<NID0>() ==> r == if self.in_map@.contains_key(*v0) {
                self.in_map@[*v0]
            } else {
                0
            },
    {
        if let Some(count) = self.in_map.get(v0) {
            *count
        } else {
            0
        }
    }

    /// The depth at which `v0` entered the outbound terminal set; zero if it
    /// is not in it.
    pub fn out_depth(&self, v0: &NID0) -> (r: usize)
        ensures
            obeys_key_model::<NID0>() ==> r == if self.out_map@.contains_key(*v0) {
                self.out_map@[*v0]
            } else {
                0
            },
    {
        if let Some(count) = self.out_map.get(v0) {
            *count
        } else {
            0
        }
    }

    pub fn term_set(&self) -> (r: (usize, usize, usize))
        ensures
            r == (self.term_in_count, self.term_out_count, self.term_both_count),
    {
        (self.term_in_count, self.term_out_count, self.term_both_count)
    }
}

} // verus!
