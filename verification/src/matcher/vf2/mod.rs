pub mod base_state;

use vstd::prelude::*;

verus! {

/// The steps of the matching loop.
pub enum IterationStates {
    Process,
    Validate,
    LookForCandidates,
    InitGraph1Loop,
    Graph1Loop,
    Backtrack,
}

/// A cursor over a vector of candidates, with a flag telling that it ran
/// past the end.
pub struct VecIterator<T> {
    index: usize,
    end: bool,
    vector: Vec<T>,
}

impl<T> VecIterator<T> {
    pub closed spec fn spec_index(&self) -> usize {
        self.index
    }

    pub closed spec fn spec_end(&self) -> bool {
        self.end
    }

    pub closed spec fn spec_vector(&self) -> Seq<T> {
        self.vector@
    }

    /// The cursor stands on an element whenever it is not past the end.
    pub open spec fn wf(&self) -> bool {
        !self.spec_end() ==> self.spec_index() < self.spec_vector().len()
    }

    /// A cursor on the first element of `v`; past the end when `v` is empty.
    pub fn new(v: Vec<T>) -> (r: Self)
        ensures
            r.spec_vector() == v@,
            r.spec_index() == 0,
            r.spec_end() == (v@.len() == 0),
            r.wf(),
    {
        let end = v.len() == 0;
        VecIterator { index: 0, end, vector: v }
    }

    pub fn end(&self) -> (r: bool)
        ensures
            r == self.spec_end(),
    {
        self.end
    }

    pub fn index(&self) -> (r: usize)
        ensures
            r == self.spec_index(),
    {
        self.index
    }

    /// The element under the cursor.
    pub fn value(&self) -> (r: &T)
        requires
            self.spec_index() < self.spec_vector().len(),
        ensures
            *r == self.spec_vector()[self.spec_index() as int],
    {
        &self.vector[self.index]
    }

    /// Moves the cursor to `index`, or past the end when there is no such
    /// element.
    pub fn set_index(&mut self, index: usize)
        ensures
            final(self).spec_vector() == old(self).spec_vector(),
            index < old(self).spec_vector().len() ==> final(self).spec_index() == index && !final(self).spec_end(),
            index >= old(self).spec_vector().len() ==> final(self).spec_index() == old(self).spec_index()
                && final(self).spec_end(),
            old(self).wf() ==> final(self).wf(),
    {
        if index < self.vector.len() {
            self.index = index;
            self.end = false;
        } else {
            self.end = true;
        }
    }

    /// Moves the cursor back to the first element.
    pub fn reset(&mut self)
        ensures
            final(self).spec_vector() == old(self).spec_vector(),
            final(self).spec_index() == 0,
            final(self).spec_end() == (old(self).spec_vector().len() == 0),
            final(self).wf(),
    {
        self.end = self.vector.len() == 0;
        self.index = 0;
    }

    /// Moves the cursor to the next element, or past the end after the last.
    pub fn inc(&mut self)
        requires
            old(self).spec_vector().len() > 0,
        ensures
            final(self).spec_vector() == old(self).spec_vector(),
            old(self).spec_index() < old(self).spec_vector().len() - 1 ==> final(self).spec_index() == old(
                self,
            ).spec_index() + 1 && final(self).spec_end() == old(self).spec_end(),
            old(self).spec_index() >= old(self).spec_vector().len() - 1 ==> final(self).spec_index() == old(
                self,
            ).spec_index() && final(self).spec_end(),
            old(self).wf() ==> final(self).wf(),
    {
        if self.index < self.vector.len() - 1 {
            self.index += 1;
        } else {
            self.end = true;
        }
    }
}

} // verus!
