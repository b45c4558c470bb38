//! A value holding a cursor into a buffer it owns.
//!
//! The address-based form of this pattern stores a raw pointer to its own
//! field; from the moment that pointer is taken the value must never move,
//! and moving it anyway leaves the pointer dangling. Storing the cursor as
//! an offset from the buffer's start and recomputing the reference at the
//! point of use removes that discipline entirely: the value stays freely
//! movable for its whole lifetime, and the cursor stays valid across any
//! number of relocations.

use vstd::prelude::*;

verus! {

pub struct SelfRef {
    data: String,
    reference: Option<usize>,
}

impl SelfRef {
    /// The owned buffer's contents.
    pub closed spec fn data_view(&self) -> Seq<char> {
        self.data@
    }

    /// The cursor: an offset into the owned buffer, `None` until `init`.
    pub closed spec fn cursor(&self) -> Option<usize> {
        self.reference
    }

    /// A cursor, once taken, lies within the buffer.
    pub open spec fn wf(&self) -> bool {
        match self.cursor() {
            Some(c) => c <= self.data_view().len(),
            None => true,
        }
    }

    /// A fresh value owns its buffer and holds no cursor yet.
    pub fn new(data: String) -> (s: SelfRef)
        ensures
            s.wf(),
            s.data_view() == data@,
            s.cursor() is None,
    {
        SelfRef { data, reference: None }
    }

    /// Take the cursor: it stands at the start of the owned buffer, as the
    /// address-based form points at the buffer as a whole.
    pub fn init(&mut self)
        ensures
            final(self).wf(),
            final(self).data_view() == old(self).data_view(),
            final(self).cursor() == Some(0usize),
    {
        self.reference = Some(0);
    }

    /// Resolve the cursor at the point of use, from the value's own current
    /// buffer: `None` while no cursor has been taken, and otherwise the
    /// buffer the cursor refers into — never dangling, wherever the value
    /// has moved in the meantime.
    pub fn referent(&self) -> (r: Option<&String>)
        requires
            self.wf(),
        ensures
            r is Some <==> self.cursor() is Some,
            r is Some ==> r.unwrap()@ == self.data_view(),
    {
        match self.reference {
            Some(_) => Some(&self.data),
            None => None,
        }
    }
}

} // verus!
