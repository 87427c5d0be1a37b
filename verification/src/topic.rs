use vstd::prelude::*;

verus! {

/// Topic identifier.
pub type Id = u16;

/// A message published on a topic: the topic's id and the payload bytes.
#[derive(Debug, Clone, Copy, Hash)]
pub struct Message<'d> {
    pub id: Id,
    pub data: &'d [u8],
}

/// Compares two byte strings element by element.
pub(crate) fn bytes_equal(a: &[u8], b: &[u8]) -> (r: bool)
    ensures
        r == (a@ == b@),
{
    if a.len() != b.len() {
        return false;
    }
    let mut i: usize = 0;
    while i < a.len()
        invariant
            a@.len() == b@.len(),
            0 <= i <= a@.len(),
            forall|j: int| 0 <= j < i ==> a@[j] == b@[j],
        decreases a@.len() - i,
    {
        if a[i] != b[i] {
            return false;
        }
        i = i + 1;
    }
    assert(a@ =~= b@);
    true
}

impl<'d> PartialEq for Message<'d> {
    fn eq(&self, other: &Self) -> (r: bool)
        ensures
            r == (self.id == other.id && self.data@ == other.data@),
    {
        self.id == other.id && bytes_equal(self.data, other.data)
    }
}

impl<'d> vstd::std_specs::cmp::PartialEqSpecImpl for Message<'d> {
    open spec fn obeys_eq_spec() -> bool {
        true
    }

    open spec fn eq_spec(&self, other: &Self) -> bool {
        self.id == other.id && self.data@ == other.data@
    }
}

impl<'d> Eq for Message<'d> {}

} // verus!
