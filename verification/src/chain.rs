//! Path accumulator: the ordered chain of path segments from the asset root
//! down to the entry currently being visited.

use vstd::prelude::*;

use crate::text::copy_bytes;

verus! {

/// A path segment is acceptable when it is non-empty and holds no path
/// separator byte.
pub open spec fn segment_ok(s: Seq<u8>) -> bool {
    &&& s.len() > 0
    &&& !s.contains(47u8)  // the path separator '/'
}

/// An ordered, immutable lineage of path segments, root to leaf. Each descent
/// of the tree walk produces a fresh chain by extending the parent chain with
/// one segment; a chain is never mutated in place.
pub struct PathChain {
    segments: Vec<Vec<u8>>,
}

impl View for PathChain {
    type V = Seq<Seq<u8>>;

    closed spec fn view(&self) -> Seq<Seq<u8>> {
        Seq::new(self.segments@.len(), |i: int| self.segments@[i]@)
    }
}

impl PathChain {
    /// Every segment of the chain is acceptable.
    pub open spec fn wf(&self) -> bool {
        forall|i: int| 0 <= i < self@.len() ==> segment_ok(#[trigger] self@[i])
    }

    /// The empty chain, standing for the asset root itself.
    pub fn root() -> (c: PathChain)
        ensures
            c@ == Seq::<Seq<u8>>::empty(),
            c.wf(),
    {
        let c = PathChain { segments: Vec::new() };
        proof {
            assert(c@ =~= Seq::<Seq<u8>>::empty());
        }
        c
    }

    /// Chain length, without materializing a flattened array.
    pub fn len(&self) -> (n: usize)
        ensures
            n == self@.len(),
    {
        self.segments.len()
    }

    /// The `i`-th segment, in root-to-leaf order.
    pub fn segment(&self, i: usize) -> (s: &Vec<u8>)
        requires
            i < self@.len(),
        ensures
            s@ == self@[i as int],
    {
        &self.segments[i]
    }

    /// A new chain whose lineage is "parent chain, followed by `segment`".
    /// The parent chain is left untouched.
    pub fn extend(&self, segment: &Vec<u8>) -> (c: PathChain)
        ensures
            c@ == self@.push(segment@),
            self.wf() && segment_ok(segment@) ==> c.wf(),
    {
        let mut segments: Vec<Vec<u8>> = Vec::new();
        let mut i: usize = 0;
        while i < self.segments.len()
            invariant
                i <= self.segments.len(),
                segments@.len() == i as int,
                forall|k: int| 0 <= k < i as int ==> (#[trigger] segments@[k])@ == self.segments@[k]@,
            decreases self.segments.len() - i,
        {
            segments.push(copy_bytes(&self.segments[i]));
            i += 1;
        }
        segments.push(copy_bytes(segment));
        let c = PathChain { segments };
        proof {
            assert(c@ =~~= self@.push(segment@));
        }
        c
    }
}

} // verus!
