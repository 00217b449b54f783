use vstd::prelude::*;

verus! {

/// Walks a face's vertex indices and hands out the corresponding entries of
/// a vertex list, one per call to `next`, in index order.
pub struct FaceVertexIterator<'a, VecType> {
    indices: &'a Vec<i32>,
    vertices: &'a Vec<VecType>,
    cursor: usize,
}

impl<'a, VecType> FaceVertexIterator<'a, VecType> {
    /// The indices still to be visited, in order.
    pub closed spec fn remaining(&self) -> Seq<i32> {
        if self.cursor <= self.indices@.len() {
            self.indices@.skip(self.cursor as int)
        } else {
            Seq::empty()
        }
    }

    /// The vertex list the indices select from.
    pub closed spec fn source_vertices(&self) -> Seq<VecType> {
        self.vertices@
    }

    /// True when every index still to be visited selects an entry of the
    /// vertex list.
    pub open spec fn indices_in_bounds(&self) -> bool {
        forall|i: int|
            0 <= i < self.remaining().len() ==> 0 <= #[trigger] self.remaining()[i]
                < self.source_vertices().len()
    }

    /// Starts a walk over `indices` into `vertices`.
    pub fn from(indices: &'a Vec<i32>, vertices: &'a Vec<VecType>) -> (r: FaceVertexIterator<
        'a,
        VecType,
    >)
        ensures
            r.remaining() == indices@,
            r.source_vertices() == vertices@,
    {
        let r = FaceVertexIterator { indices, vertices, cursor: 0 };
        proof {
            assert(r.remaining() =~= indices@);
        }
        r
    }

    /// Hands out the vertex selected by the next index, or `None` once all
    /// indices are used up.
    pub fn next(&mut self) -> (r: Option<&'a VecType>)
        requires
            old(self).indices_in_bounds(),
        ensures
            final(self).source_vertices() == old(self).source_vertices(),
            match r {
                Some(v) => old(self).remaining().len() > 0 && *v == old(self).source_vertices()[old(
                    self,
                ).remaining()[0] as int] && final(self).remaining() == old(
                    self,
                ).remaining().drop_first(),
                None => old(self).remaining().len() == 0 && final(self).remaining() == old(
                    self,
                ).remaining(),
            },
    {
        if self.cursor < self.indices.len() {
            let index = self.indices[self.cursor];
            proof {
                assert(old(self).remaining()[0] == index);
                assert(0 <= index < self.vertices@.len());
            }
            self.cursor = self.cursor + 1;
            proof {
                assert(self.remaining() =~= old(self).remaining().drop_first());
            }
            Some(&self.vertices[index as usize])
        } else {
            proof {
                assert(old(self).remaining() =~= Seq::<i32>::empty());
            }
            None
        }
    }
}

} // verus!
