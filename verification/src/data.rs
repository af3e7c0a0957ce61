//! Element storage that is either owned or borrowed for the whole program.

use vstd::prelude::*;

verus! {

/// Elements held either in an owned vector or in a slice that lives for the
/// whole program.
pub enum Data<T: 'static> {
    Box(Vec<T>),
    Static(&'static [T]),
}

/// Chunk `q` of `s` cut into pieces of `size`: elements `q * size` up to
/// `(q + 1) * size`, or up to the end for the last, shorter piece.
pub open spec fn chunk_of<T>(s: Seq<T>, size: nat, q: int) -> Seq<T> {
    let end = if (q + 1) * size <= s.len() {
        (q + 1) * size
    } else {
        s.len() as int
    };
    s.subrange(q * size, end)
}

impl<T: 'static> Data<T> {
    /// The elements.
    pub open spec fn contents(&self) -> Seq<T> {
        match self {
            Data::Box(v) => v@,
            Data::Static(s) => s@,
        }
    }

    /// The elements.
    pub fn data(&self) -> (d: &[T])
        ensures
            d@ == self.contents(),
    {
        match self {
            Data::Box(b) => b.as_slice(),
            Data::Static(s) => s,
        }
    }

    /// Number of elements.
    pub fn len(&self) -> (n: usize)
        ensures
            n == self.contents().len(),
    {
        self.data().len()
    }

    /// The element at position `index`.
    pub fn index(&self, index: usize) -> (e: &T)
        requires
            index < self.contents().len(),
        ensures
            *e == self.contents()[index as int],
    {
        let d = self.data();
        &d[index]
    }

    /// The elements cut into consecutive pieces of `size`, the last of which
    /// may be shorter.
    pub fn chunks(&self, size: usize) -> (c: Vec<&[T]>)
        requires
            size > 0,
        ensures
            c@.len() * size >= self.contents().len(),
            c@.len() > 0 ==> (c@.len() - 1) * size < self.contents().len(),
            forall|q: int| 0 <= q < c@.len() ==> (#[trigger] c@[q])@ == chunk_of(self.contents(), size as nat, q),
    {
        let d = self.data();
        let len = d.len();
        let mut out: Vec<&[T]> = Vec::new();
        let mut start: usize = 0;
        assert(out@.len() * size == 0) by (nonlinear_arith)
            requires
                out@.len() == 0,
        ;
        while start < len
            invariant
                d@ == self.contents(),
                len == d@.len(),
                size > 0,
                start <= len,
                start < len ==> start == out@.len() * size,
                out@.len() == 0 ==> start == 0,
                out@.len() > 0 ==> (out@.len() - 1) * size < len,
                start == len ==> out@.len() * size >= len,
                forall|q: int| 0 <= q < out@.len() ==> (#[trigger] out@[q])@ == chunk_of(d@, size as nat, q),
            decreases len - start,
        {
            let ghost k = out@.len();
            assert((k + 1) * size == k * size + size) by (nonlinear_arith);
            let end = if len - start <= size {
                len
            } else {
                start + size
            };
            let piece = vstd::slice::slice_subrange(d, start, end);
            out.push(piece);
            proof {
                assert(out@[k as int]@ == chunk_of(d@, size as nat, k as int));
            }
            start = end;
        }
        out
    }
}

impl<T: 'static> Default for Data<T> {
    /// No elements.
    fn default() -> (d: Self)
        ensures
            d is Box,
            d.contents().len() == 0,
    {
        Data::Box(Vec::new())
    }
}

} // verus!
