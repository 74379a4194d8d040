use vstd::prelude::*;

verus! {

/// A 1x1 matrix.
#[derive(PartialEq, Eq, Structural, Debug, Clone, Copy)]
pub struct Mat1<N> {
    m11: N,
}

impl<N: Copy> Mat1<N> {
    /// The only entry.
    pub closed spec fn entry(self) -> N {
        self.m11
    }

    /// Builds the matrix whose only entry is `m11`.
    pub fn new(m11: N) -> (r: Mat1<N>)
        ensures
            r.entry() == m11,
    {
        Mat1 { m11 }
    }

    /// The number of rows and of columns.
    pub fn dim() -> (r: usize)
        ensures
            r == 1,
    {
        1
    }

    /// The only entry.
    pub fn m11(&self) -> (r: N)
        ensures
            r == self.entry(),
    {
        self.m11
    }

    /// The transpose, which is the matrix itself.
    pub fn transposed(&self) -> (r: Mat1<N>)
        ensures
            r == *self,
    {
        Mat1 { m11: self.m11 }
    }
}

} // verus!
