use vstd::prelude::*;

verus! {

/// An affine transformation: a linear part `submat` followed by a translation `subtrans`.
#[derive(PartialEq, Eq, Structural, Debug, Clone, Copy)]
pub struct Transform<M, V> {
    submat: M,
    subtrans: V,
}

impl<M: Copy, V: Copy> Transform<M, V> {
    /// The linear part.
    pub closed spec fn linear(self) -> M {
        self.submat
    }

    /// The translation part.
    pub closed spec fn shift(self) -> V {
        self.subtrans
    }

    /// The linear part of the transformation.
    pub fn delta_transform(&self) -> (r: M)
        ensures
            r == self.linear(),
    {
        self.submat
    }

    /// The translation part of the transformation.
    pub fn translation(&self) -> (r: V)
        ensures
            r == self.shift(),
    {
        self.subtrans
    }
}

/// Builds the transformation with linear part `mat` and translation `trans`.
pub fn transform<M: Copy, V: Copy>(mat: &M, trans: &V) -> (r: Transform<M, V>)
    ensures
        r.linear() == *mat,
        r.shift() == *trans,
{
    Transform { submat: *mat, subtrans: *trans }
}

} // verus!
