use vstd::prelude::*;

use crate::cs::{
    add_fits, add_pattern_fits, dot, mul_fits, mul_pattern_fits, op_cols, op_entry, op_rows,
    spadd_cs_prealloc, spmm_cs_prealloc, CsMatrix,
};
use crate::ops::{Op, OperationError, OperationErrorKind};
use crate::pattern::SparsityPattern;

verus! {

/// A sparse matrix in compressed sparse column format: lane `j` of the pattern is column `j`.
pub struct CscMatrix {
    cs: CsMatrix,
}

impl CscMatrix {
    pub closed spec fn cs(&self) -> CsMatrix {
        self.cs
    }

    pub open spec fn wf(&self) -> bool {
        self.cs().wf()
    }

    pub open spec fn rows(&self) -> nat {
        self.cs().minor()
    }

    pub open spec fn cols(&self) -> nat {
        self.cs().major()
    }

    /// Position `(i, j)` is stored.
    pub open spec fn stored(&self, i: int, j: int) -> bool {
        self.cs().stored(j, i)
    }

    /// The entry in row `i` and column `j`.
    pub open spec fn entry(&self, i: int, j: int) -> int {
        self.cs().entry(j, i)
    }

    /// Builds a matrix from a column pattern and one value per stored position; `None` when the
    /// number of values differs from the number of stored positions.
    pub fn try_from_pattern_and_values(pattern: SparsityPattern, values: Vec<i64>) -> (r: Option<
        CscMatrix,
    >)
        requires
            pattern.wf(),
        ensures
            r is Some <==> values@.len() == pattern.nnz_spec(),
            r matches Some(m) ==> m.wf() && m.cs().pat() == pattern && m.cs().vals() == values@,
    {
        match CsMatrix::try_from_pattern_and_values(pattern, values) {
            Some(cs) => Some(CscMatrix { cs }),
            None => None,
        }
    }

    pub fn nrows(&self) -> (r: usize)
        ensures
            r == self.rows(),
    {
        self.cs.pattern().minor_dim()
    }

    pub fn ncols(&self) -> (r: usize)
        ensures
            r == self.cols(),
    {
        self.cs.pattern().major_dim()
    }

    pub fn nnz(&self) -> (r: usize)
        ensures
            r == self.cs().pat().nnz_spec(),
    {
        self.cs.pattern().nnz()
    }

    pub fn pattern(&self) -> (r: &SparsityPattern)
        ensures
            *r == self.cs().pat(),
    {
        self.cs.pattern()
    }

    /// The stored values, column after column.
    pub fn values(&self) -> (r: &Vec<i64>)
        ensures
            r@ == self.cs().vals(),
    {
        self.cs.values()
    }

    /// The value stored at row `i`, column `j`, or `None` when the position is not stored.
    pub fn get_entry(&self, i: usize, j: usize) -> (r: Option<i64>)
        requires
            self.wf(),
        ensures
            r is Some <==> self.stored(i as int, j as int),
            r matches Some(v) ==> v == self.entry(i as int, j as int),
    {
        self.cs.get_entry(j, i)
    }
}

/// The compressed operand that a CSC operand stands for: the compressed form of a CSC matrix is
/// its transpose, and the tag is kept.
pub open spec fn csc_op(a: Op<&CscMatrix>) -> Op<&CsMatrix> {
    match a {
        Op::NoOp(m) => Op::NoOp(&m.cs()),
        Op::Transpose(m) => Op::Transpose(&m.cs()),
    }
}

fn to_cs_op<'a>(a: Op<&'a CscMatrix>) -> (r: Op<&'a CsMatrix>)
    ensures
        r == csc_op(a),
{
    match a {
        Op::NoOp(m) => Op::NoOp(&m.cs),
        Op::Transpose(m) => Op::Transpose(&m.cs),
    }
}

/// Computes `c := beta * c + alpha * op(a)` in place, within the pattern of `c`.
///
/// Both sides are transposed alike, so in compressed terms this is the same sum: slot `p` of
/// lane `j` holds row `i = indices[p]` of column `j`, and `op_entry(csc_op(a), j, i)` is entry
/// `(i, j)` of `op(a)`.
///
/// Fails with `InvalidPattern`, leaving `c` as it is, when `op(a)` stores a position that the
/// pattern of `c` lacks.
pub fn spadd_csc_prealloc(beta: i64, c: &mut CscMatrix, alpha: i64, a: Op<&CscMatrix>) -> (r:
    Result<(), OperationError>)
    requires
        old(c).wf(),
        a.operand().wf(),
        old(c).cs().major() == op_rows(csc_op(a)),
        old(c).cs().minor() == op_cols(csc_op(a)),
        add_fits(&old(c).cs(), beta, alpha, csc_op(a)),
    ensures
        final(c).wf(),
        final(c).cs().pat() == old(c).cs().pat(),
        r is Ok <==> add_pattern_fits(&old(c).cs(), csc_op(a)),
        r matches Err(e) ==> e.kind_spec() == OperationErrorKind::InvalidPattern
            && final(c).cs().vals() == old(c).cs().vals(),
        r is Ok ==> forall|j: int, p: int|
            #[trigger] old(c).cs().pat().in_lane(j, p) ==> final(c).cs().vals()[p] == beta * old(
                c,
            ).cs().vals()[p] + alpha * op_entry(csc_op(a), j, old(c).cs().pat().indices()[p] as int),
{
    let a_cs = to_cs_op(a);
    spadd_cs_prealloc(beta, &mut c.cs, alpha, a_cs)
}

/// Computes `c := beta * c + alpha * op(a) * op(b)` in place, within the pattern of `c`.
///
/// In compressed terms the transpose of the product is computed, `op(b)^T * op(a)^T`: slot `p`
/// of lane `j` (row `i = indices[p]` of column `j`) receives the dot product of row `j` of the
/// compressed `op(b)` with column `i` of the compressed `op(a)`, which is entry `(i, j)` of
/// `op(a) * op(b)`.
///
/// Fails with `InvalidPattern`, leaving `c` as it is, when the product has a structural nonzero
/// at a position that the pattern of `c` lacks.
pub fn spmm_csc_prealloc(
    beta: i64,
    c: &mut CscMatrix,
    alpha: i64,
    a: Op<&CscMatrix>,
    b: Op<&CscMatrix>,
) -> (r: Result<(), OperationError>)
    requires
        old(c).wf(),
        a.operand().wf(),
        b.operand().wf(),
        old(c).cs().major() == op_rows(csc_op(b)),
        old(c).cs().minor() == op_cols(csc_op(a)),
        op_cols(csc_op(b)) == op_rows(csc_op(a)),
        mul_fits(&old(c).cs(), beta, alpha, csc_op(b), csc_op(a)),
    ensures
        final(c).wf(),
        final(c).cs().pat() == old(c).cs().pat(),
        r is Ok <==> mul_pattern_fits(&old(c).cs(), csc_op(b), csc_op(a)),
        r matches Err(e) ==> e.kind_spec() == OperationErrorKind::InvalidPattern
            && final(c).cs().vals() == old(c).cs().vals(),
        r is Ok ==> forall|j: int, p: int|
            #[trigger] old(c).cs().pat().in_lane(j, p) ==> final(c).cs().vals()[p] == beta * old(
                c,
            ).cs().vals()[p] + alpha * dot(
                csc_op(b),
                csc_op(a),
                j,
                old(c).cs().pat().indices()[p] as int,
                op_cols(csc_op(b)) as int,
            ),
{
    let a_cs = to_cs_op(a);
    let b_cs = to_cs_op(b);
    spmm_cs_prealloc(beta, &mut c.cs, alpha, b_cs, a_cs)
}

} // verus!
