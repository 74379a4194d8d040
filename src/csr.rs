use vstd::prelude::*;

use crate::cs::{
    add_fits, add_pattern_fits, dot, mul_fits, mul_pattern_fits, op_cols, op_entry, op_rows, op_stored,
    spadd_cs_prealloc, spmm_cs_prealloc, CsMatrix,
};
use crate::ops::{Op, OperationError, OperationErrorKind};
use crate::pattern::SparsityPattern;

verus! {

/// A sparse matrix in compressed sparse row format: lane `i` of the pattern is row `i`.
pub struct CsrMatrix {
    cs: CsMatrix,
}

impl CsrMatrix {
    pub closed spec fn cs(&self) -> CsMatrix {
        self.cs
    }

    pub open spec fn wf(&self) -> bool {
        self.cs().wf()
    }

    pub open spec fn rows(&self) -> nat {
        self.cs().major()
    }

    pub open spec fn cols(&self) -> nat {
        self.cs().minor()
    }

    /// Position `(i, j)` is stored.
    pub open spec fn stored(&self, i: int, j: int) -> bool {
        self.cs().stored(i, j)
    }

    /// The entry in row `i` and column `j`.
    pub open spec fn entry(&self, i: int, j: int) -> int {
        self.cs().entry(i, j)
    }

    /// Builds a matrix from a row pattern and one value per stored position; `None` when the
    /// number of values differs from the number of stored positions.
    pub fn try_from_pattern_and_values(pattern: SparsityPattern, values: Vec<i64>) -> (r: Option<
        CsrMatrix,
    >)
        requires
            pattern.wf(),
        ensures
            r is Some <==> values@.len() == pattern.nnz_spec(),
            r matches Some(m) ==> m.wf() && m.cs().pat() == pattern && m.cs().vals() == values@,
    {
        match CsMatrix::try_from_pattern_and_values(pattern, values) {
            Some(cs) => Some(CsrMatrix { cs }),
            None => None,
        }
    }

    pub fn nrows(&self) -> (r: usize)
        ensures
            r == self.rows(),
    {
        self.cs.pattern().major_dim()
    }

    pub fn ncols(&self) -> (r: usize)
        ensures
            r == self.cols(),
    {
        self.cs.pattern().minor_dim()
    }

    pub fn nnz(&self) -> (r: usize)
        ensures
            r == self.cs().pat().nnz_spec(),
    {
        self.cs.pattern().nnz()
    }

    pub fn pattern(&self) -> (r: &SparsityPattern)
        ensures
            *r == self.cs().pat(),
    {
        self.cs.pattern()
    }

    /// The stored values, row after row.
    pub fn values(&self) -> (r: &Vec<i64>)
        ensures
            r@ == self.cs().vals(),
    {
        self.cs.values()
    }

    /// The value stored at row `i`, column `j`, or `None` when the position is not stored.
    pub fn get_entry(&self, i: usize, j: usize) -> (r: Option<i64>)
        requires
            self.wf(),
        ensures
            r is Some <==> self.stored(i as int, j as int),
            r matches Some(v) ==> v == self.entry(i as int, j as int),
    {
        self.cs.get_entry(i, j)
    }
}

/// The compressed operand that a CSR operand stands for.
pub open spec fn csr_op(a: Op<&CsrMatrix>) -> Op<&CsMatrix> {
    match a {
        Op::NoOp(m) => Op::NoOp(&m.cs()),
        Op::Transpose(m) => Op::Transpose(&m.cs()),
    }
}

fn to_cs_op<'a>(a: Op<&'a CsrMatrix>) -> (r: Op<&'a CsMatrix>)
    ensures
        r == csr_op(a),
{
    match a {
        Op::NoOp(m) => Op::NoOp(&m.cs),
        Op::Transpose(m) => Op::Transpose(&m.cs),
    }
}

/// Computes `c := beta * c + alpha * op(a)` in place, within the pattern of `c`.
///
/// Fails with `InvalidPattern`, leaving `c` as it is, when `op(a)` stores a position that the
/// pattern of `c` lacks.
pub fn spadd_csr_prealloc(beta: i64, c: &mut CsrMatrix, alpha: i64, a: Op<&CsrMatrix>) -> (r:
    Result<(), OperationError>)
    requires
        old(c).wf(),
        a.operand().wf(),
        old(c).rows() == op_rows(csr_op(a)),
        old(c).cols() == op_cols(csr_op(a)),
        add_fits(&old(c).cs(), beta, alpha, csr_op(a)),
    ensures
        final(c).wf(),
        final(c).cs().pat() == old(c).cs().pat(),
        r is Ok <==> add_pattern_fits(&old(c).cs(), csr_op(a)),
        r matches Err(e) ==> e.kind_spec() == OperationErrorKind::InvalidPattern
            && final(c).cs().vals() == old(c).cs().vals(),
        r is Ok ==> forall|i: int, p: int|
            #[trigger] old(c).cs().pat().in_lane(i, p) ==> final(c).cs().vals()[p] == beta * old(
                c,
            ).cs().vals()[p] + alpha * op_entry(csr_op(a), i, old(c).cs().pat().indices()[p] as int),
{
    let a_cs = to_cs_op(a);
    spadd_cs_prealloc(beta, &mut c.cs, alpha, a_cs)
}

/// Computes `c := beta * c + alpha * op(a) * op(b)` in place, within the pattern of `c`.
///
/// Fails with `InvalidPattern`, leaving `c` as it is, when the product has a structural nonzero
/// at a position that the pattern of `c` lacks.
pub fn spmm_csr_prealloc(
    beta: i64,
    c: &mut CsrMatrix,
    alpha: i64,
    a: Op<&CsrMatrix>,
    b: Op<&CsrMatrix>,
) -> (r: Result<(), OperationError>)
    requires
        old(c).wf(),
        a.operand().wf(),
        b.operand().wf(),
        old(c).rows() == op_rows(csr_op(a)),
        old(c).cols() == op_cols(csr_op(b)),
        op_cols(csr_op(a)) == op_rows(csr_op(b)),
        mul_fits(&old(c).cs(), beta, alpha, csr_op(a), csr_op(b)),
    ensures
        final(c).wf(),
        final(c).cs().pat() == old(c).cs().pat(),
        r is Ok <==> mul_pattern_fits(&old(c).cs(), csr_op(a), csr_op(b)),
        r matches Err(e) ==> e.kind_spec() == OperationErrorKind::InvalidPattern
            && final(c).cs().vals() == old(c).cs().vals(),
        r is Ok ==> forall|i: int, p: int|
            #[trigger] old(c).cs().pat().in_lane(i, p) ==> final(c).cs().vals()[p] == beta * old(
                c,
            ).cs().vals()[p] + alpha * dot(
                csr_op(a),
                csr_op(b),
                i,
                old(c).cs().pat().indices()[p] as int,
                op_cols(csr_op(a)) as int,
            ),
{
    let a_cs = to_cs_op(a);
    let b_cs = to_cs_op(b);
    spmm_cs_prealloc(beta, &mut c.cs, alpha, a_cs, b_cs)
}

/// Adding a matrix `a`, with `beta = 0` and `alpha = 1`, into a matrix `c` whose pattern is the
/// pattern of `a` succeeds, cannot overflow, and leaves in `c` exactly the values of `a`.
pub proof fn lemma_spadd_into_own_pattern(c: &CsrMatrix, a: &CsrMatrix, after: &CsrMatrix)
    requires
        c.wf(),
        a.wf(),
        after.wf(),
        c.cs().pat() == a.cs().pat(),
        after.cs().pat() == c.cs().pat(),
    ensures
        add_pattern_fits(&c.cs(), csr_op(Op::NoOp(a))),
        add_fits(&c.cs(), 0, 1, csr_op(Op::NoOp(a))),
        (forall|i: int, p: int|
            #[trigger] c.cs().pat().in_lane(i, p) ==> after.cs().vals()[p] == 0 * c.cs().vals()[p] + 1
                * op_entry(csr_op(Op::NoOp(a)), i, c.cs().pat().indices()[p] as int)) ==> after.cs().vals()
            == a.cs().vals(),
{
    let pat = c.cs().pat();
    assert forall|i: int, p: int| #[trigger] pat.in_lane(i, p) implies op_entry(
        csr_op(Op::NoOp(a)),
        i,
        pat.indices()[p] as int,
    ) == a.cs().vals()[p] by {
        pat.lemma_slot_of(i, p);
    }
    assert forall|i: int, j: int| #[trigger] op_stored(csr_op(Op::NoOp(a)), i, j) implies c.cs().stored(
        i,
        j,
    ) by {}
    if forall|i: int, p: int|
        #[trigger] c.cs().pat().in_lane(i, p) ==> after.cs().vals()[p] == 0 * c.cs().vals()[p] + 1
            * op_entry(csr_op(Op::NoOp(a)), i, c.cs().pat().indices()[p] as int) {
        assert forall|p: int| 0 <= p < after.cs().vals().len() implies after.cs().vals()[p]
            == a.cs().vals()[p] by {
            pat.lemma_slot_in_lane(p);
            let i = choose|i: int| #[trigger] pat.in_lane(i, p);
            assert(pat.in_lane(i, p));
        }
        assert(after.cs().vals() =~= a.cs().vals());
    }
}

/// When `op(a)` stores a position that the pattern of `c` lacks, the sum does not fit the
/// pattern of `c`, so `spadd_csr_prealloc` fails with `InvalidPattern`.
pub proof fn lemma_spadd_missing_position(c: &CsrMatrix, a: Op<&CsrMatrix>, i: int, j: int)
    requires
        op_stored(csr_op(a), i, j),
        !c.stored(i, j),
    ensures
        !add_pattern_fits(&c.cs(), csr_op(a)),
{
}

/// When the product `op(a) * op(b)` has a structural nonzero at a position that the pattern of
/// `c` lacks, the product does not fit the pattern of `c`, so `spmm_csr_prealloc` fails with
/// `InvalidPattern` instead of dropping the contribution.
pub proof fn lemma_spmm_missing_position(
    c: &CsrMatrix,
    a: Op<&CsrMatrix>,
    b: Op<&CsrMatrix>,
    i: int,
    k: int,
    j: int,
)
    requires
        op_stored(csr_op(a), i, k),
        op_stored(csr_op(b), k, j),
        !c.stored(i, j),
    ensures
        !mul_pattern_fits(&c.cs(), csr_op(a), csr_op(b)),
{
}

} // verus!
