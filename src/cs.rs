use vstd::prelude::*;

use crate::ops::{Op, OperationError, OperationErrorKind};
use crate::pattern::SparsityPattern;

verus! {

/// The value fits in an `i64`.
pub open spec fn fits(x: int) -> bool {
    i64::MIN <= x <= i64::MAX
}

/// A compressed sparse matrix indexed by lane (major) and position within the lane (minor).
pub struct CsMatrix {
    pattern: SparsityPattern,
    values: Vec<i64>,
}

impl CsMatrix {
    pub closed spec fn pat(&self) -> SparsityPattern {
        self.pattern
    }

    pub closed spec fn vals(&self) -> Seq<i64> {
        self.values@
    }

    /// The pattern is valid and holds one value per stored position.
    pub open spec fn wf(&self) -> bool {
        self.pat().wf() && self.vals().len() == self.pat().nnz_spec()
    }

    pub open spec fn major(&self) -> nat {
        self.pat().major()
    }

    pub open spec fn minor(&self) -> nat {
        self.pat().minor()
    }

    /// Position `(i, j)` is stored.
    pub open spec fn stored(&self, i: int, j: int) -> bool {
        self.pat().contains(i, j)
    }

    /// The value at `(i, j)`: the stored one, or zero.
    pub open spec fn entry(&self, i: int, j: int) -> int {
        if self.stored(i, j) {
            self.vals()[self.pat().slot_of(i, j)] as int
        } else {
            0
        }
    }

    pub fn try_from_pattern_and_values(pattern: SparsityPattern, values: Vec<i64>) -> (r: Option<
        CsMatrix,
    >)
        requires
            pattern.wf(),
        ensures
            r is Some <==> values@.len() == pattern.nnz_spec(),
            r matches Some(m) ==> m.wf() && m.pat() == pattern && m.vals() == values@,
    {
        if values.len() != pattern.nnz() {
            return None;
        }
        Some(CsMatrix { pattern, values })
    }

    pub fn pattern(&self) -> (r: &SparsityPattern)
        ensures
            *r == self.pat(),
    {
        &self.pattern
    }

    pub fn values(&self) -> (r: &Vec<i64>)
        ensures
            r@ == self.vals(),
    {
        &self.values
    }

    /// The value stored at `(i, j)`, or `None` when the position is not stored.
    pub fn get_entry(&self, i: usize, j: usize) -> (r: Option<i64>)
        requires
            self.wf(),
        ensures
            r is Some <==> self.stored(i as int, j as int),
            r matches Some(v) ==> v == self.entry(i as int, j as int),
    {
        match self.pattern.get_entry_offset(i, j) {
            None => None,
            Some(p) => {
                proof {
                    self.pattern.lemma_slot_of(i as int, p as int);
                }
                Some(self.values[p])
            },
        }
    }
}

/// The number of rows of the operand as used.
pub open spec fn op_rows(a: Op<&CsMatrix>) -> nat {
    match a {
        Op::NoOp(m) => m.major(),
        Op::Transpose(m) => m.minor(),
    }
}

/// The number of columns of the operand as used.
pub open spec fn op_cols(a: Op<&CsMatrix>) -> nat {
    match a {
        Op::NoOp(m) => m.minor(),
        Op::Transpose(m) => m.major(),
    }
}

/// Position `(i, j)` of the operand as used is stored.
pub open spec fn op_stored(a: Op<&CsMatrix>, i: int, j: int) -> bool {
    match a {
        Op::NoOp(m) => m.stored(i, j),
        Op::Transpose(m) => m.stored(j, i),
    }
}

/// The entry `(i, j)` of the operand as used.
pub open spec fn op_entry(a: Op<&CsMatrix>, i: int, j: int) -> int {
    match a {
        Op::NoOp(m) => m.entry(i, j),
        Op::Transpose(m) => m.entry(j, i),
    }
}

/// The first `n` terms of the dot product of row `i` of `op(a)` with column `j` of `op(b)`.
pub open spec fn dot(a: Op<&CsMatrix>, b: Op<&CsMatrix>, i: int, j: int, n: int) -> int
    decreases n,
{
    if n <= 0 {
        0
    } else {
        dot(a, b, i, j, n - 1) + op_entry(a, i, n - 1) * op_entry(b, n - 1, j)
    }
}

/// Every position that `op(a)` stores is stored in `c`.
pub open spec fn add_pattern_fits(c: &CsMatrix, a: Op<&CsMatrix>) -> bool {
    forall|i: int, j: int| #[trigger] op_stored(a, i, j) ==> c.stored(i, j)
}

/// Every position where the product `op(a) * op(b)` has a structural nonzero is stored in `c`.
pub open spec fn mul_pattern_fits(c: &CsMatrix, a: Op<&CsMatrix>, b: Op<&CsMatrix>) -> bool {
    forall|i: int, k: int, j: int|
        #[trigger] op_stored(a, i, k) && #[trigger] op_stored(b, k, j) ==> c.stored(i, j)
}

/// `beta * c + alpha * op(a)` and its intermediate values fit in an `i64` at every stored slot.
pub open spec fn add_fits(c: &CsMatrix, beta: i64, alpha: i64, a: Op<&CsMatrix>) -> bool {
    forall|i: int, p: int|
        #[trigger] c.pat().in_lane(i, p) ==> {
            let x = beta * c.vals()[p];
            let y = alpha * op_entry(a, i, c.pat().indices()[p] as int);
            fits(x) && fits(y) && fits(x + y)
        }
}

/// `beta * c + alpha * op(a) * op(b)` and its intermediate values fit in an `i64` at every
/// stored slot, the partial sums of each dot product included.
pub open spec fn mul_fits(c: &CsMatrix, beta: i64, alpha: i64, a: Op<&CsMatrix>, b: Op<&CsMatrix>) -> bool {
    forall|i: int, p: int|
        #[trigger] c.pat().in_lane(i, p) ==> {
            let j = c.pat().indices()[p] as int;
            let d = dot(a, b, i, j, op_cols(a) as int);
            &&& forall|n: int| 0 <= n <= op_cols(a) ==> fits(#[trigger] dot(a, b, i, j, n))
            &&& forall|k: int|
                0 <= k < op_cols(a) ==> fits(#[trigger] op_entry(a, i, k) * op_entry(b, k, j))
            &&& fits(beta * c.vals()[p])
            &&& fits(alpha * d)
            &&& fits(beta * c.vals()[p] + alpha * d)
        }
}

/// The entry `(i, j)` of the operand as used, or `None` when it is not stored.
fn op_get(a: Op<&CsMatrix>, i: usize, j: usize) -> (r: Option<i64>)
    requires
        a.operand().wf(),
    ensures
        r is Some <==> op_stored(a, i as int, j as int),
        r matches Some(v) ==> v == op_entry(a, i as int, j as int),
        r is None ==> op_entry(a, i as int, j as int) == 0,
{
    match a {
        Op::NoOp(m) => m.get_entry(i, j),
        Op::Transpose(m) => m.get_entry(j, i),
    }
}

/// Every stored position of `op(a)` is stored in `c`.
fn add_pattern_covered(c: &CsMatrix, a: Op<&CsMatrix>) -> (r: bool)
    requires
        c.wf(),
        a.operand().wf(),
    ensures
        r == add_pattern_fits(c, a),
{
    let m = match a {
        Op::NoOp(m) => m,
        Op::Transpose(m) => m,
    };
    let transposed = match a {
        Op::NoOp(_) => false,
        Op::Transpose(_) => true,
    };
    let ghost mp = m.pat();
    proof {
        mp.lemma_lanes_sorted();
    }
    let mut l: usize = 0;
    while l < m.pattern.major_dim()
        invariant
            c.wf(),
            m.wf(),
            mp == m.pat(),
            m == a.operand(),
            transposed == a.is_transposed(),
            l <= mp.major(),
            forall|i: int, p: int| #[trigger] mp.in_lane(i, p) ==> 0 <= p < mp.nnz_spec(),
            forall|l2: int, p: int|
                0 <= l2 < l && #[trigger] mp.in_lane(l2, p) ==> (if transposed {
                    c.stored(mp.indices()[p] as int, l2)
                } else {
                    c.stored(l2, mp.indices()[p] as int)
                }),
        decreases mp.major() - l,
    {
        let (start, end) = m.pattern.lane_bounds(l);
        let mut q: usize = start;
        while q < end
            invariant
                c.wf(),
                m.wf(),
                mp == m.pat(),
                m == a.operand(),
                transposed == a.is_transposed(),
                l < mp.major(),
                start == mp.offsets()[l as int],
                end == mp.offsets()[l + 1],
                end <= mp.nnz_spec(),
                start <= q <= end,
                forall|i: int, p: int| #[trigger] mp.in_lane(i, p) ==> 0 <= p < mp.nnz_spec(),
                forall|l2: int, p: int|
                    (0 <= l2 < l || (l2 == l && p < q)) && #[trigger] mp.in_lane(l2, p) ==> (
                    if transposed {
                        c.stored(mp.indices()[p] as int, l2)
                    } else {
                        c.stored(l2, mp.indices()[p] as int)
                    }),
            decreases end - q,
        {
            let idx = m.pattern.minor_indices()[q];
            let found = if transposed {
                c.pattern.get_entry_offset(idx, l)
            } else {
                c.pattern.get_entry_offset(l, idx)
            };
            if found.is_none() {
                proof {
                    mp.lemma_slot_of(l as int, q as int);
                    if transposed {
                        assert(op_stored(a, idx as int, l as int));
                    } else {
                        assert(op_stored(a, l as int, idx as int));
                    }
                }
                return false;
            }
            q = q + 1;
        }
        l = l + 1;
    }
    assert forall|i: int, j: int| #[trigger] op_stored(a, i, j) implies c.stored(i, j) by {
        let (l2, mn) = if transposed { (j, i) } else { (i, j) };
        assert(mp.contains(l2, mn));
        let p = choose|p: int| #[trigger] mp.in_lane(l2, p) && mp.indices()[p] == mn;
        assert(mp.in_lane(l2, p));
    }
    true
}

fn invalid_pattern(message: &str) -> (r: OperationError)
    ensures
        r.kind_spec() == OperationErrorKind::InvalidPattern,
{
    OperationError::from_kind_and_message(OperationErrorKind::InvalidPattern, message.to_string())
}

/// Computes `c := beta * c + alpha * op(a)` into the pattern of `c`, which must hold every
/// position that `op(a)` stores; otherwise `c` is left as it is and the pattern error returned.
pub fn spadd_cs_prealloc(beta: i64, c: &mut CsMatrix, alpha: i64, a: Op<&CsMatrix>) -> (r: Result<
    (),
    OperationError,
>)
    requires
        old(c).wf(),
        a.operand().wf(),
        old(c).major() == op_rows(a),
        old(c).minor() == op_cols(a),
        add_fits(old(c), beta, alpha, a),
    ensures
        final(c).wf(),
        final(c).pat() == old(c).pat(),
        r is Ok <==> add_pattern_fits(old(c), a),
        r matches Err(e) ==> e.kind_spec() == OperationErrorKind::InvalidPattern && final(c).vals()
            == old(c).vals(),
        r is Ok ==> forall|i: int, p: int|
            #[trigger] old(c).pat().in_lane(i, p) ==> final(c).vals()[p] == beta * old(c).vals()[p]
                + alpha * op_entry(a, i, old(c).pat().indices()[p] as int),
{
    if !add_pattern_covered(c, a) {
        return Err(invalid_pattern("the output pattern does not contain every entry of the operand"));
    }
    let ghost c0 = *c;
    let ghost cp = c.pat();
    proof {
        cp.lemma_lanes_sorted();
    }
    let n = c.pattern.major_dim();
    let mut i: usize = 0;
    while i < n
        invariant
            n == cp.major(),
            c.wf(),
            c.pat() == cp,
            c0.pat() == cp,
            c0.wf(),
            a.operand().wf(),
            add_fits(&c0, beta, alpha, a),
            i <= n,
            forall|l: int, p: int| #[trigger] cp.in_lane(l, p) ==> 0 <= p < cp.nnz_spec(),
            forall|l: int, p: int|
                #[trigger] cp.in_lane(l, p) ==> (if l < i {
                    c.vals()[p] == beta * c0.vals()[p] + alpha * op_entry(a, l, cp.indices()[p] as int)
                } else {
                    c.vals()[p] == c0.vals()[p]
                }),
        decreases n - i,
    {
        let (start, end) = c.pattern.lane_bounds(i);
        let mut p: usize = start;
        while p < end
            invariant
                n == cp.major(),
                c.wf(),
                c.pat() == cp,
                c0.pat() == cp,
                c0.wf(),
                a.operand().wf(),
                add_fits(&c0, beta, alpha, a),
                i < n,
                start == cp.offsets()[i as int],
                end == cp.offsets()[i + 1],
                start <= p <= end,
                end <= cp.nnz_spec(),
                forall|l: int, q: int| #[trigger] cp.in_lane(l, q) ==> 0 <= q < cp.nnz_spec(),
                forall|l: int, q: int|
                    #[trigger] cp.in_lane(l, q) ==> (if l < i || (l == i && q < p) {
                        c.vals()[q] == beta * c0.vals()[q] + alpha * op_entry(
                            a,
                            l,
                            cp.indices()[q] as int,
                        )
                    } else {
                        c.vals()[q] == c0.vals()[q]
                    }),
            decreases end - p,
        {
            assert(cp.in_lane(i as int, p as int));
            let j = c.pattern.minor_indices()[p];
            let av = match op_get(a, i, j) {
                Some(v) => v,
                None => 0,
            };
            let v = c.values[p];
            let x = beta * v;
            let y = alpha * av;
            let ghost before = c.vals();
            c.values.set(p, x + y);
            proof {
                assert forall|l: int, q: int| #[trigger] cp.in_lane(l, q) && q != p implies c.vals()[q]
                    == before[q] by {}
                assert forall|l: int, q: int| #[trigger] cp.in_lane(l, q) && q == p implies l == i by {
                    if l < i {
                        cp.lemma_slot_of(l, q);
                        assert(cp.offsets()[l + 1] <= cp.offsets()[i as int]) by {
                            crate::pattern::lemma_offsets_ordered(cp.offsets());
                        }
                    } else if l > i {
                        assert(cp.offsets()[i + 1] <= cp.offsets()[l]) by {
                            crate::pattern::lemma_offsets_ordered(cp.offsets());
                        }
                    }
                }
            }
            p = p + 1;
        }
        i = i + 1;
    }
    Ok(())
}

/// The first `n` terms of the dot product of row `i` of `op(a)` with column `j` of `op(b)`.
fn dot_product(a: Op<&CsMatrix>, b: Op<&CsMatrix>, i: usize, j: usize, n: usize) -> (r: i64)
    requires
        a.operand().wf(),
        b.operand().wf(),
        forall|m: int| 0 <= m <= n ==> fits(#[trigger] dot(a, b, i as int, j as int, m)),
        forall|k: int|
            0 <= k < n ==> fits(#[trigger] op_entry(a, i as int, k) * op_entry(b, k, j as int)),
    ensures
        r == dot(a, b, i as int, j as int, n as int),
{
    let mut acc: i64 = 0;
    let mut k: usize = 0;
    while k < n
        invariant
            a.operand().wf(),
            b.operand().wf(),
            k <= n,
            acc == dot(a, b, i as int, j as int, k as int),
            forall|m: int| 0 <= m <= n ==> fits(#[trigger] dot(a, b, i as int, j as int, m)),
            forall|m: int|
                0 <= m < n ==> fits(#[trigger] op_entry(a, i as int, m) * op_entry(b, m, j as int)),
        decreases n - k,
    {
        let ghost next = dot(a, b, i as int, j as int, k + 1);
        assert(fits(next));
        assert(fits(op_entry(a, i as int, k as int) * op_entry(b, k as int, j as int)));
        match (op_get(a, i, k), op_get(b, k, j)) {
            (Some(x), Some(y)) => {
                let t = x * y;
                acc = acc + t;
            },
            (Some(x), None) => {
                assert(op_entry(a, i as int, k as int) * op_entry(b, k as int, j as int) == 0) by (nonlinear_arith)
                    requires op_entry(b, k as int, j as int) == 0;
            },
            (None, _) => {
                assert(op_entry(a, i as int, k as int) * op_entry(b, k as int, j as int) == 0) by (nonlinear_arith)
                    requires op_entry(a, i as int, k as int) == 0;
            },
        }
        k = k + 1;
    }
    acc
}

/// Terms whose left factor is zero leave the dot product unchanged.
proof fn lemma_dot_gap(a: Op<&CsMatrix>, b: Op<&CsMatrix>, i: int, j: int, lo: int, hi: int)
    requires
        0 <= lo <= hi,
        forall|m: int| lo <= m < hi ==> #[trigger] op_entry(a, i, m) == 0,
    ensures
        dot(a, b, i, j, hi) == dot(a, b, i, j, lo),
    decreases hi - lo,
{
    if lo < hi {
        lemma_dot_gap(a, b, i, j, lo, hi - 1);
        assert(op_entry(a, i, hi - 1) == 0);
        assert(op_entry(a, i, hi - 1) * op_entry(b, hi - 1, j) == 0);
    }
}

/// Row `i` of `a` times column `j` of `op(b)`, visiting only the entries stored in row `i` of `a`.
fn lane_dot_product(a: &CsMatrix, b: Op<&CsMatrix>, i: usize, j: usize) -> (r: i64)
    requires
        a.wf(),
        b.operand().wf(),
        i < a.major(),
        forall|m: int| 0 <= m <= a.minor() ==> fits(#[trigger] dot(Op::NoOp(a), b, i as int, j as int, m)),
        forall|k: int|
            0 <= k < a.minor() ==> fits(#[trigger] op_entry(Op::NoOp(a), i as int, k) * op_entry(b, k, j as int)),
    ensures
        r == dot(Op::NoOp(a), b, i as int, j as int, a.minor() as int),
{
    let ghost ap = a.pat();
    let ghost opa = Op::NoOp(a);
    proof {
        ap.lemma_lanes_sorted();
    }
    let (start, end) = a.pattern.lane_bounds(i);
    let mdim = a.pattern.minor_dim();
    let mut acc: i64 = 0;
    let mut q: usize = start;
    let mut lo: usize = 0;
    while q < end
        invariant
            mdim == ap.minor(),
            a.wf(),
            b.operand().wf(),
            ap == a.pat(),
            opa == Op::NoOp(a),
            i < ap.major(),
            start == ap.offsets()[i as int],
            end == ap.offsets()[i + 1],
            end <= ap.nnz_spec(),
            start <= q <= end,
            lo <= ap.minor(),
            q > start ==> lo == ap.indices()[q - 1] + 1,
            q == start ==> lo == 0,
            acc == dot(opa, b, i as int, j as int, lo as int),
            forall|m: int| 0 <= m <= a.minor() ==> fits(#[trigger] dot(opa, b, i as int, j as int, m)),
            forall|k: int|
                0 <= k < a.minor() ==> fits(#[trigger] op_entry(opa, i as int, k) * op_entry(b, k, j as int)),
            forall|l: int, p: int, r: int|
                #![trigger ap.in_lane(l, p), ap.in_lane(l, r)]
                ap.in_lane(l, p) && ap.in_lane(l, r) && p < r ==> ap.indices()[p] < ap.indices()[r],
            forall|l: int, p: int| #[trigger] ap.in_lane(l, p) ==> 0 <= p < ap.nnz_spec(),
            forall|l: int, p: int| #[trigger] ap.in_lane(l, p) ==> ap.indices()[p] < ap.minor(),
        decreases end - q,
    {
        let k = a.pattern.minor_indices()[q];
        assert(ap.in_lane(i as int, q as int));
        assert(k < ap.minor());
        proof {
            if q > start {
                assert(ap.in_lane(i as int, q - 1));
            }
            assert forall|m: int| lo <= m < k implies #[trigger] op_entry(opa, i as int, m) == 0 by {
                if a.stored(i as int, m) {
                    let p = choose|p: int| #[trigger] ap.in_lane(i as int, p) && ap.indices()[p] == m;
                    if p < q {
                        if p < q - 1 {
                            assert(ap.in_lane(i as int, q - 1));
                        }
                    } else if p > q {
                        assert(ap.in_lane(i as int, q as int));
                    }
                }
            }
            lemma_dot_gap(opa, b, i as int, j as int, lo as int, k as int);
            ap.lemma_slot_of(i as int, q as int);
            assert(fits(dot(opa, b, i as int, j as int, k + 1)));
            assert(fits(op_entry(opa, i as int, k as int) * op_entry(b, k as int, j as int)));
        }
        let x = a.values[q];
        match op_get(b, k, j) {
            Some(y) => {
                let t = x * y;
                acc = acc + t;
            },
            None => {
                assert(op_entry(opa, i as int, k as int) * op_entry(b, k as int, j as int) == 0) by (nonlinear_arith)
                    requires op_entry(b, k as int, j as int) == 0;
            },
        }
        lo = k + 1;
        q = q + 1;
    }
    proof {
        if q > start {
            assert(ap.in_lane(i as int, q - 1));
        }
        assert forall|m: int| lo <= m < a.minor() implies #[trigger] op_entry(opa, i as int, m) == 0 by {
            if a.stored(i as int, m) {
                let p = choose|p: int| #[trigger] ap.in_lane(i as int, p) && ap.indices()[p] == m;
                if p < q - 1 {
                    assert(ap.in_lane(i as int, q - 1));
                }
            }
        }
        lemma_dot_gap(opa, b, i as int, j as int, lo as int, a.minor() as int);
    }
    acc
}

/// The row-`i`, column-`j` pair used by a stored slot of the operand, given the slot's lane
/// `l` and minor index `m`.
pub open spec fn op_position(transposed: bool, l: int, m: int) -> (int, int) {
    if transposed {
        (m, l)
    } else {
        (l, m)
    }
}

/// Every column `j` stored in row `k` of `op(b)` is stored in row `i` of `c`.
fn row_product_covered(c: &CsMatrix, b: Op<&CsMatrix>, i: usize, k: usize) -> (r: bool)
    requires
        c.wf(),
        b.operand().wf(),
        c.minor() == op_cols(b),
        k < op_rows(b),
    ensures
        r == (forall|j: int| #[trigger] op_stored(b, k as int, j) ==> c.stored(i as int, j)),
{
    match b {
        Op::NoOp(bm) => {
            let ghost bp = bm.pat();
            proof {
                bp.lemma_lanes_sorted();
            }
            let (start, end) = bm.pattern.lane_bounds(k);
            let mut q: usize = start;
            while q < end
                invariant
                    c.wf(),
                    bm.wf(),
                    bp == bm.pat(),
                    b == Op::NoOp(bm),
                    k < bp.major(),
                    start == bp.offsets()[k as int],
                    end == bp.offsets()[k + 1],
                    start <= q <= end,
                    end <= bp.nnz_spec(),
                    forall|l: int, p: int| #[trigger] bp.in_lane(l, p) ==> 0 <= p < bp.nnz_spec(),
                    forall|p: int|
                        start <= p < q ==> c.stored(i as int, #[trigger] bp.indices()[p] as int),
                decreases end - q,
            {
                let j = bm.pattern.minor_indices()[q];
                if c.pattern.get_entry_offset(i, j).is_none() {
                    proof {
                        bp.lemma_slot_of(k as int, q as int);
                        assert(op_stored(b, k as int, j as int));
                    }
                    return false;
                }
                q = q + 1;
            }
            proof {
                assert forall|j: int| #[trigger] op_stored(b, k as int, j) implies c.stored(i as int, j) by {
                    let p = choose|p: int| #[trigger] bp.in_lane(k as int, p) && bp.indices()[p] == j;
                    assert(bp.in_lane(k as int, p));
                }
            }
            true
        },
        Op::Transpose(_) => {
            let ncols = c.pattern.minor_dim();
            let mut j: usize = 0;
            while j < ncols
                invariant
                    c.wf(),
                    b.operand().wf(),
                    ncols == c.minor(),
                    ncols == op_cols(b),
                    j <= ncols,
                    forall|j2: int| 0 <= j2 < j && #[trigger] op_stored(b, k as int, j2) ==> c.stored(i as int, j2),
                decreases ncols - j,
            {
                if op_get(b, k, j).is_some() && c.pattern.get_entry_offset(i, j).is_none() {
                    return false;
                }
                j = j + 1;
            }
            proof {
                let bp = b.operand().pat();
                bp.lemma_lanes_sorted();
                assert forall|j2: int| #[trigger] op_stored(b, k as int, j2) implies c.stored(i as int, j2) by {
                    let p = choose|p: int| #[trigger] bp.in_lane(j2, p) && bp.indices()[p] == k;
                    assert(bp.in_lane(j2, p));
                }
            }
            true
        },
    }
}

/// Every structural nonzero of `op(a) * op(b)` is stored in `c`.
fn mul_pattern_covered(c: &CsMatrix, a: Op<&CsMatrix>, b: Op<&CsMatrix>) -> (r: bool)
    requires
        c.wf(),
        a.operand().wf(),
        b.operand().wf(),
        c.minor() == op_cols(b),
        op_cols(a) == op_rows(b),
    ensures
        r == mul_pattern_fits(c, a, b),
{
    let m = match a {
        Op::NoOp(m) => m,
        Op::Transpose(m) => m,
    };
    let transposed = match a {
        Op::NoOp(_) => false,
        Op::Transpose(_) => true,
    };
    let ghost mp = m.pat();
    proof {
        mp.lemma_lanes_sorted();
    }
    let mut l: usize = 0;
    while l < m.pattern.major_dim()
        invariant
            c.wf(),
            m.wf(),
            b.operand().wf(),
            mp == m.pat(),
            m == a.operand(),
            transposed == a.is_transposed(),
            c.minor() == op_cols(b),
            op_cols(a) == op_rows(b),
            forall|i: int, p: int| #[trigger] mp.in_lane(i, p) ==> mp.indices()[p] < mp.minor(),
            l <= mp.major(),
            forall|i: int, p: int| #[trigger] mp.in_lane(i, p) ==> 0 <= p < mp.nnz_spec(),
            forall|l2: int, p: int, j: int|
                0 <= l2 < l && #[trigger] mp.in_lane(l2, p) && #[trigger] op_stored(
                    b,
                    op_position(transposed, l2, mp.indices()[p] as int).1,
                    j,
                ) ==> c.stored(op_position(transposed, l2, mp.indices()[p] as int).0, j),
        decreases mp.major() - l,
    {
        let (start, end) = m.pattern.lane_bounds(l);
        let mut q: usize = start;
        while q < end
            invariant
                c.wf(),
                m.wf(),
                b.operand().wf(),
                mp == m.pat(),
                m == a.operand(),
                transposed == a.is_transposed(),
                c.minor() == op_cols(b),
                op_cols(a) == op_rows(b),
                forall|i: int, p: int| #[trigger] mp.in_lane(i, p) ==> mp.indices()[p] < mp.minor(),
                l < mp.major(),
                start == mp.offsets()[l as int],
                end == mp.offsets()[l + 1],
                end <= mp.nnz_spec(),
                start <= q <= end,
                forall|i: int, p: int| #[trigger] mp.in_lane(i, p) ==> 0 <= p < mp.nnz_spec(),
                forall|l2: int, p: int, j: int|
                    (0 <= l2 < l || (l2 == l && p < q)) && #[trigger] mp.in_lane(l2, p)
                        && #[trigger] op_stored(
                        b,
                        op_position(transposed, l2, mp.indices()[p] as int).1,
                        j,
                    ) ==> c.stored(op_position(transposed, l2, mp.indices()[p] as int).0, j),
            decreases end - q,
        {
            assert(mp.in_lane(l as int, q as int));
            let idx = m.pattern.minor_indices()[q];
            assert(idx < mp.minor());
            let (i, k) = if transposed {
                (idx, l)
            } else {
                (l, idx)
            };
            if !row_product_covered(c, b, i, k) {
                proof {
                    mp.lemma_slot_of(l as int, q as int);
                    assert(op_stored(a, i as int, k as int));
                }
                return false;
            }
            q = q + 1;
        }
        l = l + 1;
    }
    assert forall|i: int, k: int, j: int|
        #[trigger] op_stored(a, i, k) && #[trigger] op_stored(b, k, j) implies c.stored(i, j) by {
        let (l2, mn) = op_position(transposed, i, k);
        assert(mp.contains(l2, mn));
        let p = choose|p: int| #[trigger] mp.in_lane(l2, p) && mp.indices()[p] == mn;
        assert(mp.in_lane(l2, p));
        assert(op_stored(b, op_position(transposed, l2, mp.indices()[p] as int).1, j));
    }
    true
}

/// Computes `c := beta * c + alpha * op(a) * op(b)` into the pattern of `c`, which must hold
/// every structural nonzero of the product; otherwise `c` is left as it is and the pattern
/// error returned.
pub fn spmm_cs_prealloc(
    beta: i64,
    c: &mut CsMatrix,
    alpha: i64,
    a: Op<&CsMatrix>,
    b: Op<&CsMatrix>,
) -> (r: Result<(), OperationError>)
    requires
        old(c).wf(),
        a.operand().wf(),
        b.operand().wf(),
        old(c).major() == op_rows(a),
        old(c).minor() == op_cols(b),
        op_cols(a) == op_rows(b),
        mul_fits(old(c), beta, alpha, a, b),
    ensures
        final(c).wf(),
        final(c).pat() == old(c).pat(),
        r is Ok <==> mul_pattern_fits(old(c), a, b),
        r matches Err(e) ==> e.kind_spec() == OperationErrorKind::InvalidPattern && final(c).vals()
            == old(c).vals(),
        r is Ok ==> forall|i: int, p: int|
            #[trigger] old(c).pat().in_lane(i, p) ==> final(c).vals()[p] == beta * old(c).vals()[p]
                + alpha * dot(a, b, i, old(c).pat().indices()[p] as int, op_cols(a) as int),
{
    if !mul_pattern_covered(c, a, b) {
        return Err(invalid_pattern("the output pattern does not contain every entry of the product"));
    }
    let inner = match a {
        Op::NoOp(m) => m.pattern.minor_dim(),
        Op::Transpose(m) => m.pattern.major_dim(),
    };
    let ghost c0 = *c;
    let ghost cp = c.pat();
    proof {
        cp.lemma_lanes_sorted();
    }
    let n = c.pattern.major_dim();
    let mut i: usize = 0;
    while i < n
        invariant
            n == cp.major(),
            c.wf(),
            c.pat() == cp,
            c0.pat() == cp,
            c0.wf(),
            a.operand().wf(),
            b.operand().wf(),
            inner == op_cols(a),
            n == op_rows(a),
            mul_fits(&c0, beta, alpha, a, b),
            i <= n,
            forall|l: int, p: int| #[trigger] cp.in_lane(l, p) ==> 0 <= p < cp.nnz_spec(),
            forall|l: int, p: int|
                #[trigger] cp.in_lane(l, p) ==> (if l < i {
                    c.vals()[p] == beta * c0.vals()[p] + alpha * dot(
                        a,
                        b,
                        l,
                        cp.indices()[p] as int,
                        inner as int,
                    )
                } else {
                    c.vals()[p] == c0.vals()[p]
                }),
        decreases n - i,
    {
        let (start, end) = c.pattern.lane_bounds(i);
        let mut p: usize = start;
        while p < end
            invariant
                n == cp.major(),
                c.wf(),
                c.pat() == cp,
                c0.pat() == cp,
                c0.wf(),
                a.operand().wf(),
                b.operand().wf(),
                inner == op_cols(a),
                n == op_rows(a),
                mul_fits(&c0, beta, alpha, a, b),
                i < n,
                start == cp.offsets()[i as int],
                end == cp.offsets()[i + 1],
                start <= p <= end,
                end <= cp.nnz_spec(),
                forall|l: int, q: int| #[trigger] cp.in_lane(l, q) ==> 0 <= q < cp.nnz_spec(),
                forall|l: int, q: int|
                    #[trigger] cp.in_lane(l, q) ==> (if l < i || (l == i && q < p) {
                        c.vals()[q] == beta * c0.vals()[q] + alpha * dot(
                            a,
                            b,
                            l,
                            cp.indices()[q] as int,
                            inner as int,
                        )
                    } else {
                        c.vals()[q] == c0.vals()[q]
                    }),
            decreases end - p,
        {
            assert(cp.in_lane(i as int, p as int));
            let j = c.pattern.minor_indices()[p];
            let d = match a {
                Op::NoOp(am) => lane_dot_product(am, b, i, j),
                Op::Transpose(_) => dot_product(a, b, i, j, inner),
            };
            let v = c.values[p];
            let x = beta * v;
            let y = alpha * d;
            let ghost before = c.vals();
            c.values.set(p, x + y);
            proof {
                assert forall|l: int, q: int| #[trigger] cp.in_lane(l, q) && q != p implies c.vals()[q]
                    == before[q] by {}
                assert forall|l: int, q: int| #[trigger] cp.in_lane(l, q) && q == p implies l == i by {
                    if l < i {
                        assert(cp.offsets()[l + 1] <= cp.offsets()[i as int]) by {
                            crate::pattern::lemma_offsets_ordered(cp.offsets());
                        }
                    } else if l > i {
                        assert(cp.offsets()[i + 1] <= cp.offsets()[l]) by {
                            crate::pattern::lemma_offsets_ordered(cp.offsets());
                        }
                    }
                }
            }
            p = p + 1;
        }
        i = i + 1;
    }
    Ok(())
}

} // verus!
