use vstd::prelude::*;

use crate::cs::fits;
use crate::dense::SquareMatrix;

verus! {

/// `m * diag(v[0], v[1], 1)`: the first two columns of `m` scaled by `v[0]` and `v[1]`.
pub open spec fn scale2d_spec(m: Seq<Seq<i64>>, v: Seq<i64>, i: int, j: int) -> int {
    if j == 0 {
        m[i][0] * v[0]
    } else if j == 1 {
        m[i][1] * v[1]
    } else {
        m[i][2] as int
    }
}

/// `m * [[1, 0, v[0]], [0, 1, v[1]], [0, 0, 1]]`: the last column becomes
/// `v[0] * column 0 + v[1] * column 1 + column 2`.
pub open spec fn translate2d_spec(m: Seq<Seq<i64>>, v: Seq<i64>, i: int, j: int) -> int {
    if j == 2 {
        m[i][0] * v[0] + m[i][1] * v[1] + m[i][2]
    } else {
        m[i][j] as int
    }
}

/// Builds a 2D scaling matrix and right-multiplies it to the 3x3 homogeneous matrix `m`.
pub fn scale2d(m: &SquareMatrix, v: &[i64; 2]) -> (r: SquareMatrix)
    requires
        m.wf(),
        m.dim_spec() == 3,
        forall|i: int, j: int| 0 <= i < 3 && 0 <= j < 3 ==> fits(#[trigger] scale2d_spec(m.view(), v@, i, j)),
    ensures
        r.wf(),
        r.dim_spec() == 3,
        forall|i: int, j: int|
            0 <= i < 3 && 0 <= j < 3 ==> #[trigger] r.view()[i][j] == scale2d_spec(m.view(), v@, i, j),
{
    let mut rows: Vec<Vec<i64>> = Vec::new();
    let mut i: usize = 0;
    while i < 3
        invariant
            m.wf(),
            m.dim_spec() == 3,
            forall|a: int, b: int| 0 <= a < 3 && 0 <= b < 3 ==> fits(#[trigger] scale2d_spec(m.view(), v@, a, b)),
            i <= 3,
            rows@.len() == i,
            forall|a: int| 0 <= a < i ==> #[trigger] rows@[a]@.len() == 3,
            forall|a: int, b: int|
                0 <= a < i && 0 <= b < 3 ==> #[trigger] rows@[a]@[b] == scale2d_spec(m.view(), v@, a, b),
        decreases 3 - i,
    {
        assert(fits(scale2d_spec(m.view(), v@, i as int, 0)));
        assert(fits(scale2d_spec(m.view(), v@, i as int, 1)));
        let row = vec![m.get(i, 0) * v[0], m.get(i, 1) * v[1], m.get(i, 2)];
        rows.push(row);
        i = i + 1;
    }
    SquareMatrix::from_rows(rows)
}

/// Builds a 2D translation matrix and right-multiplies it to the 3x3 homogeneous matrix `m`.
pub fn translate2d(m: &SquareMatrix, v: &[i64; 2]) -> (r: SquareMatrix)
    requires
        m.wf(),
        m.dim_spec() == 3,
        forall|i: int| 0 <= i < 3 ==> fits(#[trigger] (m.view()[i][0] * v@[0])),
        forall|i: int| 0 <= i < 3 ==> fits(#[trigger] (m.view()[i][1] * v@[1])),
        forall|i: int| 0 <= i < 3 ==> fits(#[trigger] (m.view()[i][0] * v@[0] + m.view()[i][1] * v@[1])),
        forall|i: int| 0 <= i < 3 ==> fits(#[trigger] translate2d_spec(m.view(), v@, i, 2)),
    ensures
        r.wf(),
        r.dim_spec() == 3,
        forall|i: int, j: int|
            0 <= i < 3 && 0 <= j < 3 ==> #[trigger] r.view()[i][j] == translate2d_spec(m.view(), v@, i, j),
{
    let mut rows: Vec<Vec<i64>> = Vec::new();
    let mut i: usize = 0;
    while i < 3
        invariant
            m.wf(),
            m.dim_spec() == 3,
            forall|a: int| 0 <= a < 3 ==> fits(#[trigger] (m.view()[a][0] * v@[0])),
            forall|a: int| 0 <= a < 3 ==> fits(#[trigger] (m.view()[a][1] * v@[1])),
            forall|a: int| 0 <= a < 3 ==> fits(#[trigger] (m.view()[a][0] * v@[0] + m.view()[a][1] * v@[1])),
            forall|a: int| 0 <= a < 3 ==> fits(#[trigger] translate2d_spec(m.view(), v@, a, 2)),
            i <= 3,
            rows@.len() == i,
            forall|a: int| 0 <= a < i ==> #[trigger] rows@[a]@.len() == 3,
            forall|a: int, b: int|
                0 <= a < i && 0 <= b < 3 ==> #[trigger] rows@[a]@[b] == translate2d_spec(m.view(), v@, a, b),
        decreases 3 - i,
    {
        let x = m.get(i, 0) * v[0];
        let y = m.get(i, 1) * v[1];
        let s = x + y;
        assert(fits(translate2d_spec(m.view(), v@, i as int, 2)));
        let last = s + m.get(i, 2);
        let row = vec![m.get(i, 0), m.get(i, 1), last];
        rows.push(row);
        i = i + 1;
    }
    SquareMatrix::from_rows(rows)
}

} // verus!
