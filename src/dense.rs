use vstd::prelude::*;

verus! {

/// `|x|` over the integers.
pub open spec fn abs_int(x: int) -> int {
    if x < 0 {
        -x
    } else {
        x
    }
}

/// `sum over i < n of |m[i][j]|`: the first `n` terms of the absolute sum of column `j`.
pub open spec fn col_abs_sum(m: Seq<Seq<i64>>, j: int, n: int) -> int
    decreases n,
{
    if n <= 0 {
        0
    } else {
        col_abs_sum(m, j, n - 1) + abs_int(m[n - 1][j] as int)
    }
}

/// The largest of the first `k` column absolute sums of the `d x d` matrix `m`.
pub open spec fn max_col_abs_sum(m: Seq<Seq<i64>>, d: int, k: int) -> int
    decreases k,
{
    if k <= 1 {
        col_abs_sum(m, 0, d)
    } else {
        let prev = max_col_abs_sum(m, d, k - 1);
        let here = col_abs_sum(m, k - 1, d);
        if here > prev {
            here
        } else {
            prev
        }
    }
}

/// The matrix 1-norm: the largest absolute column sum.
pub open spec fn one_norm_spec(m: Seq<Seq<i64>>) -> int {
    max_col_abs_sum(m, m.len() as int, m.len() as int)
}

/// `sum over i < n of m[i][j] * v[i]`: the first `n` terms of entry `j` of `m^T * v`.
pub open spec fn col_dot(m: Seq<Seq<i64>>, v: Seq<int>, j: int, n: int) -> int
    decreases n,
{
    if n <= 0 {
        0
    } else {
        col_dot(m, v, j, n - 1) + m[n - 1][j] * v[n - 1]
    }
}

/// `m^T * v`.
pub open spec fn transpose_times(m: Seq<Seq<i64>>, v: Seq<int>) -> Seq<int> {
    Seq::new(m.len(), |j: int| col_dot(m, v, j, m.len() as int))
}

/// `(m^T)^p * 1`: entry `j` is the sum of column `j` of `m^p`.
pub open spec fn power_vector(m: Seq<Seq<i64>>, p: nat) -> Seq<int>
    decreases p,
{
    if p == 0 {
        Seq::new(m.len(), |j: int| 1int)
    } else {
        transpose_times(m, power_vector(m, (p - 1) as nat))
    }
}

/// The largest of the first `k` entries of `v`.
pub open spec fn seq_max(v: Seq<int>, k: int) -> int
    decreases k,
{
    if k <= 1 {
        v[0]
    } else {
        let prev = seq_max(v, k - 1);
        if v[k - 1] > prev {
            v[k - 1]
        } else {
            prev
        }
    }
}

/// A dense square matrix of `i64`, stored row by row.
pub struct SquareMatrix {
    rows: Vec<Vec<i64>>,
}

impl SquareMatrix {
    /// The entries, `self@[i][j]` in row `i` and column `j`.
    pub closed spec fn view(&self) -> Seq<Seq<i64>> {
        self.rows@.map_values(|r: Vec<i64>| r@)
    }

    pub open spec fn dim_spec(&self) -> nat {
        self.view().len()
    }

    /// Every row has as many entries as there are rows.
    pub open spec fn wf(&self) -> bool {
        forall|i: int| 0 <= i < self.view().len() ==> #[trigger] self.view()[i].len() == self.view().len()
    }

    /// Builds the `n x n` matrix whose entries, read row by row, are `data`; `None` when `data`
    /// does not hold exactly `n * n` entries.
    pub fn from_row_slice(n: usize, data: &Vec<i64>) -> (r: Option<SquareMatrix>)
        ensures
            r is Some <==> data@.len() == n * n,
            r matches Some(m) ==> m.wf() && m.dim_spec() == n && forall|i: int, j: int|
                0 <= i < n && 0 <= j < n ==> #[trigger] m.view()[i][j] == data@[i * n + j],
    {
        match n.checked_mul(n) {
            None => {
                let len = data.len();
                assert(len == data@.len());
                return None;
            },
            Some(nn) => {
                assert(nn == n * n);
                if data.len() != nn {
                    return None;
                }
            },
        }
        assert(n * n <= usize::MAX);
        let mut rows: Vec<Vec<i64>> = Vec::new();
        let mut i: usize = 0;
        while i < n
            invariant
                data@.len() == n * n,
                n * n <= usize::MAX,
                i <= n,
                rows@.len() == i,
                forall|a: int| 0 <= a < i ==> #[trigger] rows@[a]@.len() == n,
                forall|a: int, b: int|
                    0 <= a < i && 0 <= b < n ==> #[trigger] rows@[a]@[b] == data@[a * n + b],
            decreases n - i,
        {
            let mut row: Vec<i64> = Vec::new();
            let mut j: usize = 0;
            while j < n
                invariant
                    data@.len() == n * n,
                    n * n <= usize::MAX,
                    i < n,
                    j <= n,
                    row@.len() == j,
                    forall|b: int| 0 <= b < j ==> #[trigger] row@[b] == data@[i * n + b],
                decreases n - j,
            {
                assert(i * n + j < n * n) by (nonlinear_arith)
                    requires i < n, j < n;
                let k = i * n + j;
                row.push(data[k]);
                j = j + 1;
            }
            rows.push(row);
            i = i + 1;
        }
        let r = SquareMatrix { rows };
        assert(r.view().len() == n);
        Some(r)
    }

    /// Builds the matrix whose rows are `rows`.
    pub fn from_rows(rows: Vec<Vec<i64>>) -> (r: SquareMatrix)
        requires
            forall|i: int| 0 <= i < rows@.len() ==> #[trigger] rows@[i]@.len() == rows@.len(),
        ensures
            r.wf(),
            r.dim_spec() == rows@.len(),
            forall|i: int, j: int|
                0 <= i < rows@.len() && 0 <= j < rows@.len() ==> #[trigger] r.view()[i][j]
                    == rows@[i]@[j],
    {
        SquareMatrix { rows }
    }

    /// The number of rows, which is also the number of columns.
    pub fn dim(&self) -> (r: usize)
        ensures
            r == self.dim_spec(),
    {
        self.rows.len()
    }

    /// The entry in row `i` and column `j`.
    pub fn get(&self, i: usize, j: usize) -> (r: i64)
        requires
            self.wf(),
            i < self.dim_spec(),
            j < self.dim_spec(),
        ensures
            r == self.view()[i as int][j as int],
    {
        assert(self.view()[i as int].len() == self.dim_spec());
        self.rows[i][j]
    }
}

proof fn lemma_col_abs_sum_nonneg(m: Seq<Seq<i64>>, j: int, n: int)
    ensures
        col_abs_sum(m, j, n) >= 0,
    decreases n,
{
    if n > 0 {
        lemma_col_abs_sum_nonneg(m, j, n - 1);
    }
}

proof fn lemma_col_abs_sum_grows(m: Seq<Seq<i64>>, j: int, a: int, b: int)
    requires
        0 <= a <= b,
    ensures
        col_abs_sum(m, j, a) <= col_abs_sum(m, j, b),
        a < b ==> abs_int(m[a][j] as int) <= col_abs_sum(m, j, b),
    decreases b - a,
{
    if a < b {
        lemma_col_abs_sum_grows(m, j, a, b - 1);
        lemma_col_abs_sum_nonneg(m, j, b - 1);
        if a < b - 1 {
            lemma_col_abs_sum_grows(m, j, a + 1, b);
        }
    }
}

/// The matrix 1-norm of `m`: the largest sum of absolute values over its columns.
pub fn one_norm(m: &SquareMatrix) -> (r: i64)
    requires
        m.wf(),
        m.dim_spec() >= 1,
        forall|j: int| 0 <= j < m.dim_spec() ==> #[trigger] col_abs_sum(m.view(), j, m.dim_spec() as int)
            <= i64::MAX,
    ensures
        r == one_norm_spec(m.view()),
{
    let n = m.dim();
    let ghost v = m.view();
    let mut max: i64 = 0;
    let mut j: usize = 0;
    while j < n
        invariant
            m.wf(),
            v == m.view(),
            n == v.len(),
            n >= 1,
            j <= n,
            forall|c: int| 0 <= c < n ==> #[trigger] col_abs_sum(v, c, n as int) <= i64::MAX,
            j >= 1 ==> max == max_col_abs_sum(v, n as int, j as int),
        decreases n - j,
    {
        let mut sum: i64 = 0;
        let mut i: usize = 0;
        while i < n
            invariant
                m.wf(),
                v == m.view(),
                n == v.len(),
                j < n,
                i <= n,
                col_abs_sum(v, j as int, n as int) <= i64::MAX,
                sum == col_abs_sum(v, j as int, i as int),
            decreases n - i,
        {
            let x = m.get(i, j);
            proof {
                lemma_col_abs_sum_grows(v, j as int, i + 1, n as int);
                lemma_col_abs_sum_grows(v, j as int, i as int, n as int);
            }
            let a = if x < 0 {
                -x
            } else {
                x
            };
            sum = sum + a;
            i = i + 1;
        }
        if j == 0 || sum > max {
            max = sum;
        }
        j = j + 1;
    }
    max
}

/// All entries are non-negative.
pub open spec fn nonnegative(m: Seq<Seq<i64>>) -> bool {
    forall|i: int, j: int| 0 <= i < m.len() && 0 <= j < m.len() ==> #[trigger] m[i][j] >= 0
}

/// The integers held by a vector of `i64`.
pub open spec fn as_ints(v: Seq<i64>) -> Seq<int> {
    v.map_values(|x: i64| x as int)
}

proof fn lemma_col_dot_grows(m: Seq<Seq<i64>>, v: Seq<int>, j: int, a: int, b: int)
    requires
        0 <= a <= b <= m.len(),
        v.len() == m.len(),
        0 <= j < m.len(),
        nonnegative(m),
        forall|i: int| 0 <= i < v.len() ==> #[trigger] v[i] >= 0,
    ensures
        0 <= col_dot(m, v, j, a) <= col_dot(m, v, j, b),
        a < b ==> 0 <= m[a][j] * v[a] <= col_dot(m, v, j, b),
    decreases b,
{
    if b > 0 {
        let t = m[b - 1][j] * v[b - 1];
        assert(m[b - 1][j] >= 0);
        assert(t >= 0) by (nonlinear_arith)
            requires t == m[b - 1][j] * v[b - 1], m[b - 1][j] >= 0, v[b - 1] >= 0;
        lemma_col_dot_grows(m, v, j, 0, b - 1);
        if a < b {
            lemma_col_dot_grows(m, v, j, a, b - 1);
            if a < b - 1 {
                lemma_col_dot_grows(m, v, j, a + 1, b - 1);
                assert(m[a][j] * v[a] <= col_dot(m, v, j, b - 1));
            }
        }
    }
}

proof fn lemma_power_vector_nonneg(m: Seq<Seq<i64>>, p: nat)
    requires
        nonnegative(m),
    ensures
        power_vector(m, p).len() == m.len(),
        forall|j: int| 0 <= j < m.len() ==> #[trigger] power_vector(m, p)[j] >= 0,
    decreases p,
{
    if p > 0 {
        lemma_power_vector_nonneg(m, (p - 1) as nat);
        let prev = power_vector(m, (p - 1) as nat);
        assert forall|j: int| 0 <= j < m.len() implies #[trigger] power_vector(m, p)[j] >= 0 by {
            lemma_col_dot_grows(m, prev, j, 0, m.len() as int);
        }
    }
}

/// `m^T * v` for a non-negative `m` and `v`.
fn transpose_times_vec(m: &SquareMatrix, v: &Vec<i64>) -> (r: Vec<i64>)
    requires
        m.wf(),
        nonnegative(m.view()),
        v@.len() == m.dim_spec(),
        forall|i: int| 0 <= i < v@.len() ==> #[trigger] v@[i] >= 0,
        forall|j: int|
            0 <= j < m.dim_spec() ==> #[trigger] transpose_times(m.view(), as_ints(v@))[j] <= i64::MAX,
    ensures
        as_ints(r@) == transpose_times(m.view(), as_ints(v@)),
{
    let n = m.dim();
    let ghost mv = m.view();
    let ghost vi = as_ints(v@);
    let mut r: Vec<i64> = Vec::new();
    let mut j: usize = 0;
    while j < n
        invariant
            m.wf(),
            mv == m.view(),
            n == mv.len(),
            nonnegative(mv),
            vi == as_ints(v@),
            v@.len() == n,
            forall|i: int| 0 <= i < v@.len() ==> #[trigger] v@[i] >= 0,
            forall|c: int| 0 <= c < n ==> #[trigger] transpose_times(mv, vi)[c] <= i64::MAX,
            j <= n,
            r@.len() == j,
            forall|c: int| 0 <= c < j ==> #[trigger] r@[c] == col_dot(mv, vi, c, n as int),
        decreases n - j,
    {
        assert(transpose_times(mv, vi)[j as int] == col_dot(mv, vi, j as int, n as int));
        let mut acc: i64 = 0;
        let mut i: usize = 0;
        while i < n
            invariant
                m.wf(),
                mv == m.view(),
                n == mv.len(),
                nonnegative(mv),
                vi == as_ints(v@),
                v@.len() == n,
                forall|k: int| 0 <= k < v@.len() ==> #[trigger] v@[k] >= 0,
                col_dot(mv, vi, j as int, n as int) <= i64::MAX,
                j < n,
                i <= n,
                acc == col_dot(mv, vi, j as int, i as int),
            decreases n - i,
        {
            proof {
                assert forall|k: int| 0 <= k < vi.len() implies #[trigger] vi[k] >= 0 by {
                    assert(v@[k] >= 0);
                }
                lemma_col_dot_grows(mv, vi, j as int, i as int, n as int);
                lemma_col_dot_grows(mv, vi, j as int, i + 1, n as int);
            }
            let t = m.get(i, j) * v[i];
            acc = acc + t;
            i = i + 1;
        }
        r.push(acc);
        j = j + 1;
    }
    assert(as_ints(r@) =~= transpose_times(mv, vi));
    r
}

/// Estimates the 1-norm of `a^p` for a non-negative `a` without forming the power: `p` times
/// multiplies a vector of ones by `a^T` and returns the largest resulting component, which is
/// the largest column sum of `a^p`.
pub fn onenorm_matrix_power_nonm(a: &SquareMatrix, p: u64) -> (r: i64)
    requires
        a.wf(),
        a.dim_spec() >= 1,
        nonnegative(a.view()),
        forall|q: nat, j: int|
            q <= p && 0 <= j < a.dim_spec() ==> #[trigger] power_vector(a.view(), q)[j] <= i64::MAX,
    ensures
        r == seq_max(power_vector(a.view(), p as nat), a.dim_spec() as int),
{
    let n = a.dim();
    let ghost av = a.view();
    let mut v: Vec<i64> = Vec::new();
    let mut j: usize = 0;
    while j < n
        invariant
            j <= n,
            v@.len() == j,
            forall|c: int| 0 <= c < j ==> #[trigger] v@[c] == 1,
        decreases n - j,
    {
        v.push(1);
        j = j + 1;
    }
    assert(as_ints(v@) =~= power_vector(av, 0));
    let mut q: u64 = 0;
    while q < p
        invariant
            a.wf(),
            av == a.view(),
            n == av.len(),
            nonnegative(av),
            q <= p,
            as_ints(v@) == power_vector(av, q as nat),
            forall|q2: nat, c: int| q2 <= p && 0 <= c < n ==> #[trigger] power_vector(av, q2)[c] <= i64::MAX,
        decreases p - q,
    {
        proof {
            lemma_power_vector_nonneg(av, q as nat);
            assert forall|i: int| 0 <= i < v@.len() implies #[trigger] v@[i] >= 0 by {
                assert(as_ints(v@)[i] == power_vector(av, q as nat)[i]);
            }
            assert forall|c: int| 0 <= c < n implies #[trigger] transpose_times(av, as_ints(v@))[c]
                <= i64::MAX by {
                assert(power_vector(av, (q + 1) as nat)[c] <= i64::MAX);
            }
        }
        v = transpose_times_vec(a, &v);
        q = q + 1;
    }
    proof {
        lemma_power_vector_nonneg(av, p as nat);
    }
    let ghost pv = power_vector(av, p as nat);
    let mut best: i64 = v[0];
    let mut k: usize = 1;
    while k < n
        invariant
            n == av.len(),
            n >= 1,
            pv == as_ints(v@),
            v@.len() == n,
            1 <= k <= n,
            best == seq_max(pv, k as int),
        decreases n - k,
    {
        assert(pv[k as int] == v@[k as int]);
        if v[k] > best {
            best = v[k];
        }
        k = k + 1;
    }
    best
}

impl SquareMatrix {
    /// The matrix of absolute values of the entries.
    pub fn abs(&self) -> (r: SquareMatrix)
        requires
            self.wf(),
            forall|i: int, j: int|
                0 <= i < self.dim_spec() && 0 <= j < self.dim_spec() ==> #[trigger] self.view()[i][j]
                    > i64::MIN,
        ensures
            r.wf(),
            r.dim_spec() == self.dim_spec(),
            forall|i: int, j: int|
                0 <= i < self.dim_spec() && 0 <= j < self.dim_spec() ==> #[trigger] r.view()[i][j]
                    == abs_int(self.view()[i][j] as int),
    {
        let n = self.dim();
        let mut rows: Vec<Vec<i64>> = Vec::new();
        let mut i: usize = 0;
        while i < n
            invariant
                self.wf(),
                n == self.dim_spec(),
                forall|a: int, b: int|
                    0 <= a < n && 0 <= b < n ==> #[trigger] self.view()[a][b] > i64::MIN,
                i <= n,
                rows@.len() == i,
                forall|a: int| 0 <= a < i ==> #[trigger] rows@[a]@.len() == n,
                forall|a: int, b: int|
                    0 <= a < i && 0 <= b < n ==> #[trigger] rows@[a]@[b] == abs_int(
                        self.view()[a][b] as int,
                    ),
            decreases n - i,
        {
            let mut row: Vec<i64> = Vec::new();
            let mut j: usize = 0;
            while j < n
                invariant
                    self.wf(),
                    n == self.dim_spec(),
                    forall|a: int, b: int|
                        0 <= a < n && 0 <= b < n ==> #[trigger] self.view()[a][b] > i64::MIN,
                    i < n,
                    j <= n,
                    row@.len() == j,
                    forall|b: int| 0 <= b < j ==> #[trigger] row@[b] == abs_int(self.view()[i as int][b] as int),
                decreases n - j,
            {
                let x = self.get(i, j);
                let y = if x < 0 {
                    -x
                } else {
                    x
                };
                row.push(y);
                j = j + 1;
            }
            rows.push(row);
            i = i + 1;
        }
        let r = SquareMatrix { rows };
        assert(r.view().len() == n);
        r
    }
}

} // verus!
