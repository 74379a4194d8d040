use vstd::prelude::*;

use crate::cs::fits;

verus! {

pub open spec fn max_int(x: int, y: int) -> int {
    if x >= y {
        x
    } else {
        y
    }
}

pub open spec fn min_int(x: int, y: int) -> int {
    if x <= y {
        x
    } else {
        y
    }
}

/// The sum of the first `n` components.
pub open spec fn sum_prefix(s: Seq<i64>, n: int) -> int
    decreases n,
{
    if n <= 0 {
        0
    } else {
        sum_prefix(s, n - 1) + s[n - 1]
    }
}

/// The product of the first `n` components.
pub open spec fn product_prefix(s: Seq<i64>, n: int) -> int
    decreases n,
{
    if n <= 0 {
        1
    } else {
        product_prefix(s, n - 1) * s[n - 1]
    }
}

/// The largest of the first `n` components, or `i64::MIN` when there are none.
pub open spec fn max_prefix(s: Seq<i64>, n: int) -> int
    decreases n,
{
    if n <= 0 {
        i64::MIN as int
    } else {
        max_int(max_prefix(s, n - 1), s[n - 1] as int)
    }
}

/// The smallest of the first `n` components, or `i64::MAX` when there are none.
pub open spec fn min_prefix(s: Seq<i64>, n: int) -> int
    decreases n,
{
    if n <= 0 {
        i64::MAX as int
    } else {
        min_int(min_prefix(s, n - 1), s[n - 1] as int)
    }
}

/// The component-wise maximum of `a` and the scalar `b`.
pub fn max(a: &Vec<i64>, b: i64) -> (r: Vec<i64>)
    ensures
        r@.len() == a@.len(),
        forall|i: int| 0 <= i < a@.len() ==> #[trigger] r@[i] == max_int(a@[i] as int, b as int),
{
    let mut r: Vec<i64> = Vec::new();
    let mut i: usize = 0;
    while i < a.len()
        invariant
            i <= a@.len(),
            r@.len() == i,
            forall|k: int| 0 <= k < i ==> #[trigger] r@[k] == max_int(a@[k] as int, b as int),
        decreases a@.len() - i,
    {
        r.push(if a[i] >= b { a[i] } else { b });
        i = i + 1;
    }
    r
}

/// The component-wise maximum of `a` and `b`.
pub fn max2(a: &Vec<i64>, b: &Vec<i64>) -> (r: Vec<i64>)
    requires
        a@.len() == b@.len(),
    ensures
        r@.len() == a@.len(),
        forall|i: int| 0 <= i < a@.len() ==> #[trigger] r@[i] == max_int(a@[i] as int, b@[i] as int),
{
    let mut r: Vec<i64> = Vec::new();
    let mut i: usize = 0;
    while i < a.len()
        invariant
            a@.len() == b@.len(),
            i <= a@.len(),
            r@.len() == i,
            forall|k: int| 0 <= k < i ==> #[trigger] r@[k] == max_int(a@[k] as int, b@[k] as int),
        decreases a@.len() - i,
    {
        r.push(if a[i] >= b[i] { a[i] } else { b[i] });
        i = i + 1;
    }
    r
}

/// The component-wise maximum of three vectors.
pub fn max3(a: &Vec<i64>, b: &Vec<i64>, c: &Vec<i64>) -> (r: Vec<i64>)
    requires
        a@.len() == b@.len(),
        a@.len() == c@.len(),
    ensures
        r@.len() == a@.len(),
        forall|i: int|
            0 <= i < a@.len() ==> #[trigger] r@[i] == max_int(
                max_int(a@[i] as int, b@[i] as int),
                c@[i] as int,
            ),
{
    let ab = max2(a, b);
    let r = max2(&ab, c);
    assert forall|i: int| 0 <= i < a@.len() implies #[trigger] r@[i] == max_int(
        max_int(a@[i] as int, b@[i] as int),
        c@[i] as int,
    ) by {
        assert(ab@[i] == max_int(a@[i] as int, b@[i] as int));
    }
    r
}

/// The component-wise maximum of four vectors.
pub fn max4(a: &Vec<i64>, b: &Vec<i64>, c: &Vec<i64>, d: &Vec<i64>) -> (r: Vec<i64>)
    requires
        a@.len() == b@.len(),
        a@.len() == c@.len(),
        a@.len() == d@.len(),
    ensures
        r@.len() == a@.len(),
        forall|i: int|
            0 <= i < a@.len() ==> #[trigger] r@[i] == max_int(
                max_int(a@[i] as int, b@[i] as int),
                max_int(c@[i] as int, d@[i] as int),
            ),
{
    let ab = max2(a, b);
    let cd = max2(c, d);
    let r = max2(&ab, &cd);
    assert forall|i: int| 0 <= i < a@.len() implies #[trigger] r@[i] == max_int(
        max_int(a@[i] as int, b@[i] as int),
        max_int(c@[i] as int, d@[i] as int),
    ) by {
        assert(ab@[i] == max_int(a@[i] as int, b@[i] as int));
        assert(cd@[i] == max_int(c@[i] as int, d@[i] as int));
    }
    r
}

/// The component-wise minimum of `x` and the scalar `y`.
pub fn min(x: &Vec<i64>, y: i64) -> (r: Vec<i64>)
    ensures
        r@.len() == x@.len(),
        forall|i: int| 0 <= i < x@.len() ==> #[trigger] r@[i] == min_int(x@[i] as int, y as int),
{
    let mut r: Vec<i64> = Vec::new();
    let mut i: usize = 0;
    while i < x.len()
        invariant
            i <= x@.len(),
            r@.len() == i,
            forall|k: int| 0 <= k < i ==> #[trigger] r@[k] == min_int(x@[k] as int, y as int),
        decreases x@.len() - i,
    {
        r.push(if x[i] <= y { x[i] } else { y });
        i = i + 1;
    }
    r
}

/// The component-wise minimum of `x` and `y`.
pub fn min2(x: &Vec<i64>, y: &Vec<i64>) -> (r: Vec<i64>)
    requires
        x@.len() == y@.len(),
    ensures
        r@.len() == x@.len(),
        forall|i: int| 0 <= i < x@.len() ==> #[trigger] r@[i] == min_int(x@[i] as int, y@[i] as int),
{
    let mut r: Vec<i64> = Vec::new();
    let mut i: usize = 0;
    while i < x.len()
        invariant
            x@.len() == y@.len(),
            i <= x@.len(),
            r@.len() == i,
            forall|k: int| 0 <= k < i ==> #[trigger] r@[k] == min_int(x@[k] as int, y@[k] as int),
        decreases x@.len() - i,
    {
        r.push(if x[i] <= y[i] { x[i] } else { y[i] });
        i = i + 1;
    }
    r
}

/// The component-wise minimum of three vectors.
pub fn min3(a: &Vec<i64>, b: &Vec<i64>, c: &Vec<i64>) -> (r: Vec<i64>)
    requires
        a@.len() == b@.len(),
        a@.len() == c@.len(),
    ensures
        r@.len() == a@.len(),
        forall|i: int|
            0 <= i < a@.len() ==> #[trigger] r@[i] == min_int(
                min_int(a@[i] as int, b@[i] as int),
                c@[i] as int,
            ),
{
    let ab = min2(a, b);
    let r = min2(&ab, c);
    assert forall|i: int| 0 <= i < a@.len() implies #[trigger] r@[i] == min_int(
        min_int(a@[i] as int, b@[i] as int),
        c@[i] as int,
    ) by {
        assert(ab@[i] == min_int(a@[i] as int, b@[i] as int));
    }
    r
}

/// The component-wise minimum of four vectors.
pub fn min4(a: &Vec<i64>, b: &Vec<i64>, c: &Vec<i64>, d: &Vec<i64>) -> (r: Vec<i64>)
    requires
        a@.len() == b@.len(),
        a@.len() == c@.len(),
        a@.len() == d@.len(),
    ensures
        r@.len() == a@.len(),
        forall|i: int|
            0 <= i < a@.len() ==> #[trigger] r@[i] == min_int(
                min_int(a@[i] as int, b@[i] as int),
                min_int(c@[i] as int, d@[i] as int),
            ),
{
    let ab = min2(a, b);
    let cd = min2(c, d);
    let r = min2(&ab, &cd);
    assert forall|i: int| 0 <= i < a@.len() implies #[trigger] r@[i] == min_int(
        min_int(a@[i] as int, b@[i] as int),
        min_int(c@[i] as int, d@[i] as int),
    ) by {
        assert(ab@[i] == min_int(a@[i] as int, b@[i] as int));
        assert(cd@[i] == min_int(c@[i] as int, d@[i] as int));
    }
    r
}

/// The sum of all components of `m`.
pub fn comp_add(m: &Vec<i64>) -> (r: i64)
    requires
        forall|n: int| 0 <= n <= m@.len() ==> fits(#[trigger] sum_prefix(m@, n)),
    ensures
        r == sum_prefix(m@, m@.len() as int),
{
    let mut acc: i64 = 0;
    let mut i: usize = 0;
    while i < m.len()
        invariant
            i <= m@.len(),
            acc == sum_prefix(m@, i as int),
            forall|n: int| 0 <= n <= m@.len() ==> fits(#[trigger] sum_prefix(m@, n)),
        decreases m@.len() - i,
    {
        assert(fits(sum_prefix(m@, i + 1)));
        acc = acc + m[i];
        i = i + 1;
    }
    acc
}

/// The largest component of `m`, or `i64::MIN` when `m` is empty.
pub fn comp_max(m: &Vec<i64>) -> (r: i64)
    ensures
        r == max_prefix(m@, m@.len() as int),
{
    let mut acc: i64 = i64::MIN;
    let mut i: usize = 0;
    while i < m.len()
        invariant
            i <= m@.len(),
            acc == max_prefix(m@, i as int),
        decreases m@.len() - i,
    {
        if m[i] > acc {
            acc = m[i];
        }
        i = i + 1;
    }
    acc
}

/// The smallest component of `m`, or `i64::MAX` when `m` is empty.
pub fn comp_min(m: &Vec<i64>) -> (r: i64)
    ensures
        r == min_prefix(m@, m@.len() as int),
{
    let mut acc: i64 = i64::MAX;
    let mut i: usize = 0;
    while i < m.len()
        invariant
            i <= m@.len(),
            acc == min_prefix(m@, i as int),
        decreases m@.len() - i,
    {
        if m[i] < acc {
            acc = m[i];
        }
        i = i + 1;
    }
    acc
}

/// The product of all components of `m`.
pub fn comp_mul(m: &Vec<i64>) -> (r: i64)
    requires
        forall|n: int| 0 <= n <= m@.len() ==> fits(#[trigger] product_prefix(m@, n)),
    ensures
        r == product_prefix(m@, m@.len() as int),
{
    let mut acc: i64 = 1;
    let mut i: usize = 0;
    while i < m.len()
        invariant
            i <= m@.len(),
            acc == product_prefix(m@, i as int),
            forall|n: int| 0 <= n <= m@.len() ==> fits(#[trigger] product_prefix(m@, n)),
        decreases m@.len() - i,
    {
        assert(fits(product_prefix(m@, i + 1)));
        acc = acc * m[i];
        i = i + 1;
    }
    acc
}

} // verus!
