use vstd::prelude::*;

verus! {

/// `n!`
pub open spec fn fact(n: nat) -> nat
    decreases n,
{
    if n == 0 {
        1
    } else {
        n * fact((n - 1) as nat)
    }
}

/// `C(2m, m) * (2m + 1)!`: the reciprocal of the leading error coefficient of the Padé
/// approximant of order `m` to the exponential.
pub open spec fn pade_coefficient(m: nat) -> nat {
    (fact(2 * m) / (fact(m) * fact(m))) * fact(2 * m + 1)
}

proof fn lemma_fact_grows(a: nat, b: nat)
    requires
        a <= b,
    ensures
        1 <= fact(a) <= fact(b),
    decreases b,
{
    if b > 0 {
        if a < b {
            lemma_fact_grows(a, (b - 1) as nat);
        }
        lemma_fact_grows(0, (b - 1) as nat);
        assert(fact((b - 1) as nat) <= b * fact((b - 1) as nat)) by (nonlinear_arith)
            requires b >= 1, fact((b - 1) as nat) >= 1;
    }
}

/// The factorials up to `34!`, one step at a time.
proof fn lemma_fact_table()
    ensures
        fact(0) == 1,
        fact(1) == 1,
        fact(2) == 2,
        fact(3) == 6,
        fact(4) == 24,
        fact(5) == 120,
        fact(6) == 720,
        fact(7) == 5040,
        fact(8) == 40320,
        fact(9) == 362880,
        fact(10) == 3628800,
        fact(11) == 39916800,
        fact(12) == 479001600,
        fact(13) == 6227020800,
        fact(14) == 87178291200,
        fact(15) == 1307674368000,
        fact(16) == 20922789888000,
        fact(17) == 355687428096000,
        fact(18) == 6402373705728000,
        fact(19) == 121645100408832000,
        fact(20) == 2432902008176640000,
        fact(21) == 51090942171709440000,
        fact(22) == 1124000727777607680000,
        fact(23) == 25852016738884976640000,
        fact(24) == 620448401733239439360000,
        fact(25) == 15511210043330985984000000,
        fact(26) == 403291461126605635584000000,
        fact(27) == 10888869450418352160768000000,
        fact(28) == 304888344611713860501504000000,
        fact(29) == 8841761993739701954543616000000,
        fact(30) == 265252859812191058636308480000000,
        fact(31) == 8222838654177922817725562880000000,
        fact(32) == 263130836933693530167218012160000000,
        fact(33) == 8683317618811886495518194401280000000,
        fact(34) == 295232799039604140847618609643520000000,
{
    assert(fact(1) == 1 * fact(0));
    assert(fact(2) == 2 * fact(1));
    assert(fact(3) == 3 * fact(2));
    assert(fact(4) == 4 * fact(3));
    assert(fact(5) == 5 * fact(4));
    assert(fact(6) == 6 * fact(5));
    assert(fact(7) == 7 * fact(6));
    assert(fact(8) == 8 * fact(7));
    assert(fact(9) == 9 * fact(8));
    assert(fact(10) == 10 * fact(9));
    assert(fact(11) == 11 * fact(10));
    assert(fact(12) == 12 * fact(11));
    assert(fact(13) == 13 * fact(12));
    assert(fact(14) == 14 * fact(13));
    assert(fact(15) == 15 * fact(14));
    assert(fact(16) == 16 * fact(15));
    assert(fact(17) == 17 * fact(16));
    assert(fact(18) == 18 * fact(17));
    assert(fact(19) == 19 * fact(18));
    assert(fact(20) == 20 * fact(19));
    assert(fact(21) == 21 * fact(20));
    assert(fact(22) == 22 * fact(21));
    assert(fact(23) == 23 * fact(22));
    assert(fact(24) == 24 * fact(23));
    assert(fact(25) == 25 * fact(24));
    assert(fact(26) == 26 * fact(25));
    assert(fact(27) == 27 * fact(26));
    assert(fact(28) == 28 * fact(27));
    assert(fact(29) == 29 * fact(28));
    assert(fact(30) == 30 * fact(29));
    assert(fact(31) == 31 * fact(30));
    assert(fact(32) == 32 * fact(31));
    assert(fact(33) == 33 * fact(32));
    assert(fact(34) == 34 * fact(33));
}

proof fn lemma_coefficient_fits(m: nat)
    requires
        1 <= m <= 13,
    ensures
        pade_coefficient(m) <= u128::MAX,
{
    lemma_fact_table();
    if m == 1 {
        assert(fact(1) * fact(1) == 1);
        assert(fact(2) / 1 == 2);
        assert(2 * fact(3) == 12);
    }
    if m == 2 {
        assert(fact(2) * fact(2) == 4);
        assert(fact(4) / 4 == 6);
        assert(6 * fact(5) == 720);
    }
    if m == 3 {
        assert(fact(3) * fact(3) == 36);
        assert(fact(6) / 36 == 20);
        assert(20 * fact(7) == 100800);
    }
    if m == 4 {
        assert(fact(4) * fact(4) == 576);
        assert(fact(8) / 576 == 70);
        assert(70 * fact(9) == 25401600);
    }
    if m == 5 {
        assert(fact(5) * fact(5) == 14400);
        assert(fact(10) / 14400 == 252);
        assert(252 * fact(11) == 10059033600);
    }
    if m == 6 {
        assert(fact(6) * fact(6) == 518400);
        assert(fact(12) / 518400 == 924);
        assert(924 * fact(13) == 5753767219200);
    }
    if m == 7 {
        assert(fact(7) * fact(7) == 25401600);
        assert(fact(14) / 25401600 == 3432);
        assert(3432 * fact(15) == 4487938430976000);
    }
    if m == 8 {
        assert(fact(8) * fact(8) == 1625702400);
        assert(fact(16) / 1625702400 == 12870);
        assert(12870 * fact(17) == 4577697199595520000);
    }
    if m == 9 {
        assert(fact(9) * fact(9) == 131681894400);
        assert(fact(18) / 131681894400 == 48620);
        assert(48620 * fact(19) == 5914384781877411840000);
    }
    if m == 10 {
        assert(fact(10) * fact(10) == 13168189440000);
        assert(fact(20) / 13168189440000 == 184756);
        assert(184756 * fact(21) == 9439358111876349296640000);
    }
    if m == 11 {
        assert(fact(11) * fact(11) == 1593350922240000);
        assert(fact(22) / 1593350922240000 == 705432);
        assert(705432 * fact(23) == 18236839872145106841108480000);
    }
    if m == 12 {
        assert(fact(12) * fact(12) == 229442532802560000);
        assert(fact(24) / 229442532802560000 == 2704156);
        assert(2704156 * fact(25) == 41944731705933745734549504000000);
    }
    if m == 13 {
        assert(fact(13) * fact(13) == 38775788043632640000);
        assert(fact(26) / 38775788043632640000 == 10400600);
        assert(10400600 * fact(27) == 113250775606021113483283660800000000);
    }
}

/// `n!`, for the `n` whose factorial fits in a `u128`.
pub fn factorial(n: u128) -> (r: u128)
    requires
        1 <= n <= 34,
    ensures
        r == fact(n as nat),
{
    proof {
        lemma_fact_table();
        lemma_fact_grows(n as nat, 34);
    }
    let mut r: u128 = 1;
    let mut k: u128 = 1;
    while k < n
        invariant
            1 <= k <= n,
            n <= 34,
            r == fact(k as nat),
            fact(n as nat) <= u128::MAX,
        decreases n - k,
    {
        proof {
            lemma_fact_grows((k + 1) as nat, n as nat);
            assert(fact((k + 1) as nat) == (k + 1) * fact(k as nat));
        }
        k = k + 1;
        r = r * k;
    }
    r
}

/// `C(2m, m) * (2m + 1)!`, the constant that bounds the truncation error of the Padé approximant
/// of order `m`; for every `m` whose constant fits in a `u128`.
pub fn pade_error_coefficient(m: u64) -> (r: u128)
    requires
        1 <= m <= 13,
    ensures
        r == pade_coefficient(m as nat),
{
    let mm = m as u128;
    proof {
        lemma_fact_grows(mm as nat, 13);
        lemma_fact_table();
        assert(fact(mm as nat) * fact(mm as nat) <= 6227020800 * 6227020800) by (nonlinear_arith)
            requires fact(mm as nat) <= 6227020800;
        lemma_coefficient_fits(m as nat);
        lemma_fact_grows(0, mm as nat);
    }
    let f = factorial(mm);
    let g = factorial(2 * mm - mm);
    assert(f * g >= 1) by (nonlinear_arith)
        requires f >= 1, g >= 1;
    let choose = factorial(2 * mm) / (f * g);
    let c = factorial(2 * mm + 1);
    proof {
        assert(2 * mm - mm == mm);
    }
    choose * c
}

} // verus!
