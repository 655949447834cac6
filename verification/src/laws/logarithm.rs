//! Why more rows take no fewer halvings in all: a count times the logarithm of
//! one more than something over that count grows with the count.

#[allow(unused_imports)]
use super::readings::{is_log2, lemma_pow_ordered};
use crate::fixed::ONE;
#[allow(unused_imports)]
use vstd::arithmetic::power::{
    lemma_pow_distributes, lemma_pow_multiplies, lemma_pow_positive, pow,
};
use vstd::prelude::*;

verus! {

/// More rows take no fewer halvings in all, up to the slack of the two
/// readings: with `crossed` rows crossed, `few` rows times the logarithm of one
/// more than the rows crossed for each come to no more than `many` rows times
/// theirs.
pub proof fn more_rows_take_no_fewer_halvings(
    few: int,
    many: int,
    crossed: int,
    halvings: int,
    halvings2: int,
    slack: int,
)
    requires
        0 < few <= many,
        crossed >= 0,
        slack >= 0,
        is_log2(few + crossed, few, halvings, slack),
        is_log2(many + crossed, many, halvings2, slack),
    ensures
        few * halvings <= many * (halvings2 + 2 * slack),
{
    let m: nat = (ONE + 1) as nat;
    let (w1, w2) = (few + crossed, many + crossed);
    let (e1, e2) = (few as nat, many as nat);
    let (a1, b1) = (pow(w1, e1), pow(few, e1));
    let (a2, b2) = (pow(w2, e2), pow(many, e2));
    lemma_compounding(few, many, crossed);
    lemma_pow_positive(w1, e1);
    lemma_pow_positive(few, e1);
    lemma_pow_positive(w2, e2);
    lemma_pow_positive(many, e2);
    assert(0 <= a1 * b2) by (nonlinear_arith)
        requires
            a1 > 0,
            b2 > 0,
    ;
    lemma_pow_ordered(a1 * b2, a2 * b1, m);
    lemma_pow_distributes(a1, b2, m);
    lemma_pow_distributes(a2, b1, m);
    lemma_pow_multiplies(w1, e1, m);
    lemma_pow_multiplies(few, e1, m);
    lemma_pow_multiplies(w2, e2, m);
    lemma_pow_multiplies(many, e2, m);
    let (n1, n2) = (e1 * m, e2 * m);
    let (x1, u1) = (pow(w1, n1), pow(few, n1));
    let (x2, u2) = (pow(w2, n2), pow(many, n2));
    assert(x1 * u2 <= x2 * u1);
    lemma_pow_positive(few, n1);
    lemma_pow_ordered(many, w2, n2);
    lemma_pow_positive(many, n2);
    assert(pow(2, 0) == 1) by {
        reveal(pow);
    }
    let a: nat = lemma_floor(x2, u2, 0);
    let above: int = pow(2, a + 1);
    assert(x1 <= above * u1) by (nonlinear_arith)
        requires
            x1 * u2 <= x2 * u1,
            x2 <= above * u2,
            u1 > 0,
            u2 > 0,
    {
        assert(x2 * u1 <= (above * u2) * u1);
        assert(x1 * u2 <= (above * u1) * u2);
    }
    assert(pow(2, a) * pow(many, n2) <= pow(w2, n2));
    assert(pow(w1, n1) <= pow(2, a + 1) * pow(few, n1));
    assert(a * ONE <= n2 * (halvings2 + slack));
    assert(n1 * (halvings - slack) <= (a + 1) * ONE);
    assert(few * (halvings - slack) <= many * (halvings2 + slack)) by (nonlinear_arith)
        requires
            n1 == few * m,
            n2 == many * m,
            m == ONE + 1,
            a * ONE <= n2 * (halvings2 + slack),
            n1 * (halvings - slack) <= (a + 1) * ONE,
    {
        let (l, r) = (few * (halvings - slack), many * (halvings2 + slack));
        assert(n1 * (halvings - slack) == l * m);
        assert(n2 * (halvings2 + slack) == r * m);
        assert(l * m <= r * m + ONE);
        assert(l * m < (r + 1) * m);
        assert(l < r + 1);
    }
    assert(few * halvings <= many * (halvings2 + 2 * slack)) by (nonlinear_arith)
        requires
            few * (halvings - slack) <= many * (halvings2 + slack),
            few <= many,
            slack >= 0,
    {
        assert(few * halvings == few * (halvings - slack) + few * slack);
        assert(many * (halvings2 + 2 * slack) == many * (halvings2 + slack) + many * slack);
        assert(few * slack <= many * slack);
    }
}

/// A power of two that is no more than a ratio, where the next one is no less,
/// from one that is no more.
proof fn lemma_floor(x: int, u: int, from: nat) -> (a: nat)
    requires
        0 < u,
        pow(2, from) * u <= x,
    ensures
        pow(2, a) * u <= x <= pow(2, a + 1) * u,
    decreases x - pow(2, from) * u,
{
    let p: int = pow(2, from);
    lemma_pow_positive(2, from);
    assert(pow(2, from + 1) == 2 * p) by {
        reveal(pow);
    }
    assert((2 * p) * u == 2 * (p * u) && p * u > 0) by (nonlinear_arith)
        requires
            p > 0,
            u > 0,
    ;
    if x <= (2 * p) * u {
        from
    } else {
        lemma_floor(x, u, from + 1)
    }
}

/// A power of one less a share is no less than one less as many shares.
proof fn lemma_bernoulli(q: int, d: int, n: nat)
    requires
        0 <= d <= q,
    ensures
        pow(q - d, n) * q >= (q - n * d) * pow(q, n),
    decreases n,
{
    reveal(pow);
    if n > 0 {
        let m: nat = (n - 1) as nat;
        lemma_bernoulli(q, d, m);
        lemma_pow_ordered(0, q, m);
        let (x, y) = (pow(q - d, m), pow(q, m));
        assert(pow(q - d, n) == (q - d) * x);
        assert(pow(q, n) == q * y);
        assert(((q - d) * x) * q >= (q - n * d) * (q * y)) by (nonlinear_arith)
            requires
                0 <= d <= q,
                y >= 0,
                n == m + 1,
                m >= 0,
                x * q >= (q - m * d) * y,
        {
            assert((q - d) * (x * q) >= (q - d) * ((q - m * d) * y));
            assert((q - d) * (q - m * d) == q * (q - n * d) + m * (d * d));
            assert(m * (d * d) >= 0);
            assert(((q - d) * (q - m * d)) * y >= (q * (q - n * d)) * y);
        }
    }
}

/// One more than a share of `c` compounds to more over one more share.
proof fn lemma_compounding_step(e: int, c: int)
    requires
        e > 0,
        c >= 0,
    ensures
        pow(e + c, e as nat) * pow(e + 1, (e + 1) as nat) <= pow(e + 1 + c, (e + 1) as nat) * pow(
            e,
            e as nat,
        ),
{
    let n: nat = (e + 1) as nat;
    let q: int = (e + 1) * (e + c);
    assert(q - c == e * (e + 1 + c) && 0 <= c <= q && q - n * c == (e + 1) * e)
        by (nonlinear_arith)
        requires
            q == (e + 1) * (e + c),
            n == e + 1,
            e > 0,
            c >= 0,
    ;
    lemma_bernoulli(q, c, n);
    lemma_pow_distributes(e, e + 1 + c, n);
    lemma_pow_distributes(e + 1, e + c, n);
    let (ee, y, f, x) = (
        pow(e, e as nat),
        pow(e + 1 + c, n),
        pow(e + 1, n),
        pow(e + c, e as nat),
    );
    assert(pow(e, n) == e * ee && pow(e + c, n) == (e + c) * x) by {
        reveal(pow);
    }
    assert(x * f <= y * ee) by (nonlinear_arith)
        requires
            e > 0,
            c >= 0,
            q == (e + 1) * (e + c),
            ((e * ee) * y) * q >= ((e + 1) * e) * (f * ((e + c) * x)),
    {
        let k: int = (e + 1) * (e * (e + c));
        assert(((e * ee) * y) * q == k * (y * ee));
        assert(((e + 1) * e) * (f * ((e + c) * x)) == k * (x * f));
        assert(k > 0);
    }
}

/// One more than a share of `c` compounds to more over more shares.
proof fn lemma_compounding(few: int, many: int, c: int)
    requires
        0 < few <= many,
        c >= 0,
    ensures
        pow(few + c, few as nat) * pow(many, many as nat) <= pow(many + c, many as nat) * pow(
            few,
            few as nat,
        ),
    decreases many - few,
{
    if few < many {
        let e: int = many - 1;
        lemma_compounding(few, e, c);
        lemma_compounding_step(e, c);
        lemma_pow_positive(few, few as nat);
        lemma_pow_positive(e, e as nat);
        lemma_pow_positive(many, many as nat);
        let (a1, b1) = (pow(few + c, few as nat), pow(few, few as nat));
        let (a, b) = (pow(e + c, e as nat), pow(e, e as nat));
        let (a2, b2) = (pow(many + c, many as nat), pow(many, many as nat));
        assert(a1 * b2 <= a2 * b1) by (nonlinear_arith)
            requires
                a1 * b <= a * b1,
                a * b2 <= a2 * b,
                b > 0,
                b1 > 0,
                b2 > 0,
        {
            assert((a1 * b) * b2 <= (a * b1) * b2);
            assert((a * b2) * b1 <= (a2 * b) * b1);
            assert((a1 * b2) * b <= (a2 * b1) * b);
        }
    }
}

} // verus!
