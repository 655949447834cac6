//! What a law may ask of the functions that read exponentials and logarithms.

use crate::fixed::ONE;
#[allow(unused_imports)]
use vstd::arithmetic::power::{
    lemma_pow1, lemma_pow_distributes, lemma_pow_increases_converse, lemma_pow_multiplies,
    lemma_pow_positive, pow,
};
use vstd::prelude::*;

verus! {

/// Whether a function answers equal arguments equally.
pub open spec fn answers_alike<F: Fn(u128, u128) -> u64>(function: F) -> bool {
    forall|over: u128, under: u128, a: u64, b: u64|
        #[trigger] call_ensures(function, (over, under), a) && #[trigger] call_ensures(
            function,
            (over, under),
            b,
        ) ==> a == b
}

/// Whether a function reads the same at two ratios, if they are the same ratio
/// written in two ways.
pub open spec fn reads_the_ratio_at<F: Fn(u128, u128) -> u64>(
    function: F,
    over: u128,
    under: u128,
    over2: u128,
    under2: u128,
) -> bool {
    over * under2 == over2 * under ==> forall|a: u64, b: u64|
        #[trigger] call_ensures(function, (over, under), a) && #[trigger] call_ensures(
            function,
            (over2, under2),
            b,
        ) ==> a == b
}

/// Whether a function reads no more at the second of two ratios, if that is no
/// smaller.
pub open spec fn falls_between<F: Fn(u128, u128) -> u64>(
    function: F,
    over: u128,
    under: u128,
    over2: u128,
    under2: u128,
) -> bool {
    over * under2 <= over2 * under ==> forall|a: u64, b: u64|
        #[trigger] call_ensures(function, (over, under), a) && #[trigger] call_ensures(
            function,
            (over2, under2),
            b,
        ) ==> a >= b
}

/// Whether a function reads no less at the second of two ratios, if that is no
/// smaller.
pub open spec fn rises_between<F: Fn(u128, u128) -> u64>(
    function: F,
    over: u128,
    under: u128,
    over2: u128,
    under2: u128,
) -> bool {
    over * under2 <= over2 * under ==> forall|a: u64, b: u64|
        #[trigger] call_ensures(function, (over, under), a) && #[trigger] call_ensures(
            function,
            (over2, under2),
            b,
        ) ==> a <= b
}

/// Whether a function reads one where the ratio is zero.
pub open spec fn starts_at_one<F: Fn(u128, u128) -> u64>(function: F) -> bool {
    forall|under: u128, a: u64| #[trigger] call_ensures(function, (0, under), a) ==> a == ONE
}

/// Whether a function reads, up to `slack` parts, no less than one less the
/// ratio, which the exponential of minus the ratio never is.
pub open spec fn above_the_tangent<F: Fn(u128, u128) -> u64>(function: F, slack: int) -> bool {
    forall|over: u128, under: u128, a: u64| #[trigger]
        call_ensures(function, (over, under), a) ==> (a + slack) * under + ONE * over >= ONE
            * under
}

/// The most parts that the laws let a reading be off, half a millionth of one
/// and far more than a double is.
pub open spec fn most_slack() -> int {
    0x1_0000_0000
}

/// Whether `halvings` is, within `slack` parts, the binary logarithm of `whole`
/// over `unit`: a fraction `a / b` is no more than that logarithm just where `2^a`
/// is no more than the `b`th power of the ratio, and no less just where it is
/// no less.
pub open spec fn is_log2(whole: int, unit: int, halvings: int, slack: int) -> bool {
    &&& forall|a: nat, b: nat|
        #![trigger pow(2, a), pow(whole, b)]
        pow(2, a) * pow(unit, b) <= pow(whole, b) ==> a * ONE <= b * (halvings + slack)
    &&& forall|a: nat, b: nat|
        #![trigger pow(2, a), pow(whole, b)]
        pow(whole, b) <= pow(2, a) * pow(unit, b) ==> b * (halvings - slack) <= a * ONE
}

/// Whether a function reads the binary logarithm of one more than the ratio,
/// within `slack` parts.
pub open spec fn reads_log2_1p<F: Fn(u128, u128) -> u64>(function: F, slack: int) -> bool {
    forall|over: u128, under: u128, a: u64| #[trigger]
        call_ensures(function, (over, under), a) && under > 0 ==> is_log2(
            under + over,
            under as int,
            a as int,
            slack,
        )
}

/// Whether `reading` is, within `slack` parts, the exponential of minus `over` over
/// `under`: for every `n` that is no less than the `n`th power of one less an
/// `n`th of the ratio, and no more than the inverse of the `n`th power of one
/// more than it.
pub open spec fn is_exp_neg(over: int, under: int, reading: int, slack: int) -> bool {
    &&& forall|n: nat|
        #![trigger pow(n * under, n)]
        n > 0 && over <= n * under ==> ONE * pow(n * under - over, n) <= (reading + slack) * pow(
            n * under,
            n,
        )
    &&& forall|n: nat|
        #![trigger pow(n * under, n)]
        n > 0 ==> (reading - slack) * pow(n * under + over, n) <= ONE * pow(n * under, n)
}

/// Whether a function reads the exponential of minus the ratio, within `slack`
/// parts.
pub open spec fn reads_exp_neg<F: Fn(u128, u128) -> u64>(function: F, slack: int) -> bool {
    forall|over: u128, under: u128, a: u64| #[trigger]
        call_ensures(function, (over, under), a) && under > 0 ==> is_exp_neg(
            over as int,
            under as int,
            a as int,
            slack,
        )
}

/// A power grows with its base.
pub proof fn lemma_pow_ordered(x: int, y: int, b: nat)
    requires
        0 <= x <= y,
    ensures
        0 <= pow(x, b) <= pow(y, b),
    decreases b,
{
    reveal(pow);
    if b > 0 {
        let c: nat = (b - 1) as nat;
        lemma_pow_ordered(x, y, c);
        assert(0 <= x * pow(x, c) <= y * pow(y, c)) by (nonlinear_arith)
            requires
                0 <= x <= y,
                0 <= pow(x, c) <= pow(y, c),
        ;
    }
}

/// Where one less an `n`th of the ratio is `p / q` at least, the exponential is
/// its `n`th power at least.
pub proof fn lemma_exp_at_least(
    over: int,
    under: int,
    reading: int,
    slack: int,
    p: int,
    q: int,
    n: nat,
)
    requires
        under > 0,
        n > 0,
        0 <= over <= n * under,
        p >= 0,
        q > 0,
        p * (n * under) <= q * (n * under - over),
        is_exp_neg(over, under, reading, slack),
    ensures
        ONE * pow(p, n) <= (reading + slack) * pow(q, n),
{
    let whole: int = n * under;
    assert(whole > 0 && 0 <= p * whole) by (nonlinear_arith)
        requires
            whole == n * under,
            n > 0,
            under > 0,
            p >= 0,
    ;
    lemma_pow_ordered(p * whole, q * (whole - over), n);
    lemma_pow_distributes(p, whole, n);
    lemma_pow_distributes(q, whole - over, n);
    lemma_pow_positive(whole, n);
    lemma_pow_positive(q, n);
    let (w, less, pn, qn) = (pow(whole, n), pow(whole - over, n), pow(p, n), pow(q, n));
    assert(w == pow(n * under, n));
    assert(ONE * pn <= (reading + slack) * qn) by (nonlinear_arith)
        requires
            w > 0,
            qn > 0,
            pn * w <= qn * less,
            ONE * less <= (reading + slack) * w,
    {
        assert(ONE * (pn * w) <= ONE * (qn * less));
        assert(qn * (ONE * less) <= qn * ((reading + slack) * w));
        assert((ONE * pn) * w <= ((reading + slack) * qn) * w);
    }
}

/// Where one more than an `n`th of the ratio is `p / q` at least, the
/// exponential is the inverse of its `n`th power at most.
pub proof fn lemma_exp_at_most(
    over: int,
    under: int,
    reading: int,
    slack: int,
    p: int,
    q: int,
    n: nat,
)
    requires
        under > 0,
        n > 0,
        over >= 0,
        p >= 0,
        q > 0,
        p * (n * under) <= q * (n * under + over),
        reading >= slack,
        is_exp_neg(over, under, reading, slack),
    ensures
        (reading - slack) * pow(p, n) <= ONE * pow(q, n),
{
    let whole: int = n * under;
    assert(whole > 0 && 0 <= p * whole) by (nonlinear_arith)
        requires
            whole == n * under,
            n > 0,
            under > 0,
            p >= 0,
    ;
    lemma_pow_ordered(p * whole, q * (whole + over), n);
    lemma_pow_distributes(p, whole, n);
    lemma_pow_distributes(q, whole + over, n);
    lemma_pow_positive(whole, n);
    lemma_pow_positive(q, n);
    let (w, more, pn, qn) = (pow(whole, n), pow(whole + over, n), pow(p, n), pow(q, n));
    assert(w == pow(n * under, n));
    assert((reading - slack) * pn <= ONE * qn) by (nonlinear_arith)
        requires
            w > 0,
            qn > 0,
            reading >= slack,
            pn * w <= qn * more,
            (reading - slack) * more <= ONE * w,
    {
        assert((reading - slack) * (pn * w) <= (reading - slack) * (qn * more));
        assert(qn * ((reading - slack) * more) <= qn * (ONE * w));
        assert(((reading - slack) * pn) * w <= (ONE * qn) * w);
    }
}

/// The exponential of zero is one.
pub proof fn the_exponential_of_zero(under: int)
    requires
        under > 0,
    ensures
        is_exp_neg(0, under, ONE as int, 0),
{
    assert forall|n: nat|
        #![trigger pow(n * under, n)]
        n > 0 implies ONE * pow(n * under - 0, n) <= (ONE + 0) * pow(n * under, n) && (ONE - 0)
            * pow(n * under + 0, n) <= ONE * pow(n * under, n) by {}
}

/// The exponential is above its tangent, within its slack.
pub proof fn the_exponential_is_above_its_tangent(
    over: u128,
    under: u128,
    reading: u64,
    slack: int,
)
    requires
        under > 0,
        slack >= 0,
        is_exp_neg(over as int, under as int, reading as int, slack),
    ensures
        (reading + slack) * under + ONE * over >= ONE * under,
{
    lemma_pow1(under as int);
    let p: int = pow(1 * under, 1);
    assert(p == under);
    if over <= under {
        lemma_pow1(under - over);
        assert(ONE * (under - over) == ONE * under - ONE * over) by (nonlinear_arith);
    } else {
        assert((reading + slack) * under >= 0 && ONE * over >= ONE * under) by (nonlinear_arith)
            requires
                over > under,
                under > 0,
                reading >= 0,
                slack >= 0,
        ;
    }
}

/// The logarithm of a power of two is its exponent.
pub proof fn the_logarithm_of_a_power(unit: int, n: nat)
    requires
        unit > 0,
    ensures
        is_log2(pow(2, n) * unit, unit, n * ONE, 0),
{
    let whole: int = pow(2, n) * unit;
    assert forall|a: nat, b: nat|
        #![trigger pow(2, a), pow(whole, b)]
        (pow(2, a) * pow(unit, b) <= pow(whole, b) ==> a * ONE <= b * (n * ONE + 0)) && (pow(
            whole,
            b,
        ) <= pow(2, a) * pow(unit, b) ==> b * (n * ONE - 0) <= a * ONE) by {
        let (t, u, nb) = (pow(2, a), pow(unit, b), pow(2, n * b));
        lemma_pow_distributes(pow(2, n), unit, b);
        lemma_pow_multiplies(2, n, b);
        lemma_pow_positive(unit, b);
        if t * u <= nb * u {
            assert(t <= nb) by (nonlinear_arith)
                requires
                    t * u <= nb * u,
                    u > 0,
            ;
            lemma_pow_increases_converse(2, a, n * b);
        }
        if nb * u <= t * u {
            assert(nb <= t) by (nonlinear_arith)
                requires
                    nb * u <= t * u,
                    u > 0,
            ;
            lemma_pow_increases_converse(2, n * b, a);
        }
        assert(b * (n * ONE) == (n * b) * ONE) by (nonlinear_arith);
    }
}

} // verus!
