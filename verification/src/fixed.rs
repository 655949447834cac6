//! Fixed-point quantities, and products too wide for one machine word.
//!
//! A share or a count with a fraction is an integer number of parts, [`ONE`]
//! of them to the whole.

use vstd::prelude::*;

verus! {

/// Parts in one whole: the resolution of a double just below one.
pub const ONE: u64 = 0x20_0000_0000_0000;

/// What one unit of a limb above the lowest 64 bits weighs.
pub const LIMB: u128 = 0x1_0000_0000_0000_0000;

/// Parts in one whole squared.
pub const ONE_SQUARED: u128 = 0x400_0000_0000_0000_0000_0000_0000;

/// What one unit of the upper word of a [`Wide`] weighs.
pub open spec fn word() -> int {
    u128::MAX + 1
}

/// The lesser of a reading and one, which is the most a share can be.
pub open spec fn share(reading: int) -> int {
    if reading < ONE { reading } else { ONE as int }
}

/// What is left of one when the share `none` is taken away.
pub open spec fn rest(none: int) -> int {
    ONE - none
}

/// Holds a reading to one.
pub fn as_share(reading: u64) -> (r: u64)
    ensures
        r == share(reading as int),
        r <= ONE,
{
    if reading < ONE {
        reading
    } else {
        ONE
    }
}

/// A 256-bit number.
#[derive(Clone, Copy, Debug, PartialEq, Eq, Structural)]
pub struct Wide {
    pub high: u128,
    pub low: u128,
}

impl View for Wide {
    type V = int;

    open spec fn view(&self) -> int {
        self.high * word() + self.low
    }
}

impl Wide {
    /// The whole product of two words.
    pub fn product(a: u128, b: u128) -> (r: Wide)
        ensures
            r@ == a * b,
    {
        let a1: u128 = a / LIMB;
        let a0: u128 = a % LIMB;
        let b1: u128 = b / LIMB;
        let b0: u128 = b % LIMB;
        proof {
            lemma_limb_product(a0 as int, b0 as int);
            lemma_limb_product(a0 as int, b1 as int);
            lemma_limb_product(a1 as int, b0 as int);
            lemma_limb_product(a1 as int, b1 as int);
        }
        let p00: u128 = a0 * b0;
        let p01: u128 = a0 * b1;
        let p10: u128 = a1 * b0;
        let p11: u128 = a1 * b1;
        let middle: u128 = p00 / LIMB + p01 % LIMB + p10 % LIMB;
        let low: u128 = (middle % LIMB) * LIMB + p00 % LIMB;
        proof {
            lemma_product_split(a as int, b as int, a1 as int, a0 as int, b1 as int, b0 as int);
            lemma_carry(
                LIMB as int,
                p11 as int,
                p01 as int,
                p10 as int,
                p00 as int,
                middle as int,
            );
            assert(word() == LIMB * LIMB);
            let top: int = p11 + p01 / LIMB + p10 / LIMB + middle / LIMB;
            assert(a * b == top * word() + low);
            lemma_word_product(a as int, b as int, top, low as int);
        }
        let high: u128 = p11 + p01 / LIMB + p10 / LIMB + middle / LIMB;
        Wide { high, low }
    }

    /// Whether this number is the lesser.
    pub fn less_than(self, other: Wide) -> (r: bool)
        ensures
            r == (self@ < other@),
    {
        proof {
            if self.high < other.high {
                lemma_upper_word_decides(self.high, self.low, other.high, other.low);
            }
            if other.high < self.high {
                lemma_upper_word_decides(other.high, other.low, self.high, self.low);
            }
        }
        self.high < other.high || (self.high == other.high && self.low < other.low)
    }

    /// The sum of two numbers whose upper words leave room for a carry.
    pub fn plus(self, other: Wide) -> (r: Wide)
        requires
            self.high + other.high < u128::MAX,
        ensures
            r@ == self@ + other@,
    {
        let room: u128 = u128::MAX - self.low;
        if other.low <= room {
            proof {
                lemma_upper_words_add(self.high as int, other.high as int, 0);
            }
            Wide { high: self.high + other.high, low: self.low + other.low }
        } else {
            proof {
                lemma_upper_words_add(self.high as int, other.high as int, 1);
            }
            Wide { high: self.high + other.high + 1, low: other.low - room - 1 }
        }
    }
}

/// A number below `bound` upper words has an upper word below `bound`.
pub proof fn lemma_upper_word_below(number: Wide, bound: int)
    by (nonlinear_arith)
    requires
        number.high * word() + number.low < bound * word(),
    ensures
        number.high < bound,
{
}

proof fn lemma_upper_words_add(a: int, b: int, carry: int)
    by (nonlinear_arith)
    ensures
        (a + b + carry) * word() == a * word() + b * word() + carry * word(),
{
}

proof fn lemma_limb_product(x: int, y: int)
    by (nonlinear_arith)
    requires
        0 <= x < LIMB,
        0 <= y < LIMB,
    ensures
        0 <= x * y <= (LIMB - 1) * (LIMB - 1),
{
}

proof fn lemma_product_split(a: int, b: int, a1: int, a0: int, b1: int, b0: int)
    by (nonlinear_arith)
    requires
        a == a1 * LIMB + a0,
        b == b1 * LIMB + b0,
    ensures
        a * b == (a1 * b1) * word() + (a0 * b1 + a1 * b0) * LIMB + a0 * b0,
{
}

proof fn lemma_carry(l: int, p11: int, p01: int, p10: int, p00: int, middle: int)
    requires
        l > 0,
        middle == p00 / l + p01 % l + p10 % l,
    ensures
        p11 * (l * l) + (p01 + p10) * l + p00 == (p11 + p01 / l + p10 / l + middle / l) * (l * l) + (
        (middle % l) * l + p00 % l),
{
    vstd::arithmetic::div_mod::lemma_fundamental_div_mod(p01, l);
    vstd::arithmetic::div_mod::lemma_fundamental_div_mod(p10, l);
    vstd::arithmetic::div_mod::lemma_fundamental_div_mod(p00, l);
    vstd::arithmetic::div_mod::lemma_fundamental_div_mod(middle, l);
    let (x1, x0, y1, y0) = (p01 / l, p01 % l, p10 / l, p10 % l);
    let (z1, z0, m1, m0) = (p00 / l, p00 % l, middle / l, middle % l);
    assert(p11 * (l * l) + (p01 + p10) * l + p00 == (p11 + x1 + y1 + m1) * (l * l) + (m0 * l + z0))
        by (nonlinear_arith)
        requires
            p01 == l * x1 + x0,
            p10 == l * y1 + y0,
            p00 == l * z1 + z0,
            middle == l * m1 + m0,
            middle == z1 + x0 + y0,
    {
        assert((p01 + p10) * l == (x1 + y1) * (l * l) + (x0 + y0) * l);
        assert(p00 == z1 * l + z0);
        assert((x0 + y0) * l + z1 * l == middle * l);
        assert(middle * l == m1 * (l * l) + m0 * l);
    }
}

proof fn lemma_upper_word_decides(h: u128, l: u128, other_h: u128, other_l: u128)
    by (nonlinear_arith)
    requires
        h < other_h,
    ensures
        h * word() + l < other_h * word() + other_l,
{
}

proof fn lemma_word_product(a: int, b: int, high: int, low: int)
    by (nonlinear_arith)
    requires
        0 <= a <= u128::MAX,
        0 <= b <= u128::MAX,
        a * b == high * word() + low,
        0 <= low,
    ensures
        high <= u128::MAX,
{
}

} // verus!
