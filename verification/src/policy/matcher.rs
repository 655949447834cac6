//! Stage one: which kernels hold a cover, what each costs, and which is
//! cheapest.

use super::{Build, Isa, Match, Shape};
use crate::fixed::ONE;
use vstd::prelude::*;

verus! {

/// Tokens one bitmap batch holds.
pub const PER_BATCH: usize = 8;

/// Batches the dispatch has an arm for.
pub const MAX_BATCHES: usize = 16;

/// Batches it takes to hold `tokens`, the last one perhaps not full.
pub open spec fn batch_count(tokens: int) -> int {
    (tokens + PER_BATCH - 1) / (PER_BATCH as int)
}

/// Batches it takes to hold `tokens`.
pub fn batches(tokens: usize) -> (r: usize)
    ensures
        r == batch_count(tokens as int),
{
    if tokens % PER_BATCH == 0 {
        tokens / PER_BATCH
    } else {
        tokens / PER_BATCH + 1
    }
}

/// Which covers each kernel holds: its limit on the tokens and which lists it
/// reads. The vector kernels hold none where they cannot run.
pub open spec fn holds(build: Build, kernel: Match, shape: Shape) -> bool {
    match kernel {
        Match::Table => true,
        Match::EqOr => build.vector() && shape.tokens > 0,
        Match::Range => build.vector() && shape.tokens == 0 && shape.ranges > 0,
        Match::NibbleN8K => build.vector() && 0 < shape.tokens <= PER_BATCH * MAX_BATCHES,
    }
}

/// Ticks per code of a kernel on a cover of this shape: one row per instruction
/// set and kernel, because the same kernel is a different cost on each set.
/// Each row is what the kernel pays whatever the cover, and what each token,
/// batch or range adds.
pub open spec fn code_ticks(isa: Isa, kernel: Match, shape: Shape) -> int {
    let k = shape.tokens as int;
    let r = shape.ranges as int;
    let b = batch_count(k);
    match (isa, kernel) {
        (Isa::Neon, Match::Table) => 18400,
        (Isa::Neon, Match::EqOr) => 588 + 1380 * k + 4966 * r,
        (Isa::Neon, Match::NibbleN8K) => 2325 + 3061 * b + 6501 * r,
        (Isa::Neon, Match::Range) => 330 + 2103 * r,
        (Isa::Avx2, Match::Table) => 29300,
        (Isa::Avx2, Match::EqOr) => 1247 + 835 * k + 2103 * r,
        (Isa::Avx2, Match::NibbleN8K) => 4343 + 2745 * b + 2145 * r,
        (Isa::Avx2, Match::Range) => 643 + 2033 * r,
        (Isa::Avx512Bw, Match::Table) => 23100,
        (Isa::Avx512Bw, Match::EqOr) => 1162 + 1019 * k + 1303 * r,
        (Isa::Avx512Bw, Match::NibbleN8K) => 1931 + 1936 * b + 1340 * r,
        (Isa::Avx512Bw, Match::Range) => 571 + 1475 * r,
        (Isa::Scalar, _) => 19500,
    }
}

/// Where a kernel stands on the ladder, lowest first. Of two that cost the
/// same the lower is taken.
pub open spec fn rung(kernel: Match) -> int {
    match kernel {
        Match::Table => 0,
        Match::EqOr => 1,
        Match::Range => 2,
        Match::NibbleN8K => 3,
    }
}

/// Whether `a` is taken before `b` on a cover that both hold.
pub open spec fn preferred(isa: Isa, shape: Shape, a: Match, b: Match) -> bool {
    ||| code_ticks(isa, a, shape) < code_ticks(isa, b, shape)
    ||| code_ticks(isa, a, shape) == code_ticks(isa, b, shape) && rung(a) <= rung(b)
}

/// Whether `kernel` holds the cover and is the cheapest that does.
pub open spec fn is_cheapest(build: Build, shape: Shape, kernel: Match) -> bool {
    &&& holds(build, kernel, shape)
    &&& forall|other: Match| #[trigger]
        holds(build, other, shape) ==> preferred(build.isa, shape, kernel, other)
}

/// The kernel a cover of this shape gets.
pub open spec fn planned(build: Build, shape: Shape) -> Match {
    choose|kernel: Match| is_cheapest(build, shape, kernel)
}

/// Codes one pass of the pack covers, which is the two mask words written at
/// a time and the unit the pack-skipping flag decides over.
pub const PACK_GROUP: u64 = 128;

/// What the pack-skipping flag adds over one pack group, in hundredths of a
/// nanosecond of [`ONE`] parts each: the lane OR it pays on every group, less
/// the pack it saves on the share `no_match` of groups with no match. On
/// AVX-512 the compare has already written the mask word, so there is no pack
/// to skip.
pub open spec fn skip_cost(isa: Isa, no_match: int) -> int {
    match isa {
        Isa::Avx512Bw => 35 * ONE,
        _ => 75 * ONE - 101 * no_match,
    }
}

/// Parts a tick is split into where a code's share of a pack group counts.
pub const TICK_PARTS: u128 = 0x200_0000_0000_0000;

/// Tick parts that the flag adds per code, where it is taken only if it pays:
/// a hundredth of a nanosecond over a pack group is 125 sixteenths of a tick on
/// each of its codes. The byte table has no pack to skip.
pub open spec fn skip_gain(isa: Isa, kernel: Match, no_match: int) -> int {
    if kernel != Match::Table && skip_cost(isa, no_match) < 0 {
        125 * skip_cost(isa, no_match)
    } else {
        0
    }
}

/// Tick parts per code of stage one on a cover of this shape.
pub open spec fn stage_one_parts(build: Build, shape: Shape, no_match: int) -> int {
    let kernel = planned(build, shape);
    code_ticks(build.isa, kernel, shape) * TICK_PARTS + skip_gain(build.isa, kernel, no_match)
}

/// Two kernels that are both cheapest are the same one.
pub proof fn cheapest_is_unique(build: Build, shape: Shape, a: Match, b: Match)
    requires
        is_cheapest(build, shape, a),
        is_cheapest(build, shape, b),
    ensures
        a == b,
{
    assert(holds(build, a, shape) && holds(build, b, shape));
}

/// Which covers each kernel holds: its limit on the tokens and which lists it
/// reads. The kernels do not check this themselves.
pub fn takes(build: Build, kernel: Match, shape: Shape) -> (r: bool)
    ensures
        r == holds(build, kernel, shape),
{
    let vector = build.simd && match build.isa {
        Isa::Scalar => false,
        _ => true,
    };
    match kernel {
        Match::Table => true,
        Match::EqOr => vector && shape.tokens > 0,
        Match::Range => vector && shape.tokens == 0 && shape.ranges > 0,
        Match::NibbleN8K => vector && shape.tokens > 0 && batches(shape.tokens) <= MAX_BATCHES,
    }
}

/// Ticks per code on NEON. Fitted on an Apple M4 Pro over four million codes
/// of a URL column.
pub fn neon(matcher: Match, shape: Shape) -> (r: u128)
    ensures
        r == code_ticks(Isa::Neon, matcher, shape),
{
    let k: u128 = shape.tokens as u128;
    let r: u128 = shape.ranges as u128;
    let b: u128 = batches(shape.tokens) as u128;
    match matcher {
        Match::Table => 18400,
        Match::EqOr => 588 + 1380 * k + 4966 * r,
        Match::NibbleN8K => 2325 + 3061 * b + 6501 * r,
        Match::Range => 330 + 2103 * r,
    }
}

/// Ticks per code on AVX2. Fitted on an AMD EPYC 9R14 over the same column.
pub fn avx2(matcher: Match, shape: Shape) -> (r: u128)
    ensures
        r == code_ticks(Isa::Avx2, matcher, shape),
{
    let k: u128 = shape.tokens as u128;
    let r: u128 = shape.ranges as u128;
    let b: u128 = batches(shape.tokens) as u128;
    match matcher {
        Match::Table => 29300,
        Match::EqOr => 1247 + 835 * k + 2103 * r,
        Match::NibbleN8K => 4343 + 2745 * b + 2145 * r,
        Match::Range => 643 + 2033 * r,
    }
}

/// Ticks per code on AVX-512. Fitted on the same core and stream as
/// [`avx2`]: neither a range nor a batch pays for a pack here.
pub fn avx512bw(matcher: Match, shape: Shape) -> (r: u128)
    ensures
        r == code_ticks(Isa::Avx512Bw, matcher, shape),
{
    let k: u128 = shape.tokens as u128;
    let r: u128 = shape.ranges as u128;
    let b: u128 = batches(shape.tokens) as u128;
    match matcher {
        Match::Table => 23100,
        Match::EqOr => 1162 + 1019 * k + 1303 * r,
        Match::NibbleN8K => 1931 + 1936 * b + 1340 * r,
        Match::Range => 571 + 1475 * r,
    }
}

/// Ticks per code with no vector kernels: the byte table is the whole ladder.
pub fn scalar(matcher: Match, shape: Shape) -> (r: u128)
    requires
        matcher == Match::Table,
    ensures
        r == code_ticks(Isa::Scalar, matcher, shape),
{
    19500
}

/// Ticks per code of a kernel on the instruction set of the build, which has
/// to have that kernel.
pub fn ns_per_code(isa: Isa, matcher: Match, shape: Shape) -> (r: u128)
    requires
        isa == Isa::Scalar ==> matcher == Match::Table,
    ensures
        r == code_ticks(isa, matcher, shape),
{
    match isa {
        Isa::Neon => neon(matcher, shape),
        Isa::Avx2 => avx2(matcher, shape),
        Isa::Avx512Bw => avx512bw(matcher, shape),
        Isa::Scalar => scalar(matcher, shape),
    }
}

/// The cheapest kernel [`ns_per_code`] models that [`takes`] the cover.
pub fn select_matcher(build: Build, shape: Shape) -> (r: Match)
    ensures
        is_cheapest(build, shape, r),
        r == planned(build, shape),
{
    let kernels: [Match; 4] = [Match::Table, Match::EqOr, Match::Range, Match::NibbleN8K];
    let mut best: Match = Match::Table;
    let mut i: usize = 1;
    while i < 4
        invariant
            1 <= i <= 4,
            kernels@ == seq![Match::Table, Match::EqOr, Match::Range, Match::NibbleN8K],
            holds(build, best, shape),
            rung(best) < i,
            forall|j: int|
                0 <= j < i && holds(build, #[trigger] kernels@[j], shape) ==> preferred(
                    build.isa,
                    shape,
                    best,
                    kernels@[j],
                ),
        decreases 4 - i,
    {
        let kernel: Match = kernels[i];
        if takes(build, kernel, shape) && ns_per_code(build.isa, kernel, shape) < ns_per_code(
            build.isa,
            best,
            shape,
        ) {
            best = kernel;
        }
        i = i + 1;
    }
    assert forall|other: Match| #[trigger]
        holds(build, other, shape) implies preferred(build.isa, shape, best, other) by {
        assert(kernels@[rung(other)] == other);
    }
    proof {
        assert(is_cheapest(build, shape, best));
        cheapest_is_unique(build, shape, best, planned(build, shape));
    }
    best
}

/// What the pack-skipping flag adds over one pack group where the share
/// `no_match` of groups has no match, in hundredths of a nanosecond of
/// [`ONE`] parts each. Negative is worth taking.
pub fn skip_ns_per_code(isa: Isa, no_match: u64) -> (r: i128)
    ensures
        r == skip_cost(isa, no_match as int),
{
    let (reduction, pack): (i128, i128) = match isa {
        Isa::Avx512Bw => (35, 0),
        _ => (75, 101),
    };
    reduction * (ONE as i128) - pack * (no_match as i128)
}

/// Tick parts per code of the planned matcher where the share `no_match` of
/// pack groups has no match: the kernel [`select_matcher`] picks plus the
/// pack-skipping flag where it pays.
pub fn stage_one_ns_per_code(build: Build, shape: Shape, no_match: u64) -> (r: u128)
    requires
        no_match <= ONE,
    ensures
        r == stage_one_parts(build, shape, no_match as int),
        0 < r <= 29300 * TICK_PARTS,
{
    let matcher = select_matcher(build, shape);
    proof {
        assert(holds(build, Match::Table, shape));
    }
    let kernel: u128 = ns_per_code(build.isa, matcher, shape) * TICK_PARTS;
    let skip: i128 = skip_ns_per_code(build.isa, no_match);
    match matcher {
        Match::Table => kernel,
        _ => if skip < 0 {
            kernel - 125 * ((-skip) as u128)
        } else {
            kernel
        },
    }
}

} // verus!
