//! What stage one comes to: the kernels that hold a cover, what each costs on
//! it, which is taken, and what the flag changes.

#[allow(unused_imports)]
use super::stage_one::a_kernel_is_always_found;
#[allow(unused_imports)]
use crate::cover::ProbeCover;
#[allow(unused_imports)]
use crate::fixed::{rest, share, ONE, ONE_SQUARED};
#[allow(unused_imports)]
use crate::policy::matcher::{
    batch_count, code_ticks, holds, planned, skip_cost, stage_one_parts, MAX_BATCHES, PACK_GROUP,
    PER_BATCH, TICK_PARTS,
};
#[allow(unused_imports)]
use crate::policy::resolver::{BIT_COST, MOST};
#[allow(unused_imports)]
use crate::policy::scan::{FINER, WALK_TICKS_PER_HIT};
#[allow(unused_imports)]
use crate::policy::{shape_of, Build, Isa, Match, Shape};
use vstd::prelude::*;

verus! {

/// The units hang together: one squared is one of one, a tick has sixteen
/// wholes of parts or one squared of the finest, a word of sixty-four bits costs
/// a twentieth of a nanosecond and a walk eight, a batch holds eight tokens and
/// a pack group two mask words.
pub proof fn the_units_hang_together()
    ensures
        ONE == 0x20_0000_0000_0000,
        ONE_SQUARED == ONE * ONE,
        TICK_PARTS == 16 * ONE,
        FINER * TICK_PARTS == ONE_SQUARED,
        64 * BIT_COST == 5000 * ONE,
        WALK_TICKS_PER_HIT == 8 * 100000,
        PACK_GROUP == 2 * 64,
        PER_BATCH == 8,
        MAX_BATCHES == 16,
        MOST == u64::MAX * ONE,
{
}

/// A share and what is left of it make one, and a reading above one is read as
/// one.
pub proof fn a_share_and_its_rest_make_one(reading: int)
    ensures
        share(reading) + rest(share(reading)) == ONE,
        reading <= ONE ==> share(reading) == reading,
        reading >= ONE ==> share(reading) == ONE,
{
}

/// The batches of a cover hold every token, and none of them is empty.
pub proof fn the_batches_hold_every_token(tokens: int)
    requires
        tokens >= 0,
    ensures
        8 * (batch_count(tokens) - 1) < tokens <= 8 * batch_count(tokens),
{
}

/// The shape of a cover is how many codes and how many ranges it has.
pub proof fn the_shape_counts_both_lists(cover: &ProbeCover)
    requires
        cover.point_seq().len() <= usize::MAX,
        cover.range_seq().len() <= usize::MAX,
    ensures
        shape_of(cover).tokens == cover.point_seq().len(),
        shape_of(cover).ranges == cover.range_seq().len(),
{
}

/// What each kernel is declined for: the byte table for nothing, the vector
/// kernels where none can run, the compare and the bitmap for no tokens, the
/// bitmap for more than a hundred and twenty-eight, and the range predicate for
/// any token or no range.
pub proof fn each_kernel_is_declined_for_its_own_reason(build: Build, shape: Shape)
    ensures
        holds(build, Match::Table, shape),
        build.isa == Isa::Scalar || !build.simd ==> !holds(build, Match::EqOr, shape) && !holds(
            build,
            Match::Range,
            shape,
        ) && !holds(build, Match::NibbleN8K, shape),
        build.isa != Isa::Scalar && build.simd ==> {
            &&& holds(build, Match::EqOr, shape) <==> shape.tokens != 0
            &&& holds(build, Match::Range, shape) <==> shape.tokens == 0 && shape.ranges != 0
            &&& holds(build, Match::NibbleN8K, shape) <==> shape.tokens != 0 && shape.tokens <= 128
        },
{
}

/// What a kernel costs before the cover has anything in it.
pub proof fn a_kernel_starts_at_its_base(isa: Isa, kernel: Match, shape: Shape)
    requires
        shape.tokens == 0,
        shape.ranges == 0,
    ensures
        isa == Isa::Scalar ==> code_ticks(isa, kernel, shape) == 19500,
        isa == Isa::Neon ==> code_ticks(isa, kernel, shape) == (match kernel {
            Match::Table => 18400int,
            Match::EqOr => 588int,
            Match::Range => 330int,
            Match::NibbleN8K => 2325int,
        }),
        isa == Isa::Avx2 ==> code_ticks(isa, kernel, shape) == (match kernel {
            Match::Table => 29300int,
            Match::EqOr => 1247int,
            Match::Range => 643int,
            Match::NibbleN8K => 4343int,
        }),
        isa == Isa::Avx512Bw ==> code_ticks(isa, kernel, shape) == (match kernel {
            Match::Table => 23100int,
            Match::EqOr => 1162int,
            Match::Range => 571int,
            Match::NibbleN8K => 1931int,
        }),
{
}

/// Each further range adds its kernel's own ticks, however many there are and
/// whatever the tokens. The byte table is flat.
pub proof fn each_range_adds_its_ticks(isa: Isa, kernel: Match, shape: Shape, wider: Shape)
    requires
        wider.tokens == shape.tokens,
        wider.ranges == shape.ranges + 1,
    ensures
        kernel == Match::Table || isa == Isa::Scalar ==> code_ticks(isa, kernel, wider)
            == code_ticks(isa, kernel, shape),
        isa == Isa::Neon && kernel != Match::Table ==> code_ticks(isa, kernel, wider) - code_ticks(
            isa,
            kernel,
            shape,
        ) == (match kernel {
            Match::EqOr => 4966int,
            Match::NibbleN8K => 6501int,
            _ => 2103int,
        }),
        isa == Isa::Avx2 && kernel != Match::Table ==> code_ticks(isa, kernel, wider) - code_ticks(
            isa,
            kernel,
            shape,
        ) == (match kernel {
            Match::EqOr => 2103int,
            Match::NibbleN8K => 2145int,
            _ => 2033int,
        }),
        isa == Isa::Avx512Bw && kernel != Match::Table ==> code_ticks(isa, kernel, wider)
            - code_ticks(isa, kernel, shape) == (match kernel {
            Match::EqOr => 1303int,
            Match::NibbleN8K => 1340int,
            _ => 1475int,
        }),
{
}

/// Each further token adds its ticks to the compare. To the bitmap it adds a
/// batch's where it opens one, which the first of each eight does, and nothing
/// elsewhere.
/// The range predicate and the byte table do not look at tokens.
pub proof fn each_token_adds_its_ticks(isa: Isa, kernel: Match, shape: Shape, larger: Shape)
    requires
        larger.tokens == shape.tokens + 1,
        larger.ranges == shape.ranges,
    ensures
        kernel == Match::Table || kernel == Match::Range || isa == Isa::Scalar ==> code_ticks(
            isa,
            kernel,
            larger,
        ) == code_ticks(isa, kernel, shape),
        kernel == Match::EqOr && isa != Isa::Scalar ==> code_ticks(isa, kernel, larger)
            - code_ticks(isa, kernel, shape) == (match isa {
            Isa::Neon => 1380int,
            Isa::Avx2 => 835int,
            _ => 1019int,
        }),
        kernel == Match::NibbleN8K && isa != Isa::Scalar && shape.tokens % 8 == 0 ==> code_ticks(
            isa,
            kernel,
            larger,
        ) - code_ticks(isa, kernel, shape) == (match isa {
            Isa::Neon => 3061int,
            Isa::Avx2 => 2745int,
            _ => 1936int,
        }),
        kernel == Match::NibbleN8K && shape.tokens % 8 != 0 ==> code_ticks(isa, kernel, larger)
            == code_ticks(isa, kernel, shape),
{
}

/// What a kernel costs on a shape is its base, its ticks for each token or for
/// each batch that holds some, and its ticks for each range.
pub proof fn a_kernel_costs_its_base_its_tokens_and_its_ranges(
    isa: Isa,
    kernel: Match,
    shape: Shape,
    batches: int,
)
    requires
        8 * (batches - 1) < shape.tokens <= 8 * batches,
    ensures
        ({
            let (k, r) = (shape.tokens as int, shape.ranges as int);
            code_ticks(isa, kernel, shape) == (match (isa, kernel) {
                (Isa::Scalar, _) => 19500int,
                (Isa::Neon, Match::Table) => 18400int,
                (Isa::Neon, Match::EqOr) => 588 + 1380 * k + 4966 * r,
                (Isa::Neon, Match::Range) => 330 + 2103 * r,
                (Isa::Neon, Match::NibbleN8K) => 2325 + 3061 * batches + 6501 * r,
                (Isa::Avx2, Match::Table) => 29300int,
                (Isa::Avx2, Match::EqOr) => 1247 + 835 * k + 2103 * r,
                (Isa::Avx2, Match::Range) => 643 + 2033 * r,
                (Isa::Avx2, Match::NibbleN8K) => 4343 + 2745 * batches + 2145 * r,
                (Isa::Avx512Bw, Match::Table) => 23100int,
                (Isa::Avx512Bw, Match::EqOr) => 1162 + 1019 * k + 1303 * r,
                (Isa::Avx512Bw, Match::Range) => 571 + 1475 * r,
                (Isa::Avx512Bw, Match::NibbleN8K) => 1931 + 1936 * batches + 1340 * r,
            })
        }),
{
}

/// The planned kernel holds the cover and costs less than any other that does.
pub proof fn the_planned_kernel_is_the_cheapest(build: Build, shape: Shape, other: Match)
    requires
        holds(build, other, shape),
        other != planned(build, shape),
    ensures
        holds(build, planned(build, shape), shape),
        code_ticks(build.isa, planned(build, shape), shape) < code_ticks(build.isa, other, shape),
{
    a_kernel_is_always_found(build, shape);
}

/// What the flag adds over a pack group: off AVX-512 three quarters of a
/// nanosecond where every group has a match, and 1.01 less for each group that
/// has none; on AVX-512 0.35 whatever matches.
pub proof fn the_flag_saves_a_pack_for_each_empty_group(isa: Isa, no_match: int, more: int)
    ensures
        isa == Isa::Avx512Bw ==> skip_cost(isa, no_match) == 35 * ONE,
        isa != Isa::Avx512Bw ==> skip_cost(isa, 0) == 75 * ONE,
        isa != Isa::Avx512Bw ==> skip_cost(isa, no_match) - skip_cost(isa, more) == 101 * (more
            - no_match),
{
}

/// Stage one costs exactly what the planned kernel does on the shape where the
/// flag does not pay, and where it does exactly what the flag saves less: a
/// hundredth of a nanosecond over a pack group of 128 codes is 125 sixteenths of
/// a tick on each. The byte table saves nothing.
pub proof fn stage_one_is_the_kernel_less_the_saving(build: Build, shape: Shape, no_match: int)
    ensures
        ({
            let kernel = planned(build, shape);
            let alone = code_ticks(build.isa, kernel, shape) * (16 * ONE);
            let stage = stage_one_parts(build, shape, no_match);
            let pays = kernel != Match::Table && build.isa != Isa::Avx512Bw && 101 * no_match > 75
                * ONE;
            &&& !pays ==> stage == alone
            &&& pays ==> alone - stage == 125 * (101 * no_match - 75 * ONE)
        }),
{
}

/// Each further batch of a bitmap, and each further range of any vector kernel,
/// adds the same to stage one as to the kernel: two shapes with one planned
/// kernel differ in stage one by what the kernel differs.
pub proof fn stage_one_grows_as_its_kernel_does(
    build: Build,
    shape: Shape,
    other: Shape,
    no_match: int,
)
    requires
        planned(build, shape) == planned(build, other),
    ensures
        stage_one_parts(build, other, no_match) - stage_one_parts(build, shape, no_match) == (
        code_ticks(build.isa, planned(build, shape), other) - code_ticks(
            build.isa,
            planned(build, shape),
            shape,
        )) * (16 * ONE),
{
    let (less, more) = (
        code_ticks(build.isa, planned(build, shape), shape),
        code_ticks(build.isa, planned(build, shape), other),
    );
    assert(more * (16 * ONE) - less * (16 * ONE) == (more - less) * (16 * ONE))
        by (nonlinear_arith);
}

/// Stage one is below the planned kernel by no more than the whole pack saved,
/// 0.26 nanoseconds over a group, and above no kernel that holds the cover.
pub proof fn stage_one_is_never_far_below_a_kernel(build: Build, shape: Shape, no_match: int)
    requires
        0 <= no_match <= ONE,
    ensures
        stage_one_parts(build, shape, no_match) >= code_ticks(
            build.isa,
            planned(build, shape),
            shape,
        ) * (16 * ONE) - 125 * (26 * ONE),
        forall|other: Match| #[trigger]
            holds(build, other, shape) ==> stage_one_parts(build, shape, no_match) <= code_ticks(
                build.isa,
                other,
                shape,
            ) * (16 * ONE),
{
    a_kernel_is_always_found(build, shape);
}

} // verus!
