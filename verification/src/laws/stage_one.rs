//! Laws of stage one: the kernels, and the pack-skipping flag.

#[allow(unused_imports)]
use super::readings::{
    falls_between, is_exp_neg, lemma_pow_ordered, most_slack, reads_exp_neg,
};
#[allow(unused_imports)]
use crate::fixed::{share, ONE};
#[allow(unused_imports)]
use crate::policy::matcher::{
    batch_count, code_ticks, holds, is_cheapest, planned, preferred, skip_cost, stage_one_parts,
    MAX_BATCHES, PACK_GROUP, TICK_PARTS,
};
#[allow(unused_imports)]
use crate::policy::{skips, Build, Isa, Match, Ratio, Shape};
#[allow(unused_imports)]
use vstd::arithmetic::power::{
    lemma_pow_adds, lemma_pow_distributes, lemma_pow_positive, pow,
};
use vstd::prelude::*;

verus! {

/// The byte table holds every cover, so some kernel is always the cheapest.
pub proof fn a_kernel_is_always_found(build: Build, shape: Shape)
    ensures
        holds(build, Match::Table, shape),
        is_cheapest(build, shape, planned(build, shape)),
{
    let a = lesser(build, shape, Match::Table, Match::EqOr);
    let b = lesser(build, shape, a, Match::Range);
    let c = lesser(build, shape, b, Match::NibbleN8K);
    assert forall|other: Match| #[trigger] holds(build, other, shape) implies preferred(
        build.isa,
        shape,
        c,
        other,
    ) by {
        assert(other == Match::Table || other == Match::EqOr || other == Match::Range || other
            == Match::NibbleN8K);
    }
    assert(is_cheapest(build, shape, c));
}

spec fn lesser(build: Build, shape: Shape, best: Match, other: Match) -> Match {
    if holds(build, other, shape) && code_ticks(build.isa, other, shape) < code_ticks(
        build.isa,
        best,
        shape,
    ) {
        other
    } else {
        best
    }
}

/// The planner never names a bitmap with more batches than the dispatch has
/// arms, nor one with none.
pub proof fn the_planner_stays_inside_the_batch_arms(build: Build, shape: Shape)
    requires
        is_cheapest(build, shape, Match::NibbleN8K),
    ensures
        1 <= batch_count(shape.tokens as int) <= MAX_BATCHES,
{
}

/// The byte table is flat and a batch is not, so the crossover binds long
/// before the arms run out: no instruction set gets past ten batches.
pub proof fn the_crossover_binds_before_the_arms_run_out(build: Build, shape: Shape)
    requires
        is_cheapest(build, shape, Match::NibbleN8K),
    ensures
        batch_count(shape.tokens as int) <= 10,
        code_ticks(build.isa, Match::NibbleN8K, shape) < code_ticks(build.isa, Match::Table, shape),
{
    assert(holds(build, Match::Table, shape));
}

/// Where no vector kernel can run the byte table does.
pub proof fn without_vectors_the_table_runs(build: Build, shape: Shape)
    requires
        !build.vector(),
    ensures
        planned(build, shape) == Match::Table,
{
    a_kernel_is_always_found(build, shape);
}

/// A cover of nothing gets the byte table.
pub proof fn an_empty_shape_gets_the_table(build: Build, shape: Shape)
    requires
        shape.tokens == 0,
        shape.ranges == 0,
    ensures
        planned(build, shape) == Match::Table,
{
    a_kernel_is_always_found(build, shape);
}

/// The planned kernel costs no more than the byte table, whatever the cover.
pub proof fn the_table_bounds_the_kernel(build: Build, shape: Shape)
    ensures
        code_ticks(build.isa, planned(build, shape), shape) <= code_ticks(
            build.isa,
            Match::Table,
            shape,
        ),
{
    a_kernel_is_always_found(build, shape);
}

/// A kernel costs no less on a cover with more tokens or more ranges.
pub proof fn a_larger_cover_costs_no_less(isa: Isa, kernel: Match, small: Shape, large: Shape)
    requires
        small.tokens <= large.tokens,
        small.ranges <= large.ranges,
    ensures
        code_ticks(isa, kernel, small) <= code_ticks(isa, kernel, large),
{
}

/// On AVX-512 there is no pack to skip, so the flag can only cost, at every
/// density.
pub proof fn on_avx512_the_flag_only_costs<E: Fn(u128, u128) -> u64>(
    no_match: int,
    density: Ratio,
    exp_neg: E,
    skip: bool,
)
    requires
        skips(Isa::Avx512Bw, density, exp_neg, skip),
    ensures
        skip_cost(Isa::Avx512Bw, no_match) > 0,
        !skip,
{
}

/// On the other sets the flag pays on a stream that nothing hits and costs on
/// one where every pack group is hit.
pub proof fn the_flag_pays_where_nothing_hits(isa: Isa)
    requires
        isa != Isa::Avx512Bw,
    ensures
        skip_cost(isa, ONE as int) < 0,
        skip_cost(isa, 0) > 0,
{
}

/// The flag costs no more the more groups have no match, and off AVX-512 it
/// stays between the pack it saves and the lane OR it pays, and is worth taking
/// just where more than 75 groups of 101 have no match.
pub proof fn the_flag_falls_with_empty_groups(isa: Isa, no_match: int, more: int)
    requires
        0 <= no_match <= more <= ONE,
    ensures
        skip_cost(isa, more) <= skip_cost(isa, no_match),
        isa != Isa::Avx512Bw ==> -26 * ONE <= skip_cost(isa, no_match) <= 75 * ONE,
        isa != Isa::Avx512Bw ==> (skip_cost(isa, no_match) < 0 <==> 101 * no_match > 75 * ONE),
{
}

/// The flag costs no less the denser the hits: where `exp_neg` falls between
/// them, a denser region reads no more empty groups, and never turns the flag
/// on where a sparser one leaves it off.
pub proof fn denser_hits_cost_the_flag_no_less<E: Fn(u128, u128) -> u64>(
    isa: Isa,
    sparse: Ratio,
    dense: Ratio,
    exp_neg: E,
    sparse_reading: u64,
    dense_reading: u64,
)
    requires
        falls_between(
            exp_neg,
            (PACK_GROUP * sparse.over) as u128,
            sparse.under,
            (PACK_GROUP * dense.over) as u128,
            dense.under,
        ),
        sparse.over <= usize::MAX,
        dense.over <= usize::MAX,
        sparse.over * dense.under <= dense.over * sparse.under,
        call_ensures(exp_neg, ((PACK_GROUP * sparse.over) as u128, sparse.under), sparse_reading),
        call_ensures(exp_neg, ((PACK_GROUP * dense.over) as u128, dense.under), dense_reading),
    ensures
        skip_cost(isa, share(sparse_reading as int)) <= skip_cost(
            isa,
            share(dense_reading as int),
        ),
        forall|in_sparse: bool, in_dense: bool|
            skips(isa, sparse, exp_neg, in_sparse) && skips(isa, dense, exp_neg, in_dense)
                && in_dense ==> in_sparse,
{
    let a: u128 = (PACK_GROUP * sparse.over) as u128;
    let b: u128 = (PACK_GROUP * dense.over) as u128;
    assert(a == 128 * sparse.over && b == 128 * dense.over);
    assert(a * dense.under <= b * sparse.under) by (nonlinear_arith)
        requires
            a == 128 * sparse.over,
            b == 128 * dense.over,
            sparse.over * dense.under <= dense.over * sparse.under,
    ;
}

/// The flag breaks even at about three hits to ten pack groups, where
/// `exp_neg` reads the exponential within the slack: off AVX-512 it pays up to 294 hits to a
/// thousand groups and costs from 301.
pub proof fn the_flag_breaks_even<E: Fn(u128, u128) -> u64>(
    isa: Isa,
    density: Ratio,
    exp_neg: E,
    slack: int,
    skip: bool,
)
    requires
        isa != Isa::Avx512Bw,
        density.over <= usize::MAX,
        density.under > 0,
        0 <= slack <= most_slack(),
        reads_exp_neg(exp_neg, slack),
        skips(isa, density, exp_neg, skip),
    ensures
        1000 * (PACK_GROUP * density.over) <= 294 * density.under ==> skip,
        1000 * (PACK_GROUP * density.over) >= 301 * density.under ==> !skip,
{
    let over: int = PACK_GROUP * density.over;
    let under: int = density.under as int;
    let reading = choose|reading: u64| #[trigger]
        call_ensures(exp_neg, ((PACK_GROUP * density.over) as u128, density.under), reading)
            && skip == (skip_cost(isa, share(reading as int)) < 0);
    assert(over <= u128::MAX);
    assert(is_exp_neg(over, under, reading as int, slack));
    let whole: int = pow(16 * under, 16);
    lemma_pow_positive(16 * under, 16);
    lemma_sixteenth_powers();
    if 1000 * over <= 294 * under {
        lemma_pow_ordered(7853 * (16 * under), 8000 * (16 * under - over), 16);
        lemma_pow_distributes(7853, 16 * under, 16);
        lemma_pow_distributes(8000, 16 * under - over, 16);
        lemma_pays(
            reading as int,
            slack,
            whole,
            pow(16 * under - over, 16),
            pow(7853, 16),
            pow(8000, 16),
        );
    }
    if 1000 * over >= 301 * under {
        lemma_pow_ordered(16301 * (16 * under), 16000 * (16 * under + over), 16);
        lemma_pow_distributes(16301, 16 * under, 16);
        lemma_pow_distributes(16000, 16 * under + over, 16);
        lemma_costs(
            reading as int,
            slack,
            whole,
            pow(16 * under + over, 16),
            pow(16301, 16),
            pow(16000, 16),
        );
    }
}

/// Three quarters of one, and a little, is less than what is read.
proof fn lemma_pays(reading: int, slack: int, whole: int, less: int, over: int, under: int)
    requires
        0 <= slack <= most_slack(),
        whole > 0,
        under > 0,
        over * whole <= under * less,
        ONE * less <= (reading + slack) * whole,
        75 * under * 10000 + under < 101 * over * 10000,
    ensures
        101 * reading > 75 * ONE,
{
    assert(ONE * over <= (reading + slack) * under) by (nonlinear_arith)
        requires
            whole > 0,
            under > 0,
            over * whole <= under * less,
            ONE * less <= (reading + slack) * whole,
    {
        assert(ONE * (over * whole) <= ONE * (under * less));
        assert(ONE * (under * less) == under * (ONE * less));
        assert(under * (ONE * less) <= under * ((reading + slack) * whole));
        assert((ONE * over) * whole <= ((reading + slack) * under) * whole);
    }
    assert(101 * reading > 75 * ONE) by (nonlinear_arith)
        requires
            under > 0,
            slack <= 0x1_0000_0000,
            ONE * over <= (reading + slack) * under,
            75 * under * 10000 + under < 101 * over * 10000,
    {
        assert(10000 * 101 * (ONE * over) > (750000 * ONE + ONE) * under);
        assert(10000 * 101 * ((reading + slack) * under) > (750000 * ONE + ONE) * under);
        assert(10000 * 101 * (reading + slack) > 750000 * ONE + ONE);
    }
}

/// What is read is less than three quarters of one, by a little.
proof fn lemma_costs(reading: int, slack: int, whole: int, more: int, over: int, under: int)
    requires
        0 <= slack <= most_slack(),
        whole > 0,
        over > 0,
        under > 0,
        over * whole <= under * more,
        (reading - slack) * more <= ONE * whole,
        101 * under * 10000 + over < 75 * over * 10000,
    ensures
        101 * reading < 75 * ONE,
{
    if reading > slack {
        assert((reading - slack) * over <= ONE * under) by (nonlinear_arith)
            requires
                whole > 0,
                reading > slack,
                over * whole <= under * more,
                (reading - slack) * more <= ONE * whole,
                under > 0,
        {
            assert((reading - slack) * (over * whole) <= (reading - slack) * (under * more));
            assert((reading - slack) * (under * more) == under * ((reading - slack) * more));
            assert(under * ((reading - slack) * more) <= under * (ONE * whole));
            assert(((reading - slack) * over) * whole <= (ONE * under) * whole);
        }
        assert(101 * reading < 75 * ONE) by (nonlinear_arith)
            requires
                over > 0,
                slack <= 0x1_0000_0000,
                (reading - slack) * over <= ONE * under,
                101 * under * 10000 + over < 75 * over * 10000,
        {
            assert(1010000 * ((reading - slack) * over) <= 1010000 * (ONE * under));
            assert(1010000 * (ONE * under) < (750000 * ONE - ONE) * over);
            assert(1010000 * (reading - slack) < 750000 * ONE - ONE);
        }
    }
}

proof fn lemma_sixteenth_powers()
    ensures
        75 * pow(8000, 16) * 10000 + pow(8000, 16) < 101 * pow(7853, 16) * 10000,
        101 * pow(16000, 16) * 10000 + pow(16301, 16) < 75 * pow(16301, 16) * 10000,
        pow(8000, 16) > 0,
        pow(16000, 16) > 0,
        pow(16301, 16) > 0,
{
    lemma_sixteenth_power(7853, 3803140674212881, 14463878987852407055688906320161);
    lemma_sixteenth_power(8000, 4096000000000000, 16777216000000000000000000000000);
    lemma_sixteenth_power(16000, 65536000000000000, 4294967296000000000000000000000000);
    lemma_sixteenth_power(16301, 70608500682205201, 4985560368588972335020936271450401);
}

proof fn lemma_sixteenth_power(base: int, fourth: int, eighth: int)
    requires
        base * base * (base * base) == fourth,
        fourth * fourth == eighth,
    ensures
        pow(base, 16) == eighth * eighth,
{
    assert(pow(base, 2) == base * base && pow(base, 1) == base) by {
        reveal_with_fuel(pow, 3);
    }
    lemma_pow_adds(base, 2, 2);
    lemma_pow_adds(base, 4, 4);
    lemma_pow_adds(base, 8, 8);
}

/// Fewer groups with a match never turn the flag off.
pub proof fn fewer_matches_keep_the_flag(isa: Isa, no_match: int, more: int)
    requires
        no_match <= more,
        skip_cost(isa, no_match) < 0,
    ensures
        skip_cost(isa, more) < 0,
{
}

/// The flag is charged only where it pays, so stage one costs no more than
/// its kernel alone, and exactly that on the byte table.
pub proof fn the_flag_never_raises_stage_one(build: Build, shape: Shape, no_match: int)
    ensures
        stage_one_parts(build, shape, no_match) <= code_ticks(
            build.isa,
            planned(build, shape),
            shape,
        ) * TICK_PARTS,
        planned(build, shape) == Match::Table ==> stage_one_parts(build, shape, no_match)
            == code_ticks(build.isa, Match::Table, shape) * TICK_PARTS,
{
}

} // verus!
