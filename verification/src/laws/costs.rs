//! What stage two and a whole scan come to, in terms of what they are charged
//! for.

#[allow(unused_imports)]
use super::kernels::{each_range_adds_its_ticks, stage_one_is_the_kernel_less_the_saving};
#[allow(unused_imports)]
use crate::cover::ProbeCover;
#[allow(unused_imports)]
use crate::fixed::{rest, ONE, ONE_SQUARED};
#[allow(unused_imports)]
use crate::policy::matcher::{code_ticks, planned, stage_one_parts};
#[allow(unused_imports)]
use crate::policy::resolver::{
    cheaper, named_rows, reached_rows, seek_cost, stage_two_cost, BIT_COST,
};
#[allow(unused_imports)]
use crate::policy::scan::{hit_bits, read, scan_cost, scans, Readings, FINER};
#[allow(unused_imports)]
use crate::policy::{shape_of, Build, Isa, Match, Region, Resolve, Shape};
use vstd::prelude::*;

verus! {

/// The rows named and the rows missed make all the rows, and so do the bits in
/// blocks that hit and in blocks that do not. The rows reached are the rows
/// named, and one where they would be fewer.
pub proof fn the_named_and_the_missed_make_all(count: int, none: int)
    ensures
        named_rows(count, none) + count * none == count * ONE,
        hit_bits(count, none) + count * none == count * ONE,
        named_rows(count, none) >= ONE ==> reached_rows(count, none) == named_rows(count, none),
        named_rows(count, none) <= ONE ==> reached_rows(count, none) == ONE,
{
    assert(count * rest(none) + count * none == count * ONE) by (nonlinear_arith)
        requires
            rest(none) + none == ONE,
    ;
}

/// What a resolver costs for two lots is what it costs for each: the walk over
/// the rows emitted and the rows crossed, the search over the rows emitted and
/// over the halvings.
pub proof fn two_lots_cost_what_each_does(
    emitted: int,
    crossed: int,
    halvings: int,
    emitted2: int,
    crossed2: int,
    halvings2: int,
)
    ensures
        seek_cost(Resolve::LinearSeek, emitted + emitted2, crossed + crossed2, halvings)
            == seek_cost(Resolve::LinearSeek, emitted, crossed, halvings) + seek_cost(
            Resolve::LinearSeek,
            emitted2,
            crossed2,
            halvings2,
        ),
        seek_cost(Resolve::GallopSeek, emitted + emitted2, crossed, halvings) == seek_cost(
            Resolve::GallopSeek,
            emitted,
            crossed,
            halvings,
        ) + seek_cost(Resolve::GallopSeek, emitted2, crossed2, halvings),
        seek_cost(Resolve::GallopSeek, emitted, crossed, halvings + halvings2) == seek_cost(
            Resolve::GallopSeek,
            emitted,
            crossed,
            halvings,
        ) + seek_cost(Resolve::GallopSeek, emitted, crossed2, halvings2),
{
    assert((398 * (emitted + emitted2) + 41 * (crossed + crossed2)) * (1000 * ONE) == (398
        * emitted + 41 * crossed) * (1000 * ONE) + (398 * emitted2 + 41 * crossed2) * (1000
        * ONE)) by (nonlinear_arith);
    assert(389000 * halvings * (emitted + emitted2) == 389000 * halvings * emitted + 389000
        * halvings * emitted2) by (nonlinear_arith);
    assert(389000 * (halvings + halvings2) * emitted == 389000 * halvings * emitted + 389000
        * halvings2 * emitted) by (nonlinear_arith);
}

/// The walk is paid 3.98 nanoseconds for each row emitted and 0.41 for each row
/// crossed, the search 3.89 for each halving of each row emitted.
pub proof fn what_a_row_costs(emitted: int, crossed: int, halvings: int)
    ensures
        seek_cost(Resolve::LinearSeek, emitted * ONE, crossed * ONE, halvings) == (398000 * emitted
            + 41000 * crossed) * ONE_SQUARED,
        seek_cost(Resolve::GallopSeek, emitted * ONE, crossed, halvings * ONE) == (389000 * emitted
            * halvings) * ONE_SQUARED,
{
    assert((398 * (emitted * ONE) + 41 * (crossed * ONE)) * (1000 * ONE) == (398000 * emitted
        + 41000 * crossed) * (ONE * ONE)) by (nonlinear_arith);
    assert(389000 * (halvings * ONE) * (emitted * ONE) == (389000 * emitted * halvings) * (ONE
        * ONE)) by (nonlinear_arith);
}

/// The resolver taken costs no more than the other, and where the two cost the
/// same it is the walk.
pub proof fn the_resolver_taken_costs_no_more(
    emitted: int,
    crossed: int,
    halvings: int,
    other: Resolve,
)
    ensures
        seek_cost(cheaper(emitted, crossed, halvings), emitted, crossed, halvings) <= seek_cost(
            other,
            emitted,
            crossed,
            halvings,
        ),
        seek_cost(Resolve::LinearSeek, emitted, crossed, halvings) == seek_cost(
            Resolve::GallopSeek,
            emitted,
            crossed,
            halvings,
        ) ==> cheaper(emitted, crossed, halvings) == Resolve::LinearSeek,
{
}

/// Stage two is the scan of the mask, a twentieth of a nanosecond for each word
/// of sixty-four bits, and what the resolver is paid, which is nothing where no
/// row is emitted.
pub proof fn stage_two_is_the_scan_and_the_seek(
    resolver: Resolve,
    bits: int,
    more: int,
    emitted: int,
    crossed: int,
    halvings: int,
)
    ensures
        64 * (stage_two_cost(resolver, bits + more, emitted, crossed, halvings) - stage_two_cost(
            resolver,
            bits,
            emitted,
            crossed,
            halvings,
        )) == 5000 * ONE * more,
        emitted == 0 ==> stage_two_cost(resolver, 0, emitted, crossed, halvings) == 0,
        emitted != 0 ==> stage_two_cost(resolver, 0, emitted, crossed, halvings) == seek_cost(
            resolver,
            emitted,
            crossed,
            halvings,
        ),
{
    assert((bits + more) * BIT_COST == bits * BIT_COST + more * BIT_COST) by (nonlinear_arith);
    assert(64 * (more * BIT_COST) == 5000 * ONE * more) by (nonlinear_arith)
        requires
            64 * BIT_COST == 5000 * ONE,
    ;
}

/// A scan costs its stage one, its stage two and its walk. Stage one is the
/// ticks of the planned kernel at exactly this shape for each code, less what
/// the flag saves where it pays. Stage two is the mask scanned in the blocks
/// that hit and the cheaper resolver over the rows named. The walk is eight
/// nanoseconds for each hit.
pub proof fn a_scan_costs_its_stages_and_its_walk(
    build: Build,
    shape: Shape,
    covered: int,
    region: Region,
    readings: Readings,
)
    ensures
        ({
            let kernel = planned(build, shape);
            let codes = region.code_count as int;
            let saved = if kernel != Match::Table && build.isa != Isa::Avx512Bw && 101
                * readings.no_match > 75 * ONE {
                125 * (101 * readings.no_match - 75 * ONE)
            } else {
                0
            };
            let bits = codes * (ONE - readings.no_block);
            let emitted = region.row_count * (ONE - readings.no_row);
            let walk = 398000 * (emitted * ONE) + 41000 * (region.row_count * ONE_SQUARED);
            let search = 389000 * (emitted * readings.halvings);
            let seek = if emitted == 0 {
                0
            } else if search < walk {
                search
            } else {
                walk
            };
            64 * scan_cost(build, shape, covered, region, readings) == 64 * (codes * (code_ticks(
                build.isa,
                kernel,
                shape,
            ) * ONE_SQUARED)) - 64 * (codes * (saved * 0x2_0000_0000_0000)) + 5000 * (bits * ONE)
                + 64 * seek + 64 * (covered * (800000 * ONE_SQUARED))
        }),
{
    let kernel = planned(build, shape);
    let codes: int = region.code_count as int;
    let ticks: int = code_ticks(build.isa, kernel, shape);
    let no_match: int = readings.no_match as int;
    let saved: int = if kernel != Match::Table && build.isa != Isa::Avx512Bw && 101 * no_match > 75
        * ONE {
        125 * (101 * no_match - 75 * ONE)
    } else {
        0
    };
    stage_one_is_the_kernel_less_the_saving(build, shape, no_match);
    let parts: int = stage_one_parts(build, shape, no_match);
    assert(parts * (codes * FINER) == codes * (ticks * ONE_SQUARED) - codes * (saved
        * 0x2_0000_0000_0000)) by (nonlinear_arith)
        requires
            parts == ticks * (16 * ONE) - saved,
            FINER == 0x2_0000_0000_0000,
            ONE_SQUARED == (16 * ONE) * FINER,
    ;
    let bits: int = codes * (ONE - readings.no_block);
    assert(64 * (bits * BIT_COST) == 5000 * (bits * ONE)) by (nonlinear_arith)
        requires
            64 * BIT_COST == 5000 * ONE,
    ;
    let emitted: int = region.row_count * (ONE - readings.no_row);
    let crossed: int = region.row_count * ONE;
    let halvings: int = readings.halvings as int;
    assert((398 * emitted + 41 * crossed) * (1000 * ONE) == 398000 * (emitted * ONE) + 41000 * (
    region.row_count * ONE_SQUARED)) by (nonlinear_arith)
        requires
            crossed == region.row_count * ONE,
            ONE_SQUARED == ONE * ONE,
    ;
    assert(389000 * halvings * emitted == 389000 * (emitted * halvings)) by (nonlinear_arith);
}

/// Each further range adds to a scan the ticks it adds to the kernel, once for
/// each code, while the kernel stays the same.
pub proof fn each_range_adds_its_ticks_to_the_scan(
    build: Build,
    shape: Shape,
    wider: Shape,
    covered: int,
    region: Region,
    readings: Readings,
)
    requires
        wider.tokens == shape.tokens,
        wider.ranges == shape.ranges + 1,
        planned(build, wider) == planned(build, shape),
    ensures
        ({
            let more = scan_cost(build, wider, covered, region, readings) - scan_cost(
                build,
                shape,
                covered,
                region,
                readings,
            );
            let codes = region.code_count * ONE_SQUARED;
            match planned(build, shape) {
                Match::Table => more == 0,
                Match::EqOr => {
                    &&& build.isa == Isa::Neon ==> more == 4966 * codes
                    &&& build.isa == Isa::Avx2 ==> more == 2103 * codes
                    &&& build.isa == Isa::Avx512Bw ==> more == 1303 * codes
                },
                Match::Range => {
                    &&& build.isa == Isa::Neon ==> more == 2103 * codes
                    &&& build.isa == Isa::Avx2 ==> more == 2033 * codes
                    &&& build.isa == Isa::Avx512Bw ==> more == 1475 * codes
                },
                Match::NibbleN8K => {
                    &&& build.isa == Isa::Neon ==> more == 6501 * codes
                    &&& build.isa == Isa::Avx2 ==> more == 2145 * codes
                    &&& build.isa == Isa::Avx512Bw ==> more == 1340 * codes
                },
            }
        }),
{
    let kernel = planned(build, shape);
    each_range_adds_its_ticks(build.isa, kernel, shape, wider);
    a_scan_costs_its_stages_and_its_walk(build, shape, covered, region, readings);
    a_scan_costs_its_stages_and_its_walk(build, wider, covered, region, readings);
    let (less, more) = (
        code_ticks(build.isa, kernel, shape),
        code_ticks(build.isa, kernel, wider),
    );
    assert(region.code_count * (more * ONE_SQUARED) - region.code_count * (less * ONE_SQUARED) == (
    more - less) * (region.code_count * ONE_SQUARED)) by (nonlinear_arith);
}

/// Each further hit adds eight nanoseconds to a scan that reads the same.
pub proof fn each_hit_adds_its_walk(
    build: Build,
    shape: Shape,
    covered: int,
    more: int,
    region: Region,
    readings: Readings,
)
    ensures
        scan_cost(build, shape, covered + more, region, readings) - scan_cost(
            build,
            shape,
            covered,
            region,
            readings,
        ) == more * (800000 * ONE_SQUARED),
{
    assert((covered + more) * (800000 * ONE_SQUARED) == covered * (800000 * ONE_SQUARED) + more * (
    800000 * ONE_SQUARED)) by (nonlinear_arith);
}

/// A scan of a cover is free where the cover is empty or the region has no code
/// or no row.
pub proof fn nothing_to_scan_is_free<E: Fn(u128, u128) -> u64, L: Fn(u128, u128) -> u64>(
    build: Build,
    cover: &ProbeCover,
    covered: u32,
    region: Region,
    exp_neg: E,
    log2_1p: L,
    cost: int,
)
    requires
        (cover.point_seq().len() == 0 && cover.range_seq().len() == 0) || region.code_count == 0
            || region.row_count == 0,
        scans(build, cover, covered as int, region, exp_neg, log2_1p, cost),
    ensures
        cost == 0,
{
}

/// Any other scan costs what its shape does for what is read of the region: the
/// shares of pack groups, rows and blocks with no hit from `exp_neg`, each held
/// to one, and from `log2_1p` the halvings to each row named, where any is.
pub proof fn a_scan_asks_about_groups_rows_and_blocks<
    E: Fn(u128, u128) -> u64,
    L: Fn(u128, u128) -> u64,
>(
    build: Build,
    cover: &ProbeCover,
    shape: Shape,
    covered: u32,
    region: Region,
    exp_neg: E,
    log2_1p: L,
    cost: int,
) -> (held: Readings)
    requires
        shape.tokens == cover.point_seq().len(),
        shape.ranges == cover.range_seq().len(),
        shape.tokens > 0 || shape.ranges > 0,
        region.code_count > 0,
        region.row_count > 0,
        scans(build, cover, covered as int, region, exp_neg, log2_1p, cost),
    ensures
        cost == scan_cost(build, shape, covered as int, region, held),
        held.no_match <= ONE,
        held.no_row <= ONE,
        held.no_block <= ONE,
        exists|reading: u64| #[trigger]
            call_ensures(exp_neg, ((128 * covered) as u128, region.code_count as u128), reading)
                && held.no_match == (if reading < ONE { reading } else { ONE }),
        exists|reading: u64| #[trigger]
            call_ensures(exp_neg, (covered as u128, region.row_count as u128), reading)
                && held.no_row == (if reading < ONE { reading } else { ONE }),
        exists|reading: u64| #[trigger]
            call_ensures(
                exp_neg,
                ((covered * build.block) as u128, region.code_count as u128),
                reading,
            ) && held.no_block == (if reading < ONE { reading } else { ONE }),
        held.no_row < ONE ==> call_ensures(
            log2_1p,
            (
                (region.row_count * ONE) as u128,
                (region.row_count * (ONE - held.no_row)) as u128,
            ),
            held.halvings,
        ),
{
    let readings = choose|readings: Readings| #[trigger]
        read(build, covered as int, region, exp_neg, log2_1p, readings) && cost == scan_cost(
            build,
            shape_of(cover),
            covered as int,
            region,
            readings.held(),
        );
    let held = readings.held();
    if held.no_row < ONE {
        assert(region.row_count * (ONE - held.no_row) > 0) by (nonlinear_arith)
            requires
                region.row_count > 0,
                held.no_row < ONE,
        ;
    }
    held
}

} // verus!
