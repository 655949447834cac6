//! Laws of whole plans and whole scans.

#[allow(unused_imports)]
use super::logarithm::more_rows_take_no_fewer_halvings;
#[allow(unused_imports)]
use super::readings::{answers_alike, falls_between, is_log2, reads_log2_1p, starts_at_one};
#[allow(unused_imports)]
use super::stage_one::a_kernel_is_always_found;
#[allow(unused_imports)]
use super::stage_two::fewer_missed_rows_name_no_fewer;
#[allow(unused_imports)]
use crate::cover::ProbeCover;
#[allow(unused_imports)]
use crate::fixed::{rest, share, ONE, ONE_SQUARED};
#[allow(unused_imports)]
use crate::policy::matcher::{stage_one_parts, PACK_GROUP};
#[allow(unused_imports)]
use crate::policy::resolver::{named_rows, seek_cost, stage_two_cost};
#[allow(unused_imports)]
use crate::policy::scan::{
    cheaper_stage_two, hit_bits, nothing_to_scan, read, scan_cost, scans, stage_one_cost, Readings,
    FINER, WALK_TICKS_PER_HIT,
};
#[allow(unused_imports)]
use crate::policy::{selects, shape_of, Build, Facts, Plan, Region, Resolve, Shape};
use vstd::prelude::*;

verus! {

/// Whether two covers have as many codes and as many ranges.
pub open spec fn same_counts(one: &ProbeCover, other: &ProbeCover) -> bool {
    one.point_seq().len() == other.point_seq().len() && one.range_seq().len()
        == other.range_seq().len()
}

/// What was read for a scan that has something to do.
proof fn lemma_readings<E: Fn(u128, u128) -> u64, L: Fn(u128, u128) -> u64>(
    build: Build,
    cover: &ProbeCover,
    covered: int,
    region: Region,
    exp_neg: E,
    log2_1p: L,
    cost: int,
) -> (readings: Readings)
    requires
        !nothing_to_scan(cover, region),
        scans(build, cover, covered, region, exp_neg, log2_1p, cost),
    ensures
        read(build, covered, region, exp_neg, log2_1p, readings),
        cost == scan_cost(build, shape_of(cover), covered, region, readings.held()),
{
    choose|readings: Readings|
        read(build, covered, region, exp_neg, log2_1p, readings) && cost == scan_cost(
            build,
            shape_of(cover),
            covered,
            region,
            readings.held(),
        )
}

/// No code values are inspected: covers with the same counts get the same
/// plan, where the functions answer alike.
pub proof fn equal_counts_get_equal_plans<E: Fn(u128, u128) -> u64, L: Fn(u128, u128) -> u64>(
    build: Build,
    one: &ProbeCover,
    other: &ProbeCover,
    facts: Facts,
    exp_neg: E,
    log2_1p: L,
    p: Plan,
    q: Plan,
)
    requires
        same_counts(one, other),
        answers_alike(exp_neg),
        answers_alike(log2_1p),
        selects(build, one, facts, exp_neg, log2_1p, p),
        selects(build, other, facts, exp_neg, log2_1p, q),
    ensures
        p == q,
{
}

/// Stage one is decided by the cover alone.
pub proof fn the_matcher_ignores_the_facts<E: Fn(u128, u128) -> u64, L: Fn(u128, u128) -> u64>(
    build: Build,
    cover: &ProbeCover,
    one: Facts,
    other: Facts,
    exp_neg: E,
    log2_1p: L,
    p: Plan,
    q: Plan,
)
    requires
        selects(build, cover, one, exp_neg, log2_1p, p),
        selects(build, cover, other, exp_neg, log2_1p, q),
    ensures
        p.matcher == q.matcher,
{
}

/// The resolver and the flag are decided by the facts alone, where the
/// functions answer alike.
pub proof fn the_resolver_and_the_flag_ignore_the_cover<
    E: Fn(u128, u128) -> u64,
    L: Fn(u128, u128) -> u64,
>(
    build: Build,
    one: &ProbeCover,
    other: &ProbeCover,
    facts: Facts,
    exp_neg: E,
    log2_1p: L,
    p: Plan,
    q: Plan,
)
    requires
        answers_alike(exp_neg),
        answers_alike(log2_1p),
        selects(build, one, facts, exp_neg, log2_1p, p),
        selects(build, other, facts, exp_neg, log2_1p, q),
    ensures
        p.resolver == q.resolver,
        p.skip == q.skip,
{
}

/// The cost depends on the cover's counts, with no code values: covers with
/// the same counts cost the same to scan, where the functions answer alike.
pub proof fn equal_counts_cost_the_same<E: Fn(u128, u128) -> u64, L: Fn(u128, u128) -> u64>(
    build: Build,
    one: &ProbeCover,
    other: &ProbeCover,
    covered: u32,
    region: Region,
    exp_neg: E,
    log2_1p: L,
    cost: int,
    cost2: int,
)
    requires
        same_counts(one, other),
        answers_alike(exp_neg),
        answers_alike(log2_1p),
        scans(build, one, covered as int, region, exp_neg, log2_1p, cost),
        scans(build, other, covered as int, region, exp_neg, log2_1p, cost2),
    ensures
        cost == cost2,
{
    if !nothing_to_scan(one, region) {
        let a = lemma_readings(build, one, covered as int, region, exp_neg, log2_1p, cost);
        let b = lemma_readings(build, other, covered as int, region, exp_neg, log2_1p, cost2);
        fewer_missed_rows_name_no_fewer(
            region.row_count as int,
            share(a.no_row as int),
            share(a.no_row as int),
        );
    }
}

/// Where nothing is hit a scan costs its first stage and no more.
pub proof fn a_scan_that_hits_nothing_costs_stage_one(
    build: Build,
    shape: Shape,
    region: Region,
    readings: Readings,
)
    requires
        readings.no_row == ONE,
        readings.no_block == ONE,
    ensures
        scan_cost(build, shape, 0, region, readings) == stage_one_cost(
            build,
            shape,
            region.code_count as int,
            readings.no_match as int,
        ),
{
    assert(region.code_count * rest(ONE as int) == 0 && region.row_count * rest(ONE as int) == 0)
        by (nonlinear_arith)
        requires
            rest(ONE as int) == 0,
    ;
}

/// With nothing covered a scan costs its first stage with every pack group
/// empty, and the rows play no part, where `exp_neg` starts at one.
pub proof fn with_nothing_covered_stage_one_is_the_cost<
    E: Fn(u128, u128) -> u64,
    L: Fn(u128, u128) -> u64,
>(
    build: Build,
    cover: &ProbeCover,
    region: Region,
    exp_neg: E,
    log2_1p: L,
    cost: int,
)
    requires
        !nothing_to_scan(cover, region),
        starts_at_one(exp_neg),
        scans(build, cover, 0, region, exp_neg, log2_1p, cost),
    ensures
        cost == stage_one_cost(build, shape_of(cover), region.code_count as int, ONE as int),
{
    let a = lemma_readings(build, cover, 0, region, exp_neg, log2_1p, cost);
    assert(0 * build.block == 0);
    a_scan_that_hits_nothing_costs_stage_one(build, shape_of(cover), region, a.held());
}

/// What `slack` parts of a halving cost on every row of a region.
pub open spec fn slack_price(slack: int, region: Region) -> int {
    389000 * (slack * (region.row_count * ONE))
}

/// With no share of misses larger and no fewer halvings over all emitted rows,
/// but for `slack` on each, a scan costs more by a walk, at the least, for each
/// further code covered, but for the price of that slack.
pub proof fn more_covered_costs_a_walk_more(
    build: Build,
    shape: Shape,
    covered: int,
    more: int,
    region: Region,
    readings: Readings,
    denser: Readings,
    slack: int,
)
    requires
        covered <= more,
        slack >= 0,
        readings.wf(),
        denser.no_match <= readings.no_match,
        denser.no_row <= readings.no_row,
        denser.no_block <= readings.no_block,
        named_rows(region.row_count as int, readings.no_row as int) * readings.halvings
            <= named_rows(region.row_count as int, denser.no_row as int) * (denser.halvings + slack),
    ensures
        scan_cost(build, shape, covered, region, readings) + (more - covered) * (
        WALK_TICKS_PER_HIT * ONE_SQUARED) <= scan_cost(build, shape, more, region, denser)
            + slack_price(slack, region),
{
    let codes: int = region.code_count as int;
    let rows: int = region.row_count as int;
    let parts: int = stage_one_parts(build, shape, readings.no_match as int);
    let parts2: int = stage_one_parts(build, shape, denser.no_match as int);
    assert(parts <= parts2);
    assert(parts * (codes * FINER) <= parts2 * (codes * FINER)) by (nonlinear_arith)
        requires
            parts <= parts2,
            codes >= 0,
    ;
    fewer_missed_rows_name_no_fewer(codes, readings.no_block as int, denser.no_block as int);
    fewer_missed_rows_name_no_fewer(rows, readings.no_row as int, denser.no_row as int);
    lemma_stage_two_grows(
        hit_bits(codes, readings.no_block as int),
        named_rows(rows, readings.no_row as int),
        rows * ONE,
        readings.halvings as int,
        hit_bits(codes, denser.no_block as int),
        named_rows(rows, denser.no_row as int),
        denser.halvings as int,
        slack,
    );
    let emitted2: int = named_rows(rows, denser.no_row as int);
    assert(389000 * (slack * emitted2) <= 389000 * (slack * (rows * ONE))) by (nonlinear_arith)
        requires
            slack >= 0,
            emitted2 <= rows * ONE,
    ;
    let walk: int = WALK_TICKS_PER_HIT * ONE_SQUARED;
    assert(covered * walk + (more - covered) * walk == more * walk) by (nonlinear_arith);
}

/// A less selective cover of the same shape never compares cheaper: each
/// further code covered costs its walk at the least, but for the price of the
/// slack in two readings of the logarithm, and more in all where a walk is
/// dearer than that. It holds where `exp_neg` falls between what it is asked
/// for the two and `log2_1p` reads the logarithm within `slack` parts.
pub proof fn a_less_selective_cover_costs_more<
    E: Fn(u128, u128) -> u64,
    L: Fn(u128, u128) -> u64,
>(
    build: Build,
    cover: &ProbeCover,
    covered: u32,
    more: u32,
    region: Region,
    exp_neg: E,
    log2_1p: L,
    slack: int,
    cost: int,
    cost2: int,
)
    requires
        !nothing_to_scan(cover, region),
        covered < more,
        falls_between(
            exp_neg,
            (PACK_GROUP * covered) as u128,
            region.code_count as u128,
            (PACK_GROUP * more) as u128,
            region.code_count as u128,
        ),
        falls_between(
            exp_neg,
            covered as u128,
            region.row_count as u128,
            more as u128,
            region.row_count as u128,
        ),
        falls_between(
            exp_neg,
            (covered * build.block) as u128,
            region.code_count as u128,
            (more * build.block) as u128,
            region.code_count as u128,
        ),
        slack >= 0,
        reads_log2_1p(log2_1p, slack),
        scans(build, cover, covered as int, region, exp_neg, log2_1p, cost),
        scans(build, cover, more as int, region, exp_neg, log2_1p, cost2),
    ensures
        cost + (more - covered) * (WALK_TICKS_PER_HIT * ONE_SQUARED) <= cost2 + slack_price(
            2 * slack,
            region,
        ),
        slack_price(2 * slack, region) < WALK_TICKS_PER_HIT * ONE_SQUARED ==> cost < cost2,
{
    let a = lemma_readings(build, cover, covered as int, region, exp_neg, log2_1p, cost);
    let b = lemma_readings(build, cover, more as int, region, exp_neg, log2_1p, cost2);
    let (codes, rows, block) = (region.code_count, region.row_count, build.block);
    assert(covered * block <= more * block <= 0xffff_ffff * 0xffff_ffff_ffff_ffff)
        by (nonlinear_arith)
        requires
            covered < more <= 0xffff_ffff,
            0 <= block <= 0xffff_ffff_ffff_ffff,
    ;
    assert((128 * covered) * codes <= (128 * more) * codes && covered * rows <= more * rows && (
    covered * block) * codes <= (more * block) * codes) by (nonlinear_arith)
        requires
            covered < more,
            covered * block <= more * block,
            codes >= 0,
            rows >= 0,
    ;
    assert(0 <= covered * block) by (nonlinear_arith)
        requires
            covered >= 0,
            block >= 0,
    ;
    fewer_missed_rows_name_no_fewer(
        rows as int,
        share(a.no_row as int),
        share(b.no_row as int),
    );
    let (e, e2) = (
        named_rows(rows as int, share(a.no_row as int)),
        named_rows(rows as int, share(b.no_row as int)),
    );
    assert(rows * ONE <= u128::MAX);
    let (h, h2) = (a.halvings as int, b.halvings as int);
    assert(e * h <= e2 * (h2 + 2 * slack)) by {
        if e == 0 {
            assert(0 <= e2 * (h2 + 2 * slack) && e * h == 0) by (nonlinear_arith)
                requires
                    e == 0,
                    e2 >= 0,
                    h2 >= 0,
                    slack >= 0,
            ;
        } else {
            assert(is_log2(e + rows * ONE, e, h, slack));
            assert(is_log2(e2 + rows * ONE, e2, h2, slack));
            more_rows_take_no_fewer_halvings(e, e2, rows * ONE, h, h2, slack);
        }
    }
    more_covered_costs_a_walk_more(
        build,
        shape_of(cover),
        covered as int,
        more as int,
        region,
        a.held(),
        b.held(),
        2 * slack,
    );
    let walk: int = WALK_TICKS_PER_HIT * ONE_SQUARED;
    assert((more - covered) * walk >= walk) by (nonlinear_arith)
        requires
            more - covered >= 1,
            walk >= 0,
    ;
}

/// A scan costs at least its walk, for any readings.
pub proof fn a_scan_costs_at_least_its_walk(
    build: Build,
    shape: Shape,
    covered: int,
    region: Region,
    readings: Readings,
)
    requires
        readings.wf(),
    ensures
        scan_cost(build, shape, covered, region, readings) >= covered * (WALK_TICKS_PER_HIT
            * ONE_SQUARED),
{
    let codes: int = region.code_count as int;
    let rows: int = region.row_count as int;
    a_kernel_is_always_found(build, shape);
    let parts: int = stage_one_parts(build, shape, readings.no_match as int);
    assert(parts >= 0);
    assert(parts * (codes * FINER) >= 0) by (nonlinear_arith)
        requires
            parts >= 0,
            codes >= 0,
    ;
    fewer_missed_rows_name_no_fewer(codes, readings.no_block as int, readings.no_block as int);
    fewer_missed_rows_name_no_fewer(rows, readings.no_row as int, readings.no_row as int);
    let emitted: int = named_rows(rows, readings.no_row as int);
    assert(389000 * readings.halvings * emitted >= 0) by (nonlinear_arith)
        requires
            emitted >= 0,
            readings.halvings >= 0,
    ;
}

/// A scan costs at least the walk of every code covered, whatever is read.
pub proof fn every_covered_code_costs_its_walk<
    E: Fn(u128, u128) -> u64,
    L: Fn(u128, u128) -> u64,
>(
    build: Build,
    cover: &ProbeCover,
    covered: u32,
    region: Region,
    exp_neg: E,
    log2_1p: L,
    cost: int,
)
    requires
        !nothing_to_scan(cover, region),
        scans(build, cover, covered as int, region, exp_neg, log2_1p, cost),
    ensures
        cost >= covered * (WALK_TICKS_PER_HIT * ONE_SQUARED),
{
    let a = lemma_readings(build, cover, covered as int, region, exp_neg, log2_1p, cost);
    a_scan_costs_at_least_its_walk(build, shape_of(cover), covered as int, region, a.held());
}

/// Stage two grows with the bits, the rows and their halvings in all, but for
/// the price of the slack in those.
proof fn lemma_stage_two_grows(
    bits: int,
    emitted: int,
    crossed: int,
    halvings: int,
    bits2: int,
    emitted2: int,
    halvings2: int,
    slack: int,
)
    requires
        0 <= bits <= bits2,
        0 <= emitted <= emitted2,
        0 <= crossed,
        0 <= halvings,
        0 <= halvings2,
        0 <= slack,
        emitted * halvings <= emitted2 * (halvings2 + slack),
    ensures
        cheaper_stage_two(bits, emitted, crossed, halvings) <= cheaper_stage_two(
            bits2,
            emitted2,
            crossed,
            halvings2,
        ) + 389000 * (slack * emitted2),
{
    assert(389000 * halvings * emitted == 389000 * (emitted * halvings) && 389000 * halvings2
        * emitted2 == 389000 * (emitted2 * halvings2)) by (nonlinear_arith);
    assert(0 <= emitted2 * halvings2 && 0 <= slack * emitted2 && emitted2 * (halvings2 + slack)
        == emitted2 * halvings2 + slack * emitted2) by (nonlinear_arith)
        requires
            0 <= emitted2,
            0 <= halvings2,
            0 <= slack,
    ;
    let price: int = 389000 * (slack * emitted2);
    assert(0 <= (398 * emitted + 41 * crossed) * (1000 * ONE) <= (398 * emitted2 + 41 * crossed) * (
    1000 * ONE)) by (nonlinear_arith)
        requires
            0 <= emitted <= emitted2,
            0 <= crossed,
    ;
    assert(stage_two_cost(Resolve::LinearSeek, bits, emitted, crossed, halvings)
        <= stage_two_cost(Resolve::LinearSeek, bits2, emitted2, crossed, halvings2));
    let gallop: int = seek_cost(Resolve::GallopSeek, emitted, crossed, halvings);
    let gallop2: int = seek_cost(Resolve::GallopSeek, emitted2, crossed, halvings2);
    assert(gallop == 389000 * (emitted * halvings));
    assert(gallop2 == 389000 * (emitted2 * halvings2));
    assert(gallop <= gallop2 + price);
    assert(stage_two_cost(Resolve::GallopSeek, bits, emitted, crossed, halvings)
        <= stage_two_cost(Resolve::GallopSeek, bits2, emitted2, crossed, halvings2) + price);
}

} // verus!
