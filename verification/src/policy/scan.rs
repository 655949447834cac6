//! What a whole scan costs: both stages, and the walk of every hit.

use super::matcher::{stage_one_ns_per_code, PACK_GROUP};
#[allow(unused_imports)]
use super::matcher::{stage_one_parts, TICK_PARTS};
use super::resolver::{hit_rows, stage_two_ns};
#[allow(unused_imports)]
use super::resolver::{answers, named_rows, stage_two_cost, ROOM};
#[allow(unused_imports)]
use super::shape_of;
use super::{Build, Region, Resolve, Shape};
use crate::cover::ProbeCover;
use crate::fixed::{as_share, Wide, ONE, ONE_SQUARED};
#[allow(unused_imports)]
use crate::fixed::{lemma_upper_word_below, rest, share, word};
use vstd::prelude::*;

verus! {

/// Ticks one hit costs through the alignment walk, false hits and
/// confirmations averaged.
pub const WALK_TICKS_PER_HIT: u128 = 800000;

/// Squared parts in one tick part.
pub const FINER: u128 = 0x2_0000_0000_0000;

/// What the floating-point unit reads of a cover over a region, in parts.
#[derive(Clone, Copy, Debug, PartialEq, Eq, Structural)]
pub struct Readings {
    /// Share of pack groups with no hit.
    pub no_match: u64,
    /// Share of rows with no hit.
    pub no_row: u64,
    /// Share of mask blocks with no hit.
    pub no_block: u64,
    /// Binary logarithm of one more than the rows crossed per emitted row.
    pub halvings: u64,
}

impl Readings {
    /// Whether the shares are at most one.
    pub open spec fn wf(self) -> bool {
        self.no_match <= ONE && self.no_row <= ONE && self.no_block <= ONE
    }

    /// The same readings with every share held to one.
    pub open spec fn held(self) -> Readings {
        Readings {
            no_match: share(self.no_match as int) as u64,
            no_row: share(self.no_row as int) as u64,
            no_block: share(self.no_block as int) as u64,
            halvings: self.halvings,
        }
    }
}

/// Mask bits in blocks that hit, in parts.
pub open spec fn hit_bits(codes: int, no_block: int) -> int {
    codes * rest(no_block)
}

/// What stage two costs at the cheaper resolver.
pub open spec fn cheaper_stage_two(bits: int, emitted: int, crossed: int, halvings: int) -> int {
    let linear = stage_two_cost(Resolve::LinearSeek, bits, emitted, crossed, halvings);
    let gallop = stage_two_cost(Resolve::GallopSeek, bits, emitted, crossed, halvings);
    if gallop < linear {
        gallop
    } else {
        linear
    }
}

/// What it costs to scan a cover of this shape over a region and walk the
/// `covered` hits it has there, in ticks of [`ONE_SQUARED`] parts each.
pub open spec fn scan_cost(
    build: Build,
    shape: Shape,
    covered: int,
    region: Region,
    readings: Readings,
) -> int {
    let one = stage_one_cost(build, shape, region.code_count as int, readings.no_match as int);
    let two = cheaper_stage_two(
        hit_bits(region.code_count as int, readings.no_block as int),
        named_rows(region.row_count as int, readings.no_row as int),
        region.row_count * ONE,
        readings.halvings as int,
    );
    one + two + covered * (WALK_TICKS_PER_HIT * ONE_SQUARED)
}

/// What stage one costs over `codes` codes, in ticks of [`ONE_SQUARED`] parts
/// each.
pub open spec fn stage_one_cost(build: Build, shape: Shape, codes: int, no_match: int) -> int {
    stage_one_parts(build, shape, no_match) * (codes * FINER)
}

/// Whether `readings` are what `exp_neg` reads at hits per pack group, per row
/// and per block, and `log2_1p` at rows crossed per emitted row, where any row
/// is emitted.
pub open spec fn read<E: Fn(u128, u128) -> u64, L: Fn(u128, u128) -> u64>(
    build: Build,
    covered: int,
    region: Region,
    exp_neg: E,
    log2_1p: L,
    readings: Readings,
) -> bool {
    let codes = region.code_count as u128;
    let rows = region.row_count as u128;
    let emitted = named_rows(rows as int, share(readings.no_row as int));
    &&& call_ensures(exp_neg, ((PACK_GROUP * covered) as u128, codes), readings.no_match)
    &&& call_ensures(exp_neg, (covered as u128, rows), readings.no_row)
    &&& call_ensures(exp_neg, ((covered * build.block) as u128, codes), readings.no_block)
    &&& emitted > 0 ==> call_ensures(
        log2_1p,
        ((rows * ONE) as u128, emitted as u128),
        readings.halvings,
    )
}

/// Whether there is nothing to scan, or nothing to scan for.
pub open spec fn nothing_to_scan(cover: &ProbeCover, region: Region) -> bool {
    ||| cover.point_seq().len() == 0 && cover.range_seq().len() == 0
    ||| region.code_count == 0
    ||| region.row_count == 0
}

/// Whether a scan of `cover` over `region` costs `cost`, for what `exp_neg` and
/// `log2_1p` read: nothing where there is nothing to scan.
pub open spec fn scans<E: Fn(u128, u128) -> u64, L: Fn(u128, u128) -> u64>(
    build: Build,
    cover: &ProbeCover,
    covered: int,
    region: Region,
    exp_neg: E,
    log2_1p: L,
    cost: int,
) -> bool {
    if nothing_to_scan(cover, region) {
        cost == 0
    } else {
        exists|readings: Readings| #[trigger]
            read(build, covered, region, exp_neg, log2_1p, readings) && cost == scan_cost(
                build,
                shape_of(cover),
                covered,
                region,
                readings.held(),
            )
    }
}

/// What it costs to scan a cover of this shape over a region and walk the
/// `covered` hits it has there, for what was read of them: stage one at the
/// kernel the shape gets, stage two at the cheaper resolver, the walk per hit.
/// In ticks of [`ONE_SQUARED`] parts each, with nothing rounded.
pub fn scan_ticks(
    build: Build,
    shape: Shape,
    covered: u32,
    region: Region,
    readings: Readings,
) -> (r: Wide)
    requires
        readings.wf(),
    ensures
        r@ == scan_cost(build, shape, covered as int, region, readings),
{
    let per_code: u128 = stage_one_ns_per_code(build, shape, readings.no_match);
    let one = Wide::product(per_code, (region.code_count as u128) * FINER);
    proof {
        assert(per_code * (region.code_count * FINER) < ROOM * word()) by (nonlinear_arith)
            requires
                0 <= per_code <= 29300 * TICK_PARTS,
                0 <= region.code_count <= 0xffff_ffff_ffff_ffff,
        ;
        lemma_upper_word_below(one, ROOM as int);
    }
    let bits: u128 = hit_rows(region.code_count, readings.no_block);
    let emitted: u128 = hit_rows(region.row_count, readings.no_row);
    let crossed: u128 = hit_rows(region.row_count, 0);
    let linear = stage_two_ns(Resolve::LinearSeek, bits, emitted, crossed, readings.halvings);
    let gallop = stage_two_ns(Resolve::GallopSeek, bits, emitted, crossed, readings.halvings);
    let two = if gallop.less_than(linear) {
        gallop
    } else {
        linear
    };
    let walk = Wide::product((covered as u128) * WALK_TICKS_PER_HIT, ONE_SQUARED);
    proof {
        assert((covered * WALK_TICKS_PER_HIT) * ONE_SQUARED == covered * (WALK_TICKS_PER_HIT
            * ONE_SQUARED)) by (nonlinear_arith);
        lemma_upper_word_below(walk, ROOM as int);
    }
    let stages = one.plus(two);
    proof {
        assert(stages@ < 4 * ROOM * word()) by (nonlinear_arith)
            requires
                stages@ == one@ + two@,
                one@ == one.high * word() + one.low,
                two@ == two.high * word() + two.low,
                one.high < ROOM,
                two.high < 2 * ROOM,
        ;
        lemma_upper_word_below(stages, 4 * ROOM);
    }
    stages.plus(walk)
}

/// What it is expected to cost to scan `cover` over `region` and walk every
/// hit, given the `covered` codes it matches there, in ticks of
/// [`ONE_SQUARED`] parts each. An empty cover proves no row matches and
/// costs nothing.
///
/// `exp_neg` reads the exponential of minus a ratio and `log2_1p` the binary
/// logarithm of one more than a ratio, each in parts.
pub fn scan_ns<E: Fn(u128, u128) -> u64, L: Fn(u128, u128) -> u64>(
    build: Build,
    cover: &ProbeCover,
    covered: u32,
    region: Region,
    exp_neg: &E,
    log2_1p: &L,
) -> (r: Wide)
    requires
        answers(*exp_neg),
        answers(*log2_1p),
    ensures
        scans(build, cover, covered as int, region, *exp_neg, *log2_1p, r@),
{
    if cover.is_empty() || region.code_count == 0 || region.row_count == 0 {
        return Wide { high: 0, low: 0 };
    }
    let codes: u128 = region.code_count as u128;
    let rows: u128 = region.row_count as u128;
    let hits: u128 = covered as u128;
    let no_match: u64 = exp_neg((PACK_GROUP as u128) * hits, codes);
    let no_row: u64 = exp_neg(hits, rows);
    proof {
        assert(hits * build.block <= 0xffff_ffff * 0xffff_ffff_ffff_ffff) by (nonlinear_arith)
            requires
                hits <= 0xffff_ffff,
                build.block <= 0xffff_ffff_ffff_ffff,
        ;
    }
    let no_block: u64 = exp_neg(hits * (build.block as u128), codes);
    let emitted: u128 = hit_rows(region.row_count, as_share(no_row));
    let halvings: u64 = if emitted > 0 {
        log2_1p(hit_rows(region.row_count, 0), emitted)
    } else {
        0
    };
    let readings = Readings { no_match, no_row, no_block, halvings };
    let held = Readings {
        no_match: as_share(no_match),
        no_row: as_share(no_row),
        no_block: as_share(no_block),
        halvings,
    };
    let shape = Shape::of(cover);
    assert(held == readings.held());
    assert(read(build, covered as int, region, *exp_neg, *log2_1p, readings));
    scan_ticks(build, shape, covered, region, held)
}

} // verus!
