//! Stage two: what each resolver costs, and which is cheaper on the mask it
//! is expected to see.
//!
//! The resolver constants were fitted on an Apple M4 Pro. The two resolvers
//! sit within a fifth of each other below the crossover.
//!
//! Counts here have a fraction: they are in parts, [`ONE`] to the whole.

use super::{Facts, Resolve};
use crate::fixed::{as_share, Wide, ONE};
#[allow(unused_imports)]
use crate::fixed::{lemma_upper_word_below, rest, share, word, ONE_SQUARED};
use vstd::prelude::*;

verus! {

/// The most parts a count of rows comes to.
pub const MOST: u128 = 0x1f_ffff_ffff_ffff_ffe0_0000_0000_0000;

/// What one part of a mask bit costs to scan, in squared parts of a tick: a
/// word of sixty-four bits costs 5000 ticks.
pub const BIT_COST: u128 = 5000 * 0x8000_0000_0000;

/// Upper words that the cost of one stage stays under.
pub const ROOM: u128 = 0x1_0000_0000_0000_0000_0000_0000;

/// What a resolver pays for `emitted` rows when the cursor crosses `crossed`
/// rows to reach them, less the word scan that both pay, in ticks of
/// [`ONE_SQUARED`] parts each. `halvings` is the binary logarithm of one more
/// than the rows crossed per emitted row. The walk is linear in the rows
/// crossed, the search logarithmic.
pub open spec fn seek_cost(resolver: Resolve, emitted: int, crossed: int, halvings: int) -> int {
    match resolver {
        Resolve::LinearSeek => (398 * emitted + 41 * crossed) * (1000 * ONE),
        Resolve::GallopSeek => 389000 * halvings * emitted,
    }
}

/// Whichever resolver costs less, the walk where they cost the same.
pub open spec fn cheaper(emitted: int, crossed: int, halvings: int) -> Resolve {
    if seek_cost(Resolve::GallopSeek, emitted, crossed, halvings) < seek_cost(
        Resolve::LinearSeek,
        emitted,
        crossed,
        halvings,
    ) {
        Resolve::GallopSeek
    } else {
        Resolve::LinearSeek
    }
}

/// What stage two costs over `bits` mask bits in blocks that hit, sixty-four
/// of them to the word, emitting `emitted` rows with `crossed` rows walked or
/// searched past on the way, in ticks of [`ONE_SQUARED`] parts each.
pub open spec fn stage_two_cost(
    resolver: Resolve,
    bits: int,
    emitted: int,
    crossed: int,
    halvings: int,
) -> int {
    let scan = bits * BIT_COST;
    if emitted == 0 {
        scan
    } else {
        scan + seek_cost(resolver, emitted, crossed, halvings)
    }
}

/// Whether `function` can be asked for its value at every ratio of two words.
pub open spec fn answers<F: Fn(u128, u128) -> u64>(function: F) -> bool {
    forall|over: u128, under: u128| under > 0 ==> #[trigger] call_requires(function, (over, under))
}

/// Rows the mask is expected to name, where the share `none` of rows holds no
/// hit.
pub open spec fn named_rows(rows: int, none: int) -> int {
    rows * rest(none)
}

/// Rows the mask is expected to name, and one where it would be fewer.
pub open spec fn reached_rows(rows: int, none: int) -> int {
    if named_rows(rows, none) < ONE {
        ONE as int
    } else {
        named_rows(rows, none)
    }
}

/// Whether `none` is what `exp_neg` reads at hits per row, `halvings` what
/// `log2_1p` reads at rows crossed per row reached, and `resolver` the cheaper
/// for them.
pub open spec fn resolves_with<E: Fn(u128, u128) -> u64, L: Fn(u128, u128) -> u64>(
    facts: Facts,
    exp_neg: E,
    log2_1p: L,
    none: u64,
    halvings: u64,
    resolver: Resolve,
) -> bool {
    let reached = reached_rows(facts.row_count as int, share(none as int));
    let crossed = facts.row_count * ONE;
    &&& call_ensures(exp_neg, (facts.expected_hits as u128, facts.row_count as u128), none)
    &&& call_ensures(log2_1p, (crossed as u128, reached as u128), halvings)
    &&& resolver == cheaper(reached, crossed, halvings as int)
}

/// Whether `resolver` is the cheaper for what `exp_neg` and `log2_1p` read of
/// the region.
pub open spec fn resolves<E: Fn(u128, u128) -> u64, L: Fn(u128, u128) -> u64>(
    facts: Facts,
    exp_neg: E,
    log2_1p: L,
    resolver: Resolve,
) -> bool {
    exists|none: u64, halvings: u64|
        resolves_with(facts, exp_neg, log2_1p, none, halvings, resolver)
}

/// Whether `resolver` is the cheaper for what `exp_neg` and `log2_1p` read of
/// the region. With no rows nothing is crossed and the search is free.
pub open spec fn resolver_for<E: Fn(u128, u128) -> u64, L: Fn(u128, u128) -> u64>(
    facts: Facts,
    exp_neg: E,
    log2_1p: L,
    resolver: Resolve,
) -> bool {
    if facts.row_count == 0 {
        resolver == Resolve::GallopSeek
    } else {
        resolves(facts, exp_neg, log2_1p, resolver)
    }
}

/// What a resolver pays for `emitted` rows when the cursor crosses `crossed`
/// rows to reach them, less the word scan both pay, in ticks of
/// [`ONE_SQUARED`] parts each.
pub fn seek_ns_per_row(resolver: Resolve, emitted: u128, crossed: u128, halvings: u64) -> (r: Wide)
    requires
        emitted <= MOST,
        crossed <= MOST,
    ensures
        r@ == seek_cost(resolver, emitted as int, crossed as int, halvings as int),
{
    match resolver {
        Resolve::LinearSeek => Wide::product(398 * emitted + 41 * crossed, 1000 * (ONE as u128)),
        Resolve::GallopSeek => Wide::product(389000 * (halvings as u128), emitted),
    }
}

/// Whichever resolver costs less for `emitted` rows with `crossed` rows
/// crossed on the way.
pub fn select_seek(emitted: u128, crossed: u128, halvings: u64) -> (r: Resolve)
    requires
        emitted <= MOST,
        crossed <= MOST,
    ensures
        r == cheaper(emitted as int, crossed as int, halvings as int),
{
    let gallop = seek_ns_per_row(Resolve::GallopSeek, emitted, crossed, halvings);
    let linear = seek_ns_per_row(Resolve::LinearSeek, emitted, crossed, halvings);
    if gallop.less_than(linear) {
        Resolve::GallopSeek
    } else {
        Resolve::LinearSeek
    }
}

/// What stage two costs over `bits` mask bits in blocks that hit, emitting
/// `emitted` rows with `crossed` rows walked or searched past on the way, in
/// ticks of [`ONE_SQUARED`] parts each.
pub fn stage_two_ns(
    resolver: Resolve,
    bits: u128,
    emitted: u128,
    crossed: u128,
    halvings: u64,
) -> (r: Wide)
    requires
        emitted <= MOST,
        crossed <= MOST,
    ensures
        r@ == stage_two_cost(
            resolver,
            bits as int,
            emitted as int,
            crossed as int,
            halvings as int,
        ),
        r.high < 2 * ROOM,
{
    let scan = Wide::product(bits, BIT_COST);
    proof {
        assert(bits * BIT_COST < ROOM * word()) by (nonlinear_arith)
            requires
                bits <= u128::MAX,
                BIT_COST < ROOM,
        ;
        lemma_upper_word_below(scan, ROOM as int);
    }
    if emitted == 0 {
        return scan;
    }
    let seek = seek_ns_per_row(resolver, emitted, crossed, halvings);
    proof {
        lemma_seek_bound(resolver, emitted as int, crossed as int, halvings as int);
        lemma_upper_word_below(seek, ROOM - 1);
    }
    let sum = scan.plus(seek);
    proof {
        assert(sum@ < (2 * ROOM - 1) * word()) by (nonlinear_arith)
            requires
                sum@ == scan@ + seek@,
                scan@ < ROOM * word(),
                seek@ < (ROOM - 1) * word(),
        ;
        lemma_upper_word_below(sum, 2 * ROOM - 1);
    }
    sum
}

/// Rows the mask is expected to name, where the share `none` of rows holds no
/// hit: a row of `x` expected hits holds none with probability `exp(-x)`.
pub fn hit_rows(rows: usize, none: u64) -> (r: u128)
    requires
        none <= ONE,
    ensures
        r == named_rows(rows as int, none as int),
        r <= MOST,
        r <= rows * ONE,
{
    proof {
        assert(rows * rest(none as int) <= rows * ONE && rows * ONE <= 0xffff_ffff_ffff_ffff * ONE
            && 0 <= rows * rest(none as int)) by (nonlinear_arith)
            requires
                rows <= 0xffff_ffff_ffff_ffff,
                0 <= rest(none as int) <= ONE,
        ;
    }
    (rows as u128) * ((ONE - none) as u128)
}

/// Hits per row is the whole of it: it fixes both the rows crossed to reach a
/// hit row and the hits found once there, so the model decides on the rows
/// crossed per emitted row alone and the row length enters through it.
///
/// `exp_neg` reads the exponential of minus a ratio and `log2_1p` the binary
/// logarithm of one more than a ratio, each in parts. With no rows nothing is
/// crossed and the search is free.
pub fn select_resolver<E: Fn(u128, u128) -> u64, L: Fn(u128, u128) -> u64>(
    facts: Facts,
    exp_neg: &E,
    log2_1p: &L,
) -> (r: Resolve)
    requires
        answers(*exp_neg),
        answers(*log2_1p),
    ensures
        resolver_for(facts, *exp_neg, *log2_1p, r),
{
    if facts.row_count == 0 {
        return Resolve::GallopSeek;
    }
    let reading: u64 = exp_neg(facts.expected_hits as u128, facts.row_count as u128);
    let none: u64 = as_share(reading);
    let named: u128 = hit_rows(facts.row_count, none);
    let reached: u128 = if named < ONE as u128 {
        ONE as u128
    } else {
        named
    };
    let crossed: u128 = hit_rows(facts.row_count, 0);
    let halvings: u64 = log2_1p(crossed, reached);
    let resolver = select_seek(reached, crossed, halvings);
    assert(resolves_with(facts, *exp_neg, *log2_1p, reading, halvings, resolver));
    resolver
}

/// The seeks of a countable number of rows leave room in the upper word.
proof fn lemma_seek_bound(resolver: Resolve, emitted: int, crossed: int, halvings: int)
    requires
        0 <= emitted <= MOST,
        0 <= crossed <= MOST,
        0 <= halvings <= u64::MAX,
    ensures
        0 <= seek_cost(resolver, emitted, crossed, halvings) < (ROOM - 1) * word(),
{
    assert(0 <= 389000 * halvings * emitted <= 389000 * (u64::MAX * MOST)) by (nonlinear_arith)
        requires
            0 <= emitted <= MOST,
            0 <= halvings <= u64::MAX,
    ;
}

} // verus!
