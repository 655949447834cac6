//! What a plan comes to, in terms of the cover and the region it is made for.

#[allow(unused_imports)]
use super::kernels::the_planned_kernel_is_the_cheapest;
#[allow(unused_imports)]
use super::readings::{
    is_exp_neg, lemma_exp_at_least, lemma_exp_at_most, most_slack, reads_exp_neg, reads_log2_1p,
};
#[allow(unused_imports)]
use super::stage_one::{a_kernel_is_always_found, the_flag_breaks_even};
#[allow(unused_imports)]
use super::stage_two::the_region_decides_by_the_crossover;
#[allow(unused_imports)]
use crate::cover::ProbeCover;
#[allow(unused_imports)]
use crate::fixed::{rest, share, ONE};
#[allow(unused_imports)]
use crate::policy::matcher::{code_ticks, holds, skip_cost};
#[allow(unused_imports)]
use crate::policy::resolver::{reached_rows, resolves_with};
#[allow(unused_imports)]
use crate::policy::{
    hits_per_code, selects, Build, Facts, Isa, Match, Plan, Resolve, Shape,
};
#[allow(unused_imports)]
use vstd::arithmetic::power::{lemma_pow1, lemma_pow_adds, pow};
use vstd::prelude::*;

verus! {

/// The density is the hits over the codes, however many of either, and none
/// where there is no code.
pub proof fn the_density_is_hits_over_codes(facts: Facts)
    ensures
        hits_per_code(facts).under > 0,
        facts.code_count > 0 ==> hits_per_code(facts).over * facts.code_count
            == facts.expected_hits * hits_per_code(facts).under,
        facts.code_count == 0 ==> hits_per_code(facts).over == 0,
{
    let ratio = hits_per_code(facts);
    if facts.code_count > 0 {
        assert(ratio.over * facts.code_count == facts.expected_hits * ratio.under)
            by (nonlinear_arith)
            requires
                ratio.over == facts.expected_hits,
                ratio.under == facts.code_count,
        ;
    }
}

/// The flag of a plan, where `exp_neg` reads the exponential within the slack:
/// off AVX-512 it is set up to 294 hits to a thousand pack groups of 128 codes,
/// no code at all among them, and clear from 301.
pub proof fn the_planned_flag_breaks_even<E: Fn(u128, u128) -> u64, L: Fn(u128, u128) -> u64>(
    build: Build,
    cover: &ProbeCover,
    facts: Facts,
    exp_neg: E,
    log2_1p: L,
    slack: int,
    plan: Plan,
)
    requires
        0 <= slack <= most_slack(),
        reads_exp_neg(exp_neg, slack),
        selects(build, cover, facts, exp_neg, log2_1p, plan),
    ensures
        build.isa == Isa::Avx512Bw ==> !plan.skip,
        build.isa != Isa::Avx512Bw && 1000 * (128 * facts.expected_hits) <= 294 * facts.code_count
            ==> plan.skip,
        build.isa != Isa::Avx512Bw && facts.code_count == 0 ==> plan.skip,
        build.isa != Isa::Avx512Bw && facts.code_count > 0 && 1000 * (128 * facts.expected_hits)
            >= 301 * facts.code_count ==> !plan.skip,
{
    if build.isa != Isa::Avx512Bw {
        the_flag_breaks_even(build.isa, hits_per_code(facts), exp_neg, slack, plan.skip);
    }
}

/// The flag is set where the share of pack groups with no hit, which `exp_neg`
/// reads at the hits to a group and which is held to one, is over 75 in 101.
/// On AVX-512 it never is.
pub proof fn the_planned_flag_asks_about_groups<
    E: Fn(u128, u128) -> u64,
    L: Fn(u128, u128) -> u64,
>(
    build: Build,
    cover: &ProbeCover,
    facts: Facts,
    exp_neg: E,
    log2_1p: L,
    plan: Plan,
) -> (no_match: u64)
    requires
        facts.code_count > 0,
        selects(build, cover, facts, exp_neg, log2_1p, plan),
    ensures
        call_ensures(
            exp_neg,
            ((128 * facts.expected_hits) as u128, facts.code_count as u128),
            no_match,
        ),
        plan.skip <==> build.isa != Isa::Avx512Bw && (no_match >= ONE || 101 * no_match > 75 * ONE),
{
    let density = hits_per_code(facts);
    choose|no_match: u64| #[trigger]
        call_ensures(exp_neg, ((128 * density.over) as u128, density.under), no_match) && plan.skip
            == (skip_cost(build.isa, share(no_match as int)) < 0)
}

/// The matcher of a plan holds the cover, counted code by code and range by
/// range, and costs less there than any other kernel that does.
pub proof fn the_planned_matcher_is_the_cheapest<
    E: Fn(u128, u128) -> u64,
    L: Fn(u128, u128) -> u64,
>(
    build: Build,
    cover: &ProbeCover,
    shape: Shape,
    facts: Facts,
    exp_neg: E,
    log2_1p: L,
    plan: Plan,
    other: Match,
)
    requires
        shape.tokens == cover.point_seq().len(),
        shape.ranges == cover.range_seq().len(),
        selects(build, cover, facts, exp_neg, log2_1p, plan),
    ensures
        holds(build, plan.matcher, shape),
        holds(build, other, shape) && other != plan.matcher ==> code_ticks(
            build.isa,
            plan.matcher,
            shape,
        ) < code_ticks(build.isa, other, shape),
{
    a_kernel_is_always_found(build, shape);
    if holds(build, other, shape) && other != plan.matcher {
        the_planned_kernel_is_the_cheapest(build, shape, other);
    }
}

/// The resolver is the cheaper over the rows reached: one, or the rows less the
/// share of them with no hit, which `exp_neg` reads at the hits to a row. The
/// walk pays 3.98 for each of them and 0.41 for each row of the region, the
/// search 3.89 for each halving, which `log2_1p` reads at the rows of the region
/// to a row reached.
pub proof fn the_planned_resolver_asks_about_rows<
    E: Fn(u128, u128) -> u64,
    L: Fn(u128, u128) -> u64,
>(
    build: Build,
    cover: &ProbeCover,
    facts: Facts,
    exp_neg: E,
    log2_1p: L,
    plan: Plan,
) -> (r: (u64, u64, int))
    requires
        facts.row_count > 0,
        selects(build, cover, facts, exp_neg, log2_1p, plan),
    ensures
        ({
            let (none, halvings, reached) = r;
            let named = if none >= ONE {
                0
            } else {
                facts.row_count * (ONE - none)
            };
            &&& call_ensures(exp_neg, (facts.expected_hits as u128, facts.row_count as u128), none)
            &&& reached >= ONE && reached >= named && (reached == ONE || reached == named)
            &&& call_ensures(log2_1p, ((facts.row_count * ONE) as u128, reached as u128), halvings)
            &&& plan.resolver == Resolve::GallopSeek <==> 389 * (reached * halvings) < 398 * (
            reached * ONE) + 41 * ((facts.row_count * ONE) * ONE)
        }),
{
    let (none, halvings) = choose|none: u64, halvings: u64|
        resolves_with(facts, exp_neg, log2_1p, none, halvings, plan.resolver);
    let reached: int = reached_rows(facts.row_count as int, share(none as int));
    let crossed: int = facts.row_count * ONE;
    assert(389000 * halvings * reached == 1000 * (389 * (reached * halvings)))
        by (nonlinear_arith);
    assert((398 * reached + 41 * crossed) * (1000 * ONE) == 1000 * (398 * (reached * ONE) + 41 * (
    crossed * ONE))) by (nonlinear_arith);
    assert(facts.row_count * rest(ONE as int) == 0) by (nonlinear_arith)
        requires
            rest(ONE as int) == 0,
    ;
    (none, halvings, reached)
}

/// The resolver of a plan, where the exponential and the logarithm are read
/// within the slack. With no row or one, it is the search. From two rows on it
/// is the walk where there are 0.026 to 1.5 hits to the row, and the search
/// from two; with no more than one hit to forty-three rows it is the walk up to
/// forty-one rows and the search from forty-two.
pub proof fn the_planned_resolver_turns_on_hits_per_row<
    E: Fn(u128, u128) -> u64,
    L: Fn(u128, u128) -> u64,
>(
    build: Build,
    cover: &ProbeCover,
    facts: Facts,
    exp_neg: E,
    log2_1p: L,
    slack: int,
    plan: Plan,
)
    requires
        0 <= slack <= most_slack(),
        reads_exp_neg(exp_neg, slack),
        reads_log2_1p(log2_1p, slack),
        selects(build, cover, facts, exp_neg, log2_1p, plan),
    ensures
        facts.row_count <= 1 ==> plan.resolver == Resolve::GallopSeek,
        facts.expected_hits >= 2 * facts.row_count ==> plan.resolver == Resolve::GallopSeek,
        facts.row_count >= 2 && 1000 * facts.expected_hits >= 26 * facts.row_count && 2
            * facts.expected_hits <= 3 * facts.row_count ==> plan.resolver == Resolve::LinearSeek,
        2 <= facts.row_count <= 41 && 43 * facts.expected_hits <= facts.row_count ==> plan.resolver
            == Resolve::LinearSeek,
        facts.row_count >= 42 && 43 * facts.expected_hits <= facts.row_count ==> plan.resolver
            == Resolve::GallopSeek,
{
    if facts.row_count > 0 {
        let (none, halvings) = choose|none: u64, halvings: u64|
            resolves_with(facts, exp_neg, log2_1p, none, halvings, plan.resolver);
        let (hits, rows) = (facts.expected_hits as int, facts.row_count as int);
        let missed: int = share(none as int);
        assert(is_exp_neg(hits, rows, none as int, slack));
        the_region_decides_by_the_crossover(
            facts,
            exp_neg,
            log2_1p,
            slack,
            none,
            halvings,
            plan.resolver,
        );
        lemma_rows_reached(rows, missed);
        if hits >= 2 * rows {
            lemma_dense(hits, rows, none as int, slack);
        } else if 1000 * hits >= 26 * rows && 2 * hits <= 3 * rows {
            lemma_between(hits, rows, none as int, slack);
        } else if 43 * hits <= rows {
            lemma_sparse(hits, rows, none as int, slack);
        }
    }
}

/// What the rows reached come to, for bounds on the share of rows missed.
proof fn lemma_rows_reached(rows: int, missed: int)
    requires
        rows >= 1,
        0 <= missed <= ONE,
    ensures
        ({
            let (crossed, reached) = (rows * ONE, reached_rows(rows, missed));
            &&& rows == 1 ==> reached == crossed
            &&& 59 * missed <= 9 * ONE ==> 50 * crossed <= 59 * reached
            &&& rows >= 2 && 5 * missed >= ONE ==> 5 * reached <= 4 * crossed
            &&& 41 * missed <= 40 * ONE ==> crossed <= 41 * reached
            &&& rows <= 41 ==> crossed <= 41 * reached
            &&& rows >= 42 && 42 * missed >= 41 * ONE ==> crossed >= 42 * reached
        }),
{
    let named: int = rows * rest(missed);
    assert(named == rows * ONE - rows * missed) by (nonlinear_arith)
        requires
            named == rows * rest(missed),
            rest(missed) == ONE - missed,
    ;
    assert(rows * missed >= 0) by (nonlinear_arith)
        requires
            rows >= 1,
            missed >= 0,
    ;
    if 59 * missed <= 9 * ONE {
        assert(59 * (rows * missed) <= 9 * (rows * ONE)) by (nonlinear_arith)
            requires
                rows >= 1,
                59 * missed <= 9 * ONE,
        ;
    }
    if 5 * missed >= ONE {
        assert(5 * (rows * missed) >= rows * ONE) by (nonlinear_arith)
            requires
                rows >= 1,
                5 * missed >= ONE,
        ;
    }
    if 41 * missed <= 40 * ONE {
        assert(41 * (rows * missed) <= 40 * (rows * ONE)) by (nonlinear_arith)
            requires
                rows >= 1,
                41 * missed <= 40 * ONE,
        ;
    }
    if 42 * missed >= 41 * ONE {
        assert(42 * (rows * missed) >= 41 * (rows * ONE)) by (nonlinear_arith)
            requires
                rows >= 1,
                42 * missed >= 41 * ONE,
        ;
    }
}

/// From two hits to the row, few rows are missed.
proof fn lemma_dense(hits: int, rows: int, none: int, slack: int)
    requires
        rows >= 1,
        none >= 0,
        hits >= 2 * rows,
        0 <= slack <= most_slack(),
        is_exp_neg(hits, rows, none, slack),
    ensures
        59 * share(none) <= 9 * ONE,
{
    if none >= slack {
        lemma_exp_at_most(hits, rows, none, slack, 9, 8, 16);
        lemma_sixteenths();
    }
}

/// From 0.026 to 1.5 hits to the row, between a fifth of the rows and all but
/// one in forty-one are missed.
proof fn lemma_between(hits: int, rows: int, none: int, slack: int)
    requires
        rows >= 1,
        none >= 0,
        1000 * hits >= 26 * rows,
        2 * hits <= 3 * rows,
        0 <= slack <= most_slack(),
        is_exp_neg(hits, rows, none, slack),
    ensures
        ONE <= 5 * share(none),
        41 * share(none) <= 40 * ONE,
{
    lemma_exp_at_least(hits, rows, none, slack, 29, 32, 16);
    lemma_sixteenths();
    if none >= slack {
        lemma_exp_at_most(hits, rows, none, slack, 1026, 1000, 1);
        lemma_pow1(1026);
        lemma_pow1(1000);
    }
}

/// With no more than one hit to forty-three rows, nearly every row is missed.
proof fn lemma_sparse(hits: int, rows: int, none: int, slack: int)
    requires
        rows >= 1,
        hits >= 0,
        none >= 0,
        43 * hits <= rows,
        0 <= slack <= most_slack(),
        is_exp_neg(hits, rows, none, slack),
    ensures
        42 * share(none) >= 41 * ONE,
{
    lemma_exp_at_least(hits, rows, none, slack, 42, 43, 1);
    lemma_pow1(42);
    lemma_pow1(43);
}

proof fn lemma_sixteenths()
    ensures
        pow(9, 16) == 1853020188851841,
        pow(8, 16) == 281474976710656,
        pow(29, 16) == 250246473680347348787521,
        pow(32, 16) == 1208925819614629174706176,
{
    reveal_with_fuel(pow, 9);
    lemma_pow_adds(9, 8, 8);
    lemma_pow_adds(8, 8, 8);
    lemma_pow_adds(29, 8, 8);
    lemma_pow_adds(32, 8, 8);
    assert(pow(9, 8) == 43046721 && pow(8, 8) == 16777216);
    assert(pow(29, 8) == 500246412961 && pow(32, 8) == 1099511627776);
}

} // verus!
