//! Laws of stage two: the rows named, and the two resolvers.

#[allow(unused_imports)]
use super::readings::{
    above_the_tangent, answers_alike, falls_between, is_log2, lemma_pow_ordered, most_slack,
    reads_log2_1p, reads_the_ratio_at, rises_between, starts_at_one,
};
#[allow(unused_imports)]
use crate::fixed::{rest, share, ONE};
#[allow(unused_imports)]
use crate::policy::resolver::{
    cheaper, named_rows, reached_rows, resolver_for, resolves_with, seek_cost, stage_two_cost,
};
#[allow(unused_imports)]
use crate::policy::scan::cheaper_stage_two;
#[allow(unused_imports)]
use crate::policy::{Facts, Resolve};
#[allow(unused_imports)]
use vstd::arithmetic::power::{lemma_pow_adds, lemma_pow_distributes, lemma_pow_positive, pow};
use vstd::prelude::*;

verus! {

/// Between none and all of the rows are named, none where no row is hit, and
/// no fewer the fewer rows are missed.
pub proof fn fewer_missed_rows_name_no_fewer(rows: int, none: int, fewer: int)
    requires
        rows >= 0,
        0 <= fewer <= none <= ONE,
    ensures
        0 <= named_rows(rows, none) <= named_rows(rows, fewer) <= rows * ONE,
        named_rows(rows, ONE as int) == 0,
{
    assert(0 <= rows * rest(none) <= rows * rest(fewer) <= rows * ONE && rows * rest(ONE as int)
        == 0) by (nonlinear_arith)
        requires
            rows >= 0,
            0 <= rest(none) <= rest(fewer) <= ONE,
            rest(ONE as int) == 0,
    ;
}

/// More hits name no fewer rows, where `exp_neg` falls between them, and no hits name none,
/// where it starts at one.
pub proof fn more_hits_name_no_fewer_rows<E: Fn(u128, u128) -> u64>(
    hits: usize,
    more: usize,
    rows: usize,
    exp_neg: E,
    none: u64,
    fewer: u64,
)
    requires
        rows > 0,
        hits <= more,
        falls_between(exp_neg, hits as u128, rows as u128, more as u128, rows as u128),
        call_ensures(exp_neg, (hits as u128, rows as u128), none),
        call_ensures(exp_neg, (more as u128, rows as u128), fewer),
    ensures
        named_rows(rows as int, share(none as int)) <= named_rows(rows as int, share(fewer as int)),
        hits == 0 && starts_at_one(exp_neg) ==> named_rows(rows as int, share(none as int)) == 0,
{
    assert(hits * rows <= more * rows) by (nonlinear_arith)
        requires
            hits <= more,
            rows > 0,
    ;
    fewer_missed_rows_name_no_fewer(rows as int, share(none as int), share(fewer as int));
}

/// There are no more hit rows than hits, up to the `slack` by which `exp_neg`
/// may read too low, on each row.
pub proof fn there_are_no_more_hit_rows_than_hits<E: Fn(u128, u128) -> u64>(
    hits: usize,
    rows: usize,
    exp_neg: E,
    none: u64,
    slack: int,
)
    requires
        rows > 0,
        slack >= 0,
        above_the_tangent(exp_neg, slack),
        call_ensures(exp_neg, (hits as u128, rows as u128), none),
    ensures
        named_rows(rows as int, share(none as int)) <= hits * ONE + slack * rows,
{
    let missed: int = share(none as int);
    assert(rows * rest(missed) <= hits * ONE + slack * rows) by (nonlinear_arith)
        requires
            rows > 0,
            slack >= 0,
            hits >= 0,
            rest(missed) == ONE - missed,
            missed == ONE || missed == none,
            (none + slack) * rows + ONE * hits >= ONE * rows,
    ;
}

/// At least one row is reached and at most all of them are, so at least one
/// row is crossed to reach each.
pub proof fn at_least_one_row_is_crossed(rows: int, none: int)
    requires
        rows >= 1,
        0 <= none <= ONE,
    ensures
        ONE <= reached_rows(rows, none) <= rows * ONE,
{
    fewer_missed_rows_name_no_fewer(rows, none, 0);
    assert(ONE <= rows * ONE) by (nonlinear_arith)
        requires
            rows >= 1,
    ;
}

/// Neither resolver costs less the more rows are crossed.
pub proof fn further_apart_costs_no_less(
    resolver: Resolve,
    emitted: int,
    crossed: int,
    halvings: int,
    further: int,
    more: int,
)
    requires
        emitted >= 0,
        crossed <= further,
        halvings <= more,
    ensures
        seek_cost(resolver, emitted, crossed, halvings) <= seek_cost(
            resolver,
            emitted,
            further,
            more,
        ),
{
    lemma_seeks(emitted, crossed, halvings);
    lemma_seeks(emitted, further, more);
    assert(halvings * emitted <= more * emitted) by (nonlinear_arith)
        requires
            emitted >= 0,
            halvings <= more,
    ;
}

/// Neither resolver costs less at a larger reach, where `log2_1p` rises to
/// it.
pub proof fn a_further_reach_costs_no_less<L: Fn(u128, u128) -> u64>(
    resolver: Resolve,
    emitted: u128,
    crossed: u128,
    further: u128,
    log2_1p: L,
    halvings: u64,
    more: u64,
)
    requires
        crossed <= further,
        rises_between(log2_1p, crossed, emitted, further, emitted),
        call_ensures(log2_1p, (crossed, emitted), halvings),
        call_ensures(log2_1p, (further, emitted), more),
    ensures
        seek_cost(resolver, emitted as int, crossed as int, halvings as int) <= seek_cost(
            resolver,
            emitted as int,
            further as int,
            more as int,
        ),
{
    assert(crossed * emitted <= further * emitted) by (nonlinear_arith)
        requires
            crossed <= further,
            emitted >= 0,
    ;
    further_apart_costs_no_less(
        resolver,
        emitted as int,
        crossed as int,
        halvings as int,
        further as int,
        more as int,
    );
}

/// The resolver turns on the rows crossed per emitted row alone: scaling both
/// counts alike changes nothing.
pub proof fn the_resolver_turns_on_the_ratio(emitted: int, crossed: int, halvings: int, scale: int)
    requires
        scale > 0,
    ensures
        cheaper(scale * emitted, scale * crossed, halvings) == cheaper(emitted, crossed, halvings),
{
    let linear = (398 * emitted + 41 * crossed) * ONE;
    let gallop = 389 * (halvings * emitted);
    lemma_seeks(emitted, crossed, halvings);
    lemma_seeks(scale * emitted, scale * crossed, halvings);
    assert((398 * (scale * emitted) + 41 * (scale * crossed)) * ONE == scale * linear && 389 * (
    halvings * (scale * emitted)) == scale * gallop) by (nonlinear_arith)
        requires
            linear == (398 * emitted + 41 * crossed) * ONE,
            gallop == 389 * (halvings * emitted),
    ;
    assert(scale * gallop < scale * linear <==> gallop < linear) by (nonlinear_arith)
        requires
            scale > 0,
    ;
}

/// Only the hits and the rows decide the resolver, where the functions answer
/// alike: the code count is nothing to it.
pub proof fn the_code_count_is_nothing_to_the_resolver<
    E: Fn(u128, u128) -> u64,
    L: Fn(u128, u128) -> u64,
>(one: Facts, other: Facts, exp_neg: E, log2_1p: L, r: Resolve, r2: Resolve)
    requires
        one.expected_hits == other.expected_hits,
        one.row_count == other.row_count,
        answers_alike(exp_neg),
        answers_alike(log2_1p),
        resolver_for(one, exp_neg, log2_1p, r),
        resolver_for(other, exp_neg, log2_1p, r2),
    ensures
        r == r2,
{
}

/// Hits per row is the whole of it: two regions with as many hits per row get
/// the same resolver, where each is read to name a row at least and the
/// functions read the ratio alone between the two.
pub proof fn hits_per_row_is_the_whole_of_it<E: Fn(u128, u128) -> u64, L: Fn(u128, u128) -> u64>(
    one: Facts,
    other: Facts,
    exp_neg: E,
    log2_1p: L,
    r: Resolve,
    r2: Resolve,
)
    requires
        one.row_count > 0,
        other.row_count > 0,
        one.expected_hits * other.row_count == other.expected_hits * one.row_count,
        names_a_row(one, exp_neg),
        names_a_row(other, exp_neg),
        reads_the_ratio_at(
            exp_neg,
            one.expected_hits as u128,
            one.row_count as u128,
            other.expected_hits as u128,
            other.row_count as u128,
        ),
        forall|none: u64| #[trigger]
            call_ensures(exp_neg, (one.expected_hits as u128, one.row_count as u128), none)
                ==> reads_the_ratio_at(
                log2_1p,
                (one.row_count * ONE) as u128,
                named_rows(one.row_count as int, share(none as int)) as u128,
                (other.row_count * ONE) as u128,
                named_rows(other.row_count as int, share(none as int)) as u128,
            ),
        resolver_for(one, exp_neg, log2_1p, r),
        resolver_for(other, exp_neg, log2_1p, r2),
    ensures
        r == r2,
{
    let (none, halvings) = choose|none: u64, halvings: u64|
        resolves_with(one, exp_neg, log2_1p, none, halvings, r);
    let (none2, halvings2) = choose|none: u64, halvings: u64|
        resolves_with(other, exp_neg, log2_1p, none, halvings, r2);
    assert(none == none2);
    let missed: int = share(none as int);
    let (rows, rows2) = (one.row_count as int, other.row_count as int);
    fewer_missed_rows_name_no_fewer(rows, missed, 0);
    fewer_missed_rows_name_no_fewer(rows2, missed, 0);
    assert(rows * ONE <= u128::MAX && rows2 * ONE <= u128::MAX);
    assert((rows * ONE) * (rows2 * rest(missed)) == (rows2 * ONE) * (rows * rest(missed)))
        by (nonlinear_arith);
    let (named, named2) = (named_rows(rows, missed), named_rows(rows2, missed));
    assert(reads_the_ratio_at(
        log2_1p,
        (rows * ONE) as u128,
        named as u128,
        (rows2 * ONE) as u128,
        named2 as u128,
    ));
    assert(halvings == halvings2);
    the_resolver_turns_on_the_ratio(rest(missed), ONE as int, halvings as int, rows);
    the_resolver_turns_on_the_ratio(rest(missed), ONE as int, halvings as int, rows2);
}

/// Whether every reading of the region names a row at least.
pub open spec fn names_a_row<E: Fn(u128, u128) -> u64>(facts: Facts, exp_neg: E) -> bool {
    forall|none: u64| #[trigger]
        call_ensures(exp_neg, (facts.expected_hits as u128, facts.row_count as u128), none)
            ==> named_rows(facts.row_count as int, share(none as int)) >= ONE
}

/// A scan is charged no more for stage two than either resolver would take.
pub proof fn stage_two_is_the_cheaper(
    resolver: Resolve,
    bits: int,
    emitted: int,
    crossed: int,
    halvings: int,
)
    ensures
        cheaper_stage_two(bits, emitted, crossed, halvings) <= stage_two_cost(
            resolver,
            bits,
            emitted,
            crossed,
            halvings,
        ),
{
}

/// The planned resolver is the one whose stage two a scan is charged, where a
/// row is named at least. Where less than one is, the planner holds the count
/// to one and the scan does not, and the two can differ.
pub proof fn the_scan_is_charged_the_planned_resolver(
    bits: int,
    rows: int,
    none: int,
    halvings: int,
)
    requires
        named_rows(rows, none) >= ONE,
    ensures
        stage_two_cost(
            cheaper(reached_rows(rows, none), rows * ONE, halvings),
            bits,
            named_rows(rows, none),
            rows * ONE,
            halvings,
        ) == cheaper_stage_two(bits, named_rows(rows, none), rows * ONE, halvings),
{
}

/// Up to 1.18 rows crossed per emitted row, the search is the cheaper.
pub proof fn close_by_the_search_is_cheaper(
    emitted: int,
    crossed: int,
    halvings: int,
    slack: int,
)
    requires
        emitted > 0,
        0 <= 50 * crossed <= 59 * emitted,
        0 <= slack <= most_slack(),
        is_log2(emitted + crossed, emitted, halvings, slack),
    ensures
        seek_cost(Resolve::GallopSeek, emitted, crossed, halvings) < seek_cost(
            Resolve::LinearSeek,
            emitted,
            crossed,
            halvings,
        ),
        cheaper(emitted, crossed, halvings) == Resolve::GallopSeek,
{
    lemma_close_by_powers();
    if crossed <= emitted {
        lemma_search(emitted, crossed, halvings, slack, 0, 2, 1, 1, 1);
    } else {
        lemma_search(emitted, crossed, halvings, slack, 2, 109, 50, 9, 8);
    }
}

/// From one and a quarter to forty-one rows crossed per emitted row, the walk
/// is the cheaper.
pub proof fn in_between_the_walk_is_cheaper(
    emitted: int,
    crossed: int,
    halvings: int,
    slack: int,
)
    requires
        emitted > 0,
        5 * emitted <= 4 * crossed,
        crossed <= 41 * emitted,
        0 <= slack <= most_slack(),
        is_log2(emitted + crossed, emitted, halvings, slack),
    ensures
        seek_cost(Resolve::LinearSeek, emitted, crossed, halvings) < seek_cost(
            Resolve::GallopSeek,
            emitted,
            crossed,
            halvings,
        ),
        cheaper(emitted, crossed, halvings) == Resolve::LinearSeek,
{
    lemma_walk_powers();
    if 25 * crossed <= 34 * emitted {
        lemma_walk(emitted, crossed, halvings, slack, 125, 136, 100, 7, 6);
    } else if 3 * crossed <= 5 * emitted {
        lemma_walk(emitted, crossed, halvings, slack, 102, 125, 75, 6, 5);
    } else if crossed <= 2 * emitted {
        lemma_walk(emitted, crossed, halvings, slack, 5, 6, 3, 7, 5);
    } else if crossed <= 4 * emitted {
        lemma_walk(emitted, crossed, halvings, slack, 2, 4, 1, 3, 2);
    } else if crossed <= 11 * emitted {
        lemma_walk(emitted, crossed, halvings, slack, 4, 11, 1, 9, 4);
    } else if crossed <= 23 * emitted {
        lemma_walk(emitted, crossed, halvings, slack, 11, 23, 1, 7, 2);
    } else if crossed <= 32 * emitted {
        lemma_walk(emitted, crossed, halvings, slack, 23, 32, 1, 9, 2);
    } else if crossed <= 37 * emitted {
        lemma_walk(emitted, crossed, halvings, slack, 32, 37, 1, 5, 1);
    } else if crossed <= 39 * emitted {
        lemma_walk(emitted, crossed, halvings, slack, 37, 39, 1, 26, 5);
    } else if crossed <= 40 * emitted {
        lemma_walk(emitted, crossed, halvings, slack, 39, 40, 1, 53, 10);
    } else {
        lemma_walk(emitted, crossed, halvings, slack, 40, 41, 1, 107, 20);
    }
}

/// From forty-two rows crossed per emitted row, the search is the cheaper: the
/// walk is linear in the rows crossed, the search logarithmic.
pub proof fn far_apart_the_search_is_cheaper(
    emitted: int,
    crossed: int,
    halvings: int,
    slack: int,
)
    requires
        emitted > 0,
        crossed >= 42 * emitted,
        0 <= slack <= most_slack(),
        is_log2(emitted + crossed, emitted, halvings, slack),
    ensures
        seek_cost(Resolve::GallopSeek, emitted, crossed, halvings) < seek_cost(
            Resolve::LinearSeek,
            emitted,
            crossed,
            halvings,
        ),
        cheaper(emitted, crossed, halvings) == Resolve::GallopSeek,
{
    lemma_search_powers();
    if 2 * crossed <= 85 * emitted {
        lemma_search(emitted, crossed, halvings, slack, 84, 87, 2, 49, 9);
    } else if crossed <= 44 * emitted {
        lemma_search(emitted, crossed, halvings, slack, 85, 90, 2, 11, 2);
    } else if crossed <= 47 * emitted {
        lemma_search(emitted, crossed, halvings, slack, 88, 96, 2, 28, 5);
    } else if crossed <= 52 * emitted {
        lemma_search(emitted, crossed, halvings, slack, 94, 106, 2, 23, 4);
    } else if crossed <= 63 * emitted {
        lemma_search(emitted, crossed, halvings, slack, 104, 128, 2, 6, 1);
    } else {
        lemma_search_doubling(emitted, crossed, halvings, slack, 7);
    }
}

/// The crossover of a region, where `log2_1p` reads the logarithm
/// within the slack: the search up to 1.18 rows crossed per row reached and
/// from forty-two, the walk from one and a quarter to forty-one.
pub proof fn the_region_decides_by_the_crossover<
    E: Fn(u128, u128) -> u64,
    L: Fn(u128, u128) -> u64,
>(
    facts: Facts,
    exp_neg: E,
    log2_1p: L,
    slack: int,
    none: u64,
    halvings: u64,
    r: Resolve,
)
    requires
        facts.row_count > 0,
        0 <= slack <= most_slack(),
        reads_log2_1p(log2_1p, slack),
        resolves_with(facts, exp_neg, log2_1p, none, halvings, r),
    ensures
        ({
            let crossed = facts.row_count * ONE;
            let reached = reached_rows(facts.row_count as int, share(none as int));
            &&& 50 * crossed <= 59 * reached || crossed >= 42 * reached ==> r == Resolve::GallopSeek
            &&& 5 * reached <= 4 * crossed && crossed <= 41 * reached ==> r == Resolve::LinearSeek
        }),
{
    let crossed: int = facts.row_count * ONE;
    let reached: int = reached_rows(facts.row_count as int, share(none as int));
    at_least_one_row_is_crossed(facts.row_count as int, share(none as int));
    assert(crossed <= u128::MAX);
    assert(is_log2(reached + crossed, reached, halvings as int, slack));
    if 50 * crossed <= 59 * reached {
        close_by_the_search_is_cheaper(reached, crossed, halvings as int, slack);
    } else if crossed >= 42 * reached {
        far_apart_the_search_is_cheaper(reached, crossed, halvings as int, slack);
    } else if 5 * reached <= 4 * crossed && crossed <= 41 * reached {
        in_between_the_walk_is_cheaper(reached, crossed, halvings as int, slack);
    }
}

/// The two costs a thousandth at a time.
proof fn lemma_seeks(emitted: int, crossed: int, halvings: int)
    ensures
        seek_cost(Resolve::LinearSeek, emitted, crossed, halvings) == 1000 * ((398 * emitted + 41
            * crossed) * ONE),
        seek_cost(Resolve::GallopSeek, emitted, crossed, halvings) == 1000 * (389 * (halvings
            * emitted)),
{
    assert(389000 * halvings * emitted == 1000 * (389 * (halvings * emitted)))
        by (nonlinear_arith);
    let hundredths: int = 398 * emitted + 41 * crossed;
    assert(hundredths * (1000 * ONE) == 1000 * (hundredths * ONE)) by (nonlinear_arith);
}

/// Where the ratio is `over / under` at least and the `b`th power of that is
/// `2^a` at least, the logarithm is `a / b` at least.
proof fn lemma_log_at_least(
    whole: int,
    unit: int,
    halvings: int,
    slack: int,
    over: int,
    under: int,
    a: nat,
    b: nat,
)
    requires
        unit > 0,
        under > 0,
        over >= 0,
        over * unit <= whole * under,
        whole >= 0,
        pow(2, a) * pow(under, b) <= pow(over, b),
        is_log2(whole, unit, halvings, slack),
    ensures
        a * ONE <= b * (halvings + slack),
{
    assert(0 <= over * unit) by (nonlinear_arith)
        requires
            0 <= over,
            0 < unit,
    ;
    lemma_pow_ordered(over * unit, whole * under, b);
    lemma_pow_distributes(over, unit, b);
    lemma_pow_distributes(whole, under, b);
    lemma_pow_positive(unit, b);
    lemma_pow_positive(under, b);
    let (t, u, v) = (pow(2, a), pow(under, b), pow(unit, b));
    let (w, o) = (pow(whole, b), pow(over, b));
    assert(t * v <= w) by (nonlinear_arith)
        requires
            t * u <= o,
            o * v <= w * u,
            u > 0,
            v > 0,
    {
        assert((t * u) * v <= o * v);
        assert((t * v) * u <= w * u);
    }
}

/// Where the ratio is `over / under` at most and the `b`th power of that is
/// `2^a` at most, the logarithm is `a / b` at most.
proof fn lemma_log_at_most(
    whole: int,
    unit: int,
    halvings: int,
    slack: int,
    over: int,
    under: int,
    a: nat,
    b: nat,
)
    requires
        unit > 0,
        under > 0,
        over >= 0,
        0 <= whole * under <= over * unit,
        whole >= 0,
        pow(over, b) <= pow(2, a) * pow(under, b),
        is_log2(whole, unit, halvings, slack),
    ensures
        b * (halvings - slack) <= a * ONE,
{
    lemma_pow_ordered(whole * under, over * unit, b);
    lemma_pow_distributes(over, unit, b);
    lemma_pow_distributes(whole, under, b);
    lemma_pow_positive(unit, b);
    lemma_pow_positive(under, b);
    let (t, u, v) = (pow(2, a), pow(under, b), pow(unit, b));
    let (w, o) = (pow(whole, b), pow(over, b));
    assert(w <= t * v) by (nonlinear_arith)
        requires
            o <= t * u,
            w * u <= o * v,
            u > 0,
            v > 0,
    {
        assert(o * v <= (t * u) * v);
        assert(w * u <= (t * v) * u);
    }
}

/// The walk is the cheaper from `low / unit` to `high / unit` rows crossed, if
/// the logarithm at the lower end is `a / b` at least and that is dear enough
/// at the upper.
proof fn lemma_walk(
    emitted: int,
    crossed: int,
    halvings: int,
    slack: int,
    low: int,
    high: int,
    unit: int,
    a: nat,
    b: nat,
)
    requires
        emitted > 0,
        crossed >= 0,
        low >= 0,
        unit > 0,
        low * emitted <= unit * crossed <= high * emitted,
        0 <= slack <= most_slack(),
        is_log2(emitted + crossed, emitted, halvings, slack),
        b > 0,
        pow(2, a) * pow(unit, b) <= pow(low + unit, b),
        unit * (389 * (a * ONE - b * slack)) > b * ((398 * unit + 41 * high) * ONE),
    ensures
        seek_cost(Resolve::LinearSeek, emitted, crossed, halvings) < seek_cost(
            Resolve::GallopSeek,
            emitted,
            crossed,
            halvings,
        ),
{
    assert((low + unit) * emitted == low * emitted + unit * emitted) by (nonlinear_arith);
    assert((emitted + crossed) * unit == unit * crossed + unit * emitted) by (nonlinear_arith);
    lemma_log_at_least(emitted + crossed, emitted, halvings, slack, low + unit, unit, a, b);
    lemma_seeks(emitted, crossed, halvings);
    assert(unit * (389 * halvings) > (398 * unit + 41 * high) * ONE) by (nonlinear_arith)
        requires
            b > 0,
            unit > 0,
            a * ONE <= b * (halvings + slack),
            unit * (389 * (a * ONE - b * slack)) > b * ((398 * unit + 41 * high) * ONE),
    {
        assert(a * ONE - b * slack <= b * halvings);
        assert(unit * (389 * (a * ONE - b * slack)) <= unit * (389 * (b * halvings)));
        assert(unit * (389 * (b * halvings)) == b * (unit * (389 * halvings)));
        assert(b * (unit * (389 * halvings)) > b * ((398 * unit + 41 * high) * ONE));
    }
    assert(389 * (halvings * emitted) > (398 * emitted + 41 * crossed) * ONE)
        by (nonlinear_arith)
        requires
            emitted > 0,
            unit > 0,
            unit * crossed <= high * emitted,
            unit * (389 * halvings) > (398 * unit + 41 * high) * ONE,
    {
        assert((unit * (389 * halvings)) * emitted > ((398 * unit + 41 * high) * ONE) * emitted);
        assert(((398 * unit + 41 * high) * ONE) * emitted == (398 * (unit * emitted) + 41 * (high
            * emitted)) * ONE);
        assert((398 * (unit * emitted) + 41 * (high * emitted)) * ONE >= (398 * (unit * emitted)
            + 41 * (unit * crossed)) * ONE);
        assert((398 * (unit * emitted) + 41 * (unit * crossed)) * ONE == unit * ((398 * emitted
            + 41 * crossed) * ONE));
        assert((unit * (389 * halvings)) * emitted == unit * (389 * (halvings * emitted)));
    }
}

/// The search is the cheaper from `low` halves of a row crossed to where one
/// more than the rows crossed is `over / under`, if the logarithm there is
/// `a / b` at most and that is cheap enough at the lower end.
proof fn lemma_search(
    emitted: int,
    crossed: int,
    halvings: int,
    slack: int,
    low: int,
    over: int,
    under: int,
    a: nat,
    b: nat,
)
    requires
        emitted > 0,
        crossed >= 0,
        under > 0,
        over >= 0,
        low * emitted <= 2 * crossed,
        (emitted + crossed) * under <= over * emitted,
        0 <= slack <= most_slack(),
        is_log2(emitted + crossed, emitted, halvings, slack),
        b > 0,
        pow(over, b) <= pow(2, a) * pow(under, b),
        2 * (389 * (a * ONE + b * slack)) < b * ((796 + 41 * low) * ONE),
    ensures
        seek_cost(Resolve::GallopSeek, emitted, crossed, halvings) < seek_cost(
            Resolve::LinearSeek,
            emitted,
            crossed,
            halvings,
        ),
{
    assert(0 <= (emitted + crossed) * under) by (nonlinear_arith)
        requires
            emitted > 0,
            crossed >= 0,
            under > 0,
    ;
    lemma_log_at_most(emitted + crossed, emitted, halvings, slack, over, under, a, b);
    lemma_seeks(emitted, crossed, halvings);
    assert(2 * (389 * halvings) < (796 + 41 * low) * ONE) by (nonlinear_arith)
        requires
            b > 0,
            b * (halvings - slack) <= a * ONE,
            2 * (389 * (a * ONE + b * slack)) < b * ((796 + 41 * low) * ONE),
    {
        assert(b * halvings <= a * ONE + b * slack);
        assert(b * (2 * (389 * halvings)) < b * ((796 + 41 * low) * ONE));
    }
    assert(2 * (389 * (halvings * emitted)) < 2 * ((398 * emitted + 41 * crossed) * ONE))
        by (nonlinear_arith)
        requires
            emitted > 0,
            low * emitted <= 2 * crossed,
            2 * (389 * halvings) < (796 + 41 * low) * ONE,
    {
        assert((2 * (389 * halvings)) * emitted < ((796 + 41 * low) * ONE) * emitted);
        assert(((796 + 41 * low) * ONE) * emitted == (796 * emitted + 41 * (low * emitted))
            * ONE);
        assert((796 * emitted + 41 * (low * emitted)) * ONE <= (796 * emitted + 41 * (2
            * crossed)) * ONE);
    }
}

/// The search is the cheaper from `2^(n-1) - 1` rows crossed on.
proof fn lemma_search_doubling(
    emitted: int,
    crossed: int,
    halvings: int,
    slack: int,
    n: nat,
)
    requires
        emitted > 0,
        n >= 7,
        pow(2, (n - 1) as nat) * emitted <= emitted + crossed,
        0 <= slack <= most_slack(),
        is_log2(emitted + crossed, emitted, halvings, slack),
    ensures
        seek_cost(Resolve::GallopSeek, emitted, crossed, halvings) < seek_cost(
            Resolve::LinearSeek,
            emitted,
            crossed,
            halvings,
        ),
    decreases emitted + crossed - pow(2, (n - 1) as nat) * emitted,
{
    let half: int = pow(2, (n - 1) as nat);
    lemma_powers_outgrow(n);
    assert(pow(2, n) == 2 * half) by {
        reveal(pow);
    }
    assert(half * emitted >= 64 * emitted) by (nonlinear_arith)
        requires
            half >= 64,
            emitted > 0,
    ;
    assert((2 * half) * emitted == 2 * (half * emitted)) by (nonlinear_arith);
    if emitted + crossed <= (2 * half) * emitted {
        vstd::arithmetic::power::lemma_pow1(pow(2, n));
        vstd::arithmetic::power::lemma_pow1(1);
        assert((2 * (half - 1)) * emitted == 2 * (half * emitted) - 2 * emitted)
            by (nonlinear_arith);
        lemma_search(emitted, crossed, halvings, slack, 2 * (half - 1), pow(2, n), 1, n, 1);
    } else {
        lemma_search_doubling(emitted, crossed, halvings, slack, n + 1);
    }
}

proof fn lemma_powers_outgrow(n: nat)
    requires
        n >= 7,
    ensures
        389 * n + 1 < 398 + 41 * (pow(2, (n - 1) as nat) - 1),
        pow(2, (n - 1) as nat) >= 64,
    decreases n,
{
    if n == 7 {
        reveal_with_fuel(pow, 7);
    } else {
        lemma_powers_outgrow((n - 1) as nat);
        reveal(pow);
    }
}

proof fn lemma_walk_powers()
    ensures
        pow(2, 7) * pow(100, 6) <= pow(225, 6),
        pow(2, 6) * pow(75, 5) <= pow(177, 5),
        pow(2, 7) * pow(3, 5) <= pow(8, 5),
        pow(2, 3) * pow(1, 2) <= pow(3, 2),
        pow(2, 9) * pow(1, 4) <= pow(5, 4),
        pow(2, 7) * pow(1, 2) <= pow(12, 2),
        pow(2, 9) * pow(1, 2) <= pow(24, 2),
        pow(2, 5) * pow(1, 1) <= pow(33, 1),
        pow(2, 26) * pow(1, 5) <= pow(38, 5),
        pow(2, 53) * pow(1, 10) <= pow(40, 10),
        pow(2, 107) * pow(1, 20) <= pow(41, 20),
{
    lemma_walk_fractions();
    vstd::arithmetic::power::lemma1_pow(1);
    vstd::arithmetic::power::lemma1_pow(2);
    vstd::arithmetic::power::lemma1_pow(4);
    vstd::arithmetic::power::lemma1_pow(5);
    vstd::arithmetic::power::lemma1_pow(10);
    vstd::arithmetic::power::lemma1_pow(20);
    reveal_with_fuel(pow, 14);
    lemma_pow_adds(2, 13, 13);
    lemma_pow_adds(2, 26, 13);
    lemma_pow_adds(2, 39, 13);
    lemma_pow_adds(2, 52, 1);
    lemma_pow_adds(2, 53, 1);
    lemma_pow_adds(2, 53, 54);
    lemma_pow_adds(40, 5, 5);
    lemma_pow_adds(41, 5, 5);
    lemma_pow_adds(41, 10, 10);
    assert(pow(2, 13) == 8192 && pow(2, 26) == 67108864 && pow(2, 39) == 549755813888);
    assert(pow(2, 53) == 9007199254740992 && pow(2, 54) == 18014398509481984);
    assert(pow(2, 107) == 9007199254740992 * 18014398509481984);
    assert(pow(41, 5) == 115856201 && pow(41, 10) == 13422659310152401);
    assert(pow(41, 20) == 13422659310152401 * 13422659310152401);
}

proof fn lemma_walk_fractions()
    ensures
        pow(2, 7) * pow(100, 6) <= pow(225, 6),
        pow(2, 6) * pow(75, 5) <= pow(177, 5),
        pow(2, 7) * pow(3, 5) <= pow(8, 5),
{
    reveal_with_fuel(pow, 8);
    assert(pow(2, 7) == 128 && pow(2, 6) == 64);
    assert(pow(100, 6) == 1000000000000 && pow(225, 6) == 129746337890625);
    assert(pow(75, 5) == 2373046875 && pow(177, 5) == 173726604657);
    assert(pow(3, 5) == 243 && pow(8, 5) == 32768);
}

proof fn lemma_close_by_powers()
    ensures
        pow(2, 1) <= pow(2, 1) * pow(1, 1),
        pow(109, 8) <= pow(2, 9) * pow(50, 8),
{
    reveal_with_fuel(pow, 10);
    assert(pow(2, 9) == 512 && pow(109, 8) == 19925626416901921 && pow(50, 8) == 39062500000000);
}

proof fn lemma_search_powers()
    ensures
        pow(87, 9) <= pow(2, 49) * pow(2, 9),
        pow(90, 2) <= pow(2, 11) * pow(2, 2),
        pow(96, 5) <= pow(2, 28) * pow(2, 5),
        pow(106, 4) <= pow(2, 23) * pow(2, 4),
        pow(128, 1) <= pow(2, 6) * pow(2, 1),
        pow(2, 6) == 64,
{
    reveal_with_fuel(pow, 15);
    lemma_pow_adds(2, 14, 14);
    lemma_pow_adds(2, 28, 14);
    lemma_pow_adds(2, 42, 7);
    lemma_pow_adds(2, 14, 9);
    assert(pow(2, 14) == 16384 && pow(2, 28) == 268435456 && pow(2, 42) == 4398046511104);
    assert(pow(2, 49) == 562949953421312 && pow(2, 23) == 8388608 && pow(2, 11) == 2048);
    assert(pow(2, 9) == 512 && pow(2, 7) == 128 && pow(2, 5) == 32 && pow(2, 4) == 16);
    assert(pow(2, 2) == 4 && pow(2, 1) == 2 && pow(2, 6) == 64);
    assert(pow(87, 9) == 285544154243029527 && pow(90, 2) == 8100);
    assert(pow(96, 5) == 8153726976 && pow(106, 4) == 126247696 && pow(128, 1) == 128);
}

} // verus!
