use scan_plan::cover::{ProbeCover, TokenRange};
use scan_plan::fixed::{Wide, ONE, ONE_SQUARED};
use scan_plan::policy::matcher::{
    avx2, avx512bw, batches, neon, ns_per_code, scalar, select_matcher, skip_ns_per_code,
    stage_one_ns_per_code, takes, MAX_BATCHES, PER_BATCH, TICK_PARTS,
};
use scan_plan::policy::resolver::{
    hit_rows, seek_ns_per_row, select_resolver, select_seek, stage_two_ns,
};
use scan_plan::policy::scan::{scan_ns, scan_ticks, Readings};
use scan_plan::policy::{density, select, Build, Facts, Isa, Match, Plan, Region, Resolve, Shape};

const VECTOR: [Isa; 3] = [Isa::Neon, Isa::Avx2, Isa::Avx512Bw];

fn build(isa: Isa) -> Build {
    Build { isa, simd: true, block: 512 }
}

fn shape(tokens: usize, ranges: usize) -> Shape {
    Shape { tokens, ranges }
}

fn cover(tokens: usize, ranges: usize) -> ProbeCover {
    let points: Vec<u16> = (0..tokens).map(|i| i as u16).collect();
    let ranges: Vec<TokenRange> = (0..ranges)
        .map(|i| TokenRange { first: 1000 + 10 * i as u16, last: 1005 + 10 * i as u16 })
        .collect();
    ProbeCover::new(points, ranges)
}

fn exp_neg(over: u128, under: u128) -> u64 {
    ((-(over as f64 / under as f64)).exp() * ONE as f64).round() as u64
}

fn log2_1p(over: u128, under: u128) -> u64 {
    ((1.0 + over as f64 / under as f64).log2() * ONE as f64).round() as u64
}

/// A cost in ticks, as a double.
fn ticks(cost: Wide) -> f64 {
    (cost.high as f64 * 2f64.powi(128) + cost.low as f64) / ONE_SQUARED as f64
}

/// A whole number of ticks.
fn whole(ticks: u128) -> Wide {
    Wide::product(ticks, ONE_SQUARED)
}

/// The dispatch compiles one arm per batch count up to the maximum, so the
/// planner must not name a kernel past it.
#[test]
fn the_planner_stays_inside_the_batch_arms() {
    for isa in VECTOR {
        for tokens in 1..4096 {
            let shape = Shape { tokens, ranges: 0 };
            if select_matcher(build(isa), shape) == Match::NibbleN8K {
                assert!(
                    tokens.div_ceil(PER_BATCH) <= MAX_BATCHES,
                    "K = {tokens} wants {} batches",
                    tokens.div_ceil(PER_BATCH)
                );
            }
        }
    }
}

#[test]
fn a_batch_holds_eight_tokens() {
    assert_eq!(batches(0), 0);
    assert_eq!(batches(1), 1);
    assert_eq!(batches(8), 1);
    assert_eq!(batches(9), 2);
    assert_eq!(batches(128), 16);
    assert_eq!(batches(129), 17);
    assert_eq!(batches(usize::MAX), usize::MAX / 8 + 1);
}

#[test]
fn the_fits_are_the_tables() {
    let s = shape(12, 3);
    assert_eq!(neon(Match::Table, s), 18400);
    assert_eq!(neon(Match::EqOr, s), 588 + 16560 + 14898);
    assert_eq!(neon(Match::NibbleN8K, s), 2325 + 6122 + 19503);
    assert_eq!(neon(Match::Range, s), 330 + 6309);
    assert_eq!(avx2(Match::Table, s), 29300);
    assert_eq!(avx2(Match::EqOr, s), 1247 + 10020 + 6309);
    assert_eq!(avx2(Match::NibbleN8K, s), 4343 + 5490 + 6435);
    assert_eq!(avx2(Match::Range, s), 643 + 6099);
    assert_eq!(avx512bw(Match::Table, s), 23100);
    assert_eq!(avx512bw(Match::EqOr, s), 1162 + 12228 + 3909);
    assert_eq!(avx512bw(Match::NibbleN8K, s), 1931 + 3872 + 4020);
    assert_eq!(avx512bw(Match::Range, s), 571 + 4425);
    assert_eq!(scalar(Match::Table, s), 19500);
    assert_eq!(ns_per_code(Isa::Neon, Match::EqOr, s), neon(Match::EqOr, s));
    assert_eq!(ns_per_code(Isa::Avx2, Match::EqOr, s), avx2(Match::EqOr, s));
    assert_eq!(ns_per_code(Isa::Avx512Bw, Match::EqOr, s), avx512bw(Match::EqOr, s));
    assert_eq!(ns_per_code(Isa::Scalar, Match::Table, s), 19500);
}

#[test]
fn a_fit_takes_the_largest_counts() {
    let s = shape(usize::MAX, usize::MAX);
    let most = usize::MAX as u128;
    assert_eq!(neon(Match::EqOr, s), 588 + 6346 * most);
    assert_eq!(select_matcher(build(Isa::Neon), s), Match::Table);
}

#[test]
fn each_kernel_has_its_limits() {
    for isa in VECTOR {
        let b = build(isa);
        assert!(takes(b, Match::Table, shape(0, 0)));
        assert!(!takes(b, Match::EqOr, shape(0, 5)));
        assert!(takes(b, Match::EqOr, shape(100000, 5)));
        assert!(takes(b, Match::Range, shape(0, 1)));
        assert!(!takes(b, Match::Range, shape(0, 0)));
        assert!(!takes(b, Match::Range, shape(1, 1)));
        assert!(!takes(b, Match::NibbleN8K, shape(0, 1)));
        assert!(takes(b, Match::NibbleN8K, shape(1, 0)));
        assert!(takes(b, Match::NibbleN8K, shape(128, 0)));
        assert!(!takes(b, Match::NibbleN8K, shape(129, 0)));
        let still = Build { simd: false, ..b };
        assert!(!takes(still, Match::EqOr, shape(1, 0)));
        assert!(takes(still, Match::Table, shape(1, 0)));
    }
    assert!(!takes(build(Isa::Scalar), Match::EqOr, shape(1, 0)));
    assert!(!takes(build(Isa::Scalar), Match::Range, shape(0, 1)));
    assert!(!takes(build(Isa::Scalar), Match::NibbleN8K, shape(1, 0)));
    assert!(takes(build(Isa::Scalar), Match::Table, shape(9, 9)));
}

#[test]
fn the_ladder_goes_from_compare_to_bitmap_to_table() {
    let b = build(Isa::Neon);
    assert_eq!(select_matcher(b, shape(1, 0)), Match::EqOr);
    assert_eq!(select_matcher(b, shape(3, 0)), Match::EqOr);
    assert_eq!(select_matcher(b, shape(4, 0)), Match::NibbleN8K);
    assert_eq!(select_matcher(b, shape(40, 0)), Match::NibbleN8K);
    assert_eq!(select_matcher(b, shape(41, 0)), Match::Table);
    assert_eq!(select_matcher(b, shape(0, 8)), Match::Range);
    assert_eq!(select_matcher(b, shape(0, 9)), Match::Table);
    assert_eq!(select_matcher(build(Isa::Avx2), shape(72, 0)), Match::NibbleN8K);
    assert_eq!(select_matcher(build(Isa::Avx2), shape(73, 0)), Match::Table);
    assert_eq!(select_matcher(build(Isa::Avx512Bw), shape(80, 0)), Match::NibbleN8K);
    assert_eq!(select_matcher(build(Isa::Avx512Bw), shape(81, 0)), Match::Table);
}

#[test]
fn the_table_runs_where_nothing_else_can() {
    for tokens in 0..50 {
        for ranges in 0..5 {
            let s = shape(tokens, ranges);
            assert_eq!(select_matcher(build(Isa::Scalar), s), Match::Table);
            let still = Build { isa: Isa::Avx2, simd: false, block: 512 };
            assert_eq!(select_matcher(still, s), Match::Table);
        }
    }
    for isa in VECTOR {
        assert_eq!(select_matcher(build(isa), shape(0, 0)), Match::Table);
    }
}

/// The same choice falls to the fits as doubles.
#[test]
fn doubles_choose_the_same_kernel() {
    for tokens in 0..300usize {
        for ranges in 0..40usize {
            let (k, r) = (tokens as f64, ranges as f64);
            let b = tokens.div_ceil(8) as f64;
            let rows: [(Isa, f64, f64, f64, f64); 3] = [
                (
                    Isa::Neon,
                    0.184,
                    0.00588 + 0.01380 * k + 0.04966 * r,
                    0.00330 + 0.02103 * r,
                    0.02325 + 0.03061 * b + 0.06501 * r,
                ),
                (
                    Isa::Avx2,
                    0.293,
                    0.01247 + 0.00835 * k + 0.02103 * r,
                    0.00643 + 0.02033 * r,
                    0.04343 + 0.02745 * b + 0.02145 * r,
                ),
                (
                    Isa::Avx512Bw,
                    0.231,
                    0.01162 + 0.01019 * k + 0.01303 * r,
                    0.00571 + 0.01475 * r,
                    0.01931 + 0.01936 * b + 0.01340 * r,
                ),
            ];
            for (isa, table, eq_or, range, nibble) in rows {
                let mut best = (Match::Table, table);
                if tokens > 0 && eq_or < best.1 {
                    best = (Match::EqOr, eq_or);
                }
                if tokens == 0 && ranges > 0 && range < best.1 {
                    best = (Match::Range, range);
                }
                if tokens > 0 && tokens <= 128 && nibble < best.1 {
                    best = (Match::NibbleN8K, nibble);
                }
                assert_eq!(select_matcher(build(isa), shape(tokens, ranges)), best.0);
            }
        }
    }
}

#[test]
fn the_table_bounds_every_choice() {
    for isa in VECTOR {
        let table = ns_per_code(isa, Match::Table, shape(0, 0));
        for tokens in 0..150 {
            for ranges in 0..20 {
                let s = shape(tokens, ranges);
                let kernel = select_matcher(build(isa), s);
                assert!(ns_per_code(isa, kernel, s) <= table);
            }
        }
    }
}

#[test]
fn more_tokens_and_ranges_cost_no_less() {
    for isa in VECTOR {
        for kernel in [Match::Table, Match::EqOr, Match::Range, Match::NibbleN8K] {
            for tokens in 0..40 {
                for ranges in 0..10 {
                    let here = ns_per_code(isa, kernel, shape(tokens, ranges));
                    assert!(here <= ns_per_code(isa, kernel, shape(tokens + 1, ranges)));
                    assert!(here <= ns_per_code(isa, kernel, shape(tokens, ranges + 1)));
                }
            }
        }
    }
}

#[test]
fn the_planned_resolver_is_the_one_charged() {
    let one = u128::from(ONE);
    for emitted in 1..30u128 {
        for crossed in 1..200u128 {
            let (e, c) = (emitted * one, crossed * one);
            let halvings = log2_1p(c, e);
            let linear = stage_two_ns(Resolve::LinearSeek, one, e, c, halvings);
            let gallop = stage_two_ns(Resolve::GallopSeek, one, e, c, halvings);
            let planned = stage_two_ns(select_seek(e, c, halvings), one, e, c, halvings);
            assert_eq!(planned, if gallop.less_than(linear) { gallop } else { linear });
        }
    }
}

#[test]
fn density_is_hits_over_codes() {
    let d = density(Facts { expected_hits: 3, code_count: 8, row_count: 1 });
    assert_eq!((d.over, d.under), (3, 8));
    let none = density(Facts { expected_hits: 3, code_count: 0, row_count: 1 });
    assert_eq!((none.over, none.under), (0, 1));
}

#[test]
fn the_flag_turns_on_the_share_of_empty_groups() {
    let one = i128::from(ONE);
    assert_eq!(skip_ns_per_code(Isa::Neon, ONE), -26 * one);
    assert_eq!(skip_ns_per_code(Isa::Avx2, 0), 75 * one);
    assert_eq!(skip_ns_per_code(Isa::Scalar, ONE), -26 * one);
    assert_eq!(skip_ns_per_code(Isa::Avx512Bw, ONE), 35 * one);
    assert_eq!(skip_ns_per_code(Isa::Avx512Bw, 0), 35 * one);
    let even = ONE / 101 * 75;
    assert!(skip_ns_per_code(Isa::Neon, even - 100) > 0);
    assert!(skip_ns_per_code(Isa::Neon, even + 100) < 0);
}

#[test]
fn stage_one_takes_the_flag_only_where_it_pays() {
    let b = build(Isa::Avx2);
    let s = shape(1, 0);
    assert_eq!(stage_one_ns_per_code(b, s, 0), 2082 * TICK_PARTS);
    assert_eq!(
        stage_one_ns_per_code(b, s, ONE),
        2082 * TICK_PARTS - 125 * 26 * u128::from(ONE)
    );
    assert_eq!(stage_one_ns_per_code(b, shape(0, 0), ONE), 29300 * TICK_PARTS);
    let wide = build(Isa::Avx512Bw);
    assert_eq!(stage_one_ns_per_code(wide, s, ONE), 2181 * TICK_PARTS);
}

#[test]
fn seeks_cost_what_they_cross() {
    let one = u128::from(ONE);
    let linear = seek_ns_per_row(Resolve::LinearSeek, one, 10 * one, 0);
    let gallop = seek_ns_per_row(Resolve::GallopSeek, one, 10 * one, 3 * ONE);
    assert_eq!((linear.high, linear.low), (0, 808000 * one * one));
    assert_eq!((gallop.high, gallop.low), (0, 1167000 * one * one));
    assert_eq!(select_seek(one, 10 * one, 3 * ONE), Resolve::LinearSeek);
    assert_eq!(select_seek(one, one, ONE), Resolve::GallopSeek);
    assert_eq!(select_seek(7 * one, 70 * one, 3 * ONE), Resolve::LinearSeek);
    // A tie goes to the walk.
    assert_eq!(select_seek(0, 0, 0), Resolve::LinearSeek);
}

#[test]
fn the_walk_wins_close_by_and_the_search_far_apart() {
    let one = u128::from(ONE);
    // `n` halvings search `2^n - 1` rows.
    for n in 0..50u64 {
        let crossed = ((1u128 << n) - 1) * one;
        let expected = if (2..6).contains(&n) {
            Resolve::LinearSeek
        } else {
            Resolve::GallopSeek
        };
        assert_eq!(select_seek(one, crossed, n * ONE), expected, "{n} halvings");
    }
}

#[test]
fn stage_two_adds_words_and_seeks() {
    let one = u128::from(ONE);
    assert_eq!(stage_two_ns(Resolve::LinearSeek, 128 * one, 0, 9 * one, 5), whole(10000));
    assert_eq!(
        stage_two_ns(Resolve::LinearSeek, 128 * one, 3 * one, 9 * one, 5),
        whole(10000 + 3 * 398000 + 9 * 41000)
    );
    assert_eq!(
        stage_two_ns(Resolve::GallopSeek, 128 * one, 3 * one, 9 * one, 2 * ONE),
        whole(10000 + 3 * 2 * 389000)
    );
    // A bit is a sixty-fourth of a word: 78.125 ticks.
    assert_eq!(
        stage_two_ns(Resolve::LinearSeek, one, 0, 0, 0),
        Wide::product(625, ONE_SQUARED / 8)
    );
}

#[test]
fn hit_rows_are_the_rows_that_are_not_missed() {
    assert_eq!(hit_rows(10, 0), 10 * u128::from(ONE));
    assert_eq!(hit_rows(10, ONE), 0);
    assert_eq!(hit_rows(10, ONE / 4), 15 * u128::from(ONE) / 2);
}

fn doubles_resolver(facts: Facts) -> Resolve {
    let rows = facts.row_count as f64;
    let hits = facts.expected_hits as f64;
    let named = rows * (1.0 - (-hits / rows).exp());
    let g = rows / named.max(1.0);
    if 3.89 * (1.0 + g).log2() < 3.98 + 0.41 * g {
        Resolve::GallopSeek
    } else {
        Resolve::LinearSeek
    }
}

#[test]
fn the_resolver_turns_on_hits_per_row() {
    let at = |expected_hits, row_count| {
        select_resolver(
            Facts { expected_hits, code_count: 1000, row_count },
            &exp_neg,
            &log2_1p,
        )
    };
    assert_eq!(at(0, 0), Resolve::GallopSeek);
    assert_eq!(at(5, 0), Resolve::GallopSeek);
    assert_eq!(at(0, 1), Resolve::GallopSeek);
    assert_eq!(at(0, 2), Resolve::LinearSeek);
    assert_eq!(at(0, 41), Resolve::LinearSeek);
    assert_eq!(at(0, 42), Resolve::GallopSeek);
    assert_eq!(at(1000000, 1000), Resolve::GallopSeek);
    assert_eq!(at(1000, 1000), Resolve::LinearSeek);
    assert_eq!(at(10, 1000), Resolve::GallopSeek);
    for rows in 0..120 {
        for hits in 0..120 {
            let facts = Facts { expected_hits: hits, code_count: 1000, row_count: rows };
            assert_eq!(at(hits, rows), doubles_resolver(facts), "{hits} hits, {rows} rows");
        }
    }
    for rows in [1000, 54321, 1 << 20, 1 << 40, usize::MAX] {
        for part in 1..2000 {
            let hits = rows / 1000 * part;
            let facts = Facts { expected_hits: hits, code_count: 1000, row_count: rows };
            assert_eq!(at(hits, rows), doubles_resolver(facts), "{hits} hits, {rows} rows");
        }
    }
}

#[test]
fn the_resolver_ignores_a_reading_above_one() {
    let facts = Facts { expected_hits: 3, code_count: 10, row_count: 40 };
    let over = |_: u128, _: u128| u64::MAX;
    let seen = std::cell::Cell::new((0u128, 0u128));
    let log = |o: u128, u: u128| {
        seen.set((o, u));
        log2_1p(o, u)
    };
    assert_eq!(select_resolver(facts, &over, &log), Resolve::LinearSeek);
    let one = u128::from(ONE);
    assert_eq!(seen.get(), (40 * one, one));
}

#[test]
fn a_plan_has_its_three_parts() {
    let facts = Facts { expected_hits: 0, code_count: 1000, row_count: 100 };
    assert_eq!(
        select(build(Isa::Neon), &cover(2, 0), facts, &exp_neg, &log2_1p),
        Plan { matcher: Match::EqOr, resolver: Resolve::GallopSeek, skip: true }
    );
    let dense = Facts { expected_hits: 900, code_count: 1000, row_count: 100 };
    assert_eq!(
        select(build(Isa::Avx2), &cover(20, 1), dense, &exp_neg, &log2_1p),
        Plan { matcher: Match::NibbleN8K, resolver: Resolve::GallopSeek, skip: false }
    );
    let nothing = Facts { expected_hits: 7, code_count: 0, row_count: 0 };
    assert_eq!(
        select(build(Isa::Avx512Bw), &cover(0, 2), nothing, &exp_neg, &log2_1p),
        Plan { matcher: Match::Range, resolver: Resolve::GallopSeek, skip: false }
    );
    assert_eq!(
        select(build(Isa::Scalar), &cover(3, 2), nothing, &exp_neg, &log2_1p),
        Plan { matcher: Match::Table, resolver: Resolve::GallopSeek, skip: true }
    );
}

#[test]
fn the_flag_breaks_even_near_three_hits_to_ten_groups() {
    let at = |expected_hits| {
        let facts = Facts { expected_hits, code_count: 128000, row_count: 10 };
        select(build(Isa::Neon), &cover(1, 0), facts, &exp_neg, &log2_1p).skip
    };
    assert!(at(294));
    assert!(at(297));
    assert!(!at(298));
    assert!(!at(301));
}

#[test]
fn the_flag_follows_doubles() {
    for hits in 0..400 {
        let facts = Facts { expected_hits: hits, code_count: 100000, row_count: 10 };
        let no_match = (-128.0 * (hits as f64 / 100000.0)).exp();
        let pays = 0.75 - 1.01 * no_match < 0.0;
        let plan = select(build(Isa::Avx2), &cover(1, 0), facts, &exp_neg, &log2_1p);
        assert_eq!(plan.skip, pays, "{hits} hits");
    }
}

fn doubles_scan(per_code: f64, avx512: bool, table: bool, covered: u32, region: Region) -> f64 {
    let codes = region.code_count as f64;
    let rows = region.row_count as f64;
    let covered = f64::from(covered);
    let (reduction, pack) = if avx512 { (0.35, 0.0) } else { (0.75, 1.01) };
    let skip: f64 = (reduction - pack * (-128.0 * (covered / codes)).exp()) / 128.0;
    let one = codes * (per_code + if table { 0.0 } else { skip.min(0.0) });
    let emitted = rows * (1.0 - (-covered / rows).exp());
    let words = codes / 64.0 * (1.0 - (-covered / codes * 512.0).exp());
    let (linear, gallop) = if emitted <= 0.0 {
        (0.0, 0.0)
    } else {
        let g = rows / emitted;
        (emitted * (3.98 + 0.41 * g), emitted * 3.89 * (1.0 + g).log2())
    };
    one + 0.05 * words + f64::min(linear, gallop) + covered * 8.0
}

#[test]
fn a_scan_costs_what_doubles_say() {
    let regions = [(1, 1), (100, 7), (1000, 1000), (4000000, 30000), (1 << 33, 1 << 27)];
    for (isa, tokens, ranges, per_code) in [
        (Isa::Neon, 2, 0, 0.00588 + 0.01380 * 2.0),
        (Isa::Avx2, 20, 1, 0.04343 + 0.02745 * 3.0 + 0.02145),
        (Isa::Avx512Bw, 0, 4, 0.00571 + 0.01475 * 4.0),
        (Isa::Scalar, 5, 5, 0.195),
    ] {
        for (code_count, row_count) in regions {
            for covered in [0u32, 1, 2, 50, 1000, 4000000] {
                let region = Region { code_count, row_count };
                let cost = scan_ns(
                    build(isa),
                    &cover(tokens, ranges),
                    covered,
                    region,
                    &exp_neg,
                    &log2_1p,
                );
                let expected = doubles_scan(
                    per_code,
                    isa == Isa::Avx512Bw,
                    isa == Isa::Scalar,
                    covered,
                    region,
                );
                let got = ticks(cost) / 100000.0;
                assert!(
                    (got - expected).abs() <= 1e-12 * expected,
                    "{isa:?} {code_count} {row_count} {covered}: {got} for {expected}"
                );
            }
        }
    }
}

#[test]
fn nothing_to_scan_costs_nothing() {
    let b = build(Isa::Avx2);
    let some = Region { code_count: 10, row_count: 10 };
    let cost = |c: &ProbeCover, region| scan_ns(b, c, 3, region, &exp_neg, &log2_1p);
    let free = whole(0);
    assert_eq!(cost(&cover(0, 0), some), free);
    assert_eq!(cost(&cover(1, 0), Region { code_count: 0, row_count: 10 }), free);
    assert_eq!(cost(&cover(1, 0), Region { code_count: 10, row_count: 0 }), free);
    assert!(free.less_than(cost(&cover(1, 0), some)));
    assert!(free.less_than(cost(&cover(0, 1), some)));
}

#[test]
fn a_scan_that_hits_nothing_costs_its_first_stage() {
    let b = build(Isa::Avx2);
    let region = Region { code_count: 1600, row_count: 100 };
    let cost = scan_ns(b, &cover(1, 0), 0, region, &exp_neg, &log2_1p);
    assert_eq!(cost, whole(1600 * 2082 - 1600 * 26 * 125 / 16));
    for row_count in [1, 7, 1 << 40] {
        let rows = Region { code_count: 1600, row_count };
        assert_eq!(scan_ns(b, &cover(1, 0), 0, rows, &exp_neg, &log2_1p), cost);
    }
}

#[test]
fn nothing_of_a_scan_is_rounded() {
    let region = Region { code_count: 1, row_count: 1 };
    let cost = scan_ns(build(Isa::Neon), &cover(1, 0), 0, region, &exp_neg, &log2_1p);
    // 1968 ticks less a code's share of the pack, 203.125.
    assert_eq!(cost, Wide::product(14119, ONE_SQUARED / 8));
    assert_eq!(ticks(cost), 1764.875);
}

#[test]
fn each_further_code_covered_costs_its_walk() {
    let region = Region { code_count: 100000, row_count: 700 };
    for isa in VECTOR {
        let cost = |c| scan_ns(build(isa), &cover(3, 1), c, region, &exp_neg, &log2_1p);
        for covered in 0..3000 {
            let walked = cost(covered).plus(whole(800000));
            assert!(!cost(covered + 1).less_than(walked), "{isa:?} {covered}");
            assert!(!cost(covered).less_than(whole(800000 * u128::from(covered))));
        }
    }
}

#[test]
fn only_the_counts_of_a_cover_count() {
    let a = cover(3, 2);
    let other = TokenRange { first: 7, last: 9 };
    let b = ProbeCover::new(vec![9, 9, 60000], vec![other, other]);
    let facts = Facts { expected_hits: 12, code_count: 5000, row_count: 90 };
    let region = Region { code_count: 5000, row_count: 90 };
    for isa in VECTOR {
        let plan = |c| select(build(isa), c, facts, &exp_neg, &log2_1p);
        assert_eq!(plan(&a), plan(&b));
        let cost = |c| scan_ns(build(isa), c, 12, region, &exp_neg, &log2_1p);
        assert_eq!(cost(&a), cost(&b));
    }
}

#[test]
fn each_half_of_a_plan_reads_its_own() {
    let b = build(Isa::Avx2);
    let one = Facts { expected_hits: 2, code_count: 5000, row_count: 90 };
    let other = Facts { expected_hits: 4000, code_count: 5000, row_count: 3 };
    let plan = |c, f| select(b, c, f, &exp_neg, &log2_1p);
    let (small, large) = (cover(1, 0), cover(30, 2));
    assert_eq!(plan(&small, one).matcher, plan(&small, other).matcher);
    assert_ne!(plan(&small, one).matcher, plan(&large, one).matcher);
    assert_eq!(plan(&small, one).resolver, plan(&large, one).resolver);
    assert_eq!(plan(&small, one).skip, plan(&large, one).skip);
    assert_ne!(plan(&small, one).skip, plan(&small, other).skip);
    let coded = Facts { code_count: 77, ..one };
    assert_eq!(
        select_resolver(one, &exp_neg, &log2_1p),
        select_resolver(coded, &exp_neg, &log2_1p)
    );
}

#[test]
fn twice_the_hits_on_twice_the_rows_resolve_alike() {
    for rows in 2..60usize {
        for hits in 2..120usize {
            let at = |k: usize| {
                let facts = Facts {
                    expected_hits: k * hits,
                    code_count: 1000,
                    row_count: k * rows,
                };
                select_resolver(facts, &exp_neg, &log2_1p)
            };
            assert_eq!(at(1), at(2), "{hits} hits, {rows} rows");
        }
    }
}

#[test]
fn the_planner_holds_a_lone_row_to_one() {
    let facts = Facts { expected_hits: 1, code_count: 10, row_count: 1 };
    assert_eq!(select_resolver(facts, &exp_neg, &log2_1p), Resolve::GallopSeek);
    let emitted = hit_rows(1, exp_neg(1, 1));
    let crossed = u128::from(ONE);
    let charged = select_seek(emitted, crossed, log2_1p(crossed, emitted));
    assert_eq!(charged, Resolve::LinearSeek);
}

#[test]
fn hit_rows_follow_the_hits() {
    let mut last = 0;
    for hits in 0..500u128 {
        let named = hit_rows(100, exp_neg(hits, 100));
        assert!(named >= last && named <= 100 * u128::from(ONE));
        assert!(named <= hits * u128::from(ONE) + 100);
        last = named;
    }
}

#[test]
fn the_logarithm_of_a_power_is_its_exponent() {
    for n in 0..60u64 {
        assert_eq!(log2_1p((1u128 << n) - 1, 1).abs_diff(n * ONE), 0, "{n}");
    }
    assert_eq!(exp_neg(0, 7), ONE);
}

#[test]
fn more_rows_take_no_fewer_halvings_in_all() {
    let crossed = 100000 * u128::from(ONE);
    let mut last: u128 = 0;
    for rows in 1..2000u128 {
        let emitted = rows * u128::from(ONE);
        let halvings = u128::from(log2_1p(crossed, emitted));
        assert!(last <= rows * (halvings + 256), "{rows} rows");
        last = rows * halvings;
    }
}

#[test]
fn the_crossover_is_at_two_and_forty_two_rows() {
    let one = u128::from(ONE);
    let at = |crossed: u128| select_seek(one, crossed, log2_1p(crossed, one));
    for tenths in 0..=10u128 {
        assert_eq!(at(tenths * one / 10), Resolve::GallopSeek, "{tenths} tenths");
    }
    for tenths in 20..=410u128 {
        assert_eq!(at(tenths * one / 10), Resolve::LinearSeek, "{tenths} tenths");
    }
    for tenths in 420..2000u128 {
        assert_eq!(at(tenths * one / 10), Resolve::GallopSeek, "{tenths} tenths");
    }
}

#[test]
fn a_scan_adds_both_stages_and_the_walk() {
    let readings = Readings {
        no_match: 0,
        no_row: ONE / 2,
        no_block: ONE / 2,
        halvings: ONE,
    };
    let region = Region { code_count: 1280, row_count: 100 };
    let cost = scan_ticks(build(Isa::Neon), shape(1, 0), 3, region, readings);
    // 10 words, 50 rows emitted at the cheaper gallop, three hits walked.
    assert_eq!(cost, whole(1280 * 1968 + 10 * 5000 + 50 * 389000 + 3 * 800000));
}

#[test]
fn a_scan_of_everything_does_not_overflow() {
    let readings = Readings { no_match: 0, no_row: 0, no_block: 0, halvings: u64::MAX };
    let region = Region { code_count: usize::MAX, row_count: usize::MAX };
    let cost = scan_ticks(build(Isa::Avx2), shape(0, 0), u32::MAX, region, readings);
    let most = usize::MAX as u128;
    let eighths = (29300 + 439000) * 8 * most + 625 * most + 8 * 800000 * u128::from(u32::MAX);
    assert_eq!(cost, Wide::product(eighths, ONE_SQUARED / 8));
}

#[test]
fn a_cover_counts_its_lists() {
    let c = cover(3, 2);
    assert_eq!(Shape::of(&c), shape(3, 2));
    assert_eq!(c.points(), &[0, 1, 2]);
    assert_eq!(c.ranges()[1], TokenRange { first: 1010, last: 1015 });
    assert!(!c.is_empty());
    assert!(!cover(0, 1).is_empty());
    assert!(cover(0, 0).is_empty());
}
