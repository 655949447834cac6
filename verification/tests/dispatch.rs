use scan_plan::cover::{ProbeCover, Token};
use scan_plan::dispatch::{run, with_resolver, with_skip, Kernel};
use scan_plan::policy::{select, Build, Facts, Isa, Match, Plan, Resolve};

fn cover(tokens: usize) -> ProbeCover {
    ProbeCover::new((0..tokens).map(|i| i as u16).collect(), vec![])
}

/// Runs a plan and says which pair the stages were run with.
fn pair(plan: Plan, cover: &ProbeCover) -> (Kernel, Resolve) {
    run(
        plan,
        cover,
        &[],
        &[0u32],
        (),
        (),
        |kernel, resolver, _: &ProbeCover, _: &[Token], _: &[u32], _, _| (kernel, resolver),
    )
}

#[test]
fn every_plan_gets_its_pair() {
    let c = cover(9);
    for skip in [true, false] {
        for resolver in [Resolve::LinearSeek, Resolve::GallopSeek] {
            let at = |matcher| pair(Plan { matcher, resolver, skip }, &c);
            assert_eq!(at(Match::Table), (Kernel::Table, resolver));
            assert_eq!(at(Match::EqOr), (Kernel::EqOr { skip }, resolver));
            assert_eq!(at(Match::Range), (Kernel::Range { skip }, resolver));
            assert_eq!(at(Match::NibbleN8K), (Kernel::NibbleN8 { batches: 2, skip }, resolver));
        }
    }
}

#[test]
fn there_is_an_arm_for_every_batch_count() {
    for tokens in 1..=128usize {
        let plan = Plan {
            matcher: Match::NibbleN8K,
            resolver: Resolve::LinearSeek,
            skip: false,
        };
        let batches = tokens.div_ceil(8);
        assert_eq!(
            pair(plan, &cover(tokens)).0,
            Kernel::NibbleN8 { batches, skip: false }
        );
    }
}

#[test]
fn the_stages_get_what_the_dispatch_got() {
    let c = cover(1);
    let codes: Vec<Token> = vec![4, 5, 6];
    let offsets: Vec<u64> = vec![0, 1, 3];
    let mut out: Vec<usize> = vec![7];
    let plan = Plan { matcher: Match::EqOr, resolver: Resolve::GallopSeek, skip: true };
    let total = run(
        plan,
        &c,
        &codes,
        &offsets,
        "check",
        &mut out,
        |kernel, resolver, cover: &ProbeCover, codes: &[Token], offsets: &[u64], check, out: &mut Vec<usize>| {
            assert_eq!(kernel, Kernel::EqOr { skip: true });
            assert_eq!(resolver, Resolve::GallopSeek);
            assert_eq!(check, "check");
            out.push(cover.points().len());
            codes.len() + offsets.len()
        },
    );
    assert_eq!(total, 6);
    assert_eq!(out, vec![7, 1]);
}

#[test]
fn the_halves_choose_by_flag_and_resolver() {
    let c = cover(1);
    let yes = Kernel::NibbleN8 { batches: 1, skip: true };
    let no = Kernel::NibbleN8 { batches: 1, skip: false };
    for skip in [true, false] {
        for resolver in [Resolve::LinearSeek, Resolve::GallopSeek] {
            let plan = Plan { matcher: Match::NibbleN8K, resolver, skip };
            let got = with_skip(
                plan,
                yes,
                no,
                &c,
                &[],
                &[0u32],
                (),
                (),
                |kernel, resolver, _: &ProbeCover, _: &[Token], _: &[u32], _, _| (kernel, resolver),
            );
            assert_eq!(got, (if skip { yes } else { no }, resolver));
            let got = with_resolver(
                plan,
                Kernel::Table,
                &c,
                &[],
                &[0u32],
                (),
                (),
                |kernel, resolver, _: &ProbeCover, _: &[Token], _: &[u32], _, _| (kernel, resolver),
            );
            assert_eq!(got, (Kernel::Table, resolver));
        }
    }
}

#[test]
fn a_planned_scan_always_dispatches() {
    let constant = |_: u128, under: u128| {
        assert!(under > 0);
        1u64 << 52
    };
    for isa in [Isa::Neon, Isa::Avx2, Isa::Avx512Bw, Isa::Scalar] {
        let build = Build { isa, simd: true, block: 512 };
        for tokens in 0..200 {
            let c = cover(tokens);
            let facts = Facts { expected_hits: 1, code_count: 50, row_count: tokens };
            let plan = select(build, &c, facts, &constant, &constant);
            if let Kernel::NibbleN8 { batches, .. } = pair(plan, &c).0 {
                assert!((1..=10).contains(&batches));
            }
        }
    }
}

/// Stages that mark the rows whose code a cover names, whatever the kernel.
fn rows_of(plan: Plan, cover: &ProbeCover) -> Vec<usize> {
    let codes: Vec<Token> = vec![3, 90, 2, 2, 91, 0];
    let offsets: Vec<u32> = (0..7).collect();
    let mut out: Vec<usize> = vec![];
    run(
        plan,
        cover,
        &codes,
        &offsets,
        (),
        &mut out,
        |_, _, cover: &ProbeCover, codes: &[Token], _: &[u32], _, out: &mut Vec<usize>| {
            out.extend((0..codes.len()).filter(|&i| cover.points().contains(&codes[i])));
        },
    );
    out
}

#[test]
fn the_flag_and_the_rest_of_the_plan_leave_the_rows() {
    let c = cover(5);
    for matcher in [Match::Table, Match::EqOr, Match::Range, Match::NibbleN8K] {
        let at = |skip| rows_of(Plan { matcher, resolver: Resolve::LinearSeek, skip }, &c);
        assert_eq!(at(true), vec![0, 2, 3, 5]);
        assert_eq!(at(true), at(false));
    }
}
