//! A plan as the kernel pair that the two stages run.

use crate::cover::{ProbeCover, Token};
use crate::policy::matcher::batches;
#[allow(unused_imports)]
use crate::policy::matcher::{batch_count, MAX_BATCHES};
use crate::policy::{Match, Plan, Resolve};
use vstd::prelude::*;

verus! {

/// A matcher as it is compiled: with the pack skipped or without, and the
/// bitmap once per number of batches.
#[derive(Clone, Copy, Debug, PartialEq, Eq, Structural)]
pub enum Kernel {
    Table,
    EqOr { skip: bool },
    Range { skip: bool },
    NibbleN8 { batches: usize, skip: bool },
}

/// The compiled matcher that a plan names for a cover.
pub open spec fn kernel(plan: Plan, cover: &ProbeCover) -> Kernel {
    match plan.matcher {
        Match::Table => Kernel::Table,
        Match::EqOr => Kernel::EqOr { skip: plan.skip },
        Match::Range => Kernel::Range { skip: plan.skip },
        Match::NibbleN8K => Kernel::NibbleN8 {
            batches: batch_count(cover.point_seq().len() as int) as usize,
            skip: plan.skip,
        },
    }
}

/// Whether the dispatch has an arm for a plan on a cover: the bitmap is
/// compiled for so many batches and no more, and for no fewer than one.
pub open spec fn has_arm(plan: Plan, cover: &ProbeCover) -> bool {
    plan.matcher == Match::NibbleN8K ==> 1 <= batch_count(cover.point_seq().len() as int)
        <= MAX_BATCHES
}

/// Whether `result` is what `both_stages` gives for a kernel pair and what it
/// is handed.
pub open spec fn ran<
    'a,
    O,
    C,
    U,
    T,
    F: FnOnce(Kernel, Resolve, &'a ProbeCover, &'a [Token], &'a [O], C, U) -> T,
>(
    both_stages: F,
    matcher: Kernel,
    resolver: Resolve,
    cover: &'a ProbeCover,
    codes: &'a [Token],
    row_offsets: &'a [O],
    check: C,
    out: U,
    result: T,
) -> bool {
    call_ensures(both_stages, (matcher, resolver, cover, codes, row_offsets, check, out), result)
}

/// The resolver half of the dispatch: runs `both_stages` with the matcher and
/// the planned resolver.
pub fn with_resolver<
    'a,
    O,
    C,
    U,
    T,
    F: FnOnce(Kernel, Resolve, &'a ProbeCover, &'a [Token], &'a [O], C, U) -> T,
>(
    plan: Plan,
    matcher: Kernel,
    cover: &'a ProbeCover,
    codes: &'a [Token],
    row_offsets: &'a [O],
    check: C,
    out: U,
    both_stages: F,
) -> (r: T)
    requires
        call_requires(
            both_stages,
            (matcher, plan.resolver, cover, codes, row_offsets, check, out),
        ),
    ensures
        ran(both_stages, matcher, plan.resolver, cover, codes, row_offsets, check, out, r),
{
    match plan.resolver {
        Resolve::LinearSeek => both_stages(
            matcher,
            Resolve::LinearSeek,
            cover,
            codes,
            row_offsets,
            check,
            out,
        ),
        Resolve::GallopSeek => both_stages(
            matcher,
            Resolve::GallopSeek,
            cover,
            codes,
            row_offsets,
            check,
            out,
        ),
    }
}

/// The flag half: the same kernel compiled with the pack skipped, `skipping`,
/// and without, `packing`.
pub fn with_skip<
    'a,
    O,
    C,
    U,
    T,
    F: FnOnce(Kernel, Resolve, &'a ProbeCover, &'a [Token], &'a [O], C, U) -> T,
>(
    plan: Plan,
    skipping: Kernel,
    packing: Kernel,
    cover: &'a ProbeCover,
    codes: &'a [Token],
    row_offsets: &'a [O],
    check: C,
    out: U,
    both_stages: F,
) -> (r: T)
    requires
        call_requires(
            both_stages,
            (
                if plan.skip { skipping } else { packing },
                plan.resolver,
                cover,
                codes,
                row_offsets,
                check,
                out,
            ),
        ),
    ensures
        ran(
            both_stages,
            if plan.skip { skipping } else { packing },
            plan.resolver,
            cover,
            codes,
            row_offsets,
            check,
            out,
            r,
        ),
{
    if plan.skip {
        with_resolver(plan, skipping, cover, codes, row_offsets, check, out, both_stages)
    } else {
        with_resolver(plan, packing, cover, codes, row_offsets, check, out, both_stages)
    }
}

/// Runs `both_stages` with the planned kernel pair.
pub fn run<
    'a,
    O,
    C,
    U,
    T,
    F: FnOnce(Kernel, Resolve, &'a ProbeCover, &'a [Token], &'a [O], C, U) -> T,
>(
    plan: Plan,
    cover: &'a ProbeCover,
    codes: &'a [Token],
    row_offsets: &'a [O],
    check: C,
    out: U,
    both_stages: F,
) -> (r: T)
    requires
        has_arm(plan, cover),
        call_requires(
            both_stages,
            (kernel(plan, cover), plan.resolver, cover, codes, row_offsets, check, out),
        ),
    ensures
        ran(
            both_stages,
            kernel(plan, cover),
            plan.resolver,
            cover,
            codes,
            row_offsets,
            check,
            out,
            r,
        ),
{
    match plan.matcher {
        Match::Table => with_resolver(
            plan,
            Kernel::Table,
            cover,
            codes,
            row_offsets,
            check,
            out,
            both_stages,
        ),
        Match::EqOr => with_skip(
            plan,
            Kernel::EqOr { skip: true },
            Kernel::EqOr { skip: false },
            cover,
            codes,
            row_offsets,
            check,
            out,
            both_stages,
        ),
        Match::Range => with_skip(
            plan,
            Kernel::Range { skip: true },
            Kernel::Range { skip: false },
            cover,
            codes,
            row_offsets,
            check,
            out,
            both_stages,
        ),
        Match::NibbleN8K => {
            let n: usize = batches(cover.points().len());
            with_skip(
                plan,
                Kernel::NibbleN8 { batches: n, skip: true },
                Kernel::NibbleN8 { batches: n, skip: false },
                cover,
                codes,
                row_offsets,
                check,
                out,
                both_stages,
            )
        },
    }
}

} // verus!
