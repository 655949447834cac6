//! Laws of the dispatch.

#[allow(unused_imports)]
use super::stage_one::a_kernel_is_always_found;
#[allow(unused_imports)]
use crate::cover::{ProbeCover, Token};
#[allow(unused_imports)]
use crate::dispatch::{has_arm, kernel, ran, Kernel};
#[allow(unused_imports)]
use crate::policy::matcher::{holds, planned, MAX_BATCHES};
#[allow(unused_imports)]
use crate::policy::{shape_of, Build, Match, Plan, Resolve};
use vstd::prelude::*;

verus! {

/// Every plan made for a cover has an arm in the dispatch, and the kernel that
/// runs is one that holds the cover.
pub proof fn a_planned_scan_dispatches(build: Build, cover: &ProbeCover, plan: Plan)
    requires
        cover.point_seq().len() <= usize::MAX,
        plan.matcher == planned(build, shape_of(cover)),
    ensures
        has_arm(plan, cover),
        holds(build, plan.matcher, shape_of(cover)),
        kernel(plan, cover) matches Kernel::NibbleN8 { batches, .. } ==> 1 <= batches
            <= MAX_BATCHES,
{
    a_kernel_is_always_found(build, shape_of(cover));
}

/// The byte table is compiled once, so the flag is nothing to it; every other
/// kernel is compiled with the flag the plan sets.
pub proof fn the_kernel_carries_the_flag(plan: Plan, cover: &ProbeCover)
    ensures
        kernel(plan, cover) matches Kernel::EqOr { skip } ==> skip == plan.skip,
        kernel(plan, cover) matches Kernel::Range { skip } ==> skip == plan.skip,
        kernel(plan, cover) matches Kernel::NibbleN8 { skip, .. } ==> skip == plan.skip,
        kernel(plan, cover) == Kernel::Table <==> plan.matcher == Match::Table,
{
}

/// The bitmap has an arm for one code to a hundred and twenty-eight, whatever
/// the ranges, and every other kernel for every cover.
pub proof fn the_arms_take_up_to_sixteen_batches(plan: Plan, cover: &ProbeCover)
    ensures
        plan.matcher != Match::NibbleN8K ==> has_arm(plan, cover),
        plan.matcher == Match::NibbleN8K ==> (has_arm(plan, cover) <==> 1
            <= cover.point_seq().len() <= 128),
{
}

/// The batches of the bitmap that runs hold every code of the cover and none of
/// them is empty, whatever the ranges.
pub proof fn the_bitmap_holds_every_code(plan: Plan, cover: &ProbeCover)
    requires
        plan.matcher == Match::NibbleN8K,
        has_arm(plan, cover),
    ensures
        kernel(plan, cover) matches Kernel::NibbleN8 { batches, skip } && 8 * (batches - 1)
            < cover.point_seq().len() <= 8 * batches && skip == plan.skip,
{
}

/// Every other plan runs the kernel of its own name, whatever the cover, with
/// the flag it sets where the kernel has one.
pub proof fn the_kernel_has_the_name_of_the_plan(plan: Plan, cover: &ProbeCover)
    ensures
        plan.matcher == Match::Table ==> kernel(plan, cover) == Kernel::Table,
        plan.matcher == Match::EqOr ==> kernel(plan, cover) == (Kernel::EqOr { skip: plan.skip }),
        plan.matcher == Match::Range ==> kernel(plan, cover) == (Kernel::Range { skip: plan.skip }),
{
}

/// The kernel that runs turns on how many codes the cover has and on nothing
/// else of it.
pub proof fn only_the_code_count_tells_kernels_apart(
    plan: Plan,
    cover: &ProbeCover,
    other: &ProbeCover,
)
    requires
        cover.point_seq().len() == other.point_seq().len(),
    ensures
        kernel(plan, cover) == kernel(plan, other),
        has_arm(plan, cover) == has_arm(plan, other),
{
}

/// What is run is one call of `both_stages`, which gets the kernel pair, the
/// cover, the codes, the row offsets, the check and what to write to as they
/// are.
pub proof fn both_stages_get_what_they_are_handed<
    'a,
    O,
    C,
    U,
    T,
    F: FnOnce(Kernel, Resolve, &'a ProbeCover, &'a [Token], &'a [O], C, U) -> T,
>(
    both_stages: F,
    matcher: Kernel,
    resolver: Resolve,
    cover: &'a ProbeCover,
    codes: &'a [Token],
    row_offsets: &'a [O],
    check: C,
    out: U,
    result: T,
)
    ensures
        ran(both_stages, matcher, resolver, cover, codes, row_offsets, check, out, result)
            <==> both_stages.ensures(
            (matcher, resolver, cover, codes, row_offsets, check, out),
            result,
        ),
{
}

/// Whether `both_stages` leaves the same with either kernel, wherever what it
/// is handed to write to starts the same. `same_start` and `same_end` say what
/// that is of two things written to, and of the results beside them.
pub open spec fn leaves_alike<
    'a,
    O,
    C,
    U,
    T,
    F: FnOnce(Kernel, Resolve, &'a ProbeCover, &'a [Token], &'a [O], C, U) -> T,
>(
    both_stages: F,
    one: Kernel,
    other: Kernel,
    resolver: Resolve,
    cover: &'a ProbeCover,
    codes: &'a [Token],
    row_offsets: &'a [O],
    check: C,
    same_start: spec_fn(U, U) -> bool,
    same_end: spec_fn(U, T, U, T) -> bool,
) -> bool {
    forall|out: U, out2: U, r: T, r2: T|
        #[trigger] ran(
            both_stages,
            one,
            resolver,
            cover,
            codes,
            row_offsets,
            check,
            out,
            r,
        ) && #[trigger] ran(
            both_stages,
            other,
            resolver,
            cover,
            codes,
            row_offsets,
            check,
            out2,
            r2,
        ) && same_start(out, out2) ==> same_end(out, r, out2, r2)
}

/// The flag never changes the rows: two plans that differ in it alone leave
/// the same, wherever the one matcher compiled both ways does. That is asked of
/// no other kernel, and of none at all where the plans name the byte table.
pub proof fn the_flag_never_changes_the_rows<
    'a,
    O,
    C,
    U,
    T,
    F: FnOnce(Kernel, Resolve, &'a ProbeCover, &'a [Token], &'a [O], C, U) -> T,
>(
    p: Plan,
    q: Plan,
    cover: &'a ProbeCover,
    codes: &'a [Token],
    row_offsets: &'a [O],
    check: C,
    out: U,
    out2: U,
    both_stages: F,
    r: T,
    r2: T,
    same_start: spec_fn(U, U) -> bool,
    same_end: spec_fn(U, T, U, T) -> bool,
)
    requires
        p.matcher == q.matcher,
        p.resolver == q.resolver,
        has_arm(p, cover),
        leaves_alike(
            both_stages,
            kernel(p, cover),
            kernel(q, cover),
            p.resolver,
            cover,
            codes,
            row_offsets,
            check,
            same_start,
            same_end,
        ),
        same_start(out, out2),
        ran(both_stages, kernel(p, cover), p.resolver, cover, codes, row_offsets, check, out, r),
        ran(both_stages, kernel(q, cover), q.resolver, cover, codes, row_offsets, check, out2, r2),
    ensures
        same_end(out, r, out2, r2),
        has_arm(q, cover),
        p.matcher == Match::Table ==> kernel(p, cover) == kernel(q, cover),
{
}

/// The resolver half reads the plan's resolver alone: two plans that share it
/// leave the same with the same matcher, whatever else they hold, where
/// `both_stages` leaves the same when it is called the same.
pub proof fn the_resolver_half_reads_the_resolver_alone<
    'a,
    O,
    C,
    U,
    T,
    F: FnOnce(Kernel, Resolve, &'a ProbeCover, &'a [Token], &'a [O], C, U) -> T,
>(
    p: Plan,
    q: Plan,
    matcher: Kernel,
    cover: &'a ProbeCover,
    codes: &'a [Token],
    row_offsets: &'a [O],
    check: C,
    out: U,
    out2: U,
    both_stages: F,
    r: T,
    r2: T,
    same_start: spec_fn(U, U) -> bool,
    same_end: spec_fn(U, T, U, T) -> bool,
)
    requires
        p.resolver == q.resolver,
        leaves_alike(
            both_stages,
            matcher,
            matcher,
            p.resolver,
            cover,
            codes,
            row_offsets,
            check,
            same_start,
            same_end,
        ),
        same_start(out, out2),
        ran(both_stages, matcher, p.resolver, cover, codes, row_offsets, check, out, r),
        ran(both_stages, matcher, q.resolver, cover, codes, row_offsets, check, out2, r2),
    ensures
        same_end(out, r, out2, r2),
{
}

} // verus!
