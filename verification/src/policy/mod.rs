//! Which matcher and which resolver, from the needle set and the region, and
//! what the scan they make costs.
//!
//! Stage one is decided by the cover alone: how many codes and ranges it has
//! is what a kernel declines it for. Stage two is decided by the mask it will
//! see, of which only the expected hit count and the row count are known here.
//! The scan's cost adds the two to the alignment walk, so that covers of
//! different shape and selectivity compare on one number.
//!
//! Every fitted constant is a decimal, so a kernel's cost per code is a whole
//! number of ticks, a hundred thousand of them to the nanosecond. Every other
//! cost is a whole number of parts of a tick: nothing is rounded.

use crate::cover::ProbeCover;
use crate::fixed::as_share;
#[allow(unused_imports)]
use crate::fixed::share;
use vstd::prelude::*;

pub mod matcher;
pub mod resolver;
pub mod scan;

use matcher::{select_matcher, skip_ns_per_code, PACK_GROUP};
#[allow(unused_imports)]
use matcher::{batch_count, is_cheapest, planned, skip_cost, MAX_BATCHES};
use resolver::select_resolver;
#[allow(unused_imports)]
use resolver::{answers, resolver_for};

verus! {

/// The instruction set a build has its vector kernels in.
#[derive(Clone, Copy, Debug, PartialEq, Eq, Structural)]
pub enum Isa {
    Neon,
    Avx2,
    Avx512Bw,
    /// None: the byte table is the only kernel.
    Scalar,
}

/// What the planner reads about the build and the machine it runs on.
#[derive(Clone, Copy, Debug, PartialEq, Eq, Structural)]
pub struct Build {
    pub isa: Isa,
    /// Whether the machine can run the vector kernels of `isa`.
    pub simd: bool,
    /// Codes in one block of the mask.
    pub block: usize,
}

impl Build {
    /// Whether there are vector kernels, and the machine can run them.
    pub open spec fn vector(self) -> bool {
        self.isa != Isa::Scalar && self.simd
    }
}

/// What the planner reads about the region. No code values are inspected.
#[derive(Clone, Copy, Debug, PartialEq, Eq, Structural)]
pub struct Facts {
    /// Codes the mask is expected to set a bit for, over the whole region.
    pub expected_hits: usize,
    /// Codes in the region, which with the hits is the density the
    /// pack-skipping flag turns on.
    pub code_count: usize,
    pub row_count: usize,
}

/// What stage one's cost depends on: the cover's counts, with no code values.
/// A planner holds these before it has a cover.
#[derive(Clone, Copy, Debug, PartialEq, Eq, Structural)]
pub struct Shape {
    /// K.
    pub tokens: usize,
    /// R.
    pub ranges: usize,
}

/// The counts of a cover.
pub open spec fn shape_of(cover: &ProbeCover) -> Shape {
    Shape {
        tokens: cover.point_seq().len() as usize,
        ranges: cover.range_seq().len() as usize,
    }
}

impl Shape {
    /// The counts of a cover.
    pub fn of(cover: &ProbeCover) -> (r: Shape)
        ensures
            r == shape_of(cover),
            r.tokens == cover.point_seq().len(),
            r.ranges == cover.range_seq().len(),
    {
        Shape { tokens: cover.points().len(), ranges: cover.ranges().len() }
    }
}

/// Stage one. Every kernel takes the ranges of a cover beside its tokens, so
/// this is the kernel alone. The compare, the range predicate and the batched
/// bitmap run on all three vector sets; the byte table is scalar and runs
/// anywhere.
#[derive(Clone, Copy, Debug, PartialEq, Eq, Structural)]
pub enum Match {
    /// One byte per code of the whole code space. Takes every cover, so it is
    /// what a target with no vector kernel runs, and where the ladder ends on
    /// one that has them.
    Table,
    EqOr,
    Range,
    /// Batches of eight tokens, ORed, up to the number of batches that the
    /// dispatch has an arm for.
    NibbleN8K,
}

/// Stage two.
#[derive(Clone, Copy, Debug, PartialEq, Eq, Structural)]
pub enum Resolve {
    LinearSeek,
    GallopSeek,
}

/// The kernel pair a scan runs.
#[derive(Clone, Copy, Debug, PartialEq, Eq, Structural)]
pub struct Plan {
    pub matcher: Match,
    pub resolver: Resolve,
    /// Whether the matcher tests its lanes before packing them, which is a
    /// constant the kernel is compiled for rather than a branch it takes.
    pub skip: bool,
}

/// The stream a cover would be scanned over.
#[derive(Clone, Copy, Debug, PartialEq, Eq, Structural)]
pub struct Region {
    pub code_count: usize,
    pub row_count: usize,
}

/// One count over another.
#[derive(Clone, Copy, Debug, PartialEq, Eq, Structural)]
pub struct Ratio {
    pub over: u128,
    pub under: u128,
}

/// Bits the mask is expected to set per code over the region.
pub open spec fn hits_per_code(facts: Facts) -> Ratio {
    if facts.code_count == 0 {
        Ratio { over: 0, under: 1 }
    } else {
        Ratio { over: facts.expected_hits as u128, under: facts.code_count as u128 }
    }
}

/// Whether `skip` says that the pack-skipping flag pays, for what `exp_neg`
/// reads at hits per pack group: the share of groups with no match, if the
/// hits fall evenly.
pub open spec fn skips<E: Fn(u128, u128) -> u64>(
    isa: Isa,
    density: Ratio,
    exp_neg: E,
    skip: bool,
) -> bool {
    exists|no_match: u64| #[trigger]
        call_ensures(exp_neg, ((PACK_GROUP * density.over) as u128, density.under), no_match)
            && skip == (skip_cost(isa, share(no_match as int)) < 0)
}

/// Whether `plan` is the plan for a cover over a region: the cheapest kernel
/// that holds the cover, the cheaper resolver, and the pack-skipping flag
/// where it pays.
pub open spec fn selects<E: Fn(u128, u128) -> u64, L: Fn(u128, u128) -> u64>(
    build: Build,
    cover: &ProbeCover,
    facts: Facts,
    exp_neg: E,
    log2_1p: L,
    plan: Plan,
) -> bool {
    &&& plan.matcher == planned(build, shape_of(cover))
    &&& is_cheapest(build, shape_of(cover), plan.matcher)
    &&& resolver_for(facts, exp_neg, log2_1p, plan.resolver)
    &&& skips(build.isa, hits_per_code(facts), exp_neg, plan.skip)
}

/// Bits the mask is expected to set per code over the region, which is what
/// the pack-skipping flag turns on.
pub fn density(facts: Facts) -> (r: Ratio)
    ensures
        r == hits_per_code(facts),
        r.under > 0,
        r.over <= usize::MAX,
{
    match facts.code_count {
        0 => Ratio { over: 0, under: 1 },
        codes => Ratio { over: facts.expected_hits as u128, under: codes as u128 },
    }
}

/// The plan for a cover over a region: the cheapest kernel that holds the
/// cover, the cheaper resolver, and the pack-skipping flag where it pays.
///
/// `exp_neg` reads the exponential of minus a ratio and `log2_1p` the binary
/// logarithm of one more than a ratio, each in parts.
pub fn select<E: Fn(u128, u128) -> u64, L: Fn(u128, u128) -> u64>(
    build: Build,
    cover: &ProbeCover,
    facts: Facts,
    exp_neg: &E,
    log2_1p: &L,
) -> (r: Plan)
    requires
        answers(*exp_neg),
        answers(*log2_1p),
    ensures
        selects(build, cover, facts, *exp_neg, *log2_1p, r),
        r.matcher == Match::NibbleN8K ==> 1 <= batch_count(cover.point_seq().len() as int)
            <= MAX_BATCHES,
{
    let matcher = select_matcher(build, Shape::of(cover));
    let resolver = select_resolver(facts, exp_neg, log2_1p);
    let density = density(facts);
    let no_match: u64 = exp_neg((PACK_GROUP as u128) * density.over, density.under);
    let skip = skip_ns_per_code(build.isa, as_share(no_match)) < 0;
    Plan { matcher, resolver, skip }
}

} // verus!
