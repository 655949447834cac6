//! What a scan looks for: single codes, and runs of codes.

use vstd::prelude::*;

verus! {

/// One code of the stream.
pub type Token = u16;

/// The codes from `first` to `last`.
#[derive(Clone, Copy, Debug, PartialEq, Eq, Structural)]
pub struct TokenRange {
    pub first: Token,
    pub last: Token,
}

/// The codes a needle set is looked for by.
#[derive(Debug)]
pub struct ProbeCover {
    points: Vec<Token>,
    ranges: Vec<TokenRange>,
}

impl ProbeCover {
    /// The single codes, in the order they were given.
    pub closed spec fn point_seq(&self) -> Seq<Token> {
        self.points@
    }

    /// The ranges, in the order they were given.
    pub closed spec fn range_seq(&self) -> Seq<TokenRange> {
        self.ranges@
    }

    /// A cover of these codes and these ranges.
    pub fn new(points: Vec<Token>, ranges: Vec<TokenRange>) -> (r: ProbeCover)
        ensures
            r.point_seq() == points@,
            r.range_seq() == ranges@,
    {
        ProbeCover { points, ranges }
    }

    /// The single codes.
    pub fn points(&self) -> (r: &[Token])
        ensures
            r@ == self.point_seq(),
    {
        self.points.as_slice()
    }

    /// The ranges of codes.
    pub fn ranges(&self) -> (r: &[TokenRange])
        ensures
            r@ == self.range_seq(),
    {
        self.ranges.as_slice()
    }

    /// Whether nothing is covered, which proves that no row matches.
    pub fn is_empty(&self) -> (r: bool)
        ensures
            r == (self.point_seq().len() == 0 && self.range_seq().len() == 0),
    {
        self.points.len() == 0 && self.ranges.len() == 0
    }
}

} // verus!
