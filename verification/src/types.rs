use vstd::prelude::*;

verus! {

/// How precisely a node's value is known at compile time.
///
/// The variants form a small bounded lattice: `Top` is compile-time-unknown
/// but not yet proven non-constant (the optimistic default), `Int` is a
/// literal integer constant, and `Bot` is provably not a compile-time
/// constant (the most conservative fact). `Simple` is a placeholder for
/// non-integer primitive types; its constant-ness is deliberately left
/// unresolved, and every function here excludes it by precondition rather
/// than silently picking a polarity.
#[derive(Debug, Copy, Clone, PartialEq, Eq, Structural)]
pub enum Type {
    Bot,
    Top,
    Simple,
    Int(i128),
}

/// A fault detected while folding integer arithmetic at compile time:
/// the result does not fit in 128-bit two's-complement, or a division by
/// zero. Both are reported to the caller instead of aborting.
#[derive(Debug, Copy, Clone, PartialEq, Eq, Structural)]
pub enum ErrorKind {
    Overflow,
    DivideByZero,
}

/// Whether a lattice value drives constant folding: exactly `Top` and
/// `Int(_)` do; `Bot` does not. `Simple` never reaches this question
/// (callers exclude it), so the value given for it here carries no claim.
pub open spec fn spec_is_constant(t: Type) -> bool {
    t is Top || t is Int
}

impl Type {
    /// True when this lattice value counts as a constant for folding.
    ///
    /// `Simple`'s constant-ness is an open question, so it is excluded by
    /// precondition instead of being answered either way.
    pub fn is_constant(&self) -> (r: bool)
        requires
            !(*self is Simple),
        ensures
            r == spec_is_constant(*self),
    {
        match self {
            Type::Bot => false,
            Type::Top => true,
            Type::Int(_) => true,
            Type::Simple => unreached(),
        }
    }
}

} // verus!
