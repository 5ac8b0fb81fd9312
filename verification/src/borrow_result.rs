//! Logical claims that a function result borrows from one of its parameters.

use vstd::prelude::*;

verus! {

/// Most guarded alternatives one signature may claim.
pub const MAX_BORROW_RESULT_ALTERNATIVES: usize = 8;

/// Most guard atoms one alternative may test.
pub const MAX_BORROW_RESULT_GUARD_ATOMS: usize = 8;

/// Access granted by a returned borrow.
#[derive(Clone, Copy, Debug, PartialEq, Eq, Hash, Structural)]
pub enum BorrowAccess {
    Shared,
    Mutable,
}

/// One end of a returned subslice.
#[derive(Clone, Copy, Debug, PartialEq, Eq, Hash, Structural)]
pub enum BorrowSliceBound {
    Constant(u64),
    Parameter(u32),
    SourceLength,
}

/// Which part of the source parameter the result designates.
#[derive(Clone, Copy, Debug, PartialEq, Eq, Hash, Structural)]
pub enum BorrowProjection {
    Whole,
    Fixed { offset_bytes: u64, size_bytes: u64, alignment: u64 },
    Slice { start: BorrowSliceBound, end: BorrowSliceBound, stride_bytes: u64, alignment: u64 },
}

/// Result `result` borrows `projection` of parameter `parameter`.
#[derive(Clone, Copy, Debug, PartialEq, Eq, Hash, Structural)]
pub struct BorrowResultRelation {
    pub parameter: u32,
    pub result: u32,
    pub access: BorrowAccess,
    pub projection: BorrowProjection,
}

impl BorrowResultRelation {
    /// The first result borrows the whole of parameter `parameter`.
    pub fn whole(parameter: u32, access: BorrowAccess) -> (r: Self)
        ensures
            r == (BorrowResultRelation { parameter, result: 0, access, projection: BorrowProjection::Whole }),
    {
        BorrowResultRelation { parameter, result: 0, access, projection: BorrowProjection::Whole }
    }
}

/// A test of one boolean parameter.
#[derive(Clone, Copy, Debug, PartialEq, Eq, PartialOrd, Ord, Hash, Structural)]
pub enum BorrowGuardAtom {
    Boolean { parameter: u32, expected: bool },
}

/// `a` comes strictly before `b`: by parameter, then `false` before `true`.
pub open spec fn atom_precedes(a: BorrowGuardAtom, b: BorrowGuardAtom) -> bool {
    match (a, b) {
        (BorrowGuardAtom::Boolean { parameter: p, expected: x }, BorrowGuardAtom::Boolean { parameter: q, expected: y }) => p < q
            || (p == q && !x && y),
    }
}

impl BorrowGuardAtom {
    pub open spec fn spec_parameter(self) -> u32 {
        match self {
            BorrowGuardAtom::Boolean { parameter, .. } => parameter,
        }
    }

    /// This atom comes strictly before `other`.
    pub fn precedes(self, other: Self) -> (r: bool)
        ensures
            r == atom_precedes(self, other),
    {
        match (self, other) {
            (BorrowGuardAtom::Boolean { parameter: p, expected: x }, BorrowGuardAtom::Boolean { parameter: q, expected: y }) => p < q
                || (p == q && !x && y),
        }
    }

    /// The tested parameter.
    pub fn parameter(self) -> (r: u32)
        ensures
            r == self.spec_parameter(),
    {
        match self {
            BorrowGuardAtom::Boolean { parameter, .. } => parameter,
        }
    }
}

/// A borrow relation that holds when every guard atom holds.
#[derive(Clone, Debug, PartialEq, Eq, Hash)]
pub struct BorrowResultAlternative {
    pub guard: Vec<BorrowGuardAtom>,
    pub relation: BorrowResultRelation,
}

/// An alternative as values: its guard atoms and its relation.
pub struct AlternativeView {
    pub guard: Seq<BorrowGuardAtom>,
    pub relation: BorrowResultRelation,
}

impl View for BorrowResultAlternative {
    type V = AlternativeView;

    open spec fn view(&self) -> AlternativeView {
        AlternativeView { guard: self.guard@, relation: self.relation }
    }
}

impl BorrowResultAlternative {
    /// An independent copy.
    pub fn copy(&self) -> (r: Self)
        ensures
            r@ == self@,
    {
        let mut guard: Vec<BorrowGuardAtom> = Vec::new();
        let mut i: usize = 0;
        while i < self.guard.len()
            invariant
                0 <= i <= self.guard@.len(),
                guard@ == self.guard@.take(i as int),
            decreases self.guard.len() - i,
        {
            guard.push(self.guard[i]);
            assert(self.guard@.take(i + 1) == self.guard@.take(i as int).push(self.guard@[i as int]));
            i = i + 1;
        }
        assert(self.guard@.take(self.guard@.len() as int) == self.guard@);
        BorrowResultAlternative { guard, relation: self.relation }
    }
}

} // verus!
