//! Dense table identifiers and small value types shared by every VIR table.

use vstd::prelude::*;


verus! {

/// Half-open byte range in one source file.
#[derive(Clone, Copy, Debug, PartialEq, Eq, PartialOrd, Ord, Hash, Structural)]
pub struct ByteSpan {
    start: usize,
    end: usize,
}

impl ByteSpan {
    pub closed spec fn spec_start(self) -> usize {
        self.start
    }

    pub closed spec fn spec_end(self) -> usize {
        self.end
    }

    /// Builds a span; fails exactly when `end` precedes `start`.
    pub fn new(start: usize, end: usize) -> (span: Option<ByteSpan>)
        ensures
            span is Some <==> start <= end,
            span matches Some(s) ==> s.spec_start() == start && s.spec_end() == end,
    {
        if start <= end {
            Some(ByteSpan { start, end })
        } else {
            None
        }
    }

    /// The empty span at the beginning of a source.
    pub fn empty() -> (span: ByteSpan)
        ensures
            span.spec_start() == 0 && span.spec_end() == 0,
    {
        ByteSpan { start: 0, end: 0 }
    }

    #[verifier::when_used_as_spec(spec_start)]
    pub fn start(self) -> (start: usize)
        ensures
            start == self.spec_start(),
    {
        self.start
    }

    #[verifier::when_used_as_spec(spec_end)]
    pub fn end(self) -> (end: usize)
        ensures
            end == self.spec_end(),
    {
        self.end
    }

    pub fn is_empty(self) -> (empty: bool)
        ensures
            empty == (self.spec_start() == self.spec_end()),
    {
        self.start == self.end
    }
}

/// Dense index of one memory type.
#[derive(Clone, Copy, Debug, PartialEq, Eq, PartialOrd, Ord, Hash, Structural)]
pub struct VirTypeId(pub u32);

impl VirTypeId {
    pub fn new(raw: u32) -> (id: Self)
        ensures
            id.0 == raw,
    {
        VirTypeId(raw)
    }

    pub fn get(self) -> (raw: u32)
        ensures
            raw == self.0,
    {
        self.0
    }

    pub fn index(self) -> (index: usize)
        ensures
            index == self.0,
    {
        self.0 as usize
    }
}

/// Dense index of one target layout.
#[derive(Clone, Copy, Debug, PartialEq, Eq, PartialOrd, Ord, Hash, Structural)]
pub struct VirLayoutId(pub u32);

impl VirLayoutId {
    pub fn new(raw: u32) -> (id: Self)
        ensures
            id.0 == raw,
    {
        VirLayoutId(raw)
    }

    pub fn get(self) -> (raw: u32)
        ensures
            raw == self.0,
    {
        self.0
    }

    pub fn index(self) -> (index: usize)
        ensures
            index == self.0,
    {
        self.0 as usize
    }
}

/// Dense index of one struct or variant field.
#[derive(Clone, Copy, Debug, PartialEq, Eq, PartialOrd, Ord, Hash, Structural)]
pub struct VirFieldId(pub u32);

impl VirFieldId {
    pub fn new(raw: u32) -> (id: Self)
        ensures
            id.0 == raw,
    {
        VirFieldId(raw)
    }

    pub fn get(self) -> (raw: u32)
        ensures
            raw == self.0,
    {
        self.0
    }

    pub fn index(self) -> (index: usize)
        ensures
            index == self.0,
    {
        self.0 as usize
    }
}

/// Dense index of one enum variant.
#[derive(Clone, Copy, Debug, PartialEq, Eq, PartialOrd, Ord, Hash, Structural)]
pub struct VirVariantId(pub u32);

impl VirVariantId {
    pub fn new(raw: u32) -> (id: Self)
        ensures
            id.0 == raw,
    {
        VirVariantId(raw)
    }

    pub fn get(self) -> (raw: u32)
        ensures
            raw == self.0,
    {
        self.0
    }

    pub fn index(self) -> (index: usize)
        ensures
            index == self.0,
    {
        self.0 as usize
    }
}

/// Dense index of one runtime function.
#[derive(Clone, Copy, Debug, PartialEq, Eq, PartialOrd, Ord, Hash, Structural)]
pub struct VirFunctionId(pub u32);

impl VirFunctionId {
    pub fn new(raw: u32) -> (id: Self)
        ensures
            id.0 == raw,
    {
        VirFunctionId(raw)
    }

    pub fn get(self) -> (raw: u32)
        ensures
            raw == self.0,
    {
        self.0
    }
}

/// Identifier of one basic block inside a function.
#[derive(Clone, Copy, Debug, PartialEq, Eq, PartialOrd, Ord, Hash, Structural)]
pub struct VirBlockId(pub u32);

impl VirBlockId {
    pub fn new(raw: u32) -> (id: Self)
        ensures
            id.0 == raw,
    {
        VirBlockId(raw)
    }

    pub fn get(self) -> (raw: u32)
        ensures
            raw == self.0,
    {
        self.0
    }
}

/// SSA value identifier inside one function.
#[derive(Clone, Copy, Debug, PartialEq, Eq, PartialOrd, Ord, Hash, Structural)]
pub struct VirValueId(pub u32);

impl VirValueId {
    pub fn new(raw: u32) -> (id: Self)
        ensures
            id.0 == raw,
    {
        VirValueId(raw)
    }

    pub fn get(self) -> (raw: u32)
        ensures
            raw == self.0,
    {
        self.0
    }
}

/// Identifier of one loan inside one function invocation.
#[derive(Clone, Copy, Debug, PartialEq, Eq, PartialOrd, Ord, Hash, Structural)]
pub struct VirLoanId(pub u32);

impl VirLoanId {
    pub fn new(raw: u32) -> (id: Self)
        ensures
            id.0 == raw,
    {
        VirLoanId(raw)
    }

    pub fn get(self) -> (raw: u32)
        ensures
            raw == self.0,
    {
        self.0
    }
}

/// Dense index of one source-map origin.
#[derive(Clone, Copy, Debug, PartialEq, Eq, PartialOrd, Ord, Hash, Structural)]
pub struct VirOriginId(pub u32);

impl VirOriginId {
    pub fn new(raw: u32) -> (id: Self)
        ensures
            id.0 == raw,
    {
        VirOriginId(raw)
    }

    pub fn get(self) -> (raw: u32)
        ensures
            raw == self.0,
    {
        self.0
    }
}

/// Dense index of one source file.
#[derive(Clone, Copy, Debug, PartialEq, Eq, PartialOrd, Ord, Hash, Structural)]
pub struct VirSourceId(pub u32);

impl VirSourceId {
    pub fn new(raw: u32) -> (id: Self)
        ensures
            id.0 == raw,
    {
        VirSourceId(raw)
    }

    pub fn get(self) -> (raw: u32)
        ensures
            raw == self.0,
    {
        self.0
    }
}

/// Identifier of one allocation region.
#[derive(Clone, Copy, Debug, PartialEq, Eq, PartialOrd, Ord, Hash, Structural)]
pub struct VirRegionId(pub u32);

impl VirRegionId {
    pub fn new(raw: u32) -> (id: Self)
        ensures
            id.0 == raw,
    {
        VirRegionId(raw)
    }

    pub fn get(self) -> (raw: u32)
        ensures
            raw == self.0,
    {
        self.0
    }
}

/// Dense index of one borrow region.
#[derive(Clone, Copy, Debug, PartialEq, Eq, PartialOrd, Ord, Hash, Structural)]
pub struct VirBorrowRegionId(pub u32);

impl VirBorrowRegionId {
    pub fn new(raw: u32) -> (id: Self)
        ensures
            id.0 == raw,
    {
        VirBorrowRegionId(raw)
    }

    pub fn get(self) -> (raw: u32)
        ensures
            raw == self.0,
    {
        self.0
    }
}

/// Dense index of one borrow-region inclusion constraint.
#[derive(Clone, Copy, Debug, PartialEq, Eq, PartialOrd, Ord, Hash, Structural)]
pub struct VirBorrowRegionConstraintId(pub u32);

impl VirBorrowRegionConstraintId {
    pub fn new(raw: u32) -> (id: Self)
        ensures
            id.0 == raw,
    {
        VirBorrowRegionConstraintId(raw)
    }

    pub fn get(self) -> (raw: u32)
        ensures
            raw == self.0,
    {
        self.0
    }
}

/// Dense index of one function contract.
#[derive(Clone, Copy, Debug, PartialEq, Eq, PartialOrd, Ord, Hash, Structural)]
pub struct VirContractId(pub u32);

impl VirContractId {
    pub fn new(raw: u32) -> (id: Self)
        ensures
            id.0 == raw,
    {
        VirContractId(raw)
    }

    pub fn get(self) -> (raw: u32)
        ensures
            raw == self.0,
    {
        self.0
    }
}

/// Format revision of one serialized VIR unit.
#[derive(Clone, Copy, Debug, PartialEq, Eq, PartialOrd, Ord, Hash, Structural)]
pub enum VirUnitVersion {
    V1,
    V2,
    V3,
    V4,
    V5,
    V6,
    V7,
    V8,
    V9,
    V10,
    V11,
    V12,
    V13,
    V14,
    V15,
    V16,
    V17,
    V18,
    V19,
    V20,
    V21,
}

/// Whether values of a type may be duplicated.
#[derive(Clone, Copy, Debug, PartialEq, Eq, Hash, Structural)]
pub enum ValueCapability {
    Copy,
    MoveOnly,
}

/// Cleanup obligation of a type, ordered from weakest to strongest.
#[derive(Clone, Copy, Debug, PartialEq, Eq, Hash, Structural)]
pub enum DropCapability {
    TrivialDrop,
    BuiltinDrop,
    UserDropGated,
}

/// Whether a type has a statically known size.
#[derive(Clone, Copy, Debug, PartialEq, Eq, Hash, Structural)]
pub enum SizeCapability {
    Sized,
    Unsized,
}

/// Canonical capability summary of one memory type.
#[derive(Clone, Copy, Debug, PartialEq, Eq, Hash, Structural)]
pub struct TypeCapabilities {
    pub value: ValueCapability,
    pub drop: DropCapability,
    pub contains_resource: bool,
    pub size: SizeCapability,
}

/// Rank of a drop capability in its declared order.
pub open spec fn drop_rank(drop: DropCapability) -> nat {
    match drop {
        DropCapability::TrivialDrop => 0,
        DropCapability::BuiltinDrop => 1,
        DropCapability::UserDropGated => 2,
    }
}

impl DropCapability {
    /// The stronger of two drop obligations.
    pub fn max(self, other: DropCapability) -> (r: DropCapability)
        ensures
            drop_rank(r) == if drop_rank(self) >= drop_rank(other) { drop_rank(self) } else { drop_rank(other) },
            r == self || r == other,
    {
        match (self, other) {
            (DropCapability::UserDropGated, _) | (_, DropCapability::TrivialDrop) => self,
            (DropCapability::BuiltinDrop, DropCapability::BuiltinDrop) => self,
            _ => other,
        }
    }
}

impl TypeCapabilities {
    pub open spec fn spec_pointer_free_trivial(self) -> bool {
        &&& self.value == ValueCapability::Copy
        &&& self.drop == DropCapability::TrivialDrop
        &&& !self.contains_resource
        &&& self.size == SizeCapability::Sized
    }

    /// Plain bytes: copyable, trivially dropped, resource-free and sized.
    #[verifier::when_used_as_spec(spec_pointer_free_trivial)]
    pub fn pointer_free_trivial(self) -> (r: bool)
        ensures
            r == self.spec_pointer_free_trivial(),
    {
        self.value == ValueCapability::Copy && self.drop == DropCapability::TrivialDrop
            && !self.contains_resource && self.size == SizeCapability::Sized
    }
}

} // verus!
