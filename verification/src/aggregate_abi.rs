//! Canonical logical-to-physical ABI classification for aggregate values.

use std::collections::BTreeSet;

use vstd::prelude::*;

use crate::borrow_result::{
    AlternativeView, BorrowAccess, BorrowGuardAtom, BorrowProjection, BorrowResultAlternative, BorrowResultRelation,
    BorrowSliceBound, MAX_BORROW_RESULT_ALTERNATIVES, MAX_BORROW_RESULT_GUARD_ATOMS, atom_precedes,
};
use crate::ids::{DropCapability, SizeCapability, TypeCapabilities, ValueCapability, VirFunctionId};
use crate::memory::{
    VirIntegerType, VirMemoryAccess, VirMemorySchema, VirMemoryTypeKind, VirMutability, VirPointerKind, is_power_of_two,
    spec_is_power_of_two,
};
use crate::object_shape::{VirObjectLeaf, VirObjectShape, is_scalar_kind, shape_matches};
use crate::types::{VirSignature, VirType};

verus! {

broadcast use {vstd::laws_cmp::group_laws_cmp, vstd::std_specs::btree::group_btree_axioms};

/// Largest object that may cross a function boundary as scalar leaves.
pub const VIR_AGGREGATE_ABI_MAX_DIRECT_BYTES: u64 = 16;

/// Largest canonical leaf count admitted by direct aggregate scalarization.
pub const VIR_AGGREGATE_ABI_MAX_DIRECT_LEAVES: usize = 2;

/// One scalar leaf retained in canonical byte/path order.
#[derive(Clone, Copy, Debug, PartialEq, Eq, Hash, Structural)]
pub struct VirAbiLeaf {
    access: VirMemoryAccess,
    offset_bytes: u64,
    ty: VirType,
}

impl VirAbiLeaf {
    pub closed spec fn spec_access(self) -> VirMemoryAccess {
        self.access
    }

    pub closed spec fn spec_offset_bytes(self) -> u64 {
        self.offset_bytes
    }

    pub closed spec fn spec_ty(self) -> VirType {
        self.ty
    }

    pub fn access(self) -> (r: VirMemoryAccess)
        ensures
            r == self.spec_access(),
    {
        self.access
    }

    pub fn offset_bytes(self) -> (r: u64)
        ensures
            r == self.spec_offset_bytes(),
    {
        self.offset_bytes
    }

    pub fn ty(self) -> (r: VirType)
        ensures
            r == self.spec_ty(),
    {
        self.ty
    }
}

/// Canonical representation selected for one logical source value.
#[derive(Clone, Debug, PartialEq, Eq, Hash)]
pub enum VirAbiValue {
    /// Compatibility representation for hand-authored scalar VIR fixtures.
    Opaque(VirType),
    Unit { access: VirMemoryAccess },
    Scalar { access: VirMemoryAccess, ty: VirType },
    Pointer { access: VirMemoryAccess, pointee: VirMemoryAccess },
    Slice { access: VirMemoryAccess, element: VirMemoryAccess },
    DirectAggregate { access: VirMemoryAccess, leaves: Vec<VirAbiLeaf> },
    IndirectAggregate { access: VirMemoryAccess },
}

/// A classified value with its leaves as a sequence.
pub enum AbiValueView {
    Opaque(VirType),
    Unit { access: VirMemoryAccess },
    Scalar { access: VirMemoryAccess, ty: VirType },
    Pointer { access: VirMemoryAccess, pointee: VirMemoryAccess },
    Slice { access: VirMemoryAccess, element: VirMemoryAccess },
    DirectAggregate { access: VirMemoryAccess, leaves: Seq<VirAbiLeaf> },
    IndirectAggregate { access: VirMemoryAccess },
}

impl View for VirAbiValue {
    type V = AbiValueView;

    open spec fn view(&self) -> AbiValueView {
        match self {
            VirAbiValue::Opaque(ty) => AbiValueView::Opaque(*ty),
            VirAbiValue::Unit { access } => AbiValueView::Unit { access: *access },
            VirAbiValue::Scalar { access, ty } => AbiValueView::Scalar { access: *access, ty: *ty },
            VirAbiValue::Pointer { access, pointee } => AbiValueView::Pointer { access: *access, pointee: *pointee },
            VirAbiValue::Slice { access, element } => AbiValueView::Slice { access: *access, element: *element },
            VirAbiValue::DirectAggregate { access, leaves } => AbiValueView::DirectAggregate { access: *access, leaves: leaves@ },
            VirAbiValue::IndirectAggregate { access } => AbiValueView::IndirectAggregate { access: *access },
        }
    }
}

impl AbiValueView {
    /// The memory access a classified value stands for.
    pub open spec fn access(self) -> Option<VirMemoryAccess> {
        match self {
            AbiValueView::Opaque(_) => None,
            AbiValueView::Unit { access } => Some(access),
            AbiValueView::Scalar { access, .. } => Some(access),
            AbiValueView::Pointer { access, .. } => Some(access),
            AbiValueView::Slice { access, .. } => Some(access),
            AbiValueView::DirectAggregate { access, .. } => Some(access),
            AbiValueView::IndirectAggregate { access } => Some(access),
        }
    }

    /// The scalar leaves of a direct aggregate; none otherwise.
    pub open spec fn leaves(self) -> Seq<VirAbiLeaf> {
        match self {
            AbiValueView::DirectAggregate { leaves, .. } => leaves,
            _ => Seq::empty(),
        }
    }
}

/// Mandatory ownership/borrow transfer implied by one logical interface value.
#[derive(Clone, Copy, Debug, PartialEq, Eq, Hash, Structural)]
pub enum VirInterfaceTransfer {
    /// Compatibility marker for hand-authored physical-only VIR fixtures.
    Opaque,
    Ignore,
    Copy,
    Move,
    BorrowShared,
    BorrowMutable,
}

impl VirInterfaceTransfer {
    pub open spec fn spec_is_borrow(self) -> bool {
        self == VirInterfaceTransfer::BorrowShared || self == VirInterfaceTransfer::BorrowMutable
    }

    /// The transfer lends the value rather than copying or moving it.
    pub fn is_borrow(self) -> (r: bool)
        ensures
            r == self.spec_is_borrow(),
    {
        self == VirInterfaceTransfer::BorrowShared || self == VirInterfaceTransfer::BorrowMutable
    }
}

/// Storage convention required for a logical interface value.
#[derive(Clone, Copy, Debug, PartialEq, Eq, Hash, Structural)]
pub enum VirInterfaceStorage {
    Opaque,
    NoStorage,
    Direct,
    Indirect,
}

/// Non-optional compiler type semantics attached to each ABI binding.
#[derive(Clone, Copy, Debug, PartialEq, Eq, Hash, Structural)]
pub struct VirInterfaceEffect {
    pub transfer: VirInterfaceTransfer,
    pub storage: VirInterfaceStorage,
}

impl VirAbiValue {
    /// The memory access the value stands for; none for an opaque value.
    pub fn access(&self) -> (r: Option<VirMemoryAccess>)
        ensures
            r == self@.access(),
    {
        match self {
            VirAbiValue::Opaque(_) => None,
            VirAbiValue::Unit { access } => Some(*access),
            VirAbiValue::Scalar { access, .. } => Some(*access),
            VirAbiValue::Pointer { access, .. } => Some(*access),
            VirAbiValue::Slice { access, .. } => Some(*access),
            VirAbiValue::DirectAggregate { access, .. } => Some(*access),
            VirAbiValue::IndirectAggregate { access } => Some(*access),
        }
    }

    pub fn is_indirect_aggregate(&self) -> (r: bool)
        ensures
            r == (self@ is IndirectAggregate),
    {
        match self {
            VirAbiValue::IndirectAggregate { .. } => true,
            _ => false,
        }
    }

    /// The scalar leaves of a direct aggregate; empty otherwise.
    pub fn leaves(&self) -> (r: &[VirAbiLeaf])
        ensures
            r@ == self@.leaves(),
    {
        match self {
            VirAbiValue::DirectAggregate { leaves, .. } => leaves.as_slice(),
            _ => &[],
        }
    }

    /// An independent copy.
    pub fn copy(&self) -> (r: Self)
        ensures
            r@ == self@,
    {
        match self {
            VirAbiValue::Opaque(ty) => VirAbiValue::Opaque(*ty),
            VirAbiValue::Unit { access } => VirAbiValue::Unit { access: *access },
            VirAbiValue::Scalar { access, ty } => VirAbiValue::Scalar { access: *access, ty: *ty },
            VirAbiValue::Pointer { access, pointee } => VirAbiValue::Pointer { access: *access, pointee: *pointee },
            VirAbiValue::Slice { access, element } => VirAbiValue::Slice { access: *access, element: *element },
            VirAbiValue::DirectAggregate { access, leaves } => {
                let mut out: Vec<VirAbiLeaf> = Vec::new();
                let mut i: usize = 0;
                while i < leaves.len()
                    invariant
                        0 <= i <= leaves@.len(),
                        out@ == leaves@.take(i as int),
                    decreases leaves.len() - i,
                {
                    out.push(leaves[i]);
                    assert(leaves@.take(i + 1) == leaves@.take(i as int).push(leaves@[i as int]));
                    i = i + 1;
                }
                assert(leaves@.take(leaves@.len() as int) == leaves@);
                VirAbiValue::DirectAggregate { access: *access, leaves: out }
            },
            VirAbiValue::IndirectAggregate { access } => VirAbiValue::IndirectAggregate { access: *access },
        }
    }

    /// The two values are the same classification.
    pub fn same(&self, other: &VirAbiValue) -> (r: bool)
        ensures
            r == (self@ == other@),
    {
        match (self, other) {
            (VirAbiValue::Opaque(a), VirAbiValue::Opaque(b)) => *a == *b,
            (VirAbiValue::Unit { access: a }, VirAbiValue::Unit { access: b }) => *a == *b,
            (VirAbiValue::Scalar { access: a, ty: x }, VirAbiValue::Scalar { access: b, ty: y }) => *a == *b && *x == *y,
            (VirAbiValue::Pointer { access: a, pointee: x }, VirAbiValue::Pointer { access: b, pointee: y }) => *a == *b && *x == *y,
            (VirAbiValue::Slice { access: a, element: x }, VirAbiValue::Slice { access: b, element: y }) => *a == *b && *x == *y,
            (VirAbiValue::DirectAggregate { access: a, leaves: x }, VirAbiValue::DirectAggregate { access: b, leaves: y }) => {
                if *a != *b || x.len() != y.len() {
                    return false;
                }
                let mut i: usize = 0;
                while i < x.len()
                    invariant
                        0 <= i <= x@.len(),
                        x@.len() == y@.len(),
                        self@ == (AbiValueView::DirectAggregate { access: *a, leaves: x@ }),
                        other@ == (AbiValueView::DirectAggregate { access: *b, leaves: y@ }),
                        forall|j: int| 0 <= j < i ==> x@[j] == y@[j],
                    decreases x.len() - i,
                {
                    if x[i] != y[i] {
                        assert(x@[i as int] != y@[i as int]);
                        assert(x@ != y@);
                        return false;
                    }
                    i = i + 1;
                }
                assert(x@ =~= y@);
                true
            },
            (VirAbiValue::IndirectAggregate { access: a }, VirAbiValue::IndirectAggregate { access: b }) => *a == *b,
            _ => false,
        }
    }
}

/// Reversible physical slot assignment for one logical value.
#[derive(Clone, Debug, PartialEq, Eq, Hash)]
pub struct VirAbiBinding {
    value: VirAbiValue,
    pub interface: VirInterfaceEffect,
    parameter_slots: Vec<u32>,
    result_slots: Vec<u32>,
}

/// A binding as values.
pub struct AbiBindingView {
    pub value: AbiValueView,
    pub interface: VirInterfaceEffect,
    pub parameter_slots: Seq<u32>,
    pub result_slots: Seq<u32>,
}

impl View for VirAbiBinding {
    type V = AbiBindingView;

    closed spec fn view(&self) -> AbiBindingView {
        AbiBindingView {
            value: self.value@,
            interface: self.interface,
            parameter_slots: self.parameter_slots@,
            result_slots: self.result_slots@,
        }
    }
}

impl VirAbiBinding {
    pub fn value(&self) -> (r: &VirAbiValue)
        ensures
            r@ == self@.value,
    {
        &self.value
    }

    pub fn interface(&self) -> (r: VirInterfaceEffect)
        ensures
            r == self@.interface,
    {
        self.interface
    }

    pub fn parameter_slots(&self) -> (r: &[u32])
        ensures
            r@ == self@.parameter_slots,
    {
        self.parameter_slots.as_slice()
    }

    pub fn result_slots(&self) -> (r: &[u32])
        ensures
            r@ == self@.result_slots,
    {
        self.result_slots.as_slice()
    }
}

/// Classification failures.
#[derive(Clone, Copy, Debug, PartialEq, Eq, Structural)]
pub enum VirAbiErrorKind {
    InvalidMemorySchema,
    InvalidAccess(VirMemoryAccess),
    UnsupportedType(VirMemoryAccess),
    OwnershipBearingAggregate(VirMemoryAccess),
    TooManySlots,
    NonCanonicalSlotMap,
    InvalidBorrowResult,
    FunctionTableMismatch,
    PhysicalSignatureMismatch { function: VirFunctionId },
}

/// A classification failure.
#[derive(Clone, Debug, PartialEq, Eq)]
pub struct VirAbiError {
    kind: VirAbiErrorKind,
}

impl VirAbiError {
    pub closed spec fn spec_kind(&self) -> VirAbiErrorKind {
        self.kind
    }

    pub fn kind(&self) -> (r: &VirAbiErrorKind)
        ensures
            *r == self.spec_kind(),
    {
        &self.kind
    }
}

fn abi_error(kind: VirAbiErrorKind) -> (e: VirAbiError)
    ensures
        e.spec_kind() == kind,
{
    VirAbiError { kind }
}

/// The interface effect of a classified value.
pub open spec fn spec_interface_effect(memory: VirMemorySchema, value: AbiValueView) -> Result<VirInterfaceEffect, VirAbiErrorKind> {
    match value.access() {
        None => Ok(VirInterfaceEffect { transfer: VirInterfaceTransfer::Opaque, storage: VirInterfaceStorage::Opaque }),
        Some(access) => {
            let transfer: Result<VirInterfaceTransfer, VirAbiErrorKind> = match value {
                AbiValueView::Unit { .. } => Ok(VirInterfaceTransfer::Ignore),
                AbiValueView::Pointer { .. } => match memory.spec_kind(access.ty) {
                    Some(VirMemoryTypeKind::Pointer { kind: VirPointerKind::Own, .. }) => Ok(VirInterfaceTransfer::Move),
                    Some(VirMemoryTypeKind::Pointer { kind: VirPointerKind::Raw, .. }) => Ok(VirInterfaceTransfer::Copy),
                    Some(VirMemoryTypeKind::Pointer { kind: VirPointerKind::Reference, mutability: VirMutability::Const, .. }) => Ok(
                        VirInterfaceTransfer::BorrowShared,
                    ),
                    Some(VirMemoryTypeKind::Pointer { kind: VirPointerKind::Reference, mutability: VirMutability::Mutable, .. }) => Ok(
                        VirInterfaceTransfer::BorrowMutable,
                    ),
                    _ => Err(VirAbiErrorKind::InvalidAccess(access)),
                },
                AbiValueView::Slice { .. } => match memory.spec_kind(access.ty) {
                    Some(VirMemoryTypeKind::Slice { mutability: VirMutability::Const, .. }) => Ok(VirInterfaceTransfer::BorrowShared),
                    Some(VirMemoryTypeKind::Slice { mutability: VirMutability::Mutable, .. }) => Ok(VirInterfaceTransfer::BorrowMutable),
                    _ => Err(VirAbiErrorKind::InvalidAccess(access)),
                },
                _ => match memory.spec_type_capabilities(access.ty) {
                    None => Err(VirAbiErrorKind::InvalidAccess(access)),
                    Some(c) => if c.value == ValueCapability::Copy {
                        Ok(VirInterfaceTransfer::Copy)
                    } else {
                        Ok(VirInterfaceTransfer::Move)
                    },
                },
            };
            match transfer {
                Err(k) => Err(k),
                Ok(t) => Ok(VirInterfaceEffect {
                    transfer: t,
                    storage: match value {
                        AbiValueView::Unit { .. } => VirInterfaceStorage::NoStorage,
                        AbiValueView::IndirectAggregate { .. } => VirInterfaceStorage::Indirect,
                        _ => VirInterfaceStorage::Direct,
                    },
                }),
            }
        },
    }
}

fn interface_effect(memory: &VirMemorySchema, value: &VirAbiValue) -> (r: Result<VirInterfaceEffect, VirAbiError>)
    ensures
        match spec_interface_effect(*memory, value@) {
            Ok(effect) => r == Ok::<VirInterfaceEffect, VirAbiError>(effect),
            Err(k) => r matches Err(e) && e.spec_kind() == k,
        },
{
    let access = match value.access() {
        Some(a) => a,
        None => {
            return Ok(VirInterfaceEffect { transfer: VirInterfaceTransfer::Opaque, storage: VirInterfaceStorage::Opaque });
        },
    };
    let transfer = match value {
        VirAbiValue::Unit { .. } => VirInterfaceTransfer::Ignore,
        VirAbiValue::Pointer { .. } => match memory.kind(access.ty) {
            Some(VirMemoryTypeKind::Pointer { kind: VirPointerKind::Own, .. }) => VirInterfaceTransfer::Move,
            Some(VirMemoryTypeKind::Pointer { kind: VirPointerKind::Raw, .. }) => VirInterfaceTransfer::Copy,
            Some(VirMemoryTypeKind::Pointer { kind: VirPointerKind::Reference, mutability: VirMutability::Const, .. }) => {
                VirInterfaceTransfer::BorrowShared
            },
            Some(VirMemoryTypeKind::Pointer { kind: VirPointerKind::Reference, mutability: VirMutability::Mutable, .. }) => {
                VirInterfaceTransfer::BorrowMutable
            },
            _ => {
                return Err(abi_error(VirAbiErrorKind::InvalidAccess(access)));
            },
        },
        VirAbiValue::Slice { .. } => match memory.kind(access.ty) {
            Some(VirMemoryTypeKind::Slice { mutability: VirMutability::Const, .. }) => VirInterfaceTransfer::BorrowShared,
            Some(VirMemoryTypeKind::Slice { mutability: VirMutability::Mutable, .. }) => VirInterfaceTransfer::BorrowMutable,
            _ => {
                return Err(abi_error(VirAbiErrorKind::InvalidAccess(access)));
            },
        },
        _ => match memory.type_capabilities(access.ty) {
            None => {
                return Err(abi_error(VirAbiErrorKind::InvalidAccess(access)));
            },
            Some(c) => if c.value == ValueCapability::Copy {
                VirInterfaceTransfer::Copy
            } else {
                VirInterfaceTransfer::Move
            },
        },
    };
    let storage = match value {
        VirAbiValue::Unit { .. } => VirInterfaceStorage::NoStorage,
        VirAbiValue::IndirectAggregate { .. } => VirInterfaceStorage::Indirect,
        _ => VirInterfaceStorage::Direct,
    };
    Ok(VirInterfaceEffect { transfer, storage })
}

/// Physical parameter types that pass a value into a call.
pub open spec fn param_types(value: AbiValueView) -> Seq<VirType> {
    match value {
        AbiValueView::Opaque(ty) => seq![ty],
        AbiValueView::Unit { .. } => Seq::empty(),
        AbiValueView::Scalar { ty, .. } => seq![ty],
        AbiValueView::Pointer { pointee, .. } => seq![VirType::Pointer { access: pointee }, VirType::Permission],
        AbiValueView::IndirectAggregate { access } => seq![VirType::Pointer { access }, VirType::Permission],
        AbiValueView::Slice { element, .. } => seq![VirType::Pointer { access: element }, VirType::U64, VirType::Permission],
        AbiValueView::DirectAggregate { leaves, .. } => leaves.map_values(|l: VirAbiLeaf| l.spec_ty()),
    }
}

/// Physical result types that pass a value out of a call.
pub open spec fn result_types(value: AbiValueView) -> Seq<VirType> {
    match value {
        AbiValueView::IndirectAggregate { .. } => seq![VirType::Permission],
        _ => param_types(value),
    }
}

/// Extra physical parameters through which a caller lends its result buffer.
pub open spec fn buffer_types(value: AbiValueView) -> Seq<VirType> {
    match value {
        AbiValueView::IndirectAggregate { access } => seq![VirType::Pointer { access }, VirType::Permission],
        _ => Seq::empty(),
    }
}

/// `param_types` as a function value.
pub open spec fn param_types_fn() -> spec_fn(AbiValueView) -> Seq<VirType> {
    |v: AbiValueView| param_types(v)
}

/// `result_types` as a function value.
pub open spec fn result_types_fn() -> spec_fn(AbiValueView) -> Seq<VirType> {
    |v: AbiValueView| result_types(v)
}

/// `buffer_types` as a function value.
pub open spec fn buffer_types_fn() -> spec_fn(AbiValueView) -> Seq<VirType> {
    |v: AbiValueView| buffer_types(v)
}

/// `n` consecutive slot numbers from `start`.
pub open spec fn slot_run(start: int, n: nat) -> Seq<u32> {
    Seq::new(n, |k: int| (start + k) as u32)
}

/// Appends one slot and returns its number; the number must fit `u32`.
fn append_slot(output: &mut Vec<VirType>, ty: VirType) -> (r: Result<u32, VirAbiError>)
    ensures
        old(output)@.len() <= u32::MAX ==> r == Ok::<u32, VirAbiError>(old(output)@.len() as u32)
            && final(output)@ == old(output)@.push(ty),
        old(output)@.len() > u32::MAX ==> (r matches Err(e) && e.spec_kind() == VirAbiErrorKind::TooManySlots
            && final(output)@ == old(output)@),
{
    let n = output.len();
    if n > 0xFFFF_FFFFusize {
        return Err(abi_error(VirAbiErrorKind::TooManySlots));
    }
    output.push(ty);
    Ok(n as u32)
}

/// Appends `types` and returns their slot numbers.
fn append_slots(output: &mut Vec<VirType>, types: &Vec<VirType>) -> (r: Result<Vec<u32>, VirAbiError>)
    ensures
        r matches Ok(s) ==> s@ == slot_run(old(output)@.len() as int, types@.len()) && final(output)@ == old(output)@ + types@,
        r matches Err(e) ==> e.spec_kind() == VirAbiErrorKind::TooManySlots && old(output)@.len() + types@.len() > u32::MAX + 1,
        old(output)@.len() + types@.len() <= u32::MAX + 1 ==> r is Ok,
        types@.len() > 0 && old(output)@.len() + types@.len() > u32::MAX + 1 ==> r is Err,
{
    let ghost start = output@;
    let mut slots: Vec<u32> = Vec::new();
    let mut i: usize = 0;
    while i < types.len()
        invariant
            0 <= i <= types@.len(),
            start == old(output)@,
            output@ == start + types@.take(i as int),
            slots@ == slot_run(start.len() as int, i as nat),
            i > 0 ==> start.len() + i <= u32::MAX + 1,
        decreases types.len() - i,
    {
        let slot = append_slot(output, types[i])?;
        slots.push(slot);
        proof {
            assert(types@.take(i + 1) == types@.take(i as int).push(types@[i as int]));
            assert(slots@ =~= slot_run(start.len() as int, (i + 1) as nat));
        }
        i = i + 1;
    }
    assert(types@.take(types@.len() as int) == types@);
    Ok(slots)
}

fn leaf_types(leaves: &Vec<VirAbiLeaf>) -> (r: Vec<VirType>)
    ensures
        r@ == leaves@.map_values(|l: VirAbiLeaf| l.spec_ty()),
{
    let mut out: Vec<VirType> = Vec::new();
    let mut i: usize = 0;
    while i < leaves.len()
        invariant
            0 <= i <= leaves@.len(),
            out@ == leaves@.take(i as int).map_values(|l: VirAbiLeaf| l.spec_ty()),
        decreases leaves.len() - i,
    {
        out.push(leaves[i].ty);
        assert(leaves@.take(i + 1).map_values(|l: VirAbiLeaf| l.spec_ty()) =~= leaves@.take(i as int).map_values(
            |l: VirAbiLeaf| l.spec_ty(),
        ).push(leaves@[i as int].spec_ty()));
        i = i + 1;
    }
    assert(leaves@.take(leaves@.len() as int) == leaves@);
    out
}

fn param_types_of(value: &VirAbiValue) -> (r: Vec<VirType>)
    ensures
        r@ == param_types(value@),
{
    match value {
        VirAbiValue::Opaque(ty) => vec![*ty],
        VirAbiValue::Unit { .. } => Vec::new(),
        VirAbiValue::Scalar { ty, .. } => vec![*ty],
        VirAbiValue::Pointer { pointee, .. } => vec![VirType::Pointer { access: *pointee }, VirType::Permission],
        VirAbiValue::IndirectAggregate { access } => vec![VirType::Pointer { access: *access }, VirType::Permission],
        VirAbiValue::Slice { element, .. } => vec![VirType::Pointer { access: *element }, VirType::U64, VirType::Permission],
        VirAbiValue::DirectAggregate { leaves, .. } => leaf_types(leaves),
    }
}

fn result_types_of(value: &VirAbiValue) -> (r: Vec<VirType>)
    ensures
        r@ == result_types(value@),
{
    match value {
        VirAbiValue::IndirectAggregate { .. } => vec![VirType::Permission],
        _ => param_types_of(value),
    }
}

fn buffer_types_of(value: &VirAbiValue) -> (r: Vec<VirType>)
    ensures
        r@ == buffer_types(value@),
{
    match value {
        VirAbiValue::IndirectAggregate { access } => vec![VirType::Pointer { access: *access }, VirType::Permission],
        _ => Vec::new(),
    }
}

/// A classification outcome as values.
pub open spec fn value_result(r: Result<VirAbiValue, VirAbiError>) -> Result<AbiValueView, VirAbiErrorKind> {
    match r {
        Ok(v) => Ok(v@),
        Err(e) => Err(e.spec_kind()),
    }
}

/// Array, tuple, struct and enum types are classified through their shape.
pub open spec fn is_aggregate_kind(kind: VirMemoryTypeKind) -> bool {
    kind is Array || kind is Tuple || kind is Struct || kind is Enum
}

/// Classification of a value whose type is not an aggregate.
pub open spec fn spec_classify_non_aggregate(memory: VirMemorySchema, access: VirMemoryAccess) -> Result<AbiValueView, VirAbiErrorKind> {
    if !memory.spec_resolves_access(access) {
        Err(VirAbiErrorKind::InvalidAccess(access))
    } else {
        match memory.spec_kind(access.ty) {
            None => Err(VirAbiErrorKind::InvalidAccess(access)),
            Some(VirMemoryTypeKind::Unit) => Ok(AbiValueView::Unit { access }),
            Some(VirMemoryTypeKind::Bool) => Ok(AbiValueView::Scalar { access, ty: VirType::Bool }),
            Some(VirMemoryTypeKind::Integer(VirIntegerType::U64)) => Ok(AbiValueView::Scalar { access, ty: VirType::U64 }),
            Some(VirMemoryTypeKind::Integer(VirIntegerType::Usize)) => Ok(AbiValueView::Scalar { access, ty: VirType::U64 }),
            Some(VirMemoryTypeKind::Pointer { pointee, .. }) => match memory.spec_access(pointee) {
                Some(p) => Ok(AbiValueView::Pointer { access, pointee: p }),
                None => Err(VirAbiErrorKind::InvalidAccess(access)),
            },
            Some(VirMemoryTypeKind::Slice { element, .. }) => match memory.spec_access(element) {
                Some(e) => Ok(AbiValueView::Slice { access, element: e }),
                None => Err(VirAbiErrorKind::InvalidAccess(access)),
            },
            _ => Err(VirAbiErrorKind::UnsupportedType(access)),
        }
    }
}

/// Capabilities of a resource-owning aggregate that may cross a call boundary
/// through a caller-owned buffer.
pub open spec fn owning_capabilities(c: TypeCapabilities) -> bool {
    &&& c.value == ValueCapability::MoveOnly
    &&& c.drop == DropCapability::BuiltinDrop
    &&& c.contains_resource
    &&& c.size == SizeCapability::Sized
}

/// The ABI leaf of an object leaf: booleans and words are kept, unit leaves
/// are dropped (`Some(None)`), anything else is refused (`None`).
pub closed spec fn abi_leaf(memory: VirMemorySchema, leaf: VirObjectLeaf) -> Option<Option<VirAbiLeaf>> {
    let ty = match memory.spec_kind(leaf.spec_access().ty) {
        Some(VirMemoryTypeKind::Bool) => Some(Some(VirType::Bool)),
        Some(VirMemoryTypeKind::Integer(VirIntegerType::U64)) => Some(Some(VirType::U64)),
        Some(VirMemoryTypeKind::Integer(VirIntegerType::Usize)) => Some(Some(VirType::U64)),
        Some(VirMemoryTypeKind::Unit) => Some(None),
        _ => None,
    };
    match ty {
        None => None,
        Some(None) => Some(None),
        Some(Some(t)) => Some(
            Some(VirAbiLeaf { access: leaf.spec_access(), offset_bytes: leaf.spec_bytes().spec_start_bytes(), ty: t }),
        ),
    }
}

/// The ABI leaves of a shape's leaves, in order, or `None` when one of them
/// is not a boolean, word or unit.
pub open spec fn abi_leaves(memory: VirMemorySchema, leaves: Seq<VirObjectLeaf>) -> Option<Seq<VirAbiLeaf>>
    decreases leaves.len(),
{
    if leaves.len() == 0 {
        Some(Seq::empty())
    } else {
        match abi_leaves(memory, leaves.drop_last()) {
            None => None,
            Some(prev) => match abi_leaf(memory, leaves.last()) {
                None => None,
                Some(None) => Some(prev),
                Some(Some(l)) => Some(prev.push(l)),
            },
        }
    }
}

/// Classification of an aggregate from its object shape.
pub open spec fn aggregate_from_shape(memory: VirMemorySchema, access: VirMemoryAccess, owning: bool, shape: VirObjectShape) -> Result<
    AbiValueView,
    VirAbiErrorKind,
> {
    if shape.spec_size_bytes() == 0 {
        Err(VirAbiErrorKind::UnsupportedType(access))
    } else if owning {
        if shape.spec_variants().len() != 0 || shape.spec_resource_leaves().len() == 0 || exists|i: int|
            0 <= i < shape.spec_resource_leaves().len() && (#[trigger] shape.spec_resource_leaves()[i]).spec_kind()
                != VirPointerKind::Own {
            Err(VirAbiErrorKind::OwnershipBearingAggregate(access))
        } else {
            Ok(AbiValueView::IndirectAggregate { access })
        }
    } else {
        match abi_leaves(memory, shape.spec_leaves()) {
            None => Err(VirAbiErrorKind::OwnershipBearingAggregate(access)),
            Some(leaves) => if shape.spec_variants().len() == 0 && shape.spec_size_bytes() <= VIR_AGGREGATE_ABI_MAX_DIRECT_BYTES
                && leaves.len() <= VIR_AGGREGATE_ABI_MAX_DIRECT_LEAVES {
                Ok(AbiValueView::DirectAggregate { access, leaves })
            } else {
                Ok(AbiValueView::IndirectAggregate { access })
            },
        }
    }
}

/// Classifies an aggregate from the object shape derived for it.
pub fn classify_shape(memory: &VirMemorySchema, access: VirMemoryAccess, owning: bool, shape: &VirObjectShape) -> (r: Result<
    VirAbiValue,
    VirAbiError,
>)
    ensures
        value_result(r) == aggregate_from_shape(*memory, access, owning, *shape),
{
    if shape.size_bytes() == 0 {
        return Err(abi_error(VirAbiErrorKind::UnsupportedType(access)));
    }
    if owning {
        if shape.variants().len() != 0 || shape.resource_leaves().len() == 0 || !all_owned(shape.resource_leaves()) {
            return Err(abi_error(VirAbiErrorKind::OwnershipBearingAggregate(access)));
        }
        return Ok(VirAbiValue::IndirectAggregate { access });
    }
    let object_leaves = shape.leaves();
    let mut leaves: Vec<VirAbiLeaf> = Vec::new();
    let mut i: usize = 0;
    while i < object_leaves.len()
        invariant
            0 <= i <= object_leaves@.len(),
            object_leaves@ == shape.spec_leaves(),
            !owning,
            shape.spec_size_bytes() != 0,
            abi_leaves(*memory, object_leaves@.take(i as int)) == Some(leaves@),
        decreases object_leaves.len() - i,
    {
        proof {
            assert(object_leaves@.take(i + 1).drop_last() == object_leaves@.take(i as int));
            assert(object_leaves@.take(i + 1).last() == object_leaves@[i as int]);
        }
        let leaf = &object_leaves[i];
        let leaf_access = leaf.access();
        let ty = match memory.kind(leaf_access.ty) {
            Some(VirMemoryTypeKind::Bool) => VirType::Bool,
            Some(VirMemoryTypeKind::Integer(VirIntegerType::U64)) => VirType::U64,
            Some(VirMemoryTypeKind::Integer(VirIntegerType::Usize)) => VirType::U64,
            Some(VirMemoryTypeKind::Unit) => {
                i = i + 1;
                continue;
            },
            _ => {
                proof {
                    assert(abi_leaf(*memory, object_leaves@[i as int]) is None);
                    assert(abi_leaves(*memory, object_leaves@.take(i + 1)) is None);
                    lemma_abi_leaves_refused(*memory, object_leaves@, (i + 1) as int);
                }
                return Err(abi_error(VirAbiErrorKind::OwnershipBearingAggregate(access)));
            },
        };
        leaves.push(VirAbiLeaf { access: leaf_access, offset_bytes: leaf.bytes().start_bytes(), ty });
        i = i + 1;
    }
    assert(object_leaves@.take(object_leaves@.len() as int) == object_leaves@);
    if shape.variants().len() == 0 && shape.size_bytes() <= VIR_AGGREGATE_ABI_MAX_DIRECT_BYTES
        && leaves.len() <= VIR_AGGREGATE_ABI_MAX_DIRECT_LEAVES {
        Ok(VirAbiValue::DirectAggregate { access, leaves })
    } else {
        Ok(VirAbiValue::IndirectAggregate { access })
    }
}

/// A refused leaf refuses every longer prefix.
proof fn lemma_abi_leaves_refused(memory: VirMemorySchema, leaves: Seq<VirObjectLeaf>, n: int)
    requires
        0 < n <= leaves.len(),
        abi_leaves(memory, leaves.take(n)) is None,
    ensures
        abi_leaves(memory, leaves) is None,
    decreases leaves.len() - n,
{
    if n < leaves.len() {
        assert(leaves.take(n + 1).drop_last() == leaves.take(n));
        lemma_abi_leaves_refused(memory, leaves, n + 1);
    } else {
        assert(leaves.take(n) == leaves);
    }
}

fn all_owned(leaves: &[crate::object_shape::VirObjectResourceLeaf]) -> (r: bool)
    ensures
        r == forall|i: int| 0 <= i < leaves@.len() ==> (#[trigger] leaves@[i]).spec_kind() == VirPointerKind::Own,
{
    let mut i: usize = 0;
    while i < leaves.len()
        invariant
            0 <= i <= leaves@.len(),
            forall|j: int| 0 <= j < i ==> (#[trigger] leaves@[j]).spec_kind() == VirPointerKind::Own,
        decreases leaves.len() - i,
    {
        if leaves[i].kind() != VirPointerKind::Own {
            return false;
        }
        i = i + 1;
    }
    true
}

/// An aggregate classification: a capability refusal, a failure to derive
/// the object shape, or the classification of a shape derived for it.
pub open spec fn aggregate_classified(memory: VirMemorySchema, access: VirMemoryAccess, r: Result<AbiValueView, VirAbiErrorKind>) -> bool {
    match memory.spec_type_capabilities(access.ty) {
        None => r == Err::<AbiValueView, VirAbiErrorKind>(VirAbiErrorKind::InvalidAccess(access)),
        Some(c) => if !c.spec_pointer_free_trivial() && !owning_capabilities(c) {
            r == Err::<AbiValueView, VirAbiErrorKind>(VirAbiErrorKind::OwnershipBearingAggregate(access))
        } else {
            ||| r == Err::<AbiValueView, VirAbiErrorKind>(VirAbiErrorKind::UnsupportedType(access))
            ||| exists|shape: VirObjectShape| shape_matches(memory, access, shape)
                && r == aggregate_from_shape(memory, access, owning_capabilities(c), shape)
        },
    }
}

fn classify_aggregate(memory: &VirMemorySchema, access: VirMemoryAccess) -> (r: Result<VirAbiValue, VirAbiError>)
    ensures
        aggregate_classified(*memory, access, value_result(r)),
{
    let capabilities = match memory.type_capabilities(access.ty) {
        Some(c) => c,
        None => {
            return Err(abi_error(VirAbiErrorKind::InvalidAccess(access)));
        },
    };
    let pointer_free = capabilities.pointer_free_trivial();
    let owning = capabilities.value == ValueCapability::MoveOnly && capabilities.drop == DropCapability::BuiltinDrop
        && capabilities.contains_resource && capabilities.size == SizeCapability::Sized;
    if !pointer_free && !owning {
        return Err(abi_error(VirAbiErrorKind::OwnershipBearingAggregate(access)));
    }
    let shape = match memory.object_shape(access) {
        Ok(shape) => shape,
        Err(_) => {
            return Err(abi_error(VirAbiErrorKind::UnsupportedType(access)));
        },
    };
    classify_shape(memory, access, owning, &shape)
}

/// A classification of `access`: exact for non-aggregates, through the
/// object shape for aggregates.
pub open spec fn classified(memory: VirMemorySchema, access: VirMemoryAccess, r: Result<AbiValueView, VirAbiErrorKind>) -> bool {
    if memory.spec_resolves_access(access) && (memory.spec_kind(access.ty) matches Some(k) && is_aggregate_kind(k)) {
        aggregate_classified(memory, access, r)
    } else {
        r == spec_classify_non_aggregate(memory, access)
    }
}

/// A resolved `u64` or `usize` value is passed as one `u64` word: its only
/// classification is that scalar, so both integer types classify alike.
pub proof fn lemma_word_integers_classify_as_u64(memory: VirMemorySchema, access: VirMemoryAccess, r: Result<AbiValueView, VirAbiErrorKind>)
    requires
        memory.spec_resolves_access(access),
        memory.spec_kind(access.ty) == Some(VirMemoryTypeKind::Integer(VirIntegerType::U64)) || memory.spec_kind(access.ty) == Some(
            VirMemoryTypeKind::Integer(VirIntegerType::Usize),
        ),
    ensures
        classified(memory, access, r) <==> r == Ok::<AbiValueView, VirAbiErrorKind>(AbiValueView::Scalar { access, ty: VirType::U64 }),
{
}

/// Integers other than the word-sized `u64` and `usize`, and the never
/// type, cannot cross a call boundary: their only classification is the
/// refusal of the type.
pub proof fn lemma_other_integers_are_unsupported(memory: VirMemorySchema, access: VirMemoryAccess, r: Result<AbiValueView, VirAbiErrorKind>)
    requires
        memory.spec_resolves_access(access),
        (memory.spec_kind(access.ty) matches Some(VirMemoryTypeKind::Integer(i)) && i != VirIntegerType::U64 && i != VirIntegerType::Usize)
            || memory.spec_kind(access.ty) == Some(VirMemoryTypeKind::Never),
    ensures
        classified(memory, access, r) <==> r == Err::<AbiValueView, VirAbiErrorKind>(VirAbiErrorKind::UnsupportedType(access)),
{
}

fn classify_value(memory: &VirMemorySchema, access: VirMemoryAccess) -> (r: Result<VirAbiValue, VirAbiError>)
    ensures
        classified(*memory, access, value_result(r)),
{
    if !memory.resolves_access(access) {
        return Err(abi_error(VirAbiErrorKind::InvalidAccess(access)));
    }
    let kind = match memory.kind(access.ty) {
        Some(k) => k,
        None => {
            return Err(abi_error(VirAbiErrorKind::InvalidAccess(access)));
        },
    };
    match kind {
        VirMemoryTypeKind::Unit => Ok(VirAbiValue::Unit { access }),
        VirMemoryTypeKind::Bool => Ok(VirAbiValue::Scalar { access, ty: VirType::Bool }),
        VirMemoryTypeKind::Integer(VirIntegerType::U64) => Ok(VirAbiValue::Scalar { access, ty: VirType::U64 }),
        VirMemoryTypeKind::Integer(VirIntegerType::Usize) => Ok(VirAbiValue::Scalar { access, ty: VirType::U64 }),
        VirMemoryTypeKind::Pointer { pointee, .. } => match memory.access(*pointee) {
            Some(p) => Ok(VirAbiValue::Pointer { access, pointee: p }),
            None => Err(abi_error(VirAbiErrorKind::InvalidAccess(access))),
        },
        VirMemoryTypeKind::Slice { element, .. } => match memory.access(*element) {
            Some(e) => Ok(VirAbiValue::Slice { access, element: e }),
            None => Err(abi_error(VirAbiErrorKind::InvalidAccess(access))),
        },
        VirMemoryTypeKind::Array { .. } | VirMemoryTypeKind::Tuple(_) | VirMemoryTypeKind::Struct { .. } | VirMemoryTypeKind::Enum {
            ..
        } => classify_aggregate(memory, access),
        _ => Err(abi_error(VirAbiErrorKind::UnsupportedType(access))),
    }
}


/// Logical parameter/result map paired with its exact physical VIR signature.
#[derive(Clone, Debug, PartialEq, Eq, Hash)]
pub struct VirAbiSignature {
    pub parameters: Vec<VirAbiBinding>,
    results: Vec<VirAbiBinding>,
    physical: VirSignature,
    borrow_result: Option<BorrowResultRelation>,
    borrow_result_alternatives: Vec<BorrowResultAlternative>,
}

/// A signature as values.
pub struct AbiSignatureView {
    pub parameters: Seq<AbiBindingView>,
    pub results: Seq<AbiBindingView>,
    pub physical_parameters: Seq<VirType>,
    pub physical_results: Seq<VirType>,
    pub borrow_result: Option<BorrowResultRelation>,
    pub alternatives: Seq<AlternativeView>,
}

/// The views of `bindings`.
pub open spec fn binding_views(bindings: Seq<VirAbiBinding>) -> Seq<AbiBindingView> {
    bindings.map_values(|b: VirAbiBinding| b@)
}

/// The views of `alternatives`.
pub open spec fn alternative_views(alternatives: Seq<BorrowResultAlternative>) -> Seq<AlternativeView> {
    alternatives.map_values(|a: BorrowResultAlternative| a@)
}

impl View for VirAbiSignature {
    type V = AbiSignatureView;

    closed spec fn view(&self) -> AbiSignatureView {
        AbiSignatureView {
            parameters: binding_views(self.parameters@),
            results: binding_views(self.results@),
            physical_parameters: self.physical.parameters@,
            physical_results: self.physical.results@,
            borrow_result: self.borrow_result,
            alternatives: alternative_views(self.borrow_result_alternatives@),
        }
    }
}

/// The concatenation of `f` over `values`, in order.
pub open spec fn flat(values: Seq<AbiValueView>, f: spec_fn(AbiValueView) -> Seq<VirType>) -> Seq<VirType>
    decreases values.len(),
{
    if values.len() == 0 {
        Seq::empty()
    } else {
        flat(values.drop_last(), f) + f(values.last())
    }
}

/// The first interface-effect failure among `values`, in order.
pub open spec fn effects_error(memory: VirMemorySchema, values: Seq<AbiValueView>) -> Option<VirAbiErrorKind>
    decreases values.len(),
{
    if values.len() == 0 {
        None
    } else {
        match effects_error(memory, values.drop_last()) {
            Some(k) => Some(k),
            None => match spec_interface_effect(memory, values.last()) {
                Err(k) => Some(k),
                Ok(_) => None,
            },
        }
    }
}

/// The binding of parameter `i`, before any permission result slot.
pub open spec fn param_binding(memory: VirMemorySchema, params: Seq<AbiValueView>, i: int) -> AbiBindingView {
    AbiBindingView {
        value: params[i],
        interface: spec_interface_effect(memory, params[i])->Ok_0,
        parameter_slots: slot_run(flat(params.take(i), param_types_fn()).len() as int, param_types(params[i]).len()),
        result_slots: Seq::empty(),
    }
}

/// The binding of result `j`; `start` is the number of ordinary parameter slots.
pub open spec fn result_binding(memory: VirMemorySchema, results: Seq<AbiValueView>, start: int, j: int) -> AbiBindingView {
    AbiBindingView {
        value: results[j],
        interface: spec_interface_effect(memory, results[j])->Ok_0,
        parameter_slots: slot_run(start + flat(results.take(j), buffer_types_fn()).len(), buffer_types(results[j]).len()),
        result_slots: slot_run(flat(results.take(j), result_types_fn()).len() as int, result_types(results[j]).len()),
    }
}

/// Parameter `i` is the only borrowed parameter.
pub open spec fn sole_borrow(pb: Seq<AbiBindingView>, i: int) -> bool {
    &&& 0 <= i < pb.len()
    &&& pb[i].interface.transfer.spec_is_borrow()
    &&& forall|j: int| 0 <= j < pb.len() && j != i ==> !(#[trigger] pb[j]).interface.transfer.spec_is_borrow()
}

/// The relation read off raw fixtures: the only borrowed parameter, when the
/// first result has its value and effect, is returned whole.
pub open spec fn legacy_relation(pb: Seq<AbiBindingView>, rb: Seq<AbiBindingView>) -> Option<BorrowResultRelation> {
    if rb.len() > 0 && exists|i: int| #[trigger] sole_borrow(pb, i) {
        let i = choose|i: int| #[trigger] sole_borrow(pb, i);
        if pb[i].value == rb[0].value && pb[i].interface == rb[0].interface {
            Some(BorrowResultRelation {
                parameter: i as u32,
                result: 0,
                access: if rb[0].interface.transfer == VirInterfaceTransfer::BorrowMutable {
                    BorrowAccess::Mutable
                } else {
                    BorrowAccess::Shared
                },
                projection: BorrowProjection::Whole,
            })
        } else {
            None
        }
    } else {
        None
    }
}

/// The borrow transfer a relation's access demands.
pub open spec fn transfer_of(access: BorrowAccess) -> VirInterfaceTransfer {
    match access {
        BorrowAccess::Shared => VirInterfaceTransfer::BorrowShared,
        BorrowAccess::Mutable => VirInterfaceTransfer::BorrowMutable,
    }
}

/// A returned value may stand for the borrowed input value.
pub open spec fn values_compatible(input: AbiValueView, result: AbiValueView) -> bool {
    match (input, result) {
        (AbiValueView::Pointer { pointee: a, .. }, AbiValueView::Pointer { pointee: b, .. }) => a == b,
        (AbiValueView::Slice { element: a, .. }, AbiValueView::Slice { element: b, .. }) => a == b,
        _ => input == result,
    }
}

/// Some derived shape of `access` has neither resource leaves nor variants.
pub open spec fn plain_object(memory: VirMemorySchema, access: VirMemoryAccess) -> bool {
    exists|shape: VirObjectShape| #[trigger] shape_matches(memory, access, shape) && shape.spec_resource_leaves().len() == 0
        && shape.spec_variants().len() == 0
}

/// A slice bound names a word parameter, or the source's own length.
pub open spec fn bound_ok(pb: Seq<AbiBindingView>, source: u32, bound: BorrowSliceBound) -> bool {
    match bound {
        BorrowSliceBound::Constant(_) => true,
        BorrowSliceBound::Parameter(p) => p < pb.len() && pb[p as int].value == (AbiValueView::Scalar {
            access: pb[p as int].value->Scalar_access,
            ty: VirType::U64,
        }),
        BorrowSliceBound::SourceLength => source < pb.len() && pb[source as int].value is Slice,
    }
}

/// The projection of `relation` fits its input and result values; with
/// `shape_checked` the projected object must also be plain.
pub open spec fn projection_ok(
    memory: VirMemorySchema,
    pb: Seq<AbiBindingView>,
    input: AbiValueView,
    result: AbiValueView,
    relation: BorrowResultRelation,
    shape_checked: bool,
) -> bool {
    match relation.projection {
        BorrowProjection::Whole => values_compatible(input, result),
        BorrowProjection::Fixed { offset_bytes, size_bytes, alignment } => match (input, result) {
            (AbiValueView::Pointer { pointee: i, .. }, AbiValueView::Pointer { pointee: r, .. }) => {
                &&& memory.spec_layout(i.layout) is Some
                &&& memory.spec_layout(r.layout) is Some
                &&& size_bytes == memory.spec_layout(r.layout)->0.size_bytes
                &&& alignment == memory.spec_layout(r.layout)->0.alignment
                &&& spec_is_power_of_two(alignment)
                &&& offset_bytes % alignment == 0
                &&& offset_bytes + size_bytes <= memory.spec_layout(i.layout)->0.size_bytes
                &&& shape_checked ==> plain_object(memory, r)
            },
            _ => false,
        },
        BorrowProjection::Slice { start, end, stride_bytes, alignment } => match (input, result) {
            (AbiValueView::Slice { element: i, .. }, AbiValueView::Slice { element: r, .. }) => {
                &&& memory.spec_layout(i.layout) is Some
                &&& i == r
                &&& stride_bytes == memory.spec_layout(i.layout)->0.size_bytes
                &&& alignment == memory.spec_layout(i.layout)->0.alignment
                &&& spec_is_power_of_two(alignment)
                &&& bound_ok(pb, relation.parameter, start)
                &&& bound_ok(pb, relation.parameter, end)
                &&& !(start matches BorrowSliceBound::Constant(a) && end matches BorrowSliceBound::Constant(b) && a > b)
                &&& shape_checked ==> plain_object(memory, r)
            },
            _ => false,
        },
    }
}

/// `relation` names a parameter and the first result with equal effects,
/// the transfer its access demands and a fitting projection.
pub open spec fn relation_ok(
    memory: VirMemorySchema,
    pb: Seq<AbiBindingView>,
    rb: Seq<AbiBindingView>,
    relation: BorrowResultRelation,
    shape_checked: bool,
) -> bool {
    &&& relation.parameter < pb.len()
    &&& relation.result < rb.len()
    &&& relation.result == 0
    &&& projection_ok(memory, pb, pb[relation.parameter as int].value, rb[relation.result as int].value, relation, shape_checked)
    &&& pb[relation.parameter as int].interface == rb[relation.result as int].interface
    &&& rb[relation.result as int].interface.transfer == transfer_of(relation.access)
}

/// A guard atom tests a boolean parameter.
pub open spec fn atom_ok(pb: Seq<AbiBindingView>, atom: BorrowGuardAtom) -> bool {
    &&& atom.spec_parameter() < pb.len()
    &&& pb[atom.spec_parameter() as int].value is Scalar
    &&& pb[atom.spec_parameter() as int].value->Scalar_ty == VirType::Bool
}

/// A bounded, nonempty guard over distinct boolean parameters in increasing
/// order.
pub open spec fn guard_ok(pb: Seq<AbiBindingView>, guard: Seq<BorrowGuardAtom>) -> bool {
    &&& 0 < guard.len() <= MAX_BORROW_RESULT_GUARD_ATOMS
    &&& forall|k: int| 0 <= k < guard.len() - 1 ==> (#[trigger] guard[k]).spec_parameter() < guard[k + 1].spec_parameter()
    &&& forall|k: int| 0 <= k < guard.len() ==> atom_ok(pb, #[trigger] guard[k])
}

/// Alternative `a` has a fitting relation and an admissible guard unlike
/// every earlier guard.
pub open spec fn alternative_ok(
    memory: VirMemorySchema,
    pb: Seq<AbiBindingView>,
    rb: Seq<AbiBindingView>,
    alternatives: Seq<AlternativeView>,
    a: int,
    shape_checked: bool,
) -> bool {
    &&& relation_ok(memory, pb, rb, alternatives[a].relation, shape_checked)
    &&& guard_ok(pb, alternatives[a].guard)
    &&& forall|b: int| 0 <= b < a ==> (#[trigger] alternatives[b]).guard != alternatives[a].guard
}

/// No result other than the first is borrowed.
pub open spec fn later_results_owned(rb: Seq<AbiBindingView>) -> bool {
    forall|j: int| 1 <= j < rb.len() ==> !(#[trigger] rb[j]).interface.transfer.spec_is_borrow()
}

/// The borrow claims of a signature are admissible.
pub open spec fn claims_ok(
    memory: VirMemorySchema,
    pb: Seq<AbiBindingView>,
    rb: Seq<AbiBindingView>,
    relation: Option<BorrowResultRelation>,
    alternatives: Seq<AlternativeView>,
    shape_checked: bool,
) -> bool {
    &&& !(relation is Some && alternatives.len() > 0)
    &&& alternatives.len() <= MAX_BORROW_RESULT_ALTERNATIVES
    &&& relation matches Some(r) ==> relation_ok(memory, pb, rb, r, shape_checked) && later_results_owned(rb)
    &&& forall|a: int| 0 <= a < alternatives.len() ==> #[trigger] alternative_ok(memory, pb, rb, alternatives, a, shape_checked)
}

/// Some claim projects a part of its source, which consults the object shape.
pub open spec fn claims_project(relation: Option<BorrowResultRelation>, alternatives: Seq<AlternativeView>) -> bool {
    ||| relation matches Some(r) && r.projection != BorrowProjection::Whole
    ||| exists|a: int| 0 <= a < alternatives.len() && (#[trigger] alternatives[a]).relation.projection != BorrowProjection::Whole
}

/// The parameter whose whole mutable borrow escapes through the result.
pub open spec fn escaping(relation: Option<BorrowResultRelation>) -> Option<int> {
    match relation {
        Some(r) => if r.access == BorrowAccess::Mutable && r.projection == BorrowProjection::Whole {
            Some(r.parameter as int)
        } else {
            None
        },
        None => None,
    }
}

/// Parameter `i` hands a permission back to its caller.
pub open spec fn returns_permission(binding: AbiBindingView, i: int, escape: Option<int>) -> bool {
    escape != Some(i) && (binding.value is Slice || binding.value is IndirectAggregate || binding.interface.transfer.spec_is_borrow())
}

/// How many of the first `n` parameters hand a permission back.
pub open spec fn permission_count(pb: Seq<AbiBindingView>, escape: Option<int>, n: int) -> nat
    decreases n,
{
    if n <= 0 {
        0
    } else {
        permission_count(pb, escape, n - 1) + if returns_permission(pb[n - 1], n - 1, escape) { 1nat } else { 0nat }
    }
}

/// Parameter binding `i` with its permission result slot, if it has one.
pub open spec fn with_permission(pb: Seq<AbiBindingView>, i: int, escape: Option<int>, start: int) -> AbiBindingView {
    AbiBindingView {
        value: pb[i].value,
        interface: pb[i].interface,
        parameter_slots: pb[i].parameter_slots,
        result_slots: if returns_permission(pb[i], i, escape) {
            seq![(start + permission_count(pb, escape, i)) as u32]
        } else {
            Seq::empty()
        },
    }
}

/// The canonical signature of classified parameters and results. `legacy`
/// reads the borrow relation off raw fixtures; otherwise `relation` and
/// `alternatives` are the explicit claims.
pub open spec fn spec_build(
    memory: VirMemorySchema,
    params: Seq<AbiValueView>,
    results: Seq<AbiValueView>,
    legacy: bool,
    relation: Option<BorrowResultRelation>,
    alternatives: Seq<AlternativeView>,
    shape_checked: bool,
) -> Result<AbiSignatureView, VirAbiErrorKind> {
    match effects_error(memory, params) {
        Some(k) => Err(k),
        None => match effects_error(memory, results) {
            Some(k) => Err(k),
            None => {
                let physical_params = flat(params, param_types_fn());
                let pb = Seq::new(params.len(), |i: int| param_binding(memory, params, i));
                let rb = Seq::new(results.len(), |j: int| result_binding(memory, results, physical_params.len() as int, j));
                let rel = if legacy { legacy_relation(pb, rb) } else { relation };
                let alts = if legacy { Seq::empty() } else { alternatives };
                let escape = escaping(rel);
                let returned = flat(results, result_types_fn());
                if !claims_ok(memory, pb, rb, rel, alts, shape_checked) {
                    Err(VirAbiErrorKind::InvalidBorrowResult)
                } else {
                    Ok(AbiSignatureView {
                        parameters: Seq::new(params.len(), |i: int| with_permission(pb, i, escape, returned.len() as int)),
                        results: rb,
                        physical_parameters: physical_params + flat(results, buffer_types_fn()),
                        physical_results: returned + Seq::new(permission_count(pb, escape, params.len() as int), |k: int| VirType::Permission),
                        borrow_result: rel,
                        alternatives: alts,
                    })
                }
            },
        },
    }
}

/// Every physical slot number of the signature fits `u32`.
pub open spec fn slots_fit(params: Seq<AbiValueView>, results: Seq<AbiValueView>) -> bool {
    &&& flat(params, param_types_fn()).len() + flat(results, buffer_types_fn()).len() <= u32::MAX + 1
    &&& flat(results, result_types_fn()).len() + params.len() <= u32::MAX + 1
}

/// A signature outcome as values.
pub open spec fn signature_result(r: Result<VirAbiSignature, VirAbiError>) -> Result<AbiSignatureView, VirAbiErrorKind> {
    match r {
        Ok(s) => Ok(s@),
        Err(e) => Err(e.spec_kind()),
    }
}

/// What `build_signature` may answer: the canonical signature when it
/// succeeds; otherwise too many slots, the canonical failure, or a refused
/// projection whose object shape is not plain.
pub open spec fn built(
    memory: VirMemorySchema,
    params: Seq<AbiValueView>,
    results: Seq<AbiValueView>,
    legacy: bool,
    relation: Option<BorrowResultRelation>,
    alternatives: Seq<AlternativeView>,
    r: Result<AbiSignatureView, VirAbiErrorKind>,
) -> bool {
    match r {
        Ok(sig) => spec_build(memory, params, results, legacy, relation, alternatives, true) == Ok::<AbiSignatureView, VirAbiErrorKind>(sig),
        Err(k) => {
            ||| k == VirAbiErrorKind::TooManySlots && !slots_fit(params, results)
            ||| spec_build(memory, params, results, legacy, relation, alternatives, false) == Err::<AbiSignatureView, VirAbiErrorKind>(k)
            ||| k == VirAbiErrorKind::InvalidBorrowResult && spec_build(memory, params, results, legacy, relation, alternatives, false) is Ok
                && !legacy && claims_project(relation, alternatives)
        },
    }
}


/// The views of a vector of values.
pub open spec fn value_views(values: Seq<VirAbiValue>) -> Seq<AbiValueView> {
    values.map_values(|v: VirAbiValue| v@)
}

fn borrow_values_compatible(input: &VirAbiValue, result: &VirAbiValue) -> (r: bool)
    ensures
        r == values_compatible(input@, result@),
{
    match (input, result) {
        (VirAbiValue::Pointer { pointee: a, .. }, VirAbiValue::Pointer { pointee: b, .. }) => *a == *b,
        (VirAbiValue::Slice { element: a, .. }, VirAbiValue::Slice { element: b, .. }) => *a == *b,
        _ => input.same(result),
    }
}

/// The derived shape of `access` has neither resource leaves nor variants.
fn plain_shape(memory: &VirMemorySchema, access: VirMemoryAccess) -> (r: bool)
    ensures
        r ==> plain_object(*memory, access),
        !memory.spec_valid() || !memory.spec_resolves_access(access) ==> !r,
        crate::object_shape::shape_promised(*memory, access) ==> exists|shape: VirObjectShape|
            #[trigger] shape_matches(*memory, access, shape) && r == (shape.spec_resource_leaves().len() == 0
            && shape.spec_variants().len() == 0),
{
    match memory.object_shape(access) {
        Ok(shape) => {
            let plain = shape.resource_leaves().len() == 0 && shape.variants().len() == 0;
            proof {
                assert(shape_matches(*memory, access, shape));
            }
            plain
        },
        Err(_) => false,
    }
}

fn borrow_bound_compatible(parameters: &Vec<VirAbiBinding>, source: u32, bound: BorrowSliceBound) -> (r: bool)
    ensures
        r == bound_ok(binding_views(parameters@), source, bound),
{
    match bound {
        BorrowSliceBound::Constant(_) => true,
        BorrowSliceBound::Parameter(parameter) => {
            if (parameter as usize) < parameters.len() {
                match &parameters[parameter as usize].value {
                    VirAbiValue::Scalar { ty: VirType::U64, .. } => true,
                    _ => false,
                }
            } else {
                false
            }
        },
        BorrowSliceBound::SourceLength => {
            if (source as usize) < parameters.len() {
                match &parameters[source as usize].value {
                    VirAbiValue::Slice { .. } => true,
                    _ => false,
                }
            } else {
                false
            }
        },
    }
}

fn borrow_projection_compatible(
    memory: &VirMemorySchema,
    parameters: &Vec<VirAbiBinding>,
    input: &VirAbiValue,
    result: &VirAbiValue,
    relation: BorrowResultRelation,
) -> (r: bool)
    ensures
        r ==> projection_ok(*memory, binding_views(parameters@), input@, result@, relation, true),
        !r && projection_ok(*memory, binding_views(parameters@), input@, result@, relation, false) ==> relation.projection
            != BorrowProjection::Whole,
        !projection_ok(*memory, binding_views(parameters@), input@, result@, relation, false) ==> !r,
{
    match relation.projection {
        BorrowProjection::Whole => borrow_values_compatible(input, result),
        BorrowProjection::Fixed { offset_bytes, size_bytes, alignment } => {
            let (i, r) = match (input, result) {
                (VirAbiValue::Pointer { pointee: i, .. }, VirAbiValue::Pointer { pointee: r, .. }) => (*i, *r),
                _ => {
                    return false;
                },
            };
            let (input_layout, result_layout) = match (memory.layout(i.layout), memory.layout(r.layout)) {
                (Some(a), Some(b)) => (a, b),
                _ => {
                    return false;
                },
            };
            if !(size_bytes == result_layout.size_bytes && alignment == result_layout.alignment && is_power_of_two(alignment)) {
                return false;
            }
            if offset_bytes % alignment != 0 {
                return false;
            }
            match offset_bytes.checked_add(size_bytes) {
                Some(end) => if end > input_layout.size_bytes {
                    return false;
                },
                None => {
                    return false;
                },
            }
            plain_shape(memory, r)
        },
        BorrowProjection::Slice { start, end, stride_bytes, alignment } => {
            let (i, r) = match (input, result) {
                (VirAbiValue::Slice { element: i, .. }, VirAbiValue::Slice { element: r, .. }) => (*i, *r),
                _ => {
                    return false;
                },
            };
            let layout = match memory.layout(i.layout) {
                Some(l) => l,
                None => {
                    return false;
                },
            };
            let ordered = match (start, end) {
                (BorrowSliceBound::Constant(a), BorrowSliceBound::Constant(b)) => a <= b,
                _ => true,
            };
            if !(i == r && stride_bytes == layout.size_bytes && alignment == layout.alignment && is_power_of_two(alignment)
                && borrow_bound_compatible(parameters, relation.parameter, start) && borrow_bound_compatible(
                parameters,
                relation.parameter,
                end,
            ) && ordered) {
                return false;
            }
            plain_shape(memory, r)
        },
    }
}

fn relation_admissible(
    memory: &VirMemorySchema,
    parameters: &Vec<VirAbiBinding>,
    results: &Vec<VirAbiBinding>,
    relation: BorrowResultRelation,
) -> (r: bool)
    ensures
        r ==> relation_ok(*memory, binding_views(parameters@), binding_views(results@), relation, true),
        !r && relation_ok(*memory, binding_views(parameters@), binding_views(results@), relation, false) ==> relation.projection
            != BorrowProjection::Whole,
        !relation_ok(*memory, binding_views(parameters@), binding_views(results@), relation, false) ==> !r,
{
    if (relation.parameter as usize) >= parameters.len() || (relation.result as usize) >= results.len() {
        return false;
    }
    let input = &parameters[relation.parameter as usize];
    let result = &results[relation.result as usize];
    let transfer = match relation.access {
        BorrowAccess::Shared => VirInterfaceTransfer::BorrowShared,
        BorrowAccess::Mutable => VirInterfaceTransfer::BorrowMutable,
    };
    if relation.result != 0 || input.interface != result.interface || result.interface.transfer != transfer {
        return false;
    }
    borrow_projection_compatible(memory, parameters, &input.value, &result.value, relation)
}

fn same_guard(a: &Vec<BorrowGuardAtom>, b: &Vec<BorrowGuardAtom>) -> (r: bool)
    ensures
        r == (a@ == b@),
{
    if a.len() != b.len() {
        return false;
    }
    let mut i: usize = 0;
    while i < a.len()
        invariant
            0 <= i <= a@.len(),
            a@.len() == b@.len(),
            forall|j: int| 0 <= j < i ==> a@[j] == b@[j],
        decreases a.len() - i,
    {
        if a[i] != b[i] {
            assert(a@[i as int] != b@[i as int]);
            return false;
        }
        i = i + 1;
    }
    assert(a@ =~= b@);
    true
}

fn guard_admissible(parameters: &Vec<VirAbiBinding>, guard: &Vec<BorrowGuardAtom>) -> (r: bool)
    ensures
        r == guard_ok(binding_views(parameters@), guard@),
{
    let ghost pb = binding_views(parameters@);
    if guard.len() == 0 || guard.len() > MAX_BORROW_RESULT_GUARD_ATOMS {
        return false;
    }
    let mut k: usize = 0;
    while k + 1 < guard.len()
        invariant
            0 < guard@.len(),
            0 <= k < guard@.len(),
            forall|j: int| 0 <= j < k ==> (#[trigger] guard@[j]).spec_parameter() < guard@[j + 1].spec_parameter(),
        decreases guard.len() - k,
    {
        let left = guard[k];
        let right = guard[k + 1];
        if !left.precedes(right) || left.parameter() == right.parameter() {
            return false;
        }
        k = k + 1;
    }
    let mut k: usize = 0;
    while k < guard.len()
        invariant
            0 <= k <= guard@.len(),
            pb == binding_views(parameters@),
            forall|j: int| 0 <= j < guard@.len() - 1 ==> (#[trigger] guard@[j]).spec_parameter() < guard@[j + 1].spec_parameter(),
            0 < guard@.len() <= MAX_BORROW_RESULT_GUARD_ATOMS,
            forall|j: int| 0 <= j < k ==> atom_ok(pb, #[trigger] guard@[j]),
        decreases guard.len() - k,
    {
        let parameter = guard[k].parameter() as usize;
        if parameter >= parameters.len() {
            assert(!atom_ok(pb, guard@[k as int]));
            return false;
        }
        proof {
            assert(pb[parameter as int] == parameters@[parameter as int]@);
        }
        match &parameters[parameter].value {
            VirAbiValue::Scalar { ty: VirType::Bool, .. } => {},
            _ => {
                assert(!atom_ok(pb, guard@[k as int]));
                return false;
            },
        }
        k = k + 1;
    }
    true
}

/// Checking a claim with its object shape is at least as strict as without.
proof fn lemma_claims_shape_strict(
    memory: VirMemorySchema,
    pb: Seq<AbiBindingView>,
    rb: Seq<AbiBindingView>,
    relation: Option<BorrowResultRelation>,
    alternatives: Seq<AlternativeView>,
)
    ensures
        claims_ok(memory, pb, rb, relation, alternatives, true) ==> claims_ok(memory, pb, rb, relation, alternatives, false),
{
    if claims_ok(memory, pb, rb, relation, alternatives, true) {
        assert forall|a: int| 0 <= a < alternatives.len() implies #[trigger] alternative_ok(memory, pb, rb, alternatives, a, false) by {
            assert(alternative_ok(memory, pb, rb, alternatives, a, true));
        }
    }
}

fn relation_part_admissible(
    memory: &VirMemorySchema,
    parameters: &Vec<VirAbiBinding>,
    results: &Vec<VirAbiBinding>,
    relation: BorrowResultRelation,
) -> (r: bool)
    ensures
        r ==> relation_ok(*memory, binding_views(parameters@), binding_views(results@), relation, true) && later_results_owned(
            binding_views(results@),
        ),
        !r && relation_ok(*memory, binding_views(parameters@), binding_views(results@), relation, false) && later_results_owned(
            binding_views(results@),
        ) ==> relation.projection != BorrowProjection::Whole,
        !(relation_ok(*memory, binding_views(parameters@), binding_views(results@), relation, false) && later_results_owned(
            binding_views(results@),
        )) ==> !r,
{
    let ghost rb = binding_views(results@);
    if !relation_admissible(memory, parameters, results, relation) {
        return false;
    }
    let mut j: usize = 1;
    while j < results.len()
        invariant
            1 <= j,
            rb == binding_views(results@),
            forall|k: int| 1 <= k < j && k < rb.len() ==> !(#[trigger] rb[k]).interface.transfer.spec_is_borrow(),
        decreases results.len() - j,
    {
        if results[j].interface.transfer.is_borrow() {
            assert(rb[j as int] == results@[j as int]@);
            assert(!later_results_owned(rb));
            return false;
        }
        j = j + 1;
    }
    true
}

fn alternative_admissible(
    memory: &VirMemorySchema,
    parameters: &Vec<VirAbiBinding>,
    results: &Vec<VirAbiBinding>,
    alternatives: &Vec<BorrowResultAlternative>,
    a: usize,
) -> (r: bool)
    requires
        a < alternatives@.len(),
    ensures
        r ==> alternative_ok(*memory, binding_views(parameters@), binding_views(results@), alternative_views(alternatives@), a as int, true),
        !r && alternative_ok(*memory, binding_views(parameters@), binding_views(results@), alternative_views(alternatives@), a as int, false)
            ==> alternatives@[a as int].relation.projection != BorrowProjection::Whole,
        !alternative_ok(*memory, binding_views(parameters@), binding_views(results@), alternative_views(alternatives@), a as int, false)
            ==> !r,
{
    let ghost alts = alternative_views(alternatives@);
    let alternative = &alternatives[a];
    proof {
        assert(alts[a as int] == alternatives@[a as int]@);
    }
    let mut b: usize = 0;
    while b < a
        invariant
            0 <= b <= a < alternatives@.len(),
            alts == alternative_views(alternatives@),
            *alternative == alternatives@[a as int],
            forall|c: int| 0 <= c < b ==> (#[trigger] alts[c]).guard != alts[a as int].guard,
        decreases a - b,
    {
        proof {
            assert(alts[b as int] == alternatives@[b as int]@);
        }
        if same_guard(&alternatives[b].guard, &alternative.guard) {
            return false;
        }
        b = b + 1;
    }
    if !guard_admissible(parameters, &alternative.guard) {
        return false;
    }
    relation_admissible(memory, parameters, results, alternative.relation)
}

fn claims_admissible(
    memory: &VirMemorySchema,
    parameters: &Vec<VirAbiBinding>,
    results: &Vec<VirAbiBinding>,
    relation: Option<BorrowResultRelation>,
    alternatives: &Vec<BorrowResultAlternative>,
) -> (r: bool)
    ensures
        r ==> claims_ok(*memory, binding_views(parameters@), binding_views(results@), relation, alternative_views(alternatives@), true),
        !r && claims_ok(*memory, binding_views(parameters@), binding_views(results@), relation, alternative_views(alternatives@), false)
            ==> claims_project(relation, alternative_views(alternatives@)),
        !claims_ok(*memory, binding_views(parameters@), binding_views(results@), relation, alternative_views(alternatives@), false) ==> !r,
{
    let ghost pb = binding_views(parameters@);
    let ghost rb = binding_views(results@);
    let ghost alts = alternative_views(alternatives@);
    proof {
        lemma_claims_shape_strict(*memory, pb, rb, relation, alts);
    }
    if relation.is_some() && alternatives.len() != 0 {
        return false;
    }
    if alternatives.len() > MAX_BORROW_RESULT_ALTERNATIVES {
        return false;
    }
    match relation {
        Some(rel) => {
            if !relation_part_admissible(memory, parameters, results, rel) {
                return false;
            }
        },
        None => {},
    }
    let mut a: usize = 0;
    while a < alternatives.len()
        invariant
            0 <= a <= alternatives@.len(),
            pb == binding_views(parameters@),
            rb == binding_views(results@),
            alts == alternative_views(alternatives@),
            relation is Some ==> alternatives@.len() == 0,
            alternatives@.len() <= MAX_BORROW_RESULT_ALTERNATIVES,
            relation matches Some(rel) ==> relation_ok(*memory, pb, rb, rel, true) && later_results_owned(rb),
            forall|b: int| 0 <= b < a ==> #[trigger] alternative_ok(*memory, pb, rb, alts, b, true),
        decreases alternatives.len() - a,
    {
        if !alternative_admissible(memory, parameters, results, alternatives, a) {
            proof {
                if claims_ok(*memory, pb, rb, relation, alts, false) {
                    assert(alternative_ok(*memory, pb, rb, alts, a as int, false));
                    assert(alts[a as int] == alternatives@[a as int]@);
                    assert(claims_project(relation, alts));
                }
            }
            return false;
        }
        a = a + 1;
    }
    true
}

/// One more value extends the concatenation by its part.
proof fn lemma_flat_step(values: Seq<AbiValueView>, i: int, f: spec_fn(AbiValueView) -> Seq<VirType>)
    requires
        0 <= i < values.len(),
    ensures
        flat(values.take(i + 1), f) == flat(values.take(i), f) + f(values[i]),
{
    assert(values.take(i + 1).drop_last() == values.take(i));
    assert(values.take(i + 1).last() == values[i]);
}

/// A prefix's concatenation is no longer than the whole one.
proof fn lemma_flat_len_mono(values: Seq<AbiValueView>, n: int, f: spec_fn(AbiValueView) -> Seq<VirType>)
    requires
        0 <= n <= values.len(),
    ensures
        flat(values.take(n), f).len() <= flat(values, f).len(),
    decreases values.len() - n,
{
    if n < values.len() {
        lemma_flat_step(values, n, f);
        lemma_flat_len_mono(values, n + 1, f);
    } else {
        assert(values.take(n) == values);
    }
}

/// One more value either keeps the first failure or adds its own.
proof fn lemma_effects_step(memory: VirMemorySchema, values: Seq<AbiValueView>, i: int)
    requires
        0 <= i < values.len(),
    ensures
        effects_error(memory, values.take(i + 1)) == match effects_error(memory, values.take(i)) {
            Some(k) => Some(k),
            None => match spec_interface_effect(memory, values[i]) {
                Err(k) => Some(k),
                Ok(_) => None,
            },
        },
{
    assert(values.take(i + 1).drop_last() == values.take(i));
    assert(values.take(i + 1).last() == values[i]);
}

/// A failure in a prefix is the first failure of the whole.
proof fn lemma_effects_prefix(memory: VirMemorySchema, values: Seq<AbiValueView>, n: int)
    requires
        0 <= n <= values.len(),
        effects_error(memory, values.take(n)) is Some,
    ensures
        effects_error(memory, values) == effects_error(memory, values.take(n)),
    decreases values.len() - n,
{
    if n < values.len() {
        lemma_effects_step(memory, values, n);
        lemma_effects_prefix(memory, values, n + 1);
    } else {
        assert(values.take(n) == values);
    }
}

/// At most `n` of the first `n` parameters hand a permission back.
proof fn lemma_permission_count_bound(pb: Seq<AbiBindingView>, escape: Option<int>, n: int)
    requires
        0 <= n,
    ensures
        permission_count(pb, escape, n) <= n,
    decreases n,
{
    if n > 0 {
        lemma_permission_count_bound(pb, escape, n - 1);
    }
}

fn copy_slots(slots: &Vec<u32>) -> (r: Vec<u32>)
    ensures
        r@ == slots@,
{
    let mut out: Vec<u32> = Vec::new();
    let mut i: usize = 0;
    while i < slots.len()
        invariant
            0 <= i <= slots@.len(),
            out@ == slots@.take(i as int),
        decreases slots.len() - i,
    {
        out.push(slots[i]);
        assert(slots@.take(i + 1) == slots@.take(i as int).push(slots@[i as int]));
        i = i + 1;
    }
    assert(slots@.take(slots@.len() as int) == slots@);
    out
}

fn legacy_borrow_relation(parameters: &Vec<VirAbiBinding>, results: &Vec<VirAbiBinding>) -> (r: Option<BorrowResultRelation>)
    ensures
        r == legacy_relation(binding_views(parameters@), binding_views(results@)),
{
    let ghost pb = binding_views(parameters@);
    let ghost rb = binding_views(results@);
    let mut found: Option<usize> = None;
    let mut i: usize = 0;
    while i < parameters.len()
        invariant
            0 <= i <= parameters@.len(),
            pb == binding_views(parameters@),
            match found {
                None => forall|j: int| 0 <= j < i ==> !(#[trigger] pb[j]).interface.transfer.spec_is_borrow(),
                Some(f) => f < i && pb[f as int].interface.transfer.spec_is_borrow() && forall|j: int|
                    0 <= j < i && j != f ==> !(#[trigger] pb[j]).interface.transfer.spec_is_borrow(),
            },
        decreases parameters.len() - i,
    {
        proof {
            assert(pb[i as int] == parameters@[i as int]@);
        }
        if parameters[i].interface.transfer.is_borrow() {
            match found {
                Some(f) => {
                    proof {
                        assert forall|k: int| !sole_borrow(pb, k) by {
                            if sole_borrow(pb, k) {
                                if k != f as int {
                                    assert(pb[f as int].interface.transfer.spec_is_borrow());
                                } else {
                                    assert(pb[i as int].interface.transfer.spec_is_borrow());
                                }
                            }
                        }
                    }
                    return None;
                },
                None => {
                    found = Some(i);
                },
            }
        }
        i = i + 1;
    }
    match found {
        None => {
            proof {
                assert forall|k: int| !sole_borrow(pb, k) by {
                    if sole_borrow(pb, k) {
                        assert(pb[k].interface.transfer.spec_is_borrow());
                    }
                }
            }
            None
        },
        Some(f) => {
            proof {
                assert(sole_borrow(pb, f as int));
                assert forall|k: int| #[trigger] sole_borrow(pb, k) implies k == f as int by {
                    if k != f as int {
                        assert(pb[f as int].interface.transfer.spec_is_borrow());
                    }
                }
            }
            if results.len() == 0 {
                return None;
            }
            let input = &parameters[f];
            let result = &results[0];
            proof {
                assert(pb[f as int] == parameters@[f as int]@);
                assert(rb[0] == results@[0]@);
            }
            if input.value.same(&result.value) && input.interface == result.interface {
                let access = if result.interface.transfer == VirInterfaceTransfer::BorrowMutable {
                    BorrowAccess::Mutable
                } else {
                    BorrowAccess::Shared
                };
                Some(BorrowResultRelation { parameter: f as u32, result: 0, access, projection: BorrowProjection::Whole })
            } else {
                None
            }
        },
    }
}


/// Assigns physical slots to classified parameters and results, settles the
/// borrow claims and hands permissions back for lent parameters.
#[verifier::rlimit(60)]
fn build_signature(
    memory: &VirMemorySchema,
    parameter_values: &Vec<VirAbiValue>,
    result_values: &Vec<VirAbiValue>,
    legacy: bool,
    relation: Option<BorrowResultRelation>,
    alternatives: Vec<BorrowResultAlternative>,
) -> (r: Result<VirAbiSignature, VirAbiError>)
    ensures
        built(*memory, value_views(parameter_values@), value_views(result_values@), legacy, relation, alternative_views(alternatives@),
            signature_result(r)),
{
    let ghost params = value_views(parameter_values@);
    let ghost results_v = value_views(result_values@);
    let ghost pf = param_types_fn();
    let ghost bf = buffer_types_fn();
    let ghost rf = result_types_fn();
    let mut physical_parameters: Vec<VirType> = Vec::new();
    let mut physical_results: Vec<VirType> = Vec::new();
    let mut parameters: Vec<VirAbiBinding> = Vec::new();
    let mut i: usize = 0;
    while i < parameter_values.len()
        invariant
            0 <= i <= parameter_values@.len(),
            params == value_views(parameter_values@),
            pf == param_types_fn(),
            physical_parameters@ == flat(params.take(i as int), pf),
            effects_error(*memory, params.take(i as int)) is None,
            parameters@.len() == i,
            forall|k: int| 0 <= k < i ==> (#[trigger] parameters@[k])@ == param_binding(*memory, params, k),
        decreases parameter_values.len() - i,
    {
        proof {
            lemma_flat_step(params, i as int, pf);
            lemma_effects_step(*memory, params, i as int);
            lemma_flat_len_mono(params, i + 1, pf);
            assert(params[i as int] == parameter_values@[i as int]@);
        }
        let value = parameter_values[i].copy();
        let types = param_types_of(&value);
        let parameter_slots = append_slots(&mut physical_parameters, &types)?;
        let interface = match interface_effect(memory, &value) {
            Ok(effect) => effect,
            Err(e) => {
                proof {
                    lemma_effects_prefix(*memory, params, i + 1);
                }
                return Err(e);
            },
        };
        let binding = VirAbiBinding { value, interface, parameter_slots, result_slots: Vec::new() };
        proof {
            let pbv = param_binding(*memory, params, i as int);
            assert(binding@.value == pbv.value);
            assert(binding@.interface == pbv.interface);
            assert(binding@.parameter_slots == pbv.parameter_slots);
            assert(binding@.result_slots == pbv.result_slots);
            assert(binding@ == param_binding(*memory, params, i as int));
        }
        parameters.push(binding);
        i = i + 1;
    }
    proof {
        assert(params.take(params.len() as int) == params);
    }
    let ghost start = physical_parameters@.len() as int;
    let mut results: Vec<VirAbiBinding> = Vec::new();
    let mut j: usize = 0;
    while j < result_values.len()
        invariant
            0 <= j <= result_values@.len(),
            params == value_views(parameter_values@),
            results_v == value_views(result_values@),
            bf == buffer_types_fn(),
            rf == result_types_fn(),
            pf == param_types_fn(),
            start == flat(params, pf).len(),
            physical_parameters@ == flat(params, pf) + flat(results_v.take(j as int), bf),
            physical_results@ == flat(results_v.take(j as int), rf),
            effects_error(*memory, params) is None,
            effects_error(*memory, results_v.take(j as int)) is None,
            results@.len() == j,
            forall|k: int| 0 <= k < j ==> (#[trigger] results@[k])@ == result_binding(*memory, results_v, start, k),
        decreases result_values.len() - j,
    {
        proof {
            lemma_flat_step(results_v, j as int, bf);
            lemma_flat_step(results_v, j as int, rf);
            lemma_effects_step(*memory, results_v, j as int);
            lemma_flat_len_mono(results_v, j + 1, bf);
            lemma_flat_len_mono(results_v, j + 1, rf);
            assert(results_v[j as int] == result_values@[j as int]@);
        }
        let value = result_values[j].copy();
        let buffer = buffer_types_of(&value);
        let parameter_slots = append_slots(&mut physical_parameters, &buffer)?;
        let interface = match interface_effect(memory, &value) {
            Ok(effect) => effect,
            Err(e) => {
                proof {
                    lemma_effects_prefix(*memory, results_v, j + 1);
                }
                return Err(e);
            },
        };
        let returned = result_types_of(&value);
        let result_slots = append_slots(&mut physical_results, &returned)?;
        let binding = VirAbiBinding { value, interface, parameter_slots, result_slots };
        proof {
            assert(binding@ == result_binding(*memory, results_v, start, j as int));
        }
        results.push(binding);
        j = j + 1;
    }
    proof {
        assert(results_v.take(results_v.len() as int) == results_v);
    }
    let ghost pb = Seq::new(params.len(), |k: int| param_binding(*memory, params, k));
    let ghost rb = Seq::new(results_v.len(), |k: int| result_binding(*memory, results_v, start, k));
    proof {
        assert(binding_views(parameters@) =~= pb);
        assert(binding_views(results@) =~= rb);
    }
    let (rel, alts) = if legacy {
        (legacy_borrow_relation(&parameters, &results), Vec::new())
    } else {
        (relation, alternatives)
    };
    proof {
        if legacy {
            assert(alternative_views(alts@) =~= Seq::<AlternativeView>::empty());
        }
    }
    if !claims_admissible(memory, &parameters, &results, rel, &alts) {
        return Err(abi_error(VirAbiErrorKind::InvalidBorrowResult));
    }
    let escape: Option<usize> = match rel {
        Some(r) => if r.access == BorrowAccess::Mutable && r.projection == BorrowProjection::Whole {
            Some(r.parameter as usize)
        } else {
            None
        },
        None => None,
    };
    let ghost esc = escaping(rel);
    let ghost returned_len = physical_results@.len() as int;
    let ghost returned = physical_results@;
    let mut i: usize = 0;
    while i < parameters.len()
        invariant
            0 <= i <= parameters@.len(),
            parameters@.len() == params.len(),
            params == value_views(parameter_values@),
            results_v == value_views(result_values@),
            pb == Seq::new(params.len(), |k: int| param_binding(*memory, params, k)),
            rb == Seq::new(results_v.len(), |k: int| result_binding(*memory, results_v, start, k)),
            binding_views(results@) == rb,
            effects_error(*memory, params) is None,
            effects_error(*memory, results_v) is None,
            claims_ok(*memory, pb, rb, rel, alternative_views(alts@), true),
            rel == (if legacy { legacy_relation(pb, rb) } else { relation }),
            alternative_views(alts@) == (if legacy { Seq::empty() } else { alternative_views(alternatives@) }),
            physical_parameters@ == flat(params, param_types_fn()) + flat(results_v, buffer_types_fn()),
            esc == escaping(rel),
            escape matches Some(e) ==> esc == Some(e as int),
            escape is None ==> esc is None,
            returned_len == returned.len(),
            returned == flat(results_v, result_types_fn()),
            start == flat(params, param_types_fn()).len(),
            physical_results@ == returned + Seq::new(permission_count(pb, esc, i as int), |k: int| VirType::Permission),
            forall|k: int| 0 <= k < i ==> (#[trigger] parameters@[k])@ == with_permission(pb, k, esc, returned_len),
            forall|k: int| i <= k < parameters@.len() ==> (#[trigger] parameters@[k])@ == pb[k],
        decreases parameters.len() - i,
    {
        let gets = match escape {
            Some(e) => e != i,
            None => true,
        } && (parameters[i].value.is_indirect_aggregate() || match &parameters[i].value {
            VirAbiValue::Slice { .. } => true,
            _ => false,
        } || parameters[i].interface.transfer.is_borrow());
        proof {
            assert(gets == returns_permission(pb[i as int], i as int, esc));
        }
        if gets {
            proof {
                lemma_permission_count_bound(pb, esc, i as int);
            }
            let slot = append_slot(&mut physical_results, VirType::Permission)?;
            let ghost before = parameters@;
            let mut binding = parameters.remove(i);
            binding.result_slots = vec![slot];
            proof {
                let w = with_permission(pb, i as int, esc, returned_len);
                assert(binding@.value == w.value);
                assert(binding@.interface == w.interface);
                assert(binding@.parameter_slots == w.parameter_slots);
                assert(slot as int == returned_len + permission_count(pb, esc, i as int));
                assert(binding@.result_slots == w.result_slots);
                assert(binding@ == with_permission(pb, i as int, esc, returned_len));
            }
            parameters.insert(i, binding);
            proof {
                assert(parameters@ =~= before.update(i as int, binding));
                assert(physical_results@ =~= returned + Seq::new(permission_count(pb, esc, i + 1), |k: int| VirType::Permission));
            }
        } else {
            proof {
                assert(parameters@[i as int]@ == with_permission(pb, i as int, esc, returned_len));
            }
        }
        i = i + 1;
    }
    let signature = VirAbiSignature {
        parameters,
        results,
        physical: VirSignature { parameters: physical_parameters, results: physical_results },
        borrow_result: rel,
        borrow_result_alternatives: alts,
    };
    proof {
        assert(binding_views(signature.parameters@) =~= Seq::new(params.len(), |k: int| with_permission(pb, k, esc, returned_len)));
    }
    Ok(signature)
}


/// Every value classifies the access at its position.
pub open spec fn classified_all(memory: VirMemorySchema, accesses: Seq<VirMemoryAccess>, values: Seq<AbiValueView>) -> bool {
    &&& values.len() == accesses.len()
    &&& forall|k: int| 0 <= k < accesses.len() ==> classified(memory, accesses[k], Ok(#[trigger] values[k]))
}

/// Classification of `accesses` fails with `kind` at some position, every
/// earlier access classifying.
pub open spec fn classification_fails(memory: VirMemorySchema, accesses: Seq<VirMemoryAccess>, kind: VirAbiErrorKind) -> bool {
    exists|k: int, earlier: Seq<AbiValueView>| 0 <= k < accesses.len() && #[trigger] classified_all(memory, accesses.take(k), earlier)
        && classified(memory, accesses[k], Err(kind))
}

fn classify_values(memory: &VirMemorySchema, accesses: &[VirMemoryAccess]) -> (r: Result<Vec<VirAbiValue>, VirAbiError>)
    ensures
        match r {
            Ok(values) => classified_all(*memory, accesses@, value_views(values@)),
            Err(e) => classification_fails(*memory, accesses@, e.spec_kind()),
        },
{
    let mut values: Vec<VirAbiValue> = Vec::new();
    let mut i: usize = 0;
    while i < accesses.len()
        invariant
            0 <= i <= accesses@.len(),
            classified_all(*memory, accesses@.take(i as int), value_views(values@)),
        decreases accesses.len() - i,
    {
        let value = match classify_value(memory, accesses[i]) {
            Ok(v) => v,
            Err(e) => {
                proof {
                    assert(classified_all(*memory, accesses@.take(i as int), value_views(values@)));
                }
                return Err(e);
            },
        };
        let ghost before = value_views(values@);
        values.push(value);
        proof {
            assert(value_views(values@) =~= before.push(value@));
            assert forall|k: int| 0 <= k < i + 1 implies classified(*memory, accesses@.take(i + 1)[k], Ok(#[trigger] value_views(values@)[k])) by {
                if k < i {
                    assert(accesses@.take(i + 1)[k] == accesses@.take(i as int)[k]);
                }
            }
        }
        i = i + 1;
    }
    assert(accesses@.take(accesses@.len() as int) == accesses@);
    Ok(values)
}

/// What a classification of explicit accesses may answer: the canonical
/// build of some classification of them, or the first classification failure.
pub open spec fn classifies_to(
    memory: VirMemorySchema,
    parameter_accesses: Seq<VirMemoryAccess>,
    result_accesses: Seq<VirMemoryAccess>,
    legacy: bool,
    relation: Option<BorrowResultRelation>,
    alternatives: Seq<AlternativeView>,
    r: Result<AbiSignatureView, VirAbiErrorKind>,
) -> bool {
    ||| (r matches Err(k) && classification_fails(memory, parameter_accesses, k))
    ||| exists|pv: Seq<AbiValueView>| #[trigger] classified_all(memory, parameter_accesses, pv) && (r matches Err(k)
        && classification_fails(memory, result_accesses, k))
    ||| exists|pv: Seq<AbiValueView>, rv: Seq<AbiValueView>| #[trigger] classified_all(memory, parameter_accesses, pv)
        && #[trigger] classified_all(memory, result_accesses, rv) && built(memory, pv, rv, legacy, relation, alternatives, r)
}

/// The identity map of a physical signature: every slot is its own opaque
/// value.
pub open spec fn identity_view(parameters: Seq<VirType>, results: Seq<VirType>) -> AbiSignatureView {
    AbiSignatureView {
        parameters: Seq::new(parameters.len(), |i: int| AbiBindingView {
            value: AbiValueView::Opaque(parameters[i]),
            interface: VirInterfaceEffect { transfer: VirInterfaceTransfer::Opaque, storage: VirInterfaceStorage::Opaque },
            parameter_slots: seq![i as u32],
            result_slots: Seq::empty(),
        }),
        results: Seq::new(results.len(), |i: int| AbiBindingView {
            value: AbiValueView::Opaque(results[i]),
            interface: VirInterfaceEffect { transfer: VirInterfaceTransfer::Opaque, storage: VirInterfaceStorage::Opaque },
            parameter_slots: Seq::empty(),
            result_slots: seq![i as u32],
        }),
        physical_parameters: parameters,
        physical_results: results,
        borrow_result: None,
        alternatives: Seq::empty(),
    }
}

fn identity_bindings(types: &Vec<VirType>, parameter_side: bool) -> (r: Vec<VirAbiBinding>)
    requires
        types@.len() <= u32::MAX + 1,
    ensures
        binding_views(r@) == (if parameter_side {
            identity_view(types@, Seq::empty()).parameters
        } else {
            identity_view(Seq::empty(), types@).results
        }),
{
    let mut out: Vec<VirAbiBinding> = Vec::new();
    let mut i: usize = 0;
    while i < types.len()
        invariant
            0 <= i <= types@.len(),
            types@.len() <= u32::MAX + 1,
            out@.len() == i,
            forall|k: int| 0 <= k < i ==> (#[trigger] out@[k])@ == (if parameter_side {
                identity_view(types@, Seq::empty()).parameters[k]
            } else {
                identity_view(Seq::empty(), types@).results[k]
            }),
        decreases types.len() - i,
    {
        let slot = i as u32;
        let binding = if parameter_side {
            VirAbiBinding {
                value: VirAbiValue::Opaque(types[i]),
                interface: VirInterfaceEffect { transfer: VirInterfaceTransfer::Opaque, storage: VirInterfaceStorage::Opaque },
                parameter_slots: vec![slot],
                result_slots: Vec::new(),
            }
        } else {
            VirAbiBinding {
                value: VirAbiValue::Opaque(types[i]),
                interface: VirInterfaceEffect { transfer: VirInterfaceTransfer::Opaque, storage: VirInterfaceStorage::Opaque },
                parameter_slots: Vec::new(),
                result_slots: vec![slot],
            }
        };
        proof {
            if parameter_side {
                let w = identity_view(types@, Seq::empty()).parameters[i as int];
                assert(binding@.parameter_slots =~= w.parameter_slots);
                assert(binding@.result_slots =~= w.result_slots);
                assert(binding@ == w);
            } else {
                let w = identity_view(Seq::empty(), types@).results[i as int];
                assert(binding@.parameter_slots =~= w.parameter_slots);
                assert(binding@.result_slots =~= w.result_slots);
                assert(binding@ == w);
            }
        }
        out.push(binding);
        i = i + 1;
    }
    proof {
        if parameter_side {
            assert(binding_views(out@) =~= identity_view(types@, Seq::empty()).parameters);
        } else {
            assert(binding_views(out@) =~= identity_view(Seq::empty(), types@).results);
        }
    }
    out
}

impl VirAbiSignature {
    /// The compatibility identity map of hand-authored physical VIR.
    pub fn identity(physical: &VirSignature) -> (r: Self)
        requires
            physical.parameters@.len() <= u32::MAX + 1,
            physical.results@.len() <= u32::MAX + 1,
        ensures
            r@ == identity_view(physical.parameters@, physical.results@),
    {
        let parameters = identity_bindings(&physical.parameters, true);
        let results = identity_bindings(&physical.results, false);
        let signature = VirAbiSignature {
            parameters,
            results,
            physical: physical.copy(),
            borrow_result: None,
            borrow_result_alternatives: Vec::new(),
        };
        proof {
            assert(alternative_views(signature.borrow_result_alternatives@) =~= Seq::<AlternativeView>::empty());
            assert(binding_views(signature.parameters@) == identity_view(physical.parameters@, physical.results@).parameters);
            assert(binding_views(signature.results@) == identity_view(physical.parameters@, physical.results@).results);
        }
        signature
    }

    /// Classifies source-level parameter and result accesses against a
    /// validated memory schema, reading the borrow relation off raw fixtures.
    pub fn classify(memory: &VirMemorySchema, parameter_accesses: &[VirMemoryAccess], result_accesses: &[VirMemoryAccess]) -> (r:
        Result<Self, VirAbiError>)
        ensures
            !memory.spec_valid() ==> (r matches Err(e) && e.spec_kind() == VirAbiErrorKind::InvalidMemorySchema),
            memory.spec_valid() ==> classifies_to(*memory, parameter_accesses@, result_accesses@, true, None, Seq::empty(),
                signature_result(r)),
    {
        if memory.validate().is_err() {
            return Err(abi_error(VirAbiErrorKind::InvalidMemorySchema));
        }
        Self::classify_validated(memory, parameter_accesses, result_accesses)
    }

    /// The classification of `classify` for a schema already validated.
    pub fn classify_validated(memory: &VirMemorySchema, parameter_accesses: &[VirMemoryAccess], result_accesses: &[VirMemoryAccess]) -> (r:
        Result<Self, VirAbiError>)
        ensures
            classifies_to(*memory, parameter_accesses@, result_accesses@, true, None, Seq::empty(), signature_result(r)),
    {
        let none: Vec<BorrowResultAlternative> = Vec::new();
        proof {
            assert(alternative_views(none@) =~= Seq::<AlternativeView>::empty());
        }
        Self::classify_explicit(memory, parameter_accesses, result_accesses, true, None, none)
    }

    fn classify_explicit(
        memory: &VirMemorySchema,
        parameter_accesses: &[VirMemoryAccess],
        result_accesses: &[VirMemoryAccess],
        legacy: bool,
        borrow_result: Option<BorrowResultRelation>,
        alternatives: Vec<BorrowResultAlternative>,
    ) -> (r: Result<Self, VirAbiError>)
        ensures
            classifies_to(*memory, parameter_accesses@, result_accesses@, legacy, borrow_result, alternative_views(alternatives@),
                signature_result(r)),
    {
        let parameters = classify_values(memory, parameter_accesses)?;
        let results = match classify_values(memory, result_accesses) {
            Ok(v) => v,
            Err(e) => {
                proof {
                    assert(classified_all(*memory, parameter_accesses@, value_views(parameters@)));
                }
                return Err(e);
            },
        };
        let r = build_signature(memory, &parameters, &results, legacy, borrow_result, alternatives);
        proof {
            assert(classified_all(*memory, parameter_accesses@, value_views(parameters@)));
            assert(classified_all(*memory, result_accesses@, value_views(results@)));
        }
        r
    }

    /// Classifies slots using an explicit borrow-result claim.
    pub fn classify_with_borrow_result(
        memory: &VirMemorySchema,
        parameter_accesses: &[VirMemoryAccess],
        result_accesses: &[VirMemoryAccess],
        borrow_result: Option<BorrowResultRelation>,
    ) -> (r: Result<Self, VirAbiError>)
        ensures
            !memory.spec_valid() ==> (r matches Err(e) && e.spec_kind() == VirAbiErrorKind::InvalidMemorySchema),
            memory.spec_valid() ==> classifies_to(*memory, parameter_accesses@, result_accesses@, false, borrow_result, Seq::empty(),
                signature_result(r)),
    {
        if memory.validate().is_err() {
            return Err(abi_error(VirAbiErrorKind::InvalidMemorySchema));
        }
        let none: Vec<BorrowResultAlternative> = Vec::new();
        proof {
            assert(alternative_views(none@) =~= Seq::<AlternativeView>::empty());
        }
        Self::classify_explicit(memory, parameter_accesses, result_accesses, false, borrow_result, none)
    }

    /// Classifies slots using bounded guarded borrow-result claims.
    pub fn classify_with_borrow_results(
        memory: &VirMemorySchema,
        parameter_accesses: &[VirMemoryAccess],
        result_accesses: &[VirMemoryAccess],
        borrow_result: Option<BorrowResultRelation>,
        alternatives: Vec<BorrowResultAlternative>,
    ) -> (r: Result<Self, VirAbiError>)
        ensures
            !memory.spec_valid() ==> (r matches Err(e) && e.spec_kind() == VirAbiErrorKind::InvalidMemorySchema),
            memory.spec_valid() ==> classifies_to(*memory, parameter_accesses@, result_accesses@, false, borrow_result,
                alternative_views(alternatives@), signature_result(r)),
    {
        if memory.validate().is_err() {
            return Err(abi_error(VirAbiErrorKind::InvalidMemorySchema));
        }
        Self::classify_explicit(memory, parameter_accesses, result_accesses, false, borrow_result, alternatives)
    }

    pub fn borrow_result(&self) -> (r: Option<BorrowResultRelation>)
        ensures
            r == self@.borrow_result,
    {
        self.borrow_result
    }

    pub fn borrow_result_alternatives(&self) -> (r: &[BorrowResultAlternative])
        ensures
            alternative_views(r@) == self@.alternatives,
    {
        self.borrow_result_alternatives.as_slice()
    }

    pub fn parameters(&self) -> (r: &[VirAbiBinding])
        ensures
            binding_views(r@) == self@.parameters,
    {
        self.parameters.as_slice()
    }

    pub fn results(&self) -> (r: &[VirAbiBinding])
        ensures
            binding_views(r@) == self@.results,
    {
        self.results.as_slice()
    }

    pub fn physical(&self) -> (r: &VirSignature)
        ensures
            r.parameters@ == self@.physical_parameters,
            r.results@ == self@.physical_results,
    {
        &self.physical
    }

    /// The parameter the whole-signature relation borrows from.
    pub fn borrow_result_parameter(&self) -> (r: Option<usize>)
        ensures
            r == (match self@.borrow_result {
                Some(rel) => Some(rel.parameter as usize),
                None => None::<usize>,
            }),
    {
        match self.borrow_result {
            Some(relation) => Some(relation.parameter as usize),
            None => None,
        }
    }
}


fn same_u32s(a: &Vec<u32>, b: &Vec<u32>) -> (r: bool)
    ensures
        r == (a@ == b@),
{
    if a.len() != b.len() {
        return false;
    }
    let mut i: usize = 0;
    while i < a.len()
        invariant
            0 <= i <= a@.len(),
            a@.len() == b@.len(),
            forall|j: int| 0 <= j < i ==> a@[j] == b@[j],
        decreases a.len() - i,
    {
        if a[i] != b[i] {
            assert(a@[i as int] != b@[i as int]);
            return false;
        }
        i = i + 1;
    }
    assert(a@ =~= b@);
    true
}

fn same_types(a: &Vec<VirType>, b: &Vec<VirType>) -> (r: bool)
    ensures
        r == (a@ == b@),
{
    if a.len() != b.len() {
        return false;
    }
    let mut i: usize = 0;
    while i < a.len()
        invariant
            0 <= i <= a@.len(),
            a@.len() == b@.len(),
            forall|j: int| 0 <= j < i ==> a@[j] == b@[j],
        decreases a.len() - i,
    {
        if a[i] != b[i] {
            assert(a@[i as int] != b@[i as int]);
            return false;
        }
        i = i + 1;
    }
    assert(a@ =~= b@);
    true
}

impl VirAbiBinding {
    /// The two bindings are the same assignment.
    pub fn same(&self, other: &VirAbiBinding) -> (r: bool)
        ensures
            r == (self@ == other@),
    {
        self.value.same(&other.value) && self.interface == other.interface && same_u32s(&self.parameter_slots, &other.parameter_slots)
            && same_u32s(&self.result_slots, &other.result_slots)
    }
}

fn same_bindings(a: &Vec<VirAbiBinding>, b: &Vec<VirAbiBinding>) -> (r: bool)
    ensures
        r == (binding_views(a@) == binding_views(b@)),
{
    if a.len() != b.len() {
        assert(binding_views(a@).len() != binding_views(b@).len());
        return false;
    }
    let mut i: usize = 0;
    while i < a.len()
        invariant
            0 <= i <= a@.len(),
            a@.len() == b@.len(),
            forall|j: int| 0 <= j < i ==> a@[j]@ == b@[j]@,
        decreases a.len() - i,
    {
        if !a[i].same(&b[i]) {
            assert(binding_views(a@)[i as int] != binding_views(b@)[i as int]);
            return false;
        }
        i = i + 1;
    }
    assert(binding_views(a@) =~= binding_views(b@));
    true
}

fn same_alternatives(a: &Vec<BorrowResultAlternative>, b: &Vec<BorrowResultAlternative>) -> (r: bool)
    ensures
        r == (alternative_views(a@) == alternative_views(b@)),
{
    if a.len() != b.len() {
        assert(alternative_views(a@).len() != alternative_views(b@).len());
        return false;
    }
    let mut i: usize = 0;
    while i < a.len()
        invariant
            0 <= i <= a@.len(),
            a@.len() == b@.len(),
            forall|j: int| 0 <= j < i ==> a@[j]@ == b@[j]@,
        decreases a.len() - i,
    {
        if !(a[i].relation == b[i].relation && same_guard(&a[i].guard, &b[i].guard)) {
            assert(alternative_views(a@)[i as int] != alternative_views(b@)[i as int]);
            return false;
        }
        i = i + 1;
    }
    assert(alternative_views(a@) =~= alternative_views(b@));
    true
}

/// Some binding of the signature is an opaque fixture value.
pub open spec fn has_opaque(sig: AbiSignatureView) -> bool {
    ||| exists|i: int| 0 <= i < sig.parameters.len() && (#[trigger] sig.parameters[i]).value is Opaque
    ||| exists|i: int| 0 <= i < sig.results.len() && (#[trigger] sig.results[i]).value is Opaque
}

/// The memory accesses the bindings stand for.
pub open spec fn binding_accesses(bindings: Seq<AbiBindingView>) -> Seq<VirMemoryAccess> {
    bindings.map_values(|b: AbiBindingView| b.value.access()->0)
}

fn any_opaque(bindings: &Vec<VirAbiBinding>) -> (r: bool)
    ensures
        r == exists|i: int| 0 <= i < binding_views(bindings@).len() && (#[trigger] binding_views(bindings@)[i]).value is Opaque,
{
    let mut i: usize = 0;
    while i < bindings.len()
        invariant
            0 <= i <= bindings@.len(),
            forall|j: int| 0 <= j < i ==> !((#[trigger] binding_views(bindings@)[j]).value is Opaque),
        decreases bindings.len() - i,
    {
        match &bindings[i].value {
            VirAbiValue::Opaque(_) => {
                assert(binding_views(bindings@)[i as int].value is Opaque);
                return true;
            },
            _ => {},
        }
        i = i + 1;
    }
    false
}

fn accesses_of(bindings: &Vec<VirAbiBinding>) -> (r: Vec<VirMemoryAccess>)
    requires
        forall|i: int| 0 <= i < binding_views(bindings@).len() ==> !((#[trigger] binding_views(bindings@)[i]).value is Opaque),
    ensures
        r@ == binding_accesses(binding_views(bindings@)),
{
    let mut out: Vec<VirMemoryAccess> = Vec::new();
    let mut i: usize = 0;
    while i < bindings.len()
        invariant
            0 <= i <= bindings@.len(),
            forall|i: int| 0 <= i < binding_views(bindings@).len() ==> !((#[trigger] binding_views(bindings@)[i]).value is Opaque),
            out@ == binding_accesses(binding_views(bindings@)).take(i as int),
        decreases bindings.len() - i,
    {
        proof {
            assert(!(binding_views(bindings@)[i as int].value is Opaque));
        }
        let access = match bindings[i].value.access() {
            Some(a) => a,
            None => {
                return out;
            },
        };
        out.push(access);
        assert(out@ =~= binding_accesses(binding_views(bindings@)).take(i + 1));
        i = i + 1;
    }
    assert(binding_accesses(binding_views(bindings@)).take(bindings@.len() as int) =~= binding_accesses(binding_views(bindings@)));
    out
}

impl VirAbiSignature {
    /// The two signatures are the same map.
    pub fn same(&self, other: &VirAbiSignature) -> (r: bool)
        ensures
            r == (self@ == other@),
    {
        same_bindings(&self.parameters, &other.parameters) && same_bindings(&self.results, &other.results) && same_types(
            &self.physical.parameters,
            &other.physical.parameters,
        ) && same_types(&self.physical.results, &other.physical.results) && self.borrow_result == other.borrow_result
            && same_alternatives(&self.borrow_result_alternatives, &other.borrow_result_alternatives)
    }

    /// The signature is canonical: a fixture identity map, or exactly the
    /// classification of its own accesses and borrow claims.
    pub fn validate(&self, memory: &VirMemorySchema) -> (r: Result<(), VirAbiError>)
        requires
            self@.physical_parameters.len() <= u32::MAX + 1,
            self@.physical_results.len() <= u32::MAX + 1,
        ensures
            has_opaque(self@) ==> (r is Ok <==> self@ == identity_view(self@.physical_parameters, self@.physical_results)),
            has_opaque(self@) ==> (r matches Err(e) ==> e.spec_kind() == VirAbiErrorKind::NonCanonicalSlotMap),
            !has_opaque(self@) && r is Ok ==> classifies_to(*memory, binding_accesses(self@.parameters), binding_accesses(self@.results),
                false, self@.borrow_result, self@.alternatives, Ok(self@)),
            !has_opaque(self@) && canonical_scalar_signature(*memory, self@) ==> r is Ok,
            !has_opaque(self@) ==> (r matches Err(e) ==> e.spec_kind() == VirAbiErrorKind::NonCanonicalSlotMap || classifies_to(
                *memory,
                binding_accesses(self@.parameters),
                binding_accesses(self@.results),
                false,
                self@.borrow_result,
                self@.alternatives,
                Err(e.spec_kind()),
            )),
            !has_opaque(self@) ==> (r matches Err(e) && e.spec_kind() == VirAbiErrorKind::NonCanonicalSlotMap ==> classifies_to(
                *memory,
                binding_accesses(self@.parameters),
                binding_accesses(self@.results),
                false,
                self@.borrow_result,
                self@.alternatives,
                Err(VirAbiErrorKind::NonCanonicalSlotMap),
            ) || exists|v: AbiSignatureView|
                v != self@ && #[trigger] classifies_to(
                    *memory,
                    binding_accesses(self@.parameters),
                    binding_accesses(self@.results),
                    false,
                    self@.borrow_result,
                    self@.alternatives,
                    Ok(v),
                )),
    {
        let opaque = any_opaque(&self.parameters) || any_opaque(&self.results);
        if opaque {
            let identity = Self::identity(&self.physical);
            if !self.same(&identity) {
                return Err(abi_error(VirAbiErrorKind::NonCanonicalSlotMap));
            }
            return Ok(());
        }
        let parameter_accesses = accesses_of(&self.parameters);
        let result_accesses = accesses_of(&self.results);
        let mut alternatives: Vec<BorrowResultAlternative> = Vec::new();
        let mut i: usize = 0;
        while i < self.borrow_result_alternatives.len()
            invariant
                0 <= i <= self.borrow_result_alternatives@.len(),
                alternatives@.len() == i,
                alternative_views(alternatives@) == alternative_views(self.borrow_result_alternatives@).take(i as int),
            decreases self.borrow_result_alternatives.len() - i,
        {
            let copy = self.borrow_result_alternatives[i].copy();
            let ghost before = alternatives@;
            alternatives.push(copy);
            proof {
                assert(alternatives@ == before.push(copy));
                assert forall|k: int| 0 <= k < i + 1 implies alternative_views(alternatives@)[k] == alternative_views(
                    self.borrow_result_alternatives@,
                ).take(i + 1)[k] by {
                    if k < i {
                        assert(alternative_views(before)[k] == alternative_views(self.borrow_result_alternatives@).take(i as int)[k]);
                        assert(alternatives@[k] == before[k]);
                    } else {
                        assert(alternatives@[k] == copy);
                        assert(copy@ == self.borrow_result_alternatives@[i as int]@);
                        assert(alternative_views(alternatives@)[k] == copy@);
                    }
                }
                assert(alternative_views(alternatives@) =~= alternative_views(self.borrow_result_alternatives@).take(i + 1));
            }
            i = i + 1;
        }
        assert(alternative_views(self.borrow_result_alternatives@).take(self.borrow_result_alternatives@.len() as int)
            =~= alternative_views(self.borrow_result_alternatives@));
        let recomputed = Self::classify_explicit(
            memory,
            parameter_accesses.as_slice(),
            result_accesses.as_slice(),
            false,
            self.borrow_result,
            alternatives,
        );
        proof {
            if canonical_scalar_signature(*memory, self@) {
                lemma_canonical_recomputes(*memory, self@, signature_result(recomputed));
            }
        }
        let expected = recomputed?;
        if !expected.same(self) {
            proof {
                assert(classifies_to(
                    *memory,
                    binding_accesses(self@.parameters),
                    binding_accesses(self@.results),
                    false,
                    self@.borrow_result,
                    self@.alternatives,
                    Ok(expected@),
                ));
            }
            return Err(abi_error(VirAbiErrorKind::NonCanonicalSlotMap));
        }
        Ok(())
    }

    /// Parameters that some borrow claim names as its source.
    pub fn borrow_result_parameters(&self) -> (r: BTreeSet<usize>)
        ensures
            forall|p: usize| r@.contains(p) <==> ((self@.borrow_result matches Some(rel) && p == rel.parameter as usize) || exists|a: int|
                0 <= a < self@.alternatives.len() && p == (#[trigger] self@.alternatives[a]).relation.parameter as usize),
    {
        let mut out: BTreeSet<usize> = BTreeSet::new();
        let ghost alts = self@.alternatives;
        match self.borrow_result {
            Some(relation) => {
                out.insert(relation.parameter as usize);
            },
            None => {},
        }
        let mut i: usize = 0;
        while i < self.borrow_result_alternatives.len()
            invariant
                0 <= i <= self.borrow_result_alternatives@.len(),
                alts == alternative_views(self.borrow_result_alternatives@),
                forall|p: usize| out@.contains(p) <==> ((self.borrow_result matches Some(rel) && p == rel.parameter as usize) || exists|a: int|
                    0 <= a < i && p == (#[trigger] alts[a]).relation.parameter as usize),
            decreases self.borrow_result_alternatives.len() - i,
        {
            let p = self.borrow_result_alternatives[i].relation.parameter as usize;
            proof {
                assert(alts[i as int].relation.parameter as usize == p);
            }
            out.insert(p);
            i = i + 1;
        }
        out
    }
}

/// One dense ABI entry owned by the runtime program.
#[derive(Clone, Debug, PartialEq, Eq, Hash)]
pub struct VirFunctionAbi {
    pub function: VirFunctionId,
    pub signature: VirAbiSignature,
}

/// Canonical ABI table for every runtime function.
#[derive(Clone, Debug, PartialEq, Eq, Hash)]
pub struct VirAbiEnvironment {
    pub functions: Vec<VirFunctionAbi>,
}

impl Default for VirAbiEnvironment {
    fn default() -> (r: Self)
        ensures
            r.functions@.len() == 0,
    {
        VirAbiEnvironment { functions: Vec::new() }
    }
}

impl VirAbiEnvironment {
    /// The identity ABI of every function, in table order.
    pub fn identity(functions: &[(VirFunctionId, VirSignature)]) -> (r: Self)
        requires
            forall|i: int| 0 <= i < functions@.len() ==> (#[trigger] functions@[i]).1.parameters@.len() <= u32::MAX + 1
                && functions@[i].1.results@.len() <= u32::MAX + 1,
        ensures
            r.functions@.len() == functions@.len(),
            forall|i: int| 0 <= i < functions@.len() ==> (#[trigger] r.functions@[i]).function == functions@[i].0
                && r.functions@[i].signature@ == identity_view(functions@[i].1.parameters@, functions@[i].1.results@),
    {
        let mut out: Vec<VirFunctionAbi> = Vec::new();
        let mut i: usize = 0;
        while i < functions.len()
            invariant
                0 <= i <= functions@.len(),
                forall|i: int| 0 <= i < functions@.len() ==> (#[trigger] functions@[i]).1.parameters@.len() <= u32::MAX + 1
                    && functions@[i].1.results@.len() <= u32::MAX + 1,
                out@.len() == i,
                forall|k: int| 0 <= k < i ==> (#[trigger] out@[k]).function == functions@[k].0
                    && out@[k].signature@ == identity_view(functions@[k].1.parameters@, functions@[k].1.results@),
            decreases functions.len() - i,
        {
            let entry = &functions[i];
            out.push(VirFunctionAbi { function: entry.0, signature: VirAbiSignature::identity(&entry.1) });
            i = i + 1;
        }
        VirAbiEnvironment { functions: out }
    }

    /// The ABI entry of `function`, found at its own dense index.
    pub fn function(&self, function: VirFunctionId) -> (r: Option<&VirFunctionAbi>)
        ensures
            match r {
                Some(entry) => (function.0 as int) < self.functions@.len() && *entry == self.functions@[function.0 as int]
                    && entry.function == function,
                None => !((function.0 as int) < self.functions@.len() && self.functions@[function.0 as int].function == function),
            },
    {
        let index = function.get() as usize;
        if index < self.functions.len() && self.functions[index].function == function {
            Some(&self.functions[index])
        } else {
            None
        }
    }
}


/// `access` is classified without consulting an object shape.
pub open spec fn non_aggregate(memory: VirMemorySchema, access: VirMemoryAccess) -> bool {
    !(memory.spec_resolves_access(access) && (memory.spec_kind(access.ty) matches Some(k) && is_aggregate_kind(k)))
}

/// The classifications of accesses that need no object shape.
pub open spec fn scalar_values(memory: VirMemorySchema, accesses: Seq<VirMemoryAccess>) -> Seq<AbiValueView> {
    Seq::new(accesses.len(), |i: int| spec_classify_non_aggregate(memory, accesses[i])->Ok_0)
}

/// A classified value stands for the access it classifies.
proof fn lemma_classified_access(memory: VirMemorySchema, access: VirMemoryAccess, v: AbiValueView)
    requires
        classified(memory, access, Ok(v)),
    ensures
        v.access() == Some(access),
{
    if memory.spec_resolves_access(access) && (memory.spec_kind(access.ty) matches Some(k) && is_aggregate_kind(k)) {
        let c = memory.spec_type_capabilities(access.ty)->0;
        let shape = choose|shape: VirObjectShape| shape_matches(memory, access, shape)
            && Ok::<AbiValueView, VirAbiErrorKind>(v) == aggregate_from_shape(memory, access, owning_capabilities(c), shape);
        assert(Ok::<AbiValueView, VirAbiErrorKind>(v) == aggregate_from_shape(memory, access, owning_capabilities(c), shape));
    }
}

/// Accesses that need no object shape classify one way.
proof fn lemma_classified_unique(memory: VirMemorySchema, accesses: Seq<VirMemoryAccess>, values: Seq<AbiValueView>)
    requires
        forall|i: int| 0 <= i < accesses.len() ==> non_aggregate(memory, #[trigger] accesses[i]),
        classified_all(memory, accesses, values),
    ensures
        values == scalar_values(memory, accesses),
{
    assert forall|i: int| 0 <= i < accesses.len() implies values[i] == scalar_values(memory, accesses)[i] by {
        assert(non_aggregate(memory, accesses[i]));
        assert(classified(memory, accesses[i], Ok(values[i])));
    }
    assert(values =~= scalar_values(memory, accesses));
}

/// Such accesses never fail to classify once each of them classifies.
proof fn lemma_classification_total(memory: VirMemorySchema, accesses: Seq<VirMemoryAccess>, values: Seq<AbiValueView>, kind: VirAbiErrorKind)
    requires
        forall|i: int| 0 <= i < accesses.len() ==> non_aggregate(memory, #[trigger] accesses[i]),
        classified_all(memory, accesses, values),
    ensures
        !classification_fails(memory, accesses, kind),
{
    if classification_fails(memory, accesses, kind) {
        let (k, earlier) = choose|k: int, earlier: Seq<AbiValueView>| 0 <= k < accesses.len() && #[trigger] classified_all(
            memory,
            accesses.take(k),
            earlier,
        ) && classified(memory, accesses[k], Err(kind));
        assert(non_aggregate(memory, accesses[k]));
        assert(classified(memory, accesses[k], Ok(values[k])));
    }
}

/// Without projecting claims the object shape is never consulted.
proof fn lemma_build_shape_free(
    memory: VirMemorySchema,
    params: Seq<AbiValueView>,
    results: Seq<AbiValueView>,
    legacy: bool,
    relation: Option<BorrowResultRelation>,
    alternatives: Seq<AlternativeView>,
)
    requires
        legacy || !claims_project(relation, alternatives),
    ensures
        spec_build(memory, params, results, legacy, relation, alternatives, true) == spec_build(
            memory,
            params,
            results,
            legacy,
            relation,
            alternatives,
            false,
        ),
{
    if effects_error(memory, params) is None && effects_error(memory, results) is None {
        let physical_params = flat(params, param_types_fn());
        let pb = Seq::new(params.len(), |i: int| param_binding(memory, params, i));
        let rb = Seq::new(results.len(), |j: int| result_binding(memory, results, physical_params.len() as int, j));
        let rel = if legacy { legacy_relation(pb, rb) } else { relation };
        let alts = if legacy { Seq::<AlternativeView>::empty() } else { alternatives };
        assert(!claims_project(rel, alts));
        assert(claims_ok(memory, pb, rb, rel, alts, true) == claims_ok(memory, pb, rb, rel, alts, false)) by {
            if claims_ok(memory, pb, rb, rel, alts, false) {
                assert forall|a: int| 0 <= a < alts.len() implies #[trigger] alternative_ok(memory, pb, rb, alts, a, true) by {
                    assert(alternative_ok(memory, pb, rb, alts, a, false));
                    assert(alts[a].relation.projection == BorrowProjection::Whole);
                }
            }
            lemma_claims_shape_strict(memory, pb, rb, rel, alts);
        }
    }
}

/// The accesses of the bindings of a built signature are the classified
/// accesses.
proof fn lemma_built_accesses(
    memory: VirMemorySchema,
    pa: Seq<VirMemoryAccess>,
    ra: Seq<VirMemoryAccess>,
    pv: Seq<AbiValueView>,
    rv: Seq<AbiValueView>,
    legacy: bool,
    relation: Option<BorrowResultRelation>,
    alternatives: Seq<AlternativeView>,
    sig: AbiSignatureView,
)
    requires
        classified_all(memory, pa, pv),
        classified_all(memory, ra, rv),
        spec_build(memory, pv, rv, legacy, relation, alternatives, true) == Ok::<AbiSignatureView, VirAbiErrorKind>(sig),
    ensures
        binding_accesses(sig.parameters) == pa,
        binding_accesses(sig.results) == ra,
{
    assert forall|i: int| 0 <= i < pa.len() implies binding_accesses(sig.parameters)[i] == pa[i] by {
        lemma_classified_access(memory, pa[i], pv[i]);
    }
    assert forall|i: int| 0 <= i < ra.len() implies binding_accesses(sig.results)[i] == ra[i] by {
        lemma_classified_access(memory, ra[i], rv[i]);
    }
    assert(binding_accesses(sig.parameters) =~= pa);
    assert(binding_accesses(sig.results) =~= ra);
}

/// A signature of values that need no object shape is canonical when it is
/// exactly the build of its own accesses and explicit claims.
pub open spec fn canonical_scalar_signature(memory: VirMemorySchema, sig: AbiSignatureView) -> bool {
    let pa = binding_accesses(sig.parameters);
    let ra = binding_accesses(sig.results);
    &&& forall|i: int| 0 <= i < pa.len() ==> non_aggregate(memory, #[trigger] pa[i])
    &&& forall|i: int| 0 <= i < ra.len() ==> non_aggregate(memory, #[trigger] ra[i])
    &&& classified_all(memory, pa, scalar_values(memory, pa))
    &&& classified_all(memory, ra, scalar_values(memory, ra))
    &&& slots_fit(scalar_values(memory, pa), scalar_values(memory, ra))
    &&& !claims_project(sig.borrow_result, sig.alternatives)
    &&& spec_build(memory, scalar_values(memory, pa), scalar_values(memory, ra), false, sig.borrow_result, sig.alternatives, true) == Ok::<
        AbiSignatureView,
        VirAbiErrorKind,
    >(sig)
}

/// The identity map of the empty signature is canonical over any schema,
/// so it validates: no slot is classified.
pub proof fn lemma_empty_identity_canonical(memory: VirMemorySchema)
    ensures
        canonical_scalar_signature(memory, identity_view(Seq::empty(), Seq::empty())),
{
    let sig = identity_view(Seq::empty(), Seq::empty());
    assert(sig.parameters =~= Seq::<AbiBindingView>::empty());
    assert(sig.results =~= Seq::<AbiBindingView>::empty());
    assert(binding_accesses(sig.parameters) =~= Seq::<VirMemoryAccess>::empty());
    assert(binding_accesses(sig.results) =~= Seq::<VirMemoryAccess>::empty());
    let none = Seq::<AbiValueView>::empty();
    assert(scalar_values(memory, Seq::<VirMemoryAccess>::empty()) =~= none);
    assert(flat(none, param_types_fn()) =~= Seq::<VirType>::empty());
    assert(flat(none, buffer_types_fn()) =~= Seq::<VirType>::empty());
    assert(flat(none, result_types_fn()) =~= Seq::<VirType>::empty());
    assert(effects_error(memory, none) is None);
    assert(permission_count(Seq::<AbiBindingView>::empty(), None, 0) == 0);
    let built = spec_build(memory, none, none, false, None, Seq::empty(), true);
    assert(built matches Ok(b) && b.parameters =~= sig.parameters && b.results =~= sig.results
        && b.physical_parameters =~= sig.physical_parameters && b.physical_results =~= sig.physical_results);
    assert(built == Ok::<AbiSignatureView, VirAbiErrorKind>(sig));
}

/// Recomputing a canonical signature from its own accesses and claims
/// gives it back.
proof fn lemma_canonical_recomputes(memory: VirMemorySchema, sig: AbiSignatureView, r: Result<AbiSignatureView, VirAbiErrorKind>)
    requires
        canonical_scalar_signature(memory, sig),
        classifies_to(memory, binding_accesses(sig.parameters), binding_accesses(sig.results), false, sig.borrow_result, sig.alternatives, r),
    ensures
        r == Ok::<AbiSignatureView, VirAbiErrorKind>(sig),
{
    let pa = binding_accesses(sig.parameters);
    let ra = binding_accesses(sig.results);
    let pv = scalar_values(memory, pa);
    let rv = scalar_values(memory, ra);
    lemma_build_shape_free(memory, pv, rv, false, sig.borrow_result, sig.alternatives);
    match r {
        Err(k) => {
            lemma_classification_total(memory, pa, pv, k);
            lemma_classification_total(memory, ra, rv, k);
            if exists|pv2: Seq<AbiValueView>, rv2: Seq<AbiValueView>| #[trigger] classified_all(memory, pa, pv2)
                && #[trigger] classified_all(memory, ra, rv2) && built(memory, pv2, rv2, false, sig.borrow_result, sig.alternatives, r) {
                let (pv2, rv2) = choose|pv2: Seq<AbiValueView>, rv2: Seq<AbiValueView>| #[trigger] classified_all(memory, pa, pv2)
                    && #[trigger] classified_all(memory, ra, rv2) && built(memory, pv2, rv2, false, sig.borrow_result, sig.alternatives, r);
                lemma_classified_unique(memory, pa, pv2);
                lemma_classified_unique(memory, ra, rv2);
            }
        },
        Ok(s2) => {
            let (pv2, rv2) = choose|pv2: Seq<AbiValueView>, rv2: Seq<AbiValueView>| #[trigger] classified_all(memory, pa, pv2)
                && #[trigger] classified_all(memory, ra, rv2) && built(memory, pv2, rv2, false, sig.borrow_result, sig.alternatives, r);
            lemma_classified_unique(memory, pa, pv2);
            lemma_classified_unique(memory, ra, rv2);
        },
    }
}

/// What classification gives, from accesses that need no object shape and
/// slots that fit `u32`, is canonical: validation re-derives exactly it.
pub proof fn lemma_classification_is_canonical(
    memory: VirMemorySchema,
    pa: Seq<VirMemoryAccess>,
    ra: Seq<VirMemoryAccess>,
    legacy: bool,
    relation: Option<BorrowResultRelation>,
    alternatives: Seq<AlternativeView>,
    sig: AbiSignatureView,
)
    requires
        forall|i: int| 0 <= i < pa.len() ==> non_aggregate(memory, #[trigger] pa[i]),
        forall|i: int| 0 <= i < ra.len() ==> non_aggregate(memory, #[trigger] ra[i]),
        legacy || !claims_project(relation, alternatives),
        slots_fit(scalar_values(memory, pa), scalar_values(memory, ra)),
        classifies_to(memory, pa, ra, legacy, relation, alternatives, Ok(sig)),
    ensures
        !has_opaque(sig),
        canonical_scalar_signature(memory, sig),
{
    let (pv, rv) = choose|pv: Seq<AbiValueView>, rv: Seq<AbiValueView>| #[trigger] classified_all(memory, pa, pv)
        && #[trigger] classified_all(memory, ra, rv) && built(memory, pv, rv, legacy, relation, alternatives, Ok(sig));
    lemma_classified_unique(memory, pa, pv);
    lemma_classified_unique(memory, ra, rv);
    lemma_built_accesses(memory, pa, ra, pv, rv, legacy, relation, alternatives, sig);
    assert forall|i: int| 0 <= i < sig.parameters.len() implies !((#[trigger] sig.parameters[i]).value is Opaque) by {
        lemma_classified_access(memory, pa[i], pv[i]);
    }
    assert forall|i: int| 0 <= i < sig.results.len() implies !((#[trigger] sig.results[i]).value is Opaque) by {
        lemma_classified_access(memory, ra[i], rv[i]);
    }
}


} // verus!
