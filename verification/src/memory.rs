//! Canonical target-independent identities and target-specific memory layouts.

use vstd::prelude::*;

use crate::ids::{
    DropCapability, SizeCapability, TypeCapabilities, ValueCapability, VirFieldId, VirLayoutId,
    VirTypeId, VirVariantId, drop_rank,
};

verus! {

/// Deepest type nesting followed while deriving capabilities.
pub const TYPE_CAPABILITY_MAX_DEPTH: usize = 256;

#[derive(Clone, Copy, Debug, PartialEq, Eq, Hash, Structural)]
pub enum VirEndianness {
    Little,
    Big,
}

#[derive(Clone, Copy, Debug, PartialEq, Eq, Hash, Structural)]
pub struct VirTargetDataLayout {
    pub endianness: VirEndianness,
    pub pointer_size_bytes: u64,
    pub pointer_alignment: u64,
    pub usize_size_bytes: u64,
    pub usize_alignment: u64,
}

#[derive(Clone, Copy, Debug, PartialEq, Eq, Hash, Structural)]
pub enum VirMutability {
    Const,
    Mutable,
}

#[derive(Clone, Copy, Debug, PartialEq, Eq, Hash, Structural)]
pub enum VirPointerKind {
    Own,
    Raw,
    Reference,
}

#[derive(Clone, Copy, Debug, PartialEq, Eq, Hash, Structural)]
pub enum VirIntegerType {
    U8,
    U16,
    U32,
    U64,
    U128,
    Usize,
    I8,
    I16,
    I32,
    I64,
    I128,
    Isize,
}

#[derive(Clone, Debug, PartialEq, Eq, Hash)]
pub enum VirMemoryTypeKind {
    Unit,
    Bool,
    Integer(VirIntegerType),
    Pointer { pointee: VirTypeId, kind: VirPointerKind, mutability: VirMutability },
    Array { element: VirTypeId, length: u64 },
    Slice { element: VirTypeId, mutability: VirMutability },
    Tuple(Vec<VirTypeId>),
    Struct { fields: Vec<VirFieldId> },
    Enum { variants: Vec<VirVariantId> },
    Never,
}

#[derive(Clone, Debug, PartialEq, Eq, Hash)]
pub struct VirMemoryType {
    pub id: VirTypeId,
    pub kind: VirMemoryTypeKind,
    pub layout: VirLayoutId,
}

#[derive(Clone, Copy, Debug, PartialEq, Eq, Hash, Structural)]
pub enum VirAbiClass {
    Ignore,
    Scalar,
    ScalarPair,
    Aggregate,
}

#[derive(Clone, Copy, Debug, PartialEq, Eq, Hash, Structural)]
pub struct VirFieldLayout {
    pub field: VirFieldId,
    pub offset_bytes: u64,
}

#[derive(Clone, Debug, PartialEq, Eq, Hash)]
pub struct VirVariantCaseLayout {
    pub variant: VirVariantId,
    pub payload_offset_bytes: u64,
    pub fields: Vec<VirFieldLayout>,
}

#[derive(Clone, Debug, PartialEq, Eq, Hash)]
pub struct VirVariantLayout {
    pub tag_size_bytes: u64,
    pub tag_alignment: u64,
    pub cases: Vec<VirVariantCaseLayout>,
}

#[derive(Clone, Debug, PartialEq, Eq, Hash)]
pub struct VirLayout {
    pub id: VirLayoutId,
    pub ty: VirTypeId,
    pub size_bytes: u64,
    pub alignment: u64,
    pub abi: VirAbiClass,
    pub fields: Vec<VirFieldLayout>,
    pub variants: Option<VirVariantLayout>,
}

#[derive(Clone, Debug, PartialEq, Eq, Hash)]
pub struct VirField {
    pub id: VirFieldId,
    pub owner: VirTypeId,
    pub ty: VirTypeId,
}

#[derive(Clone, Debug, PartialEq, Eq, Hash)]
pub struct VirVariant {
    pub id: VirVariantId,
    pub owner: VirTypeId,
    pub fields: Vec<VirFieldId>,
    pub discriminant: u64,
}

/// Typed address of one object: its memory type and target layout.
#[derive(Clone, Copy, Debug, PartialEq, Eq, PartialOrd, Ord, Hash, Structural)]
pub struct VirMemoryAccess {
    pub ty: VirTypeId,
    pub layout: VirLayoutId,
}

impl VirMemoryAccess {
    pub fn new(ty: VirTypeId, layout: VirLayoutId) -> (access: Self)
        ensures
            access.ty == ty && access.layout == layout,
    {
        VirMemoryAccess { ty, layout }
    }

    /// Access of the one-type `u64` schema.
    pub fn core_u64() -> (access: Self)
        ensures
            access.ty.0 == 0 && access.layout.0 == 0,
    {
        VirMemoryAccess { ty: VirTypeId(0), layout: VirLayoutId(0) }
    }
}

/// An `Option<&T>` that denotes the value `v`.
pub open spec fn same_ref<T>(r: Option<&T>, v: Option<T>) -> bool {
    match r {
        Some(x) => v == Some(*x),
        None => v is None,
    }
}

/// `x` is a non-zero power of two: exactly one bit is set.
pub open spec fn spec_is_power_of_two(x: u64) -> bool {
    x != 0 && x & ((x - 1) as u64) == 0
}

pub fn is_power_of_two(x: u64) -> (r: bool)
    ensures
        r == spec_is_power_of_two(x),
{
    x != 0 && x & (x - 1) == 0
}

/// Rounds `value` up with the mask of `alignment`; fails on a zero alignment
/// or when the rounding would exceed `u64`.
pub open spec fn spec_align_up(value: u64, alignment: u64) -> Option<u64> {
    if alignment == 0 || value + (alignment - 1) > u64::MAX {
        None
    } else {
        Some(((value + (alignment - 1)) as u64) & !((alignment - 1) as u64))
    }
}

pub fn align_up(value: u64, alignment: u64) -> (r: Option<u64>)
    ensures
        r == spec_align_up(value, alignment),
{
    if alignment == 0 {
        return None;
    }
    match value.checked_add(alignment - 1) {
        Some(v) => Some(v & !(alignment - 1)),
        None => None,
    }
}

/// A discriminant fits in a tag of `tag_size_bytes` bytes.
pub open spec fn spec_discriminant_fits(discriminant: u64, tag_size_bytes: u64) -> bool {
    tag_size_bytes >= 8 || discriminant < (1u64 << (tag_size_bytes * 8) as u64)
}

pub fn discriminant_fits(discriminant: u64, tag_size_bytes: u64) -> (r: bool)
    ensures
        r == spec_discriminant_fits(discriminant, tag_size_bytes),
{
    if tag_size_bytes >= 8 {
        true
    } else {
        discriminant < (1u64 << (tag_size_bytes * 8))
    }
}

/// Byte size and alignment of each integer type on a target.
pub open spec fn spec_integer_layout(integer: VirIntegerType, target: VirTargetDataLayout) -> (
    u64,
    u64,
) {
    match integer {
        VirIntegerType::U8 | VirIntegerType::I8 => (1, 1),
        VirIntegerType::U16 | VirIntegerType::I16 => (2, 2),
        VirIntegerType::U32 | VirIntegerType::I32 => (4, 4),
        VirIntegerType::U64 | VirIntegerType::I64 => (8, 8),
        VirIntegerType::U128 | VirIntegerType::I128 => (16, 16),
        VirIntegerType::Usize | VirIntegerType::Isize => (
            target.usize_size_bytes,
            target.usize_alignment,
        ),
    }
}

pub fn integer_layout(integer: VirIntegerType, target: VirTargetDataLayout) -> (r: (u64, u64))
    ensures
        r == spec_integer_layout(integer, target),
{
    match integer {
        VirIntegerType::U8 | VirIntegerType::I8 => (1, 1),
        VirIntegerType::U16 | VirIntegerType::I16 => (2, 2),
        VirIntegerType::U32 | VirIntegerType::I32 => (4, 4),
        VirIntegerType::U64 | VirIntegerType::I64 => (8, 8),
        VirIntegerType::U128 | VirIntegerType::I128 => (16, 16),
        VirIntegerType::Usize | VirIntegerType::Isize => (
            target.usize_size_bytes,
            target.usize_alignment,
        ),
    }
}

/// Pointer and `usize` shapes are non-empty and divisible by their alignments.
pub open spec fn spec_target_valid(target: VirTargetDataLayout) -> bool {
    &&& target.pointer_size_bytes != 0
    &&& spec_is_power_of_two(target.pointer_alignment)
    &&& target.pointer_size_bytes % target.pointer_alignment == 0
    &&& target.usize_size_bytes != 0
    &&& spec_is_power_of_two(target.usize_alignment)
    &&& target.usize_size_bytes % target.usize_alignment == 0
}

/// Two identifier lists name the same identifiers, each exactly once.
pub open spec fn same_ids<T>(expected: Seq<T>, actual: Seq<T>) -> bool {
    &&& expected.no_duplicates()
    &&& actual.no_duplicates()
    &&& expected.len() == actual.len()
    &&& forall|i: int| 0 <= i < actual.len() ==> expected.contains(#[trigger] actual[i])
    &&& forall|i: int| 0 <= i < expected.len() ==> actual.contains(#[trigger] expected[i])
}

pub open spec fn field_layout_ids(fields: Seq<VirFieldLayout>) -> Seq<VirFieldId> {
    fields.map_values(|f: VirFieldLayout| f.field)
}

pub open spec fn case_variant_ids(cases: Seq<VirVariantCaseLayout>) -> Seq<VirVariantId> {
    cases.map_values(|c: VirVariantCaseLayout| c.variant)
}

/// Two non-empty half-open ranges share a byte.
pub open spec fn ranges_overlap(a: (u64, u64), b: (u64, u64)) -> bool {
    a.0 < a.1 && b.0 < b.1 && a.0 < b.1 && b.0 < a.1
}

/// Number of occurrences of `x` in `s`.
pub open spec fn count_id<T>(s: Seq<T>, x: T) -> nat
    decreases s.len(),
{
    if s.len() == 0 {
        0
    } else {
        count_id(s.drop_last(), x) + if s.last() == x { 1nat } else { 0nat }
    }
}

/// Capability fold over a list of child capabilities.
pub open spec fn fold_capabilities(children: Seq<TypeCapabilities>) -> (bool, DropCapability, bool, bool)
    decreases children.len(),
{
    if children.len() == 0 {
        (true, DropCapability::TrivialDrop, false, true)
    } else {
        let (c, d, r, s) = fold_capabilities(children.drop_last());
        let last = children.last();
        (
            c && last.value == ValueCapability::Copy,
            if drop_rank(d) >= drop_rank(last.drop) { d } else { last.drop },
            r || last.contains_resource,
            s && last.size == SizeCapability::Sized,
        )
    }
}

/// Capabilities of an aggregate from those of its children.
pub open spec fn combine_capabilities(children: Seq<TypeCapabilities>, has_layout: bool) -> TypeCapabilities {
    let (all_copy, drop, any_resource, all_sized) = fold_capabilities(children);
    TypeCapabilities {
        value: if all_copy { ValueCapability::Copy } else { ValueCapability::MoveOnly },
        drop,
        contains_resource: any_resource,
        size: if has_layout && all_sized { SizeCapability::Sized } else { SizeCapability::Unsized },
    }
}

/// Capabilities of a leaf (non-aggregate) type.
pub open spec fn leaf_capabilities(kind: VirMemoryTypeKind, size: SizeCapability) -> TypeCapabilities {
    match kind {
        VirMemoryTypeKind::Pointer { kind, mutability, .. } => TypeCapabilities {
            value: match kind {
                VirPointerKind::Own => ValueCapability::MoveOnly,
                VirPointerKind::Raw => ValueCapability::Copy,
                VirPointerKind::Reference => if mutability == VirMutability::Const {
                    ValueCapability::Copy
                } else {
                    ValueCapability::MoveOnly
                },
            },
            drop: if kind == VirPointerKind::Own {
                DropCapability::BuiltinDrop
            } else {
                DropCapability::TrivialDrop
            },
            contains_resource: true,
            size,
        },
        VirMemoryTypeKind::Slice { mutability, .. } => TypeCapabilities {
            value: if mutability == VirMutability::Const {
                ValueCapability::Copy
            } else {
                ValueCapability::MoveOnly
            },
            drop: DropCapability::TrivialDrop,
            contains_resource: true,
            size,
        },
        _ => TypeCapabilities {
            value: ValueCapability::Copy,
            drop: DropCapability::TrivialDrop,
            contains_resource: false,
            size,
        },
    }
}

pub open spec fn is_aggregate_kind(kind: VirMemoryTypeKind) -> bool {
    match kind {
        VirMemoryTypeKind::Array { .. } | VirMemoryTypeKind::Tuple(_) | VirMemoryTypeKind::Struct {
            ..
        } | VirMemoryTypeKind::Enum { .. } => true,
        _ => false,
    }
}

impl VirMemorySchema {
    pub open spec fn spec_ty(self, id: VirTypeId) -> Option<VirMemoryType> {
        if id.0 < self.types.len() && self.types[id.0 as int].id == id {
            Some(self.types[id.0 as int])
        } else {
            None
        }
    }

    pub open spec fn spec_kind(self, id: VirTypeId) -> Option<VirMemoryTypeKind> {
        match self.spec_ty(id) {
            Some(t) => Some(t.kind),
            None => None,
        }
    }

    pub open spec fn spec_type_capabilities(self, id: VirTypeId) -> Option<TypeCapabilities> {
        if self.spec_ty(id) is Some && id.0 < self.type_capabilities.len() {
            Some(self.type_capabilities[id.0 as int])
        } else {
            None
        }
    }

    pub open spec fn spec_layout(self, id: VirLayoutId) -> Option<VirLayout> {
        if id.0 < self.layouts.len() && self.layouts[id.0 as int].id == id {
            Some(self.layouts[id.0 as int])
        } else {
            None
        }
    }

    pub open spec fn spec_field(self, id: VirFieldId) -> Option<VirField> {
        if id.0 < self.fields.len() && self.fields[id.0 as int].id == id {
            Some(self.fields[id.0 as int])
        } else {
            None
        }
    }

    pub open spec fn spec_variant(self, id: VirVariantId) -> Option<VirVariant> {
        if id.0 < self.variants.len() && self.variants[id.0 as int].id == id {
            Some(self.variants[id.0 as int])
        } else {
            None
        }
    }

    pub open spec fn spec_access(self, ty: VirTypeId) -> Option<VirMemoryAccess> {
        match self.spec_ty(ty) {
            Some(t) => Some(VirMemoryAccess { ty: t.id, layout: t.layout }),
            None => None,
        }
    }

    pub open spec fn spec_resolves_access(self, access: VirMemoryAccess) -> bool {
        &&& self.spec_ty(access.ty) matches Some(t) && t.layout == access.layout
        &&& self.spec_layout(access.layout) matches Some(l) && l.ty == access.ty
    }

    /// Layout of the type `ty`, through its declared layout identifier.
    pub open spec fn type_layout(self, ty: VirTypeId) -> Option<VirLayout> {
        match self.spec_ty(ty) {
            Some(t) => self.spec_layout(t.layout),
            None => None,
        }
    }

    /// Walks tuple elements from `i`, placing each at the next aligned
    /// cursor, until element `target`.
    pub open spec fn tuple_walk(self, elements: Seq<VirTypeId>, i: int, target: int, cursor: u64) -> Option<(VirMemoryAccess, u64)>
        decreases elements.len() - i,
    {
        if i < 0 || i >= elements.len() {
            None
        } else {
            match self.spec_access(elements[i]) {
                None => None,
                Some(access) => match self.spec_layout(access.layout) {
                    None => None,
                    Some(layout) => match spec_align_up(cursor, layout.alignment) {
                        None => None,
                        Some(aligned) => if i == target {
                            Some((access, aligned))
                        } else if aligned + layout.size_bytes > u64::MAX {
                            None
                        } else {
                            self.tuple_walk(elements, i + 1, target, (aligned + layout.size_bytes) as u64)
                        },
                    },
                },
            }
        }
    }

    pub open spec fn spec_tuple_element_projection(self, owner: VirMemoryAccess, index: u64) -> Option<(VirMemoryAccess, u64)> {
        if !self.spec_resolves_access(owner) {
            None
        } else {
            match self.spec_kind(owner.ty) {
                Some(VirMemoryTypeKind::Tuple(elements)) => self.tuple_walk(elements@, 0, index as int, 0),
                _ => None,
            }
        }
    }

    // ----- validation model -----

    /// The first table, in the order types, layouts, fields, variants, whose
    /// entries are not stored at their own identifiers.
    pub open spec fn first_nondense_table(self) -> Option<VirSchemaTable> {
        if !(forall|i: int| 0 <= i < self.types.len() ==> #[trigger] self.types[i].id.0 == i) {
            Some(VirSchemaTable::Type)
        } else if !(forall|i: int| 0 <= i < self.layouts.len() ==> #[trigger] self.layouts[i].id.0 == i) {
            Some(VirSchemaTable::Layout)
        } else if !(forall|i: int| 0 <= i < self.fields.len() ==> #[trigger] self.fields[i].id.0 == i) {
            Some(VirSchemaTable::Field)
        } else if !(forall|i: int| 0 <= i < self.variants.len() ==> #[trigger] self.variants[i].id.0 == i) {
            Some(VirSchemaTable::Variant)
        } else {
            None
        }
    }

    pub open spec fn dense(self) -> bool {
        &&& forall|i: int| 0 <= i < self.types.len() ==> #[trigger] self.types[i].id.0 == i
        &&& forall|i: int| 0 <= i < self.layouts.len() ==> #[trigger] self.layouts[i].id.0 == i
        &&& forall|i: int| 0 <= i < self.fields.len() ==> #[trigger] self.fields[i].id.0 == i
        &&& forall|i: int| 0 <= i < self.variants.len() ==> #[trigger] self.variants[i].id.0 == i
    }

    /// The layout of a type agrees with the type's kind.
    pub open spec fn type_valid(self, ty: VirMemoryType, layout: VirLayout) -> bool {
        match ty.kind {
            VirMemoryTypeKind::Unit => layout.size_bytes == 0 && layout.alignment == 1 && layout.abi
                == VirAbiClass::Ignore,
            VirMemoryTypeKind::Bool => layout.size_bytes == 1 && layout.alignment == 1 && layout.abi
                == VirAbiClass::Scalar,
            VirMemoryTypeKind::Integer(integer) => spec_integer_layout(integer, self.target) == (
                layout.size_bytes,
                layout.alignment,
            ) && layout.abi == VirAbiClass::Scalar,
            VirMemoryTypeKind::Pointer { pointee, .. } => self.spec_ty(pointee) is Some
                && layout.size_bytes == self.target.pointer_size_bytes && layout.alignment
                == self.target.pointer_alignment && layout.abi == VirAbiClass::Scalar,
            VirMemoryTypeKind::Array { element, length } => match self.type_layout(element) {
                Some(el) => layout.alignment >= el.alignment && el.size_bytes * length <= u64::MAX
                    && spec_align_up((el.size_bytes * length) as u64, layout.alignment) == Some(
                    layout.size_bytes,
                ) && layout.abi == VirAbiClass::Aggregate,
                None => false,
            },
            VirMemoryTypeKind::Slice { element, .. } => self.spec_ty(element) is Some
                && self.target.pointer_size_bytes * 2 == layout.size_bytes && layout.alignment
                == self.target.pointer_alignment && layout.abi == VirAbiClass::ScalarPair,
            VirMemoryTypeKind::Tuple(elements) => (forall|i: int|
                0 <= i < elements.len() ==> self.spec_ty(#[trigger] elements@[i]) is Some)
                && layout.abi == VirAbiClass::Aggregate,
            VirMemoryTypeKind::Struct { fields } => (forall|i: int|
                0 <= i < fields.len() ==> (#[trigger] self.spec_field(fields@[i]) matches Some(
                    f,
                ) && f.owner == ty.id)) && layout.abi == VirAbiClass::Aggregate,
            VirMemoryTypeKind::Enum { variants } => (forall|i: int|
                0 <= i < variants.len() ==> (#[trigger] self.spec_variant(variants@[i]) matches Some(
                    v,
                ) && v.owner == ty.id)) && layout.abi == VirAbiClass::Aggregate,
            VirMemoryTypeKind::Never => layout.size_bytes == 0 && layout.abi == VirAbiClass::Ignore,
        }
    }

    /// Byte range `[start, end)` of one laid-out field inside its owner.
    pub open spec fn field_range(self, owner: VirLayout, base: u64, fl: VirFieldLayout) -> Option<(u64, u64)> {
        match self.spec_field(fl.field) {
            Some(field) => if field.owner != owner.ty {
                None
            } else {
                match self.type_layout(field.ty) {
                    Some(layout) => if base + fl.offset_bytes > u64::MAX || owner.alignment
                        < layout.alignment || layout.alignment == 0 || (base + fl.offset_bytes)
                        % (layout.alignment as int) != 0 || base + fl.offset_bytes
                        + layout.size_bytes > owner.size_bytes {
                        None
                    } else {
                        Some(
                            (
                                (base + fl.offset_bytes) as u64,
                                (base + fl.offset_bytes + layout.size_bytes) as u64,
                            ),
                        )
                    },
                    None => None,
                }
            },
            None => None,
        }
    }

    /// Every field lies inside its owner and no two non-empty fields overlap.
    pub open spec fn field_ranges_valid(self, owner: VirLayout, base: u64, fields: Seq<VirFieldLayout>) -> bool {
        &&& forall|i: int| 0 <= i < fields.len() ==> (#[trigger] self.field_range(owner, base, fields[i])) is Some
        &&& forall|i: int, j: int|
            0 <= i < j < fields.len() ==> !ranges_overlap(
                #[trigger] self.field_range(owner, base, fields[i])->0,
                #[trigger] self.field_range(owner, base, fields[j])->0,
            )
    }

    pub open spec fn shape_matches(self, layout: VirLayout, kind: VirMemoryTypeKind) -> bool {
        match kind {
            VirMemoryTypeKind::Struct { fields } => layout.variants is None && same_ids(
                fields@,
                field_layout_ids(layout.fields@),
            ),
            VirMemoryTypeKind::Enum { variants } => layout.fields.len() == 0 && (
            layout.variants matches Some(v) && same_ids(variants@, case_variant_ids(v.cases@))),
            _ => layout.fields.len() == 0 && layout.variants is None,
        }
    }

    pub open spec fn tag_valid(self, layout: VirLayout, v: VirVariantLayout) -> bool {
        &&& spec_is_power_of_two(v.tag_alignment)
        &&& v.tag_size_bytes != 0
        &&& v.tag_size_bytes % v.tag_alignment == 0
        &&& v.tag_alignment <= layout.alignment
        &&& v.tag_size_bytes <= layout.size_bytes
    }

    pub open spec fn case_valid(self, layout: VirLayout, v: VirVariantLayout, case: VirVariantCaseLayout) -> bool {
        &&& self.spec_variant(case.variant) matches Some(variant) && variant.owner == layout.ty
            && same_ids(variant.fields@, field_layout_ids(case.fields@)) && spec_discriminant_fits(
            variant.discriminant,
            v.tag_size_bytes,
        )
        &&& case.payload_offset_bytes >= v.tag_size_bytes
        &&& case.payload_offset_bytes <= layout.size_bytes
        &&& self.field_ranges_valid(layout, case.payload_offset_bytes, case.fields@)
    }

    /// Field/case tables of a layout agree with its type and are disjoint.
    pub open spec fn layout_shape_valid(self, layout: VirLayout) -> bool {
        &&& self.spec_kind(layout.ty) matches Some(kind) && self.shape_matches(layout, kind)
        &&& self.field_ranges_valid(layout, 0, layout.fields@)
        &&& layout.variants matches Some(v) ==> self.tag_valid(layout, v) && forall|c: int|
            0 <= c < v.cases.len() ==> self.case_valid(layout, v, #[trigger] v.cases@[c])
    }

    pub open spec fn layout_valid(self, layout: VirLayout) -> bool {
        &&& self.spec_ty(layout.ty) matches Some(t) && t.layout == layout.id
        &&& spec_is_power_of_two(layout.alignment)
        &&& layout.size_bytes % layout.alignment == 0
        &&& self.layout_shape_valid(layout)
    }

    /// The variants of an enum type, in declaration order.
    pub open spec fn enum_variants(self, owner: VirTypeId) -> Seq<VirVariantId> {
        match self.spec_kind(owner) {
            Some(VirMemoryTypeKind::Enum { variants }) => variants@,
            _ => Seq::empty(),
        }
    }

    /// Number of times `field` is listed by the struct or enum `owner`.
    pub open spec fn field_listing_count(self, owner: VirTypeId, field: VirFieldId) -> nat {
        match self.spec_kind(owner) {
            Some(VirMemoryTypeKind::Struct { fields }) => count_id(fields@, field),
            Some(VirMemoryTypeKind::Enum { variants }) => self.variant_field_count(variants@, field),
            _ => 0,
        }
    }

    pub open spec fn variant_field_count(self, variants: Seq<VirVariantId>, field: VirFieldId) -> nat
        decreases variants.len(),
    {
        if variants.len() == 0 {
            0
        } else {
            self.variant_field_count(variants.drop_last(), field) + match self.spec_variant(
                variants.last(),
            ) {
                Some(v) => count_id(v.fields@, field),
                None => 0,
            }
        }
    }

    pub open spec fn spec_owner_contains_field(self, owner: VirTypeId, field: VirFieldId) -> bool {
        match self.spec_kind(owner) {
            Some(VirMemoryTypeKind::Struct { .. }) | Some(VirMemoryTypeKind::Enum { .. }) => self.field_listing_count(owner, field) == 1,
            _ => false,
        }
    }

    pub open spec fn field_valid(self, field: VirField) -> bool {
        &&& self.spec_ty(field.owner) is Some
        &&& self.spec_ty(field.ty) is Some
        &&& self.spec_owner_contains_field(field.owner, field.id)
    }

    pub open spec fn variant_valid(self, variant: VirVariant) -> bool {
        &&& self.enum_variants(variant.owner).contains(variant.id)
        &&& forall|i: int| 0 <= i < variant.fields.len() ==> (#[trigger] self.spec_field(variant.fields@[i]) matches Some(f) && f.owner == variant.owner)
        &&& forall|j: int| 0 <= j < self.variants.len() ==> #[trigger] self.variants[j].id == variant.id
            || self.variants[j].owner != variant.owner || self.variants[j].discriminant != variant.discriminant
    }

    /// Capabilities derived from the type graph, with `stack` the types
    /// currently being expanded and `fuel` the remaining nesting budget.
    pub open spec fn derived_capabilities(self, ty: VirTypeId, stack: Seq<VirTypeId>, fuel: nat) -> Option<TypeCapabilities>
        decreases fuel, 0nat,
    {
        if fuel == 0 || stack.contains(ty) {
            None
        } else {
            match self.spec_ty(ty) {
                None => None,
                Some(definition) => match self.child_types(definition.kind) {
                    Some(children) => match self.derived_list(children, stack.push(ty), (fuel - 1) as nat) {
                        Some(caps) => Some(combine_capabilities(caps, self.spec_layout(definition.layout) is Some)),
                        None => None,
                    },
                    None => if is_aggregate_kind(definition.kind) {
                        None
                    } else {
                        match definition.kind {
                            VirMemoryTypeKind::Pointer { pointee, .. } => if self.spec_ty(pointee) is None {
                                None
                            } else {
                                Some(leaf_capabilities(definition.kind, if self.spec_layout(definition.layout) is Some { SizeCapability::Sized } else { SizeCapability::Unsized }))
                            },
                            VirMemoryTypeKind::Slice { element, .. } => if self.spec_ty(element) is None {
                                None
                            } else {
                                Some(leaf_capabilities(definition.kind, if self.spec_layout(definition.layout) is Some { SizeCapability::Sized } else { SizeCapability::Unsized }))
                            },
                            _ => Some(leaf_capabilities(definition.kind, if self.spec_layout(definition.layout) is Some { SizeCapability::Sized } else { SizeCapability::Unsized })),
                        }
                    },
                },
            }
        }
    }

    pub open spec fn derived_list(self, tys: Seq<VirTypeId>, stack: Seq<VirTypeId>, fuel: nat) -> Option<Seq<TypeCapabilities>>
        decreases fuel, tys.len(),
    {
        if tys.len() == 0 {
            Some(Seq::empty())
        } else {
            match self.derived_list(tys.drop_last(), stack, fuel) {
                None => None,
                Some(prefix) => match self.derived_capabilities(tys.last(), stack, fuel) {
                    None => None,
                    Some(c) => Some(prefix.push(c)),
                },
            }
        }
    }

    /// Field types of a list of fields; absent when a field is unknown.
    pub open spec fn field_types(self, fields: Seq<VirFieldId>) -> Option<Seq<VirTypeId>>
        decreases fields.len(),
    {
        if fields.len() == 0 {
            Some(Seq::empty())
        } else {
            match (self.field_types(fields.drop_last()), self.spec_field(fields.last())) {
                (Some(prefix), Some(f)) => Some(prefix.push(f.ty)),
                _ => None,
            }
        }
    }

    /// All fields of the listed variants, in order (unknown variants add none).
    pub open spec fn concat_variant_fields(self, variants: Seq<VirVariantId>) -> Seq<VirFieldId>
        decreases variants.len(),
    {
        if variants.len() == 0 {
            Seq::empty()
        } else {
            self.concat_variant_fields(variants.drop_last()) + match self.spec_variant(variants.last()) {
                Some(v) => v.fields@,
                None => Seq::empty(),
            }
        }
    }

    /// Field types of all listed variants, in order; absent when any variant
    /// or field is unknown.
    pub open spec fn variant_field_types(self, variants: Seq<VirVariantId>) -> Option<Seq<VirTypeId>> {
        if forall|i: int| 0 <= i < variants.len() ==> #[trigger] self.spec_variant(variants[i]) is Some {
            self.field_types(self.concat_variant_fields(variants))
        } else {
            None
        }
    }

    /// Child types followed by capability derivation, for aggregates.
    pub open spec fn child_types(self, kind: VirMemoryTypeKind) -> Option<Seq<VirTypeId>> {
        match kind {
            VirMemoryTypeKind::Array { element, .. } => Some(seq![element]),
            VirMemoryTypeKind::Tuple(elements) => Some(elements@),
            VirMemoryTypeKind::Struct { fields } => self.field_types(fields@),
            VirMemoryTypeKind::Enum { variants } => self.variant_field_types(variants@),
            _ => None,
        }
    }

    pub open spec fn spec_derive_type_capabilities(self, ty: VirTypeId) -> Option<TypeCapabilities> {
        self.derived_capabilities(ty, Seq::empty(), TYPE_CAPABILITY_MAX_DEPTH as nat)
    }

    pub open spec fn capabilities_valid(self) -> bool {
        &&& self.type_capabilities.len() == self.types.len()
        &&& forall|i: int| 0 <= i < self.types.len() ==> self.spec_derive_type_capabilities(#[trigger] self.types[i].id) == Some(self.type_capabilities[self.types[i].id.0 as int])
    }

    /// Every check of [`VirMemorySchema::validate`] before the capability
    /// table passes.
    pub open spec fn structure_valid(self) -> bool {
        &&& self.dense()
        &&& spec_target_valid(self.target)
        &&& forall|i: int| 0 <= i < self.types.len() ==> (#[trigger] self.spec_layout(self.types[i].layout) matches Some(l) && l.ty == self.types[i].id && self.type_valid(self.types[i], l))
        &&& forall|i: int| 0 <= i < self.layouts.len() ==> self.layout_valid(#[trigger] self.layouts[i])
        &&& forall|i: int| 0 <= i < self.fields.len() ==> self.field_valid(#[trigger] self.fields[i])
        &&& forall|i: int| 0 <= i < self.variants.len() ==> self.variant_valid(#[trigger] self.variants[i])
    }

    /// The fault validation reports for the type entry at slot `k`.
    pub open spec fn type_entry_fault(self, k: int) -> VirMemorySchemaErrorKind {
        let ty = self.types[k];
        match self.spec_layout(ty.layout) {
            Some(l) => if l.ty == ty.id {
                VirMemorySchemaErrorKind::InvalidType { ty: ty.id }
            } else {
                VirMemorySchemaErrorKind::TypeLayoutMismatch { ty: ty.id }
            },
            None => VirMemorySchemaErrorKind::TypeLayoutMismatch { ty: ty.id },
        }
    }

    /// The type entry at slot `k` is the first that fails its checks.
    pub open spec fn first_type_fault(self, k: int) -> bool {
        &&& 0 <= k < self.types.len()
        &&& !(self.spec_layout(self.types[k].layout) matches Some(l) && l.ty == self.types[k].id && self.type_valid(self.types[k], l))
        &&& forall|j: int| 0 <= j < k ==> (#[trigger] self.spec_layout(self.types[j].layout) matches Some(l) && l.ty == self.types[j].id && self.type_valid(self.types[j], l))
    }

    /// The layout entry at slot `k` is the first that fails its checks.
    pub open spec fn first_layout_fault(self, k: int) -> bool {
        &&& 0 <= k < self.layouts.len()
        &&& !self.layout_valid(self.layouts[k])
        &&& forall|j: int| 0 <= j < k ==> self.layout_valid(#[trigger] self.layouts[j])
    }

    /// The field entry at slot `k` is the first that fails its checks.
    pub open spec fn first_field_fault(self, k: int) -> bool {
        &&& 0 <= k < self.fields.len()
        &&& !self.field_valid(self.fields[k])
        &&& forall|j: int| 0 <= j < k ==> self.field_valid(#[trigger] self.fields[j])
    }

    /// The variant entry at slot `k` is the first that fails its checks.
    pub open spec fn first_variant_fault(self, k: int) -> bool {
        &&& 0 <= k < self.variants.len()
        &&& !self.variant_valid(self.variants[k])
        &&& forall|j: int| 0 <= j < k ==> self.variant_valid(#[trigger] self.variants[j])
    }

    /// `kind` is the fault validation reports: that of the first check to
    /// fail, in the order density, target, types, layouts, fields, variants,
    /// capability table length, capabilities.
    pub open spec fn schema_fault(self, kind: VirMemorySchemaErrorKind) -> bool {
        if !self.dense() {
            self.first_nondense_table() matches Some(t) && kind == (VirMemorySchemaErrorKind::NonDenseTable { table: t })
        } else if !spec_target_valid(self.target) {
            kind == VirMemorySchemaErrorKind::InvalidTarget
        } else if !(forall|i: int| 0 <= i < self.types.len() ==> (#[trigger] self.spec_layout(self.types[i].layout) matches Some(l) && l.ty == self.types[i].id && self.type_valid(self.types[i], l))) {
            exists|k: int| #[trigger] self.first_type_fault(k) && kind == self.type_entry_fault(k)
        } else if !(forall|i: int| 0 <= i < self.layouts.len() ==> self.layout_valid(#[trigger] self.layouts[i])) {
            exists|k: int| #[trigger] self.first_layout_fault(k) && kind == (VirMemorySchemaErrorKind::InvalidLayout { layout: self.layouts[k].id })
        } else if !(forall|i: int| 0 <= i < self.fields.len() ==> self.field_valid(#[trigger] self.fields[i])) {
            exists|k: int| #[trigger] self.first_field_fault(k) && kind == (VirMemorySchemaErrorKind::InvalidField { field: self.fields[k].id })
        } else if !(forall|i: int| 0 <= i < self.variants.len() ==> self.variant_valid(#[trigger] self.variants[i])) {
            exists|k: int| #[trigger] self.first_variant_fault(k) && kind == (VirMemorySchemaErrorKind::InvalidVariant { variant: self.variants[k].id })
        } else if self.type_capabilities.len() != self.types.len() {
            kind == VirMemorySchemaErrorKind::TypeCapabilityTableMismatch
        } else {
            exists|k: int| #[trigger] self.first_capability_mismatch(k) && kind == (VirMemorySchemaErrorKind::TypeCapabilityMismatch { ty: self.types[k].id })
        }
    }

    /// The type at slot `k` is the first whose stored capability differs
    /// from the derived one.
    pub open spec fn first_capability_mismatch(self, k: int) -> bool {
        &&& 0 <= k < self.types.len()
        &&& self.spec_derive_type_capabilities(self.types[k].id) != Some(self.type_capabilities[self.types[k].id.0 as int])
        &&& forall|j: int| 0 <= j < k ==> self.spec_derive_type_capabilities(#[trigger] self.types[j].id) == Some(self.type_capabilities[self.types[j].id.0 as int])
    }

    /// A schema accepted by [`VirMemorySchema::validate`].
    pub open spec fn spec_valid(self) -> bool {
        &&& self.dense()
        &&& spec_target_valid(self.target)
        &&& forall|i: int| 0 <= i < self.types.len() ==> (#[trigger] self.spec_layout(self.types[i].layout) matches Some(l) && l.ty == self.types[i].id && self.type_valid(self.types[i], l))
        &&& forall|i: int| 0 <= i < self.layouts.len() ==> self.layout_valid(#[trigger] self.layouts[i])
        &&& forall|i: int| 0 <= i < self.fields.len() ==> self.field_valid(#[trigger] self.fields[i])
        &&& forall|i: int| 0 <= i < self.variants.len() ==> self.variant_valid(#[trigger] self.variants[i])
        &&& self.capabilities_valid()
    }
}

#[derive(Clone, Debug, PartialEq, Eq)]
pub struct VirMemorySchema {
    pub target: VirTargetDataLayout,
    pub types: Vec<VirMemoryType>,
    /// Producer-computed canonical capability for each dense type-table slot.
    pub type_capabilities: Vec<TypeCapabilities>,
    pub layouts: Vec<VirLayout>,
    pub fields: Vec<VirField>,
    pub variants: Vec<VirVariant>,
}


impl VirMemorySchema {
    /// Smallest standalone schema: one target-layout-resolved `u64`.
    pub fn core_u64() -> (schema: Self)
        ensures
            schema.types@.len() == 1 && schema.layouts@.len() == 1,
            schema.types[0].id.0 == 0 && schema.types[0].layout.0 == 0,
            schema.types[0].kind == VirMemoryTypeKind::Integer(VirIntegerType::U64),
            schema.layouts[0].id.0 == 0 && schema.layouts[0].ty.0 == 0,
            schema.layouts[0].size_bytes == 8 && schema.layouts[0].alignment == 8,
            schema.layouts[0].abi == VirAbiClass::Scalar,
            schema.layouts[0].fields@.len() == 0 && schema.layouts[0].variants is None,
            schema.fields@.len() == 0 && schema.variants@.len() == 0,
            schema.type_capabilities@ == seq![TypeCapabilities {
                value: ValueCapability::Copy,
                drop: DropCapability::TrivialDrop,
                contains_resource: false,
                size: SizeCapability::Sized,
            }],
            schema.target == (VirTargetDataLayout {
                endianness: VirEndianness::Little,
                pointer_size_bytes: 8,
                pointer_alignment: 8,
                usize_size_bytes: 8,
                usize_alignment: 8,
            }),
    {
        let mut types = Vec::new();
        types.push(VirMemoryType {
            id: VirTypeId(0),
            kind: VirMemoryTypeKind::Integer(VirIntegerType::U64),
            layout: VirLayoutId(0),
        });
        let mut type_capabilities = Vec::new();
        type_capabilities.push(TypeCapabilities {
            value: ValueCapability::Copy,
            drop: DropCapability::TrivialDrop,
            contains_resource: false,
            size: SizeCapability::Sized,
        });
        let mut layouts = Vec::new();
        layouts.push(VirLayout {
            id: VirLayoutId(0),
            ty: VirTypeId(0),
            size_bytes: 8,
            alignment: 8,
            abi: VirAbiClass::Scalar,
            fields: Vec::new(),
            variants: None,
        });
        VirMemorySchema {
            target: VirTargetDataLayout {
                endianness: VirEndianness::Little,
                pointer_size_bytes: 8,
                pointer_alignment: 8,
                usize_size_bytes: 8,
                usize_alignment: 8,
            },
            types,
            type_capabilities,
            layouts,
            fields: Vec::new(),
            variants: Vec::new(),
        }
    }

    pub fn ty(&self, id: VirTypeId) -> (r: Option<&VirMemoryType>)
        ensures
            same_ref(r, self.spec_ty(id)),
    {
        let index = id.0 as usize;
        if index < self.types.len() && self.types[index].id == id {
            Some(&self.types[index])
        } else {
            None
        }
    }

    pub fn kind(&self, id: VirTypeId) -> (r: Option<&VirMemoryTypeKind>)
        ensures
            same_ref(r, self.spec_kind(id)),
    {
        match self.ty(id) {
            Some(item) => Some(&item.kind),
            None => None,
        }
    }

    pub fn type_capabilities(&self, id: VirTypeId) -> (r: Option<TypeCapabilities>)
        ensures
            r == self.spec_type_capabilities(id),
    {
        match self.ty(id) {
            Some(_) => {
                let index = id.0 as usize;
                if index < self.type_capabilities.len() {
                    Some(self.type_capabilities[index])
                } else {
                    None
                }
            },
            None => None,
        }
    }

    pub fn layout(&self, id: VirLayoutId) -> (r: Option<&VirLayout>)
        ensures
            same_ref(r, self.spec_layout(id)),
    {
        let index = id.0 as usize;
        if index < self.layouts.len() && self.layouts[index].id == id {
            Some(&self.layouts[index])
        } else {
            None
        }
    }

    pub fn field(&self, id: VirFieldId) -> (r: Option<&VirField>)
        ensures
            same_ref(r, self.spec_field(id)),
    {
        let index = id.0 as usize;
        if index < self.fields.len() && self.fields[index].id == id {
            Some(&self.fields[index])
        } else {
            None
        }
    }

    pub fn variant(&self, id: VirVariantId) -> (r: Option<&VirVariant>)
        ensures
            same_ref(r, self.spec_variant(id)),
    {
        let index = id.0 as usize;
        if index < self.variants.len() && self.variants[index].id == id {
            Some(&self.variants[index])
        } else {
            None
        }
    }

    pub fn access(&self, ty: VirTypeId) -> (r: Option<VirMemoryAccess>)
        ensures
            r == self.spec_access(ty),
    {
        match self.ty(ty) {
            Some(t) => Some(VirMemoryAccess { ty: t.id, layout: t.layout }),
            None => None,
        }
    }

    pub fn resolves_access(&self, access: VirMemoryAccess) -> (r: bool)
        ensures
            r == self.spec_resolves_access(access),
    {
        let type_ok = match self.ty(access.ty) {
            Some(t) => t.layout == access.layout,
            None => false,
        };
        let layout_ok = match self.layout(access.layout) {
            Some(l) => l.ty == access.ty,
            None => false,
        };
        type_ok && layout_ok
    }

    /// Canonical typed projection of one tuple element: its access and the
    /// offset derived from the aligned sizes of the preceding elements.
    pub fn tuple_element_projection(&self, owner: VirMemoryAccess, index: u64) -> (r: Option<(VirMemoryAccess, u64)>)
        ensures
            r == self.spec_tuple_element_projection(owner, index),
    {
        if !self.resolves_access(owner) {
            return None;
        }
        let elements = match self.kind(owner.ty) {
            Some(VirMemoryTypeKind::Tuple(elements)) => elements,
            _ => return None,
        };
        let ghost target = index as int;
        assert(self.spec_tuple_element_projection(owner, index) == self.tuple_walk(elements@, 0, target, 0));
        let mut cursor: u64 = 0;
        let mut i: usize = 0;
        while i < elements.len()
            invariant
                0 <= i <= elements.len(),
                self.spec_kind(owner.ty) == Some(VirMemoryTypeKind::Tuple(*elements)),
                self.spec_resolves_access(owner),
                self.spec_tuple_element_projection(owner, index) == self.tuple_walk(elements@, i as int, target, cursor),
                target == index as int,
            decreases elements.len() - i,
        {
            proof {
                assert(self.tuple_walk(elements@, i as int, target, cursor) == match self.spec_access(elements@[i as int]) {
                    None => None,
                    Some(access) => match self.spec_layout(access.layout) {
                        None => None,
                        Some(layout) => match spec_align_up(cursor, layout.alignment) {
                            None => None,
                            Some(aligned) => if i as int == target {
                                Some((access, aligned))
                            } else if aligned + layout.size_bytes > u64::MAX {
                                None
                            } else {
                                self.tuple_walk(elements@, i + 1, target, (aligned + layout.size_bytes) as u64)
                            },
                        },
                    },
                });
            }
            let access = match self.access(elements[i]) {
                Some(a) => a,
                None => return None,
            };
            let layout = match self.layout(access.layout) {
                Some(l) => l,
                None => return None,
            };
            let aligned = match align_up(cursor, layout.alignment) {
                Some(a) => a,
                None => return None,
            };
            if i as u64 == index {
                return Some((access, aligned));
            }
            cursor = match aligned.checked_add(layout.size_bytes) {
                Some(c) => c,
                None => return None,
            };
            i = i + 1;
        }
        None
    }
}


fn field_ids_no_duplicates(s: &Vec<VirFieldId>) -> (r: bool)
    ensures
        r == s@.no_duplicates(),
{
    let mut i: usize = 0;
    while i < s.len()
        invariant
            0 <= i <= s.len(),
            forall|a: int, b: int| 0 <= a < i && a < b < s.len() ==> s@[a] != s@[b],
        decreases s.len() - i,
    {
        let mut j: usize = i + 1;
        while j < s.len()
            invariant
                i < s.len(),
                i + 1 <= j <= s.len(),
                forall|a: int, b: int| 0 <= a < i && a < b < s.len() ==> s@[a] != s@[b],
                forall|b: int| i < b < j ==> s@[i as int] != s@[b],
            decreases s.len() - j,
        {
            if s[i].0 == s[j].0 {
                return false;
            }
            j = j + 1;
        }
        i = i + 1;
    }
    true
}

fn variant_ids_no_duplicates(s: &Vec<VirVariantId>) -> (r: bool)
    ensures
        r == s@.no_duplicates(),
{
    let mut i: usize = 0;
    while i < s.len()
        invariant
            0 <= i <= s.len(),
            forall|a: int, b: int| 0 <= a < i && a < b < s.len() ==> s@[a] != s@[b],
        decreases s.len() - i,
    {
        let mut j: usize = i + 1;
        while j < s.len()
            invariant
                i < s.len(),
                i + 1 <= j <= s.len(),
                forall|a: int, b: int| 0 <= a < i && a < b < s.len() ==> s@[a] != s@[b],
                forall|b: int| i < b < j ==> s@[i as int] != s@[b],
            decreases s.len() - j,
        {
            if s[i].0 == s[j].0 {
                return false;
            }
            j = j + 1;
        }
        i = i + 1;
    }
    true
}

pub(crate) fn contains_field_id(s: &Vec<VirFieldId>, x: VirFieldId) -> (r: bool)
    ensures
        r == s@.contains(x),
{
    let mut i: usize = 0;
    while i < s.len()
        invariant
            0 <= i <= s.len(),
            forall|a: int| 0 <= a < i ==> s@[a] != x,
        decreases s.len() - i,
    {
        if s[i].0 == x.0 {
            assert(s@[i as int] == x);
            return true;
        }
        i = i + 1;
    }
    false
}

pub(crate) fn contains_variant_id(s: &Vec<VirVariantId>, x: VirVariantId) -> (r: bool)
    ensures
        r == s@.contains(x),
{
    let mut i: usize = 0;
    while i < s.len()
        invariant
            0 <= i <= s.len(),
            forall|a: int| 0 <= a < i ==> s@[a] != x,
        decreases s.len() - i,
    {
        if s[i].0 == x.0 {
            assert(s@[i as int] == x);
            return true;
        }
        i = i + 1;
    }
    false
}

fn same_id_lists_fields(expected: &Vec<VirFieldId>, actual: &Vec<VirFieldId>) -> (r: bool)
    ensures
        r == same_ids(expected@, actual@),
{
    if !field_ids_no_duplicates(expected) || !field_ids_no_duplicates(actual)
        || expected.len() != actual.len() {
        return false;
    }
    let mut i: usize = 0;
    while i < actual.len()
        invariant
            0 <= i <= actual.len(),
            forall|a: int| 0 <= a < i ==> expected@.contains(#[trigger] actual@[a]),
        decreases actual.len() - i,
    {
        if !contains_field_id(expected, actual[i]) {
            return false;
        }
        i = i + 1;
    }
    let mut j: usize = 0;
    while j < expected.len()
        invariant
            0 <= j <= expected.len(),
            forall|a: int| 0 <= a < j ==> actual@.contains(#[trigger] expected@[a]),
        decreases expected.len() - j,
    {
        if !contains_field_id(actual, expected[j]) {
            return false;
        }
        j = j + 1;
    }
    true
}

fn same_id_lists_variants(expected: &Vec<VirVariantId>, actual: &Vec<VirVariantId>) -> (r: bool)
    ensures
        r == same_ids(expected@, actual@),
{
    if !variant_ids_no_duplicates(expected) || !variant_ids_no_duplicates(actual)
        || expected.len() != actual.len() {
        return false;
    }
    let mut i: usize = 0;
    while i < actual.len()
        invariant
            0 <= i <= actual.len(),
            forall|a: int| 0 <= a < i ==> expected@.contains(#[trigger] actual@[a]),
        decreases actual.len() - i,
    {
        if !contains_variant_id(expected, actual[i]) {
            return false;
        }
        i = i + 1;
    }
    let mut j: usize = 0;
    while j < expected.len()
        invariant
            0 <= j <= expected.len(),
            forall|a: int| 0 <= a < j ==> actual@.contains(#[trigger] expected@[a]),
        decreases expected.len() - j,
    {
        if !contains_variant_id(actual, expected[j]) {
            return false;
        }
        j = j + 1;
    }
    true
}

/// The field identifiers named by a field-layout table, in order.
fn field_layout_id_list(fields: &Vec<VirFieldLayout>) -> (r: Vec<VirFieldId>)
    ensures
        r@ == field_layout_ids(fields@),
{
    let mut out: Vec<VirFieldId> = Vec::new();
    let mut i: usize = 0;
    while i < fields.len()
        invariant
            0 <= i <= fields.len(),
            out@ == field_layout_ids(fields@.take(i as int)),
        decreases fields.len() - i,
    {
        out.push(fields[i].field);
        assert(field_layout_ids(fields@.take(i + 1)) == field_layout_ids(fields@.take(i as int)).push(fields@[i as int].field));
        i = i + 1;
    }
    assert(fields@.take(fields.len() as int) == fields@);
    out
}

/// The variant identifiers named by an enum case table, in order.
fn case_variant_id_list(cases: &Vec<VirVariantCaseLayout>) -> (r: Vec<VirVariantId>)
    ensures
        r@ == case_variant_ids(cases@),
{
    let mut out: Vec<VirVariantId> = Vec::new();
    let mut i: usize = 0;
    while i < cases.len()
        invariant
            0 <= i <= cases.len(),
            out@ == case_variant_ids(cases@.take(i as int)),
        decreases cases.len() - i,
    {
        out.push(cases[i].variant);
        assert(case_variant_ids(cases@.take(i + 1)) == case_variant_ids(cases@.take(i as int)).push(cases@[i as int].variant));
        i = i + 1;
    }
    assert(cases@.take(cases.len() as int) == cases@);
    out
}

fn count_field_id(s: &Vec<VirFieldId>, x: VirFieldId) -> (r: usize)
    ensures
        r == count_id(s@, x),
{
    let mut count: usize = 0;
    let mut i: usize = 0;
    while i < s.len()
        invariant
            0 <= i <= s.len(),
            count == count_id(s@.take(i as int), x),
            count <= i,
        decreases s.len() - i,
    {
        assert(s@.take(i + 1).drop_last() == s@.take(i as int));
        if s[i].0 == x.0 {
            count = count + 1;
        }
        i = i + 1;
    }
    assert(s@.take(s.len() as int) == s@);
    count
}


impl VirMemorySchema {
    fn validate_type(&self, ty: &VirMemoryType, layout: &VirLayout) -> (r: Result<(), VirMemorySchemaError>)
        ensures
            r is Ok <==> self.type_valid(*ty, *layout),
            r matches Err(e) ==> e.spec_kind() == (VirMemorySchemaErrorKind::InvalidType { ty: ty.id }),
    {
        let valid = match &ty.kind {
            VirMemoryTypeKind::Unit => layout.size_bytes == 0 && layout.alignment == 1
                && layout.abi == VirAbiClass::Ignore,
            VirMemoryTypeKind::Bool => layout.size_bytes == 1 && layout.alignment == 1
                && layout.abi == VirAbiClass::Scalar,
            VirMemoryTypeKind::Integer(integer) => {
                let (size, alignment) = integer_layout(*integer, self.target);
                size == layout.size_bytes && alignment == layout.alignment && layout.abi
                    == VirAbiClass::Scalar
            },
            VirMemoryTypeKind::Pointer { pointee, .. } => self.ty(*pointee).is_some()
                && layout.size_bytes == self.target.pointer_size_bytes && layout.alignment
                == self.target.pointer_alignment && layout.abi == VirAbiClass::Scalar,
            VirMemoryTypeKind::Array { element, length } => {
                let element_layout = match self.ty(*element) {
                    Some(t) => self.layout(t.layout),
                    None => None,
                };
                match element_layout {
                    Some(el) => if layout.alignment >= el.alignment {
                        match el.size_bytes.checked_mul(*length) {
                            Some(size) => match align_up(size, layout.alignment) {
                                Some(aligned) => aligned == layout.size_bytes && layout.abi
                                    == VirAbiClass::Aggregate,
                                None => false,
                            },
                            None => false,
                        }
                    } else {
                        false
                    },
                    None => false,
                }
            },
            VirMemoryTypeKind::Slice { element, .. } => {
                let size_ok = match self.target.pointer_size_bytes.checked_mul(2) {
                    Some(size) => size == layout.size_bytes,
                    None => false,
                };
                self.ty(*element).is_some() && size_ok && layout.alignment
                    == self.target.pointer_alignment && layout.abi == VirAbiClass::ScalarPair
            },
            VirMemoryTypeKind::Tuple(elements) => {
                let mut all = true;
                let mut i: usize = 0;
                while i < elements.len()
                    invariant
                        0 <= i <= elements.len(),
                        all == forall|j: int| 0 <= j < i ==> self.spec_ty(#[trigger] elements@[j]) is Some,
                    decreases elements.len() - i,
                {
                    if self.ty(elements[i]).is_none() {
                        all = false;
                    }
                    i = i + 1;
                }
                all && layout.abi == VirAbiClass::Aggregate
            },
            VirMemoryTypeKind::Struct { fields } => {
                let mut all = true;
                let mut i: usize = 0;
                while i < fields.len()
                    invariant
                        0 <= i <= fields.len(),
                        all == forall|j: int| 0 <= j < i ==> (#[trigger] self.spec_field(fields@[j]) matches Some(f) && f.owner == ty.id),
                    decreases fields.len() - i,
                {
                    let ok = match self.field(fields[i]) {
                        Some(f) => f.owner == ty.id,
                        None => false,
                    };
                    if !ok {
                        all = false;
                    }
                    i = i + 1;
                }
                all && layout.abi == VirAbiClass::Aggregate
            },
            VirMemoryTypeKind::Enum { variants } => {
                let mut all = true;
                let mut i: usize = 0;
                while i < variants.len()
                    invariant
                        0 <= i <= variants.len(),
                        all == forall|j: int| 0 <= j < i ==> (#[trigger] self.spec_variant(variants@[j]) matches Some(v) && v.owner == ty.id),
                    decreases variants.len() - i,
                {
                    let ok = match self.variant(variants[i]) {
                        Some(v) => v.owner == ty.id,
                        None => false,
                    };
                    if !ok {
                        all = false;
                    }
                    i = i + 1;
                }
                all && layout.abi == VirAbiClass::Aggregate
            },
            VirMemoryTypeKind::Never => layout.size_bytes == 0 && layout.abi == VirAbiClass::Ignore,
        };
        if valid {
            Ok(())
        } else {
            Err(schema_error(VirMemorySchemaErrorKind::InvalidType { ty: ty.id }))
        }
    }

    fn field_range_of(&self, owner: &VirLayout, base: u64, fl: VirFieldLayout) -> (r: Option<(u64, u64)>)
        ensures
            r == self.field_range(*owner, base, fl),
    {
        let field = match self.field(fl.field) {
            Some(f) => f,
            None => return None,
        };
        if field.owner != owner.ty {
            return None;
        }
        let layout = match self.ty(field.ty) {
            Some(t) => match self.layout(t.layout) {
                Some(l) => l,
                None => return None,
            },
            None => return None,
        };
        let start = match base.checked_add(fl.offset_bytes) {
            Some(start) => start,
            None => return None,
        };
        if owner.alignment < layout.alignment || layout.alignment == 0 || start % layout.alignment != 0 {
            return None;
        }
        match start.checked_add(layout.size_bytes) {
            Some(end) => if end <= owner.size_bytes {
                Some((start, end))
            } else {
                None
            },
            None => None,
        }
    }

    /// Fields lie inside their owner at aligned offsets, and no two
    /// non-empty fields share a byte.
    fn validate_field_ranges(&self, owner: &VirLayout, base: u64, fields: &Vec<VirFieldLayout>) -> (r: Result<(), VirMemorySchemaError>)
        ensures
            r is Ok <==> self.field_ranges_valid(*owner, base, fields@),
            r matches Err(e) ==> e.spec_kind() == (VirMemorySchemaErrorKind::InvalidLayout { layout: owner.id }),
    {
        let mut ranges: Vec<(u64, u64)> = Vec::new();
        let mut i: usize = 0;
        while i < fields.len()
            invariant
                0 <= i <= fields.len(),
                ranges@.len() == i,
                forall|j: int| 0 <= j < i ==> #[trigger] self.field_range(*owner, base, fields@[j]) == Some(ranges@[j]),
            decreases fields.len() - i,
        {
            match self.field_range_of(owner, base, fields[i]) {
                Some(range) => ranges.push(range),
                None => {
                    return Err(schema_error(VirMemorySchemaErrorKind::InvalidLayout { layout: owner.id }));
                },
            }
            i = i + 1;
        }
        let mut a: usize = 0;
        while a < ranges.len()
            invariant
                0 <= a <= ranges.len(),
                ranges@.len() == fields.len(),
                forall|j: int| 0 <= j < fields.len() ==> #[trigger] self.field_range(*owner, base, fields@[j]) == Some(ranges@[j]),
                forall|x: int, y: int| 0 <= x < a && x < y < ranges.len() ==> !ranges_overlap(ranges@[x], ranges@[y]),
            decreases ranges.len() - a,
        {
            let mut b: usize = a + 1;
            while b < ranges.len()
                invariant
                    a < ranges.len(),
                    a + 1 <= b <= ranges.len(),
                    ranges@.len() == fields.len(),
                    forall|j: int| 0 <= j < fields.len() ==> #[trigger] self.field_range(*owner, base, fields@[j]) == Some(ranges@[j]),
                    forall|x: int, y: int| 0 <= x < a && x < y < ranges.len() ==> !ranges_overlap(ranges@[x], ranges@[y]),
                    forall|y: int| a < y < b ==> !ranges_overlap(ranges@[a as int], ranges@[y]),
                decreases ranges.len() - b,
            {
                let (s1, e1) = ranges[a];
                let (s2, e2) = ranges[b];
                if s1 < e1 && s2 < e2 && s1 < e2 && s2 < e1 {
                    proof {
                        let fa = fields@[a as int];
                        let fb = fields@[b as int];
                        assert(self.field_range(*owner, base, fa) == Some(ranges@[a as int]));
                        assert(self.field_range(*owner, base, fb) == Some(ranges@[b as int]));
                        assert(ranges_overlap(self.field_range(*owner, base, fields@[a as int])->0, self.field_range(*owner, base, fields@[b as int])->0));
                        assert(!self.field_ranges_valid(*owner, base, fields@));
                    }
                    return Err(schema_error(VirMemorySchemaErrorKind::InvalidLayout { layout: owner.id }));
                }
                b = b + 1;
            }
            a = a + 1;
        }
        proof {
            assert forall|x: int, y: int| 0 <= x < y < fields@.len() implies !ranges_overlap(
                #[trigger] self.field_range(*owner, base, fields@[x])->0,
                #[trigger] self.field_range(*owner, base, fields@[y])->0,
            ) by {
                assert(self.field_range(*owner, base, fields@[x]) == Some(ranges@[x]));
                assert(self.field_range(*owner, base, fields@[y]) == Some(ranges@[y]));
            }
        }
        Ok(())
    }
}


fn drop_at_least(a: DropCapability, b: DropCapability) -> (r: bool)
    ensures
        r == (drop_rank(a) >= drop_rank(b)),
{
    match (a, b) {
        (DropCapability::UserDropGated, _) => true,
        (DropCapability::BuiltinDrop, DropCapability::UserDropGated) => false,
        (DropCapability::BuiltinDrop, _) => true,
        (DropCapability::TrivialDrop, DropCapability::TrivialDrop) => true,
        (DropCapability::TrivialDrop, _) => false,
    }
}

fn combine_child_capabilities(caps: &Vec<TypeCapabilities>, has_layout: bool) -> (r: TypeCapabilities)
    ensures
        r == combine_capabilities(caps@, has_layout),
{
    let mut all_copy = true;
    let mut drop = DropCapability::TrivialDrop;
    let mut any_resource = false;
    let mut all_sized = true;
    let mut i: usize = 0;
    while i < caps.len()
        invariant
            0 <= i <= caps.len(),
            (all_copy, drop, any_resource, all_sized) == fold_capabilities(caps@.take(i as int)),
        decreases caps.len() - i,
    {
        assert(caps@.take(i + 1).drop_last() == caps@.take(i as int));
        let c = caps[i];
        all_copy = all_copy && c.value == ValueCapability::Copy;
        if !drop_at_least(drop, c.drop) {
            drop = c.drop;
        }
        any_resource = any_resource || c.contains_resource;
        all_sized = all_sized && c.size == SizeCapability::Sized;
        i = i + 1;
    }
    assert(caps@.take(caps.len() as int) == caps@);
    TypeCapabilities {
        value: if all_copy { ValueCapability::Copy } else { ValueCapability::MoveOnly },
        drop,
        contains_resource: any_resource,
        size: if has_layout && all_sized { SizeCapability::Sized } else { SizeCapability::Unsized },
    }
}

pub(crate) fn contains_type_id(s: &Vec<VirTypeId>, x: VirTypeId) -> (r: bool)
    ensures
        r == s@.contains(x),
{
    let mut i: usize = 0;
    while i < s.len()
        invariant
            0 <= i <= s.len(),
            forall|a: int| 0 <= a < i ==> s@[a] != x,
        decreases s.len() - i,
    {
        if s[i].0 == x.0 {
            assert(s@[i as int] == x);
            return true;
        }
        i = i + 1;
    }
    false
}

fn copy_type_ids(s: &Vec<VirTypeId>) -> (r: Vec<VirTypeId>)
    ensures
        r@ == s@,
{
    let mut out: Vec<VirTypeId> = Vec::new();
    let mut i: usize = 0;
    while i < s.len()
        invariant
            0 <= i <= s.len(),
            out@ == s@.take(i as int),
        decreases s.len() - i,
    {
        out.push(s[i]);
        assert(s@.take(i + 1) == s@.take(i as int).push(s@[i as int]));
        i = i + 1;
    }
    assert(s@.take(s.len() as int) == s@);
    out
}

impl VirMemorySchema {
    fn field_type_list(&self, fields: &Vec<VirFieldId>) -> (r: Option<Vec<VirTypeId>>)
        ensures
            r is Some <==> self.field_types(fields@) is Some,
            r matches Some(v) ==> self.field_types(fields@) == Some(v@),
    {
        let mut out: Vec<VirTypeId> = Vec::new();
        let mut i: usize = 0;
        while i < fields.len()
            invariant
                0 <= i <= fields.len(),
                self.field_types(fields@.take(i as int)) == Some(out@),
            decreases fields.len() - i,
        {
            assert(fields@.take(i + 1).drop_last() == fields@.take(i as int));
            match self.field(fields[i]) {
                Some(f) => out.push(f.ty),
                None => {
                    proof { self.lemma_field_types_prefix(fields@, i as int + 1); }
                    return None;
                },
            }
            i = i + 1;
        }
        assert(fields@.take(fields.len() as int) == fields@);
        Some(out)
    }

    /// A missing field type in a prefix makes the whole list's types missing.
    proof fn lemma_field_types_prefix(self, fields: Seq<VirFieldId>, n: int)
        requires
            0 <= n <= fields.len(),
            self.field_types(fields.take(n)) is None,
        ensures
            self.field_types(fields) is None,
        decreases fields.len() - n,
    {
        if n < fields.len() {
            assert(fields.take(n + 1).drop_last() == fields.take(n));
            self.lemma_field_types_prefix(fields, n + 1);
        } else {
            assert(fields.take(n) == fields);
        }
    }

    fn child_type_list(&self, kind: &VirMemoryTypeKind) -> (r: Option<Vec<VirTypeId>>)
        ensures
            r is Some <==> self.child_types(*kind) is Some,
            r matches Some(v) ==> self.child_types(*kind) == Some(v@),
    {
        match kind {
            VirMemoryTypeKind::Array { element, .. } => {
                let mut v: Vec<VirTypeId> = Vec::new();
                v.push(*element);
                assert(v@ == seq![*element]);
                Some(v)
            },
            VirMemoryTypeKind::Tuple(elements) => Some(copy_type_ids(elements)),
            VirMemoryTypeKind::Struct { fields } => self.field_type_list(fields),
            VirMemoryTypeKind::Enum { variants } => {
                let mut all: Vec<VirFieldId> = Vec::new();
                let mut i: usize = 0;
                while i < variants.len()
                    invariant
                        0 <= i <= variants.len(),
                        *kind == (VirMemoryTypeKind::Enum { variants: *variants }),
                        forall|j: int| 0 <= j < i ==> #[trigger] self.spec_variant(variants@[j]) is Some,
                        all@ == self.concat_variant_fields(variants@.take(i as int)),
                    decreases variants.len() - i,
                {
                    assert(variants@.take(i + 1).drop_last() == variants@.take(i as int));
                    let v = match self.variant(variants[i]) {
                        Some(v) => v,
                        None => {
                            assert(self.spec_variant(variants@[i as int]) is None);
                            assert(!(forall|j: int| 0 <= j < variants@.len() ==> #[trigger] self.spec_variant(variants@[j]) is Some));
                            assert(self.variant_field_types(variants@) is None);
                            assert(self.child_types(*kind) is None);
                            return None;
                        },
                    };
                    let mut k: usize = 0;
                    let ghost before = all@;
                    while k < v.fields.len()
                        invariant
                            0 <= k <= v.fields.len(),
                            all@ == before + v.fields@.take(k as int),
                        decreases v.fields.len() - k,
                    {
                        all.push(v.fields[k]);
                        assert(v.fields@.take(k + 1) == v.fields@.take(k as int).push(v.fields@[k as int]));
                        k = k + 1;
                    }
                    assert(v.fields@.take(v.fields.len() as int) == v.fields@);
                    i = i + 1;
                }
                assert(variants@.take(variants.len() as int) == variants@);
                self.field_type_list(&all)
            },
            _ => None,
        }
    }

    fn derive_visit(&self, ty: VirTypeId, stack: &mut Vec<VirTypeId>, depth: usize) -> (r: Option<TypeCapabilities>)
        requires
            depth <= TYPE_CAPABILITY_MAX_DEPTH,
        ensures
            r == self.derived_capabilities(ty, old(stack)@, (TYPE_CAPABILITY_MAX_DEPTH - depth) as nat),
            r is Some ==> final(stack)@ == old(stack)@,
        decreases TYPE_CAPABILITY_MAX_DEPTH - depth,
    {
        let ghost fuel = (TYPE_CAPABILITY_MAX_DEPTH - depth) as nat;
        let ghost st = stack@;
        if depth >= TYPE_CAPABILITY_MAX_DEPTH {
            return None;
        }
        if contains_type_id(stack, ty) {
            return None;
        }
        let definition = match self.ty(ty) {
            Some(d) => d,
            None => return None,
        };
        let has_layout = self.layout(definition.layout).is_some();
        match self.child_type_list(&definition.kind) {
            Some(children) => {
                stack.push(ty);
                let mut caps: Vec<TypeCapabilities> = Vec::new();
                let mut i: usize = 0;
                while i < children.len()
                    invariant
                        0 <= i <= children.len(),
                        depth < TYPE_CAPABILITY_MAX_DEPTH,
                        fuel == (TYPE_CAPABILITY_MAX_DEPTH - depth) as nat,
                        stack@ == st.push(ty),
                        st == old(stack)@,
                        self.child_types(definition.kind) == Some(children@),
                        !st.contains(ty),
                        self.spec_ty(ty) == Some(*definition),
                        has_layout == self.spec_layout(definition.layout) is Some,
                        self.derived_list(children@.take(i as int), st.push(ty), (fuel - 1) as nat) == Some(caps@),
                    decreases children.len() - i,
                {
                    assert(children@.take(i + 1).drop_last() == children@.take(i as int));
                    match self.derive_visit(children[i], stack, depth + 1) {
                        Some(c) => caps.push(c),
                        None => {
                            proof {
                                self.lemma_derived_list_prefix(children@, i as int + 1, st.push(ty), (fuel - 1) as nat);
                                assert(self.child_types(definition.kind) == Some(children@));
                                assert(!st.contains(ty));
                                assert(self.derived_capabilities(ty, st, fuel) is None);
                            }
                            return None;
                        },
                    }
                    i = i + 1;
                }
                assert(children@.take(children.len() as int) == children@);
                stack.pop();
                assert(stack@ == st);
                Some(combine_child_capabilities(&caps, has_layout))
            },
            None => {
                let sized = if has_layout { SizeCapability::Sized } else { SizeCapability::Unsized };
                match &definition.kind {
                    VirMemoryTypeKind::Pointer { pointee, kind, mutability } => {
                        if self.ty(*pointee).is_none() {
                            return None;
                        }
                        Some(TypeCapabilities {
                            value: match kind {
                                VirPointerKind::Own => ValueCapability::MoveOnly,
                                VirPointerKind::Raw => ValueCapability::Copy,
                                VirPointerKind::Reference => if *mutability == VirMutability::Const {
                                    ValueCapability::Copy
                                } else {
                                    ValueCapability::MoveOnly
                                },
                            },
                            drop: if *kind == VirPointerKind::Own {
                                DropCapability::BuiltinDrop
                            } else {
                                DropCapability::TrivialDrop
                            },
                            contains_resource: true,
                            size: sized,
                        })
                    },
                    VirMemoryTypeKind::Slice { element, mutability } => {
                        if self.ty(*element).is_none() {
                            return None;
                        }
                        Some(TypeCapabilities {
                            value: if *mutability == VirMutability::Const {
                                ValueCapability::Copy
                            } else {
                                ValueCapability::MoveOnly
                            },
                            drop: DropCapability::TrivialDrop,
                            contains_resource: true,
                            size: sized,
                        })
                    },
                    VirMemoryTypeKind::Array { .. } | VirMemoryTypeKind::Tuple(_)
                    | VirMemoryTypeKind::Struct { .. } | VirMemoryTypeKind::Enum { .. } => None,
                    _ => Some(TypeCapabilities {
                        value: ValueCapability::Copy,
                        drop: DropCapability::TrivialDrop,
                        contains_resource: false,
                        size: sized,
                    }),
                }
            },
        }
    }

    proof fn lemma_derived_list_prefix(self, tys: Seq<VirTypeId>, n: int, stack: Seq<VirTypeId>, fuel: nat)
        requires
            0 <= n <= tys.len(),
            self.derived_list(tys.take(n), stack, fuel) is None,
        ensures
            self.derived_list(tys, stack, fuel) is None,
        decreases tys.len() - n,
    {
        if n < tys.len() {
            assert(tys.take(n + 1).drop_last() == tys.take(n));
            self.lemma_derived_list_prefix(tys, n + 1, stack, fuel);
        } else {
            assert(tys.take(n) == tys);
        }
    }

    /// Capabilities rebuilt from the complete type graph; absent for unknown,
    /// recursive or too deeply nested types.
    pub fn derive_type_capabilities(&self, root: VirTypeId) -> (r: Option<TypeCapabilities>)
        ensures
            r == self.spec_derive_type_capabilities(root),
    {
        let mut stack: Vec<VirTypeId> = Vec::new();
        self.derive_visit(root, &mut stack, 0)
    }
}


impl VirMemorySchema {
    fn validate_layout_shape(&self, layout: &VirLayout) -> (r: Result<(), VirMemorySchemaError>)
        ensures
            r is Ok <==> self.layout_shape_valid(*layout),
            r matches Err(e) ==> e.spec_kind() == (VirMemorySchemaErrorKind::InvalidLayout { layout: layout.id }),
    {
        let kind = match self.kind(layout.ty) {
            Some(k) => k,
            None => return Err(schema_error(VirMemorySchemaErrorKind::InvalidLayout { layout: layout.id })),
        };
        let shape_matches = match kind {
            VirMemoryTypeKind::Struct { fields } => layout.variants.is_none() && same_id_lists_fields(
                fields,
                &field_layout_id_list(&layout.fields),
            ),
            VirMemoryTypeKind::Enum { variants } => layout.fields.len() == 0 && match &layout.variants {
                Some(v) => same_id_lists_variants(variants, &case_variant_id_list(&v.cases)),
                None => false,
            },
            _ => layout.fields.len() == 0 && layout.variants.is_none(),
        };
        if !shape_matches {
            return Err(schema_error(VirMemorySchemaErrorKind::InvalidLayout { layout: layout.id }));
        }
        self.validate_field_ranges(layout, 0, &layout.fields)?;
        match &layout.variants {
            Some(variants) => {
                if !is_power_of_two(variants.tag_alignment) || variants.tag_size_bytes == 0
                    || variants.tag_size_bytes % variants.tag_alignment != 0
                    || variants.tag_alignment > layout.alignment || variants.tag_size_bytes
                    > layout.size_bytes {
                    return Err(schema_error(VirMemorySchemaErrorKind::InvalidLayout { layout: layout.id }));
                }
                let mut c: usize = 0;
                while c < variants.cases.len()
                    invariant
                        0 <= c <= variants.cases.len(),
                        layout.variants == Some(*variants),
                        forall|j: int| 0 <= j < c ==> self.case_valid(*layout, *variants, #[trigger] variants.cases@[j]),
                    decreases variants.cases.len() - c,
                {
                    let case = &variants.cases[c];
                    let variant_ok = match self.variant(case.variant) {
                        Some(variant) => variant.owner == layout.ty && same_id_lists_fields(
                            &variant.fields,
                            &field_layout_id_list(&case.fields),
                        ) && discriminant_fits(variant.discriminant, variants.tag_size_bytes),
                        None => false,
                    };
                    if !variant_ok || case.payload_offset_bytes < variants.tag_size_bytes
                        || case.payload_offset_bytes > layout.size_bytes {
                        return Err(schema_error(VirMemorySchemaErrorKind::InvalidLayout { layout: layout.id }));
                    }
                    let checked = self.validate_field_ranges(layout, case.payload_offset_bytes, &case.fields);
                    if checked.is_err() {
                        return checked;
                    }
                    c = c + 1;
                }
                Ok(())
            },
            None => Ok(()),
        }
    }

    pub fn owner_contains_field(&self, owner: VirTypeId, field: VirFieldId) -> (r: bool)
        ensures
            r == self.spec_owner_contains_field(owner, field),
    {
        match self.kind(owner) {
            Some(VirMemoryTypeKind::Struct { fields }) => count_field_id(fields, field) == 1,
            Some(VirMemoryTypeKind::Enum { variants }) => {
                // Occurrences so far, saturated at two.
                let mut total: usize = 0;
                let mut i: usize = 0;
                while i < variants.len()
                    invariant
                        0 <= i <= variants.len(),
                        total <= 2,
                        total == if self.variant_field_count(variants@.take(i as int), field) >= 2 { 2 } else { self.variant_field_count(variants@.take(i as int), field) },
                    decreases variants.len() - i,
                {
                    assert(variants@.take(i + 1).drop_last() == variants@.take(i as int));
                    let c = match self.variant(variants[i]) {
                        Some(v) => count_field_id(&v.fields, field),
                        None => 0,
                    };
                    total = if c >= 2 || total + c >= 2 { 2 } else { total + c };
                    i = i + 1;
                }
                assert(variants@.take(variants.len() as int) == variants@);
                total == 1
            },
            _ => false,
        }
    }
}


impl VirMemorySchema {
    fn variant_well_owned(&self, variant: &VirVariant) -> (r: bool)
        ensures
            r == self.variant_valid(*variant),
    {
        let owned = match self.kind(variant.owner) {
            Some(VirMemoryTypeKind::Enum { variants }) => contains_variant_id(variants, variant.id),
            _ => false,
        };
        if !owned {
            return false;
        }
        let mut i: usize = 0;
        while i < variant.fields.len()
            invariant
                0 <= i <= variant.fields.len(),
                forall|j: int| 0 <= j < i ==> (#[trigger] self.spec_field(variant.fields@[j]) matches Some(f) && f.owner == variant.owner),
            decreases variant.fields.len() - i,
        {
            let ok = match self.field(variant.fields[i]) {
                Some(f) => f.owner == variant.owner,
                None => false,
            };
            if !ok {
                return false;
            }
            i = i + 1;
        }
        let mut j: usize = 0;
        while j < self.variants.len()
            invariant
                0 <= j <= self.variants.len(),
                forall|k: int| 0 <= k < variant.fields.len() ==> (#[trigger] self.spec_field(variant.fields@[k]) matches Some(f) && f.owner == variant.owner),
                forall|k: int| 0 <= k < j ==> #[trigger] self.variants[k].id == variant.id
                    || self.variants[k].owner != variant.owner || self.variants[k].discriminant != variant.discriminant,
            decreases self.variants.len() - j,
        {
            let other = &self.variants[j];
            if other.id != variant.id && other.owner == variant.owner && other.discriminant == variant.discriminant {
                return false;
            }
            j = j + 1;
        }
        true
    }

    /// Checks density, target shape, every type/layout/field/variant entry and
    /// the capability table against the independently derived capabilities.
    pub fn validate(&self) -> (r: Result<(), VirMemorySchemaError>)
        ensures
            r is Ok <==> self.spec_valid(),
            !self.dense() ==> (r matches Err(e) && e.spec_kind() is NonDenseTable),
            self.first_nondense_table() matches Some(t) ==> (r matches Err(e) && e.spec_kind() == (VirMemorySchemaErrorKind::NonDenseTable { table: t })),
            self.dense() && !spec_target_valid(self.target) ==> (r matches Err(e) && e.spec_kind() == VirMemorySchemaErrorKind::InvalidTarget),
            self.structure_valid() && self.type_capabilities.len() != self.types.len() ==> (r matches Err(e)
                && e.spec_kind() == VirMemorySchemaErrorKind::TypeCapabilityTableMismatch),
            self.structure_valid() && self.type_capabilities.len() == self.types.len() && !self.capabilities_valid() ==> (r matches Err(e)
                && exists|k: int| #[trigger] self.first_capability_mismatch(k)
                    && e.spec_kind() == (VirMemorySchemaErrorKind::TypeCapabilityMismatch { ty: self.types[k].id })),
            r matches Err(e) && is_capability_error(e.spec_kind()) ==> self.structure_valid() && !self.capabilities_valid(),
            r matches Err(e) ==> self.schema_fault(e.spec_kind()),
    {
        let mut i: usize = 0;
        while i < self.types.len()
            invariant
                0 <= i <= self.types.len(),
                forall|k: int| 0 <= k < i ==> #[trigger] self.types[k].id.0 == k,
            decreases self.types.len() - i,
        {
            if self.types[i].id.0 as usize != i {
                return Err(schema_error(VirMemorySchemaErrorKind::NonDenseTable { table: VirSchemaTable::Type }));
            }
            i = i + 1;
        }
        let mut i: usize = 0;
        while i < self.layouts.len()
            invariant
                0 <= i <= self.layouts.len(),
                forall|k: int| 0 <= k < self.types.len() ==> #[trigger] self.types[k].id.0 == k,
                forall|k: int| 0 <= k < i ==> #[trigger] self.layouts[k].id.0 == k,
            decreases self.layouts.len() - i,
        {
            if self.layouts[i].id.0 as usize != i {
                return Err(schema_error(VirMemorySchemaErrorKind::NonDenseTable { table: VirSchemaTable::Layout }));
            }
            i = i + 1;
        }
        let mut i: usize = 0;
        while i < self.fields.len()
            invariant
                0 <= i <= self.fields.len(),
                forall|k: int| 0 <= k < self.types.len() ==> #[trigger] self.types[k].id.0 == k,
                forall|k: int| 0 <= k < self.layouts.len() ==> #[trigger] self.layouts[k].id.0 == k,
                forall|k: int| 0 <= k < i ==> #[trigger] self.fields[k].id.0 == k,
            decreases self.fields.len() - i,
        {
            if self.fields[i].id.0 as usize != i {
                return Err(schema_error(VirMemorySchemaErrorKind::NonDenseTable { table: VirSchemaTable::Field }));
            }
            i = i + 1;
        }
        let mut i: usize = 0;
        while i < self.variants.len()
            invariant
                0 <= i <= self.variants.len(),
                forall|k: int| 0 <= k < self.types.len() ==> #[trigger] self.types[k].id.0 == k,
                forall|k: int| 0 <= k < self.layouts.len() ==> #[trigger] self.layouts[k].id.0 == k,
                forall|k: int| 0 <= k < self.fields.len() ==> #[trigger] self.fields[k].id.0 == k,
                forall|k: int| 0 <= k < i ==> #[trigger] self.variants[k].id.0 == k,
            decreases self.variants.len() - i,
        {
            if self.variants[i].id.0 as usize != i {
                return Err(schema_error(VirMemorySchemaErrorKind::NonDenseTable { table: VirSchemaTable::Variant }));
            }
            i = i + 1;
        }
        assert(self.dense());
        let t = self.target;
        if t.pointer_size_bytes == 0 || !is_power_of_two(t.pointer_alignment)
            || t.pointer_size_bytes % t.pointer_alignment != 0 || t.usize_size_bytes == 0
            || !is_power_of_two(t.usize_alignment) || t.usize_size_bytes % t.usize_alignment != 0 {
            return Err(schema_error(VirMemorySchemaErrorKind::InvalidTarget));
        }
        let mut i: usize = 0;
        while i < self.types.len()
            invariant
                0 <= i <= self.types.len(),
                self.dense(),
                spec_target_valid(self.target),
                forall|k: int| 0 <= k < i ==> (#[trigger] self.spec_layout(self.types[k].layout) matches Some(l) && l.ty == self.types[k].id && self.type_valid(self.types[k], l)),
            decreases self.types.len() - i,
        {
            let ty = &self.types[i];
            let layout = match self.layout(ty.layout) {
                Some(l) => if l.ty == ty.id {
                    l
                } else {
                    assert(self.first_type_fault(i as int));
                    return Err(schema_error(VirMemorySchemaErrorKind::TypeLayoutMismatch { ty: ty.id }));
                },
                None => {
                    assert(self.first_type_fault(i as int));
                    return Err(schema_error(VirMemorySchemaErrorKind::TypeLayoutMismatch { ty: ty.id }));
                },
            };
            match self.validate_type(ty, layout) {
                Ok(()) => {},
                Err(e) => {
                    assert(self.first_type_fault(i as int));
                    return Err(e);
                },
            }
            i = i + 1;
        }
        let mut i: usize = 0;
        while i < self.layouts.len()
            invariant
                0 <= i <= self.layouts.len(),
                self.dense(),
                spec_target_valid(self.target),
                forall|k: int| 0 <= k < self.types.len() ==> (#[trigger] self.spec_layout(self.types[k].layout) matches Some(l) && l.ty == self.types[k].id && self.type_valid(self.types[k], l)),
                forall|k: int| 0 <= k < i ==> self.layout_valid(#[trigger] self.layouts[k]),
            decreases self.layouts.len() - i,
        {
            let layout = &self.layouts[i];
            let owner_ok = match self.ty(layout.ty) {
                Some(t) => t.layout == layout.id,
                None => false,
            };
            if !owner_ok || !is_power_of_two(layout.alignment) || layout.size_bytes % layout.alignment != 0 {
                assert(self.first_layout_fault(i as int));
                return Err(schema_error(VirMemorySchemaErrorKind::InvalidLayout { layout: layout.id }));
            }
            match self.validate_layout_shape(layout) {
                Ok(()) => {},
                Err(e) => {
                    assert(self.first_layout_fault(i as int));
                    return Err(e);
                },
            }
            i = i + 1;
        }
        let mut i: usize = 0;
        while i < self.fields.len()
            invariant
                0 <= i <= self.fields.len(),
                self.dense(),
                spec_target_valid(self.target),
                forall|k: int| 0 <= k < self.types.len() ==> (#[trigger] self.spec_layout(self.types[k].layout) matches Some(l) && l.ty == self.types[k].id && self.type_valid(self.types[k], l)),
                forall|k: int| 0 <= k < self.layouts.len() ==> self.layout_valid(#[trigger] self.layouts[k]),
                forall|k: int| 0 <= k < i ==> self.field_valid(#[trigger] self.fields[k]),
            decreases self.fields.len() - i,
        {
            let field = &self.fields[i];
            if self.ty(field.owner).is_none() || self.ty(field.ty).is_none()
                || !self.owner_contains_field(field.owner, field.id) {
                assert(self.first_field_fault(i as int));
                return Err(schema_error(VirMemorySchemaErrorKind::InvalidField { field: field.id }));
            }
            i = i + 1;
        }
        let mut i: usize = 0;
        while i < self.variants.len()
            invariant
                0 <= i <= self.variants.len(),
                self.dense(),
                spec_target_valid(self.target),
                forall|k: int| 0 <= k < self.types.len() ==> (#[trigger] self.spec_layout(self.types[k].layout) matches Some(l) && l.ty == self.types[k].id && self.type_valid(self.types[k], l)),
                forall|k: int| 0 <= k < self.layouts.len() ==> self.layout_valid(#[trigger] self.layouts[k]),
                forall|k: int| 0 <= k < self.fields.len() ==> self.field_valid(#[trigger] self.fields[k]),
                forall|k: int| 0 <= k < i ==> self.variant_valid(#[trigger] self.variants[k]),
            decreases self.variants.len() - i,
        {
            let variant = &self.variants[i];
            if !self.variant_well_owned(variant) {
                assert(self.first_variant_fault(i as int));
                return Err(schema_error(VirMemorySchemaErrorKind::InvalidVariant { variant: variant.id }));
            }
            i = i + 1;
        }
        if self.type_capabilities.len() != self.types.len() {
            return Err(schema_error(VirMemorySchemaErrorKind::TypeCapabilityTableMismatch));
        }
        let mut i: usize = 0;
        while i < self.types.len()
            invariant
                0 <= i <= self.types.len(),
                self.type_capabilities.len() == self.types.len(),
                self.dense(),
                spec_target_valid(self.target),
                forall|k: int| 0 <= k < self.types.len() ==> (#[trigger] self.spec_layout(self.types[k].layout) matches Some(l) && l.ty == self.types[k].id && self.type_valid(self.types[k], l)),
                forall|k: int| 0 <= k < self.layouts.len() ==> self.layout_valid(#[trigger] self.layouts[k]),
                forall|k: int| 0 <= k < self.fields.len() ==> self.field_valid(#[trigger] self.fields[k]),
                forall|k: int| 0 <= k < self.variants.len() ==> self.variant_valid(#[trigger] self.variants[k]),
                forall|k: int| 0 <= k < i ==> self.spec_derive_type_capabilities(#[trigger] self.types[k].id) == Some(self.type_capabilities[self.types[k].id.0 as int]),
            decreases self.types.len() - i,
        {
            let id = self.types[i].id;
            let expected = self.type_capabilities[id.0 as usize];
            match self.derive_type_capabilities(id) {
                Some(derived) => if derived != expected {
                    assert(self.first_capability_mismatch(i as int));
                    return Err(schema_error(VirMemorySchemaErrorKind::TypeCapabilityMismatch { ty: id }));
                },
                None => {
                    assert(self.first_capability_mismatch(i as int));
                    return Err(schema_error(VirMemorySchemaErrorKind::TypeCapabilityMismatch { ty: id }));
                },
            }
            i = i + 1;
        }
        Ok(())
    }

    /// Rebuilds the capability table from the complete memory type graph.
    /// On failure the schema is left unchanged.
    pub fn assign_canonical_type_capabilities(&mut self) -> (r: Result<(), VirMemorySchemaError>)
        ensures
            r is Ok <==> forall|k: int| 0 <= k < old(self).types.len() ==> k <= u32::MAX && (#[trigger] old(self).spec_derive_type_capabilities(VirTypeId(k as u32))) is Some,
            r is Ok ==> final(self).type_capabilities@.len() == old(self).types.len() && forall|k: int| 0 <= k < old(self).types.len() ==> Some(#[trigger] final(self).type_capabilities@[k]) == old(self).spec_derive_type_capabilities(VirTypeId(k as u32)),
            r is Err ==> *final(self) == *old(self),
            r is Ok ==> forall|k: int| 0 <= k < final(self).types.len() ==> #[trigger] final(self).spec_derive_type_capabilities(VirTypeId(k as u32)) == Some(final(self).type_capabilities@[k]),
            r is Ok && old(self).dense() ==> final(self).capabilities_valid(),
            final(self).target == old(self).target,
            final(self).types == old(self).types,
            final(self).layouts == old(self).layouts,
            final(self).fields == old(self).fields,
            final(self).variants == old(self).variants,
    {
        let mut capabilities: Vec<TypeCapabilities> = Vec::new();
        let mut index: usize = 0;
        while index < self.types.len()
            invariant
                0 <= index <= self.types.len(),
                capabilities@.len() == index,
                forall|k: int| 0 <= k < index ==> k <= u32::MAX && Some(#[trigger] capabilities@[k]) == self.spec_derive_type_capabilities(VirTypeId(k as u32)),
            decreases self.types.len() - index,
        {
            if index > u32::MAX as usize {
                return Err(schema_error(VirMemorySchemaErrorKind::TypeCapabilityTableMismatch));
            }
            let raw = index as u32;
            match self.derive_type_capabilities(VirTypeId(raw)) {
                Some(c) => capabilities.push(c),
                None => {
                    assert(self.spec_derive_type_capabilities(VirTypeId(index as int as u32)) is None);
                    return Err(schema_error(VirMemorySchemaErrorKind::TypeCapabilityMismatch { ty: VirTypeId(raw) }));
                },
            }
            index = index + 1;
        }
        assert forall|k: int| 0 <= k < self.types.len() implies k <= u32::MAX && (#[trigger] self.spec_derive_type_capabilities(VirTypeId(k as u32))) is Some by {
            assert(Some(capabilities@[k]) == self.spec_derive_type_capabilities(VirTypeId(k as u32)));
        }
        let ghost before = *self;
        self.type_capabilities = capabilities;
        proof {
            lemma_capability_rebuild_idempotent(before, *self);
            if before.dense() {
                lemma_rebuilt_capabilities_valid(before, *self);
            }
        }
        Ok(())
    }
}

/// Fixed-width integers take the size of the Rust integer of the same
/// width and are aligned to that size; pointer-sized integers take the
/// target's `usize` size and alignment.
pub proof fn lemma_integer_layout_is_natural(integer: VirIntegerType, target: VirTargetDataLayout)
    ensures
        ({
            let (size, alignment) = spec_integer_layout(integer, target);
            &&& match integer {
                VirIntegerType::U8 => size == vstd::layout::size_of::<u8>(),
                VirIntegerType::I8 => size == vstd::layout::size_of::<i8>(),
                VirIntegerType::U16 => size == vstd::layout::size_of::<u16>(),
                VirIntegerType::I16 => size == vstd::layout::size_of::<i16>(),
                VirIntegerType::U32 => size == vstd::layout::size_of::<u32>(),
                VirIntegerType::I32 => size == vstd::layout::size_of::<i32>(),
                VirIntegerType::U64 => size == vstd::layout::size_of::<u64>(),
                VirIntegerType::I64 => size == vstd::layout::size_of::<i64>(),
                VirIntegerType::U128 => size == vstd::layout::size_of::<u128>(),
                VirIntegerType::I128 => size == vstd::layout::size_of::<i128>(),
                VirIntegerType::Usize | VirIntegerType::Isize => size == target.usize_size_bytes && alignment == target.usize_alignment,
            }
            &&& !(integer is Usize || integer is Isize) ==> alignment == size
        }),
{
    broadcast use vstd::layout::layout_of_primitives;
    assert(vstd::layout::size_of::<u8>() == 1);
    assert(vstd::layout::size_of::<i8>() == 1);
    assert(vstd::layout::size_of::<u16>() == 2);
    assert(vstd::layout::size_of::<i16>() == 2);
    assert(vstd::layout::size_of::<u32>() == 4);
    assert(vstd::layout::size_of::<i32>() == 4);
    assert(vstd::layout::size_of::<u64>() == 8);
    assert(vstd::layout::size_of::<i64>() == 8);
    assert(vstd::layout::size_of::<u128>() == 16);
    assert(vstd::layout::size_of::<i128>() == 16);
}

/// A pointer type whose pointee is known always has capabilities: it holds
/// a resource, is move-only exactly when it owns or is a mutable reference
/// (raw pointers and shared references are copied), and needs a built-in
/// drop exactly when it owns.
pub proof fn lemma_pointer_capabilities(schema: VirMemorySchema, ty: VirTypeId)
    requires
        schema.spec_kind(ty) matches Some(VirMemoryTypeKind::Pointer { pointee, .. }) && schema.spec_ty(pointee) is Some,
    ensures
        schema.spec_derive_type_capabilities(ty) matches Some(c) && match schema.spec_kind(ty) {
            Some(VirMemoryTypeKind::Pointer { kind, mutability, .. }) => {
                &&& c.contains_resource
                &&& (c.value == ValueCapability::MoveOnly <==> (kind == VirPointerKind::Own || (kind == VirPointerKind::Reference
                    && mutability == VirMutability::Mutable)))
                &&& (c.drop == DropCapability::BuiltinDrop <==> kind == VirPointerKind::Own)
            },
            _ => false,
        },
{
    let definition = schema.spec_ty(ty)->0;
    assert(schema.child_types(definition.kind) is None);
    assert(!is_aggregate_kind(definition.kind));
    assert(!Seq::<VirTypeId>::empty().contains(ty));
}

/// The capabilities of every other non-aggregate type: a slice holds a
/// resource and is copied exactly when it is shared; unit, booleans,
/// integers and never are plain copied values. Each is sized exactly when
/// its layout is known.
pub proof fn lemma_leaf_capabilities(schema: VirMemorySchema, ty: VirTypeId)
    requires
        schema.spec_ty(ty) is Some,
        match schema.spec_kind(ty) {
            Some(VirMemoryTypeKind::Slice { element, .. }) => schema.spec_ty(element) is Some,
            Some(VirMemoryTypeKind::Unit) | Some(VirMemoryTypeKind::Bool) | Some(VirMemoryTypeKind::Integer(_)) | Some(
                VirMemoryTypeKind::Never,
            ) => true,
            _ => false,
        },
    ensures
        schema.spec_derive_type_capabilities(ty) matches Some(c) && (c.size == SizeCapability::Sized <==> schema.type_layout(ty) is Some)
            && match schema.spec_kind(ty) {
            Some(VirMemoryTypeKind::Slice { mutability, .. }) => {
                &&& c.contains_resource
                &&& (c.value == ValueCapability::Copy <==> mutability == VirMutability::Const)
                &&& c.drop == DropCapability::TrivialDrop
            },
            _ => c.value == ValueCapability::Copy && c.drop == DropCapability::TrivialDrop && !c.contains_resource,
        },
{
    let definition = schema.spec_ty(ty)->0;
    assert(schema.child_types(definition.kind) is None);
    assert(!is_aggregate_kind(definition.kind));
    assert(!Seq::<VirTypeId>::empty().contains(ty));
}

/// In a valid schema the access of a known type resolves.
pub proof fn lemma_access_resolves(schema: VirMemorySchema, ty: VirTypeId)
    requires
        schema.spec_valid(),
        schema.spec_access(ty) is Some,
    ensures
        schema.spec_resolves_access(schema.spec_access(ty)->0),
{
    let k = ty.0 as int;
    assert(schema.spec_layout(schema.types[k].layout) matches Some(l) && l.ty == schema.types[k].id && schema.type_valid(schema.types[k], l));
}

/// Validation reports one fault per schema: two faults it may report are
/// the same.
pub proof fn lemma_schema_fault_unique(schema: VirMemorySchema, a: VirMemorySchemaErrorKind, b: VirMemorySchemaErrorKind)
    requires
        schema.schema_fault(a),
        schema.schema_fault(b),
    ensures
        a == b,
{
    if !schema.dense() || !spec_target_valid(schema.target) {
    } else if !(forall|i: int| 0 <= i < schema.types.len() ==> (#[trigger] schema.spec_layout(schema.types[i].layout) matches Some(l) && l.ty == schema.types[i].id && schema.type_valid(schema.types[i], l))) {
        let ka = choose|k: int| #[trigger] schema.first_type_fault(k) && a == schema.type_entry_fault(k);
        let kb = choose|k: int| #[trigger] schema.first_type_fault(k) && b == schema.type_entry_fault(k);
        if ka < kb {
            assert(schema.spec_layout(schema.types[ka].layout) matches Some(l) && l.ty == schema.types[ka].id && schema.type_valid(schema.types[ka], l));
        } else if kb < ka {
            assert(schema.spec_layout(schema.types[kb].layout) matches Some(l) && l.ty == schema.types[kb].id && schema.type_valid(schema.types[kb], l));
        }
    } else if !(forall|i: int| 0 <= i < schema.layouts.len() ==> schema.layout_valid(#[trigger] schema.layouts[i])) {
        let ka = choose|k: int| #[trigger] schema.first_layout_fault(k) && a == (VirMemorySchemaErrorKind::InvalidLayout { layout: schema.layouts[k].id });
        let kb = choose|k: int| #[trigger] schema.first_layout_fault(k) && b == (VirMemorySchemaErrorKind::InvalidLayout { layout: schema.layouts[k].id });
        if ka < kb {
            assert(schema.layout_valid(schema.layouts[ka]));
        } else if kb < ka {
            assert(schema.layout_valid(schema.layouts[kb]));
        }
    } else if !(forall|i: int| 0 <= i < schema.fields.len() ==> schema.field_valid(#[trigger] schema.fields[i])) {
        let ka = choose|k: int| #[trigger] schema.first_field_fault(k) && a == (VirMemorySchemaErrorKind::InvalidField { field: schema.fields[k].id });
        let kb = choose|k: int| #[trigger] schema.first_field_fault(k) && b == (VirMemorySchemaErrorKind::InvalidField { field: schema.fields[k].id });
        if ka < kb {
            assert(schema.field_valid(schema.fields[ka]));
        } else if kb < ka {
            assert(schema.field_valid(schema.fields[kb]));
        }
    } else if !(forall|i: int| 0 <= i < schema.variants.len() ==> schema.variant_valid(#[trigger] schema.variants[i])) {
        let ka = choose|k: int| #[trigger] schema.first_variant_fault(k) && a == (VirMemorySchemaErrorKind::InvalidVariant { variant: schema.variants[k].id });
        let kb = choose|k: int| #[trigger] schema.first_variant_fault(k) && b == (VirMemorySchemaErrorKind::InvalidVariant { variant: schema.variants[k].id });
        if ka < kb {
            assert(schema.variant_valid(schema.variants[ka]));
        } else if kb < ka {
            assert(schema.variant_valid(schema.variants[kb]));
        }
    } else if schema.type_capabilities.len() != schema.types.len() {
    } else {
        let ka = choose|k: int| #[trigger] schema.first_capability_mismatch(k) && a == (VirMemorySchemaErrorKind::TypeCapabilityMismatch { ty: schema.types[k].id });
        let kb = choose|k: int| #[trigger] schema.first_capability_mismatch(k) && b == (VirMemorySchemaErrorKind::TypeCapabilityMismatch { ty: schema.types[k].id });
        if ka < kb {
            assert(schema.spec_derive_type_capabilities(schema.types[ka].id) == Some(schema.type_capabilities[schema.types[ka].id.0 as int]));
        } else if kb < ka {
            assert(schema.spec_derive_type_capabilities(schema.types[kb].id) == Some(schema.type_capabilities[schema.types[kb].id.0 as int]));
        }
    }
}

/// Derivation reads the type graph only: two schemas with the same type,
/// layout, field and variant tables derive the same capabilities.
proof fn lemma_derived_ignores_table(a: VirMemorySchema, b: VirMemorySchema, ty: VirTypeId, stack: Seq<VirTypeId>, fuel: nat)
    requires
        a.types@ == b.types@,
        a.layouts@ == b.layouts@,
        a.fields@ == b.fields@,
        a.variants@ == b.variants@,
    ensures
        a.derived_capabilities(ty, stack, fuel) == b.derived_capabilities(ty, stack, fuel),
    decreases fuel, 0nat,
{
    if fuel == 0 || stack.contains(ty) {
    } else {
        assert(a.spec_ty(ty) == b.spec_ty(ty));
        match a.spec_ty(ty) {
            None => {},
            Some(definition) => {
                lemma_children_ignore_table(a, b, definition.kind);
                match a.child_types(definition.kind) {
                    Some(children) => {
                        lemma_list_ignores_table(a, b, children, stack.push(ty), (fuel - 1) as nat);
                    },
                    None => {},
                }
                assert(a.spec_layout(definition.layout) == b.spec_layout(definition.layout));
            },
        }
    }
}

proof fn lemma_list_ignores_table(a: VirMemorySchema, b: VirMemorySchema, tys: Seq<VirTypeId>, stack: Seq<VirTypeId>, fuel: nat)
    requires
        a.types@ == b.types@,
        a.layouts@ == b.layouts@,
        a.fields@ == b.fields@,
        a.variants@ == b.variants@,
    ensures
        a.derived_list(tys, stack, fuel) == b.derived_list(tys, stack, fuel),
    decreases fuel, tys.len(),
{
    if tys.len() > 0 {
        lemma_list_ignores_table(a, b, tys.drop_last(), stack, fuel);
        lemma_derived_ignores_table(a, b, tys.last(), stack, fuel);
    }
}

proof fn lemma_field_types_ignore_table(a: VirMemorySchema, b: VirMemorySchema, fields: Seq<VirFieldId>)
    requires
        a.fields@ == b.fields@,
    ensures
        a.field_types(fields) == b.field_types(fields),
    decreases fields.len(),
{
    if fields.len() > 0 {
        lemma_field_types_ignore_table(a, b, fields.drop_last());
        assert(a.spec_field(fields.last()) == b.spec_field(fields.last()));
    }
}

proof fn lemma_variant_fields_ignore_table(a: VirMemorySchema, b: VirMemorySchema, variants: Seq<VirVariantId>)
    requires
        a.variants@ == b.variants@,
    ensures
        a.concat_variant_fields(variants) == b.concat_variant_fields(variants),
    decreases variants.len(),
{
    if variants.len() > 0 {
        lemma_variant_fields_ignore_table(a, b, variants.drop_last());
        assert(a.spec_variant(variants.last()) == b.spec_variant(variants.last()));
    }
}

proof fn lemma_children_ignore_table(a: VirMemorySchema, b: VirMemorySchema, kind: VirMemoryTypeKind)
    requires
        a.fields@ == b.fields@,
        a.variants@ == b.variants@,
    ensures
        a.child_types(kind) == b.child_types(kind),
{
    match kind {
        VirMemoryTypeKind::Struct { fields } => {
            lemma_field_types_ignore_table(a, b, fields@);
        },
        VirMemoryTypeKind::Enum { variants } => {
            lemma_variant_fields_ignore_table(a, b, variants@);
            assert(forall|i: int| 0 <= i < variants@.len() ==> a.spec_variant(#[trigger] variants@[i]) == b.spec_variant(variants@[i]));
            lemma_field_types_ignore_table(a, b, a.concat_variant_fields(variants@));
        },
        _ => {},
    }
}

/// Rebuilding the capability table twice gives the table of the first
/// rebuild: `after` holds exactly what `before` derives, and deriving on
/// `after` gives the same table again.
pub proof fn lemma_capability_rebuild_idempotent(before: VirMemorySchema, after: VirMemorySchema)
    requires
        after.types@ == before.types@,
        after.layouts@ == before.layouts@,
        after.fields@ == before.fields@,
        after.variants@ == before.variants@,
        after.type_capabilities@.len() == before.types.len(),
        forall|k: int| 0 <= k < before.types.len() ==> Some(#[trigger] after.type_capabilities@[k]) == before.spec_derive_type_capabilities(VirTypeId(k as u32)),
    ensures
        forall|k: int| 0 <= k < after.types.len() ==> #[trigger] after.spec_derive_type_capabilities(VirTypeId(k as u32)) == Some(after.type_capabilities@[k]),
{
    assert forall|k: int| 0 <= k < after.types.len() implies #[trigger] after.spec_derive_type_capabilities(VirTypeId(k as u32)) == Some(after.type_capabilities@[k]) by {
        lemma_derived_ignores_table(before, after, VirTypeId(k as u32), Seq::empty(), TYPE_CAPABILITY_MAX_DEPTH as nat);
    }
}

/// After a successful rebuild of a dense schema the stored capabilities
/// agree with the derived ones, so validation reports no capability error.
pub proof fn lemma_rebuilt_capabilities_valid(before: VirMemorySchema, after: VirMemorySchema)
    requires
        before.dense(),
        after.types@ == before.types@,
        after.layouts@ == before.layouts@,
        after.fields@ == before.fields@,
        after.variants@ == before.variants@,
        after.type_capabilities@.len() == before.types.len(),
        forall|k: int| 0 <= k < before.types.len() ==> k <= u32::MAX && Some(#[trigger] after.type_capabilities@[k]) == before.spec_derive_type_capabilities(VirTypeId(k as u32)),
    ensures
        after.capabilities_valid(),
{
    assert forall|i: int| 0 <= i < after.types.len() implies after.spec_derive_type_capabilities(#[trigger] after.types[i].id) == Some(after.type_capabilities[after.types[i].id.0 as int]) by {
        assert(before.types[i].id.0 == i);
        assert(after.types[i] == before.types[i]);
        assert(after.types[i].id == VirTypeId(i as u32));
        lemma_derived_ignores_table(before, after, VirTypeId(i as u32), Seq::empty(), TYPE_CAPABILITY_MAX_DEPTH as nat);
    }
}

#[derive(Clone, Debug, PartialEq, Eq)]
pub struct VirMemorySchemaError {
    kind: VirMemorySchemaErrorKind,
}

impl VirMemorySchemaError {
    pub closed spec fn spec_kind(&self) -> VirMemorySchemaErrorKind {
        self.kind
    }

    pub fn kind(&self) -> (kind: &VirMemorySchemaErrorKind)
        ensures
            *kind == self.spec_kind(),
    {
        &self.kind
    }

    /// The failure reason, taken out of the error.
    pub fn into_kind(self) -> (kind: VirMemorySchemaErrorKind)
        ensures
            kind == self.spec_kind(),
    {
        self.kind
    }
}

/// A fault of the capability checks of validation.
pub open spec fn is_capability_error(kind: VirMemorySchemaErrorKind) -> bool {
    kind is TypeCapabilityTableMismatch || kind is TypeCapabilityMismatch
}

/// Name of a schema table whose identifiers are not dense.
#[derive(Clone, Copy, Debug, PartialEq, Eq, Structural)]
pub enum VirSchemaTable {
    Type,
    Layout,
    Field,
    Variant,
}

#[derive(Clone, Debug, PartialEq, Eq)]
pub enum VirMemorySchemaErrorKind {
    NonDenseTable { table: VirSchemaTable },
    InvalidTarget,
    TypeLayoutMismatch { ty: VirTypeId },
    TypeCapabilityTableMismatch,
    TypeCapabilityMismatch { ty: VirTypeId },
    InvalidType { ty: VirTypeId },
    InvalidLayout { layout: VirLayoutId },
    InvalidField { field: VirFieldId },
    InvalidVariant { variant: VirVariantId },
}

pub fn schema_error(kind: VirMemorySchemaErrorKind) -> (e: VirMemorySchemaError)
    ensures
        e.spec_kind() == kind,
{
    VirMemorySchemaError { kind }
}

} // verus!
