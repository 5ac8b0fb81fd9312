//! Canonical, immutable object shapes derived from [`VirMemorySchema`].

use vstd::prelude::*;

use crate::byte_range::{
    ByteRangeSet, VirObjectByteRange, canonical_ranges, covers, lemma_within_from_cover, nonempty_ranges,
    ranges_within,
};
use crate::ids::{VirFieldId, VirTypeId, VirVariantId};
use crate::memory::{
    VirFieldLayout, VirLayout, VirMemoryAccess, VirMemorySchema, VirMemorySchemaErrorKind, VirVariantCaseLayout,
    VirMemoryTypeKind, VirMutability, VirPointerKind, align_up,
};

verus! {

/// Maximum number of by-value object nodes expanded by one shape query.
pub const VIR_OBJECT_SHAPE_MAX_NODES: usize = 65_536;

/// Maximum nesting depth followed through by-value aggregate children.
pub const VIR_OBJECT_SHAPE_MAX_DEPTH: usize = 256;

/// One canonical step from a root object to a nested object.
#[derive(Clone, Copy, Debug, PartialEq, Eq, PartialOrd, Ord, Hash, Structural)]
pub enum VirObjectPathSegment {
    TupleElement(u64),
    Field(VirFieldId),
    ArrayElement(u64),
    Variant(VirVariantId),
}

/// Canonical nominal/index path of a nested object.
#[derive(Clone, Debug, Default, PartialEq, Eq, PartialOrd, Ord, Hash)]
pub struct VirObjectPath(Vec<VirObjectPathSegment>);

impl VirObjectPath {
    pub closed spec fn spec_segments(&self) -> Seq<VirObjectPathSegment> {
        self.0@
    }

    pub fn segments(&self) -> (r: &[VirObjectPathSegment])
        ensures
            r@ == self.spec_segments(),
    {
        self.0.as_slice()
    }

    /// The root path.
    pub fn root() -> (r: Self)
        ensures
            r.spec_segments() == Seq::<VirObjectPathSegment>::empty(),
    {
        VirObjectPath(Vec::new())
    }

    fn child(&self, segment: VirObjectPathSegment) -> (r: Self)
        ensures
            r.spec_segments() == self.spec_segments().push(segment),
    {
        let mut segments = copy_segments(&self.0);
        segments.push(segment);
        VirObjectPath(segments)
    }

    pub fn copy(&self) -> (r: Self)
        ensures
            r.spec_segments() == self.spec_segments(),
    {
        VirObjectPath(copy_segments(&self.0))
    }

    /// Exact segment-wise equality.
    pub fn same(&self, other: &VirObjectPath) -> (r: bool)
        ensures
            r == (self.spec_segments() == other.spec_segments()),
    {
        same_segments(self.0.as_slice(), other.0.as_slice())
    }
}

fn copy_segments(s: &Vec<VirObjectPathSegment>) -> (r: Vec<VirObjectPathSegment>)
    ensures
        r@ == s@,
{
    let mut out: Vec<VirObjectPathSegment> = Vec::new();
    let mut i: usize = 0;
    while i < s.len()
        invariant
            0 <= i <= s.len(),
            out@ == s@.take(i as int),
        decreases s.len() - i,
    {
        out.push(s[i]);
        assert(s@.take(i + 1) == s@.take(i as int).push(s@[i as int]));
        i = i + 1;
    }
    assert(s@.take(s.len() as int) == s@);
    out
}

/// Segment-wise equality of two paths.
pub fn same_segments(a: &[VirObjectPathSegment], b: &[VirObjectPathSegment]) -> (r: bool)
    ensures
        r == (a@ == b@),
{
    if a.len() != b.len() {
        return false;
    }
    let mut i: usize = 0;
    while i < a.len()
        invariant
            a@.len() == b@.len(),
            0 <= i <= a.len(),
            forall|j: int| 0 <= j < i ==> a@[j] == b@[j],
        decreases a.len() - i,
    {
        if a[i] != b[i] {
            return false;
        }
        i = i + 1;
    }
    assert(a@ == b@);
    true
}

/// A scalar leaf that may be active in the root object's representation.
#[derive(Clone, Debug, PartialEq, Eq, PartialOrd, Ord, Hash)]
pub struct VirObjectLeaf {
    path: VirObjectPath,
    access: VirMemoryAccess,
    bytes: VirObjectByteRange,
}

impl VirObjectLeaf {
    pub closed spec fn spec_path(&self) -> VirObjectPath {
        self.path
    }

    pub closed spec fn spec_access(&self) -> VirMemoryAccess {
        self.access
    }

    pub closed spec fn spec_bytes(&self) -> VirObjectByteRange {
        self.bytes
    }

    pub fn path(&self) -> (r: &VirObjectPath)
        ensures
            *r == self.spec_path(),
    {
        &self.path
    }

    #[verifier::when_used_as_spec(spec_access)]
    pub fn access(&self) -> (r: VirMemoryAccess)
        ensures
            r == self.spec_access(),
    {
        self.access
    }

    #[verifier::when_used_as_spec(spec_bytes)]
    pub fn bytes(&self) -> (r: VirObjectByteRange)
        ensures
            r == self.spec_bytes(),
    {
        self.bytes
    }

    fn copy(&self) -> (r: Self)
        ensures
            r.spec_path().spec_segments() == self.spec_path().spec_segments(),
            r.spec_access() == self.spec_access(),
            r.spec_bytes() == self.spec_bytes(),
    {
        VirObjectLeaf { path: self.path.copy(), access: self.access, bytes: self.bytes }
    }
}

/// Canonical typed resource leaf derived from an object shape.
#[derive(Clone, Debug, PartialEq, Eq, Hash)]
pub struct VirObjectResourceLeaf {
    path: VirObjectPath,
    access: VirMemoryAccess,
    pointee_access: VirMemoryAccess,
    kind: VirPointerKind,
    mutability: VirMutability,
    bytes: VirObjectByteRange,
}

impl VirObjectResourceLeaf {
    pub closed spec fn spec_path(&self) -> VirObjectPath {
        self.path
    }

    pub closed spec fn spec_access(&self) -> VirMemoryAccess {
        self.access
    }

    pub closed spec fn spec_pointee_access(&self) -> VirMemoryAccess {
        self.pointee_access
    }

    pub closed spec fn spec_kind(&self) -> VirPointerKind {
        self.kind
    }

    pub closed spec fn spec_mutability(&self) -> VirMutability {
        self.mutability
    }

    pub closed spec fn spec_bytes(&self) -> VirObjectByteRange {
        self.bytes
    }

    pub fn path(&self) -> (r: &VirObjectPath)
        ensures
            *r == self.spec_path(),
    {
        &self.path
    }

    #[verifier::when_used_as_spec(spec_access)]
    pub fn access(&self) -> (r: VirMemoryAccess)
        ensures
            r == self.spec_access(),
    {
        self.access
    }

    #[verifier::when_used_as_spec(spec_pointee_access)]
    pub fn pointee_access(&self) -> (r: VirMemoryAccess)
        ensures
            r == self.spec_pointee_access(),
    {
        self.pointee_access
    }

    #[verifier::when_used_as_spec(spec_kind)]
    pub fn kind(&self) -> (r: VirPointerKind)
        ensures
            r == self.spec_kind(),
    {
        self.kind
    }

    #[verifier::when_used_as_spec(spec_mutability)]
    pub fn mutability(&self) -> (r: VirMutability)
        ensures
            r == self.spec_mutability(),
    {
        self.mutability
    }

    #[verifier::when_used_as_spec(spec_bytes)]
    pub fn bytes(&self) -> (r: VirObjectByteRange)
        ensures
            r == self.spec_bytes(),
    {
        self.bytes
    }
}

/// Canonical stride and physical extent of one fixed array subobject.
#[derive(Clone, Debug, PartialEq, Eq, PartialOrd, Ord, Hash)]
pub struct VirObjectArrayShape {
    path: VirObjectPath,
    access: VirMemoryAccess,
    element_access: VirMemoryAccess,
    stride_bytes: u64,
    length: u64,
    extent: VirObjectByteRange,
}

impl VirObjectArrayShape {
    pub closed spec fn spec_path(&self) -> VirObjectPath {
        self.path
    }

    pub closed spec fn spec_access(&self) -> VirMemoryAccess {
        self.access
    }

    pub closed spec fn spec_element_access(&self) -> VirMemoryAccess {
        self.element_access
    }

    pub closed spec fn spec_stride_bytes(&self) -> u64 {
        self.stride_bytes
    }

    pub closed spec fn spec_length(&self) -> u64 {
        self.length
    }

    pub closed spec fn spec_extent(&self) -> VirObjectByteRange {
        self.extent
    }

    pub fn path(&self) -> (r: &VirObjectPath)
        ensures
            *r == self.spec_path(),
    {
        &self.path
    }

    #[verifier::when_used_as_spec(spec_access)]
    pub fn access(&self) -> (r: VirMemoryAccess)
        ensures
            r == self.spec_access(),
    {
        self.access
    }

    #[verifier::when_used_as_spec(spec_element_access)]
    pub fn element_access(&self) -> (r: VirMemoryAccess)
        ensures
            r == self.spec_element_access(),
    {
        self.element_access
    }

    #[verifier::when_used_as_spec(spec_stride_bytes)]
    pub fn stride_bytes(&self) -> (r: u64)
        ensures
            r == self.spec_stride_bytes(),
    {
        self.stride_bytes
    }

    #[verifier::when_used_as_spec(spec_length)]
    pub fn length(&self) -> (r: u64)
        ensures
            r == self.spec_length(),
    {
        self.length
    }

    #[verifier::when_used_as_spec(spec_extent)]
    pub fn extent(&self) -> (r: VirObjectByteRange)
        ensures
            r == self.spec_extent(),
    {
        self.extent
    }
}

/// The active byte shape of one enum case.
#[derive(Clone, Debug, PartialEq, Eq, PartialOrd, Ord, Hash)]
pub struct VirObjectVariantShape {
    path: VirObjectPath,
    enum_access: VirMemoryAccess,
    variant: VirVariantId,
    discriminant: u64,
    tag: VirObjectByteRange,
    payload: VirObjectByteRange,
    leaves: Vec<VirObjectLeaf>,
    value_bytes: Vec<VirObjectByteRange>,
    padding: Vec<VirObjectByteRange>,
}

impl VirObjectVariantShape {
    pub closed spec fn spec_path(&self) -> VirObjectPath {
        self.path
    }

    pub closed spec fn spec_enum_access(&self) -> VirMemoryAccess {
        self.enum_access
    }

    pub closed spec fn spec_variant(&self) -> VirVariantId {
        self.variant
    }

    pub closed spec fn spec_discriminant(&self) -> u64 {
        self.discriminant
    }

    pub closed spec fn spec_tag(&self) -> VirObjectByteRange {
        self.tag
    }

    pub closed spec fn spec_payload(&self) -> VirObjectByteRange {
        self.payload
    }

    pub closed spec fn spec_leaves(&self) -> Seq<VirObjectLeaf> {
        self.leaves@
    }

    pub closed spec fn spec_value_bytes(&self) -> Seq<VirObjectByteRange> {
        self.value_bytes@
    }

    pub closed spec fn spec_padding(&self) -> Seq<VirObjectByteRange> {
        self.padding@
    }

    pub fn path(&self) -> (r: &VirObjectPath)
        ensures
            *r == self.spec_path(),
    {
        &self.path
    }

    #[verifier::when_used_as_spec(spec_enum_access)]
    pub fn enum_access(&self) -> (r: VirMemoryAccess)
        ensures
            r == self.spec_enum_access(),
    {
        self.enum_access
    }

    #[verifier::when_used_as_spec(spec_variant)]
    pub fn variant(&self) -> (r: VirVariantId)
        ensures
            r == self.spec_variant(),
    {
        self.variant
    }

    #[verifier::when_used_as_spec(spec_discriminant)]
    pub fn discriminant(&self) -> (r: u64)
        ensures
            r == self.spec_discriminant(),
    {
        self.discriminant
    }

    #[verifier::when_used_as_spec(spec_tag)]
    pub fn tag(&self) -> (r: VirObjectByteRange)
        ensures
            r == self.spec_tag(),
    {
        self.tag
    }

    #[verifier::when_used_as_spec(spec_payload)]
    pub fn payload(&self) -> (r: VirObjectByteRange)
        ensures
            r == self.spec_payload(),
    {
        self.payload
    }

    pub fn leaves(&self) -> (r: &[VirObjectLeaf])
        ensures
            r@ == self.spec_leaves(),
    {
        self.leaves.as_slice()
    }

    pub fn value_bytes(&self) -> (r: &[VirObjectByteRange])
        ensures
            r@ == self.spec_value_bytes(),
    {
        self.value_bytes.as_slice()
    }

    pub fn padding(&self) -> (r: &[VirObjectByteRange])
        ensures
            r@ == self.spec_padding(),
    {
        self.padding.as_slice()
    }
}

/// Canonical shape of one sized, addressable VIR object.
#[derive(Clone, Debug, PartialEq, Eq)]
pub struct VirObjectShape {
    access: VirMemoryAccess,
    size_bytes: u64,
    alignment: u64,
    leaves: Vec<VirObjectLeaf>,
    resource_leaves: Vec<VirObjectResourceLeaf>,
    value_bytes: Vec<VirObjectByteRange>,
    padding: Vec<VirObjectByteRange>,
    arrays: Vec<VirObjectArrayShape>,
    variants: Vec<VirObjectVariantShape>,
}

impl VirObjectShape {
    pub closed spec fn spec_access(&self) -> VirMemoryAccess {
        self.access
    }

    pub closed spec fn spec_size_bytes(&self) -> u64 {
        self.size_bytes
    }

    pub closed spec fn spec_alignment(&self) -> u64 {
        self.alignment
    }

    pub closed spec fn spec_leaves(&self) -> Seq<VirObjectLeaf> {
        self.leaves@
    }

    pub closed spec fn spec_resource_leaves(&self) -> Seq<VirObjectResourceLeaf> {
        self.resource_leaves@
    }

    pub closed spec fn spec_value_bytes(&self) -> Seq<VirObjectByteRange> {
        self.value_bytes@
    }

    pub closed spec fn spec_padding(&self) -> Seq<VirObjectByteRange> {
        self.padding@
    }

    pub closed spec fn spec_arrays(&self) -> Seq<VirObjectArrayShape> {
        self.arrays@
    }

    pub closed spec fn spec_variants(&self) -> Seq<VirObjectVariantShape> {
        self.variants@
    }

    pub fn access(&self) -> (r: VirMemoryAccess)
        ensures
            r == self.spec_access(),
    {
        self.access
    }

    pub fn size_bytes(&self) -> (r: u64)
        ensures
            r == self.spec_size_bytes(),
    {
        self.size_bytes
    }

    pub fn alignment(&self) -> (r: u64)
        ensures
            r == self.spec_alignment(),
    {
        self.alignment
    }

    /// All scalar leaves that can be active in some representation.
    pub fn leaves(&self) -> (r: &[VirObjectLeaf])
        ensures
            r@ == self.spec_leaves(),
    {
        self.leaves.as_slice()
    }

    /// Pointer/resource leaves in the same canonical order as the leaves.
    pub fn resource_leaves(&self) -> (r: &[VirObjectResourceLeaf])
        ensures
            r@ == self.spec_resource_leaves(),
    {
        self.resource_leaves.as_slice()
    }

    /// Partial storage can be retired without discarding authority and
    /// without reading an active-variant tag.
    pub fn supports_storage_reset(&self) -> (r: bool)
        ensures
            r == (self.spec_resource_leaves().len() == 0 && self.spec_variants().len() == 0),
    {
        self.resource_leaves.len() == 0 && self.variants.len() == 0
    }

    pub fn supports_resource_storage_reset(&self) -> (r: bool)
        ensures
            r == (self.spec_resource_leaves().len() > 0 && self.spec_variants().len() == 0 && forall|i: int|
                0 <= i < self.spec_resource_leaves().len() ==> (#[trigger] self.spec_resource_leaves()[i]).spec_kind() != VirPointerKind::Raw),
    {
        if self.resource_leaves.len() == 0 || self.variants.len() != 0 {
            return false;
        }
        let mut i: usize = 0;
        while i < self.resource_leaves.len()
            invariant
                0 <= i <= self.resource_leaves@.len(),
                forall|j: int| 0 <= j < i ==> (#[trigger] self.resource_leaves@[j]).spec_kind() != VirPointerKind::Raw,
            decreases self.resource_leaves.len() - i,
        {
            if self.resource_leaves[i].kind() == VirPointerKind::Raw {
                return false;
            }
            i = i + 1;
        }
        true
    }

    /// Union of bytes that carry a value in at least one representation.
    pub fn value_bytes(&self) -> (r: &[VirObjectByteRange])
        ensures
            r@ == self.spec_value_bytes(),
    {
        self.value_bytes.as_slice()
    }

    /// Bytes that never carry a value in any representation.
    pub fn padding(&self) -> (r: &[VirObjectByteRange])
        ensures
            r@ == self.spec_padding(),
    {
        self.padding.as_slice()
    }

    pub fn arrays(&self) -> (r: &[VirObjectArrayShape])
        ensures
            r@ == self.spec_arrays(),
    {
        self.arrays.as_slice()
    }

    pub fn variants(&self) -> (r: &[VirObjectVariantShape])
        ensures
            r@ == self.spec_variants(),
    {
        self.variants.as_slice()
    }
}

/// Failure to derive a safe, finite object shape.
#[derive(Clone, Debug, PartialEq, Eq)]
pub struct VirObjectShapeError {
    kind: VirObjectShapeErrorKind,
}

impl VirObjectShapeError {
    pub closed spec fn spec_kind(&self) -> VirObjectShapeErrorKind {
        self.kind
    }

    pub fn kind(&self) -> (r: &VirObjectShapeErrorKind)
        ensures
            *r == self.spec_kind(),
    {
        &self.kind
    }
}

/// Fail-closed reasons emitted by `VirMemorySchema::object_shape`.
#[derive(Clone, Debug, PartialEq, Eq)]
pub enum VirObjectShapeErrorKind {
    InvalidSchema(VirMemorySchemaErrorKind),
    InvalidAccess { access: VirMemoryAccess },
    UnsupportedObjectType { ty: VirTypeId },
    RecursiveAggregate { ty: VirTypeId },
    ArithmeticOverflow { access: VirMemoryAccess },
    OutOfBounds { access: VirMemoryAccess },
    LayoutMismatch { access: VirMemoryAccess },
    ComplexityLimitExceeded { access: VirMemoryAccess, limit: usize },
    NestingLimitExceeded { access: VirMemoryAccess, limit: usize },
}

fn shape_error(kind: VirObjectShapeErrorKind) -> (e: VirObjectShapeError)
    ensures
        e.spec_kind() == kind,
{
    VirObjectShapeError { kind }
}

fn checked_add(left: u64, right: u64, access: VirMemoryAccess) -> (r: Result<u64, VirObjectShapeError>)
    ensures
        match r {
            Ok(v) => v == left + right,
            Err(e) => left + right > u64::MAX && e.spec_kind() == (VirObjectShapeErrorKind::ArithmeticOverflow { access }),
        },
{
    match left.checked_add(right) {
        Some(v) => Ok(v),
        None => Err(shape_error(VirObjectShapeErrorKind::ArithmeticOverflow { access })),
    }
}

fn checked_mul(left: u64, right: u64, access: VirMemoryAccess) -> (r: Result<u64, VirObjectShapeError>)
    ensures
        match r {
            Ok(v) => v == left * right,
            Err(e) => left * right > u64::MAX && e.spec_kind() == (VirObjectShapeErrorKind::ArithmeticOverflow { access }),
        },
{
    match left.checked_mul(right) {
        Some(v) => Ok(v),
        None => Err(shape_error(VirObjectShapeErrorKind::ArithmeticOverflow { access })),
    }
}

/// Rounds `value` up to a power-of-two `alignment`, failing closed on overflow.
fn align_up_checked(value: u64, alignment: u64, access: VirMemoryAccess) -> (r: Result<u64, VirObjectShapeError>)
    ensures
        match r {
            Ok(v) => Some(v) == crate::memory::spec_align_up(value, alignment),
            Err(e) => crate::memory::spec_align_up(value, alignment) is None
                && e.spec_kind() == (VirObjectShapeErrorKind::ArithmeticOverflow { access }),
        },
{
    match align_up(value, alignment) {
        Some(v) => Ok(v),
        None => Err(shape_error(VirObjectShapeErrorKind::ArithmeticOverflow { access })),
    }
}

proof fn lemma_align_up_ge(value: u64, alignment: u64)
    requires
        crate::memory::spec_align_up(value, alignment) is Some,
    ensures
        crate::memory::spec_align_up(value, alignment).unwrap() >= value,
{
    let m = (alignment - 1) as u64;
    assert(value + m <= u64::MAX);
    let x = (value + m) as u64;
    assert((x & !m) >= x - m) by (bit_vector);
}

/// Leaves, arrays, variants and value bytes gathered while walking an object.
#[derive(Clone, Debug, Default)]
struct BuiltObject {
    leaves: Vec<VirObjectLeaf>,
    arrays: Vec<VirObjectArrayShape>,
    variants: Vec<VirObjectVariantShape>,
    value_bytes: ByteRangeSet,
}

/// Every byte range of `leaves` lies inside `[lo, hi)`.
pub open spec fn leaves_within(leaves: Seq<VirObjectLeaf>, lo: int, hi: int) -> bool {
    forall|i: int| 0 <= i < leaves.len() ==> lo <= (#[trigger] leaves[i]).spec_bytes().spec_start_bytes()
        && leaves[i].spec_bytes().spec_end_bytes() <= hi
}

impl BuiltObject {
    /// All value bytes and leaves lie inside `[lo, hi)`.
    spec fn within(&self, lo: int, hi: int) -> bool {
        &&& self.value_bytes.wf()
        &&& ranges_within(self.value_bytes.ranges@, lo, hi)
        &&& leaves_within(self.leaves@, lo, hi)
    }

    fn empty() -> (r: Self)
        ensures
            forall|lo: int, hi: int| #[trigger] r.within(lo, hi),
            r.value_bytes.wf(),
            r.value_bytes.ranges@.len() == 0,
            r.leaves@.len() == 0 && r.arrays@.len() == 0 && r.variants@.len() == 0,
    {
        BuiltObject { leaves: Vec::new(), arrays: Vec::new(), variants: Vec::new(), value_bytes: ByteRangeSet::empty() }
    }

    fn absorb(&mut self, child: Self)
        requires
            old(self).value_bytes.wf(),
            child.value_bytes.wf(),
        ensures
            final(self).value_bytes.wf(),
            final(self).leaves@ == old(self).leaves@ + child.leaves@,
            final(self).arrays@ == old(self).arrays@ + child.arrays@,
            final(self).variants@ == old(self).variants@ + child.variants@,
            final(self).value_bytes.ranges@ == old(self).value_bytes.ranges@ + child.value_bytes.ranges@,
    {
        let mut child = child;
        self.leaves.append(&mut child.leaves);
        self.arrays.append(&mut child.arrays);
        self.variants.append(&mut child.variants);
        self.value_bytes.extend(child.value_bytes);
    }
}

/// Every byte of every leaf is a value byte of `ranges`.
pub open spec fn leaves_valued(leaves: Seq<VirObjectLeaf>, ranges: Seq<VirObjectByteRange>) -> bool {
    forall|i: int, x: int|
        #![trigger leaves[i], covers(ranges, x)]
        0 <= i < leaves.len() && leaves[i].spec_bytes().spec_start_bytes() <= x < leaves[i].spec_bytes().spec_end_bytes()
            ==> covers(ranges, x)
}

/// Leaves stay valued when the value bytes only grow.
proof fn lemma_valued_grow(leaves: Seq<VirObjectLeaf>, r1: Seq<VirObjectByteRange>, r2: Seq<VirObjectByteRange>)
    requires
        leaves_valued(leaves, r1),
        forall|x: int| covers(r1, x) ==> covers(r2, x),
    ensures
        leaves_valued(leaves, r2),
{
    assert forall|i: int, x: int|
        #![trigger leaves[i], covers(r2, x)]
        0 <= i < leaves.len() && leaves[i].spec_bytes().spec_start_bytes() <= x < leaves[i].spec_bytes().spec_end_bytes()
            implies covers(r2, x) by {
        assert(covers(r1, x));
    }
}

/// A scalar kind whose value is stored: a boolean, an integer or a pointer.
pub open spec fn is_leaf_kind(kind: Option<VirMemoryTypeKind>) -> bool {
    match kind {
        Some(VirMemoryTypeKind::Bool) | Some(VirMemoryTypeKind::Integer(_)) | Some(VirMemoryTypeKind::Pointer { .. }) => true,
        _ => false,
    }
}

/// Canonical ranges that cover nothing are empty.
proof fn lemma_canonical_covering_nothing(r: Seq<VirObjectByteRange>)
    requires
        canonical_ranges(r),
        forall|x: int| !covers(r, x),
    ensures
        r.len() == 0,
{
    if r.len() > 0 {
        assert(covers(r, r[0].spec_start_bytes() as int));
    }
}

/// The shape of a scalar object of access `access`: no arrays and no
/// variants; a stored scalar is one leaf at the root covering all its
/// bytes, all of which are value bytes; a unit or never value has no leaf
/// and no value byte.
pub open spec fn scalar_shape(schema: VirMemorySchema, access: VirMemoryAccess, shape: VirObjectShape) -> bool {
    let size = shape.spec_size_bytes() as int;
    &&& shape.spec_arrays().len() == 0
    &&& shape.spec_variants().len() == 0
    &&& if is_leaf_kind(schema.spec_kind(access.ty)) {
        &&& shape.spec_leaves().len() == 1
        &&& shape.spec_leaves()[0].spec_path().spec_segments().len() == 0
        &&& shape.spec_leaves()[0].spec_access() == access
        &&& shape.spec_leaves()[0].spec_bytes().spec_start_bytes() == 0
        &&& shape.spec_leaves()[0].spec_bytes().spec_end_bytes() == size
        &&& forall|x: int| covers(shape.spec_value_bytes(), x) <==> 0 <= x < size
        &&& shape.spec_padding().len() == 0
    } else {
        &&& shape.spec_leaves().len() == 0
        &&& shape.spec_value_bytes().len() == 0
    }
}

proof fn lemma_within_concat(a: BuiltObject, b: BuiltObject, c: BuiltObject, lo: int, hi: int)
    requires
        a.within(lo, hi),
        b.within(lo, hi),
        c.value_bytes.wf(),
        c.leaves@ == a.leaves@ + b.leaves@,
        c.value_bytes.ranges@ == a.value_bytes.ranges@ + b.value_bytes.ranges@,
    ensures
        c.within(lo, hi),
        leaves_valued(a.leaves@, a.value_bytes.ranges@) && leaves_valued(b.leaves@, b.value_bytes.ranges@) ==> leaves_valued(
            c.leaves@,
            c.value_bytes.ranges@,
        ),
{
    let (ra, rb, rc) = (a.value_bytes.ranges@, b.value_bytes.ranges@, c.value_bytes.ranges@);
    if leaves_valued(a.leaves@, ra) && leaves_valued(b.leaves@, rb) {
        assert forall|i: int, x: int|
            #![trigger c.leaves@[i], covers(rc, x)]
            0 <= i < c.leaves@.len() && c.leaves@[i].spec_bytes().spec_start_bytes() <= x < c.leaves@[i].spec_bytes().spec_end_bytes()
                implies covers(rc, x) by {
            if i < a.leaves@.len() {
                assert(c.leaves@[i] == a.leaves@[i]);
                assert(covers(ra, x));
                let j = choose|j: int| 0 <= j < ra.len() && (#[trigger] ra[j]).spec_start_bytes() <= x < ra[j].spec_end_bytes();
                assert(rc[j] == ra[j]);
            } else {
                assert(c.leaves@[i] == b.leaves@[i - a.leaves@.len()]);
                assert(covers(rb, x));
                let j = choose|j: int| 0 <= j < rb.len() && (#[trigger] rb[j]).spec_start_bytes() <= x < rb[j].spec_end_bytes();
                assert(rc[j + ra.len()] == rb[j]);
            }
        }
    }
    assert forall|i: int| 0 <= i < c.leaves@.len() implies lo <= (#[trigger] c.leaves@[i]).spec_bytes().spec_start_bytes()
        && c.leaves@[i].spec_bytes().spec_end_bytes() <= hi by {
        if i < a.leaves@.len() {
            assert(c.leaves@[i] == a.leaves@[i]);
        } else {
            assert(c.leaves@[i] == b.leaves@[i - a.leaves@.len()]);
        }
    }
    let (ra, rb, rc) = (a.value_bytes.ranges@, b.value_bytes.ranges@, c.value_bytes.ranges@);
    assert forall|i: int| 0 <= i < rc.len() implies lo <= (#[trigger] rc[i]).spec_start_bytes() && rc[i].spec_end_bytes() <= hi by {
        if i < ra.len() {
            assert(rc[i] == ra[i]);
        } else {
            assert(rc[i] == rb[i - ra.len()]);
        }
    }
}

proof fn lemma_within_widen(a: BuiltObject, lo: int, hi: int, lo2: int, hi2: int)
    requires
        a.within(lo, hi),
        lo2 <= lo,
        hi <= hi2,
    ensures
        a.within(lo2, hi2),
{
    assert forall|i: int| 0 <= i < a.leaves@.len() implies lo2 <= (#[trigger] a.leaves@[i]).spec_bytes().spec_start_bytes()
        && a.leaves@[i].spec_bytes().spec_end_bytes() <= hi2 by {
    }
    assert forall|i: int| 0 <= i < a.value_bytes.ranges@.len() implies lo2 <= (#[trigger] a.value_bytes.ranges@[i]).spec_start_bytes()
        && a.value_bytes.ranges@[i].spec_end_bytes() <= hi2 by {
    }
}

/// Walk state: the root's size, expanded node count and aggregate stack.
struct ObjectShapeBuilder {
    root_size: u64,
    nodes: usize,
    stack: Vec<VirTypeId>,
}

impl ObjectShapeBuilder {
    fn reserve_nodes(&mut self, access: VirMemoryAccess, additional: usize) -> (r: Result<(), VirObjectShapeError>)
        ensures
            final(self).stack@ == old(self).stack@,
            final(self).root_size == old(self).root_size,
            r is Ok <==> old(self).nodes + additional <= VIR_OBJECT_SHAPE_MAX_NODES,
            r is Ok ==> final(self).nodes == old(self).nodes + additional,
            r matches Err(e) ==> e.spec_kind() == (VirObjectShapeErrorKind::ComplexityLimitExceeded { access, limit: VIR_OBJECT_SHAPE_MAX_NODES }),
    {
        match self.nodes.checked_add(additional) {
            Some(n) => {
                self.nodes = n;
                if n > VIR_OBJECT_SHAPE_MAX_NODES {
                    return Err(shape_error(VirObjectShapeErrorKind::ComplexityLimitExceeded { access, limit: VIR_OBJECT_SHAPE_MAX_NODES }));
                }
                Ok(())
            },
            None => Err(shape_error(VirObjectShapeErrorKind::ComplexityLimitExceeded { access, limit: VIR_OBJECT_SHAPE_MAX_NODES })),
        }
    }
}

/// Size of the layout that `access` names, or zero when it names none.
pub open spec fn access_size(schema: VirMemorySchema, access: VirMemoryAccess) -> int {
    match schema.spec_layout(access.layout) {
        Some(l) => l.size_bytes as int,
        None => 0,
    }
}

fn sorted_field_ids(v: &Vec<VirFieldId>) -> (r: Vec<VirFieldId>)
    ensures
        r@.len() == v@.len(),
        r@.to_multiset() == v@.to_multiset(),
        forall|i: int, j: int| 0 <= i < j < r@.len() ==> (#[trigger] r@[i]).0 <= (#[trigger] r@[j]).0,
{
    broadcast use vstd::seq_lib::group_to_multiset_ensures;
    let mut out: Vec<VirFieldId> = Vec::new();
    let mut i: usize = 0;
    while i < v.len()
        invariant
            0 <= i <= v.len(),
            out@.len() == i,
            out@.to_multiset() == v@.take(i as int).to_multiset(),
            forall|a: int, b: int| 0 <= a < b < out@.len() ==> (#[trigger] out@[a]).0 <= (#[trigger] out@[b]).0,
        decreases v.len() - i,
    {
        let x = v[i];
        let mut k: usize = 0;
        while k < out.len() && out[k].0 <= x.0
            invariant
                0 <= k <= out.len(),
                forall|j: int| 0 <= j < k ==> (#[trigger] out@[j]).0 <= x.0,
            decreases out.len() - k,
        {
            k = k + 1;
        }
        proof {
            assert forall|j: int| k <= j < out@.len() implies x.0 < (#[trigger] out@[j]).0 by {
                if j > k {
                    assert(out@[k as int].0 <= out@[j].0);
                }
            }
        }
        let ghost before = out@;
        out.insert(k, x);
        proof {
            vstd::seq_lib::to_multiset_insert(before, k as int, x);
            assert(v@.take(i + 1) == v@.take(i as int).push(x));
            vstd::seq_lib::to_multiset_build(v@.take(i as int), x);
            assert forall|a: int, b: int| 0 <= a < b < out@.len() implies (#[trigger] out@[a]).0 <= (#[trigger] out@[b]).0 by {
                if b == k {
                    assert(out@[a] == before[a]);
                } else if a == k {
                    assert(out@[b] == before[b - 1]);
                } else if a < k && b > k {
                    assert(out@[a] == before[a]);
                    assert(out@[b] == before[b - 1]);
                } else if b < k {
                    assert(out@[a] == before[a] && out@[b] == before[b]);
                } else {
                    assert(out@[a] == before[a - 1] && out@[b] == before[b - 1]);
                }
            }
        }
        i = i + 1;
    }
    assert(v@.take(v.len() as int) == v@);
    out
}

fn sorted_variant_ids(v: &Vec<VirVariantId>) -> (r: Vec<VirVariantId>)
    ensures
        r@.len() == v@.len(),
        r@.to_multiset() == v@.to_multiset(),
        forall|i: int, j: int| 0 <= i < j < r@.len() ==> (#[trigger] r@[i]).0 <= (#[trigger] r@[j]).0,
{
    broadcast use vstd::seq_lib::group_to_multiset_ensures;
    let mut out: Vec<VirVariantId> = Vec::new();
    let mut i: usize = 0;
    while i < v.len()
        invariant
            0 <= i <= v.len(),
            out@.len() == i,
            out@.to_multiset() == v@.take(i as int).to_multiset(),
            forall|a: int, b: int| 0 <= a < b < out@.len() ==> (#[trigger] out@[a]).0 <= (#[trigger] out@[b]).0,
        decreases v.len() - i,
    {
        let x = v[i];
        let mut k: usize = 0;
        while k < out.len() && out[k].0 <= x.0
            invariant
                0 <= k <= out.len(),
                forall|j: int| 0 <= j < k ==> (#[trigger] out@[j]).0 <= x.0,
            decreases out.len() - k,
        {
            k = k + 1;
        }
        proof {
            assert forall|j: int| k <= j < out@.len() implies x.0 < (#[trigger] out@[j]).0 by {
                if j > k {
                    assert(out@[k as int].0 <= out@[j].0);
                }
            }
        }
        let ghost before = out@;
        out.insert(k, x);
        proof {
            vstd::seq_lib::to_multiset_insert(before, k as int, x);
            assert(v@.take(i + 1) == v@.take(i as int).push(x));
            vstd::seq_lib::to_multiset_build(v@.take(i as int), x);
            assert forall|a: int, b: int| 0 <= a < b < out@.len() implies (#[trigger] out@[a]).0 <= (#[trigger] out@[b]).0 by {
                if b == k {
                    assert(out@[a] == before[a]);
                } else if a == k {
                    assert(out@[b] == before[b - 1]);
                } else if a < k && b > k {
                    assert(out@[a] == before[a]);
                    assert(out@[b] == before[b - 1]);
                } else if b < k {
                    assert(out@[a] == before[a] && out@[b] == before[b]);
                } else {
                    assert(out@[a] == before[a - 1] && out@[b] == before[b - 1]);
                }
            }
        }
        i = i + 1;
    }
    assert(v@.take(v.len() as int) == v@);
    out
}

/// The layout entry of `field`, if the list has one.
/// The first layout entry of `field` in `layouts` from position `i` on.
pub open spec fn field_layout_from(layouts: Seq<VirFieldLayout>, field: VirFieldId, i: int) -> Option<VirFieldLayout>
    decreases layouts.len() - i,
{
    if 0 <= i < layouts.len() {
        if layouts[i].field == field {
            Some(layouts[i])
        } else {
            field_layout_from(layouts, field, i + 1)
        }
    } else {
        None
    }
}

/// The index of the first case of `variant` in `cases` from position `i` on.
pub open spec fn case_index_from(cases: Seq<VirVariantCaseLayout>, variant: VirVariantId, i: int) -> Option<int>
    decreases cases.len() - i,
{
    if 0 <= i < cases.len() {
        if cases[i].variant == variant {
            Some(i)
        } else {
            case_index_from(cases, variant, i + 1)
        }
    } else {
        None
    }
}

pub(crate) fn field_layout_for(layouts: &Vec<VirFieldLayout>, field: VirFieldId) -> (r: Option<VirFieldLayout>)
    ensures
        match r {
            Some(fl) => fl.field == field && layouts@.contains(fl),
            None => forall|i: int| 0 <= i < layouts@.len() ==> (#[trigger] layouts@[i]).field != field,
        },
        r == field_layout_from(layouts@, field, 0),
{
    let mut i: usize = 0;
    while i < layouts.len()
        invariant
            0 <= i <= layouts.len(),
            forall|j: int| 0 <= j < i ==> (#[trigger] layouts@[j]).field != field,
            field_layout_from(layouts@, field, 0) == field_layout_from(layouts@, field, i as int),
        decreases layouts.len() - i,
    {
        if layouts[i].field == field {
            assert(layouts@[i as int] == layouts[i as int]);
            return Some(layouts[i]);
        }
        i = i + 1;
    }
    None
}

/// Index of the case layout of `variant`, if the list has one.
pub(crate) fn case_layout_index(cases: &Vec<VirVariantCaseLayout>, variant: VirVariantId) -> (r: Option<usize>)
    ensures
        match r {
            Some(i) => i < cases@.len() && cases@[i as int].variant == variant,
            None => forall|i: int| 0 <= i < cases@.len() ==> (#[trigger] cases@[i]).variant != variant,
        },
        match r {
            Some(i) => case_index_from(cases@, variant, 0) == Some(i as int),
            None => case_index_from(cases@, variant, 0) is None,
        },
{
    let mut i: usize = 0;
    while i < cases.len()
        invariant
            0 <= i <= cases.len(),
            forall|j: int| 0 <= j < i ==> (#[trigger] cases@[j]).variant != variant,
            case_index_from(cases@, variant, 0) == case_index_from(cases@, variant, i as int),
        decreases cases.len() - i,
    {
        if cases[i].variant == variant {
            return Some(i);
        }
        i = i + 1;
    }
    None
}

fn access_of(schema: &VirMemorySchema, ty: VirTypeId, owner: VirMemoryAccess) -> (r: Result<VirMemoryAccess, VirObjectShapeError>)
    ensures
        match r {
            Ok(a) => schema.spec_access(ty) == Some(a),
            Err(e) => schema.spec_access(ty) is None && e.spec_kind() == (VirObjectShapeErrorKind::LayoutMismatch { access: owner }),
        },
{
    match schema.access(ty) {
        Some(a) => Ok(a),
        None => Err(shape_error(VirObjectShapeErrorKind::LayoutMismatch { access: owner })),
    }
}

fn layout_of<'a>(schema: &'a VirMemorySchema, access: VirMemoryAccess, owner: VirMemoryAccess) -> (r: Result<&'a VirLayout, VirObjectShapeError>)
    ensures
        match r {
            Ok(l) => schema.spec_layout(access.layout) == Some(*l),
            Err(e) => schema.spec_layout(access.layout) is None && e.spec_kind() == (VirObjectShapeErrorKind::LayoutMismatch { access: owner }),
        },
{
    match schema.layout(access.layout) {
        Some(l) => Ok(l),
        None => Err(shape_error(VirObjectShapeErrorKind::LayoutMismatch { access: owner })),
    }
}

/// Rank of a segment kind in the canonical segment order.
pub open spec fn spec_segment_rank(s: VirObjectPathSegment) -> u8 {
    match s {
        VirObjectPathSegment::TupleElement(_) => 0,
        VirObjectPathSegment::Field(_) => 1,
        VirObjectPathSegment::ArrayElement(_) => 2,
        VirObjectPathSegment::Variant(_) => 3,
    }
}

/// The number a segment carries, compared within one rank.
pub open spec fn spec_segment_key(s: VirObjectPathSegment) -> u64 {
    match s {
        VirObjectPathSegment::TupleElement(i) => i,
        VirObjectPathSegment::Field(f) => f.0 as u64,
        VirObjectPathSegment::ArrayElement(i) => i,
        VirObjectPathSegment::Variant(v) => v.0 as u64,
    }
}

/// Lexicographic three-way comparison of `a` and `b` from position `i` on:
/// segments by rank, then key; a proper prefix sorts first.
pub open spec fn path_order_from(a: Seq<VirObjectPathSegment>, b: Seq<VirObjectPathSegment>, i: int) -> int
    decreases a.len() - i,
{
    if 0 <= i < a.len() && i < b.len() {
        if spec_segment_rank(a[i]) != spec_segment_rank(b[i]) {
            if spec_segment_rank(a[i]) < spec_segment_rank(b[i]) { -1 } else { 1 }
        } else if spec_segment_key(a[i]) != spec_segment_key(b[i]) {
            if spec_segment_key(a[i]) < spec_segment_key(b[i]) { -1 } else { 1 }
        } else {
            path_order_from(a, b, i + 1)
        }
    } else if a.len() < b.len() {
        -1
    } else if a.len() > b.len() {
        1
    } else {
        0
    }
}

/// Lexicographic three-way comparison of two paths.
pub open spec fn path_order(a: Seq<VirObjectPathSegment>, b: Seq<VirObjectPathSegment>) -> int {
    path_order_from(a, b, 0)
}

/// Comparison from `i` is antisymmetric.
proof fn lemma_path_order_antisymmetric(a: Seq<VirObjectPathSegment>, b: Seq<VirObjectPathSegment>, i: int)
    requires
        0 <= i,
    ensures
        path_order_from(a, b, i) == -path_order_from(b, a, i),
    decreases a.len() - i,
{
    if i < a.len() && i < b.len() && spec_segment_rank(a[i]) == spec_segment_rank(b[i]) && spec_segment_key(a[i])
        == spec_segment_key(b[i]) {
        lemma_path_order_antisymmetric(a, b, i + 1);
    }
}

/// Comparison from `i` is transitive, strictly where either step is strict.
proof fn lemma_path_order_transitive(
    a: Seq<VirObjectPathSegment>,
    b: Seq<VirObjectPathSegment>,
    c: Seq<VirObjectPathSegment>,
    i: int,
)
    requires
        0 <= i,
        path_order_from(a, b, i) <= 0,
        path_order_from(b, c, i) <= 0,
    ensures
        path_order_from(a, c, i) <= 0,
        path_order_from(a, b, i) < 0 || path_order_from(b, c, i) < 0 ==> path_order_from(a, c, i) < 0,
    decreases a.len() - i,
{
    if i < a.len() && i < b.len() && i < c.len() && spec_segment_rank(a[i]) == spec_segment_rank(b[i])
        && spec_segment_key(a[i]) == spec_segment_key(b[i]) && spec_segment_rank(b[i]) == spec_segment_rank(c[i])
        && spec_segment_key(b[i]) == spec_segment_key(c[i]) {
        lemma_path_order_transitive(a, b, c, i + 1);
    }
}

/// Rank of a segment kind in the canonical segment order.
fn segment_rank(s: VirObjectPathSegment) -> (r: u8)
    ensures
        r == spec_segment_rank(s),
{
    match s {
        VirObjectPathSegment::TupleElement(_) => 0,
        VirObjectPathSegment::Field(_) => 1,
        VirObjectPathSegment::ArrayElement(_) => 2,
        VirObjectPathSegment::Variant(_) => 3,
    }
}

fn segment_key(s: VirObjectPathSegment) -> (r: u64)
    ensures
        r == spec_segment_key(s),
{
    match s {
        VirObjectPathSegment::TupleElement(i) => i,
        VirObjectPathSegment::Field(f) => f.0 as u64,
        VirObjectPathSegment::ArrayElement(i) => i,
        VirObjectPathSegment::Variant(v) => v.0 as u64,
    }
}

/// Three-way comparison of two paths in canonical (lexicographic) order:
/// -1, 0 or 1.
fn compare_paths(a: &[VirObjectPathSegment], b: &[VirObjectPathSegment]) -> (r: i8)
    ensures
        r == path_order(a@, b@),
{
    let mut i: usize = 0;
    while i < a.len() && i < b.len()
        invariant
            0 <= i <= a.len(),
            path_order(a@, b@) == path_order_from(a@, b@, i as int),
        decreases a.len() - i,
    {
        let (ra, rb) = (segment_rank(a[i]), segment_rank(b[i]));
        if ra != rb {
            return if ra < rb { -1 } else { 1 };
        }
        let (ka, kb) = (segment_key(a[i]), segment_key(b[i]));
        if ka != kb {
            return if ka < kb { -1 } else { 1 };
        }
        i = i + 1;
    }
    if a.len() < b.len() {
        -1
    } else if a.len() > b.len() {
        1
    } else {
        0
    }
}

/// `a` sorts no later than `b`: by path, then enum access, then variant.
pub closed spec fn variant_before(a: VirObjectVariantShape, b: VirObjectVariantShape) -> bool {
    let c = path_order(a.path.0@, b.path.0@);
    let (x, y) = (a.enum_access, b.enum_access);
    if c != 0 {
        c < 0
    } else if x.ty.0 != y.ty.0 {
        x.ty.0 < y.ty.0
    } else if x.layout.0 != y.layout.0 {
        x.layout.0 < y.layout.0
    } else {
        a.variant.0 <= b.variant.0
    }
}

/// The canonical order of variant shapes is total.
pub proof fn lemma_variant_before_total(a: VirObjectVariantShape, b: VirObjectVariantShape)
    ensures
        variant_before(a, b) || variant_before(b, a),
{
    lemma_path_order_antisymmetric(a.path.0@, b.path.0@, 0);
}

/// The canonical order of variant shapes is transitive.
pub proof fn lemma_variant_before_transitive(a: VirObjectVariantShape, b: VirObjectVariantShape, c: VirObjectVariantShape)
    requires
        variant_before(a, b),
        variant_before(b, c),
    ensures
        variant_before(a, c),
{
    let (pa, pb, pc) = (a.path.0@, b.path.0@, c.path.0@);
    lemma_path_order_antisymmetric(pa, pb, 0);
    lemma_path_order_antisymmetric(pb, pc, 0);
    lemma_path_order_antisymmetric(pa, pc, 0);
    if path_order(pa, pb) <= 0 && path_order(pb, pc) <= 0 {
        lemma_path_order_transitive(pa, pb, pc, 0);
    }
    if path_order(pa, pb) == 0 && path_order(pb, pc) > 0 {
        lemma_path_order_transitive(pc, pb, pa, 0);
        lemma_path_order_antisymmetric(pc, pb, 0);
    }
    if path_order(pa, pb) > 0 && path_order(pb, pc) == 0 {
        lemma_path_order_transitive(pc, pb, pa, 0);
    }
}

/// `a` sorts no later than `b` by path, enum access and variant.
fn variant_shape_before(a: &VirObjectVariantShape, b: &VirObjectVariantShape) -> (r: bool)
    ensures
        r == variant_before(*a, *b),
{
    let c = compare_paths(a.path.0.as_slice(), b.path.0.as_slice());
    if c != 0 {
        return c < 0;
    }
    let (x, y) = (a.enum_access, b.enum_access);
    if x.ty.0 != y.ty.0 {
        return x.ty.0 < y.ty.0;
    }
    if x.layout.0 != y.layout.0 {
        return x.layout.0 < y.layout.0;
    }
    a.variant.0 <= b.variant.0
}

/// The shapes are in canonical order.
pub open spec fn variants_sorted(v: Seq<VirObjectVariantShape>) -> bool {
    forall|i: int, j: int| 0 <= i < j < v.len() ==> variant_before(#[trigger] v[i], #[trigger] v[j])
}

/// Stable insertion sort of variant shapes into canonical order.
fn sort_variant_shapes(v: Vec<VirObjectVariantShape>) -> (r: Vec<VirObjectVariantShape>)
    ensures
        r@.to_multiset() == v@.to_multiset(),
        r@.len() == v@.len(),
        variants_sorted(r@),
{
    broadcast use vstd::seq_lib::group_to_multiset_ensures;
    let mut v = v;
    let ghost original = v@;
    let mut out: Vec<VirObjectVariantShape> = Vec::new();
    while v.len() > 0
        invariant
            out@.len() + v@.len() == original.len(),
            out@.to_multiset().add(v@.to_multiset()) == original.to_multiset(),
            variants_sorted(out@),
        decreases v.len(),
    {
        let ghost before_v = v@;
        let x = v.remove(0);
        proof {
            assert(before_v == v@.insert(0, x));
            vstd::seq_lib::to_multiset_insert(v@, 0, x);
        }
        let mut k: usize = 0;
        while k < out.len() && variant_shape_before(&out[k], &x)
            invariant
                0 <= k <= out.len(),
                forall|i: int| 0 <= i < k ==> variant_before(#[trigger] out@[i], x),
            decreases out.len() - k,
        {
            k = k + 1;
        }
        let ghost before = out@;
        out.insert(k, x);
        proof {
            vstd::seq_lib::to_multiset_insert(before, k as int, x);
            assert(out@.to_multiset().add(v@.to_multiset()) =~= before.to_multiset().add(before_v.to_multiset()));
            if k < before.len() {
                lemma_variant_before_total(before[k as int], x);
            }
            assert forall|i: int, j: int| 0 <= i < j < out@.len() implies variant_before(#[trigger] out@[i], #[trigger] out@[j]) by {
                if j < k {
                    assert(out@[i] == before[i] && out@[j] == before[j]);
                } else if j == k {
                    assert(out@[i] == before[i]);
                } else if i > k {
                    assert(out@[i] == before[i - 1] && out@[j] == before[j - 1]);
                } else if i == k {
                    assert(out@[j] == before[j - 1]);
                    if j - 1 > k {
                        assert(variant_before(before[k as int], before[j - 1]));
                        lemma_variant_before_transitive(x, before[k as int], before[j - 1]);
                    }
                } else {
                    assert(out@[i] == before[i] && out@[j] == before[j - 1]);
                }
            }
        }
    }
    out
}

/// `a` sorts no later than `b`: by path, then access, then bytes.
pub open spec fn leaf_before(a: VirObjectLeaf, b: VirObjectLeaf) -> bool {
    let c = path_order(a.spec_path().spec_segments(), b.spec_path().spec_segments());
    let (x, y) = (a.spec_access(), b.spec_access());
    let (p, q) = (a.spec_bytes(), b.spec_bytes());
    if c != 0 {
        c < 0
    } else if x.ty.0 != y.ty.0 {
        x.ty.0 < y.ty.0
    } else if x.layout.0 != y.layout.0 {
        x.layout.0 < y.layout.0
    } else if p.spec_start_bytes() != q.spec_start_bytes() {
        p.spec_start_bytes() < q.spec_start_bytes()
    } else {
        p.spec_end_bytes() <= q.spec_end_bytes()
    }
}

/// The canonical order of leaves is total.
pub proof fn lemma_leaf_before_total(a: VirObjectLeaf, b: VirObjectLeaf)
    ensures
        leaf_before(a, b) || leaf_before(b, a),
{
    lemma_path_order_antisymmetric(a.spec_path().spec_segments(), b.spec_path().spec_segments(), 0);
}

/// The canonical order of leaves is transitive.
pub proof fn lemma_leaf_before_transitive(a: VirObjectLeaf, b: VirObjectLeaf, c: VirObjectLeaf)
    requires
        leaf_before(a, b),
        leaf_before(b, c),
    ensures
        leaf_before(a, c),
{
    let (pa, pb, pc) = (a.spec_path().spec_segments(), b.spec_path().spec_segments(), c.spec_path().spec_segments());
    lemma_path_order_antisymmetric(pa, pb, 0);
    lemma_path_order_antisymmetric(pb, pc, 0);
    lemma_path_order_antisymmetric(pa, pc, 0);
    if path_order(pa, pb) <= 0 && path_order(pb, pc) <= 0 {
        lemma_path_order_transitive(pa, pb, pc, 0);
    }
    if path_order(pa, pb) == 0 && path_order(pb, pc) > 0 {
        lemma_path_order_transitive(pc, pb, pa, 0);
        lemma_path_order_antisymmetric(pc, pb, 0);
    }
    if path_order(pa, pb) > 0 && path_order(pb, pc) == 0 {
        lemma_path_order_transitive(pc, pb, pa, 0);
    }
}

/// Whether `a` sorts no later than `b`.
fn leaf_sorts_before(a: &VirObjectLeaf, b: &VirObjectLeaf) -> (r: bool)
    ensures
        r == leaf_before(*a, *b),
{
    let c = compare_paths(a.path.0.as_slice(), b.path.0.as_slice());
    if c != 0 {
        return c < 0;
    }
    let (x, y) = (a.access, b.access);
    if x.ty.0 != y.ty.0 {
        return x.ty.0 < y.ty.0;
    }
    if x.layout.0 != y.layout.0 {
        return x.layout.0 < y.layout.0;
    }
    if a.bytes.start_bytes() != b.bytes.start_bytes() {
        return a.bytes.start_bytes() < b.bytes.start_bytes();
    }
    a.bytes.end_bytes() <= b.bytes.end_bytes()
}

/// The leaves are in canonical order.
pub open spec fn leaves_sorted(v: Seq<VirObjectLeaf>) -> bool {
    forall|i: int, j: int| 0 <= i < j < v.len() ==> leaf_before(#[trigger] v[i], #[trigger] v[j])
}

/// Insertion sort of leaves into canonical order.
fn sort_leaves(v: Vec<VirObjectLeaf>) -> (r: Vec<VirObjectLeaf>)
    ensures
        r@.to_multiset() == v@.to_multiset(),
        r@.len() == v@.len(),
        leaves_sorted(r@),
{
    broadcast use vstd::seq_lib::group_to_multiset_ensures;
    let mut v = v;
    let ghost original = v@;
    let mut out: Vec<VirObjectLeaf> = Vec::new();
    while v.len() > 0
        invariant
            out@.len() + v@.len() == original.len(),
            out@.to_multiset().add(v@.to_multiset()) == original.to_multiset(),
            leaves_sorted(out@),
        decreases v.len(),
    {
        let ghost before_v = v@;
        let x = v.remove(0);
        proof {
            assert(before_v == v@.insert(0, x));
            vstd::seq_lib::to_multiset_insert(v@, 0, x);
        }
        let mut k: usize = 0;
        while k < out.len() && leaf_sorts_before(&out[k], &x)
            invariant
                0 <= k <= out.len(),
                forall|i: int| 0 <= i < k ==> leaf_before(#[trigger] out@[i], x),
            decreases out.len() - k,
        {
            k = k + 1;
        }
        let ghost before = out@;
        out.insert(k, x);
        proof {
            vstd::seq_lib::to_multiset_insert(before, k as int, x);
            assert(out@.to_multiset().add(v@.to_multiset()) =~= before.to_multiset().add(before_v.to_multiset()));
            if k < before.len() {
                lemma_leaf_before_total(before[k as int], x);
            }
            assert forall|i: int, j: int| 0 <= i < j < out@.len() implies leaf_before(#[trigger] out@[i], #[trigger] out@[j]) by {
                if j < k {
                    assert(out@[i] == before[i] && out@[j] == before[j]);
                } else if j == k {
                    assert(out@[i] == before[i]);
                } else if i > k {
                    assert(out@[i] == before[i - 1] && out@[j] == before[j - 1]);
                } else if i == k {
                    assert(out@[j] == before[j - 1]);
                    if j - 1 > k {
                        assert(leaf_before(before[k as int], before[j - 1]));
                        lemma_leaf_before_transitive(x, before[k as int], before[j - 1]);
                    }
                } else {
                    assert(out@[i] == before[i] && out@[j] == before[j - 1]);
                }
            }
        }
    }
    out
}

/// What holds of every leaf holds of the leaves after a reordering that
/// keeps the multiset, and one leaf stays that leaf.
proof fn lemma_leaves_reordered(a: Seq<VirObjectLeaf>, b: Seq<VirObjectLeaf>, ranges: Seq<VirObjectByteRange>, lo: int, hi: int)
    requires
        a.to_multiset() == b.to_multiset(),
        a.len() == b.len(),
    ensures
        leaves_within(a, lo, hi) ==> leaves_within(b, lo, hi),
        leaves_valued(a, ranges) ==> leaves_valued(b, ranges),
        a.len() == 1 ==> b == a,
{
    broadcast use vstd::seq_lib::group_to_multiset_ensures;
    assert forall|j: int| 0 <= j < b.len() implies exists|i: int| 0 <= i < a.len() && a[i] == #[trigger] b[j] by {
        assert(b.contains(b[j]));
        assert(a.to_multiset().count(b[j]) > 0);
        assert(a.contains(b[j]));
    }
    if leaves_within(a, lo, hi) {
        assert forall|j: int| 0 <= j < b.len() implies lo <= (#[trigger] b[j]).spec_bytes().spec_start_bytes()
            && b[j].spec_bytes().spec_end_bytes() <= hi by {
            let i = choose|i: int| 0 <= i < a.len() && a[i] == b[j];
        }
    }
    if leaves_valued(a, ranges) {
        assert forall|j: int, x: int|
            #![trigger b[j], covers(ranges, x)]
            0 <= j < b.len() && b[j].spec_bytes().spec_start_bytes() <= x < b[j].spec_bytes().spec_end_bytes()
            implies covers(ranges, x) by {
            let i = choose|i: int| 0 <= i < a.len() && a[i] == b[j];
            assert(a[i].spec_bytes().spec_start_bytes() <= x < a[i].spec_bytes().spec_end_bytes());
            assert(covers(ranges, x));
        }
    }
    if a.len() == 1 {
        let i = choose|i: int| 0 <= i < a.len() && a[i] == b[0];
        assert(b =~= a);
    }
}

impl BuiltObject {
    /// Puts leaves and variant shapes in canonical order and normalizes the
    /// value bytes; arrays are produced in canonical order by the walk.
    fn canonicalize(&mut self)
        requires
            old(self).value_bytes.wf(),
        ensures
            final(self).value_bytes.wf(),
            canonical_ranges(final(self).value_bytes.ranges@),
            forall|x: int| covers(final(self).value_bytes.ranges@, x) <==> covers(old(self).value_bytes.ranges@, x),
            final(self).leaves@.to_multiset() == old(self).leaves@.to_multiset(),
            final(self).leaves@.len() == old(self).leaves@.len(),
            leaves_sorted(final(self).leaves@),
            final(self).arrays@ == old(self).arrays@,
            final(self).variants@.to_multiset() == old(self).variants@.to_multiset(),
            final(self).variants@.len() == old(self).variants@.len(),
    {
        let mut variants: Vec<VirObjectVariantShape> = Vec::new();
        std::mem::swap(&mut variants, &mut self.variants);
        self.variants = sort_variant_shapes(variants);
        let mut leaves: Vec<VirObjectLeaf> = Vec::new();
        std::mem::swap(&mut leaves, &mut self.leaves);
        self.leaves = sort_leaves(leaves);
        self.value_bytes.normalize();
    }
}

fn copy_leaves(v: &Vec<VirObjectLeaf>) -> (r: Vec<VirObjectLeaf>)
    ensures
        r@.len() == v@.len(),
        forall|i: int| 0 <= i < v@.len() ==> (#[trigger] r@[i]).spec_bytes() == v@[i].spec_bytes()
            && r@[i].spec_access() == v@[i].spec_access()
            && r@[i].spec_path().spec_segments() == v@[i].spec_path().spec_segments(),
{
    let mut out: Vec<VirObjectLeaf> = Vec::new();
    let mut i: usize = 0;
    while i < v.len()
        invariant
            0 <= i <= v.len(),
            out@.len() == i,
            forall|j: int| 0 <= j < i ==> (#[trigger] out@[j]).spec_bytes() == v@[j].spec_bytes()
                && out@[j].spec_access() == v@[j].spec_access()
                && out@[j].spec_path().spec_segments() == v@[j].spec_path().spec_segments(),
        decreases v.len() - i,
    {
        out.push(v[i].copy());
        i = i + 1;
    }
    out
}

fn copy_ranges(v: &Vec<VirObjectByteRange>) -> (r: Vec<VirObjectByteRange>)
    ensures
        r@ == v@,
{
    let mut out: Vec<VirObjectByteRange> = Vec::new();
    let mut i: usize = 0;
    while i < v.len()
        invariant
            0 <= i <= v.len(),
            out@ == v@.take(i as int),
        decreases v.len() - i,
    {
        out.push(v[i]);
        assert(v@.take(i + 1) == v@.take(i as int).push(v@[i as int]));
        i = i + 1;
    }
    assert(v@.take(v.len() as int) == v@);
    out
}

impl ObjectShapeBuilder {
    fn build(&mut self, schema: &VirMemorySchema, access: VirMemoryAccess, base: u64, path: &VirObjectPath)
        -> (r: Result<BuiltObject, VirObjectShapeError>)
        requires
            old(self).stack@.len() <= VIR_OBJECT_SHAPE_MAX_DEPTH,
        ensures
            final(self).stack@ == old(self).stack@,
            final(self).root_size == old(self).root_size,
            r matches Err(e) ==> !(e.spec_kind() is InvalidSchema),
            r matches Ok(b) ==> b.within(base as int, base + access_size(*schema, access))
                && base + access_size(*schema, access) <= old(self).root_size,
            r matches Ok(b) ==> leaves_valued(b.leaves@, b.value_bytes.ranges@),
            r matches Ok(b) ==> enum_nodes_present(*schema, access, base, path.0@, b.variants@),
            r matches Ok(b) ==> nodes_sound(*schema, access, base, path.0@, b.variants@),
            is_scalar_kind(schema.spec_kind(access.ty)) ==> (r matches Ok(b) ==> ({
                &&& b.arrays@.len() == 0
                &&& b.variants@.len() == 0
                &&& if is_leaf_kind(schema.spec_kind(access.ty)) {
                    &&& b.leaves@.len() == 1
                    &&& b.leaves@[0].path.0@ == path.0@
                    &&& b.leaves@[0].access == access
                    &&& b.leaves@[0].bytes.spec_start_bytes() == base
                    &&& b.leaves@[0].bytes.spec_end_bytes() == base + access_size(*schema, access)
                    &&& forall|x: int| covers(b.value_bytes.ranges@, x) <==> base <= x < base + access_size(*schema, access)
                } else {
                    &&& b.leaves@.len() == 0
                    &&& b.value_bytes.ranges@.len() == 0
                }
            })),
            old(self).nodes < VIR_OBJECT_SHAPE_MAX_NODES && schema.spec_resolves_access(access)
                && base + access_size(*schema, access) <= old(self).root_size
                && is_scalar_kind(schema.spec_kind(access.ty)) ==> r is Ok,
            is_scalar_kind(schema.spec_kind(access.ty)) && r is Ok ==> final(self).nodes == old(self).nodes + 1,
            old(self).nodes + 512 < VIR_OBJECT_SHAPE_MAX_NODES && old(self).stack@.len() < VIR_OBJECT_SHAPE_MAX_DEPTH
                && !old(self).stack@.contains(access.ty) && schema.spec_resolves_access(access)
                && base + access_size(*schema, access) <= old(self).root_size && flat_struct(*schema, access) ==> r is Ok,
            old(self).nodes < 512 && old(self).stack@.len() < VIR_OBJECT_SHAPE_MAX_DEPTH
                && !old(self).stack@.contains(access.ty) && schema.spec_resolves_access(access)
                && base + access_size(*schema, access) <= old(self).root_size && flat_enum(*schema, access) ==> r is Ok,
        decreases 4 * (VIR_OBJECT_SHAPE_MAX_DEPTH - old(self).stack@.len()),
    {
        self.reserve_nodes(access, 1)?;
        let ty = match schema.ty(access.ty) {
            Some(t) => t,
            None => return Err(shape_error(VirObjectShapeErrorKind::InvalidAccess { access })),
        };
        let layout = match schema.layout(access.layout) {
            Some(l) => l,
            None => return Err(shape_error(VirObjectShapeErrorKind::InvalidAccess { access })),
        };
        if ty.layout != access.layout || layout.ty != access.ty {
            return Err(shape_error(VirObjectShapeErrorKind::InvalidAccess { access }));
        }
        let object_end = checked_add(base, layout.size_bytes, access)?;
        if object_end > self.root_size {
            return Err(shape_error(VirObjectShapeErrorKind::OutOfBounds { access }));
        }
        let follows_children = match &ty.kind {
            VirMemoryTypeKind::Slice { .. } => {
                return Err(shape_error(VirObjectShapeErrorKind::UnsupportedObjectType { ty: access.ty }));
            },
            VirMemoryTypeKind::Array { .. } | VirMemoryTypeKind::Tuple(_) | VirMemoryTypeKind::Struct { .. }
            | VirMemoryTypeKind::Enum { .. } => true,
            _ => false,
        };
        if follows_children {
            if crate::memory::contains_type_id(&self.stack, access.ty) {
                return Err(shape_error(VirObjectShapeErrorKind::RecursiveAggregate { ty: access.ty }));
            }
            if self.stack.len() >= VIR_OBJECT_SHAPE_MAX_DEPTH {
                return Err(shape_error(VirObjectShapeErrorKind::NestingLimitExceeded { access, limit: VIR_OBJECT_SHAPE_MAX_DEPTH }));
            }
            self.stack.push(access.ty);
        }
        let ghost pushed = self.stack@;
        let result = match &ty.kind {
            VirMemoryTypeKind::Unit | VirMemoryTypeKind::Never | VirMemoryTypeKind::Slice { .. } => Ok(BuiltObject::empty()),
            VirMemoryTypeKind::Bool | VirMemoryTypeKind::Integer(_) | VirMemoryTypeKind::Pointer { .. } => {
                let bytes = VirObjectByteRange::new(base, object_end);
                let mut built = BuiltObject::empty();
                built.leaves.push(VirObjectLeaf { path: path.copy(), access, bytes });
                built.value_bytes.insert(bytes);
                proof {
                    assert forall|i: int| 0 <= i < built.value_bytes.ranges@.len() implies base <= (#[trigger] built.value_bytes.ranges@[i]).spec_start_bytes()
                        && built.value_bytes.ranges@[i].spec_end_bytes() <= object_end by {
                        let x = built.value_bytes.ranges@[i].spec_start_bytes() as int;
                        assert(covers(built.value_bytes.ranges@, x));
                        assert(covers(built.value_bytes.ranges@, built.value_bytes.ranges@[i].spec_end_bytes() - 1));
                    }
                }
                Ok(built)
            },
            VirMemoryTypeKind::Array { element, length } => self.build_array(schema, access, layout, *element, *length, base, path),
            VirMemoryTypeKind::Tuple(elements) => self.build_tuple(schema, access, layout, elements, base, path),
            VirMemoryTypeKind::Struct { fields } => {
                let sorted = sorted_field_ids(fields);
                proof {
                    broadcast use vstd::seq_lib::group_to_multiset_ensures;
                    if flat_struct(*schema, access) {
                        assert forall|k: int| 0 <= k < sorted@.len() implies #[trigger] flat_field(*schema, sorted@[k], layout.fields@, object_end - base) by {
                            let x = sorted@[k];
                            assert(sorted@.contains(x));
                            assert(sorted@.to_multiset().count(x) > 0);
                            assert(fields@.contains(x));
                            let m = choose|m: int| 0 <= m < fields@.len() && fields@[m] == x;
                            assert(flat_field(*schema, fields@[m], layout.fields@, layout.size_bytes as int));
                        }
                    }
                }
                self.build_fields(schema, access, &sorted, &layout.fields, base, object_end, path)
            },
            VirMemoryTypeKind::Enum { variants } => {
                let sorted = sorted_variant_ids(variants);
                proof {
                    broadcast use vstd::seq_lib::group_to_multiset_ensures;
                    assert forall|k: int| 0 <= k < sorted@.len() implies enum_member(*schema, access, #[trigger] sorted@[k]) by {
                        let x = sorted@[k];
                        assert(sorted@.contains(x));
                        assert(sorted@.to_multiset().count(x) > 0);
                        assert(variants@.contains(x));
                    }
                    if flat_enum(*schema, access) {
                        let vl = layout.variants->0;
                        assert forall|k: int| 0 <= k < sorted@.len() implies #[trigger] flat_case(*schema, sorted@[k], vl.cases@, layout.size_bytes as int) by {
                            let x = sorted@[k];
                            assert(sorted@.contains(x));
                            assert(sorted@.to_multiset().count(x) > 0);
                            assert(variants@.contains(x));
                            let m = choose|m: int| 0 <= m < variants@.len() && variants@[m] == x;
                            assert(flat_case(*schema, variants@[m], vl.cases@, layout.size_bytes as int));
                        }
                        assert(flat_cases(*schema, sorted@, *layout));
                    }
                }
                let built = self.build_enum(schema, access, layout, &sorted, base, path);
                proof {
                    broadcast use vstd::seq_lib::group_to_multiset_ensures;
                    if built is Ok {
                        let b = built->Ok_0;
                        let ts = layout.variants->0.tag_size_bytes;
                        let ids = variants@;
                        assert forall|k: int| 0 <= k < ids.len() implies #[trigger] node_of(*schema, access, base, path.0@, ts, ids[k], b.variants@) by {
                            let vk = ids[k];
                            assert(ids.contains(vk));
                            assert(sorted@.to_multiset().count(vk) > 0);
                            assert(sorted@.contains(vk));
                            let m = choose|m: int| 0 <= m < sorted@.len() && sorted@[m] == vk;
                            let j = choose|j: int|
                                0 <= j < b.variants@.len() && variant_node(*schema, access, base, path.0@, ts, sorted@[m], #[trigger] b.variants@[j]);
                            assert(enum_node(*schema, access, base, path.0@, ts, vk, b.variants@[j]));
                        }
                        assert(nodes_cover(*schema, access, base, path.0@, ts, variants@, b.variants@));
                        assert(enum_nodes_present(*schema, access, base, path.0@, b.variants@));
                    }
                }
                built
            },
        };
        proof {
            if result is Ok && !(ty.kind is Enum) {
                lemma_below_sound(*schema, access, base, path.0@, result->Ok_0.variants@);
            }
        }
        if follows_children {
            self.stack.pop();
        }
        result
    }

    fn build_fields(
        &mut self,
        schema: &VirMemorySchema,
        access: VirMemoryAccess,
        fields: &Vec<VirFieldId>,
        field_layouts: &Vec<VirFieldLayout>,
        base: u64,
        limit: u64,
        path: &VirObjectPath,
    ) -> (r: Result<BuiltObject, VirObjectShapeError>)
        requires
            1 <= old(self).stack@.len() <= VIR_OBJECT_SHAPE_MAX_DEPTH,
            limit <= old(self).root_size,
        ensures
            final(self).stack@ == old(self).stack@,
            final(self).root_size == old(self).root_size,
            r matches Err(e) ==> !(e.spec_kind() is InvalidSchema),
            r matches Ok(b) ==> b.within(base as int, limit as int),
            r matches Ok(b) ==> leaves_valued(b.leaves@, b.value_bytes.ranges@),
            r is Ok ==> fields_fit(*schema, fields@, field_layouts@, base, limit),
            base <= limit && flat_fields(*schema, fields@, field_layouts@, limit - base) && old(self).nodes + 256
                < VIR_OBJECT_SHAPE_MAX_NODES ==> r is Ok && final(self).nodes == old(self).nodes + fields@.len(),
            r matches Ok(b) ==> nodes_below(b.variants@, path.0@.len() as int),
        decreases 4 * (VIR_OBJECT_SHAPE_MAX_DEPTH - old(self).stack@.len()) + 1,
    {
        let ghost flat = base <= limit && flat_fields(*schema, fields@, field_layouts@, limit - base) && old(self).nodes + 256
            < VIR_OBJECT_SHAPE_MAX_NODES;
        let mut built = BuiltObject::empty();
        let mut i: usize = 0;
        while i < fields.len()
            invariant
                0 <= i <= fields.len(),
                1 <= self.stack@.len() <= VIR_OBJECT_SHAPE_MAX_DEPTH,
                self.stack@ == old(self).stack@,
                self.root_size == old(self).root_size,
                limit <= self.root_size,
                built.within(base as int, limit as int),
                leaves_valued(built.leaves@, built.value_bytes.ranges@),
                fields_fit(*schema, fields@.take(i as int), field_layouts@, base, limit),
                flat ==> self.nodes == old(self).nodes + i,
                nodes_below(built.variants@, path.0@.len() as int),
                flat == (base <= limit && flat_fields(*schema, fields@, field_layouts@, limit - base) && old(self).nodes + 256
                    < VIR_OBJECT_SHAPE_MAX_NODES),
            decreases fields.len() - i,
        {
            let field_id = fields[i];
            proof {
                if flat {
                    assert(flat_field(*schema, fields@[i as int], field_layouts@, limit - base));
                }
            }
            let field = match schema.field(field_id) {
                Some(f) => f,
                None => return Err(shape_error(VirObjectShapeErrorKind::LayoutMismatch { access })),
            };
            let field_layout = match field_layout_for(field_layouts, field_id) {
                Some(fl) => fl,
                None => return Err(shape_error(VirObjectShapeErrorKind::LayoutMismatch { access })),
            };
            let child_access = access_of(schema, field.ty, access)?;
            let child_base = checked_add(base, field_layout.offset_bytes, access)?;
            let child_layout = layout_of(schema, child_access, access)?;
            let child_end = checked_add(child_base, child_layout.size_bytes, access)?;
            if child_end > limit {
                return Err(shape_error(VirObjectShapeErrorKind::LayoutMismatch { access }));
            }
            let child_path = path.child(VirObjectPathSegment::Field(field_id));
            let child = self.build(schema, child_access, child_base, &child_path)?;
            let ghost prev = built;
            proof {
                lemma_within_widen(child, child_base as int, child_end as int, base as int, limit as int);
            }
            built.absorb(child);
            proof {
                lemma_child_nodes_below(*schema, child_access, child_base, child_path.0@, child.variants@, path.0@.len() as int);
                lemma_nodes_below_concat(prev.variants@, child.variants@, path.0@.len() as int);
                lemma_within_concat(prev, child, built, base as int, limit as int);
                assert(field_layouts@.contains(field_layout));
                assert(field_fits(*schema, field_id, field_layouts@, base, limit));
                assert forall|k: int| 0 <= k < i + 1 implies #[trigger] field_fits(
                    *schema,
                    fields@.take(i + 1)[k],
                    field_layouts@,
                    base,
                    limit,
                ) by {
                    if k < i {
                        assert(fields@.take(i + 1)[k] == fields@.take(i as int)[k]);
                    }
                }
            }
            i = i + 1;
        }
        proof {
            assert(fields@.take(i as int) == fields@);
        }
        Ok(built)
    }

    fn build_tuple(
        &mut self,
        schema: &VirMemorySchema,
        access: VirMemoryAccess,
        layout: &VirLayout,
        elements: &Vec<VirTypeId>,
        base: u64,
        path: &VirObjectPath,
    ) -> (r: Result<BuiltObject, VirObjectShapeError>)
        requires
            1 <= old(self).stack@.len() <= VIR_OBJECT_SHAPE_MAX_DEPTH,
        ensures
            final(self).stack@ == old(self).stack@,
            final(self).root_size == old(self).root_size,
            r matches Err(e) ==> !(e.spec_kind() is InvalidSchema),
            r matches Ok(b) ==> b.within(base as int, base + layout.size_bytes),
            r matches Ok(b) ==> leaves_valued(b.leaves@, b.value_bytes.ranges@),
            r is Ok ==> forall|k: int| 0 <= k < elements@.len() ==> element_aligned(*schema, #[trigger] elements@[k], layout.alignment),
            r is Ok ==> (tuple_cursor(*schema, elements@, elements@.len() as int) matches Some(c) && crate::memory::spec_align_up(
                c,
                layout.alignment,
            ) == Some(layout.size_bytes)),
            r matches Ok(b) ==> nodes_below(b.variants@, path.0@.len() as int),
        decreases 4 * (VIR_OBJECT_SHAPE_MAX_DEPTH - old(self).stack@.len()) + 1,
    {
        let mut built = BuiltObject::empty();
        let mut cursor: u64 = 0;
        let mut index: usize = 0;
        while index < elements.len()
            invariant
                0 <= index <= elements.len(),
                1 <= self.stack@.len() <= VIR_OBJECT_SHAPE_MAX_DEPTH,
                self.stack@ == old(self).stack@,
                self.root_size == old(self).root_size,
                built.within(base as int, base + cursor),
                leaves_valued(built.leaves@, built.value_bytes.ranges@),
                tuple_cursor(*schema, elements@, index as int) == Some(cursor),
                forall|k: int| 0 <= k < index ==> element_aligned(*schema, #[trigger] elements@[k], layout.alignment),
                nodes_below(built.variants@, path.0@.len() as int),
            decreases elements.len() - index,
        {
            let element = elements[index];
            let element_access = access_of(schema, element, access)?;
            let element_layout = layout_of(schema, element_access, access)?;
            if layout.alignment < element_layout.alignment {
                return Err(shape_error(VirObjectShapeErrorKind::LayoutMismatch { access }));
            }
            let aligned = align_up_checked(cursor, element_layout.alignment, access)?;
            proof {
                lemma_align_up_ge(cursor, element_layout.alignment);
            }
            let child_base = checked_add(base, aligned, access)?;
            let child_path = path.child(VirObjectPathSegment::TupleElement(index as u64));
            let child = self.build(schema, element_access, child_base, &child_path)?;
            let next = checked_add(aligned, element_layout.size_bytes, access)?;
            let ghost prev = built;
            proof {
                lemma_within_widen(child, child_base as int, child_base + element_layout.size_bytes, base as int, base + next);
                lemma_within_widen(prev, base as int, base + cursor, base as int, base + next);
            }
            built.absorb(child);
            proof {
                lemma_child_nodes_below(*schema, element_access, child_base, child_path.0@, child.variants@, path.0@.len() as int);
                lemma_nodes_below_concat(prev.variants@, child.variants@, path.0@.len() as int);
                lemma_within_concat(prev, child, built, base as int, base + next);
            }
            cursor = next;
            index = index + 1;
        }
        let expected_size = align_up_checked(cursor, layout.alignment, access)?;
        proof {
            lemma_align_up_ge(cursor, layout.alignment);
        }
        if expected_size != layout.size_bytes {
            return Err(shape_error(VirObjectShapeErrorKind::LayoutMismatch { access }));
        }
        proof {
            lemma_within_widen(built, base as int, base + cursor, base as int, base + layout.size_bytes);
        }
        Ok(built)
    }

    fn build_array(
        &mut self,
        schema: &VirMemorySchema,
        access: VirMemoryAccess,
        layout: &VirLayout,
        element: VirTypeId,
        length: u64,
        base: u64,
        path: &VirObjectPath,
    ) -> (r: Result<BuiltObject, VirObjectShapeError>)
        requires
            1 <= old(self).stack@.len() <= VIR_OBJECT_SHAPE_MAX_DEPTH,
        ensures
            final(self).stack@ == old(self).stack@,
            final(self).root_size == old(self).root_size,
            r matches Err(e) ==> !(e.spec_kind() is InvalidSchema),
            r matches Ok(b) ==> b.within(base as int, base + layout.size_bytes),
            r matches Ok(b) ==> leaves_valued(b.leaves@, b.value_bytes.ranges@),
            r matches Ok(b) ==> (b.arrays@.len() >= 1 && array_node(*schema, access, element, length, base, path.0@, layout.size_bytes, b.arrays@[0])),
            r matches Ok(b) ==> nodes_below(b.variants@, path.0@.len() as int),
        decreases 4 * (VIR_OBJECT_SHAPE_MAX_DEPTH - old(self).stack@.len()) + 1,
    {
        let element_access = access_of(schema, element, access)?;
        let element_layout = layout_of(schema, element_access, access)?;
        let stride_bytes = element_layout.size_bytes;
        let extent_len = checked_mul(stride_bytes, length, access)?;
        let extent_end = checked_add(base, extent_len, access)?;
        if extent_len > layout.size_bytes {
            return Err(shape_error(VirObjectShapeErrorKind::LayoutMismatch { access }));
        }
        let remaining: usize = if self.nodes < VIR_OBJECT_SHAPE_MAX_NODES { VIR_OBJECT_SHAPE_MAX_NODES - self.nodes } else { 0 };
        if length > remaining as u64 {
            return Err(shape_error(VirObjectShapeErrorKind::ComplexityLimitExceeded { access, limit: VIR_OBJECT_SHAPE_MAX_NODES }));
        }
        let mut built = BuiltObject::empty();
        built.arrays.push(VirObjectArrayShape {
            path: path.copy(),
            access,
            element_access,
            stride_bytes,
            length,
            extent: VirObjectByteRange::new(base, extent_end),
        });
        let ghost node = built.arrays@[0];
        proof {
            assert(array_node(*schema, access, element, length, base, path.0@, layout.size_bytes, node));
        }
        let mut index: u64 = 0;
        while index < length
            invariant
                0 <= index <= length,
                built.arrays@.len() >= 1 && built.arrays@[0] == node,
                array_node(*schema, access, element, length, base, path.0@, layout.size_bytes, node),
                1 <= self.stack@.len() <= VIR_OBJECT_SHAPE_MAX_DEPTH,
                self.stack@ == old(self).stack@,
                self.root_size == old(self).root_size,
                extent_len == stride_bytes * length,
                extent_len <= layout.size_bytes,
                schema.spec_layout(element_access.layout) == Some(*element_layout),
                stride_bytes == element_layout.size_bytes,
                built.within(base as int, base + extent_len),
                leaves_valued(built.leaves@, built.value_bytes.ranges@),
                nodes_below(built.variants@, path.0@.len() as int),
            decreases length - index,
        {
            let offset = checked_mul(stride_bytes, index, access)?;
            let child_base = checked_add(base, offset, access)?;
            let child_path = path.child(VirObjectPathSegment::ArrayElement(index));
            let child = self.build(schema, element_access, child_base, &child_path)?;
            proof {
                vstd::arithmetic::mul::lemma_mul_inequality(index + 1, length as int, stride_bytes as int);
                vstd::arithmetic::mul::lemma_mul_is_distributive_add(stride_bytes as int, index as int, 1);
                vstd::arithmetic::mul::lemma_mul_is_commutative(stride_bytes as int, index + 1);
                vstd::arithmetic::mul::lemma_mul_is_commutative(stride_bytes as int, length as int);
                assert(offset + stride_bytes <= extent_len);
                lemma_within_widen(child, child_base as int, child_base + stride_bytes, base as int, base + extent_len);
            }
            let ghost prev = built;
            built.absorb(child);
            proof {
                lemma_child_nodes_below(*schema, element_access, child_base, child_path.0@, child.variants@, path.0@.len() as int);
                lemma_nodes_below_concat(prev.variants@, child.variants@, path.0@.len() as int);
                lemma_within_concat(prev, child, built, base as int, base + extent_len);
            }
            index = index + 1;
        }
        proof {
            lemma_within_widen(built, base as int, base + extent_len, base as int, base + layout.size_bytes);
        }
        Ok(built)
    }
}

/// `a` is the array node of `length` elements of type `element` that the
/// object `access` holds at `base` under path `segments`: its stride is the
/// element's size, its extent the elements' bytes, within `size` bytes.
spec fn array_node(
    schema: VirMemorySchema,
    access: VirMemoryAccess,
    element: VirTypeId,
    length: u64,
    base: u64,
    segments: Seq<VirObjectPathSegment>,
    size: u64,
    a: VirObjectArrayShape,
) -> bool {
    match schema.spec_access(element) {
        Some(ea) => match schema.spec_layout(ea.layout) {
            Some(el) => {
                &&& a.path.0@ == segments
                &&& a.access == access
                &&& a.element_access == ea
                &&& a.stride_bytes == el.size_bytes
                &&& a.length == length
                &&& a.extent.spec_start_bytes() == base
                &&& a.extent.spec_end_bytes() == base + el.size_bytes * length
                &&& el.size_bytes * length <= size
            },
            None => false,
        },
        None => false,
    }
}

/// `v` is the variant node of variant `id` of the enum `access` at `base`
/// under path `segments`: its discriminant is the variant's, its tag the
/// first `tag_size` bytes.
spec fn variant_node(
    schema: VirMemorySchema,
    access: VirMemoryAccess,
    base: u64,
    segments: Seq<VirObjectPathSegment>,
    tag_size: u64,
    id: VirVariantId,
    v: VirObjectVariantShape,
) -> bool {
    &&& v.path.0@ == segments
    &&& v.enum_access == access
    &&& v.variant == id
    &&& schema.spec_variant(id) is Some
    &&& v.discriminant == schema.spec_variant(id)->0.discriminant
    &&& v.tag.spec_start_bytes() == base
    &&& v.tag.spec_end_bytes() == base + tag_size
}

/// Each variant of `ids` has its node in `nodes`.
spec fn variants_covered(
    schema: VirMemorySchema,
    access: VirMemoryAccess,
    base: u64,
    segments: Seq<VirObjectPathSegment>,
    tag_size: u64,
    ids: Seq<VirVariantId>,
    nodes: Seq<VirObjectVariantShape>,
) -> bool {
    forall|k: int| #![trigger ids[k]] 0 <= k < ids.len() ==> exists|j: int|
        0 <= j < nodes.len() && variant_node(schema, access, base, segments, tag_size, ids[k], #[trigger] nodes[j])
}

/// Field `f` exists, its type resolves, and a layout entry of `layouts`
/// places it at `base` plus its offset, ending by `limit`.
spec fn field_fits(schema: VirMemorySchema, f: VirFieldId, layouts: Seq<VirFieldLayout>, base: u64, limit: u64) -> bool {
    match schema.spec_field(f) {
        Some(fd) => match schema.spec_access(fd.ty) {
            Some(ca) => match schema.spec_layout(ca.layout) {
                Some(cl) => exists|fl: VirFieldLayout| #[trigger] layouts.contains(fl) && fl.field == f && base + fl.offset_bytes
                    + cl.size_bytes <= limit,
                None => false,
            },
            None => false,
        },
        None => false,
    }
}

/// Every field of `ids` fits, as `field_fits` says.
spec fn fields_fit(schema: VirMemorySchema, ids: Seq<VirFieldId>, layouts: Seq<VirFieldLayout>, base: u64, limit: u64) -> bool {
    forall|k: int| 0 <= k < ids.len() ==> #[trigger] field_fits(schema, ids[k], layouts, base, limit)
}

/// The end of the first `n` elements of a tuple laid out in order, each at
/// its own alignment, or `None` where an element does not resolve or the
/// end overflows.
spec fn tuple_cursor(schema: VirMemorySchema, elements: Seq<VirTypeId>, n: int) -> Option<u64>
    decreases n,
{
    if n <= 0 {
        Some(0)
    } else {
        match tuple_cursor(schema, elements, n - 1) {
            Some(c) => match schema.spec_access(elements[n - 1]) {
                Some(ea) => match schema.spec_layout(ea.layout) {
                    Some(el) => match crate::memory::spec_align_up(c, el.alignment) {
                        Some(a) => if a + el.size_bytes <= u64::MAX {
                            Some((a + el.size_bytes) as u64)
                        } else {
                            None
                        },
                        None => None,
                    },
                    None => None,
                },
                None => None,
            },
            None => None,
        }
    }
}

/// The element type `ty` resolves, with an alignment no greater than
/// `alignment`.
spec fn element_aligned(schema: VirMemorySchema, ty: VirTypeId, alignment: u64) -> bool {
    match schema.spec_access(ty) {
        Some(ea) => match schema.spec_layout(ea.layout) {
            Some(el) => el.alignment <= alignment,
            None => false,
        },
        None => false,
    }
}

/// Every declared variant of the enum object `access` has a node among
/// `nodes` at path `segments` from `base`: its enum access, variant id,
/// schema discriminant and the tag at the start of the object.
pub open spec fn enum_nodes_present(
    schema: VirMemorySchema,
    access: VirMemoryAccess,
    base: u64,
    segments: Seq<VirObjectPathSegment>,
    nodes: Seq<VirObjectVariantShape>,
) -> bool {
    match schema.spec_kind(access.ty) {
        Some(VirMemoryTypeKind::Enum { variants }) => match schema.spec_layout(access.layout) {
            Some(l) => l.variants is Some && nodes_cover(schema, access, base, segments, l.variants->0.tag_size_bytes, variants@, nodes),
            None => true,
        },
        _ => true,
    }
}

/// Each variant of `ids` has its node among `nodes`.
pub open spec fn nodes_cover(
    schema: VirMemorySchema,
    access: VirMemoryAccess,
    base: u64,
    segments: Seq<VirObjectPathSegment>,
    tag_size: u64,
    ids: Seq<VirVariantId>,
    nodes: Seq<VirObjectVariantShape>,
) -> bool {
    forall|k: int| 0 <= k < ids.len() ==> #[trigger] node_of(schema, access, base, segments, tag_size, ids[k], nodes)
}

/// Some node of `nodes` is the node of variant `id`.
pub open spec fn node_of(
    schema: VirMemorySchema,
    access: VirMemoryAccess,
    base: u64,
    segments: Seq<VirObjectPathSegment>,
    tag_size: u64,
    id: VirVariantId,
    nodes: Seq<VirObjectVariantShape>,
) -> bool {
    exists|j: int| 0 <= j < nodes.len() && #[trigger] enum_node(schema, access, base, segments, tag_size, id, nodes[j])
}

/// `v` is the node of variant `id` of the enum `access` at `base` under
/// path `segments`, with its schema discriminant and a tag of `tag_size`
/// bytes at `base`.
pub open spec fn enum_node(
    schema: VirMemorySchema,
    access: VirMemoryAccess,
    base: u64,
    segments: Seq<VirObjectPathSegment>,
    tag_size: u64,
    id: VirVariantId,
    v: VirObjectVariantShape,
) -> bool {
    &&& v.spec_path().spec_segments() == segments
    &&& v.spec_enum_access() == access
    &&& v.spec_variant() == id
    &&& schema.spec_variant(id) is Some
    &&& v.spec_discriminant() == schema.spec_variant(id)->0.discriminant
    &&& v.spec_tag().spec_start_bytes() == base
    &&& v.spec_tag().spec_end_bytes() == base + tag_size
}

/// Nodes of variants survive a reordering that keeps the multiset.
proof fn lemma_enum_nodes_reordered(
    schema: VirMemorySchema,
    access: VirMemoryAccess,
    base: u64,
    segments: Seq<VirObjectPathSegment>,
    a: Seq<VirObjectVariantShape>,
    b: Seq<VirObjectVariantShape>,
)
    requires
        enum_nodes_present(schema, access, base, segments, a),
        a.to_multiset() == b.to_multiset(),
    ensures
        enum_nodes_present(schema, access, base, segments, b),
{
    broadcast use vstd::seq_lib::group_to_multiset_ensures;
    match schema.spec_kind(access.ty) {
        Some(VirMemoryTypeKind::Enum { variants }) => match schema.spec_layout(access.layout) {
            Some(l) => {
                let ts = l.variants->0.tag_size_bytes;
                let ids = variants@;
                assert forall|k: int| 0 <= k < ids.len() implies #[trigger] node_of(schema, access, base, segments, ts, ids[k], b) by {
                    let vk = ids[k];
                    assert(node_of(schema, access, base, segments, ts, vk, a));
                    let j = choose|j: int| 0 <= j < a.len() && #[trigger] enum_node(schema, access, base, segments, ts, vk, a[j]);
                    assert(a.contains(a[j]));
                    assert(b.to_multiset().count(a[j]) > 0);
                    assert(b.contains(a[j]));
                    let i = choose|i: int| 0 <= i < b.len() && b[i] == a[j];
                    assert(enum_node(schema, access, base, segments, ts, vk, b[i]));
                }
                assert(nodes_cover(schema, access, base, segments, ts, variants@, b));
            },
            None => {},
        },
        _ => {},
    }
}

/// Every node of `nodes` lies strictly deeper than `depth` segments.
pub open spec fn nodes_below(nodes: Seq<VirObjectVariantShape>, depth: int) -> bool {
    forall|j: int| 0 <= j < nodes.len() ==> #[trigger] nodes[j].spec_path().spec_segments().len() > depth
}

/// `v` is one of the declared variants of the enum type of `access`.
pub open spec fn enum_member(schema: VirMemorySchema, access: VirMemoryAccess, v: VirVariantId) -> bool {
    match schema.spec_kind(access.ty) {
        Some(VirMemoryTypeKind::Enum { variants }) => variants@.contains(v),
        _ => false,
    }
}

/// The node `n`, derived for the object `access` at `base` under path
/// `segments`, lies at or below that path, and at the path itself it is the
/// node of one of the declared variants of the enum `access`.
pub open spec fn node_sound(
    schema: VirMemorySchema,
    access: VirMemoryAccess,
    base: u64,
    segments: Seq<VirObjectPathSegment>,
    n: VirObjectVariantShape,
) -> bool {
    &&& segments.len() <= n.spec_path().spec_segments().len()
    &&& n.spec_path().spec_segments() == segments ==> match schema.spec_layout(access.layout) {
        Some(l) => match l.variants {
            Some(vl) => enum_node(schema, access, base, segments, vl.tag_size_bytes, n.spec_variant(), n) && enum_member(
                schema,
                access,
                n.spec_variant(),
            ),
            None => false,
        },
        None => false,
    }
}

/// Every node of `nodes` is sound for the object `access` at `base` under
/// path `segments`.
pub open spec fn nodes_sound(
    schema: VirMemorySchema,
    access: VirMemoryAccess,
    base: u64,
    segments: Seq<VirObjectPathSegment>,
    nodes: Seq<VirObjectVariantShape>,
) -> bool {
    forall|j: int| 0 <= j < nodes.len() ==> #[trigger] node_sound(schema, access, base, segments, nodes[j])
}

/// The nodes of a child one segment below `depth` lie below `depth`.
proof fn lemma_child_nodes_below(
    schema: VirMemorySchema,
    access: VirMemoryAccess,
    base: u64,
    segments: Seq<VirObjectPathSegment>,
    nodes: Seq<VirObjectVariantShape>,
    depth: int,
)
    requires
        nodes_sound(schema, access, base, segments, nodes),
        segments.len() == depth + 1,
    ensures
        nodes_below(nodes, depth),
{
    assert forall|j: int| 0 <= j < nodes.len() implies #[trigger] nodes[j].spec_path().spec_segments().len() > depth by {
        assert(node_sound(schema, access, base, segments, nodes[j]));
    }
}

/// Nodes below `depth` stay below after appending more of them.
proof fn lemma_nodes_below_concat(a: Seq<VirObjectVariantShape>, b: Seq<VirObjectVariantShape>, depth: int)
    requires
        nodes_below(a, depth),
        nodes_below(b, depth),
    ensures
        nodes_below(a + b, depth),
{
    assert forall|j: int| 0 <= j < (a + b).len() implies #[trigger] (a + b)[j].spec_path().spec_segments().len() > depth by {
        if j < a.len() {
            assert((a + b)[j] == a[j]);
        } else {
            assert((a + b)[j] == b[j - a.len()]);
        }
    }
}

/// Nodes below `depth` are sound for any object at that depth.
proof fn lemma_below_sound(
    schema: VirMemorySchema,
    access: VirMemoryAccess,
    base: u64,
    segments: Seq<VirObjectPathSegment>,
    nodes: Seq<VirObjectVariantShape>,
)
    requires
        nodes_below(nodes, segments.len() as int),
    ensures
        nodes_sound(schema, access, base, segments, nodes),
{
    assert forall|j: int| 0 <= j < nodes.len() implies #[trigger] node_sound(schema, access, base, segments, nodes[j]) by {
        assert(nodes[j].spec_path().spec_segments().len() > segments.len());
    }
}

/// Nodes below a depth lie below every smaller depth.
proof fn lemma_nodes_below_weaken(nodes: Seq<VirObjectVariantShape>, deeper: int, depth: int)
    requires
        nodes_below(nodes, deeper),
        depth <= deeper,
    ensures
        nodes_below(nodes, depth),
{
    assert forall|j: int| 0 <= j < nodes.len() implies #[trigger] nodes[j].spec_path().spec_segments().len() > depth by {
        assert(nodes[j].spec_path().spec_segments().len() > deeper);
    }
}

/// Sound nodes stay sound after appending more of them.
proof fn lemma_nodes_sound_concat(
    schema: VirMemorySchema,
    access: VirMemoryAccess,
    base: u64,
    segments: Seq<VirObjectPathSegment>,
    a: Seq<VirObjectVariantShape>,
    b: Seq<VirObjectVariantShape>,
)
    requires
        nodes_sound(schema, access, base, segments, a),
        nodes_sound(schema, access, base, segments, b),
    ensures
        nodes_sound(schema, access, base, segments, a + b),
{
    assert forall|j: int| 0 <= j < (a + b).len() implies #[trigger] node_sound(schema, access, base, segments, (a + b)[j]) by {
        if j < a.len() {
            assert((a + b)[j] == a[j]);
        } else {
            assert((a + b)[j] == b[j - a.len()]);
        }
    }
}

/// Depth and soundness of nodes survive a reordering that keeps the multiset.
proof fn lemma_nodes_reordered(
    schema: VirMemorySchema,
    access: VirMemoryAccess,
    base: u64,
    segments: Seq<VirObjectPathSegment>,
    a: Seq<VirObjectVariantShape>,
    b: Seq<VirObjectVariantShape>,
    depth: int,
)
    requires
        a.to_multiset() == b.to_multiset(),
    ensures
        nodes_below(a, depth) ==> nodes_below(b, depth),
        nodes_sound(schema, access, base, segments, a) ==> nodes_sound(schema, access, base, segments, b),
{
    broadcast use vstd::seq_lib::group_to_multiset_ensures;
    assert forall|j: int| 0 <= j < b.len() implies exists|i: int| 0 <= i < a.len() && a[i] == #[trigger] b[j] by {
        assert(b.contains(b[j]));
        assert(a.to_multiset().count(b[j]) > 0);
        assert(a.contains(b[j]));
    }
    if nodes_below(a, depth) {
        assert forall|j: int| 0 <= j < b.len() implies #[trigger] b[j].spec_path().spec_segments().len() > depth by {
            let i = choose|i: int| 0 <= i < a.len() && a[i] == b[j];
            assert(a[i].spec_path().spec_segments().len() > depth);
        }
    }
    if nodes_sound(schema, access, base, segments, a) {
        assert forall|j: int| 0 <= j < b.len() implies #[trigger] node_sound(schema, access, base, segments, b[j]) by {
            let i = choose|i: int| 0 <= i < a.len() && a[i] == b[j];
            assert(node_sound(schema, access, base, segments, a[i]));
        }
    }
}

impl ObjectShapeBuilder {
    fn build_enum(
        &mut self,
        schema: &VirMemorySchema,
        access: VirMemoryAccess,
        layout: &VirLayout,
        variants: &Vec<VirVariantId>,
        base: u64,
        path: &VirObjectPath,
    ) -> (r: Result<BuiltObject, VirObjectShapeError>)
        requires
            1 <= old(self).stack@.len() <= VIR_OBJECT_SHAPE_MAX_DEPTH,
            base + layout.size_bytes <= old(self).root_size,
            schema.spec_layout(access.layout) == Some(*layout),
            forall|k: int| 0 <= k < variants@.len() ==> enum_member(*schema, access, #[trigger] variants@[k]),
        ensures
            final(self).stack@ == old(self).stack@,
            final(self).root_size == old(self).root_size,
            r matches Err(e) ==> !(e.spec_kind() is InvalidSchema),
            r matches Ok(b) ==> b.within(base as int, base + layout.size_bytes),
            r matches Ok(b) ==> leaves_valued(b.leaves@, b.value_bytes.ranges@),
            r is Ok ==> layout.variants is Some,
            r matches Ok(b) ==> variants_covered(*schema, access, base, path.0@, layout.variants->0.tag_size_bytes, variants@, b.variants@),
            flat_cases(*schema, variants@, *layout) && old(self).nodes < 1024 ==> r is Ok,
            r matches Ok(b) ==> nodes_sound(*schema, access, base, path.0@, b.variants@),
        decreases 4 * (VIR_OBJECT_SHAPE_MAX_DEPTH - old(self).stack@.len()) + 2,
    {
        let ghost flat = flat_cases(*schema, variants@, *layout) && old(self).nodes < 1024;
        let variant_layout = match &layout.variants {
            Some(v) => v,
            None => return Err(shape_error(VirObjectShapeErrorKind::LayoutMismatch { access })),
        };
        self.reserve_nodes(access, variants.len())?;
        let tag_end = checked_add(base, variant_layout.tag_size_bytes, access)?;
        let whole_end = checked_add(base, layout.size_bytes, access)?;
        if tag_end > whole_end {
            return Err(shape_error(VirObjectShapeErrorKind::LayoutMismatch { access }));
        }
        let tag = VirObjectByteRange::new(base, tag_end);
        let whole = VirObjectByteRange::new(base, whole_end);
        let mut built = BuiltObject::empty();
        let mut i: usize = 0;
        while i < variants.len()
            invariant
                0 <= i <= variants.len(),
                1 <= self.stack@.len() <= VIR_OBJECT_SHAPE_MAX_DEPTH,
                self.stack@ == old(self).stack@,
                self.root_size == old(self).root_size,
                whole_end == base + layout.size_bytes,
                whole_end <= self.root_size,
                tag.spec_start_bytes() == base && tag.spec_end_bytes() <= whole_end,
                whole.spec_start_bytes() == base && whole.spec_end_bytes() == whole_end,
                built.within(base as int, whole_end as int),
                leaves_valued(built.leaves@, built.value_bytes.ranges@),
                layout.variants == Some(*variant_layout),
                tag.spec_end_bytes() == base + variant_layout.tag_size_bytes,
                variants_covered(*schema, access, base, path.0@, variant_layout.tag_size_bytes, variants@.take(i as int), built.variants@),
                flat == (flat_cases(*schema, variants@, *layout) && old(self).nodes < 1024),
                flat ==> self.nodes <= old(self).nodes + 128 + 256 * i,
                flat ==> variants@.len() < 128,
                schema.spec_layout(access.layout) == Some(*layout),
                forall|k: int| 0 <= k < variants@.len() ==> enum_member(*schema, access, #[trigger] variants@[k]),
                nodes_sound(*schema, access, base, path.0@, built.variants@),
            decreases variants.len() - i,
        {
            let variant_id = variants[i];
            proof {
                if flat {
                    assert(flat_case(*schema, variants@[i as int], variant_layout.cases@, layout.size_bytes as int));
                }
            }
            let variant = match schema.variant(variant_id) {
                Some(v) => v,
                None => return Err(shape_error(VirObjectShapeErrorKind::LayoutMismatch { access })),
            };
            let case_index = match case_layout_index(&variant_layout.cases, variant_id) {
                Some(c) => c,
                None => return Err(shape_error(VirObjectShapeErrorKind::LayoutMismatch { access })),
            };
            let case_layout = &variant_layout.cases[case_index];
            let case_path = path.child(VirObjectPathSegment::Variant(variant_id));
            let fields = sorted_field_ids(&variant.fields);
            let ghost room = layout.size_bytes - case_layout.payload_offset_bytes;
            proof {
                broadcast use vstd::seq_lib::group_to_multiset_ensures;
                if flat {
                    assert(case_index_from(variant_layout.cases@, variant_id, 0) == Some(case_index as int));
                    assert forall|k: int| 0 <= k < fields@.len() implies #[trigger] flat_field(*schema, fields@[k], case_layout.fields@, room) by {
                        let x = fields@[k];
                        assert(fields@.contains(x));
                        assert(fields@.to_multiset().count(x) > 0);
                        assert(variant.fields@.contains(x));
                        let m = choose|m: int| 0 <= m < variant.fields@.len() && variant.fields@[m] == x;
                        assert(flat_field(*schema, variant.fields@[m], case_layout.fields@, room));
                    }
                }
            }
            let payload_base = checked_add(base, case_layout.payload_offset_bytes, access)?;
            let mut payload_end = payload_base;
            let mut k: usize = 0;
            while k < fields.len()
                invariant
                    0 <= k <= fields.len(),
                    payload_base <= payload_end,
                    self.stack@ == old(self).stack@,
                    self.root_size == old(self).root_size,
                    flat == (flat_cases(*schema, variants@, *layout) && old(self).nodes < 1024),
                    flat ==> flat_fields(*schema, fields@, case_layout.fields@, room),
                    flat ==> payload_base == base + case_layout.payload_offset_bytes,
                    flat ==> case_layout.payload_offset_bytes <= layout.size_bytes,
                    room == layout.size_bytes - case_layout.payload_offset_bytes,
                    base + layout.size_bytes <= self.root_size,
                decreases fields.len() - k,
            {
                let field_id = fields[k];
                proof {
                    if flat {
                        assert(flat_field(*schema, fields@[k as int], case_layout.fields@, room));
                    }
                }
                let field = match schema.field(field_id) {
                    Some(f) => f,
                    None => return Err(shape_error(VirObjectShapeErrorKind::LayoutMismatch { access })),
                };
                let field_layout = match field_layout_for(&case_layout.fields, field_id) {
                    Some(fl) => fl,
                    None => return Err(shape_error(VirObjectShapeErrorKind::LayoutMismatch { access })),
                };
                let child_access = access_of(schema, field.ty, access)?;
                let child_layout = layout_of(schema, child_access, access)?;
                let child_offset = checked_add(case_layout.payload_offset_bytes, field_layout.offset_bytes, access)?;
                let child_base = checked_add(base, child_offset, access)?;
                let child_end = checked_add(child_base, child_layout.size_bytes, access)?;
                if child_end > payload_end {
                    payload_end = child_end;
                }
                k = k + 1;
            }
            let mut case_built = self.build_fields(schema, access, &fields, &case_layout.fields, payload_base, whole_end, &case_path)?;
            proof {
                lemma_within_widen(case_built, payload_base as int, whole_end as int, base as int, whole_end as int);
            }
            let ghost before_tag = case_built.value_bytes.ranges@;
            case_built.value_bytes.insert(tag);
            proof {
                assert forall|j: int| 0 <= j < case_built.value_bytes.ranges@.len() implies base <= (#[trigger] case_built.value_bytes.ranges@[j]).spec_start_bytes()
                    && case_built.value_bytes.ranges@[j].spec_end_bytes() <= whole_end by {
                    if j < before_tag.len() {
                        assert(case_built.value_bytes.ranges@[j] == before_tag[j]);
                    }
                }
            }
            let ghost before_norm = case_built.value_bytes.ranges@;
            let ghost case_nodes = case_built.variants@;
            let ghost case_leaves = case_built.leaves@;
            case_built.canonicalize();
            proof {
                lemma_leaves_reordered(case_leaves, case_built.leaves@, before_norm, base as int, whole_end as int);
                lemma_valued_grow(case_built.leaves@, before_norm, case_built.value_bytes.ranges@);
            }
            proof {
                lemma_nodes_reordered(*schema, access, base, path.0@, case_nodes, case_built.variants@, path.0@.len() + 1int);
                lemma_nodes_below_weaken(case_built.variants@, path.0@.len() + 1int, path.0@.len() as int);
                lemma_below_sound(*schema, access, base, path.0@, case_built.variants@);
            }
            proof {
                lemma_within_from_cover(case_built.value_bytes.ranges@, before_norm, base as int, whole_end as int);
            }
            let case_padding = case_built.value_bytes.complement(whole);
            let case_shape = VirObjectVariantShape {
                path: path.copy(),
                enum_access: access,
                variant: variant_id,
                discriminant: variant.discriminant,
                tag,
                payload: VirObjectByteRange::new(payload_base, payload_end),
                leaves: copy_leaves(&case_built.leaves),
                value_bytes: copy_ranges(&case_built.value_bytes.ranges),
                padding: case_padding,
            };
            let ghost pushed_from = built;
            built.variants.push(case_shape);
            let ghost prev = built;
            proof {
                let n = pushed_from.variants@.len() as int;
                assert(built.variants@[n] == case_shape);
                assert(enum_member(*schema, access, variants@[i as int]));
                assert(node_sound(*schema, access, base, path.0@, case_shape));
                assert(built.variants@ == pushed_from.variants@ + seq![case_shape]);
                lemma_nodes_sound_concat(*schema, access, base, path.0@, pushed_from.variants@, seq![case_shape]);
            }
            built.absorb(case_built);
            proof {
                lemma_nodes_sound_concat(*schema, access, base, path.0@, prev.variants@, case_built.variants@);
                lemma_within_concat(prev, case_built, built, base as int, whole_end as int);
                let n = pushed_from.variants@.len() as int;
                assert(built.variants@[n] == case_shape);
                assert(variant_node(*schema, access, base, path.0@, variant_layout.tag_size_bytes, variants@[i as int], built.variants@[n]));
                let segs = path.0@;
                let ts = variant_layout.tag_size_bytes;
                assert forall|k: int| #![trigger variants@.take(i + 1)[k]] 0 <= k < i + 1 implies exists|j: int|
                    0 <= j < built.variants@.len() && variant_node(*schema, access, base, segs, ts, variants@.take(i + 1)[k], #[trigger] built.variants@[j]) by {
                    if k < i {
                        assert(variants@.take(i + 1)[k] == variants@.take(i as int)[k]);
                        let j = choose|j: int|
                            0 <= j < pushed_from.variants@.len() && variant_node(*schema, access, base, segs, ts, variants@.take(i as int)[k], #[trigger] pushed_from.variants@[j]);
                        assert(built.variants@[j] == pushed_from.variants@[j]);
                    } else {
                        assert(variants@.take(i + 1)[k] == variants@[i as int]);
                        assert(built.variants@[n] == case_shape);
                    }
                }
            }
            i = i + 1;
        }
        proof {
            assert(variants@.take(i as int) == variants@);
        }
        Ok(built)
    }
}

/// Field `f` of a flat aggregate whose fields lie within `room` bytes: the
/// field is known and has an entry in `layouts`, and its object is a
/// resolving scalar that ends within `room`.
pub open spec fn flat_field(schema: VirMemorySchema, f: VirFieldId, layouts: Seq<VirFieldLayout>, room: int) -> bool {
    match schema.spec_field(f) {
        Some(field) => match schema.spec_access(field.ty) {
            Some(a) => match field_layout_from(layouts, f, 0) {
                Some(fl) => schema.spec_resolves_access(a) && is_scalar_kind(schema.spec_kind(a.ty))
                    && fl.offset_bytes + access_size(schema, a) <= room,
                None => false,
            },
            None => false,
        },
        None => false,
    }
}

/// Fewer than 256 fields, each of them flat.
pub open spec fn flat_fields(schema: VirMemorySchema, fields: Seq<VirFieldId>, layouts: Seq<VirFieldLayout>, room: int) -> bool {
    &&& fields.len() < 256
    &&& forall|i: int| 0 <= i < fields.len() ==> #[trigger] flat_field(schema, fields[i], layouts, room)
}

/// A struct whose fields are flat within its layout.
pub open spec fn flat_struct(schema: VirMemorySchema, access: VirMemoryAccess) -> bool {
    match (schema.spec_kind(access.ty), schema.spec_layout(access.layout)) {
        (Some(VirMemoryTypeKind::Struct { fields }), Some(l)) => flat_fields(schema, fields@, l.fields@, l.size_bytes as int),
        _ => false,
    }
}

/// Variant `v` of a flat enum of `size` bytes: the variant is known, has a
/// case in `cases` whose payload starts within the enum, and its fields are
/// flat within the rest of the enum.
pub open spec fn flat_case(schema: VirMemorySchema, v: VirVariantId, cases: Seq<VirVariantCaseLayout>, size: int) -> bool {
    match schema.spec_variant(v) {
        Some(variant) => match case_index_from(cases, v, 0) {
            Some(ci) => cases[ci].payload_offset_bytes <= size && flat_fields(
                schema,
                variant.fields@,
                cases[ci].fields@,
                size - cases[ci].payload_offset_bytes,
            ),
            None => false,
        },
        None => false,
    }
}

/// Fewer than 128 variants, each a flat case, and a tag within the enum.
pub open spec fn flat_cases(schema: VirMemorySchema, variants: Seq<VirVariantId>, layout: VirLayout) -> bool {
    match layout.variants {
        Some(vl) => {
            &&& variants.len() < 128
            &&& vl.tag_size_bytes <= layout.size_bytes
            &&& forall|i: int| 0 <= i < variants.len() ==> #[trigger] flat_case(schema, variants[i], vl.cases@, layout.size_bytes as int)
        },
        None => false,
    }
}

/// An enum whose variants are flat cases of its layout.
pub open spec fn flat_enum(schema: VirMemorySchema, access: VirMemoryAccess) -> bool {
    match (schema.spec_kind(access.ty), schema.spec_layout(access.layout)) {
        (Some(VirMemoryTypeKind::Enum { variants }), Some(l)) => flat_cases(schema, variants@, l),
        _ => false,
    }
}

/// Shape derivation for `access` is promised to succeed: the schema is
/// valid, the access resolves and its type is scalar, a flat struct or a
/// flat enum.
pub open spec fn shape_promised(schema: VirMemorySchema, access: VirMemoryAccess) -> bool {
    &&& schema.spec_valid()
    &&& schema.spec_resolves_access(access)
    &&& is_scalar_kind(schema.spec_kind(access.ty)) || flat_struct(schema, access) || flat_enum(schema, access)
}

/// A type whose object is one scalar leaf or carries no bytes.
pub open spec fn is_scalar_kind(kind: Option<VirMemoryTypeKind>) -> bool {
    match kind {
        Some(VirMemoryTypeKind::Unit) | Some(VirMemoryTypeKind::Never) | Some(VirMemoryTypeKind::Bool)
        | Some(VirMemoryTypeKind::Integer(_)) | Some(VirMemoryTypeKind::Pointer { .. }) => true,
        _ => false,
    }
}

/// `rleaf` is the resource view of the pointer leaf `leaf`.
pub open spec fn resource_view_of(schema: VirMemorySchema, leaf: VirObjectLeaf, rleaf: VirObjectResourceLeaf) -> bool {
    &&& schema.spec_kind(leaf.spec_access().ty) matches Some(VirMemoryTypeKind::Pointer { pointee, kind, mutability })
    &&& schema.spec_access(pointee) == Some(rleaf.spec_pointee_access())
    &&& rleaf.spec_kind() == kind
    &&& rleaf.spec_mutability() == mutability
    &&& rleaf.spec_access() == leaf.spec_access()
    &&& rleaf.spec_bytes() == leaf.spec_bytes()
    &&& rleaf.spec_path().spec_segments() == leaf.spec_path().spec_segments()
}

/// The leaf is a pointer whose pointee type the schema resolves.
pub open spec fn is_resource_leaf(schema: VirMemorySchema, leaf: VirObjectLeaf) -> bool {
    schema.spec_kind(leaf.spec_access().ty) matches Some(VirMemoryTypeKind::Pointer { pointee, .. })
        && schema.spec_access(pointee) is Some
}

/// `resources` is exactly the resource view of the resource leaves among
/// `leaves`, in the same order.
pub open spec fn resource_projection(schema: VirMemorySchema, leaves: Seq<VirObjectLeaf>, resources: Seq<VirObjectResourceLeaf>) -> bool
    decreases leaves.len(),
{
    if leaves.len() == 0 {
        resources.len() == 0
    } else if is_resource_leaf(schema, leaves.last()) {
        &&& resources.len() > 0
        &&& resource_view_of(schema, leaves.last(), resources.last())
        &&& resource_projection(schema, leaves.drop_last(), resources.drop_last())
    } else {
        resource_projection(schema, leaves.drop_last(), resources)
    }
}

/// What every derived shape of `access` in `schema` satisfies.
pub open spec fn shape_matches(schema: VirMemorySchema, access: VirMemoryAccess, shape: VirObjectShape) -> bool {
    let size = shape.spec_size_bytes() as int;
    &&& shape.spec_access() == access
    &&& schema.spec_layout(access.layout) matches Some(l) && l.size_bytes == shape.spec_size_bytes()
        && l.alignment == shape.spec_alignment()
    &&& canonical_ranges(shape.spec_value_bytes())
    &&& ranges_within(shape.spec_value_bytes(), 0, size)
    &&& canonical_ranges(shape.spec_padding())
    &&& ranges_within(shape.spec_padding(), 0, size)
    &&& forall|x: int| 0 <= x < size ==> (covers(shape.spec_padding(), x) <==> !covers(shape.spec_value_bytes(), x))
    &&& leaves_within(shape.spec_leaves(), 0, size)
    &&& resource_projection(schema, shape.spec_leaves(), shape.spec_resource_leaves())
    &&& leaves_valued(shape.spec_leaves(), shape.spec_value_bytes())
    &&& enum_nodes_present(schema, access, 0, Seq::empty(), shape.spec_variants())
    &&& nodes_sound(schema, access, 0, Seq::empty(), shape.spec_variants())
    &&& is_scalar_kind(schema.spec_kind(access.ty)) ==> scalar_shape(schema, access, shape)
    &&& leaves_sorted(shape.spec_leaves())
}

fn resource_leaves_of(schema: &VirMemorySchema, leaves: &Vec<VirObjectLeaf>) -> (r: Vec<VirObjectResourceLeaf>)
    ensures
        resource_projection(*schema, leaves@, r@),
{
    let mut out: Vec<VirObjectResourceLeaf> = Vec::new();
    let mut i: usize = 0;
    while i < leaves.len()
        invariant
            0 <= i <= leaves.len(),
            resource_projection(*schema, leaves@.take(i as int), out@),
        decreases leaves.len() - i,
    {
        let leaf = &leaves[i];
        let ghost prev = out@;
        proof {
            assert(leaves@.take(i + 1).drop_last() == leaves@.take(i as int));
            assert(leaves@.take(i + 1).last() == leaves@[i as int]);
        }
        match schema.kind(leaf.access.ty) {
            Some(VirMemoryTypeKind::Pointer { pointee, kind, mutability }) => {
                match schema.access(*pointee) {
                    Some(pointee_access) => {
                        out.push(VirObjectResourceLeaf {
                            path: leaf.path.copy(),
                            access: leaf.access,
                            pointee_access,
                            kind: *kind,
                            mutability: *mutability,
                            bytes: leaf.bytes,
                        });
                        proof {
                            assert(out@.drop_last() == prev);
                        }
                    },
                    None => {},
                }
            },
            _ => {},
        }
        i = i + 1;
    }
    assert(leaves@.take(leaves.len() as int) == leaves@);
    out
}

impl VirMemorySchema {
    /// Derives the one canonical object shape for `access` without mutating the
    /// schema or storing a parallel layout table.
    #[verifier::rlimit(100)]
    pub fn object_shape(&self, access: VirMemoryAccess) -> (r: Result<VirObjectShape, VirObjectShapeError>)
        ensures
            (r matches Err(e) && e.spec_kind() is InvalidSchema) <==> !self.spec_valid(),
            r matches Err(e) ==> (e.spec_kind() matches VirObjectShapeErrorKind::InvalidSchema(k) ==> self.schema_fault(k)),
            self.first_nondense_table() matches Some(t) ==> (r matches Err(e) && e.spec_kind() == VirObjectShapeErrorKind::InvalidSchema(
                VirMemorySchemaErrorKind::NonDenseTable { table: t },
            )),
            self.dense() && !crate::memory::spec_target_valid(self.target) ==> (r matches Err(e) && e.spec_kind()
                == VirObjectShapeErrorKind::InvalidSchema(VirMemorySchemaErrorKind::InvalidTarget)),
            self.spec_valid() && !self.spec_resolves_access(access) ==> (r matches Err(e)
                && e.spec_kind() == (VirObjectShapeErrorKind::InvalidAccess { access })),
            self.spec_valid() && self.spec_resolves_access(access) && is_scalar_kind(self.spec_kind(access.ty)) ==> r is Ok,
            self.spec_valid() && self.spec_resolves_access(access) && flat_struct(*self, access) ==> r is Ok,
            self.spec_valid() && self.spec_resolves_access(access) && flat_enum(*self, access) ==> r is Ok,
            r matches Ok(shape) ==> self.spec_valid() && self.spec_resolves_access(access) && shape_matches(*self, access, shape),
            r matches Ok(shape) ==> leaves_valued(shape.spec_leaves(), shape.spec_value_bytes()),
            r matches Ok(shape) ==> enum_nodes_present(*self, access, 0, Seq::empty(), shape.spec_variants()),
            r matches Ok(shape) ==> nodes_sound(*self, access, 0, Seq::empty(), shape.spec_variants()),
            is_scalar_kind(self.spec_kind(access.ty)) ==> (r matches Ok(shape) ==> scalar_shape(*self, access, shape)),
    {
        match self.validate() {
            Ok(()) => {},
            Err(error) => {
                return Err(shape_error(VirObjectShapeErrorKind::InvalidSchema(error.into_kind())));
            },
        }
        if !self.resolves_access(access) {
            return Err(shape_error(VirObjectShapeErrorKind::InvalidAccess { access }));
        }
        let layout = match self.layout(access.layout) {
            Some(l) => l,
            None => return Err(shape_error(VirObjectShapeErrorKind::InvalidAccess { access })),
        };
        let mut builder = ObjectShapeBuilder { root_size: layout.size_bytes, nodes: 0, stack: Vec::new() };
        let mut built = builder.build(self, access, 0, &VirObjectPath::root())?;
        let ghost before = built.value_bytes.ranges@;
        let ghost variants_before = built.variants@;
        let ghost leaves_before = built.leaves@;
        built.canonicalize();
        proof {
            lemma_leaves_reordered(leaves_before, built.leaves@, before, 0, layout.size_bytes as int);
        }
        proof {
            lemma_enum_nodes_reordered(*self, access, 0, Seq::empty(), variants_before, built.variants@);
            lemma_nodes_reordered(*self, access, 0, Seq::empty(), variants_before, built.variants@, 0);
        }
        proof {
            lemma_within_from_cover(built.value_bytes.ranges@, before, 0, layout.size_bytes as int);
            lemma_valued_grow(built.leaves@, before, built.value_bytes.ranges@);
            if is_scalar_kind(self.spec_kind(access.ty)) && !is_leaf_kind(self.spec_kind(access.ty)) {
                lemma_canonical_covering_nothing(built.value_bytes.ranges@);
            }
        }
        let resource_leaves = resource_leaves_of(self, &built.leaves);
        let whole = VirObjectByteRange::new(0, layout.size_bytes);
        let padding = built.value_bytes.complement(whole);
        let shape = VirObjectShape {
            access,
            size_bytes: layout.size_bytes,
            alignment: layout.alignment,
            leaves: built.leaves,
            resource_leaves,
            value_bytes: built.value_bytes.ranges,
            padding,
            arrays: built.arrays,
            variants: built.variants,
        };
        proof {
            if is_scalar_kind(self.spec_kind(access.ty)) {
                assert(access_size(*self, access) == layout.size_bytes);
                assert(shape.spec_arrays().len() == 0);
                assert(shape.spec_variants().len() == 0);
            }
            if is_leaf_kind(self.spec_kind(access.ty)) {
                assert(shape.spec_leaves()[0].spec_path().spec_segments().len() == 0);
                assert(forall|x: int| covers(shape.spec_value_bytes(), x) <==> 0 <= x < shape.spec_size_bytes());
                assert(ranges_within(shape.spec_padding(), 0, shape.spec_size_bytes() as int));
                assert(forall|x: int| 0 <= x < shape.spec_size_bytes() ==> (covers(shape.spec_padding(), x) <==> !covers(
                    shape.spec_value_bytes(),
                    x,
                )));
                assert forall|x: int| !covers(shape.spec_padding(), x) by {
                    if covers(shape.spec_padding(), x) {
                        let j = choose|j: int| 0 <= j < shape.spec_padding().len() && (#[trigger] shape.spec_padding()[j]).spec_start_bytes() <= x
                            < shape.spec_padding()[j].spec_end_bytes();
                        assert(ranges_within(shape.spec_padding(), 0, shape.spec_size_bytes() as int));
                        assert(0 <= x < shape.spec_size_bytes());
                    }
                }
                lemma_canonical_covering_nothing(shape.spec_padding());
            }
        }
        Ok(shape)
    }
}

} // verus!
