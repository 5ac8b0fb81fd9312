//! Canonical subobject/sequence layouts shared by VIR address consumers.
//!
//! These descriptors establish layout and source structure, never liveness,
//! numeric bounds, allocation-instance identity or access authority.

use vstd::prelude::*;

use crate::ids::{VirFieldId, VirFunctionId, VirValueId, VirVariantId};
use crate::memory::{VirField, VirMemoryAccess, VirMemorySchema, VirMemoryTypeKind, VirMutability, VirPointerKind};
use crate::object_shape::{VIR_OBJECT_SHAPE_MAX_DEPTH, VirObjectPathSegment, VirObjectShape, case_index_from, field_layout_from, is_scalar_kind, shape_matches};

verus! {

/// Index bounds of a sequence access: a fixed array length or a runtime
/// slice length operand.
#[derive(Clone, Copy, Debug, PartialEq, Eq, Hash, Structural)]
pub enum VirIndexBounds {
    Array { length: u64 },
    Slice { length: VirValueId },
}

/// Arithmetic extent, independent from read/write/free authority. Unknown is
/// never widened back to the enclosing allocation after a join or lost symbol.
#[derive(Clone, Copy, Debug, PartialEq, Eq, Hash)]
pub enum VirPointerDomain<R> {
    Allocation,
    Restricted(R),
    Unknown,
}

/// Root of a nominal path: a concrete object or a function-local parameter anchor.
#[derive(Clone, Copy, Debug, PartialEq, Eq, Hash, Structural)]
pub enum VirNominalRoot {
    Object(VirMemoryAccess),
    Parameter { access: VirMemoryAccess, function: VirFunctionId, index: u32, role: ParameterPathRole },
}

/// Which name of a parameter a path denotes.
#[derive(Clone, Copy, Debug, PartialEq, Eq, Hash, Structural)]
pub enum ParameterPathRole {
    Object,
    IncomingDomain,
    SelectedDomain,
}

/// Exact bounded nominal path, not a hash. Array ordinals are represented by
/// the separately checked domain endpoints; array nesting itself is retained.
/// Overflow loses comparison precision, never merges two different paths.
#[derive(Clone, Copy, Debug, PartialEq, Eq, Hash)]
pub struct VirNominalPath {
    root: VirNominalRoot,
    steps: [u32; 8],
    len: u8,
}

/// Encoded step of one path segment, if it fits.
pub open spec fn encode_segment(segment: VirObjectPathSegment) -> Option<u32> {
    match segment {
        VirObjectPathSegment::Field(id) => if id.0 * 4 <= u32::MAX { Some((id.0 * 4) as u32) } else { None },
        VirObjectPathSegment::Variant(id) => if id.0 * 4 + 1 <= u32::MAX { Some((id.0 * 4 + 1) as u32) } else { None },
        VirObjectPathSegment::TupleElement(index) => if index * 4 + 2 <= u32::MAX { Some((index * 4 + 2) as u32) } else { None },
        VirObjectPathSegment::ArrayElement(_) => Some(3u32),
    }
}

fn encode_segment_exec(segment: VirObjectPathSegment) -> (r: Option<u32>)
    ensures
        r == encode_segment(segment),
{
    match segment {
        VirObjectPathSegment::Field(id) => match id.0.checked_mul(4) {
            Some(v) => Some(v),
            None => None,
        },
        VirObjectPathSegment::Variant(id) => match id.0.checked_mul(4) {
            Some(v) => v.checked_add(1),
            None => None,
        },
        VirObjectPathSegment::TupleElement(index) => {
            if index > 0xffff_ffff {
                return None;
            }
            let small = index as u32;
            match small.checked_mul(4) {
                Some(v) => v.checked_add(2),
                None => None,
            }
        },
        VirObjectPathSegment::ArrayElement(_) => Some(3),
    }
}

impl VirNominalPath {
    pub closed spec fn spec_root(self) -> VirNominalRoot {
        self.root
    }

    pub closed spec fn spec_len(self) -> nat {
        self.len as nat
    }

    pub closed spec fn spec_steps(self) -> Seq<u32> {
        self.steps@
    }

    /// `result` is `self` with the encoded `path` appended.
    pub open spec fn extended_by(self, path: Seq<VirObjectPathSegment>, result: VirNominalPath) -> bool {
        &&& result.spec_root() == self.spec_root()
        &&& result.spec_len() == self.spec_len() + path.len()
        &&& result.spec_steps().len() == 8
        &&& forall|j: int| 0 <= j < self.spec_len() ==> #[trigger] result.spec_steps()[j] == self.spec_steps()[j]
        &&& forall|i: int| 0 <= i < path.len() ==> result.spec_steps()[self.spec_len() + i] == encode_segment(#[trigger] path[i]).unwrap()
        &&& forall|j: int| result.spec_len() <= j < 8 ==> #[trigger] result.spec_steps()[j] == self.spec_steps()[j]
    }

    /// The path of the whole object `root`.
    pub fn root(root: VirMemoryAccess) -> (r: Self)
        ensures
            r.spec_root() == VirNominalRoot::Object(root),
            r.spec_len() == 0,
            r.spec_steps() == seq![0u32, 0u32, 0u32, 0u32, 0u32, 0u32, 0u32, 0u32],
    {
        let r = VirNominalPath { root: VirNominalRoot::Object(root), steps: [0u32; 8], len: 0 };
        assert(r.steps@ =~= seq![0u32, 0u32, 0u32, 0u32, 0u32, 0u32, 0u32, 0u32]);
        r
    }

    /// Appends `path`; `None` when a step does not encode or the path would
    /// exceed eight steps.
    pub fn extend(self, path: &[VirObjectPathSegment]) -> (r: Option<Self>)
        ensures
            r is Some <==> (self.spec_len() + path@.len() <= 8 && forall|i: int| 0 <= i < path@.len() ==> (encode_segment(#[trigger] path@[i]) is Some)),
            r matches Some(p) ==> self.extended_by(path@, p),
    {
        proof {
            use_type_invariant(self);
        }
        let mut steps = self.steps;
        let mut len = self.len;
        let mut i: usize = 0;
        while i < path.len()
            invariant
                0 <= i <= path@.len(),
                self.len <= 8,
                len <= 8,
                len as int == self.len + i,
                steps@.len() == 8,
                forall|j: int| 0 <= j < self.len ==> #[trigger] steps@[j] == self.steps@[j],
                forall|k: int| 0 <= k < i ==> steps@[self.len + k] == encode_segment(#[trigger] path@[k]).unwrap(),
                forall|k: int| 0 <= k < i ==> (encode_segment(#[trigger] path@[k]) is Some),
                forall|j: int| len <= j < 8 ==> #[trigger] steps@[j] == self.steps@[j],
            decreases path.len() - i,
        {
            let encoded = match encode_segment_exec(path[i]) {
                Some(e) => e,
                None => return None,
            };
            if len >= 8 {
                return None;
            }
            let ghost before = steps@;
            let at = len as usize;
            steps.set(at, encoded);
            len = len + 1;
            proof {
                assert(steps@ == before.update(at as int, encoded));
            }
            i = i + 1;
        }
        Some(VirNominalPath { root: self.root, steps, len })
    }

    #[verifier::type_invariant]
    spec fn bounded(self) -> bool {
        self.len <= 8
    }
}

/// Extending a path by `p` and then by `q` is extending it by `p` followed
/// by `q`.
pub proof fn lemma_extension_composes(
    a: VirNominalPath,
    b: VirNominalPath,
    c: VirNominalPath,
    p: Seq<VirObjectPathSegment>,
    q: Seq<VirObjectPathSegment>,
)
    requires
        a.extended_by(p, b),
        b.extended_by(q, c),
    ensures
        a.extended_by(p + q, c),
{
    assert forall|j: int| 0 <= j < a.spec_len() implies #[trigger] c.spec_steps()[j] == a.spec_steps()[j] by {
        assert(c.spec_steps()[j] == b.spec_steps()[j]);
        assert(b.spec_steps()[j] == a.spec_steps()[j]);
    }
    assert forall|i: int| 0 <= i < (p + q).len() implies c.spec_steps()[a.spec_len() + i] == encode_segment(#[trigger] (p + q)[i]).unwrap() by {
        if i < p.len() {
            assert((p + q)[i] == p[i]);
            assert(c.spec_steps()[a.spec_len() + i] == b.spec_steps()[a.spec_len() + i]);
            assert(b.spec_steps()[a.spec_len() + i] == encode_segment(p[i]).unwrap());
        } else {
            assert((p + q)[i] == q[i - p.len()]);
            assert(c.spec_steps()[b.spec_len() + (i - p.len())] == encode_segment(q[i - p.len()]).unwrap());
        }
    }
    assert forall|j: int| c.spec_len() <= j < 8 implies #[trigger] c.spec_steps()[j] == a.spec_steps()[j] by {
        assert(c.spec_steps()[j] == b.spec_steps()[j]);
        assert(b.spec_steps()[j] == a.spec_steps()[j]);
    }
}

/// Distinct segments encode to distinct steps, but for array elements,
/// whose index the step does not record.
pub proof fn lemma_encode_segment_injective(a: VirObjectPathSegment, b: VirObjectPathSegment)
    requires
        encode_segment(a) is Some,
        encode_segment(a) == encode_segment(b),
    ensures
        a == b || (a is ArrayElement && b is ArrayElement),
{
    match (a, b) {
        (VirObjectPathSegment::Field(x), VirObjectPathSegment::Field(y)) => {},
        (VirObjectPathSegment::Variant(x), VirObjectPathSegment::Variant(y)) => {},
        (VirObjectPathSegment::TupleElement(x), VirObjectPathSegment::TupleElement(y)) => {},
        (VirObjectPathSegment::ArrayElement(_), VirObjectPathSegment::ArrayElement(_)) => {},
        (VirObjectPathSegment::Field(x), VirObjectPathSegment::Variant(y)) => {
            assert(x.0 * 4 != y.0 * 4 + 1) by (nonlinear_arith);
        },
        (VirObjectPathSegment::Variant(x), VirObjectPathSegment::Field(y)) => {
            assert(y.0 * 4 != x.0 * 4 + 1) by (nonlinear_arith);
        },
        (VirObjectPathSegment::Field(x), VirObjectPathSegment::TupleElement(y)) => {
            assert(x.0 * 4 != y * 4 + 2) by (nonlinear_arith);
        },
        (VirObjectPathSegment::TupleElement(x), VirObjectPathSegment::Field(y)) => {
            assert(y.0 * 4 != x * 4 + 2) by (nonlinear_arith);
        },
        (VirObjectPathSegment::Variant(x), VirObjectPathSegment::TupleElement(y)) => {
            assert(x.0 * 4 + 1 != y * 4 + 2) by (nonlinear_arith);
        },
        (VirObjectPathSegment::TupleElement(x), VirObjectPathSegment::Variant(y)) => {
            assert(y.0 * 4 + 1 != x * 4 + 2) by (nonlinear_arith);
        },
        (VirObjectPathSegment::Field(x), VirObjectPathSegment::ArrayElement(_)) => {
            assert(x.0 * 4 != 3) by (nonlinear_arith);
        },
        (VirObjectPathSegment::ArrayElement(_), VirObjectPathSegment::Field(y)) => {
            assert(y.0 * 4 != 3) by (nonlinear_arith);
        },
        (VirObjectPathSegment::Variant(x), VirObjectPathSegment::ArrayElement(_)) => {
            assert(x.0 * 4 + 1 != 3) by (nonlinear_arith);
        },
        (VirObjectPathSegment::ArrayElement(_), VirObjectPathSegment::Variant(y)) => {
            assert(y.0 * 4 + 1 != 3) by (nonlinear_arith);
        },
        (VirObjectPathSegment::TupleElement(x), VirObjectPathSegment::ArrayElement(_)) => {
            assert(x * 4 + 2 != 3) by (nonlinear_arith);
        },
        (VirObjectPathSegment::ArrayElement(_), VirObjectPathSegment::TupleElement(y)) => {
            assert(y * 4 + 2 != 3) by (nonlinear_arith);
        },
    }
}

/// Extension never merges paths: extending one path by two equally long
/// segment lists gives the same path only where the lists agree, but for
/// array-element indices.
pub proof fn lemma_extension_never_merges(
    a: VirNominalPath,
    p: Seq<VirObjectPathSegment>,
    q: Seq<VirObjectPathSegment>,
    x: VirNominalPath,
    y: VirNominalPath,
)
    requires
        a.extended_by(p, x),
        a.extended_by(q, y),
        forall|i: int| 0 <= i < p.len() ==> encode_segment(#[trigger] p[i]) is Some,
        forall|i: int| 0 <= i < q.len() ==> encode_segment(#[trigger] q[i]) is Some,
        x == y,
    ensures
        p.len() == q.len(),
        forall|i: int| 0 <= i < p.len() ==> p[i] == q[i] || (#[trigger] p[i] is ArrayElement && q[i] is ArrayElement),
{
    assert forall|i: int| 0 <= i < p.len() implies p[i] == q[i] || (#[trigger] p[i] is ArrayElement && q[i] is ArrayElement) by {
        assert(x.spec_steps()[a.spec_len() + i] == encode_segment(p[i]).unwrap());
        assert(y.spec_steps()[a.spec_len() + i] == encode_segment(q[i]).unwrap());
        assert(encode_segment(q[i]) is Some);
        lemma_encode_segment_injective(p[i], q[i]);
    }
}

/// A path extends by a segment list to one path only.
pub proof fn lemma_extension_unique(a: VirNominalPath, p: Seq<VirObjectPathSegment>, x: VirNominalPath, y: VirNominalPath)
    requires
        a.extended_by(p, x),
        a.extended_by(p, y),
    ensures
        x == y,
{
    assert forall|j: int| 0 <= j < 8 implies #[trigger] x.spec_steps()[j] == y.spec_steps()[j] by {
        if j < a.spec_len() {
            assert(x.spec_steps()[j] == a.spec_steps()[j]);
            assert(y.spec_steps()[j] == a.spec_steps()[j]);
        } else if j < x.spec_len() {
            let i = j - a.spec_len();
            assert(x.spec_steps()[a.spec_len() + i] == encode_segment(p[i]).unwrap());
            assert(y.spec_steps()[a.spec_len() + i] == encode_segment(p[i]).unwrap());
        }
    }
    assert(x.steps@ =~= y.steps@);
    assert(x.steps == y.steps);
}

/// Nominal names of a pointer's object and of its arithmetic domain.
#[derive(Clone, Copy, Debug, Default, PartialEq, Eq, Hash)]
pub struct VirPointerPaths {
    pub object: Option<VirNominalPath>,
    pub domain: Option<VirNominalPath>,
}

/// Exact equality of two optional nominal paths.
pub fn same_nominal(a: Option<VirNominalPath>, b: Option<VirNominalPath>) -> (r: bool)
    ensures
        r == (a == b),
{
    let (x, y) = match (a, b) {
        (Some(x), Some(y)) => (x, y),
        (None, None) => return true,
        _ => return false,
    };
    if x.root != y.root || x.len != y.len {
        return false;
    }
    let mut i: usize = 0;
    while i < 8
        invariant
            0 <= i <= 8,
            a == Some(x) && b == Some(y),
            x.steps@.len() == 8 && y.steps@.len() == 8,
            forall|j: int| 0 <= j < i ==> x.steps@[j] == y.steps@[j],
        decreases 8 - i,
    {
        if x.steps[i] != y.steps[i] {
            assert(x.steps@[i as int] != y.steps@[i as int]);
            return false;
        }
        i = i + 1;
    }
    proof {
        broadcast use vstd::array::axiom_array_ext_equal;
        assert(x.steps =~= y.steps);
    }
    true
}

/// A parameter anchor with the given role and no steps.
pub open spec fn parameter_path_spec(p: VirNominalPath, access: VirMemoryAccess, function: VirFunctionId, index: u32, role: ParameterPathRole) -> bool {
    &&& p.spec_root() == (VirNominalRoot::Parameter { access, function, index, role })
    &&& p.spec_len() == 0
    &&& p.spec_steps() == seq![0u32, 0u32, 0u32, 0u32, 0u32, 0u32, 0u32, 0u32]
}

fn parameter_path(access: VirMemoryAccess, function: VirFunctionId, index: u32, role: ParameterPathRole) -> (r: VirNominalPath)
    ensures
        parameter_path_spec(r, access, function, index, role),
{
    let r = VirNominalPath { root: VirNominalRoot::Parameter { access, function, index, role }, steps: [0u32; 8], len: 0 };
    assert(r.steps@ =~= seq![0u32, 0u32, 0u32, 0u32, 0u32, 0u32, 0u32, 0u32]);
    r
}

/// `p` with an incoming-domain parameter root turned into a selected domain.
pub open spec fn select_root(root: VirNominalRoot) -> VirNominalRoot {
    match root {
        VirNominalRoot::Parameter { access, function, index, role: ParameterPathRole::IncomingDomain } =>
            VirNominalRoot::Parameter { access, function, index, role: ParameterPathRole::SelectedDomain },
        _ => root,
    }
}

impl VirPointerPaths {
    /// Scoped names for an unknown caller object and its incoming domain.
    /// They establish correlation only among derivations of this parameter.
    pub fn parameter(access: VirMemoryAccess, function: VirFunctionId, index: u32) -> (r: Self)
        ensures
            r.object matches Some(p) && parameter_path_spec(p, access, function, index, ParameterPathRole::Object),
            r.domain matches Some(p) && parameter_path_spec(p, access, function, index, ParameterPathRole::IncomingDomain),
    {
        VirPointerPaths {
            object: Some(parameter_path(access, function, index, ParameterPathRole::Object)),
            domain: Some(parameter_path(access, function, index, ParameterPathRole::IncomingDomain)),
        }
    }

    /// A selected slice has exact endpoints. The input parameter guarantees
    /// only containment in its incoming domain, not equality with that domain.
    pub fn selected(self) -> (r: Self)
        ensures
            r.object == self.object,
            match self.domain {
                None => r.domain is None,
                Some(d) => r.domain matches Some(e) && e.spec_root() == select_root(d.spec_root())
                    && e.spec_len() == d.spec_len() && e.spec_steps() == d.spec_steps(),
            },
    {
        let mut out = self;
        match self.domain {
            Some(d) => {
                match d.root {
                    VirNominalRoot::Parameter { access, function, index, role: ParameterPathRole::IncomingDomain } => {
                        proof {
                            use_type_invariant(d);
                        }
                        let e = VirNominalPath {
                            root: VirNominalRoot::Parameter { access, function, index, role: ParameterPathRole::SelectedDomain },
                            steps: d.steps,
                            len: d.len,
                        };
                        out.domain = Some(e);
                    },
                    _ => {},
                }
            },
            None => {},
        }
        out
    }

    /// Both names of the whole object `access`.
    pub fn root(access: VirMemoryAccess) -> (r: Self)
        ensures
            r.object matches Some(p) && p.spec_root() == VirNominalRoot::Object(access) && p.spec_len() == 0,
            r.domain == r.object,
    {
        let p = VirNominalPath::root(access);
        VirPointerPaths { object: Some(p), domain: Some(p) }
    }

    /// Names after projecting to `object`: its path and its domain path, both
    /// from this pointer's object name.
    pub fn project(self, object: &VirSubobject) -> (r: Self)
        ensures
            match self.object {
                None => r.object is None && r.domain is None,
                Some(p) => (match r.object {
                    Some(q) => p.extended_by(object.spec_path(), q),
                    None => !(p.spec_len() + object.spec_path().len() <= 8 && forall|i: int| 0 <= i < object.spec_path().len() ==> (encode_segment(#[trigger] object.spec_path()[i]) is Some)),
                }) && (match r.domain {
                    Some(q) => p.extended_by(object.spec_domain_path(), q),
                    None => !(p.spec_len() + object.spec_domain_path().len() <= 8 && forall|i: int| 0 <= i < object.spec_domain_path().len() ==> (encode_segment(#[trigger] object.spec_domain_path()[i]) is Some)),
                }),
            },
    {
        match self.object {
            Some(p) => VirPointerPaths { object: p.extend(object.path()), domain: p.extend(object.domain_path()) },
            None => VirPointerPaths { object: None, domain: None },
        }
    }

    /// Names of an array element: the object gains an element step and the
    /// domain becomes the array object itself.
    pub fn element(self) -> (r: Self)
        ensures
            r.domain == self.object,
            match self.object {
                None => r.object is None,
                Some(p) => match r.object {
                    Some(q) => p.extended_by(seq![VirObjectPathSegment::ArrayElement(0)], q),
                    None => p.spec_len() + 1 > 8,
                },
            },
    {
        let step = [VirObjectPathSegment::ArrayElement(0)];
        let object = match self.object {
            Some(p) => {
                let r = p.extend(step.as_slice());
                proof {
                    assert(step@ =~= seq![VirObjectPathSegment::ArrayElement(0)]);
                }
                r
            },
            None => None,
        };
        VirPointerPaths { object, domain: self.object }
    }

    /// Keeps each name only where both sides agree.
    pub fn join(self, other: Self) -> (r: Self)
        ensures
            r.object == (if self.object == other.object { self.object } else { None }),
            r.domain == (if self.domain == other.domain { self.domain } else { None }),
    {
        let object = if same_nominal(self.object, other.object) { self.object } else { None };
        let domain = if same_nominal(self.domain, other.domain) { self.domain } else { None };
        VirPointerPaths { object, domain }
    }
}

/// Layout-derived subobject and its immediate arithmetic domain. Offsets are
/// relative to the queried object, never machine addresses or permissions.
#[derive(Clone, Debug, PartialEq, Eq)]
pub struct VirSubobject {
    root: VirMemoryAccess,
    path: Vec<VirObjectPathSegment>,
    access: VirMemoryAccess,
    offset_bytes: u64,
    size_bytes: u64,
    domain_path: Vec<VirObjectPathSegment>,
    domain_offset_bytes: u64,
    domain_size_bytes: u64,
}

impl VirSubobject {
    pub closed spec fn spec_root(&self) -> VirMemoryAccess {
        self.root
    }

    pub closed spec fn spec_path(&self) -> Seq<VirObjectPathSegment> {
        self.path@
    }

    pub closed spec fn spec_access(&self) -> VirMemoryAccess {
        self.access
    }

    pub closed spec fn spec_offset_bytes(&self) -> u64 {
        self.offset_bytes
    }

    pub closed spec fn spec_size_bytes(&self) -> u64 {
        self.size_bytes
    }

    pub closed spec fn spec_domain_path(&self) -> Seq<VirObjectPathSegment> {
        self.domain_path@
    }

    pub closed spec fn spec_domain_offset_bytes(&self) -> u64 {
        self.domain_offset_bytes
    }

    pub closed spec fn spec_domain_size_bytes(&self) -> u64 {
        self.domain_size_bytes
    }

    pub fn root(&self) -> (r: VirMemoryAccess)
        ensures
            r == self.spec_root(),
    {
        self.root
    }

    pub fn path(&self) -> (r: &[VirObjectPathSegment])
        ensures
            r@ == self.spec_path(),
    {
        self.path.as_slice()
    }

    pub fn access(&self) -> (r: VirMemoryAccess)
        ensures
            r == self.spec_access(),
    {
        self.access
    }

    pub fn offset_bytes(&self) -> (r: u64)
        ensures
            r == self.spec_offset_bytes(),
    {
        self.offset_bytes
    }

    pub fn size_bytes(&self) -> (r: u64)
        ensures
            r == self.spec_size_bytes(),
    {
        self.size_bytes
    }

    pub fn domain_path(&self) -> (r: &[VirObjectPathSegment])
        ensures
            r@ == self.spec_domain_path(),
    {
        self.domain_path.as_slice()
    }

    pub fn domain_offset_bytes(&self) -> (r: u64)
        ensures
            r == self.spec_domain_offset_bytes(),
    {
        self.domain_offset_bytes
    }

    pub fn domain_size_bytes(&self) -> (r: u64)
        ensures
            r == self.spec_domain_size_bytes(),
    {
        self.domain_size_bytes
    }
}

/// Extent of a sequence: a fixed array or a slice whose length is an operand.
#[derive(Clone, Copy, Debug, PartialEq, Eq, Structural)]
pub enum VirSequenceExtent {
    Array { length: u64, size_bytes: u64 },
    /// Metadata operand, not a proven allocation extent or permission range.
    Slice { length: VirValueId },
}

/// Element type, stride and extent of an array or slice view.
#[derive(Clone, Copy, Debug, PartialEq, Eq, Structural)]
pub struct VirSequence {
    source: VirMemoryAccess,
    element: VirMemoryAccess,
    stride_bytes: u64,
    extent: VirSequenceExtent,
}

impl VirSequence {
    pub closed spec fn spec_source(self) -> VirMemoryAccess {
        self.source
    }

    pub closed spec fn spec_element(self) -> VirMemoryAccess {
        self.element
    }

    pub closed spec fn spec_stride_bytes(self) -> u64 {
        self.stride_bytes
    }

    pub closed spec fn spec_extent(self) -> VirSequenceExtent {
        self.extent
    }

    pub fn source(self) -> (r: VirMemoryAccess)
        ensures
            r == self.spec_source(),
    {
        self.source
    }

    pub fn element(self) -> (r: VirMemoryAccess)
        ensures
            r == self.spec_element(),
    {
        self.element
    }

    pub fn stride_bytes(self) -> (r: u64)
        ensures
            r == self.spec_stride_bytes(),
    {
        self.stride_bytes
    }

    pub fn extent(self) -> (r: VirSequenceExtent)
        ensures
            r == self.spec_extent(),
    {
        self.extent
    }
}

impl VirMemorySchema {
    /// Sized, non-slice pointee and qualifier of a raw pointer type.
    pub open spec fn spec_raw_address_pointee(self, raw: VirMemoryAccess) -> Option<(VirMemoryAccess, VirMutability)> {
        if self.spec_access(raw.ty) != Some(raw) {
            None
        } else {
            match self.spec_kind(raw.ty) {
                Some(VirMemoryTypeKind::Pointer { pointee, kind: VirPointerKind::Raw, mutability }) => match self.spec_access(pointee) {
                    Some(access) => match self.spec_layout(access.layout) {
                        Some(l) => if l.size_bytes == 0 || !(self.spec_kind(access.ty) is Some)
                            || self.spec_kind(access.ty) matches Some(VirMemoryTypeKind::Slice { .. }) {
                            None
                        } else {
                            Some((access, mutability))
                        },
                        None => None,
                    },
                    None => None,
                },
                _ => None,
            }
        }
    }

    /// Canonical sized pointee and readonly qualifier of a raw-address result.
    pub fn raw_address_pointee(&self, raw: VirMemoryAccess) -> (r: Option<(VirMemoryAccess, VirMutability)>)
        ensures
            r == self.spec_raw_address_pointee(raw),
    {
        match self.access(raw.ty) {
            Some(a) => if a != raw {
                return None;
            },
            None => return None,
        }
        let (pointee, mutability) = match self.kind(raw.ty) {
            Some(VirMemoryTypeKind::Pointer { pointee, kind: VirPointerKind::Raw, mutability }) => (*pointee, *mutability),
            _ => return None,
        };
        let access = match self.access(pointee) {
            Some(a) => a,
            None => return None,
        };
        let size = match self.layout(access.layout) {
            Some(l) => l.size_bytes,
            None => return None,
        };
        match self.kind(access.ty) {
            Some(VirMemoryTypeKind::Slice { .. }) => return None,
            None => return None,
            _ => {},
        }
        if size == 0 {
            return None;
        }
        Some((access, mutability))
    }

    /// Element type, stride and extent shared by fixed arrays and slice views.
    pub open spec fn spec_sequence(self, source: VirMemoryAccess, bounds: VirIndexBounds) -> Option<(VirMemoryAccess, VirMemoryAccess, u64, VirSequenceExtent)> {
        if !self.spec_resolves_access(source) {
            None
        } else {
            let shape: Option<(crate::ids::VirTypeId, Option<u64>)> = match (self.spec_kind(source.ty), bounds) {
                (Some(VirMemoryTypeKind::Array { element, length }), VirIndexBounds::Array { length: actual }) =>
                    if length == actual { Some((element, Some(actual))) } else { None },
                (Some(VirMemoryTypeKind::Slice { element, .. }), VirIndexBounds::Slice { .. }) => Some((element, None)),
                _ => None,
            };
            match shape {
                None => None,
                Some((element_ty, length)) => match self.spec_access(element_ty) {
                    None => None,
                    Some(element) => match self.spec_layout(element.layout) {
                        None => None,
                        Some(el) => {
                            let stride = el.size_bytes;
                            if stride == 0 {
                                None
                            } else {
                                match (length, bounds) {
                                    (Some(n), _) => if stride * n > u64::MAX {
                                        None
                                    } else if self.spec_layout(source.layout).unwrap().size_bytes < stride * n {
                                        None
                                    } else {
                                        Some((source, element, stride, VirSequenceExtent::Array { length: n, size_bytes: (stride * n) as u64 }))
                                    },
                                    (None, VirIndexBounds::Slice { length }) => Some((source, element, stride, VirSequenceExtent::Slice { length })),
                                    _ => None,
                                }
                            }
                        },
                    },
                },
            }
        }
    }

    /// Shared schema rule for fixed arrays and dynamic slice views. Numeric
    /// length/index bounds remain verifier/runtime obligations.
    pub fn sequence(&self, source: VirMemoryAccess, bounds: VirIndexBounds) -> (r: Option<VirSequence>)
        ensures
            match r {
                Some(q) => self.spec_sequence(source, bounds) == Some((q.spec_source(), q.spec_element(), q.spec_stride_bytes(), q.spec_extent())),
                None => self.spec_sequence(source, bounds) is None,
            },
    {
        if !self.resolves_access(source) {
            return None;
        }
        let (element_ty, length) = match (self.kind(source.ty), bounds) {
            (Some(VirMemoryTypeKind::Array { element, length }), VirIndexBounds::Array { length: actual }) => {
                if *length != actual {
                    return None;
                }
                (*element, Some(actual))
            },
            (Some(VirMemoryTypeKind::Slice { element, .. }), VirIndexBounds::Slice { .. }) => (*element, None),
            _ => return None,
        };
        let element = match self.access(element_ty) {
            Some(a) => a,
            None => return None,
        };
        let stride_bytes = match self.layout(element.layout) {
            Some(l) => l.size_bytes,
            None => return None,
        };
        if stride_bytes == 0 {
            return None;
        }
        let extent = match (length, bounds) {
            (Some(length), _) => {
                let size_bytes = match stride_bytes.checked_mul(length) {
                    Some(v) => v,
                    None => return None,
                };
                let source_size = match self.layout(source.layout) {
                    Some(l) => l.size_bytes,
                    None => return None,
                };
                if source_size < size_bytes {
                    return None;
                }
                VirSequenceExtent::Array { length, size_bytes }
            },
            (None, VirIndexBounds::Slice { length }) => VirSequenceExtent::Slice { length },
            _ => return None,
        };
        Some(VirSequence { source, element, stride_bytes, extent })
    }

    /// A sequence of `source` viewed through the slice type `slice`: same
    /// element type, and no mutable view of an immutable slice.
    pub fn slice_sequence(&self, source: VirMemoryAccess, slice: VirMemoryAccess, bounds: VirIndexBounds) -> (r: Option<VirSequence>)
        ensures
            match self.spec_sequence(source, bounds) {
                None => r is None,
                Some(parts) => if !self.spec_resolves_access(slice) {
                    r is None
                } else {
                    match self.spec_kind(slice.ty) {
                        Some(VirMemoryTypeKind::Slice { element, mutability }) => if element != parts.1.ty {
                            r is None
                        } else if (self.spec_kind(source.ty) matches Some(VirMemoryTypeKind::Slice { mutability: m, .. })
                            && mutability == VirMutability::Mutable && m != VirMutability::Mutable) {
                            r is None
                        } else {
                            r matches Some(q) && parts == (q.spec_source(), q.spec_element(), q.spec_stride_bytes(), q.spec_extent())
                        },
                        _ => r is None,
                    }
                },
            },
    {
        let sequence = match self.sequence(source, bounds) {
            Some(s) => s,
            None => return None,
        };
        if !self.resolves_access(slice) {
            return None;
        }
        let (element, mutability) = match self.kind(slice.ty) {
            Some(VirMemoryTypeKind::Slice { element, mutability }) => (*element, *mutability),
            _ => return None,
        };
        if element != sequence.element.ty {
            return None;
        }
        match self.kind(source.ty) {
            Some(VirMemoryTypeKind::Slice { mutability: source_mutability, .. }) => {
                if mutability == VirMutability::Mutable && *source_mutability != VirMutability::Mutable {
                    return None;
                }
            },
            _ => {},
        }
        Some(sequence)
    }
}

/// A step of a subobject walk: the object's access, offset and size, the
/// variant a pending `Variant` segment selected, and the domain's offset,
/// size and path length.
pub type WalkState = (VirMemoryAccess, u64, u64, Option<VirVariantId>, u64, u64, int);

/// The subobject walk before any segment: the whole root.
pub open spec fn walk_start(schema: VirMemorySchema, root: VirMemoryAccess) -> Option<WalkState> {
    match schema.spec_layout(root.layout) {
        Some(l) => Some((root, 0u64, l.size_bytes, None, 0u64, l.size_bytes, 0int)),
        None => None,
    }
}

/// The offset of field `f` within an object of access `owner`, through the
/// pending variant `variant` when there is one.
pub open spec fn field_offset(schema: VirMemorySchema, owner: VirMemoryAccess, variant: Option<VirVariantId>, f: VirField) -> Option<u64> {
    match schema.spec_layout(owner.layout) {
        Some(l) => match variant {
            Some(vid) => match schema.spec_variant(vid) {
                Some(v) => if !v.fields@.contains(f.id) {
                    None
                } else {
                    match l.variants {
                        Some(vl) => match case_index_from(vl.cases@, vid, 0) {
                            Some(c) => match field_layout_from(vl.cases@[c].fields@, f.id, 0) {
                                Some(fl) => if vl.cases@[c].payload_offset_bytes + fl.offset_bytes <= u64::MAX {
                                    Some((vl.cases@[c].payload_offset_bytes + fl.offset_bytes) as u64)
                                } else {
                                    None
                                },
                                None => None,
                            },
                            None => None,
                        },
                        None => None,
                    }
                },
                None => None,
            },
            None => match schema.spec_kind(owner.ty) {
                Some(VirMemoryTypeKind::Struct { fields }) => if fields@.contains(f.id) {
                    match field_layout_from(l.fields@, f.id, 0) {
                        Some(fl) => Some(fl.offset_bytes),
                        None => None,
                    }
                } else {
                    None
                },
                _ => None,
            },
        },
        None => None,
    }
}

/// What a non-variant segment selects within the object of state `st`: the
/// access, its offset within the object, and for an array element the
/// array's extent.
pub open spec fn walk_target(schema: VirMemorySchema, st: WalkState, segment: VirObjectPathSegment) -> Option<(VirMemoryAccess, u64, Option<u64>)> {
    match segment {
        VirObjectPathSegment::Field(id) => match schema.spec_field(id) {
            Some(f) => if f.owner != st.0.ty {
                None
            } else {
                match field_offset(schema, st.0, st.3, f) {
                    Some(o) => match schema.spec_access(f.ty) {
                        Some(a) => Some((a, o, None)),
                        None => None,
                    },
                    None => None,
                }
            },
            None => None,
        },
        VirObjectPathSegment::TupleElement(index) => if st.3 is Some {
            None
        } else {
            match schema.spec_tuple_element_projection(st.0, index) {
                Some((a, o)) => Some((a, o, None)),
                None => None,
            }
        },
        VirObjectPathSegment::ArrayElement(index) => if st.3 is Some {
            None
        } else {
            match schema.spec_kind(st.0.ty) {
                Some(VirMemoryTypeKind::Array { element, length }) => if index >= length {
                    None
                } else {
                    match schema.spec_access(element) {
                        Some(a) => match schema.spec_layout(a.layout) {
                            Some(el) => if index * el.size_bytes <= u64::MAX && length * el.size_bytes <= u64::MAX {
                                Some((a, (index * el.size_bytes) as u64, Some((length * el.size_bytes) as u64)))
                            } else {
                                None
                            },
                            None => None,
                        },
                        None => None,
                    }
                },
                _ => None,
            }
        },
        VirObjectPathSegment::Variant(_) => None,
    }
}

/// The walk state after segment `segment`, the `i`-th of the path.
pub open spec fn walk_step(schema: VirMemorySchema, st: WalkState, segment: VirObjectPathSegment, i: int) -> Option<WalkState> {
    match segment {
        VirObjectPathSegment::Variant(id) => if st.3 is Some {
            None
        } else {
            match schema.spec_kind(st.0.ty) {
                Some(VirMemoryTypeKind::Enum { variants }) => if variants@.contains(id) && schema.spec_variant(id) is Some
                    && schema.spec_variant(id)->0.owner == st.0.ty {
                    Some((st.0, st.1, st.2, Some(id), st.4, st.5, st.6))
                } else {
                    None
                },
                _ => None,
            }
        },
        _ => match walk_target(schema, st, segment) {
            Some((a, delta, array_size)) => match schema.spec_layout(a.layout) {
                Some(al) => if delta + al.size_bytes > u64::MAX || delta + al.size_bytes > st.2 || st.1 + delta > u64::MAX {
                    None
                } else {
                    let offset = (st.1 + delta) as u64;
                    match array_size {
                        Some(d) => Some((a, offset, al.size_bytes, None, st.1, d, i)),
                        None => Some((a, offset, al.size_bytes, None, offset, al.size_bytes, i + 1)),
                    }
                },
                None => None,
            },
            None => None,
        },
    }
}

/// The walk state after the first `n` segments of `path`.
pub open spec fn walk(schema: VirMemorySchema, root: VirMemoryAccess, path: Seq<VirObjectPathSegment>, n: int) -> Option<WalkState>
    decreases n,
{
    if n <= 0 {
        walk_start(schema, root)
    } else {
        match walk(schema, root, path, n - 1) {
            Some(st) => walk_step(schema, st, path[n - 1], n - 1),
            None => None,
        }
    }
}

/// The subobject that `path` names within `root`, as a walk state: none
/// where the root does not resolve, the path is too deep, a segment does not
/// apply, or a variant is left without a field.
pub open spec fn spec_subobject(schema: VirMemorySchema, root: VirMemoryAccess, path: Seq<VirObjectPathSegment>) -> Option<WalkState> {
    if !schema.spec_resolves_access(root) || path.len() > VIR_OBJECT_SHAPE_MAX_DEPTH {
        None
    } else {
        match walk(schema, root, path, path.len() as int) {
            Some(st) => if st.3 is Some {
                None
            } else {
                Some(st)
            },
            None => None,
        }
    }
}

/// A walk that fails stays failed.
pub proof fn lemma_walk_fails_on(schema: VirMemorySchema, root: VirMemoryAccess, path: Seq<VirObjectPathSegment>, n: int, m: int)
    requires
        n <= m,
        walk(schema, root, path, n) is None,
    ensures
        walk(schema, root, path, m) is None,
    decreases m - n,
{
    if n < m {
        lemma_walk_fails_on(schema, root, path, n, m - 1);
    }
}

/// One more segment of the walk; a failure there fails the whole walk.
pub proof fn lemma_walk_next(schema: VirMemorySchema, root: VirMemoryAccess, path: Seq<VirObjectPathSegment>, i: int)
    requires
        0 <= i < path.len(),
        schema.spec_resolves_access(root),
        path.len() <= VIR_OBJECT_SHAPE_MAX_DEPTH,
    ensures
        walk(schema, root, path, i + 1) == match walk(schema, root, path, i) {
            Some(st) => walk_step(schema, st, path[i], i),
            None => None,
        },
        walk(schema, root, path, i + 1) is None ==> spec_subobject(schema, root, path) is None,
{
    if walk(schema, root, path, i + 1) is None {
        lemma_walk_fails_on(schema, root, path, i + 1, path.len() as int);
    }
}

/// `r` is what resolving `path` within `root` gives.
pub open spec fn subobject_result(schema: VirMemorySchema, root: VirMemoryAccess, path: Seq<VirObjectPathSegment>, r: Option<VirSubobject>) -> bool {
    match spec_subobject(schema, root, path) {
        Some(st) => r matches Some(o) && subobject_is(o, st, path) && o.spec_path() == path,
        None => r is None,
    }
}

/// The first variant of `variants`, from position `i` on, that has `field`.
pub open spec fn first_variant_with(schema: VirMemorySchema, variants: Seq<VirVariantId>, field: VirFieldId, i: int) -> Option<VirVariantId>
    decreases variants.len() - i,
{
    if 0 <= i < variants.len() {
        if schema.spec_variant(variants[i]) matches Some(v) && v.fields@.contains(field) {
            Some(variants[i])
        } else {
            first_variant_with(schema, variants, field, i + 1)
        }
    } else {
        None
    }
}

/// Leaf `c` of `shape` has access `leaf` and starts at `offset`.
pub open spec fn leaf_candidate(shape: VirObjectShape, leaf: VirMemoryAccess, offset: u64, c: int) -> bool {
    &&& 0 <= c < shape.spec_leaves().len()
    &&& shape.spec_leaves()[c].spec_access() == leaf
    &&& shape.spec_leaves()[c].spec_bytes().spec_start_bytes() == offset
}

/// Leaf `c` is the one leaf of `shape` with access `leaf` at `offset`.
pub open spec fn unique_leaf(shape: VirObjectShape, leaf: VirMemoryAccess, offset: u64, c: int) -> bool {
    &&& leaf_candidate(shape, leaf, offset, c)
    &&& forall|d: int| d != c ==> !#[trigger] leaf_candidate(shape, leaf, offset, d)
}

/// `r` is what `leaf_subobject` gives for the object of shape `shape`: the
/// subobject along the path of the one matching leaf, or none where no leaf
/// or more than one matches.
pub open spec fn leaf_result(
    schema: VirMemorySchema,
    owner: VirMemoryAccess,
    leaf: VirMemoryAccess,
    offset: u64,
    shape: VirObjectShape,
    r: Option<VirSubobject>,
) -> bool {
    ||| exists|c: int| #[trigger] unique_leaf(shape, leaf, offset, c) && subobject_result(
        schema,
        owner,
        shape.spec_leaves()[c].spec_path().spec_segments(),
        r,
    )
    ||| (forall|c: int| !#[trigger] unique_leaf(shape, leaf, offset, c)) && r is None
}

/// `o` is the subobject of walk state `st` along `path`.
pub open spec fn subobject_is(o: VirSubobject, st: WalkState, path: Seq<VirObjectPathSegment>) -> bool {
    &&& o.spec_access() == st.0
    &&& o.spec_offset_bytes() == st.1
    &&& o.spec_size_bytes() == st.2
    &&& o.spec_domain_offset_bytes() == st.4
    &&& o.spec_domain_size_bytes() == st.5
    &&& 0 <= st.6 <= path.len()
    &&& o.spec_domain_path() == path.take(st.6)
}

/// `o` lies inside its root object and inside its own arithmetic domain.
pub open spec fn subobject_contained(schema: VirMemorySchema, root: VirMemoryAccess, o: VirSubobject) -> bool {
    &&& o.spec_root() == root
    &&& schema.spec_layout(root.layout) matches Some(rl) && o.spec_offset_bytes() + o.spec_size_bytes() <= rl.size_bytes
    &&& schema.spec_layout(o.spec_access().layout) matches Some(l) && l.size_bytes == o.spec_size_bytes()
    &&& o.spec_domain_offset_bytes() <= o.spec_offset_bytes()
    &&& o.spec_offset_bytes() + o.spec_size_bytes() <= o.spec_domain_offset_bytes() + o.spec_domain_size_bytes()
}

fn copy_path_segments(s: &Vec<VirObjectPathSegment>) -> (r: Vec<VirObjectPathSegment>)
    ensures
        r@ == s@,
{
    let mut out: Vec<VirObjectPathSegment> = Vec::new();
    let mut i: usize = 0;
    while i < s.len()
        invariant
            0 <= i <= s.len(),
            out@ == s@.take(i as int),
        decreases s.len() - i,
    {
        out.push(s[i]);
        assert(s@.take(i + 1) == s@.take(i as int).push(s@[i as int]));
        i = i + 1;
    }
    assert(s@.take(s.len() as int) == s@);
    out
}

impl VirMemorySchema {
    /// Resolves only the requested path, in O(path length), without enumerating
    /// array elements. A variant selector must be followed by its actual field.
    /// A valid path/layout establishes neither active variant nor live storage.
    pub fn subobject(&self, root: VirMemoryAccess, path: &[VirObjectPathSegment]) -> (r: Option<VirSubobject>)
        ensures
            !self.spec_resolves_access(root) || path@.len() > VIR_OBJECT_SHAPE_MAX_DEPTH ==> r is None,
            self.spec_resolves_access(root) && path@.len() == 0 ==> (r matches Some(o) && o.spec_access() == root
                && o.spec_offset_bytes() == 0 && o.spec_domain_offset_bytes() == 0
                && o.spec_domain_size_bytes() == o.spec_size_bytes() && o.spec_domain_path().len() == 0),
            r matches Some(o) ==> o.spec_path() == path@ && subobject_contained(*self, root, o),
            match spec_subobject(*self, root, path@) {
                Some(st) => r matches Some(o) && subobject_is(o, st, path@),
                None => r is None,
            },
    {
        if !self.resolves_access(root) || path.len() > VIR_OBJECT_SHAPE_MAX_DEPTH {
            return None;
        }
        let root_size = match self.layout(root.layout) {
            Some(l) => l.size_bytes,
            None => return None,
        };
        let mut object = VirSubobject {
            root,
            path: Vec::new(),
            access: root,
            offset_bytes: 0,
            size_bytes: root_size,
            domain_path: Vec::new(),
            domain_offset_bytes: 0,
            domain_size_bytes: root_size,
        };
        proof {
            assert(path@.take(0) =~= object.domain_path@);
        }
        let mut variant: Option<crate::ids::VirVariantId> = None;
        let mut i: usize = 0;
        while i < path.len()
            invariant
                0 <= i <= path@.len(),
                object.path@ == path@.take(i as int),
                subobject_contained(*self, root, object),
                i == 0 ==> (object.access == root && object.offset_bytes == 0 && object.domain_offset_bytes == 0
                    && object.domain_size_bytes == object.size_bytes && object.domain_path@.len() == 0 && variant is None),
                self.spec_layout(root.layout) matches Some(rl) && rl.size_bytes == root_size,
                self.spec_resolves_access(root),
                path@.len() <= VIR_OBJECT_SHAPE_MAX_DEPTH,
                walk(*self, root, path@, i as int) is Some,
                (walk(*self, root, path@, i as int)->0).3 == variant,
                subobject_is(object, walk(*self, root, path@, i as int)->0, path@),
            decreases path.len() - i,
        {
            let segment = path[i];
            let owner = object.access;
            let ghost before = object.path@;
            proof {
                assert(path@.take(i + 1) == path@.take(i as int).push(segment));
                lemma_walk_next(*self, root, path@, i as int);
            }
            let (access, delta, array_domain_size): (VirMemoryAccess, u64, Option<u64>) = match segment {
                VirObjectPathSegment::Variant(id) => {
                    if variant.is_some() {
                        return None;
                    }
                    let variants = match self.kind(owner.ty) {
                        Some(VirMemoryTypeKind::Enum { variants }) => variants,
                        _ => return None,
                    };
                    if !crate::memory::contains_variant_id(variants, id) {
                        return None;
                    }
                    match self.variant(id) {
                        Some(v) => if v.owner != owner.ty {
                            return None;
                        },
                        None => return None,
                    }
                    variant = Some(id);
                    object.path.push(segment);
                    i = i + 1;
                    continue;
                },
                VirObjectPathSegment::Field(id) => {
                    let field = match self.field(id) {
                        Some(f) => f,
                        None => return None,
                    };
                    if field.owner != owner.ty {
                        return None;
                    }
                    let layout = match self.layout(owner.layout) {
                        Some(l) => l,
                        None => return None,
                    };
                    let offset = match variant {
                        Some(vid) => {
                            variant = None;
                            match self.variant(vid) {
                                Some(v) => if !crate::memory::contains_field_id(&v.fields, field.id) {
                                    return None;
                                },
                                None => return None,
                            }
                            let cases = match &layout.variants {
                                Some(vl) => &vl.cases,
                                None => return None,
                            };
                            let case = match crate::object_shape::case_layout_index(cases, vid) {
                                Some(c) => &cases[c],
                                None => return None,
                            };
                            let field_offset = match crate::object_shape::field_layout_for(&case.fields, field.id) {
                                Some(fl) => fl.offset_bytes,
                                None => return None,
                            };
                            match case.payload_offset_bytes.checked_add(field_offset) {
                                Some(o) => o,
                                None => return None,
                            }
                        },
                        None => {
                            match self.kind(owner.ty) {
                                Some(VirMemoryTypeKind::Struct { fields }) => if !crate::memory::contains_field_id(fields, id) {
                                    return None;
                                },
                                _ => return None,
                            }
                            match crate::object_shape::field_layout_for(&layout.fields, id) {
                                Some(fl) => fl.offset_bytes,
                                None => return None,
                            }
                        },
                    };
                    let access = match self.access(field.ty) {
                        Some(a) => a,
                        None => return None,
                    };
                    (access, offset, None)
                },
                VirObjectPathSegment::TupleElement(index) => {
                    if variant.is_some() {
                        return None;
                    }
                    match self.tuple_element_projection(owner, index) {
                        Some((access, offset)) => (access, offset, None),
                        None => return None,
                    }
                },
                VirObjectPathSegment::ArrayElement(index) => {
                    if variant.is_some() {
                        return None;
                    }
                    let (element, length) = match self.kind(owner.ty) {
                        Some(VirMemoryTypeKind::Array { element, length }) => (*element, *length),
                        _ => return None,
                    };
                    if index >= length {
                        return None;
                    }
                    let access = match self.access(element) {
                        Some(a) => a,
                        None => return None,
                    };
                    let element_size = match self.layout(access.layout) {
                        Some(l) => l.size_bytes,
                        None => return None,
                    };
                    let delta = match index.checked_mul(element_size) {
                        Some(d) => d,
                        None => return None,
                    };
                    let domain = match length.checked_mul(element_size) {
                        Some(d) => d,
                        None => return None,
                    };
                    proof {
                        vstd::arithmetic::mul::lemma_mul_inequality(index + 1, length as int, element_size as int);
                        vstd::arithmetic::mul::lemma_mul_is_distributive_add(element_size as int, index as int, 1);
                        vstd::arithmetic::mul::lemma_mul_is_commutative(element_size as int, index + 1);
                        vstd::arithmetic::mul::lemma_mul_is_commutative(element_size as int, length as int);
                        vstd::arithmetic::mul::lemma_mul_is_commutative(element_size as int, index as int);
                        assert(delta + element_size <= domain);
                    }
                    (access, delta, Some(domain))
                },
            };
            let size = match self.layout(access.layout) {
                Some(l) => l.size_bytes,
                None => return None,
            };
            match delta.checked_add(size) {
                Some(end) => if end > object.size_bytes {
                    return None;
                },
                None => return None,
            }
            let new_offset = match object.offset_bytes.checked_add(delta) {
                Some(o) => o,
                None => return None,
            };
            match array_domain_size {
                Some(array_size) => {
                    object.domain_path = copy_path_segments(&object.path);
                    object.domain_offset_bytes = object.offset_bytes;
                    object.domain_size_bytes = array_size;
                },
                None => {},
            }
            object.path.push(segment);
            object.offset_bytes = new_offset;
            object.access = access;
            object.size_bytes = size;
            if array_domain_size.is_none() {
                object.domain_path = copy_path_segments(&object.path);
                object.domain_offset_bytes = object.offset_bytes;
                object.domain_size_bytes = size;
            }
            i = i + 1;
        }
        if variant.is_some() {
            return None;
        }
        assert(path@.take(path@.len() as int) == path@);
        Some(object)
    }

    /// The subobject of `field` within `owner`, through its variant when the
    /// owner is an enum.
    pub fn field_subobject(&self, owner: VirMemoryAccess, field: VirFieldId) -> (r: Option<VirSubobject>)
        ensures
            !(self.spec_kind(owner.ty) matches Some(VirMemoryTypeKind::Struct { .. }))
                && !(self.spec_kind(owner.ty) matches Some(VirMemoryTypeKind::Enum { .. })) ==> r is None,
            r matches Some(o) ==> subobject_contained(*self, owner, o) && o.spec_path().len() > 0
                && o.spec_path().last() == VirObjectPathSegment::Field(field),
            self.spec_kind(owner.ty) matches Some(VirMemoryTypeKind::Struct { .. }) && r is Some ==>
                r.unwrap().spec_path() == seq![VirObjectPathSegment::Field(field)],
            match self.spec_kind(owner.ty) {
                Some(VirMemoryTypeKind::Struct { .. }) => subobject_result(*self, owner, seq![VirObjectPathSegment::Field(field)], r),
                Some(VirMemoryTypeKind::Enum { variants }) => match first_variant_with(*self, variants@, field, 0) {
                    Some(v) => subobject_result(
                        *self,
                        owner,
                        seq![VirObjectPathSegment::Variant(v), VirObjectPathSegment::Field(field)],
                        r,
                    ),
                    None => r is None,
                },
                _ => r is None,
            },
    {
        let path: Vec<VirObjectPathSegment> = match self.kind(owner.ty) {
            Some(VirMemoryTypeKind::Struct { .. }) => vec![VirObjectPathSegment::Field(field)],
            Some(VirMemoryTypeKind::Enum { variants }) => {
                let mut found: Option<crate::ids::VirVariantId> = None;
                let mut k: usize = 0;
                while k < variants.len()
                    invariant_except_break
                        found is None,
                        first_variant_with(*self, variants@, field, 0) == first_variant_with(*self, variants@, field, k as int),
                    invariant
                        0 <= k <= variants@.len(),
                    ensures
                        found matches Some(v) ==> first_variant_with(*self, variants@, field, 0) == Some(v),
                        found is None ==> first_variant_with(*self, variants@, field, 0) is None,
                    decreases variants.len() - k,
                {
                    let id = variants[k];
                    let has = match self.variant(id) {
                        Some(v) => crate::memory::contains_field_id(&v.fields, field),
                        None => false,
                    };
                    if has {
                        found = Some(id);
                        break;
                    }
                    k = k + 1;
                }
                match found {
                    Some(v) => vec![VirObjectPathSegment::Variant(v), VirObjectPathSegment::Field(field)],
                    None => return None,
                }
            },
            _ => return None,
        };
        let r = self.subobject(owner, path.as_slice());
        proof {
            match self.spec_kind(owner.ty) {
                Some(VirMemoryTypeKind::Struct { .. }) => {
                    assert(path@ =~= seq![VirObjectPathSegment::Field(field)]);
                },
                Some(VirMemoryTypeKind::Enum { variants }) => {
                    let v = first_variant_with(*self, variants@, field, 0)->0;
                    assert(path@ =~= seq![VirObjectPathSegment::Variant(v), VirObjectPathSegment::Field(field)]);
                },
                _ => {},
            }
            if r is Some {
                assert(path@.last() == VirObjectPathSegment::Field(field));
            }
        }
        r
    }

    /// ABI leaf addresses have no explicit path. Return a path only when it is
    /// unambiguous; same-address enum alternatives require an unresolved recipe.
    pub fn leaf_subobject(&self, owner: VirMemoryAccess, leaf: VirMemoryAccess, offset: u64) -> (r: Option<VirSubobject>)
        ensures
            r matches Some(o) ==> subobject_contained(*self, owner, o),
            r is None || exists|shape: VirObjectShape|
                #[trigger] shape_matches(*self, owner, shape) && leaf_result(*self, owner, leaf, offset, shape, r),
            crate::object_shape::shape_promised(*self, owner) ==> exists|shape: VirObjectShape|
                #[trigger] shape_matches(*self, owner, shape) && leaf_result(*self, owner, leaf, offset, shape, r),
    {
        let shape = match self.object_shape(owner) {
            Ok(s) => s,
            Err(_) => return None,
        };
        let leaves = shape.leaves();
        let mut candidate: Option<usize> = None;
        let mut i: usize = 0;
        while i < leaves.len()
            invariant
                0 <= i <= leaves@.len(),
                leaves@ == shape.spec_leaves(),
                shape_matches(*self, owner, shape),
                candidate matches Some(c) ==> c < i && leaf_candidate(shape, leaf, offset, c as int),
                forall|d: int| 0 <= d < i && #[trigger] leaf_candidate(shape, leaf, offset, d) ==> candidate == Some(d as usize),
            decreases leaves.len() - i,
        {
            if leaves[i].access() == leaf && leaves[i].bytes().start_bytes() == offset {
                if candidate.is_some() {
                    proof {
                        let c = candidate->0 as int;
                        assert(leaf_candidate(shape, leaf, offset, i as int));
                        assert forall|e: int| !#[trigger] unique_leaf(shape, leaf, offset, e) by {
                            if unique_leaf(shape, leaf, offset, e) {
                                if e != c {
                                    assert(!leaf_candidate(shape, leaf, offset, c));
                                } else {
                                    assert(!leaf_candidate(shape, leaf, offset, i as int));
                                }
                            }
                        }
                        assert(leaf_result(*self, owner, leaf, offset, shape, None));
                    }
                    return None;
                }
                candidate = Some(i);
            }
            i = i + 1;
        }
        match candidate {
            Some(c) => {
                let r = self.subobject(owner, leaves[c].path().segments());
                proof {
                    assert forall|d: int| d != c implies !#[trigger] leaf_candidate(shape, leaf, offset, d) by {
                        if leaf_candidate(shape, leaf, offset, d) {
                            assert(0 <= d < i);
                        }
                    }
                    assert(unique_leaf(shape, leaf, offset, c as int));
                    assert(leaf_result(*self, owner, leaf, offset, shape, r));
                }
                r
            },
            None => {
                proof {
                    assert forall|e: int| !#[trigger] unique_leaf(shape, leaf, offset, e) by {
                        if unique_leaf(shape, leaf, offset, e) {
                            assert(leaf_candidate(shape, leaf, offset, e));
                        }
                    }
                    assert(leaf_result(*self, owner, leaf, offset, shape, None));
                }
                None
            },
        }
    }
}

} // verus!
