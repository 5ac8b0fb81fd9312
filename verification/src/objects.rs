//! Whole-object effects of the interpreter: which bytes of an object are
//! active under its enum tags, what a complete object value requires, and
//! the transfers, drops and resets built on them.

use std::collections::{BTreeMap, BTreeSet};

use vstd::prelude::*;

use crate::byte_range::VirObjectByteRange;
use vstd::std_specs::btree::increasing_seq;
use vstd::std_specs::cmp::OrdSpec;
use crate::ids::{ByteSpan, VirVariantId};
use crate::memory::{VirMemoryAccess, VirMemorySchema, VirMemoryTypeKind};
use crate::object_shape::{VirObjectLeaf, VirObjectPathSegment, VirObjectShape, VirObjectVariantShape};
use crate::runtime::{
    Interpreter, RuntimeInactiveVariant, RuntimeOwnedPayload, VirExecutionError, VirExecutionErrorKind, VirRuntimePointer, case_at, case_with_discriminant, error,
    initialized_read, payload_key, spec_decode_u64,
};

verus! {

broadcast use {vstd::laws_cmp::group_laws_cmp, vstd::std_specs::btree::group_btree_axioms};

/// Relative offset `o` lies in `range`.
pub open spec fn in_range(range: VirObjectByteRange, o: u64) -> bool {
    range.spec_start_bytes() <= o < range.spec_end_bytes()
}

/// Index of the first case of `cases` at `path` for `enum_access` that is
/// variant `variant`.
pub open spec fn case_of_variant(
    cases: Seq<VirObjectVariantShape>,
    path: Seq<VirObjectPathSegment>,
    enum_access: VirMemoryAccess,
    variant: VirVariantId,
) -> Option<int>
    decreases cases.len(),
{
    if cases.len() == 0 {
        None
    } else {
        match case_of_variant(cases.drop_last(), path, enum_access, variant) {
            Some(i) => Some(i),
            None => if cases.last().spec_path().spec_segments() == path && cases.last().spec_enum_access() == enum_access
                && cases.last().spec_variant() == variant {
                Some(cases.len() - 1)
            } else {
                None
            },
        }
    }
}

impl Interpreter {
    /// Whether the enum case `i` of `shape` sits on an active path, and if
    /// so the tag bytes of the case its tag selects.
    pub open spec fn site_tag(&self, memory: VirMemorySchema, pointer: VirRuntimePointer, shape: VirObjectShape, i: int) -> Option<
        VirObjectByteRange,
    > {
        let cases = shape.spec_variants();
        let path = cases[i].spec_path().spec_segments();
        if self.inactive_from(memory, pointer, shape, path, 0) == Ok::<Option<RuntimeInactiveVariant>, VirExecutionErrorKind>(None) {
            match self.active_variant(memory, pointer, shape, path, cases[i].spec_enum_access()) {
                Ok(v) => match case_of_variant(cases, path, cases[i].spec_enum_access(), v) {
                    Some(c) => Some(cases[c].spec_tag()),
                    None => None,
                },
                Err(_) => None,
            }
        } else {
            None
        }
    }

    /// The fault met when deciding whether the site of case `i` is active
    /// and which variant it holds.
    pub open spec fn site_fault(&self, memory: VirMemorySchema, pointer: VirRuntimePointer, shape: VirObjectShape, i: int) -> Option<
        VirExecutionErrorKind,
    > {
        let cases = shape.spec_variants();
        let path = cases[i].spec_path().spec_segments();
        match self.inactive_from(memory, pointer, shape, path, 0) {
            Err(k) => Some(k),
            Ok(Some(_)) => None,
            Ok(None) => match self.active_variant(memory, pointer, shape, path, cases[i].spec_enum_access()) {
                Err(k) => Some(k),
                Ok(_) => None,
            },
        }
    }

    /// Leaf `j` of `shape` lies on an active path.
    pub open spec fn leaf_active(&self, memory: VirMemorySchema, pointer: VirRuntimePointer, shape: VirObjectShape, j: int) -> bool {
        self.inactive_from(memory, pointer, shape, shape.spec_leaves()[j].spec_path().spec_segments(), 0) == Ok::<
            Option<RuntimeInactiveVariant>,
            VirExecutionErrorKind,
        >(None)
    }

    /// The fault met when deciding whether leaf `j` is active.
    pub open spec fn leaf_fault(&self, memory: VirMemorySchema, pointer: VirRuntimePointer, shape: VirObjectShape, j: int) -> Option<
        VirExecutionErrorKind,
    > {
        match self.inactive_from(memory, pointer, shape, shape.spec_leaves()[j].spec_path().spec_segments(), 0) {
            Err(k) => Some(k),
            Ok(_) => None,
        }
    }

    /// The first fault among the first `n` enum sites, in shape order.
    pub open spec fn first_site_fault(&self, memory: VirMemorySchema, pointer: VirRuntimePointer, shape: VirObjectShape, n: int) -> Option<
        VirExecutionErrorKind,
    >
        decreases n,
    {
        if n <= 0 {
            None
        } else {
            match self.first_site_fault(memory, pointer, shape, n - 1) {
                Some(k) => Some(k),
                None => self.site_fault(memory, pointer, shape, n - 1),
            }
        }
    }

    /// The first fault among the first `n` leaves, in shape order.
    pub open spec fn first_leaf_fault(&self, memory: VirMemorySchema, pointer: VirRuntimePointer, shape: VirObjectShape, n: int) -> Option<
        VirExecutionErrorKind,
    >
        decreases n,
    {
        if n <= 0 {
            None
        } else {
            match self.first_leaf_fault(memory, pointer, shape, n - 1) {
                Some(k) => Some(k),
                None => self.leaf_fault(memory, pointer, shape, n - 1),
            }
        }
    }

    /// The fault met while collecting the active offsets of the object at
    /// `pointer`: the enum sites first, then the leaves.
    pub open spec fn offsets_fault(&self, memory: VirMemorySchema, pointer: VirRuntimePointer, shape: VirObjectShape) -> Option<
        VirExecutionErrorKind,
    > {
        match self.first_site_fault(memory, pointer, shape, shape.spec_variants().len() as int) {
            Some(k) => Some(k),
            None => self.first_leaf_fault(memory, pointer, shape, shape.spec_leaves().len() as int),
        }
    }

    /// Relative offsets of the object at `pointer` that carry its current
    /// value: the tag of every enum on an active path and every leaf on an
    /// active path.
    #[verifier::opaque]
    pub open spec fn active_offsets(&self, memory: VirMemorySchema, pointer: VirRuntimePointer, shape: VirObjectShape) -> Set<u64> {
        Set::new(
            |o: u64|
                (exists|i: int|
                    0 <= i < shape.spec_variants().len() && #[trigger] self.site_tag(memory, pointer, shape, i) is Some && in_range(
                        self.site_tag(memory, pointer, shape, i)->0,
                        o,
                    )) || (exists|j: int|
                    0 <= j < shape.spec_leaves().len() && #[trigger] self.leaf_active(memory, pointer, shape, j) && in_range(
                        shape.spec_leaves()[j].spec_bytes(),
                        o,
                    )),
        )
    }
}

/// The case that decides a variant exists among the cases at its site.
pub proof fn lemma_case_of_active_variant(
    s: Interpreter,
    memory: VirMemorySchema,
    pointer: VirRuntimePointer,
    shape: VirObjectShape,
    path: Seq<VirObjectPathSegment>,
    enum_access: VirMemoryAccess,
)
    requires
        s.active_variant(memory, pointer, shape, path, enum_access) is Ok,
    ensures
        case_of_variant(shape.spec_variants(), path, enum_access, s.active_variant(memory, pointer, shape, path, enum_access)->Ok_0)
            is Some,
{
    let cases = shape.spec_variants();
    let v = s.active_variant(memory, pointer, shape, path, enum_access)->Ok_0;
    let c = case_at(cases, path, enum_access)->0;
    let tag = cases[c].spec_tag();
    let tag_start = (pointer.offset_bytes + tag.spec_start_bytes()) as u64;
    let bytes = initialized_read(
        s.allocations@[pointer.allocation].bytes@,
        pointer.allocation,
        tag_start,
        (tag.spec_end_bytes() - tag.spec_start_bytes()) as u64,
        enum_access,
        true,
    )->Ok_0;
    let d = spec_decode_u64(bytes, memory.target.endianness)->0;
    lemma_discriminant_case_found(cases, path, enum_access, d);
    let k = case_with_discriminant(cases, path, enum_access, d)->0;
    lemma_case_of_variant_exists(cases, path, enum_access, v, k);
}

/// The case found by discriminant is at `path` for `enum_access`.
pub proof fn lemma_discriminant_case_found(
    cases: Seq<VirObjectVariantShape>,
    path: Seq<VirObjectPathSegment>,
    enum_access: VirMemoryAccess,
    d: u64,
)
    requires
        case_with_discriminant(cases, path, enum_access, d) is Some,
    ensures
        0 <= case_with_discriminant(cases, path, enum_access, d)->0 < cases.len(),
        cases[case_with_discriminant(cases, path, enum_access, d)->0].spec_path().spec_segments() == path,
        cases[case_with_discriminant(cases, path, enum_access, d)->0].spec_enum_access() == enum_access,
    decreases cases.len(),
{
    if cases.len() > 0 && case_with_discriminant(cases.drop_last(), path, enum_access, d) is Some {
        lemma_discriminant_case_found(cases.drop_last(), path, enum_access, d);
    }
}

/// A case at the site with the variant makes the search succeed.
pub proof fn lemma_case_of_variant_exists(
    cases: Seq<VirObjectVariantShape>,
    path: Seq<VirObjectPathSegment>,
    enum_access: VirMemoryAccess,
    variant: VirVariantId,
    k: int,
)
    requires
        0 <= k < cases.len(),
        cases[k].spec_path().spec_segments() == path,
        cases[k].spec_enum_access() == enum_access,
        cases[k].spec_variant() == variant,
    ensures
        case_of_variant(cases, path, enum_access, variant) is Some,
    decreases cases.len(),
{
    if k < cases.len() - 1 {
        lemma_case_of_variant_exists(cases.drop_last(), path, enum_access, variant, k);
    }
}

/// `a` comes before `b` in the order of `T`.
pub open spec fn ordered_before<T: Ord>(a: T, b: T) -> bool {
    a.cmp_spec(&b) is Less
}

/// The keys a `BTreeSet` of offsets hands out come in increasing order.
pub proof fn lemma_increasing_offsets(keys: Seq<&u64>)
    requires
        increasing_seq(keys),
    ensures
        forall|a: int, b: int| 0 <= a < b < keys.len() ==> *keys[a] < *keys[b],
{
    assert(vstd::laws_cmp::obeys_cmp::<u64>());
    assert(vstd::laws_cmp::obeys_cmp::<&u64>());
    assert forall|a: int, b: int| 0 <= a < b < keys.len() implies *keys[a] < *keys[b] by {
        assert(ordered_before::<&u64>(keys[a], keys[b]));
        assert(ordered_before::<u64>(*keys[a], *keys[b]));
    }
}

/// A fault among the first `n` sites is the first fault among more.
pub proof fn lemma_first_site_fault_stays(s: Interpreter, memory: VirMemorySchema, pointer: VirRuntimePointer, shape: VirObjectShape, n: int, m: int)
    requires
        0 <= n <= m,
        s.first_site_fault(memory, pointer, shape, n) is Some,
    ensures
        s.first_site_fault(memory, pointer, shape, m) == s.first_site_fault(memory, pointer, shape, n),
    decreases m - n,
{
    if n < m {
        lemma_first_site_fault_stays(s, memory, pointer, shape, n, m - 1);
    }
}

/// A fault among the first `n` leaves is the first fault among more.
pub proof fn lemma_first_leaf_fault_stays(s: Interpreter, memory: VirMemorySchema, pointer: VirRuntimePointer, shape: VirObjectShape, n: int, m: int)
    requires
        0 <= n <= m,
        s.first_leaf_fault(memory, pointer, shape, n) is Some,
    ensures
        s.first_leaf_fault(memory, pointer, shape, m) == s.first_leaf_fault(memory, pointer, shape, n),
    decreases m - n,
{
    if n < m {
        lemma_first_leaf_fault_stays(s, memory, pointer, shape, n, m - 1);
    }
}

/// Adds every offset of `range` to `set`.
pub fn insert_range(set: &mut BTreeSet<u64>, range: VirObjectByteRange)
    ensures
        forall|o: u64| #[trigger] final(set)@.contains(o) <==> old(set)@.contains(o) || in_range(range, o),
{
    let end = range.end_bytes();
    let mut o = range.start_bytes();
    while o < end
        invariant
            range.spec_start_bytes() <= o <= end,
            end == range.spec_end_bytes(),
            forall|x: u64| #[trigger] set@.contains(x) <==> old(set)@.contains(x) || (range.spec_start_bytes() <= x < o),
        decreases end - o,
    {
        set.insert(o);
        o = o + 1;
    }
}

impl Interpreter {
    /// The relative offsets of the object at `pointer` that carry its current
    /// value under its enum tags.
    pub fn active_object_offsets(
        &self,
        memory: &VirMemorySchema,
        pointer: VirRuntimePointer,
        shape: &VirObjectShape,
        source_span: ByteSpan,
    ) -> (r: Result<BTreeSet<u64>, VirExecutionError>)
        ensures
            match self.offsets_fault(*memory, pointer, *shape) {
                Some(k) => r matches Err(e) && e.spec_kind() == k,
                None => r matches Ok(set) && set@ == self.active_offsets(*memory, pointer, *shape),
            },
    {
        let ghost nv = shape.spec_variants().len() as int;
        let ghost nl = shape.spec_leaves().len() as int;
        let mut offsets: BTreeSet<u64> = BTreeSet::new();
        let variants = shape.variants();
        let mut i: usize = 0;
        while i < variants.len()
            invariant
                0 <= i <= variants@.len(),
                variants@ == shape.spec_variants(),
                nv == shape.spec_variants().len(),
                nl == shape.spec_leaves().len(),
                self.first_site_fault(*memory, pointer, *shape, i as int) is None,
                forall|o: u64| #[trigger] offsets@.contains(o) <==> exists|x: int|
                    0 <= x < i && #[trigger] self.site_tag(*memory, pointer, *shape, x) is Some && in_range(
                        self.site_tag(*memory, pointer, *shape, x)->0,
                        o,
                    ),
            decreases variants.len() - i,
        {
            let case = &variants[i];
            let ghost before = offsets@;
            match self.path_inactive_variant(memory, pointer, shape, case.path(), source_span) {
                Err(e) => {
                    proof {
                        assert(self.first_site_fault(*memory, pointer, *shape, i + 1) == Some(e.spec_kind()));
                        lemma_first_site_fault_stays(*self, *memory, pointer, *shape, i + 1, nv);
                    }
                    return Err(e);
                },
                Ok(Some(_)) => {
                    proof {
                        assert(self.site_tag(*memory, pointer, *shape, i as int) is None);
                        assert forall|o: u64| #[trigger] offsets@.contains(o) <==> exists|x: int|
                            0 <= x < i + 1 && #[trigger] self.site_tag(*memory, pointer, *shape, x) is Some && in_range(
                                self.site_tag(*memory, pointer, *shape, x)->0,
                                o,
                            ) by {
                            if exists|x: int| 0 <= x < i + 1 && #[trigger] self.site_tag(*memory, pointer, *shape, x) is Some && in_range(
                                self.site_tag(*memory, pointer, *shape, x)->0,
                                o,
                            ) {
                                let x = choose|x: int| 0 <= x < i + 1 && #[trigger] self.site_tag(*memory, pointer, *shape, x) is Some && in_range(
                                    self.site_tag(*memory, pointer, *shape, x)->0,
                                    o,
                                );
                                assert(x < i);
                            }
                        }
                    }
                },
                Ok(None) => {
                    let active = self.read_active_variant(memory, pointer, shape, case.path(), case.enum_access(), source_span);
                    let active = match active {
                        Ok(v) => v,
                        Err(e) => {
                            proof {
                                assert(self.first_site_fault(*memory, pointer, *shape, i + 1) == Some(e.spec_kind()));
                                lemma_first_site_fault_stays(*self, *memory, pointer, *shape, i + 1, nv);
                            }
                            return Err(e);
                        },
                    };
                    proof {
                        lemma_case_of_active_variant(*self, *memory, pointer, *shape, case.spec_path().spec_segments(), case.spec_enum_access());
                    }
                    let mut k: usize = 0;
                    let mut found: Option<usize> = None;
                    while k < variants.len()
                        invariant_except_break
                            found is None,
                            case_of_variant(variants@.take(k as int), case.spec_path().spec_segments(), case.spec_enum_access(), active)
                                is None,
                        invariant
                            0 <= k <= variants@.len(),
                        ensures
                            found matches Some(c) ==> c < variants@.len() && case_of_variant(variants@, case.spec_path().spec_segments(),
                                case.spec_enum_access(), active) == Some(c as int),
                            found is None ==> k == variants@.len() && case_of_variant(variants@.take(k as int), case.spec_path().spec_segments(),
                                case.spec_enum_access(), active) is None,
                        decreases variants.len() - k,
                    {
                        proof {
                            assert(variants@.take(k + 1).drop_last() == variants@.take(k as int));
                        }
                        let candidate = &variants[k];
                        if candidate.path().same(case.path()) && candidate.enum_access() == case.enum_access() && candidate.variant() == active {
                            proof {
                                assert(case_of_variant(variants@.take(k + 1), case.spec_path().spec_segments(), case.spec_enum_access(), active)
                                    == Some(k as int));
                                lemma_case_of_variant_prefix(variants@, case.spec_path().spec_segments(), case.spec_enum_access(), active, k + 1);
                            }
                            found = Some(k);
                            break;
                        }
                        k = k + 1;
                    }
                    proof {
                        if found is None {
                            assert(variants@.take(variants@.len() as int) == variants@);
                        }
                    }
                    let c = match found {
                        Some(c) => c,
                        None => {
                            proof {
                                assert(false);
                            }
                            return Err(error(VirExecutionErrorKind::InvalidRuntimeState, source_span));
                        },
                    };
                    insert_range(&mut offsets, variants[c].tag());
                    proof {
                        let t = self.site_tag(*memory, pointer, *shape, i as int);
                        assert(t == Some(variants@[c as int].spec_tag()));
                        assert forall|o: u64| #[trigger] offsets@.contains(o) <==> exists|x: int|
                            0 <= x < i + 1 && #[trigger] self.site_tag(*memory, pointer, *shape, x) is Some && in_range(
                                self.site_tag(*memory, pointer, *shape, x)->0,
                                o,
                            ) by {
                            if offsets@.contains(o) && !before.contains(o) {
                                assert(self.site_tag(*memory, pointer, *shape, i as int) is Some);
                            }
                            if exists|x: int| 0 <= x < i + 1 && #[trigger] self.site_tag(*memory, pointer, *shape, x) is Some && in_range(
                                self.site_tag(*memory, pointer, *shape, x)->0,
                                o,
                            ) {
                                let x = choose|x: int| 0 <= x < i + 1 && #[trigger] self.site_tag(*memory, pointer, *shape, x) is Some && in_range(
                                    self.site_tag(*memory, pointer, *shape, x)->0,
                                    o,
                                );
                                if x < i {
                                    assert(before.contains(o));
                                }
                            }
                        }
                    }
                },
            }
            i = i + 1;
        }
        let ghost sites = offsets@;
        let leaves = shape.leaves();
        let mut j: usize = 0;
        while j < leaves.len()
            invariant
                0 <= j <= leaves@.len(),
                leaves@ == shape.spec_leaves(),
                variants@ == shape.spec_variants(),
                self.first_site_fault(*memory, pointer, *shape, nv) is None,
                nv == shape.spec_variants().len(),
                nl == shape.spec_leaves().len(),
                self.first_leaf_fault(*memory, pointer, *shape, j as int) is None,
                forall|o: u64| #[trigger] sites.contains(o) <==> exists|x: int|
                    0 <= x < nv && #[trigger] self.site_tag(*memory, pointer, *shape, x) is Some && in_range(
                        self.site_tag(*memory, pointer, *shape, x)->0,
                        o,
                    ),
                forall|o: u64| #[trigger] offsets@.contains(o) <==> sites.contains(o) || exists|y: int|
                    0 <= y < j && #[trigger] self.leaf_active(*memory, pointer, *shape, y) && in_range(leaves@[y].spec_bytes(), o),
            decreases leaves.len() - j,
        {
            let leaf = &leaves[j];
            let ghost before = offsets@;
            match self.path_inactive_variant(memory, pointer, shape, leaf.path(), source_span) {
                Err(e) => {
                    proof {
                        assert(self.first_leaf_fault(*memory, pointer, *shape, j + 1) == Some(e.spec_kind()));
                        lemma_first_leaf_fault_stays(*self, *memory, pointer, *shape, j + 1, nl);
                    }
                    return Err(e);
                },
                Ok(Some(_)) => {
                    proof {
                        assert(!self.leaf_active(*memory, pointer, *shape, j as int));
                        assert forall|o: u64| #[trigger] offsets@.contains(o) <==> sites.contains(o) || exists|y: int|
                            0 <= y < j + 1 && #[trigger] self.leaf_active(*memory, pointer, *shape, y) && in_range(leaves@[y].spec_bytes(), o) by {
                            if exists|y: int| 0 <= y < j + 1 && #[trigger] self.leaf_active(*memory, pointer, *shape, y) && in_range(
                                leaves@[y].spec_bytes(),
                                o,
                            ) {
                                let y = choose|y: int| 0 <= y < j + 1 && #[trigger] self.leaf_active(*memory, pointer, *shape, y) && in_range(
                                    leaves@[y].spec_bytes(),
                                    o,
                                );
                                assert(y < j);
                            }
                        }
                    }
                },
                Ok(None) => {
                    insert_range(&mut offsets, leaf.bytes());
                    proof {
                        assert(self.leaf_active(*memory, pointer, *shape, j as int));
                        assert forall|o: u64| #[trigger] offsets@.contains(o) <==> sites.contains(o) || exists|y: int|
                            0 <= y < j + 1 && #[trigger] self.leaf_active(*memory, pointer, *shape, y) && in_range(leaves@[y].spec_bytes(), o) by {
                            if exists|y: int| 0 <= y < j + 1 && #[trigger] self.leaf_active(*memory, pointer, *shape, y) && in_range(
                                leaves@[y].spec_bytes(),
                                o,
                            ) {
                                let y = choose|y: int| 0 <= y < j + 1 && #[trigger] self.leaf_active(*memory, pointer, *shape, y) && in_range(
                                    leaves@[y].spec_bytes(),
                                    o,
                                );
                                if y < j {
                                    assert(before.contains(o));
                                }
                            }
                        }
                    }
                },
            }
            j = j + 1;
        }
        proof {
            reveal(Interpreter::active_offsets);
            assert(offsets@ =~= self.active_offsets(*memory, pointer, *shape));
        }
        Ok(offsets)
    }
}

/// A case found in a prefix is the one found in the whole sequence.
pub proof fn lemma_case_of_variant_prefix(
    cases: Seq<VirObjectVariantShape>,
    path: Seq<VirObjectPathSegment>,
    enum_access: VirMemoryAccess,
    variant: VirVariantId,
    n: int,
)
    requires
        0 <= n <= cases.len(),
        case_of_variant(cases.take(n), path, enum_access, variant) is Some,
    ensures
        case_of_variant(cases, path, enum_access, variant) == case_of_variant(cases.take(n), path, enum_access, variant),
    decreases cases.len() - n,
{
    if n < cases.len() {
        assert(cases.take(n + 1).drop_last() == cases.take(n));
        lemma_case_of_variant_prefix(cases, path, enum_access, variant, n + 1);
    } else {
        assert(cases.take(n) == cases);
    }
}

/// The byte `o` past `base` is missing: past the address space, or not
/// initialized in `bytes`.
pub open spec fn unset_at(bytes: Map<u64, u8>, base: u64, o: u64) -> bool {
    base + o > u64::MAX || !bytes.contains_key((base + o) as u64)
}

/// The least offset of `offsets` whose byte past `base` is missing.
pub open spec fn least_unset(offsets: Set<u64>, bytes: Map<u64, u8>, base: u64) -> Option<u64> {
    if exists|o: u64| offsets.contains(o) && #[trigger] unset_at(bytes, base, o) {
        Some(
            choose|o: u64|
                offsets.contains(o) && #[trigger] unset_at(bytes, base, o) && forall|p: u64|
                    offsets.contains(p) && p < o ==> !#[trigger] unset_at(bytes, base, p),
        )
    } else {
        None
    }
}

impl Interpreter {
    /// The fault of leaf `j` as a boolean: a bool leaf on an active path must
    /// hold 0 or 1.
    pub open spec fn bool_leaf_fault(&self, memory: VirMemorySchema, pointer: VirRuntimePointer, shape: VirObjectShape, j: int) -> Option<
        VirExecutionErrorKind,
    > {
        let leaf = shape.spec_leaves()[j];
        if memory.spec_kind(leaf.spec_access().ty) matches Some(VirMemoryTypeKind::Bool) {
            match self.inactive_from(memory, pointer, shape, leaf.spec_path().spec_segments(), 0) {
                Err(k) => Some(k),
                Ok(Some(_)) => None,
                Ok(None) => {
                    let absolute = pointer.offset_bytes + leaf.spec_bytes().spec_start_bytes();
                    if absolute > u64::MAX {
                        Some(VirExecutionErrorKind::InvalidRuntimeState)
                    } else {
                        let bytes = self.allocations@[pointer.allocation].bytes@;
                        if bytes.contains_key(absolute as u64) && (bytes[absolute as u64] == 0 || bytes[absolute as u64] == 1) {
                            None
                        } else {
                            Some(
                                VirExecutionErrorKind::InvalidObjectRepresentation {
                                    allocation: pointer.allocation,
                                    offset_bytes: absolute as u64,
                                    access: leaf.spec_access(),
                                },
                            )
                        }
                    }
                },
            }
        } else {
            None
        }
    }

    /// The first boolean fault among the first `n` leaves.
    pub open spec fn first_bool_fault(&self, memory: VirMemorySchema, pointer: VirRuntimePointer, shape: VirObjectShape, n: int) -> Option<
        VirExecutionErrorKind,
    >
        decreases n,
    {
        if n <= 0 {
            None
        } else {
            match self.first_bool_fault(memory, pointer, shape, n - 1) {
                Some(k) => Some(k),
                None => self.bool_leaf_fault(memory, pointer, shape, n - 1),
            }
        }
    }

    /// Why the object at `pointer` holds no complete value on `offsets`, if
    /// it does not: a missing byte (the least one), else a boolean leaf that
    /// holds neither 0 nor 1.
    #[verifier::opaque]
    pub open spec fn value_fault(
        &self,
        memory: VirMemorySchema,
        pointer: VirRuntimePointer,
        shape: VirObjectShape,
        offsets: Set<u64>,
    ) -> Option<VirExecutionErrorKind> {
        if !self.allocations@.contains_key(pointer.allocation) {
            Some(VirExecutionErrorKind::InvalidRuntimeState)
        } else {
            match least_unset(offsets, self.allocations@[pointer.allocation].bytes@, pointer.offset_bytes) {
                Some(o) => if pointer.offset_bytes + o > u64::MAX {
                    Some(VirExecutionErrorKind::InvalidRuntimeState)
                } else {
                    Some(
                        VirExecutionErrorKind::UninitializedObjectLeaf {
                            allocation: pointer.allocation,
                            offset_bytes: (pointer.offset_bytes + o) as u64,
                            access: shape.spec_access(),
                        },
                    )
                },
                None => self.first_bool_fault(memory, pointer, shape, shape.spec_leaves().len() as int),
            }
        }
    }
}

/// A boolean fault among the first `n` leaves is the first among more.
pub proof fn lemma_first_bool_fault_stays(s: Interpreter, memory: VirMemorySchema, pointer: VirRuntimePointer, shape: VirObjectShape, n: int, m: int)
    requires
        0 <= n <= m,
        s.first_bool_fault(memory, pointer, shape, n) is Some,
    ensures
        s.first_bool_fault(memory, pointer, shape, m) == s.first_bool_fault(memory, pointer, shape, n),
    decreases m - n,
{
    if n < m {
        lemma_first_bool_fault_stays(s, memory, pointer, shape, n, m - 1);
    }
}

impl Interpreter {
    /// Requires a complete value of the object at `pointer`: every offset of
    /// `offsets` initialized and every active boolean leaf 0 or 1.
    pub fn require_object_value(
        &self,
        memory: &VirMemorySchema,
        pointer: VirRuntimePointer,
        shape: &VirObjectShape,
        offsets: &BTreeSet<u64>,
        source_span: ByteSpan,
    ) -> (r: Result<(), VirExecutionError>)
        ensures
            match self.value_fault(*memory, pointer, *shape, offsets@) {
                Some(k) => r matches Err(e) && e.spec_kind() == k,
                None => r is Ok,
            },
    {
        proof {
            reveal(Interpreter::value_fault);
        }
        let allocation = match self.allocations.get(&pointer.allocation) {
            Some(a) => a,
            None => return Err(error(VirExecutionErrorKind::InvalidRuntimeState, source_span)),
        };
        match find_unset(&allocation.bytes, pointer.offset_bytes, offsets) {
            Some(o) => {
                return match pointer.offset_bytes.checked_add(o) {
                    Some(absolute) => Err(error(VirExecutionErrorKind::UninitializedObjectLeaf {
                        allocation: pointer.allocation,
                        offset_bytes: absolute,
                        access: shape.access(),
                    }, source_span)),
                    None => Err(error(VirExecutionErrorKind::InvalidRuntimeState, source_span)),
                };
            },
            None => {},
        }
        let leaves = shape.leaves();
        let mut j: usize = 0;
        while j < leaves.len()
            invariant
                0 <= j <= leaves@.len(),
                leaves@ == shape.spec_leaves(),
                self.allocations@.contains_key(pointer.allocation),
                self.allocations@[pointer.allocation] == *allocation,
                self.first_bool_fault(*memory, pointer, *shape, j as int) is None,
                self.value_fault(*memory, pointer, *shape, offsets@) == self.first_bool_fault(*memory, pointer, *shape, leaves@.len() as int),
            decreases leaves.len() - j,
        {
            let leaf = &leaves[j];
            let is_bool = match memory.kind(leaf.access().ty) {
                Some(VirMemoryTypeKind::Bool) => true,
                _ => false,
            };
            if is_bool {
                match self.path_inactive_variant(memory, pointer, shape, leaf.path(), source_span) {
                    Err(e) => {
                        proof {
                            lemma_first_bool_fault_stays(*self, *memory, pointer, *shape, j + 1, leaves@.len() as int);
                        }
                        return Err(e);
                    },
                    Ok(Some(_)) => {},
                    Ok(None) => {
                        let absolute = match pointer.offset_bytes.checked_add(leaf.bytes().start_bytes()) {
                            Some(a) => a,
                            None => {
                                proof {
                                    lemma_first_bool_fault_stays(*self, *memory, pointer, *shape, j + 1, leaves@.len() as int);
                                }
                                return Err(error(VirExecutionErrorKind::InvalidRuntimeState, source_span));
                            },
                        };
                        let ok = match allocation.bytes.get(&absolute) {
                            Some(b) => *b == 0 || *b == 1,
                            None => false,
                        };
                        if !ok {
                            proof {
                                lemma_first_bool_fault_stays(*self, *memory, pointer, *shape, j + 1, leaves@.len() as int);
                            }
                            return Err(error(VirExecutionErrorKind::InvalidObjectRepresentation {
                                allocation: pointer.allocation,
                                offset_bytes: absolute,
                                access: leaf.access(),
                            }, source_span));
                        }
                    },
                }
            }
            j = j + 1;
        }
        Ok(())
    }
}

/// The least offset of `offsets` whose byte past `base` is missing.
pub fn find_unset(bytes: &BTreeMap<u64, u8>, base: u64, offsets: &BTreeSet<u64>) -> (r: Option<u64>)
    ensures
        r == least_unset(offsets@, bytes@, base),
{
    for relative in it: offsets.iter()
        invariant
            forall|k: int| 0 <= k < it.index() ==> !#[trigger] unset_at(bytes@, base, *it.seq()[k]),
    {
        proof {
            lemma_increasing_offsets(it.seq());
            assert(it.seq().unref().to_set() == offsets@);
        }
        let present = match base.checked_add(*relative) {
            Some(absolute) => bytes.contains_key(&absolute),
            None => false,
        };
        if !present {
            proof {
                lemma_least_unset_found(offsets@, bytes@, base, it.seq(), it.index() as int);
            }
            return Some(*relative);
        }
    }
    proof {
        assert(least_unset(offsets@, bytes@, base) is None) by {
            if exists|o: u64| offsets@.contains(o) && #[trigger] unset_at(bytes@, base, o) {
                let o = choose|o: u64| offsets@.contains(o) && #[trigger] unset_at(bytes@, base, o);
                assert(false);
            }
        }
    }
    None
}

/// In an increasing listing of `offsets` whose first `k` entries are set,
/// a missing entry at `k` is the least missing offset.
pub proof fn lemma_least_unset_found(offsets: Set<u64>, bytes: Map<u64, u8>, base: u64, keys: Seq<&u64>, k: int)
    requires
        0 <= k < keys.len(),
        keys.unref().to_set() == offsets,
        forall|a: int, b: int| 0 <= a < b < keys.len() ==> *keys[a] < *keys[b],
        forall|i: int| 0 <= i < k ==> !#[trigger] unset_at(bytes, base, *keys[i]),
        unset_at(bytes, base, *keys[k]),
    ensures
        least_unset(offsets, bytes, base) == Some(*keys[k]),
{
    let o = *keys[k];
    assert(keys.unref()[k] == o);
    assert(offsets.contains(o));
    assert forall|p: u64| offsets.contains(p) && p < o implies !#[trigger] unset_at(bytes, base, p) by {
        assert(keys.unref().to_set().contains(p));
        let i = choose|i: int| 0 <= i < keys.unref().len() && keys.unref()[i] == p;
        assert(*keys[i] == p);
        if i >= k {
            if i > k {
                assert(*keys[k] < *keys[i]);
            }
        }
    }
    let w = choose|w: u64|
        offsets.contains(w) && #[trigger] unset_at(bytes, base, w) && forall|p: u64| offsets.contains(p) && p < w ==> !#[trigger] unset_at(bytes, base, p);
    if w < o {
        assert(!unset_at(bytes, base, w));
    } else if o < w {
        assert(!unset_at(bytes, base, o));
    }
}

impl Interpreter {
    /// The owning payloads of the resource leaves among the first `n` that lie
    /// on an active path, each with its relative offset and type: every such
    /// leaf must hold one.
    pub open spec fn payloads_from(&self, memory: VirMemorySchema, pointer: VirRuntimePointer, shape: VirObjectShape, n: int) -> Result<
        Seq<(u64, VirMemoryAccess, RuntimeOwnedPayload)>,
        VirExecutionErrorKind,
    >
        decreases n,
    {
        if n <= 0 {
            Ok(Seq::empty())
        } else {
            match self.payloads_from(memory, pointer, shape, n - 1) {
                Err(k) => Err(k),
                Ok(prev) => {
                    let leaf = shape.spec_resource_leaves()[n - 1];
                    match self.inactive_from(memory, pointer, shape, leaf.spec_path().spec_segments(), 0) {
                        Err(k) => Err(k),
                        Ok(Some(_)) => Ok(prev),
                        Ok(None) => {
                            let start = pointer.offset_bytes + leaf.spec_bytes().spec_start_bytes();
                            if start > u64::MAX || !self.allocations@.contains_key(pointer.allocation) {
                                Err(VirExecutionErrorKind::InvalidRuntimeState)
                            } else {
                                let payloads = self.allocations@[pointer.allocation].resource_payloads@;
                                let key = payload_key(start as u64, leaf.spec_access());
                                if payloads.contains_key(key) {
                                    Ok(prev.push((leaf.spec_bytes().spec_start_bytes(), leaf.spec_access(), payloads[key])))
                                } else {
                                    Err(
                                        VirExecutionErrorKind::MissingResourcePayload {
                                            allocation: pointer.allocation,
                                            offset_bytes: start as u64,
                                            access: leaf.spec_access(),
                                        },
                                    )
                                }
                            }
                        },
                    }
                },
            }
        }
    }

    /// The owning payloads held by the active resource leaves of the object
    /// at `pointer`, in leaf order.
    pub fn active_resource_payloads(
        &self,
        memory: &VirMemorySchema,
        pointer: VirRuntimePointer,
        shape: &VirObjectShape,
        source_span: ByteSpan,
    ) -> (r: Result<Vec<(u64, VirMemoryAccess, RuntimeOwnedPayload)>, VirExecutionError>)
        ensures
            match self.payloads_from(*memory, pointer, *shape, shape.spec_resource_leaves().len() as int) {
                Ok(s) => r matches Ok(v) && v@ == s,
                Err(k) => r matches Err(e) && e.spec_kind() == k,
            },
    {
        let leaves = shape.resource_leaves();
        let mut payloads: Vec<(u64, VirMemoryAccess, RuntimeOwnedPayload)> = Vec::new();
        let mut j: usize = 0;
        while j < leaves.len()
            invariant
                0 <= j <= leaves@.len(),
                leaves@ == shape.spec_resource_leaves(),
                self.payloads_from(*memory, pointer, *shape, j as int) == Ok::<
                    Seq<(u64, VirMemoryAccess, RuntimeOwnedPayload)>,
                    VirExecutionErrorKind,
                >(payloads@),
            decreases leaves.len() - j,
        {
            let leaf = &leaves[j];
            match self.path_inactive_variant(memory, pointer, shape, leaf.path(), source_span) {
                Err(e) => {
                    proof {
                        lemma_payloads_fault_stays(*self, *memory, pointer, *shape, j + 1, leaves@.len() as int);
                    }
                    return Err(e);
                },
                Ok(Some(_)) => {},
                Ok(None) => {
                    let start = match pointer.offset_bytes.checked_add(leaf.bytes().start_bytes()) {
                        Some(s) => s,
                        None => {
                            proof {
                                lemma_payloads_fault_stays(*self, *memory, pointer, *shape, j + 1, leaves@.len() as int);
                            }
                            return Err(error(VirExecutionErrorKind::InvalidRuntimeState, source_span));
                        },
                    };
                    let allocation = match self.allocations.get(&pointer.allocation) {
                        Some(a) => a,
                        None => {
                            proof {
                                lemma_payloads_fault_stays(*self, *memory, pointer, *shape, j + 1, leaves@.len() as int);
                            }
                            return Err(error(VirExecutionErrorKind::InvalidRuntimeState, source_span));
                        },
                    };
                    let key = (start, leaf.access().ty.0, leaf.access().layout.0);
                    match allocation.resource_payloads.get(&key) {
                        Some(p) => {
                            payloads.push((leaf.bytes().start_bytes(), leaf.access(), *p));
                        },
                        None => {
                            proof {
                                lemma_payloads_fault_stays(*self, *memory, pointer, *shape, j + 1, leaves@.len() as int);
                            }
                            return Err(error(VirExecutionErrorKind::MissingResourcePayload {
                                allocation: pointer.allocation,
                                offset_bytes: start,
                                access: leaf.access(),
                            }, source_span));
                        },
                    }
                },
            }
            j = j + 1;
        }
        Ok(payloads)
    }
}

/// Once the payload walk faults, walking further leaves keeps the fault.
pub proof fn lemma_payloads_fault_stays(s: Interpreter, memory: VirMemorySchema, pointer: VirRuntimePointer, shape: VirObjectShape, n: int, m: int)
    requires
        0 <= n <= m,
        s.payloads_from(memory, pointer, shape, n) is Err,
    ensures
        s.payloads_from(memory, pointer, shape, m) == s.payloads_from(memory, pointer, shape, n),
    decreases m - n,
{
    if n < m {
        lemma_payloads_fault_stays(s, memory, pointer, shape, n, m - 1);
    }
}

} // verus!
