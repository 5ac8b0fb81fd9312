//! Object effects that retire storage: deinitializing a value, resetting
//! storage that held owning pointers, dropping, and rewriting an enum tag.

use vstd::prelude::*;

use std::collections::{BTreeMap, BTreeSet};

use crate::ids::{ByteSpan, DropCapability, SizeCapability, VirLayoutId, VirVariantId};
use crate::loan_shadow::RuntimeLoanShadow;
use crate::memory::{VirMemoryAccess, VirMemorySchema, VirMemoryTypeKind, VirPointerKind};
use crate::object_shape::{VirObjectPathSegment, VirObjectShape, VirObjectVariantShape, shape_matches, shape_promised};
use crate::byte_range::VirObjectByteRange;
use crate::objects::{in_range, insert_range};
use crate::runtime::{
    Allocation, Interpreter, RuntimeAllocationKind, RuntimeOwnedPayload, VirExecutionError, VirExecutionErrorKind, VirRuntimePermission, VirRuntimePointer, case_for_variant,
    ensure_runtime_object_drop_type, ensure_runtime_object_observation_type, ensure_runtime_object_type, error, lemma_case_for_variant_prefix, observable, payload_key, registered_as, registration_refusal, spec_access_fault,
};
use crate::scalar_memory::{encode_u64, spec_encode_u64, written};
use crate::transfer::{VirObjectDestinationMode, all_fit, fits_after, remove_relative, same_extent, shifted};

verus! {

broadcast use {vstd::laws_cmp::group_laws_cmp, vstd::std_specs::btree::group_btree_axioms};

/// `after` is `before` with the bytes of allocation `id` at `base` plus the
/// offsets `cleared` removed; only that allocation's registry may differ
/// besides.
pub open spec fn bytes_cleared(after: &Interpreter, before: &Interpreter, id: u64, base: u64, cleared: Set<u64>) -> bool {
    &&& before.allocations@.contains_key(id)
    &&& after.allocations@.dom() == before.allocations@.dom()
    &&& forall|x: u64| x != id && #[trigger] before.allocations@.contains_key(x) ==> after.allocations@[x] == before.allocations@[x]
    &&& after.allocations@[id].bytes@ == before.allocations@[id].bytes@.remove_keys(shifted(base, cleared))
    &&& after.allocations@[id].resource_payloads@ == before.allocations@[id].resource_payloads@
    &&& same_extent(after.allocations@[id], before.allocations@[id])
    &&& after.config == before.config
    &&& after.steps == before.steps
    &&& after.allocation_instances == before.allocation_instances
}

impl Interpreter {
    /// Removes the bytes of allocation `id` at `base` plus each offset of
    /// `offsets`, and registers the object at `pointer`.
    fn clear_and_register(
        &mut self,
        pointer: VirRuntimePointer,
        shape: &VirObjectShape,
        offsets: &std::collections::BTreeSet<u64>,
        source_span: ByteSpan,
    ) -> (r: Result<(), VirExecutionError>)
        requires
            old(self).allocations@.contains_key(pointer.allocation),
            fits_after(pointer.offset_bytes, offsets@),
        ensures
            r is Ok ==> bytes_cleared(&*final(self), &*old(self), pointer.allocation, pointer.offset_bytes, offsets@),
            r matches Err(e) ==> e.spec_kind() is ObjectRootLimitExceeded,
            registered_as(registration_refusal(*old(self), pointer, *shape), r),
    {
        let ghost s0 = *self;
        let mut allocation = match self.allocations.remove(&pointer.allocation) {
            Some(a) => a,
            None => {
                proof {
                    assert(false);
                }
                return Err(error(VirExecutionErrorKind::InvalidRuntimeState, source_span));
            },
        };
        remove_relative(&mut allocation.bytes, pointer.offset_bytes, offsets);
        self.allocations.insert(pointer.allocation, allocation);
        proof {
            assert(self.allocations@.dom() =~= s0.allocations@.dom());
        }
        let ghost s1 = *self;
        self.register_runtime_object(pointer, shape, source_span)?;
        proof {
            assert forall|x: u64| x != pointer.allocation && #[trigger] s0.allocations@.contains_key(x) implies self.allocations@[x]
                == s0.allocations@[x] by {
                assert(s1.allocations@[x] == s0.allocations@[x]);
            }
        }
        Ok(())
    }

    /// Deinitializes the object of type `access` at `pointer`: its active
    /// bytes are retired. A complete value is required where asked; else
    /// the storage must be plain and tag-free to be retired as it is.
    pub fn object_deinitialize(
        &mut self,
        memory: &VirMemorySchema,
        pointer: VirRuntimePointer,
        permission: VirRuntimePermission,
        access: VirMemoryAccess,
        require_complete: bool,
        source_span: ByteSpan,
    ) -> (r: Result<(), VirExecutionError>)
        ensures
            match spec_access_fault(&*old(self), *memory, pointer, permission, access) {
                Some(k) => r matches Err(e) && e.spec_kind() == k && *final(self) == *old(self),
                None => r is Ok ==> exists|shape: VirObjectShape|
                    {
                        let offsets = old(self).active_offsets(*memory, pointer, shape);
                        &&& #[trigger] shape_matches(*memory, access, shape)
                        &&& shape.spec_size_bytes() <= old(self).config.max_object_effect_bytes
                        &&& memory.spec_type_capabilities(access.ty) matches Some(c) && c.spec_pointer_free_trivial()
                        &&& old(self).offsets_fault(*memory, pointer, shape) is None
                        &&& require_complete ==> old(self).value_fault(*memory, pointer, shape, offsets) is None
                        &&& !require_complete ==> shape.spec_resource_leaves().len() == 0 && shape.spec_variants().len() == 0
                        &&& bytes_cleared(&*final(self), &*old(self), pointer.allocation, pointer.offset_bytes, offsets)
                    },
            },
            r matches Err(e) ==> final(self).allocations@ == old(self).allocations@ || e.spec_kind() is ObjectRootLimitExceeded,
            spec_access_fault(&*old(self), *memory, pointer, permission, access) is None ==> (r matches Err(e) && e.spec_kind()
                == VirExecutionErrorKind::InvalidRuntimeState && *final(self) == *old(self) && !shape_promised(*memory, access)) || deinitialize_witnessed(
                *old(self),
                *final(self),
                *memory,
                pointer,
                access,
                require_complete,
                r,
            ),
    {
        self.check_access(memory, pointer, permission, access, source_span)?;
        let shape = match memory.object_shape(access) {
            Ok(shape) => shape,
            Err(_) => return Err(error(VirExecutionErrorKind::InvalidRuntimeState, source_span)),
        };
        let ghost s0 = *self;
        let r0 = self.check_object_effect_size(shape.size_bytes(), source_span);
        if let Err(e) = r0 {
            proof {
                assert(deinitialize_result(s0, *self, *memory, pointer, shape, require_complete, Err(e)));
            }
            return Err(e);
        }
        let r1 = ensure_runtime_object_type(memory, &shape, source_span);
        if let Err(e) = r1 {
            proof {
                assert(deinitialize_result(s0, *self, *memory, pointer, shape, require_complete, Err(e)));
            }
            return Err(e);
        }
        let offsets = match self.active_object_offsets(memory, pointer, &shape, source_span) {
            Ok(o) => o,
            Err(e) => {
                proof {
                    assert(deinitialize_result(s0, *self, *memory, pointer, shape, require_complete, Err(e)));
                }
                return Err(e);
            },
        };
        if require_complete {
            let r2 = self.require_object_value(memory, pointer, &shape, &offsets, source_span);
            if let Err(e) = r2 {
                proof {
                    assert(deinitialize_result(s0, *self, *memory, pointer, shape, require_complete, Err(e)));
                }
                return Err(e);
            }
        } else if !shape.supports_storage_reset() {
            return Err(error(VirExecutionErrorKind::InvalidRuntimeState, source_span));
        }
        if !all_fit(pointer.offset_bytes, &offsets) {
            return Err(error(VirExecutionErrorKind::InvalidRuntimeState, source_span));
        }
        let r = self.clear_and_register(pointer, &shape, &offsets, source_span);
        proof {
            assert(deinitialize_result(s0, *self, *memory, pointer, shape, require_complete, r));
        }
        r
    }
}

/// No byte of a resource leaf of `shape` at `base` is initialized in
/// `bytes`, and every such byte is an address.
pub open spec fn resource_bytes_clear(bytes: Map<u64, u8>, base: u64, shape: VirObjectShape) -> bool {
    forall|j: int, o: u64|
        0 <= j < shape.spec_resource_leaves().len() && #[trigger] in_range(shape.spec_resource_leaves()[j].spec_bytes(), o) ==> base + o
            <= u64::MAX && !bytes.contains_key((base + o) as u64)
}

/// The byte at `base + p` is an address and not initialized.
pub open spec fn byte_clear(bytes: Map<u64, u8>, base: u64, p: u64) -> bool {
    base + p <= u64::MAX && !bytes.contains_key((base + p) as u64)
}

/// Whether no byte of `range` at `base` is initialized, every such byte
/// being an address.
fn range_clear(bytes: &std::collections::BTreeMap<u64, u8>, base: u64, range: VirObjectByteRange) -> (r: bool)
    ensures
        r == forall|p: u64| #[trigger] in_range(range, p) ==> base + p <= u64::MAX && !bytes@.contains_key((base + p) as u64),
{
    let end = range.end_bytes();
    let mut o = range.start_bytes();
    while o < end
        invariant
            range.spec_start_bytes() <= o <= end,
            end == range.spec_end_bytes(),
            forall|p: u64| range.spec_start_bytes() <= p < o ==> #[trigger] byte_clear(bytes@, base, p),
        decreases end - o,
    {
        let clear = match base.checked_add(o) {
            Some(absolute) => !bytes.contains_key(&absolute),
            None => false,
        };
        if !clear {
            proof {
                assert(in_range(range, o));
            }
            return false;
        }
        o = o + 1;
    }
    proof {
        assert forall|p: u64| #[trigger] in_range(range, p) implies base + p <= u64::MAX && !bytes@.contains_key((base + p) as u64) by {
            assert(range.spec_start_bytes() <= p < o);
            assert(byte_clear(bytes@, base, p));
        }
    }
    true
}

/// Whether no byte of a resource leaf of `shape` at `base` is initialized.
fn resource_bytes_are_clear(bytes: &std::collections::BTreeMap<u64, u8>, base: u64, shape: &VirObjectShape) -> (r: bool)
    ensures
        r == resource_bytes_clear(bytes@, base, *shape),
{
    let leaves = shape.resource_leaves();
    let mut j: usize = 0;
    while j < leaves.len()
        invariant
            0 <= j <= leaves@.len(),
            leaves@ == shape.spec_resource_leaves(),
            forall|x: int, o: u64| 0 <= x < j && #[trigger] in_range(leaves@[x].spec_bytes(), o) ==> base + o <= u64::MAX
                && !bytes@.contains_key((base + o) as u64),
        decreases leaves.len() - j,
    {
        if !range_clear(bytes, base, leaves[j].bytes()) {
            return false;
        }
        j = j + 1;
    }
    true
}

impl Interpreter {
    /// Resets storage that held owning pointers, after its payloads were
    /// taken: no payload may remain in the allocation and no resource byte
    /// may be initialized; the object's remaining active bytes are retired.
    pub fn resource_storage_reset(
        &mut self,
        memory: &VirMemorySchema,
        pointer: VirRuntimePointer,
        permission: VirRuntimePermission,
        access: VirMemoryAccess,
        source_span: ByteSpan,
    ) -> (r: Result<(), VirExecutionError>)
        ensures
            match spec_access_fault(&*old(self), *memory, pointer, permission, access) {
                Some(k) => r matches Err(e) && e.spec_kind() == k && *final(self) == *old(self),
                None => r is Ok ==> exists|shape: VirObjectShape|
                    {
                        let offsets = old(self).active_offsets(*memory, pointer, shape);
                        let before = old(self).allocations@[pointer.allocation];
                        &&& #[trigger] shape_matches(*memory, access, shape)
                        &&& shape.spec_size_bytes() <= old(self).config.max_object_effect_bytes
                        &&& shape.spec_resource_leaves().len() > 0 && shape.spec_variants().len() == 0
                        &&& forall|i: int| 0 <= i < shape.spec_resource_leaves().len() ==> (#[trigger] shape.spec_resource_leaves()[i]).spec_kind()
                            != VirPointerKind::Raw
                        &&& before.resource_payloads@.len() == 0
                        &&& resource_bytes_clear(before.bytes@, pointer.offset_bytes, shape)
                        &&& old(self).offsets_fault(*memory, pointer, shape) is None
                        &&& bytes_cleared(&*final(self), &*old(self), pointer.allocation, pointer.offset_bytes, offsets)
                    },
            },
            r matches Err(e) ==> final(self).allocations@ == old(self).allocations@ || e.spec_kind() is ObjectRootLimitExceeded,
            spec_access_fault(&*old(self), *memory, pointer, permission, access) is None ==> (r matches Err(e) && e.spec_kind()
                == VirExecutionErrorKind::InvalidRuntimeState && *final(self) == *old(self) && !shape_promised(*memory, access)) || storage_reset_witnessed(
                *old(self),
                *final(self),
                *memory,
                pointer,
                access,
                r,
            ),
    {
        self.check_access(memory, pointer, permission, access, source_span)?;
        let shape = match memory.object_shape(access) {
            Ok(shape) => shape,
            Err(_) => return Err(error(VirExecutionErrorKind::InvalidRuntimeState, source_span)),
        };
        let ghost s0 = *self;
        let r0 = self.check_object_effect_size(shape.size_bytes(), source_span);
        if let Err(e) = r0 {
            proof {
                assert(storage_reset_result(s0, *self, *memory, pointer, access, shape, Err(e)));
            }
            return Err(e);
        }
        if !shape.supports_resource_storage_reset() {
            return Err(error(VirExecutionErrorKind::UnsupportedObjectEffectType { access }, source_span));
        }
        let allocation = match self.allocations.get(&pointer.allocation) {
            Some(a) => a,
            None => return Err(error(VirExecutionErrorKind::InvalidRuntimeState, source_span)),
        };
        if !allocation.resource_payloads.is_empty() {
            return Err(error(VirExecutionErrorKind::AllocationContainsResourcePayload { allocation: pointer.allocation }, source_span));
        }
        if !resource_bytes_are_clear(&allocation.bytes, pointer.offset_bytes, &shape) {
            return Err(error(VirExecutionErrorKind::InvalidRuntimeState, source_span));
        }
        let offsets = match self.active_object_offsets(memory, pointer, &shape, source_span) {
            Ok(o) => o,
            Err(e) => {
                proof {
                    assert(storage_reset_result(s0, *self, *memory, pointer, access, shape, Err(e)));
                }
                return Err(e);
            },
        };
        if !all_fit(pointer.offset_bytes, &offsets) {
            return Err(error(VirExecutionErrorKind::InvalidRuntimeState, source_span));
        }
        let r = self.clear_and_register(pointer, &shape, &offsets, source_span);
        proof {
            assert(storage_reset_result(s0, *self, *memory, pointer, access, shape, r));
        }
        r
    }
}

/// The payload stored under `key` overlaps `[start, end)`; `None` when its
/// type has no layout.
pub open spec fn payload_overlaps(memory: VirMemorySchema, key: (u64, u32, u32), start: u64, end: int) -> Option<bool> {
    match memory.spec_layout(VirLayoutId(key.2)) {
        None => None,
        Some(l) => Some(key.0 < end && (if key.0 + l.size_bytes > u64::MAX { u64::MAX as int } else { key.0 + l.size_bytes }) > start),
    }
}

/// Whether a payload of `payloads` overlaps `[start, end)`: `None` when none
/// does, `Some(true)` on a payload whose type has no layout, `Some(false)`
/// on an overlapping one; the first such key in key order decides.
fn payload_conflict(
    payloads: &BTreeMap<(u64, u32, u32), RuntimeOwnedPayload>,
    memory: &VirMemorySchema,
    start: u64,
    end: u64,
) -> (r: Option<bool>)
    ensures
        r is None <==> forall|k: (u64, u32, u32)| #[trigger] payloads@.contains_key(k) ==> payload_overlaps(*memory, k, start, end as int)
            == Some(false),
        r == Some(false) ==> exists|k: (u64, u32, u32)| #[trigger] payloads@.contains_key(k) && payload_overlaps(*memory, k, start, end as int)
            == Some(true),
        r == Some(true) ==> exists|k: (u64, u32, u32)| #[trigger] payloads@.contains_key(k) && payload_overlaps(*memory, k, start, end as int)
            is None,
        (forall|k: (u64, u32, u32)| #[trigger] payloads@.contains_key(k) ==> payload_overlaps(*memory, k, start, end as int) is Some)
            ==> r != Some(true),
{
    for key in it: payloads.keys()
        invariant
            it.seq().unref().to_set() == payloads@.dom(),
            forall|j: int| 0 <= j < it.index() ==> payload_overlaps(*memory, *#[trigger] it.seq()[j], start, end as int) == Some(false),
    {
        proof {
            assert(it.seq().unref().to_set().contains(*key)) by {
                assert(*key == *it.seq()[it.index() as int]);
                assert(it.seq().unref()[it.index() as int] == *key);
            }
        }
        let layout = match memory.layout(VirLayoutId::new(key.2)) {
            Some(l) => l,
            None => return Some(true),
        };
        let reach = key.0.saturating_add(layout.size_bytes);
        if key.0 < end && reach > start {
            return Some(false);
        }
    }
    None
}

impl Interpreter {
    /// Writes the discriminant of the root variant `variant` into the enum of
    /// type `access` at `pointer`: initializing an empty tag or replacing a
    /// complete value, whose retired bytes and the new variant's value bytes
    /// are cleared. No owning payload may lie in the object.
    pub fn enum_set_discriminant(
        &mut self,
        memory: &VirMemorySchema,
        pointer: VirRuntimePointer,
        permission: VirRuntimePermission,
        access: VirMemoryAccess,
        variant: VirVariantId,
        mode: VirObjectDestinationMode,
        source_span: ByteSpan,
    ) -> (r: Result<(), VirExecutionError>)
        ensures
            match spec_access_fault(&*old(self), *memory, pointer, permission, access) {
                Some(k) => r matches Err(e) && e.spec_kind() == k && *final(self) == *old(self),
                None => r is Ok ==> exists|shape: VirObjectShape|
                    {
                        let before = old(self).allocations@[pointer.allocation];
                        let cases = shape.spec_variants();
                        let c = case_for_variant(cases, Seq::empty(), variant);
                        let tag = cases[c->0].spec_tag();
                        let tag_start = (pointer.offset_bytes + tag.spec_start_bytes()) as u64;
                        let encoding = spec_encode_u64(cases[c->0].spec_discriminant(), (tag.spec_end_bytes() - tag.spec_start_bytes()) as nat,
                            memory.target.endianness);
                        let previous = if mode == VirObjectDestinationMode::Replace {
                            old(self).active_offsets(*memory, pointer, shape)
                        } else {
                            Set::<u64>::empty()
                        };
                        let retired = previous.union(case_value_offsets(cases[c->0])).difference(range_offsets(tag));
                        &&& #[trigger] shape_matches(*memory, access, shape)
                        &&& shape.spec_size_bytes() <= old(self).config.max_object_effect_bytes
                        &&& c is Some
                        &&& forall|k: (u64, u32, u32)| #[trigger] before.resource_payloads@.contains_key(k) ==> payload_overlaps(
                            *memory,
                            k,
                            pointer.offset_bytes,
                            pointer.offset_bytes + shape.spec_size_bytes(),
                        ) == Some(false)
                        &&& mode == VirObjectDestinationMode::Replace ==> old(self).offsets_fault(*memory, pointer, shape) is None
                        &&& mode == VirObjectDestinationMode::Initialize ==> forall|o: u64|
                            tag_start <= o < tag_start + encoding.len() ==> !#[trigger] before.bytes@.contains_key(o)
                        &&& final(self).allocations@.dom() == old(self).allocations@.dom()
                        &&& forall|x: u64| x != pointer.allocation && #[trigger] old(self).allocations@.contains_key(x)
                            ==> final(self).allocations@[x] == old(self).allocations@[x]
                        &&& final(self).allocations@[pointer.allocation].bytes@ == written(
                            before.bytes@.remove_keys(shifted(pointer.offset_bytes, retired)),
                            tag_start,
                            encoding,
                        )
                        &&& final(self).allocations@[pointer.allocation].resource_payloads@ == before.resource_payloads@
                        &&& same_extent(final(self).allocations@[pointer.allocation], before)
                    },
            },
            r matches Err(e) ==> final(self).allocations@ == old(self).allocations@ || e.spec_kind() is ObjectRootLimitExceeded,
            spec_access_fault(&*old(self), *memory, pointer, permission, access) is None ==> (r matches Err(e) && e.spec_kind()
                == VirExecutionErrorKind::InvalidRuntimeState && *final(self) == *old(self) && !shape_promised(*memory, access)) || set_discriminant_witnessed(
                *old(self),
                *final(self),
                *memory,
                pointer,
                access,
                variant,
                mode,
                r,
            ),
    {
        self.check_access(memory, pointer, permission, access, source_span)?;
        let shape = match memory.object_shape(access) {
            Ok(shape) => shape,
            Err(_) => return Err(error(VirExecutionErrorKind::InvalidRuntimeState, source_span)),
        };
        self.check_object_effect_size(shape.size_bytes(), source_span)?;
        match mode {
            VirObjectDestinationMode::Initialize => ensure_runtime_object_observation_type(memory, &shape, source_span)?,
            VirObjectDestinationMode::Replace => ensure_runtime_object_type(memory, &shape, source_span)?,
        }
        let variants = shape.variants();
        let mut found: Option<usize> = None;
        let mut i: usize = 0;
        while i < variants.len()
            invariant_except_break
                found is None,
                case_for_variant(variants@.take(i as int), Seq::empty(), variant) is None,
            invariant
                0 <= i <= variants@.len(),
            ensures
                found matches Some(c) ==> c < variants@.len() && case_for_variant(variants@, Seq::empty(), variant) == Some(c as int),
                found is None ==> i == variants@.len() && case_for_variant(variants@.take(i as int), Seq::empty(), variant) is None,
            decreases variants.len() - i,
        {
            proof {
                assert(variants@.take(i + 1).drop_last() == variants@.take(i as int));
            }
            if variants[i].path().segments().len() == 0 && variants[i].variant() == variant {
                proof {
                    assert(variants@[i as int].spec_path().spec_segments() =~= Seq::<VirObjectPathSegment>::empty());
                    assert(case_for_variant(variants@.take(i + 1), Seq::empty(), variant) == Some(i as int));
                    lemma_case_for_variant_prefix(variants@, Seq::empty(), variant, i + 1);
                }
                found = Some(i);
                break;
            }
            i = i + 1;
        }
        proof {
            if found is None {
                assert(variants@.take(variants@.len() as int) == variants@);
            }
        }
        let c = match found {
            Some(c) => c,
            None => return Err(error(VirExecutionErrorKind::InvalidRuntimeState, source_span)),
        };
        let tag = variants[c].tag();
        let end = match pointer.offset_bytes.checked_add(shape.size_bytes()) {
            Some(e) => e,
            None => return Err(error(VirExecutionErrorKind::InvalidRuntimeState, source_span)),
        };
        let allocation = match self.allocations.get(&pointer.allocation) {
            Some(a) => a,
            None => return Err(error(VirExecutionErrorKind::InvalidRuntimeState, source_span)),
        };
        match payload_conflict(&allocation.resource_payloads, memory, pointer.offset_bytes, end) {
            Some(true) => return Err(error(VirExecutionErrorKind::InvalidRuntimeState, source_span)),
            Some(false) => {
                return Err(error(VirExecutionErrorKind::AllocationContainsResourcePayload { allocation: pointer.allocation }, source_span));
            },
            None => {},
        }
        let tag_start = match pointer.offset_bytes.checked_add(tag.start_bytes()) {
            Some(t) => t,
            None => return Err(error(VirExecutionErrorKind::InvalidRuntimeState, source_span)),
        };
        let mut retired = if mode == VirObjectDestinationMode::Replace {
            match self.active_object_offsets(memory, pointer, &shape, source_span) {
                Ok(o) => o,
                Err(e) => {
                    proof {
                        assert(set_discriminant_result(*self, *self, *memory, pointer, shape, variant, mode, Err(e)));
                    }
                    return Err(e);
                },
            }
        } else {
            BTreeSet::new()
        };
        let tag_end = match tag_start.checked_add(tag.len_bytes()) {
            Some(t) => t,
            None => return Err(error(VirExecutionErrorKind::InvalidRuntimeState, source_span)),
        };
        if mode == VirObjectDestinationMode::Initialize {
            let allocation = match self.allocations.get(&pointer.allocation) {
                Some(a) => a,
                None => return Err(error(VirExecutionErrorKind::InvalidRuntimeState, source_span)),
            };
            match first_initialized(&allocation.bytes, tag_start, tag_end) {
                Some(o) => {
                    return Err(error(VirExecutionErrorKind::InitializeAlreadyInitialized {
                        allocation: pointer.allocation,
                        offset_bytes: o,
                    }, source_span));
                },
                None => {},
            }
        }
        let encoding = match encode_u64(variants[c].discriminant(), tag.len_bytes(), memory.target.endianness) {
            Some(e) => e,
            None => return Err(error(VirExecutionErrorKind::InvalidRuntimeState, source_span)),
        };
        let ghost previous = retired@;
        let value_ranges = variants[c].value_bytes();
        let mut k: usize = 0;
        while k < value_ranges.len()
            invariant
                0 <= k <= value_ranges@.len(),
                value_ranges@ == variants@[c as int].spec_value_bytes(),
                forall|o: u64| #[trigger] retired@.contains(o) <==> previous.contains(o) || exists|x: int|
                    0 <= x < k && #[trigger] in_range(value_ranges@[x], o),
            decreases value_ranges.len() - k,
        {
            insert_range(&mut retired, value_ranges[k]);
            proof {
                assert forall|o: u64| #[trigger] retired@.contains(o) <==> previous.contains(o) || exists|x: int|
                    0 <= x < k + 1 && #[trigger] in_range(value_ranges@[x], o) by {
                    if exists|x: int| 0 <= x < k + 1 && #[trigger] in_range(value_ranges@[x], o) {
                        let x = choose|x: int| 0 <= x < k + 1 && #[trigger] in_range(value_ranges@[x], o);
                        if x < k {
                            assert(in_range(value_ranges@[x], o));
                        }
                    }
                }
            }
            k = k + 1;
        }
        let mut o = tag.start_bytes();
        let tag_last = tag.end_bytes();
        while o < tag_last
            invariant
                tag.spec_start_bytes() <= o <= tag_last,
                tag_last == tag.spec_end_bytes(),
                forall|x: u64| #[trigger] retired@.contains(x) <==> (previous.contains(x) || case_value_offsets(variants@[c as int]).contains(x))
                    && !(tag.spec_start_bytes() <= x < o),
            decreases tag_last - o,
        {
            retired.remove(&o);
            o = o + 1;
        }
        proof {
            assert(retired@ =~= previous.union(case_value_offsets(variants@[c as int])).difference(range_offsets(tag)));
        }
        if !all_fit(pointer.offset_bytes, &retired) {
            return Err(error(VirExecutionErrorKind::InvalidRuntimeState, source_span));
        }
        let ghost s0 = *self;
        let mut target = match self.allocations.remove(&pointer.allocation) {
            Some(a) => a,
            None => return Err(error(VirExecutionErrorKind::InvalidRuntimeState, source_span)),
        };
        remove_relative(&mut target.bytes, pointer.offset_bytes, &retired);
        let ghost cleared = target.bytes@;
        let mut j: usize = 0;
        while j < encoding.len()
            invariant
                0 <= j <= encoding@.len(),
                tag_start + encoding@.len() == tag_end,
                target.bytes@ == written(cleared, tag_start, encoding@.take(j as int)),
                target.resource_payloads@ == s0.allocations@[pointer.allocation].resource_payloads@,
                same_extent(target, s0.allocations@[pointer.allocation]),
                target.objects@ == s0.allocations@[pointer.allocation].objects@,
            decreases encoding.len() - j,
        {
            target.bytes.insert(tag_start + j as u64, encoding[j]);
            proof {
                assert(target.bytes@ =~= written(cleared, tag_start, encoding@.take(j + 1)));
            }
            j = j + 1;
        }
        proof {
            assert(encoding@.take(encoding@.len() as int) == encoding@);
        }
        self.allocations.insert(pointer.allocation, target);
        proof {
            assert(self.allocations@.dom() =~= s0.allocations@.dom());
        }
        let ghost s1 = *self;
        self.register_runtime_object(pointer, &shape, source_span)?;
        proof {
            assert forall|x: u64| x != pointer.allocation && #[trigger] s0.allocations@.contains_key(x) implies self.allocations@[x]
                == s0.allocations@[x] by {
                assert(s1.allocations@[x] == s0.allocations@[x]);
            }
            let before = s0.allocations@[pointer.allocation];
            assert(shape_matches(*memory, access, shape));
            assert(case_for_variant(variants@, Seq::empty(), variant) == Some(c as int));
            assert(forall|k: (u64, u32, u32)| #[trigger] before.resource_payloads@.contains_key(k) ==> payload_overlaps(
                *memory, k, pointer.offset_bytes, pointer.offset_bytes + shape.spec_size_bytes()) == Some(false));
            assert(self.allocations@[pointer.allocation].bytes@ == written(
                before.bytes@.remove_keys(shifted(pointer.offset_bytes, retired@)), tag_start, encoding@));
            assert(self.allocations@[pointer.allocation].resource_payloads@ == before.resource_payloads@);
            assert(same_extent(self.allocations@[pointer.allocation], before));
            assert(self.allocations@.dom() == s0.allocations@.dom());
            assert(s0 == *old(self));
            let tag_v = variants@[c as int].spec_tag();
            assert(tag_start == (pointer.offset_bytes + tag_v.spec_start_bytes()) as u64);
            assert(encoding@ == spec_encode_u64(variants@[c as int].spec_discriminant(), (tag_v.spec_end_bytes()
                - tag_v.spec_start_bytes()) as nat, memory.target.endianness));
        }
        Ok(())
    }
}

/// The first initialized byte of `[start, end)`, if any.
fn first_initialized(bytes: &BTreeMap<u64, u8>, start: u64, end: u64) -> (r: Option<u64>)
    ensures
        r is None ==> forall|x: u64| start <= x < end ==> !#[trigger] bytes@.contains_key(x),
        r matches Some(o) ==> (start <= o < end && bytes@.contains_key(o) && forall|x: u64| start <= x < o
            ==> !#[trigger] bytes@.contains_key(x)),
{
    let mut o = start;
    while o < end
        invariant
            start <= o,
            o <= end || start >= end,
            forall|x: u64| start <= x < o ==> !#[trigger] bytes@.contains_key(x),
        decreases end - o,
    {
        if bytes.contains_key(&o) {
            return Some(o);
        }
        o = o + 1;
    }
    None
}

/// The relative offsets the value ranges of `case` cover.
pub open spec fn case_value_offsets(case: VirObjectVariantShape) -> Set<u64> {
    Set::new(|o: u64| exists|x: int| 0 <= x < case.spec_value_bytes().len() && #[trigger] in_range(case.spec_value_bytes()[x], o))
}

/// The relative offsets of `range`.
pub open spec fn range_offsets(range: VirObjectByteRange) -> Set<u64> {
    Set::new(|o: u64| in_range(range, o))
}

/// A drop of the object of shape `shape` at `pointer` has nothing to do:
/// the enum-bearing heap object was never constructed or wholly moved out,
/// so no value byte is initialized and no payload lies in it.
pub open spec fn drop_skips(s: &Interpreter, memory: VirMemorySchema, pointer: VirRuntimePointer, shape: VirObjectShape) -> bool {
    let a = s.allocations@[pointer.allocation];
    &&& a.kind == RuntimeAllocationKind::Heap
    &&& shape.spec_variants().len() > 0
    &&& forall|i: int, o: u64|
        0 <= i < shape.spec_value_bytes().len() && #[trigger] in_range(shape.spec_value_bytes()[i], o) ==> byte_clear(
            a.bytes@,
            pointer.offset_bytes,
            o,
        )
    &&& forall|k: (u64, u32, u32)| #[trigger] a.resource_payloads@.contains_key(k) ==> payload_overlaps(
        memory,
        k,
        pointer.offset_bytes,
        pointer.offset_bytes + shape.spec_size_bytes(),
    ) == Some(false)
}

impl Interpreter {
    /// The payloads the first `n` resource leaves of the object at `pointer`
    /// own, with their keys and types: an active leaf whose bytes are all
    /// initialized must hold a payload, one with none initialized holds
    /// none, and partly initialized payload storage is an invalid state.
    pub open spec fn owned_from(&self, memory: VirMemorySchema, pointer: VirRuntimePointer, shape: VirObjectShape, n: int) -> Result<
        Seq<((u64, u32, u32), VirMemoryAccess, RuntimeOwnedPayload)>,
        VirExecutionErrorKind,
    >
        decreases n,
    {
        if n <= 0 {
            Ok(Seq::empty())
        } else {
            match self.owned_from(memory, pointer, shape, n - 1) {
                Err(k) => Err(k),
                Ok(prev) => {
                    let leaf = shape.spec_resource_leaves()[n - 1];
                    match self.inactive_from(memory, pointer, shape, leaf.spec_path().spec_segments(), 0) {
                        Err(k) => Err(k),
                        Ok(Some(_)) => Ok(prev),
                        Ok(None) => {
                            let start = pointer.offset_bytes + leaf.spec_bytes().spec_start_bytes();
                            let end = pointer.offset_bytes + leaf.spec_bytes().spec_end_bytes();
                            if start > u64::MAX || end > u64::MAX {
                                Err(VirExecutionErrorKind::InvalidRuntimeState)
                            } else {
                                let a = self.allocations@[pointer.allocation];
                                let key = payload_key(start as u64, leaf.spec_access());
                                let present = forall|o: u64| start <= o < end ==> #[trigger] a.bytes@.contains_key(o);
                                if a.resource_payloads@.contains_key(key) && present {
                                    Ok(prev.push((key, leaf.spec_access(), a.resource_payloads@[key])))
                                } else if !a.resource_payloads@.contains_key(key) && !present {
                                    Ok(prev)
                                } else if present {
                                    Err(
                                        VirExecutionErrorKind::MissingResourcePayload {
                                            allocation: pointer.allocation,
                                            offset_bytes: start as u64,
                                            access: leaf.spec_access(),
                                        },
                                    )
                                } else {
                                    Err(VirExecutionErrorKind::InvalidRuntimeState)
                                }
                            }
                        },
                    }
                },
            }
        }
    }

    /// Collects the payloads that the active resource leaves of the object at
    /// `pointer` own.
    fn owned_payloads(
        &self,
        memory: &VirMemorySchema,
        pointer: VirRuntimePointer,
        shape: &VirObjectShape,
        source_span: ByteSpan,
    ) -> (r: Result<Vec<((u64, u32, u32), VirMemoryAccess, RuntimeOwnedPayload)>, VirExecutionError>)
        requires
            self.allocations@.contains_key(pointer.allocation),
        ensures
            match self.owned_from(*memory, pointer, *shape, shape.spec_resource_leaves().len() as int) {
                Ok(s) => r matches Ok(v) && v@ == s,
                Err(k) => r matches Err(e) && e.spec_kind() == k,
            },
    {
        let allocation = match self.allocations.get(&pointer.allocation) {
            Some(a) => a,
            None => {
                proof {
                    assert(false);
                }
                return Err(error(VirExecutionErrorKind::InvalidRuntimeState, source_span));
            },
        };
        let leaves = shape.resource_leaves();
        let mut owned: Vec<((u64, u32, u32), VirMemoryAccess, RuntimeOwnedPayload)> = Vec::new();
        let mut j: usize = 0;
        while j < leaves.len()
            invariant
                0 <= j <= leaves@.len(),
                leaves@ == shape.spec_resource_leaves(),
                self.allocations@.contains_key(pointer.allocation),
                self.allocations@[pointer.allocation] == *allocation,
                self.owned_from(*memory, pointer, *shape, j as int) == Ok::<
                    Seq<((u64, u32, u32), VirMemoryAccess, RuntimeOwnedPayload)>,
                    VirExecutionErrorKind,
                >(owned@),
            decreases leaves.len() - j,
        {
            let leaf = &leaves[j];
            match self.path_inactive_variant(memory, pointer, shape, leaf.path(), source_span) {
                Err(e) => {
                    proof {
                        lemma_owned_fault_stays(*self, *memory, pointer, *shape, j + 1, leaves@.len() as int);
                    }
                    return Err(e);
                },
                Ok(Some(_)) => {},
                Ok(None) => {
                    let range = leaf.bytes();
                    let (start, end) = match (pointer.offset_bytes.checked_add(range.start_bytes()), pointer.offset_bytes.checked_add(
                        range.end_bytes(),
                    )) {
                        (Some(start), Some(end)) => (start, end),
                        _ => {
                            proof {
                                lemma_owned_fault_stays(*self, *memory, pointer, *shape, j + 1, leaves@.len() as int);
                            }
                            return Err(error(VirExecutionErrorKind::InvalidRuntimeState, source_span));
                        },
                    };
                    let key = (start, leaf.access().ty.0, leaf.access().layout.0);
                    let present = run_present(&allocation.bytes, start, end);
                    match allocation.resource_payloads.get(&key) {
                        Some(p) => {
                            if present {
                                owned.push((key, leaf.access(), *p));
                            } else {
                                proof {
                                    lemma_owned_fault_stays(*self, *memory, pointer, *shape, j + 1, leaves@.len() as int);
                                }
                                return Err(error(VirExecutionErrorKind::InvalidRuntimeState, source_span));
                            }
                        },
                        None => {
                            if present {
                                proof {
                                    lemma_owned_fault_stays(*self, *memory, pointer, *shape, j + 1, leaves@.len() as int);
                                }
                                return Err(error(VirExecutionErrorKind::MissingResourcePayload {
                                    allocation: pointer.allocation,
                                    offset_bytes: start,
                                    access: leaf.access(),
                                }, source_span));
                            }
                        },
                    }
                },
            }
            j = j + 1;
        }
        Ok(owned)
    }
}

/// Whether every byte of `[start, end)` is initialized.
fn run_present(bytes: &BTreeMap<u64, u8>, start: u64, end: u64) -> (r: bool)
    ensures
        r == forall|o: u64| start <= o < end ==> #[trigger] bytes@.contains_key(o),
{
    let mut o = start;
    while o < end
        invariant
            start <= o,
            forall|x: u64| start <= x < o ==> #[trigger] bytes@.contains_key(x),
        decreases end - o,
    {
        if !bytes.contains_key(&o) {
            return false;
        }
        o = o + 1;
    }
    true
}

/// Once collecting owned payloads faults, more leaves keep the fault.
pub proof fn lemma_owned_fault_stays(s: Interpreter, memory: VirMemorySchema, pointer: VirRuntimePointer, shape: VirObjectShape, n: int, m: int)
    requires
        0 <= n <= m,
        s.owned_from(memory, pointer, shape, n) is Err,
    ensures
        s.owned_from(memory, pointer, shape, m) == s.owned_from(memory, pointer, shape, n),
    decreases m - n,
{
    if n < m {
        lemma_owned_fault_stays(s, memory, pointer, shape, n, m - 1);
    }
}

/// The owned payload is an owning pointer.
pub open spec fn owns_allocation(memory: VirMemorySchema, entry: ((u64, u32, u32), VirMemoryAccess, RuntimeOwnedPayload)) -> bool {
    memory.spec_kind(entry.1.ty) matches Some(VirMemoryTypeKind::Pointer { kind, .. }) && kind == VirPointerKind::Own
}

/// The keys of `owned`.
pub open spec fn owned_keys(owned: Seq<((u64, u32, u32), VirMemoryAccess, RuntimeOwnedPayload)>) -> Set<(u64, u32, u32)> {
    Set::new(|k: (u64, u32, u32)| exists|i: int| 0 <= i < owned.len() && (#[trigger] owned[i]).0 == k)
}

/// Freeing the allocation of `pointer` with `permission` is admitted in `s`.
pub open spec fn free_admitted(s: Interpreter, pointer: VirRuntimePointer, permission: VirRuntimePermission) -> bool {
    &&& s.spec_liveness(pointer.allocation) is Ok
    &&& permission.allocation == pointer.allocation
    &&& pointer.offset_bytes == 0
    &&& permission.start_bytes == 0
    &&& permission.end_bytes == s.spec_liveness(pointer.allocation)->Ok_0.size_bytes
    &&& permission.can_free_when_complete
    &&& s.spec_liveness(pointer.allocation)->Ok_0.resource_payloads@.len() == 0
}

/// An owned payload that can be released: an owning pointer without a loan
/// authority, or a reference with one.
pub open spec fn release_kind_ok(memory: VirMemorySchema, entry: ((u64, u32, u32), VirMemoryAccess, RuntimeOwnedPayload)) -> bool {
    match memory.spec_kind(entry.1.ty) {
        Some(VirMemoryTypeKind::Pointer { kind, .. }) => (kind == VirPointerKind::Own && entry.2.loan_authority is None) || (kind
            == VirPointerKind::Reference && entry.2.loan_authority is Some),
        _ => false,
    }
}

/// Every payload of `owned` is an owning pointer without a loan authority
/// whose allocation `s` admits to free, each allocation named once.
pub open spec fn owned_release_owed(
    s: Interpreter,
    memory: VirMemorySchema,
    owned: Seq<((u64, u32, u32), VirMemoryAccess, RuntimeOwnedPayload)>,
) -> bool {
    &&& forall|i: int| 0 <= i < owned.len() ==> owns_allocation(memory, #[trigger] owned[i]) && owned[i].2.loan_authority is None
        && free_admitted(s, owned[i].2.pointer, owned[i].2.permission)
    &&& forall|i: int, j: int| 0 <= i < j < owned.len() ==> (#[trigger] owned[i]).2.pointer.allocation
        != (#[trigger] owned[j]).2.pointer.allocation
}

/// Objects of shape `shape` can be dropped by a runtime effect: sized, with
/// a trivial or built-in drop, holding resources, none of them raw.
pub open spec fn droppable(memory: VirMemorySchema, shape: VirObjectShape) -> bool {
    memory.spec_type_capabilities(shape.spec_access().ty) matches Some(c) && c.size == SizeCapability::Sized
        && (c.drop == DropCapability::TrivialDrop || c.drop == DropCapability::BuiltinDrop) && shape.spec_resource_leaves().len() > 0
        && forall|i: int| 0 <= i < shape.spec_resource_leaves().len() ==> (#[trigger] shape.spec_resource_leaves()[i]).spec_kind() != VirPointerKind::Raw
}

/// What dropping the object of shape `shape` at `pointer` in `s` gives,
/// with `t` and the loan shadows around it: a size or type refusal, or a
/// fault in its active offsets or owned payloads, leave everything as it
/// was; an object with nothing to drop is left as it is; otherwise,
/// releasing payloads that are all owning pointers the state admits to free
/// succeeds unless the object registry is full.
pub open spec fn drop_result(
    s: Interpreter,
    t: Interpreter,
    before: RuntimeLoanShadow,
    after: RuntimeLoanShadow,
    memory: VirMemorySchema,
    pointer: VirRuntimePointer,
    shape: VirObjectShape,
    r: Result<(), VirExecutionError>,
) -> bool {
    let unchanged = t == s && after.same_state(&before);
    let owned = s.owned_from(memory, pointer, shape, shape.spec_resource_leaves().len() as int);
    if shape.spec_size_bytes() > s.config.max_object_effect_bytes {
        r matches Err(e) && e.spec_kind() == (VirExecutionErrorKind::ObjectEffectSizeLimitExceeded {
            requested: shape.spec_size_bytes(),
            limit: s.config.max_object_effect_bytes,
        }) && unchanged
    } else if !droppable(memory, shape) {
        r matches Err(e) && e.spec_kind() == (VirExecutionErrorKind::UnsupportedObjectEffectType { access: shape.spec_access() }) && unchanged
    } else if pointer.offset_bytes + shape.spec_size_bytes() > u64::MAX || !s.allocations@.contains_key(pointer.allocation) {
        r matches Err(e) && e.spec_kind() == VirExecutionErrorKind::InvalidRuntimeState && unchanged
    } else if drop_skips(&s, memory, pointer, shape) {
        r is Ok && unchanged
    } else if s.offsets_fault(memory, pointer, shape) is Some {
        r matches Err(e) && Some(e.spec_kind()) == s.offsets_fault(memory, pointer, shape) && unchanged
    } else if !fits_after(pointer.offset_bytes, s.active_offsets(memory, pointer, shape)) {
        r matches Err(e) && e.spec_kind() == VirExecutionErrorKind::InvalidRuntimeState && unchanged
    } else if owned is Err {
        r matches Err(e) && Err::<(), VirExecutionErrorKind>(e.spec_kind()) == match owned {
            Err(k) => Err::<(), VirExecutionErrorKind>(k),
            Ok(_) => Ok(()),
        } && unchanged
    } else {
        owned_release_owed(s, memory, owned->Ok_0) ==> registered_as(registration_refusal(s, pointer, shape), r)
    }
}

/// Some shape derived for `access` gives the drop result `r`.
pub open spec fn drop_witnessed(
    s: Interpreter,
    t: Interpreter,
    before: RuntimeLoanShadow,
    after: RuntimeLoanShadow,
    memory: VirMemorySchema,
    pointer: VirRuntimePointer,
    access: VirMemoryAccess,
    r: Result<(), VirExecutionError>,
) -> bool {
    exists|shape: VirObjectShape| #[trigger] shape_matches(memory, access, shape) && drop_result(s, t, before, after, memory, pointer, shape, r)
}

/// What deinitializing the object of shape `shape` at `pointer` in `s`
/// gives, with `t` the state after: a size or type refusal, an offsets
/// fault, or (for a complete value) a value fault leaves the state as it
/// was; storage with resources or variants cannot be reset piecemeal;
/// otherwise the object's bytes are cleared unless the registry is full.
pub open spec fn deinitialize_result(
    s: Interpreter,
    t: Interpreter,
    memory: VirMemorySchema,
    pointer: VirRuntimePointer,
    shape: VirObjectShape,
    require_complete: bool,
    r: Result<(), VirExecutionError>,
) -> bool {
    let offsets = s.active_offsets(memory, pointer, shape);
    if shape.spec_size_bytes() > s.config.max_object_effect_bytes {
        r matches Err(e) && e.spec_kind() == (VirExecutionErrorKind::ObjectEffectSizeLimitExceeded {
            requested: shape.spec_size_bytes(),
            limit: s.config.max_object_effect_bytes,
        }) && t == s
    } else if !(memory.spec_type_capabilities(shape.spec_access().ty) matches Some(c) && c.spec_pointer_free_trivial()) {
        r matches Err(e) && e.spec_kind() == (VirExecutionErrorKind::UnsupportedObjectEffectType { access: shape.spec_access() }) && t == s
    } else if s.offsets_fault(memory, pointer, shape) is Some {
        r matches Err(e) && Some(e.spec_kind()) == s.offsets_fault(memory, pointer, shape) && t == s
    } else if require_complete && s.value_fault(memory, pointer, shape, offsets) is Some {
        r matches Err(e) && Some(e.spec_kind()) == s.value_fault(memory, pointer, shape, offsets) && t == s
    } else if (!require_complete && !(shape.spec_resource_leaves().len() == 0 && shape.spec_variants().len() == 0)) || !fits_after(
        pointer.offset_bytes,
        offsets,
    ) {
        r matches Err(e) && e.spec_kind() == VirExecutionErrorKind::InvalidRuntimeState && t == s
    } else {
        registered_as(registration_refusal(s, pointer, shape), r) && (r is Ok ==> bytes_cleared(&t, &s, pointer.allocation, pointer.offset_bytes, offsets))
    }
}

/// Some shape derived for `access` gives the deinitialization result `r`.
pub open spec fn deinitialize_witnessed(
    s: Interpreter,
    t: Interpreter,
    memory: VirMemorySchema,
    pointer: VirRuntimePointer,
    access: VirMemoryAccess,
    require_complete: bool,
    r: Result<(), VirExecutionError>,
) -> bool {
    exists|shape: VirObjectShape| #[trigger] shape_matches(memory, access, shape) && deinitialize_result(s, t, memory, pointer, shape, require_complete, r)
}

/// What resetting the resource storage of the object of shape `shape` at
/// `pointer` in `s` gives, with `t` the state after: a size refusal, a shape
/// without resources or with variants or raw pointers, payloads still held,
/// resource bytes still set, or an offsets fault leave the state as it was;
/// otherwise the object's bytes are cleared unless the registry is full.
pub open spec fn storage_reset_result(
    s: Interpreter,
    t: Interpreter,
    memory: VirMemorySchema,
    pointer: VirRuntimePointer,
    access: VirMemoryAccess,
    shape: VirObjectShape,
    r: Result<(), VirExecutionError>,
) -> bool {
    let offsets = s.active_offsets(memory, pointer, shape);
    let a = s.allocations@[pointer.allocation];
    if shape.spec_size_bytes() > s.config.max_object_effect_bytes {
        r matches Err(e) && e.spec_kind() == (VirExecutionErrorKind::ObjectEffectSizeLimitExceeded {
            requested: shape.spec_size_bytes(),
            limit: s.config.max_object_effect_bytes,
        }) && t == s
    } else if !(shape.spec_resource_leaves().len() > 0 && shape.spec_variants().len() == 0 && forall|i: int|
        0 <= i < shape.spec_resource_leaves().len() ==> (#[trigger] shape.spec_resource_leaves()[i]).spec_kind() != VirPointerKind::Raw) {
        r matches Err(e) && e.spec_kind() == (VirExecutionErrorKind::UnsupportedObjectEffectType { access }) && t == s
    } else if !s.allocations@.contains_key(pointer.allocation) {
        r matches Err(e) && e.spec_kind() == VirExecutionErrorKind::InvalidRuntimeState && t == s
    } else if a.resource_payloads@.len() > 0 {
        r matches Err(e) && e.spec_kind() == (VirExecutionErrorKind::AllocationContainsResourcePayload { allocation: pointer.allocation })
            && t == s
    } else if !resource_bytes_clear(a.bytes@, pointer.offset_bytes, shape) {
        r matches Err(e) && e.spec_kind() == VirExecutionErrorKind::InvalidRuntimeState && t == s
    } else if s.offsets_fault(memory, pointer, shape) is Some {
        r matches Err(e) && Some(e.spec_kind()) == s.offsets_fault(memory, pointer, shape) && t == s
    } else if !fits_after(pointer.offset_bytes, offsets) {
        r matches Err(e) && e.spec_kind() == VirExecutionErrorKind::InvalidRuntimeState && t == s
    } else {
        registered_as(registration_refusal(s, pointer, shape), r) && (r is Ok ==> bytes_cleared(&t, &s, pointer.allocation, pointer.offset_bytes, offsets))
    }
}

/// Some shape derived for `access` gives the storage reset result `r`.
pub open spec fn storage_reset_witnessed(
    s: Interpreter,
    t: Interpreter,
    memory: VirMemorySchema,
    pointer: VirRuntimePointer,
    access: VirMemoryAccess,
    r: Result<(), VirExecutionError>,
) -> bool {
    exists|shape: VirObjectShape| #[trigger] shape_matches(memory, access, shape) && storage_reset_result(s, t, memory, pointer, access, shape, r)
}

/// What setting the discriminant of `variant` on the enum object of shape
/// `shape` at `pointer` in `s` gives, with `t` the state after: a size or
/// type refusal, a missing case, a payload over the object, an offsets
/// fault of the value it replaces, or an initialized tag byte it would
/// initialize refuses it and leaves the state as it was; otherwise the tag
/// is written unless the registry is full or the tag cannot be encoded.
pub open spec fn set_discriminant_result(
    s: Interpreter,
    t: Interpreter,
    memory: VirMemorySchema,
    pointer: VirRuntimePointer,
    shape: VirObjectShape,
    variant: VirVariantId,
    mode: VirObjectDestinationMode,
    r: Result<(), VirExecutionError>,
) -> bool {
    let size = shape.spec_size_bytes();
    let c = case_for_variant(shape.spec_variants(), Seq::empty(), variant);
    let a = s.allocations@[pointer.allocation];
    let type_ok = if mode == VirObjectDestinationMode::Initialize {
        observable(memory, shape)
    } else {
        memory.spec_type_capabilities(shape.spec_access().ty) matches Some(cap) && cap.spec_pointer_free_trivial()
    };
    let refused_as = |k: VirExecutionErrorKind| r matches Err(e) && e.spec_kind() == k && t == s;
    if size > s.config.max_object_effect_bytes {
        refused_as(VirExecutionErrorKind::ObjectEffectSizeLimitExceeded { requested: size, limit: s.config.max_object_effect_bytes })
    } else if !type_ok {
        refused_as(VirExecutionErrorKind::UnsupportedObjectEffectType { access: shape.spec_access() })
    } else if c is None || pointer.offset_bytes + size > u64::MAX || !s.allocations@.contains_key(pointer.allocation) {
        refused_as(VirExecutionErrorKind::InvalidRuntimeState)
    } else if exists|k: (u64, u32, u32)| #[trigger] a.resource_payloads@.contains_key(k) && payload_overlaps(
        memory,
        k,
        pointer.offset_bytes,
        pointer.offset_bytes + size,
    ) != Some(false) {
        refused_as(VirExecutionErrorKind::InvalidRuntimeState) || refused_as(
            VirExecutionErrorKind::AllocationContainsResourcePayload { allocation: pointer.allocation },
        )
    } else {
        let tag = shape.spec_variants()[c->0].spec_tag();
        let tag_start = pointer.offset_bytes + tag.spec_start_bytes();
        let tag_end = tag_start + (tag.spec_end_bytes() - tag.spec_start_bytes());
        if tag_start > u64::MAX {
            refused_as(VirExecutionErrorKind::InvalidRuntimeState)
        } else if mode == VirObjectDestinationMode::Replace && s.offsets_fault(memory, pointer, shape) is Some {
            refused_as(s.offsets_fault(memory, pointer, shape)->0)
        } else if tag_end > u64::MAX {
            refused_as(VirExecutionErrorKind::InvalidRuntimeState)
        } else if mode == VirObjectDestinationMode::Initialize && exists|o: u64| tag_start <= o < tag_end && #[trigger] a.bytes@.contains_key(o) {
            exists|o: u64|
                tag_start <= o < tag_end && #[trigger] a.bytes@.contains_key(o) && (forall|x: u64| tag_start <= x < o ==> !#[trigger] a.bytes@.contains_key(x))
                    && refused_as(VirExecutionErrorKind::InitializeAlreadyInitialized { allocation: pointer.allocation, offset_bytes: o })
        } else {
            let previous = if mode == VirObjectDestinationMode::Replace { s.active_offsets(memory, pointer, shape) } else { Set::<u64>::empty() };
            let retired = previous.union(case_value_offsets(shape.spec_variants()[c->0])).difference(range_offsets(tag));
            if tag.spec_end_bytes() - tag.spec_start_bytes() > usize::MAX || !fits_after(pointer.offset_bytes, retired) {
                refused_as(VirExecutionErrorKind::InvalidRuntimeState)
            } else {
                registered_as(registration_refusal(s, pointer, shape), r)
            }
        }
    }
}

/// Some shape derived for `access` gives the set-discriminant result `r`.
pub open spec fn set_discriminant_witnessed(
    s: Interpreter,
    t: Interpreter,
    memory: VirMemorySchema,
    pointer: VirRuntimePointer,
    access: VirMemoryAccess,
    variant: VirVariantId,
    mode: VirObjectDestinationMode,
    r: Result<(), VirExecutionError>,
) -> bool {
    exists|shape: VirObjectShape| #[trigger] shape_matches(memory, access, shape) && set_discriminant_result(s, t, memory, pointer, shape, variant, mode, r)
}

impl Interpreter {
    /// Releases what the `owned` payloads hold, in order: an owning pointer's
    /// allocation is freed, a reference's stored alias ended.
    fn release_owned(
        &mut self,
        memory: &VirMemorySchema,
        loan_shadow: &mut RuntimeLoanShadow,
        owned: &Vec<((u64, u32, u32), VirMemoryAccess, RuntimeOwnedPayload)>,
        access: VirMemoryAccess,
        source_span: ByteSpan,
    ) -> (r: Result<(), VirExecutionError>)
        requires
            old(loan_shadow).shadow_inv(),
        ensures
            final(loan_shadow).shadow_inv(),
            final(self).config == old(self).config,
            final(self).steps == old(self).steps,
            final(self).allocation_instances == old(self).allocation_instances,
            final(self).allocations@.dom() == old(self).allocations@.dom(),
            forall|id: u64| #[trigger] old(self).allocations@.contains_key(id) && old(self).allocations@[id].resource_payloads@.len() > 0
                ==> final(self).allocations@[id] == old(self).allocations@[id],
            forall|id: u64| #[trigger] old(self).allocations@.contains_key(id) ==> {
                let a = final(self).allocations@[id];
                let b = old(self).allocations@[id];
                &&& a.bytes@ == b.bytes@
                &&& a.resource_payloads@ == b.resource_payloads@
                &&& a.objects@ == b.objects@
            },
            r is Ok ==> forall|i: int| 0 <= i < owned@.len() && owns_allocation(*memory, #[trigger] owned@[i]) ==> {
                let id = owned@[i].2.pointer.allocation;
                final(self).allocations@.contains_key(id) && !final(self).allocations@[id].live
            },
            r is Ok ==> forall|i: int| 0 <= i < owned@.len() ==> release_kind_ok(*memory, #[trigger] owned@[i]),
            forall|id: u64| #[trigger] old(self).allocations@.contains_key(id) && (forall|i: int| 0 <= i < owned@.len()
                && owns_allocation(*memory, #[trigger] owned@[i]) ==> owned@[i].2.pointer.allocation != id)
                ==> final(self).allocations@[id] == old(self).allocations@[id],
            owned_release_owed(*old(self), *memory, owned@) ==> r is Ok && *final(loan_shadow) == *old(loan_shadow),
    {
        let ghost s0 = *self;
        let mut i: usize = 0;
        while i < owned.len()
            invariant
                0 <= i <= owned@.len(),
                loan_shadow.shadow_inv(),
                self.config == s0.config,
                self.steps == s0.steps,
                self.allocation_instances == s0.allocation_instances,
                self.allocations@.dom() == s0.allocations@.dom(),
                s0 == *old(self),
                forall|id: u64| #[trigger] s0.allocations@.contains_key(id) && s0.allocations@[id].resource_payloads@.len() > 0
                    ==> self.allocations@[id] == s0.allocations@[id],
                forall|id: u64| #[trigger] s0.allocations@.contains_key(id) ==> {
                    let a = self.allocations@[id];
                    let b = s0.allocations@[id];
                    &&& a.bytes@ == b.bytes@
                    &&& a.resource_payloads@ == b.resource_payloads@
                    &&& a.objects@ == b.objects@
                },
                forall|x: int| 0 <= x < i && owns_allocation(*memory, #[trigger] owned@[x]) ==> {
                    let id = owned@[x].2.pointer.allocation;
                    self.allocations@.contains_key(id) && !self.allocations@[id].live
                },
                forall|x: int| 0 <= x < i ==> release_kind_ok(*memory, #[trigger] owned@[x]),
                forall|id: u64| #[trigger] s0.allocations@.contains_key(id) && (forall|x: int| 0 <= x < i
                    && owns_allocation(*memory, #[trigger] owned@[x]) ==> owned@[x].2.pointer.allocation != id)
                    ==> self.allocations@[id] == s0.allocations@[id],
                owned_release_owed(s0, *memory, owned@) ==> *loan_shadow == *old(loan_shadow),
            decreases owned.len() - i,
        {
            let (key, leaf_access, payload) = owned[i];
            let ghost before = *self;
            let kind = match memory.kind(leaf_access.ty) {
                Some(VirMemoryTypeKind::Pointer { kind, .. }) => Some(*kind),
                _ => None,
            };
            match kind {
                Some(VirPointerKind::Own) => {
                    if payload.loan_authority.is_some() {
                        return Err(error(VirExecutionErrorKind::InvalidRuntimeState, source_span));
                    }
                    self.free(payload.pointer, payload.permission, source_span)?;
                    proof {
                        let id = payload.pointer.allocation;
                        assert(before.allocations@.contains_key(id));
                        assert(before.allocations@[id].resource_payloads@.len() == 0);
                        assert forall|x: int| 0 <= x < i + 1 && owns_allocation(*memory, #[trigger] owned@[x]) implies {
                            let y = owned@[x].2.pointer.allocation;
                            self.allocations@.contains_key(y) && !self.allocations@[y].live
                        } by {
                            let y = owned@[x].2.pointer.allocation;
                            if y != id {
                                assert(before.allocations@.contains_key(y));
                            }
                        }
                    }
                },
                Some(VirPointerKind::Reference) => {
                    let authority = match payload.loan_authority {
                        Some(a) => a,
                        None => return Err(error(VirExecutionErrorKind::InvalidRuntimeState, source_span)),
                    };
                    loan_shadow.end_stored(authority, payload.pointer, leaf_access, source_span)?;
                },
                _ => {
                    return Err(error(VirExecutionErrorKind::UnsupportedObjectEffectType { access }, source_span));
                },
            }
            i = i + 1;
        }
        Ok(())
    }
}

/// Removes every key of `owned` from `payloads`.
fn remove_owned_keys(
    payloads: &mut BTreeMap<(u64, u32, u32), RuntimeOwnedPayload>,
    owned: &Vec<((u64, u32, u32), VirMemoryAccess, RuntimeOwnedPayload)>,
)
    ensures
        final(payloads)@ == old(payloads)@.remove_keys(owned_keys(owned@)),
{
    let ghost original = payloads@;
    let mut i: usize = 0;
    while i < owned.len()
        invariant
            0 <= i <= owned@.len(),
            payloads@ == original.remove_keys(owned_keys(owned@.take(i as int))),
        decreases owned.len() - i,
    {
        let key = owned[i].0;
        payloads.remove(&key);
        proof {
            assert(owned_keys(owned@.take(i + 1)) =~= owned_keys(owned@.take(i as int)).insert(key)) by {
                assert forall|k: (u64, u32, u32)| owned_keys(owned@.take(i + 1)).contains(k) implies owned_keys(owned@.take(i as int)).insert(
                    key,
                ).contains(k) by {
                    let x = choose|x: int| 0 <= x < owned@.take(i + 1).len() && (#[trigger] owned@.take(i + 1)[x]).0 == k;
                    if x < i {
                        assert(owned@.take(i as int)[x] == owned@.take(i + 1)[x]);
                    }
                }
                assert forall|k: (u64, u32, u32)| owned_keys(owned@.take(i as int)).insert(key).contains(k) implies owned_keys(
                    owned@.take(i + 1),
                ).contains(k) by {
                    if k == key {
                        assert(owned@.take(i + 1)[i as int].0 == k);
                    } else {
                        let x = choose|x: int| 0 <= x < owned@.take(i as int).len() && (#[trigger] owned@.take(i as int)[x]).0 == k;
                        assert(owned@.take(i + 1)[x] == owned@.take(i as int)[x]);
                    }
                }
            }
            assert(payloads@ =~= original.remove_keys(owned_keys(owned@.take(i + 1))));
        }
        i = i + 1;
    }
    proof {
        assert(owned@.take(owned@.len() as int) == owned@);
    }
}

/// Whether the object of shape `shape` at `pointer` in `allocation` has
/// nothing to drop.
fn skips_drop(
    allocation: &Allocation,
    memory: &VirMemorySchema,
    pointer: VirRuntimePointer,
    shape: &VirObjectShape,
    end: u64,
) -> (r: bool)
    requires
        end == pointer.offset_bytes + shape.spec_size_bytes(),
    ensures
        r == (allocation.kind == RuntimeAllocationKind::Heap && shape.spec_variants().len() > 0 && (forall|i: int, o: u64|
            0 <= i < shape.spec_value_bytes().len() && #[trigger] in_range(shape.spec_value_bytes()[i], o) ==> byte_clear(
                allocation.bytes@,
                pointer.offset_bytes,
                o,
            )) && forall|k: (u64, u32, u32)| #[trigger] allocation.resource_payloads@.contains_key(k) ==> payload_overlaps(
            *memory,
            k,
            pointer.offset_bytes,
            pointer.offset_bytes + shape.spec_size_bytes(),
        ) == Some(false)),
{
    if allocation.kind != RuntimeAllocationKind::Heap || shape.variants().len() == 0 {
        return false;
    }
    let ranges = shape.value_bytes();
    let mut i: usize = 0;
    while i < ranges.len()
        invariant
            0 <= i <= ranges@.len(),
            ranges@ == shape.spec_value_bytes(),
            forall|x: int, o: u64| 0 <= x < i && #[trigger] in_range(ranges@[x], o) ==> byte_clear(allocation.bytes@, pointer.offset_bytes, o),
        decreases ranges.len() - i,
    {
        if !range_clear(&allocation.bytes, pointer.offset_bytes, ranges[i]) {
            proof {
                let o = choose|o: u64| #[trigger] in_range(ranges@[i as int], o) && !(pointer.offset_bytes + o <= u64::MAX
                    && !allocation.bytes@.contains_key((pointer.offset_bytes + o) as u64));
                assert(!byte_clear(allocation.bytes@, pointer.offset_bytes, o));
            }
            return false;
        }
        proof {
            assert forall|x: int, o: u64| 0 <= x < i + 1 && #[trigger] in_range(ranges@[x], o) implies byte_clear(
                allocation.bytes@,
                pointer.offset_bytes,
                o,
            ) by {
                if x == i {
                    assert(pointer.offset_bytes + o <= u64::MAX && !allocation.bytes@.contains_key((pointer.offset_bytes + o) as u64));
                }
            }
        }
        i = i + 1;
    }
    payload_conflict(&allocation.resource_payloads, memory, pointer.offset_bytes, end).is_none()
}

impl Interpreter {
    /// Drops the object of type `access` at `pointer`: the payloads its
    /// active resource leaves own are released (owning pointers freed,
    /// stored reference aliases ended), and its payload keys and active
    /// bytes retired. A never-constructed heap object is left alone.
    pub fn object_drop(
        &mut self,
        memory: &VirMemorySchema,
        loan_shadow: &mut RuntimeLoanShadow,
        pointer: VirRuntimePointer,
        permission: VirRuntimePermission,
        access: VirMemoryAccess,
        source_span: ByteSpan,
    ) -> (r: Result<(), VirExecutionError>)
        requires
            old(loan_shadow).shadow_inv(),
        ensures
            final(loan_shadow).shadow_inv(),
            match spec_access_fault(&*old(self), *memory, pointer, permission, access) {
                Some(k) => r matches Err(e) && e.spec_kind() == k && *final(self) == *old(self) && final(loan_shadow).same_state(
                    &*old(loan_shadow),
                ),
                None => r is Ok ==> exists|shape: VirObjectShape|
                    {
                        let before = old(self).allocations@[pointer.allocation];
                        let owned = old(self).owned_from(*memory, pointer, shape, shape.spec_resource_leaves().len() as int);
                        &&& #[trigger] shape_matches(*memory, access, shape)
                        &&& shape.spec_size_bytes() <= old(self).config.max_object_effect_bytes
                        &&& if drop_skips(&*old(self), *memory, pointer, shape) {
                            *final(self) == *old(self) && final(loan_shadow).same_state(&*old(loan_shadow))
                        } else {
                            &&& old(self).offsets_fault(*memory, pointer, shape) is None
                            &&& owned is Ok
                            &&& final(self).allocations@.dom() == old(self).allocations@.dom()
                            &&& final(self).allocations@[pointer.allocation].bytes@ == before.bytes@.remove_keys(
                                shifted(pointer.offset_bytes, old(self).active_offsets(*memory, pointer, shape)),
                            )
                            &&& final(self).allocations@[pointer.allocation].resource_payloads@ == before.resource_payloads@.remove_keys(
                                owned_keys(owned->Ok_0),
                            )
                            &&& forall|i: int| 0 <= i < owned->Ok_0.len() && owns_allocation(*memory, #[trigger] owned->Ok_0[i]) ==> {
                                let id = owned->Ok_0[i].2.pointer.allocation;
                                final(self).allocations@.contains_key(id) && !final(self).allocations@[id].live
                            }
                        }
                    },
            },
            spec_access_fault(&*old(self), *memory, pointer, permission, access) is None ==> (r matches Err(e) && e.spec_kind()
                == VirExecutionErrorKind::InvalidRuntimeState && !shape_promised(*memory, access)) || drop_witnessed(
                *old(self),
                *final(self),
                *old(loan_shadow),
                *final(loan_shadow),
                *memory,
                pointer,
                access,
                r,
            ),
    {
        self.check_access(memory, pointer, permission, access, source_span)?;
        let shape = match memory.object_shape(access) {
            Ok(shape) => shape,
            Err(_) => return Err(error(VirExecutionErrorKind::InvalidRuntimeState, source_span)),
        };
        let ghost l0 = *loan_shadow;
        proof {
            assert(loan_shadow.same_state(&l0));
        }
        let r0 = self.check_object_effect_size(shape.size_bytes(), source_span);
        if let Err(e) = r0 {
            proof {
                assert(drop_witnessed(*self, *self, l0, *loan_shadow, *memory, pointer, access, Err(e)));
            }
            return Err(e);
        }
        let r1 = ensure_runtime_object_drop_type(memory, &shape, source_span);
        if let Err(e) = r1 {
            proof {
                assert(drop_witnessed(*self, *self, l0, *loan_shadow, *memory, pointer, access, Err(e)));
            }
            return Err(e);
        }
        let end = match pointer.offset_bytes.checked_add(shape.size_bytes()) {
            Some(e) => e,
            None => return Err(error(VirExecutionErrorKind::InvalidRuntimeState, source_span)),
        };
        let allocation = match self.allocations.get(&pointer.allocation) {
            Some(a) => a,
            None => return Err(error(VirExecutionErrorKind::InvalidRuntimeState, source_span)),
        };
        if skips_drop(allocation, memory, pointer, &shape, end) {
            proof {
                assert(drop_witnessed(*self, *self, l0, *loan_shadow, *memory, pointer, access, Ok(())));
            }
            return Ok(());
        }
        let offsets = match self.active_object_offsets(memory, pointer, &shape, source_span) {
            Ok(o) => o,
            Err(e) => {
                proof {
                    assert(drop_witnessed(*self, *self, l0, *loan_shadow, *memory, pointer, access, Err(e)));
                }
                return Err(e);
            },
        };
        if !all_fit(pointer.offset_bytes, &offsets) {
            return Err(error(VirExecutionErrorKind::InvalidRuntimeState, source_span));
        }
        let owned = match self.owned_payloads(memory, pointer, &shape, source_span) {
            Ok(o) => o,
            Err(e) => {
                proof {
                    assert(drop_witnessed(*self, *self, l0, *loan_shadow, *memory, pointer, access, Err(e)));
                }
                return Err(e);
            },
        };
        let ghost s0 = *self;
        proof {
            let before = s0.allocations@[pointer.allocation];
            if owned@.len() > 0 {
                assert(before.resource_payloads@.contains_key(owned@[0].0)) by {
                    lemma_owned_keys_held(s0, *memory, pointer, shape, shape.spec_resource_leaves().len() as int, 0);
                }
                assert(before.resource_payloads@.dom().finite());
                assert(before.resource_payloads@.len() > 0) by {
                    lemma_held_key_counts(before.resource_payloads@, owned@[0].0);
                }
            }
        }
        let rr = self.release_owned(memory, loan_shadow, &owned, access, source_span);
        if let Err(e) = rr {
            proof {
                assert(!owned_release_owed(s0, *memory, owned@));
                assert(drop_result(s0, *self, l0, *loan_shadow, *memory, pointer, shape, Err(e)));
                assert(drop_witnessed(s0, *self, l0, *loan_shadow, *memory, pointer, access, Err(e)));
            }
            return Err(e);
        }
        let ghost s1 = *self;
        let mut target = match self.allocations.remove(&pointer.allocation) {
            Some(a) => a,
            None => return Err(error(VirExecutionErrorKind::InvalidRuntimeState, source_span)),
        };
        remove_owned_keys(&mut target.resource_payloads, &owned);
        remove_relative(&mut target.bytes, pointer.offset_bytes, &offsets);
        self.allocations.insert(pointer.allocation, target);
        let ghost s2 = *self;
        let rg = self.register_runtime_object(pointer, &shape, source_span);
        if let Err(e) = rg {
            proof {
                assert(drop_result(s0, *self, l0, *loan_shadow, *memory, pointer, shape, Err(e)));
                assert(drop_witnessed(s0, *self, l0, *loan_shadow, *memory, pointer, access, Err(e)));
            }
            return Err(e);
        }
        proof {
            assert(self.allocations@.dom() =~= s0.allocations@.dom());
            assert forall|i: int| 0 <= i < owned@.len() && owns_allocation(*memory, #[trigger] owned@[i]) implies {
                let id = owned@[i].2.pointer.allocation;
                self.allocations@.contains_key(id) && !self.allocations@[id].live
            } by {
                let id = owned@[i].2.pointer.allocation;
                assert(s1.allocations@.contains_key(id) && !s1.allocations@[id].live);
                if id == pointer.allocation {
                    lemma_owned_keys_held(s0, *memory, pointer, shape, shape.spec_resource_leaves().len() as int, i);
                    assert(s0.allocations@[id].resource_payloads@.dom().finite());
                    lemma_held_key_counts(s0.allocations@[id].resource_payloads@, owned@[i].0);
                    assert(s1.allocations@[id] == s0.allocations@[id]);
                } else {
                    assert(s2.allocations@[id] == s1.allocations@[id]);
                }
            }
            assert(drop_result(s0, *self, l0, *loan_shadow, *memory, pointer, shape, Ok(())));
            assert(drop_witnessed(s0, *self, l0, *loan_shadow, *memory, pointer, access, Ok(())));
        }
        Ok(())
    }
}

/// A finite map holding a key is not empty.
pub proof fn lemma_held_key_counts<K, V>(m: Map<K, V>, k: K)
    requires
        m.dom().finite(),
        m.dom().contains(k),
    ensures
        m.len() > 0,
{
    assert(m.dom().remove(k).len() + 1 == m.dom().len());
}

/// Every collected payload is stored under its key.
pub proof fn lemma_owned_keys_held(s: Interpreter, memory: VirMemorySchema, pointer: VirRuntimePointer, shape: VirObjectShape, n: int, i: int)
    requires
        s.owned_from(memory, pointer, shape, n) is Ok,
        0 <= i < s.owned_from(memory, pointer, shape, n)->Ok_0.len(),
    ensures
        s.allocations@[pointer.allocation].resource_payloads@.contains_key(s.owned_from(memory, pointer, shape, n)->Ok_0[i].0),
    decreases n,
{
    if n > 0 {
        let prev = s.owned_from(memory, pointer, shape, n - 1)->Ok_0;
        if i < prev.len() {
            lemma_owned_keys_held(s, memory, pointer, shape, n - 1, i);
        }
    }
}

} // verus!
