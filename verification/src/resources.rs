//! Owning pointer payloads stored in memory: the bits a resource slot shows
//! are opaque, and the pointer, permission and loan authority live beside
//! them, keyed by the slot.

use vstd::prelude::*;

use crate::ids::ByteSpan;
use crate::memory::{VirMemoryAccess, VirMemorySchema, VirMemoryTypeKind, VirPointerKind};
use crate::runtime::{
    Allocation, Interpreter, RuntimeLoanAuthority, RuntimeOwnedPayload, VIR_INTERPRETER_MAX_RESOURCE_PAYLOADS, VirExecutionError,
    VirExecutionErrorKind, VirRuntimePermission, VirRuntimePointer, error, payload_key, runtime_storable_resource, spec_access_fault,
};
use crate::scalar_memory::{WriteKind, loaded, spec_encode_u64, stored, with_bytes, write_refusal, written};

verus! {

broadcast use {vstd::laws_cmp::group_laws_cmp, vstd::std_specs::btree::group_btree_axioms};

/// `x` rotated left by 17 bits.
pub open spec fn rotate_left_17(x: u64) -> u64 {
    ((x % 0x8000_0000_0000) * 0x2_0000 + x / 0x8000_0000_0000) as u64
}

/// The bits a resource slot shows for `pointer`: a scrambling of its
/// allocation and offset that no program can turn back into authority.
pub open spec fn spec_pointer_bits(pointer: VirRuntimePointer) -> u64 {
    ((rotate_left_17(((pointer.allocation + 1) % 0x1_0000_0000_0000_0000) as u64) + pointer.offset_bytes)
        % 0x1_0000_0000_0000_0000) as u64
}

pub fn opaque_runtime_pointer_bits(pointer: VirRuntimePointer) -> (r: u64)
    ensures
        r == spec_pointer_bits(pointer),
{
    let x = pointer.allocation.wrapping_add(1);
    let high = x / 0x8000_0000_0000;
    let low = x % 0x8000_0000_0000;
    assert(low * 0x2_0000 + high < 0x1_0000_0000_0000_0000) by (nonlinear_arith)
        requires
            low < 0x8000_0000_0000,
            high < 0x2_0000,
    ;
    let rotated = low * 0x2_0000 + high;
    rotated.wrapping_add(pointer.offset_bytes)
}

/// Why storing `value` as a resource of type `access` at `destination`
/// refuses before any byte is written, in the order the checks are made.
pub open spec fn resource_refusal(
    interp: &Interpreter,
    memory: VirMemorySchema,
    destination: VirRuntimePointer,
    destination_permission: VirRuntimePermission,
    value: VirRuntimePointer,
    value_permission: VirRuntimePermission,
    loan_authority: Option<RuntimeLoanAuthority>,
    access: VirMemoryAccess,
) -> Option<VirExecutionErrorKind> {
    match memory.spec_kind(access.ty) {
        Some(VirMemoryTypeKind::Pointer { pointee, kind, .. }) => if kind == VirPointerKind::Raw || memory.spec_access(pointee) is None {
            Some(VirExecutionErrorKind::UnsupportedObjectEffectType { access })
        } else if value.access != memory.spec_access(pointee)->0 {
            Some(VirExecutionErrorKind::AddressTypeMismatch { found: value.access, expected: memory.spec_access(pointee)->0 })
        } else {
            let ownership = if kind == VirPointerKind::Own {
                match interp.spec_liveness(value.allocation) {
                    Err(k) => Some(k),
                    Ok(owned) => if loan_authority is Some || value.offset_bytes != 0 || value_permission.allocation != value.allocation
                        || value_permission.start_bytes != 0 || value_permission.end_bytes != owned.size_bytes
                        || !value_permission.can_free_when_complete {
                        Some(VirExecutionErrorKind::InvalidFree { allocation: value.allocation, offset_bytes: value.offset_bytes })
                    } else {
                        None
                    },
                }
            } else if loan_authority is None || value_permission.can_free_when_complete || value_permission.allocation != value.allocation
                || value.offset_bytes < value_permission.start_bytes || value.offset_bytes >= value_permission.end_bytes {
                Some(VirExecutionErrorKind::InvalidRuntimeState)
            } else {
                None
            };
            match ownership {
                Some(k) => Some(k),
                None => match spec_access_fault(interp, memory, destination, destination_permission, access) {
                    Some(k) => Some(k),
                    None => {
                        let payloads = interp.allocations@[destination.allocation].resource_payloads@;
                        if !payloads.contains_key(payload_key(destination.offset_bytes, access)) && payloads.len()
                            >= VIR_INTERPRETER_MAX_RESOURCE_PAYLOADS {
                            Some(VirExecutionErrorKind::ResourcePayloadLimitExceeded {
                                allocation: destination.allocation,
                                limit: VIR_INTERPRETER_MAX_RESOURCE_PAYLOADS,
                            })
                        } else {
                            None
                        }
                    },
                },
            }
        },
        _ => Some(VirExecutionErrorKind::UnsupportedObjectEffectType { access }),
    }
}

/// `after` is `before` with `payload` stored as a resource of type `access`
/// at `destination`: the slot shows the payload's opaque bits and the
/// payload sits under the slot's key.
pub open spec fn payload_stored(
    before: &Interpreter,
    after: &Interpreter,
    memory: VirMemorySchema,
    destination: VirRuntimePointer,
    access: VirMemoryAccess,
    payload: RuntimeOwnedPayload,
) -> bool {
    let a = before.allocations@[destination.allocation];
    let size = memory.spec_layout(access.layout)->0.size_bytes as nat;
    let bits = spec_encode_u64(spec_pointer_bits(payload.pointer), size, memory.target.endianness);
    &&& before.allocations@.contains_key(destination.allocation)
    &&& memory.spec_layout(access.layout) is Some
    &&& after.allocations@.dom() == before.allocations@.dom()
    &&& forall|id: u64| id != destination.allocation ==> #[trigger] after.allocations@[id] == before.allocations@[id]
    &&& after.allocations@[destination.allocation].resource_payloads@ == a.resource_payloads@.insert(
        payload_key(destination.offset_bytes, access),
        payload,
    )
    &&& after.allocations@[destination.allocation].bytes@ == written(a.bytes@, destination.offset_bytes, bits)
    &&& after.allocations@[destination.allocation].size_bytes == a.size_bytes
    &&& after.allocations@[destination.allocation].live == a.live
    &&& after.allocations@[destination.allocation].objects@ == a.objects@
    &&& after.config == before.config
    &&& after.steps == before.steps
    &&& after.allocation_instances == before.allocation_instances
}

/// `after` is `before` with the resource of type `access` at `source` taken
/// out: `payload` was stored there, and its key and bytes are gone.
pub open spec fn payload_taken(
    before: &Interpreter,
    after: &Interpreter,
    memory: VirMemorySchema,
    source: VirRuntimePointer,
    access: VirMemoryAccess,
    payload: RuntimeOwnedPayload,
) -> bool {
    let a = before.allocations@[source.allocation];
    let key = payload_key(source.offset_bytes, access);
    let size = memory.spec_layout(access.layout)->0.size_bytes;
    &&& before.allocations@.contains_key(source.allocation)
    &&& memory.spec_layout(access.layout) is Some
    &&& a.resource_payloads@.contains_key(key)
    &&& payload == a.resource_payloads@[key]
    &&& after.allocations@.dom() == before.allocations@.dom()
    &&& forall|id: u64| id != source.allocation ==> #[trigger] after.allocations@[id] == before.allocations@[id]
    &&& after.allocations@[source.allocation].resource_payloads@ == a.resource_payloads@.remove(key)
    &&& after.allocations@[source.allocation].bytes@ == a.bytes@.remove_keys(
        Set::new(|o: u64| source.offset_bytes <= o && o < source.offset_bytes + size),
    )
    &&& after.config == before.config
    &&& after.steps == before.steps
    &&& after.allocation_instances == before.allocation_instances
}

/// Taking a resource back out of a slot gives the payload last stored there.
pub proof fn lemma_take_after_store(
    s0: &Interpreter,
    s1: &Interpreter,
    s2: &Interpreter,
    memory: VirMemorySchema,
    slot: VirRuntimePointer,
    access: VirMemoryAccess,
    stored_payload: RuntimeOwnedPayload,
    taken_payload: RuntimeOwnedPayload,
)
    requires
        payload_stored(s0, s1, memory, slot, access, stored_payload),
        payload_taken(s1, s2, memory, slot, access, taken_payload),
    ensures
        taken_payload == stored_payload,
        !s2.allocations@[slot.allocation].resource_payloads@.contains_key(payload_key(slot.offset_bytes, access)),
{
}

impl Interpreter {
    /// Stores owning pointer `value`, with its permission and loan authority,
    /// as a resource of type `access` at `destination`.
    pub fn resource_initialize(
        &mut self,
        memory: &VirMemorySchema,
        destination: VirRuntimePointer,
        destination_permission: VirRuntimePermission,
        value: VirRuntimePointer,
        value_permission: VirRuntimePermission,
        loan_authority: Option<RuntimeLoanAuthority>,
        access: VirMemoryAccess,
        source_span: ByteSpan,
    ) -> (r: Result<(), VirExecutionError>)
        ensures
            r is Err ==> final(self).allocations@ == old(self).allocations@,
            r is Ok ==> payload_stored(&*old(self), &*final(self), *memory, destination, access, RuntimeOwnedPayload {
                pointer: value,
                permission: value_permission,
                loan_authority,
            }),
            match resource_refusal(&*old(self), *memory, destination, destination_permission, value, value_permission, loan_authority, access) {
                Some(k) => r matches Err(e) && e.spec_kind() == k,
                None => {
                    let a = old(self).allocations@[destination.allocation];
                    let size = memory.spec_layout(access.layout)->0.size_bytes;
                    &&& r is Ok ==> write_refusal(a.bytes@, destination, size, WriteKind::Initialize) is None
                    &&& a.objects@.len() == 0 && size <= usize::MAX ==> match write_refusal(a.bytes@, destination, size, WriteKind::Initialize) {
                        Some(k) => r matches Err(e) && e.spec_kind() == k,
                        None => r is Ok,
                    }
                    &&& size <= usize::MAX ==> (r matches Err(e) && old(self).scalar_access_kind_result(*memory, destination, Err(e.spec_kind())))
                        || (old(self).scalar_access_kind_result(*memory, destination, Ok(())) && match write_refusal(
                        a.bytes@,
                        destination,
                        size,
                        WriteKind::Initialize,
                    ) {
                        Some(k) => r matches Err(e) && e.spec_kind() == k,
                        None => r is Ok,
                    })
                },
            },
    {
        let (pointee, kind) = runtime_storable_resource(memory, access, source_span)?;
        if value.access != pointee {
            return Err(error(VirExecutionErrorKind::AddressTypeMismatch { found: value.access, expected: pointee }, source_span));
        }
        if kind == VirPointerKind::Own {
            let owned_size = self.live_allocation(value.allocation, source_span)?.size_bytes;
            if loan_authority.is_some() || value.offset_bytes != 0 || value_permission.allocation != value.allocation
                || value_permission.start_bytes != 0 || value_permission.end_bytes != owned_size
                || !value_permission.can_free_when_complete {
                return Err(error(VirExecutionErrorKind::InvalidFree { allocation: value.allocation, offset_bytes: value.offset_bytes }, source_span));
            }
        } else if loan_authority.is_none() || value_permission.can_free_when_complete || value_permission.allocation != value.allocation
            || value.offset_bytes < value_permission.start_bytes || value.offset_bytes >= value_permission.end_bytes {
            return Err(error(VirExecutionErrorKind::InvalidRuntimeState, source_span));
        }
        self.check_access(memory, destination, destination_permission, access, source_span)?;
        let key = (destination.offset_bytes, access.ty.0, access.layout.0);
        let full = match self.allocations.get(&destination.allocation) {
            Some(a) => !a.resource_payloads.contains_key(&key) && a.resource_payloads.len() >= VIR_INTERPRETER_MAX_RESOURCE_PAYLOADS,
            None => return Err(error(VirExecutionErrorKind::InvalidRuntimeState, source_span)),
        };
        if full {
            return Err(error(VirExecutionErrorKind::ResourcePayloadLimitExceeded {
                allocation: destination.allocation,
                limit: VIR_INTERPRETER_MAX_RESOURCE_PAYLOADS,
            }, source_span));
        }
        let ghost s0 = *self;
        let bits = opaque_runtime_pointer_bits(value);
        self.write_memory(memory, destination, destination_permission, bits, WriteKind::Initialize, access, source_span)?;
        let ghost s1 = *self;
        let mut allocation = match self.allocations.remove(&destination.allocation) {
            Some(a) => a,
            None => return Err(error(VirExecutionErrorKind::InvalidRuntimeState, source_span)),
        };
        allocation.resource_payloads.insert(key, RuntimeOwnedPayload { pointer: value, permission: value_permission, loan_authority });
        self.allocations.insert(destination.allocation, allocation);
        proof {
            assert(self.allocations@.dom() =~= s0.allocations@.dom());
            assert(stored(&s0, &s1, *memory, destination, access, bits));
        }
        Ok(())
    }

    /// Takes the resource of type `access` out of `source`: the slot must
    /// show initialized bits and hold a payload, both of which it loses.
    pub fn resource_take(
        &mut self,
        memory: &VirMemorySchema,
        source: VirRuntimePointer,
        source_permission: VirRuntimePermission,
        access: VirMemoryAccess,
        source_span: ByteSpan,
    ) -> (r: Result<RuntimeOwnedPayload, VirExecutionError>)
        ensures
            r is Err ==> final(self).allocations@ == old(self).allocations@,
            r matches Ok(p) ==> payload_taken(&*old(self), &*final(self), *memory, source, access, p),
            r is Ok ==> exists|bits: u64| loaded(&*old(self), *memory, source, access, bits),
            !(memory.spec_kind(access.ty) matches Some(VirMemoryTypeKind::Pointer { pointee, kind, .. }) && kind != VirPointerKind::Raw
                && memory.spec_access(pointee) is Some) ==> (r matches Err(e) && e.spec_kind() == (VirExecutionErrorKind::UnsupportedObjectEffectType { access })),
            (memory.spec_kind(access.ty) matches Some(VirMemoryTypeKind::Pointer { pointee, kind, .. }) && kind != VirPointerKind::Raw
                && memory.spec_access(pointee) is Some) ==> match spec_access_fault(&*old(self), *memory, source, source_permission, access) {
                Some(k) => r matches Err(e) && e.spec_kind() == k,
                None => {
                    let a = old(self).allocations@[source.allocation];
                    let size = memory.spec_layout(access.layout)->0.size_bytes;
                    a.objects@.len() == 0 && size <= usize::MAX && (exists|bits: u64| #[trigger] loaded(&*old(self), *memory, source, access, bits))
                        ==> if a.resource_payloads@.contains_key(payload_key(source.offset_bytes, access)) {
                        r == Ok::<RuntimeOwnedPayload, VirExecutionError>(a.resource_payloads@[payload_key(source.offset_bytes, access)])
                    } else {
                        r matches Err(e) && e.spec_kind() == (VirExecutionErrorKind::MissingResourcePayload {
                            allocation: source.allocation,
                            offset_bytes: source.offset_bytes,
                            access,
                        })
                    }
                },
            },
    {
        runtime_storable_resource(memory, access, source_span)?;
        let bits = self.load_memory(memory, source, source_permission, access, source_span)?;
        let key = (source.offset_bytes, access.ty.0, access.layout.0);
        let payload = match self.allocations.get(&source.allocation) {
            Some(a) => match a.resource_payloads.get(&key) {
                Some(p) => *p,
                None => {
                    return Err(error(VirExecutionErrorKind::MissingResourcePayload {
                        allocation: source.allocation,
                        offset_bytes: source.offset_bytes,
                        access,
                    }, source_span));
                },
            },
            None => return Err(error(VirExecutionErrorKind::InvalidRuntimeState, source_span)),
        };
        let width = match memory.layout(access.layout) {
            Some(l) => l.size_bytes,
            None => return Err(error(VirExecutionErrorKind::InvalidRuntimeState, source_span)),
        };
        let ghost s0 = *self;
        let mut allocation = match self.allocations.remove(&source.allocation) {
            Some(a) => a,
            None => return Err(error(VirExecutionErrorKind::InvalidRuntimeState, source_span)),
        };
        let ghost before_payloads = allocation.resource_payloads@;
        allocation.resource_payloads.remove(&key);
        let ghost original = allocation.bytes@;
        let mut offset = source.offset_bytes;
        let end = source.offset_bytes + width;
        while offset < end
            invariant
                source.offset_bytes <= offset <= end,
                end == source.offset_bytes + width,
                allocation.bytes@ == original.remove_keys(Set::new(|o: u64| source.offset_bytes <= o && o < offset)),
                allocation.resource_payloads@ == before_payloads.remove(key),
            decreases end - offset,
        {
            allocation.bytes.remove(&offset);
            proof {
                assert(allocation.bytes@ =~= original.remove_keys(Set::new(|o: u64| source.offset_bytes <= o && o < offset + 1)));
            }
            offset = offset + 1;
        }
        self.allocations.insert(source.allocation, allocation);
        proof {
            assert(self.allocations@.dom() =~= s0.allocations@.dom());
        }
        Ok(payload)
    }
}

} // verus!
