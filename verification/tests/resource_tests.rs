use std::collections::BTreeMap;

use lib::borrow::VirLoanRange;
use lib::ids::{ByteSpan, VirLayoutId, VirTypeId};
use lib::memory::{
    VirAbiClass, VirLayout, VirMemoryAccess, VirMemorySchema, VirMemoryType, VirMemoryTypeKind, VirMutability,
    VirPointerKind,
};
use lib::provenance::{VirPointerDomain, VirPointerPaths};
use lib::resources::opaque_runtime_pointer_bits;
use lib::runtime::{
    Allocation, Interpreter, RuntimeAllocationKind, VirExecutionErrorKind, VirInterpreterConfig, VirRuntimePermission,
    VirRuntimePointer,
};

fn pointer_schema() -> VirMemorySchema {
    let mut memory = VirMemorySchema::core_u64();
    let capabilities = memory.type_capabilities[0];
    for (index, kind) in [VirPointerKind::Own, VirPointerKind::Raw].into_iter().enumerate() {
        let id = index as u32 + 1;
        memory.types.push(VirMemoryType {
            id: VirTypeId(id),
            kind: VirMemoryTypeKind::Pointer { pointee: VirTypeId(0), kind, mutability: VirMutability::Mutable },
            layout: VirLayoutId(id),
        });
        memory.type_capabilities.push(capabilities);
        memory.layouts.push(VirLayout {
            id: VirLayoutId(id),
            ty: VirTypeId(id),
            size_bytes: 8,
            alignment: 8,
            abi: VirAbiClass::Scalar,
            fields: Vec::new(),
            variants: None,
        });
    }
    memory
}

fn allocation(size_bytes: u64) -> Allocation {
    Allocation {
        size_bytes,
        alignment: 8,
        kind: RuntimeAllocationKind::Heap,
        live: true,
        bytes: BTreeMap::new(),
        objects: Vec::new(),
        resource_payloads: BTreeMap::new(),
    }
}

fn pointer(allocation: u64, offset_bytes: u64, access: VirMemoryAccess, size: u64) -> VirRuntimePointer {
    VirRuntimePointer {
        allocation,
        offset_bytes,
        access,
        paths: VirPointerPaths::root(access),
        view_range: None,
        domain: VirPointerDomain::Restricted(VirLoanRange { start_bytes: 0, end_bytes: size }),
    }
}

fn whole(allocation: u64, size: u64) -> VirRuntimePermission {
    VirRuntimePermission { allocation, start_bytes: 0, end_bytes: size, can_free_when_complete: true }
}

#[test]
fn a_taken_resource_is_the_payload_last_stored() {
    let memory = pointer_schema();
    let span = ByteSpan::empty();
    let slot_access = VirMemoryAccess::new(VirTypeId(1), VirLayoutId(1));
    let mut interpreter = Interpreter::new(VirInterpreterConfig::default());
    interpreter.allocations.insert(1, allocation(16));
    interpreter.allocations.insert(2, allocation(8));
    let slot = pointer(1, 8, slot_access, 16);
    let owned = pointer(2, 0, VirMemoryAccess::core_u64(), 8);
    interpreter
        .resource_initialize(&memory, slot, whole(1, 16), owned, whole(2, 8), None, slot_access, span)
        .unwrap();
    let shown = opaque_runtime_pointer_bits(owned);
    assert_eq!(interpreter.allocations[&1].bytes[&8], (shown & 0xff) as u8);
    assert_eq!(interpreter.allocations[&1].resource_payloads.len(), 1);
    let payload = interpreter.resource_take(&memory, slot, whole(1, 16), slot_access, span).unwrap();
    assert_eq!(payload.pointer, owned);
    assert_eq!(payload.permission, whole(2, 8));
    assert_eq!(payload.loan_authority, None);
    assert!(interpreter.allocations[&1].resource_payloads.is_empty());
    assert!(interpreter.allocations[&1].bytes.is_empty());
}

#[test]
fn a_slot_without_a_payload_is_refused() {
    let memory = pointer_schema();
    let span = ByteSpan::empty();
    let slot_access = VirMemoryAccess::new(VirTypeId(1), VirLayoutId(1));
    let mut interpreter = Interpreter::new(VirInterpreterConfig::default());
    interpreter.allocations.insert(1, allocation(16));
    let slot = pointer(1, 0, slot_access, 16);
    for offset in 0..8u64 {
        interpreter.allocations.get_mut(&1).unwrap().bytes.insert(offset, 7);
    }
    assert_eq!(
        interpreter.resource_take(&memory, slot, whole(1, 16), slot_access, span).unwrap_err().kind(),
        &VirExecutionErrorKind::MissingResourcePayload { allocation: 1, offset_bytes: 0, access: slot_access }
    );
    assert_eq!(interpreter.allocations[&1].bytes.len(), 8);
}

#[test]
fn raw_pointers_and_plain_integers_are_no_resources() {
    let memory = pointer_schema();
    let span = ByteSpan::empty();
    let raw = VirMemoryAccess::new(VirTypeId(2), VirLayoutId(2));
    let plain = VirMemoryAccess::core_u64();
    let mut interpreter = Interpreter::new(VirInterpreterConfig::default());
    interpreter.allocations.insert(1, allocation(16));
    interpreter.allocations.insert(2, allocation(8));
    let owned = pointer(2, 0, plain, 8);
    for access in [raw, plain] {
        let slot = pointer(1, 0, access, 16);
        assert_eq!(
            interpreter
                .resource_initialize(&memory, slot, whole(1, 16), owned, whole(2, 8), None, access, span)
                .unwrap_err()
                .kind(),
            &VirExecutionErrorKind::UnsupportedObjectEffectType { access }
        );
        assert_eq!(
            interpreter.resource_take(&memory, slot, whole(1, 16), access, span).unwrap_err().kind(),
            &VirExecutionErrorKind::UnsupportedObjectEffectType { access }
        );
    }
    assert!(interpreter.allocations[&1].bytes.is_empty());
}

#[test]
fn an_owning_payload_must_cover_its_whole_allocation() {
    let memory = pointer_schema();
    let span = ByteSpan::empty();
    let slot_access = VirMemoryAccess::new(VirTypeId(1), VirLayoutId(1));
    let mut interpreter = Interpreter::new(VirInterpreterConfig::default());
    interpreter.allocations.insert(1, allocation(16));
    interpreter.allocations.insert(2, allocation(8));
    let slot = pointer(1, 0, slot_access, 16);
    let owned = pointer(2, 0, VirMemoryAccess::core_u64(), 8);
    let partial = VirRuntimePermission { allocation: 2, start_bytes: 0, end_bytes: 4, can_free_when_complete: true };
    assert_eq!(
        interpreter
            .resource_initialize(&memory, slot, whole(1, 16), owned, partial, None, slot_access, span)
            .unwrap_err()
            .kind(),
        &VirExecutionErrorKind::InvalidFree { allocation: 2, offset_bytes: 0 }
    );
    assert!(interpreter.allocations[&1].resource_payloads.is_empty());
}

#[test]
fn pointer_bits_rotate_the_allocation_and_add_the_offset() {
    let access = VirMemoryAccess::core_u64();
    assert_eq!(opaque_runtime_pointer_bits(pointer(0, 0, access, 8)), 1 << 17);
    assert_eq!(opaque_runtime_pointer_bits(pointer(1, 3, access, 8)), (2 << 17) + 3);
    assert_eq!(opaque_runtime_pointer_bits(pointer(u64::MAX, 5, access, 8)), 5);
    assert_eq!(opaque_runtime_pointer_bits(pointer(1 << 63, 0, access, 8)), (1 << 16) | (1 << 17));
}
