use std::collections::{BTreeMap, BTreeSet};

use lib::ids::{
    ByteSpan, DropCapability, SizeCapability, TypeCapabilities, ValueCapability, VirFieldId, VirLayoutId, VirTypeId,
    VirVariantId,
};
use lib::loan_shadow::{RuntimeLoanLimits, RuntimeLoanShadow};
use lib::memory::{
    VirAbiClass, VirEndianness, VirField, VirFieldLayout, VirIntegerType, VirLayout, VirMemoryAccess, VirMemorySchema,
    VirMemoryType, VirMemoryTypeKind, VirMutability, VirPointerKind, VirTargetDataLayout, VirVariant, VirVariantCaseLayout,
    VirVariantLayout,
};
use lib::provenance::{VirPointerDomain, VirPointerPaths};
use lib::runtime::{
    Allocation, Interpreter, RuntimeAllocationKind, VirExecutionErrorKind, VirInterpreterConfig, VirRuntimePermission,
    VirRuntimePointer,
};
use lib::transfer::{VirObjectDestinationMode, VirObjectSourceMode};

const WORD: VirMemoryAccess = VirMemoryAccess { ty: VirTypeId(0), layout: VirLayoutId(0) };
const ENUM: VirMemoryAccess = VirMemoryAccess { ty: VirTypeId(1), layout: VirLayoutId(1) };
const OWN: VirMemoryAccess = VirMemoryAccess { ty: VirTypeId(1), layout: VirLayoutId(1) };
const LIMITS: RuntimeLoanLimits = RuntimeLoanLimits { active_loans: 4, aliases_per_loan: 4, reborrow_depth: 4 };

fn span() -> ByteSpan {
    ByteSpan::empty()
}

fn capabilities() -> TypeCapabilities {
    TypeCapabilities {
        value: ValueCapability::Copy,
        drop: DropCapability::TrivialDrop,
        contains_resource: false,
        size: SizeCapability::Sized,
    }
}

fn target() -> VirTargetDataLayout {
    VirTargetDataLayout {
        endianness: VirEndianness::Little,
        pointer_size_bytes: 8,
        pointer_alignment: 8,
        usize_size_bytes: 8,
        usize_alignment: 8,
    }
}

fn word_layout() -> VirLayout {
    VirLayout {
        id: WORD.layout,
        ty: WORD.ty,
        size_bytes: 8,
        alignment: 8,
        abi: VirAbiClass::Scalar,
        fields: vec![],
        variants: None,
    }
}

fn word_type() -> VirMemoryType {
    VirMemoryType { id: WORD.ty, kind: VirMemoryTypeKind::Integer(VirIntegerType::U64), layout: WORD.layout }
}

/// `enum { A(u64), B }` with an 8-byte tag and the payload after it.
fn enum_schema() -> VirMemorySchema {
    VirMemorySchema {
        target: target(),
        types: vec![
            word_type(),
            VirMemoryType {
                id: ENUM.ty,
                kind: VirMemoryTypeKind::Enum { variants: vec![VirVariantId::new(0), VirVariantId::new(1)] },
                layout: ENUM.layout,
            },
        ],
        type_capabilities: vec![capabilities(); 2],
        layouts: vec![
            word_layout(),
            VirLayout {
                id: ENUM.layout,
                ty: ENUM.ty,
                size_bytes: 16,
                alignment: 8,
                abi: VirAbiClass::Aggregate,
                fields: vec![],
                variants: Some(VirVariantLayout {
                    tag_size_bytes: 8,
                    tag_alignment: 8,
                    cases: vec![
                        VirVariantCaseLayout {
                            variant: VirVariantId::new(0),
                            payload_offset_bytes: 8,
                            fields: vec![VirFieldLayout { field: VirFieldId::new(0), offset_bytes: 0 }],
                        },
                        VirVariantCaseLayout { variant: VirVariantId::new(1), payload_offset_bytes: 8, fields: vec![] },
                    ],
                }),
            },
        ],
        fields: vec![VirField { id: VirFieldId::new(0), owner: ENUM.ty, ty: WORD.ty }],
        variants: vec![
            VirVariant { id: VirVariantId::new(0), owner: ENUM.ty, fields: vec![VirFieldId::new(0)], discriminant: 0 },
            VirVariant { id: VirVariantId::new(1), owner: ENUM.ty, fields: vec![], discriminant: 1 },
        ],
    }
}

/// A `u64` and an owning pointer to it.
fn owning_schema() -> VirMemorySchema {
    VirMemorySchema {
        target: target(),
        types: vec![
            word_type(),
            VirMemoryType {
                id: OWN.ty,
                kind: VirMemoryTypeKind::Pointer { pointee: WORD.ty, kind: VirPointerKind::Own, mutability: VirMutability::Mutable },
                layout: OWN.layout,
            },
        ],
        type_capabilities: vec![
            capabilities(),
            TypeCapabilities {
                value: ValueCapability::MoveOnly,
                drop: DropCapability::BuiltinDrop,
                contains_resource: true,
                size: SizeCapability::Sized,
            },
        ],
        layouts: vec![
            word_layout(),
            VirLayout {
                id: OWN.layout,
                ty: OWN.ty,
                size_bytes: 8,
                alignment: 8,
                abi: VirAbiClass::Scalar,
                fields: vec![],
                variants: None,
            },
        ],
        fields: vec![],
        variants: vec![],
    }
}

fn storage(size_bytes: u64, bytes: &[(u64, u8)]) -> Allocation {
    Allocation {
        size_bytes,
        alignment: 8,
        kind: RuntimeAllocationKind::LocalStorage,
        live: true,
        bytes: bytes.iter().copied().collect(),
        objects: Vec::new(),
        resource_payloads: BTreeMap::new(),
    }
}

fn word_bytes(start: u64, value: u64) -> Vec<(u64, u8)> {
    value.to_le_bytes().iter().enumerate().map(|(i, b)| (start + i as u64, *b)).collect()
}

fn at(allocation: u64, offset_bytes: u64, access: VirMemoryAccess) -> VirRuntimePointer {
    VirRuntimePointer {
        allocation,
        offset_bytes,
        access,
        paths: VirPointerPaths::root(access),
        view_range: None,
        domain: VirPointerDomain::Allocation,
    }
}

fn whole(allocation: u64, size: u64) -> VirRuntimePermission {
    VirRuntimePermission { allocation, start_bytes: 0, end_bytes: size, can_free_when_complete: false }
}

fn interpreter(allocations: Vec<(u64, Allocation)>) -> Interpreter {
    let mut interpreter = Interpreter::new(VirInterpreterConfig::default());
    for (id, allocation) in allocations {
        interpreter.allocations.insert(id, allocation);
    }
    interpreter
}

#[test]
fn active_offsets_follow_the_enum_tag() {
    let memory = enum_schema();
    let shape = memory.object_shape(ENUM).unwrap();
    let root = at(0, 0, ENUM);

    let mut bytes = word_bytes(0, 0);
    bytes.extend(word_bytes(8, 5));
    let with_payload = interpreter(vec![(0, storage(16, &bytes))]);
    let offsets = with_payload.active_object_offsets(&memory, root, &shape, span()).unwrap();
    assert_eq!(offsets, (0..16).collect::<BTreeSet<u64>>());
    with_payload.require_object_value(&memory, root, &shape, &offsets, span()).unwrap();

    let unit = interpreter(vec![(0, storage(16, &word_bytes(0, 1)))]);
    let offsets = unit.active_object_offsets(&memory, root, &shape, span()).unwrap();
    assert_eq!(offsets, (0..8).collect::<BTreeSet<u64>>());

    let invalid = interpreter(vec![(0, storage(16, &word_bytes(0, 9)))]);
    assert_eq!(
        invalid.active_object_offsets(&memory, root, &shape, span()).unwrap_err().kind(),
        &VirExecutionErrorKind::InvalidObjectRepresentation { allocation: 0, offset_bytes: 0, access: ENUM }
    );

    let empty = interpreter(vec![(0, storage(16, &[]))]);
    assert_eq!(
        empty.active_object_offsets(&memory, root, &shape, span()).unwrap_err().kind(),
        &VirExecutionErrorKind::UninitializedObjectLeaf { allocation: 0, offset_bytes: 0, access: ENUM }
    );

    let tag_only = interpreter(vec![(0, storage(16, &word_bytes(0, 0)))]);
    let offsets = tag_only.active_object_offsets(&memory, root, &shape, span()).unwrap();
    assert_eq!(
        tag_only.require_object_value(&memory, root, &shape, &offsets, span()).unwrap_err().kind(),
        &VirExecutionErrorKind::UninitializedObjectLeaf { allocation: 0, offset_bytes: 8, access: ENUM }
    );
}

#[test]
fn setting_a_discriminant_retires_the_old_payload_and_writes_the_tag() {
    let memory = enum_schema();
    let root = at(0, 0, ENUM);
    let mut bytes = word_bytes(0, 0);
    bytes.extend(word_bytes(8, 5));
    let mut full = interpreter(vec![(0, storage(16, &bytes))]);
    full.enum_set_discriminant(&memory, root, whole(0, 16), ENUM, VirVariantId::new(1), VirObjectDestinationMode::Replace, span())
        .unwrap();
    let expected: BTreeMap<u64, u8> = word_bytes(0, 1).into_iter().collect();
    assert_eq!(full.allocations[&0].bytes, expected);
    assert_eq!(full.enum_discriminant(&memory, root, whole(0, 16), ENUM, span()).unwrap(), 1);

    let mut empty = interpreter(vec![(0, storage(16, &[]))]);
    empty.enum_set_discriminant(&memory, root, whole(0, 16), ENUM, VirVariantId::new(0), VirObjectDestinationMode::Initialize, span())
        .unwrap();
    let expected: BTreeMap<u64, u8> = word_bytes(0, 0).into_iter().collect();
    assert_eq!(empty.allocations[&0].bytes, expected);
    assert_eq!(
        empty
            .enum_set_discriminant(&memory, root, whole(0, 16), ENUM, VirVariantId::new(1), VirObjectDestinationMode::Initialize, span())
            .unwrap_err()
            .kind(),
        &VirExecutionErrorKind::InitializeAlreadyInitialized { allocation: 0, offset_bytes: 0 }
    );
    assert_eq!(
        empty
            .enum_set_discriminant(&memory, root, whole(0, 16), ENUM, VirVariantId::new(7), VirObjectDestinationMode::Replace, span())
            .unwrap_err()
            .kind(),
        &VirExecutionErrorKind::InvalidRuntimeState
    );
}

#[test]
fn a_copy_duplicates_and_a_move_retires_the_source_value() {
    let memory = VirMemorySchema::core_u64();
    let mut shadow = RuntimeLoanShadow::new();
    let source = at(1, 0, WORD);
    let destination = at(1, 16, WORD);
    let mut machine = interpreter(vec![(1, storage(32, &word_bytes(0, 0x0102_0304)))]);
    machine
        .object_transfer(
            &memory,
            &mut shadow,
            LIMITS,
            destination,
            whole(1, 32),
            source,
            whole(1, 32),
            WORD,
            VirObjectDestinationMode::Initialize,
            VirObjectSourceMode::Copy,
            span(),
        )
        .unwrap();
    assert_eq!(machine.load_memory(&memory, destination, whole(1, 32), WORD, span()).unwrap(), 0x0102_0304);
    assert_eq!(machine.load_memory(&memory, source, whole(1, 32), WORD, span()).unwrap(), 0x0102_0304);

    assert_eq!(
        machine
            .object_transfer(
                &memory,
                &mut shadow,
                LIMITS,
                destination,
                whole(1, 32),
                source,
                whole(1, 32),
                WORD,
                VirObjectDestinationMode::Initialize,
                VirObjectSourceMode::Move,
                span(),
            )
            .unwrap_err()
            .kind(),
        &VirExecutionErrorKind::InitializeAlreadyInitialized { allocation: 1, offset_bytes: 16 }
    );

    machine
        .object_transfer(
            &memory,
            &mut shadow,
            LIMITS,
            at(1, 8, WORD),
            whole(1, 32),
            destination,
            whole(1, 32),
            WORD,
            VirObjectDestinationMode::Initialize,
            VirObjectSourceMode::Move,
            span(),
        )
        .unwrap();
    assert_eq!(machine.load_memory(&memory, at(1, 8, WORD), whole(1, 32), WORD, span()).unwrap(), 0x0102_0304);
    assert!((16..24).all(|o| !machine.allocations[&1].bytes.contains_key(&o)));
}

#[test]
fn overlapping_and_incomplete_transfers_are_refused() {
    let memory = VirMemorySchema::core_u64();
    let mut shadow = RuntimeLoanShadow::new();
    let mut machine = interpreter(vec![(1, storage(32, &word_bytes(0, 7)))]);
    let before = machine.allocations[&1].bytes.clone();
    assert_eq!(
        machine
            .object_transfer(
                &memory,
                &mut shadow,
                LIMITS,
                at(1, 0, WORD),
                whole(1, 32),
                at(1, 0, WORD),
                whole(1, 32),
                WORD,
                VirObjectDestinationMode::Replace,
                VirObjectSourceMode::Copy,
                span(),
            )
            .unwrap_err()
            .kind(),
        &VirExecutionErrorKind::OverlappingObjectTransfer {
            allocation: 1,
            destination_offset_bytes: 0,
            source_offset_bytes: 0,
            size_bytes: 8,
        }
    );
    assert_eq!(
        machine
            .object_transfer(
                &memory,
                &mut shadow,
                LIMITS,
                at(1, 8, WORD),
                whole(1, 32),
                at(1, 0, WORD),
                whole(1, 32),
                WORD,
                VirObjectDestinationMode::Replace,
                VirObjectSourceMode::Copy,
                span(),
            )
            .unwrap_err()
            .kind(),
        &VirExecutionErrorKind::UninitializedObjectLeaf { allocation: 1, offset_bytes: 8, access: WORD }
    );
    assert_eq!(
        machine
            .object_transfer(
                &memory,
                &mut shadow,
                LIMITS,
                at(1, 0, WORD),
                whole(1, 32),
                at(1, 8, WORD),
                whole(1, 32),
                WORD,
                VirObjectDestinationMode::Replace,
                VirObjectSourceMode::Copy,
                span(),
            )
            .unwrap_err()
            .kind(),
        &VirExecutionErrorKind::UninitializedObjectLeaf { allocation: 1, offset_bytes: 8, access: WORD }
    );
    assert_eq!(machine.allocations[&1].bytes, before);
}

#[test]
fn moving_an_owning_pointer_moves_its_payload() {
    let memory = owning_schema();
    let mut shadow = RuntimeLoanShadow::new();
    let mut heap = storage(8, &[]);
    heap.kind = RuntimeAllocationKind::Heap;
    let mut machine = interpreter(vec![(1, storage(32, &[])), (2, heap)]);
    let owned = at(2, 0, WORD);
    let freeing = VirRuntimePermission { allocation: 2, start_bytes: 0, end_bytes: 8, can_free_when_complete: true };
    machine.resource_initialize(&memory, at(1, 0, OWN), whole(1, 32), owned, freeing, None, OWN, span()).unwrap();
    machine
        .object_transfer(
            &memory,
            &mut shadow,
            LIMITS,
            at(1, 8, OWN),
            whole(1, 32),
            at(1, 0, OWN),
            whole(1, 32),
            OWN,
            VirObjectDestinationMode::Initialize,
            VirObjectSourceMode::Move,
            span(),
        )
        .unwrap();
    let payloads = &machine.allocations[&1].resource_payloads;
    assert_eq!(payloads.len(), 1);
    assert_eq!(payloads[&(8, OWN.ty.0, OWN.layout.0)].pointer, owned);
    assert!((0..8).all(|o| !machine.allocations[&1].bytes.contains_key(&o)));
    let payload = machine.resource_take(&memory, at(1, 8, OWN), whole(1, 32), OWN, span()).unwrap();
    assert_eq!(payload.permission, freeing);

    assert_eq!(
        machine
            .object_transfer(
                &memory,
                &mut shadow,
                LIMITS,
                at(1, 16, OWN),
                whole(1, 32),
                at(1, 8, OWN),
                whole(1, 32),
                OWN,
                VirObjectDestinationMode::Initialize,
                VirObjectSourceMode::Copy,
                span(),
            )
            .unwrap_err()
            .kind(),
        &VirExecutionErrorKind::UnsupportedObjectEffectType { access: OWN }
    );
}

#[test]
fn deinitializing_and_resetting_retire_storage() {
    let memory = VirMemorySchema::core_u64();
    let mut machine = interpreter(vec![(1, storage(16, &word_bytes(0, 3)))]);
    assert_eq!(
        machine.object_deinitialize(&memory, at(1, 8, WORD), whole(1, 16), WORD, true, span()).unwrap_err().kind(),
        &VirExecutionErrorKind::UninitializedObjectLeaf { allocation: 1, offset_bytes: 8, access: WORD }
    );
    machine.object_deinitialize(&memory, at(1, 8, WORD), whole(1, 16), WORD, false, span()).unwrap();
    machine.object_deinitialize(&memory, at(1, 0, WORD), whole(1, 16), WORD, true, span()).unwrap();
    assert!(machine.allocations[&1].bytes.is_empty());

    let enums = enum_schema();
    let mut tagged = interpreter(vec![(0, storage(16, &word_bytes(0, 1)))]);
    assert_eq!(
        tagged.object_deinitialize(&enums, at(0, 0, ENUM), whole(0, 16), ENUM, false, span()).unwrap_err().kind(),
        &VirExecutionErrorKind::InvalidRuntimeState
    );
    tagged.object_deinitialize(&enums, at(0, 0, ENUM), whole(0, 16), ENUM, true, span()).unwrap();
    assert!(tagged.allocations[&0].bytes.is_empty());

    let owning = owning_schema();
    let mut heap = storage(8, &[]);
    heap.kind = RuntimeAllocationKind::Heap;
    let mut slots = interpreter(vec![(1, storage(16, &[])), (2, heap)]);
    slots.resource_storage_reset(&owning, at(1, 0, OWN), whole(1, 16), OWN, span()).unwrap();
    let freeing = VirRuntimePermission { allocation: 2, start_bytes: 0, end_bytes: 8, can_free_when_complete: true };
    slots.resource_initialize(&owning, at(1, 0, OWN), whole(1, 16), at(2, 0, WORD), freeing, None, OWN, span()).unwrap();
    assert_eq!(
        slots.resource_storage_reset(&owning, at(1, 8, OWN), whole(1, 16), OWN, span()).unwrap_err().kind(),
        &VirExecutionErrorKind::AllocationContainsResourcePayload { allocation: 1 }
    );
    assert_eq!(
        slots.resource_storage_reset(&memory, at(1, 8, WORD), whole(1, 16), WORD, span()).unwrap_err().kind(),
        &VirExecutionErrorKind::UnsupportedObjectEffectType { access: WORD }
    );
}

#[test]
fn dropping_an_owning_pointer_frees_its_allocation() {
    let memory = owning_schema();
    let mut shadow = RuntimeLoanShadow::new();
    let mut heap = storage(8, &[]);
    heap.kind = RuntimeAllocationKind::Heap;
    let mut machine = interpreter(vec![(1, storage(16, &[])), (2, heap)]);
    let freeing = VirRuntimePermission { allocation: 2, start_bytes: 0, end_bytes: 8, can_free_when_complete: true };
    machine.resource_initialize(&memory, at(1, 0, OWN), whole(1, 16), at(2, 0, WORD), freeing, None, OWN, span()).unwrap();
    machine.object_drop(&memory, &mut shadow, at(1, 0, OWN), whole(1, 16), OWN, span()).unwrap();
    assert!(!machine.allocations[&2].live);
    assert!(machine.allocations[&1].resource_payloads.is_empty());
    assert!(machine.allocations[&1].bytes.is_empty());

    let mut bare = interpreter(vec![(1, storage(16, &word_bytes(0, 3)))]);
    assert_eq!(
        bare.object_drop(&memory, &mut shadow, at(1, 0, OWN), whole(1, 16), OWN, span()).unwrap_err().kind(),
        &VirExecutionErrorKind::MissingResourcePayload { allocation: 1, offset_bytes: 0, access: OWN }
    );
    let words = VirMemorySchema::core_u64();
    assert_eq!(
        bare.object_drop(&words, &mut shadow, at(1, 0, WORD), whole(1, 16), WORD, span()).unwrap_err().kind(),
        &VirExecutionErrorKind::UnsupportedObjectEffectType { access: WORD }
    );
}
