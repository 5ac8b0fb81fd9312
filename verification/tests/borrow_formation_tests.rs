use std::collections::BTreeMap;

use lib::borrow::VirLoanRange;
use lib::ids::{ByteSpan, DropCapability, SizeCapability, TypeCapabilities, ValueCapability, VirFieldId, VirLayoutId, VirTypeId};
use lib::memory::{
    VirAbiClass, VirEndianness, VirField, VirFieldLayout, VirIntegerType, VirLayout, VirMemoryAccess, VirMemorySchema, VirMemoryType,
    VirMemoryTypeKind, VirMutability, VirPointerKind, VirTargetDataLayout,
};
use lib::provenance::{VirPointerDomain, VirPointerPaths};
use lib::runtime::{
    Allocation, Interpreter, RuntimeAllocationKind, VirExecutionErrorKind, VirInterpreterConfig, VirRuntimePointer,
};

fn access(id: u32) -> VirMemoryAccess {
    VirMemoryAccess { ty: VirTypeId(id), layout: VirLayoutId(id) }
}

fn layout(id: u32, size_bytes: u64, alignment: u64, abi: VirAbiClass) -> VirLayout {
    VirLayout { id: VirLayoutId(id), ty: VirTypeId(id), size_bytes, alignment, abi, fields: vec![], variants: None }
}

/// `u64`, `bool`, `&u64`, `[u64]` and `&bool`.
fn schema() -> VirMemorySchema {
    let kinds = vec![
        VirMemoryTypeKind::Integer(VirIntegerType::U64),
        VirMemoryTypeKind::Bool,
        VirMemoryTypeKind::Pointer { pointee: VirTypeId(0), kind: VirPointerKind::Reference, mutability: VirMutability::Const },
        VirMemoryTypeKind::Slice { element: VirTypeId(0), mutability: VirMutability::Const },
        VirMemoryTypeKind::Pointer { pointee: VirTypeId(1), kind: VirPointerKind::Reference, mutability: VirMutability::Const },
    ];
    let types: Vec<VirMemoryType> = kinds
        .into_iter()
        .enumerate()
        .map(|(i, kind)| VirMemoryType { id: VirTypeId(i as u32), kind, layout: VirLayoutId(i as u32) })
        .collect();
    let mut memory = VirMemorySchema {
        target: VirTargetDataLayout {
            endianness: VirEndianness::Little,
            pointer_size_bytes: 8,
            pointer_alignment: 8,
            usize_size_bytes: 8,
            usize_alignment: 8,
        },
        type_capabilities: vec![
            TypeCapabilities {
                value: ValueCapability::Copy,
                drop: DropCapability::TrivialDrop,
                contains_resource: false,
                size: SizeCapability::Sized,
            };
            types.len()
        ],
        types,
        layouts: vec![
            layout(0, 8, 8, VirAbiClass::Scalar),
            layout(1, 1, 1, VirAbiClass::Scalar),
            layout(2, 8, 8, VirAbiClass::Scalar),
            layout(3, 16, 8, VirAbiClass::ScalarPair),
            layout(4, 8, 8, VirAbiClass::Scalar),
        ],
        fields: vec![],
        variants: vec![],
    };
    memory.assign_canonical_type_capabilities().unwrap();
    memory
}

fn machine(bytes: &[(u64, u8)]) -> Interpreter {
    let mut interpreter = Interpreter::new(VirInterpreterConfig::default());
    interpreter.allocations.insert(
        0,
        Allocation {
            size_bytes: 32,
            alignment: 8,
            kind: RuntimeAllocationKind::LocalStorage,
            live: true,
            bytes: bytes.iter().copied().collect::<BTreeMap<u64, u8>>(),
            objects: Vec::new(),
            resource_payloads: BTreeMap::new(),
        },
    );
    interpreter
}

fn at(offset_bytes: u64, target: VirMemoryAccess, view_range: Option<VirLoanRange>) -> VirRuntimePointer {
    VirRuntimePointer {
        allocation: 0,
        offset_bytes,
        access: target,
        paths: VirPointerPaths::root(target),
        view_range,
        domain: VirPointerDomain::Allocation,
    }
}

fn range(start_bytes: u64, end_bytes: u64) -> VirLoanRange {
    VirLoanRange { start_bytes, end_bytes }
}

#[test]
fn a_reference_selects_one_element_and_a_slice_its_view() {
    let memory = schema();
    let interpreter = machine(&[]);
    let span = ByteSpan::empty();
    assert_eq!(interpreter.borrow_selection(&memory, at(8, access(0), None), access(2), span).unwrap(), range(8, 16));
    assert_eq!(interpreter.borrow_selection(&memory, at(8, access(0), Some(range(8, 24))), access(3), span).unwrap(), range(8, 24));
    assert_eq!(
        interpreter.borrow_selection(&memory, at(8, access(0), None), access(3), span).unwrap_err().kind(),
        &VirExecutionErrorKind::InvalidRuntimeState
    );
    assert_eq!(
        interpreter.borrow_selection(&memory, at(8, access(0), Some(range(8, 20))), access(3), span).unwrap_err().kind(),
        &VirExecutionErrorKind::InvalidRuntimeState
    );
    assert_eq!(
        interpreter.borrow_selection(&memory, at(u64::MAX - 3, access(0), None), access(2), span).unwrap_err().kind(),
        &VirExecutionErrorKind::AddressCalculationOverflow
    );
    assert_eq!(
        interpreter.borrow_selection(&memory, at(8, access(0), None), access(0), span).unwrap_err().kind(),
        &VirExecutionErrorKind::InvalidRuntimeState
    );
}

#[test]
fn a_borrow_observes_complete_values_only() {
    let memory = schema();
    let span = ByteSpan::empty();
    let words: Vec<(u64, u8)> = (0..24).map(|o| (o, 1)).collect();
    let full = machine(&words);
    full.check_borrow_value(&memory, at(0, access(0), None), access(3), range(0, 24), span).unwrap();
    full.check_borrow_value(&memory, at(8, access(0), None), access(2), range(8, 16), span).unwrap();
    assert_eq!(
        full.check_borrow_value(&memory, at(0, access(0), None), access(3), range(0, 32), span).unwrap_err().kind(),
        &VirExecutionErrorKind::UninitializedObjectLeaf { allocation: 0, offset_bytes: 24, access: access(0) }
    );
    assert_eq!(
        full.check_borrow_value(&memory, at(0, access(0), None), access(3), range(0, 12), span).unwrap_err().kind(),
        &VirExecutionErrorKind::UnsupportedObjectEffectType { access: access(0) }
    );

    let flags = machine(&[(0, 1), (1, 2)]);
    flags.check_borrow_value(&memory, at(0, access(1), None), access(4), range(0, 1), span).unwrap();
    assert_eq!(
        flags.check_borrow_value(&memory, at(1, access(1), None), access(4), range(1, 2), span).unwrap_err().kind(),
        &VirExecutionErrorKind::InvalidObjectRepresentation { allocation: 0, offset_bytes: 1, access: access(1) }
    );
}

/// `u64`, `Own<u64>`, `Holder { owner: Own<u64> }` and `&Holder`.
fn holder_schema() -> VirMemorySchema {
    let kinds = vec![
        VirMemoryTypeKind::Integer(VirIntegerType::U64),
        VirMemoryTypeKind::Pointer { pointee: VirTypeId(0), kind: VirPointerKind::Own, mutability: VirMutability::Mutable },
        VirMemoryTypeKind::Struct { fields: vec![VirFieldId::new(0)] },
        VirMemoryTypeKind::Pointer { pointee: VirTypeId(2), kind: VirPointerKind::Reference, mutability: VirMutability::Const },
    ];
    let types: Vec<VirMemoryType> = kinds
        .into_iter()
        .enumerate()
        .map(|(i, kind)| VirMemoryType { id: VirTypeId(i as u32), kind, layout: VirLayoutId(i as u32) })
        .collect();
    let mut holder = layout(2, 8, 8, VirAbiClass::Aggregate);
    holder.fields = vec![VirFieldLayout { field: VirFieldId::new(0), offset_bytes: 0 }];
    let mut memory = VirMemorySchema {
        target: VirTargetDataLayout {
            endianness: VirEndianness::Little,
            pointer_size_bytes: 8,
            pointer_alignment: 8,
            usize_size_bytes: 8,
            usize_alignment: 8,
        },
        type_capabilities: vec![],
        types,
        layouts: vec![
            layout(0, 8, 8, VirAbiClass::Scalar),
            layout(1, 8, 8, VirAbiClass::Scalar),
            holder,
            layout(3, 8, 8, VirAbiClass::Scalar),
        ],
        fields: vec![VirField { id: VirFieldId::new(0), owner: VirTypeId(2), ty: VirTypeId(1) }],
        variants: vec![],
    };
    memory.assign_canonical_type_capabilities().unwrap();
    memory
}

#[test]
fn borrow_formation_checks_concrete_bool_and_resource_payloads() {
    let span = ByteSpan::empty();
    for invalid_bool in [true, false] {
        let (memory, access, reference) = if invalid_bool {
            (schema(), access(1), access(4))
        } else {
            (holder_schema(), access(2), access(3))
        };
        assert_eq!(memory.validate(), Ok(()));
        let size = memory.layout(access.layout).unwrap().size_bytes;
        let bytes: Vec<(u64, u8)> = (0..size).map(|offset| (offset, if invalid_bool { 2 } else { 0 })).collect();
        let interpreter = machine(&bytes);
        let failure = interpreter.check_borrow_value(&memory, at(0, access, None), reference, range(0, size), span).unwrap_err();
        assert!(
            if invalid_bool {
                matches!(failure.kind(), VirExecutionErrorKind::InvalidObjectRepresentation { .. })
            } else {
                matches!(failure.kind(), VirExecutionErrorKind::MissingResourcePayload { .. })
            },
            "{failure:?}"
        );
    }
}
