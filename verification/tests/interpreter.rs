use std::collections::{BTreeMap, BTreeSet};

use lib::borrow::VirLoanRange;
use lib::ids::{
    ByteSpan, DropCapability, SizeCapability, TypeCapabilities, ValueCapability, VirFieldId, VirLayoutId,
    VirTypeId, VirValueId, VirVariantId,
};
use lib::memory::{
    VirAbiClass, VirEndianness, VirField, VirFieldLayout, VirIntegerType, VirLayout, VirMemoryAccess,
    VirMemorySchema, VirMemoryType, VirMemoryTypeKind, VirTargetDataLayout, VirVariant, VirVariantCaseLayout,
    VirVariantLayout,
};
use lib::object_shape::VirObjectPathSegment;
use lib::provenance::{VirPointerDomain, VirPointerPaths};
use lib::runtime::{
    Allocation, BlockFrame, Interpreter, RuntimeAllocationKind, RuntimeObject, VirExecutionErrorKind,
    VirInterpreterConfig, VirRuntimePermission, VirRuntimePointer, VirRuntimeValue,
    VIR_INTERPRETER_MAX_OBJECT_ROOTS,
};

const WORD: VirMemoryAccess = VirMemoryAccess { ty: VirTypeId(0), layout: VirLayoutId(0) };
const ENUM: VirMemoryAccess = VirMemoryAccess { ty: VirTypeId(1), layout: VirLayoutId(1) };

fn empty_span() -> ByteSpan {
    ByteSpan::new(0, 0).expect("empty span is valid")
}

#[test]
fn equal_numeric_domains_do_not_replace_nominal_path_identity() {
    let interpreter = interpreter_with_enum_tag(None);
    let root = VirPointerPaths::root(WORD);
    let base = VirRuntimePointer {
        allocation: 0,
        offset_bytes: 8,
        access: WORD,
        view_range: None,
        domain: VirPointerDomain::Restricted(VirLoanRange {
            start_bytes: 8,
            end_bytes: 16,
        }),
        paths: root,
    };
    let left = VirValueId::new(0);
    let right = VirValueId::new(1);
    for domain in [
        root.domain,
        None,
        root.domain
            .unwrap()
            .extend(&[VirObjectPathSegment::TupleElement(0)]),
    ] {
        let other = VirRuntimePointer {
            paths: VirPointerPaths {
                object: domain,
                domain,
            },
            ..base
        };
        let frame = BlockFrame {
            values: BTreeMap::from([
                (left.get(), VirRuntimeValue::Pointer(base)),
                (right.get(), VirRuntimeValue::Pointer(other)),
            ]),
            consumed_permissions: BTreeSet::new(),
            loan_authorities: BTreeMap::new(),
        };
        let result = interpreter.pointer_pair(&frame, left, right, empty_span());
        if domain == root.domain {
            assert!(result.is_ok());
        } else {
            assert!(matches!(
                result.unwrap_err().kind(),
                VirExecutionErrorKind::PointerRelationIncompatible
            ));
        }
    }
}

#[test]
fn enum_payload_faults_distinguish_inactive_invalid_and_uninitialized_tags() {
    let memory = enum_schema();
    let payload = VirRuntimePointer {
        allocation: 0,
        offset_bytes: 8,
        access: WORD,
        paths: VirPointerPaths::root(WORD),
        view_range: None,
        domain: VirPointerDomain::Allocation,
    };

    let inactive = interpreter_with_enum_tag(Some(1));
    assert_eq!(
        inactive
            .check_scalar_active_access(&memory, payload, empty_span())
            .expect_err("variant 0 payload is inactive under variant 1")
            .kind(),
        &VirExecutionErrorKind::InactiveVariantAccess {
            allocation: 0,
            offset_bytes: 8,
            enum_access: ENUM,
            active: VirVariantId::new(1),
            required: VirVariantId::new(0),
        }
    );

    let invalid = interpreter_with_enum_tag(Some(9));
    assert!(matches!(
        invalid
            .check_scalar_active_access(&memory, payload, empty_span())
            .expect_err("unknown discriminant is invalid")
            .kind(),
        VirExecutionErrorKind::InvalidObjectRepresentation {
            allocation: 0,
            offset_bytes: 0,
            access: ENUM,
        }
    ));

    let root = VirRuntimePointer {
        allocation: 0,
        offset_bytes: 0,
        access: ENUM,
        paths: VirPointerPaths::root(ENUM),
        view_range: None,
        domain: VirPointerDomain::Allocation,
    };
    let permission = VirRuntimePermission {
        allocation: 0,
        start_bytes: 0,
        end_bytes: 16,
        can_free_when_complete: false,
    };
    assert_eq!(
        interpreter_with_enum_tag(Some(1))
            .enum_discriminant(&memory, root, permission, ENUM, empty_span())
            .expect("declared tag reads as its discriminant"),
        1
    );
    assert!(matches!(
        interpreter_with_enum_tag(Some(9))
            .enum_discriminant(&memory, root, permission, ENUM, empty_span())
            .expect_err("invalid tag must not become a runtime integer")
            .kind(),
        VirExecutionErrorKind::InvalidObjectRepresentation { access: ENUM, .. }
    ));

    let uninitialized = interpreter_with_enum_tag(None);
    assert!(matches!(
        uninitialized
            .check_scalar_active_access(&memory, payload, empty_span())
            .expect_err("missing discriminant bytes are uninitialized")
            .kind(),
        VirExecutionErrorKind::UninitializedObjectLeaf {
            allocation: 0,
            offset_bytes: 0,
            access: ENUM,
        }
    ));
}

#[test]
fn runtime_object_registry_budget_fails_closed() {
    let memory = enum_schema();
    let shape = memory.object_shape(ENUM).expect("enum shape");
    let mut interpreter = interpreter_with_enum_tag(Some(0));
    interpreter.allocations.get_mut(&0).unwrap().objects = (0..VIR_INTERPRETER_MAX_OBJECT_ROOTS)
        .map(|offset| RuntimeObject {
            offset_bytes: u64::try_from(offset).unwrap(),
            access: ENUM,
        })
        .collect();
    let pointer = VirRuntimePointer {
        allocation: 0,
        offset_bytes: u64::try_from(VIR_INTERPRETER_MAX_OBJECT_ROOTS).unwrap(),
        access: ENUM,
        paths: VirPointerPaths::root(ENUM),
        view_range: None,
        domain: VirPointerDomain::Allocation,
    };
    assert_eq!(
        interpreter
            .register_runtime_object(pointer, &shape, empty_span())
            .expect_err("registry must not truncate and continue")
            .kind(),
        &VirExecutionErrorKind::ObjectRootLimitExceeded {
            allocation: 0,
            limit: VIR_INTERPRETER_MAX_OBJECT_ROOTS,
        }
    );
}

#[test]
fn registering_an_enum_root_keeps_the_registry_sorted_and_deduplicated() {
    let memory = enum_schema();
    let shape = memory.object_shape(ENUM).expect("enum shape");
    let mut interpreter = interpreter_with_enum_tag(Some(0));
    interpreter.allocations.get_mut(&0).unwrap().objects = vec![RuntimeObject { offset_bytes: 32, access: ENUM }];
    let at = |offset_bytes| VirRuntimePointer {
        allocation: 0,
        offset_bytes,
        access: ENUM,
        paths: VirPointerPaths::root(ENUM),
        view_range: None,
        domain: VirPointerDomain::Allocation,
    };
    interpreter.register_runtime_object(at(16), &shape, empty_span()).unwrap();
    interpreter.register_runtime_object(at(32), &shape, empty_span()).unwrap();
    let offsets: Vec<u64> = interpreter.allocations[&0].objects.iter().map(|o| o.offset_bytes).collect();
    assert_eq!(offsets, vec![16, 32]);
}

#[test]
fn enum_shape_partitions_bytes_into_values_and_padding() {
    let memory = enum_schema();
    let shape = memory.object_shape(ENUM).expect("enum shape");
    assert_eq!(shape.size_bytes(), 16);
    assert_eq!(shape.alignment(), 8);
    let value: Vec<(u64, u64)> = shape.value_bytes().iter().map(|r| (r.start_bytes(), r.end_bytes())).collect();
    assert_eq!(value, vec![(0, 16)]);
    assert!(shape.padding().is_empty());
    assert_eq!(shape.leaves().len(), 1);
    assert_eq!(shape.leaves()[0].bytes().start_bytes(), 8);
    assert_eq!(shape.variants().len(), 2);
    let cases: Vec<(u32, u64)> = shape.variants().iter().map(|c| (c.variant().get(), c.discriminant())).collect();
    assert_eq!(cases, vec![(0, 0), (1, 1)]);
    let empty_case_padding: Vec<(u64, u64)> =
        shape.variants()[1].padding().iter().map(|r| (r.start_bytes(), r.end_bytes())).collect();
    assert_eq!(empty_case_padding, vec![(8, 16)]);
    assert!(!shape.supports_storage_reset());
}

fn interpreter_with_enum_tag(discriminant: Option<u64>) -> Interpreter {
    let mut bytes = BTreeMap::new();
    if let Some(discriminant) = discriminant {
        for (offset, byte) in discriminant.to_le_bytes().into_iter().enumerate() {
            bytes.insert(u64::try_from(offset).unwrap(), byte);
        }
    }
    let mut interpreter = Interpreter::new(VirInterpreterConfig::default());
    interpreter.allocations.insert(
        0,
        Allocation {
            size_bytes: 16,
            alignment: 8,
            kind: RuntimeAllocationKind::LocalStorage,
            live: true,
            bytes,
            objects: vec![RuntimeObject {
                offset_bytes: 0,
                access: ENUM,
            }],
            resource_payloads: BTreeMap::new(),
        },
    );
    interpreter
}

fn enum_schema() -> VirMemorySchema {
    VirMemorySchema {
        target: VirTargetDataLayout {
            endianness: VirEndianness::Little,
            pointer_size_bytes: 8,
            pointer_alignment: 8,
            usize_size_bytes: 8,
            usize_alignment: 8,
        },
        types: vec![
            VirMemoryType {
                id: WORD.ty,
                kind: VirMemoryTypeKind::Integer(VirIntegerType::U64),
                layout: WORD.layout,
            },
            VirMemoryType {
                id: ENUM.ty,
                kind: VirMemoryTypeKind::Enum {
                    variants: vec![VirVariantId::new(0), VirVariantId::new(1)],
                },
                layout: ENUM.layout,
            },
        ],
        type_capabilities: vec![
            TypeCapabilities {
                value: ValueCapability::Copy,
                drop: DropCapability::TrivialDrop,
                contains_resource: false,
                size: SizeCapability::Sized,
            };
            2
        ],
        layouts: vec![
            VirLayout {
                id: WORD.layout,
                ty: WORD.ty,
                size_bytes: 8,
                alignment: 8,
                abi: VirAbiClass::Scalar,
                fields: vec![],
                variants: None,
            },
            VirLayout {
                id: ENUM.layout,
                ty: ENUM.ty,
                size_bytes: 16,
                alignment: 8,
                abi: VirAbiClass::Aggregate,
                fields: vec![],
                variants: Some(VirVariantLayout {
                    tag_size_bytes: 8,
                    tag_alignment: 8,
                    cases: vec![
                        VirVariantCaseLayout {
                            variant: VirVariantId::new(0),
                            payload_offset_bytes: 8,
                            fields: vec![VirFieldLayout {
                                field: VirFieldId::new(0),
                                offset_bytes: 0,
                            }],
                        },
                        VirVariantCaseLayout {
                            variant: VirVariantId::new(1),
                            payload_offset_bytes: 8,
                            fields: vec![],
                        },
                    ],
                }),
            },
        ],
        fields: vec![VirField {
            id: VirFieldId::new(0),
            owner: ENUM.ty,
            ty: WORD.ty,
        }],
        variants: vec![
            VirVariant {
                id: VirVariantId::new(0),
                owner: ENUM.ty,
                fields: vec![VirFieldId::new(0)],
                discriminant: 0,
            },
            VirVariant {
                id: VirVariantId::new(1),
                owner: ENUM.ty,
                fields: vec![],
                discriminant: 1,
            },
        ],
    }
}
