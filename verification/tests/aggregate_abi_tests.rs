use lib::aggregate_abi::{
    VirAbiEnvironment, VirAbiErrorKind, VirAbiSignature, VirAbiValue, VirInterfaceStorage, VirInterfaceTransfer,
};
use lib::borrow_result::{BorrowAccess, BorrowGuardAtom, BorrowResultAlternative, BorrowResultRelation};
use lib::ids::{DropCapability, SizeCapability, TypeCapabilities, ValueCapability, VirFunctionId, VirLayoutId, VirTypeId};
use lib::memory::{
    VirAbiClass, VirEndianness, VirIntegerType, VirLayout, VirMemoryAccess, VirMemorySchema, VirMemoryType,
    VirMemoryTypeKind, VirMutability, VirPointerKind, VirTargetDataLayout,
};
use lib::types::{VirSignature, VirType};

const WORD: VirMemoryAccess = VirMemoryAccess { ty: VirTypeId(0), layout: VirLayoutId(0) };
const SHARED: VirMemoryAccess = VirMemoryAccess { ty: VirTypeId(1), layout: VirLayoutId(1) };
const MUTABLE: VirMemoryAccess = VirMemoryAccess { ty: VirTypeId(2), layout: VirLayoutId(2) };
const FLAG: VirMemoryAccess = VirMemoryAccess { ty: VirTypeId(3), layout: VirLayoutId(3) };
const BYTE: VirMemoryAccess = VirMemoryAccess { ty: VirTypeId(4), layout: VirLayoutId(4) };

fn capabilities(value: ValueCapability, contains_resource: bool) -> TypeCapabilities {
    TypeCapabilities { value, drop: DropCapability::TrivialDrop, contains_resource, size: SizeCapability::Sized }
}

fn layout(access: VirMemoryAccess, size_bytes: u64) -> VirLayout {
    VirLayout {
        id: access.layout,
        ty: access.ty,
        size_bytes,
        alignment: size_bytes,
        abi: VirAbiClass::Scalar,
        fields: vec![],
        variants: None,
    }
}

fn reference_schema() -> VirMemorySchema {
    let reference = |mutability| VirMemoryTypeKind::Pointer {
        pointee: WORD.ty,
        kind: VirPointerKind::Reference,
        mutability,
    };
    VirMemorySchema {
        target: VirTargetDataLayout {
            endianness: VirEndianness::Little,
            pointer_size_bytes: 8,
            pointer_alignment: 8,
            usize_size_bytes: 8,
            usize_alignment: 8,
        },
        types: vec![
            VirMemoryType { id: WORD.ty, kind: VirMemoryTypeKind::Integer(VirIntegerType::U64), layout: WORD.layout },
            VirMemoryType { id: SHARED.ty, kind: reference(VirMutability::Const), layout: SHARED.layout },
            VirMemoryType { id: MUTABLE.ty, kind: reference(VirMutability::Mutable), layout: MUTABLE.layout },
            VirMemoryType { id: FLAG.ty, kind: VirMemoryTypeKind::Bool, layout: FLAG.layout },
            VirMemoryType { id: BYTE.ty, kind: VirMemoryTypeKind::Integer(VirIntegerType::U8), layout: BYTE.layout },
        ],
        type_capabilities: vec![
            capabilities(ValueCapability::Copy, false),
            capabilities(ValueCapability::Copy, true),
            capabilities(ValueCapability::MoveOnly, true),
            capabilities(ValueCapability::Copy, false),
            capabilities(ValueCapability::Copy, false),
        ],
        layouts: vec![layout(WORD, 8), layout(SHARED, 8), layout(MUTABLE, 8), layout(FLAG, 1), layout(BYTE, 1)],
        fields: vec![],
        variants: vec![],
    }
}

fn guard(parameter: u32, expected: bool) -> BorrowGuardAtom {
    BorrowGuardAtom::Boolean { parameter, expected }
}

#[test]
fn validation_rejects_a_mutated_interface_effect() {
    let memory = VirMemorySchema::core_u64();
    let access = VirMemoryAccess::core_u64();
    let mut signature = VirAbiSignature::classify(&memory, &[access], &[]).expect("u64 ABI classifies");
    signature.parameters[0].interface.transfer = VirInterfaceTransfer::Move;

    assert_eq!(
        signature.validate(&memory).expect_err("effect mutation must fail").kind(),
        &VirAbiErrorKind::NonCanonicalSlotMap
    );
}

#[test]
fn scalar_values_take_consecutive_slots() {
    let memory = VirMemorySchema::core_u64();
    let signature = VirAbiSignature::classify(&memory, &[WORD, WORD], &[WORD]).unwrap();
    assert_eq!(signature.physical().parameters, vec![VirType::U64, VirType::U64]);
    assert_eq!(signature.physical().results, vec![VirType::U64]);
    assert_eq!(signature.parameters()[0].parameter_slots(), &[0]);
    assert_eq!(signature.parameters()[1].parameter_slots(), &[1]);
    assert_eq!(signature.results()[0].result_slots(), &[0]);
    assert_eq!(signature.parameters()[0].value(), &VirAbiValue::Scalar { access: WORD, ty: VirType::U64 });
    assert_eq!(signature.parameters()[0].interface().transfer, VirInterfaceTransfer::Copy);
    assert_eq!(signature.parameters()[0].interface().storage, VirInterfaceStorage::Direct);
    assert_eq!(signature.borrow_result(), None);
    signature.validate(&memory).unwrap();
}

#[test]
fn identity_map_validates_and_rejects_a_changed_binding() {
    let physical = VirSignature { parameters: vec![VirType::U64, VirType::Permission], results: vec![VirType::Bool] };
    let signature = VirAbiSignature::identity(&physical);
    assert_eq!(signature.parameters()[1].value(), &VirAbiValue::Opaque(VirType::Permission));
    assert_eq!(signature.parameters()[1].parameter_slots(), &[1]);
    assert_eq!(signature.results()[0].result_slots(), &[0]);
    let memory = VirMemorySchema::core_u64();
    signature.validate(&memory).unwrap();
    let mut changed = signature.clone();
    changed.parameters[0].interface.transfer = VirInterfaceTransfer::Copy;
    assert_eq!(changed.validate(&memory).unwrap_err().kind(), &VirAbiErrorKind::NonCanonicalSlotMap);
}

#[test]
fn a_returned_shared_reference_borrows_its_only_reference_parameter() {
    let memory = reference_schema();
    let signature = VirAbiSignature::classify(&memory, &[SHARED], &[SHARED]).unwrap();
    assert_eq!(signature.borrow_result(), Some(BorrowResultRelation::whole(0, BorrowAccess::Shared)));
    assert_eq!(signature.borrow_result_parameter(), Some(0));
    assert_eq!(signature.parameters()[0].value(), &VirAbiValue::Pointer { access: SHARED, pointee: WORD });
    assert_eq!(signature.parameters()[0].interface().transfer, VirInterfaceTransfer::BorrowShared);
    assert_eq!(signature.physical().parameters, vec![VirType::Pointer { access: WORD }, VirType::Permission]);
    assert_eq!(
        signature.physical().results,
        vec![VirType::Pointer { access: WORD }, VirType::Permission, VirType::Permission]
    );
    assert_eq!(signature.parameters()[0].result_slots(), &[2]);
    signature.validate(&memory).unwrap();
}

#[test]
fn an_escaping_mutable_borrow_returns_no_separate_permission() {
    let memory = reference_schema();
    let signature = VirAbiSignature::classify(&memory, &[MUTABLE], &[MUTABLE]).unwrap();
    assert_eq!(signature.borrow_result(), Some(BorrowResultRelation::whole(0, BorrowAccess::Mutable)));
    assert!(signature.parameters()[0].result_slots().is_empty());
    assert_eq!(signature.physical().results, vec![VirType::Pointer { access: WORD }, VirType::Permission]);
}

#[test]
fn a_borrow_claim_on_a_copied_value_is_refused() {
    let memory = reference_schema();
    let claim = Some(BorrowResultRelation::whole(0, BorrowAccess::Shared));
    assert_eq!(
        VirAbiSignature::classify_with_borrow_result(&memory, &[WORD], &[WORD], claim).unwrap_err().kind(),
        &VirAbiErrorKind::InvalidBorrowResult
    );
    let out_of_range = Some(BorrowResultRelation::whole(3, BorrowAccess::Shared));
    assert_eq!(
        VirAbiSignature::classify_with_borrow_result(&memory, &[SHARED], &[SHARED], out_of_range).unwrap_err().kind(),
        &VirAbiErrorKind::InvalidBorrowResult
    );
}

#[test]
fn guarded_alternatives_select_between_reference_parameters() {
    let memory = reference_schema();
    let alternatives = vec![
        BorrowResultAlternative {
            guard: vec![guard(0, true)],
            relation: BorrowResultRelation::whole(1, BorrowAccess::Shared),
        },
        BorrowResultAlternative {
            guard: vec![guard(0, false)],
            relation: BorrowResultRelation::whole(2, BorrowAccess::Shared),
        },
    ];
    let parameters = [FLAG, SHARED, SHARED];
    let signature =
        VirAbiSignature::classify_with_borrow_results(&memory, &parameters, &[SHARED], None, alternatives.clone()).unwrap();
    assert_eq!(signature.borrow_result_alternatives().len(), 2);
    assert_eq!(signature.borrow_result_parameters().into_iter().collect::<Vec<_>>(), vec![1, 2]);
    signature.validate(&memory).unwrap();

    let mut duplicate = alternatives.clone();
    duplicate.push(alternatives[0].clone());
    assert_eq!(
        VirAbiSignature::classify_with_borrow_results(&memory, &parameters, &[SHARED], None, duplicate).unwrap_err().kind(),
        &VirAbiErrorKind::InvalidBorrowResult
    );
    let mut not_boolean = alternatives.clone();
    not_boolean[0].guard = vec![guard(1, true)];
    assert_eq!(
        VirAbiSignature::classify_with_borrow_results(&memory, &parameters, &[SHARED], None, not_boolean).unwrap_err().kind(),
        &VirAbiErrorKind::InvalidBorrowResult
    );
    let mut unguarded = alternatives.clone();
    unguarded[1].guard = vec![];
    assert_eq!(
        VirAbiSignature::classify_with_borrow_results(&memory, &parameters, &[SHARED], None, unguarded).unwrap_err().kind(),
        &VirAbiErrorKind::InvalidBorrowResult
    );
    let both = Some(BorrowResultRelation::whole(1, BorrowAccess::Shared));
    assert_eq!(
        VirAbiSignature::classify_with_borrow_results(&memory, &parameters, &[SHARED], both, alternatives).unwrap_err().kind(),
        &VirAbiErrorKind::InvalidBorrowResult
    );
}

#[test]
fn narrow_integers_are_unsupported_at_the_boundary() {
    let memory = reference_schema();
    assert_eq!(
        VirAbiSignature::classify(&memory, &[BYTE], &[]).unwrap_err().kind(),
        &VirAbiErrorKind::UnsupportedType(BYTE)
    );
    let missing = VirMemoryAccess { ty: VirTypeId(9), layout: VirLayoutId(9) };
    assert_eq!(
        VirAbiSignature::classify(&memory, &[WORD], &[missing]).unwrap_err().kind(),
        &VirAbiErrorKind::InvalidAccess(missing)
    );
}

#[test]
fn environment_lookup_is_by_dense_index() {
    let physical = VirSignature { parameters: vec![VirType::U64], results: vec![] };
    let environment = VirAbiEnvironment::identity(&[(VirFunctionId::new(0), physical)]);
    assert_eq!(environment.function(VirFunctionId::new(0)).unwrap().function, VirFunctionId::new(0));
    assert!(environment.function(VirFunctionId::new(1)).is_none());
    assert!(VirAbiEnvironment::default().function(VirFunctionId::new(0)).is_none());
}

#[test]
fn the_identity_of_the_empty_signature_validates() {
    let physical = VirSignature { parameters: vec![], results: vec![] };
    let abi = VirAbiSignature::identity(&physical);
    assert!(abi.parameters().is_empty() && abi.results().is_empty());
    assert_eq!(abi.validate(&VirMemorySchema::core_u64()), Ok(()));
}
