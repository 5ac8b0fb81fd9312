use std::collections::{BTreeMap, BTreeSet};

use lib::borrow::VirLoanRange;
use lib::ids::{ByteSpan, VirLayoutId, VirTypeId, VirValueId};
use lib::instruction_checks::{TypedLoanAccess, check_permission_range_loan_access, check_typed_loan_access, scalar_value};
use lib::loan_shadow::{RuntimeLoanAccess, RuntimeLoanShadow};
use lib::memory::{VirMemoryAccess, VirMemorySchema};
use lib::provenance::{VirPointerDomain, VirPointerPaths};
use lib::runtime::{BlockFrame, VirExecutionErrorKind, VirRuntimePermission, VirRuntimePointer, VirRuntimeValue};

fn pointer() -> VirRuntimePointer {
    VirRuntimePointer {
        allocation: 3,
        offset_bytes: 8,
        access: VirMemoryAccess::core_u64(),
        paths: VirPointerPaths::root(VirMemoryAccess::core_u64()),
        view_range: None,
        domain: VirPointerDomain::Restricted(VirLoanRange { start_bytes: 0, end_bytes: 16 }),
    }
}

fn frame() -> BlockFrame {
    BlockFrame {
        values: BTreeMap::from([
            (0, VirRuntimeValue::Pointer(pointer())),
            (
                1,
                VirRuntimeValue::Permission(VirRuntimePermission {
                    allocation: 3,
                    start_bytes: 0,
                    end_bytes: 16,
                    can_free_when_complete: true,
                }),
            ),
            (2, VirRuntimeValue::U64(77)),
            (3, VirRuntimeValue::Bool(true)),
        ]),
        consumed_permissions: BTreeSet::new(),
        loan_authorities: BTreeMap::new(),
    }
}

#[test]
fn scalar_operands_read_as_their_bits() {
    let memory = VirMemorySchema::core_u64();
    let word = VirMemoryAccess::core_u64();
    let span = ByteSpan::empty();
    assert_eq!(scalar_value(&memory, &frame(), VirValueId::new(2), word, span).unwrap(), 77);
    assert_eq!(
        scalar_value(&memory, &frame(), VirValueId::new(3), word, span).unwrap_err().kind(),
        &VirExecutionErrorKind::InvalidRuntimeState
    );
    let unknown = VirMemoryAccess { ty: VirTypeId(9), layout: VirLayoutId(9) };
    assert_eq!(
        scalar_value(&memory, &frame(), VirValueId::new(2), unknown, span).unwrap_err().kind(),
        &VirExecutionErrorKind::InvalidRuntimeState
    );
}

#[test]
fn accesses_without_loans_pass_the_loan_check() {
    let memory = VirMemorySchema::core_u64();
    let shadow = RuntimeLoanShadow::new();
    let span = ByteSpan::empty();
    let request = TypedLoanAccess {
        pointer: VirValueId::new(0),
        permission: VirValueId::new(1),
        access: VirMemoryAccess::core_u64(),
        kind: RuntimeLoanAccess::Write,
    };
    check_typed_loan_access(&memory, &frame(), &shadow, request, span).unwrap();
    check_permission_range_loan_access(&frame(), &shadow, VirValueId::new(0), VirValueId::new(1), RuntimeLoanAccess::Free, span)
        .unwrap();
}

#[test]
fn a_missing_pointer_operand_is_an_invalid_runtime_state() {
    let memory = VirMemorySchema::core_u64();
    let shadow = RuntimeLoanShadow::new();
    let span = ByteSpan::empty();
    let request = TypedLoanAccess {
        pointer: VirValueId::new(5),
        permission: VirValueId::new(1),
        access: VirMemoryAccess::core_u64(),
        kind: RuntimeLoanAccess::Read,
    };
    assert_eq!(
        check_typed_loan_access(&memory, &frame(), &shadow, request, span).unwrap_err().kind(),
        &VirExecutionErrorKind::InvalidRuntimeState
    );
    assert_eq!(
        check_permission_range_loan_access(&frame(), &shadow, VirValueId::new(5), VirValueId::new(1), RuntimeLoanAccess::Read, span)
            .unwrap_err()
            .kind(),
        &VirExecutionErrorKind::InvalidRuntimeState
    );
}
