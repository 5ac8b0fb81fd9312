use std::collections::{BTreeMap, BTreeSet};

use lib::borrow::{VirLoanEffect, VirLoanKind, VirLoanRange};
use lib::ids::{ByteSpan, VirBorrowRegionId, VirLoanId, VirOriginId, VirValueId};
use lib::loan_shadow::{RuntimeLoanAccess, RuntimeLoanAccessRequest, RuntimeLoanLimits, RuntimeLoanShadow};
use lib::memory::VirMemoryAccess;
use lib::provenance::{VirPointerDomain, VirPointerPaths};
use lib::runtime::{BlockFrame, VirExecutionErrorKind, VirRuntimePermission, VirRuntimePointer, VirRuntimeValue};
use lib::types::{VirType, VirValue};

const LIMITS: RuntimeLoanLimits = RuntimeLoanLimits { active_loans: 4, aliases_per_loan: 2, reborrow_depth: 4 };

fn pointer() -> VirRuntimePointer {
    VirRuntimePointer {
        allocation: 7,
        offset_bytes: 0,
        access: VirMemoryAccess::core_u64(),
        paths: VirPointerPaths::root(VirMemoryAccess::core_u64()),
        view_range: None,
        domain: VirPointerDomain::Restricted(VirLoanRange { start_bytes: 0, end_bytes: 8 }),
    }
}

fn frame() -> BlockFrame {
    BlockFrame {
        values: BTreeMap::from([
            (0, VirRuntimeValue::Pointer(pointer())),
            (
                1,
                VirRuntimeValue::Permission(VirRuntimePermission {
                    allocation: 7,
                    start_bytes: 0,
                    end_bytes: 8,
                    can_free_when_complete: true,
                }),
            ),
        ]),
        consumed_permissions: BTreeSet::new(),
        loan_authorities: BTreeMap::new(),
    }
}

fn effect(loan: u32, kind: VirLoanKind, parent: Option<u32>, pointer: u32, permission: u32) -> VirLoanEffect {
    VirLoanEffect {
        loan: VirLoanId::new(loan),
        kind,
        region: VirBorrowRegionId(0),
        parent: parent.map(VirLoanId::new),
        source_pointer: VirValueId::new(pointer),
        source_permission: VirValueId::new(permission),
        reference: VirMemoryAccess::core_u64(),
        range: VirLoanRange { start_bytes: 0, end_bytes: 8 },
        origin: VirOriginId(0),
    }
}

fn reference(id: u32) -> VirValue {
    VirValue { id: VirValueId::new(id), ty: VirType::Pointer { access: VirMemoryAccess::core_u64() } }
}

fn permission(id: u32) -> VirValue {
    VirValue { id: VirValueId::new(id), ty: VirType::Permission }
}

fn whole() -> VirLoanRange {
    VirLoanRange { start_bytes: 0, end_bytes: 8 }
}

fn request(permission: u32, kind: RuntimeLoanAccess) -> RuntimeLoanAccessRequest {
    RuntimeLoanAccessRequest { permission: VirValueId::new(permission), pointer: pointer(), start_bytes: 0, end_bytes: 8, kind }
}

#[test]
fn mutable_loan_excludes_other_access_until_it_ends() {
    let mut shadow = RuntimeLoanShadow::new();
    let mut frame = frame();
    let span = ByteSpan::empty();
    let loan = effect(0, VirLoanKind::Mutable, None, 0, 1);
    shadow.begin(&mut frame, loan, whole(), reference(2), permission(3), LIMITS, span).unwrap();
    assert_eq!(frame.loan_authorities[&3].loan, VirLoanId::new(0));
    assert!(shadow.has_live_loans());

    assert_eq!(
        shadow.check_access(&frame, request(1, RuntimeLoanAccess::Read), span).unwrap_err().kind(),
        &VirExecutionErrorKind::LoanAccessConflict { loan: VirLoanId::new(0), permission: VirValueId::new(1) }
    );
    shadow.check_access(&frame, request(3, RuntimeLoanAccess::Write), span).unwrap();
    assert_eq!(
        shadow.check_access(&frame, request(3, RuntimeLoanAccess::Free), span).unwrap_err().kind(),
        &VirExecutionErrorKind::LoanAccessConflict { loan: VirLoanId::new(0), permission: VirValueId::new(3) }
    );
    assert_eq!(
        shadow.begin(&mut frame, loan, whole(), reference(4), permission(5), LIMITS, span).unwrap_err().kind(),
        &VirExecutionErrorKind::LoanAlreadyDefined { loan: VirLoanId::new(0) }
    );
    assert_eq!(
        shadow.finish(span).unwrap_err().kind(),
        &VirExecutionErrorKind::LoanNotEnded { loan: VirLoanId::new(0) }
    );

    shadow.end(&mut frame, effect(0, VirLoanKind::Mutable, None, 2, 3), span).unwrap();
    assert!(frame.consumed_permissions.contains(&3));
    assert!(!shadow.has_live_loans());
    shadow.finish(span).unwrap();
    shadow.check_access(&frame, request(1, RuntimeLoanAccess::Write), span).unwrap();
}

#[test]
fn shared_loans_admit_reads_and_bounded_aliases() {
    let mut shadow = RuntimeLoanShadow::new();
    let mut frame = frame();
    let span = ByteSpan::empty();
    let loan = effect(0, VirLoanKind::Shared, None, 0, 1);
    shadow.begin(&mut frame, loan, whole(), reference(2), permission(3), LIMITS, span).unwrap();
    shadow.check_access(&frame, request(1, RuntimeLoanAccess::Read), span).unwrap();
    assert!(shadow.check_access(&frame, request(1, RuntimeLoanAccess::Write), span).is_err());

    let alias = effect(0, VirLoanKind::Shared, None, 2, 3);
    shadow.alias_shared(&mut frame, alias, reference(4), permission(5), LIMITS, span).unwrap();
    assert_eq!(frame.loan_authorities[&5].loan, VirLoanId::new(0));
    assert_ne!(frame.loan_authorities[&5].token, frame.loan_authorities[&3].token);
    assert_eq!(
        shadow.alias_shared(&mut frame, alias, reference(6), permission(7), LIMITS, span).unwrap_err().kind(),
        &VirExecutionErrorKind::LoanAliasLimitExceeded { loan: VirLoanId::new(0), limit: 2 }
    );

    shadow.end(&mut frame, effect(0, VirLoanKind::Shared, None, 2, 3), span).unwrap();
    assert!(shadow.has_live_loans());
    shadow.end(&mut frame, effect(0, VirLoanKind::Shared, None, 4, 5), span).unwrap();
    assert!(!shadow.has_live_loans());
}

#[test]
fn a_second_mutable_root_over_the_same_bytes_conflicts() {
    let mut shadow = RuntimeLoanShadow::new();
    let mut frame = frame();
    let span = ByteSpan::empty();
    shadow.begin(&mut frame, effect(0, VirLoanKind::Shared, None, 0, 1), whole(), reference(2), permission(3), LIMITS, span).unwrap();
    assert_eq!(
        shadow
            .begin(&mut frame, effect(1, VirLoanKind::Mutable, None, 0, 1), whole(), reference(4), permission(5), LIMITS, span)
            .unwrap_err()
            .kind(),
        &VirExecutionErrorKind::LoanConflict { loan: VirLoanId::new(1) }
    );
    shadow.begin(&mut frame, effect(1, VirLoanKind::Shared, None, 0, 1), whole(), reference(4), permission(5), LIMITS, span).unwrap();
}

#[test]
fn mutable_reborrow_suspends_its_parent_until_it_ends() {
    let mut shadow = RuntimeLoanShadow::new();
    let mut frame = frame();
    let span = ByteSpan::empty();
    shadow.begin(&mut frame, effect(0, VirLoanKind::Mutable, None, 0, 1), whole(), reference(2), permission(3), LIMITS, span).unwrap();
    let child = effect(1, VirLoanKind::Mutable, Some(0), 2, 3);
    shadow.reborrow(&mut frame, child, whole(), reference(4), permission(5), LIMITS, span).unwrap();
    assert_eq!(shadow.root_loan(VirLoanId::new(1), span).unwrap(), VirLoanId::new(0));
    assert_eq!(
        shadow.check_access(&frame, request(3, RuntimeLoanAccess::Write), span).unwrap_err().kind(),
        &VirExecutionErrorKind::LoanAccessConflict { loan: VirLoanId::new(0), permission: VirValueId::new(3) }
    );
    shadow.check_access(&frame, request(5, RuntimeLoanAccess::Write), span).unwrap();
    assert_eq!(
        shadow.end(&mut frame, effect(0, VirLoanKind::Mutable, None, 2, 3), span).unwrap_err().kind(),
        &VirExecutionErrorKind::LoanInactive { loan: VirLoanId::new(0) }
    );

    shadow.end(&mut frame, effect(1, VirLoanKind::Mutable, Some(0), 4, 5), span).unwrap();
    shadow.check_access(&frame, request(3, RuntimeLoanAccess::Write), span).unwrap();
    shadow.end(&mut frame, effect(0, VirLoanKind::Mutable, None, 2, 3), span).unwrap();
    shadow.finish(span).unwrap();
}

#[test]
fn reborrow_depth_is_bounded() {
    let mut shadow = RuntimeLoanShadow::new();
    let mut frame = frame();
    let span = ByteSpan::empty();
    let limits = RuntimeLoanLimits { reborrow_depth: 1, ..LIMITS };
    shadow.begin(&mut frame, effect(0, VirLoanKind::Shared, None, 0, 1), whole(), reference(2), permission(3), limits, span).unwrap();
    shadow.reborrow(&mut frame, effect(1, VirLoanKind::Shared, Some(0), 2, 3), whole(), reference(4), permission(5), limits, span).unwrap();
    assert_eq!(
        shadow
            .reborrow(&mut frame, effect(2, VirLoanKind::Shared, Some(1), 4, 5), whole(), reference(6), permission(7), limits, span)
            .unwrap_err()
            .kind(),
        &VirExecutionErrorKind::LoanReborrowDepthLimitExceeded { loan: VirLoanId::new(2), limit: 1 }
    );
}

#[test]
fn loaned_permissions_cannot_be_split_or_freed() {
    let mut shadow = RuntimeLoanShadow::new();
    let mut frame = frame();
    let span = ByteSpan::empty();
    shadow.begin(&mut frame, effect(0, VirLoanKind::Mutable, None, 0, 1), whole(), reference(2), permission(3), LIMITS, span).unwrap();
    assert_eq!(
        shadow.reject_permission_transform(&frame, VirValueId::new(3), span).unwrap_err().kind(),
        &VirExecutionErrorKind::LoanAccessConflict { loan: VirLoanId::new(0), permission: VirValueId::new(3) }
    );
    shadow.reject_permission_transform(&frame, VirValueId::new(1), span).unwrap();
}

#[test]
fn a_loan_outside_its_envelope_is_a_range_violation() {
    let mut shadow = RuntimeLoanShadow::new();
    let mut frame = frame();
    let span = ByteSpan::empty();
    let outside = VirLoanRange { start_bytes: 0, end_bytes: 16 };
    assert_eq!(
        shadow
            .begin(&mut frame, effect(0, VirLoanKind::Mutable, None, 0, 1), outside, reference(2), permission(3), LIMITS, span)
            .unwrap_err()
            .kind(),
        &VirExecutionErrorKind::LoanRangeViolation { loan: VirLoanId::new(0) }
    );
    assert!(!shadow.has_live_loans());
}

#[test]
fn a_conditional_return_aliases_a_shared_parent_and_suspends_a_mutable_one() {
    let span = ByteSpan::empty();
    let returned = VirRuntimePermission { allocation: 7, start_bytes: 0, end_bytes: 8, can_free_when_complete: false };

    let mut shadow = RuntimeLoanShadow::new();
    let mut slots = self::frame();
    shadow.begin(&mut slots, effect(0, VirLoanKind::Shared, None, 0, 1), whole(), reference(2), permission(3), LIMITS, span).unwrap();
    let parent = slots.loan_authorities[&3];
    let alias = shadow.activate_conditional_return(parent, None, returned, LIMITS, span).unwrap();
    assert_eq!(alias.loan, VirLoanId::new(0));
    assert_ne!(alias.token, parent.token);
    assert_eq!(shadow.loan(VirLoanId::new(0), span).unwrap().authorities.len(), 2);
    assert_eq!(
        shadow.activate_conditional_return(parent, None, returned, LIMITS, span).unwrap_err().kind(),
        &VirExecutionErrorKind::LoanAliasLimitExceeded { loan: VirLoanId::new(0), limit: 2 }
    );

    let mut shadow = RuntimeLoanShadow::new();
    let mut slots = self::frame();
    shadow.begin(&mut slots, effect(0, VirLoanKind::Mutable, None, 0, 1), whole(), reference(2), permission(3), LIMITS, span).unwrap();
    let parent = slots.loan_authorities[&3];
    let child = shadow.activate_conditional_return(parent, None, returned, LIMITS, span).unwrap();
    assert_eq!(child.loan, VirLoanId::new(0x8000_0000));
    assert_eq!(shadow.loan(child.loan, span).unwrap().parent, Some(VirLoanId::new(0)));
    assert_eq!(shadow.loan(child.loan, span).unwrap().range, whole());
    assert_eq!(
        shadow.check_access(&slots, request(3, RuntimeLoanAccess::Write), span).unwrap_err().kind(),
        &VirExecutionErrorKind::LoanAccessConflict { loan: VirLoanId::new(0), permission: VirValueId::new(3) }
    );
    let second = shadow.activate_conditional_return(child, Some(VirMemoryAccess::core_u64()), returned, LIMITS, span).unwrap();
    assert_eq!(second.loan, VirLoanId::new(0x8000_0001));

    assert_eq!(
        shadow.activate_conditional_return(
            lib::runtime::RuntimeLoanAuthority { loan: VirLoanId::new(9), token: 0 },
            None,
            returned,
            LIMITS,
            span
        )
        .unwrap_err()
        .kind(),
        &VirExecutionErrorKind::MissingLoan { loan: VirLoanId::new(9) }
    );
}
