use lib::ids::{VirLayoutId, VirLoanId, VirTypeId, VirValueId, VirVariantId};
use lib::memory::VirMemoryAccess;
use lib::runtime::VirExecutionErrorKind;

#[test]
fn fault_messages_name_their_operands_in_decimal() {
    assert_eq!(VirExecutionErrorKind::UseAfterFree { allocation: 3 }.message(), "use after free of allocation 3");
    assert_eq!(
        VirExecutionErrorKind::PointerDomainViolation { allocation: 7, start_bytes: 0, end_bytes: 1024 }.message(),
        "address range 0..1024 escapes pointer arithmetic domain in allocation 7"
    );
    assert_eq!(VirExecutionErrorKind::StepLimitExceeded.message(), "VIR execution step limit exceeded");
    assert_eq!(
        VirExecutionErrorKind::LoanParentMismatch { loan: VirLoanId::new(12), parent: VirLoanId::new(9) }.message(),
        "loan12 is not authorized by parent loan9"
    );
    assert_eq!(
        VirExecutionErrorKind::PermissionAlreadyConsumed(VirValueId::new(5)).message(),
        "permission %5 was already consumed"
    );
    assert_eq!(
        VirExecutionErrorKind::ObjectEffectSizeLimitExceeded { requested: u64::MAX, limit: 4096 }.message(),
        "object effect requires 18446744073709551615 bytes; interpreter limit is 4096"
    );
}

#[test]
fn variant_faults_name_enum_and_variants() {
    let access = VirMemoryAccess { ty: VirTypeId(1), layout: VirLayoutId(10) };
    assert_eq!(
        VirExecutionErrorKind::InactiveVariantAccess {
            allocation: 0,
            offset_bytes: 8,
            enum_access: access,
            active: VirVariantId::new(1),
            required: VirVariantId::new(0),
        }
        .message(),
        "access at byte 8 of allocation 0 requires variant0 of enum type1/layout10, but variant1 is active"
    );
    assert_eq!(
        VirExecutionErrorKind::PermissionOutOfRange { start_bytes: 0, end_bytes: 8, access_start_bytes: 4, access_end_bytes: 12 }
            .message(),
        "permission [0, 8) does not cover access [4, 12)"
    );
}
