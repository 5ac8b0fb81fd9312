//! The human-readable message of each runtime fault.

use vstd::prelude::*;
use vstd::string::StringExecFns;

use crate::runtime::VirExecutionErrorKind;

verus! {

/// The decimal digit `d` as a character.
pub open spec fn digit_char(d: nat) -> char {
    if d == 0 {
        '0'
    } else if d == 1 {
        '1'
    } else if d == 2 {
        '2'
    } else if d == 3 {
        '3'
    } else if d == 4 {
        '4'
    } else if d == 5 {
        '5'
    } else if d == 6 {
        '6'
    } else if d == 7 {
        '7'
    } else if d == 8 {
        '8'
    } else {
        '9'
    }
}

/// The decimal notation of `n`, without leading zeros.
pub open spec fn decimal(n: nat) -> Seq<char>
    decreases n,
{
    if n < 10 {
        seq![digit_char(n)]
    } else {
        decimal(n / 10) + seq![digit_char(n % 10)]
    }
}

fn append_digit(s: &mut String, d: u64)
    requires
        d < 10,
    ensures
        final(s)@ == old(s)@ + seq![digit_char(d as nat)],
{
    proof {
        reveal_strlit("0");
        reveal_strlit("1");
        reveal_strlit("2");
        reveal_strlit("3");
        reveal_strlit("4");
        reveal_strlit("5");
        reveal_strlit("6");
        reveal_strlit("7");
        reveal_strlit("8");
        reveal_strlit("9");
    }
    if d == 0 {
        s.append("0");
    } else if d == 1 {
        s.append("1");
    } else if d == 2 {
        s.append("2");
    } else if d == 3 {
        s.append("3");
    } else if d == 4 {
        s.append("4");
    } else if d == 5 {
        s.append("5");
    } else if d == 6 {
        s.append("6");
    } else if d == 7 {
        s.append("7");
    } else if d == 8 {
        s.append("8");
    } else {
        s.append("9");
    }
}

/// Appends the decimal notation of `n`.
pub fn append_decimal(s: &mut String, n: u64)
    ensures
        final(s)@ == old(s)@ + decimal(n as nat),
    decreases n,
{
    if n >= 10 {
        append_decimal(s, n / 10);
    }
    append_digit(s, n % 10);
    proof {
        assert(old(s)@ + decimal(n as nat) =~= final(s)@) by {
            if n >= 10 {
                assert(decimal(n as nat) == decimal((n / 10) as nat) + seq![digit_char((n % 10) as nat)]);
            }
        }
    }
}

/// The message of fault `kind`.
pub open spec fn spec_message(kind: VirExecutionErrorKind) -> Seq<char> {
    match kind {
        VirExecutionErrorKind::PointerDomainViolation { allocation, start_bytes, end_bytes } => "address range "@ + decimal(start_bytes as nat) + ".."@ + decimal(end_bytes as nat) + " escapes pointer arithmetic domain in allocation "@ + decimal(allocation as nat),
        VirExecutionErrorKind::StepLimitExceeded => "VIR execution step limit exceeded"@,
        VirExecutionErrorKind::CallDepthExceeded => "VIR call depth limit exceeded"@,
        VirExecutionErrorKind::EntryPointParametersUnsupported { count } => "VIR entry function has "@ + decimal(count as nat) + " parameters; source execution requires a zero-parameter entry"@,
        VirExecutionErrorKind::ActiveLoanLimitExceeded { limit } => "runtime loan shadow exceeds its limit of "@ + decimal(limit as nat) + " active loans"@,
        VirExecutionErrorKind::LoanAliasLimitExceeded { loan, limit } => "loan"@ + decimal(loan.0 as nat) + " exceeds its runtime limit of "@ + decimal(limit as nat) + " active aliases"@,
        VirExecutionErrorKind::LoanReborrowDepthLimitExceeded { loan, limit } => "loan"@ + decimal(loan.0 as nat) + " exceeds its runtime reborrow depth limit of "@ + decimal(limit as nat),
        VirExecutionErrorKind::LoanAlreadyDefined { loan } => "loan"@ + decimal(loan.0 as nat) + " was already defined in this call"@,
        VirExecutionErrorKind::MissingLoan { loan } => "loan"@ + decimal(loan.0 as nat) + " has no runtime shadow record"@,
        VirExecutionErrorKind::LoanMetadataMismatch { loan } => "loan"@ + decimal(loan.0 as nat) + " effect disagrees with its runtime shadow metadata"@,
        VirExecutionErrorKind::LoanRangeViolation { loan } => "loan"@ + decimal(loan.0 as nat) + " range is not covered by its runtime pointer and permission"@,
        VirExecutionErrorKind::LoanConflict { loan } => "loan"@ + decimal(loan.0 as nat) + " conflicts with an active runtime loan"@,
        VirExecutionErrorKind::LoanInactive { loan } => "loan"@ + decimal(loan.0 as nat) + " is not active"@,
        VirExecutionErrorKind::LoanParentMismatch { loan, parent } => "loan"@ + decimal(loan.0 as nat) + " is not authorized by parent loan"@ + decimal(parent.0 as nat),
        VirExecutionErrorKind::LoanHasActiveChild { loan } => "loan"@ + decimal(loan.0 as nat) + " still has an active child loan"@,
        VirExecutionErrorKind::LoanAuthorityMismatch { loan, permission } => "permission %"@ + decimal(permission.0 as nat) + " is not a live authority for loan"@ + decimal(loan.0 as nat),
        VirExecutionErrorKind::LoanAccessConflict { loan, permission } => "permission %"@ + decimal(permission.0 as nat) + " cannot access memory protected by loan"@ + decimal(loan.0 as nat),
        VirExecutionErrorKind::LoanNotEnded { loan } => "loan"@ + decimal(loan.0 as nat) + " is still live when its function returns"@,
        VirExecutionErrorKind::LoanAuthorityAcrossCall { permission } => "permission %"@ + decimal(permission.0 as nat) + " carries a loan authority across an unsupported call boundary"@,
        VirExecutionErrorKind::UnsupportedObjectEffectType { access } => "object effect for type"@ + decimal(access.ty.0 as nat) + "/layout"@ + decimal(access.layout.0 as nat) + " has no runtime representation"@,
        VirExecutionErrorKind::ObjectEffectSizeLimitExceeded { requested, limit } => "object effect requires "@ + decimal(requested as nat) + " bytes; interpreter limit is "@ + decimal(limit as nat),
        VirExecutionErrorKind::ObjectRootLimitExceeded { allocation, limit } => "allocation "@ + decimal(allocation as nat) + " exceeds the interpreter limit of "@ + decimal(limit as nat) + " tracked enum object roots"@,
        VirExecutionErrorKind::ResourcePayloadLimitExceeded { allocation, limit } => "allocation "@ + decimal(allocation as nat) + " exceeds the interpreter limit of "@ + decimal(limit as nat) + " typed resource payloads"@,
        VirExecutionErrorKind::MissingResourcePayload { allocation, offset_bytes, access } => "resource type"@ + decimal(access.ty.0 as nat) + "/layout"@ + decimal(access.layout.0 as nat) + " at byte "@ + decimal(offset_bytes as nat) + " of allocation "@ + decimal(allocation as nat) + " has no available typed payload"@,
        VirExecutionErrorKind::AllocationContainsResourcePayload { allocation } => "allocation "@ + decimal(allocation as nat) + " still contains an owning resource payload"@,
        VirExecutionErrorKind::InvalidRuntimeState => "invalid VIR runtime state"@,
        VirExecutionErrorKind::AddressTypeMismatch { found, expected } => "address has type"@ + decimal(found.ty.0 as nat) + "/layout"@ + decimal(found.layout.0 as nat) + "; expected type"@ + decimal(expected.ty.0 as nat) + "/layout"@ + decimal(expected.layout.0 as nat),
        VirExecutionErrorKind::IndexOutOfBounds { index, length } => "index "@ + decimal(index as nat) + " is outside array length "@ + decimal(length as nat),
        VirExecutionErrorKind::InvalidSliceRange { start, end, length } => "slice range "@ + decimal(start as nat) + ".."@ + decimal(end as nat) + " is outside source length "@ + decimal(length as nat),
        VirExecutionErrorKind::AddressCalculationOverflow => "field/index address calculation overflowed u64"@,
        VirExecutionErrorKind::AddressOutOfBounds { allocation, offset_bytes, object_bytes, size_bytes } => decimal(object_bytes as nat) + "-byte object at byte "@ + decimal(offset_bytes as nat) + " is outside allocation "@ + decimal(allocation as nat) + " of "@ + decimal(size_bytes as nat) + " bytes"@,
        VirExecutionErrorKind::AllocationFailure { size_bytes, limit_bytes } => "cannot allocate "@ + decimal(size_bytes as nat) + " bytes (per-allocation limit is "@ + decimal(limit_bytes as nat) + ")"@,
        VirExecutionErrorKind::AllocationIdentityExhausted => "VIR allocation identity space exhausted"@,
        VirExecutionErrorKind::UseAfterFree { allocation } => "use after free of allocation "@ + decimal(allocation as nat),
        VirExecutionErrorKind::UseAfterLifetimeEnd { allocation } => "use after function-local lifetime of allocation "@ + decimal(allocation as nat),
        VirExecutionErrorKind::DoubleFree { allocation } => "double free of allocation "@ + decimal(allocation as nat),
        VirExecutionErrorKind::PointerRelationIncompatible => "pointer relation requires the same live instance and canonical domain"@,
        VirExecutionErrorKind::PointerDistanceNegative => "pointer byte distance is negative"@,
        VirExecutionErrorKind::PointerOffsetOutOfBounds { allocation, offset_bytes, size_bytes } => "pointer offset "@ + decimal(offset_bytes as nat) + " is outside allocation "@ + decimal(allocation as nat) + " of "@ + decimal(size_bytes as nat) + " bytes"@,
        VirExecutionErrorKind::MisalignedAccess { allocation, offset_bytes, required_alignment } => "access at byte "@ + decimal(offset_bytes as nat) + " of allocation "@ + decimal(allocation as nat) + " is not aligned to "@ + decimal(required_alignment as nat) + " bytes"@,
        VirExecutionErrorKind::OutOfBoundsAccess { allocation, offset_bytes, access_bytes, size_bytes } => decimal(access_bytes as nat) + "-byte access at byte "@ + decimal(offset_bytes as nat) + " is outside allocation "@ + decimal(allocation as nat) + " of "@ + decimal(size_bytes as nat) + " bytes"@,
        VirExecutionErrorKind::UninitializedRead { allocation, offset_bytes } => "read of uninitialized byte "@ + decimal(offset_bytes as nat) + " in allocation "@ + decimal(allocation as nat),
        VirExecutionErrorKind::UninitializedObjectLeaf { allocation, offset_bytes, access } => "object type"@ + decimal(access.ty.0 as nat) + "/layout"@ + decimal(access.layout.0 as nat) + " reads uninitialized byte "@ + decimal(offset_bytes as nat) + " in allocation "@ + decimal(allocation as nat),
        VirExecutionErrorKind::InactiveVariantAccess { allocation, offset_bytes, enum_access, active, required } => "access at byte "@ + decimal(offset_bytes as nat) + " of allocation "@ + decimal(allocation as nat) + " requires variant"@ + decimal(required.0 as nat) + " of enum type"@ + decimal(enum_access.ty.0 as nat) + "/layout"@ + decimal(enum_access.layout.0 as nat) + ", but variant"@ + decimal(active.0 as nat) + " is active"@,
        VirExecutionErrorKind::InvalidObjectRepresentation { allocation, offset_bytes, access } => "invalid representation for type"@ + decimal(access.ty.0 as nat) + "/layout"@ + decimal(access.layout.0 as nat) + " at byte "@ + decimal(offset_bytes as nat) + " of allocation "@ + decimal(allocation as nat),
        VirExecutionErrorKind::OverlappingObjectTransfer { allocation, destination_offset_bytes, source_offset_bytes, size_bytes } => decimal(size_bytes as nat) + "-byte object transfer overlaps within allocation "@ + decimal(allocation as nat) + ": destination byte "@ + decimal(destination_offset_bytes as nat) + ", source byte "@ + decimal(source_offset_bytes as nat),
        VirExecutionErrorKind::InitializeAlreadyInitialized { allocation, offset_bytes } => "initialize targets initialized byte "@ + decimal(offset_bytes as nat) + " in allocation "@ + decimal(allocation as nat),
        VirExecutionErrorKind::StoreToUninitialized { allocation, offset_bytes } => "store targets uninitialized byte "@ + decimal(offset_bytes as nat) + " in allocation "@ + decimal(allocation as nat),
        VirExecutionErrorKind::InvalidFree { allocation, offset_bytes } => "invalid free at byte "@ + decimal(offset_bytes as nat) + " of allocation "@ + decimal(allocation as nat),
        VirExecutionErrorKind::PermissionAlreadyConsumed(value) => "permission %"@ + decimal(value.0 as nat) + " was already consumed"@,
        VirExecutionErrorKind::PermissionDuplicated(value) => "permission %"@ + decimal(value.0 as nat) + " is transferred more than once"@,
        VirExecutionErrorKind::PermissionMismatch { allocation, permission_allocation } => "allocation "@ + decimal(allocation as nat) + " is accessed with permission for allocation "@ + decimal(permission_allocation as nat),
        VirExecutionErrorKind::PermissionOutOfRange { start_bytes, end_bytes, access_start_bytes, access_end_bytes } => "permission ["@ + decimal(start_bytes as nat) + ", "@ + decimal(end_bytes as nat) + ") does not cover access ["@ + decimal(access_start_bytes as nat) + ", "@ + decimal(access_end_bytes as nat) + ")"@,
        VirExecutionErrorKind::InvalidPermissionSplit { split_at_bytes, start_bytes, end_bytes } => "permission ["@ + decimal(start_bytes as nat) + ", "@ + decimal(end_bytes as nat) + ") cannot be split at byte "@ + decimal(split_at_bytes as nat),
        VirExecutionErrorKind::InvalidPermissionJoin => "permissions are not adjacent parts of one allocation"@,
        VirExecutionErrorKind::CheckFailed => "VIR runtime check failed"@,
    }
}

impl VirExecutionErrorKind {
    /// The human-readable message of this fault.
    pub fn message(&self) -> (s: String)
        ensures
            s@ == spec_message(*self),
    {
        let mut s = String::new();
        match self {
            VirExecutionErrorKind::PointerDomainViolation { allocation, start_bytes, end_bytes } => {
                s.append("address range ");
                append_decimal(&mut s, *start_bytes as u64);
                s.append("..");
                append_decimal(&mut s, *end_bytes as u64);
                s.append(" escapes pointer arithmetic domain in allocation ");
                append_decimal(&mut s, *allocation as u64);
            },
            VirExecutionErrorKind::StepLimitExceeded => {
                s.append("VIR execution step limit exceeded");
            },
            VirExecutionErrorKind::CallDepthExceeded => {
                s.append("VIR call depth limit exceeded");
            },
            VirExecutionErrorKind::EntryPointParametersUnsupported { count } => {
                s.append("VIR entry function has ");
                append_decimal(&mut s, *count as u64);
                s.append(" parameters; source execution requires a zero-parameter entry");
            },
            VirExecutionErrorKind::ActiveLoanLimitExceeded { limit } => {
                s.append("runtime loan shadow exceeds its limit of ");
                append_decimal(&mut s, *limit as u64);
                s.append(" active loans");
            },
            VirExecutionErrorKind::LoanAliasLimitExceeded { loan, limit } => {
                s.append("loan");
                append_decimal(&mut s, loan.get() as u64);
                s.append(" exceeds its runtime limit of ");
                append_decimal(&mut s, *limit as u64);
                s.append(" active aliases");
            },
            VirExecutionErrorKind::LoanReborrowDepthLimitExceeded { loan, limit } => {
                s.append("loan");
                append_decimal(&mut s, loan.get() as u64);
                s.append(" exceeds its runtime reborrow depth limit of ");
                append_decimal(&mut s, *limit as u64);
            },
            VirExecutionErrorKind::LoanAlreadyDefined { loan } => {
                s.append("loan");
                append_decimal(&mut s, loan.get() as u64);
                s.append(" was already defined in this call");
            },
            VirExecutionErrorKind::MissingLoan { loan } => {
                s.append("loan");
                append_decimal(&mut s, loan.get() as u64);
                s.append(" has no runtime shadow record");
            },
            VirExecutionErrorKind::LoanMetadataMismatch { loan } => {
                s.append("loan");
                append_decimal(&mut s, loan.get() as u64);
                s.append(" effect disagrees with its runtime shadow metadata");
            },
            VirExecutionErrorKind::LoanRangeViolation { loan } => {
                s.append("loan");
                append_decimal(&mut s, loan.get() as u64);
                s.append(" range is not covered by its runtime pointer and permission");
            },
            VirExecutionErrorKind::LoanConflict { loan } => {
                s.append("loan");
                append_decimal(&mut s, loan.get() as u64);
                s.append(" conflicts with an active runtime loan");
            },
            VirExecutionErrorKind::LoanInactive { loan } => {
                s.append("loan");
                append_decimal(&mut s, loan.get() as u64);
                s.append(" is not active");
            },
            VirExecutionErrorKind::LoanParentMismatch { loan, parent } => {
                s.append("loan");
                append_decimal(&mut s, loan.get() as u64);
                s.append(" is not authorized by parent loan");
                append_decimal(&mut s, parent.get() as u64);
            },
            VirExecutionErrorKind::LoanHasActiveChild { loan } => {
                s.append("loan");
                append_decimal(&mut s, loan.get() as u64);
                s.append(" still has an active child loan");
            },
            VirExecutionErrorKind::LoanAuthorityMismatch { loan, permission } => {
                s.append("permission %");
                append_decimal(&mut s, permission.get() as u64);
                s.append(" is not a live authority for loan");
                append_decimal(&mut s, loan.get() as u64);
            },
            VirExecutionErrorKind::LoanAccessConflict { loan, permission } => {
                s.append("permission %");
                append_decimal(&mut s, permission.get() as u64);
                s.append(" cannot access memory protected by loan");
                append_decimal(&mut s, loan.get() as u64);
            },
            VirExecutionErrorKind::LoanNotEnded { loan } => {
                s.append("loan");
                append_decimal(&mut s, loan.get() as u64);
                s.append(" is still live when its function returns");
            },
            VirExecutionErrorKind::LoanAuthorityAcrossCall { permission } => {
                s.append("permission %");
                append_decimal(&mut s, permission.get() as u64);
                s.append(" carries a loan authority across an unsupported call boundary");
            },
            VirExecutionErrorKind::UnsupportedObjectEffectType { access } => {
                s.append("object effect for type");
                append_decimal(&mut s, access.ty.get() as u64);
                s.append("/layout");
                append_decimal(&mut s, access.layout.get() as u64);
                s.append(" has no runtime representation");
            },
            VirExecutionErrorKind::ObjectEffectSizeLimitExceeded { requested, limit } => {
                s.append("object effect requires ");
                append_decimal(&mut s, *requested as u64);
                s.append(" bytes; interpreter limit is ");
                append_decimal(&mut s, *limit as u64);
            },
            VirExecutionErrorKind::ObjectRootLimitExceeded { allocation, limit } => {
                s.append("allocation ");
                append_decimal(&mut s, *allocation as u64);
                s.append(" exceeds the interpreter limit of ");
                append_decimal(&mut s, *limit as u64);
                s.append(" tracked enum object roots");
            },
            VirExecutionErrorKind::ResourcePayloadLimitExceeded { allocation, limit } => {
                s.append("allocation ");
                append_decimal(&mut s, *allocation as u64);
                s.append(" exceeds the interpreter limit of ");
                append_decimal(&mut s, *limit as u64);
                s.append(" typed resource payloads");
            },
            VirExecutionErrorKind::MissingResourcePayload { allocation, offset_bytes, access } => {
                s.append("resource type");
                append_decimal(&mut s, access.ty.get() as u64);
                s.append("/layout");
                append_decimal(&mut s, access.layout.get() as u64);
                s.append(" at byte ");
                append_decimal(&mut s, *offset_bytes as u64);
                s.append(" of allocation ");
                append_decimal(&mut s, *allocation as u64);
                s.append(" has no available typed payload");
            },
            VirExecutionErrorKind::AllocationContainsResourcePayload { allocation } => {
                s.append("allocation ");
                append_decimal(&mut s, *allocation as u64);
                s.append(" still contains an owning resource payload");
            },
            VirExecutionErrorKind::InvalidRuntimeState => {
                s.append("invalid VIR runtime state");
            },
            VirExecutionErrorKind::AddressTypeMismatch { found, expected } => {
                s.append("address has type");
                append_decimal(&mut s, found.ty.get() as u64);
                s.append("/layout");
                append_decimal(&mut s, found.layout.get() as u64);
                s.append("; expected type");
                append_decimal(&mut s, expected.ty.get() as u64);
                s.append("/layout");
                append_decimal(&mut s, expected.layout.get() as u64);
            },
            VirExecutionErrorKind::IndexOutOfBounds { index, length } => {
                s.append("index ");
                append_decimal(&mut s, *index as u64);
                s.append(" is outside array length ");
                append_decimal(&mut s, *length as u64);
            },
            VirExecutionErrorKind::InvalidSliceRange { start, end, length } => {
                s.append("slice range ");
                append_decimal(&mut s, *start as u64);
                s.append("..");
                append_decimal(&mut s, *end as u64);
                s.append(" is outside source length ");
                append_decimal(&mut s, *length as u64);
            },
            VirExecutionErrorKind::AddressCalculationOverflow => {
                s.append("field/index address calculation overflowed u64");
            },
            VirExecutionErrorKind::AddressOutOfBounds { allocation, offset_bytes, object_bytes, size_bytes } => {
                append_decimal(&mut s, *object_bytes as u64);
                s.append("-byte object at byte ");
                append_decimal(&mut s, *offset_bytes as u64);
                s.append(" is outside allocation ");
                append_decimal(&mut s, *allocation as u64);
                s.append(" of ");
                append_decimal(&mut s, *size_bytes as u64);
                s.append(" bytes");
            },
            VirExecutionErrorKind::AllocationFailure { size_bytes, limit_bytes } => {
                s.append("cannot allocate ");
                append_decimal(&mut s, *size_bytes as u64);
                s.append(" bytes (per-allocation limit is ");
                append_decimal(&mut s, *limit_bytes as u64);
                s.append(")");
            },
            VirExecutionErrorKind::AllocationIdentityExhausted => {
                s.append("VIR allocation identity space exhausted");
            },
            VirExecutionErrorKind::UseAfterFree { allocation } => {
                s.append("use after free of allocation ");
                append_decimal(&mut s, *allocation as u64);
            },
            VirExecutionErrorKind::UseAfterLifetimeEnd { allocation } => {
                s.append("use after function-local lifetime of allocation ");
                append_decimal(&mut s, *allocation as u64);
            },
            VirExecutionErrorKind::DoubleFree { allocation } => {
                s.append("double free of allocation ");
                append_decimal(&mut s, *allocation as u64);
            },
            VirExecutionErrorKind::PointerRelationIncompatible => {
                s.append("pointer relation requires the same live instance and canonical domain");
            },
            VirExecutionErrorKind::PointerDistanceNegative => {
                s.append("pointer byte distance is negative");
            },
            VirExecutionErrorKind::PointerOffsetOutOfBounds { allocation, offset_bytes, size_bytes } => {
                s.append("pointer offset ");
                append_decimal(&mut s, *offset_bytes as u64);
                s.append(" is outside allocation ");
                append_decimal(&mut s, *allocation as u64);
                s.append(" of ");
                append_decimal(&mut s, *size_bytes as u64);
                s.append(" bytes");
            },
            VirExecutionErrorKind::MisalignedAccess { allocation, offset_bytes, required_alignment } => {
                s.append("access at byte ");
                append_decimal(&mut s, *offset_bytes as u64);
                s.append(" of allocation ");
                append_decimal(&mut s, *allocation as u64);
                s.append(" is not aligned to ");
                append_decimal(&mut s, *required_alignment as u64);
                s.append(" bytes");
            },
            VirExecutionErrorKind::OutOfBoundsAccess { allocation, offset_bytes, access_bytes, size_bytes } => {
                append_decimal(&mut s, *access_bytes as u64);
                s.append("-byte access at byte ");
                append_decimal(&mut s, *offset_bytes as u64);
                s.append(" is outside allocation ");
                append_decimal(&mut s, *allocation as u64);
                s.append(" of ");
                append_decimal(&mut s, *size_bytes as u64);
                s.append(" bytes");
            },
            VirExecutionErrorKind::UninitializedRead { allocation, offset_bytes } => {
                s.append("read of uninitialized byte ");
                append_decimal(&mut s, *offset_bytes as u64);
                s.append(" in allocation ");
                append_decimal(&mut s, *allocation as u64);
            },
            VirExecutionErrorKind::UninitializedObjectLeaf { allocation, offset_bytes, access } => {
                s.append("object type");
                append_decimal(&mut s, access.ty.get() as u64);
                s.append("/layout");
                append_decimal(&mut s, access.layout.get() as u64);
                s.append(" reads uninitialized byte ");
                append_decimal(&mut s, *offset_bytes as u64);
                s.append(" in allocation ");
                append_decimal(&mut s, *allocation as u64);
            },
            VirExecutionErrorKind::InactiveVariantAccess { allocation, offset_bytes, enum_access, active, required } => {
                s.append("access at byte ");
                append_decimal(&mut s, *offset_bytes as u64);
                s.append(" of allocation ");
                append_decimal(&mut s, *allocation as u64);
                s.append(" requires variant");
                append_decimal(&mut s, required.get() as u64);
                s.append(" of enum type");
                append_decimal(&mut s, enum_access.ty.get() as u64);
                s.append("/layout");
                append_decimal(&mut s, enum_access.layout.get() as u64);
                s.append(", but variant");
                append_decimal(&mut s, active.get() as u64);
                s.append(" is active");
            },
            VirExecutionErrorKind::InvalidObjectRepresentation { allocation, offset_bytes, access } => {
                s.append("invalid representation for type");
                append_decimal(&mut s, access.ty.get() as u64);
                s.append("/layout");
                append_decimal(&mut s, access.layout.get() as u64);
                s.append(" at byte ");
                append_decimal(&mut s, *offset_bytes as u64);
                s.append(" of allocation ");
                append_decimal(&mut s, *allocation as u64);
            },
            VirExecutionErrorKind::OverlappingObjectTransfer { allocation, destination_offset_bytes, source_offset_bytes, size_bytes } => {
                append_decimal(&mut s, *size_bytes as u64);
                s.append("-byte object transfer overlaps within allocation ");
                append_decimal(&mut s, *allocation as u64);
                s.append(": destination byte ");
                append_decimal(&mut s, *destination_offset_bytes as u64);
                s.append(", source byte ");
                append_decimal(&mut s, *source_offset_bytes as u64);
            },
            VirExecutionErrorKind::InitializeAlreadyInitialized { allocation, offset_bytes } => {
                s.append("initialize targets initialized byte ");
                append_decimal(&mut s, *offset_bytes as u64);
                s.append(" in allocation ");
                append_decimal(&mut s, *allocation as u64);
            },
            VirExecutionErrorKind::StoreToUninitialized { allocation, offset_bytes } => {
                s.append("store targets uninitialized byte ");
                append_decimal(&mut s, *offset_bytes as u64);
                s.append(" in allocation ");
                append_decimal(&mut s, *allocation as u64);
            },
            VirExecutionErrorKind::InvalidFree { allocation, offset_bytes } => {
                s.append("invalid free at byte ");
                append_decimal(&mut s, *offset_bytes as u64);
                s.append(" of allocation ");
                append_decimal(&mut s, *allocation as u64);
            },
            VirExecutionErrorKind::PermissionAlreadyConsumed(value) => {
                s.append("permission %");
                append_decimal(&mut s, value.get() as u64);
                s.append(" was already consumed");
            },
            VirExecutionErrorKind::PermissionDuplicated(value) => {
                s.append("permission %");
                append_decimal(&mut s, value.get() as u64);
                s.append(" is transferred more than once");
            },
            VirExecutionErrorKind::PermissionMismatch { allocation, permission_allocation } => {
                s.append("allocation ");
                append_decimal(&mut s, *allocation as u64);
                s.append(" is accessed with permission for allocation ");
                append_decimal(&mut s, *permission_allocation as u64);
            },
            VirExecutionErrorKind::PermissionOutOfRange { start_bytes, end_bytes, access_start_bytes, access_end_bytes } => {
                s.append("permission [");
                append_decimal(&mut s, *start_bytes as u64);
                s.append(", ");
                append_decimal(&mut s, *end_bytes as u64);
                s.append(") does not cover access [");
                append_decimal(&mut s, *access_start_bytes as u64);
                s.append(", ");
                append_decimal(&mut s, *access_end_bytes as u64);
                s.append(")");
            },
            VirExecutionErrorKind::InvalidPermissionSplit { split_at_bytes, start_bytes, end_bytes } => {
                s.append("permission [");
                append_decimal(&mut s, *start_bytes as u64);
                s.append(", ");
                append_decimal(&mut s, *end_bytes as u64);
                s.append(") cannot be split at byte ");
                append_decimal(&mut s, *split_at_bytes as u64);
            },
            VirExecutionErrorKind::InvalidPermissionJoin => {
                s.append("permissions are not adjacent parts of one allocation");
            },
            VirExecutionErrorKind::CheckFailed => {
                s.append("VIR runtime check failed");
            },
        }
        s
    }
}

} // verus!
