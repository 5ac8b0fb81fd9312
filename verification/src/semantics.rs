//! Frozen runtime semantics shared by every VIR consumer.

use vstd::prelude::*;

use crate::ids::VirUnitVersion;

verus! {

/// Comparison predicate of one integer comparison instruction.
#[derive(Clone, Copy, Debug, PartialEq, Eq, Hash, Structural)]
pub enum VirIntegerPredicate {
    Equal,
    NotEqual,
    LessThan,
    LessOrEqual,
    GreaterThan,
    GreaterOrEqual,
}

/// Stable identity of a runtime semantic profile.
#[derive(Clone, Copy, Debug, PartialEq, Eq, Hash, Structural)]
pub enum VirSemanticProfileId {
    SystemV1,
    SystemV2,
}

/// Arithmetic behavior for one unsigned word operation.
#[derive(Clone, Copy, Debug, PartialEq, Eq, Hash, Structural)]
pub enum VirArithmeticSemantics {
    Wrapping,
    RuntimeFault,
    Unsupported,
}

#[derive(Clone, Copy, Debug, PartialEq, Eq, Hash, Structural)]
pub enum VirComparisonSemantics {
    Unsigned,
}

#[derive(Clone, Copy, Debug, PartialEq, Eq, Hash, Structural)]
pub enum VirPointerOffsetSemantics {
    /// Unsigned byte addition must remain within the same live allocation;
    /// the one-past address is representable but cannot be dereferenced.
    CheckedLiveAllocation,
    /// Live allocation bounds and the preserved arithmetic domain; domain
    /// containment is checked separately from numeric addition.
    CheckedLiveDomain,
}

#[derive(Clone, Copy, Debug, PartialEq, Eq, Hash, Structural)]
pub enum VirFailureDisposition {
    Abort,
}

#[derive(Clone, Copy, Debug, PartialEq, Eq, Hash, Structural)]
pub enum VirDivergenceSemantics {
    NoResult,
}

#[derive(Clone, Copy, Debug, PartialEq, Eq, Hash, Structural)]
pub enum VirProveSemantics {
    GhostErasedAfterVerification,
}

/// Complete semantic identity carried by raw runtime VIR and rechecked by the
/// validator before any consumer can obtain a resolved view.
#[derive(Clone, Copy, Debug, PartialEq, Eq, Hash, Structural)]
pub struct VirRuntimeSemanticProfile {
    pub id: VirSemanticProfileId,
    pub word_bits: u16,
    pub addition: VirArithmeticSemantics,
    pub subtraction: VirArithmeticSemantics,
    pub multiplication: VirArithmeticSemantics,
    pub division: VirArithmeticSemantics,
    pub remainder: VirArithmeticSemantics,
    pub shift_left: VirArithmeticSemantics,
    pub shift_right: VirArithmeticSemantics,
    pub division_by_zero: VirFailureDisposition,
    pub comparison: VirComparisonSemantics,
    pub pointer_offset: VirPointerOffsetSemantics,
    pub allocation_failure: VirFailureDisposition,
    pub memory_fault: VirFailureDisposition,
    pub runtime_check_failure: VirFailureDisposition,
    pub abort: VirFailureDisposition,
    pub divergence: VirDivergenceSemantics,
    pub prove: VirProveSemantics,
}

/// The first system profile: wrapping word addition, other word arithmetic
/// unsupported, pointer offsets checked against the live allocation.
pub open spec fn spec_system_semantics_v1() -> VirRuntimeSemanticProfile {
    VirRuntimeSemanticProfile {
        id: VirSemanticProfileId::SystemV1,
        word_bits: 64,
        addition: VirArithmeticSemantics::Wrapping,
        subtraction: VirArithmeticSemantics::Unsupported,
        multiplication: VirArithmeticSemantics::Unsupported,
        division: VirArithmeticSemantics::Unsupported,
        remainder: VirArithmeticSemantics::Unsupported,
        shift_left: VirArithmeticSemantics::Unsupported,
        shift_right: VirArithmeticSemantics::Unsupported,
        division_by_zero: VirFailureDisposition::Abort,
        comparison: VirComparisonSemantics::Unsigned,
        pointer_offset: VirPointerOffsetSemantics::CheckedLiveAllocation,
        allocation_failure: VirFailureDisposition::Abort,
        memory_fault: VirFailureDisposition::Abort,
        runtime_check_failure: VirFailureDisposition::Abort,
        abort: VirFailureDisposition::Abort,
        divergence: VirDivergenceSemantics::NoResult,
        prove: VirProveSemantics::GhostErasedAfterVerification,
    }
}

/// The current profile: the first one with offsets also confined to the
/// preserved arithmetic domain.
pub open spec fn spec_system_semantics_v2() -> VirRuntimeSemanticProfile {
    VirRuntimeSemanticProfile {
        id: VirSemanticProfileId::SystemV2,
        pointer_offset: VirPointerOffsetSemantics::CheckedLiveDomain,
        ..spec_system_semantics_v1()
    }
}

#[verifier::when_used_as_spec(spec_system_semantics_v1)]
pub fn system_semantics_v1() -> (r: VirRuntimeSemanticProfile)
    ensures
        r == spec_system_semantics_v1(),
{
    VirRuntimeSemanticProfile {
        id: VirSemanticProfileId::SystemV1,
        word_bits: 64,
        addition: VirArithmeticSemantics::Wrapping,
        subtraction: VirArithmeticSemantics::Unsupported,
        multiplication: VirArithmeticSemantics::Unsupported,
        division: VirArithmeticSemantics::Unsupported,
        remainder: VirArithmeticSemantics::Unsupported,
        shift_left: VirArithmeticSemantics::Unsupported,
        shift_right: VirArithmeticSemantics::Unsupported,
        division_by_zero: VirFailureDisposition::Abort,
        comparison: VirComparisonSemantics::Unsigned,
        pointer_offset: VirPointerOffsetSemantics::CheckedLiveAllocation,
        allocation_failure: VirFailureDisposition::Abort,
        memory_fault: VirFailureDisposition::Abort,
        runtime_check_failure: VirFailureDisposition::Abort,
        abort: VirFailureDisposition::Abort,
        divergence: VirDivergenceSemantics::NoResult,
        prove: VirProveSemantics::GhostErasedAfterVerification,
    }
}

#[verifier::when_used_as_spec(spec_system_semantics_v2)]
pub fn system_semantics_v2() -> (r: VirRuntimeSemanticProfile)
    ensures
        r == spec_system_semantics_v2(),
{
    VirRuntimeSemanticProfile {
        id: VirSemanticProfileId::SystemV2,
        pointer_offset: VirPointerOffsetSemantics::CheckedLiveDomain,
        ..system_semantics_v1()
    }
}

/// Format revisions one to five predate runtime semantic profiles.
pub open spec fn predates_profiles(version: VirUnitVersion) -> bool {
    version == VirUnitVersion::V1 || version == VirUnitVersion::V2 || version == VirUnitVersion::V3
        || version == VirUnitVersion::V4 || version == VirUnitVersion::V5
}

/// Format revisions six to thirteen use the first system profile.
pub open spec fn uses_first_profile(version: VirUnitVersion) -> bool {
    version == VirUnitVersion::V6 || version == VirUnitVersion::V7 || version == VirUnitVersion::V8
        || version == VirUnitVersion::V9 || version == VirUnitVersion::V10 || version == VirUnitVersion::V11
        || version == VirUnitVersion::V12 || version == VirUnitVersion::V13
}

impl VirRuntimeSemanticProfile {
    /// The profile a format revision fixes.
    pub fn canonical_for(version: VirUnitVersion) -> (r: Option<Self>)
        ensures
            r == (if predates_profiles(version) {
                None
            } else if uses_first_profile(version) {
                Some(spec_system_semantics_v1())
            } else {
                Some(spec_system_semantics_v2())
            }),
    {
        match version {
            VirUnitVersion::V1 | VirUnitVersion::V2 | VirUnitVersion::V3 | VirUnitVersion::V4 | VirUnitVersion::V5 => None,
            VirUnitVersion::V6 | VirUnitVersion::V7 | VirUnitVersion::V8 | VirUnitVersion::V9 | VirUnitVersion::V10
            | VirUnitVersion::V11 | VirUnitVersion::V12 | VirUnitVersion::V13 => Some(system_semantics_v1()),
            _ => Some(system_semantics_v2()),
        }
    }

    /// Word addition: wrapping modulo 2^64 (validation admits no profile
    /// with another addition semantics).
    pub fn word_add(self, left: u64, right: u64) -> (r: u64)
        ensures
            r == (if left + right <= u64::MAX { left + right } else { left + right - 0x1_0000_0000_0000_0000 }),
    {
        left.wrapping_add(right)
    }

    /// Unsigned comparison under `predicate`.
    pub fn compare(self, predicate: VirIntegerPredicate, left: u64, right: u64) -> (r: bool)
        ensures
            r == match predicate {
                VirIntegerPredicate::Equal => left == right,
                VirIntegerPredicate::NotEqual => left != right,
                VirIntegerPredicate::LessThan => left < right,
                VirIntegerPredicate::LessOrEqual => left <= right,
                VirIntegerPredicate::GreaterThan => left > right,
                VirIntegerPredicate::GreaterOrEqual => left >= right,
            },
    {
        match self.comparison {
            VirComparisonSemantics::Unsigned => match predicate {
                VirIntegerPredicate::Equal => left == right,
                VirIntegerPredicate::NotEqual => left != right,
                VirIntegerPredicate::LessThan => left < right,
                VirIntegerPredicate::LessOrEqual => left <= right,
                VirIntegerPredicate::GreaterThan => left > right,
                VirIntegerPredicate::GreaterOrEqual => left >= right,
            },
        }
    }

    /// `base + delta` when it stays within (or one past) the allocation.
    pub fn checked_pointer_offset(self, base: u64, delta: u64, allocation_size: u64) -> (r: Option<u64>)
        ensures
            r == (if base + delta <= allocation_size { Some((base + delta) as u64) } else { None }),
    {
        match base.checked_add(delta) {
            Some(offset) => if offset <= allocation_size {
                Some(offset)
            } else {
                None
            },
            None => None,
        }
    }
}

} // verus!
