//! Element addresses and subslice selections inside a slice's storage.

use vstd::prelude::*;

use crate::borrow::VirLoanRange;
use crate::ids::ByteSpan;
use crate::memory::{VirMemoryAccess, VirMemorySchema};
use crate::object_shape::VirObjectPathSegment;
use crate::provenance::{VirPointerDomain, VirPointerPaths};
use crate::runtime::{
    Interpreter, VirExecutionError, VirExecutionErrorKind, VirRuntimePermission, VirRuntimePointer, error, is_multiple_of,
};

verus! {

/// `r` names an element of the array `base` names.
pub open spec fn element_paths(base: VirPointerPaths, r: VirPointerPaths) -> bool {
    &&& r.domain == base.object
    &&& match base.object {
        None => r.object is None,
        Some(p) => match r.object {
            Some(q) => p.extended_by(seq![VirObjectPathSegment::ArrayElement(0)], q),
            None => p.spec_len() + 1 > 8,
        },
    }
}

/// Why addressing element `start` of a `length`-element slice at `base`
/// faults, in the order the checks are made, or `None`.
pub open spec fn slice_address_fault(
    interp: &Interpreter,
    memory: VirMemorySchema,
    base: VirRuntimePointer,
    expected_base: VirMemoryAccess,
    element: VirMemoryAccess,
    start: u64,
    length: u64,
    stride_bytes: u64,
) -> Option<VirExecutionErrorKind> {
    let source_bytes = length * stride_bytes;
    let start_bytes = base.offset_bytes + start * stride_bytes;
    let source_end = base.offset_bytes + source_bytes;
    if base.access != expected_base {
        Some(VirExecutionErrorKind::AddressTypeMismatch { found: base.access, expected: expected_base })
    } else {
        match memory.spec_layout(element.layout) {
            None => Some(VirExecutionErrorKind::InvalidRuntimeState),
            Some(l) => if l.ty != element.ty || l.size_bytes != stride_bytes {
                Some(VirExecutionErrorKind::InvalidRuntimeState)
            } else if source_bytes > u64::MAX || start * stride_bytes > u64::MAX || start_bytes > u64::MAX || source_end > u64::MAX {
                Some(VirExecutionErrorKind::AddressCalculationOverflow)
            } else {
                match interp.spec_liveness(base.allocation) {
                    Err(k) => Some(k),
                    Ok(a) => if source_end > a.size_bytes {
                        Some(VirExecutionErrorKind::AddressOutOfBounds {
                            allocation: base.allocation,
                            offset_bytes: base.offset_bytes,
                            object_bytes: source_bytes as u64,
                            size_bytes: a.size_bytes,
                        })
                    } else if !interp.spec_domain_ok(base, base.offset_bytes, source_end as u64) {
                        Some(VirExecutionErrorKind::PointerDomainViolation {
                            allocation: base.allocation,
                            start_bytes: base.offset_bytes,
                            end_bytes: source_end as u64,
                        })
                    } else if !is_multiple_of(base.offset_bytes, l.alignment) || (start_bytes as u64) % l.alignment != 0 {
                        Some(VirExecutionErrorKind::MisalignedAccess {
                            allocation: base.allocation,
                            offset_bytes: start_bytes as u64,
                            required_alignment: l.alignment,
                        })
                    } else {
                        None
                    },
                }
            },
        }
    }
}

/// Slice addressing passes every check before alignment and reaches the
/// alignment check with a zero element alignment and a base at offset zero,
/// where the remainder by the alignment is undefined.
pub open spec fn slice_alignment_traps(
    interp: &Interpreter,
    memory: VirMemorySchema,
    base: VirRuntimePointer,
    expected_base: VirMemoryAccess,
    element: VirMemoryAccess,
    start: u64,
    length: u64,
    stride_bytes: u64,
) -> bool {
    let source_bytes = length * stride_bytes;
    let start_bytes = base.offset_bytes + start * stride_bytes;
    let source_end = base.offset_bytes + source_bytes;
    &&& base.access == expected_base
    &&& memory.spec_layout(element.layout) matches Some(l) && l.alignment == 0 && l.ty == element.ty && l.size_bytes == stride_bytes
    &&& base.offset_bytes == 0
    &&& source_bytes <= u64::MAX && start * stride_bytes <= u64::MAX && start_bytes <= u64::MAX && source_end <= u64::MAX
    &&& interp.spec_liveness(base.allocation) matches Ok(a) && source_end <= a.size_bytes
    &&& interp.spec_domain_ok(base, base.offset_bytes, source_end as u64)
}

/// The element pointer a successful slice addressing yields.
pub open spec fn slice_element(base: VirRuntimePointer, expected_base: VirMemoryAccess, element: VirMemoryAccess, start: u64, stride_bytes: u64, p: VirRuntimePointer) -> bool {
    &&& p.allocation == base.allocation
    &&& p.offset_bytes == base.offset_bytes + start * stride_bytes
    &&& p.access == element
    &&& (if expected_base == element { p.paths == base.paths } else { element_paths(base.paths, p.paths) })
    &&& p.view_range is None
    &&& p.domain == base.domain
}

impl Interpreter {
    /// The address of element `start` of the `length`-element slice whose
    /// storage begins at `base`.
    pub fn slice_address(
        &self,
        memory: &VirMemorySchema,
        base: VirRuntimePointer,
        expected_base: VirMemoryAccess,
        element: VirMemoryAccess,
        start: u64,
        length: u64,
        stride_bytes: u64,
        source_span: ByteSpan,
    ) -> (r: Result<VirRuntimePointer, VirExecutionError>)
        requires
            !slice_alignment_traps(self, *memory, base, expected_base, element, start, length, stride_bytes),
        ensures
            match slice_address_fault(self, *memory, base, expected_base, element, start, length, stride_bytes) {
                Some(k) => r matches Err(e) && e.spec_kind() == k,
                None => r matches Ok(p) && slice_element(base, expected_base, element, start, stride_bytes, p),
            },
    {
        if base.access != expected_base {
            return Err(error(VirExecutionErrorKind::AddressTypeMismatch { found: base.access, expected: expected_base }, source_span));
        }
        let layout = match memory.layout(element.layout) {
            Some(l) => l,
            None => return Err(error(VirExecutionErrorKind::InvalidRuntimeState, source_span)),
        };
        if layout.ty != element.ty || layout.size_bytes != stride_bytes {
            return Err(error(VirExecutionErrorKind::InvalidRuntimeState, source_span));
        }
        let source_bytes = match length.checked_mul(stride_bytes) {
            Some(b) => b,
            None => return Err(error(VirExecutionErrorKind::AddressCalculationOverflow, source_span)),
        };
        let start_bytes = match start.checked_mul(stride_bytes) {
            Some(delta) => match base.offset_bytes.checked_add(delta) {
                Some(s) => s,
                None => return Err(error(VirExecutionErrorKind::AddressCalculationOverflow, source_span)),
            },
            None => return Err(error(VirExecutionErrorKind::AddressCalculationOverflow, source_span)),
        };
        let source_end = match base.offset_bytes.checked_add(source_bytes) {
            Some(e) => e,
            None => return Err(error(VirExecutionErrorKind::AddressCalculationOverflow, source_span)),
        };
        let size = self.live_allocation(base.allocation, source_span)?.size_bytes;
        if source_end > size {
            return Err(error(VirExecutionErrorKind::AddressOutOfBounds {
                allocation: base.allocation,
                offset_bytes: base.offset_bytes,
                object_bytes: source_bytes,
                size_bytes: size,
            }, source_span));
        }
        self.check_domain(base, base.offset_bytes, source_end, source_span)?;
        let aligned_base = if layout.alignment == 0 {
            base.offset_bytes == 0
        } else {
            base.offset_bytes % layout.alignment == 0
        };
        if !aligned_base || start_bytes % layout.alignment != 0 {
            return Err(error(VirExecutionErrorKind::MisalignedAccess {
                allocation: base.allocation,
                offset_bytes: start_bytes,
                required_alignment: layout.alignment,
            }, source_span));
        }
        let paths = if expected_base == element {
            base.paths
        } else {
            base.paths.element()
        };
        Ok(VirRuntimePointer {
            allocation: base.allocation,
            offset_bytes: start_bytes,
            access: element,
            paths,
            view_range: None,
            domain: base.domain,
        })
    }

    /// The subslice `[start, end)` of the `length`-element slice at `base`:
    /// a pointer to element `start` confined to the selection, and the
    /// permission to exactly those bytes.
    pub fn slice_range(
        &self,
        memory: &VirMemorySchema,
        base: VirRuntimePointer,
        permission: VirRuntimePermission,
        expected_base: VirMemoryAccess,
        element: VirMemoryAccess,
        start: u64,
        end: u64,
        length: u64,
        stride_bytes: u64,
        source_span: ByteSpan,
    ) -> (r: Result<(VirRuntimePointer, VirRuntimePermission), VirExecutionError>)
        requires
            !slice_alignment_traps(self, *memory, base, expected_base, element, start, length, stride_bytes),
        ensures
            match slice_address_fault(self, *memory, base, expected_base, element, start, length, stride_bytes) {
                Some(k) => r matches Err(e) && e.spec_kind() == k,
                None => {
                    let start_bytes = (base.offset_bytes + start * stride_bytes) as u64;
                    let source_end = (base.offset_bytes + length * stride_bytes) as u64;
                    let end_bytes = base.offset_bytes + end * stride_bytes;
                    if end * stride_bytes > u64::MAX || end_bytes > u64::MAX {
                        r matches Err(e) && e.spec_kind() == VirExecutionErrorKind::AddressCalculationOverflow
                    } else if permission.allocation != base.allocation {
                        r matches Err(e) && e.spec_kind() == (VirExecutionErrorKind::PermissionMismatch {
                            allocation: base.allocation,
                            permission_allocation: permission.allocation,
                        })
                    } else if base.offset_bytes < permission.start_bytes || source_end > permission.end_bytes {
                        r matches Err(e) && e.spec_kind() == (VirExecutionErrorKind::PermissionOutOfRange {
                            start_bytes: permission.start_bytes,
                            end_bytes: permission.end_bytes,
                            access_start_bytes: base.offset_bytes,
                            access_end_bytes: source_end,
                        })
                    } else {
                        r matches Ok((p, q)) && {
                            let selection = VirLoanRange { start_bytes, end_bytes: end_bytes as u64 };
                            &&& p.allocation == base.allocation
                            &&& p.offset_bytes == start_bytes
                            &&& p.access == element
                            &&& (if expected_base == element { p.paths == base.paths } else { element_paths(base.paths, p.paths) })
                            &&& p.domain == VirPointerDomain::Restricted(selection)
                            &&& p.view_range == Some(selection)
                            &&& q == (VirRuntimePermission {
                                allocation: base.allocation,
                                start_bytes,
                                end_bytes: end_bytes as u64,
                                can_free_when_complete: false,
                            })
                        }
                    }
                },
            },
    {
        let pointer = self.slice_address(memory, base, expected_base, element, start, length, stride_bytes, source_span)?;
        let source_end = match length.checked_mul(stride_bytes) {
            Some(bytes) => match base.offset_bytes.checked_add(bytes) {
                Some(e) => e,
                None => return Err(error(VirExecutionErrorKind::AddressCalculationOverflow, source_span)),
            },
            None => return Err(error(VirExecutionErrorKind::AddressCalculationOverflow, source_span)),
        };
        let end_bytes = match end.checked_mul(stride_bytes) {
            Some(delta) => match base.offset_bytes.checked_add(delta) {
                Some(e) => e,
                None => return Err(error(VirExecutionErrorKind::AddressCalculationOverflow, source_span)),
            },
            None => return Err(error(VirExecutionErrorKind::AddressCalculationOverflow, source_span)),
        };
        if permission.allocation != base.allocation {
            return Err(error(VirExecutionErrorKind::PermissionMismatch {
                allocation: base.allocation,
                permission_allocation: permission.allocation,
            }, source_span));
        }
        if base.offset_bytes < permission.start_bytes || source_end > permission.end_bytes {
            return Err(error(VirExecutionErrorKind::PermissionOutOfRange {
                start_bytes: permission.start_bytes,
                end_bytes: permission.end_bytes,
                access_start_bytes: base.offset_bytes,
                access_end_bytes: source_end,
            }, source_span));
        }
        let selection = VirLoanRange { start_bytes: pointer.offset_bytes, end_bytes };
        Ok((
            VirRuntimePointer { domain: VirPointerDomain::Restricted(selection), view_range: Some(selection), ..pointer },
            VirRuntimePermission {
                allocation: base.allocation,
                start_bytes: pointer.offset_bytes,
                end_bytes,
                can_free_when_complete: false,
            },
        ))
    }
}

} // verus!
