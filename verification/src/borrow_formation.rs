//! Forming a reference or slice borrow: which bytes it selects, and what the
//! borrowed value must hold at the time.

use vstd::prelude::*;

use crate::borrow::VirLoanRange;
use crate::ids::ByteSpan;
use crate::memory::{VirMemoryAccess, VirMemorySchema, VirMemoryTypeKind, VirPointerKind};
use crate::object_shape::{VirObjectShape, is_scalar_kind, shape_matches, shape_promised};
use crate::runtime::{
    Interpreter, RuntimeOwnedPayload, VirExecutionError, VirExecutionErrorKind, VirRuntimePointer, ensure_runtime_object_observation_type, error,
    is_multiple_of, multiple_of, observable, spec_object_address_fault,
};

verus! {

/// The borrowed element type of a reference or slice type, and whether it
/// is a slice; `None` for any other type.
pub open spec fn borrow_target(memory: VirMemorySchema, reference: VirMemoryAccess) -> Option<(crate::ids::VirTypeId, bool)> {
    match memory.spec_kind(reference.ty) {
        Some(VirMemoryTypeKind::Pointer { pointee, kind, .. }) => if kind == VirPointerKind::Reference {
            Some((pointee, false))
        } else {
            None
        },
        Some(VirMemoryTypeKind::Slice { element, .. }) => Some((element, true)),
        _ => None,
    }
}

/// The bytes a borrow of element type `access` at `pointer` selects: a
/// slice its recorded view, in whole elements of `stride` bytes, a
/// reference one element; both start at the pointer.
pub open spec fn selection(pointer: VirRuntimePointer, access: VirMemoryAccess, slice: bool, stride: u64) -> Result<
    VirLoanRange,
    VirExecutionErrorKind,
> {
    let range = if slice {
        match pointer.view_range {
            Some(r) => Ok(r),
            None => Err(VirExecutionErrorKind::InvalidRuntimeState),
        }
    } else if pointer.offset_bytes + stride > u64::MAX {
        Err(VirExecutionErrorKind::AddressCalculationOverflow)
    } else {
        Ok(VirLoanRange { start_bytes: pointer.offset_bytes, end_bytes: (pointer.offset_bytes + stride) as u64 })
    };
    match range {
        Err(k) => Err(k),
        Ok(r) => if pointer.access != access || r.start_bytes != pointer.offset_bytes || r.end_bytes < r.start_bytes || (slice && (
        stride == 0 || (r.end_bytes - r.start_bytes) % (stride as int) != 0)) {
            Err(VirExecutionErrorKind::InvalidRuntimeState)
        } else {
            Ok(r)
        },
    }
}

impl Interpreter {
    /// The byte range a borrow of type `reference` formed at `pointer`
    /// selects.
    pub fn borrow_selection(&self, memory: &VirMemorySchema, pointer: VirRuntimePointer, reference: VirMemoryAccess, span: ByteSpan) -> (r:
        Result<VirLoanRange, VirExecutionError>)
        ensures
            match borrow_target(*memory, reference) {
                None => r matches Err(e) && e.spec_kind() == VirExecutionErrorKind::InvalidRuntimeState,
                Some((pointee, slice)) => match memory.spec_access(pointee) {
                    None => r matches Err(e) && e.spec_kind() == VirExecutionErrorKind::InvalidRuntimeState,
                    Some(access) => {
                        let stride = memory.spec_layout(access.layout)->0.size_bytes;
                        let outcome = selection(pointer, access, slice, stride);
                        &&& r matches Ok(range) ==> memory.spec_valid() && memory.spec_resolves_access(access) && outcome == Ok::<
                            VirLoanRange,
                            VirExecutionErrorKind,
                        >(range)
                        &&& r matches Err(e) ==> outcome == Err::<VirLoanRange, VirExecutionErrorKind>(e.spec_kind())
                            || e.spec_kind() == VirExecutionErrorKind::InvalidRuntimeState
                        &&& shape_promised(*memory, access) ==> match outcome {
                            Ok(range) => r == Ok::<VirLoanRange, VirExecutionError>(range),
                            Err(k) => r matches Err(e) && e.spec_kind() == k,
                        }
                    },
                },
            },
    {
        let (pointee, slice) = match memory.kind(reference.ty) {
            Some(VirMemoryTypeKind::Pointer { pointee, kind: VirPointerKind::Reference, .. }) => (*pointee, false),
            Some(VirMemoryTypeKind::Slice { element, .. }) => (*element, true),
            _ => return Err(error(VirExecutionErrorKind::InvalidRuntimeState, span)),
        };
        let access = match memory.access(pointee) {
            Some(a) => a,
            None => return Err(error(VirExecutionErrorKind::InvalidRuntimeState, span)),
        };
        let stride = match memory.object_shape(access) {
            Ok(shape) => shape.size_bytes(),
            Err(_) => return Err(error(VirExecutionErrorKind::InvalidRuntimeState, span)),
        };
        let range = if slice {
            match pointer.view_range {
                Some(r) => r,
                None => return Err(error(VirExecutionErrorKind::InvalidRuntimeState, span)),
            }
        } else {
            match pointer.offset_bytes.checked_add(stride) {
                Some(end_bytes) => VirLoanRange { start_bytes: pointer.offset_bytes, end_bytes },
                None => return Err(error(VirExecutionErrorKind::AddressCalculationOverflow, span)),
            }
        };
        if pointer.access != access || range.start_bytes != pointer.offset_bytes || range.end_bytes < range.start_bytes || (slice && (
        stride == 0 || (range.end_bytes - range.start_bytes) % stride != 0)) {
            return Err(error(VirExecutionErrorKind::InvalidRuntimeState, span));
        }
        Ok(range)
    }
}

/// The `index`-th element a borrow of `range` at `pointer` observes: the
/// element at that stride in a slice, the pointer itself for a reference.
pub open spec fn observed_element(pointer: VirRuntimePointer, range: VirLoanRange, slice: bool, stride: u64, index: int) -> VirRuntimePointer {
    if slice {
        VirRuntimePointer { offset_bytes: (range.start_bytes + index * stride) as u64, ..pointer }
    } else {
        pointer
    }
}

/// The fault that the checks before any element refuse a borrow with, for
/// elements of shape `shape`.
pub open spec fn borrow_precheck_fault(
    s: Interpreter,
    memory: VirMemorySchema,
    pointer: VirRuntimePointer,
    access: VirMemoryAccess,
    range: VirLoanRange,
    slice: bool,
    shape: VirObjectShape,
) -> Option<VirExecutionErrorKind> {
    let allocation = s.allocations@[pointer.allocation];
    let extent = range.end_bytes - range.start_bytes;
    let stride = shape.spec_size_bytes();
    let requested = if slice { extent } else { stride as int };
    if !observable(memory, shape) {
        Some(VirExecutionErrorKind::UnsupportedObjectEffectType { access: shape.spec_access() })
    } else if s.spec_domain_fault(pointer, range.start_bytes, range.end_bytes) is Some {
        s.spec_domain_fault(pointer, range.start_bytes, range.end_bytes)
    } else if range.start_bytes > range.end_bytes || range.end_bytes > allocation.size_bytes {
        Some(VirExecutionErrorKind::AddressOutOfBounds {
            allocation: pointer.allocation,
            offset_bytes: range.start_bytes,
            object_bytes: if range.end_bytes >= range.start_bytes { (range.end_bytes - range.start_bytes) as u64 } else { 0 },
            size_bytes: allocation.size_bytes,
        })
    } else if pointer.access != access {
        Some(VirExecutionErrorKind::AddressTypeMismatch { found: pointer.access, expected: access })
    } else if requested > s.config.max_object_effect_bytes {
        Some(VirExecutionErrorKind::ObjectEffectSizeLimitExceeded { requested: requested as u64, limit: s.config.max_object_effect_bytes })
    } else if slice && (stride == 0 || extent % (stride as int) != 0) {
        Some(VirExecutionErrorKind::UnsupportedObjectEffectType { access })
    } else if allocation.alignment < shape.spec_alignment() || !is_multiple_of(pointer.offset_bytes, shape.spec_alignment()) {
        Some(VirExecutionErrorKind::MisalignedAccess {
            allocation: pointer.allocation,
            offset_bytes: pointer.offset_bytes,
            required_alignment: shape.spec_alignment(),
        })
    } else {
        None
    }
}

/// The observed element `element` of shape `shape` holds a complete value.
pub open spec fn element_passes(s: Interpreter, memory: VirMemorySchema, element: VirRuntimePointer, access: VirMemoryAccess, shape: VirObjectShape) -> bool {
    &&& spec_object_address_fault(&s, memory, element, access) is None
    &&& s.scalar_access_kind_result(memory, element, Ok(()))
    &&& s.offsets_fault(memory, element, shape) is None
    &&& s.value_fault(memory, element, shape, s.active_offsets(memory, element, shape)) is None
    &&& s.payloads_from(memory, element, shape, shape.spec_resource_leaves().len() as int) is Ok
}

/// Checking the observed element `element` faults with `k`: its address
/// fault, else its active-variant fault, else its first value fault.
pub open spec fn element_fault(
    s: Interpreter,
    memory: VirMemorySchema,
    element: VirRuntimePointer,
    access: VirMemoryAccess,
    shape: VirObjectShape,
    k: VirExecutionErrorKind,
) -> bool {
    match spec_object_address_fault(&s, memory, element, access) {
        Some(a) => a == k,
        None => s.scalar_access_kind_result(memory, element, Err(k)) || (s.scalar_access_kind_result(memory, element, Ok(()))
            && match s.offsets_fault(memory, element, shape) {
            Some(o) => o == k,
            None => match s.value_fault(memory, element, shape, s.active_offsets(memory, element, shape)) {
                Some(v) => v == k,
                None => s.payloads_from(memory, element, shape, shape.spec_resource_leaves().len() as int) == Err::<
                    Seq<(u64, VirMemoryAccess, RuntimeOwnedPayload)>,
                    VirExecutionErrorKind,
                >(k),
            },
        }),
    }
}

/// What checking a borrow gives for elements of shape `shape`: the first
/// failing check's fault, `Ok` exactly when every element holds a complete
/// value.
pub open spec fn borrow_value_result(
    s: Interpreter,
    memory: VirMemorySchema,
    pointer: VirRuntimePointer,
    access: VirMemoryAccess,
    range: VirLoanRange,
    slice: bool,
    shape: VirObjectShape,
    r: Result<(), VirExecutionError>,
) -> bool {
    let stride = shape.spec_size_bytes();
    let extent = range.end_bytes - range.start_bytes;
    let count = if slice { extent / (stride as int) } else { 1 };
    match borrow_precheck_fault(s, memory, pointer, access, range, slice, shape) {
        Some(k) => r matches Err(e) && e.spec_kind() == k,
        None => match r {
            Ok(()) => forall|index: int| 0 <= index < count ==> element_passes(s, memory, #[trigger] observed_element(pointer, range, slice, stride, index), access, shape),
            Err(e) => exists|index: int|
                0 <= index < count && (forall|j: int| 0 <= j < index ==> element_passes(s, memory, #[trigger] observed_element(pointer, range, slice, stride, j), access, shape))
                    && element_fault(s, memory, #[trigger] observed_element(pointer, range, slice, stride, index), access, shape, e.spec_kind()),
        },
    }
}

/// The first element that fails decides the borrow check's fault.
proof fn lemma_borrow_fault_at(
    s: Interpreter,
    memory: VirMemorySchema,
    pointer: VirRuntimePointer,
    access: VirMemoryAccess,
    range: VirLoanRange,
    slice: bool,
    shape: VirObjectShape,
    i: int,
    e: VirExecutionError,
)
    requires
        borrow_precheck_fault(s, memory, pointer, access, range, slice, shape) is None,
        0 <= i < (if slice { (range.end_bytes - range.start_bytes) / (shape.spec_size_bytes() as int) } else { 1 }),
        forall|j: int| 0 <= j < i ==> element_passes(s, memory, #[trigger] observed_element(pointer, range, slice, shape.spec_size_bytes(), j), access, shape),
        element_fault(s, memory, observed_element(pointer, range, slice, shape.spec_size_bytes(), i), access, shape, e.spec_kind()),
    ensures
        borrow_value_result(s, memory, pointer, access, range, slice, shape, Err(e)),
{
}

/// What checking a borrow of type `reference` over `range` at `pointer`
/// gives: a refusal for a type that is no reference or slice, or whose
/// element does not resolve; else the borrow check for some shape derived
/// for the element, or a refused derivation where derivation is not
/// promised to succeed.
pub open spec fn borrow_check_result(
    s: Interpreter,
    memory: VirMemorySchema,
    pointer: VirRuntimePointer,
    reference: VirMemoryAccess,
    range: VirLoanRange,
    r: Result<(), VirExecutionError>,
) -> bool {
    let refused = r matches Err(e) && e.spec_kind() == VirExecutionErrorKind::InvalidRuntimeState;
    match borrow_target(memory, reference) {
        None => refused,
        Some(target) => match memory.spec_access(target.0) {
            None => refused,
            Some(access) => (refused && !shape_promised(memory, access)) || borrow_witnessed(s, memory, pointer, access, range, target.1, r),
        },
    }
}

/// Some shape derived for the element `access` gives the borrow check `r`.
pub open spec fn borrow_witnessed(
    s: Interpreter,
    memory: VirMemorySchema,
    pointer: VirRuntimePointer,
    access: VirMemoryAccess,
    range: VirLoanRange,
    slice: bool,
    r: Result<(), VirExecutionError>,
) -> bool {
    exists|shape: VirObjectShape| #[trigger] shape_matches(memory, access, shape) && borrow_value_result(s, memory, pointer, access, range, slice, shape, r)
}

/// A shape derived for the element witnesses the borrow check's result.
proof fn lemma_borrow_check_result(
    s: Interpreter,
    memory: VirMemorySchema,
    pointer: VirRuntimePointer,
    reference: VirMemoryAccess,
    range: VirLoanRange,
    pointee: crate::ids::VirTypeId,
    slice: bool,
    access: VirMemoryAccess,
    shape: VirObjectShape,
    r: Result<(), VirExecutionError>,
)
    requires
        borrow_target(memory, reference) == Some((pointee, slice)),
        memory.spec_access(pointee) == Some(access),
        shape_matches(memory, access, shape),
        borrow_value_result(s, memory, pointer, access, range, slice, shape, r),
    ensures
        borrow_check_result(s, memory, pointer, reference, range, r),
{
    assert(borrow_witnessed(s, memory, pointer, access, range, slice, r));
}

impl Interpreter {
    /// Checks that forming a borrow of type `reference` over `range` at
    /// `pointer` observes complete values: every observed element must be
    /// addressable and active, hold a complete value and the payloads its
    /// resource leaves need. The padding of the objects is not read.
    pub fn check_borrow_value(
        &self,
        memory: &VirMemorySchema,
        pointer: VirRuntimePointer,
        reference: VirMemoryAccess,
        range: VirLoanRange,
        span: ByteSpan,
    ) -> (r: Result<(), VirExecutionError>)
        ensures
            borrow_check_result(*self, *memory, pointer, reference, range, r),
            match borrow_target(*memory, reference) {
                None => true,
                Some((pointee, slice)) => match memory.spec_access(pointee) {
                    None => true,
                    Some(access) => r is Ok ==> exists|shape: VirObjectShape|
                        {
                            let allocation = self.allocations@[pointer.allocation];
                            let stride = shape.spec_size_bytes();
                            let extent = range.end_bytes - range.start_bytes;
                            let count = if slice { extent / (stride as int) } else { 1 };
                            &&& #[trigger] shape_matches(*memory, access, shape)
                            &&& self.spec_domain_ok(pointer, range.start_bytes, range.end_bytes)
                            &&& range.start_bytes <= range.end_bytes <= allocation.size_bytes
                            &&& pointer.access == access
                            &&& (if slice { extent } else { stride as int }) <= self.config.max_object_effect_bytes
                            &&& slice ==> stride > 0 && extent % (stride as int) == 0
                            &&& allocation.alignment >= shape.spec_alignment() && is_multiple_of(pointer.offset_bytes, shape.spec_alignment())
                            &&& forall|index: int| 0 <= index < count ==> {
                                let element = #[trigger] observed_element(pointer, range, slice, stride, index);
                                &&& spec_object_address_fault(self, *memory, element, access) is None
                                &&& self.offsets_fault(*memory, element, shape) is None
                                &&& self.value_fault(*memory, element, shape, self.active_offsets(*memory, element, shape)) is None
                                &&& self.payloads_from(*memory, element, shape, shape.spec_resource_leaves().len() as int) is Ok
                            }
                        },
                },
            },
    {
        let (pointee, slice) = match memory.kind(reference.ty) {
            Some(VirMemoryTypeKind::Pointer { pointee, kind: VirPointerKind::Reference, .. }) => (*pointee, false),
            Some(VirMemoryTypeKind::Slice { element, .. }) => (*element, true),
            _ => return Err(error(VirExecutionErrorKind::InvalidRuntimeState, span)),
        };
        let access = match memory.access(pointee) {
            Some(a) => a,
            None => return Err(error(VirExecutionErrorKind::InvalidRuntimeState, span)),
        };
        let shape = match memory.object_shape(access) {
            Ok(shape) => shape,
            Err(_) => {
                proof {
                    if memory.spec_valid() {
                        crate::memory::lemma_access_resolves(*memory, pointee);
                    }
                }
                return Err(error(VirExecutionErrorKind::InvalidRuntimeState, span));
            },
        };
        ensure_runtime_object_observation_type(memory, &shape, span)?;
        self.check_domain(pointer, range.start_bytes, range.end_bytes, span)?;
        let allocation = self.live_allocation(pointer.allocation, span)?;
        if range.start_bytes > range.end_bytes || range.end_bytes > allocation.size_bytes {
            return Err(error(VirExecutionErrorKind::AddressOutOfBounds {
                allocation: pointer.allocation,
                offset_bytes: range.start_bytes,
                object_bytes: range.end_bytes.saturating_sub(range.start_bytes),
                size_bytes: allocation.size_bytes,
            }, span));
        }
        if pointer.access != access {
            return Err(error(VirExecutionErrorKind::AddressTypeMismatch { found: pointer.access, expected: access }, span));
        }
        let extent = range.end_bytes - range.start_bytes;
        self.check_object_effect_size(if slice { extent } else { shape.size_bytes() }, span)?;
        let stride = shape.size_bytes();
        if slice && (stride == 0 || extent % stride != 0) {
            return Err(error(VirExecutionErrorKind::UnsupportedObjectEffectType { access }, span));
        }
        if allocation.alignment < shape.alignment() || !multiple_of(pointer.offset_bytes, shape.alignment()) {
            return Err(error(VirExecutionErrorKind::MisalignedAccess {
                allocation: pointer.allocation,
                offset_bytes: pointer.offset_bytes,
                required_alignment: shape.alignment(),
            }, span));
        }
        let count = if slice { extent / stride } else { 1 };
        let mut index: u64 = 0;
        while index < count
            invariant
                0 <= index <= count,
                count == (if slice { extent / stride } else { 1u64 }),
                slice ==> stride > 0 && extent == range.end_bytes - range.start_bytes,
                stride == shape.spec_size_bytes(),
                borrow_target(*memory, reference) == Some((pointee, slice)),
                memory.spec_access(pointee) == Some(access),
                shape_matches(*memory, access, shape),
                self.spec_domain_ok(pointer, range.start_bytes, range.end_bytes),
                range.start_bytes <= range.end_bytes <= self.allocations@[pointer.allocation].size_bytes,
                pointer.access == access,
                (if slice { extent as int } else { stride as int }) <= self.config.max_object_effect_bytes,
                slice ==> extent % stride == 0,
                self.allocations@[pointer.allocation].alignment >= shape.spec_alignment(),
                is_multiple_of(pointer.offset_bytes, shape.spec_alignment()),
                borrow_precheck_fault(*self, *memory, pointer, access, range, slice, shape) is None,
                forall|x: int| 0 <= x < index ==> element_passes(*self, *memory, #[trigger] observed_element(pointer, range, slice, stride, x), access, shape),
            decreases count - index,
        {
            let selected = if slice {
                proof {
                    assert(index * stride <= extent) by (nonlinear_arith)
                        requires
                            index < extent / stride,
                            stride > 0,
                    ;
                }
                VirRuntimePointer { offset_bytes: range.start_bytes + index * stride, ..pointer }
            } else {
                pointer
            };
            proof {
                assert(selected == observed_element(pointer, range, slice, stride, index as int));
            }
            let ghost i = index as int;
            let r1 = self.check_object_address(memory, selected, access, span);
            if let Err(e) = r1 {
                proof {
                    assert(element_fault(*self, *memory, observed_element(pointer, range, slice, stride, i), access, shape, e.spec_kind()));
                    lemma_borrow_fault_at(*self, *memory, pointer, access, range, slice, shape, i, e);
                    lemma_borrow_check_result(*self, *memory, pointer, reference, range, pointee, slice, access, shape, Err(e));
                }
                return Err(e);
            }
            let r2 = self.check_scalar_active_access(memory, selected, span);
            if let Err(e) = r2 {
                proof {
                    assert(element_fault(*self, *memory, observed_element(pointer, range, slice, stride, i), access, shape, e.spec_kind()));
                    lemma_borrow_fault_at(*self, *memory, pointer, access, range, slice, shape, i, e);
                    lemma_borrow_check_result(*self, *memory, pointer, reference, range, pointee, slice, access, shape, Err(e));
                }
                return Err(e);
            }
            let offsets = match self.active_object_offsets(memory, selected, &shape, span) {
                Ok(o) => o,
                Err(e) => {
                    proof {
                        assert(element_fault(*self, *memory, observed_element(pointer, range, slice, stride, i), access, shape, e.spec_kind()));
                        lemma_borrow_fault_at(*self, *memory, pointer, access, range, slice, shape, i, e);
                    lemma_borrow_check_result(*self, *memory, pointer, reference, range, pointee, slice, access, shape, Err(e));
                    lemma_borrow_fault_at(*self, *memory, pointer, access, range, slice, shape, i, e);
                    lemma_borrow_check_result(*self, *memory, pointer, reference, range, pointee, slice, access, shape, Err(e));
                    }
                    return Err(e);
                },
            };
            let r4 = self.require_object_value(memory, selected, &shape, &offsets, span);
            if let Err(e) = r4 {
                proof {
                    assert(element_fault(*self, *memory, observed_element(pointer, range, slice, stride, i), access, shape, e.spec_kind()));
                    lemma_borrow_fault_at(*self, *memory, pointer, access, range, slice, shape, i, e);
                    lemma_borrow_check_result(*self, *memory, pointer, reference, range, pointee, slice, access, shape, Err(e));
                }
                return Err(e);
            }
            let r5 = self.active_resource_payloads(memory, selected, &shape, span);
            if let Err(e) = r5 {
                proof {
                    assert(element_fault(*self, *memory, observed_element(pointer, range, slice, stride, i), access, shape, e.spec_kind()));
                    lemma_borrow_fault_at(*self, *memory, pointer, access, range, slice, shape, i, e);
                    lemma_borrow_check_result(*self, *memory, pointer, reference, range, pointee, slice, access, shape, Err(e));
                }
                return Err(e);
            }
            proof {
                assert(element_passes(*self, *memory, observed_element(pointer, range, slice, stride, i), access, shape));
            }
            index = index + 1;
        }
        Ok(())
    }
}

} // verus!
