//! Per-instruction checks of the interpreter: the loan check of a typed
//! access or a whole permission range, and reading a scalar operand.

use vstd::prelude::*;

use crate::ids::{ByteSpan, VirValueId};
use crate::loan_shadow::{RuntimeLoanAccess, RuntimeLoanAccessRequest, RuntimeLoanShadow, frame_permission};
use crate::memory::{VirIntegerType, VirMemoryAccess, VirMemorySchema, VirMemoryTypeKind};
use crate::runtime::{
    BlockFrame, VirExecutionError, VirExecutionErrorKind, VirRuntimeValue, bool_value, error, frame_pointer, pointer_value, word_value,
};

verus! {

/// A typed access through the pointer `pointer` with permission
/// `permission`, as an instruction makes it.
#[derive(Clone, Copy)]
pub struct TypedLoanAccess {
    pub pointer: VirValueId,
    pub permission: VirValueId,
    pub access: VirMemoryAccess,
    pub kind: RuntimeLoanAccess,
}

/// Checks a typed access against the loans: the request covers the bytes of
/// one value of the access's type at the pointer.
pub fn check_typed_loan_access(
    memory: &VirMemorySchema,
    frame: &BlockFrame,
    shadow: &RuntimeLoanShadow,
    request: TypedLoanAccess,
    source_span: ByteSpan,
) -> (r: Result<(), VirExecutionError>)
    requires
        shadow.shadow_inv(),
    ensures
        match frame_pointer(frame, request.pointer) {
            None => r matches Err(e) && e.spec_kind() == VirExecutionErrorKind::InvalidRuntimeState,
            Some(pointer) => match memory.spec_layout(request.access.layout) {
                Some(l) => if l.ty != request.access.ty || pointer.offset_bytes + l.size_bytes > u64::MAX {
                    r matches Err(e) && e.spec_kind() == VirExecutionErrorKind::InvalidRuntimeState
                } else {
                    shadow.access_checked(
                        *frame,
                        RuntimeLoanAccessRequest {
                            permission: request.permission,
                            pointer,
                            start_bytes: pointer.offset_bytes,
                            end_bytes: (pointer.offset_bytes + l.size_bytes) as u64,
                            kind: request.kind,
                        },
                        r,
                    )
                },
                None => r matches Err(e) && e.spec_kind() == VirExecutionErrorKind::InvalidRuntimeState,
            },
        },
{
    let pointer = pointer_value(frame, request.pointer, source_span)?;
    let width = match memory.layout(request.access.layout) {
        Some(layout) => if layout.ty == request.access.ty {
            layout.size_bytes
        } else {
            return Err(error(VirExecutionErrorKind::InvalidRuntimeState, source_span));
        },
        None => return Err(error(VirExecutionErrorKind::InvalidRuntimeState, source_span)),
    };
    let end_bytes = match pointer.offset_bytes.checked_add(width) {
        Some(e) => e,
        None => return Err(error(VirExecutionErrorKind::InvalidRuntimeState, source_span)),
    };
    shadow.check_access(
        frame,
        RuntimeLoanAccessRequest { permission: request.permission, pointer, start_bytes: pointer.offset_bytes, end_bytes, kind: request.kind },
        source_span,
    )
}

/// Checks an access to the whole range of a permission against the loans.
pub fn check_permission_range_loan_access(
    frame: &BlockFrame,
    shadow: &RuntimeLoanShadow,
    pointer_id: VirValueId,
    permission_id: VirValueId,
    kind: RuntimeLoanAccess,
    source_span: ByteSpan,
) -> (r: Result<(), VirExecutionError>)
    requires
        shadow.shadow_inv(),
    ensures
        match frame_pointer(frame, pointer_id) {
            None => r matches Err(e) && e.spec_kind() == VirExecutionErrorKind::InvalidRuntimeState,
            Some(pointer) => match frame_permission(*frame, permission_id) {
                Err(k) => r matches Err(e) && e.spec_kind() == k,
                Ok(permission) => shadow.access_checked(
                    *frame,
                    RuntimeLoanAccessRequest {
                        permission: permission_id,
                        pointer,
                        start_bytes: permission.start_bytes,
                        end_bytes: permission.end_bytes,
                        kind,
                    },
                    r,
                ),
            },
        },
{
    let pointer = pointer_value(frame, pointer_id, source_span)?;
    let permission = frame.permission(permission_id, source_span)?;
    shadow.check_access(
        frame,
        RuntimeLoanAccessRequest {
            permission: permission_id,
            pointer,
            start_bytes: permission.start_bytes,
            end_bytes: permission.end_bytes,
            kind,
        },
        source_span,
    )
}

/// The scalar operand `id` as the bits of a value of type `access`: a
/// boolean as 0 or 1, a word as itself; any other type is refused.
pub fn scalar_value(memory: &VirMemorySchema, frame: &BlockFrame, id: VirValueId, access: VirMemoryAccess, source_span: ByteSpan) -> (r:
    Result<u64, VirExecutionError>)
    ensures
        match memory.spec_kind(access.ty) {
            Some(VirMemoryTypeKind::Bool) => match r {
                Ok(v) => frame.values@.contains_key(id.0) && frame.values@[id.0] == VirRuntimeValue::Bool(v == 1) && v <= 1,
                Err(e) => !(frame.values@.contains_key(id.0) && frame.values@[id.0] is Bool) && e.spec_kind()
                    == VirExecutionErrorKind::InvalidRuntimeState,
            },
            Some(VirMemoryTypeKind::Integer(VirIntegerType::U64)) | Some(VirMemoryTypeKind::Integer(VirIntegerType::Usize)) => match r {
                Ok(v) => frame.values@.contains_key(id.0) && frame.values@[id.0] == VirRuntimeValue::U64(v),
                Err(e) => !(frame.values@.contains_key(id.0) && frame.values@[id.0] is U64) && e.spec_kind()
                    == VirExecutionErrorKind::InvalidRuntimeState,
            },
            _ => r matches Err(e) && e.spec_kind() == VirExecutionErrorKind::InvalidRuntimeState,
        },
{
    match memory.kind(access.ty) {
        Some(VirMemoryTypeKind::Bool) => {
            let b = bool_value(frame, id, source_span)?;
            Ok(if b { 1 } else { 0 })
        },
        Some(VirMemoryTypeKind::Integer(VirIntegerType::U64)) | Some(VirMemoryTypeKind::Integer(VirIntegerType::Usize)) => word_value(
            frame,
            id,
            source_span,
        ),
        _ => Err(error(VirExecutionErrorKind::InvalidRuntimeState, source_span)),
    }
}

} // verus!
