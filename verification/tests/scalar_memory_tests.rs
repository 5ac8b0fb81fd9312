use std::collections::BTreeMap;

use lib::borrow::VirLoanRange;
use lib::ids::ByteSpan;
use lib::memory::{VirEndianness, VirMemoryAccess, VirMemorySchema};
use lib::provenance::{VirPointerDomain, VirPointerPaths};
use lib::runtime::{
    decode_u64, Allocation, Interpreter, RuntimeAllocationKind, VirExecutionErrorKind, VirInterpreterConfig,
    VirRuntimePermission, VirRuntimePointer,
};
use lib::scalar_memory::{encode_u64, WriteKind};

fn setup() -> (Interpreter, VirRuntimePointer, VirRuntimePermission) {
    let mut interpreter = Interpreter::new(VirInterpreterConfig::default());
    interpreter.allocations.insert(
        3,
        Allocation {
            size_bytes: 16,
            alignment: 8,
            kind: RuntimeAllocationKind::Heap,
            live: true,
            bytes: BTreeMap::new(),
            objects: Vec::new(),
            resource_payloads: BTreeMap::new(),
        },
    );
    let pointer = VirRuntimePointer {
        allocation: 3,
        offset_bytes: 8,
        access: VirMemoryAccess::core_u64(),
        paths: VirPointerPaths::root(VirMemoryAccess::core_u64()),
        view_range: None,
        domain: VirPointerDomain::Restricted(VirLoanRange { start_bytes: 0, end_bytes: 16 }),
    };
    let permission = VirRuntimePermission { allocation: 3, start_bytes: 0, end_bytes: 16, can_free_when_complete: true };
    (interpreter, pointer, permission)
}

#[test]
fn a_load_reads_back_what_a_store_wrote() {
    let memory = VirMemorySchema::core_u64();
    let access = VirMemoryAccess::core_u64();
    let span = ByteSpan::empty();
    let (mut interpreter, pointer, permission) = setup();
    interpreter
        .write_memory(&memory, pointer, permission, 0x0102_0304_0506_0708, WriteKind::Initialize, access, span)
        .unwrap();
    assert_eq!(interpreter.allocations[&3].bytes[&8], 0x08);
    assert_eq!(interpreter.allocations[&3].bytes[&15], 0x01);
    assert_eq!(interpreter.load_memory(&memory, pointer, permission, access, span).unwrap(), 0x0102_0304_0506_0708);
    interpreter.write_memory(&memory, pointer, permission, 42, WriteKind::Store, access, span).unwrap();
    assert_eq!(interpreter.load_memory(&memory, pointer, permission, access, span).unwrap(), 42);
}

#[test]
fn initialize_and_store_respect_the_byte_state() {
    let memory = VirMemorySchema::core_u64();
    let access = VirMemoryAccess::core_u64();
    let span = ByteSpan::empty();
    let (mut interpreter, pointer, permission) = setup();
    assert_eq!(
        interpreter.write_memory(&memory, pointer, permission, 1, WriteKind::Store, access, span).unwrap_err().kind(),
        &VirExecutionErrorKind::StoreToUninitialized { allocation: 3, offset_bytes: 8 }
    );
    assert_eq!(
        interpreter.load_memory(&memory, pointer, permission, access, span).unwrap_err().kind(),
        &VirExecutionErrorKind::UninitializedRead { allocation: 3, offset_bytes: 8 }
    );
    interpreter.write_memory(&memory, pointer, permission, 1, WriteKind::Initialize, access, span).unwrap();
    assert_eq!(
        interpreter.write_memory(&memory, pointer, permission, 2, WriteKind::Initialize, access, span).unwrap_err().kind(),
        &VirExecutionErrorKind::InitializeAlreadyInitialized { allocation: 3, offset_bytes: 8 }
    );
    interpreter.write_memory(&memory, pointer, permission, 2, WriteKind::Write, access, span).unwrap();
    assert_eq!(interpreter.load_memory(&memory, pointer, permission, access, span).unwrap(), 2);
}

#[test]
fn an_access_outside_its_permission_faults_before_touching_bytes() {
    let memory = VirMemorySchema::core_u64();
    let access = VirMemoryAccess::core_u64();
    let span = ByteSpan::empty();
    let (mut interpreter, pointer, _) = setup();
    let narrow = VirRuntimePermission { allocation: 3, start_bytes: 0, end_bytes: 8, can_free_when_complete: false };
    assert_eq!(
        interpreter.write_memory(&memory, pointer, narrow, 1, WriteKind::Write, access, span).unwrap_err().kind(),
        &VirExecutionErrorKind::PermissionOutOfRange {
            start_bytes: 0,
            end_bytes: 8,
            access_start_bytes: 8,
            access_end_bytes: 16,
        }
    );
    assert!(interpreter.allocations[&3].bytes.is_empty());
}

#[test]
fn encodings_follow_the_target_byte_order() {
    let little = encode_u64(0x0102, 4, VirEndianness::Little).unwrap();
    assert_eq!(little, vec![0x02, 0x01, 0, 0]);
    let big = encode_u64(0x0102, 4, VirEndianness::Big).unwrap();
    assert_eq!(big, vec![0, 0, 0x01, 0x02]);
    assert_eq!(decode_u64(&big, VirEndianness::Big), Some(0x0102));
    assert_eq!(decode_u64(&little, VirEndianness::Little), Some(0x0102));
    let truncated = encode_u64(0x0102, 1, VirEndianness::Little).unwrap();
    assert_eq!(decode_u64(&truncated, VirEndianness::Little), Some(0x02));
    let wide = encode_u64(u64::MAX, 10, VirEndianness::Big).unwrap();
    assert_eq!(wide[..2], [0, 0]);
    assert_eq!(decode_u64(&wide, VirEndianness::Big), Some(u64::MAX));
}
