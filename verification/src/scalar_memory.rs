//! Scalar loads and stores on interpreter allocations, and the byte encoding
//! they share.

use vstd::arithmetic::div_mod::{lemma_div_denominator, lemma_mod_breakdown};
use vstd::prelude::*;

use crate::ids::ByteSpan;
use crate::memory::{VirEndianness, VirMemoryAccess, VirMemorySchema, VirMemoryTypeKind};
use crate::runtime::{
    Allocation, Interpreter, VirExecutionError, VirExecutionErrorKind, VirRuntimePermission, VirRuntimePointer, all_zero, be_value,
    decode_u64, error, le_value, pow256, read_initialized_bytes, run_initialized, spec_access_fault, spec_decode_u64,
};

verus! {

broadcast use {vstd::laws_cmp::group_laws_cmp, vstd::std_specs::btree::group_btree_axioms};

/// Byte `i` (least significant first) of `v`.
pub open spec fn byte_of(v: nat, i: nat) -> u8 {
    ((v / pow256(i)) % 256) as u8
}

/// `v` written as `size` bytes in the target's byte order: the eight least
/// significant bytes of `v`, zero beyond.
pub open spec fn spec_encode_u64(v: u64, size: nat, endianness: VirEndianness) -> Seq<u8> {
    match endianness {
        VirEndianness::Little => Seq::new(size, |i: int| if i < 8 { byte_of(v as nat, i as nat) } else { 0u8 }),
        VirEndianness::Big => Seq::new(
            size,
            |i: int| if size - 1 - i < 8 { byte_of(v as nat, (size - 1 - i) as nat) } else { 0u8 },
        ),
    }
}

/// The part of `v` that `size` bytes hold.
pub open spec fn stored_value(v: u64, size: nat) -> u64 {
    (v as nat % pow256(if size < 8 { size } else { 8 })) as u64
}

proof fn lemma_pow256_positive(n: nat)
    ensures
        pow256(n) > 0,
    decreases n,
{
    if n > 0 {
        lemma_pow256_positive((n - 1) as nat);
    }
}

/// Byte `i + 1` of `x` is byte `i` of `x / 256`.
proof fn lemma_byte_shift(x: nat, i: nat)
    ensures
        byte_of(x, i + 1) == byte_of(x / 256, i),
{
    lemma_pow256_positive(i);
    lemma_div_denominator(x as int, 256, pow256(i) as int);
    assert(pow256(i + 1) == 256 * pow256(i));
}

/// The little-endian value of the first `k` bytes of `x` is `x` modulo
/// `256^k`.
proof fn lemma_le_bytes(x: nat, k: nat)
    ensures
        le_value(Seq::new(k, |i: int| byte_of(x, i as nat))) == x % pow256(k),
    decreases k,
{
    let s = Seq::new(k, |i: int| byte_of(x, i as nat));
    if k == 0 {
        assert(x % 1 == 0);
    } else {
        let rest = Seq::new((k - 1) as nat, |i: int| byte_of(x / 256, i as nat));
        assert(s.drop_first() =~= rest) by {
            assert forall|i: int| 0 <= i < k - 1 implies s.drop_first()[i] == rest[i] by {
                lemma_byte_shift(x, i as nat);
            }
        }
        lemma_le_bytes(x / 256, (k - 1) as nat);
        lemma_pow256_positive((k - 1) as nat);
        lemma_mod_breakdown(x as int, 256, pow256((k - 1) as nat) as int);
        assert(s[0] == byte_of(x, 0));
        lemma_byte_zero(x);
    }
}

/// The big-endian value of the `k` least significant bytes of `x`, most
/// significant first, is `x` modulo `256^k`.
proof fn lemma_be_bytes(x: nat, k: nat)
    ensures
        be_value(Seq::new(k, |i: int| byte_of(x, (k - 1 - i) as nat))) == x % pow256(k),
    decreases k,
{
    let s = Seq::new(k, |i: int| byte_of(x, (k - 1 - i) as nat));
    if k == 0 {
        assert(x % 1 == 0);
    } else {
        let front = Seq::new((k - 1) as nat, |i: int| byte_of(x / 256, ((k - 1) - 1 - i) as nat));
        assert(s.drop_last() =~= front) by {
            assert forall|i: int| 0 <= i < k - 1 implies s.drop_last()[i] == front[i] by {
                lemma_byte_shift(x, (k - 2 - i) as nat);
            }
        }
        lemma_be_bytes(x / 256, (k - 1) as nat);
        lemma_pow256_positive((k - 1) as nat);
        lemma_mod_breakdown(x as int, 256, pow256((k - 1) as nat) as int);
        assert(s.last() == byte_of(x, 0));
        lemma_byte_zero(x);
    }
}

/// Decoding what an encoding wrote gives back the part of the value that
/// fits the written bytes.
pub proof fn lemma_decode_encode(v: u64, size: nat, endianness: VirEndianness)
    ensures
        spec_decode_u64(spec_encode_u64(v, size, endianness), endianness) == Some(stored_value(v, size)),
{
    let bytes = spec_encode_u64(v, size, endianness);
    let k: nat = if size < 8 { size } else { 8 };
    lemma_pow256_positive(k);
    match endianness {
        VirEndianness::Little => {
            if size > 8 {
                assert(all_zero(bytes.subrange(8, size as int)));
            }
            assert(bytes.take(k as int) =~= Seq::new(k, |i: int| byte_of(v as nat, i as nat)));
            lemma_le_bytes(v as nat, k);
        },
        VirEndianness::Big => {
            let start: int = if size > 8 { size - 8 } else { 0 };
            assert(all_zero(bytes.take(start)));
            assert(bytes.skip(start) =~= Seq::new(k, |i: int| byte_of(v as nat, (k - 1 - i) as nat)));
            lemma_be_bytes(v as nat, k);
        },
    }
}

/// `256^n` for `n < 8`.
fn pow256_exec(n: usize) -> (r: u64)
    requires
        n < 8,
    ensures
        r == pow256(n as nat),
{
    let mut r: u64 = 1;
    let mut i: usize = 0;
    while i < n
        invariant
            0 <= i <= n < 8,
            r == pow256(i as nat),
            r <= 0x100_0000_0000_0000,
        decreases n - i,
    {
        proof {
            assert(pow256((i + 1) as nat) == 256 * pow256(i as nat));
            lemma_pow256_le(i as nat);
        }
        r = r * 256;
        i = i + 1;
    }
    r
}

proof fn lemma_pow256_mono(a: nat, b: nat)
    requires
        a <= b,
    ensures
        pow256(a) <= pow256(b),
    decreases b,
{
    if a < b {
        lemma_pow256_mono(a, (b - 1) as nat);
        lemma_pow256_positive((b - 1) as nat);
    }
}

proof fn lemma_pow256_le(n: nat)
    requires
        n < 7,
    ensures
        256 * pow256(n) <= 0x100_0000_0000_0000,
{
    lemma_pow256_mono(n, 6);
    reveal_with_fuel(pow256, 7);
}

/// Byte 0 of `x` is `x` modulo 256.
proof fn lemma_byte_zero(x: nat)
    ensures
        byte_of(x, 0) == x % 256,
{
    assert(pow256(0) == 1);
    assert(x / 1 == x) by (nonlinear_arith);
}

/// The `size_bytes`-byte encoding of `value`; a size beyond the address
/// space has none.
pub fn encode_u64(value: u64, size_bytes: u64, endianness: VirEndianness) -> (r: Option<Vec<u8>>)
    ensures
        size_bytes > usize::MAX ==> r is None,
        size_bytes <= usize::MAX ==> (r matches Some(b) && b@ == spec_encode_u64(value, size_bytes as nat, endianness)),
{
    if size_bytes > usize::MAX as u64 {
        return None;
    }
    let size = size_bytes as usize;
    let mut out: Vec<u8> = Vec::new();
    let mut i: usize = 0;
    while i < size
        invariant
            0 <= i <= size,
            size == size_bytes,
            out@ == spec_encode_u64(value, size as nat, endianness).take(i as int),
        decreases size - i,
    {
        let j = match endianness {
            VirEndianness::Little => i,
            VirEndianness::Big => size - 1 - i,
        };
        let byte: u8 = if j < 8 {
            let d = pow256_exec(j);
            proof {
                lemma_pow256_positive(j as nat);
            }
            ((value / d) % 256) as u8
        } else {
            0
        };
        out.push(byte);
        proof {
            assert(out@ =~= spec_encode_u64(value, size as nat, endianness).take(i + 1));
        }
        i = i + 1;
    }
    proof {
        assert(spec_encode_u64(value, size as nat, endianness).take(size as int) =~= spec_encode_u64(value, size as nat, endianness));
    }
    Some(out)
}

/// The `size` bytes of `bytes` from `start` on.
pub open spec fn bytes_at(bytes: Map<u64, u8>, start: u64, size: nat) -> Seq<u8> {
    Seq::new(size, |i: int| bytes[(start + i) as u64])
}

/// `bytes` with `data` written from `start` on.
pub open spec fn written(bytes: Map<u64, u8>, start: u64, data: Seq<u8>) -> Map<u64, u8> {
    Map::new(
        |o: u64| bytes.contains_key(o) || (start <= o && o < start + data.len()),
        |o: u64| if start <= o && o < start + data.len() { data[o - start] } else { bytes[o] },
    )
}

/// Reading back the bytes just written gives what was written.
pub proof fn lemma_read_written(bytes: Map<u64, u8>, start: u64, data: Seq<u8>)
    requires
        start + data.len() <= u64::MAX + 1,
    ensures
        run_initialized(written(bytes, start, data), start, data.len() as u64),
        bytes_at(written(bytes, start, data), start, data.len()) == data,
{
    assert(bytes_at(written(bytes, start, data), start, data.len()) =~= data);
}

/// A scalar load of the bytes a scalar store wrote gives back the stored
/// value: the part of it that the scalar's bytes hold.
pub proof fn lemma_read_after_write(bytes: Map<u64, u8>, start: u64, v: u64, size: nat, endianness: VirEndianness)
    requires
        start + size <= u64::MAX + 1,
    ensures
        run_initialized(written(bytes, start, spec_encode_u64(v, size, endianness)), start, size as u64),
        spec_decode_u64(bytes_at(written(bytes, start, spec_encode_u64(v, size, endianness)), start, size), endianness) == Some(
            stored_value(v, size),
        ),
{
    lemma_read_written(bytes, start, spec_encode_u64(v, size, endianness));
    lemma_decode_encode(v, size, endianness);
}

/// How a scalar store treats bytes that are already initialized.
#[derive(Clone, Copy, Debug, PartialEq, Eq, Structural)]
pub enum WriteKind {
    /// Every byte must be uninitialized.
    Initialize,
    /// Bytes may be in any state.
    Write,
    /// Every byte must already be initialized.
    Store,
}

/// `after` is `before` with only its bytes changed to `bytes`.
pub open spec fn with_bytes(after: Allocation, before: Allocation, bytes: Map<u64, u8>) -> bool {
    &&& after.size_bytes == before.size_bytes
    &&& after.alignment == before.alignment
    &&& after.kind == before.kind
    &&& after.live == before.live
    &&& after.objects@ == before.objects@
    &&& after.resource_payloads@ == before.resource_payloads@
    &&& after.bytes@ == bytes
}

/// `after` is `before` after `v` was stored as a `access` scalar at `pointer`.
pub open spec fn stored(before: &Interpreter, after: &Interpreter, memory: VirMemorySchema, pointer: VirRuntimePointer, access: VirMemoryAccess, v: u64)
    -> bool {
    let a = before.allocations@[pointer.allocation];
    let size = memory.spec_layout(access.layout)->0.size_bytes as nat;
    &&& before.allocations@.contains_key(pointer.allocation)
    &&& memory.spec_layout(access.layout) is Some
    &&& after.allocations@.dom() == before.allocations@.dom()
    &&& forall|id: u64| id != pointer.allocation ==> #[trigger] after.allocations@[id] == before.allocations@[id]
    &&& with_bytes(after.allocations@[pointer.allocation], a, written(a.bytes@, pointer.offset_bytes, spec_encode_u64(v, size, memory.target.endianness)))
    &&& after.config == before.config
    &&& after.steps == before.steps
    &&& after.allocation_instances == before.allocation_instances
}

/// `v` is what a scalar load of `access` at `pointer` reads in `interp`.
pub open spec fn loaded(interp: &Interpreter, memory: VirMemorySchema, pointer: VirRuntimePointer, access: VirMemoryAccess, v: u64) -> bool {
    let a = interp.allocations@[pointer.allocation];
    let size = memory.spec_layout(access.layout)->0.size_bytes;
    &&& interp.allocations@.contains_key(pointer.allocation)
    &&& memory.spec_layout(access.layout) is Some
    &&& run_initialized(a.bytes@, pointer.offset_bytes, size)
    &&& spec_decode_u64(bytes_at(a.bytes@, pointer.offset_bytes, size as nat), memory.target.endianness) == Some(v)
    &&& (memory.spec_kind(access.ty) == Some(VirMemoryTypeKind::Bool) ==> v <= 1)
}

/// A load after a store through the same pointer reads the stored value.
pub proof fn lemma_load_after_store(
    before: &Interpreter,
    after: &Interpreter,
    memory: VirMemorySchema,
    pointer: VirRuntimePointer,
    access: VirMemoryAccess,
    v: u64,
    x: u64,
)
    requires
        stored(before, after, memory, pointer, access, v),
        loaded(after, memory, pointer, access, x),
        pointer.offset_bytes + memory.spec_layout(access.layout)->0.size_bytes <= u64::MAX + 1,
    ensures
        x == stored_value(v, memory.spec_layout(access.layout)->0.size_bytes as nat),
{
    let a = before.allocations@[pointer.allocation];
    let size = memory.spec_layout(access.layout)->0.size_bytes as nat;
    lemma_read_after_write(a.bytes@, pointer.offset_bytes, v, size, memory.target.endianness);
}

impl Interpreter {
    /// Loads the scalar of type `access` at `pointer` through `permission`.
    pub fn load_memory(
        &self,
        memory: &VirMemorySchema,
        pointer: VirRuntimePointer,
        permission: VirRuntimePermission,
        access: VirMemoryAccess,
        source_span: ByteSpan,
    ) -> (r: Result<u64, VirExecutionError>)
        ensures
            match spec_access_fault(self, *memory, pointer, permission, access) {
                Some(k) => r matches Err(e) && e.spec_kind() == k,
                None => {
                    let a = self.allocations@[pointer.allocation];
                    let size = memory.spec_layout(access.layout)->0.size_bytes;
                    &&& r matches Ok(v) ==> loaded(self, *memory, pointer, access, v)
                    &&& a.objects@.len() == 0 && size <= usize::MAX ==> forall|v: u64| #[trigger] loaded(self, *memory, pointer, access, v)
                        ==> r == Ok::<u64, VirExecutionError>(v)
                    &&& size <= usize::MAX ==> (r matches Err(e) && self.scalar_access_kind_result(*memory, pointer, Err(e.spec_kind())))
                        || (self.scalar_access_kind_result(*memory, pointer, Ok(())) && forall|v: u64| #[trigger] loaded(self, *memory, pointer, access, v)
                        ==> r == Ok::<u64, VirExecutionError>(v))
                },
            },
    {
        self.check_access(memory, pointer, permission, access, source_span)?;
        let active = self.check_scalar_active_access(memory, pointer, source_span);
        if let Err(e) = active {
            return Err(e);
        }
        let size = match memory.layout(access.layout) {
            Some(l) => l.size_bytes,
            None => return Err(error(VirExecutionErrorKind::InvalidRuntimeState, source_span)),
        };
        let allocation = match self.allocations.get(&pointer.allocation) {
            Some(a) => a,
            None => return Err(error(VirExecutionErrorKind::InvalidRuntimeState, source_span)),
        };
        let bytes = read_initialized_bytes(allocation, pointer.allocation, pointer.offset_bytes, size, access, false, source_span)?;
        proof {
            assert(bytes@ =~= bytes_at(allocation.bytes@, pointer.offset_bytes, size as nat));
        }
        let value = match decode_u64(bytes.as_slice(), memory.target.endianness) {
            Some(v) => v,
            None => {
                return Err(error(VirExecutionErrorKind::InvalidObjectRepresentation {
                    allocation: pointer.allocation,
                    offset_bytes: pointer.offset_bytes,
                    access,
                }, source_span));
            },
        };
        let is_bool = match memory.kind(access.ty) {
            Some(VirMemoryTypeKind::Bool) => true,
            _ => false,
        };
        if is_bool && value > 1 {
            return Err(error(VirExecutionErrorKind::InvalidObjectRepresentation {
                allocation: pointer.allocation,
                offset_bytes: pointer.offset_bytes,
                access,
            }, source_span));
        }
        Ok(value)
    }
}


/// The least offset of `[start, start + size)` whose byte is (`initialized`)
/// or is not initialized in `bytes`.
pub open spec fn first_offset(bytes: Map<u64, u8>, start: u64, size: u64, initialized: bool) -> Option<u64> {
    if exists|o: u64| start <= o < start + size && #[trigger] bytes.contains_key(o) == initialized {
        Some(
            choose|o: u64|
                start <= o < start + size && #[trigger] bytes.contains_key(o) == initialized && forall|p: u64|
                    start <= p < o ==> #[trigger] bytes.contains_key(p) != initialized,
        )
    } else {
        None
    }
}

/// Why a `kind` store of `size` bytes at `pointer` refuses the allocation's
/// bytes, if it does.
pub open spec fn write_refusal(bytes: Map<u64, u8>, pointer: VirRuntimePointer, size: u64, kind: WriteKind) -> Option<VirExecutionErrorKind> {
    match kind {
        WriteKind::Initialize => match first_offset(bytes, pointer.offset_bytes, size, true) {
            Some(o) => Some(VirExecutionErrorKind::InitializeAlreadyInitialized { allocation: pointer.allocation, offset_bytes: o }),
            None => None,
        },
        WriteKind::Store => match first_offset(bytes, pointer.offset_bytes, size, false) {
            Some(o) => Some(VirExecutionErrorKind::StoreToUninitialized { allocation: pointer.allocation, offset_bytes: o }),
            None => None,
        },
        WriteKind::Write => None,
    }
}

/// Finds the least offset of the run whose initialization is `initialized`.
fn find_offset(allocation: &Allocation, start: u64, size: u64, initialized: bool) -> (r: Option<u64>)
    requires
        start + size <= u64::MAX + 1,
    ensures
        r == first_offset(allocation.bytes@, start, size, initialized),
{
    let mut i: u64 = 0;
    while i < size
        invariant
            0 <= i <= size,
            start + size <= u64::MAX + 1,
            forall|p: u64| start <= p < start + i ==> #[trigger] allocation.bytes@.contains_key(p) != initialized,
        decreases size - i,
    {
        let o = start + i;
        if allocation.bytes.contains_key(&o) == initialized {
            proof {
                let w = choose|q: u64|
                    start <= q < start + size && #[trigger] allocation.bytes@.contains_key(q) == initialized && forall|p: u64|
                        start <= p < q ==> #[trigger] allocation.bytes@.contains_key(p) != initialized;
                assert(start <= o < start + size && allocation.bytes@.contains_key(o) == initialized && forall|p: u64|
                    start <= p < o ==> #[trigger] allocation.bytes@.contains_key(p) != initialized);
                if w < o {
                    assert(allocation.bytes@.contains_key(w) != initialized);
                } else if o < w {
                    assert(allocation.bytes@.contains_key(o) != initialized);
                }
            }
            return Some(o);
        }
        i = i + 1;
    }
    None
}

impl Interpreter {
    /// Stores `value` as the scalar of type `access` at `pointer` through
    /// `permission`, as `kind` allows.
    pub fn write_memory(
        &mut self,
        memory: &VirMemorySchema,
        pointer: VirRuntimePointer,
        permission: VirRuntimePermission,
        value: u64,
        kind: WriteKind,
        access: VirMemoryAccess,
        source_span: ByteSpan,
    ) -> (r: Result<(), VirExecutionError>)
        ensures
            final(self).config == old(self).config,
            final(self).steps == old(self).steps,
            final(self).allocation_instances == old(self).allocation_instances,
            r is Err ==> final(self).allocations@ == old(self).allocations@,
            r is Ok ==> stored(&*old(self), &*final(self), *memory, pointer, access, value),
            match spec_access_fault(&*old(self), *memory, pointer, permission, access) {
                Some(k) => r matches Err(e) && e.spec_kind() == k,
                None => {
                    let a = old(self).allocations@[pointer.allocation];
                    let size = memory.spec_layout(access.layout)->0.size_bytes;
                    &&& r is Ok ==> write_refusal(a.bytes@, pointer, size, kind) is None
                    &&& a.objects@.len() == 0 && size <= usize::MAX ==> match write_refusal(a.bytes@, pointer, size, kind) {
                        Some(k) => r matches Err(e) && e.spec_kind() == k,
                        None => r is Ok,
                    }
                    &&& size <= usize::MAX ==> (r matches Err(e) && old(self).scalar_access_kind_result(*memory, pointer, Err(e.spec_kind())))
                        || (old(self).scalar_access_kind_result(*memory, pointer, Ok(())) && match write_refusal(a.bytes@, pointer, size, kind) {
                        Some(k) => r matches Err(e) && e.spec_kind() == k,
                        None => r is Ok,
                    })
                },
            },
    {
        self.check_access(memory, pointer, permission, access, source_span)?;
        let active = self.check_scalar_active_access(memory, pointer, source_span);
        if let Err(e) = active {
            return Err(e);
        }
        let size = match memory.layout(access.layout) {
            Some(l) => l.size_bytes,
            None => return Err(error(VirExecutionErrorKind::InvalidRuntimeState, source_span)),
        };
        let encoded = match encode_u64(value, size, memory.target.endianness) {
            Some(e) => e,
            None => return Err(error(VirExecutionErrorKind::InvalidRuntimeState, source_span)),
        };
        let refusal = match self.allocations.get(&pointer.allocation) {
            Some(allocation) => match kind {
                WriteKind::Initialize => match find_offset(allocation, pointer.offset_bytes, size, true) {
                    Some(offset_bytes) => Some(VirExecutionErrorKind::InitializeAlreadyInitialized { allocation: pointer.allocation, offset_bytes }),
                    None => None,
                },
                WriteKind::Store => match find_offset(allocation, pointer.offset_bytes, size, false) {
                    Some(offset_bytes) => Some(VirExecutionErrorKind::StoreToUninitialized { allocation: pointer.allocation, offset_bytes }),
                    None => None,
                },
                WriteKind::Write => None,
            },
            None => return Err(error(VirExecutionErrorKind::InvalidRuntimeState, source_span)),
        };
        match refusal {
            Some(k) => {
                return Err(error(k, source_span));
            },
            None => {},
        }
        let ghost before = self.allocations@;
        let mut allocation = match self.allocations.remove(&pointer.allocation) {
            Some(a) => a,
            None => return Err(error(VirExecutionErrorKind::InvalidRuntimeState, source_span)),
        };
        let ghost original = allocation.bytes@;
        let ghost a0 = allocation;
        let mut i: usize = 0;
        while i < encoded.len()
            invariant
                0 <= i <= encoded@.len(),
                with_bytes(allocation, a0, allocation.bytes@),
                encoded@.len() == size,
                pointer.offset_bytes + size <= u64::MAX + 1,
                allocation.bytes@ == written(original, pointer.offset_bytes, encoded@.take(i as int)),
            decreases encoded.len() - i,
        {
            let offset = pointer.offset_bytes + i as u64;
            allocation.bytes.insert(offset, encoded[i]);
            proof {
                assert(allocation.bytes@ =~= written(original, pointer.offset_bytes, encoded@.take(i + 1)));
            }
            i = i + 1;
        }
        proof {
            assert(encoded@.take(encoded@.len() as int) =~= encoded@);
        }
        self.allocations.insert(pointer.allocation, allocation);
        proof {
            assert(self.allocations@.dom() =~= before.dom());
        }
        Ok(())
    }
}


} // verus!
