//! Whole-object transfer: copying or moving the active value of one object
//! into another, with its owning payloads.

use std::collections::{BTreeMap, BTreeSet};

use vstd::prelude::*;

use crate::ids::{ByteSpan, SizeCapability, ValueCapability};
use crate::memory::{VirMemoryAccess, VirMemorySchema, VirMemoryTypeKind, VirMutability, VirPointerKind};
use crate::object_shape::{VirObjectShape, is_scalar_kind, shape_matches, shape_promised};
use crate::objects::{lemma_increasing_offsets, least_unset, unset_at};
use crate::borrow::VirLoanKind;
use crate::ids::{VirLoanId, VirValueId};
use crate::loan_shadow::{RuntimeLoanActivity, RuntimeLoanLimits, RuntimeLoanShadow, loan_wf, loan_with};
use crate::runtime::{Allocation, Interpreter, RuntimeObject, VIR_INTERPRETER_MAX_OBJECT_ROOTS, registration_refusal, RuntimeLoanAuthority, RuntimeOwnedPayload, VirRuntimePermission, VirRuntimePointer, half_open_ranges_overlap, spec_access_fault, VIR_INTERPRETER_MAX_RESOURCE_PAYLOADS, VirExecutionError, VirExecutionErrorKind, error, payload_key};

verus! {

broadcast use {vstd::laws_cmp::group_laws_cmp, vstd::std_specs::btree::group_btree_axioms};

/// Whether an object effect fills uninitialized storage or replaces a
/// complete value.
#[derive(Clone, Copy, Debug, PartialEq, Eq, Structural)]
pub enum VirObjectDestinationMode {
    Initialize,
    Replace,
}

/// Whether an object effect leaves its source in place or retires it.
#[derive(Clone, Copy, Debug, PartialEq, Eq, Structural)]
pub enum VirObjectSourceMode {
    Copy,
    Move,
}

/// The object type may be transferred in these modes: a copy needs a sized
/// copyable type whose only resources are shared references; a move needs a
/// sized type without raw pointers, and replacing needs plain data.
pub open spec fn transfer_supported(
    memory: VirMemorySchema,
    shape: VirObjectShape,
    destination_mode: VirObjectDestinationMode,
    source_mode: VirObjectSourceMode,
) -> bool {
    let capability = memory.spec_type_capabilities(shape.spec_access().ty);
    let leaves = shape.spec_resource_leaves();
    match source_mode {
        VirObjectSourceMode::Copy => {
            &&& capability matches Some(c) && c.value == ValueCapability::Copy && c.size == SizeCapability::Sized
            &&& forall|i: int| 0 <= i < leaves.len() ==> (#[trigger] leaves[i]).spec_kind() == VirPointerKind::Reference
                && leaves[i].spec_mutability() == VirMutability::Const
        },
        VirObjectSourceMode::Move => {
            &&& capability matches Some(c) && c.size == SizeCapability::Sized
            &&& forall|i: int| 0 <= i < leaves.len() ==> (#[trigger] leaves[i]).spec_kind() != VirPointerKind::Raw
            &&& (destination_mode == VirObjectDestinationMode::Initialize || capability->0.spec_pointer_free_trivial())
        },
    }
}

/// Refuses object types that the requested transfer modes do not support.
pub fn ensure_runtime_object_transfer_type(
    memory: &VirMemorySchema,
    shape: &VirObjectShape,
    destination_mode: VirObjectDestinationMode,
    source_mode: VirObjectSourceMode,
    source_span: ByteSpan,
) -> (r: Result<(), VirExecutionError>)
    ensures
        r is Ok <==> transfer_supported(*memory, *shape, destination_mode, source_mode),
        r matches Err(e) ==> e.spec_kind() == (VirExecutionErrorKind::UnsupportedObjectEffectType { access: shape.spec_access() }),
{
    let capability = memory.type_capabilities(shape.access().ty);
    let leaves = shape.resource_leaves();
    let mut leaves_ok = true;
    let mut i: usize = 0;
    while i < leaves.len()
        invariant
            0 <= i <= leaves@.len(),
            leaves@ == shape.spec_resource_leaves(),
            leaves_ok == forall|j: int| 0 <= j < i ==> match source_mode {
                VirObjectSourceMode::Copy => (#[trigger] leaves@[j]).spec_kind() == VirPointerKind::Reference
                    && leaves@[j].spec_mutability() == VirMutability::Const,
                VirObjectSourceMode::Move => (#[trigger] leaves@[j]).spec_kind() != VirPointerKind::Raw,
            },
        decreases leaves.len() - i,
    {
        let leaf_ok = match source_mode {
            VirObjectSourceMode::Copy => leaves[i].kind() == VirPointerKind::Reference && leaves[i].mutability() == VirMutability::Const,
            VirObjectSourceMode::Move => leaves[i].kind() != VirPointerKind::Raw,
        };
        leaves_ok = leaves_ok && leaf_ok;
        i = i + 1;
    }
    let supported = match source_mode {
        VirObjectSourceMode::Copy => match capability {
            Some(c) => c.value == ValueCapability::Copy && c.size == SizeCapability::Sized && leaves_ok,
            None => false,
        },
        VirObjectSourceMode::Move => match capability {
            Some(c) => c.size == SizeCapability::Sized && leaves_ok && (destination_mode == VirObjectDestinationMode::Initialize
                || c.pointer_free_trivial()),
            None => false,
        },
    };
    if supported {
        Ok(())
    } else {
        Err(error(VirExecutionErrorKind::UnsupportedObjectEffectType { access: shape.access() }, source_span))
    }
}

/// The absolute offsets `base + o` for `o` in `offsets`.
pub open spec fn shifted(base: u64, offsets: Set<u64>) -> Set<u64> {
    Set::new(|k: u64| k >= base && offsets.contains((k - base) as u64))
}

/// Every `base + o` for `o` in `offsets` is an address.
pub open spec fn fits_after(base: u64, offsets: Set<u64>) -> bool {
    forall|o: u64| offsets.contains(o) ==> base + o <= u64::MAX
}

/// The destination bytes after a transfer: the bytes at `retired` and at
/// the source offsets `moved` are cleared, and each moved offset shows the
/// source byte.
pub open spec fn bytes_moved_in(
    destination: Map<u64, u8>,
    source: Map<u64, u8>,
    destination_base: u64,
    source_base: u64,
    retired: Set<u64>,
    moved: Set<u64>,
) -> Map<u64, u8> {
    destination.remove_keys(shifted(destination_base, retired.union(moved))).union_prefer_right(
        Map::new(
            |k: u64| shifted(destination_base, moved).contains(k),
            |k: u64| source[(source_base + (k - destination_base)) as u64],
        ),
    )
}

/// `payloads` inserted in order at `base` plus their relative offsets.
pub open spec fn payloads_in(
    before: Map<(u64, u32, u32), RuntimeOwnedPayload>,
    base: u64,
    payloads: Seq<(u64, VirMemoryAccess, RuntimeOwnedPayload)>,
) -> Map<(u64, u32, u32), RuntimeOwnedPayload>
    decreases payloads.len(),
{
    if payloads.len() == 0 {
        before
    } else {
        let last = payloads.last();
        payloads_in(before, base, payloads.drop_last()).insert(payload_key((base + last.0) as u64, last.1), last.2)
    }
}

/// The keys of `payloads` at `base` removed in order.
pub open spec fn payloads_out(
    before: Map<(u64, u32, u32), RuntimeOwnedPayload>,
    base: u64,
    payloads: Seq<(u64, VirMemoryAccess, RuntimeOwnedPayload)>,
) -> Map<(u64, u32, u32), RuntimeOwnedPayload>
    decreases payloads.len(),
{
    if payloads.len() == 0 {
        before
    } else {
        let last = payloads.last();
        payloads_out(before, base, payloads.drop_last()).remove(payload_key((base + last.0) as u64, last.1))
    }
}

/// How many of the first `n` payloads land on a key that `existing` lacks.
pub open spec fn new_payload_count(
    existing: Map<(u64, u32, u32), RuntimeOwnedPayload>,
    base: u64,
    payloads: Seq<(u64, VirMemoryAccess, RuntimeOwnedPayload)>,
    n: int,
) -> nat
    decreases n,
{
    if n <= 0 {
        0
    } else {
        new_payload_count(existing, base, payloads, n - 1) + if existing.contains_key(
            payload_key((base + payloads[n - 1].0) as u64, payloads[n - 1].1),
        ) {
            0nat
        } else {
            1nat
        }
    }
}

/// The elements of `offsets` in increasing order.
pub fn offsets_in_order(offsets: &BTreeSet<u64>) -> (v: Vec<u64>)
    ensures
        v@.to_set() == offsets@,
        forall|a: int, b: int| 0 <= a < b < v@.len() ==> v@[a] < v@[b],
{
    let mut v: Vec<u64> = Vec::new();
    for x in it: offsets.iter()
        invariant
            it.seq().unref().to_set() == offsets@,
            v@.len() == it.index(),
            forall|k: int| 0 <= k < it.index() ==> v@[k] == *it.seq()[k],
            forall|a: int, b: int| 0 <= a < b < v@.len() ==> v@[a] < v@[b],
            forall|o: u64| v@.contains(o) ==> offsets@.contains(o),
    {
        proof {
            assert(*x == *it.seq()[it.index() as int]);
            lemma_increasing_offsets(it.seq());
            assert(it.seq().unref()[it.index() as int] == *x);
            assert(it.seq().unref().contains(*x));
        }
        v.push(*x);
    }
    proof {
        assert forall|o: u64| offsets@.contains(o) implies v@.contains(o) by {
            assert(offsets@.contains(o));
        }
        assert(v@.to_set() =~= offsets@);
    }
    v
}

/// Removes the bytes at `base + o` for every `o` in `offsets`.
pub fn remove_relative(bytes: &mut BTreeMap<u64, u8>, base: u64, offsets: &BTreeSet<u64>)
    requires
        fits_after(base, offsets@),
    ensures
        final(bytes)@ == old(bytes)@.remove_keys(shifted(base, offsets@)),
{
    let order = offsets_in_order(offsets);
    let ghost original = bytes@;
    let mut i: usize = 0;
    while i < order.len()
        invariant
            0 <= i <= order@.len(),
            order@.to_set() == offsets@,
            fits_after(base, offsets@),
            forall|k: u64| #[trigger] bytes@.contains_key(k) == (original.contains_key(k) && !exists|j: int|
                0 <= j < i && k == base + #[trigger] order@[j]),
            forall|k: u64| #[trigger] bytes@.contains_key(k) ==> bytes@[k] == original[k],
        decreases order.len() - i,
    {
        proof {
            assert(order@.to_set().contains(order@[i as int]));
        }
        let ghost before = bytes@;
        bytes.remove(&(base + order[i]));
        proof {
            assert forall|k: u64| #[trigger] bytes@.contains_key(k) == (original.contains_key(k) && !exists|j: int|
                0 <= j < i + 1 && k == base + #[trigger] order@[j]) by {
                if k == base + order@[i as int] {
                    assert(!bytes@.contains_key(k));
                } else {
                    if exists|j: int| 0 <= j < i + 1 && k == base + #[trigger] order@[j] {
                        let j = choose|j: int| 0 <= j < i + 1 && k == base + #[trigger] order@[j];
                        assert(j < i);
                    }
                }
            }
        }
        i = i + 1;
    }
    proof {
        assert forall|k: u64| #[trigger] shifted(base, offsets@).contains(k) <==> exists|j: int|
            0 <= j < order@.len() && k == base + #[trigger] order@[j] by {
            if shifted(base, offsets@).contains(k) {
                assert(order@.to_set().contains((k - base) as u64));
                assert(order@.contains((k - base) as u64));
                let j = choose|j: int| 0 <= j < order@.len() && order@[j] == (k - base) as u64;
                assert(k == base + order@[j]);
            }
            if exists|j: int| 0 <= j < order@.len() && k == base + #[trigger] order@[j] {
                let j = choose|j: int| 0 <= j < order@.len() && k == base + #[trigger] order@[j];
                assert(order@.to_set().contains(order@[j]));
            }
        }
        assert(bytes@ =~= original.remove_keys(shifted(base, offsets@)));
    }
}

/// The shifted offsets are the shifted entries of any listing of them.
pub proof fn lemma_shifted_listing(base: u64, offsets: Set<u64>, order: Seq<u64>)
    requires
        order.to_set() == offsets,
    ensures
        forall|k: u64| #[trigger] shifted(base, offsets).contains(k) <==> exists|j: int|
            0 <= j < order.len() && k == base + #[trigger] order[j],
{
    assert forall|k: u64| #[trigger] shifted(base, offsets).contains(k) <==> exists|j: int|
        0 <= j < order.len() && k == base + #[trigger] order[j] by {
        if shifted(base, offsets).contains(k) {
            assert(order.to_set().contains((k - base) as u64));
            assert(order.contains((k - base) as u64));
            let j = choose|j: int| 0 <= j < order.len() && order[j] == (k - base) as u64;
            assert(k == base + order[j]);
        }
        if exists|j: int| 0 <= j < order.len() && k == base + #[trigger] order[j] {
            let j = choose|j: int| 0 <= j < order.len() && k == base + #[trigger] order[j];
            assert(order.to_set().contains(order[j]));
        }
    }
}

/// The initialized bytes at `base + order[j]`, in listing order.
pub fn read_relative(bytes: &BTreeMap<u64, u8>, base: u64, order: &Vec<u64>) -> (r: Vec<u8>)
    requires
        forall|j: int| 0 <= j < order@.len() ==> base + #[trigger] order@[j] <= u64::MAX && bytes@.contains_key(
            (base + order@[j]) as u64,
        ),
    ensures
        r@.len() == order@.len(),
        forall|j: int| 0 <= j < order@.len() ==> r@[j] == bytes@[(base + #[trigger] order@[j]) as u64],
{
    let mut r: Vec<u8> = Vec::new();
    let mut i: usize = 0;
    while i < order.len()
        invariant
            0 <= i <= order@.len(),
            r@.len() == i,
            forall|j: int| 0 <= j < order@.len() ==> base + #[trigger] order@[j] <= u64::MAX && bytes@.contains_key(
                (base + order@[j]) as u64,
            ),
            forall|j: int| 0 <= j < i ==> r@[j] == bytes@[(base + #[trigger] order@[j]) as u64],
        decreases order.len() - i,
    {
        let offset = base + order[i];
        let byte = match bytes.get(&offset) {
            Some(b) => *b,
            None => {
                proof {
                    assert(bytes@.contains_key((base + order@[i as int]) as u64));
                }
                0
            },
        };
        r.push(byte);
        i = i + 1;
    }
    r
}

/// Writes `values[j]` at `base + order[j]`, for an increasing listing.
pub fn write_relative(bytes: &mut BTreeMap<u64, u8>, base: u64, order: &Vec<u64>, values: &Vec<u8>)
    requires
        values@.len() == order@.len(),
        forall|a: int, b: int| 0 <= a < b < order@.len() ==> order@[a] < order@[b],
        forall|j: int| 0 <= j < order@.len() ==> base + #[trigger] order@[j] <= u64::MAX,
    ensures
        forall|k: u64| #[trigger] final(bytes)@.contains_key(k) == (old(bytes)@.contains_key(k) || exists|j: int|
            0 <= j < order@.len() && k == base + #[trigger] order@[j]),
        forall|j: int| 0 <= j < order@.len() ==> final(bytes)@[(base + #[trigger] order@[j]) as u64] == values@[j],
        forall|k: u64| #[trigger] old(bytes)@.contains_key(k) && !(exists|j: int| 0 <= j < order@.len() && k == base + #[trigger] order@[j])
            ==> final(bytes)@[k] == old(bytes)@[k],
{
    let ghost original = bytes@;
    let mut i: usize = 0;
    while i < order.len()
        invariant
            0 <= i <= order@.len(),
            values@.len() == order@.len(),
            forall|a: int, b: int| 0 <= a < b < order@.len() ==> order@[a] < order@[b],
            forall|j: int| 0 <= j < order@.len() ==> base + #[trigger] order@[j] <= u64::MAX,
            forall|k: u64| #[trigger] bytes@.contains_key(k) == (original.contains_key(k) || exists|j: int|
                0 <= j < i && k == base + #[trigger] order@[j]),
            forall|j: int| 0 <= j < i ==> bytes@[(base + #[trigger] order@[j]) as u64] == values@[j],
            forall|k: u64| #[trigger] original.contains_key(k) && !(exists|j: int| 0 <= j < i && k == base + #[trigger] order@[j])
                ==> bytes@[k] == original[k],
        decreases order.len() - i,
    {
        let ghost before = bytes@;
        let offset = base + order[i];
        bytes.insert(offset, values[i]);
        proof {
            assert forall|k: u64| #[trigger] bytes@.contains_key(k) == (original.contains_key(k) || exists|j: int|
                0 <= j < i + 1 && k == base + #[trigger] order@[j]) by {
                if k != offset {
                    if exists|j: int| 0 <= j < i + 1 && k == base + #[trigger] order@[j] {
                        let j = choose|j: int| 0 <= j < i + 1 && k == base + #[trigger] order@[j];
                        assert(j < i);
                    }
                } else {
                    assert(k == base + order@[i as int]);
                }
            }
            assert forall|j: int| 0 <= j < i + 1 implies bytes@[(base + #[trigger] order@[j]) as u64] == values@[j] by {
                if j < i {
                    assert(order@[j] < order@[i as int]);
                }
            }
            assert forall|k: u64| #[trigger] original.contains_key(k) && !(exists|j: int| 0 <= j < i + 1 && k == base + #[trigger] order@[j])
                implies bytes@[k] == original[k] by {
                assert(k != base + order@[i as int]);
            }
        }
        i = i + 1;
    }
}

/// Every payload's key at `base` is an address.
pub open spec fn payloads_fit(base: u64, payloads: Seq<(u64, VirMemoryAccess, RuntimeOwnedPayload)>) -> bool {
    forall|j: int| 0 <= j < payloads.len() ==> base + (#[trigger] payloads[j]).0 <= u64::MAX
}

/// Inserts `payloads` in order at `base` plus their relative offsets.
pub fn insert_payloads(
    map: &mut BTreeMap<(u64, u32, u32), RuntimeOwnedPayload>,
    base: u64,
    payloads: &Vec<(u64, VirMemoryAccess, RuntimeOwnedPayload)>,
)
    requires
        payloads_fit(base, payloads@),
    ensures
        final(map)@ == payloads_in(old(map)@, base, payloads@),
{
    let ghost original = map@;
    let mut i: usize = 0;
    while i < payloads.len()
        invariant
            0 <= i <= payloads@.len(),
            payloads_fit(base, payloads@),
            map@ == payloads_in(original, base, payloads@.take(i as int)),
        decreases payloads.len() - i,
    {
        let (relative, access, payload) = payloads[i];
        proof {
            assert(payloads@.take(i + 1).drop_last() == payloads@.take(i as int));
            assert(base + payloads@[i as int].0 <= u64::MAX);
        }
        map.insert((base + relative, access.ty.0, access.layout.0), payload);
        i = i + 1;
    }
    proof {
        assert(payloads@.take(payloads@.len() as int) == payloads@);
    }
}

/// Removes the keys of `payloads` at `base` in order.
pub fn remove_payloads(
    map: &mut BTreeMap<(u64, u32, u32), RuntimeOwnedPayload>,
    base: u64,
    payloads: &Vec<(u64, VirMemoryAccess, RuntimeOwnedPayload)>,
)
    requires
        payloads_fit(base, payloads@),
    ensures
        final(map)@ == payloads_out(old(map)@, base, payloads@),
{
    let ghost original = map@;
    let mut i: usize = 0;
    while i < payloads.len()
        invariant
            0 <= i <= payloads@.len(),
            payloads_fit(base, payloads@),
            map@ == payloads_out(original, base, payloads@.take(i as int)),
        decreases payloads.len() - i,
    {
        let (relative, access, _) = payloads[i];
        proof {
            assert(payloads@.take(i + 1).drop_last() == payloads@.take(i as int));
            assert(base + payloads@[i as int].0 <= u64::MAX);
        }
        map.remove(&(base + relative, access.ty.0, access.layout.0));
        i = i + 1;
    }
    proof {
        assert(payloads@.take(payloads@.len() as int) == payloads@);
    }
}

/// How many of `payloads` land on a key at `base` that `existing` lacks.
pub fn count_new_payloads(
    existing: &BTreeMap<(u64, u32, u32), RuntimeOwnedPayload>,
    base: u64,
    payloads: &Vec<(u64, VirMemoryAccess, RuntimeOwnedPayload)>,
) -> (r: usize)
    requires
        payloads_fit(base, payloads@),
    ensures
        r == new_payload_count(existing@, base, payloads@, payloads@.len() as int),
{
    let mut count: usize = 0;
    let mut i: usize = 0;
    while i < payloads.len()
        invariant
            0 <= i <= payloads@.len(),
            payloads_fit(base, payloads@),
            count == new_payload_count(existing@, base, payloads@, i as int),
            count <= i,
        decreases payloads.len() - i,
    {
        let (relative, access, _) = payloads[i];
        proof {
            assert(base + payloads@[i as int].0 <= u64::MAX);
        }
        if !existing.contains_key(&(base + relative, access.ty.0, access.layout.0)) {
            count = count + 1;
        }
        i = i + 1;
    }
    count
}

/// How many of the first `i` payloads hold authority over `loan`.
pub open spec fn alias_count(payloads: Seq<(u64, VirMemoryAccess, RuntimeOwnedPayload)>, i: int, loan: VirLoanId) -> nat
    decreases i,
{
    if i <= 0 {
        0
    } else {
        alias_count(payloads, i - 1, loan) + if payloads[i - 1].2.loan_authority is Some && payloads[i - 1].2.loan_authority->0.loan
            == loan {
            1nat
        } else {
            0nat
        }
    }
}

/// The alias tokens a copy hands to the first `i` payloads that hold
/// authority over `loan`: the `j`-th payload gets token `next + j`.
pub open spec fn copy_tokens(payloads: Seq<(u64, VirMemoryAccess, RuntimeOwnedPayload)>, i: int, loan: VirLoanId, next: u64) -> Set<
    u64,
> {
    Set::new(
        |t: u64|
            exists|j: int|
                0 <= j < i && (#[trigger] payloads[j]).2.loan_authority is Some && payloads[j].2.loan_authority->0.loan == loan && t == next + j,
    )
}

/// `after` is `before` with one fresh alias for each of the first `i`
/// payloads, in order, on the loan it holds authority over.
pub open spec fn copy_aliases_added(
    after: RuntimeLoanShadow,
    before: RuntimeLoanShadow,
    payloads: Seq<(u64, VirMemoryAccess, RuntimeOwnedPayload)>,
    i: int,
) -> bool {
    &&& after.spec_next_authority() == before.spec_next_authority() + i
    &&& after.spec_next_dynamic_loan() == before.spec_next_dynamic_loan()
    &&& forall|x: VirLoanId| #[trigger] before.spec_loan(x) is None ==> after.spec_loan(x) is None
    &&& forall|x: VirLoanId| #[trigger] before.spec_loan(x) matches Some(l) ==> after.spec_loan(x) matches Some(m) && loan_with(
        m,
        l,
        l.activity,
        l.authorities@.union(copy_tokens(payloads, i, x, before.spec_next_authority())),
    ) && m.authorities@.len() == l.authorities@.len() + alias_count(payloads, i, x)
}

/// Why copying payload `i` refuses, after the aliases of the payloads
/// before it were added to `before`: it must be a shared reference whose
/// authority the loan still grants and whose loan has room for one more
/// alias.
pub open spec fn copy_payload_fault(
    memory: VirMemorySchema,
    before: RuntimeLoanShadow,
    payloads: Seq<(u64, VirMemoryAccess, RuntimeOwnedPayload)>,
    i: int,
    access: VirMemoryAccess,
    limits: RuntimeLoanLimits,
) -> Option<VirExecutionErrorKind> {
    let (_, leaf_access, payload) = payloads[i];
    match memory.spec_kind(leaf_access.ty) {
        Some(VirMemoryTypeKind::Pointer { kind, .. }) => if kind == VirPointerKind::Reference {
            match payload.loan_authority {
                None => Some(VirExecutionErrorKind::InvalidRuntimeState),
                Some(a) => match before.spec_loan(a.loan) {
                    None => Some(VirExecutionErrorKind::MissingLoan { loan: a.loan }),
                    Some(l) => {
                        let tokens = l.authorities@.union(copy_tokens(payloads, i, a.loan, before.spec_next_authority()));
                        if l.activity != RuntimeLoanActivity::Active || l.kind != VirLoanKind::Shared || l.allocation
                            != payload.pointer.allocation || l.pointee != payload.pointer.access || !tokens.contains(a.token) {
                            Some(VirExecutionErrorKind::LoanAuthorityMismatch { loan: a.loan, permission: VirValueId(u32::MAX) })
                        } else if l.authorities@.len() + alias_count(payloads, i, a.loan) >= limits.aliases_per_loan {
                            Some(VirExecutionErrorKind::LoanAliasLimitExceeded { loan: a.loan, limit: limits.aliases_per_loan })
                        } else if before.spec_next_authority() + i >= u64::MAX {
                            Some(VirExecutionErrorKind::ActiveLoanLimitExceeded { limit: usize::MAX })
                        } else {
                            None
                        }
                    },
                },
            }
        } else {
            Some(VirExecutionErrorKind::UnsupportedObjectEffectType { access })
        },
        _ => Some(VirExecutionErrorKind::InvalidRuntimeState),
    }
}

/// Index of the first of the first `n` payloads whose copy refuses.
pub open spec fn copy_fault_index(
    memory: VirMemorySchema,
    before: RuntimeLoanShadow,
    payloads: Seq<(u64, VirMemoryAccess, RuntimeOwnedPayload)>,
    n: int,
    access: VirMemoryAccess,
    limits: RuntimeLoanLimits,
) -> Option<int>
    decreases n,
{
    if n <= 0 {
        None
    } else {
        match copy_fault_index(memory, before, payloads, n - 1, access, limits) {
            Some(j) => Some(j),
            None => if copy_payload_fault(memory, before, payloads, n - 1, access, limits) is Some {
                Some(n - 1)
            } else {
                None
            },
        }
    }
}

/// `after` holds the payloads of `before` with each authority replaced by
/// the fresh alias a copy hands it.
pub open spec fn copied_payloads(
    after: Seq<(u64, VirMemoryAccess, RuntimeOwnedPayload)>,
    before: Seq<(u64, VirMemoryAccess, RuntimeOwnedPayload)>,
    next: u64,
) -> bool {
    &&& after.len() == before.len()
    &&& forall|j: int| 0 <= j < before.len() ==> {
        let (r, a, p) = #[trigger] before[j];
        after[j] == (r, a, RuntimeOwnedPayload {
            pointer: p.pointer,
            permission: p.permission,
            loan_authority: Some(RuntimeLoanAuthority { loan: p.loan_authority->0.loan, token: (next + j) as u64 }),
        })
    }
}

/// Hands every copied payload a fresh alias of the shared loan it holds
/// authority over; only shared references can be copied.
pub fn alias_copied_payloads(
    memory: &VirMemorySchema,
    loan_shadow: &mut RuntimeLoanShadow,
    payloads: &mut Vec<(u64, VirMemoryAccess, RuntimeOwnedPayload)>,
    access: VirMemoryAccess,
    limits: RuntimeLoanLimits,
    source_span: ByteSpan,
) -> (r: Result<(), VirExecutionError>)
    requires
        old(loan_shadow).shadow_inv(),
    ensures
        final(loan_shadow).shadow_inv(),
        match copy_fault_index(*memory, *old(loan_shadow), old(payloads)@, old(payloads)@.len() as int, access, limits) {
            Some(i) => {
                &&& r matches Err(e) && e.spec_kind() == copy_payload_fault(*memory, *old(loan_shadow), old(payloads)@, i, access, limits)->0
                &&& copy_aliases_added(*final(loan_shadow), *old(loan_shadow), old(payloads)@, i)
            },
            None => {
                &&& r is Ok
                &&& copy_aliases_added(*final(loan_shadow), *old(loan_shadow), old(payloads)@, old(payloads)@.len() as int)
                &&& copied_payloads(final(payloads)@, old(payloads)@, old(loan_shadow).spec_next_authority())
            },
        },
{
    let ghost s0 = *loan_shadow;
    let ghost p0 = payloads@;
    let ghost n = p0.len() as int;
    proof {
        assert forall|x: VirLoanId| #[trigger] s0.spec_loan(x) is Some implies s0.spec_loan(x)->0.authorities@.union(
            copy_tokens(p0, 0, x, s0.spec_next_authority()),
        ) == s0.spec_loan(x)->0.authorities@ by {
            assert(s0.spec_loan(x)->0.authorities@.union(copy_tokens(p0, 0, x, s0.spec_next_authority())) =~= s0.spec_loan(x)->0.authorities@);
        }
    }
    let mut i: usize = 0;
    while i < payloads.len()
        invariant
            0 <= i <= payloads@.len(),
            payloads@.len() == n,
            n == p0.len(),
            s0 == *old(loan_shadow),
            p0 == old(payloads)@,
            loan_shadow.shadow_inv(),
            copy_aliases_added(*loan_shadow, s0, p0, i as int),
            copy_fault_index(*memory, s0, p0, i as int, access, limits) is None,
            forall|j: int| i <= j < n ==> #[trigger] payloads@[j] == p0[j],
            forall|j: int| 0 <= j < i ==> {
                let (rel, acc, p) = #[trigger] p0[j];
                payloads@[j] == (rel, acc, RuntimeOwnedPayload {
                    pointer: p.pointer,
                    permission: p.permission,
                    loan_authority: Some(RuntimeLoanAuthority { loan: p.loan_authority->0.loan, token: (s0.spec_next_authority() + j) as u64 }),
                })
            },
        decreases n - i,
    {
        let (relative, leaf_access, payload) = payloads[i];
        let ghost si = *loan_shadow;
        assert(p0[i as int] == (relative, leaf_access, payload));
        let is_reference = match memory.kind(leaf_access.ty) {
            Some(VirMemoryTypeKind::Pointer { kind, .. }) => match kind {
                VirPointerKind::Reference => true,
                _ => {
                    proof {
                        assert(copy_payload_fault(*memory, s0, p0, i as int, access, limits) == Some(
                            VirExecutionErrorKind::UnsupportedObjectEffectType { access },
                        ));
                        lemma_copy_fault_stays(*memory, s0, p0, i as int, n, access, limits);
                    }
                    return Err(error(VirExecutionErrorKind::UnsupportedObjectEffectType { access }, source_span));
                },
            },
            _ => {
                proof {
                    lemma_copy_fault_stays(*memory, s0, p0, i as int, n, access, limits);
                }
                return Err(error(VirExecutionErrorKind::InvalidRuntimeState, source_span));
            },
        };
        let authority = match payload.loan_authority {
            Some(a) => a,
            None => {
                proof {
                    lemma_copy_fault_stays(*memory, s0, p0, i as int, n, access, limits);
                }
                return Err(error(VirExecutionErrorKind::InvalidRuntimeState, source_span));
            },
        };
        proof {
            lemma_refusal_after_copies(s0, si, p0, i as int, authority, payload.pointer, limits);
        }
        let fresh = loan_shadow.alias_stored(authority, payload.pointer, leaf_access, limits, source_span);
        let fresh = match fresh {
            Ok(a) => a,
            Err(e) => {
                proof {
                    lemma_copy_fault_stays(*memory, s0, p0, i as int, n, access, limits);
                }
                return Err(e);
            },
        };
        proof {
            lemma_one_more_copy(s0, si, *loan_shadow, p0, i as int, authority.loan);
        }
        payloads.set(i, (relative, leaf_access, RuntimeOwnedPayload {
            pointer: payload.pointer,
            permission: payload.permission,
            loan_authority: Some(fresh),
        }));
        i = i + 1;
    }
    Ok(())
}

/// A refusal among the first `n` payloads is the first among more.
pub proof fn lemma_copy_fault_stays(
    memory: VirMemorySchema,
    before: RuntimeLoanShadow,
    payloads: Seq<(u64, VirMemoryAccess, RuntimeOwnedPayload)>,
    n: int,
    m: int,
    access: VirMemoryAccess,
    limits: RuntimeLoanLimits,
)
    requires
        0 <= n < m,
        copy_fault_index(memory, before, payloads, n, access, limits) is None,
        copy_payload_fault(memory, before, payloads, n, access, limits) is Some,
    ensures
        copy_fault_index(memory, before, payloads, m, access, limits) == Some(n),
    decreases m - n,
{
    if n + 1 < m {
        lemma_copy_fault_stays(memory, before, payloads, n, m - 1, access, limits);
    }
}

/// After the aliases of the first `i` payloads, the shadow refuses the
/// next alias exactly as `copy_payload_fault` says.
pub proof fn lemma_refusal_after_copies(
    before: RuntimeLoanShadow,
    now: RuntimeLoanShadow,
    payloads: Seq<(u64, VirMemoryAccess, RuntimeOwnedPayload)>,
    i: int,
    authority: RuntimeLoanAuthority,
    pointer: VirRuntimePointer,
    limits: RuntimeLoanLimits,
)
    requires
        copy_aliases_added(now, before, payloads, i),
    ensures
        now.alias_stored_refusal(authority, pointer, limits) == match before.spec_loan(authority.loan) {
            None => Some(VirExecutionErrorKind::MissingLoan { loan: authority.loan }),
            Some(l) => {
                let tokens = l.authorities@.union(copy_tokens(payloads, i, authority.loan, before.spec_next_authority()));
                if l.activity != RuntimeLoanActivity::Active || l.kind != VirLoanKind::Shared || l.allocation != pointer.allocation
                    || l.pointee != pointer.access || !tokens.contains(authority.token) {
                    Some(VirExecutionErrorKind::LoanAuthorityMismatch { loan: authority.loan, permission: VirValueId(u32::MAX) })
                } else if l.authorities@.len() + alias_count(payloads, i, authority.loan) >= limits.aliases_per_loan {
                    Some(VirExecutionErrorKind::LoanAliasLimitExceeded { loan: authority.loan, limit: limits.aliases_per_loan })
                } else if before.spec_next_authority() + i >= u64::MAX {
                    Some(VirExecutionErrorKind::ActiveLoanLimitExceeded { limit: usize::MAX })
                } else {
                    None
                }
            },
        },
{
    if before.spec_loan(authority.loan) is None {
        assert(now.spec_loan(authority.loan) is None);
    } else {
        assert(now.spec_loan(authority.loan) is Some);
    }
}

/// One more alias keeps the copy bookkeeping.
pub proof fn lemma_one_more_copy(
    before: RuntimeLoanShadow,
    now: RuntimeLoanShadow,
    after: RuntimeLoanShadow,
    payloads: Seq<(u64, VirMemoryAccess, RuntimeOwnedPayload)>,
    i: int,
    loan: VirLoanId,
)
    requires
        0 <= i < payloads.len(),
        now.shadow_inv(),
        copy_aliases_added(now, before, payloads, i),
        payloads[i].2.loan_authority matches Some(a) && a.loan == loan,
        after.alias_added(&now, loan, now.spec_next_authority()),
    ensures
        copy_aliases_added(after, before, payloads, i + 1),
{
    let next = before.spec_next_authority();
    let token = now.spec_next_authority();
    assert forall|x: VirLoanId| #[trigger] before.spec_loan(x) is Some implies after.spec_loan(x) is Some && loan_with(
        after.spec_loan(x)->0,
        before.spec_loan(x)->0,
        before.spec_loan(x)->0.activity,
        before.spec_loan(x)->0.authorities@.union(copy_tokens(payloads, i + 1, x, next)),
    ) && after.spec_loan(x)->0.authorities@.len() == before.spec_loan(x)->0.authorities@.len() + alias_count(payloads, i + 1, x) by {
        let l = before.spec_loan(x)->0;
        let mid = now.spec_loan(x)->0;
        let fin = after.spec_loan(x)->0;
        if x == loan {
            assert(copy_tokens(payloads, i + 1, x, next) =~= copy_tokens(payloads, i, x, next).insert(token)) by {
                assert(token == next + i);
            }
            assert(!mid.authorities@.contains(token)) by {
                assert(loan_wf(mid, now.spec_next_authority()));
            }
            assert(fin.authorities@ == mid.authorities@.insert(token));
            assert(fin.authorities@ =~= l.authorities@.union(copy_tokens(payloads, i + 1, x, next)));
            assert(mid.authorities@.finite());
            assert(fin.authorities@.len() == mid.authorities@.len() + 1);
            assert(alias_count(payloads, i + 1, x) == alias_count(payloads, i, x) + 1);
        } else {
            assert(copy_tokens(payloads, i + 1, x, next) =~= copy_tokens(payloads, i, x, next));
            assert(fin == mid);
            assert(alias_count(payloads, i + 1, x) == alias_count(payloads, i, x));
        }
    }
}

/// Adds every element of `extra` to `set`.
pub fn union_into(set: &mut BTreeSet<u64>, extra: &BTreeSet<u64>)
    ensures
        final(set)@ == old(set)@.union(extra@),
{
    let ghost original = set@;
    let order = offsets_in_order(extra);
    let mut k: usize = 0;
    while k < order.len()
        invariant
            0 <= k <= order@.len(),
            forall|o: u64| #[trigger] set@.contains(o) <==> original.contains(o) || exists|j: int|
                0 <= j < k && o == #[trigger] order@[j],
        decreases order.len() - k,
    {
        set.insert(order[k]);
        k = k + 1;
    }
    proof {
        assert forall|o: u64| #[trigger] set@.contains(o) <==> original.union(extra@).contains(o) by {
            if extra@.contains(o) {
                assert(order@.to_set().contains(o));
                assert(order@.contains(o));
            }
            if exists|j: int| 0 <= j < order@.len() && o == #[trigger] order@[j] {
                let j = choose|j: int| 0 <= j < order@.len() && o == #[trigger] order@[j];
                assert(order@.to_set().contains(order@[j]));
            }
        }
        assert(set@ =~= original.union(extra@));
    }
}

/// Whether every offset of `offsets` shifted by `base` is an address.
pub fn all_fit(base: u64, offsets: &BTreeSet<u64>) -> (r: bool)
    ensures
        r == fits_after(base, offsets@),
{
    let order = offsets_in_order(offsets);
    let mut i: usize = 0;
    while i < order.len()
        invariant
            0 <= i <= order@.len(),
            order@.to_set() == offsets@,
            forall|j: int| 0 <= j < i ==> base + #[trigger] order@[j] <= u64::MAX,
        decreases order.len() - i,
    {
        if base.checked_add(order[i]).is_none() {
            proof {
                assert(order@.to_set().contains(order@[i as int]));
            }
            return false;
        }
        i = i + 1;
    }
    proof {
        assert forall|o: u64| offsets@.contains(o) implies base + o <= u64::MAX by {
            assert(order@.to_set().contains(o));
            assert(order@.contains(o));
        }
    }
    true
}

/// Whether every payload key shifted by `base` is an address.
pub fn payloads_all_fit(base: u64, payloads: &Vec<(u64, VirMemoryAccess, RuntimeOwnedPayload)>) -> (r: bool)
    ensures
        r == payloads_fit(base, payloads@),
{
    let mut i: usize = 0;
    while i < payloads.len()
        invariant
            0 <= i <= payloads@.len(),
            forall|j: int| 0 <= j < i ==> base + (#[trigger] payloads@[j]).0 <= u64::MAX,
        decreases payloads.len() - i,
    {
        if base.checked_add(payloads[i].0).is_none() {
            return false;
        }
        i = i + 1;
    }
    true
}

/// The least offset of `offsets` whose byte past `base` is initialized.
pub open spec fn least_set(offsets: Set<u64>, bytes: Map<u64, u8>, base: u64) -> Option<u64> {
    if exists|o: u64| offsets.contains(o) && #[trigger] bytes.contains_key((base + o) as u64) {
        Some(
            choose|o: u64|
                offsets.contains(o) && #[trigger] bytes.contains_key((base + o) as u64) && forall|p: u64|
                    offsets.contains(p) && p < o ==> !#[trigger] bytes.contains_key((base + p) as u64),
        )
    } else {
        None
    }
}

/// The least offset of `offsets` whose byte past `base` is initialized.
pub fn find_set(bytes: &BTreeMap<u64, u8>, base: u64, offsets: &BTreeSet<u64>) -> (r: Option<u64>)
    requires
        fits_after(base, offsets@),
    ensures
        r == least_set(offsets@, bytes@, base),
        r matches Some(o) ==> offsets@.contains(o),
{
    let order = offsets_in_order(offsets);
    let mut i: usize = 0;
    while i < order.len()
        invariant
            0 <= i <= order@.len(),
            order@.to_set() == offsets@,
            fits_after(base, offsets@),
            forall|a: int, b: int| 0 <= a < b < order@.len() ==> order@[a] < order@[b],
            forall|j: int| 0 <= j < i ==> !bytes@.contains_key((base + #[trigger] order@[j]) as u64),
        decreases order.len() - i,
    {
        proof {
            assert(order@.to_set().contains(order@[i as int]));
        }
        if bytes.contains_key(&(base + order[i])) {
            proof {
                let o = order@[i as int];
                assert forall|p: u64| offsets@.contains(p) && p < o implies !#[trigger] bytes@.contains_key((base + p) as u64) by {
                    assert(order@.to_set().contains(p));
                    assert(order@.contains(p));
                    let j = choose|j: int| 0 <= j < order@.len() && order@[j] == p;
                    if j >= i {
                        if j > i {
                            assert(order@[i as int] < order@[j]);
                        }
                    }
                }
                let w = choose|w: u64|
                    offsets@.contains(w) && #[trigger] bytes@.contains_key((base + w) as u64) && forall|p: u64|
                        offsets@.contains(p) && p < w ==> !#[trigger] bytes@.contains_key((base + p) as u64);
                if w < o {
                    assert(!bytes@.contains_key((base + w) as u64));
                } else if o < w {
                    assert(!bytes@.contains_key((base + o) as u64));
                }
            }
            return Some(order[i]);
        }
        i = i + 1;
    }
    proof {
        assert(least_set(offsets@, bytes@, base) is None) by {
            if exists|o: u64| offsets@.contains(o) && #[trigger] bytes@.contains_key((base + o) as u64) {
                let o = choose|o: u64| offsets@.contains(o) && #[trigger] bytes@.contains_key((base + o) as u64);
                assert(order@.to_set().contains(o));
                assert(order@.contains(o));
            }
        }
    }
    None
}

/// The payloads a copy hands on: each holds a fresh alias, the `j`-th the
/// token `next + j`.
pub open spec fn copies_of(payloads: Seq<(u64, VirMemoryAccess, RuntimeOwnedPayload)>, next: u64) -> Seq<
    (u64, VirMemoryAccess, RuntimeOwnedPayload),
> {
    Seq::new(
        payloads.len(),
        |j: int|
            (payloads[j].0, payloads[j].1, RuntimeOwnedPayload {
                pointer: payloads[j].2.pointer,
                permission: payloads[j].2.permission,
                loan_authority: Some(RuntimeLoanAuthority { loan: payloads[j].2.loan_authority->0.loan, token: (next + j) as u64 }),
            }),
    )
}

/// `after` is `before` once the active value of the object of shape `shape`
/// at `source` has been transferred to `destination`:
/// - the source value was complete and its payloads found; a copy handed
///   each payload a fresh alias, a move left the loans alone;
/// - an initialized destination held none of the value's bytes, a replaced
///   one held a complete value, whose active bytes are retired;
/// - the destination shows the source's active bytes and payloads, and a
///   move retires them at the source.
pub open spec fn transfer_done(
    before: &Interpreter,
    after: &Interpreter,
    loans_before: RuntimeLoanShadow,
    loans_after: RuntimeLoanShadow,
    memory: VirMemorySchema,
    destination: VirRuntimePointer,
    source: VirRuntimePointer,
    shape: VirObjectShape,
    destination_mode: VirObjectDestinationMode,
    source_mode: VirObjectSourceMode,
) -> bool {
    let d = destination.allocation;
    let s = source.allocation;
    let db = destination.offset_bytes;
    let sb = source.offset_bytes;
    let moved = before.active_offsets(memory, source, shape);
    let found = before.payloads_from(memory, source, shape, shape.spec_resource_leaves().len() as int);
    let payloads = found->Ok_0;
    let handed = if source_mode == VirObjectSourceMode::Copy {
        copies_of(payloads, loans_before.spec_next_authority())
    } else {
        payloads
    };
    let retired = if destination_mode == VirObjectDestinationMode::Initialize {
        Set::<u64>::empty()
    } else {
        before.active_offsets(memory, destination, shape)
    };
    let before_d = before.allocations@[d];
    let before_s = before.allocations@[s];
    let in_bytes = bytes_moved_in(before_d.bytes@, before_s.bytes@, db, sb, retired, moved);
    let in_payloads = payloads_in(before_d.resource_payloads@, db, handed);
    &&& before.offsets_fault(memory, source, shape) is None
    &&& before.value_fault(memory, source, shape, moved) is None
    &&& found is Ok
    &&& source_mode == VirObjectSourceMode::Move ==> loans_after.same_state(&loans_before)
    &&& source_mode == VirObjectSourceMode::Copy ==> copy_aliases_added(loans_after, loans_before, payloads, payloads.len() as int)
    &&& destination_mode == VirObjectDestinationMode::Initialize ==> least_set(moved, before_d.bytes@, db) is None
    &&& destination_mode == VirObjectDestinationMode::Replace ==> before.offsets_fault(memory, destination, shape) is None
        && before.value_fault(memory, destination, shape, retired) is None
    &&& after.allocations@.dom() == before.allocations@.dom()
    &&& forall|id: u64| id != d && id != s && #[trigger] before.allocations@.contains_key(id) ==> after.allocations@[id]
        == before.allocations@[id]
    &&& after.allocations@[d].bytes@ == (if source_mode == VirObjectSourceMode::Move && d == s {
        in_bytes.remove_keys(shifted(sb, moved))
    } else {
        in_bytes
    })
    &&& after.allocations@[d].resource_payloads@ == (if source_mode == VirObjectSourceMode::Move && d == s {
        payloads_out(in_payloads, sb, payloads)
    } else {
        in_payloads
    })
    &&& d != s ==> after.allocations@[s].bytes@ == (if source_mode == VirObjectSourceMode::Move {
        before_s.bytes@.remove_keys(shifted(sb, moved))
    } else {
        before_s.bytes@
    })
    &&& d != s ==> after.allocations@[s].resource_payloads@ == (if source_mode == VirObjectSourceMode::Move {
        payloads_out(before_s.resource_payloads@, sb, payloads)
    } else {
        before_s.resource_payloads@
    })
    &&& same_extent(after.allocations@[d], before_d)
    &&& same_extent(after.allocations@[s], before_s)
    &&& after.config == before.config
    &&& after.steps == before.steps
    &&& after.allocation_instances == before.allocation_instances
}

/// The allocations agree on extent, alignment, kind and liveness.
pub open spec fn same_extent(a: Allocation, b: Allocation) -> bool {
    &&& a.size_bytes == b.size_bytes
    &&& a.alignment == b.alignment
    &&& a.kind == b.kind
    &&& a.live == b.live
}

/// What a transfer's destination check gives once the retired offsets
/// `retired` are known: all offsets and payload keys must fit after both
/// bases, and the destination must have room for the payloads it gains.
pub open spec fn destination_room(
    s: Interpreter,
    destination: VirRuntimePointer,
    source: VirRuntimePointer,
    payloads: Seq<(u64, VirMemoryAccess, RuntimeOwnedPayload)>,
    retired: Set<u64>,
) -> Result<Set<u64>, VirExecutionErrorKind> {
    let d = destination.allocation;
    if !fits_after(destination.offset_bytes, retired) || !payloads_fit(destination.offset_bytes, payloads) || !payloads_fit(
        source.offset_bytes,
        payloads,
    ) {
        Err(VirExecutionErrorKind::InvalidRuntimeState)
    } else if !s.allocations@.contains_key(d) {
        Err(VirExecutionErrorKind::InvalidRuntimeState)
    } else {
        let existing = s.allocations@[d].resource_payloads@.len();
        let additional = new_payload_count(s.allocations@[d].resource_payloads@, destination.offset_bytes, payloads, payloads.len() as int);
        if existing > VIR_INTERPRETER_MAX_RESOURCE_PAYLOADS || additional > VIR_INTERPRETER_MAX_RESOURCE_PAYLOADS - existing {
            Err(VirExecutionErrorKind::ResourcePayloadLimitExceeded { allocation: d, limit: VIR_INTERPRETER_MAX_RESOURCE_PAYLOADS })
        } else {
            Ok(retired)
        }
    }
}

/// The destination offsets a transfer retires, or the fault that refuses
/// the destination.
pub open spec fn destination_outcome(
    s: Interpreter,
    memory: VirMemorySchema,
    destination: VirRuntimePointer,
    source: VirRuntimePointer,
    shape: VirObjectShape,
    moved: Set<u64>,
    payloads: Seq<(u64, VirMemoryAccess, RuntimeOwnedPayload)>,
    destination_mode: VirObjectDestinationMode,
) -> Result<Set<u64>, VirExecutionErrorKind> {
    let d = destination.allocation;
    match destination_mode {
        VirObjectDestinationMode::Initialize => if !fits_after(destination.offset_bytes, moved) || !s.allocations@.contains_key(d) {
            Err(VirExecutionErrorKind::InvalidRuntimeState)
        } else {
            match least_set(moved, s.allocations@[d].bytes@, destination.offset_bytes) {
                Some(relative) => Err(VirExecutionErrorKind::InitializeAlreadyInitialized {
                    allocation: d,
                    offset_bytes: (destination.offset_bytes + relative) as u64,
                }),
                None => destination_room(s, destination, source, payloads, moved),
            }
        },
        VirObjectDestinationMode::Replace => match s.offsets_fault(memory, destination, shape) {
            Some(k) => Err(k),
            None => {
                let active = s.active_offsets(memory, destination, shape);
                match s.value_fault(memory, destination, shape, active) {
                    Some(k) => Err(k),
                    None => destination_room(s, destination, source, payloads, active.union(moved)),
                }
            },
        },
    }
}

/// The fault that refuses the source of a transfer of an object of shape
/// `shape`, before any payload is copied.
pub open spec fn source_fault(
    s: Interpreter,
    memory: VirMemorySchema,
    destination: VirRuntimePointer,
    source: VirRuntimePointer,
    shape: VirObjectShape,
    destination_mode: VirObjectDestinationMode,
    source_mode: VirObjectSourceMode,
) -> Option<VirExecutionErrorKind> {
    let size = shape.spec_size_bytes();
    if size > s.config.max_object_effect_bytes {
        Some(VirExecutionErrorKind::ObjectEffectSizeLimitExceeded { requested: size, limit: s.config.max_object_effect_bytes })
    } else if !transfer_supported(memory, shape, destination_mode, source_mode) {
        Some(VirExecutionErrorKind::UnsupportedObjectEffectType { access: shape.spec_access() })
    } else if destination.allocation == source.allocation && (destination.offset_bytes + size > u64::MAX || source.offset_bytes
        + size > u64::MAX || (destination.offset_bytes < source.offset_bytes + size && source.offset_bytes < destination.offset_bytes
        + size)) {
        Some(VirExecutionErrorKind::OverlappingObjectTransfer {
            allocation: source.allocation,
            destination_offset_bytes: destination.offset_bytes,
            source_offset_bytes: source.offset_bytes,
            size_bytes: size,
        })
    } else if s.offsets_fault(memory, source, shape) is Some {
        s.offsets_fault(memory, source, shape)
    } else if s.value_fault(memory, source, shape, s.active_offsets(memory, source, shape)) is Some {
        s.value_fault(memory, source, shape, s.active_offsets(memory, source, shape))
    } else {
        match s.payloads_from(memory, source, shape, shape.spec_resource_leaves().len() as int) {
            Err(k) => Some(k),
            Ok(_) => None,
        }
    }
}

/// What the source of a transfer of an object of shape `shape` gives: the
/// shape, the active offsets and the payloads handed on (a copy aliases each
/// one afresh), or the fault that refuses it; `before` and `after` are the
/// loan shadow around it.
#[verifier::opaque]
pub open spec fn source_result(
    s: Interpreter,
    memory: VirMemorySchema,
    before: RuntimeLoanShadow,
    after: RuntimeLoanShadow,
    limits: RuntimeLoanLimits,
    destination: VirRuntimePointer,
    source: VirRuntimePointer,
    access: VirMemoryAccess,
    destination_mode: VirObjectDestinationMode,
    source_mode: VirObjectSourceMode,
    shape: VirObjectShape,
    r: Result<(VirObjectShape, BTreeSet<u64>, Vec<(u64, VirMemoryAccess, RuntimeOwnedPayload)>), VirExecutionError>,
) -> bool {
    match source_fault(s, memory, destination, source, shape, destination_mode, source_mode) {
        Some(k) => r matches Err(e) && e.spec_kind() == k && after == before,
        None => {
            let found = s.payloads_from(memory, source, shape, shape.spec_resource_leaves().len() as int)->Ok_0;
            let active = s.active_offsets(memory, source, shape);
            if source_mode == VirObjectSourceMode::Move {
                &&& r matches Ok((sh, moved, payloads)) && sh == shape && moved@ == active && payloads@ == found
                &&& after == before
            } else {
                match copy_fault_index(memory, before, found, found.len() as int, access, limits) {
                    Some(i) => r matches Err(e) && e.spec_kind() == copy_payload_fault(memory, before, found, i, access, limits)->0
                        && copy_aliases_added(after, before, found, i),
                    None => r matches Ok((sh, moved, payloads)) && sh == shape && moved@ == active && payloads@ == copies_of(
                        found,
                        before.spec_next_authority(),
                    ) && copy_aliases_added(after, before, found, found.len() as int),
                }
            }
        },
    }
}

/// The fault that refuses a transfer of an object of shape `shape` after
/// both accesses pass: the source's, a refused copy alias, or the
/// destination's; `None` where the transfer proceeds.
pub open spec fn transfer_fault(
    s: Interpreter,
    memory: VirMemorySchema,
    before: RuntimeLoanShadow,
    limits: RuntimeLoanLimits,
    destination: VirRuntimePointer,
    source: VirRuntimePointer,
    access: VirMemoryAccess,
    destination_mode: VirObjectDestinationMode,
    source_mode: VirObjectSourceMode,
    shape: VirObjectShape,
) -> Option<VirExecutionErrorKind> {
    match source_fault(s, memory, destination, source, shape, destination_mode, source_mode) {
        Some(k) => Some(k),
        None => {
            let found = s.payloads_from(memory, source, shape, shape.spec_resource_leaves().len() as int)->Ok_0;
            let copy_fault = if source_mode == VirObjectSourceMode::Copy {
                match copy_fault_index(memory, before, found, found.len() as int, access, limits) {
                    Some(i) => copy_payload_fault(memory, before, found, i, access, limits),
                    None => None,
                }
            } else {
                None
            };
            if copy_fault is Some {
                copy_fault
            } else {
                let handed = if source_mode == VirObjectSourceMode::Move { found } else { copies_of(found, before.spec_next_authority()) };
                match destination_outcome(s, memory, destination, source, shape, s.active_offsets(memory, source, shape), handed, destination_mode) {
                    Err(k) => Some(k),
                    Ok(_) => None,
                }
            }
        },
    }
}

/// What registering the transferred object at `destination`, then at
/// `source`, gives from the state `s` (registration leaves the bytes'
/// registries as they were before the transfer): the destination's refusal,
/// else the source's refusal in the registry the first registration left.
pub open spec fn transfer_registration(s: Interpreter, destination: VirRuntimePointer, source: VirRuntimePointer, shape: VirObjectShape) -> Option<
    VirExecutionErrorKind,
> {
    let d = RuntimeObject { offset_bytes: destination.offset_bytes, access: destination.access };
    let o = RuntimeObject { offset_bytes: source.offset_bytes, access: source.access };
    let first = s.allocations@[destination.allocation].objects@;
    let second = s.allocations@[source.allocation].objects@;
    match registration_refusal(s, destination, shape) {
        Some(k) => Some(k),
        None => if shape.spec_variants().len() > 0 && destination.allocation == source.allocation && !first.contains(d) {
            if !first.contains(o) && o != d && first.len() + 1 >= VIR_INTERPRETER_MAX_OBJECT_ROOTS {
                Some(VirExecutionErrorKind::ObjectRootLimitExceeded { allocation: source.allocation, limit: VIR_INTERPRETER_MAX_OBJECT_ROOTS })
            } else {
                None
            }
        } else {
            registration_refusal(s, source, shape)
        },
    }
}

/// `r` is what a transfer of an object of shape `shape` gives: its fault,
/// else success unless a registration is refused.
pub open spec fn transfer_result(
    s: Interpreter,
    memory: VirMemorySchema,
    before: RuntimeLoanShadow,
    limits: RuntimeLoanLimits,
    destination: VirRuntimePointer,
    source: VirRuntimePointer,
    access: VirMemoryAccess,
    destination_mode: VirObjectDestinationMode,
    source_mode: VirObjectSourceMode,
    shape: VirObjectShape,
    r: Result<(), VirExecutionError>,
) -> bool {
    match transfer_fault(s, memory, before, limits, destination, source, access, destination_mode, source_mode, shape) {
        Some(k) => r matches Err(e) && e.spec_kind() == k,
        None => match transfer_registration(s, destination, source, shape) {
            None => r is Ok,
            Some(k) => r matches Err(e) && e.spec_kind() == k,
        },
    }
}

/// Some shape derived for `access` gives the transfer result `r`.
pub open spec fn transfer_witnessed(
    s: Interpreter,
    memory: VirMemorySchema,
    before: RuntimeLoanShadow,
    limits: RuntimeLoanLimits,
    destination: VirRuntimePointer,
    source: VirRuntimePointer,
    access: VirMemoryAccess,
    destination_mode: VirObjectDestinationMode,
    source_mode: VirObjectSourceMode,
    r: Result<(), VirExecutionError>,
) -> bool {
    exists|shape: VirObjectShape|
        #[trigger] shape_matches(memory, access, shape) && transfer_result(
            s,
            memory,
            before,
            limits,
            destination,
            source,
            access,
            destination_mode,
            source_mode,
            shape,
            r,
        )
}

/// The index of the first refused copy names a refused copy.
proof fn lemma_copy_fault_index_faults(
    memory: VirMemorySchema,
    before: RuntimeLoanShadow,
    payloads: Seq<(u64, VirMemoryAccess, RuntimeOwnedPayload)>,
    n: int,
    access: VirMemoryAccess,
    limits: RuntimeLoanLimits,
)
    requires
        copy_fault_index(memory, before, payloads, n, access, limits) is Some,
    ensures
        copy_payload_fault(memory, before, payloads, copy_fault_index(memory, before, payloads, n, access, limits)->0, access, limits) is Some,
    decreases n,
{
    if n > 0 && copy_fault_index(memory, before, payloads, n - 1, access, limits) is Some {
        lemma_copy_fault_index_faults(memory, before, payloads, n - 1, access, limits);
    }
}

/// A refused transfer source refuses the transfer with the same fault.
proof fn lemma_source_refusal(
    s: Interpreter,
    memory: VirMemorySchema,
    before: RuntimeLoanShadow,
    after: RuntimeLoanShadow,
    limits: RuntimeLoanLimits,
    destination: VirRuntimePointer,
    source: VirRuntimePointer,
    access: VirMemoryAccess,
    destination_mode: VirObjectDestinationMode,
    source_mode: VirObjectSourceMode,
    e: VirExecutionError,
)
    requires
        (e.spec_kind() == VirExecutionErrorKind::InvalidRuntimeState) || exists|shape: VirObjectShape|
            #[trigger] shape_matches(memory, access, shape) && source_result(
                s,
                memory,
                before,
                after,
                limits,
                destination,
                source,
                access,
                destination_mode,
                source_mode,
                shape,
                Err(e),
            ),
        shape_promised(memory, access) ==> exists|shape: VirObjectShape|
            #[trigger] shape_matches(memory, access, shape) && source_result(
                s,
                memory,
                before,
                after,
                limits,
                destination,
                source,
                access,
                destination_mode,
                source_mode,
                shape,
                Err(e),
            ),
    ensures
        (e.spec_kind() == VirExecutionErrorKind::InvalidRuntimeState && !shape_promised(memory, access)) || transfer_witnessed(
            s,
            memory,
            before,
            limits,
            destination,
            source,
            access,
            destination_mode,
            source_mode,
            Err(e),
        ),
{
    if e.spec_kind() != VirExecutionErrorKind::InvalidRuntimeState || shape_promised(memory, access) {
        let shape = choose|shape: VirObjectShape|
            #[trigger] shape_matches(memory, access, shape) && source_result(
                s,
                memory,
                before,
                after,
                limits,
                destination,
                source,
                access,
                destination_mode,
                source_mode,
                shape,
                Err(e),
            );
        reveal(source_result);
        let found = s.payloads_from(memory, source, shape, shape.spec_resource_leaves().len() as int)->Ok_0;
        if copy_fault_index(memory, before, found, found.len() as int, access, limits) is Some {
            lemma_copy_fault_index_faults(memory, before, found, found.len() as int, access, limits);
        }
        assert(transfer_result(s, memory, before, limits, destination, source, access, destination_mode, source_mode, shape, Err(e)));
    }
}

/// A successful transfer source gives the shape, offsets and payloads its
/// specification names, with no source or copy fault.
#[verifier::rlimit(60)]
proof fn lemma_source_success(
    s: Interpreter,
    memory: VirMemorySchema,
    before: RuntimeLoanShadow,
    after: RuntimeLoanShadow,
    limits: RuntimeLoanLimits,
    destination: VirRuntimePointer,
    source: VirRuntimePointer,
    access: VirMemoryAccess,
    destination_mode: VirObjectDestinationMode,
    source_mode: VirObjectSourceMode,
    shape: VirObjectShape,
    moved: BTreeSet<u64>,
    payloads: Vec<(u64, VirMemoryAccess, RuntimeOwnedPayload)>,
)
    requires
        exists|sh: VirObjectShape|
            #[trigger] shape_matches(memory, access, sh) && source_result(
                s,
                memory,
                before,
                after,
                limits,
                destination,
                source,
                access,
                destination_mode,
                source_mode,
                sh,
                Ok((shape, moved, payloads)),
            ),
    ensures
        shape_matches(memory, access, shape),
        source_fault(s, memory, destination, source, shape, destination_mode, source_mode) is None,
        moved@ == s.active_offsets(memory, source, shape),
        ({
            let found = s.payloads_from(memory, source, shape, shape.spec_resource_leaves().len() as int)->Ok_0;
            &&& source_mode == VirObjectSourceMode::Move ==> payloads@ == found
            &&& source_mode == VirObjectSourceMode::Copy ==> copy_fault_index(memory, before, found, found.len() as int, access, limits) is None
                && payloads@ == copies_of(found, before.spec_next_authority())
        }),
{
    let sh = choose|sh: VirObjectShape|
        #[trigger] shape_matches(memory, access, sh) && source_result(
            s,
            memory,
            before,
            after,
            limits,
            destination,
            source,
            access,
            destination_mode,
            source_mode,
            sh,
            Ok((shape, moved, payloads)),
        );
    reveal(source_result);
}

impl Interpreter {
    /// The shape of the transferred object, the source's active offsets and
    /// the payloads it hands on: the source value must be complete, and a
    /// copy hands every payload a fresh alias.
    fn transfer_source(
        &self,
        memory: &VirMemorySchema,
        loan_shadow: &mut RuntimeLoanShadow,
        loan_limits: RuntimeLoanLimits,
        destination: VirRuntimePointer,
        source: VirRuntimePointer,
        access: VirMemoryAccess,
        destination_mode: VirObjectDestinationMode,
        source_mode: VirObjectSourceMode,
        source_span: ByteSpan,
    ) -> (r: Result<(VirObjectShape, BTreeSet<u64>, Vec<(u64, VirMemoryAccess, RuntimeOwnedPayload)>), VirExecutionError>)
        requires
            old(loan_shadow).shadow_inv(),
        ensures
            final(loan_shadow).shadow_inv(),
            source_mode == VirObjectSourceMode::Move ==> final(loan_shadow).same_state(&*old(loan_shadow)),
            shape_promised(*memory, access) ==> exists|shape: VirObjectShape|
                #[trigger] shape_matches(*memory, access, shape) && source_result(
                    *self,
                    *memory,
                    *old(loan_shadow),
                    *final(loan_shadow),
                    loan_limits,
                    destination,
                    source,
                    access,
                    destination_mode,
                    source_mode,
                    shape,
                    r,
                ),
            (r matches Err(e) && e.spec_kind() == VirExecutionErrorKind::InvalidRuntimeState && *final(loan_shadow) == *old(
                loan_shadow,
            )) || exists|shape: VirObjectShape|
                #[trigger] shape_matches(*memory, access, shape) && source_result(
                    *self,
                    *memory,
                    *old(loan_shadow),
                    *final(loan_shadow),
                    loan_limits,
                    destination,
                    source,
                    access,
                    destination_mode,
                    source_mode,
                    shape,
                    r,
                ),
            r matches Ok((shape, moved, payloads)) ==> {
                let found = self.payloads_from(*memory, source, shape, shape.spec_resource_leaves().len() as int);
                &&& shape_matches(*memory, access, shape)
                &&& self.offsets_fault(*memory, source, shape) is None
                &&& moved@ == self.active_offsets(*memory, source, shape)
                &&& self.value_fault(*memory, source, shape, moved@) is None
                &&& found is Ok
                &&& source_mode == VirObjectSourceMode::Move ==> payloads@ == found->Ok_0
                &&& source_mode == VirObjectSourceMode::Copy ==> payloads@ == copies_of(found->Ok_0, old(loan_shadow).spec_next_authority())
                    && copy_aliases_added(*final(loan_shadow), *old(loan_shadow), found->Ok_0, found->Ok_0.len() as int)
            },
    {
        proof {
            reveal(source_result);
        }
        let shape = match memory.object_shape(access) {
            Ok(shape) => shape,
            Err(_) => return Err(error(VirExecutionErrorKind::InvalidRuntimeState, source_span)),
        };
        self.check_object_effect_size(shape.size_bytes(), source_span)?;
        ensure_runtime_object_transfer_type(memory, &shape, destination_mode, source_mode, source_span)?;
        if destination.allocation == source.allocation && half_open_ranges_overlap(
            destination.offset_bytes,
            source.offset_bytes,
            shape.size_bytes(),
        ) {
            return Err(error(VirExecutionErrorKind::OverlappingObjectTransfer {
                allocation: source.allocation,
                destination_offset_bytes: destination.offset_bytes,
                source_offset_bytes: source.offset_bytes,
                size_bytes: shape.size_bytes(),
            }, source_span));
        }
        let moved = self.active_object_offsets(memory, source, &shape, source_span)?;
        self.require_object_value(memory, source, &shape, &moved, source_span)?;
        let mut payloads = self.active_resource_payloads(memory, source, &shape, source_span)?;
        if source_mode == VirObjectSourceMode::Copy {
            let ghost found = payloads@;
            alias_copied_payloads(memory, loan_shadow, &mut payloads, access, loan_limits, source_span)?;
            proof {
                assert(payloads@ =~= copies_of(found, old(loan_shadow).spec_next_authority()));
            }
        }
        Ok((shape, moved, payloads))
    }

    /// The destination offsets a transfer clears: the moved offsets, and for
    /// a replacement the active offsets of the complete value there; an
    /// initialized destination must hold none of the moved bytes, and the
    /// destination must have room for the handed payloads.
    fn transfer_destination(
        &self,
        memory: &VirMemorySchema,
        destination: VirRuntimePointer,
        source: VirRuntimePointer,
        shape: &VirObjectShape,
        moved: &BTreeSet<u64>,
        payloads: &Vec<(u64, VirMemoryAccess, RuntimeOwnedPayload)>,
        destination_mode: VirObjectDestinationMode,
        source_span: ByteSpan,
    ) -> (r: Result<BTreeSet<u64>, VirExecutionError>)
        ensures
            match destination_outcome(*self, *memory, destination, source, *shape, moved@, payloads@, destination_mode) {
                Ok(set) => r matches Ok(retired) && retired@ == set,
                Err(k) => r matches Err(e) && e.spec_kind() == k,
            },
            r matches Ok(retired) ==> {
                let d = destination.allocation;
                &&& self.allocations@.contains_key(d)
                &&& destination_mode == VirObjectDestinationMode::Initialize ==> least_set(moved@, self.allocations@[d].bytes@,
                    destination.offset_bytes) is None && retired@ == moved@
                &&& destination_mode == VirObjectDestinationMode::Replace ==> self.offsets_fault(*memory, destination, *shape) is None
                    && self.value_fault(*memory, destination, *shape, self.active_offsets(*memory, destination, *shape)) is None
                    && retired@ == self.active_offsets(*memory, destination, *shape).union(moved@)
                &&& fits_after(destination.offset_bytes, retired@)
                &&& payloads_fit(destination.offset_bytes, payloads@)
                &&& payloads_fit(source.offset_bytes, payloads@)
            },
    {
        let mut retired = match destination_mode {
            VirObjectDestinationMode::Initialize => {
                if !all_fit(destination.offset_bytes, moved) {
                    return Err(error(VirExecutionErrorKind::InvalidRuntimeState, source_span));
                }
                let allocation = match self.allocations.get(&destination.allocation) {
                    Some(a) => a,
                    None => return Err(error(VirExecutionErrorKind::InvalidRuntimeState, source_span)),
                };
                match find_set(&allocation.bytes, destination.offset_bytes, moved) {
                    Some(relative) => {
                        return Err(error(VirExecutionErrorKind::InitializeAlreadyInitialized {
                            allocation: destination.allocation,
                            offset_bytes: destination.offset_bytes + relative,
                        }, source_span));
                    },
                    None => {},
                }
                BTreeSet::new()
            },
            VirObjectDestinationMode::Replace => {
                let offsets = self.active_object_offsets(memory, destination, shape, source_span)?;
                self.require_object_value(memory, destination, shape, &offsets, source_span)?;
                offsets
            },
        };
        union_into(&mut retired, moved);
        if !all_fit(destination.offset_bytes, &retired) || !payloads_all_fit(destination.offset_bytes, payloads)
            || !payloads_all_fit(source.offset_bytes, payloads) {
            return Err(error(VirExecutionErrorKind::InvalidRuntimeState, source_span));
        }
        let (existing, additional) = match self.allocations.get(&destination.allocation) {
            Some(a) => (a.resource_payloads.len(), count_new_payloads(&a.resource_payloads, destination.offset_bytes, payloads)),
            None => return Err(error(VirExecutionErrorKind::InvalidRuntimeState, source_span)),
        };
        if existing > VIR_INTERPRETER_MAX_RESOURCE_PAYLOADS || additional > VIR_INTERPRETER_MAX_RESOURCE_PAYLOADS - existing {
            return Err(error(VirExecutionErrorKind::ResourcePayloadLimitExceeded {
                allocation: destination.allocation,
                limit: VIR_INTERPRETER_MAX_RESOURCE_PAYLOADS,
            }, source_span));
        }
        Ok(retired)
    }
}

/// Registering objects afterwards keeps a transfer done.
pub proof fn lemma_registration_keeps_transfer(
    s0: &Interpreter,
    s1: &Interpreter,
    s2: &Interpreter,
    l0: RuntimeLoanShadow,
    l1: RuntimeLoanShadow,
    memory: VirMemorySchema,
    destination: VirRuntimePointer,
    source: VirRuntimePointer,
    shape: VirObjectShape,
    destination_mode: VirObjectDestinationMode,
    source_mode: VirObjectSourceMode,
)
    requires
        transfer_done(s0, s1, l0, l1, memory, destination, source, shape, destination_mode, source_mode),
        s2.allocations@.dom() == s1.allocations@.dom(),
        s2.config == s1.config,
        s2.steps == s1.steps,
        s2.allocation_instances == s1.allocation_instances,
        forall|id: u64| id != destination.allocation && id != source.allocation && #[trigger] s1.allocations@.contains_key(id)
            ==> s2.allocations@[id] == s1.allocations@[id],
        forall|id: u64| (id == destination.allocation || id == source.allocation) ==> {
            let a = #[trigger] s2.allocations@[id];
            let b = s1.allocations@[id];
            &&& a.bytes@ == b.bytes@
            &&& a.resource_payloads@ == b.resource_payloads@
            &&& same_extent(a, b)
        },
    ensures
        transfer_done(s0, s2, l0, l1, memory, destination, source, shape, destination_mode, source_mode),
{
    let d = destination.allocation;
    let s = source.allocation;
    assert(s2.allocations@[d].bytes@ == s1.allocations@[d].bytes@);
    assert(s2.allocations@[s].bytes@ == s1.allocations@[s].bytes@);
    assert forall|id: u64| id != d && id != s && #[trigger] s0.allocations@.contains_key(id) implies s2.allocations@[id]
        == s0.allocations@[id] by {
        assert(s1.allocations@.contains_key(id));
        assert(s2.allocations@[id] == s1.allocations@[id]);
    }
}

/// Removing the keys of copies removes the keys of the originals.
pub proof fn lemma_payloads_out_copies(
    map: Map<(u64, u32, u32), RuntimeOwnedPayload>,
    base: u64,
    payloads: Seq<(u64, VirMemoryAccess, RuntimeOwnedPayload)>,
    next: u64,
)
    ensures
        payloads_out(map, base, copies_of(payloads, next)) == payloads_out(map, base, payloads),
    decreases payloads.len(),
{
    if payloads.len() > 0 {
        assert(copies_of(payloads, next).drop_last() =~= copies_of(payloads.drop_last(), next));
        lemma_payloads_out_copies(map, base, payloads.drop_last(), next);
    }
}

impl Interpreter {
    /// Writes a planned transfer: the destination loses the bytes at
    /// `retired` and shows the source's bytes at `moved` with the handed
    /// payloads; a move clears the source's bytes and payload keys.
    fn apply_transfer(
        &mut self,
        destination: VirRuntimePointer,
        source: VirRuntimePointer,
        moved: &BTreeSet<u64>,
        retired: &BTreeSet<u64>,
        order: &Vec<u64>,
        values: &Vec<u8>,
        payloads: &Vec<(u64, VirMemoryAccess, RuntimeOwnedPayload)>,
        source_mode: VirObjectSourceMode,
    )
        requires
            old(self).allocations@.contains_key(destination.allocation),
            old(self).allocations@.contains_key(source.allocation),
            fits_after(destination.offset_bytes, retired@),
            fits_after(destination.offset_bytes, moved@),
            fits_after(source.offset_bytes, moved@),
            payloads_fit(destination.offset_bytes, payloads@),
            payloads_fit(source.offset_bytes, payloads@),
            order@.to_set() == moved@,
            forall|a: int, b: int| 0 <= a < b < order@.len() ==> order@[a] < order@[b],
            values@.len() == order@.len(),
            forall|j: int| 0 <= j < order@.len() ==> values@[j] == old(self).allocations@[source.allocation].bytes@[(source.offset_bytes
                + #[trigger] order@[j]) as u64],
        ensures
            ({
                let d = destination.allocation;
                let s = source.allocation;
                let before_d = old(self).allocations@[d];
                let before_s = old(self).allocations@[s];
                let in_bytes = bytes_moved_in(before_d.bytes@, before_s.bytes@, destination.offset_bytes, source.offset_bytes, retired@, moved@);
                let in_payloads = payloads_in(before_d.resource_payloads@, destination.offset_bytes, payloads@);
                let moving = source_mode == VirObjectSourceMode::Move;
                &&& final(self).allocations@.dom() == old(self).allocations@.dom()
                &&& forall|id: u64| id != d && id != s ==> #[trigger] final(self).allocations@[id] == old(self).allocations@[id]
                &&& final(self).allocations@[d].bytes@ == (if moving && d == s {
                    in_bytes.remove_keys(shifted(source.offset_bytes, moved@))
                } else {
                    in_bytes
                })
                &&& final(self).allocations@[d].resource_payloads@ == (if moving && d == s {
                    payloads_out(in_payloads, source.offset_bytes, payloads@)
                } else {
                    in_payloads
                })
                &&& d != s ==> final(self).allocations@[s].bytes@ == (if moving {
                    before_s.bytes@.remove_keys(shifted(source.offset_bytes, moved@))
                } else {
                    before_s.bytes@
                })
                &&& d != s ==> final(self).allocations@[s].resource_payloads@ == (if moving {
                    payloads_out(before_s.resource_payloads@, source.offset_bytes, payloads@)
                } else {
                    before_s.resource_payloads@
                })
                &&& same_extent(final(self).allocations@[d], before_d)
                &&& same_extent(final(self).allocations@[s], before_s)
                &&& final(self).allocations@[d].objects@ == before_d.objects@
                &&& final(self).allocations@[s].objects@ == before_s.objects@
                &&& final(self).config == old(self).config
                &&& final(self).steps == old(self).steps
                &&& final(self).allocation_instances == old(self).allocation_instances
            }),
    {
        let ghost s0 = *self;
        let ghost before_s = self.allocations@[source.allocation].bytes@;
        let mut target = match self.allocations.remove(&destination.allocation) {
            Some(a) => a,
            None => {
                proof {
                    assert(false);
                }
                return;
            },
        };
        let ghost before_d = target.bytes@;
        remove_relative(&mut target.bytes, destination.offset_bytes, retired);
        let ghost cleared = target.bytes@;
        proof {
            assert forall|j: int| 0 <= j < order@.len() implies destination.offset_bytes + #[trigger] order@[j] <= u64::MAX by {
                assert(order@.to_set().contains(order@[j]));
            }
        }
        write_relative(&mut target.bytes, destination.offset_bytes, order, values);
        proof {
            lemma_shifted_listing(destination.offset_bytes, moved@, order@);
            let expected = bytes_moved_in(before_d, before_s, destination.offset_bytes, source.offset_bytes, retired@, moved@);
            assert forall|k: u64| #[trigger] target.bytes@.contains_key(k) == expected.contains_key(k) by {
                assert(shifted(destination.offset_bytes, retired@.union(moved@)).contains(k) ==> shifted(destination.offset_bytes,
                    retired@).contains(k) || shifted(destination.offset_bytes, moved@).contains(k));
            }
            assert forall|k: u64| #[trigger] target.bytes@.contains_key(k) implies target.bytes@[k] == expected[k] by {
                if shifted(destination.offset_bytes, moved@).contains(k) {
                    let j = choose|j: int| 0 <= j < order@.len() && k == destination.offset_bytes + #[trigger] order@[j];
                    assert(target.bytes@[(destination.offset_bytes + order@[j]) as u64] == values@[j]);
                    assert((k - destination.offset_bytes) as u64 == order@[j]);
                } else {
                    assert(!(exists|j: int| 0 <= j < order@.len() && k == destination.offset_bytes + #[trigger] order@[j]));
                }
            }
            assert(target.bytes@ =~= expected);
        }
        insert_payloads(&mut target.resource_payloads, destination.offset_bytes, payloads);
        self.allocations.insert(destination.allocation, target);
        if source_mode == VirObjectSourceMode::Move {
            let mut origin = match self.allocations.remove(&source.allocation) {
                Some(a) => a,
                None => {
                    proof {
                        assert(false);
                    }
                    return;
                },
            };
            remove_relative(&mut origin.bytes, source.offset_bytes, moved);
            remove_payloads(&mut origin.resource_payloads, source.offset_bytes, payloads);
            self.allocations.insert(source.allocation, origin);
        }
        proof {
            assert(self.allocations@.dom() =~= s0.allocations@.dom());
        }
    }

    /// Transfers the active value of the object of type `access` at `source`
    /// to `destination`: initializing empty storage or replacing a complete
    /// value, and copying (shared references gain an alias) or moving (the
    /// source is retired).
    pub fn object_transfer(
        &mut self,
        memory: &VirMemorySchema,
        loan_shadow: &mut RuntimeLoanShadow,
        loan_limits: RuntimeLoanLimits,
        destination: VirRuntimePointer,
        destination_permission: VirRuntimePermission,
        source: VirRuntimePointer,
        source_permission: VirRuntimePermission,
        access: VirMemoryAccess,
        destination_mode: VirObjectDestinationMode,
        source_mode: VirObjectSourceMode,
        source_span: ByteSpan,
    ) -> (r: Result<(), VirExecutionError>)
        requires
            old(loan_shadow).shadow_inv(),
        ensures
            final(loan_shadow).shadow_inv(),
            source_mode == VirObjectSourceMode::Move ==> final(loan_shadow).same_state(&*old(loan_shadow)),
            match spec_access_fault(&*old(self), *memory, destination, destination_permission, access) {
                Some(k) => r matches Err(e) && e.spec_kind() == k && *final(self) == *old(self) && final(loan_shadow).same_state(
                    &*old(loan_shadow),
                ),
                None => match spec_access_fault(&*old(self), *memory, source, source_permission, access) {
                    Some(k) => r matches Err(e) && e.spec_kind() == k && *final(self) == *old(self) && final(loan_shadow).same_state(
                        &*old(loan_shadow),
                    ),
                    None => r is Ok ==> exists|shape: VirObjectShape|
                        shape_matches(*memory, access, shape) && transfer_done(
                            &*old(self),
                            &*final(self),
                            *old(loan_shadow),
                            *final(loan_shadow),
                            *memory,
                            destination,
                            source,
                            shape,
                            destination_mode,
                            source_mode,
                        ),
                },
            },
            r matches Err(e) ==> final(self).allocations@ == old(self).allocations@ || e.spec_kind() is ObjectRootLimitExceeded,
            spec_access_fault(&*old(self), *memory, destination, destination_permission, access) is None && spec_access_fault(
                &*old(self),
                *memory,
                source,
                source_permission,
                access,
            ) is None ==> (r matches Err(e) && e.spec_kind() == VirExecutionErrorKind::InvalidRuntimeState && !shape_promised(*memory, access)) || transfer_witnessed(
                *old(self),
                *memory,
                *old(loan_shadow),
                loan_limits,
                destination,
                source,
                access,
                destination_mode,
                source_mode,
                r,
            ),
    {
        self.check_access(memory, destination, destination_permission, access, source_span)?;
        self.check_access(memory, source, source_permission, access, source_span)?;
        let ghost s0 = *self;
        let ghost l0 = *loan_shadow;
        let r1 = self.transfer_source(
            memory,
            loan_shadow,
            loan_limits,
            destination,
            source,
            access,
            destination_mode,
            source_mode,
            source_span,
        );
        let (shape, moved, payloads) = match r1 {
            Ok(t) => t,
            Err(e) => {
                proof {
                    lemma_source_refusal(s0, *memory, l0, *loan_shadow, loan_limits, destination, source, access, destination_mode,
                        source_mode, e);
                }
                return Err(e);
            },
        };
        proof {
            lemma_source_success(s0, *memory, l0, *loan_shadow, loan_limits, destination, source, access, destination_mode, source_mode,
                shape, moved, payloads);
        }
        let retired = match self.transfer_destination(memory, destination, source, &shape, &moved, &payloads, destination_mode, source_span) {
            Ok(t) => t,
            Err(e) => {
                proof {
                    assert(transfer_result(s0, *memory, l0, loan_limits, destination, source, access, destination_mode, source_mode, shape,
                        Err(e)));
                }
                return Err(e);
            },
        };
        proof {
            assert(transfer_fault(s0, *memory, l0, loan_limits, destination, source, access, destination_mode, source_mode, shape) is None);
        }
        let order = offsets_in_order(&moved);
        let values = match self.allocations.get(&source.allocation) {
            Some(a) => {
                proof {
                    assert forall|j: int| 0 <= j < order@.len() implies source.offset_bytes + #[trigger] order@[j] <= u64::MAX
                        && a.bytes@.contains_key((source.offset_bytes + order@[j]) as u64) by {
                        reveal(Interpreter::value_fault);
                        assert(order@.to_set().contains(order@[j]));
                        assert(!unset_at(a.bytes@, source.offset_bytes, order@[j]));
                    }
                }
                read_relative(&a.bytes, source.offset_bytes, &order)
            },
            None => return Err(error(VirExecutionErrorKind::InvalidRuntimeState, source_span)),
        };
        proof {
            reveal(Interpreter::value_fault);
            assert forall|o: u64| moved@.contains(o) implies source.offset_bytes + o <= u64::MAX by {
                assert(!unset_at(s0.allocations@[source.allocation].bytes@, source.offset_bytes, o));
            }
            assert(fits_after(destination.offset_bytes, moved@)) by {
                assert forall|o: u64| moved@.contains(o) implies destination.offset_bytes + o <= u64::MAX by {
                    assert(retired@.contains(o));
                }
            }
        }
        self.apply_transfer(destination, source, &moved, &retired, &order, &values, &payloads, source_mode);
        let ghost s1 = *self;
        proof {
            let found = s0.payloads_from(*memory, source, shape, shape.spec_resource_leaves().len() as int)->Ok_0;
            if source_mode == VirObjectSourceMode::Copy {
                lemma_payloads_out_copies(s0.allocations@[source.allocation].resource_payloads@, source.offset_bytes, found,
                    l0.spec_next_authority());
            }
            let retired_spec = if destination_mode == VirObjectDestinationMode::Initialize {
                Set::<u64>::empty()
            } else {
                s0.active_offsets(*memory, destination, shape)
            };
            assert(retired@.union(moved@) =~= retired_spec.union(moved@));
            assert(transfer_done(&s0, &s1, l0, *loan_shadow, *memory, destination, source, shape, destination_mode, source_mode));
        }
        let ghost l1 = *loan_shadow;
        proof {
            assert(s1.allocations@[destination.allocation].objects@ == s0.allocations@[destination.allocation].objects@);
            assert(s1.allocations@[source.allocation].objects@ == s0.allocations@[source.allocation].objects@);
        }
        let r2 = self.register_runtime_object(destination, &shape, source_span);
        if let Err(e) = r2 {
            proof {
                assert(transfer_result(s0, *memory, l0, loan_limits, destination, source, access, destination_mode, source_mode, shape,
                    Err(e)));
            }
            return Err(e);
        }
        let ghost s2 = *self;
        proof {
            lemma_registration_keeps_transfer(&s0, &s1, &s2, l0, *loan_shadow, *memory, destination, source, shape, destination_mode,
                source_mode);
        }
        proof {
            broadcast use vstd::seq_lib::group_to_multiset_ensures;
            let dobj = RuntimeObject { offset_bytes: destination.offset_bytes, access: destination.access };
            let sobj = RuntimeObject { offset_bytes: source.offset_bytes, access: source.access };
            let first = s0.allocations@[destination.allocation].objects@;
            let after = s2.allocations@[source.allocation].objects@;
            if destination.allocation == source.allocation && shape.spec_variants().len() > 0 && !first.contains(dobj) {
                assert(after.to_multiset() == first.to_multiset().insert(dobj));
                assert(after.to_multiset().count(sobj) == first.to_multiset().count(sobj) + (if sobj == dobj { 1int } else { 0int }));
                assert(after.contains(sobj) <==> (first.contains(sobj) || sobj == dobj));
                assert(after.to_multiset().len() == after.len());
                assert(first.to_multiset().len() == first.len());
                assert(first.to_multiset().insert(dobj).len() == first.to_multiset().len() + 1);
                assert(after.len() == first.len() + 1);
            } else {
                assert(after == s0.allocations@[source.allocation].objects@);
            }
        }
        let r3 = self.register_runtime_object(source, &shape, source_span);
        if let Err(e) = r3 {
            proof {
                assert(transfer_result(s0, *memory, l0, loan_limits, destination, source, access, destination_mode, source_mode, shape,
                    Err(e)));
            }
            return Err(e);
        }
        proof {
            lemma_registration_keeps_transfer(&s0, &s2, &*self, l0, *loan_shadow, *memory, destination, source, shape, destination_mode,
                source_mode);
            assert(transfer_result(s0, *memory, l0, loan_limits, destination, source, access, destination_mode, source_mode, shape, Ok(())));
        }
        Ok(())
    }
}

} // verus!
