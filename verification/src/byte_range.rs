//! Half-open byte ranges and canonical sets of them.

use vstd::prelude::*;

verus! {

/// A half-open byte range relative to the root object queried.
#[derive(Clone, Copy, Debug, PartialEq, Eq, PartialOrd, Ord, Hash, Structural)]
pub struct VirObjectByteRange {
    start_bytes: u64,
    end_bytes: u64,
}

impl VirObjectByteRange {
    #[verifier::type_invariant]
    spec fn well_ordered(self) -> bool {
        self.start_bytes <= self.end_bytes
    }

    pub closed spec fn spec_start_bytes(self) -> u64 {
        self.start_bytes
    }

    pub closed spec fn spec_end_bytes(self) -> u64 {
        self.end_bytes
    }

    #[verifier::when_used_as_spec(spec_start_bytes)]
    pub fn start_bytes(self) -> (r: u64)
        ensures
            r == self.spec_start_bytes(),
            r <= self.spec_end_bytes(),
    {
        proof {
            use_type_invariant(self);
        }
        self.start_bytes
    }

    #[verifier::when_used_as_spec(spec_end_bytes)]
    pub fn end_bytes(self) -> (r: u64)
        ensures
            r == self.spec_end_bytes(),
            self.spec_start_bytes() <= r,
    {
        proof {
            use_type_invariant(self);
        }
        self.end_bytes
    }

    pub fn len_bytes(self) -> (r: u64)
        ensures
            r == self.spec_end_bytes() - self.spec_start_bytes(),
    {
        proof {
            use_type_invariant(self);
        }
        self.end_bytes - self.start_bytes
    }

    pub fn is_empty(self) -> (r: bool)
        ensures
            r == (self.spec_start_bytes() == self.spec_end_bytes()),
    {
        self.start_bytes == self.end_bytes
    }

    pub(crate) fn new(start_bytes: u64, end_bytes: u64) -> (r: Self)
        requires
            start_bytes <= end_bytes,
        ensures
            r.spec_start_bytes() == start_bytes && r.spec_end_bytes() == end_bytes,
    {
        VirObjectByteRange { start_bytes, end_bytes }
    }
}

/// The byte `x` lies in one of the ranges.
pub open spec fn covers(ranges: Seq<VirObjectByteRange>, x: int) -> bool {
    exists|i: int|
        0 <= i < ranges.len() && (#[trigger] ranges[i]).spec_start_bytes() <= x < ranges[i].spec_end_bytes()
}

/// Non-empty ranges in increasing order, each ending before the next starts.
pub open spec fn canonical_ranges(ranges: Seq<VirObjectByteRange>) -> bool {
    &&& forall|i: int| 0 <= i < ranges.len() ==> (#[trigger] ranges[i]).spec_start_bytes() < ranges[i].spec_end_bytes()
    &&& forall|i: int| 0 <= i < ranges.len() - 1 ==> (#[trigger] ranges[i]).spec_end_bytes() < ranges[i + 1].spec_start_bytes()
}

/// Every range lies inside `[start, end)`.
pub open spec fn ranges_within(ranges: Seq<VirObjectByteRange>, start: int, end: int) -> bool {
    forall|i: int| 0 <= i < ranges.len() ==> start <= (#[trigger] ranges[i]).spec_start_bytes() && ranges[i].spec_end_bytes() <= end
}

// ----- byte range sets -----

/// `a` sorts no later than `b`: by start, then by end.
pub open spec fn range_le(a: VirObjectByteRange, b: VirObjectByteRange) -> bool {
    a.spec_start_bytes() < b.spec_start_bytes() || (a.spec_start_bytes() == b.spec_start_bytes()
        && a.spec_end_bytes() <= b.spec_end_bytes())
}

pub open spec fn ranges_sorted(s: Seq<VirObjectByteRange>) -> bool {
    forall|i: int, j: int| 0 <= i < j < s.len() ==> range_le(#[trigger] s[i], #[trigger] s[j])
}

proof fn lemma_covers_same_multiset(a: Seq<VirObjectByteRange>, b: Seq<VirObjectByteRange>)
    requires
        a.to_multiset() == b.to_multiset(),
    ensures
        forall|x: int| covers(a, x) <==> covers(b, x),
{
    broadcast use vstd::seq_lib::group_to_multiset_ensures;
    assert forall|x: int| covers(a, x) implies covers(b, x) by {
        let i = choose|i: int| 0 <= i < a.len() && (#[trigger] a[i]).spec_start_bytes() <= x < a[i].spec_end_bytes();
        assert(a.to_multiset().count(a[i]) > 0);
        assert(b.contains(a[i]));
        let j = choose|j: int| 0 <= j < b.len() && b[j] == a[i];
        assert(b[j].spec_start_bytes() <= x < b[j].spec_end_bytes());
    }
    assert forall|x: int| covers(b, x) implies covers(a, x) by {
        let i = choose|i: int| 0 <= i < b.len() && (#[trigger] b[i]).spec_start_bytes() <= x < b[i].spec_end_bytes();
        assert(b.to_multiset().count(b[i]) > 0);
        assert(a.contains(b[i]));
        let j = choose|j: int| 0 <= j < a.len() && a[j] == b[i];
        assert(a[j].spec_start_bytes() <= x < a[j].spec_end_bytes());
    }
}

/// Insertion sort of byte ranges by start, then end.
fn sort_ranges(s: Vec<VirObjectByteRange>) -> (r: Vec<VirObjectByteRange>)
    ensures
        ranges_sorted(r@),
        r@.to_multiset() == s@.to_multiset(),
        r@.len() == s@.len(),
{
    broadcast use vstd::seq_lib::group_to_multiset_ensures;
    let mut out: Vec<VirObjectByteRange> = Vec::new();
    let mut i: usize = 0;
    while i < s.len()
        invariant
            0 <= i <= s.len(),
            ranges_sorted(out@),
            out@.to_multiset() == s@.take(i as int).to_multiset(),
            out@.len() == i,
        decreases s.len() - i,
    {
        let x = s[i];
        let mut k: usize = 0;
        while k < out.len() && (out[k].start_bytes < x.start_bytes || (out[k].start_bytes
            == x.start_bytes && out[k].end_bytes <= x.end_bytes))
            invariant
                0 <= k <= out.len(),
                forall|j: int| 0 <= j < k ==> range_le(#[trigger] out@[j], x),
            decreases out.len() - k,
        {
            k = k + 1;
        }
        proof {
            assert forall|j: int| k <= j < out@.len() implies !range_le(#[trigger] out@[j], x) by {
                if j > k {
                    assert(range_le(out@[k as int], out@[j]));
                }
            }
        }
        let ghost before = out@;
        out.insert(k, x);
        proof {
            vstd::seq_lib::to_multiset_insert(before, k as int, x);
            assert(s@.take(i + 1) == s@.take(i as int).push(x));
            vstd::seq_lib::to_multiset_build(s@.take(i as int), x);
            assert forall|a: int, b: int| 0 <= a < b < out@.len() implies range_le(#[trigger] out@[a], #[trigger] out@[b]) by {
                if b == k {
                    assert(out@[a] == before[a]);
                } else if a == k {
                    assert(out@[b] == before[b - 1]);
                    assert(!range_le(before[b - 1], x));
                } else if a < k && b > k {
                    assert(out@[a] == before[a]);
                    assert(out@[b] == before[b - 1]);
                } else if b < k {
                    assert(out@[a] == before[a] && out@[b] == before[b]);
                } else {
                    assert(out@[a] == before[a - 1] && out@[b] == before[b - 1]);
                }
            }
        }
        i = i + 1;
    }
    assert(s@.take(s.len() as int) == s@);
    out
}

/// Every range is non-empty.
pub open spec fn nonempty_ranges(ranges: Seq<VirObjectByteRange>) -> bool {
    forall|i: int| 0 <= i < ranges.len() ==> (#[trigger] ranges[i]).spec_start_bytes() < ranges[i].spec_end_bytes()
}

/// Coverage of non-empty ranges bounds where the ranges may lie.
pub(crate) proof fn lemma_within_from_cover(a: Seq<VirObjectByteRange>, b: Seq<VirObjectByteRange>, lo: int, hi: int)
    requires
        nonempty_ranges(a),
        forall|x: int| covers(a, x) ==> covers(b, x),
        ranges_within(b, lo, hi),
    ensures
        ranges_within(a, lo, hi),
{
    assert forall|i: int| 0 <= i < a.len() implies lo <= (#[trigger] a[i]).spec_start_bytes() && a[i].spec_end_bytes() <= hi by {
        let s = a[i].spec_start_bytes() as int;
        let e = a[i].spec_end_bytes() as int;
        assert(covers(a, s));
        assert(covers(a, e - 1));
        let j = choose|j: int| 0 <= j < b.len() && (#[trigger] b[j]).spec_start_bytes() <= s < b[j].spec_end_bytes();
        let k = choose|k: int| 0 <= k < b.len() && (#[trigger] b[k]).spec_start_bytes() <= e - 1 < b[k].spec_end_bytes();
    }
}

/// A multiset of non-empty byte ranges, canonical after normalization.
#[derive(Clone, Debug, Default)]
pub(crate) struct ByteRangeSet {
    pub(crate) ranges: Vec<VirObjectByteRange>,
}

impl ByteRangeSet {
    pub(crate) open spec fn wf(&self) -> bool {
        nonempty_ranges(self.ranges@)
    }

    pub(crate) fn empty() -> (r: Self)
        ensures
            r.ranges@ == Seq::<VirObjectByteRange>::empty(),
            r.wf(),
    {
        ByteRangeSet { ranges: Vec::new() }
    }

    /// Adds a range; empty ranges carry no byte and are dropped.
    pub(crate) fn insert(&mut self, range: VirObjectByteRange)
        requires
            old(self).wf(),
        ensures
            final(self).wf(),
            final(self).ranges@ == (if range.spec_start_bytes() == range.spec_end_bytes() { old(self).ranges@ } else { old(self).ranges@.push(range) }),
            forall|x: int| covers(final(self).ranges@, x) <==> (covers(old(self).ranges@, x) || (range.spec_start_bytes() <= x < range.spec_end_bytes())),
    {
        if range.is_empty() {
            return;
        }
        let ghost before = self.ranges@;
        let _ = range.start_bytes();
        self.ranges.push(range);
        proof {
            assert forall|x: int| covers(self.ranges@, x) <==> (covers(before, x) || (range.spec_start_bytes() <= x < range.spec_end_bytes())) by {
                if covers(before, x) {
                    let i = choose|i: int| 0 <= i < before.len() && (#[trigger] before[i]).spec_start_bytes() <= x < before[i].spec_end_bytes();
                    assert(self.ranges@[i] == before[i]);
                }
                if range.spec_start_bytes() <= x < range.spec_end_bytes() {
                    assert(self.ranges@[before.len() as int] == range);
                }
                if covers(self.ranges@, x) {
                    let i = choose|i: int| 0 <= i < self.ranges@.len() && (#[trigger] self.ranges@[i]).spec_start_bytes() <= x < self.ranges@[i].spec_end_bytes();
                    if i < before.len() {
                        assert(self.ranges@[i] == before[i]);
                    }
                }
            }
        }
    }

    /// Appends all ranges of `other`.
    pub(crate) fn extend(&mut self, other: Self)
        requires
            old(self).wf(),
            other.wf(),
        ensures
            final(self).wf(),
            final(self).ranges@ == old(self).ranges@ + other.ranges@,
    {
        let mut other = other;
        self.ranges.append(&mut other.ranges);
    }

    /// Sorts and merges overlapping or touching ranges.
    pub(crate) fn normalize(&mut self)
        requires
            old(self).wf(),
        ensures
            final(self).wf(),
            canonical_ranges(final(self).ranges@),
            forall|x: int| covers(final(self).ranges@, x) <==> covers(old(self).ranges@, x),
    {
        let ghost original = self.ranges@;
        let mut taken: Vec<VirObjectByteRange> = Vec::new();
        std::mem::swap(&mut taken, &mut self.ranges);
        let sorted = sort_ranges(taken);
        proof {
            lemma_covers_same_multiset(sorted@, original);
            broadcast use vstd::seq_lib::group_to_multiset_ensures;
            assert forall|i: int| 0 <= i < sorted@.len() implies (#[trigger] sorted@[i]).spec_start_bytes() < sorted@[i].spec_end_bytes() by {
                assert(sorted@.to_multiset().count(sorted@[i]) > 0);
                assert(original.contains(sorted@[i]));
            }
        }
        let mut merged: Vec<VirObjectByteRange> = Vec::new();
        let mut i: usize = 0;
        while i < sorted.len()
            invariant
                0 <= i <= sorted.len(),
                ranges_sorted(sorted@),
                nonempty_ranges(sorted@),
                forall|x: int| covers(sorted@, x) <==> covers(original, x),
                canonical_ranges(merged@),
                forall|x: int| covers(merged@, x) <==> covers(sorted@.take(i as int), x),
                i > 0 <==> merged@.len() > 0,
                i > 0 ==> merged@.last().spec_start_bytes() <= sorted@[i - 1].spec_start_bytes(),
            decreases sorted.len() - i,
        {
            let range = sorted[i];
            let ghost prev = merged@;
            proof {
                assert(sorted@.take(i + 1) == sorted@.take(i as int).push(range));
                assert(range.spec_start_bytes() < range.spec_end_bytes());
            }
            let n = merged.len();
            if n > 0 && range.start_bytes() <= merged[n - 1].end_bytes() {
                let last = merged[n - 1];
                let end = if range.end_bytes() > last.end_bytes() { range.end_bytes() } else { last.end_bytes() };
                let _ = last.start_bytes();
                merged.set(n - 1, VirObjectByteRange::new(last.start_bytes(), end));
                proof {
                    if i > 0 {
                        assert(range_le(sorted@[i - 1], sorted@[i as int]));
                    }
                    assert forall|x: int| covers(merged@, x) <==> covers(sorted@.take(i + 1), x) by {
                        if covers(merged@, x) {
                            let k = choose|k: int| 0 <= k < merged@.len() && (#[trigger] merged@[k]).spec_start_bytes() <= x < merged@[k].spec_end_bytes();
                            if k < n - 1 {
                                assert(merged@[k] == prev[k]);
                                assert(covers(prev, x));
                            } else if x < last.spec_end_bytes() {
                                assert(prev[n - 1] == last);
                                assert(covers(prev, x));
                            } else {
                                assert(sorted@.take(i + 1)[i as int] == range);
                            }
                        }
                        if covers(sorted@.take(i + 1), x) {
                            let k = choose|k: int| 0 <= k < sorted@.take(i + 1).len() && (#[trigger] sorted@.take(i + 1)[k]).spec_start_bytes() <= x < sorted@.take(i + 1)[k].spec_end_bytes();
                            if k < i {
                                assert(sorted@.take(i as int)[k] == sorted@.take(i + 1)[k]);
                                assert(covers(prev, x));
                                let m = choose|m: int| 0 <= m < prev.len() && (#[trigger] prev[m]).spec_start_bytes() <= x < prev[m].spec_end_bytes();
                                if m < n - 1 {
                                    assert(merged@[m] == prev[m]);
                                } else {
                                    assert(merged@[n - 1].spec_start_bytes() <= x < merged@[n - 1].spec_end_bytes());
                                }
                            } else {
                                assert(merged@[n - 1].spec_start_bytes() <= x < merged@[n - 1].spec_end_bytes());
                            }
                        }
                    }
                    assert forall|k: int| 0 <= k < merged@.len() - 1 implies (#[trigger] merged@[k]).spec_end_bytes() < merged@[k + 1].spec_start_bytes() by {
                        assert(merged@[k] == prev[k]);
                        if k + 1 < n - 1 {
                            assert(merged@[k + 1] == prev[k + 1]);
                        }
                    }
                }
            } else {
                merged.push(range);
                proof {
                    if i > 0 {
                        assert(range_le(sorted@[i - 1], sorted@[i as int]));
                    }
                    assert forall|x: int| covers(merged@, x) <==> covers(sorted@.take(i + 1), x) by {
                        if covers(merged@, x) {
                            let k = choose|k: int| 0 <= k < merged@.len() && (#[trigger] merged@[k]).spec_start_bytes() <= x < merged@[k].spec_end_bytes();
                            if k < n {
                                assert(merged@[k] == prev[k]);
                                assert(covers(prev, x));
                                let m = choose|m: int| 0 <= m < sorted@.take(i as int).len() && (#[trigger] sorted@.take(i as int)[m]).spec_start_bytes() <= x < sorted@.take(i as int)[m].spec_end_bytes();
                                assert(sorted@.take(i + 1)[m] == sorted@.take(i as int)[m]);
                            } else {
                                assert(sorted@.take(i + 1)[i as int] == range);
                            }
                        }
                        if covers(sorted@.take(i + 1), x) {
                            let k = choose|k: int| 0 <= k < sorted@.take(i + 1).len() && (#[trigger] sorted@.take(i + 1)[k]).spec_start_bytes() <= x < sorted@.take(i + 1)[k].spec_end_bytes();
                            if k < i {
                                assert(sorted@.take(i as int)[k] == sorted@.take(i + 1)[k]);
                                assert(covers(prev, x));
                                let m = choose|m: int| 0 <= m < prev.len() && (#[trigger] prev[m]).spec_start_bytes() <= x < prev[m].spec_end_bytes();
                                assert(merged@[m] == prev[m]);
                            } else {
                                assert(merged@[n as int] == range);
                            }
                        }
                    }
                    assert forall|k: int| 0 <= k < merged@.len() - 1 implies (#[trigger] merged@[k]).spec_end_bytes() < merged@[k + 1].spec_start_bytes() by {
                        assert(merged@[k] == prev[k]);
                        if k + 1 < n {
                            assert(merged@[k + 1] == prev[k + 1]);
                        }
                    }
                }
            }
            i = i + 1;
        }
        proof {
            assert(sorted@.take(sorted@.len() as int) == sorted@);
        }
        self.ranges = merged;
    }

    /// Bytes of `whole` that no range covers, as canonical ranges.
    #[verifier::spinoff_prover]
    #[verifier::rlimit(100)]
    pub(crate) fn complement(&self, whole: VirObjectByteRange) -> (r: Vec<VirObjectByteRange>)
        requires
            canonical_ranges(self.ranges@),
            ranges_within(self.ranges@, whole.spec_start_bytes() as int, whole.spec_end_bytes() as int),
        ensures
            canonical_ranges(r@),
            ranges_within(r@, whole.spec_start_bytes() as int, whole.spec_end_bytes() as int),
            forall|x: int| whole.spec_start_bytes() <= x < whole.spec_end_bytes() ==> (covers(r@, x) <==> !covers(self.ranges@, x)),
    {
        let mut cursor = whole.start_bytes();
        let ghost lo = whole.spec_start_bytes() as int;
        let ghost hi = whole.spec_end_bytes() as int;
        let ghost r = self.ranges@;
        let mut complement: Vec<VirObjectByteRange> = Vec::new();
        let mut i: usize = 0;
        while i < self.ranges.len()
            invariant
                0 <= i <= self.ranges.len(),
                r == self.ranges@,
                lo == whole.spec_start_bytes(),
                hi == whole.spec_end_bytes(),
                canonical_ranges(r),
                ranges_within(r, lo, hi),
                cursor == (if i == 0 { lo } else { r[i - 1].spec_end_bytes() as int }),
                forall|j: int| 0 <= j < i ==> (#[trigger] r[j]).spec_end_bytes() <= cursor,
                canonical_ranges(complement@),
                ranges_within(complement@, lo, cursor as int),
                complement@.len() > 0 ==> complement@.last().spec_end_bytes() < cursor,
                forall|x: int| lo <= x < cursor ==> (covers(complement@, x) <==> !covers_first(r, i as int, x)),
            decreases self.ranges.len() - i,
        {
            let range = self.ranges[i];
            let ghost prev = complement@;
            let start = range.start_bytes();
            let end = range.end_bytes();
            proof {
                assert(lo <= start);
                if i > 0 {
                    assert(r[i - 1].spec_end_bytes() < r[i as int].spec_start_bytes());
                }
            }
            let pushed = cursor < start;
            if pushed {
                complement.push(VirObjectByteRange::new(cursor, start));
                assert(complement@.drop_last() == prev);
            }
            proof {
                lemma_complement_step(r, i as int, prev, complement@, lo, cursor as int, pushed);
            }
            cursor = end;
            i = i + 1;
        }
        let ghost prev = complement@;
        let pushed = cursor < whole.end_bytes();
        if pushed {
            complement.push(VirObjectByteRange::new(cursor, whole.end_bytes()));
            assert(complement@.drop_last() == prev);
        }
        proof {
            lemma_complement_finish(r, prev, complement@, lo, hi, cursor as int, pushed);
        }
        complement
    }
}

/// Some range among the first `n` covers `x`.
pub open spec fn covers_first(r: Seq<VirObjectByteRange>, n: int, x: int) -> bool {
    exists|j: int| 0 <= j < n && (#[trigger] r[j]).spec_start_bytes() <= x < r[j].spec_end_bytes()
}

proof fn lemma_complement_step(
    r: Seq<VirObjectByteRange>,
    i: int,
    c: Seq<VirObjectByteRange>,
    c2: Seq<VirObjectByteRange>,
    lo: int,
    cursor: int,
    pushed: bool,
)
    requires
        canonical_ranges(r),
        0 <= i < r.len(),
        lo <= cursor <= r[i].spec_start_bytes(),
        forall|j: int| 0 <= j < i ==> (#[trigger] r[j]).spec_end_bytes() <= cursor,
        canonical_ranges(c),
        ranges_within(c, lo, cursor),
        c.len() > 0 ==> c.last().spec_end_bytes() < cursor,
        forall|x: int| lo <= x < cursor ==> (covers(c, x) <==> !covers_first(r, i, x)),
        pushed ==> c2.len() == c.len() + 1 && c2.drop_last() == c && c2.last().spec_start_bytes() == cursor
            && c2.last().spec_end_bytes() == r[i].spec_start_bytes() && cursor < r[i].spec_start_bytes(),
        !pushed ==> c2 == c && cursor == r[i].spec_start_bytes(),
    ensures
        forall|j: int| 0 <= j <= i ==> (#[trigger] r[j]).spec_end_bytes() <= r[i].spec_end_bytes(),
        canonical_ranges(c2),
        ranges_within(c2, lo, r[i].spec_end_bytes() as int),
        c2.len() > 0 ==> c2.last().spec_end_bytes() < r[i].spec_end_bytes(),
        forall|x: int| lo <= x < r[i].spec_end_bytes() ==> (covers(c2, x) <==> !covers_first(r, i + 1, x)),
{
    let s = r[i].spec_start_bytes() as int;
    let e = r[i].spec_end_bytes() as int;
    assert(s < e);
    assert forall|k: int| 0 <= k < c2.len() implies c2[k] == (if k < c.len() { c[k] } else { c2.last() }) by {
        if pushed && k < c.len() {
            assert(c2[k] == c2.drop_last()[k]);
        }
    }
    assert forall|x: int| lo <= x < e implies (covers(c2, x) <==> !covers_first(r, i + 1, x)) by {
        if covers(c2, x) {
            let k = choose|k: int| 0 <= k < c2.len() && (#[trigger] c2[k]).spec_start_bytes() <= x < c2[k].spec_end_bytes();
            if k < c.len() {
                assert(c2[k] == c[k]);
                assert(covers(c, x));
                assert(x < cursor);
                assert(!covers_first(r, i, x));
            } else {
                assert(cursor <= x < s);
            }
            assert(x < s);
            if covers_first(r, i + 1, x) {
                let j = choose|j: int| 0 <= j < i + 1 && (#[trigger] r[j]).spec_start_bytes() <= x < r[j].spec_end_bytes();
                if j < i {
                    assert(covers_first(r, i, x));
                }
            }
        } else {
            if x < cursor {
                assert(!covers(c, x) ==> covers_first(r, i, x)) by {
                    if covers(c, x) {
                        let k = choose|k: int| 0 <= k < c.len() && (#[trigger] c[k]).spec_start_bytes() <= x < c[k].spec_end_bytes();
                        assert(c2[k] == c[k]);
                    }
                }
                let j = choose|j: int| 0 <= j < i && (#[trigger] r[j]).spec_start_bytes() <= x < r[j].spec_end_bytes();
                assert(covers_first(r, i + 1, x));
            } else if x < s {
                assert(pushed);
                assert(c2[c.len() as int].spec_start_bytes() <= x < c2[c.len() as int].spec_end_bytes());
                assert(false);
            } else {
                assert(r[i].spec_start_bytes() <= x < r[i].spec_end_bytes());
                assert(covers_first(r, i + 1, x));
            }
        }
    }
    assert forall|k: int| 0 <= k < c2.len() - 1 implies (#[trigger] c2[k]).spec_end_bytes() < c2[k + 1].spec_start_bytes() by {
        assert(c2[k] == c[k]);
        if k + 1 < c.len() {
            assert(c2[k + 1] == c[k + 1]);
        }
    }
}

proof fn lemma_complement_finish(
    r: Seq<VirObjectByteRange>,
    c: Seq<VirObjectByteRange>,
    c2: Seq<VirObjectByteRange>,
    lo: int,
    hi: int,
    cursor: int,
    pushed: bool,
)
    requires
        lo <= cursor <= hi,
        ranges_within(r, lo, hi),
        forall|j: int| 0 <= j < r.len() ==> (#[trigger] r[j]).spec_end_bytes() <= cursor,
        canonical_ranges(c),
        ranges_within(c, lo, cursor),
        c.len() > 0 ==> c.last().spec_end_bytes() < cursor,
        forall|x: int| lo <= x < cursor ==> (covers(c, x) <==> !covers_first(r, r.len() as int, x)),
        pushed ==> c2.len() == c.len() + 1 && c2.drop_last() == c && c2.last().spec_start_bytes() == cursor
            && c2.last().spec_end_bytes() == hi && cursor < hi,
        !pushed ==> c2 == c && cursor == hi,
    ensures
        canonical_ranges(c2),
        ranges_within(c2, lo, hi),
        forall|x: int| lo <= x < hi ==> (covers(c2, x) <==> !covers(r, x)),
{
    assert forall|k: int| 0 <= k < c2.len() implies c2[k] == (if k < c.len() { c[k] } else { c2.last() }) by {
        if pushed && k < c.len() {
            assert(c2[k] == c2.drop_last()[k]);
        }
    }
    assert forall|x: int| lo <= x < hi implies (covers(c2, x) <==> !covers(r, x)) by {
        if covers(r, x) {
            let k = choose|k: int| 0 <= k < r.len() && (#[trigger] r[k]).spec_start_bytes() <= x < r[k].spec_end_bytes();
            assert(covers_first(r, r.len() as int, x));
        }
        if covers_first(r, r.len() as int, x) {
            let k = choose|k: int| 0 <= k < r.len() && (#[trigger] r[k]).spec_start_bytes() <= x < r[k].spec_end_bytes();
            assert(covers(r, x));
        }
        if x < cursor {
            if covers(c2, x) {
                let k = choose|k: int| 0 <= k < c2.len() && (#[trigger] c2[k]).spec_start_bytes() <= x < c2[k].spec_end_bytes();
                if k < c.len() {
                    assert(c2[k] == c[k]);
                }
            } else if covers(c, x) {
                let k = choose|k: int| 0 <= k < c.len() && (#[trigger] c[k]).spec_start_bytes() <= x < c[k].spec_end_bytes();
                assert(c2[k] == c[k]);
            }
        } else {
            assert(c2[c.len() as int].spec_start_bytes() <= x < c2[c.len() as int].spec_end_bytes());
            if covers(r, x) {
                let k = choose|k: int| 0 <= k < r.len() && (#[trigger] r[k]).spec_start_bytes() <= x < r[k].spec_end_bytes();
            }
        }
    }
    assert forall|k: int| 0 <= k < c2.len() - 1 implies (#[trigger] c2[k]).spec_end_bytes() < c2[k + 1].spec_start_bytes() by {
        assert(c2[k] == c[k]);
        if k + 1 < c.len() {
            assert(c2[k + 1] == c[k + 1]);
        }
    }
}


} // verus!
