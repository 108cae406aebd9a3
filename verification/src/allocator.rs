//! The transient-memory allocator: shelf packing of (byte range x pass
//! interval) rectangles into per-size heap bins, and a small MRU cache of
//! resolved frame layouts.
//!
//! Two resources may share bytes of one heap only if their pass intervals
//! are disjoint.  A bin therefore stores, per placed resource, a
//! [`MemoryRegion`] rectangle, and accepts a new region only where it
//! intersects none of the placed ones; that invariant is carried by every
//! bin this module ever builds.

use vstd::prelude::*;
use crate::resource::{
    RenderTargetViewDesc,
    ResourceDesc,
    ResourceView,
    ResourceViewDesc,
    ShaderResourceViewDesc,
    TransientResource,
    TransientResourceLifetime,
};

verus! {

/// A placed rectangle inside one heap: the byte range `offset ..
/// offset + size` crossed with the pass interval `start .. end`.
///
/// `end` is exclusive: a resource whose last use is pass `p` occupies the
/// interval up to `p + 1`, so two resources that share a pass can never be
/// given overlapping bytes.
#[derive(Clone, Copy, Debug, PartialEq, Eq, Structural)]
pub struct MemoryRegion {
    pub offset: u64,
    pub size: u64,
    pub start: u32,
    pub end: u32,
}

impl MemoryRegion {
    pub fn new(offset: u64, size: u64, start: u32, end: u32) -> (r: MemoryRegion)
        ensures
            r == (MemoryRegion { offset, size, start, end }),
    {
        MemoryRegion { offset, size, start, end }
    }

    /// Two rectangles intersect when both their byte ranges and their pass
    /// intervals overlap.
    pub open spec fn spec_intersects(self, other: MemoryRegion) -> bool {
        &&& self.start < other.end
        &&& self.end > other.start
        &&& self.offset < other.offset + other.size
        &&& self.offset + self.size > other.offset
    }

    pub fn intersects(&self, other: MemoryRegion) -> (r: bool)
        requires
            self.offset + self.size <= u64::MAX,
            other.offset + other.size <= u64::MAX,
        ensures
            r == self.spec_intersects(other),
    {
        self.start < other.end && self.end > other.start && self.offset < other.offset
            + other.size && self.offset + self.size > other.offset
    }
}

/// Two non-intersecting regions whose byte ranges overlap have disjoint
/// pass intervals: whoever holds the bytes first is gone (exclusively)
/// before the other arrives.
pub proof fn lemma_nonintersecting_overlap_disjoint(a: MemoryRegion, b: MemoryRegion)
    requires
        !a.spec_intersects(b),
        a.offset < b.offset + b.size,
        b.offset < a.offset + a.size,
    ensures
        a.end <= b.start || b.end <= a.start,
{
}

/// One candidate physical heap of a fixed byte size, holding the regions
/// placed into it and the scanline offsets (`0` and the top of every placed
/// region) at which the packer tries new placements.
#[derive(Clone, Debug)]
pub struct HeapBin {
    pub size: u64,
    pub scanlines: Vec<u64>,
    pub elements: Vec<MemoryRegion>,
}

impl HeapBin {
    /// Every bin this module builds satisfies this: placed regions fit in
    /// the bin, are pairwise non-intersecting, and scanlines never exceed
    /// the bin size.
    pub open spec fn wf(self) -> bool {
        &&& forall|k: int, l: int|
            0 <= k < l < self.elements@.len() ==> !(#[trigger] self.elements@[k]).spec_intersects(
                #[trigger] self.elements@[l],
            )
        &&& forall|k: int|
            0 <= k < self.elements@.len() ==> (#[trigger] self.elements@[k]).offset
                + self.elements@[k].size <= self.size
        &&& forall|k: int| 0 <= k < self.scanlines@.len() ==> #[trigger] self.scanlines@[k] <= self.size
    }

    /// The region a resource of `size` bytes and lifetime `lifetime` would
    /// occupy at byte `offset`: the pass interval is made exclusive at the
    /// top.
    pub open spec fn spec_region(offset: u64, size: u64, lifetime: TransientResourceLifetime) -> MemoryRegion {
        MemoryRegion { offset, size, start: lifetime.start, end: (lifetime.end + 1) as u32 }
    }

    /// Whether a placement at `offset` fits: inside the bin and
    /// intersecting no placed region.
    pub open spec fn spec_fits(self, offset: u64, size: u64, lifetime: TransientResourceLifetime) -> bool {
        &&& offset + size <= self.size
        &&& forall|k: int|
            0 <= k < self.elements@.len() ==> !HeapBin::spec_region(offset, size, lifetime).spec_intersects(
                #[trigger] self.elements@[k],
            )
    }

    pub fn new(size: u64) -> (r: HeapBin)
        ensures
            r.wf(),
            r.size == size,
            r.elements@.len() == 0,
            r.scanlines@ == seq![0u64],
    {
        let mut scanlines = Vec::new();
        scanlines.push(0u64);
        assert(scanlines@ =~= seq![0u64]);
        HeapBin { size, scanlines, elements: Vec::new() }
    }

    /// Empties the bin for re-packing; the bin keeps its size and offers
    /// offset `0` again.
    pub fn clear(&mut self)
        ensures
            final(self).wf(),
            final(self).size == old(self).size,
            final(self).elements@.len() == 0,
            final(self).scanlines@ == seq![0u64],
    {
        self.scanlines.clear();
        self.scanlines.push(0u64);
        self.elements.clear();
        assert(self.scanlines@ =~= seq![0u64]);
    }

    /// Whether `newregion` intersects any placed region.
    pub fn occupied(&self, newregion: MemoryRegion) -> (r: bool)
        requires
            self.wf(),
            newregion.offset + newregion.size <= u64::MAX,
        ensures
            r == exists|k: int|
                0 <= k < self.elements@.len() && newregion.spec_intersects(
                    #[trigger] self.elements@[k],
                ),
    {
        let mut i: usize = 0;
        while i < self.elements.len()
            invariant
                self.wf(),
                newregion.offset + newregion.size <= u64::MAX,
                0 <= i <= self.elements@.len(),
                forall|k: int|
                    0 <= k < i ==> !newregion.spec_intersects(#[trigger] self.elements@[k]),
            decreases self.elements@.len() - i,
        {
            if newregion.intersects(self.elements[i]) {
                return true;
            }
            i = i + 1;
        }
        false
    }

    /// Places a resource of `size` bytes with pass interval `lifetime` at
    /// the smallest scanline offset where it fits, appending the region and
    /// a new scanline at its top; returns the chosen offset, or `None` when
    /// no scanline accepts it.
    pub fn insert(&mut self, lifetime: TransientResourceLifetime, size: u64) -> (r: Option<u64>)
        requires
            old(self).wf(),
            size >= 1,
            lifetime.start <= lifetime.end,
            lifetime.end < u32::MAX,
        ensures
            final(self).wf(),
            final(self).size == old(self).size,
            match r {
                Some(offset) => {
                    &&& old(self).spec_fits(offset, size, lifetime)
                    &&& old(self).scanlines@.contains(offset)
                    &&& forall|k: int|
                        0 <= k < old(self).scanlines@.len() && old(self).spec_fits(
                            #[trigger] old(self).scanlines@[k],
                            size,
                            lifetime,
                        ) ==> offset <= old(self).scanlines@[k]
                    &&& final(self).elements@ == old(self).elements@.push(
                        HeapBin::spec_region(offset, size, lifetime),
                    )
                    &&& final(self).scanlines@ == old(self).scanlines@.push((offset + size) as u64)
                },
                None => {
                    &&& *final(self) == *old(self)
                    &&& forall|k: int|
                        0 <= k < old(self).scanlines@.len() ==> !old(self).spec_fits(
                            #[trigger] old(self).scanlines@[k],
                            size,
                            lifetime,
                        )
                },
            },
    {
        if size > self.size {
            assert(forall|k: int|
                0 <= k < self.scanlines@.len() ==> !self.spec_fits(
                    #[trigger] self.scanlines@[k],
                    size,
                    lifetime,
                ));
            return None;
        }

        let mut best: Option<u64> = None;
        let mut i: usize = 0;
        while i < self.scanlines.len()
            invariant
                self.wf(),
                size >= 1,
                size <= self.size,
                lifetime.start <= lifetime.end,
                lifetime.end < u32::MAX,
                0 <= i <= self.scanlines@.len(),
                match best {
                    Some(b) => {
                        &&& self.scanlines@.contains(b)
                        &&& self.spec_fits(b, size, lifetime)
                        &&& forall|k: int|
                            0 <= k < i && self.spec_fits(
                                #[trigger] self.scanlines@[k],
                                size,
                                lifetime,
                            ) ==> b <= self.scanlines@[k]
                    },
                    None => forall|k: int|
                        0 <= k < i ==> !self.spec_fits(#[trigger] self.scanlines@[k], size, lifetime),
                },
            decreases self.scanlines@.len() - i,
        {
            let offset = self.scanlines[i];
            if offset <= self.size - size {
                let region = MemoryRegion::new(offset, size, lifetime.start, lifetime.end + 1);
                if !self.occupied(region) {
                    assert(self.spec_fits(offset, size, lifetime));
                    match best {
                        Option::None => {
                            best = Some(offset);
                        },
                        Option::Some(b) => {
                            if offset < b {
                                best = Some(offset);
                            }
                        },
                    }
                } else {
                    assert(!self.spec_fits(offset, size, lifetime));
                }
            } else {
                assert(!self.spec_fits(offset, size, lifetime));
            }
            i = i + 1;
        }

        match best {
            Option::Some(offset) => {
                let region = MemoryRegion::new(offset, size, lifetime.start, lifetime.end + 1);
                let ghost pre = *self;
                self.elements.push(region);
                self.scanlines.push(offset + size);
                assert forall|k: int, l: int| 0 <= k < l < self.elements@.len() implies !(
                #[trigger] self.elements@[k]).spec_intersects(#[trigger] self.elements@[l]) by {
                    if l == self.elements@.len() - 1 {
                        assert(!region.spec_intersects(pre.elements@[k]));
                    }
                }
                Some(offset)
            },
            Option::None => None,
        }
    }
}

/// A resource as a cache entry remembers it: what decides placement and
/// layout equality.
#[derive(Clone, Copy, Debug, PartialEq, Eq, Structural)]
pub struct CachedResource {
    pub size: u64,
    pub lifetime: TransientResourceLifetime,
    pub desc: ResourceDesc,
    pub resource_id: u32,
}

/// Offset basis of the 64-bit FNV-1a hash.
pub const FNV_OFFSET: u64 = 0xcbf29ce484222325;
/// Prime of the 64-bit FNV-1a hash.
pub const FNV_PRIME: u64 = 0x100000001b3;

/// One FNV-1a step over a 64-bit word.
pub open spec fn spec_mix(h: u64, w: u64) -> u64 {
    vstd::wrapping::u64_specs::wrapping_mul(h ^ w, FNV_PRIME)
}

/// Folds one resource's identity into the hash: usage, lifetime bounds and
/// byte size, in that order.
pub open spec fn spec_hash_resource(h: u64, r: TransientResource) -> u64 {
    spec_mix(
        spec_mix(
            spec_mix(spec_mix(h, r.usage.spec_encode()), r.lifetime.start as u64),
            r.lifetime.end as u64,
        ),
        r.size,
    )
}

/// The layout key of a frame: FNV-1a over the ordered sequence of
/// `(usage, lifetime.start, lifetime.end, size)` tuples.
pub open spec fn spec_hash_resources(rs: Seq<TransientResource>) -> u64
    decreases rs.len(),
{
    if rs.len() == 0 {
        FNV_OFFSET
    } else {
        spec_hash_resource(spec_hash_resources(rs.drop_last()), rs.last())
    }
}

fn mix(h: u64, w: u64) -> (r: u64)
    ensures
        r == spec_mix(h, w),
{
    (h ^ w).wrapping_mul(FNV_PRIME)
}

/// Hashes the frame's resource sequence into its 64-bit layout key.
pub fn hash_resources(resources: &Vec<TransientResource>) -> (r: u64)
    ensures
        r == spec_hash_resources(resources@),
{
    let mut h: u64 = FNV_OFFSET;
    let mut i: usize = 0;
    while i < resources.len()
        invariant
            0 <= i <= resources@.len(),
            h == spec_hash_resources(resources@.subrange(0, i as int)),
        decreases resources@.len() - i,
    {
        let res = &resources[i];
        h = mix(h, res.usage.encode());
        h = mix(h, res.lifetime.start as u64);
        h = mix(h, res.lifetime.end as u64);
        h = mix(h, res.size);
        proof {
            let pre = resources@.subrange(0, i as int);
            let post = resources@.subrange(0, i + 1);
            assert(post.drop_last() =~= pre);
            assert(post.last() == resources@[i as int]);
        }
        i = i + 1;
    }
    proof {
        assert(resources@.subrange(0, resources@.len() as int) =~= resources@);
    }
    h
}

/// Insertion of one resource into a size-descending sequence, after every
/// at-least-as-large element: the step of a stable descending sort.
pub open spec fn spec_insert_desc(s: Seq<CachedResource>, x: CachedResource) -> Seq<CachedResource>
    decreases s.len(),
{
    if s.len() == 0 {
        seq![x]
    } else if x.size > s[0].size {
        seq![x] + s
    } else {
        seq![s[0]] + spec_insert_desc(s.drop_first(), x)
    }
}

/// Stable insertion sort of the frame's resources by byte size, largest
/// first; ties keep their recording order.
pub open spec fn spec_sort_cached(s: Seq<CachedResource>) -> Seq<CachedResource>
    decreases s.len(),
{
    if s.len() == 0 {
        Seq::empty()
    } else {
        spec_insert_desc(spec_sort_cached(s.drop_last()), s.last())
    }
}

/// Size-descending order of a sequence of cached resources.
pub open spec fn spec_sorted_desc(s: Seq<CachedResource>) -> bool {
    forall|i: int, j: int| 0 <= i < j < s.len() ==> s[i].size >= s[j].size
}

pub proof fn lemma_insert_desc_props(s: Seq<CachedResource>, x: CachedResource)
    requires
        spec_sorted_desc(s),
    ensures
        spec_sorted_desc(spec_insert_desc(s, x)),
        spec_insert_desc(s, x).len() == s.len() + 1,
        forall|y: CachedResource|
            #[trigger] spec_insert_desc(s, x).contains(y) <==> (s.contains(y) || y == x),
        forall|y: CachedResource|
            s.contains(y) || y == x ==> #[trigger] spec_insert_desc(s, x).contains(y),
    decreases s.len(),
{
    let r = spec_insert_desc(s, x);
    if s.len() == 0 {
        assert forall|y: CachedResource| r.contains(y) implies (s.contains(y) || y == x) by {
            let k = choose|k: int| 0 <= k < r.len() && r[k] == y;
            assert(r[k] == x);
        }
        assert(r[0] == x);
        assert(r.contains(x));
    } else if x.size > s[0].size {
        assert(r =~= seq![x] + s);
        assert forall|y: CachedResource| r.contains(y) implies (s.contains(y) || y == x) by {
            let k = choose|k: int| 0 <= k < r.len() && r[k] == y;
            if k > 0 {
                assert(s[k - 1] == y);
            }
        }
        assert forall|y: CachedResource| s.contains(y) || y == x implies r.contains(y) by {
            if s.contains(y) {
                let k = choose|k: int| 0 <= k < s.len() && s[k] == y;
                assert(r[k + 1] == y);
            } else {
                assert(r[0] == y);
            }
        }
    } else {
        let tail = s.drop_first();
        assert(spec_sorted_desc(tail)) by {
            assert(forall|i: int, j: int|
                0 <= i < j < tail.len() ==> tail[i] == s[i + 1] && tail[j] == s[j + 1]);
        }
        lemma_insert_desc_props(tail, x);
        let rt = spec_insert_desc(tail, x);
        assert(r =~= seq![s[0]] + rt);
        assert(spec_sorted_desc(r)) by {
            assert forall|i: int, j: int| 0 <= i < j < r.len() implies r[i].size >= r[j].size by {
                if i == 0 {
                    assert(rt.contains(r[j])) by {
                        assert(r[j] == rt[j - 1]);
                    }
                    if rt[j - 1] == x {
                        assert(s[0].size >= x.size);
                    } else {
                        assert(tail.contains(rt[j - 1]));
                        let k = choose|k: int| 0 <= k < tail.len() && tail[k] == rt[j - 1];
                        assert(tail[k] == s[k + 1]);
                        assert(s[0].size >= s[k + 1].size);
                    }
                } else {
                    assert(r[i] == rt[i - 1] && r[j] == rt[j - 1]);
                }
            }
        }
        assert forall|y: CachedResource| r.contains(y) implies (s.contains(y) || y == x) by {
            let k = choose|k: int| 0 <= k < r.len() && r[k] == y;
            if k == 0 {
                assert(s[0] == y);
            } else {
                assert(rt[k - 1] == y);
                assert(rt.contains(y));
                if tail.contains(y) {
                    let m = choose|m: int| 0 <= m < tail.len() && tail[m] == y;
                    assert(s[m + 1] == y);
                }
            }
        }
        assert forall|y: CachedResource| s.contains(y) || y == x implies r.contains(y) by {
            if y == x || tail.contains(y) {
                assert(rt.contains(y)) by {
                    if y == x {
                        assert(spec_insert_desc(tail, x).contains(y));
                    } else {
                        assert(spec_insert_desc(tail, x).contains(y));
                    }
                }
                let m = choose|m: int| 0 <= m < rt.len() && rt[m] == y;
                assert(r[m + 1] == y);
            } else {
                let k = choose|k: int| 0 <= k < s.len() && s[k] == y;
                if k == 0 {
                    assert(r[0] == y);
                } else {
                    assert(tail[k - 1] == y);
                    assert(tail.contains(y));
                }
            }
        }
    }
}

pub proof fn lemma_sort_cached_props(s: Seq<CachedResource>)
    ensures
        spec_sorted_desc(spec_sort_cached(s)),
        spec_sort_cached(s).len() == s.len(),
        forall|y: CachedResource| #[trigger] spec_sort_cached(s).contains(y) <==> s.contains(y),
        forall|y: CachedResource| s.contains(y) ==> #[trigger] spec_sort_cached(s).contains(y),
    decreases s.len(),
{
    if s.len() == 0 {
    } else {
        let pre = s.drop_last();
        lemma_sort_cached_props(pre);
        lemma_insert_desc_props(spec_sort_cached(pre), s.last());
        assert forall|y: CachedResource| spec_sort_cached(s).contains(y) implies s.contains(y) by {
            if pre.contains(y) {
                let k = choose|k: int| 0 <= k < pre.len() && pre[k] == y;
                assert(s[k] == y);
            } else {
                assert(y == s.last());
            }
        }
        assert forall|y: CachedResource| s.contains(y) implies spec_sort_cached(s).contains(y) by {
            let k = choose|k: int| 0 <= k < s.len() && s[k] == y;
            if k < s.len() - 1 {
                assert(pre[k] == y);
                assert(pre.contains(y));
            } else {
                assert(y == s.last());
            }
        }
    }
}

/// Where the stable descending insertion lands: after the `p` leading
/// elements at least as large as `x`.
proof fn lemma_insert_desc_at(s: Seq<CachedResource>, x: CachedResource, p: int)
    requires
        spec_sorted_desc(s),
        0 <= p <= s.len(),
        forall|k: int| 0 <= k < p ==> !(x.size > s[k].size),
        p < s.len() ==> x.size > s[p].size,
    ensures
        spec_insert_desc(s, x) == s.subrange(0, p) + seq![x] + s.subrange(p, s.len() as int),
    decreases s.len(),
{
    if s.len() == 0 {
        assert(spec_insert_desc(s, x) =~= s.subrange(0, p) + seq![x] + s.subrange(p, s.len() as int));
    } else if p == 0 {
        assert(x.size > s[0].size);
        assert(spec_insert_desc(s, x) =~= s.subrange(0, 0) + seq![x] + s.subrange(0, s.len() as int));
    } else {
        let tail = s.drop_first();
        assert(spec_sorted_desc(tail)) by {
            assert(forall|i: int, j: int|
                0 <= i < j < tail.len() ==> tail[i] == s[i + 1] && tail[j] == s[j + 1]);
        }
        assert(forall|k: int| 0 <= k < p - 1 ==> tail[k] == s[k + 1]);
        lemma_insert_desc_at(tail, x, p - 1);
        assert(spec_insert_desc(s, x) =~= s.subrange(0, p) + seq![x] + s.subrange(p, s.len() as int))
            by {
            assert(spec_insert_desc(s, x) == seq![s[0]] + spec_insert_desc(tail, x));
            assert(spec_insert_desc(tail, x) == tail.subrange(0, p - 1) + seq![x] + tail.subrange(
                p - 1,
                tail.len() as int,
            ));
            assert(forall|k: int| 0 <= k < tail.len() ==> tail[k] == s[k + 1]);
        }
    }
}

/// Sorts the frame's resources by byte size, largest first, keeping
/// recording order among equal sizes.
pub fn sort_cached_desc(input: Vec<CachedResource>) -> (r: Vec<CachedResource>)
    ensures
        r@ == spec_sort_cached(input@),
        spec_sorted_desc(r@),
        r@.len() == input@.len(),
        forall|y: CachedResource| r@.contains(y) <==> input@.contains(y),
{
    proof {
        lemma_sort_cached_props(input@);
    }
    let mut out: Vec<CachedResource> = Vec::new();
    let mut i: usize = 0;
    while i < input.len()
        invariant
            0 <= i <= input@.len(),
            out@ == spec_sort_cached(input@.subrange(0, i as int)),
            spec_sorted_desc(out@),
        decreases input@.len() - i,
    {
        let x = input[i];
        // find the first position whose element is strictly smaller
        let mut p: usize = 0;
        while p < out.len() && !(x.size > out[p].size)
            invariant
                0 <= p <= out@.len(),
                forall|k: int| 0 <= k < p ==> !(x.size > out@[k].size),
            decreases out@.len() - p,
        {
            p = p + 1;
        }
        proof {
            lemma_insert_desc_at(out@, x, p as int);
        }
        out.insert(p, x);
        proof {
            let pre = input@.subrange(0, i as int);
            let post = input@.subrange(0, i + 1);
            assert(post.drop_last() =~= pre);
            assert(post.last() == input@[i as int]);
            assert(out@ =~= spec_insert_desc(spec_sort_cached(pre), x));
            lemma_insert_desc_props(spec_sort_cached(pre), x);
        }
        i = i + 1;
    }
    proof {
        assert(input@.subrange(0, input@.len() as int) =~= input@);
    }
    out
}

/// No two resources assigned byte-overlapping ranges of the same heap have
/// overlapping lifetime intervals (ends inclusive).
pub open spec fn spec_indices_aliasing_safe(
    indices: Seq<(usize, u64)>,
    resources: Seq<CachedResource>,
) -> bool {
    forall|i: int, j: int|
        #![trigger indices[i], indices[j]]
        0 <= i < resources.len() && 0 <= j < resources.len() && i != j && i < indices.len() && j
            < indices.len() && indices[i].0 == indices[j].0 && indices[i].1 < indices[j].1
            + resources[j].size && indices[j].1 < indices[i].1 + resources[i].size
            ==> resources[i].lifetime.end < resources[j].lifetime.start
                || resources[j].lifetime.end < resources[i].lifetime.start
}

/// The allocator state holds, in some layout, a placed resource under
/// `handle` at exactly these bytes of the heap with identity `heap_id`,
/// created from `desc`.
pub open spec fn spec_had_placement(
    a: HeapMemoryAllocator,
    heap_id: u64,
    offset: u64,
    desc: ResourceDesc,
    handle: u64,
) -> bool {
    exists|e: int, i: int|
        #![trigger a.cache@[e].placed_resources@[i]]
        0 <= e < a.cache@.len() && a.cache@[e].used && 0 <= i < a.cache@[e].indices@.len() && i
            < a.cache@[e].resources@.len() && i < a.cache@[e].placed_resources@.len() && (
        a.cache@[e].indices@[i]).0 < a.current_layout@.len() && a.current_layout@[(
        a.cache@[e].indices@[i]).0 as int].id == heap_id && (a.cache@[e].indices@[i]).1 == offset
            && a.cache@[e].resources@[i].desc == desc && a.cache@[e].placed_resources@[i] == handle
}

/// Ordered device work only grows; whatever it contains stays contained.
proof fn lemma_ops_prefix(ops1: Seq<HeapOp>, ops2: Seq<HeapOp>)
    requires
        ops1.len() <= ops2.len(),
        forall|j: int| 0 <= j < ops1.len() ==> #[trigger] ops2[j] == ops1[j],
    ensures
        forall|x: HeapOp| ops1.contains(x) ==> #[trigger] ops2.contains(x),
{
    assert forall|x: HeapOp| ops1.contains(x) implies #[trigger] ops2.contains(x) by {
        let w = choose|w: int| 0 <= w < ops1.len() && ops1[w] == x;
        assert(ops2[w] == x);
    }
}

/// Rotating a fresh, placement-free entry to the front invents no
/// placements: whatever the rotated cache holds, the original held.
proof fn lemma_rotated_placements(rotated: HeapMemoryAllocator, orig: HeapMemoryAllocator)
    requires
        rotated.cache@.len() == CACHE_ENTRIES,
        orig.cache@.len() == CACHE_ENTRIES,
        rotated.current_layout@ == orig.current_layout@,
        rotated.cache@[0].placed_resources@.len() == 0,
        forall|k: int| 1 <= k < CACHE_ENTRIES ==> #[trigger] rotated.cache@[k] == orig.cache@[k - 1],
    ensures
        forall|hid: u64, off: u64, d: ResourceDesc, h: u64|
            #![trigger spec_had_placement(rotated, hid, off, d, h)]
            spec_had_placement(rotated, hid, off, d, h) ==> spec_had_placement(
                orig,
                hid,
                off,
                d,
                h,
            ),
{
    assert forall|hid: u64, off: u64, d: ResourceDesc, h: u64|
        spec_had_placement(rotated, hid, off, d, h) implies spec_had_placement(
        orig,
        hid,
        off,
        d,
        h,
    ) by {
        let (e2, i2) = choose|e2: int, i2: int|
            #![trigger rotated.cache@[e2].placed_resources@[i2]]
            0 <= e2 < rotated.cache@.len() && rotated.cache@[e2].used && 0 <= i2
                < rotated.cache@[e2].indices@.len() && i2 < rotated.cache@[e2].resources@.len()
                && i2 < rotated.cache@[e2].placed_resources@.len() && (
            rotated.cache@[e2].indices@[i2]).0 < rotated.current_layout@.len()
                && rotated.current_layout@[(rotated.cache@[e2].indices@[i2]).0 as int].id == hid
                && (rotated.cache@[e2].indices@[i2]).1 == off
                && rotated.cache@[e2].resources@[i2].desc == d
                && rotated.cache@[e2].placed_resources@[i2] == h;
        assert(e2 > 0);
        assert(rotated.cache@[e2] == orig.cache@[e2 - 1]);
        assert(orig.cache@[e2 - 1].placed_resources@[i2] == h);
    }
}

/// Placement coverage survives filling view handles and appending further
/// work: the placement fields are untouched and ordered work only grows.
proof fn lemma_coverage_carries(
    orig: HeapMemoryAllocator,
    rotated: HeapMemoryAllocator,
    resized: HeapMemoryAllocator,
    fin: HeapMemoryAllocator,
    rops: Seq<HeapOp>,
    allops: Seq<HeapOp>,
)
    requires
        forall|hid: u64, off: u64, d: ResourceDesc, h: u64|
            #![trigger spec_had_placement(rotated, hid, off, d, h)]
            spec_had_placement(rotated, hid, off, d, h) ==> spec_had_placement(
                orig,
                hid,
                off,
                d,
                h,
            ),
        forall|e: int, i: int|
            #![trigger resized.cache@[e].placed_resources@[i]]
            0 <= e < CACHE_ENTRIES && resized.cache@[e].used && 0 <= i
                < resized.cache@[e].resources@.len() ==> spec_had_placement(
                rotated,
                resized.current_layout@[(resized.cache@[e].indices@[i]).0 as int].id,
                (resized.cache@[e].indices@[i]).1,
                resized.cache@[e].resources@[i].desc,
                resized.cache@[e].placed_resources@[i],
            ) || rops.contains(
                HeapOp::CreatePlacedResource {
                    handle: resized.cache@[e].placed_resources@[i],
                    heap_index: (resized.cache@[e].indices@[i]).0,
                    offset: (resized.cache@[e].indices@[i]).1,
                    desc: resized.cache@[e].resources@[i].desc,
                },
            ),
        fin.cache@.len() == CACHE_ENTRIES,
        resized.cache@.len() == CACHE_ENTRIES,
        fin.current_layout@ == resized.current_layout@,
        forall|k: int| 1 <= k < CACHE_ENTRIES ==> #[trigger] fin.cache@[k] == resized.cache@[k],
        fin.cache@[0].used == resized.cache@[0].used,
        fin.cache@[0].resources@ == resized.cache@[0].resources@,
        fin.cache@[0].indices@ == resized.cache@[0].indices@,
        fin.cache@[0].placed_resources@ == resized.cache@[0].placed_resources@,
        rops.len() <= allops.len(),
        forall|j: int| 0 <= j < rops.len() ==> #[trigger] allops[j] == rops[j],
    ensures
        forall|e: int, i: int|
            #![trigger fin.cache@[e].placed_resources@[i]]
            0 <= e < CACHE_ENTRIES && fin.cache@[e].used && 0 <= i
                < fin.cache@[e].resources@.len() ==> spec_had_placement(
                orig,
                fin.current_layout@[(fin.cache@[e].indices@[i]).0 as int].id,
                (fin.cache@[e].indices@[i]).1,
                fin.cache@[e].resources@[i].desc,
                fin.cache@[e].placed_resources@[i],
            ) || allops.contains(
                HeapOp::CreatePlacedResource {
                    handle: fin.cache@[e].placed_resources@[i],
                    heap_index: (fin.cache@[e].indices@[i]).0,
                    offset: (fin.cache@[e].indices@[i]).1,
                    desc: fin.cache@[e].resources@[i].desc,
                },
            ),
{
    lemma_ops_prefix(rops, allops);
    assert forall|e: int, i: int|
        #![trigger fin.cache@[e].placed_resources@[i]]
        0 <= e < CACHE_ENTRIES && fin.cache@[e].used && 0 <= i
            < fin.cache@[e].resources@.len() implies spec_had_placement(
        orig,
        fin.current_layout@[(fin.cache@[e].indices@[i]).0 as int].id,
        (fin.cache@[e].indices@[i]).1,
        fin.cache@[e].resources@[i].desc,
        fin.cache@[e].placed_resources@[i],
    ) || allops.contains(
        HeapOp::CreatePlacedResource {
            handle: fin.cache@[e].placed_resources@[i],
            heap_index: (fin.cache@[e].indices@[i]).0,
            offset: (fin.cache@[e].indices@[i]).1,
            desc: fin.cache@[e].resources@[i].desc,
        },
    ) by {
        if e > 0 {
            assert(fin.cache@[e] == resized.cache@[e]);
        }
        assert(resized.cache@[e].used);
        assert(resized.cache@[e].placed_resources@[i] == fin.cache@[e].placed_resources@[i]);
    }
}

/// Lifetime and size bounds under which a resource can be packed.
pub open spec fn spec_packable(r: CachedResource) -> bool {
    &&& r.size >= 1
    &&& r.lifetime.start <= r.lifetime.end
    &&& r.lifetime.end < u32::MAX
}

/// Tries every bin in order and places the resource into the first that
/// accepts it, leaving every other bin untouched.
fn place_into_bins(
    bins: &mut Vec<HeapBin>,
    lifetime: TransientResourceLifetime,
    size: u64,
) -> (r: Option<(usize, u64)>)
    requires
        forall|k: int| 0 <= k < old(bins)@.len() ==> (#[trigger] old(bins)@[k]).wf(),
        size >= 1,
        lifetime.start <= lifetime.end,
        lifetime.end < u32::MAX,
    ensures
        final(bins)@.len() == old(bins)@.len(),
        forall|k: int| 0 <= k < final(bins)@.len() ==> (#[trigger] final(bins)@[k]).wf(),
        forall|k: int|
            0 <= k < final(bins)@.len() ==> (#[trigger] final(bins)@[k]).size == old(bins)@[k].size,
        match r {
            Some(p) => {
                &&& (p.0 as int) < final(bins)@.len()
                &&& p.1 + size <= final(bins)@[p.0 as int].size
                &&& final(bins)@[p.0 as int].elements@ == old(bins)@[p.0 as int].elements@.push(
                    HeapBin::spec_region(p.1, size, lifetime),
                )
                &&& forall|k: int|
                    0 <= k < final(bins)@.len() && k != p.0 as int ==> #[trigger] final(bins)@[k]
                        == old(bins)@[k]
            },
            None => final(bins)@ == old(bins)@,
        },
{
    let mut i: usize = 0;
    while i < bins.len()
        invariant
            size >= 1,
            lifetime.start <= lifetime.end,
            lifetime.end < u32::MAX,
            0 <= i <= bins@.len(),
            bins@ == old(bins)@,
            forall|k: int| 0 <= k < bins@.len() ==> (#[trigger] bins@[k]).wf(),
        decreases bins@.len() - i,
    {
        let ghost pre = bins@;
        let r = bins[i].insert(lifetime, size);
        match r {
            Option::Some(off) => {
                return Some((i, off));
            },
            Option::None => {
                proof {
                    assert(bins@ =~= pre);
                }
            },
        }
        i = i + 1;
    }
    None
}

/// Packs one frame's resource list into the shared bin list, starting from
/// empty bins: first-fit over the bins in order, with a fresh exact-size
/// bin appended when none accepts.  Returns the `(bin, byte offset)` chosen
/// for each resource; bins that received a placement are flagged in `used`.
///
/// The returned placement is aliasing-safe: resources given overlapping
/// byte ranges of one bin never share a pass.
fn pack_entry(
    bins: &mut Vec<HeapBin>,
    used: &mut Vec<bool>,
    resources: &Vec<CachedResource>,
) -> (indices: Vec<(usize, u64)>)
    requires
        old(bins)@.len() == old(used)@.len(),
        forall|k: int| 0 <= k < old(bins)@.len() ==> (#[trigger] old(bins)@[k]).wf(),
        forall|i: int| 0 <= i < resources@.len() ==> spec_packable(#[trigger] resources@[i]),
    ensures
        final(bins)@.len() == final(used)@.len(),
        final(bins)@.len() >= old(bins)@.len(),
        forall|k: int| 0 <= k < final(bins)@.len() ==> (#[trigger] final(bins)@[k]).wf(),
        forall|k: int|
            0 <= k < old(bins)@.len() ==> (#[trigger] final(bins)@[k]).size == old(bins)@[k].size,
        forall|k: int| 0 <= k < old(used)@.len() ==> (old(used)@[k] ==> #[trigger] final(used)@[k]),
        indices@.len() == resources@.len(),
        forall|i: int| 0 <= i < indices@.len() ==> (#[trigger] indices@[i]).0 < final(bins)@.len(),
        forall|i: int|
            0 <= i < indices@.len() ==> final(used)@[(#[trigger] indices@[i]).0 as int],
        forall|i: int|
            0 <= i < indices@.len() ==> (#[trigger] indices@[i]).1 + resources@[i].size
                <= final(bins)@[indices@[i].0 as int].size,
        spec_indices_aliasing_safe(indices@, resources@),
{
    // start from empty bins
    let mut k: usize = 0;
    while k < bins.len()
        invariant
            bins@.len() == old(bins)@.len(),
            0 <= k <= bins@.len(),
            forall|j: int| 0 <= j < bins@.len() ==> (#[trigger] bins@[j]).wf(),
            forall|j: int| 0 <= j < bins@.len() ==> (#[trigger] bins@[j]).size == old(bins)@[j].size,
            forall|j: int| 0 <= j < k ==> (#[trigger] bins@[j]).elements@.len() == 0,
        decreases bins@.len() - k,
    {
        bins[k].clear();
        k = k + 1;
    }

    let mut indices: Vec<(usize, u64)> = Vec::new();
    let ghost mut positions: Seq<(int, int)> = Seq::empty();

    let mut idx: usize = 0;
    while idx < resources.len()
        invariant
            forall|i: int| 0 <= i < resources@.len() ==> spec_packable(#[trigger] resources@[i]),
            old(bins)@.len() == old(used)@.len(),
            bins@.len() == used@.len(),
            bins@.len() >= old(bins)@.len(),
            forall|j: int| 0 <= j < bins@.len() ==> (#[trigger] bins@[j]).wf(),
            forall|j: int|
                0 <= j < old(bins)@.len() ==> (#[trigger] bins@[j]).size == old(bins)@[j].size,
            forall|j: int| 0 <= j < old(used)@.len() ==> (old(used)@[j] ==> #[trigger] used@[j]),
            0 <= idx <= resources@.len(),
            indices@.len() == idx,
            positions.len() == idx,
            forall|i: int| 0 <= i < idx ==> (#[trigger] indices@[i]).0 < bins@.len(),
            forall|i: int| 0 <= i < idx ==> used@[(#[trigger] indices@[i]).0 as int],
            forall|i: int|
                0 <= i < idx ==> (#[trigger] indices@[i]).1 + resources@[i].size
                    <= bins@[indices@[i].0 as int].size,
            forall|i: int| 0 <= i < idx ==> (#[trigger] positions[i]).0 == indices@[i].0 as int,
            forall|i: int|
                0 <= i < idx ==> 0 <= (#[trigger] positions[i]).1
                    < bins@[positions[i].0].elements@.len(),
            forall|i: int|
                0 <= i < idx ==> bins@[(#[trigger] positions[i]).0].elements@[positions[i].1]
                    == HeapBin::spec_region(
                    indices@[i].1,
                    resources@[i].size,
                    resources@[i].lifetime,
                ),
            forall|i: int, j: int|
                0 <= i < j < idx && (#[trigger] positions[i]).0 == (#[trigger] positions[j]).0
                    ==> positions[i].1 != positions[j].1,
        decreases resources@.len() - idx,
    {
        let res = resources[idx];
        let ghost prebins = bins@;
        let r = place_into_bins(bins, res.lifetime, res.size);
        let placement: (usize, u64) = match r {
            Option::Some(p) => p,
            Option::None => {
                // no bin accepts the resource: append a fresh bin of its
                // exact size, which takes it at offset zero
                let nb = HeapBin::new(res.size);
                bins.push(nb);
                used.push(false);
                let j = bins.len() - 1;
                let ghost fresh = bins@[j as int];
                let r2 = bins[j].insert(res.lifetime, res.size);
                match r2 {
                    Option::Some(off) => (j, off),
                    Option::None => {
                        proof {
                            assert(fresh.scanlines@[0] == 0);
                            assert(fresh.spec_fits(0, res.size, res.lifetime));
                            assert(false);
                        }
                        (0, 0u64)
                    },
                }
            },
        };
        let slot = placement.0;
        let off = placement.1;
        used[slot] = true;
        indices.push((slot, off));
        proof {
            positions = positions.push(
                (slot as int, bins@[slot as int].elements@.len() - 1),
            );
        }
        idx = idx + 1;
    }

    proof {
        assert forall|i: int, j: int|
            0 <= i < resources@.len() && 0 <= j < resources@.len() && i != j && i < indices@.len()
                && j < indices@.len() && (#[trigger] indices@[i]).0 == (#[trigger] indices@[j]).0
                && indices@[i].1 < indices@[j].1 + resources@[j].size && indices@[j].1
                < indices@[i].1 + resources@[i].size implies resources@[i].lifetime.end
            < resources@[j].lifetime.start || resources@[j].lifetime.end
            < resources@[i].lifetime.start by {
            let b = positions[i].0;
            let ki = positions[i].1;
            let kj = positions[j].1;
            let ri = HeapBin::spec_region(indices@[i].1, resources@[i].size, resources@[i].lifetime);
            let rj = HeapBin::spec_region(indices@[j].1, resources@[j].size, resources@[j].lifetime);
            assert(bins@[b].elements@[ki] == ri);
            assert(bins@[b].elements@[kj] == rj);
            assert(ki != kj);
            assert(!ri.spec_intersects(rj)) by {
                if ki < kj {
                    assert(!ri.spec_intersects(rj));
                } else {
                    assert(!rj.spec_intersects(ri));
                }
            }
        }
    }
    indices
}

/// A physical heap the allocator holds: its identity (stable across
/// carry-over) and byte size.
#[derive(Clone, Copy, Debug, PartialEq, Eq, Structural)]
pub struct Heap {
    pub id: u64,
    pub size: u64,
}

/// One piece of device work the compile step asks the caller to perform.
/// The library only plans; the embedder executes these against the real
/// device.
#[derive(Clone, Copy, Debug, PartialEq, Eq, Structural)]
pub enum HeapOp {
    CreateHeap { index: usize, size: u64 },
    ReleaseHeap { index: usize, size: u64 },
    CreatePlacedResource { handle: u64, heap_index: usize, offset: u64, desc: ResourceDesc },
    CreateRenderTargetView { resource_handle: u64, view_id: u32, desc: RenderTargetViewDesc },
    CreateShaderResourceView { resource_handle: u64, view_id: u32, desc: ShaderResourceViewDesc },
}

/// Number of recent frame layouts the allocator remembers.
pub const CACHE_ENTRIES: usize = 8;

/// Slots in each descriptor slab; view ids index into a slab and must stay
/// below this.
pub const DESCRIPTOR_SLAB_CAPACITY: u32 = 3000;

/// A fully resolved layout for one previously seen resource set.
#[derive(Clone, Debug)]
pub struct HeapMemoryCacheEntry {
    /// Whether the slot holds a layout at all.
    pub used: bool,
    /// Hash of the resource sequence this layout was built for.
    pub hash: u64,
    /// The resource list, sorted by size descending.
    pub resources: Vec<CachedResource>,
    /// The frame's view list.
    pub views: Vec<ResourceView>,
    /// Placed-resource handle per entry of `resources`.
    pub placed_resources: Vec<u64>,
    /// Resolved CPU descriptor handle per entry of `views` (zero for views
    /// that live in the GPU-visible slab).
    pub cpu_handles: Vec<u64>,
    /// Resolved GPU descriptor handle per entry of `views` (zero for views
    /// that live in the CPU slab).
    pub gpu_handles: Vec<u64>,
    /// `(heap index, byte offset)` per entry of `resources`.
    pub indices: Vec<(usize, u64)>,
}

impl HeapMemoryCacheEntry {
    /// Every resource of the entry can be packed.
    pub open spec fn spec_packable(self) -> bool {
        forall|i: int| 0 <= i < self.resources@.len() ==> spec_packable(#[trigger] self.resources@[i])
    }

    /// The entry's placement is complete and aliasing-safe against a heap
    /// list of `nheaps` heaps with the given sizes.
    pub open spec fn spec_resolved(self, heaps: Seq<Heap>) -> bool {
        &&& self.indices@.len() == self.resources@.len()
        &&& self.placed_resources@.len() == self.resources@.len()
        &&& forall|i: int|
            0 <= i < self.indices@.len() ==> (#[trigger] self.indices@[i]).0 < heaps.len()
        &&& forall|i: int|
            0 <= i < self.indices@.len() ==> (#[trigger] self.indices@[i]).1
                + self.resources@[i].size <= heaps[self.indices@[i].0 as int].size
        &&& spec_indices_aliasing_safe(self.indices@, self.resources@)
    }

    pub fn new() -> (r: HeapMemoryCacheEntry)
        ensures
            !r.used,
            r.hash == 0,
            r.resources@.len() == 0,
            r.views@.len() == 0,
            r.placed_resources@.len() == 0,
            r.cpu_handles@.len() == 0,
            r.gpu_handles@.len() == 0,
            r.indices@.len() == 0,
    {
        HeapMemoryCacheEntry {
            used: false,
            hash: 0,
            resources: Vec::new(),
            views: Vec::new(),
            placed_resources: Vec::new(),
            cpu_handles: Vec::new(),
            gpu_handles: Vec::new(),
            indices: Vec::new(),
        }
    }

    /// The resolved CPU descriptor handle of view `id` of this layout.
    pub fn get_cpu_handle(&self, id: usize) -> (r: u64)
        requires
            id < self.cpu_handles@.len(),
        ensures
            r == self.cpu_handles@[id as int],
    {
        self.cpu_handles[id]
    }

    /// The resolved GPU descriptor handle of view `id` of this layout.
    pub fn get_gpu_handle(&self, id: usize) -> (r: u64)
        requires
            id < self.gpu_handles@.len(),
        ensures
            r == self.gpu_handles@[id as int],
    {
        self.gpu_handles[id]
    }
}

/// Orders the bins that received a placement into the target heap list,
/// largest first (first-found wins among equals), and returns for every bin
/// its slot in that list.
///
/// `r.0` is the size of each target heap; `r.1[k]` is the slot of bin `k`
/// (meaningful only where `used[k]`), distinct for distinct used bins.
fn sort_used_bins(bins: &Vec<HeapBin>, used: &Vec<bool>) -> (r: (Vec<u64>, Vec<usize>))
    requires
        used@.len() == bins@.len(),
    ensures
        r.1@.len() == bins@.len(),
        forall|a: int, b: int| 0 <= a < b < r.0@.len() ==> r.0@[a] >= r.0@[b],
        forall|k: int|
            0 <= k < bins@.len() && used@[k] ==> (#[trigger] r.1@[k]) < r.0@.len(),
        forall|k: int|
            0 <= k < bins@.len() && used@[k] ==> r.0@[(#[trigger] r.1@[k]) as int] == bins@[k].size,
        forall|k: int, l: int|
            0 <= k < bins@.len() && 0 <= l < bins@.len() && used@[k] && used@[l] && k != l
                ==> #[trigger] r.1@[k] != #[trigger] r.1@[l],
{
    let n = bins.len();
    let mut picked: Vec<bool> = Vec::new();
    let mut remap: Vec<usize> = Vec::new();
    let mut i: usize = 0;
    while i < n
        invariant
            picked@.len() == i,
            remap@.len() == i,
            0 <= i <= n,
            forall|k: int| 0 <= k < i ==> !(#[trigger] picked@[k]),
        decreases n - i,
    {
        picked.push(false);
        remap.push(0);
        i = i + 1;
    }

    let mut sizes: Vec<u64> = Vec::new();
    loop
        invariant
            n == bins@.len(),
            used@.len() == n,
            picked@.len() == n,
            remap@.len() == n,
            forall|k: int| 0 <= k < n && #[trigger] picked@[k] ==> used@[k],
            forall|k: int|
                0 <= k < n && #[trigger] picked@[k] ==> remap@[k] < sizes@.len(),
            forall|k: int|
                0 <= k < n && #[trigger] picked@[k] ==> sizes@[remap@[k] as int] == bins@[k].size,
            forall|k: int, l: int|
                0 <= k < n && 0 <= l < n && picked@[k] && picked@[l] && k != l
                    ==> #[trigger] remap@[k] != #[trigger] remap@[l],
            forall|a: int, b: int| 0 <= a < b < sizes@.len() ==> sizes@[a] >= sizes@[b],
            forall|k: int|
                0 <= k < n && used@[k] && !picked@[k] ==> forall|a: int|
                    0 <= a < sizes@.len() ==> sizes@[a] >= (#[trigger] bins@[k]).size,
        ensures
            forall|k: int| 0 <= k < n && used@[k] ==> #[trigger] picked@[k],
            picked@.len() == n,
            remap@.len() == n,
            forall|k: int| 0 <= k < n && #[trigger] picked@[k] ==> used@[k],
            forall|k: int|
                0 <= k < n && #[trigger] picked@[k] ==> remap@[k] < sizes@.len(),
            forall|k: int|
                0 <= k < n && #[trigger] picked@[k] ==> sizes@[remap@[k] as int] == bins@[k].size,
            forall|k: int, l: int|
                0 <= k < n && 0 <= l < n && picked@[k] && picked@[l] && k != l
                    ==> #[trigger] remap@[k] != #[trigger] remap@[l],
            forall|a: int, b: int| 0 <= a < b < sizes@.len() ==> sizes@[a] >= sizes@[b],
        decreases spec_candidates(used@, picked@, n as int),
    {
        // the largest bin not yet placed in the target list
        let mut best: Option<usize> = None;
        let mut k: usize = 0;
        while k < n
            invariant
                n == bins@.len(),
                used@.len() == n,
                picked@.len() == n,
                0 <= k <= n,
                match best {
                    Some(b) => {
                        &&& (b as int) < n
                        &&& used@[b as int]
                        &&& !picked@[b as int]
                        &&& forall|m: int|
                            0 <= m < k && used@[m] && !picked@[m] ==> (#[trigger] bins@[m]).size
                                <= bins@[b as int].size
                    },
                    None => forall|m: int| 0 <= m < k ==> !(used@[m] && !(#[trigger] picked@[m])),
                },
            decreases n - k,
        {
            if used[k] && !picked[k] {
                match best {
                    Option::None => {
                        best = Some(k);
                    },
                    Option::Some(b) => {
                        if bins[k].size > bins[b].size {
                            best = Some(k);
                        }
                    },
                }
            }
            k = k + 1;
        }
        match best {
            Option::None => {
                break;
            },
            Option::Some(b) => {
                let ghost prepicked = picked@;
                picked[b] = true;
                remap[b] = sizes.len();
                sizes.push(bins[b].size);
                proof {
                    lemma_candidates_update(used@, prepicked, n as int, b as int);
                }
            },
        }
    }
    proof {
        assert forall|k: int| 0 <= k < bins@.len() && used@[k] implies remap@[k] < sizes@.len()
            && sizes@[remap@[k] as int] == bins@[k].size by {
            assert(picked@[k]);
        }
    }
    (sizes, remap)
}

/// How many bins are still waiting to be placed in the target list.
spec fn spec_candidates(used: Seq<bool>, picked: Seq<bool>, n: int) -> nat
    decreases n,
{
    if n <= 0 {
        0
    } else {
        spec_candidates(used, picked, n - 1) + if 0 <= n - 1 < used.len() && n - 1
            < picked.len() && used[n - 1] && !picked[n - 1] {
            1nat
        } else {
            0nat
        }
    }
}

proof fn lemma_candidates_update(used: Seq<bool>, picked: Seq<bool>, n: int, b: int)
    requires
        0 <= b < n,
        b < used.len(),
        b < picked.len(),
        used[b],
        !picked[b],
    ensures
        spec_candidates(used, picked.update(b, true), n) < spec_candidates(used, picked, n),
    decreases n,
{
    if n - 1 == b {
        lemma_candidates_mono(used, picked, picked.update(b, true), n - 1);
    } else {
        lemma_candidates_update(used, picked, n - 1, b);
    }
}

proof fn lemma_candidates_mono(used: Seq<bool>, p1: Seq<bool>, p2: Seq<bool>, n: int)
    requires
        forall|k: int| 0 <= k < n && k < p1.len() ==> (p1[k] ==> p2[k]),
        p1.len() == p2.len(),
    ensures
        spec_candidates(used, p2, n) <= spec_candidates(used, p1, n),
    decreases n,
{
    if n > 0 {
        lemma_candidates_mono(used, p1, p2, n - 1);
    }
}

/// The placement-relevant record of one frame resource.
pub open spec fn spec_cached_of(r: TransientResource) -> CachedResource {
    CachedResource { size: r.size, lifetime: r.lifetime, desc: r.desc, resource_id: r.resource_id }
}

/// The frame's resources as the cache remembers them, in recording order.
pub open spec fn spec_cached_seq(rs: Seq<TransientResource>) -> Seq<CachedResource> {
    rs.map_values(|r: TransientResource| spec_cached_of(r))
}

/// Whether cache entry `e` holds exactly this layout: same key and the
/// same sorted resource list, field for field.
pub open spec fn spec_entry_matches(
    e: HeapMemoryCacheEntry,
    hash: u64,
    rs: Seq<CachedResource>,
) -> bool {
    e.used && e.hash == hash && e.resources@ == rs
}

/// Lifetime facts the per-entry placements rely on, stated against the
/// shared bin list before it is ordered into the target heap list.
pub open spec fn spec_preplaced(
    e: HeapMemoryCacheEntry,
    bins: Seq<HeapBin>,
    used: Seq<bool>,
) -> bool {
    &&& e.indices@.len() == e.resources@.len()
    &&& forall|i: int| 0 <= i < e.indices@.len() ==> (#[trigger] e.indices@[i]).0 < bins.len()
    &&& forall|i: int|
        0 <= i < e.indices@.len() ==> used[(#[trigger] e.indices@[i]).0 as int]
    &&& forall|i: int|
        0 <= i < e.indices@.len() ==> (#[trigger] e.indices@[i]).1 + e.resources@[i].size
            <= bins[e.indices@[i].0 as int].size
    &&& spec_indices_aliasing_safe(e.indices@, e.resources@)
}

/// The transient-memory allocator: the descriptor-slab bases and strides of
/// the device, the physical heaps currently held, and the MRU cache of
/// resolved frame layouts.
pub struct HeapMemoryAllocator {
    pub srv_heap_base: u64,
    pub srv_stride: u32,
    pub rtv_heap_base: u64,
    pub rtv_stride: u32,
    pub current_layout: Vec<Heap>,
    pub cache: Vec<HeapMemoryCacheEntry>,
    pub next_handle: u64,
}

impl HeapMemoryAllocator {
    /// Shape of the allocator: a full cache and descriptor parameters small
    /// enough that every descriptor-handle computation stays exact.
    pub open spec fn wf_base(self) -> bool {
        &&& self.cache@.len() == CACHE_ENTRIES
        &&& self.srv_heap_base + DESCRIPTOR_SLAB_CAPACITY * self.srv_stride <= u64::MAX
        &&& self.rtv_heap_base + DESCRIPTOR_SLAB_CAPACITY * self.rtv_stride <= u64::MAX
    }

    /// Every held layout is fully resolved against the current heaps and
    /// aliasing-safe.
    pub open spec fn wf(self) -> bool {
        &&& self.wf_base()
        &&& forall|k: int|
            0 <= k < self.cache@.len() && (#[trigger] self.cache@[k]).used
                ==> self.cache@[k].spec_packable() && self.cache@[k].spec_resolved(
                self.current_layout@,
            )
    }

    /// A fresh allocator over the device's two descriptor slabs: the
    /// GPU-visible slab for shader-resource views and the CPU slab for
    /// render-target views, each given by base handle and stride.
    pub fn new(srv_heap_base: u64, srv_stride: u32, rtv_heap_base: u64, rtv_stride: u32) -> (r:
        HeapMemoryAllocator)
        requires
            srv_heap_base + DESCRIPTOR_SLAB_CAPACITY * srv_stride <= u64::MAX,
            rtv_heap_base + DESCRIPTOR_SLAB_CAPACITY * rtv_stride <= u64::MAX,
        ensures
            r.wf(),
            r.srv_heap_base == srv_heap_base,
            r.srv_stride == srv_stride,
            r.rtv_heap_base == rtv_heap_base,
            r.rtv_stride == rtv_stride,
            r.current_layout@.len() == 0,
            forall|k: int| 0 <= k < CACHE_ENTRIES ==> !(#[trigger] r.cache@[k]).used,
    {
        let mut cache: Vec<HeapMemoryCacheEntry> = Vec::new();
        let mut i: usize = 0;
        while i < CACHE_ENTRIES
            invariant
                cache@.len() == i,
                0 <= i <= CACHE_ENTRIES,
                forall|k: int| 0 <= k < i ==> !(#[trigger] cache@[k]).used,
            decreases CACHE_ENTRIES - i,
        {
            cache.push(HeapMemoryCacheEntry::new());
            i = i + 1;
        }
        HeapMemoryAllocator {
            srv_heap_base,
            srv_stride,
            rtv_heap_base,
            rtv_stride,
            current_layout: Vec::new(),
            cache,
            next_handle: 1,
        }
    }

    /// The CPU descriptor handle of slot `id` of the CPU slab.
    pub fn get_cpu_handle(&self, id: usize) -> (r: u64)
        requires
            self.wf_base(),
            id < DESCRIPTOR_SLAB_CAPACITY as usize,
        ensures
            r == self.rtv_heap_base + id * self.rtv_stride,
    {
        proof {
            assert((id as u64) * (self.rtv_stride as u64) <= (DESCRIPTOR_SLAB_CAPACITY as u64) * (
            self.rtv_stride as u64)) by (nonlinear_arith)
                requires
                    id < DESCRIPTOR_SLAB_CAPACITY as usize,
            ;
        }
        self.rtv_heap_base + (id as u64) * (self.rtv_stride as u64)
    }

    /// The GPU descriptor handle of slot `id` of the GPU-visible slab.
    pub fn get_gpu_handle(&self, id: u64) -> (r: u64)
        requires
            self.wf_base(),
            id < DESCRIPTOR_SLAB_CAPACITY as u64,
        ensures
            r == self.srv_heap_base + id * self.srv_stride,
    {
        proof {
            assert(id * (self.srv_stride as u64) <= (DESCRIPTOR_SLAB_CAPACITY as u64) * (
            self.srv_stride as u64)) by (nonlinear_arith)
                requires
                    id < DESCRIPTOR_SLAB_CAPACITY as u64,
            ;
        }
        self.srv_heap_base + id * (self.srv_stride as u64)
    }

    /// The most recently resolved layout.
    pub fn current(&self) -> (r: &HeapMemoryCacheEntry)
        requires
            self.wf_base(),
        ensures
            r == self.cache@[0],
    {
        &self.cache[0]
    }

    /// The slot of the cache entry that holds exactly this layout, if any:
    /// the hash must match and, against hash collisions, the sorted
    /// resource lists must be equal field for field.
    fn find_entry(&self, hash: u64, resources: &Vec<CachedResource>) -> (r: Option<usize>)
        requires
            self.wf_base(),
        ensures
            match r {
                Some(k) => (k as int) < CACHE_ENTRIES && spec_entry_matches(
                    self.cache@[k as int],
                    hash,
                    resources@,
                ),
                None => forall|k: int|
                    0 <= k < CACHE_ENTRIES ==> !spec_entry_matches(
                        #[trigger] self.cache@[k],
                        hash,
                        resources@,
                    ),
            },
    {
        let mut k: usize = 0;
        while k < CACHE_ENTRIES
            invariant
                self.wf_base(),
                0 <= k <= CACHE_ENTRIES,
                forall|m: int|
                    0 <= m < k ==> !spec_entry_matches(#[trigger] self.cache@[m], hash, resources@),
            decreases CACHE_ENTRIES - k,
        {
            if self.cache[k].used && self.cache[k].hash == hash {
                let mut same = self.cache[k].resources.len() == resources.len();
                let mut i: usize = 0;
                while same && i < resources.len()
                    invariant
                        self.wf_base(),
                        (k as int) < CACHE_ENTRIES,
                        0 <= i <= resources@.len(),
                        same ==> self.cache@[k as int].resources@.len() == resources@.len(),
                        same ==> forall|m: int|
                            0 <= m < i ==> self.cache@[k as int].resources@[m] == resources@[m],
                        !same ==> self.cache@[k as int].resources@ != resources@,
                    decreases resources@.len() - i,
                {
                    if !(self.cache[k].resources[i] == resources[i]) {
                        proof {
                            assert(self.cache@[k as int].resources@[i as int] != resources@[i as int]);
                        }
                        same = false;
                    }
                    i = i + 1;
                }
                if same {
                    proof {
                        assert(self.cache@[k as int].resources@ =~= resources@);
                    }
                    return Some(k);
                }
            }
            k = k + 1;
        }
        None
    }
}

impl HeapMemoryAllocator {
    /// Reshapes the held heaps so that one packing serves every cached
    /// layout at once, keeping physical heaps whose size slot is unchanged,
    /// releasing the rest, and creating the missing ones; then re-resolves
    /// every cached layout against the new heap list, re-creating a placed
    /// resource only where its bytes or descriptor changed.  Returns the
    /// device work this requires.
    fn resize(&mut self) -> (ops: Vec<HeapOp>)
        requires
            old(self).wf_base(),
            forall|k: int|
                0 <= k < CACHE_ENTRIES && (#[trigger] old(self).cache@[k]).used ==> old(
                    self,
                ).cache@[k].spec_packable(),
        ensures
            final(self).wf(),
            final(self).srv_heap_base == old(self).srv_heap_base,
            final(self).srv_stride == old(self).srv_stride,
            final(self).rtv_heap_base == old(self).rtv_heap_base,
            final(self).rtv_stride == old(self).rtv_stride,
            final(self).cache@.len() == CACHE_ENTRIES,
            forall|k: int|
                0 <= k < CACHE_ENTRIES ==> {
                    &&& (#[trigger] final(self).cache@[k]).used == old(self).cache@[k].used
                    &&& final(self).cache@[k].hash == old(self).cache@[k].hash
                    &&& final(self).cache@[k].resources@ == old(self).cache@[k].resources@
                    &&& final(self).cache@[k].views@ == old(self).cache@[k].views@
                    &&& final(self).cache@[k].cpu_handles@ == old(self).cache@[k].cpu_handles@
                    &&& final(self).cache@[k].gpu_handles@ == old(self).cache@[k].gpu_handles@
                },
            // the target heaps stand largest first
            forall|a: int, b: int|
                0 <= a < b < final(self).current_layout@.len() ==> final(self).current_layout@[
                    a
                ].size >= final(self).current_layout@[b].size,
            // every target heap is carried over in place (same identity and
            // size at the same slot) or its creation is ordered
            forall|k: int|
                0 <= k < final(self).current_layout@.len() ==> (k
                    < old(self).current_layout@.len() && old(self).current_layout@[k] == (
                #[trigger] final(self).current_layout@[k])) || ops@.contains(
                    HeapOp::CreateHeap {
                        index: k as usize,
                        size: final(self).current_layout@[k].size,
                    },
                ),
            // every prior heap is carried over in place or its release is
            // ordered
            forall|k: int|
                0 <= k < old(self).current_layout@.len() ==> (k
                    < final(self).current_layout@.len() && final(self).current_layout@[k] == (
                #[trigger] old(self).current_layout@[k])) || ops@.contains(
                    HeapOp::ReleaseHeap {
                        index: k as usize,
                        size: old(self).current_layout@[k].size,
                    },
                ),
            // every placed resource of every layout keeps a prior identical
            // placement (same heap identity, bytes and descriptor, under the
            // same handle) or its creation is ordered
            forall|e: int, i: int|
                #![trigger final(self).cache@[e].placed_resources@[i]]
                0 <= e < CACHE_ENTRIES && final(self).cache@[e].used && 0 <= i
                    < final(self).cache@[e].resources@.len() ==> spec_had_placement(
                    *old(self),
                    final(self).current_layout@[(final(self).cache@[e].indices@[i]).0 as int].id,
                    (final(self).cache@[e].indices@[i]).1,
                    final(self).cache@[e].resources@[i].desc,
                    final(self).cache@[e].placed_resources@[i],
                ) || ops@.contains(
                    HeapOp::CreatePlacedResource {
                        handle: final(self).cache@[e].placed_resources@[i],
                        heap_index: (final(self).cache@[e].indices@[i]).0,
                        offset: (final(self).cache@[e].indices@[i]).1,
                        desc: final(self).cache@[e].resources@[i].desc,
                    },
                ),
    {
        let ghost init = *self;
        // remember where every placed resource lived, to keep its handle if
        // nothing about its placement changes
        let mut existing: Vec<(u64, u64, ResourceDesc, u64)> = Vec::new();
        let mut e: usize = 0;
        while e < CACHE_ENTRIES
            invariant
                *self == init,
                self.wf_base(),
                0 <= e <= CACHE_ENTRIES,
                forall|j: int|
                    0 <= j < existing@.len() ==> spec_had_placement(
                        init,
                        (#[trigger] existing@[j]).0,
                        existing@[j].1,
                        existing@[j].2,
                        existing@[j].3,
                    ),
            decreases CACHE_ENTRIES - e,
        {
            if self.cache[e].used {
                let mut i: usize = 0;
                while i < self.cache[e].indices.len()
                    invariant
                        *self == init,
                        self.wf_base(),
                        (e as int) < CACHE_ENTRIES,
                        self.cache@[e as int].used,
                        0 <= i <= self.cache@[e as int].indices@.len(),
                        forall|j: int|
                            0 <= j < existing@.len() ==> spec_had_placement(
                                init,
                                (#[trigger] existing@[j]).0,
                                existing@[j].1,
                                existing@[j].2,
                                existing@[j].3,
                            ),
                    decreases self.cache@[e as int].indices@.len() - i,
                {
                    let h = self.cache[e].indices[i].0;
                    let off = self.cache[e].indices[i].1;
                    if h < self.current_layout.len() && i < self.cache[e].resources.len() && i
                        < self.cache[e].placed_resources.len() {
                        existing.push(
                            (
                                self.current_layout[h].id,
                                off,
                                self.cache[e].resources[i].desc,
                                self.cache[e].placed_resources[i],
                            ),
                        );
                        proof {
                            assert(spec_had_placement(
                                init,
                                existing@[existing@.len() - 1].0,
                                existing@[existing@.len() - 1].1,
                                existing@[existing@.len() - 1].2,
                                existing@[existing@.len() - 1].3,
                            )) by {
                                assert(init.cache@[e as int].placed_resources@[i as int]
                                    == existing@[existing@.len() - 1].3);
                            }
                        }
                    }
                    i = i + 1;
                }
            }
            e = e + 1;
        }

        // one aggregate packing input: every cached layout's resources
        let mut aggregate: Vec<CachedResource> = Vec::new();
        let mut e: usize = 0;
        while e < CACHE_ENTRIES
            invariant
                *self == init,
                self.wf_base(),
                forall|k: int|
                    0 <= k < CACHE_ENTRIES && (#[trigger] self.cache@[k]).used
                        ==> self.cache@[k].spec_packable(),
                0 <= e <= CACHE_ENTRIES,
                forall|i: int| 0 <= i < aggregate@.len() ==> spec_packable(#[trigger] aggregate@[i]),
            decreases CACHE_ENTRIES - e,
        {
            if self.cache[e].used {
                let mut i: usize = 0;
                while i < self.cache[e].resources.len()
                    invariant
                        *self == init,
                        self.wf_base(),
                        (e as int) < CACHE_ENTRIES,
                        self.cache@[e as int].used,
                        self.cache@[e as int].spec_packable(),
                        0 <= i <= self.cache@[e as int].resources@.len(),
                        forall|j: int|
                            0 <= j < aggregate@.len() ==> spec_packable(#[trigger] aggregate@[j]),
                    decreases self.cache@[e as int].resources@.len() - i,
                {
                    aggregate.push(self.cache[e].resources[i]);
                    i = i + 1;
                }
            }
            e = e + 1;
        }
        let ghost agg = aggregate@;
        let sorted_aggregate = sort_cached_desc(aggregate);
        proof {
            assert forall|j: int| 0 <= j < sorted_aggregate@.len() implies spec_packable(
                #[trigger] sorted_aggregate@[j],
            ) by {
                assert(sorted_aggregate@.contains(sorted_aggregate@[j]));
                assert(agg.contains(sorted_aggregate@[j]));
                let m = choose|m: int| 0 <= m < agg.len() && agg[m] == sorted_aggregate@[j];
            }
        }

        // seed one bin per aggregate resource, largest first
        let mut bins: Vec<HeapBin> = Vec::new();
        let mut used_flags: Vec<bool> = Vec::new();
        let mut i: usize = 0;
        while i < sorted_aggregate.len()
            invariant
                forall|j: int|
                    0 <= j < sorted_aggregate@.len() ==> spec_packable(
                        #[trigger] sorted_aggregate@[j],
                    ),
                bins@.len() == i,
                used_flags@.len() == i,
                0 <= i <= sorted_aggregate@.len(),
                forall|j: int| 0 <= j < bins@.len() ==> (#[trigger] bins@[j]).wf(),
            decreases sorted_aggregate@.len() - i,
        {
            bins.push(HeapBin::new(sorted_aggregate[i].size));
            used_flags.push(false);
            i = i + 1;
        }

        // pack every cached layout against the shared bin list
        let mut e: usize = 0;
        while e < CACHE_ENTRIES
            invariant
                init.wf_base(),
                self.wf_base(),
                self.srv_heap_base == init.srv_heap_base,
                self.srv_stride == init.srv_stride,
                self.rtv_heap_base == init.rtv_heap_base,
                self.rtv_stride == init.rtv_stride,
                self.current_layout@ == init.current_layout@,
                self.next_handle == init.next_handle,
                self.cache@.len() == CACHE_ENTRIES,
                0 <= e <= CACHE_ENTRIES,
                bins@.len() == used_flags@.len(),
                forall|j: int| 0 <= j < bins@.len() ==> (#[trigger] bins@[j]).wf(),
                forall|k: int|
                    0 <= k < CACHE_ENTRIES ==> {
                        &&& (#[trigger] self.cache@[k]).used == init.cache@[k].used
                        &&& self.cache@[k].hash == init.cache@[k].hash
                        &&& self.cache@[k].resources@ == init.cache@[k].resources@
                        &&& self.cache@[k].views@ == init.cache@[k].views@
                        &&& self.cache@[k].placed_resources@ == init.cache@[k].placed_resources@
                        &&& self.cache@[k].cpu_handles@ == init.cache@[k].cpu_handles@
                        &&& self.cache@[k].gpu_handles@ == init.cache@[k].gpu_handles@
                    },
                forall|k: int|
                    0 <= k < CACHE_ENTRIES && (#[trigger] self.cache@[k]).used
                        ==> self.cache@[k].spec_packable(),
                forall|k: int|
                    0 <= k < e && (#[trigger] self.cache@[k]).used ==> spec_preplaced(
                        self.cache@[k],
                        bins@,
                        used_flags@,
                    ),
            decreases CACHE_ENTRIES - e,
        {
            if self.cache[e].used {
                let idcs = pack_entry(&mut bins, &mut used_flags, &self.cache[e].resources);
                self.cache[e].indices = idcs;
            }
            e = e + 1;
        }

        // order the used bins into the target heap list
        let pair = sort_used_bins(&bins, &used_flags);
        let sizes = pair.0;
        let remap = pair.1;

        // positional diff: keep heaps whose size slot is unchanged
        let ghost packedcache = self.cache@;
        let mut ops: Vec<HeapOp> = Vec::new();
        let mut new_heaps: Vec<Heap> = Vec::new();
        let mut k: usize = 0;
        while k < sizes.len()
            invariant
                init.wf_base(),
                self.wf_base(),
                self.srv_heap_base == init.srv_heap_base,
                self.srv_stride == init.srv_stride,
                self.rtv_heap_base == init.rtv_heap_base,
                self.rtv_stride == init.rtv_stride,
                self.cache@ == packedcache,
                self.current_layout@ == init.current_layout@,
                0 <= k <= sizes@.len(),
                new_heaps@.len() == k,
                forall|j: int| 0 <= j < k ==> (#[trigger] new_heaps@[j]).size == sizes@[j],
                forall|j: int|
                    0 <= j < k ==> (j < init.current_layout@.len() && init.current_layout@[j] == (
                    #[trigger] new_heaps@[j])) || ops@.contains(
                        HeapOp::CreateHeap { index: j as usize, size: new_heaps@[j].size },
                    ),
                forall|j: int|
                    0 <= j < k && j < init.current_layout@.len() ==> (new_heaps@[j] == (
                    #[trigger] init.current_layout@[j])) || ops@.contains(
                        HeapOp::ReleaseHeap {
                            index: j as usize,
                            size: init.current_layout@[j].size,
                        },
                    ),
            decreases sizes@.len() - k,
        {
            let ghost ops_pre = ops@;
            if k < self.current_layout.len() && self.current_layout[k].size == sizes[k] {
                let h = self.current_layout[k];
                new_heaps.push(h);
            } else {
                if k < self.current_layout.len() {
                    ops.push(HeapOp::ReleaseHeap { index: k, size: self.current_layout[k].size });
                }
                let id = self.next_handle;
                self.next_handle = self.next_handle.wrapping_add(1);
                ops.push(HeapOp::CreateHeap { index: k, size: sizes[k] });
                new_heaps.push(Heap { id, size: sizes[k] });
                proof {
                    assert(ops@[ops@.len() - 1] == (HeapOp::CreateHeap {
                        index: k,
                        size: new_heaps@[k as int].size,
                    }));
                    if (k as int) < init.current_layout@.len() {
                        assert(ops@[ops@.len() - 2] == (HeapOp::ReleaseHeap {
                            index: k,
                            size: init.current_layout@[k as int].size,
                        }));
                    }
                }
            }
            proof {
                lemma_ops_prefix(ops_pre, ops@);
            }
            k = k + 1;
        }
        while k < self.current_layout.len()
            invariant
                init.wf_base(),
                self.wf_base(),
                self.srv_heap_base == init.srv_heap_base,
                self.srv_stride == init.srv_stride,
                self.rtv_heap_base == init.rtv_heap_base,
                self.rtv_stride == init.rtv_stride,
                self.cache@ == packedcache,
                self.current_layout@ == init.current_layout@,
                sizes@.len() <= k <= init.current_layout@.len() || sizes@.len() > init.current_layout@.len(),
                new_heaps@.len() == sizes@.len(),
                forall|j: int|
                    0 <= j < sizes@.len() ==> (#[trigger] new_heaps@[j]).size == sizes@[j],
                forall|j: int|
                    0 <= j < sizes@.len() ==> (j < init.current_layout@.len()
                        && init.current_layout@[j] == (#[trigger] new_heaps@[j])) || ops@.contains(
                        HeapOp::CreateHeap { index: j as usize, size: new_heaps@[j].size },
                    ),
                forall|j: int|
                    0 <= j < init.current_layout@.len() && (j < k || j < sizes@.len()) ==> (j
                        < sizes@.len() && new_heaps@[j] == (#[trigger] init.current_layout@[j]))
                        || ops@.contains(
                        HeapOp::ReleaseHeap {
                            index: j as usize,
                            size: init.current_layout@[j].size,
                        },
                    ),
            decreases self.current_layout@.len() - k,
        {
            let ghost ops_pre = ops@;
            ops.push(HeapOp::ReleaseHeap { index: k, size: self.current_layout[k].size });
            proof {
                assert(ops@[ops@.len() - 1] == (HeapOp::ReleaseHeap {
                    index: k,
                    size: init.current_layout@[k as int].size,
                }));
                lemma_ops_prefix(ops_pre, ops@);
            }
            k = k + 1;
        }
        self.current_layout = new_heaps;

        // re-resolve every cached layout against the new heaps
        let ghost midcache = self.cache@;
        let mut e: usize = 0;
        while e < CACHE_ENTRIES
            invariant
                init.wf_base(),
                midcache.len() == CACHE_ENTRIES,
                self.wf_base(),
                self.srv_heap_base == init.srv_heap_base,
                self.srv_stride == init.srv_stride,
                self.rtv_heap_base == init.rtv_heap_base,
                self.rtv_stride == init.rtv_stride,
                self.cache@.len() == CACHE_ENTRIES,
                0 <= e <= CACHE_ENTRIES,
                bins@.len() == used_flags@.len(),
                remap@.len() == bins@.len(),
                self.current_layout@.len() == sizes@.len(),
                forall|j: int|
                    0 <= j < sizes@.len() ==> (#[trigger] self.current_layout@[j]).size
                        == sizes@[j],
                forall|b: int|
                    0 <= b < bins@.len() && used_flags@[b] ==> (#[trigger] remap@[b])
                        < sizes@.len(),
                forall|b: int|
                    0 <= b < bins@.len() && used_flags@[b] ==> sizes@[(#[trigger] remap@[b]) as int]
                        == bins@[b].size,
                forall|b: int, c: int|
                    0 <= b < bins@.len() && 0 <= c < bins@.len() && used_flags@[b] && used_flags@[c]
                        && b != c ==> #[trigger] remap@[b] != #[trigger] remap@[c],
                forall|k: int|
                    0 <= k < CACHE_ENTRIES ==> {
                        &&& (#[trigger] midcache[k]).used == init.cache@[k].used
                        &&& midcache[k].hash == init.cache@[k].hash
                        &&& midcache[k].resources@ == init.cache@[k].resources@
                        &&& midcache[k].views@ == init.cache@[k].views@
                        &&& midcache[k].cpu_handles@ == init.cache@[k].cpu_handles@
                        &&& midcache[k].gpu_handles@ == init.cache@[k].gpu_handles@
                    },
                forall|k: int|
                    0 <= k < CACHE_ENTRIES && (#[trigger] midcache[k]).used ==> midcache[
                        k
                    ].spec_packable() && spec_preplaced(midcache[k], bins@, used_flags@),
                forall|k: int| e <= k < CACHE_ENTRIES ==> #[trigger] self.cache@[k] == midcache[k],
                forall|k: int|
                    0 <= k < e ==> {
                        &&& (#[trigger] self.cache@[k]).used == midcache[k].used
                        &&& self.cache@[k].hash == midcache[k].hash
                        &&& self.cache@[k].resources@ == midcache[k].resources@
                        &&& self.cache@[k].views@ == midcache[k].views@
                        &&& self.cache@[k].cpu_handles@ == midcache[k].cpu_handles@
                        &&& self.cache@[k].gpu_handles@ == midcache[k].gpu_handles@
                    },
                forall|k: int|
                    0 <= k < e && (#[trigger] self.cache@[k]).used ==> self.cache@[
                        k
                    ].spec_packable() && self.cache@[k].spec_resolved(self.current_layout@),
                forall|j: int|
                    0 <= j < self.current_layout@.len() ==> (j < init.current_layout@.len()
                        && init.current_layout@[j] == (#[trigger] self.current_layout@[j]))
                        || ops@.contains(
                        HeapOp::CreateHeap { index: j as usize, size: self.current_layout@[j].size },
                    ),
                forall|j: int|
                    0 <= j < init.current_layout@.len() ==> (j < self.current_layout@.len()
                        && self.current_layout@[j] == (#[trigger] init.current_layout@[j]))
                        || ops@.contains(
                        HeapOp::ReleaseHeap { index: j as usize, size: init.current_layout@[j].size },
                    ),
                forall|j: int|
                    0 <= j < existing@.len() ==> spec_had_placement(
                        init,
                        (#[trigger] existing@[j]).0,
                        existing@[j].1,
                        existing@[j].2,
                        existing@[j].3,
                    ),
                forall|e2: int, i2: int|
                    #![trigger self.cache@[e2].placed_resources@[i2]]
                    0 <= e2 < e && self.cache@[e2].used && 0 <= i2
                        < self.cache@[e2].resources@.len() ==> spec_had_placement(
                        init,
                        self.current_layout@[(self.cache@[e2].indices@[i2]).0 as int].id,
                        (self.cache@[e2].indices@[i2]).1,
                        self.cache@[e2].resources@[i2].desc,
                        self.cache@[e2].placed_resources@[i2],
                    ) || ops@.contains(
                        HeapOp::CreatePlacedResource {
                            handle: self.cache@[e2].placed_resources@[i2],
                            heap_index: (self.cache@[e2].indices@[i2]).0,
                            offset: (self.cache@[e2].indices@[i2]).1,
                            desc: self.cache@[e2].resources@[i2].desc,
                        },
                    ),
            decreases CACHE_ENTRIES - e,
        {
            if self.cache[e].used {
                let ghost preidx = self.cache@[e as int].indices@;
                let ghost prers = self.cache@[e as int].resources@;
                let ghost ocache = self.cache@;
                let ghost olayout = self.current_layout@;
                let mut newidx: Vec<(usize, u64)> = Vec::new();
                let mut placed: Vec<u64> = Vec::new();
                let mut i: usize = 0;
                let n = self.cache[e].indices.len();
                while i < n
                    invariant
                        init.wf_base(),
                        self.wf_base(),
                        self.srv_heap_base == init.srv_heap_base,
                        self.srv_stride == init.srv_stride,
                        self.rtv_heap_base == init.rtv_heap_base,
                        self.rtv_stride == init.rtv_stride,
                        self.cache@ == ocache,
                        self.current_layout@ == olayout,
                        (e as int) < CACHE_ENTRIES,
                        self.cache@.len() == CACHE_ENTRIES,
                        self.cache@[e as int].indices@ == preidx,
                        self.cache@[e as int].resources@ == prers,
                        self.cache@[e as int].used,
                        n == preidx.len(),
                        preidx.len() == prers.len(),
                        spec_preplaced(self.cache@[e as int], bins@, used_flags@),
                        bins@.len() == used_flags@.len(),
                        remap@.len() == bins@.len(),
                        self.current_layout@.len() == sizes@.len(),
                        forall|j: int|
                            0 <= j < sizes@.len() ==> (#[trigger] self.current_layout@[j]).size
                                == sizes@[j],
                        forall|b: int|
                            0 <= b < bins@.len() && used_flags@[b] ==> (#[trigger] remap@[b])
                                < sizes@.len(),
                        forall|b: int|
                            0 <= b < bins@.len() && used_flags@[b] ==> sizes@[(
                            #[trigger] remap@[b]) as int] == bins@[b].size,
                        0 <= i <= n,
                        newidx@.len() == i,
                        placed@.len() == i,
                        forall|m: int|
                            0 <= m < i ==> (#[trigger] newidx@[m]).0 == remap@[preidx[m].0 as int]
                                && newidx@[m].1 == preidx[m].1,
                        forall|m: int|
                            0 <= m < i ==> (#[trigger] newidx@[m]).0 < self.current_layout@.len(),
                        forall|m: int|
                            0 <= m < i ==> (#[trigger] newidx@[m]).1 + prers[m].size
                                <= self.current_layout@[newidx@[m].0 as int].size,
                        forall|j: int|
                            0 <= j < self.current_layout@.len() ==> (j
                                < init.current_layout@.len() && init.current_layout@[j] == (
                            #[trigger] self.current_layout@[j])) || ops@.contains(
                                HeapOp::CreateHeap {
                                    index: j as usize,
                                    size: self.current_layout@[j].size,
                                },
                            ),
                        forall|j: int|
                            0 <= j < init.current_layout@.len() ==> (j
                                < self.current_layout@.len() && self.current_layout@[j] == (
                            #[trigger] init.current_layout@[j])) || ops@.contains(
                                HeapOp::ReleaseHeap {
                                    index: j as usize,
                                    size: init.current_layout@[j].size,
                                },
                            ),
                        forall|j: int|
                            0 <= j < existing@.len() ==> spec_had_placement(
                                init,
                                (#[trigger] existing@[j]).0,
                                existing@[j].1,
                                existing@[j].2,
                                existing@[j].3,
                            ),
                        forall|e2: int, i2: int|
                            #![trigger self.cache@[e2].placed_resources@[i2]]
                            0 <= e2 < e && self.cache@[e2].used && 0 <= i2
                                < self.cache@[e2].resources@.len() ==> spec_had_placement(
                                init,
                                self.current_layout@[(self.cache@[e2].indices@[i2]).0 as int].id,
                                (self.cache@[e2].indices@[i2]).1,
                                self.cache@[e2].resources@[i2].desc,
                                self.cache@[e2].placed_resources@[i2],
                            ) || ops@.contains(
                                HeapOp::CreatePlacedResource {
                                    handle: self.cache@[e2].placed_resources@[i2],
                                    heap_index: (self.cache@[e2].indices@[i2]).0,
                                    offset: (self.cache@[e2].indices@[i2]).1,
                                    desc: self.cache@[e2].resources@[i2].desc,
                                },
                            ),
                        forall|m: int|
                            0 <= m < i ==> spec_had_placement(
                                init,
                                self.current_layout@[(#[trigger] newidx@[m]).0 as int].id,
                                newidx@[m].1,
                                prers[m].desc,
                                placed@[m],
                            ) || ops@.contains(
                                HeapOp::CreatePlacedResource {
                                    handle: placed@[m],
                                    heap_index: newidx@[m].0,
                                    offset: newidx@[m].1,
                                    desc: prers[m].desc,
                                },
                            ),
                    decreases n - i,
                {
                    let b = self.cache[e].indices[i].0;
                    let off = self.cache[e].indices[i].1;
                    let nb = remap[b];
                    newidx.push((nb, off));
                    let heap_id = self.current_layout[nb].id;
                    let desc = self.cache[e].resources[i].desc;
                    // reuse the old placed resource when the same bytes of
                    // the same heap carry the same descriptor
                    let mut found: Option<u64> = None;
                    let mut j: usize = 0;
                    while j < existing.len()
                        invariant
                            0 <= j <= existing@.len(),
                            forall|j2: int|
                                0 <= j2 < existing@.len() ==> spec_had_placement(
                                    init,
                                    (#[trigger] existing@[j2]).0,
                                    existing@[j2].1,
                                    existing@[j2].2,
                                    existing@[j2].3,
                                ),
                            match found {
                                Option::Some(h) => spec_had_placement(init, heap_id, off, desc, h),
                                Option::None => true,
                            },
                        decreases existing@.len() - j,
                    {
                        if existing[j].0 == heap_id && existing[j].1 == off && existing[j].2
                            == desc {
                            found = Some(existing[j].3);
                        }
                        j = j + 1;
                    }
                    let ghost ops_pre = ops@;
                    match found {
                        Option::Some(h) => {
                            placed.push(h);
                        },
                        Option::None => {
                            let h = self.next_handle;
                            self.next_handle = self.next_handle.wrapping_add(1);
                            ops.push(
                                HeapOp::CreatePlacedResource {
                                    handle: h,
                                    heap_index: nb,
                                    offset: off,
                                    desc,
                                },
                            );
                            placed.push(h);
                            proof {
                                assert(ops@[ops@.len() - 1] == (HeapOp::CreatePlacedResource {
                                    handle: placed@[i as int],
                                    heap_index: newidx@[i as int].0,
                                    offset: newidx@[i as int].1,
                                    desc: prers[i as int].desc,
                                }));
                            }
                        },
                    }
                    proof {
                        lemma_ops_prefix(ops_pre, ops@);
                    }
                    i = i + 1;
                }
                proof {
                    assert forall|x: int, y: int|
                        0 <= x < prers.len() && 0 <= y < prers.len() && x != y && x
                            < newidx@.len() && y < newidx@.len() && (#[trigger] newidx@[x]).0 == (
                        #[trigger] newidx@[y]).0 && newidx@[x].1 < newidx@[y].1 + prers[y].size
                            && newidx@[y].1 < newidx@[x].1 + prers[x].size implies prers[x].lifetime.end
                        < prers[y].lifetime.start || prers[y].lifetime.end
                        < prers[x].lifetime.start by {
                        let bx = preidx[x].0 as int;
                        let by = preidx[y].0 as int;
                        assert(used_flags@[bx] && used_flags@[by]);
                        assert(bx == by);
                        assert(preidx[x].0 == preidx[y].0);
                    }
                }
                self.cache[e].indices = newidx;
                self.cache[e].placed_resources = placed;
                proof {
                    assert(spec_indices_aliasing_safe(
                        self.cache@[e as int].indices@,
                        self.cache@[e as int].resources@,
                    ));
                    assert(self.cache@[e as int].spec_resolved(self.current_layout@));
                    assert forall|e2: int, i2: int|
                        #![trigger self.cache@[e2].placed_resources@[i2]]
                        0 <= e2 < e + 1 && self.cache@[e2].used && 0 <= i2
                            < self.cache@[e2].resources@.len() implies spec_had_placement(
                        init,
                        self.current_layout@[(self.cache@[e2].indices@[i2]).0 as int].id,
                        (self.cache@[e2].indices@[i2]).1,
                        self.cache@[e2].resources@[i2].desc,
                        self.cache@[e2].placed_resources@[i2],
                    ) || ops@.contains(
                        HeapOp::CreatePlacedResource {
                            handle: self.cache@[e2].placed_resources@[i2],
                            heap_index: (self.cache@[e2].indices@[i2]).0,
                            offset: (self.cache@[e2].indices@[i2]).1,
                            desc: self.cache@[e2].resources@[i2].desc,
                        },
                    ) by {
                        if e2 == e as int {
                            assert(self.cache@[e2].placed_resources@[i2] == placed@[i2]);
                            assert(self.cache@[e2].indices@[i2] == newidx@[i2]);
                            assert(self.cache@[e2].resources@[i2] == prers[i2]);
                        }
                    }
                }
            }
            e = e + 1;
        }
        proof {
            assert forall|a: int, b: int|
                0 <= a < b < self.current_layout@.len() implies self.current_layout@[a].size
                >= self.current_layout@[b].size by {
                assert(self.current_layout@[a].size == sizes@[a]);
                assert(self.current_layout@[b].size == sizes@[b]);
            }
        }
        ops
    }
}

/// The placed-resource handle view `v` binds to: that of the first listed
/// resource carrying the view's resource id, if it is placed.
pub open spec fn spec_view_target(
    resources: Seq<CachedResource>,
    placed: Seq<u64>,
    rid: u32,
    i: int,
) -> Option<u64>
    decreases resources.len() - i,
{
    if i < 0 || i >= resources.len() {
        None
    } else if resources[i].resource_id == rid && i < placed.len() {
        Some(placed[i])
    } else {
        spec_view_target(resources, placed, rid, i + 1)
    }
}

/// The device op that creates view `v`, if its resource is placed: a
/// render-target view for color views, a shader-resource view for sampled
/// ones, each at the view's slot of its slab.
pub open spec fn spec_view_op(
    resources: Seq<CachedResource>,
    placed: Seq<u64>,
    v: ResourceView,
) -> Option<HeapOp> {
    match spec_view_target(resources, placed, v.resource_id, 0) {
        Option::None => None,
        Option::Some(h) => Some(
            match v.desc {
                ResourceViewDesc::RenderTarget(d) => HeapOp::CreateRenderTargetView {
                    resource_handle: h,
                    view_id: v.view_id,
                    desc: d,
                },
                ResourceViewDesc::ShaderResource(d) => HeapOp::CreateShaderResourceView {
                    resource_handle: h,
                    view_id: v.view_id,
                    desc: d,
                },
            },
        ),
    }
}

/// The ordered device work ends with exactly the layout's view creations,
/// in view order.
pub open spec fn spec_ends_with_view_ops(ops: Seq<HeapOp>, e: HeapMemoryCacheEntry) -> bool {
    exists|nv: int|
        0 <= nv <= ops.len() && #[trigger] ops.subrange(nv, ops.len() as int) == spec_view_ops(
            e.resources@,
            e.placed_resources@,
            e.views@,
            e.views@.len() as int,
        )
}

/// The device work that creates the first `k` views of a layout, in view
/// order.
pub open spec fn spec_view_ops(
    resources: Seq<CachedResource>,
    placed: Seq<u64>,
    views: Seq<ResourceView>,
    k: int,
) -> Seq<HeapOp>
    decreases k,
{
    if k <= 0 || k > views.len() {
        Seq::empty()
    } else {
        spec_view_ops(resources, placed, views, k - 1) + match spec_view_op(
            resources,
            placed,
            views[k - 1],
        ) {
            Option::Some(op) => seq![op],
            Option::None => Seq::empty(),
        }
    }
}

fn copy_views(views: &Vec<ResourceView>) -> (r: Vec<ResourceView>)
    ensures
        r@ == views@,
{
    let mut out: Vec<ResourceView> = Vec::new();
    let mut i: usize = 0;
    while i < views.len()
        invariant
            0 <= i <= views@.len(),
            out@ == views@.subrange(0, i as int),
        decreases views@.len() - i,
    {
        out.push(views[i]);
        proof {
            assert(out@ =~= views@.subrange(0, i + 1));
        }
        i = i + 1;
    }
    proof {
        assert(views@.subrange(0, views@.len() as int) =~= views@);
    }
    out
}

impl HeapMemoryAllocator {
    /// Whether some cache slot holds exactly this layout.
    pub open spec fn spec_has_matching_entry(self, hash: u64, rs: Seq<CachedResource>) -> bool {
        exists|k: int|
            0 <= k < self.cache@.len() && spec_entry_matches(#[trigger] self.cache@[k], hash, rs)
    }

    /// Creates the frame's views against the freshest layout: one
    /// render-target view per color view and one shader-resource view per
    /// sampled view, each at its view slot of the matching descriptor slab.
    /// Records the resolved descriptor handles in the entry.
    fn create_entry_views(&mut self) -> (ops: Vec<HeapOp>)
        requires
            old(self).wf(),
            old(self).cache@[0].used,
            forall|i: int|
                0 <= i < old(self).cache@[0].views@.len() ==> (#[trigger] old(
                    self,
                ).cache@[0].views@[i]).view_id < DESCRIPTOR_SLAB_CAPACITY,
        ensures
            final(self).wf(),
            final(self).cache@.len() == CACHE_ENTRIES,
            final(self).srv_heap_base == old(self).srv_heap_base,
            final(self).srv_stride == old(self).srv_stride,
            final(self).rtv_heap_base == old(self).rtv_heap_base,
            final(self).rtv_stride == old(self).rtv_stride,
            final(self).current_layout@ == old(self).current_layout@,
            forall|k: int|
                1 <= k < CACHE_ENTRIES ==> #[trigger] final(self).cache@[k] == old(self).cache@[k],
            final(self).cache@[0].used == old(self).cache@[0].used,
            final(self).cache@[0].hash == old(self).cache@[0].hash,
            final(self).cache@[0].resources@ == old(self).cache@[0].resources@,
            final(self).cache@[0].views@ == old(self).cache@[0].views@,
            final(self).cache@[0].indices@ == old(self).cache@[0].indices@,
            final(self).cache@[0].placed_resources@ == old(self).cache@[0].placed_resources@,
            final(self).cache@[0].cpu_handles@.len() == old(self).cache@[0].views@.len(),
            final(self).cache@[0].gpu_handles@.len() == old(self).cache@[0].views@.len(),
            // exactly one view op per placed view, in view order
            ops@ == spec_view_ops(
                old(self).cache@[0].resources@,
                old(self).cache@[0].placed_resources@,
                old(self).cache@[0].views@,
                old(self).cache@[0].views@.len() as int,
            ),
            // the recorded descriptor handles are the slab slots of each view
            forall|i: int|
                0 <= i < old(self).cache@[0].views@.len() ==> {
                    let v = #[trigger] old(self).cache@[0].views@[i];
                    match v.desc {
                        ResourceViewDesc::RenderTarget(_) => final(self).cache@[0].cpu_handles@[i]
                            == old(self).rtv_heap_base + v.view_id * old(self).rtv_stride
                            && final(self).cache@[0].gpu_handles@[i] == 0,
                        ResourceViewDesc::ShaderResource(_) => final(self).cache@[0].gpu_handles@[i]
                            == old(self).srv_heap_base + v.view_id * old(self).srv_stride
                            && final(self).cache@[0].cpu_handles@[i] == 0,
                    }
                },
    {
        let nv = self.cache[0].views.len();
        let mut cpu: Vec<u64> = Vec::new();
        let mut gpu: Vec<u64> = Vec::new();
        let mut ops: Vec<HeapOp> = Vec::new();
        let mut i: usize = 0;
        while i < nv
            invariant
                *self == *old(self),
                self.wf(),
                self.cache@[0].used,
                nv == self.cache@[0].views@.len(),
                forall|ii: int|
                    0 <= ii < nv ==> (#[trigger] self.cache@[0].views@[ii]).view_id
                        < DESCRIPTOR_SLAB_CAPACITY,
                0 <= i <= nv,
                cpu@.len() == i,
                gpu@.len() == i,
                ops@ == spec_view_ops(
                    self.cache@[0].resources@,
                    self.cache@[0].placed_resources@,
                    self.cache@[0].views@,
                    i as int,
                ),
                forall|m: int|
                    0 <= m < i ==> {
                        let v = #[trigger] self.cache@[0].views@[m];
                        match v.desc {
                            ResourceViewDesc::RenderTarget(_) => cpu@[m] == self.rtv_heap_base
                                + v.view_id * self.rtv_stride && gpu@[m] == 0,
                            ResourceViewDesc::ShaderResource(_) => gpu@[m] == self.srv_heap_base
                                + v.view_id * self.srv_stride && cpu@[m] == 0,
                        }
                    },
            decreases nv - i,
        {
            let v = self.cache[0].views[i];
            // the placed resource the view is created against: the first
            // listed resource with the view's id
            let mut handle: u64 = 0;
            let mut found = false;
            let mut j: usize = 0;
            while j < self.cache[0].resources.len()
                invariant_except_break
                    *self == *old(self),
                    self.wf(),
                    self.cache@[0].used,
                    0 <= j <= self.cache@[0].resources@.len(),
                    spec_view_target(
                        self.cache@[0].resources@,
                        self.cache@[0].placed_resources@,
                        v.resource_id,
                        0,
                    ) == spec_view_target(
                        self.cache@[0].resources@,
                        self.cache@[0].placed_resources@,
                        v.resource_id,
                        j as int,
                    ),
                    !found,
                ensures
                    *self == *old(self),
                    found ==> spec_view_target(
                        self.cache@[0].resources@,
                        self.cache@[0].placed_resources@,
                        v.resource_id,
                        0,
                    ) == Some(handle),
                    !found ==> spec_view_target(
                        self.cache@[0].resources@,
                        self.cache@[0].placed_resources@,
                        v.resource_id,
                        0,
                    ) is None,
                decreases self.cache@[0].resources@.len() - j,
            {
                if self.cache[0].resources[j].resource_id == v.resource_id
                    && j < self.cache[0].placed_resources.len() {
                    handle = self.cache[0].placed_resources[j];
                    found = true;
                    break ;
                }
                j = j + 1;
            }
            proof {
                let tgt = spec_view_target(
                    self.cache@[0].resources@,
                    self.cache@[0].placed_resources@,
                    v.resource_id,
                    0,
                );
                if found {
                    assert(tgt == Some(handle));
                } else {
                    assert(tgt is None);
                }
            }
            match v.desc {
                ResourceViewDesc::RenderTarget(d) => {
                    let h = self.get_cpu_handle(v.view_id as usize);
                    cpu.push(h);
                    gpu.push(0);
                    if found {
                        ops.push(
                            HeapOp::CreateRenderTargetView {
                                resource_handle: handle,
                                view_id: v.view_id,
                                desc: d,
                            },
                        );
                    }
                },
                ResourceViewDesc::ShaderResource(d) => {
                    let h = self.get_gpu_handle(v.view_id as u64);
                    gpu.push(h);
                    cpu.push(0);
                    if found {
                        ops.push(
                            HeapOp::CreateShaderResourceView {
                                resource_handle: handle,
                                view_id: v.view_id,
                                desc: d,
                            },
                        );
                    }
                },
            }
            proof {
                assert(ops@ =~= spec_view_ops(
                    self.cache@[0].resources@,
                    self.cache@[0].placed_resources@,
                    self.cache@[0].views@,
                    i + 1,
                ));
            }
            i = i + 1;
        }
        self.cache[0].cpu_handles = cpu;
        self.cache[0].gpu_handles = gpu;
        ops
    }

    /// Installs a fresh layout for a frame the cache does not hold: the
    /// oldest slot is evicted, the new entry takes the front, the heaps are
    /// reshaped around every held layout, and the frame's views are
    /// created.  Returns the device work this requires.
    #[verifier::rlimit(100)]
    fn refresh_layout(
        &mut self,
        hash: u64,
        sorted: Vec<CachedResource>,
        views: &Vec<ResourceView>,
    ) -> (ops: Vec<HeapOp>)
        requires
            old(self).wf(),
            forall|m: int| 0 <= m < sorted@.len() ==> spec_packable(#[trigger] sorted@[m]),
            forall|i: int|
                0 <= i < views@.len() ==> (#[trigger] views@[i]).view_id
                    < DESCRIPTOR_SLAB_CAPACITY,
        ensures
            final(self).wf(),
            final(self).cache@.len() == CACHE_ENTRIES,
            final(self).cache@[0].used,
            final(self).cache@[0].hash == hash,
            final(self).cache@[0].resources@ == sorted@,
            final(self).cache@[0].views@ == views@,
            // the other layouts shift down one slot, evicting the oldest
            forall|k: int|
                1 <= k < CACHE_ENTRIES ==> {
                    &&& (#[trigger] final(self).cache@[k]).used == old(self).cache@[k - 1].used
                    &&& final(self).cache@[k].hash == old(self).cache@[k - 1].hash
                    &&& final(self).cache@[k].resources@ == old(self).cache@[k - 1].resources@
                    &&& final(self).cache@[k].views@ == old(self).cache@[k - 1].views@
                },
            // target heaps stand largest first
            forall|a: int, b: int|
                0 <= a < b < final(self).current_layout@.len()
                    ==> final(self).current_layout@[a].size
                    >= final(self).current_layout@[b].size,
            // each target heap is carried over in place or ordered created
            forall|k: int|
                0 <= k < final(self).current_layout@.len() ==> (k
                    < old(self).current_layout@.len() && old(self).current_layout@[k] == (
                #[trigger] final(self).current_layout@[k])) || ops@.contains(
                    HeapOp::CreateHeap {
                        index: k as usize,
                        size: final(self).current_layout@[k].size,
                    },
                ),
            // each prior heap is carried over in place or ordered released
            forall|k: int|
                0 <= k < old(self).current_layout@.len() ==> (k
                    < final(self).current_layout@.len() && final(self).current_layout@[k] == (
                #[trigger] old(self).current_layout@[k])) || ops@.contains(
                    HeapOp::ReleaseHeap {
                        index: k as usize,
                        size: old(self).current_layout@[k].size,
                    },
                ),
            // every placed resource keeps a prior identical placement under
            // the same handle or is ordered created
            forall|e: int, i: int|
                #![trigger final(self).cache@[e].placed_resources@[i]]
                0 <= e < CACHE_ENTRIES && final(self).cache@[e].used && 0 <= i
                    < final(self).cache@[e].resources@.len() ==> spec_had_placement(
                    *old(self),
                    final(self).current_layout@[(final(self).cache@[e].indices@[i]).0 as int].id,
                    (final(self).cache@[e].indices@[i]).1,
                    final(self).cache@[e].resources@[i].desc,
                    final(self).cache@[e].placed_resources@[i],
                ) || ops@.contains(
                    HeapOp::CreatePlacedResource {
                        handle: final(self).cache@[e].placed_resources@[i],
                        heap_index: (final(self).cache@[e].indices@[i]).0,
                        offset: (final(self).cache@[e].indices@[i]).1,
                        desc: final(self).cache@[e].resources@[i].desc,
                    },
                ),
            // the ordered work ends with exactly the new layout's view
            // creations, in view order
            spec_ends_with_view_ops(ops@, final(self).cache@[0]),
    {
        let entry = HeapMemoryCacheEntry {
            used: true,
            hash,
            resources: sorted,
            views: copy_views(views),
            placed_resources: Vec::new(),
            cpu_handles: Vec::new(),
            gpu_handles: Vec::new(),
            indices: Vec::new(),
        };
        let ghost precache = self.cache@;
        let _evicted = self.cache.remove(CACHE_ENTRIES - 1);
        self.cache.insert(0, entry);
        proof {
            assert(self.cache@.len() == CACHE_ENTRIES);
            assert(self.cache@[0] == entry);
            assert forall|k: int| 1 <= k < CACHE_ENTRIES implies #[trigger] self.cache@[k]
                == precache[k - 1] by {}
            assert forall|k: int|
                0 <= k < CACHE_ENTRIES && (#[trigger] self.cache@[k]).used implies self.cache@[
                k
            ].spec_packable() by {
                if k > 0 {
                    assert(self.cache@[k] == precache[k - 1]);
                }
            }
        }
        let ghost rotated = *self;
        let mut ops = self.resize();
        let ghost resized = *self;
        let ghost rops = ops@;
        let mut vops = self.create_entry_views();
        let ghost vopsq = vops@;
        ops.append(&mut vops);
        proof {
            assert(ops@ == rops + vopsq);
            lemma_ops_prefix(rops, ops@);
            lemma_rotated_placements(rotated, *old(self));
            lemma_coverage_carries(*old(self), rotated, resized, *self, rops, ops@);
            // the appended tail is exactly the view work
            assert(ops@.subrange(rops.len() as int, ops@.len() as int) =~= vopsq);
            assert(self.cache@[0].resources@ == resized.cache@[0].resources@);
            assert(self.cache@[0].placed_resources@ == resized.cache@[0].placed_resources@);
            assert(self.cache@[0].views@ == resized.cache@[0].views@);
            assert(spec_ends_with_view_ops(ops@, self.cache@[0]));
        }
        ops
    }

    /// Resolves the frame's resources to physical placements.
    ///
    /// The frame is keyed by the hash of its resource sequence.  A cache
    /// slot holding exactly this layout (same key, same sorted resource
    /// list) is returned as-is: no device work at all, which is what makes
    /// an unchanged graph recompile free.  Otherwise the resources are
    /// sorted by size, a fresh entry takes the front cache slot (evicting
    /// the oldest), the heaps are reshaped around every held layout, and
    /// the frame's views are created; the device work this requires is
    /// returned alongside the slot index.
    #[verifier::rlimit(100)]
    pub fn pack_heap(&mut self, resources: &Vec<TransientResource>, views: &Vec<ResourceView>) -> (r:
        (usize, Vec<HeapOp>))
        requires
            old(self).wf(),
            forall|i: int|
                0 <= i < resources@.len() ==> spec_packable(
                    spec_cached_of(#[trigger] resources@[i]),
                ),
            forall|i: int|
                0 <= i < views@.len() ==> (#[trigger] views@[i]).view_id
                    < DESCRIPTOR_SLAB_CAPACITY,
        ensures
            final(self).wf(),
            r.0 == 0,
            final(self).cache@.len() == CACHE_ENTRIES,
            // the front slot now holds exactly this frame's layout
            spec_entry_matches(
                final(self).cache@[0],
                spec_hash_resources(resources@),
                spec_sort_cached(spec_cached_seq(resources@)),
            ),
            final(self).spec_has_matching_entry(
                spec_hash_resources(resources@),
                spec_sort_cached(spec_cached_seq(resources@)),
            ),
            // a layout the cache already holds is reused as it stands: the
            // matching entry is promoted to the front, the other slots keep
            // their order, and no device work happens at all
            old(self).spec_has_matching_entry(
                spec_hash_resources(resources@),
                spec_sort_cached(spec_cached_seq(resources@)),
            ) ==> {
                &&& r.1@.len() == 0
                &&& final(self).current_layout@ == old(self).current_layout@
                &&& final(self).next_handle == old(self).next_handle
                &&& exists|k0: int|
                    0 <= k0 < CACHE_ENTRIES && spec_entry_matches(
                        #[trigger] old(self).cache@[k0],
                        spec_hash_resources(resources@),
                        spec_sort_cached(spec_cached_seq(resources@)),
                    ) && final(self).cache@ == old(self).cache@.remove(k0).insert(
                        0,
                        old(self).cache@[k0],
                    )
            },
            // a miss reshapes the heaps and orders exactly the device work
            // the new layout requires
            !old(self).spec_has_matching_entry(
                spec_hash_resources(resources@),
                spec_sort_cached(spec_cached_seq(resources@)),
            ) ==> {
                // target heaps stand largest first; each is carried over in
                // place or ordered created; each prior heap is carried over
                // or ordered released
                &&& (forall|a: int, b: int|
                    0 <= a < b < final(self).current_layout@.len()
                        ==> final(self).current_layout@[a].size
                        >= final(self).current_layout@[b].size)
                &&& (forall|k: int|
                    0 <= k < final(self).current_layout@.len() ==> (k
                        < old(self).current_layout@.len() && old(self).current_layout@[k] == (
                    #[trigger] final(self).current_layout@[k])) || r.1@.contains(
                        HeapOp::CreateHeap {
                            index: k as usize,
                            size: final(self).current_layout@[k].size,
                        },
                    ))
                &&& (forall|k: int|
                    0 <= k < old(self).current_layout@.len() ==> (k
                        < final(self).current_layout@.len() && final(self).current_layout@[k] == (
                    #[trigger] old(self).current_layout@[k])) || r.1@.contains(
                        HeapOp::ReleaseHeap {
                            index: k as usize,
                            size: old(self).current_layout@[k].size,
                        },
                    ))
                // the other layouts shift down one slot, evicting the
                // oldest
                &&& (forall|k: int|
                    1 <= k < CACHE_ENTRIES ==> {
                        &&& (#[trigger] final(self).cache@[k]).used == old(self).cache@[k - 1].used
                        &&& final(self).cache@[k].hash == old(self).cache@[k - 1].hash
                        &&& final(self).cache@[k].resources@ == old(self).cache@[k - 1].resources@
                        &&& final(self).cache@[k].views@ == old(self).cache@[k - 1].views@
                    })
                // every placed resource keeps a prior identical placement
                // under the same handle or is ordered created
                &&& (forall|e: int, i: int|
                    #![trigger final(self).cache@[e].placed_resources@[i]]
                    0 <= e < CACHE_ENTRIES && final(self).cache@[e].used && 0 <= i
                        < final(self).cache@[e].resources@.len() ==> spec_had_placement(
                        *old(self),
                        final(self).current_layout@[(final(self).cache@[e].indices@[i]).0 as int].id,
                        (final(self).cache@[e].indices@[i]).1,
                        final(self).cache@[e].resources@[i].desc,
                        final(self).cache@[e].placed_resources@[i],
                    ) || r.1@.contains(
                        HeapOp::CreatePlacedResource {
                            handle: final(self).cache@[e].placed_resources@[i],
                            heap_index: (final(self).cache@[e].indices@[i]).0,
                            offset: (final(self).cache@[e].indices@[i]).1,
                            desc: final(self).cache@[e].resources@[i].desc,
                        },
                    ))
                // the ordered work ends with exactly the new layout's view
                // creations, in view order
                &&& spec_ends_with_view_ops(r.1@, final(self).cache@[0])
            },
    {
        let hash = hash_resources(resources);
        let mut cached: Vec<CachedResource> = Vec::new();
        let mut i: usize = 0;
        while i < resources.len()
            invariant
                0 <= i <= resources@.len(),
                cached@.len() == i,
                forall|m: int|
                    0 <= m < i ==> #[trigger] cached@[m] == spec_cached_of(resources@[m]),
            decreases resources@.len() - i,
        {
            let res = &resources[i];
            cached.push(
                CachedResource {
                    size: res.size,
                    lifetime: res.lifetime,
                    desc: res.desc,
                    resource_id: res.resource_id,
                },
            );
            i = i + 1;
        }
        proof {
            assert(cached@ =~= spec_cached_seq(resources@));
        }
        let ghost cachedseq = cached@;
        let sorted = sort_cached_desc(cached);
        proof {
            assert forall|m: int| 0 <= m < sorted@.len() implies spec_packable(
                #[trigger] sorted@[m],
            ) by {
                assert(sorted@.contains(sorted@[m]));
                assert(cachedseq.contains(sorted@[m]));
                let w = choose|w: int| 0 <= w < cachedseq.len() && cachedseq[w] == sorted@[m];
                assert(cachedseq[w] == spec_cached_of(resources@[w]));
            }
        }
        match self.find_entry(hash, &sorted) {
            Option::Some(k) => {
                // promote the hit to the front: it is the current frame's
                // layout, and recency drives eviction
                proof {
                    assert(spec_entry_matches(self.cache@[k as int], hash, sorted@));
                }
                let ghost precache = self.cache@;
                let entry = self.cache.remove(k);
                self.cache.insert(0, entry);
                proof {
                    assert(self.cache@ == precache.remove(k as int).insert(0, precache[k as int]));
                    assert(self.cache@[0] == precache[k as int]);
                    assert forall|j: int|
                        0 <= j < CACHE_ENTRIES && (#[trigger] self.cache@[j]).used implies self.cache@[
                        j
                    ].spec_packable() && self.cache@[j].spec_resolved(self.current_layout@) by {
                        if j == 0 {
                            assert(self.cache@[j] == precache[k as int]);
                        } else if j <= k as int {
                            assert(self.cache@[j] == precache[j - 1]);
                        } else {
                            assert(self.cache@[j] == precache[j]);
                        }
                    }
                }
                (0, Vec::new())
            },
            Option::None => {
                proof {
                    assert forall|k: int|
                        0 <= k < self.cache@.len() implies !spec_entry_matches(
                        #[trigger] self.cache@[k],
                        hash,
                        sorted@,
                    ) by {}
                }
                let ops = self.refresh_layout(hash, sorted, views);
                (0, ops)
            },
        }
    }
}

/// Law: in every layout the allocator holds, two resources placed into
/// byte-overlapping ranges of the same heap have disjoint lifetime
/// intervals, so aliased memory is never live for two tenants at once.
pub proof fn lemma_aliasing_safety(a: HeapMemoryAllocator, k: int)
    requires
        a.wf(),
        0 <= k < a.cache@.len(),
        a.cache@[k].used,
    ensures
        spec_indices_aliasing_safe(a.cache@[k].indices@, a.cache@[k].resources@),
{
}

} // verus!
