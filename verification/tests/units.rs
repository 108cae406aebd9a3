//! Unit tests of the flag algebra, the region geometry, the packer and the
//! layout hash.

use framegraph::allocator::{hash_resources, sort_cached_desc, CachedResource};
use framegraph::flags::{
    RESOURCE_FLAG_ALLOW_DEPTH_STENCIL, RESOURCE_FLAG_ALLOW_RENDER_TARGET, STATE_DEPTH_READ,
    STATE_DEPTH_WRITE, STATE_PIXEL_SHADER_RESOURCE, STATE_RENDER_TARGET,
};
use framegraph::resource::{
    allocation_info, FORMAT_D24_UNORM_S8_UINT, FORMAT_D32_FLOAT, FORMAT_R8G8B8A8_UNORM,
    FORMAT_R8_UNORM, HEAP_GRANULE,
};
use framegraph::DepthFormat;
use framegraph::{
    HeapBin, MemoryRegion, ResourceDesc, TransientResource, TransientResourceLifetime,
    TransitionFlags,
};

fn flags(rt: bool, sr: bool, dw: bool, dr: bool) -> TransitionFlags {
    TransitionFlags { render_target: rt, shader_resource: sr, depth_write: dw, depth_read: dr }
}

fn desc(width: u32, height: u32, format: u32) -> ResourceDesc {
    ResourceDesc { width, height, mip_levels: 1, format, flags: 0 }
}

fn lt(start: u32, end: u32) -> TransientResourceLifetime {
    TransientResourceLifetime { start, end }
}

fn resource(id: u32, size: u64, start: u32, end: u32, usage: TransitionFlags) -> TransientResource {
    TransientResource {
        refcount: 0,
        resource_id: id,
        producer: 0,
        usage,
        lifetime: lt(start, end),
        size,
        alignment: HEAP_GRANULE,
        desc: desc(16, 16, FORMAT_R8_UNORM),
        name: "r",
    }
}

#[test]
fn flag_queries() {
    assert!(flags(false, true, false, false).has_read());
    assert!(flags(false, false, false, true).has_read());
    assert!(!flags(true, false, true, false).has_read());
    assert!(flags(true, false, false, false).has_write());
    assert!(flags(false, false, true, false).has_write());
    assert!(!flags(false, true, false, true).has_write());
    assert!(TransitionFlags::empty().is_empty());
    assert!(!flags(true, false, false, false).is_empty());
}

#[test]
fn flag_union() {
    let mut f = flags(true, false, false, false);
    f.insert(flags(false, true, false, false));
    assert_eq!(f, flags(true, true, false, false));
    assert_eq!(
        flags(false, false, true, false).union(flags(false, false, false, true)),
        flags(false, false, true, true)
    );
}

#[test]
fn flag_state_words() {
    assert_eq!(flags(true, false, false, false).into_resource_state(), STATE_RENDER_TARGET);
    assert_eq!(flags(false, true, false, false).into_resource_state(), STATE_PIXEL_SHADER_RESOURCE);
    assert_eq!(flags(false, false, true, false).into_resource_state(), STATE_DEPTH_WRITE);
    assert_eq!(flags(false, false, false, true).into_resource_state(), STATE_DEPTH_READ);
    assert_eq!(flags(true, true, false, false).into_resource_state(), 0x84);
    assert_eq!(
        flags(false, true, false, true).into_resource_state(),
        STATE_PIXEL_SHADER_RESOURCE + STATE_DEPTH_READ
    );
    assert_eq!(TransitionFlags::empty().into_resource_state(), 0);
}

#[test]
fn flag_creation_words() {
    assert_eq!(
        flags(true, false, false, false).into_resource_flags(),
        RESOURCE_FLAG_ALLOW_RENDER_TARGET
    );
    assert_eq!(
        flags(false, false, true, false).into_resource_flags(),
        RESOURCE_FLAG_ALLOW_DEPTH_STENCIL
    );
    assert_eq!(flags(true, true, true, true).into_resource_flags(), 0x3);
    assert_eq!(flags(false, true, false, true).into_resource_flags(), 0);
}

#[test]
fn region_intersection() {
    // byte ranges and pass intervals both overlap
    let a = MemoryRegion::new(0, 100, 0, 2);
    let b = MemoryRegion::new(50, 100, 1, 3);
    assert!(a.intersects(b));
    assert!(b.intersects(a));

    // byte ranges merely touching do not overlap
    let c = MemoryRegion::new(100, 50, 0, 2);
    assert!(!a.intersects(c));
    assert!(!MemoryRegion::new(0, 100, 0, 2).intersects(MemoryRegion::new(100, 10, 0, 2)));

    // disjoint pass intervals (exclusive ends touching)
    assert!(!MemoryRegion::new(0, 100, 0, 2).intersects(MemoryRegion::new(0, 100, 2, 4)));
}

#[test]
fn bin_packs_disjoint_lifetimes_at_same_offset() {
    let mut bin = HeapBin::new(100);
    // inclusive lifetimes [0,1] and [2,3]: disjoint, so both fit at offset 0
    assert_eq!(bin.insert(lt(0, 1), 100), Some(0));
    assert_eq!(bin.insert(lt(2, 3), 100), Some(0));
    // a tenant overlapping pass 3 must go elsewhere, and there is no room
    assert_eq!(bin.insert(lt(3, 4), 100), None);
}

#[test]
fn bin_stacks_overlapping_lifetimes() {
    let mut bin = HeapBin::new(100);
    assert_eq!(bin.insert(lt(0, 3), 40), Some(0));
    // alive at the same passes as the first tenant: placed above it
    assert_eq!(bin.insert(lt(1, 2), 40), Some(40));
    // clear of the second tenant's passes but not the first's: it may
    // share the second tenant's bytes
    assert_eq!(bin.insert(lt(0, 0), 40), Some(40));
    // alive when both byte-40 tenants are: only the top strip is free
    assert_eq!(bin.insert(lt(0, 2), 20), Some(80));
}

#[test]
fn bin_rejects_oversized() {
    let mut bin = HeapBin::new(10);
    assert_eq!(bin.insert(lt(0, 0), 11), None);
}

#[test]
fn bin_lifetime_boundary_passes_never_share_bytes() {
    let mut bin = HeapBin::new(100);
    assert_eq!(bin.insert(lt(0, 2), 100), Some(0));
    // [2,3] shares pass 2 with [0,2]: the bin refuses the overlap
    assert_eq!(bin.insert(lt(2, 3), 100), None);
}

#[test]
fn allocation_sizes() {
    // raw texel bytes rounded up to the heap granule
    let (size, align) = allocation_info(&desc(1280, 720, FORMAT_R8G8B8A8_UNORM));
    assert_eq!(align, HEAP_GRANULE);
    assert_eq!(size, 3735552);
    assert_eq!(size % HEAP_GRANULE, 0);

    let (r8, _) = allocation_info(&desc(1920, 1080, FORMAT_R8_UNORM));
    assert_eq!(r8, 2097152);

    // depth is four bytes per texel
    let (d, _) = allocation_info(&desc(16, 16, FORMAT_D32_FLOAT));
    assert_eq!(d, HEAP_GRANULE);

    // a degenerate descriptor still allocates one granule
    let (z, _) = allocation_info(&desc(0, 0, FORMAT_R8_UNORM));
    assert_eq!(z, HEAP_GRANULE);
}

#[test]
fn hash_is_deterministic_and_field_sensitive() {
    let base = vec![
        resource(0, 100, 0, 1, flags(true, false, false, false)),
        resource(1, 200, 2, 3, flags(false, true, false, false)),
    ];
    let same = vec![
        resource(0, 100, 0, 1, flags(true, false, false, false)),
        resource(1, 200, 2, 3, flags(false, true, false, false)),
    ];
    assert_eq!(hash_resources(&base), hash_resources(&same));

    let mut other = same.clone();
    other[1].size = 201;
    assert_ne!(hash_resources(&base), hash_resources(&other));

    let mut other = same.clone();
    other[0].lifetime.end = 2;
    assert_ne!(hash_resources(&base), hash_resources(&other));

    let mut other = same.clone();
    other[0].usage = flags(false, false, true, false);
    assert_ne!(hash_resources(&base), hash_resources(&other));

    // order matters: the hash covers the ordered sequence
    let swapped = vec![same[1], same[0]];
    assert_ne!(hash_resources(&base), hash_resources(&swapped));
}

#[test]
fn sort_is_stable_and_descending() {
    let c = |id: u32, size: u64| CachedResource {
        size,
        lifetime: lt(0, 0),
        desc: desc(1, 1, FORMAT_R8_UNORM),
        resource_id: id,
    };
    let sorted = sort_cached_desc(vec![c(0, 10), c(1, 30), c(2, 10), c(3, 20)]);
    let order: Vec<(u32, u64)> = sorted.iter().map(|r| (r.resource_id, r.size)).collect();
    assert_eq!(order, vec![(1, 30), (3, 20), (0, 10), (2, 10)]);
}

#[test]
fn depth_formats_keep_their_words() {
    assert_eq!(DepthFormat::D32.format_code(), FORMAT_D32_FLOAT);
    assert_eq!(DepthFormat::D24.format_code(), FORMAT_D24_UNORM_S8_UINT);
}
