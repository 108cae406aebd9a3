//! The data model of a frame: logical resources, their descriptors, views
//! and lifetime intervals, all as plain values.
//!
//! Logical resource ids and view ids are dense `u32` values allocated
//! monotonically while a frame is recorded.  A resource's physical size and
//! alignment are a pure function of its descriptor, mirroring a device's
//! allocation-info query.

use vstd::prelude::*;
use crate::flags::TransitionFlags;

verus! {

/// Device format word for an 8-bit-per-channel RGBA color texture.
pub const FORMAT_R8G8B8A8_UNORM: u32 = 28;
/// Device format word for a 32-bit float depth texture.
pub const FORMAT_D32_FLOAT: u32 = 40;
/// Device format word for a 24-bit depth texture with an 8-bit stencil.
pub const FORMAT_D24_UNORM_S8_UINT: u32 = 45;
/// Device format word for a single-channel 8-bit texture.
pub const FORMAT_R8_UNORM: u32 = 61;

/// Placement alignment and size granule of a physical heap, in bytes.
pub const HEAP_GRANULE: u64 = 65536;

/// Largest texture dimension the allocator accepts; keeps every byte-size
/// computation inside `u64`.
pub const MAX_TEXTURE_DIM: u32 = 32768;

/// Color formats a render target can be created with.
#[derive(Clone, Copy, Debug, PartialEq, Eq, Structural)]
pub enum TextureFormat {
    RGBA8,
    R8,
}

/// Depth formats a depth target can be created with.
#[derive(Clone, Copy, Debug, PartialEq, Eq, Structural)]
pub enum DepthFormat {
    D32,
    D24,
}

/// Dimensions of a created texture, either relative to the frame or given
/// outright.
#[derive(Clone, Copy, Debug, PartialEq, Eq, Structural)]
pub enum TextureSize {
    Full,
    Half,
    Explicit(u32, u32),
}

/// What the first pass may assume about a fresh resource's contents.
#[derive(Clone, Copy, Debug, PartialEq, Eq, Structural)]
pub enum InitialResourceState {
    Clear,
    DontCare,
}

/// What a pass may assume about a resource's contents on reuse.
#[derive(Clone, Copy, Debug, PartialEq, Eq, Structural)]
pub enum ResourceState {
    Clear,
    DontCare,
}

/// Creation parameters of a render target.
#[derive(Clone, Copy, Debug, PartialEq, Eq, Structural)]
pub struct RenderTargetDesc {
    pub format: TextureFormat,
    pub size: TextureSize,
    pub mip_levels: u32,
    pub state: InitialResourceState,
}

/// Creation parameters of a depth target.
#[derive(Clone, Copy, Debug, PartialEq, Eq, Structural)]
pub struct DepthDesc {
    pub format: DepthFormat,
    pub size: TextureSize,
    pub state: InitialResourceState,
}

/// The resource descriptor handed to the device when the physical resource
/// is created: plain words only.
#[derive(Clone, Copy, Debug, PartialEq, Eq, Structural)]
pub struct ResourceDesc {
    pub width: u32,
    pub height: u32,
    pub mip_levels: u32,
    pub format: u32,
    /// Creation flags; filled from the frame-wide usage union by the
    /// barrier planner.
    pub flags: u32,
}

/// A logical (virtual) resource handle produced while recording a pass.
#[derive(Clone, Copy, Debug)]
pub struct FrameGraphResource {
    pub name: &'static str,
    pub view_id: u32,
    pub resource_id: u32,
}

/// First and last pass index (both inclusive) that reference a resource.
#[derive(Clone, Copy, Debug, PartialEq, Eq, Structural)]
pub struct TransientResourceLifetime {
    pub start: u32,
    pub end: u32,
}

/// The per-frame record of a logical resource.
#[derive(Clone, Copy, Debug)]
pub struct TransientResource {
    /// Number of passes that read the resource; maintained by the culler.
    pub refcount: u32,
    pub resource_id: u32,
    /// Index of the pass that created the resource.
    pub producer: u32,
    /// Union of every access flag a pass declared on the resource.
    pub usage: TransitionFlags,
    pub lifetime: TransientResourceLifetime,
    pub size: u64,
    pub alignment: u64,
    pub desc: ResourceDesc,
    pub name: &'static str,
}

/// Parameters of a render-target view.
#[derive(Clone, Copy, Debug, PartialEq, Eq, Structural)]
pub struct RenderTargetViewDesc {
    pub format: u32,
    pub mip_slice: u32,
    pub plane_slice: u32,
}

/// Parameters of a shader-resource view.
#[derive(Clone, Copy, Debug, PartialEq, Eq, Structural)]
pub struct ShaderResourceViewDesc {
    pub format: u32,
    pub most_detailed_mip: u32,
    pub mip_levels: u32,
}

/// A typed interpretation of a resource's bytes.
#[derive(Clone, Copy, Debug, PartialEq, Eq, Structural)]
pub enum ResourceViewDesc {
    RenderTarget(RenderTargetViewDesc),
    ShaderResource(ShaderResourceViewDesc),
}

/// A view entry recorded for the frame; `view_id` indexes the shared
/// descriptor slab.
#[derive(Clone, Copy, Debug, PartialEq, Eq, Structural)]
pub struct ResourceView {
    pub resource_id: u32,
    pub view_id: u32,
    pub desc: ResourceViewDesc,
}

/// A resource created while recording a pass, before sizing.
#[derive(Clone, Copy, Debug)]
pub struct PlacedResource {
    pub name: &'static str,
    pub resource_id: u32,
    pub flags: TransitionFlags,
    pub desc: ResourceDesc,
}

impl TextureFormat {
    pub open spec fn spec_format_code(self) -> u32 {
        match self {
            TextureFormat::RGBA8 => FORMAT_R8G8B8A8_UNORM,
            TextureFormat::R8 => FORMAT_R8_UNORM,
        }
    }

    /// The device format word of this color format.
    pub fn format_code(self) -> (r: u32)
        ensures
            r == self.spec_format_code(),
    {
        match self {
            TextureFormat::RGBA8 => FORMAT_R8G8B8A8_UNORM,
            TextureFormat::R8 => FORMAT_R8_UNORM,
        }
    }
}

impl DepthFormat {
    pub open spec fn spec_format_code(self) -> u32 {
        match self {
            DepthFormat::D32 => FORMAT_D32_FLOAT,
            DepthFormat::D24 => FORMAT_D24_UNORM_S8_UINT,
        }
    }

    /// The device format word of this depth format.
    pub fn format_code(self) -> (r: u32)
        ensures
            r == self.spec_format_code(),
    {
        match self {
            DepthFormat::D32 => FORMAT_D32_FLOAT,
            DepthFormat::D24 => FORMAT_D24_UNORM_S8_UINT,
        }
    }
}

impl TextureSize {
    /// Concrete dimensions: the frame is 1280 by 720.
    pub open spec fn spec_dims(self) -> (u32, u32) {
        match self {
            TextureSize::Full => (1280u32, 720u32),
            TextureSize::Half => (640u32, 360u32),
            TextureSize::Explicit(w, h) => (w, h),
        }
    }

    pub fn dims(self) -> (r: (u32, u32))
        ensures
            r == self.spec_dims(),
    {
        match self {
            TextureSize::Full => (1280, 720),
            TextureSize::Half => (640, 360),
            TextureSize::Explicit(w, h) => (w, h),
        }
    }
}

/// Bytes per texel of a device format word.
pub open spec fn spec_bytes_per_texel(format: u32) -> u64 {
    if format == FORMAT_R8_UNORM {
        1u64
    } else {
        4u64
    }
}

pub fn bytes_per_texel(format: u32) -> (r: u64)
    ensures
        r == spec_bytes_per_texel(format),
{
    if format == FORMAT_R8_UNORM {
        1
    } else {
        4
    }
}

/// The byte size the device would allocate for `desc`: the raw texel bytes
/// rounded up to the heap granule, and at least one granule.
pub open spec fn spec_allocation_size(desc: ResourceDesc) -> u64 {
    let raw = desc.width * desc.height * spec_bytes_per_texel(desc.format);
    let rounded = ((raw + (HEAP_GRANULE - 1)) / (HEAP_GRANULE as int)) * HEAP_GRANULE;
    if rounded == 0 {
        HEAP_GRANULE as u64
    } else {
        rounded as u64
    }
}

/// Mirrors the device's allocation-info query for a resource descriptor:
/// a pure function of the descriptor.
pub fn allocation_info(desc: &ResourceDesc) -> (r: (u64, u64))
    requires
        desc.width <= MAX_TEXTURE_DIM,
        desc.height <= MAX_TEXTURE_DIM,
    ensures
        r.0 == spec_allocation_size(*desc),
        r.1 == HEAP_GRANULE,
        r.0 >= HEAP_GRANULE,
        r.0 % HEAP_GRANULE == 0,
{
    let bpt = bytes_per_texel(desc.format);
    assert((desc.width as u64) * (desc.height as u64) * bpt <= 0x8000u64 * 0x8000u64 * 4u64)
        by (nonlinear_arith)
        requires
            desc.width <= 0x8000,
            desc.height <= 0x8000,
            bpt <= 4,
    ;
    let raw: u64 = (desc.width as u64) * (desc.height as u64) * bpt;
    assert(((raw + (HEAP_GRANULE - 1) as int) / (HEAP_GRANULE as int)) * (HEAP_GRANULE as int)
        <= raw + (HEAP_GRANULE - 1) as int) by (nonlinear_arith);
    let rounded: u64 = ((raw + (HEAP_GRANULE - 1)) / HEAP_GRANULE) * HEAP_GRANULE;
    let size: u64 = if rounded == 0 { HEAP_GRANULE } else { rounded };
    (size, HEAP_GRANULE)
}

} // verus!
