//! A render-graph compiler for an explicit GPU API.
//!
//! Each frame the caller records a sequence of render passes, each declaring
//! the logical resources it reads and writes.  Compilation culls passes whose
//! outputs are never consumed, computes per-resource lifetime intervals,
//! plans the state-transition barriers every pass must emit before running,
//! and packs the surviving transient resources into a small set of reusable
//! physical heaps by aliasing resources whose lifetimes do not overlap.  A
//! bounded cache of recent layouts lets a recurring graph shape reuse the
//! previous frame's heaps and placed resources without any device work.
//!
//! Device work itself (heap creation, placed-resource creation, view
//! creation, barrier submission) is returned to the caller as a list of
//! plain operation records; the library never talks to a device.

pub mod flags;
pub mod resource;
pub mod binding;
pub mod allocator;
pub mod framegraph;

pub use flags::TransitionFlags;
pub use resource::{
    DepthDesc, DepthFormat, FrameGraphResource, InitialResourceState, RenderTargetDesc,
    ResourceDesc, ResourceState, ResourceView, ResourceViewDesc, TextureFormat, TextureSize,
    TransientResource, TransientResourceLifetime,
};
pub use binding::{
    DepthReadResource, DepthStencilResource, DepthWriteResource, IntoTypedResource,
    RenderTargetResource, ResourceBinding, ShaderResource,
};
pub use allocator::{
    CachedResource, Heap, HeapBin, HeapMemoryAllocator, HeapMemoryCacheEntry, HeapOp, MemoryRegion,
};
pub use framegraph::{
    marshal_params, Barrier, FrameGraph, FrameGraphBuilder, PassExecution, RenderPass,
    ResourceTransition,
};
