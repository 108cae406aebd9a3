//! The frame graph: recording of passes, reference-count culling, lifetime
//! analysis, barrier planning, and dispatch plans.
//!
//! A frame is recorded as a sequence of passes, each declaring the logical
//! resources it creates, reads and writes.  Compilation culls passes whose
//! outputs nothing consumes, computes each resource's first and last use,
//! plans the state-transition barriers every pass must see before it runs,
//! and resolves the transient resources to placed physical memory through
//! the heap allocator.  Execution then yields, per pass, the barriers to
//! submit and the resolved descriptor handles for its parameter block.

use vstd::prelude::*;
use crate::flags::TransitionFlags;
use crate::binding::ResourceBinding;
use crate::binding::IntoTypedResource;
use crate::binding::RenderTargetResource;
use crate::binding::ShaderResource;
use crate::binding::DepthReadResource;
use crate::binding::DepthWriteResource;
use crate::allocator::{
    spec_cached_seq,
    spec_ends_with_view_ops,
    spec_entry_matches,
    spec_had_placement,
    spec_hash_resources,
    spec_sort_cached,
    HeapMemoryAllocator,
    HeapOp,
    CACHE_ENTRIES,
    DESCRIPTOR_SLAB_CAPACITY,
};
use crate::resource::{
    allocation_info,
    DepthDesc,
    FrameGraphResource,
    PlacedResource,
    RenderTargetDesc,
    RenderTargetViewDesc,
    ResourceDesc,
    ResourceView,
    ResourceViewDesc,
    TransientResource,
    TransientResourceLifetime,
    MAX_TEXTURE_DIM,
};

verus! {

/// One recorded render pass: its resource accesses in declaration order,
/// the views it recorded, the layout of its output parameter block, and the
/// culler's count of the writes it performs.
#[derive(Debug)]
pub struct RenderPass {
    pub name: &'static str,
    /// `(resource id, access flags)` in declaration order.
    pub resources: Vec<(u32, TransitionFlags)>,
    pub views: Vec<ResourceView>,
    /// Output-handle layout: `(is_cpu, view id, resource id)` per handle.
    pub params: Vec<(bool, u32, u32)>,
    /// Byte size of the marshalled parameter block.
    pub param_size: usize,
    pub refcount: u32,
}

/// A planned state transition, attached to the pass that must emit it
/// before its own work.
#[derive(Clone, Copy, Debug, PartialEq, Eq, Structural)]
pub struct ResourceTransition {
    pub resource: u32,
    pub from: TransitionFlags,
    pub to: TransitionFlags,
}

/// A barrier as handed to the command recorder, with device state words.
#[derive(Clone, Copy, Debug, PartialEq, Eq, Structural)]
pub enum Barrier {
    Transition { resource: u32, from: u32, to: u32 },
    Alias { resource: u32 },
}

/// Everything the embedder needs to run one pass: the barriers to submit
/// first, and the resolved descriptor handles of its parameter block, each
/// tagged CPU or GPU so the block can be laid out byte-exactly.
#[derive(Clone, Debug)]
pub struct PassExecution {
    pub name: &'static str,
    pub barriers: Vec<Barrier>,
    pub params: Vec<(bool, u64)>,
    pub param_size: usize,
}

/// Byte size of one descriptor handle inside a parameter block; CPU and
/// GPU handles are both eight bytes wide.
pub const HANDLE_SIZE: usize = 8;

/// The per-pass record API: creates resources and declares reads and
/// writes, handing back typed handles.
pub struct FrameGraphBuilder {
    pub created: Vec<PlacedResource>,
    pub resources: Vec<(u32, TransitionFlags)>,
    pub views: Vec<ResourceView>,
    pub counter: u32,
    pub view_counter: u32,
}

impl FrameGraphBuilder {
    /// Internal consistency of a builder: created resources carry the ids
    /// the counter handed out, accesses reference ids below the counter,
    /// and descriptors stay within the allocator's dimension bound.
    pub open spec fn spec_wf(self) -> bool {
        &&& self.counter >= self.created@.len()
        &&& forall|i: int|
            0 <= i < self.created@.len() ==> (#[trigger] self.created@[i]).resource_id
                == self.counter - self.created@.len() + i
        &&& forall|i: int|
            0 <= i < self.resources@.len() ==> (#[trigger] self.resources@[i]).0 < self.counter
        &&& forall|i: int|
            0 <= i < self.views@.len() ==> (#[trigger] self.views@[i]).resource_id < self.counter
        &&& forall|i: int|
            0 <= i < self.views@.len() ==> (#[trigger] self.views@[i]).view_id < self.view_counter
        &&& forall|i: int|
            0 <= i < self.created@.len() ==> (#[trigger] self.created@[i]).desc.width
                <= MAX_TEXTURE_DIM && self.created@[i].desc.height <= MAX_TEXTURE_DIM
    }

    /// A builder whose ids continue at the given offsets.
    pub fn new(offset: u32, view_offset: u32) -> (r: FrameGraphBuilder)
        ensures
            r.spec_wf(),
            r.created@.len() == 0,
            r.resources@.len() == 0,
            r.views@.len() == 0,
            r.counter == offset,
            r.view_counter == view_offset,
    {
        FrameGraphBuilder {
            created: Vec::new(),
            resources: Vec::new(),
            views: Vec::new(),
            counter: offset,
            view_counter: view_offset,
        }
    }

    /// Declares a new color target written by this pass, records its
    /// render-target view, and returns the typed handle.
    pub fn create_render_target(&mut self, name: &'static str, desc: RenderTargetDesc) -> (r:
        RenderTargetResource)
        requires
            old(self).spec_wf(),
            old(self).counter < 0xFFFF_FFFFu32,
            old(self).view_counter < DESCRIPTOR_SLAB_CAPACITY,
            desc.size.spec_dims().0 <= MAX_TEXTURE_DIM,
            desc.size.spec_dims().1 <= MAX_TEXTURE_DIM,
        ensures
            final(self).spec_wf(),
            final(self).counter == old(self).counter + 1,
            final(self).view_counter == old(self).view_counter + 1,
            r.0 == (FrameGraphResource {
                name,
                view_id: old(self).view_counter,
                resource_id: old(self).counter,
            }),
            final(self).created@ == old(self).created@.push(
                PlacedResource {
                    name,
                    resource_id: old(self).counter,
                    flags: (TransitionFlags { render_target: true, ..TransitionFlags::spec_empty() }),
                    desc: (ResourceDesc {
                        width: desc.size.spec_dims().0,
                        height: desc.size.spec_dims().1,
                        mip_levels: desc.mip_levels,
                        format: desc.format.spec_format_code(),
                        flags: 0,
                    }),
                },
            ),
            final(self).views@ == old(self).views@.push(
                ResourceView {
                    resource_id: old(self).counter,
                    view_id: old(self).view_counter,
                    desc: ResourceViewDesc::RenderTarget(
                        RenderTargetViewDesc {
                            format: desc.format.spec_format_code(),
                            mip_slice: 0,
                            plane_slice: 0,
                        },
                    ),
                },
            ),
            final(self).resources@ == old(self).resources@.push(
                (
                    old(self).counter,
                    TransitionFlags { render_target: true, ..TransitionFlags::spec_empty() },
                ),
            ),
    {
        let virtual_id = self.counter;
        self.counter = self.counter + 1;
        let res = FrameGraphResource { name, view_id: self.view_counter, resource_id: virtual_id };

        let dims = desc.size.dims();
        let resource_desc = ResourceDesc {
            width: dims.0,
            height: dims.1,
            mip_levels: desc.mip_levels,
            format: desc.format.format_code(),
            flags: 0,
        };

        let view_desc = RenderTargetViewDesc {
            format: desc.format.format_code(),
            mip_slice: 0,
            plane_slice: 0,
        };
        self.views.push(
            ResourceView {
                resource_id: virtual_id,
                view_id: self.view_counter,
                desc: ResourceViewDesc::RenderTarget(view_desc),
            },
        );
        self.view_counter = self.view_counter + 1;

        self.created.push(
            PlacedResource {
                name,
                resource_id: virtual_id,
                flags: TransitionFlags::render_target(),
                desc: resource_desc,
            },
        );
        self.write(res, TransitionFlags::render_target());
        RenderTargetResource(res)
    }

    /// Declares a new depth target written by this pass and returns the
    /// typed handle.
    pub fn create_depth(&mut self, name: &'static str, desc: DepthDesc) -> (r: DepthWriteResource)
        requires
            old(self).spec_wf(),
            old(self).counter < 0xFFFF_FFFFu32,
            old(self).view_counter < DESCRIPTOR_SLAB_CAPACITY,
            desc.size.spec_dims().0 <= MAX_TEXTURE_DIM,
            desc.size.spec_dims().1 <= MAX_TEXTURE_DIM,
        ensures
            final(self).spec_wf(),
            final(self).counter == old(self).counter + 1,
            final(self).view_counter == old(self).view_counter + 1,
            r.0 == (FrameGraphResource {
                name,
                view_id: old(self).view_counter,
                resource_id: old(self).counter,
            }),
            final(self).created@ == old(self).created@.push(
                PlacedResource {
                    name,
                    resource_id: old(self).counter,
                    flags: (TransitionFlags { depth_write: true, ..TransitionFlags::spec_empty() }),
                    desc: (ResourceDesc {
                        width: desc.size.spec_dims().0,
                        height: desc.size.spec_dims().1,
                        mip_levels: 1,
                        format: desc.format.spec_format_code(),
                        flags: 0,
                    }),
                },
            ),
            final(self).views@ == old(self).views@,
            final(self).resources@ == old(self).resources@.push(
                (
                    old(self).counter,
                    TransitionFlags { depth_write: true, ..TransitionFlags::spec_empty() },
                ),
            ),
    {
        let virtual_id = self.counter;
        self.counter = self.counter + 1;
        let res = FrameGraphResource { name, view_id: self.view_counter, resource_id: virtual_id };
        self.view_counter = self.view_counter + 1;

        let dims = desc.size.dims();
        let resource_desc = ResourceDesc {
            width: dims.0,
            height: dims.1,
            mip_levels: 1,
            format: desc.format.format_code(),
            flags: 0,
        };

        self.created.push(
            PlacedResource {
                name,
                resource_id: virtual_id,
                flags: TransitionFlags::depth_write(),
                desc: resource_desc,
            },
        );
        self.write(res, TransitionFlags::depth_write());
        DepthWriteResource(res)
    }

    /// Declares a shader-resource read of a handle that may legally be
    /// sampled.
    pub fn read_srv<T: IntoTypedResource<ShaderResource>>(&mut self, resource: &T) -> (r:
        ShaderResource)
        requires
            old(self).spec_wf(),
            resource.spec_resource().resource_id < old(self).counter,
        ensures
            final(self).spec_wf(),
            final(self).counter == old(self).counter,
            final(self).view_counter == old(self).view_counter,
            final(self).created@ == old(self).created@,
            final(self).views@ == old(self).views@,
            r.0 == resource.spec_resource(),
            final(self).resources@ == old(self).resources@.push(
                (
                    resource.spec_resource().resource_id,
                    TransitionFlags { shader_resource: true, ..TransitionFlags::spec_empty() },
                ),
            ),
    {
        ShaderResource(self.read(resource.get_virtual_resource(), TransitionFlags::shader_resource()))
    }

    /// Declares a depth-read of a handle that may legally be read as depth.
    pub fn read_depth<T: IntoTypedResource<DepthReadResource>>(&mut self, resource: &T) -> (r:
        DepthReadResource)
        requires
            old(self).spec_wf(),
            resource.spec_resource().resource_id < old(self).counter,
        ensures
            final(self).spec_wf(),
            final(self).counter == old(self).counter,
            final(self).view_counter == old(self).view_counter,
            final(self).created@ == old(self).created@,
            final(self).views@ == old(self).views@,
            r.0 == resource.spec_resource(),
            final(self).resources@ == old(self).resources@.push(
                (
                    resource.spec_resource().resource_id,
                    TransitionFlags { depth_read: true, ..TransitionFlags::spec_empty() },
                ),
            ),
    {
        DepthReadResource(self.read(resource.get_virtual_resource(), TransitionFlags::depth_read()))
    }

    /// Declares a depth-write of a handle that may legally be written as
    /// depth.
    pub fn write_depth<T: IntoTypedResource<DepthWriteResource>>(&mut self, resource: T) -> (r:
        DepthWriteResource)
        requires
            old(self).spec_wf(),
            resource.spec_resource().resource_id < old(self).counter,
        ensures
            final(self).spec_wf(),
            final(self).counter == old(self).counter,
            final(self).view_counter == old(self).view_counter,
            final(self).created@ == old(self).created@,
            final(self).views@ == old(self).views@,
            r.0 == resource.spec_resource(),
            final(self).resources@ == old(self).resources@.push(
                (
                    resource.spec_resource().resource_id,
                    TransitionFlags { depth_write: true, ..TransitionFlags::spec_empty() },
                ),
            ),
    {
        DepthWriteResource(self.write(resource.get_virtual_resource(), TransitionFlags::depth_write()))
    }

    fn read(&mut self, resource: FrameGraphResource, transition: TransitionFlags) -> (r:
        FrameGraphResource)
        requires
            old(self).spec_wf(),
            resource.resource_id < old(self).counter,
        ensures
            final(self).spec_wf(),
            final(self).counter == old(self).counter,
            final(self).view_counter == old(self).view_counter,
            final(self).created@ == old(self).created@,
            final(self).views@ == old(self).views@,
            final(self).resources@ == old(self).resources@.push(
                (resource.resource_id, transition),
            ),
            r == resource,
    {
        self.resources.push((resource.resource_id, transition));
        resource
    }

    fn write(&mut self, resource: FrameGraphResource, transition: TransitionFlags) -> (r:
        FrameGraphResource)
        requires
            old(self).spec_wf(),
            resource.resource_id < old(self).counter,
        ensures
            final(self).spec_wf(),
            final(self).counter == old(self).counter,
            final(self).view_counter == old(self).view_counter,
            final(self).created@ == old(self).created@,
            final(self).views@ == old(self).views@,
            final(self).resources@ == old(self).resources@.push(
                (resource.resource_id, transition),
            ),
            r == resource,
    {
        self.resources.push((resource.resource_id, transition));
        resource
    }
}

/// Whether pass `p` declares any access on resource `rid`.
pub open spec fn spec_references(p: RenderPass, rid: int) -> bool {
    exists|k: int| 0 <= k < p.resources@.len() && (#[trigger] p.resources@[k]).0 == rid
}

/// Whether pass `p` declares any write.
pub open spec fn spec_pass_writes(p: RenderPass) -> bool {
    exists|k: int| 0 <= k < p.resources@.len() && (#[trigger] p.resources@[k]).1.spec_has_write()
}

/// Number of write declarations among the first `k` entries of a pass's
/// declaration list; a declaration that also reads counts as the read.
pub open spec fn spec_write_count(rs: Seq<(u32, TransitionFlags)>, k: int) -> int
    decreases k,
{
    if k <= 0 || k > rs.len() {
        0
    } else {
        spec_write_count(rs, k - 1) + if (rs[k - 1]).1.spec_has_write() && !(rs[k
            - 1]).1.spec_has_read() {
            1int
        } else {
            0int
        }
    }
}

/// Two passes that differ at most in their reference count.
pub open spec fn spec_same_pass(a: RenderPass, b: RenderPass) -> bool {
    &&& a.name == b.name
    &&& a.resources@ == b.resources@
    &&& a.views@ == b.views@
    &&& a.params@ == b.params@
    &&& a.param_size == b.param_size
}

/// Folds the accesses of one pass's declaration list on `rid` into `acc`.
pub open spec fn spec_pass_aggregate(
    rs: Seq<(u32, TransitionFlags)>,
    rid: int,
    acc: TransitionFlags,
) -> TransitionFlags
    decreases rs.len(),
{
    if rs.len() == 0 {
        acc
    } else {
        spec_pass_aggregate(
            rs.drop_first(),
            rid,
            if rs[0].0 == rid {
                acc.spec_union(rs[0].1)
            } else {
                acc
            },
        )
    }
}

pub open spec fn spec_aggregate_from(
    passes: Seq<RenderPass>,
    rid: int,
    acc: TransitionFlags,
) -> TransitionFlags
    decreases passes.len(),
{
    if passes.len() == 0 {
        acc
    } else {
        spec_aggregate_from(
            passes.drop_first(),
            rid,
            spec_pass_aggregate(passes[0].resources@, rid, acc),
        )
    }
}

/// The union of every access flag the frame declares on `rid`: what the
/// physical resource must be created to support.
pub open spec fn spec_aggregate(passes: Seq<RenderPass>, rid: int) -> TransitionFlags {
    spec_aggregate_from(passes, rid, TransitionFlags::spec_empty())
}

/// The frame graph: recorded passes and resources, the planner's output,
/// the heap allocator with its cross-frame cache, and the id counters of
/// the current frame.
pub struct FrameGraph {
    pub renderpasses: Vec<RenderPass>,
    /// Transitions each pass must emit before it runs; parallel to
    /// `renderpasses` once compiled.
    pub renderpass_transitions: Vec<Vec<ResourceTransition>>,
    /// State each resource was left in by the previous compile, consumed as
    /// the `from` state of its first transition in the next frame.
    pub final_transitions: Vec<Option<TransitionFlags>>,
    /// Per-resource flag: an aliasing barrier has been emitted this frame.
    pub resource_aliasing: Vec<bool>,
    pub resources: Vec<TransientResource>,
    pub views: Vec<ResourceView>,
    pub heaps: HeapMemoryAllocator,
    pub virtual_offset: u32,
    pub virtual_view: u32,
}

impl FrameGraph {
    /// Invariant of the graph between operations: the allocator is sound,
    /// resource ids are dense, every declared access and view references a
    /// recorded resource, and sizes and lifetimes stay in packable range.
    pub open spec fn wf(self) -> bool {
        &&& self.heaps.wf()
        &&& self.resources@.len() <= 0xFFFF_FFFF
        &&& self.renderpasses@.len() < 0xFFFF_FFFF
        &&& forall|i: int|
            0 <= i < self.resources@.len() ==> (#[trigger] self.resources@[i]).resource_id == i
        &&& forall|i: int|
            0 <= i < self.resources@.len() ==> (#[trigger] self.resources@[i]).size >= 1
        &&& forall|i: int|
            0 <= i < self.resources@.len() ==> (#[trigger] self.resources@[i]).lifetime.start
                <= self.resources@[i].lifetime.end
        &&& forall|i: int|
            0 <= i < self.resources@.len() ==> (#[trigger] self.resources@[i]).lifetime.end
                < 0xFFFF_FFFFu32
        &&& forall|p: int|
            0 <= p < self.renderpasses@.len() ==> (#[trigger] self.renderpasses@[p]).resources@.len()
                < 0xFFFF_FFFF
        &&& forall|p: int, k: int|
            0 <= p < self.renderpasses@.len() && 0 <= k
                < self.renderpasses@[p].resources@.len() ==> (#[trigger] self.renderpasses@[
                p
            ].resources@[k]).0 < self.resources@.len()
        &&& forall|i: int|
            0 <= i < self.views@.len() ==> (#[trigger] self.views@[i]).resource_id
                < self.resources@.len()
        &&& self.virtual_view <= DESCRIPTOR_SLAB_CAPACITY
        &&& forall|i: int|
            0 <= i < self.views@.len() ==> (#[trigger] self.views@[i]).view_id
                < DESCRIPTOR_SLAB_CAPACITY
        &&& forall|p: int, m: int|
            0 <= p < self.renderpasses@.len() && 0 <= m
                < self.renderpasses@[p].params@.len() ==> (#[trigger] self.renderpasses@[
                p
            ].params@[m]).1 < DESCRIPTOR_SLAB_CAPACITY
    }

    /// A fresh graph over the device's two descriptor slabs, given by base
    /// handle and stride.
    pub fn new(srv_heap_base: u64, srv_stride: u32, rtv_heap_base: u64, rtv_stride: u32) -> (r:
        FrameGraph)
        requires
            srv_heap_base + DESCRIPTOR_SLAB_CAPACITY * srv_stride <= u64::MAX,
            rtv_heap_base + DESCRIPTOR_SLAB_CAPACITY * rtv_stride <= u64::MAX,
        ensures
            r.wf(),
            r.renderpasses@.len() == 0,
            r.resources@.len() == 0,
            r.views@.len() == 0,
            r.final_transitions@.len() == 0,
            r.virtual_offset == 0,
            r.virtual_view == 0,
    {
        FrameGraph {
            renderpasses: Vec::new(),
            renderpass_transitions: Vec::new(),
            final_transitions: Vec::new(),
            resource_aliasing: Vec::new(),
            resources: Vec::new(),
            views: Vec::new(),
            heaps: HeapMemoryAllocator::new(srv_heap_base, srv_stride, rtv_heap_base, rtv_stride),
            virtual_offset: 0,
            virtual_view: 0,
        }
    }

    /// A builder whose ids continue where the frame's recording stands.
    pub fn builder(&self) -> (r: FrameGraphBuilder)
        ensures
            r.spec_wf(),
            r.created@.len() == 0,
            r.resources@.len() == 0,
            r.views@.len() == 0,
            r.counter == self.virtual_offset,
            r.view_counter == self.virtual_view,
    {
        FrameGraphBuilder::new(self.virtual_offset, self.virtual_view)
    }

    /// Appends one recorded pass: sizes each resource the builder created
    /// through the allocation query, adopts the builder's accesses and
    /// views, and derives the pass's parameter-block layout from the output
    /// handle.  Returns the new pass's index; the embedder keys the pass's
    /// execute callback by it.
    pub fn add_pass<T: ResourceBinding>(
        &mut self,
        name: &'static str,
        builder: FrameGraphBuilder,
        output: &T,
    ) -> (r: usize)
        requires
            old(self).wf(),
            builder.spec_wf(),
            builder.counter - builder.created@.len() == old(self).resources@.len(),
            builder.counter <= 0xFFFF_FFFFu32,
            builder.resources@.len() < 0xFFFF_FFFF,
            builder.view_counter <= DESCRIPTOR_SLAB_CAPACITY,
            old(self).renderpasses@.len() < 0xFFFF_FFFE,
            output.spec_resources().len() <= 0x1000_0000,
            forall|m: int|
                0 <= m < output.spec_resources().len() ==> (
                #[trigger] output.spec_resources()[m]).view_id < builder.view_counter,
            old(self).virtual_offset == old(self).resources@.len(),
        ensures
            final(self).wf(),
            r == old(self).renderpasses@.len(),
            final(self).renderpasses@.len() == old(self).renderpasses@.len() + 1,
            final(self).resources@.len() == old(self).resources@.len() + builder.created@.len(),
            final(self).virtual_offset == builder.counter,
            final(self).virtual_view == builder.view_counter,
            final(self).virtual_offset == final(self).resources@.len(),
            final(self).heaps == old(self).heaps,
            final(self).final_transitions@ == old(self).final_transitions@,
            // the recorded passes keep their places; the new pass carries
            // the builder's declarations
            forall|p: int|
                0 <= p < old(self).renderpasses@.len() ==> #[trigger] final(self).renderpasses@[p]
                    == old(self).renderpasses@[p],
            final(self).renderpasses@[r as int].name == name,
            final(self).renderpasses@[r as int].resources@ == builder.resources@,
            final(self).renderpasses@[r as int].views@ == builder.views@,
            final(self).renderpasses@[r as int].refcount == 0,
            final(self).renderpasses@[r as int].param_size == HANDLE_SIZE
                * output.spec_resources().len(),
            final(self).renderpasses@[r as int].params@.len() == output.spec_resources().len(),
            forall|m: int|
                0 <= m < output.spec_resources().len() ==> #[trigger] final(self).renderpasses@[
                    r as int
                ].params@[m] == (
                    output.spec_is_cpus()[m],
                    output.spec_resources()[m].view_id,
                    output.spec_resources()[m].resource_id,
                ),
            final(self).views@ == old(self).views@ + builder.views@,
            // the recorded resources keep their places; each created one is
            // adopted with its queried size and alignment
            forall|i: int|
                0 <= i < old(self).resources@.len() ==> #[trigger] final(self).resources@[i]
                    == old(self).resources@[i],
            forall|i: int|
                0 <= i < builder.created@.len() ==> {
                    let res = #[trigger] final(self).resources@[old(self).resources@.len() + i];
                    &&& res.resource_id == builder.created@[i].resource_id
                    &&& res.usage == builder.created@[i].flags
                    &&& res.desc == builder.created@[i].desc
                    &&& res.name == builder.created@[i].name
                    &&& res.refcount == 0
                    &&& res.lifetime == (TransientResourceLifetime { start: 0, end: 0 })
                    &&& res.producer == old(self).renderpasses@.len()
                },
    {
        let producer = self.renderpasses.len();
        self.virtual_offset = builder.counter;
        self.virtual_view = builder.view_counter;

        let mut i: usize = 0;
        while i < builder.created.len()
            invariant
                old(self).wf(),
                builder.spec_wf(),
                builder.counter - builder.created@.len() == old(self).resources@.len(),
                builder.counter <= 0xFFFF_FFFFu32,
                producer == old(self).renderpasses@.len(),
                old(self).renderpasses@.len() < 0xFFFF_FFFE,
                0 <= i <= builder.created@.len(),
                self.renderpasses@ == old(self).renderpasses@,
                self.renderpass_transitions@ == old(self).renderpass_transitions@,
                self.final_transitions@ == old(self).final_transitions@,
                self.resource_aliasing@ == old(self).resource_aliasing@,
                self.views@ == old(self).views@,
                self.heaps == old(self).heaps,
                self.virtual_offset == builder.counter,
                self.virtual_view == builder.view_counter,
                self.resources@.len() == old(self).resources@.len() + i,
                forall|m: int|
                    0 <= m < old(self).resources@.len() ==> #[trigger] self.resources@[m] == old(
                        self,
                    ).resources@[m],
                forall|m: int|
                    0 <= m < i ==> {
                        let res = #[trigger] self.resources@[old(self).resources@.len() + m];
                        &&& res.resource_id == builder.created@[m].resource_id
                        &&& res.usage == builder.created@[m].flags
                        &&& res.desc == builder.created@[m].desc
                        &&& res.name == builder.created@[m].name
                        &&& res.refcount == 0
                        &&& res.lifetime == (TransientResourceLifetime { start: 0, end: 0 })
                        &&& res.producer == old(self).renderpasses@.len()
                        &&& res.size >= 1
                    },
            decreases builder.created@.len() - i,
        {
            let c = builder.created[i];
            let info = allocation_info(&c.desc);
            self.resources.push(
                TransientResource {
                    refcount: 0,
                    resource_id: c.resource_id,
                    producer: producer as u32,
                    usage: c.flags,
                    lifetime: TransientResourceLifetime { start: 0, end: 0 },
                    size: info.0,
                    alignment: info.1,
                    desc: c.desc,
                    name: c.name,
                },
            );
            i = i + 1;
        }

        let mut i: usize = 0;
        while i < builder.views.len()
            invariant
                old(self).wf(),
                builder.spec_wf(),
                builder.counter - builder.created@.len() == old(self).resources@.len(),
                builder.counter <= 0xFFFF_FFFFu32,
                producer == old(self).renderpasses@.len(),
                old(self).renderpasses@.len() < 0xFFFF_FFFE,
                0 <= i <= builder.views@.len(),
                self.renderpasses@ == old(self).renderpasses@,
                self.renderpass_transitions@ == old(self).renderpass_transitions@,
                self.final_transitions@ == old(self).final_transitions@,
                self.resource_aliasing@ == old(self).resource_aliasing@,
                self.heaps == old(self).heaps,
                self.virtual_offset == builder.counter,
                self.virtual_view == builder.view_counter,
                self.resources@.len() == old(self).resources@.len() + builder.created@.len(),
                forall|m: int|
                    0 <= m < old(self).resources@.len() ==> #[trigger] self.resources@[m] == old(
                        self,
                    ).resources@[m],
                forall|m: int|
                    0 <= m < builder.created@.len() ==> {
                        let res = #[trigger] self.resources@[old(self).resources@.len() + m];
                        &&& res.resource_id == builder.created@[m].resource_id
                        &&& res.usage == builder.created@[m].flags
                        &&& res.desc == builder.created@[m].desc
                        &&& res.name == builder.created@[m].name
                        &&& res.refcount == 0
                        &&& res.lifetime == (TransientResourceLifetime { start: 0, end: 0 })
                        &&& res.producer == old(self).renderpasses@.len()
                        &&& res.size >= 1
                    },
                self.views@ == old(self).views@ + builder.views@.subrange(0, i as int),
            decreases builder.views@.len() - i,
        {
            self.views.push(builder.views[i]);
            proof {
                assert(self.views@ =~= old(self).views@ + builder.views@.subrange(0, i + 1));
            }
            i = i + 1;
        }
        proof {
            assert(old(self).views@ + builder.views@.subrange(0, builder.views@.len() as int)
                =~= old(self).views@ + builder.views@);
        }

        let vrs = output.get_virtual_resources();
        let cpus = output.is_cpus();
        let mut params: Vec<(bool, u32, u32)> = Vec::new();
        let mut param_size: usize = 0;
        let mut i: usize = 0;
        while i < vrs.len()
            invariant
                vrs@ == output.spec_resources(),
                cpus@ == output.spec_is_cpus(),
                vrs@.len() == cpus@.len(),
                vrs@.len() <= 0x1000_0000,
                0 <= i <= vrs@.len(),
                params@.len() == i,
                param_size == HANDLE_SIZE * i,
                forall|m: int|
                    0 <= m < i ==> #[trigger] params@[m] == (
                        cpus@[m],
                        vrs@[m].view_id,
                        vrs@[m].resource_id,
                    ),
            decreases vrs@.len() - i,
        {
            params.push((cpus[i], vrs[i].view_id, vrs[i].resource_id));
            param_size = param_size + HANDLE_SIZE;
            i = i + 1;
        }

        let mut pass_views: Vec<ResourceView> = Vec::new();
        let mut i: usize = 0;
        while i < builder.views.len()
            invariant
                0 <= i <= builder.views@.len(),
                pass_views@ == builder.views@.subrange(0, i as int),
            decreases builder.views@.len() - i,
        {
            pass_views.push(builder.views[i]);
            proof {
                assert(pass_views@ =~= builder.views@.subrange(0, i + 1));
            }
            i = i + 1;
        }
        proof {
            assert(builder.views@.subrange(0, builder.views@.len() as int) =~= builder.views@);
        }

        self.renderpasses.push(
            RenderPass {
                name,
                resources: builder.resources,
                views: pass_views,
                params,
                param_size,
                refcount: 0,
            },
        );
        proof {
            let nlen = self.resources@.len() as int;
            assert forall|pp: int, k: int|
                0 <= pp < self.renderpasses@.len() && 0 <= k
                    < self.renderpasses@[pp].resources@.len() implies (
            #[trigger] self.renderpasses@[pp].resources@[k]).0 < nlen by {
                if pp < old(self).renderpasses@.len() {
                    assert(self.renderpasses@[pp] == old(self).renderpasses@[pp]);
                    assert((old(self).renderpasses@[pp].resources@[k]).0
                        < old(self).resources@.len());
                } else {
                    assert(self.renderpasses@[pp].resources@ == builder.resources@);
                    assert((builder.resources@[k]).0 < builder.counter);
                }
            }
            assert forall|i: int| 0 <= i < self.views@.len() implies (
            #[trigger] self.views@[i]).resource_id < nlen by {
                if i < old(self).views@.len() {
                    assert(self.views@[i] == old(self).views@[i]);
                } else {
                    assert(self.views@[i] == builder.views@[i - old(self).views@.len()]);
                    assert((builder.views@[i - old(self).views@.len()]).resource_id
                        < builder.counter);
                }
            }
            assert forall|i: int| 0 <= i < nlen implies (#[trigger] self.resources@[i]).resource_id
                == i && self.resources@[i].size >= 1 && self.resources@[i].lifetime.start
                <= self.resources@[i].lifetime.end && self.resources@[i].lifetime.end
                < 0xFFFF_FFFFu32 by {
                if i < old(self).resources@.len() {
                    assert(self.resources@[i] == old(self).resources@[i]);
                } else {
                    assert(self.resources@[i].resource_id == builder.created@[i - old(
                        self,
                    ).resources@.len()].resource_id);
                }
            }
        }
        producer
    }
}

/// Two resources that differ at most in their reference count.
pub open spec fn spec_same_resource(a: TransientResource, b: TransientResource) -> bool {
    &&& a.resource_id == b.resource_id
    &&& a.producer == b.producer
    &&& a.usage == b.usage
    &&& a.lifetime == b.lifetime
    &&& a.size == b.size
    &&& a.alignment == b.alignment
    &&& a.desc == b.desc
    &&& a.name == b.name
}

/// Resource `x` is the only resource pass `p` created.
pub open spec fn spec_unique_producer(resources: Seq<TransientResource>, p: int, x: int) -> bool {
    &&& 0 <= x < resources.len()
    &&& resources[x].producer == p
    &&& forall|y: int|
        0 <= y < resources.len() && (#[trigger] resources[y]).producer == p ==> y == x
}

/// Some pass of the frame declares a read of resource `r`.
pub open spec fn spec_read_somewhere(passes: Seq<RenderPass>, r: int) -> bool {
    exists|q: int, k: int|
        0 <= q < passes.len() && 0 <= k < passes[q].resources@.len() && (
        #[trigger] passes[q].resources@[k]).0 == r && (passes[q].resources@[k]).1.spec_has_read()
}

/// `x` occurs among the first `n` entries of the worklist.
pub open spec fn spec_in_prefix(q: Seq<usize>, n: int, x: int) -> bool {
    exists|m: int| 0 <= m < n && m < q.len() && (#[trigger] q[m]) == x
}

/// Pass `p` declares exactly one write, it created only resource `x`, and
/// no pass of the frame reads `x`: the simplest shape of a dead producer.
pub open spec fn spec_sole_dead_output(
    passes: Seq<RenderPass>,
    resources: Seq<TransientResource>,
    p: int,
    x: int,
) -> bool {
    &&& 0 <= p < passes.len()
    &&& spec_write_count(passes[p].resources@, passes[p].resources@.len() as int) == 1
    &&& spec_unique_producer(resources, p, x)
    &&& !spec_read_somewhere(passes, x)
}

/// The culler's bookkeeping for unique producers: while a pass's only
/// created resource is still unprocessed, the pass keeps its full write
/// count and is unmarked; once a single-write producer's resource has been
/// processed, the pass is marked.
pub open spec fn spec_producer_counts_ok(
    oldpasses: Seq<RenderPass>,
    oldres: Seq<TransientResource>,
    passes: Seq<RenderPass>,
    marked: Seq<bool>,
    queue: Seq<usize>,
    n: int,
    np: int,
) -> bool {
    &&& forall|p2: int, x2: int|
        #![trigger spec_unique_producer(oldres, p2, x2)]
        0 <= p2 < np && spec_unique_producer(oldres, p2, x2) && !spec_in_prefix(queue, n, x2)
            ==> passes[p2].refcount == spec_write_count(
            oldpasses[p2].resources@,
            oldpasses[p2].resources@.len() as int,
        ) && !marked[p2]
    &&& forall|p2: int, x2: int|
        #![trigger spec_unique_producer(oldres, p2, x2)]
        0 <= p2 < np && spec_unique_producer(oldres, p2, x2) && spec_write_count(
            oldpasses[p2].resources@,
            oldpasses[p2].resources@.len() as int,
        ) == 1 && spec_in_prefix(queue, n, x2) ==> marked[p2]
}

/// One worklist step keeps the unique-producer bookkeeping: the processed
/// suspect only concerns its own producer, which is marked exactly when its
/// single write count runs out.
proof fn lemma_pair_facts_after_step(
    oldpasses: Seq<RenderPass>,
    oldres: Seq<TransientResource>,
    rc_in: Seq<RenderPass>,
    rc_now: Seq<RenderPass>,
    marked_in: Seq<bool>,
    marked_now: Seq<bool>,
    queue: Seq<usize>,
    qhead: int,
    e: int,
    prod: int,
    np: int,
)
    requires
        rc_in.len() == np,
        rc_now.len() == np,
        marked_in.len() == np,
        marked_now.len() == np,
        0 <= prod < np,
        0 <= qhead < queue.len(),
        queue[qhead] as int == e,
        forall|m1: int, m2: int| 0 <= m1 < m2 < queue.len() ==> queue[m1] != queue[m2],
        0 <= e < oldres.len(),
        oldres[e].producer == prod,
        rc_in[prod].refcount >= 1,
        forall|q: int| 0 <= q < np && q != prod ==> #[trigger] rc_now[q] == rc_in[q],
        rc_now[prod].refcount == rc_in[prod].refcount - 1,
        forall|q: int| 0 <= q < np && q != prod ==> #[trigger] marked_now[q] == marked_in[q],
        marked_in[prod] ==> marked_now[prod],
        rc_in[prod].refcount == 1 ==> marked_now[prod],
        spec_producer_counts_ok(oldpasses, oldres, rc_in, marked_in, queue, qhead, np),
    ensures
        spec_producer_counts_ok(oldpasses, oldres, rc_now, marked_now, queue, qhead + 1, np),
{
    assert forall|p2: int, x2: int|
        #![trigger spec_unique_producer(oldres, p2, x2)]
        0 <= p2 < np && spec_unique_producer(oldres, p2, x2) && !spec_in_prefix(
            queue,
            qhead + 1,
            x2,
        ) implies rc_now[p2].refcount == spec_write_count(
        oldpasses[p2].resources@,
        oldpasses[p2].resources@.len() as int,
    ) && !marked_now[p2] by {
        assert(!spec_in_prefix(queue, qhead, x2));
        assert(x2 != e) by {
            if x2 == e {
                assert(spec_in_prefix(queue, qhead + 1, x2)) by {
                    assert(queue[qhead] as int == x2);
                }
            }
        }
        assert(p2 != prod) by {
            if p2 == prod {
                assert(x2 == e);
            }
        }
    }
    assert forall|p2: int, x2: int|
        #![trigger spec_unique_producer(oldres, p2, x2)]
        0 <= p2 < np && spec_unique_producer(oldres, p2, x2) && spec_write_count(
            oldpasses[p2].resources@,
            oldpasses[p2].resources@.len() as int,
        ) == 1 && spec_in_prefix(queue, qhead + 1, x2) implies marked_now[p2] by {
        if spec_in_prefix(queue, qhead, x2) {
            assert(marked_in[p2]);
            if p2 != prod {
                assert(marked_now[p2] == marked_in[p2]);
            }
        } else {
            let mm = choose|mm: int|
                0 <= mm < qhead + 1 && mm < queue.len() && queue[mm] as int == x2;
            assert(mm == qhead);
            assert(x2 == e);
            assert(p2 == prod);
            assert(!spec_in_prefix(queue, qhead, e)) by {
                if spec_in_prefix(queue, qhead, e) {
                    let m0 = choose|m0: int|
                        0 <= m0 < qhead && m0 < queue.len() && queue[m0] as int == e;
                    assert(queue[m0] != queue[qhead]);
                }
            }
            assert(rc_in[prod].refcount == 1);
        }
    }
}

/// A write count never exceeds the number of entries counted.
proof fn lemma_write_count_bound(rs: Seq<(u32, TransitionFlags)>, k: int)
    requires
        0 <= k <= rs.len(),
    ensures
        0 <= spec_write_count(rs, k) <= k,
    decreases k,
{
    if k > 0 {
        lemma_write_count_bound(rs, k - 1);
    }
}

/// `news` is the subsequence of `olds` selected by the strictly increasing
/// index map `map`, pass cores intact.
pub open spec fn spec_cull_map(olds: Seq<RenderPass>, news: Seq<RenderPass>, map: Seq<int>) -> bool {
    &&& map.len() == news.len()
    &&& forall|i: int| 0 <= i < map.len() ==> 0 <= #[trigger] map[i] < olds.len()
    &&& forall|i: int, j: int| 0 <= i < j < map.len() ==> map[i] < map[j]
    &&& forall|i: int| 0 <= i < map.len() ==> spec_same_pass(news[i], olds[#[trigger] map[i]])
}

/// A sequence of distinct integers drawn from `0 .. n` has at most `n`
/// elements.
proof fn lemma_distinct_bounded(q: Seq<int>, n: int)
    requires
        n >= 0,
        forall|m: int| 0 <= m < q.len() ==> 0 <= #[trigger] q[m] < n,
        forall|m1: int, m2: int| 0 <= m1 < m2 < q.len() ==> q[m1] != q[m2],
    ensures
        q.len() <= n,
{
    assert(q.no_duplicates());
    q.unique_seq_to_set();
    assert(q.to_set().subset_of(vstd::set_lib::set_int_range(0, n)));
    vstd::set_lib::lemma_int_range(0, n);
    vstd::set_lib::lemma_len_subset(q.to_set(), vstd::set_lib::set_int_range(0, n));
}

impl FrameGraph {
    /// Removes every pass that does not, directly or transitively, feed a
    /// pass with observable effects: reads give each resource a reference
    /// count and writes give each pass one; producers of resources nothing
    /// reads lose a count per dead output, and a pass whose count reaches
    /// zero is removed, releasing its own reads in turn.  A pass that
    /// performs no writes is assumed to have side effects and always
    /// survives.
    pub fn cull(&mut self) -> (map: Ghost<Seq<int>>)
        requires
            old(self).wf(),
            forall|p: int|
                0 <= p < old(self).renderpasses@.len() ==> (#[trigger] old(
                    self,
                ).renderpasses@[p]).refcount == 0,
            forall|i: int|
                0 <= i < old(self).resources@.len() ==> (#[trigger] old(
                    self,
                ).resources@[i]).refcount == 0,
        ensures
            final(self).wf(),
            final(self).resources@.len() == old(self).resources@.len(),
            forall|i: int|
                0 <= i < old(self).resources@.len() ==> spec_same_resource(
                    #[trigger] final(self).resources@[i],
                    old(self).resources@[i],
                ),
            final(self).views@ == old(self).views@,
            final(self).final_transitions@ == old(self).final_transitions@,
            final(self).renderpass_transitions@ == old(self).renderpass_transitions@,
            final(self).resource_aliasing@ == old(self).resource_aliasing@,
            final(self).heaps == old(self).heaps,
            final(self).virtual_offset == old(self).virtual_offset,
            final(self).virtual_view == old(self).virtual_view,
            // the survivors are a subsequence of the recorded passes
            spec_cull_map(old(self).renderpasses@, final(self).renderpasses@, map@),
            // only writing passes are ever culled
            forall|p: int|
                0 <= p < old(self).renderpasses@.len() && !(exists|i: int|
                    0 <= i < map@.len() && #[trigger] map@[i] == p) ==> spec_pass_writes(
                    #[trigger] old(self).renderpasses@[p],
                ),
            // the simplest dead producer is always culled: a pass declaring
            // exactly one write, which created a resource nothing reads
            forall|p: int, x: int|
                #![trigger spec_sole_dead_output(old(self).renderpasses@, old(self).resources@, p, x)]
                spec_sole_dead_output(old(self).renderpasses@, old(self).resources@, p, x)
                    ==> forall|i: int| 0 <= i < map@.len() ==> #[trigger] map@[i] != p,
            // a pass that writes nothing is never culled
            forall|p: int|
                0 <= p < old(self).renderpasses@.len() && !spec_pass_writes(
                    old(self).renderpasses@[p],
                ) ==> exists|q: int|
                    0 <= q < final(self).renderpasses@.len() && spec_same_pass(
                        #[trigger] final(self).renderpasses@[q],
                        old(self).renderpasses@[p],
                    ),
    {
        let np = self.renderpasses.len();
        let nr = self.resources.len();

        // count reads per resource and writes per pass
        let mut p: usize = 0;
        while p < np
            invariant
                old(self).wf(),
                self.wf(),
                np == self.renderpasses@.len(),
                nr == self.resources@.len(),
                np == old(self).renderpasses@.len(),
                nr == old(self).resources@.len(),
                0 <= p <= np,
                self.views@ == old(self).views@,
                self.final_transitions@ == old(self).final_transitions@,
                self.renderpass_transitions@ == old(self).renderpass_transitions@,
                self.resource_aliasing@ == old(self).resource_aliasing@,
                self.heaps == old(self).heaps,
                self.virtual_offset == old(self).virtual_offset,
                self.virtual_view == old(self).virtual_view,
                forall|q: int|
                    0 <= q < np ==> spec_same_pass(
                        #[trigger] self.renderpasses@[q],
                        old(self).renderpasses@[q],
                    ),
                forall|i: int|
                    0 <= i < nr ==> spec_same_resource(
                        #[trigger] self.resources@[i],
                        old(self).resources@[i],
                    ),
                forall|q: int|
                    0 <= q < np && (#[trigger] self.renderpasses@[q]).refcount > 0
                        ==> spec_pass_writes(self.renderpasses@[q]),
                forall|q: int|
                    0 <= q < p ==> (#[trigger] self.renderpasses@[q]).refcount
                        == spec_write_count(
                        old(self).renderpasses@[q].resources@,
                        old(self).renderpasses@[q].resources@.len() as int,
                    ),
                forall|q: int|
                    p <= q < np ==> (#[trigger] self.renderpasses@[q]).refcount == 0,
                forall|r2: int|
                    0 <= r2 < nr && (#[trigger] self.resources@[r2]).refcount > 0
                        ==> spec_read_somewhere(old(self).renderpasses@, r2),
            decreases np - p,
        {
            let m = self.renderpasses[p].resources.len();
            let mut k: usize = 0;
            while k < m
                invariant
                    old(self).wf(),
                    self.wf(),
                    np == self.renderpasses@.len(),
                    nr == self.resources@.len(),
                    np == old(self).renderpasses@.len(),
                    nr == old(self).resources@.len(),
                    (p as int) < np,
                    m == self.renderpasses@[p as int].resources@.len(),
                    0 <= k <= m,
                    self.views@ == old(self).views@,
                    self.final_transitions@ == old(self).final_transitions@,
                    self.renderpass_transitions@ == old(self).renderpass_transitions@,
                    self.resource_aliasing@ == old(self).resource_aliasing@,
                    self.heaps == old(self).heaps,
                    self.virtual_offset == old(self).virtual_offset,
                    self.virtual_view == old(self).virtual_view,
                    forall|q: int|
                        0 <= q < np ==> spec_same_pass(
                            #[trigger] self.renderpasses@[q],
                            old(self).renderpasses@[q],
                        ),
                    forall|i: int|
                        0 <= i < nr ==> spec_same_resource(
                            #[trigger] self.resources@[i],
                            old(self).resources@[i],
                        ),
                    forall|q: int|
                        0 <= q < np && (#[trigger] self.renderpasses@[q]).refcount > 0
                            ==> spec_pass_writes(self.renderpasses@[q]),
                    forall|q: int|
                        0 <= q < p ==> (#[trigger] self.renderpasses@[q]).refcount
                            == spec_write_count(
                            old(self).renderpasses@[q].resources@,
                            old(self).renderpasses@[q].resources@.len() as int,
                        ),
                    forall|q: int|
                        p < q < np ==> (#[trigger] self.renderpasses@[q]).refcount == 0,
                    self.renderpasses@[p as int].refcount == spec_write_count(
                        old(self).renderpasses@[p as int].resources@,
                        k as int,
                    ),
                    forall|r2: int|
                        0 <= r2 < nr && (#[trigger] self.resources@[r2]).refcount > 0
                            ==> spec_read_somewhere(old(self).renderpasses@, r2),
                decreases m - k,
            {
                let access = self.renderpasses[p].resources[k];
                let rid = access.0 as usize;
                if access.1.has_read() {
                    let c = self.resources[rid].refcount;
                    if c < u32::MAX {
                        self.resources[rid].refcount = c + 1;
                    }
                    proof {
                        assert(spec_read_somewhere(old(self).renderpasses@, rid as int)) by {
                            assert((old(self).renderpasses@[p as int].resources@[k as int]).0
                                == rid && (old(self).renderpasses@[
                                p as int
                            ].resources@[k as int]).1.spec_has_read());
                        }
                    }
                } else if access.1.has_write() {
                    let c = self.renderpasses[p].refcount;
                    proof {
                        lemma_write_count_bound(
                            old(self).renderpasses@[p as int].resources@,
                            k as int,
                        );
                    }
                    if c < u32::MAX {
                        self.renderpasses[p].refcount = c + 1;
                    }
                    proof {
                        assert(spec_pass_writes(self.renderpasses@[p as int])) by {
                            assert((self.renderpasses@[p as int].resources@[
                                k as int
                            ]).1.spec_has_write());
                        }
                    }
                }
                k = k + 1;
            }
            proof {
                assert(m as int == old(self).renderpasses@[p as int].resources@.len());
            }
            p = p + 1;
        }

        // every resource nothing reads is suspect
        let mut queue: Vec<usize> = Vec::new();
        let mut r: usize = 0;
        while r < nr
            invariant
                self.wf(),
                nr == self.resources@.len(),
                0 <= r <= nr,
                forall|m1: int, m2: int|
                    0 <= m1 < m2 < queue@.len() ==> queue@[m1] != queue@[m2],
                forall|m: int| 0 <= m < queue@.len() ==> (#[trigger] queue@[m]) < nr,
                forall|m: int|
                    0 <= m < queue@.len() ==> self.resources@[#[trigger] queue@[m] as int].refcount
                        == 0,
                forall|m: int| 0 <= m < queue@.len() ==> (#[trigger] queue@[m]) < r,
                queue@.len() <= nr,
                forall|rr: int|
                    0 <= rr < r && (#[trigger] self.resources@[rr]).refcount == 0
                        ==> spec_in_prefix(queue@, queue@.len() as int, rr),
            decreases nr - r,
        {
            let ghost q_pre = queue@;
            if self.resources[r].refcount == 0 {
                queue.push(r);
                proof {
                    lemma_distinct_bounded(queue@.map_values(|x: usize| x as int), nr as int);
                    assert(queue@[q_pre.len() as int] == r);
                }
            }
            proof {
                assert forall|rr: int|
                    0 <= rr < r + 1 && (#[trigger] self.resources@[rr]).refcount == 0 implies spec_in_prefix(
                    queue@,
                    queue@.len() as int,
                    rr,
                ) by {
                    if rr < r {
                        let mm = choose|mm: int|
                            0 <= mm < q_pre.len() && (q_pre[mm]) == rr;
                        assert(queue@[mm] == rr);
                    }
                }
            }
            r = r + 1;
        }

        let mut marked: Vec<bool> = Vec::new();
        let mut q0: usize = 0;
        while q0 < np
            invariant
                marked@.len() == q0,
                0 <= q0 <= np,
                forall|m: int| 0 <= m < q0 ==> !(#[trigger] marked@[m]),
            decreases np - q0,
        {
            marked.push(false);
            q0 = q0 + 1;
        }

        // release each dead output's producer; a producer losing its last
        // write is removed and its reads become suspects in turn
        let ghost initq = queue@;
        proof {
            // a resource nothing reads is a suspect from the start
            assert forall|x: int|
                0 <= x < nr && !spec_read_somewhere(old(self).renderpasses@, x) implies spec_in_prefix(
                initq,
                initq.len() as int,
                x,
            ) by {
                assert(self.resources@[x].refcount == 0);
            }
        }
        let mut qhead: usize = 0;
        while qhead < queue.len()
            invariant
                old(self).wf(),
                self.wf(),
                np == self.renderpasses@.len(),
                nr == self.resources@.len(),
                np == old(self).renderpasses@.len(),
                nr == old(self).resources@.len(),
                marked@.len() == np,
                self.views@ == old(self).views@,
                self.final_transitions@ == old(self).final_transitions@,
                self.renderpass_transitions@ == old(self).renderpass_transitions@,
                self.resource_aliasing@ == old(self).resource_aliasing@,
                self.heaps == old(self).heaps,
                self.virtual_offset == old(self).virtual_offset,
                self.virtual_view == old(self).virtual_view,
                forall|q: int|
                    0 <= q < np ==> spec_same_pass(
                        #[trigger] self.renderpasses@[q],
                        old(self).renderpasses@[q],
                    ),
                forall|i: int|
                    0 <= i < nr ==> spec_same_resource(
                        #[trigger] self.resources@[i],
                        old(self).resources@[i],
                    ),
                forall|q: int|
                    0 <= q < np && (#[trigger] self.renderpasses@[q]).refcount > 0
                        ==> spec_pass_writes(self.renderpasses@[q]),
                forall|q: int|
                    0 <= q < np && #[trigger] marked@[q] ==> spec_pass_writes(
                        self.renderpasses@[q],
                    ),
                forall|m1: int, m2: int|
                    0 <= m1 < m2 < queue@.len() ==> queue@[m1] != queue@[m2],
                forall|m: int| 0 <= m < queue@.len() ==> (#[trigger] queue@[m]) < nr,
                forall|m: int|
                    0 <= m < queue@.len() ==> self.resources@[#[trigger] queue@[m] as int].refcount
                        == 0,
                0 <= qhead <= queue@.len(),
                queue@.len() <= nr,
                initq.len() <= queue@.len(),
                forall|mm: int| 0 <= mm < initq.len() ==> #[trigger] queue@[mm] == initq[mm],
                spec_producer_counts_ok(
                    old(self).renderpasses@,
                    old(self).resources@,
                    self.renderpasses@,
                    marked@,
                    queue@,
                    qhead as int,
                    np as int,
                ),
            decreases nr - qhead,
        {
            let ghost q_in = queue@;
            let ghost marked_in = marked@;
            let ghost rc_in = self.renderpasses@;
            let rres = queue[qhead];
            let producer = self.resources[rres].producer as usize;
            if producer < np && self.renderpasses[producer].refcount > 0 {
                let c = self.renderpasses[producer].refcount;
                self.renderpasses[producer].refcount = c - 1;
                if c == 1 {
                    marked[producer] = true;
                    proof {
                        lemma_pair_facts_after_step(
                            old(self).renderpasses@,
                            old(self).resources@,
                            rc_in,
                            self.renderpasses@,
                            marked_in,
                            marked@,
                            queue@,
                            qhead as int,
                            rres as int,
                            producer as int,
                            np as int,
                        );
                    }
                    let m = self.renderpasses[producer].resources.len();
                    let mut k: usize = 0;
                    while k < m
                        invariant
                            old(self).wf(),
                            self.wf(),
                            np == self.renderpasses@.len(),
                            nr == self.resources@.len(),
                            np == old(self).renderpasses@.len(),
                            nr == old(self).resources@.len(),
                            marked@.len() == np,
                            (producer as int) < np,
                            m == self.renderpasses@[producer as int].resources@.len(),
                            0 <= k <= m,
                            self.views@ == old(self).views@,
                            self.final_transitions@ == old(self).final_transitions@,
                            self.renderpass_transitions@ == old(self).renderpass_transitions@,
                            self.resource_aliasing@ == old(self).resource_aliasing@,
                            self.heaps == old(self).heaps,
                            self.virtual_offset == old(self).virtual_offset,
                            self.virtual_view == old(self).virtual_view,
                            forall|q: int|
                                0 <= q < np ==> spec_same_pass(
                                    #[trigger] self.renderpasses@[q],
                                    old(self).renderpasses@[q],
                                ),
                            forall|i: int|
                                0 <= i < nr ==> spec_same_resource(
                                    #[trigger] self.resources@[i],
                                    old(self).resources@[i],
                                ),
                            forall|q: int|
                                0 <= q < np && (#[trigger] self.renderpasses@[q]).refcount > 0
                                    ==> spec_pass_writes(self.renderpasses@[q]),
                            forall|q: int|
                                0 <= q < np && #[trigger] marked@[q] ==> spec_pass_writes(
                                    self.renderpasses@[q],
                                ),
                            forall|m1: int, m2: int|
                                0 <= m1 < m2 < queue@.len() ==> queue@[m1] != queue@[m2],
                            forall|mm: int| 0 <= mm < queue@.len() ==> (#[trigger] queue@[mm]) < nr,
                            forall|mm: int|
                                0 <= mm < queue@.len() ==> self.resources@[
                                    #[trigger] queue@[mm] as int
                                ].refcount == 0,
                            qhead < queue@.len(),
                            queue@.len() <= nr,
                            initq.len() <= queue@.len(),
                            forall|mm: int|
                                0 <= mm < initq.len() ==> #[trigger] queue@[mm] == initq[mm],
                            q_in.len() <= queue@.len(),
                            forall|mm: int|
                                0 <= mm < q_in.len() ==> #[trigger] queue@[mm] == q_in[mm],
                            spec_producer_counts_ok(
                                old(self).renderpasses@,
                                old(self).resources@,
                                self.renderpasses@,
                                marked@,
                                queue@,
                                qhead + 1,
                                np as int,
                            ),
                        decreases m - k,
                    {
                        let ghost q_iter = queue@;
                        let access = self.renderpasses[producer].resources[k];
                        let rid = access.0 as usize;
                        if access.1.has_read() {
                            let rc = self.resources[rid].refcount;
                            if rc > 0 {
                                proof {
                                    assert(forall|mm: int|
                                        0 <= mm < queue@.len() ==> #[trigger] queue@[mm] != rid);
                                }
                                self.resources[rid].refcount = rc - 1;
                                if rc == 1 {
                                    queue.push(rid);
                                    proof {
                                        lemma_distinct_bounded(
                                            queue@.map_values(|x: usize| x as int),
                                            nr as int,
                                        );
                                    }
                                }
                            }
                        }
                        proof {
                            // new suspects join beyond the processed prefix,
                            // so the bookkeeping is unchanged
                            assert forall|x2: int|
                                #![trigger spec_in_prefix(queue@, qhead + 1, x2)]
                                #![trigger spec_in_prefix(q_iter, qhead + 1, x2)]
                                spec_in_prefix(queue@, qhead + 1, x2) == spec_in_prefix(
                                    q_iter,
                                    qhead + 1,
                                    x2,
                                ) by {
                                if spec_in_prefix(queue@, qhead + 1, x2) {
                                    let mm = choose|mm: int|
                                        0 <= mm < qhead + 1 && mm < queue@.len() && queue@[
                                            mm
                                        ] as int == x2;
                                    assert(q_iter[mm] as int == x2);
                                }
                                if spec_in_prefix(q_iter, qhead + 1, x2) {
                                    let mm = choose|mm: int|
                                        0 <= mm < qhead + 1 && mm < q_iter.len() && q_iter[
                                            mm
                                        ] as int == x2;
                                    assert(queue@[mm] as int == x2);
                                }
                            }
                            assert forall|p2: int, x2: int|
                                #![trigger spec_unique_producer(old(self).resources@, p2, x2)]
                                0 <= p2 < np && spec_unique_producer(old(self).resources@, p2, x2)
                                    && !spec_in_prefix(queue@, qhead + 1, x2) implies self.renderpasses@[
                                p2
                            ].refcount == spec_write_count(
                                old(self).renderpasses@[p2].resources@,
                                old(self).renderpasses@[p2].resources@.len() as int,
                            ) && !marked@[p2] by {
                                assert(!spec_in_prefix(q_iter, qhead + 1, x2));
                            }
                            assert forall|p2: int, x2: int|
                                #![trigger spec_unique_producer(old(self).resources@, p2, x2)]
                                0 <= p2 < np && spec_unique_producer(old(self).resources@, p2, x2)
                                    && spec_write_count(
                                    old(self).renderpasses@[p2].resources@,
                                    old(self).renderpasses@[p2].resources@.len() as int,
                                ) == 1 && spec_in_prefix(queue@, qhead + 1, x2) implies marked@[
                                p2
                            ] by {
                                assert(spec_in_prefix(q_iter, qhead + 1, x2));
                            }
                        }
                        k = k + 1;
                    }
                } else {
                    proof {
                        lemma_pair_facts_after_step(
                            old(self).renderpasses@,
                            old(self).resources@,
                            rc_in,
                            self.renderpasses@,
                            marked_in,
                            marked@,
                            queue@,
                            qhead as int,
                            rres as int,
                            producer as int,
                            np as int,
                        );
                    }
                }
            } else {
                proof {
                    // the producer could not lose a count: no unique
                    // single-write producer pair can name this suspect
                    assert forall|p2: int, x2: int|
                        #![trigger spec_unique_producer(old(self).resources@, p2, x2)]
                        0 <= p2 < np && spec_unique_producer(old(self).resources@, p2, x2)
                            && spec_write_count(
                            old(self).renderpasses@[p2].resources@,
                            old(self).renderpasses@[p2].resources@.len() as int,
                        ) == 1 && spec_in_prefix(queue@, qhead + 1, x2) implies marked@[p2] by {
                        if !spec_in_prefix(queue@, qhead as int, x2) {
                            let mm = choose|mm: int|
                                0 <= mm < qhead + 1 && mm < queue@.len() && queue@[mm] as int
                                    == x2;
                            assert(mm == qhead as int);
                            assert(x2 == rres as int);
                            assert(old(self).resources@[x2].producer == p2);
                            assert(spec_same_resource(
                                self.resources@[rres as int],
                                old(self).resources@[rres as int],
                            ));
                            assert((producer as int) == p2);
                            assert(self.renderpasses@[p2].refcount == 1);
                            assert(false);
                        }
                    }
                    assert forall|p2: int, x2: int|
                        #![trigger spec_unique_producer(old(self).resources@, p2, x2)]
                        0 <= p2 < np && spec_unique_producer(old(self).resources@, p2, x2)
                            && !spec_in_prefix(queue@, qhead + 1, x2) implies self.renderpasses@[
                        p2
                    ].refcount == spec_write_count(
                        old(self).renderpasses@[p2].resources@,
                        old(self).renderpasses@[p2].resources@.len() as int,
                    ) && !marked@[p2] by {
                        assert(!spec_in_prefix(queue@, qhead as int, x2));
                    }
                }
            }
            qhead = qhead + 1;
        }

        // remove the marked passes, keeping declaration order
        let ghost allpasses = self.renderpasses@;
        let mut kept: Vec<RenderPass> = Vec::new();
        let ghost mut map: Seq<int> = Seq::empty();
        let mut p: usize = 0;
        while p < np
            invariant
                old(self).wf(),
                np == allpasses.len(),
                np == old(self).renderpasses@.len(),
                nr == self.resources@.len(),
                nr == old(self).resources@.len(),
                marked@.len() == np,
                0 <= p <= np,
                self.views@ == old(self).views@,
                self.final_transitions@ == old(self).final_transitions@,
                self.renderpass_transitions@ == old(self).renderpass_transitions@,
                self.resource_aliasing@ == old(self).resource_aliasing@,
                self.heaps == old(self).heaps,
                self.virtual_offset == old(self).virtual_offset,
                self.virtual_view == old(self).virtual_view,
                forall|i: int|
                    0 <= i < nr ==> spec_same_resource(
                        #[trigger] self.resources@[i],
                        old(self).resources@[i],
                    ),
                self.renderpasses@ =~= allpasses.skip(p as int),
                self.renderpasses@.len() == np - p,
                map.len() == kept@.len(),
                kept@.len() <= p,
                forall|i: int| 0 <= i < map.len() ==> 0 <= #[trigger] map[i] < p,
                forall|i: int| 0 <= i < map.len() ==> !marked@[#[trigger] map[i]],
                forall|q: int|
                    0 <= q < p && !(#[trigger] marked@[q]) ==> exists|i: int|
                        0 <= i < map.len() && #[trigger] map[i] == q,
                forall|i: int, j: int| 0 <= i < j < map.len() ==> map[i] < map[j],
                forall|i: int| 0 <= i < map.len() ==> kept@[i] == allpasses[#[trigger] map[i]],
                forall|q: int|
                    0 <= q < p && !(#[trigger] marked@[q]) ==> exists|w: int|
                        0 <= w < kept@.len() && kept@[w] == allpasses[q],
            decreases np - p,
        {
            let pass = self.renderpasses.remove(0);
            proof {
                assert(pass == allpasses[p as int]);
                assert(self.renderpasses@ =~= allpasses.skip(p + 1));
            }
            let ghost prekept = kept@;
            let ghost premap = map;
            if !marked[p] {
                kept.push(pass);
                proof {
                    map = map.push(p as int);
                }
            }
            proof {
                assert forall|q: int| 0 <= q < p + 1 && !(#[trigger] marked@[q]) implies exists|
                    w: int,
                |
                    0 <= w < kept@.len() && kept@[w] == allpasses[q] by {
                    if q < p {
                        let w = choose|w: int| 0 <= w < prekept.len() && prekept[w] == allpasses[q];
                        assert(kept@[w] == allpasses[q]);
                    } else {
                        assert(kept@[kept@.len() - 1] == allpasses[q]);
                    }
                }
                assert forall|q: int| 0 <= q < p + 1 && !(#[trigger] marked@[q]) implies exists|
                    i: int,
                |
                    0 <= i < map.len() && #[trigger] map[i] == q by {
                    if q < p {
                        let i = choose|i: int| 0 <= i < premap.len() && premap[i] == q;
                        assert(map[i] == q);
                    } else {
                        assert(map[map.len() - 1] == q);
                    }
                }
            }
            p = p + 1;
        }
        self.renderpasses = kept;
        proof {
            assert forall|pp: int, k: int|
                0 <= pp < self.renderpasses@.len() && 0 <= k
                    < self.renderpasses@[pp].resources@.len() implies (
            #[trigger] self.renderpasses@[pp].resources@[k]).0 < self.resources@.len() by {
                assert(self.renderpasses@[pp] == allpasses[map[pp]]);
                assert(spec_same_pass(allpasses[map[pp]], old(self).renderpasses@[map[pp]]));
                assert((old(self).renderpasses@[map[pp]].resources@[k]).0
                    < old(self).resources@.len());
            }
            assert forall|pp: int| 0 <= pp < self.renderpasses@.len() implies (
            #[trigger] self.renderpasses@[pp]).resources@.len() < 0xFFFF_FFFF by {
                assert(self.renderpasses@[pp] == allpasses[map[pp]]);
                assert(spec_same_pass(allpasses[map[pp]], old(self).renderpasses@[map[pp]]));
                assert(old(self).renderpasses@[map[pp]].resources@.len() < 0xFFFF_FFFF);
            }
            assert forall|pp: int, m: int|
                0 <= pp < self.renderpasses@.len() && 0 <= m
                    < self.renderpasses@[pp].params@.len() implies (
            #[trigger] self.renderpasses@[pp].params@[m]).1 < DESCRIPTOR_SLAB_CAPACITY by {
                assert(self.renderpasses@[pp] == allpasses[map[pp]]);
                assert(spec_same_pass(allpasses[map[pp]], old(self).renderpasses@[map[pp]]));
                assert((old(self).renderpasses@[map[pp]].params@[m]).1
                    < DESCRIPTOR_SLAB_CAPACITY);
            }
            assert forall|i: int| 0 <= i < self.resources@.len() implies (
            #[trigger] self.resources@[i]).resource_id == i && self.resources@[i].size >= 1
                && self.resources@[i].lifetime.start <= self.resources@[i].lifetime.end
                && self.resources@[i].lifetime.end < 0xFFFF_FFFFu32 by {
                assert(spec_same_resource(self.resources@[i], old(self).resources@[i]));
            }
            assert(spec_cull_map(old(self).renderpasses@, self.renderpasses@, map)) by {
                assert forall|i: int| 0 <= i < map.len() implies spec_same_pass(
                    self.renderpasses@[i],
                    old(self).renderpasses@[#[trigger] map[i]],
                ) by {
                    assert(self.renderpasses@[i] == allpasses[map[i]]);
                    assert(spec_same_pass(allpasses[map[i]], old(self).renderpasses@[map[i]]));
                }
            }
            assert forall|q: int|
                0 <= q < old(self).renderpasses@.len() && !spec_pass_writes(
                    old(self).renderpasses@[q],
                ) implies exists|w: int|
                0 <= w < self.renderpasses@.len() && spec_same_pass(
                    #[trigger] self.renderpasses@[w],
                    old(self).renderpasses@[q],
                ) by {
                assert(spec_same_pass(allpasses[q], old(self).renderpasses@[q]));
                assert(!spec_pass_writes(allpasses[q])) by {
                    assert(allpasses[q].resources@ == old(self).renderpasses@[q].resources@);
                }
                assert(!marked@[q]);
                let w = choose|w: int| 0 <= w < kept@.len() && kept@[w] == allpasses[q];
                assert(spec_same_pass(self.renderpasses@[w], old(self).renderpasses@[q]));
            }
            assert forall|p2: int|
                0 <= p2 < old(self).renderpasses@.len() && !(exists|i: int|
                    0 <= i < map.len() && #[trigger] map[i] == p2) implies spec_pass_writes(
                #[trigger] old(self).renderpasses@[p2],
            ) by {
                assert(marked@[p2]);
                assert(spec_pass_writes(allpasses[p2]));
                assert(allpasses[p2].resources@ == old(self).renderpasses@[p2].resources@);
            }
            assert forall|p2: int, x2: int|
                #![trigger spec_sole_dead_output(old(self).renderpasses@, old(self).resources@, p2, x2)]
                spec_sole_dead_output(
                    old(self).renderpasses@,
                    old(self).resources@,
                    p2,
                    x2,
                ) implies (forall|i: int| 0 <= i < map.len() ==> #[trigger] map[i] != p2) by {
                // the unread output was a suspect from the start, so it was
                // processed and its producer marked
                assert(spec_in_prefix(initq, initq.len() as int, x2));
                let mm = choose|mm: int|
                    0 <= mm < initq.len() && mm < initq.len() && initq[mm] as int == x2;
                assert(queue@[mm] as int == x2);
                assert(spec_in_prefix(queue@, qhead as int, x2));
                assert(marked@[p2]);
                assert forall|i: int| 0 <= i < map.len() implies #[trigger] map[i] != p2 by {
                    assert(!marked@[map[i]]);
                }
            }
        }
        Ghost(map)
    }
}

/// Two resources that differ at most in their lifetime interval.
pub open spec fn spec_same_resource_mod_lifetime(a: TransientResource, b: TransientResource) -> bool {
    &&& a.refcount == b.refcount
    &&& a.resource_id == b.resource_id
    &&& a.producer == b.producer
    &&& a.usage == b.usage
    &&& a.size == b.size
    &&& a.alignment == b.alignment
    &&& a.desc == b.desc
    &&& a.name == b.name
}

/// Whether any pass of the frame references resource `rid`.
pub open spec fn spec_resource_referenced(passes: Seq<RenderPass>, rid: int) -> bool {
    exists|i: int| 0 <= i < passes.len() && spec_references(#[trigger] passes[i], rid)
}

/// Whether pass `p` declares any access on resource `rid`.
fn pass_references(p: &RenderPass, rid: u32) -> (r: bool)
    ensures
        r == spec_references(*p, rid as int),
{
    let mut k: usize = 0;
    while k < p.resources.len()
        invariant
            0 <= k <= p.resources@.len(),
            forall|m: int| 0 <= m < k ==> (#[trigger] p.resources@[m]).0 != rid,
        decreases p.resources@.len() - k,
    {
        if p.resources[k].0 == rid {
            return true;
        }
        k = k + 1;
    }
    false
}

impl FrameGraph {
    /// Computes each referenced resource's lifetime: the first and the last
    /// pass index that declares an access on it.  A resource no surviving
    /// pass references keeps its recorded interval and takes no part in the
    /// frame.
    pub fn find_lifetimes(&mut self)
        requires
            old(self).wf(),
        ensures
            final(self).wf(),
            final(self).renderpasses@ == old(self).renderpasses@,
            final(self).views@ == old(self).views@,
            final(self).final_transitions@ == old(self).final_transitions@,
            final(self).renderpass_transitions@ == old(self).renderpass_transitions@,
            final(self).resource_aliasing@ == old(self).resource_aliasing@,
            final(self).heaps == old(self).heaps,
            final(self).virtual_offset == old(self).virtual_offset,
            final(self).virtual_view == old(self).virtual_view,
            final(self).resources@.len() == old(self).resources@.len(),
            forall|i: int|
                0 <= i < old(self).resources@.len() ==> spec_same_resource_mod_lifetime(
                    #[trigger] final(self).resources@[i],
                    old(self).resources@[i],
                ),
            // the interval is tight: its ends reference the resource and
            // every referencing pass lies inside it
            forall|r: int|
                0 <= r < old(self).resources@.len() && spec_resource_referenced(
                    old(self).renderpasses@,
                    r,
                ) ==> {
                    let lt = (#[trigger] final(self).resources@[r]).lifetime;
                    &&& lt.start < old(self).renderpasses@.len()
                    &&& lt.end < old(self).renderpasses@.len()
                    &&& spec_references(old(self).renderpasses@[lt.start as int], r)
                    &&& spec_references(old(self).renderpasses@[lt.end as int], r)
                    &&& forall|i: int|
                        0 <= i < old(self).renderpasses@.len() && spec_references(
                            #[trigger] old(self).renderpasses@[i],
                            r,
                        ) ==> lt.start <= i <= lt.end
                },
            forall|r: int|
                0 <= r < old(self).resources@.len() && !spec_resource_referenced(
                    old(self).renderpasses@,
                    r,
                ) ==> (#[trigger] final(self).resources@[r]).lifetime == old(
                    self,
                ).resources@[r].lifetime,
    {
        let np = self.renderpasses.len();
        let nr = self.resources.len();
        let mut r: usize = 0;
        while r < nr
            invariant
                old(self).wf(),
                self.wf(),
                np == self.renderpasses@.len(),
                nr == self.resources@.len(),
                np == old(self).renderpasses@.len(),
                nr == old(self).resources@.len(),
                0 <= r <= nr,
                self.renderpasses@ == old(self).renderpasses@,
                self.views@ == old(self).views@,
                self.final_transitions@ == old(self).final_transitions@,
                self.renderpass_transitions@ == old(self).renderpass_transitions@,
                self.resource_aliasing@ == old(self).resource_aliasing@,
                self.heaps == old(self).heaps,
                self.virtual_offset == old(self).virtual_offset,
                self.virtual_view == old(self).virtual_view,
                forall|i: int|
                    0 <= i < nr ==> spec_same_resource_mod_lifetime(
                        #[trigger] self.resources@[i],
                        old(self).resources@[i],
                    ),
                forall|i: int|
                    r <= i < nr ==> (#[trigger] self.resources@[i]).lifetime == old(
                        self,
                    ).resources@[i].lifetime,
                forall|rr: int|
                    0 <= rr < r && spec_resource_referenced(old(self).renderpasses@, rr) ==> {
                        let lt = (#[trigger] self.resources@[rr]).lifetime;
                        &&& lt.start < np
                        &&& lt.end < np
                        &&& spec_references(old(self).renderpasses@[lt.start as int], rr)
                        &&& spec_references(old(self).renderpasses@[lt.end as int], rr)
                        &&& forall|i: int|
                            0 <= i < np && spec_references(
                                #[trigger] old(self).renderpasses@[i],
                                rr,
                            ) ==> lt.start <= i <= lt.end
                    },
                forall|rr: int|
                    0 <= rr < r && !spec_resource_referenced(old(self).renderpasses@, rr) ==> (
                    #[trigger] self.resources@[rr]).lifetime == old(self).resources@[rr].lifetime,
            decreases nr - r,
        {
            let rid = r as u32;
            let mut found = false;
            let mut first: usize = 0;
            let mut last: usize = 0;
            let mut i: usize = 0;
            while i < np
                invariant
                    old(self).wf(),
                    self.wf(),
                    np == self.renderpasses@.len(),
                    np == old(self).renderpasses@.len(),
                    self.renderpasses@ == old(self).renderpasses@,
                    0 <= i <= np,
                    rid == r,
                    !found ==> forall|m: int|
                        0 <= m < i ==> !spec_references(#[trigger] old(self).renderpasses@[m], r as int),
                    found ==> {
                        &&& first <= last < i
                        &&& spec_references(old(self).renderpasses@[first as int], r as int)
                        &&& spec_references(old(self).renderpasses@[last as int], r as int)
                        &&& forall|m: int|
                            0 <= m < i && spec_references(
                                #[trigger] old(self).renderpasses@[m],
                                r as int,
                            ) ==> first <= m <= last
                    },
                decreases np - i,
            {
                if pass_references(&self.renderpasses[i], rid) {
                    if !found {
                        first = i;
                        found = true;
                    }
                    last = i;
                }
                i = i + 1;
            }
            if found {
                self.resources[r].lifetime = TransientResourceLifetime {
                    start: first as u32,
                    end: last as u32,
                };
            } else {
                proof {
                    assert(!spec_resource_referenced(old(self).renderpasses@, r as int));
                }
            }
            r = r + 1;
        }
    }
}

/// The barrier planner's whole state, as a mathematical value: per-resource
/// batching state, the per-pass transition lists, and the final-state map.
pub struct PlannerState {
    pub current: Seq<TransitionFlags>,
    pub prev: Seq<TransitionFlags>,
    pub cache_pass: Seq<Option<usize>>,
    pub prev_pass: Seq<usize>,
    pub plans: Seq<Seq<ResourceTransition>>,
    pub finals: Seq<Option<TransitionFlags>>,
}

/// One access `(rid, t)` of pass `i`, exactly as the planner treats it: a
/// carried-over final state seeds a transition at this pass; a write
/// flushes any batch open on the resource and opens a fresh one; a read
/// after a write opens a read batch, and further reads fold into it.
pub open spec fn spec_plan_step(s: PlannerState, i: usize, rid: int, t: TransitionFlags) -> PlannerState {
    let s1 = if s.finals[rid] is Some {
        PlannerState {
            plans: s.plans.update(
                i as int,
                s.plans[i as int].push(
                    ResourceTransition { resource: rid as u32, from: s.finals[rid].unwrap(), to: t },
                ),
            ),
            finals: s.finals.update(rid, None),
            ..s
        }
    } else {
        s
    };
    let s3 = if t.spec_has_write() {
        let s2 = if s1.current[rid].spec_has_read() && s1.cache_pass[rid] is Some {
            PlannerState {
                plans: s1.plans.update(
                    s1.cache_pass[rid].unwrap() as int,
                    s1.plans[s1.cache_pass[rid].unwrap() as int].push(
                        ResourceTransition {
                            resource: rid as u32,
                            from: s1.prev[rid],
                            to: s1.current[rid],
                        },
                    ),
                ),
                prev: s1.prev.update(rid, s1.current[rid]),
                cache_pass: s1.cache_pass.update(rid, None),
                ..s1
            }
        } else {
            s1
        };
        if s2.cache_pass[rid] is Some {
            PlannerState {
                plans: s2.plans.update(
                    s2.cache_pass[rid].unwrap() as int,
                    s2.plans[s2.cache_pass[rid].unwrap() as int].push(
                        ResourceTransition {
                            resource: rid as u32,
                            from: s2.prev[rid],
                            to: s2.current[rid],
                        },
                    ),
                ),
                cache_pass: s2.cache_pass.update(rid, Some(s2.prev_pass[rid])),
                prev: s2.prev.update(rid, s2.current[rid]),
                current: s2.current.update(rid, t),
                ..s2
            }
        } else {
            PlannerState {
                prev: if s2.prev[rid] == TransitionFlags::spec_empty() {
                    s2.prev.update(rid, t)
                } else {
                    s2.prev
                },
                current: s2.current.update(rid, t),
                cache_pass: s2.cache_pass.update(rid, Some(i)),
                ..s2
            }
        }
    } else {
        let s2 = if s1.current[rid].spec_has_write() {
            PlannerState {
                prev: s1.prev.update(rid, s1.current[rid]),
                cache_pass: s1.cache_pass.update(rid, Some(i)),
                current: s1.current.update(rid, t),
                ..s1
            }
        } else {
            s1
        };
        PlannerState { current: s2.current.update(rid, s2.current[rid].spec_union(t)), ..s2 }
    };
    PlannerState { prev_pass: s3.prev_pass.update(rid, i), ..s3 }
}

/// The planner folded over the first `k` accesses of pass `i`.
pub open spec fn spec_plan_pass(
    s: PlannerState,
    i: usize,
    accs: Seq<(u32, TransitionFlags)>,
    k: int,
) -> PlannerState
    decreases k,
{
    if k <= 0 || k > accs.len() {
        s
    } else {
        spec_plan_step(
            spec_plan_pass(s, i, accs, k - 1),
            i,
            (accs[k - 1]).0 as int,
            (accs[k - 1]).1,
        )
    }
}

/// The planner folded over the first `i` passes.
pub open spec fn spec_plan_passes(s: PlannerState, passes: Seq<RenderPass>, i: int) -> PlannerState
    decreases i,
{
    if i <= 0 || i > passes.len() {
        s
    } else {
        let s2 = spec_plan_passes(s, passes, i - 1);
        spec_plan_pass(
            s2,
            (i - 1) as usize,
            passes[i - 1].resources@,
            passes[i - 1].resources@.len() as int,
        )
    }
}

/// The closing walk over the first `r` resources: record each final state
/// and flush any batch still open.
pub open spec fn spec_plan_flush(s: PlannerState, r: int) -> PlannerState
    decreases r,
{
    if r <= 0 {
        s
    } else {
        let s2 = spec_plan_flush(s, r - 1);
        let rr = r - 1;
        let s3 = PlannerState { finals: s2.finals.update(rr, Some(s2.current[rr])), ..s2 };
        if s3.prev[rr] != s3.current[rr] && s3.cache_pass[rr] is Some {
            PlannerState {
                plans: s3.plans.update(
                    s3.cache_pass[rr].unwrap() as int,
                    s3.plans[s3.cache_pass[rr].unwrap() as int].push(
                        ResourceTransition {
                            resource: rr as u32,
                            from: s3.prev[rr],
                            to: s3.current[rr],
                        },
                    ),
                ),
                ..s3
            }
        } else {
            s3
        }
    }
}

/// The previous frame's final states, extended to this frame's resource
/// count.
pub open spec fn spec_padded_finals(ft: Seq<Option<TransitionFlags>>, nr: int) -> Seq<
    Option<TransitionFlags>,
> {
    Seq::new(
        nr as nat,
        |r: int|
            if r < ft.len() {
                ft[r]
            } else {
                None
            },
    )
}

/// The planner's starting state: empty batching state, empty per-pass
/// lists, and the carried-over final states.
pub open spec fn spec_plan_init(np: int, nr: int, ft: Seq<Option<TransitionFlags>>) -> PlannerState {
    PlannerState {
        current: Seq::new(nr as nat, |r: int| TransitionFlags::spec_empty()),
        prev: Seq::new(nr as nat, |r: int| TransitionFlags::spec_empty()),
        cache_pass: Seq::new(nr as nat, |r: int| None),
        prev_pass: Seq::new(nr as nat, |r: int| 0usize),
        plans: Seq::new(np as nat, |p: int| Seq::empty()),
        finals: spec_padded_finals(ft, nr),
    }
}

/// Everything the barrier walk plans for a frame: the per-pass transition
/// lists and the final-state map, as one value.
pub open spec fn spec_plan(
    passes: Seq<RenderPass>,
    nr: int,
    ft: Seq<Option<TransitionFlags>>,
) -> PlannerState {
    spec_plan_flush(
        spec_plan_passes(spec_plan_init(passes.len() as int, nr, ft), passes, passes.len() as int),
        nr,
    )
}

/// Two resources that differ at most in their descriptor's creation flags.
pub open spec fn spec_same_resource_mod_flags(a: TransientResource, b: TransientResource) -> bool {
    &&& a.refcount == b.refcount
    &&& a.resource_id == b.resource_id
    &&& a.producer == b.producer
    &&& a.usage == b.usage
    &&& a.lifetime == b.lifetime
    &&& a.size == b.size
    &&& a.alignment == b.alignment
    &&& a.desc.width == b.desc.width
    &&& a.desc.height == b.desc.height
    &&& a.desc.mip_levels == b.desc.mip_levels
    &&& a.desc.format == b.desc.format
    &&& a.name == b.name
}

/// Every planned transition names a recorded resource.
pub open spec fn spec_transitions_valid(ts: Seq<Vec<ResourceTransition>>, nr: int) -> bool {
    forall|p: int, m: int|
        0 <= p < ts.len() && 0 <= m < ts[p]@.len() ==> ((#[trigger] ts[p]@[m]).resource as int) < nr
}

/// Whether some pass before `i` references resource `r`.
pub open spec fn spec_referenced_before(passes: Seq<RenderPass>, r: int, i: int) -> bool {
    exists|m: int| 0 <= m < i && m < passes.len() && spec_references(#[trigger] passes[m], r)
}

/// Whether some access before slot `k` touches resource `r`.
pub open spec fn spec_accessed_before(rs: Seq<(u32, TransitionFlags)>, r: int, k: int) -> bool {
    exists|m: int| 0 <= m < k && m < rs.len() && (#[trigger] rs[m]).0 == r
}

/// Pass `i0` is the first pass of the frame referencing resource `r`.
pub open spec fn spec_first_ref(passes: Seq<RenderPass>, r: int, i0: int) -> bool {
    &&& 0 <= i0 < passes.len()
    &&& spec_references(passes[i0], r)
    &&& forall|m: int| 0 <= m < i0 ==> !spec_references(#[trigger] passes[m], r)
}

/// Slot `k0` is the first access of resource `r` inside pass `p`.
pub open spec fn spec_first_access(p: RenderPass, r: int, k0: int) -> bool {
    &&& 0 <= k0 < p.resources@.len()
    &&& (p.resources@[k0]).0 == r
    &&& forall|m: int| 0 <= m < k0 ==> (#[trigger] p.resources@[m]).0 != r
}

/// Every resource with a carried-over final state whose first access lies
/// before position `(i, k)` has its carry-over transition planned at that
/// first access: `from` is the previous frame's final state, `to` the first
/// access's flags.
pub open spec fn spec_carry_recorded(
    ts: Seq<Vec<ResourceTransition>>,
    passes: Seq<RenderPass>,
    ft0: Seq<Option<TransitionFlags>>,
    nr: int,
    i: int,
    k: int,
) -> bool {
    forall|r: int, i0: int, k0: int|
        #![trigger spec_first_ref(passes, r, i0), spec_first_access(passes[i0], r, k0)]
        0 <= r < nr && r < ft0.len() && ft0[r].is_some() && spec_first_ref(passes, r, i0)
            && spec_first_access(passes[i0], r, k0) && (i0 < i || (i0 == i && k0 < k)) ==> 0 <= i0
            < ts.len() && ts[i0]@.contains(
            ResourceTransition {
                resource: r as u32,
                from: ft0[r].unwrap(),
                to: (passes[i0].resources@[k0]).1,
            },
        )
}

/// Planned carry-over records survive any further planning: the per-pass
/// lists only ever grow.
proof fn lemma_carry_recorded_grows(
    ts1: Seq<Vec<ResourceTransition>>,
    ts2: Seq<Vec<ResourceTransition>>,
    passes: Seq<RenderPass>,
    ft0: Seq<Option<TransitionFlags>>,
    nr: int,
    i: int,
    k: int,
)
    requires
        spec_carry_recorded(ts1, passes, ft0, nr, i, k),
        ts2.len() == ts1.len(),
        forall|l: int| 0 <= l < ts1.len() ==> (#[trigger] ts2[l])@.len() >= ts1[l]@.len(),
        forall|l: int, j: int|
            0 <= l < ts1.len() && 0 <= j < ts1[l]@.len() ==> (#[trigger] ts2[l]@[j]) == ts1[l]@[j],
    ensures
        spec_carry_recorded(ts2, passes, ft0, nr, i, k),
{
    assert forall|r: int, i0: int, k0: int|
        #![trigger spec_first_ref(passes, r, i0), spec_first_access(passes[i0], r, k0)]
        0 <= r < nr && r < ft0.len() && ft0[r].is_some() && spec_first_ref(passes, r, i0)
            && spec_first_access(passes[i0], r, k0) && (i0 < i || (i0 == i && k0 < k)) implies 0
        <= i0 < ts2.len() && ts2[i0]@.contains(
        ResourceTransition {
            resource: r as u32,
            from: ft0[r].unwrap(),
            to: (passes[i0].resources@[k0]).1,
        },
    ) by {
        let record = ResourceTransition {
            resource: r as u32,
            from: ft0[r].unwrap(),
            to: (passes[i0].resources@[k0]).1,
        };
        assert(ts1[i0]@.contains(record));
        let w = choose|w: int| 0 <= w < ts1[i0]@.len() && ts1[i0]@[w] == record;
        assert(ts2[i0]@[w] == record);
    }
}

/// Up to position `(i, k)` the carried-over final state of a resource is
/// still pending exactly while no access has consumed it.
pub open spec fn spec_carry_pending(
    ft: Seq<Option<TransitionFlags>>,
    passes: Seq<RenderPass>,
    ft0: Seq<Option<TransitionFlags>>,
    nr: int,
    i: int,
    k: int,
) -> bool {
    forall|r: int|
        #![trigger ft[r]]
        0 <= r < nr ==> {
            if ft0[r].is_some() && !spec_referenced_before(passes, r, i) && (i >= passes.len()
                || !spec_accessed_before(passes[i].resources@, r, k)) {
                ft[r] == ft0[r]
            } else {
                ft[r].is_none()
            }
        }
}

impl FrameGraph {
    /// Plans the state-transition barriers of the frame.
    ///
    /// Walking the passes in order, each resource carries a current state;
    /// consecutive reads batch into one transition into their union, writes
    /// force a fresh transition, and the pass that first needs a new state
    /// receives the barrier.  The state a resource was left in by the
    /// previous frame seeds the first transition of this one, and the state
    /// it ends in is recorded for the next.  The union of all accesses is
    /// written into each resource's creation flags, so the physical
    /// resource supports every access the frame declares.
    #[verifier::rlimit(100)]
    pub fn generate_barriers(&mut self)
        requires
            old(self).wf(),
        ensures
            final(self).wf(),
            final(self).renderpasses@ == old(self).renderpasses@,
            final(self).views@ == old(self).views@,
            final(self).heaps == old(self).heaps,
            final(self).virtual_offset == old(self).virtual_offset,
            final(self).virtual_view == old(self).virtual_view,
            final(self).resources@.len() == old(self).resources@.len(),
            forall|r: int|
                0 <= r < old(self).resources@.len() ==> spec_same_resource_mod_flags(
                    #[trigger] final(self).resources@[r],
                    old(self).resources@[r],
                ),
            // the creation flags are exactly those of the frame-wide usage
            // union
            forall|r: int|
                0 <= r < old(self).resources@.len() ==> (
                #[trigger] final(self).resources@[r]).desc.flags == spec_aggregate(
                    old(self).renderpasses@,
                    r,
                ).spec_resource_flags(),
            final(self).renderpass_transitions@.len() == old(self).renderpasses@.len(),
            spec_transitions_valid(
                final(self).renderpass_transitions@,
                old(self).resources@.len() as int,
            ),
            final(self).resource_aliasing@.len() == old(self).resources@.len(),
            forall|r: int|
                0 <= r < old(self).resources@.len() ==> !(
                #[trigger] final(self).resource_aliasing@[r]),
            final(self).final_transitions@.len() == old(self).resources@.len(),
            forall|r: int|
                0 <= r < old(self).resources@.len() ==> (
                #[trigger] final(self).final_transitions@[r]).is_some(),
            // the planner's whole output is fixed, step for step, by the
            // spec-level walk: every planned transition list and every
            // recorded final state
            final(self).renderpass_transitions@.len() == old(self).renderpasses@.len(),
            forall|p: int|
                0 <= p < old(self).renderpasses@.len() ==> (
                #[trigger] final(self).renderpass_transitions@[p])@ == spec_plan(
                    old(self).renderpasses@,
                    old(self).resources@.len() as int,
                    old(self).final_transitions@,
                ).plans[p],
            final(self).final_transitions@ == spec_plan(
                old(self).renderpasses@,
                old(self).resources@.len() as int,
                old(self).final_transitions@,
            ).finals,
            // the first access of a resource whose final state carried over
            // from the previous frame sees a transition out of exactly that
            // state into that access's flags
            forall|r: int, i0: int, k0: int|
                #![trigger spec_first_ref(old(self).renderpasses@, r, i0), spec_first_access(old(self).renderpasses@[i0], r, k0)]
                0 <= r < old(self).resources@.len() && r < old(self).final_transitions@.len()
                    && old(self).final_transitions@[r].is_some() && spec_first_ref(
                    old(self).renderpasses@,
                    r,
                    i0,
                ) && spec_first_access(old(self).renderpasses@[i0], r, k0)
                    ==> final(self).renderpass_transitions@[i0]@.contains(
                    ResourceTransition {
                        resource: r as u32,
                        from: old(self).final_transitions@[r].unwrap(),
                        to: (old(self).renderpasses@[i0].resources@[k0]).1,
                    },
                ),
    {
        let np = self.renderpasses.len();
        let nr = self.resources.len();

        let mut current: Vec<TransitionFlags> = Vec::new();
        let mut prev: Vec<TransitionFlags> = Vec::new();
        let mut cache_pass: Vec<Option<usize>> = Vec::new();
        let mut prev_pass: Vec<usize> = Vec::new();
        let mut agg: Vec<TransitionFlags> = Vec::new();
        let mut r: usize = 0;
        while r < nr
            invariant
                0 <= r <= nr,
                current@.len() == r,
                prev@.len() == r,
                cache_pass@.len() == r,
                prev_pass@.len() == r,
                agg@.len() == r,
                forall|m: int| 0 <= m < r ==> (#[trigger] current@[m]) == TransitionFlags::spec_empty(),
                forall|m: int| 0 <= m < r ==> (#[trigger] prev@[m]) == TransitionFlags::spec_empty(),
                forall|m: int| 0 <= m < r ==> (#[trigger] cache_pass@[m]).is_none(),
                forall|m: int| 0 <= m < r ==> (#[trigger] prev_pass@[m]) == 0,
                forall|m: int| 0 <= m < r ==> (#[trigger] agg@[m]) == TransitionFlags::spec_empty(),
            decreases nr - r,
        {
            current.push(TransitionFlags::empty());
            prev.push(TransitionFlags::empty());
            cache_pass.push(None);
            prev_pass.push(0);
            agg.push(TransitionFlags::empty());
            r = r + 1;
        }

        // fresh per-pass transition lists and aliasing flags; the final
        // states of the previous frame carry over by resource id
        let mut fresh: Vec<Vec<ResourceTransition>> = Vec::new();
        let mut i: usize = 0;
        while i < np
            invariant
                0 <= i <= np,
                fresh@.len() == i,
                forall|m: int| 0 <= m < i ==> (#[trigger] fresh@[m])@.len() == 0,
            decreases np - i,
        {
            fresh.push(Vec::new());
            i = i + 1;
        }
        self.renderpass_transitions = fresh;

        let mut ft: Vec<Option<TransitionFlags>> = Vec::new();
        let mut r: usize = 0;
        while r < nr
            invariant
                old(self).wf(),
                self.wf(),
                np == self.renderpasses@.len(),
                nr == self.resources@.len(),
                0 <= r <= nr,
                ft@.len() == r,
                self.final_transitions@ == old(self).final_transitions@,
                forall|m: int|
                    0 <= m < r ==> #[trigger] ft@[m] == (if m < old(self).final_transitions@.len() {
                        old(self).final_transitions@[m]
                    } else {
                        None
                    }),
            decreases nr - r,
        {
            if r < self.final_transitions.len() {
                ft.push(self.final_transitions[r]);
            } else {
                ft.push(None);
            }
            r = r + 1;
        }
        self.final_transitions = ft;
        let ghost ft0 = self.final_transitions@;

        let mut aliasing: Vec<bool> = Vec::new();
        let mut r: usize = 0;
        while r < nr
            invariant
                0 <= r <= nr,
                aliasing@.len() == r,
                forall|m: int| 0 <= m < r ==> !(#[trigger] aliasing@[m]),
            decreases nr - r,
        {
            aliasing.push(false);
            r = r + 1;
        }
        self.resource_aliasing = aliasing;

        let ghost passes = self.renderpasses@;
        let ghost minit = spec_plan_init(np as int, nr as int, old(self).final_transitions@);
        proof {
            assert(passes.skip(0) =~= passes);
            assert(current@ =~= minit.current);
            assert(prev@ =~= minit.prev);
            assert(cache_pass@ =~= minit.cache_pass);
            assert(prev_pass@ =~= minit.prev_pass);
            assert(self.final_transitions@ =~= minit.finals);
            assert forall|p: int| 0 <= p < np implies (
            #[trigger] self.renderpass_transitions@[p])@ =~= minit.plans[p] by {}
        }
        let mut i: usize = 0;
        while i < np
            invariant
                old(self).wf(),
                self.wf(),
                np == self.renderpasses@.len(),
                nr == self.resources@.len(),
                np == old(self).renderpasses@.len(),
                nr == old(self).resources@.len(),
                passes == old(self).renderpasses@,
                0 <= i <= np,
                self.renderpasses@ == old(self).renderpasses@,
                self.views@ == old(self).views@,
                self.heaps == old(self).heaps,
                self.virtual_offset == old(self).virtual_offset,
                self.virtual_view == old(self).virtual_view,
                forall|m: int|
                    0 <= m < nr ==> #[trigger] self.resources@[m] == old(self).resources@[m],
                self.renderpass_transitions@.len() == np,
                spec_transitions_valid(self.renderpass_transitions@, nr as int),
                self.final_transitions@.len() == nr,
                self.resource_aliasing@.len() == nr,
                forall|m: int| 0 <= m < nr ==> !(#[trigger] self.resource_aliasing@[m]),
                current@.len() == nr,
                prev@.len() == nr,
                cache_pass@.len() == nr,
                prev_pass@.len() == nr,
                agg@.len() == nr,
                forall|m: int|
                    0 <= m < nr && (#[trigger] cache_pass@[m]).is_some() ==> cache_pass@[m].unwrap()
                        < np,
                forall|m: int| 0 <= m < nr ==> (#[trigger] prev_pass@[m]) < np || prev_pass@[m] == 0,
                forall|rr: int|
                    0 <= rr < nr ==> spec_aggregate_from(passes.skip(i as int), rr, #[trigger] agg@[rr])
                        == spec_aggregate(passes, rr),
                ft0.len() == nr,
                spec_carry_pending(self.final_transitions@, passes, ft0, nr as int, i as int, 0),
                spec_carry_recorded(
                    self.renderpass_transitions@,
                    passes,
                    ft0,
                    nr as int,
                    i as int,
                    0,
                ),
                minit == spec_plan_init(np as int, nr as int, old(self).final_transitions@),
                ({
                    let m = spec_plan_passes(minit, passes, i as int);
                    &&& current@ == m.current
                    &&& prev@ == m.prev
                    &&& cache_pass@ == m.cache_pass
                    &&& prev_pass@ == m.prev_pass
                    &&& self.final_transitions@ == m.finals
                    &&& m.plans.len() == np
                    &&& forall|p: int|
                        0 <= p < np ==> (#[trigger] self.renderpass_transitions@[p])@ == m.plans[p]
                }),
            decreases np - i,
        {
            let m = self.renderpasses[i].resources.len();
            let ghost accs = self.renderpasses@[i as int].resources@;
            proof {
                assert(passes.skip(i as int).drop_first() =~= passes.skip(i + 1));
                assert(passes.skip(i as int)[0] == passes[i as int]);
                assert(accs.skip(0) =~= accs);
            }
            let mut k: usize = 0;
            while k < m
                invariant
                    old(self).wf(),
                    self.wf(),
                    np == self.renderpasses@.len(),
                    nr == self.resources@.len(),
                    np == old(self).renderpasses@.len(),
                    nr == old(self).resources@.len(),
                    passes == old(self).renderpasses@,
                    (i as int) < np,
                    m == accs.len(),
                    accs == passes[i as int].resources@,
                    0 <= k <= m,
                    self.renderpasses@ == old(self).renderpasses@,
                    self.views@ == old(self).views@,
                    self.heaps == old(self).heaps,
                    self.virtual_offset == old(self).virtual_offset,
                    self.virtual_view == old(self).virtual_view,
                    forall|mm: int|
                        0 <= mm < nr ==> #[trigger] self.resources@[mm] == old(self).resources@[mm],
                    self.renderpass_transitions@.len() == np,
                    spec_transitions_valid(self.renderpass_transitions@, nr as int),
                    self.final_transitions@.len() == nr,
                    self.resource_aliasing@.len() == nr,
                    forall|mm: int| 0 <= mm < nr ==> !(#[trigger] self.resource_aliasing@[mm]),
                    current@.len() == nr,
                    prev@.len() == nr,
                    cache_pass@.len() == nr,
                    prev_pass@.len() == nr,
                    agg@.len() == nr,
                    forall|mm: int|
                        0 <= mm < nr && (#[trigger] cache_pass@[mm]).is_some()
                            ==> cache_pass@[mm].unwrap() < np,
                    forall|mm: int|
                        0 <= mm < nr ==> (#[trigger] prev_pass@[mm]) < np || prev_pass@[mm] == 0,
                    forall|rr: int|
                        0 <= rr < nr ==> spec_aggregate_from(
                            passes.skip(i + 1),
                            rr,
                            spec_pass_aggregate(accs.skip(k as int), rr, #[trigger] agg@[rr]),
                        ) == spec_aggregate(passes, rr),
                    ft0.len() == nr,
                    spec_carry_pending(self.final_transitions@, passes, ft0, nr as int, i as int, k as int),
                    spec_carry_recorded(
                        self.renderpass_transitions@,
                        passes,
                        ft0,
                        nr as int,
                        i as int,
                        k as int,
                    ),
                    minit == spec_plan_init(np as int, nr as int, old(self).final_transitions@),
                    ({
                        let mm2 = spec_plan_pass(
                            spec_plan_passes(minit, passes, i as int),
                            i,
                            accs,
                            k as int,
                        );
                        &&& current@ == mm2.current
                        &&& prev@ == mm2.prev
                        &&& cache_pass@ == mm2.cache_pass
                        &&& prev_pass@ == mm2.prev_pass
                        &&& self.final_transitions@ == mm2.finals
                        &&& mm2.plans.len() == np
                        &&& forall|p: int|
                            0 <= p < np ==> (#[trigger] self.renderpass_transitions@[p])@
                                == mm2.plans[p]
                    }),
                decreases m - k,
            {
                let access = self.renderpasses[i].resources[k];
                let rid = access.0;
                let transition = access.1;
                let idx = rid as usize;

                let ghost ts_in = self.renderpass_transitions@;
                let ghost ft_in = self.final_transitions@;
                let ghost consumed = self.final_transitions@[idx as int].is_some();

                // previous frame's final state seeds the first transition
                if let Some(last) = self.final_transitions[idx] {
                    self.renderpass_transitions[i].push(
                        ResourceTransition { resource: rid, from: last, to: transition },
                    );
                    self.final_transitions[idx] = None;
                }
                let ghost ts_carry = self.renderpass_transitions@;

                proof {
                    assert(accs.skip(k as int).drop_first() =~= accs.skip(k + 1));
                    assert(accs.skip(k as int)[0] == accs[k as int]);
                }
                let a = agg[idx];
                agg[idx] = a.union(transition);

                if transition.has_write() {
                    if current[idx].has_read() {
                        if let Some(pi) = cache_pass[idx] {
                            let pflags = prev[idx];
                            let cflags = current[idx];
                            self.renderpass_transitions[pi].push(
                                ResourceTransition { resource: rid, from: pflags, to: cflags },
                            );
                            prev[idx] = cflags;
                            cache_pass[idx] = None;
                        }
                    }
                    if let Some(pi) = cache_pass[idx] {
                        let pflags = prev[idx];
                        let cflags = current[idx];
                        self.renderpass_transitions[pi].push(
                            ResourceTransition { resource: rid, from: pflags, to: cflags },
                        );
                        cache_pass[idx] = Some(prev_pass[idx]);
                        prev[idx] = cflags;
                        current[idx] = transition;
                    } else {
                        if prev[idx].is_empty() {
                            prev[idx] = transition;
                        }
                        current[idx] = transition;
                        cache_pass[idx] = Some(i);
                    }
                } else {
                    if current[idx].has_write() {
                        prev[idx] = current[idx];
                        cache_pass[idx] = Some(i);
                        current[idx] = transition;
                    }
                    let c = current[idx];
                    current[idx] = c.union(transition);
                }

                prev_pass[idx] = i;
                proof {
                    let ii = i as int;
                    let kk = k as int;
                    // the per-pass lists only grew this step
                    lemma_carry_recorded_grows(
                        ts_in,
                        self.renderpass_transitions@,
                        passes,
                        ft0,
                        nr as int,
                        ii,
                        kk,
                    );
                    // if this was the resource's first access, the consumed
                    // carry-over is now planned at this very slot
                    assert forall|r: int, i0: int, k0: int|
                        #![trigger spec_first_ref(passes, r, i0), spec_first_access(passes[i0], r, k0)]
                        0 <= r < nr && r < ft0.len() && ft0[r].is_some() && spec_first_ref(
                            passes,
                            r,
                            i0,
                        ) && spec_first_access(passes[i0], r, k0) && (i0 < ii || (i0 == ii && k0 < kk
                            + 1)) implies 0 <= i0 < self.renderpass_transitions@.len()
                        && self.renderpass_transitions@[i0]@.contains(
                        ResourceTransition {
                            resource: r as u32,
                            from: ft0[r].unwrap(),
                            to: (passes[i0].resources@[k0]).1,
                        },
                    ) by {
                        if i0 == ii && k0 == kk {
                            assert(r == idx as int);
                            assert(!spec_referenced_before(passes, r, ii));
                            assert(!spec_accessed_before(accs, r, kk));
                            assert(ft_in[r] == ft0[r]);
                            assert(consumed);
                            let record = ResourceTransition {
                                resource: r as u32,
                                from: ft0[r].unwrap(),
                                to: (passes[i0].resources@[k0]).1,
                            };
                            assert(ts_carry[i0]@[ts_in[i0]@.len() as int] == record);
                            assert(self.renderpass_transitions@[i0]@[ts_in[i0]@.len() as int]
                                == record);
                        }
                    }
                    // the carry of this resource is consumed; every other
                    // resource keeps its pending state
                    assert forall|r: int| #![trigger self.final_transitions@[r]] 0 <= r
                        < nr implies {
                        if ft0[r].is_some() && !spec_referenced_before(passes, r, ii) && (ii
                            >= passes.len() || !spec_accessed_before(
                            passes[ii].resources@,
                            r,
                            kk + 1,
                        )) {
                            self.final_transitions@[r] == ft0[r]
                        } else {
                            self.final_transitions@[r].is_none()
                        }
                    } by {
                        if r != idx as int {
                            assert(self.final_transitions@[r] == ft_in[r]);
                            if spec_accessed_before(passes[ii].resources@, r, kk + 1) {
                                let w = choose|w: int|
                                    0 <= w < kk + 1 && w < accs.len() && (accs[w]).0 == r;
                                assert(w < kk);
                                assert(spec_accessed_before(passes[ii].resources@, r, kk));
                            }
                        } else {
                            assert(spec_accessed_before(passes[ii].resources@, r, kk + 1)) by {
                                assert((accs[kk]).0 == r);
                            }
                            assert(self.final_transitions@[r].is_none());
                        }
                    }
                }
                proof {
                    let mbase = spec_plan_pass(
                        spec_plan_passes(minit, passes, i as int),
                        i,
                        accs,
                        k as int,
                    );
                    let mnext = spec_plan_pass(
                        spec_plan_passes(minit, passes, i as int),
                        i,
                        accs,
                        k + 1,
                    );
                    assert(mnext == spec_plan_step(mbase, i, (accs[k as int]).0 as int, (accs[
                        k as int
                    ]).1));
                    assert(current@ =~= mnext.current);
                    assert(prev@ =~= mnext.prev);
                    assert(cache_pass@ =~= mnext.cache_pass);
                    assert(prev_pass@ =~= mnext.prev_pass);
                    assert(self.final_transitions@ =~= mnext.finals);
                    assert forall|p: int| 0 <= p < np implies (
                    #[trigger] self.renderpass_transitions@[p])@ =~= mnext.plans[p] by {}
                }
                k = k + 1;
            }
            proof {
                assert(passes.skip(i as int).drop_first() =~= passes.skip(i + 1));
                assert(passes.skip(i as int)[0] == passes[i as int]);
                assert(spec_plan_passes(minit, passes, i + 1) == spec_plan_pass(
                    spec_plan_passes(minit, passes, i as int),
                    i,
                    accs,
                    accs.len() as int,
                ));
                assert forall|rr: int| 0 <= rr < nr implies spec_aggregate_from(
                    passes.skip(i + 1),
                    rr,
                    #[trigger] agg@[rr],
                ) == spec_aggregate(passes, rr) by {
                    assert(accs.skip(m as int) =~= Seq::<(u32, TransitionFlags)>::empty());
                    assert(spec_pass_aggregate(accs.skip(m as int), rr, agg@[rr]) == agg@[rr]);
                }
                // a pass fully walked: pending and recorded facts advance to
                // the next pass
                assert forall|r: int| #![trigger self.final_transitions@[r]] 0 <= r
                    < nr implies {
                    if ft0[r].is_some() && !spec_referenced_before(passes, r, i + 1) && (i + 1
                        >= passes.len() || !spec_accessed_before(passes[i + 1].resources@, r, 0)) {
                        self.final_transitions@[r] == ft0[r]
                    } else {
                        self.final_transitions@[r].is_none()
                    }
                } by {
                    if spec_referenced_before(passes, r, i + 1) && !spec_referenced_before(
                        passes,
                        r,
                        i as int,
                    ) {
                        let w = choose|w: int|
                            0 <= w < i + 1 && w < passes.len() && spec_references(passes[w], r);
                        assert(w == i as int);
                        assert(spec_references(passes[i as int], r));
                        let w2 = choose|w2: int|
                            0 <= w2 < accs.len() && (#[trigger] accs[w2]).0 == r;
                        assert(spec_accessed_before(passes[i as int].resources@, r, m as int));
                    }
                    if !spec_referenced_before(passes, r, i + 1) {
                        assert(!spec_accessed_before(passes[i as int].resources@, r, m as int))
                            by {
                            if spec_accessed_before(passes[i as int].resources@, r, m as int) {
                                let w3 = choose|w3: int|
                                    0 <= w3 < m && w3 < accs.len() && (#[trigger] accs[w3]).0 == r;
                                assert(spec_references(passes[i as int], r));
                                assert(spec_referenced_before(passes, r, i + 1));
                            }
                        }
                    }
                }
            }
            i = i + 1;
        }

        // close every open batch and record the frame's final states
        let mut r: usize = 0;
        while r < nr
            invariant
                old(self).wf(),
                self.wf(),
                np == self.renderpasses@.len(),
                nr == self.resources@.len(),
                np == old(self).renderpasses@.len(),
                nr == old(self).resources@.len(),
                passes == old(self).renderpasses@,
                0 <= r <= nr,
                self.renderpasses@ == old(self).renderpasses@,
                self.views@ == old(self).views@,
                self.heaps == old(self).heaps,
                self.virtual_offset == old(self).virtual_offset,
                self.virtual_view == old(self).virtual_view,
                forall|mm: int|
                    0 <= mm < nr ==> #[trigger] self.resources@[mm] == old(self).resources@[mm],
                self.renderpass_transitions@.len() == np,
                spec_transitions_valid(self.renderpass_transitions@, nr as int),
                self.final_transitions@.len() == nr,
                self.resource_aliasing@.len() == nr,
                forall|mm: int| 0 <= mm < nr ==> !(#[trigger] self.resource_aliasing@[mm]),
                current@.len() == nr,
                prev@.len() == nr,
                cache_pass@.len() == nr,
                agg@.len() == nr,
                forall|mm: int|
                    0 <= mm < nr && (#[trigger] cache_pass@[mm]).is_some() ==> cache_pass@[mm].unwrap()
                        < np,
                forall|mm: int|
                    0 <= mm < r ==> (#[trigger] self.final_transitions@[mm]).is_some(),
                forall|rr: int|
                    0 <= rr < nr ==> spec_aggregate_from(
                        passes.skip(np as int),
                        rr,
                        #[trigger] agg@[rr],
                    ) == spec_aggregate(passes, rr),
                ft0.len() == nr,
                spec_carry_recorded(
                    self.renderpass_transitions@,
                    passes,
                    ft0,
                    nr as int,
                    np as int,
                    0,
                ),
                minit == spec_plan_init(np as int, nr as int, old(self).final_transitions@),
                ({
                    let mf = spec_plan_flush(
                        spec_plan_passes(minit, passes, np as int),
                        r as int,
                    );
                    &&& current@ == mf.current
                    &&& prev@ == mf.prev
                    &&& cache_pass@ == mf.cache_pass
                    &&& self.final_transitions@ == mf.finals
                    &&& mf.plans.len() == np
                    &&& forall|p: int|
                        0 <= p < np ==> (#[trigger] self.renderpass_transitions@[p])@
                            == mf.plans[p]
                }),
            decreases nr - r,
        {
            let ghost ts_in = self.renderpass_transitions@;
            let ps = prev[r];
            let cs = current[r];
            self.final_transitions[r] = Some(cs);
            if !(ps == cs) {
                if let Some(pi) = cache_pass[r] {
                    self.renderpass_transitions[pi].push(
                        ResourceTransition { resource: r as u32, from: ps, to: cs },
                    );
                }
            }
            proof {
                lemma_carry_recorded_grows(
                    ts_in,
                    self.renderpass_transitions@,
                    passes,
                    ft0,
                    nr as int,
                    np as int,
                    0,
                );
                let mf0 = spec_plan_flush(spec_plan_passes(minit, passes, np as int), r as int);
                let mf1 = spec_plan_flush(spec_plan_passes(minit, passes, np as int), r + 1);
                assert(self.final_transitions@ =~= mf1.finals);
                assert forall|p: int| 0 <= p < np implies (
                #[trigger] self.renderpass_transitions@[p])@ =~= mf1.plans[p] by {}
            }
            r = r + 1;
        }

        // the physical resource is created supporting every declared access
        let mut r: usize = 0;
        while r < nr
            invariant
                old(self).wf(),
                self.wf(),
                np == self.renderpasses@.len(),
                nr == self.resources@.len(),
                np == old(self).renderpasses@.len(),
                nr == old(self).resources@.len(),
                passes == old(self).renderpasses@,
                0 <= r <= nr,
                self.renderpasses@ == old(self).renderpasses@,
                self.views@ == old(self).views@,
                self.heaps == old(self).heaps,
                self.virtual_offset == old(self).virtual_offset,
                self.virtual_view == old(self).virtual_view,
                self.renderpass_transitions@.len() == np,
                spec_transitions_valid(self.renderpass_transitions@, nr as int),
                self.final_transitions@.len() == nr,
                self.resource_aliasing@.len() == nr,
                forall|mm: int| 0 <= mm < nr ==> !(#[trigger] self.resource_aliasing@[mm]),
                forall|mm: int|
                    0 <= mm < nr ==> (#[trigger] self.final_transitions@[mm]).is_some(),
                agg@.len() == nr,
                forall|rr: int|
                    0 <= rr < nr ==> spec_aggregate_from(
                        passes.skip(np as int),
                        rr,
                        #[trigger] agg@[rr],
                    ) == spec_aggregate(passes, rr),
                forall|mm: int|
                    r <= mm < nr ==> #[trigger] self.resources@[mm] == old(self).resources@[mm],
                forall|mm: int|
                    0 <= mm < r ==> spec_same_resource_mod_flags(
                        #[trigger] self.resources@[mm],
                        old(self).resources@[mm],
                    ),
                forall|mm: int|
                    0 <= mm < r ==> (#[trigger] self.resources@[mm]).desc.flags == spec_aggregate(
                        passes,
                        mm,
                    ).spec_resource_flags(),
                ft0.len() == nr,
                spec_carry_recorded(
                    self.renderpass_transitions@,
                    passes,
                    ft0,
                    nr as int,
                    np as int,
                    0,
                ),
                minit == spec_plan_init(np as int, nr as int, old(self).final_transitions@),
                ({
                    let mf = spec_plan_flush(
                        spec_plan_passes(minit, passes, np as int),
                        nr as int,
                    );
                    &&& self.final_transitions@ == mf.finals
                    &&& mf.plans.len() == np
                    &&& forall|p: int|
                        0 <= p < np ==> (#[trigger] self.renderpass_transitions@[p])@
                            == mf.plans[p]
                }),
            decreases nr - r,
        {
            proof {
                assert(passes.skip(np as int) =~= Seq::<RenderPass>::empty());
                assert(spec_aggregate_from(passes.skip(np as int), r as int, agg@[r as int])
                    == agg@[r as int]);
            }
            let f = agg[r].into_resource_flags();
            self.resources[r].desc.flags = f;
            r = r + 1;
        }
        proof {
            assert(spec_plan(passes, nr as int, old(self).final_transitions@)
                == spec_plan_flush(spec_plan_passes(minit, passes, np as int), nr as int));
            assert forall|r: int, i0: int, k0: int|
                #![trigger spec_first_ref(old(self).renderpasses@, r, i0), spec_first_access(old(self).renderpasses@[i0], r, k0)]
                0 <= r < old(self).resources@.len() && r < old(self).final_transitions@.len()
                    && old(self).final_transitions@[r].is_some() && spec_first_ref(
                    old(self).renderpasses@,
                    r,
                    i0,
                ) && spec_first_access(old(self).renderpasses@[i0], r, k0) implies self.renderpass_transitions@[i0]@.contains(
                ResourceTransition {
                    resource: r as u32,
                    from: old(self).final_transitions@[r].unwrap(),
                    to: (old(self).renderpasses@[i0].resources@[k0]).1,
                },
            ) by {
                assert(ft0[r] == old(self).final_transitions@[r]);
                assert(spec_first_ref(passes, r, i0));
                assert(spec_first_access(passes[i0], r, k0));
            }
        }
    }
}

/// The device form of a planned transition: state words in place of flag
/// sets.
pub open spec fn spec_transition_barrier(t: ResourceTransition) -> Barrier {
    Barrier::Transition {
        resource: t.resource,
        from: t.from.spec_resource_state(),
        to: t.to.spec_resource_state(),
    }
}

/// A whole transition list in device form, in plan order.
pub open spec fn spec_transition_barriers(ts: Seq<ResourceTransition>) -> Seq<Barrier> {
    ts.map_values(|t: ResourceTransition| spec_transition_barrier(t))
}

/// Whether an aliasing barrier for `rid` stands in some pass plan up to
/// (and including) pass `upto`.
pub open spec fn spec_alias_planned(plan: Seq<PassExecution>, upto: int, rid: u32) -> bool {
    exists|i2: int, m2: int|
        0 <= i2 <= upto && i2 < plan.len() && 0 <= m2 < plan[i2].barriers@.len() && (
        #[trigger] plan[i2].barriers@[m2]) == (Barrier::Alias { resource: rid })
}

/// A pass's barrier list is some run of aliasing barriers followed exactly
/// by its planned transitions in device form.
pub open spec fn spec_pass_plan_ok(pe: PassExecution, ts: Seq<ResourceTransition>) -> bool {
    exists|na: int|
        #![trigger pe.barriers@.skip(na)]
        {
            &&& 0 <= na <= pe.barriers@.len()
            &&& (forall|m: int|
                0 <= m < na ==> (#[trigger] pe.barriers@[m]) matches Barrier::Alias { .. })
            &&& pe.barriers@.skip(na) == spec_transition_barriers(ts)
        }
}

/// Lays a pass's resolved descriptor handles out as the byte block its
/// callback receives: eight little-endian bytes per handle, CPU and GPU
/// alike, in declaration order.
pub fn marshal_params(pe: &PassExecution) -> (r: Vec<u8>)
    requires
        pe.param_size == HANDLE_SIZE * pe.params@.len(),
        pe.params@.len() <= 0x1000_0000,
    ensures
        r@.len() == pe.param_size,
        forall|i: int, j: int|
            #![trigger r@[HANDLE_SIZE * i + j]]
            0 <= i < pe.params@.len() && 0 <= j < 8 ==> r@[HANDLE_SIZE * i + j] == ((pe.params@[
                i
            ].1 >> ((8 * j) as u64)) & 0xFF) as u8,
{
    let mut data: Vec<u8> = Vec::new();
    let mut i: usize = 0;
    while i < pe.params.len()
        invariant
            pe.param_size == HANDLE_SIZE * pe.params@.len(),
            pe.params@.len() <= 0x1000_0000,
            0 <= i <= pe.params@.len(),
            data@.len() == HANDLE_SIZE * i,
            forall|m: int, j: int|
                #![trigger data@[HANDLE_SIZE * m + j]]
                0 <= m < i && 0 <= j < 8 ==> data@[HANDLE_SIZE * m + j] == ((pe.params@[m].1 >> ((8
                    * j) as u64)) & 0xFF) as u8,
        decreases pe.params@.len() - i,
    {
        let h = pe.params[i].1;
        let mut j: usize = 0;
        while j < 8
            invariant
                pe.params@.len() <= 0x1000_0000,
                0 <= i < pe.params@.len(),
                h == pe.params@[i as int].1,
                0 <= j <= 8,
                data@.len() == HANDLE_SIZE * i + j,
                forall|m: int, j2: int|
                    #![trigger data@[HANDLE_SIZE * m + j2]]
                    0 <= m < i && 0 <= j2 < 8 ==> data@[HANDLE_SIZE * m + j2] == ((pe.params@[
                        m
                    ].1 >> ((8 * j2) as u64)) & 0xFF) as u8,
                forall|j2: int|
                    #![trigger data@[HANDLE_SIZE * (i as int) + j2]]
                    0 <= j2 < j ==> data@[HANDLE_SIZE * (i as int) + j2] == ((h >> ((8
                        * j2) as u64)) & 0xFF) as u8,
            decreases 8 - j,
        {
            let byte_val = (h >> ((8 * j) as u64)) & 0xFF;
            proof {
                assert((h >> ((8 * (j as int)) as u64)) & 0xFF < 256) by (bit_vector);
            }
            data.push(byte_val as u8);
            j = j + 1;
        }
        i = i + 1;
    }
    data
}

impl FrameGraph {
    /// The descriptor handle a parameter resolves to: a slot of the CPU
    /// slab for CPU-bound handles, of the GPU-visible slab otherwise.
    pub open spec fn spec_param_handle(self, is_cpu: bool, view_id: u32) -> u64 {
        if is_cpu {
            (self.heaps.rtv_heap_base + view_id * self.heaps.rtv_stride) as u64
        } else {
            (self.heaps.srv_heap_base + view_id * self.heaps.srv_stride) as u64
        }
    }

    /// Produces the dispatch plan of the compiled frame: for each pass, in
    /// order, an aliasing barrier for every resource it is the frame's
    /// first pass to touch, then the pass's planned transitions as device
    /// barriers, and the resolved descriptor handle of every output
    /// parameter.
    pub fn exec(&mut self) -> (r: Vec<PassExecution>)
        requires
            old(self).wf(),
            old(self).renderpass_transitions@.len() == old(self).renderpasses@.len(),
            spec_transitions_valid(
                old(self).renderpass_transitions@,
                old(self).resources@.len() as int,
            ),
            old(self).resource_aliasing@.len() == old(self).resources@.len(),
        ensures
            final(self).wf(),
            final(self).renderpasses@ == old(self).renderpasses@,
            final(self).renderpass_transitions@ == old(self).renderpass_transitions@,
            final(self).final_transitions@ == old(self).final_transitions@,
            final(self).resources@ == old(self).resources@,
            final(self).views@ == old(self).views@,
            final(self).heaps == old(self).heaps,
            final(self).virtual_offset == old(self).virtual_offset,
            final(self).virtual_view == old(self).virtual_view,
            r@.len() == old(self).renderpasses@.len(),
            forall|i: int|
                0 <= i < r@.len() ==> {
                    &&& (#[trigger] r@[i]).name == old(self).renderpasses@[i].name
                    &&& r@[i].param_size == old(self).renderpasses@[i].param_size
                    &&& r@[i].params@.len() == old(self).renderpasses@[i].params@.len()
                },
            // parameters resolve against the descriptor slabs, in the
            // pass's declared handle order
            forall|i: int, m: int|
                0 <= i < r@.len() && 0 <= m < old(self).renderpasses@[i].params@.len() ==> {
                    &&& (#[trigger] r@[i].params@[m]).0 == old(self).renderpasses@[i].params@[m].0
                    &&& r@[i].params@[m].1 == old(self).spec_param_handle(
                        old(self).renderpasses@[i].params@[m].0,
                        old(self).renderpasses@[i].params@[m].1,
                    )
                },
            // aliasing barriers lead; the planned transitions follow in
            // plan order, translated to device state words
            forall|i: int|
                0 <= i < r@.len() ==> spec_pass_plan_ok(
                    #[trigger] r@[i],
                    old(self).renderpass_transitions@[i]@,
                ),
            // every resource a pass touches has its aliasing barrier
            // planned by the time that pass runs, unless an earlier submit
            // of the frame already emitted it
            forall|i: int, k: int|
                0 <= i < r@.len() && 0 <= k < old(self).renderpasses@[i].resources@.len() ==> {
                    let rid = (#[trigger] old(self).renderpasses@[i].resources@[k]).0;
                    old(self).resource_aliasing@[rid as int] || spec_alias_planned(r@, i, rid)
                },
            // and that barrier stands in the first touching pass's own plan
            forall|rid: int, i0: int|
                #![trigger spec_first_ref(old(self).renderpasses@, rid, i0)]
                0 <= rid < old(self).resources@.len() && !old(self).resource_aliasing@[rid]
                    && spec_first_ref(old(self).renderpasses@, rid, i0) ==> r@[i0].barriers@.contains(
                    Barrier::Alias { resource: rid as u32 },
                ),
    {
        let n = self.renderpasses.len();
        let mut out: Vec<PassExecution> = Vec::new();
        let mut i: usize = 0;
        while i < n
            invariant
                old(self).wf(),
                self.wf(),
                n == self.renderpasses@.len(),
                0 <= i <= n,
                self.renderpasses@ == old(self).renderpasses@,
                self.renderpass_transitions@ == old(self).renderpass_transitions@,
                self.final_transitions@ == old(self).final_transitions@,
                self.resources@ == old(self).resources@,
                self.views@ == old(self).views@,
                self.heaps == old(self).heaps,
                self.virtual_offset == old(self).virtual_offset,
                self.virtual_view == old(self).virtual_view,
                self.renderpass_transitions@.len() == n,
                spec_transitions_valid(self.renderpass_transitions@, self.resources@.len() as int),
                self.resource_aliasing@.len() == self.resources@.len(),
                out@.len() == i,
                forall|ii: int|
                    0 <= ii < i ==> {
                        &&& (#[trigger] out@[ii]).name == old(self).renderpasses@[ii].name
                        &&& out@[ii].param_size == old(self).renderpasses@[ii].param_size
                        &&& out@[ii].params@.len() == old(self).renderpasses@[ii].params@.len()
                    },
                forall|ii: int, m: int|
                    0 <= ii < i && 0 <= m < old(self).renderpasses@[ii].params@.len() ==> {
                        &&& (#[trigger] out@[ii].params@[m]).0 == old(self).renderpasses@[
                            ii
                        ].params@[m].0
                        &&& out@[ii].params@[m].1 == old(self).spec_param_handle(
                            old(self).renderpasses@[ii].params@[m].0,
                            old(self).renderpasses@[ii].params@[m].1,
                        )
                    },
                forall|ii: int|
                    0 <= ii < i ==> spec_pass_plan_ok(
                        #[trigger] out@[ii],
                        old(self).renderpass_transitions@[ii]@,
                    ),
                forall|rid: int|
                    0 <= rid < self.resources@.len() && old(self).resource_aliasing@[rid] ==> (
                    #[trigger] self.resource_aliasing@[rid]),
                forall|rid: int|
                    0 <= rid < self.resources@.len() && (#[trigger] self.resource_aliasing@[rid])
                        ==> old(self).resource_aliasing@[rid] || spec_alias_planned(
                        out@,
                        i as int - 1,
                        rid as u32,
                    ),
                forall|ii: int, k: int|
                    0 <= ii < i && 0 <= k < old(self).renderpasses@[ii].resources@.len() ==> {
                        let rid = (#[trigger] old(self).renderpasses@[ii].resources@[k]).0;
                        old(self).resource_aliasing@[rid as int] || spec_alias_planned(
                            out@,
                            ii,
                            rid,
                        )
                    },
                forall|rid: int|
                    0 <= rid < self.resources@.len() && (#[trigger] self.resource_aliasing@[rid])
                        ==> old(self).resource_aliasing@[rid] || spec_referenced_before(
                        old(self).renderpasses@,
                        rid,
                        i as int,
                    ),
                forall|rid: int, i0: int|
                    #![trigger spec_first_ref(old(self).renderpasses@, rid, i0)]
                    0 <= rid < self.resources@.len() && !old(self).resource_aliasing@[rid]
                        && spec_first_ref(old(self).renderpasses@, rid, i0) && i0 < i
                        ==> out@[i0].barriers@.contains(Barrier::Alias { resource: rid as u32 }),
            decreases n - i,
        {
            let ghost flags_in = self.resource_aliasing@;
            let ghost out_in = out@;
            let mut barriers: Vec<Barrier> = Vec::new();

            // aliasing barriers: first touch of each resource this frame
            let m = self.renderpasses[i].resources.len();
            let mut k: usize = 0;
            while k < m
                invariant
                    old(self).wf(),
                    self.wf(),
                    n == self.renderpasses@.len(),
                    (i as int) < n,
                    m == self.renderpasses@[i as int].resources@.len(),
                    0 <= k <= m,
                    self.renderpasses@ == old(self).renderpasses@,
                    self.renderpass_transitions@ == old(self).renderpass_transitions@,
                    self.final_transitions@ == old(self).final_transitions@,
                    self.resources@ == old(self).resources@,
                    self.views@ == old(self).views@,
                    self.heaps == old(self).heaps,
                    self.virtual_offset == old(self).virtual_offset,
                    self.virtual_view == old(self).virtual_view,
                    self.renderpass_transitions@.len() == n,
                    spec_transitions_valid(
                        self.renderpass_transitions@,
                        self.resources@.len() as int,
                    ),
                    self.resource_aliasing@.len() == self.resources@.len(),
                    forall|mm: int|
                        0 <= mm < barriers@.len() ==> (#[trigger] barriers@[mm]) matches Barrier::Alias {
                            ..
                        },
                    flags_in.len() == self.resources@.len(),
                    forall|rid: int|
                        0 <= rid < self.resources@.len() && flags_in[rid] ==> (
                        #[trigger] self.resource_aliasing@[rid]),
                    forall|rid: int|
                        0 <= rid < self.resources@.len() && (
                        #[trigger] self.resource_aliasing@[rid]) && !flags_in[rid] ==> exists|
                            mm: int,
                        |
                            0 <= mm < barriers@.len() && barriers@[mm] == (Barrier::Alias {
                                resource: rid as u32,
                            }),
                    forall|kk: int|
                        0 <= kk < k ==> self.resource_aliasing@[(
                        #[trigger] self.renderpasses@[i as int].resources@[kk]).0 as int],
                    forall|rid: int|
                        0 <= rid < self.resources@.len() && (
                        #[trigger] self.resource_aliasing@[rid]) && !flags_in[rid]
                            ==> spec_accessed_before(
                            self.renderpasses@[i as int].resources@,
                            rid,
                            k as int,
                        ),
                decreases m - k,
            {
                let rid = self.renderpasses[i].resources[k].0;
                let idx = rid as usize;
                let ghost b_pre = barriers@;
                let ghost fl_pre = self.resource_aliasing@;
                if !self.resource_aliasing[idx] {
                    barriers.push(Barrier::Alias { resource: rid });
                    self.resource_aliasing[idx] = true;
                    proof {
                        assert(barriers@[b_pre.len() as int] == (Barrier::Alias {
                            resource: idx as u32,
                        }));
                        assert forall|rid2: int|
                            0 <= rid2 < self.resources@.len() && self.resource_aliasing@[rid2]
                                && !flags_in[rid2] implies exists|mm: int|
                            0 <= mm < barriers@.len() && barriers@[mm] == (Barrier::Alias {
                                resource: rid2 as u32,
                            }) by {
                            if rid2 == idx as int {
                                assert(barriers@[b_pre.len() as int] == (Barrier::Alias {
                                    resource: rid2 as u32,
                                }));
                            } else {
                                assert(fl_pre[rid2]);
                                let mm = choose|mm: int|
                                    0 <= mm < b_pre.len() && b_pre[mm] == (Barrier::Alias {
                                        resource: rid2 as u32,
                                    });
                                assert(barriers@[mm] == (Barrier::Alias { resource: rid2 as u32 }));
                            }
                        }
                    }
                }
                k = k + 1;
            }

            let ghost na = barriers@.len() as int;
            let ghost pre = barriers@;

            // the planned transitions, as device barriers
            let t = self.renderpass_transitions[i].len();
            let mut k: usize = 0;
            while k < t
                invariant
                    old(self).wf(),
                    self.wf(),
                    n == self.renderpasses@.len(),
                    (i as int) < n,
                    self.renderpass_transitions@ == old(self).renderpass_transitions@,
                    self.renderpass_transitions@.len() == n,
                    t == self.renderpass_transitions@[i as int]@.len(),
                    0 <= k <= t,
                    self.heaps == old(self).heaps,
                    na == pre.len(),
                    forall|mm: int|
                        0 <= mm < pre.len() ==> (#[trigger] pre[mm]) matches Barrier::Alias { .. },
                    barriers@ == pre + spec_transition_barriers(
                        self.renderpass_transitions@[i as int]@.subrange(0, k as int),
                    ),
                    flags_in.len() == self.resources@.len(),
                    self.resource_aliasing@.len() == self.resources@.len(),
                    forall|rid: int|
                        0 <= rid < self.resources@.len() && flags_in[rid] ==> (
                        #[trigger] self.resource_aliasing@[rid]),
                    forall|rid: int|
                        0 <= rid < self.resources@.len() && (
                        #[trigger] self.resource_aliasing@[rid]) && !flags_in[rid] ==> exists|
                            mm: int,
                        |
                            0 <= mm < pre.len() && pre[mm] == (Barrier::Alias {
                                resource: rid as u32,
                            }),
                    forall|kk: int|
                        0 <= kk < self.renderpasses@[i as int].resources@.len()
                            ==> self.resource_aliasing@[(
                        #[trigger] self.renderpasses@[i as int].resources@[kk]).0 as int],
                decreases t - k,
            {
                let tr = self.renderpass_transitions[i][k];
                barriers.push(
                    Barrier::Transition {
                        resource: tr.resource,
                        from: tr.from.into_resource_state(),
                        to: tr.to.into_resource_state(),
                    },
                );
                proof {
                    assert(spec_transition_barriers(
                        self.renderpass_transitions@[i as int]@.subrange(0, k + 1),
                    ) =~= spec_transition_barriers(
                        self.renderpass_transitions@[i as int]@.subrange(0, k as int),
                    ).push(
                        spec_transition_barrier(
                            self.renderpass_transitions@[i as int]@[k as int],
                        ),
                    ));
                    assert(barriers@ =~= pre + spec_transition_barriers(
                        self.renderpass_transitions@[i as int]@.subrange(0, k + 1),
                    ));
                }
                k = k + 1;
            }
            proof {
                assert(self.renderpass_transitions@[i as int]@.subrange(
                    0,
                    self.renderpass_transitions@[i as int]@.len() as int,
                ) =~= self.renderpass_transitions@[i as int]@);
                assert(barriers@.skip(na) =~= spec_transition_barriers(
                    self.renderpass_transitions@[i as int]@,
                ));
            }

            // the resolved parameter block
            let p = self.renderpasses[i].params.len();
            let mut params: Vec<(bool, u64)> = Vec::new();
            let mut k: usize = 0;
            while k < p
                invariant
                    old(self).wf(),
                    self.wf(),
                    n == self.renderpasses@.len(),
                    (i as int) < n,
                    self.renderpasses@ == old(self).renderpasses@,
                    self.heaps == old(self).heaps,
                    p == self.renderpasses@[i as int].params@.len(),
                    0 <= k <= p,
                    params@.len() == k,
                    forall|mm: int|
                        0 <= mm < k ==> {
                            &&& (#[trigger] params@[mm]).0 == self.renderpasses@[i as int].params@[
                                mm
                            ].0
                            &&& params@[mm].1 == old(self).spec_param_handle(
                                self.renderpasses@[i as int].params@[mm].0,
                                self.renderpasses@[i as int].params@[mm].1,
                            )
                        },
                decreases p - k,
            {
                let pr = self.renderpasses[i].params[k];
                let h = if pr.0 {
                    self.heaps.get_cpu_handle(pr.1 as usize)
                } else {
                    self.heaps.get_gpu_handle(pr.1 as u64)
                };
                params.push((pr.0, h));
                k = k + 1;
            }

            let name = self.renderpasses[i].name;
            let param_size = self.renderpasses[i].param_size;
            let ghost bfinal = barriers@;
            out.push(PassExecution { name, barriers, params, param_size });
            proof {
                let oi = i as int;
                assert(out@[oi].barriers@ == bfinal);
                // every resource this pass touches is covered: either an
                // earlier pass planned its aliasing barrier, the frame had
                // already emitted it, or this pass's own plan holds it
                assert forall|ii: int, kk: int|
                    0 <= ii < i + 1 && 0 <= kk < old(self).renderpasses@[ii].resources@.len()
                    implies {
                    let rid = (#[trigger] old(self).renderpasses@[ii].resources@[kk]).0;
                    old(self).resource_aliasing@[rid as int] || spec_alias_planned(out@, ii, rid)
                } by {
                    let rid = (old(self).renderpasses@[ii].resources@[kk]).0;
                    if ii < i {
                        if !old(self).resource_aliasing@[rid as int] {
                            assert(spec_alias_planned(out_in, ii, rid));
                            let (i2, m2) = choose|i2: int, m2: int|
                                0 <= i2 <= ii && i2 < out_in.len() && 0 <= m2
                                    < out_in[i2].barriers@.len() && out_in[i2].barriers@[m2] == (Barrier::Alias {
                                    resource: rid,
                                });
                            assert(out@[i2].barriers@[m2] == (Barrier::Alias { resource: rid }));
                        }
                    } else {
                        assert(self.resource_aliasing@[rid as int]);
                        if !flags_in[rid as int] {
                            let mm = choose|mm: int|
                                0 <= mm < pre.len() && pre[mm] == (Barrier::Alias {
                                    resource: rid,
                                });
                            assert(out@[oi].barriers@[mm] == (Barrier::Alias { resource: rid }));
                            assert(spec_alias_planned(out@, ii, rid));
                        } else {
                            if !old(self).resource_aliasing@[rid as int] {
                                assert(spec_alias_planned(out_in, i as int - 1, rid));
                                let (i2, m2) = choose|i2: int, m2: int|
                                    0 <= i2 <= i as int - 1 && i2 < out_in.len() && 0 <= m2
                                        < out_in[i2].barriers@.len() && out_in[i2].barriers@[m2]
                                        == (Barrier::Alias { resource: rid });
                                assert(out@[i2].barriers@[m2] == (Barrier::Alias {
                                    resource: rid,
                                }));
                                assert(spec_alias_planned(out@, ii, rid));
                            }
                        }
                    }
                }
                // the pass's whole access list is flagged now; anything
                // newly flagged was touched by this pass
                assert forall|rid: int|
                    0 <= rid < self.resources@.len() && (#[trigger] self.resource_aliasing@[rid])
                    implies old(self).resource_aliasing@[rid] || spec_referenced_before(
                    old(self).renderpasses@,
                    rid,
                    i + 1,
                ) by {
                    if !old(self).resource_aliasing@[rid] && !flags_in[rid] {
                        let kk = choose|kk: int|
                            0 <= kk < old(self).renderpasses@[oi].resources@.len() && (
                            old(self).renderpasses@[oi].resources@[kk]).0 == rid;
                        assert(spec_references(old(self).renderpasses@[oi], rid));
                    } else if !old(self).resource_aliasing@[rid] {
                        assert(spec_referenced_before(old(self).renderpasses@, rid, i as int));
                    }
                }
                // a first toucher of an un-aliased resource plans the alias
                // barrier in its own batch
                assert forall|rid: int, i0: int|
                    #![trigger spec_first_ref(old(self).renderpasses@, rid, i0)]
                    0 <= rid < self.resources@.len() && !old(self).resource_aliasing@[rid]
                        && spec_first_ref(old(self).renderpasses@, rid, i0) && i0 < i
                        + 1 implies out@[i0].barriers@.contains(
                    Barrier::Alias { resource: rid as u32 },
                ) by {
                    if i0 == oi {
                        assert(!spec_referenced_before(old(self).renderpasses@, rid, oi));
                        assert(!flags_in[rid]);
                        let k1 = choose|k1: int|
                            0 <= k1 < old(self).renderpasses@[oi].resources@.len() && (
                            #[trigger] old(self).renderpasses@[oi].resources@[k1]).0 == rid;
                        assert(self.resource_aliasing@[rid]);
                        let mm = choose|mm: int|
                            0 <= mm < pre.len() && pre[mm] == (Barrier::Alias {
                                resource: rid as u32,
                            });
                        assert(out@[oi].barriers@[mm] == (Barrier::Alias {
                            resource: rid as u32,
                        }));
                    } else {
                        let mm0 = choose|mm0: int|
                            0 <= mm0 < out_in[i0].barriers@.len() && out_in[i0].barriers@[mm0] == (
                            Barrier::Alias { resource: rid as u32 });
                        assert(out@[i0].barriers@[mm0] == (Barrier::Alias {
                            resource: rid as u32,
                        }));
                    }
                }
                // a flag set by now is justified by a planned barrier
                assert forall|rid: int|
                    0 <= rid < self.resources@.len() && (#[trigger] self.resource_aliasing@[rid])
                    implies old(self).resource_aliasing@[rid] || spec_alias_planned(
                    out@,
                    oi,
                    rid as u32,
                ) by {
                    if !old(self).resource_aliasing@[rid] {
                        if flags_in[rid] {
                            assert(spec_alias_planned(out_in, i as int - 1, rid as u32));
                            let (i2, m2) = choose|i2: int, m2: int|
                                0 <= i2 <= i as int - 1 && i2 < out_in.len() && 0 <= m2
                                    < out_in[i2].barriers@.len() && out_in[i2].barriers@[m2] == (Barrier::Alias {
                                    resource: rid as u32,
                                });
                            assert(out@[i2].barriers@[m2] == (Barrier::Alias {
                                resource: rid as u32,
                            }));
                        } else {
                            let mm = choose|mm: int|
                                0 <= mm < pre.len() && pre[mm] == (Barrier::Alias {
                                    resource: rid as u32,
                                });
                            assert(out@[oi].barriers@[mm] == (Barrier::Alias {
                                resource: rid as u32,
                            }));
                        }
                    }
                }
                assert forall|m2: int| 0 <= m2 < na implies (
                #[trigger] out@[oi].barriers@[m2]) matches Barrier::Alias { .. } by {
                    assert(out@[oi].barriers@[m2] == pre[m2]);
                }
                assert(out@[oi].barriers@.skip(na) == spec_transition_barriers(
                    old(self).renderpass_transitions@[oi]@,
                ));
                assert(spec_pass_plan_ok(out@[oi], old(self).renderpass_transitions@[oi]@));
            }
            i = i + 1;
        }
        out
    }

    /// Compiles the recorded frame: culls dead passes, computes lifetimes,
    /// plans barriers, and resolves the transient resources to placed
    /// physical memory.  Returns the device work the embedder must perform
    /// before executing; an unchanged graph that hits the layout cache
    /// returns none at all.
    pub fn compile(&mut self) -> (ops: Vec<HeapOp>)
        requires
            old(self).wf(),
            forall|p: int|
                0 <= p < old(self).renderpasses@.len() ==> (#[trigger] old(
                    self,
                ).renderpasses@[p]).refcount == 0,
            forall|i: int|
                0 <= i < old(self).resources@.len() ==> (#[trigger] old(
                    self,
                ).resources@[i]).refcount == 0,
        ensures
            final(self).wf(),
            final(self).renderpass_transitions@.len() == final(self).renderpasses@.len(),
            spec_transitions_valid(
                final(self).renderpass_transitions@,
                final(self).resources@.len() as int,
            ),
            final(self).resource_aliasing@.len() == final(self).resources@.len(),
            forall|r: int|
                0 <= r < final(self).resources@.len() ==> !(
                #[trigger] final(self).resource_aliasing@[r]),
            // the planned barriers are the spec-level walk of the surviving
            // passes, seeded with the previous frame's final states
            forall|p: int|
                0 <= p < final(self).renderpasses@.len() ==> (
                #[trigger] final(self).renderpass_transitions@[p])@ == spec_plan(
                    final(self).renderpasses@,
                    final(self).resources@.len() as int,
                    old(self).final_transitions@,
                ).plans[p],
            final(self).final_transitions@ == spec_plan(
                final(self).renderpasses@,
                final(self).resources@.len() as int,
                old(self).final_transitions@,
            ).finals,
            // the allocator's front slot holds exactly this frame's layout
            spec_entry_matches(
                final(self).heaps.cache@[0],
                spec_hash_resources(final(self).resources@),
                spec_sort_cached(spec_cached_seq(final(self).resources@)),
            ),
            // recompiling a frame whose processed layout the cache already
            // held costs no device work and keeps every heap and handle
            old(self).heaps.spec_has_matching_entry(
                spec_hash_resources(final(self).resources@),
                spec_sort_cached(spec_cached_seq(final(self).resources@)),
            ) ==> {
                &&& ops@.len() == 0
                &&& final(self).heaps.current_layout@ == old(self).heaps.current_layout@
                &&& final(self).heaps.next_handle == old(self).heaps.next_handle
            },
            // otherwise the returned ops are the device work the new layout
            // requires: heaps created or carried over in place, prior heaps
            // released or carried, placed resources re-created only where
            // no identical prior placement exists, and the layout's views
            // created last
            !old(self).heaps.spec_has_matching_entry(
                spec_hash_resources(final(self).resources@),
                spec_sort_cached(spec_cached_seq(final(self).resources@)),
            ) ==> {
                &&& (forall|a: int, b: int|
                    0 <= a < b < final(self).heaps.current_layout@.len()
                        ==> final(self).heaps.current_layout@[a].size
                        >= final(self).heaps.current_layout@[b].size)
                &&& (forall|k: int|
                    0 <= k < final(self).heaps.current_layout@.len() ==> (k
                        < old(self).heaps.current_layout@.len()
                        && old(self).heaps.current_layout@[k] == (
                    #[trigger] final(self).heaps.current_layout@[k])) || ops@.contains(
                        HeapOp::CreateHeap {
                            index: k as usize,
                            size: final(self).heaps.current_layout@[k].size,
                        },
                    ))
                &&& (forall|k: int|
                    0 <= k < old(self).heaps.current_layout@.len() ==> (k
                        < final(self).heaps.current_layout@.len()
                        && final(self).heaps.current_layout@[k] == (
                    #[trigger] old(self).heaps.current_layout@[k])) || ops@.contains(
                        HeapOp::ReleaseHeap {
                            index: k as usize,
                            size: old(self).heaps.current_layout@[k].size,
                        },
                    ))
                &&& (forall|e: int, i: int|
                    #![trigger final(self).heaps.cache@[e].placed_resources@[i]]
                    0 <= e < CACHE_ENTRIES && final(self).heaps.cache@[e].used && 0 <= i
                        < final(self).heaps.cache@[e].resources@.len() ==> spec_had_placement(
                        old(self).heaps,
                        final(self).heaps.current_layout@[(final(self).heaps.cache@[
                            e
                        ].indices@[i]).0 as int].id,
                        (final(self).heaps.cache@[e].indices@[i]).1,
                        final(self).heaps.cache@[e].resources@[i].desc,
                        final(self).heaps.cache@[e].placed_resources@[i],
                    ) || ops@.contains(
                        HeapOp::CreatePlacedResource {
                            handle: final(self).heaps.cache@[e].placed_resources@[i],
                            heap_index: (final(self).heaps.cache@[e].indices@[i]).0,
                            offset: (final(self).heaps.cache@[e].indices@[i]).1,
                            desc: final(self).heaps.cache@[e].resources@[i].desc,
                        },
                    ))
                &&& spec_ends_with_view_ops(ops@, final(self).heaps.cache@[0])
            },
    {
        let _culled = self.cull();
        self.find_lifetimes();
        self.generate_barriers();
        let r = self.heaps.pack_heap(&self.resources, &self.views);
        r.1
    }

    /// Ends the frame: clears the recorded passes, resources and views and
    /// resets the id counters, keeping the heap cache and the final-state
    /// map for the next frame's carry-over.
    pub fn finish(&mut self)
        requires
            old(self).wf(),
        ensures
            final(self).wf(),
            final(self).renderpasses@.len() == 0,
            final(self).renderpass_transitions@.len() == 0,
            final(self).resources@.len() == 0,
            final(self).views@.len() == 0,
            final(self).virtual_offset == 0,
            final(self).virtual_view == 0,
            final(self).heaps == old(self).heaps,
            final(self).final_transitions@ == old(self).final_transitions@,
    {
        self.renderpasses.clear();
        self.renderpass_transitions.clear();
        self.resources.clear();
        self.views.clear();
        self.virtual_offset = 0;
        self.virtual_view = 0;
    }
}

proof fn lemma_pass_aggregate_contains_acc(
    rs: Seq<(u32, TransitionFlags)>,
    rid: int,
    acc: TransitionFlags,
)
    ensures
        spec_pass_aggregate(rs, rid, acc).spec_contains(acc),
    decreases rs.len(),
{
    if rs.len() > 0 {
        let acc2 = if rs[0].0 == rid {
            acc.spec_union(rs[0].1)
        } else {
            acc
        };
        lemma_pass_aggregate_contains_acc(rs.drop_first(), rid, acc2);
    }
}

proof fn lemma_pass_aggregate_contains_access(
    rs: Seq<(u32, TransitionFlags)>,
    rid: int,
    acc: TransitionFlags,
    k: int,
)
    requires
        0 <= k < rs.len(),
        (rs[k]).0 == rid,
    ensures
        spec_pass_aggregate(rs, rid, acc).spec_contains((rs[k]).1),
    decreases rs.len(),
{
    let acc2 = if rs[0].0 == rid {
        acc.spec_union(rs[0].1)
    } else {
        acc
    };
    if k == 0 {
        lemma_pass_aggregate_contains_acc(rs.drop_first(), rid, acc2);
    } else {
        assert(rs.drop_first()[k - 1] == rs[k]);
        lemma_pass_aggregate_contains_access(rs.drop_first(), rid, acc2, k - 1);
    }
}

proof fn lemma_aggregate_from_contains_acc(passes: Seq<RenderPass>, rid: int, acc: TransitionFlags)
    ensures
        spec_aggregate_from(passes, rid, acc).spec_contains(acc),
    decreases passes.len(),
{
    if passes.len() > 0 {
        let acc2 = spec_pass_aggregate(passes[0].resources@, rid, acc);
        lemma_pass_aggregate_contains_acc(passes[0].resources@, rid, acc);
        lemma_aggregate_from_contains_acc(passes.drop_first(), rid, acc2);
    }
}

proof fn lemma_aggregate_from_contains_access(
    passes: Seq<RenderPass>,
    rid: int,
    acc: TransitionFlags,
    i: int,
    k: int,
)
    requires
        0 <= i < passes.len(),
        0 <= k < passes[i].resources@.len(),
        (passes[i].resources@[k]).0 == rid,
    ensures
        spec_aggregate_from(passes, rid, acc).spec_contains((passes[i].resources@[k]).1),
    decreases passes.len(),
{
    let acc2 = spec_pass_aggregate(passes[0].resources@, rid, acc);
    if i == 0 {
        lemma_pass_aggregate_contains_access(passes[0].resources@, rid, acc, k);
        lemma_aggregate_from_contains_acc(passes.drop_first(), rid, acc2);
    } else {
        assert(passes.drop_first()[i - 1] == passes[i]);
        lemma_aggregate_from_contains_access(passes.drop_first(), rid, acc2, i - 1, k);
    }
}

/// Law: the frame-wide usage union of a resource covers every access any
/// pass declares on it.  Together with `generate_barriers`, which writes
/// that union's creation flags into the resource descriptor, the physical
/// resource is created supporting every access the frame requests.
pub proof fn lemma_aggregate_covers_access(passes: Seq<RenderPass>, i: int, k: int)
    requires
        0 <= i < passes.len(),
        0 <= k < passes[i].resources@.len(),
    ensures
        spec_aggregate(passes, (passes[i].resources@[k]).0 as int).spec_contains(
            (passes[i].resources@[k]).1,
        ),
{
    lemma_aggregate_from_contains_access(
        passes,
        (passes[i].resources@[k]).0 as int,
        TransitionFlags::spec_empty(),
        i,
        k,
    );
}

} // verus!
