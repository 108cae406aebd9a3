//! Typed resource handles and the legal conversions between them.
//!
//! A pass receives a handle whose type records how the pass may use the
//! resource.  Reads and writes accept only handle types listed in the
//! conversion table below, so an illegal transition is rejected when the
//! frame is recorded:
//!
//! * render target -> shader resource
//! * depth read    -> shader resource
//! * depth write   -> shader resource
//! * depth write  <-> depth read
//!
//! A handle also knows whether its resolved physical form is a CPU or a GPU
//! descriptor, which fixes the layout of the parameter block a pass callback
//! receives.

use vstd::prelude::*;
use crate::resource::FrameGraphResource;

verus! {

/// A handle bound to a pass's output: lists the virtual resources behind it
/// and whether each resolves to a CPU descriptor (`true`) or a GPU
/// descriptor (`false`).
pub trait ResourceBinding {
    spec fn spec_resources(&self) -> Seq<FrameGraphResource>;

    spec fn spec_is_cpus(&self) -> Seq<bool>;

    fn get_virtual_resources(&self) -> (r: Vec<FrameGraphResource>)
        ensures
            r@ == self.spec_resources(),
    ;

    fn is_cpus(&self) -> (r: Vec<bool>)
        ensures
            r@ == self.spec_is_cpus(),
            r@.len() == self.spec_resources().len(),
    ;
}

/// A handle kind that may be consumed as a `T`: one impl per entry of the
/// conversion table.
pub trait IntoTypedResource<T> {
    spec fn spec_resource(&self) -> FrameGraphResource;

    fn get_virtual_resource(&self) -> (r: FrameGraphResource)
        ensures
            r == self.spec_resource(),
    ;
}

/// A color target being written; resolves to a CPU descriptor.
pub struct RenderTargetResource(pub FrameGraphResource);

/// A depth-stencil target; resolves to a CPU descriptor.
pub struct DepthStencilResource(pub FrameGraphResource);

/// A texture being sampled; resolves to a GPU descriptor.
pub struct ShaderResource(pub FrameGraphResource);

/// A depth target being read; resolves to a CPU descriptor.
pub struct DepthReadResource(pub FrameGraphResource);

/// A depth target being written; resolves to a CPU descriptor.
pub struct DepthWriteResource(pub FrameGraphResource);

impl ResourceBinding for RenderTargetResource {
    open spec fn spec_resources(&self) -> Seq<FrameGraphResource> {
        seq![self.0]
    }

    open spec fn spec_is_cpus(&self) -> Seq<bool> {
        seq![true]
    }

    fn get_virtual_resources(&self) -> (r: Vec<FrameGraphResource>) {
        let mut v = Vec::new();
        v.push(self.0);
        assert(v@ =~= seq![self.0]);
        v
    }

    fn is_cpus(&self) -> (r: Vec<bool>) {
        let mut v = Vec::new();
        v.push(true);
        assert(v@ =~= seq![true]);
        v
    }
}

impl ResourceBinding for DepthStencilResource {
    open spec fn spec_resources(&self) -> Seq<FrameGraphResource> {
        seq![self.0]
    }

    open spec fn spec_is_cpus(&self) -> Seq<bool> {
        seq![true]
    }

    fn get_virtual_resources(&self) -> (r: Vec<FrameGraphResource>) {
        let mut v = Vec::new();
        v.push(self.0);
        assert(v@ =~= seq![self.0]);
        v
    }

    fn is_cpus(&self) -> (r: Vec<bool>) {
        let mut v = Vec::new();
        v.push(true);
        assert(v@ =~= seq![true]);
        v
    }
}

impl ResourceBinding for ShaderResource {
    open spec fn spec_resources(&self) -> Seq<FrameGraphResource> {
        seq![self.0]
    }

    open spec fn spec_is_cpus(&self) -> Seq<bool> {
        seq![false]
    }

    fn get_virtual_resources(&self) -> (r: Vec<FrameGraphResource>) {
        let mut v = Vec::new();
        v.push(self.0);
        assert(v@ =~= seq![self.0]);
        v
    }

    fn is_cpus(&self) -> (r: Vec<bool>) {
        let mut v = Vec::new();
        v.push(false);
        assert(v@ =~= seq![false]);
        v
    }
}

impl ResourceBinding for DepthReadResource {
    open spec fn spec_resources(&self) -> Seq<FrameGraphResource> {
        seq![self.0]
    }

    open spec fn spec_is_cpus(&self) -> Seq<bool> {
        seq![true]
    }

    fn get_virtual_resources(&self) -> (r: Vec<FrameGraphResource>) {
        let mut v = Vec::new();
        v.push(self.0);
        assert(v@ =~= seq![self.0]);
        v
    }

    fn is_cpus(&self) -> (r: Vec<bool>) {
        let mut v = Vec::new();
        v.push(true);
        assert(v@ =~= seq![true]);
        v
    }
}

impl ResourceBinding for DepthWriteResource {
    open spec fn spec_resources(&self) -> Seq<FrameGraphResource> {
        seq![self.0]
    }

    open spec fn spec_is_cpus(&self) -> Seq<bool> {
        seq![true]
    }

    fn get_virtual_resources(&self) -> (r: Vec<FrameGraphResource>) {
        let mut v = Vec::new();
        v.push(self.0);
        assert(v@ =~= seq![self.0]);
        v
    }

    fn is_cpus(&self) -> (r: Vec<bool>) {
        let mut v = Vec::new();
        v.push(true);
        assert(v@ =~= seq![true]);
        v
    }
}

/// A pass may produce no handle at all.
impl ResourceBinding for () {
    open spec fn spec_resources(&self) -> Seq<FrameGraphResource> {
        Seq::empty()
    }

    open spec fn spec_is_cpus(&self) -> Seq<bool> {
        Seq::empty()
    }

    fn get_virtual_resources(&self) -> (r: Vec<FrameGraphResource>) {
        let v = Vec::new();
        assert(v@ =~= Seq::<FrameGraphResource>::empty());
        v
    }

    fn is_cpus(&self) -> (r: Vec<bool>) {
        let v = Vec::new();
        assert(v@ =~= Seq::<bool>::empty());
        v
    }
}

impl IntoTypedResource<ShaderResource> for RenderTargetResource {
    open spec fn spec_resource(&self) -> FrameGraphResource {
        self.0
    }

    fn get_virtual_resource(&self) -> (r: FrameGraphResource) {
        self.0
    }
}

impl IntoTypedResource<ShaderResource> for DepthReadResource {
    open spec fn spec_resource(&self) -> FrameGraphResource {
        self.0
    }

    fn get_virtual_resource(&self) -> (r: FrameGraphResource) {
        self.0
    }
}

impl IntoTypedResource<ShaderResource> for DepthWriteResource {
    open spec fn spec_resource(&self) -> FrameGraphResource {
        self.0
    }

    fn get_virtual_resource(&self) -> (r: FrameGraphResource) {
        self.0
    }
}

impl IntoTypedResource<DepthReadResource> for DepthWriteResource {
    open spec fn spec_resource(&self) -> FrameGraphResource {
        self.0
    }

    fn get_virtual_resource(&self) -> (r: FrameGraphResource) {
        self.0
    }
}

impl IntoTypedResource<DepthWriteResource> for DepthReadResource {
    open spec fn spec_resource(&self) -> FrameGraphResource {
        self.0
    }

    fn get_virtual_resource(&self) -> (r: FrameGraphResource) {
        self.0
    }
}

} // verus!
