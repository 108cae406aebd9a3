//! Usage flags of a transient resource and their mapping to device words.
//!
//! A resource accumulates one flag per kind of access a pass declares on it.
//! The set drives the barrier planner (reads batch, writes do not) and, once
//! unioned over the whole frame, the creation flags of the physical resource.

use vstd::prelude::*;

verus! {

/// Device word for the render-target resource state.
pub const STATE_RENDER_TARGET: u32 = 0x4;
/// Device word for the depth-write resource state.
pub const STATE_DEPTH_WRITE: u32 = 0x10;
/// Device word for the depth-read resource state.
pub const STATE_DEPTH_READ: u32 = 0x20;
/// Device word for the pixel-shader-resource state.
pub const STATE_PIXEL_SHADER_RESOURCE: u32 = 0x80;

/// Device word allowing render-target views on a created resource.
pub const RESOURCE_FLAG_ALLOW_RENDER_TARGET: u32 = 0x1;
/// Device word allowing depth-stencil views on a created resource.
pub const RESOURCE_FLAG_ALLOW_DEPTH_STENCIL: u32 = 0x2;

/// The set of access kinds seen on a resource: any union of
/// render-target, shader-resource, depth-write and depth-read.
#[derive(Clone, Copy, Debug, PartialEq, Eq, Structural)]
pub struct TransitionFlags {
    pub render_target: bool,
    pub shader_resource: bool,
    pub depth_write: bool,
    pub depth_read: bool,
}

impl TransitionFlags {
    /// The empty set: no access recorded yet.
    pub open spec fn spec_empty() -> TransitionFlags {
        TransitionFlags {
            render_target: false,
            shader_resource: false,
            depth_write: false,
            depth_read: false,
        }
    }

    pub open spec fn spec_is_empty(self) -> bool {
        self == TransitionFlags::spec_empty()
    }

    /// A set with a read bit: shader-resource or depth-read.
    pub open spec fn spec_has_read(self) -> bool {
        self.shader_resource || self.depth_read
    }

    /// A set with a write bit: render-target or depth-write.
    pub open spec fn spec_has_write(self) -> bool {
        self.render_target || self.depth_write
    }

    pub open spec fn spec_union(self, other: TransitionFlags) -> TransitionFlags {
        TransitionFlags {
            render_target: self.render_target || other.render_target,
            shader_resource: self.shader_resource || other.shader_resource,
            depth_write: self.depth_write || other.depth_write,
            depth_read: self.depth_read || other.depth_read,
        }
    }

    /// Set inclusion: every flag of `other` is also set in `self`.
    pub open spec fn spec_contains(self, other: TransitionFlags) -> bool {
        &&& (other.render_target ==> self.render_target)
        &&& (other.shader_resource ==> self.shader_resource)
        &&& (other.depth_write ==> self.depth_write)
        &&& (other.depth_read ==> self.depth_read)
    }

    /// The device state word for this flag set: the OR of the state bit of
    /// every flag present.  The bits are distinct powers of two, so the OR
    /// is a plain sum.
    pub open spec fn spec_resource_state(self) -> u32 {
        ((if self.render_target { STATE_RENDER_TARGET } else { 0 })
        + (if self.depth_write { STATE_DEPTH_WRITE } else { 0 })
        + (if self.shader_resource { STATE_PIXEL_SHADER_RESOURCE } else { 0 })
        + (if self.depth_read { STATE_DEPTH_READ } else { 0 })) as u32
    }

    /// The device creation-flag word: writes decide what views the physical
    /// resource must allow.
    pub open spec fn spec_resource_flags(self) -> u32 {
        ((if self.render_target { RESOURCE_FLAG_ALLOW_RENDER_TARGET } else { 0 })
        + (if self.depth_write { RESOURCE_FLAG_ALLOW_DEPTH_STENCIL } else { 0 })) as u32
    }

    /// A small integer encoding of the set, used by the layout hash.
    pub open spec fn spec_encode(self) -> u64 {
        ((if self.render_target { 1u64 } else { 0 })
        + (if self.shader_resource { 2u64 } else { 0 })
        + (if self.depth_write { 4u64 } else { 0 })
        + (if self.depth_read { 8u64 } else { 0 })) as u64
    }

    pub fn empty() -> (r: TransitionFlags)
        ensures
            r == TransitionFlags::spec_empty(),
    {
        TransitionFlags {
            render_target: false,
            shader_resource: false,
            depth_write: false,
            depth_read: false,
        }
    }

    /// The set holding exactly the render-target flag.
    pub fn render_target() -> (r: TransitionFlags)
        ensures
            r == (TransitionFlags {
                render_target: true,
                ..TransitionFlags::spec_empty()
            }),
    {
        TransitionFlags { render_target: true, shader_resource: false, depth_write: false, depth_read: false }
    }

    /// The set holding exactly the shader-resource flag.
    pub fn shader_resource() -> (r: TransitionFlags)
        ensures
            r == (TransitionFlags {
                shader_resource: true,
                ..TransitionFlags::spec_empty()
            }),
    {
        TransitionFlags { render_target: false, shader_resource: true, depth_write: false, depth_read: false }
    }

    /// The set holding exactly the depth-write flag.
    pub fn depth_write() -> (r: TransitionFlags)
        ensures
            r == (TransitionFlags {
                depth_write: true,
                ..TransitionFlags::spec_empty()
            }),
    {
        TransitionFlags { render_target: false, shader_resource: false, depth_write: true, depth_read: false }
    }

    /// The set holding exactly the depth-read flag.
    pub fn depth_read() -> (r: TransitionFlags)
        ensures
            r == (TransitionFlags {
                depth_read: true,
                ..TransitionFlags::spec_empty()
            }),
    {
        TransitionFlags { render_target: false, shader_resource: false, depth_write: false, depth_read: true }
    }

    pub fn is_empty(self) -> (r: bool)
        ensures
            r == self.spec_is_empty(),
    {
        !self.render_target && !self.shader_resource && !self.depth_write && !self.depth_read
    }

    /// Whether the set holds a read access (shader-resource or depth-read).
    pub fn has_read(self) -> (r: bool)
        ensures
            r == self.spec_has_read(),
    {
        self.shader_resource || self.depth_read
    }

    /// Whether the set holds a write access (render-target or depth-write).
    pub fn has_write(self) -> (r: bool)
        ensures
            r == self.spec_has_write(),
    {
        self.render_target || self.depth_write
    }

    /// Unions `other` into `self`.
    pub fn insert(&mut self, other: TransitionFlags)
        ensures
            *final(self) == old(self).spec_union(other),
    {
        self.render_target = self.render_target || other.render_target;
        self.shader_resource = self.shader_resource || other.shader_resource;
        self.depth_write = self.depth_write || other.depth_write;
        self.depth_read = self.depth_read || other.depth_read;
    }

    pub fn union(self, other: TransitionFlags) -> (r: TransitionFlags)
        ensures
            r == self.spec_union(other),
    {
        TransitionFlags {
            render_target: self.render_target || other.render_target,
            shader_resource: self.shader_resource || other.shader_resource,
            depth_write: self.depth_write || other.depth_write,
            depth_read: self.depth_read || other.depth_read,
        }
    }

    /// Translates the set into the device's resource-state word.
    pub fn into_resource_state(self) -> (r: u32)
        ensures
            r == self.spec_resource_state(),
    {
        let mut out: u32 = 0;
        if self.render_target {
            out = out + STATE_RENDER_TARGET;
        }
        if self.depth_write {
            out = out + STATE_DEPTH_WRITE;
        }
        if self.shader_resource {
            out = out + STATE_PIXEL_SHADER_RESOURCE;
        }
        if self.depth_read {
            out = out + STATE_DEPTH_READ;
        }
        out
    }

    /// Translates the frame-wide usage union into the device's
    /// resource-creation flags.
    pub fn into_resource_flags(self) -> (r: u32)
        ensures
            r == self.spec_resource_flags(),
    {
        let mut out: u32 = 0;
        if self.render_target {
            out = out + RESOURCE_FLAG_ALLOW_RENDER_TARGET;
        }
        if self.depth_write {
            out = out + RESOURCE_FLAG_ALLOW_DEPTH_STENCIL;
        }
        out
    }

    /// Encodes the set as a small integer for hashing.
    pub fn encode(self) -> (r: u64)
        ensures
            r == self.spec_encode(),
    {
        let mut out: u64 = 0;
        if self.render_target {
            out = out + 1;
        }
        if self.shader_resource {
            out = out + 2;
        }
        if self.depth_write {
            out = out + 4;
        }
        if self.depth_read {
            out = out + 8;
        }
        out
    }
}

} // verus!
