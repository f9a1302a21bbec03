//! Backend-neutral resource handles.
//!
//! A handle is an index into a residency arena together with the generation
//! of the slot it was issued for. Generation zero never names a resource.

use vstd::prelude::*;

verus! {

/// Common view of every typed handle, used by the residency arenas.
pub trait GraphicsHandle: Sized + Copy {
    /// Index of the arena slot the handle refers to.
    spec fn handle_index(&self) -> u32;

    /// Generation of the slot at the time the handle was issued.
    spec fn handle_generation(&self) -> u32;

    fn from_parts(index: u32, generation: u32) -> (handle: Self)
        ensures
            handle.handle_index() == index,
            handle.handle_generation() == generation,
    ;

    fn index(self) -> (index: u32)
        ensures
            index == self.handle_index(),
    ;

    fn generation(self) -> (generation: u32)
        ensures
            generation == self.handle_generation(),
    ;
}

/// A backend-neutral GPU buffer handle.
#[derive(Debug, Clone, Copy, PartialEq, Eq, Structural, Hash)]
pub struct BufferHandle {
    index: u32,
    generation: u32,
}

impl BufferHandle {
    /// The handle that names no resource: index `u32::MAX`, generation 0.
    pub fn invalid() -> (handle: Self)
        ensures
            handle.handle_index() == u32::MAX,
            handle.handle_generation() == 0,
    {
        BufferHandle { index: u32::MAX, generation: 0 }
    }

    pub fn new(index: u32, generation: u32) -> (handle: Self)
        ensures
            handle.handle_index() == index,
            handle.handle_generation() == generation,
    {
        BufferHandle { index, generation }
    }

    pub fn index(self) -> (index: u32)
        ensures
            index == self.handle_index(),
    {
        self.index
    }

    pub fn generation(self) -> (generation: u32)
        ensures
            generation == self.handle_generation(),
    {
        self.generation
    }

    /// A handle names a resource only when it has a real index and a
    /// generation other than zero.
    pub fn is_valid(self) -> (valid: bool)
        ensures
            valid == (self.handle_index() != u32::MAX && self.handle_generation() != 0),
    {
        self.index != u32::MAX && self.generation != 0
    }
}

impl Default for BufferHandle {
    fn default() -> (handle: Self)
        ensures
            handle.handle_index() == u32::MAX,
            handle.handle_generation() == 0,
    {
        Self::invalid()
    }
}

impl GraphicsHandle for BufferHandle {
    closed spec fn handle_index(&self) -> u32 {
        self.index
    }

    closed spec fn handle_generation(&self) -> u32 {
        self.generation
    }

    fn from_parts(index: u32, generation: u32) -> (handle: Self) {
        BufferHandle { index, generation }
    }

    fn index(self) -> (index: u32) {
        self.index
    }

    fn generation(self) -> (generation: u32) {
        self.generation
    }
}

/// A backend-neutral GPU texture handle.
#[derive(Debug, Clone, Copy, PartialEq, Eq, Structural, Hash)]
pub struct TextureHandle {
    index: u32,
    generation: u32,
}

impl TextureHandle {
    /// The handle that names no resource: index `u32::MAX`, generation 0.
    pub fn invalid() -> (handle: Self)
        ensures
            handle.handle_index() == u32::MAX,
            handle.handle_generation() == 0,
    {
        TextureHandle { index: u32::MAX, generation: 0 }
    }

    pub fn new(index: u32, generation: u32) -> (handle: Self)
        ensures
            handle.handle_index() == index,
            handle.handle_generation() == generation,
    {
        TextureHandle { index, generation }
    }

    pub fn index(self) -> (index: u32)
        ensures
            index == self.handle_index(),
    {
        self.index
    }

    pub fn generation(self) -> (generation: u32)
        ensures
            generation == self.handle_generation(),
    {
        self.generation
    }

    /// A handle names a resource only when it has a real index and a
    /// generation other than zero.
    pub fn is_valid(self) -> (valid: bool)
        ensures
            valid == (self.handle_index() != u32::MAX && self.handle_generation() != 0),
    {
        self.index != u32::MAX && self.generation != 0
    }
}

impl Default for TextureHandle {
    fn default() -> (handle: Self)
        ensures
            handle.handle_index() == u32::MAX,
            handle.handle_generation() == 0,
    {
        Self::invalid()
    }
}

impl GraphicsHandle for TextureHandle {
    closed spec fn handle_index(&self) -> u32 {
        self.index
    }

    closed spec fn handle_generation(&self) -> u32 {
        self.generation
    }

    fn from_parts(index: u32, generation: u32) -> (handle: Self) {
        TextureHandle { index, generation }
    }

    fn index(self) -> (index: u32) {
        self.index
    }

    fn generation(self) -> (generation: u32) {
        self.generation
    }
}

/// A backend-neutral sampler handle.
#[derive(Debug, Clone, Copy, PartialEq, Eq, Structural, Hash)]
pub struct SamplerHandle {
    index: u32,
    generation: u32,
}

impl SamplerHandle {
    /// The handle that names no resource: index `u32::MAX`, generation 0.
    pub fn invalid() -> (handle: Self)
        ensures
            handle.handle_index() == u32::MAX,
            handle.handle_generation() == 0,
    {
        SamplerHandle { index: u32::MAX, generation: 0 }
    }

    pub fn new(index: u32, generation: u32) -> (handle: Self)
        ensures
            handle.handle_index() == index,
            handle.handle_generation() == generation,
    {
        SamplerHandle { index, generation }
    }

    pub fn index(self) -> (index: u32)
        ensures
            index == self.handle_index(),
    {
        self.index
    }

    pub fn generation(self) -> (generation: u32)
        ensures
            generation == self.handle_generation(),
    {
        self.generation
    }

    /// A handle names a resource only when it has a real index and a
    /// generation other than zero.
    pub fn is_valid(self) -> (valid: bool)
        ensures
            valid == (self.handle_index() != u32::MAX && self.handle_generation() != 0),
    {
        self.index != u32::MAX && self.generation != 0
    }
}

impl Default for SamplerHandle {
    fn default() -> (handle: Self)
        ensures
            handle.handle_index() == u32::MAX,
            handle.handle_generation() == 0,
    {
        Self::invalid()
    }
}

impl GraphicsHandle for SamplerHandle {
    closed spec fn handle_index(&self) -> u32 {
        self.index
    }

    closed spec fn handle_generation(&self) -> u32 {
        self.generation
    }

    fn from_parts(index: u32, generation: u32) -> (handle: Self) {
        SamplerHandle { index, generation }
    }

    fn index(self) -> (index: u32) {
        self.index
    }

    fn generation(self) -> (generation: u32) {
        self.generation
    }
}

/// A backend-neutral graphics or compute pipeline handle.
#[derive(Debug, Clone, Copy, PartialEq, Eq, Structural, Hash)]
pub struct PipelineHandle {
    index: u32,
    generation: u32,
}

impl PipelineHandle {
    /// The handle that names no resource: index `u32::MAX`, generation 0.
    pub fn invalid() -> (handle: Self)
        ensures
            handle.handle_index() == u32::MAX,
            handle.handle_generation() == 0,
    {
        PipelineHandle { index: u32::MAX, generation: 0 }
    }

    pub fn new(index: u32, generation: u32) -> (handle: Self)
        ensures
            handle.handle_index() == index,
            handle.handle_generation() == generation,
    {
        PipelineHandle { index, generation }
    }

    pub fn index(self) -> (index: u32)
        ensures
            index == self.handle_index(),
    {
        self.index
    }

    pub fn generation(self) -> (generation: u32)
        ensures
            generation == self.handle_generation(),
    {
        self.generation
    }

    /// A handle names a resource only when it has a real index and a
    /// generation other than zero.
    pub fn is_valid(self) -> (valid: bool)
        ensures
            valid == (self.handle_index() != u32::MAX && self.handle_generation() != 0),
    {
        self.index != u32::MAX && self.generation != 0
    }
}

impl Default for PipelineHandle {
    fn default() -> (handle: Self)
        ensures
            handle.handle_index() == u32::MAX,
            handle.handle_generation() == 0,
    {
        Self::invalid()
    }
}

impl GraphicsHandle for PipelineHandle {
    closed spec fn handle_index(&self) -> u32 {
        self.index
    }

    closed spec fn handle_generation(&self) -> u32 {
        self.generation
    }

    fn from_parts(index: u32, generation: u32) -> (handle: Self) {
        PipelineHandle { index, generation }
    }

    fn index(self) -> (index: u32) {
        self.index
    }

    fn generation(self) -> (generation: u32) {
        self.generation
    }
}

/// A backend-neutral mesh residency handle.
#[derive(Debug, Clone, Copy, PartialEq, Eq, Structural, Hash)]
pub struct MeshHandle {
    index: u32,
    generation: u32,
}

impl MeshHandle {
    /// The handle that names no resource: index `u32::MAX`, generation 0.
    pub fn invalid() -> (handle: Self)
        ensures
            handle.handle_index() == u32::MAX,
            handle.handle_generation() == 0,
    {
        MeshHandle { index: u32::MAX, generation: 0 }
    }

    pub fn new(index: u32, generation: u32) -> (handle: Self)
        ensures
            handle.handle_index() == index,
            handle.handle_generation() == generation,
    {
        MeshHandle { index, generation }
    }

    pub fn index(self) -> (index: u32)
        ensures
            index == self.handle_index(),
    {
        self.index
    }

    pub fn generation(self) -> (generation: u32)
        ensures
            generation == self.handle_generation(),
    {
        self.generation
    }

    /// A handle names a resource only when it has a real index and a
    /// generation other than zero.
    pub fn is_valid(self) -> (valid: bool)
        ensures
            valid == (self.handle_index() != u32::MAX && self.handle_generation() != 0),
    {
        self.index != u32::MAX && self.generation != 0
    }
}

impl Default for MeshHandle {
    fn default() -> (handle: Self)
        ensures
            handle.handle_index() == u32::MAX,
            handle.handle_generation() == 0,
    {
        Self::invalid()
    }
}

impl GraphicsHandle for MeshHandle {
    closed spec fn handle_index(&self) -> u32 {
        self.index
    }

    closed spec fn handle_generation(&self) -> u32 {
        self.generation
    }

    fn from_parts(index: u32, generation: u32) -> (handle: Self) {
        MeshHandle { index, generation }
    }

    fn index(self) -> (index: u32) {
        self.index
    }

    fn generation(self) -> (generation: u32) {
        self.generation
    }
}

/// A backend-neutral material residency handle.
#[derive(Debug, Clone, Copy, PartialEq, Eq, Structural, Hash)]
pub struct MaterialHandle {
    index: u32,
    generation: u32,
}

impl MaterialHandle {
    /// The handle that names no resource: index `u32::MAX`, generation 0.
    pub fn invalid() -> (handle: Self)
        ensures
            handle.handle_index() == u32::MAX,
            handle.handle_generation() == 0,
    {
        MaterialHandle { index: u32::MAX, generation: 0 }
    }

    pub fn new(index: u32, generation: u32) -> (handle: Self)
        ensures
            handle.handle_index() == index,
            handle.handle_generation() == generation,
    {
        MaterialHandle { index, generation }
    }

    pub fn index(self) -> (index: u32)
        ensures
            index == self.handle_index(),
    {
        self.index
    }

    pub fn generation(self) -> (generation: u32)
        ensures
            generation == self.handle_generation(),
    {
        self.generation
    }

    /// A handle names a resource only when it has a real index and a
    /// generation other than zero.
    pub fn is_valid(self) -> (valid: bool)
        ensures
            valid == (self.handle_index() != u32::MAX && self.handle_generation() != 0),
    {
        self.index != u32::MAX && self.generation != 0
    }
}

impl Default for MaterialHandle {
    fn default() -> (handle: Self)
        ensures
            handle.handle_index() == u32::MAX,
            handle.handle_generation() == 0,
    {
        Self::invalid()
    }
}

impl GraphicsHandle for MaterialHandle {
    closed spec fn handle_index(&self) -> u32 {
        self.index
    }

    closed spec fn handle_generation(&self) -> u32 {
        self.generation
    }

    fn from_parts(index: u32, generation: u32) -> (handle: Self) {
        MaterialHandle { index, generation }
    }

    fn index(self) -> (index: u32) {
        self.index
    }

    fn generation(self) -> (generation: u32) {
        self.generation
    }
}

/// A backend-neutral presentation surface handle.
#[derive(Debug, Clone, Copy, PartialEq, Eq, Structural, Hash)]
pub struct SurfaceHandle {
    index: u32,
    generation: u32,
}

impl SurfaceHandle {
    /// The handle that names no resource: index `u32::MAX`, generation 0.
    pub fn invalid() -> (handle: Self)
        ensures
            handle.handle_index() == u32::MAX,
            handle.handle_generation() == 0,
    {
        SurfaceHandle { index: u32::MAX, generation: 0 }
    }

    pub fn new(index: u32, generation: u32) -> (handle: Self)
        ensures
            handle.handle_index() == index,
            handle.handle_generation() == generation,
    {
        SurfaceHandle { index, generation }
    }

    pub fn index(self) -> (index: u32)
        ensures
            index == self.handle_index(),
    {
        self.index
    }

    pub fn generation(self) -> (generation: u32)
        ensures
            generation == self.handle_generation(),
    {
        self.generation
    }

    /// A handle names a resource only when it has a real index and a
    /// generation other than zero.
    pub fn is_valid(self) -> (valid: bool)
        ensures
            valid == (self.handle_index() != u32::MAX && self.handle_generation() != 0),
    {
        self.index != u32::MAX && self.generation != 0
    }
}

impl Default for SurfaceHandle {
    fn default() -> (handle: Self)
        ensures
            handle.handle_index() == u32::MAX,
            handle.handle_generation() == 0,
    {
        Self::invalid()
    }
}

impl GraphicsHandle for SurfaceHandle {
    closed spec fn handle_index(&self) -> u32 {
        self.index
    }

    closed spec fn handle_generation(&self) -> u32 {
        self.generation
    }

    fn from_parts(index: u32, generation: u32) -> (handle: Self) {
        SurfaceHandle { index, generation }
    }

    fn index(self) -> (index: u32) {
        self.index
    }

    fn generation(self) -> (generation: u32) {
        self.generation
    }
}

} // verus!
