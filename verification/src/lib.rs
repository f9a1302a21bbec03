//! Backend-neutral graphics bookkeeping: resource handles, budgeted
//! residency arenas, frame pacing decisions and retained-UI raster helpers.

pub mod abstraction;
pub mod canvas_presenter;
pub mod capabilities;
pub mod device;
pub mod frame_scheduler;
pub mod handles;
pub mod mesh_cache;
pub mod pipeline;
pub mod resource_registry;
pub mod ui_surface;

use vstd::prelude::*;

verus! {

} // verus!
