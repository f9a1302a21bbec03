//! Retained-UI presentation helpers: the compilation cache, native input
//! edges, the image cache, raster and upload
//! arithmetic, the text atlas bookkeeping, paint ordering, and the records
//! the hosts report.

pub mod images;
pub mod text_atlas;
pub mod gpu_renderer;
pub mod presentation;
pub mod cpu_renderer;
pub mod diagnostics;
pub mod quality;
pub mod compilation;
pub mod native_window;
pub mod image_textures;
pub mod native_input;
