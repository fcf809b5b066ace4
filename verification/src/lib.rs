//! Verified core of the blinc application layer: the hot-reload
//! bookkeeping, the render-side cache registries and the text-level
//! rewriting that the renderer performs on SVG sources.

pub mod images;
pub mod hot_reload;
pub mod bytes;
pub mod svg_source;
pub mod canvas;
pub mod layer_cache;
pub mod debug_mode;
pub mod fonts;
pub mod cache_stats;
pub mod element_routing;
pub mod mesh_dispatch;
pub mod image_fade;
pub mod image_cache;
