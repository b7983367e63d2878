//! A verified core for a terminal-style text renderer: a cell and cluster
//! model for styled text, a multi-font fallback shaper, a shelf-packing
//! texture atlas, and a glyph cache that guarantees one rasterization per
//! glyph key.

pub mod atlas;
pub mod bitmaps;
pub mod cell;
pub mod cellcluster;
pub mod config;
pub mod color;
pub mod fallback;
pub mod ftwrap;
pub mod glyph_atlas;
pub mod glyphcache;
pub mod line;
pub mod rasterizer;
pub mod shaper;
pub mod strutil;
pub mod unicode;
pub mod utils;
