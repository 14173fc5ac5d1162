//! Glyph rasterization cache, texture-atlas shelf packing and instanced draw batching
//! for a GPU text renderer.
//!
//! The library decides where glyph bitmaps go, which glyphs are cached, and which
//! draw records are flushed together; it hands plain values to the GPU layer, which
//! performs the uploads and draw calls.
pub mod font;
pub mod atlas;
pub mod glyph_cache;
pub mod batch;
pub mod renderer;
pub mod content;
pub mod shader;
