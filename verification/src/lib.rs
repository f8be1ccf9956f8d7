//! A software text console renderer: a scrolling window of wrapped text
//! lines, painted glyph by glyph into a raw RGBA pixel framebuffer, with
//! incremental (dirty-slot) redraw and a bounded glyph-rasterization
//! cache.
//!
//! - [`wrap`] splits appended text on line feeds and wraps each segment
//!   at the column limit.
//! - [`glyph`] rasterizes single characters through the `rusttype` font
//!   engine into cell-local coverage bitmaps.
//! - [`cache`] keeps a bounded number of those bitmaps, evicting the
//!   least recently used one.
//! - [`surface`] is the raw RGBA pixel target, addressed by stride.
//! - [`console`] ties them together: `append` wraps text into a sliding
//!   window of display lines, `paint` redraws everything after a scroll
//!   and only the freshly filled slots otherwise.
//! - [`raw_fb`], [`types`], [`result`], [`error`] and [`guard`] hold the
//!   plain value types shared with the native display glue.

pub mod cache;
pub mod console;
pub mod error;
pub mod guard;
pub mod raw_fb;
pub mod result;
pub mod surface;
pub mod types;
pub mod glyph;
pub mod wrap;
