//! A miniature style-and-layout engine: CSS selector matching, the style
//! cascade, block layout-box construction with anonymous-box insertion, the
//! CSS block width/position/height constraint solver, and rasterisation of
//! the resulting boxes into a pixel canvas.
//!
//! All pixel quantities are whole pixels, carried as `i64`.

pub mod css;
pub mod dom;
pub mod layout;
pub mod painting;
pub mod strutil;
pub mod style;
