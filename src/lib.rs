//! Rendering text into RGBA images: font variants and where their files are
//! found, color and query parsing, compositing on pixel buffers, and the
//! arithmetic of laying text out on a padded canvas.

pub mod color;
pub mod font;
pub mod image;
pub mod layout;
pub mod provider;
pub mod query;
pub mod statistics;
pub mod strings;
