//! Text selection over a laid-out document tree, and preparation of e-mail
//! HTML for rendering.
//!
//! The selection engine maps pointer positions to code points of text
//! leaves ([`hit`]), puts two such endpoints into document order
//! ([`order`], [`document_order`]), and computes the highlight rectangles and
//! the text between them ([`rect`], [`selection`]). It reads the tree through
//! [`document`] and walks it with [`walker`] and [`closest`]. All lengths are
//! integers in sub-pixel units ([`geometry`]); text is measured by a function
//! that the caller provides ([`measure`]).
//!
//! The [`email`] module decodes, rewrites and sanitizes e-mail markup and
//! resolves the images it refers to. [`pixel`] and [`transform`] hold the
//! integer and text parts of a pixel-buffer renderer, [`types`] the plain
//! values shared with a rendering engine.

pub mod geometry;
pub mod types;

pub mod document;
pub mod text;
pub mod walker;

pub mod measure;
pub mod order;
pub mod document_order;

pub mod layout;
pub mod closest;
pub mod hit;
pub mod rect;
pub mod selection;

pub mod email;
pub mod pixel;
pub mod transform;

pub use crate::document::{Document, Element};
pub use crate::geometry::Position;
pub use crate::types::{
    BorderStyle,
    Color,
    ColorSpace,
    HueInterpolation,
    MediaType,
    MouseEvent,
    TextDecorationStyle,
    TextTransform,
};
