//! Progressive raster engine for an escape-time fractal explorer.
//!
//! The explorer pans and zooms without end, and a full frame at deep zoom
//! takes long to compute. This crate holds the integer side of the engine
//! that keeps the picture alive in the meantime:
//!
//! - [`pixel`]: the transforms that move, resample and resize computed
//!   pixels, so that only what a pan, zoom step or resize newly exposes has
//!   to be computed again;
//! - [`raster`]: the shared buffer, the tickets by which workers claim rows,
//!   and the rule by which a row computed for an outdated view is dropped;
//! - [`interlace`]: the order in which rows are handed out;
//! - [`precision`]: how many bits the viewport needs at a zoom depth;
//! - [`layout`] and [`row`]: sizes of the raster and the packing of a row.
//!
//! [`round_trip`], [`commit_safety`], [`history`] and [`pass`] prove what
//! these promise together. Floating-point work, threads and the window live with the caller.
//!
//! Contracts speak of a raster as a sequence of bytes and of the buffer as
//! a plain record of its fields.

pub mod commit_safety;
pub mod history;
pub mod interlace;
pub mod layout;
pub mod pass;
pub mod pixel;
pub mod precision;
pub mod raster;
pub mod round_trip;
pub mod row;

pub use pixel::{extend_buffer, scale_rect, translate_rect, Point32, ScaleDirection, Size32};
