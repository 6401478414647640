//! The core of a viewer that puts free-text notes on the pages of a PDF
//! document: the notes and how they are read from and written into the
//! document, the coordinates of page and view, and the decisions behind the
//! background work, the search and the thumbnails.
//!
//! Lengths are integers, in thousandths of a unit. The document itself is
//! handled by the `lopdf` library, which this crate calls at the boundary
//! that the module `pdf` draws.

pub mod annotations;
pub mod engine;
pub mod ids;
pub mod pdf;
pub mod pipeline;
pub mod roundtrip;
pub mod search;
pub mod style;
pub mod thumbnails;
pub mod transform;
pub mod units;
pub mod writer;
