//! Reconciliation engine for versioned machine-image metadata and named
//! configuration parameters across many regions.
//!
//! The crate holds the pure core: rendering name templates from a build
//! context, computing the minimal write-set between two keyed parameter maps,
//! folding freshly written values into a persisted snapshot, and classifying
//! expected versus actual image records.  Network and file I/O live with the
//! callers; the core takes and returns plain values.

pub mod assoc;
pub mod diff;
pub mod image;
pub mod params;
pub mod promote;
pub mod template;
pub mod validate;
