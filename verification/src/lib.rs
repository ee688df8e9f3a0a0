//! Turns a textual decklist into named, watermarked proxy-card images.
//!
//! The pipeline: parse the decklist into numbered card instances, resolve
//! each instance into one or more card faces, decode the artwork for each
//! face, stamp the playtest banner onto it, and hand back the raster under
//! a sanitized file name.

#![verifier::loop_isolation(false)]

pub mod card;
pub mod deck;
pub mod error;
pub mod image;
pub mod pipeline;
pub mod sanitize;
pub mod text;
