//! Recovery of original sources from a deployed web application's source
//! maps: discovery of script URLs in a served HTML page, derivation of the
//! companion source-map URLs, decoding of regular and indexed maps, and
//! collision-tolerant placement of the recovered sources under an output
//! root keyed by the origin host.
//!
//! The network and the filesystem stay outside this crate: callers fetch
//! bodies and perform the planned writes; everything in between is verified.

pub mod decode;
pub mod place;
pub mod plan;
pub mod discover;
pub mod text;
