//! Converts indexed-colour PNG images into planar IFF ILBM bitmaps.
//!
//! `image` holds the bitmap record and its byte encoding, `convert` builds a
//! record from a decoded PNG, and `laws` states properties that relate them.
pub mod convert;
pub mod image;
pub mod laws;
