//! Finds the word under a screen point in an OCR layout and turns dictionary
//! records into one canonical entry shape.
pub mod geometry;
pub mod text;
pub mod locate;
pub mod dict;
pub mod json;
pub mod entry;
pub mod resolve;
