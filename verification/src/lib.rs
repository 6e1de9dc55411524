//! Client-side encoder for the kitty terminal graphics protocol.
//!
//! The crate turns image bytes and command fields into framed escape
//! sequences, hands out the identifiers of the images and placements that
//! those frames create on the terminal, and checks the window size that the
//! terminal reports.

pub mod fields;
pub mod frame;
pub mod image;
pub mod payload;
pub mod registry;
pub mod text;
pub mod value;
pub mod window;
