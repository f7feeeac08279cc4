//! QR Code Model 2 symbol construction with machine-checked contracts.
//!
//! Text or bytes become segments, the segments become data codewords of
//! the smallest version that holds them, the codewords are protected by
//! Reed-Solomon error correction and placed round the function patterns
//! of the symbol, and the mask with the least penalty score is applied.

pub mod types;
pub mod grid;
pub mod penalty;
pub mod reed_solomon;
pub mod tables;
pub mod interleave;
pub mod patterns;
pub mod placement;
pub mod mask;
pub mod qrcode;
pub mod segment;
pub mod encode;
pub mod text;
pub mod render;
pub mod fancy;
pub mod style;
pub mod base64;

pub use crate::qrcode::QrCode;
pub use crate::segment::{BitBuffer, QrSegment, QrSegmentMode};
pub use crate::types::{DataTooLong, Mask, QrCodeEcc, QrError, Version};
