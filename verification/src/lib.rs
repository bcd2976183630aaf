//! A minimal numeric/text conversion layer for freestanding programs.
//!
//! The crate parses wide-character (UTF-16 code unit) numeric text into
//! signed integers, and decodes a single UTF-8 scalar into one UTF-16 code
//! unit.  Everything operates on explicitly bounded slices; no heap
//! allocation and no platform services are needed.

/// Single-scalar UTF-8 to UTF-16 decoding.
pub mod decode;
/// Plain data models of the firmware interface tables.
pub mod efi;
/// Wide-string numeric parsing: classification, accumulation, base detection.
pub mod parse;
