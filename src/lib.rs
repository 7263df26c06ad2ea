//! Codec for 8- and 16-bit truecolor-with-alpha PNG images: scanline
//! filtering and reconstruction, plane splitting and packing, and the
//! chunked container framing, each with a machine-checked contract.
#![allow(non_camel_case_types)]

pub mod adapters;
pub mod bytes;
pub mod codec;
pub mod container;
pub mod error;
pub mod filter;
pub mod planes;
pub mod scanline;
pub mod tags;
