//! Reading, checking and re-ordering cartridge ROM images of the N64 console.
//!
//! A ROM image is a 64-byte header, a 4032-byte boot loader (IPL3) and a
//! program payload. Images are stored in one of three byte orders; this crate
//! detects the order, converts between orders (in place or through buffered
//! streams), and computes the two boot checksums stored in the header.

pub mod bytes;
pub mod convert;
pub mod header;
pub mod ipl3;
pub mod rom;
pub mod stream;
