//! Hides a byte payload in the pixel data of an uncompressed BMP image and
//! recovers it.
//!
//! - `bits`: the payload's bit stream, its cursor, and how bits pack into bytes.
//! - `pixel`: three- and four-channel pixel views over raw bytes.
//! - `traversal`: the orders in which pixel coordinates are visited.
//! - `geometry`: where pixels lie in a buffer; the library's errors.
//! - `engine`: least-significant-bit embedding and extraction, with the
//!   round-trip, header and channel laws.
//! - `parity`: the parity embedding, one bit per pixel.
//! - `bmp`: the BMP headers, the parser and the in-memory image.
//! - `encoding`: the encodings and methods a caller picks, and the container
//!   interface.
pub mod bits;
pub mod pixel;
pub mod traversal;
pub mod geometry;
pub mod engine;
pub mod bmp;
pub mod encoding;
pub mod parity;
