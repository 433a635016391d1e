//! Decoding of Motorola S-record text into the bytes it carries.
//!
//! An S-record line is `S`, a type digit, a two-digit hexadecimal byte count,
//! an address whose width depends on the type, the payload, and a checksum
//! byte. [`record::decode`] turns one such line into a label (type 0), the
//! payload bytes (types 1 to 3), or nothing (every other type).
//! [`convert::convert`] does so for the lines of a whole file and joins the
//! payloads in line order. The checksum is carried but never verified, and
//! the address is never used to place the bytes. [`encoding`] describes the
//! lines that an encoder writes and proves that decoding them gives back the
//! bytes that went in.

pub mod error;
pub mod hex;
pub mod record;
pub mod convert;
pub mod encoding;
