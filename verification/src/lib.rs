//! A symmetric, lossless byte encoding for a fixed catalog of primitive and
//! vector types, intended for exchanging values between independent processes.
//!
//! Every scalar codec is fixed-width and big-endian (network byte order), so
//! the wire form of a value is identical on every host. Vector codecs
//! concatenate the fixed-width element encodings with no separators or length
//! prefix. Architecture-sized integer types are deliberately unsupported:
//! their width differs between hosts, which would break reversibility.

pub use codec::BytesConvertable;
pub use codec::DecodeError;
pub use codec::FixedWidthBytes;

pub mod be;
pub mod codec;
pub mod laws;
pub mod scalars;
pub mod text;
pub mod vectors;
pub mod words;
