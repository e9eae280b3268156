//! A schema-driven binary decoder.
//!
//! The wire carries no type tags beyond lengths, variant indices and option tags, so the caller
//! names the [`Shape`] it expects and a [`Deserializer`] pulls exactly the bytes that shape
//! implies: fixed-width numbers in a byte order chosen per session, one- or five-byte lengths,
//! UTF-8 scalars and strings, and nested options, sequences, maps, tuples and enums. Every read
//! is charged against a [`SizeLimit`] before it happens, and every failure is a [`DecodeError`].
//!
//! Each decoding function is proved against the model in `model`: a session state and spec
//! functions that say, byte by byte, what each shape reads. `laws` and `round_trip` prove
//! properties of that model, among them that decoding the wire form of a value gives it back.

pub mod de;
pub mod error;
pub mod laws;
pub mod limit;
pub mod mesh_loader;
pub mod model;
pub mod round_trip;
pub mod text;
pub mod value;
pub mod wire;

pub use error::{DecodeError, Invalid};
pub use limit::SizeLimit;
pub use wire::{utf8_char_width, Endianness};
pub use value::{Shape, Val, Value};
pub use de::Deserializer;
pub use mesh_loader::{LoadError, MeshLoader};
