//! Codec for the Logic World binary save format.
//!
//! The library decodes a byte stream into an in-memory model of a saved
//! world (versions, a component-type dictionary, placed components with
//! typed custom payloads, wires, and a global state bit buffer), lets a
//! caller mutate that model through allocator and dictionary methods, and
//! re-encodes it. Decode and encode are verified against a common
//! byte-level specification, and a round-trip theorem shows that decoding
//! an encoded well-formed model gives the model back.

pub mod decode;
pub mod encode;
pub mod err;
pub mod laws;
pub mod model;
pub mod prim;
pub mod utf8;

pub use err::SaveError;
