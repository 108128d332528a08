//! Decoding of the contributor module's message payloads: a discriminant byte,
//! a fixed header, and bounds-checked accessors for the remaining fields,
//! including a repeated list of accepted-token records whose length shifts the
//! offsets of every field that follows it.
pub mod bytes;
pub mod messages;
pub mod laws;
