//! Base64 with the standard alphabet: an encoder, and a decoder with a strict
//! and a forgiving mode.

pub mod alphabet;
pub mod text;
mod engine;
pub mod codec;
pub mod laws;
pub mod shape;

pub use codec::{rs_base64_decode, rs_base64_encode, strip_whitespace, Base64DecodeOptions};
