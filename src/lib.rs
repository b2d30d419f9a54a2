//! Base45: a binary-to-text encoding that turns each pair of bytes into three
//! symbols (and a trailing single byte into two) of a 45-symbol alphabet.
pub mod alphabet;
pub mod codec;
pub mod laws;

pub use codec::{b45decode, b45encode, divmod, Base45DecodeError};
