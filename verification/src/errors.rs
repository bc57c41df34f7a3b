//! The codec's error taxonomy. Errors are data, not control flow: every
//! fallible operation surfaces a typed failure with enough context (offending
//! byte and position where applicable) for the caller to act on.

use vstd::prelude::*;

verus! {

/// Configuration failures while building an alphabet.
#[derive(Clone, Copy, Debug, PartialEq, Eq, Structural)]
pub enum ConfigError {
    /// The raw altchars argument was not exactly two bytes long.
    InvalidAltcharsLength,
    /// The supplied pair would not form a legal 64-symbol alphabet: the two
    /// bytes collide with each other, with one of the 62 fixed alphanumeric
    /// symbols, or with the padding character. The offending pair is carried.
    InvalidAlphabet { plus: u8, slash: u8 },
}

/// Capacity failures while sizing the encoder's output buffer.
#[derive(Clone, Copy, Debug, PartialEq, Eq, Structural)]
pub enum SizeError {
    /// The encoded length would not fit in a `usize`.
    Overflow,
}

/// Failures while decoding Base64 text.
#[derive(Clone, Copy, Debug, PartialEq, Eq, Structural)]
pub enum DecodeError {
    /// A byte that is neither an alphabet symbol nor the padding character,
    /// or a final symbol whose low bits the padding would have to cover but
    /// which are not zero.
    InvalidByte { position: usize, value: u8 },
    /// A padding character somewhere other than a legal trailing position.
    InvalidPadding,
    /// A total length that no padded encoding can have.
    InvalidLength,
}

/// Any failure of the codec's top-level operations.
#[derive(Clone, Copy, Debug, PartialEq, Eq, Structural)]
pub enum CodecError {
    Config(ConfigError),
    Size(SizeError),
    Decode(DecodeError),
}

} // verus!
