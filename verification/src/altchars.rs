//! The altchars pair: two bytes that replace the `+` and `/` symbols of the
//! standard Base64 alphabet. Constructed once per call from caller input,
//! immutable, consumed to build an alphabet.

use vstd::prelude::*;
use crate::errors::ConfigError;

verus! {

/// An ordered pair of substitute symbols: `plus` takes the place of `+`
/// (symbol 62) and `slash` the place of `/` (symbol 63).
#[derive(Clone, Copy, Debug, PartialEq, Eq, Structural)]
pub struct Altchars {
    pub plus: u8,
    pub slash: u8,
}

/// The standard pair, `+` and `/`.
pub open spec fn standard_altchars() -> Altchars {
    Altchars { plus: 43, slash: 47 }
}

/// The pair a call works under: the supplied one, or the standard pair
/// when none is supplied.
pub open spec fn effective_altchars(o: Option<Altchars>) -> Altchars {
    match o {
        Some(ac) => ac,
        None => standard_altchars(),
    }
}

impl Altchars {
    pub fn new(plus: u8, slash: u8) -> (r: Self)
        ensures
            r == (Altchars { plus, slash }),
    {
        Altchars { plus, slash }
    }

    /// The pair of standard Base64 encoding, equivalent to
    /// `Altchars::new(b'+', b'/')`.
    pub fn default() -> (r: Self)
        ensures
            r == standard_altchars(),
    {
        Altchars { plus: 43, slash: 47 }
    }

    /// The byte standing in for `+`.
    pub fn plus(&self) -> (r: u8)
        ensures
            r == self.plus,
    {
        self.plus
    }

    /// The byte standing in for `/`.
    pub fn slash(&self) -> (r: u8)
        ensures
            r == self.slash,
    {
        self.slash
    }

    /// Builds the pair from a raw byte string, which must be exactly two
    /// bytes long.
    pub fn from_bytes(bytes: &[u8]) -> (r: Result<Self, ConfigError>)
        ensures
            bytes@.len() == 2 ==> r == Ok::<Altchars, ConfigError>(Altchars {
                plus: bytes@[0],
                slash: bytes@[1],
            }),
            bytes@.len() != 2 ==> r == Err::<Altchars, ConfigError>(
                ConfigError::InvalidAltcharsLength,
            ),
    {
        if bytes.len() == 2 {
            Ok(Altchars { plus: bytes[0], slash: bytes[1] })
        } else {
            Err(ConfigError::InvalidAltcharsLength)
        }
    }
}

} // verus!
