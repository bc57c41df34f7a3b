//! A configurable Base64 codec: encoding byte sequences into Base64 text and
//! decoding Base64 text back into bytes, with support for substituting the
//! two non-alphanumeric symbols (`+` and `/`) of the standard alphabet, and
//! with a strict-validating and a permissive-filtering decoding mode.
//! Padding with `=` is always applied.

use vstd::prelude::*;

mod altchars;
mod alphabet;
mod decode;
mod encode;
mod errors;
mod roundtrip;

pub use crate::altchars::Altchars;
pub use crate::alphabet::Alphabet;
pub use crate::alphabet::build_alphabet;
pub use crate::decode::decode;
pub use crate::encode::encode;
pub use crate::encode::encoded_length;
pub use crate::errors::CodecError;
pub use crate::errors::ConfigError;
pub use crate::errors::DecodeError;
pub use crate::errors::SizeError;

use crate::altchars::effective_altchars;
use crate::alphabet::alpha_seq;
use crate::alphabet::altchars_legal;
use crate::alphabet::lemma_standard_legal;
use crate::alphabet::std_alpha;
use crate::decode::filter_kept;
use crate::decode::strict_decode_matches;
use crate::encode::encode_seq;
use crate::encode::encoded_len_spec;

verus! {

/// Encodes `data` under the alphabet of the given altchars pair, or the
/// standard alphabet when none is given. Fails on a pair that forms no
/// legal alphabet, and on an input so large that the encoded length would
/// not fit in a `usize`.
pub fn b64encode(data: &[u8], altchars: Option<Altchars>) -> (r: Result<Vec<u8>, CodecError>)
    ensures
        ({
            let ac = effective_altchars(altchars);
            &&& !altchars_legal(ac) ==> r == Err::<Vec<u8>, CodecError>(CodecError::Config(
                ConfigError::InvalidAlphabet { plus: ac.plus, slash: ac.slash },
            ))
            &&& altchars_legal(ac) && encoded_len_spec(data@.len() as int) > usize::MAX as int
                ==> r == Err::<Vec<u8>, CodecError>(CodecError::Size(SizeError::Overflow))
            &&& altchars_legal(ac) && encoded_len_spec(data@.len() as int) <= usize::MAX as int
                ==> r is Ok && r->Ok_0@ == encode_seq(data@, alpha_seq(ac))
        }),
{
    proof {
        lemma_standard_legal();
    }
    let engine = match build_alphabet(altchars) {
        Ok(e) => e,
        Err(e) => {
            return Err(CodecError::Config(e));
        },
    };
    match encoded_length(data.len()) {
        Ok(_) => {},
        Err(e) => {
            return Err(CodecError::Size(e));
        },
    }
    Ok(encode(data, &engine))
}

/// Decodes `data` under the alphabet of the given altchars pair, or the
/// standard alphabet when none is given. `validate` selects strict
/// decoding (any byte outside the stream fails) over permissive decoding
/// (bytes outside the alphabet are dropped first); what remains must be
/// structurally valid either way.
pub fn b64decode(data: &[u8], altchars: Option<Altchars>, validate: bool) -> (r: Result<
    Vec<u8>,
    CodecError,
>)
    ensures
        ({
            let ac = effective_altchars(altchars);
            let a = alpha_seq(ac);
            let t = if validate {
                data@
            } else {
                filter_kept(data@, a)
            };
            &&& !altchars_legal(ac) ==> r == Err::<Vec<u8>, CodecError>(CodecError::Config(
                ConfigError::InvalidAlphabet { plus: ac.plus, slash: ac.slash },
            ))
            &&& altchars_legal(ac) ==> match r {
                Ok(v) => strict_decode_matches(t, a, Ok(v@)),
                Err(ce) => ce is Decode && strict_decode_matches(t, a, Err(ce->Decode_0)),
            }
        }),
{
    proof {
        lemma_standard_legal();
    }
    let engine = match build_alphabet(altchars) {
        Ok(e) => e,
        Err(e) => {
            return Err(CodecError::Config(e));
        },
    };
    match decode(data, &engine, validate) {
        Ok(v) => Ok(v),
        Err(e) => Err(CodecError::Decode(e)),
    }
}

/// Standard-alphabet encoding with a trailing newline terminator appended
/// (unlike `b64encode`, which emits no terminator).
pub fn encodebytes(data: &[u8]) -> (r: Result<Vec<u8>, CodecError>)
    ensures
        encoded_len_spec(data@.len() as int) <= usize::MAX as int ==> r is Ok && r->Ok_0@
            == encode_seq(data@, std_alpha()) + seq![10u8],
        encoded_len_spec(data@.len() as int) > usize::MAX as int ==> r == Err::<
            Vec<u8>,
            CodecError,
        >(CodecError::Size(SizeError::Overflow)),
{
    proof {
        lemma_standard_legal();
    }
    match b64encode(data, None) {
        Ok(v) => {
            let mut v = v;
            v.push(10);
            proof {
                assert(v@ =~= encode_seq(data@, std_alpha()) + seq![10u8]);
            }
            Ok(v)
        },
        Err(e) => Err(e),
    }
}

} // verus!
