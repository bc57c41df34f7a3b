//! Buffer sizing and the encoder: input bytes are processed in three-byte
//! groups, each emitting four alphabet symbols through the standard Base64
//! bit packing (6-bit indices read from a 24-bit accumulator, most
//! significant bits first); a trailing partial group is zero-padded
//! internally and the output `=`-padded to a multiple of four bytes.

use vstd::prelude::*;
use vstd::arithmetic::div_mod::lemma_fundamental_div_mod;
use vstd::arithmetic::div_mod::lemma_fundamental_div_mod_converse;
use crate::alphabet::Alphabet;
use crate::errors::SizeError;

verus! {

/// The four symbols encoding a full three-byte group.
pub open spec fn enc3(a: Seq<u8>, b0: u8, b1: u8, b2: u8) -> Seq<u8> {
    seq![
        a[(b0 >> 2) as int],
        a[(((b0 & 3) << 4) | (b1 >> 4)) as int],
        a[(((b1 & 15) << 2) | (b2 >> 6)) as int],
        a[(b2 & 63) as int],
    ]
}

/// A trailing two-byte group: three symbols and one padding byte.
pub open spec fn enc2(a: Seq<u8>, b0: u8, b1: u8) -> Seq<u8> {
    seq![
        a[(b0 >> 2) as int],
        a[(((b0 & 3) << 4) | (b1 >> 4)) as int],
        a[((b1 & 15) << 2) as int],
        61u8,
    ]
}

/// A trailing one-byte group: two symbols and two padding bytes.
pub open spec fn enc1(a: Seq<u8>, b0: u8) -> Seq<u8> {
    seq![
        a[(b0 >> 2) as int],
        a[((b0 & 3) << 4) as int],
        61u8,
        61u8,
    ]
}

/// The Base64 encoding of `d` over alphabet `a`. Empty input maps to empty
/// output; any other input ends in a (possibly partial, then padded) group.
pub open spec fn encode_seq(d: Seq<u8>, a: Seq<u8>) -> Seq<u8>
    decreases d.len(),
{
    if d.len() == 0 {
        Seq::empty()
    } else if d.len() == 1 {
        enc1(a, d[0])
    } else if d.len() == 2 {
        enc2(a, d[0], d[1])
    } else {
        enc3(a, d[0], d[1], d[2]) + encode_seq(d.skip(3), a)
    }
}

/// The exact encoded length of an `n`-byte input: four bytes for each
/// three-byte group, the last group padded; zero for empty input.
pub open spec fn encoded_len_spec(n: int) -> int {
    4 * (n / 3 + if n % 3 == 0 { 0int } else { 1int })
}

/// The 6-bit indices extracted from a group stay below 64, and the bits
/// that a padding byte stands in for are zero.
pub proof fn lemma_group_indices(b0: u8, b1: u8, b2: u8)
    by (bit_vector)
    ensures
        (b0 >> 2) < 64,
        (((b0 & 3) << 4) | (b1 >> 4)) < 64,
        (((b1 & 15) << 2) | (b2 >> 6)) < 64,
        (b2 & 63) < 64,
        ((b1 & 15) << 2) < 64,
        ((b0 & 3) << 4) < 64,
        ((b1 & 15) << 2) % 4 == 0,
        ((b0 & 3) << 4) % 16 == 0,
{
}

/// Encoding distributes over a split at a group boundary.
pub proof fn lemma_encode_append(d: Seq<u8>, t: Seq<u8>, a: Seq<u8>)
    requires
        d.len() % 3 == 0,
    ensures
        encode_seq(d + t, a) == encode_seq(d, a) + encode_seq(t, a),
    decreases d.len(),
{
    if d.len() == 0 {
        assert(d + t =~= t);
        assert(encode_seq(d, a) + encode_seq(t, a) =~= encode_seq(t, a));
    } else {
        let dt = d + t;
        assert(dt.skip(3) =~= d.skip(3) + t);
        lemma_encode_append(d.skip(3), t, a);
        assert(encode_seq(dt, a) =~= encode_seq(d, a) + encode_seq(t, a));
    }
}

/// The encoding of `d` is exactly `encoded_len_spec(d.len())` bytes long:
/// `4 * ceil(len / 3)`, and zero only for empty input.
pub proof fn lemma_encode_len(d: Seq<u8>, a: Seq<u8>)
    ensures
        encode_seq(d, a).len() == encoded_len_spec(d.len() as int),
        encode_seq(d, a).len() % 4 == 0,
    decreases d.len(),
{
    let n = d.len() as int;
    if d.len() == 0 {
    } else if d.len() <= 2 {
        assert(n / 3 == 0 && n % 3 != 0) by {
            lemma_fundamental_div_mod_converse(n, 3, 0, n);
        }
    } else {
        lemma_encode_len(d.skip(3), a);
        assert(n / 3 == (n - 3) / 3 + 1 && n % 3 == (n - 3) % 3) by {
            lemma_fundamental_div_mod(n - 3, 3);
            lemma_fundamental_div_mod_converse(n, 3, (n - 3) / 3 + 1, (n - 3) % 3);
        }
    }
}

/// Computes the exact encoded output length for an `input_len`-byte input,
/// detecting overflow instead of truncating.
pub fn encoded_length(input_len: usize) -> (r: Result<usize, SizeError>)
    ensures
        encoded_len_spec(input_len as int) <= usize::MAX as int ==> r == Ok::<usize, SizeError>(
            encoded_len_spec(input_len as int) as usize,
        ),
        encoded_len_spec(input_len as int) > usize::MAX as int ==> r == Err::<usize, SizeError>(
            SizeError::Overflow,
        ),
{
    proof {
        lemma_fundamental_div_mod(input_len as int, 3);
        lemma_fundamental_div_mod(usize::MAX as int, 4);
    }
    let groups = if input_len % 3 != 0 {
        input_len / 3 + 1
    } else {
        input_len / 3
    };
    if groups > usize::MAX / 4 {
        Err(SizeError::Overflow)
    } else {
        Ok(groups * 4)
    }
}

/// Encodes `input` over the given engine: the exact symbol sequence of
/// `encode_seq`, written into an output buffer sized up front.
pub fn encode(input: &[u8], engine: &Alphabet) -> (r: Vec<u8>)
    ensures
        r@ == encode_seq(input@, engine@),
{
    let n = input.len();
    let mut out: Vec<u8> = match encoded_length(n) {
        Ok(size) => Vec::with_capacity(size),
        Err(_) => Vec::new(),
    };
    let mut i: usize = 0;
    while n - i >= 3
        invariant
            i <= n,
            i % 3 == 0,
            n == input@.len(),
            out@ == encode_seq(input@.take(i as int), engine@),
        decreases n - i,
    {
        let b0 = input[i];
        let b1 = input[i + 1];
        let b2 = input[i + 2];
        proof {
            lemma_group_indices(b0, b1, b2);
        }
        let s0 = engine.symbol(b0 >> 2);
        let s1 = engine.symbol(((b0 & 3) << 4) | (b1 >> 4));
        let s2 = engine.symbol(((b1 & 15) << 2) | (b2 >> 6));
        let s3 = engine.symbol(b2 & 63);
        out.push(s0);
        out.push(s1);
        out.push(s2);
        out.push(s3);
        proof {
            let d = input@.take(i as int);
            let g = input@.subrange(i as int, i as int + 3);
            assert(input@.take(i as int + 3) =~= d + g);
            lemma_encode_append(d, g, engine@);
            assert(g.len() == 3 && g[0] == b0 && g[1] == b1 && g[2] == b2);
            assert(g.skip(3) =~= Seq::<u8>::empty());
            assert(encode_seq(g.skip(3), engine@) =~= Seq::<u8>::empty());
            assert(encode_seq(g, engine@) =~= enc3(engine@, b0, b1, b2));
            assert(out@ =~= encode_seq(input@.take(i as int + 3), engine@));
        }
        i = i + 3;
    }
    let rem = n - i;
    if rem == 1 {
        let b0 = input[i];
        proof {
            lemma_group_indices(b0, 0, 0);
        }
        let s0 = engine.symbol(b0 >> 2);
        let s1 = engine.symbol((b0 & 3) << 4);
        out.push(s0);
        out.push(s1);
        out.push(61);
        out.push(61);
    } else if rem == 2 {
        let b0 = input[i];
        let b1 = input[i + 1];
        proof {
            lemma_group_indices(b0, b1, 0);
        }
        let s0 = engine.symbol(b0 >> 2);
        let s1 = engine.symbol(((b0 & 3) << 4) | (b1 >> 4));
        let s2 = engine.symbol((b1 & 15) << 2);
        out.push(s0);
        out.push(s1);
        out.push(s2);
        out.push(61);
    }
    proof {
        let d = input@.take(i as int);
        let t = input@.skip(i as int);
        assert(input@ =~= d + t);
        lemma_encode_append(d, t, engine@);
        assert(out@ =~= encode_seq(input@, engine@));
    }
    out
}

} // verus!
