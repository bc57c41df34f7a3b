//! The laws that tie the encoder and the decoder together: every encoding
//! decodes strictly back to its input, under the standard alphabet and under
//! every legal altchars pair; permissive decoding recovers the input from an
//! encoding with noise interspersed; strict decoding rejects any noise with
//! an invalid-byte error; and the padding of an encoding is determined by
//! the input length alone.

use vstd::prelude::*;
use vstd::arithmetic::div_mod::lemma_fundamental_div_mod;
use vstd::arithmetic::div_mod::lemma_fundamental_div_mod_converse;
use crate::altchars::Altchars;
use crate::altchars::standard_altchars;
use crate::alphabet::alpha_seq;
use crate::alphabet::in_alpha;
use crate::alphabet::is_b64_alphabet;
use crate::alphabet::lemma_sym_val_in_alpha;
use crate::alphabet::lemma_sym_val_of_index;
use crate::alphabet::std_alpha;
use crate::alphabet::sym_val;
use crate::decode::dec4;
use crate::decode::decode_full;
use crate::decode::decoded;
use crate::decode::filter_kept;
use crate::decode::first_noise;
use crate::decode::has_noise;
use crate::decode::lemma_decode_full_append;
use crate::decode::lemma_first_noise_props;
use crate::decode::misplaced_pad;
use crate::decode::noise_at;
use crate::decode::pad_len;
use crate::decode::strict_ok;
use crate::decode::tail_ok;
use crate::encode::enc1;
use crate::encode::enc2;
use crate::encode::enc3;
use crate::encode::encode_seq;
use crate::encode::lemma_encode_len;
use crate::encode::lemma_group_indices;

verus! {

/// Packing one byte into two symbol values and unpacking it returns the
/// byte.
proof fn lemma_pack_unpack1(b0: u8)
    by (bit_vector)
    ensures
        (((b0 >> 2) << 2) | (((b0 & 3) << 4) >> 4)) == b0,
{
}

/// Packing two bytes into three symbol values and unpacking them returns
/// the bytes.
proof fn lemma_pack_unpack2(b0: u8, b1: u8)
    by (bit_vector)
    ensures
        (((b0 >> 2) << 2) | ((((b0 & 3) << 4) | (b1 >> 4)) >> 4)) == b0,
        (((((b0 & 3) << 4) | (b1 >> 4)) << 4) | (((b1 & 15) << 2) >> 2)) == b1,
{
}

/// Packing three bytes into four symbol values and unpacking them returns
/// the bytes.
proof fn lemma_pack_unpack3(b0: u8, b1: u8, b2: u8)
    by (bit_vector)
    ensures
        (((b0 >> 2) << 2) | ((((b0 & 3) << 4) | (b1 >> 4)) >> 4)) == b0,
        (((((b0 & 3) << 4) | (b1 >> 4)) << 4) | ((((b1 & 15) << 2) | (b2 >> 6)) >> 2)) == b1,
        (((((b1 & 15) << 2) | (b2 >> 6)) << 6) | (b2 & 63)) == b2,
{
}

/// A sequence with no noisy position has no noise.
proof fn lemma_all_clean_no_noise(e: Seq<u8>, a: Seq<u8>)
    requires
        forall|k: int| 0 <= k < e.len() ==> !noise_at(e, a, k),
    ensures
        !has_noise(e, a),
{
    if has_noise(e, a) {
        let w = choose|i: int| 0 <= i < e.len() && noise_at(e, a, i);
        assert(!noise_at(e, a, w));
    }
}

/// A sequence with no padding byte before its trailing padding has none
/// misplaced.
proof fn lemma_all_nonpad_no_misplaced(e: Seq<u8>)
    requires
        forall|k: int| 0 <= k < e.len() - pad_len(e) ==> e[k] != 61,
    ensures
        !misplaced_pad(e),
{
    if misplaced_pad(e) {
        let w = choose|i: int| 0 <= i < e.len() - pad_len(e) && e[i] == 61;
        assert(e[w] != 61);
    }
}

/// In a sequence with no noise, every position is clean.
proof fn lemma_no_noise_elem(t: Seq<u8>, a: Seq<u8>, k: int)
    requires
        !has_noise(t, a),
        0 <= k < t.len(),
    ensures
        !noise_at(t, a, k),
{
    if noise_at(t, a, k) {
        assert(0 <= k < t.len() && noise_at(t, a, k));
    }
}

/// In a sequence with no misplaced padding, every byte before the trailing
/// padding differs from `=`.
proof fn lemma_no_misplaced_elem(t: Seq<u8>, k: int)
    requires
        !misplaced_pad(t),
        0 <= k < t.len() - pad_len(t),
    ensures
        t[k] != 61,
{
    if t[k] == 61 {
        assert(0 <= k < t.len() - pad_len(t) && t[k] == 61);
    }
}

/// Prepending four bytes leaves the trailing padding untouched.
proof fn lemma_pad_prepend(g: Seq<u8>, t: Seq<u8>)
    requires
        g.len() == 4,
        t.len() >= 2,
    ensures
        pad_len(g + t) == pad_len(t),
{
    let e = g + t;
    assert(e[e.len() - 1] == t[t.len() - 1]);
    assert(e[e.len() - 2] == t[t.len() - 2]);
}

/// Prepending one full group of alphabet symbols to a structurally valid
/// tail keeps it valid, and its decoding gains exactly the group's three
/// bytes in front.
proof fn lemma_prepend_group(g: Seq<u8>, t: Seq<u8>, a: Seq<u8>)
    requires
        is_b64_alphabet(a),
        g.len() == 4,
        forall|k: int| 0 <= k < 4 ==> in_alpha(a, #[trigger] g[k]),
        t.len() % 4 == 0,
        strict_ok(t, a),
    ensures
        strict_ok(g + t, a),
        decoded(g + t, a) == dec4(a, g[0], g[1], g[2], g[3]) + decoded(t, a),
{
    let e = g + t;
    assert forall|k: int| 0 <= k < 4 implies g[k] != 61 by {
        lemma_sym_val_in_alpha(a, g[k]);
    }
    assert forall|k: int| 0 <= k < e.len() implies !noise_at(e, a, k) by {
        if k < 4 {
            assert(e[k] == g[k]);
            assert(in_alpha(a, g[k]));
        } else {
            lemma_no_noise_elem(t, a, k - 4);
            assert(e[k] == t[k - 4]);
        }
    }
    lemma_all_clean_no_noise(e, a);
    if t.len() == 0 {
        assert(e =~= g);
        assert(pad_len(e) == 0);
        assert forall|k: int| 0 <= k < e.len() - pad_len(e) implies e[k] != 61 by {
            assert(e[k] == g[k]);
        }
        lemma_all_nonpad_no_misplaced(e);
        assert(tail_ok(e, a));
        assert(e.skip(4) =~= Seq::<u8>::empty());
        assert(decode_full(e.skip(4), a) =~= Seq::<u8>::empty());
        assert(decoded(t, a) =~= Seq::<u8>::empty());
        assert(decoded(e, a) =~= dec4(a, g[0], g[1], g[2], g[3]) + decoded(t, a));
    } else {
        let n = e.len() as int;
        let m = t.len() as int;
        assert(m >= 4);
        lemma_pad_prepend(g, t);
        let p = pad_len(t);
        assert forall|k: int| 0 <= k < e.len() - pad_len(e) implies e[k] != 61 by {
            if k < 4 {
                assert(e[k] == g[k]);
                assert(g[k] != 61);
            } else {
                lemma_no_misplaced_elem(t, k - 4);
                assert(e[k] == t[k - 4]);
            }
        }
        lemma_all_nonpad_no_misplaced(e);
        assert(e[n - 2] == t[m - 2]);
        assert(e[n - 3] == t[m - 3]);
        assert(tail_ok(e, a));
        if p == 0 {
            assert(e.skip(4) =~= t);
            assert(decoded(e, a) == decode_full(e, a));
            assert(decoded(t, a) == decode_full(t, a));
            assert(e[0] == g[0] && e[1] == g[1] && e[2] == g[2] && e[3] == g[3]);
            assert(decoded(e, a) =~= dec4(a, g[0], g[1], g[2], g[3]) + decoded(t, a));
        } else {
            assert(e.take(n - 4) =~= g + t.take(m - 4));
            lemma_decode_full_append(g, t.take(m - 4), a);
            assert(g.skip(4) =~= Seq::<u8>::empty());
            assert(decode_full(g.skip(4), a) =~= Seq::<u8>::empty());
            assert(decode_full(g, a) =~= dec4(a, g[0], g[1], g[2], g[3]));
            assert(e[n - 4] == t[m - 4]);
            assert(decoded(e, a) =~= dec4(a, g[0], g[1], g[2], g[3]) + decoded(t, a));
        }
    }
}

/// Round trip: for every byte sequence and every well-formed alphabet —
/// the standard one and the one of any legal altchars pair — the encoding
/// passes strict validation and decodes back to exactly the input.
pub proof fn lemma_encode_decode_roundtrip(d: Seq<u8>, a: Seq<u8>)
    requires
        is_b64_alphabet(a),
    ensures
        strict_ok(encode_seq(d, a), a),
        decoded(encode_seq(d, a), a) == d,
    decreases d.len(),
{
    let e = encode_seq(d, a);
    if d.len() == 0 {
        assert(e =~= Seq::<u8>::empty());
        lemma_all_clean_no_noise(e, a);
        assert(pad_len(e) == 0);
        lemma_all_nonpad_no_misplaced(e);
        assert(tail_ok(e, a));
        assert(decoded(e, a) =~= d);
    } else if d.len() == 1 {
        let b0 = d[0];
        lemma_group_indices(b0, 0, 0);
        let i0 = (b0 >> 2) as int;
        let i1 = ((b0 & 3) << 4) as int;
        lemma_sym_val_of_index(a, i0);
        lemma_sym_val_of_index(a, i1);
        lemma_pack_unpack1(b0);
        assert(e == enc1(a, b0));
        assert(e.len() == 4 && e[0] == a[i0] && e[1] == a[i1] && e[2] == 61 && e[3] == 61);
        assert forall|k: int| 0 <= k < e.len() implies !noise_at(e, a, k) by {
            if k == 0 {
                assert(in_alpha(a, e[0]));
            } else if k == 1 {
                assert(in_alpha(a, e[1]));
            } else {
                assert(e[k] == 61);
            }
        }
        lemma_all_clean_no_noise(e, a);
        assert(pad_len(e) == 2);
        assert forall|k: int| 0 <= k < e.len() - pad_len(e) implies e[k] != 61 by {
            lemma_sym_val_in_alpha(a, e[k]);
        }
        lemma_all_nonpad_no_misplaced(e);
        assert(sym_val(a, e[1]) % 16 == 0);
        assert(tail_ok(e, a));
        assert(e.take(0) =~= Seq::<u8>::empty());
        assert(decode_full(e.take(0), a) =~= Seq::<u8>::empty());
        assert(decoded(e, a) =~= d);
    } else if d.len() == 2 {
        let b0 = d[0];
        let b1 = d[1];
        lemma_group_indices(b0, b1, 0);
        let i0 = (b0 >> 2) as int;
        let i1 = (((b0 & 3) << 4) | (b1 >> 4)) as int;
        let i2 = ((b1 & 15) << 2) as int;
        lemma_sym_val_of_index(a, i0);
        lemma_sym_val_of_index(a, i1);
        lemma_sym_val_of_index(a, i2);
        lemma_pack_unpack2(b0, b1);
        assert(e == enc2(a, b0, b1));
        assert(e.len() == 4 && e[0] == a[i0] && e[1] == a[i1] && e[2] == a[i2] && e[3] == 61);
        assert forall|k: int| 0 <= k < e.len() implies !noise_at(e, a, k) by {
            if k == 0 {
                assert(in_alpha(a, e[0]));
            } else if k == 1 {
                assert(in_alpha(a, e[1]));
            } else if k == 2 {
                assert(in_alpha(a, e[2]));
            } else {
                assert(e[k] == 61);
            }
        }
        lemma_all_clean_no_noise(e, a);
        assert(e[2] != 61) by {
            lemma_sym_val_in_alpha(a, e[2]);
        }
        assert(pad_len(e) == 1);
        assert forall|k: int| 0 <= k < e.len() - pad_len(e) implies e[k] != 61 by {
            lemma_sym_val_in_alpha(a, e[k]);
        }
        lemma_all_nonpad_no_misplaced(e);
        assert(sym_val(a, e[2]) % 4 == 0);
        assert(tail_ok(e, a));
        assert(e.take(0) =~= Seq::<u8>::empty());
        assert(decode_full(e.take(0), a) =~= Seq::<u8>::empty());
        assert(decoded(e, a) =~= d);
    } else {
        let b0 = d[0];
        let b1 = d[1];
        let b2 = d[2];
        let g = enc3(a, b0, b1, b2);
        let rest = encode_seq(d.skip(3), a);
        lemma_encode_decode_roundtrip(d.skip(3), a);
        lemma_encode_len(d.skip(3), a);
        lemma_group_indices(b0, b1, b2);
        let i0 = (b0 >> 2) as int;
        let i1 = (((b0 & 3) << 4) | (b1 >> 4)) as int;
        let i2 = (((b1 & 15) << 2) | (b2 >> 6)) as int;
        let i3 = (b2 & 63) as int;
        lemma_sym_val_of_index(a, i0);
        lemma_sym_val_of_index(a, i1);
        lemma_sym_val_of_index(a, i2);
        lemma_sym_val_of_index(a, i3);
        assert(g.len() == 4 && g[0] == a[i0] && g[1] == a[i1] && g[2] == a[i2] && g[3] == a[i3]);
        assert forall|k: int| 0 <= k < 4 implies in_alpha(a, #[trigger] g[k]) by {
            if k == 0 {
                assert(in_alpha(a, a[i0]));
            } else if k == 1 {
                assert(in_alpha(a, a[i1]));
            } else if k == 2 {
                assert(in_alpha(a, a[i2]));
            } else {
                assert(in_alpha(a, a[i3]));
            }
        }
        lemma_prepend_group(g, rest, a);
        assert(e == g + rest);
        lemma_pack_unpack3(b0, b1, b2);
        assert(dec4(a, g[0], g[1], g[2], g[3]) =~= seq![b0, b1, b2]);
        assert(decoded(e, a) =~= seq![b0, b1, b2] + d.skip(3));
        assert(seq![b0, b1, b2] + d.skip(3) =~= d);
    }
}

/// Padding law: the number of trailing padding bytes of an encoding is 0,
/// 2, or 1 according as the input length is 0, 1, or 2 modulo 3.
pub proof fn lemma_encode_pad(d: Seq<u8>, a: Seq<u8>)
    requires
        is_b64_alphabet(a),
    ensures
        pad_len(encode_seq(d, a)) == (if d.len() % 3 == 0 {
            0int
        } else if d.len() % 3 == 1 {
            2int
        } else {
            1int
        }),
    decreases d.len(),
{
    let e = encode_seq(d, a);
    let n = d.len() as int;
    if d.len() == 0 {
        assert(pad_len(e) == 0);
    } else if d.len() <= 2 {
        assert(n % 3 == n) by {
            lemma_fundamental_div_mod_converse(n, 3, 0, n);
        }
        if d.len() == 1 {
            assert(pad_len(e) == 2);
        } else {
            lemma_group_indices(d[0], d[1], 0);
            lemma_sym_val_of_index(a, ((d[1] & 15) << 2) as int);
            assert(e[2] == a[((d[1] & 15) << 2) as int]);
            assert(e[2] != 61) by {
                lemma_sym_val_in_alpha(a, e[2]);
            }
            assert(pad_len(e) == 1);
        }
    } else {
        let g = enc3(a, d[0], d[1], d[2]);
        let rest = encode_seq(d.skip(3), a);
        assert(e == g + rest);
        lemma_encode_pad(d.skip(3), a);
        lemma_encode_len(d.skip(3), a);
        assert(n % 3 == (n - 3) % 3) by {
            lemma_fundamental_div_mod(n - 3, 3);
            lemma_fundamental_div_mod_converse(n, 3, (n - 3) / 3 + 1, (n - 3) % 3);
        }
        if d.skip(3).len() == 0 {
            lemma_group_indices(d[0], d[1], d[2]);
            lemma_sym_val_of_index(a, (d[2] & 63) as int);
            assert(e =~= g);
            assert(e[3] == a[(d[2] & 63) as int]);
            assert(e[3] != 61) by {
                lemma_sym_val_in_alpha(a, e[3]);
            }
            assert(pad_len(e) == 0);
        } else {
            assert(rest.len() >= 4) by {
                if rest.len() < 4 {
                    assert(rest.len() % 4 != 0 || rest.len() == 0);
                }
            }
            lemma_pad_prepend(g, rest);
        }
    }
}

/// Alphabet defaulting: supplying no altchars and supplying the standard
/// pair `+`, `/` build the same alphabet, so every input encodes (and
/// decodes) identically under the two configurations.
pub proof fn lemma_altchars_defaulting(d: Seq<u8>, ac: Altchars)
    requires
        ac == standard_altchars(),
    ensures
        alpha_seq(ac) == std_alpha(),
        encode_seq(d, alpha_seq(ac)) == encode_seq(d, std_alpha()),
{
}

/// Permissive filtering: where the kept bytes of a (possibly noisy) input
/// are exactly an encoding, permissive decoding recovers the encoded bytes.
pub proof fn lemma_permissive_roundtrip(d: Seq<u8>, s: Seq<u8>, a: Seq<u8>)
    requires
        is_b64_alphabet(a),
        filter_kept(s, a) == encode_seq(d, a),
    ensures
        strict_ok(filter_kept(s, a), a),
        decoded(filter_kept(s, a), a) == d,
{
    lemma_encode_decode_roundtrip(d, a);
}

/// Strict rejection: an input with any noise byte fails strict validation,
/// and the reported position is its first noise byte.
pub proof fn lemma_strict_rejects_noise(s: Seq<u8>, a: Seq<u8>)
    requires
        has_noise(s, a),
    ensures
        !strict_ok(s, a),
        0 <= first_noise(s, a) < s.len(),
        noise_at(s, a, first_noise(s, a)),
{
    lemma_first_noise_props(s, a);
}

} // verus!
