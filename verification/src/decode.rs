//! The decoder: Base64 text back into bytes under a given engine, in strict
//! mode (reject any byte outside the alphabet, malformed padding, or an
//! illegal total length) or permissive mode (first drop every byte that is
//! neither an alphabet symbol nor `=`, keeping relative order, then decode
//! the remainder strictly).

use vstd::prelude::*;
use vstd::arithmetic::div_mod::lemma_fundamental_div_mod;
use vstd::arithmetic::div_mod::lemma_fundamental_div_mod_converse;
use crate::alphabet::Alphabet;
use crate::alphabet::in_alpha;
use crate::alphabet::sym_val;
use crate::errors::DecodeError;

verus! {

/// Whether permissive filtering keeps byte `b`: an alphabet symbol or `=`.
pub open spec fn keep_b(a: Seq<u8>, b: u8) -> bool {
    in_alpha(a, b) || b == 61
}

/// The subsequence of `s` that permissive decoding feeds to the strict
/// algorithm: the kept bytes in their original order.
pub open spec fn filter_kept(s: Seq<u8>, a: Seq<u8>) -> Seq<u8>
    decreases s.len(),
{
    if s.len() == 0 {
        Seq::empty()
    } else if keep_b(a, s.last()) {
        filter_kept(s.drop_last(), a).push(s.last())
    } else {
        filter_kept(s.drop_last(), a)
    }
}

/// The number of trailing padding bytes of `s`, capped at two.
pub open spec fn pad_len(s: Seq<u8>) -> int {
    if s.len() >= 1 && s[s.len() - 1] == 61 {
        if s.len() >= 2 && s[s.len() - 2] == 61 {
            2
        } else {
            1
        }
    } else {
        0
    }
}

/// Whether position `i` of `s` holds a byte that no decoding accepts:
/// neither an alphabet symbol nor the padding character.
pub open spec fn noise_at(s: Seq<u8>, a: Seq<u8>, i: int) -> bool {
    !in_alpha(a, s[i]) && s[i] != 61
}

pub open spec fn has_noise(s: Seq<u8>, a: Seq<u8>) -> bool {
    exists|i: int| 0 <= i < s.len() && noise_at(s, a, i)
}

/// The first noisy position of `s` at or after `i`, or `s.len()`.
pub open spec fn first_noise_from(s: Seq<u8>, a: Seq<u8>, i: int) -> int
    decreases s.len() - i,
{
    if i < 0 || i >= s.len() {
        s.len() as int
    } else if noise_at(s, a, i) {
        i
    } else {
        first_noise_from(s, a, i + 1)
    }
}

/// The first noisy position of `s`, or `s.len()` when there is none.
pub open spec fn first_noise(s: Seq<u8>, a: Seq<u8>) -> int {
    first_noise_from(s, a, 0)
}

/// Whether a padding byte stands anywhere but in the trailing padding.
pub open spec fn misplaced_pad(s: Seq<u8>) -> bool {
    exists|i: int| 0 <= i < s.len() - pad_len(s) && s[i] == 61
}

/// Whether the bits that the padding stands in for are all zero: with one
/// `=` the third symbol's low two bits, with two `=` the second symbol's
/// low four bits.
pub open spec fn tail_ok(s: Seq<u8>, a: Seq<u8>) -> bool {
    &&& (pad_len(s) == 1 ==> sym_val(a, s[s.len() - 2]) % 4 == 0)
    &&& (pad_len(s) == 2 ==> sym_val(a, s[s.len() - 3]) % 16 == 0)
}

/// What strict decoding accepts: no noise byte anywhere, a total length
/// that is a multiple of four, padding only as a legal suffix, and no
/// stray bits under the padding. Empty input is accepted.
pub open spec fn strict_ok(s: Seq<u8>, a: Seq<u8>) -> bool {
    &&& !has_noise(s, a)
    &&& s.len() % 4 == 0
    &&& !misplaced_pad(s)
    &&& tail_ok(s, a)
}

/// The three bytes packed from a full group of four symbol values.
pub open spec fn dec4(a: Seq<u8>, s0: u8, s1: u8, s2: u8, s3: u8) -> Seq<u8> {
    let v0 = sym_val(a, s0) as u8;
    let v1 = sym_val(a, s1) as u8;
    let v2 = sym_val(a, s2) as u8;
    let v3 = sym_val(a, s3) as u8;
    seq![(v0 << 2) | (v1 >> 4), (v1 << 4) | (v2 >> 2), (v2 << 6) | v3]
}

/// The two bytes of a trailing group closed by one padding byte.
pub open spec fn dec_tail1(a: Seq<u8>, s0: u8, s1: u8, s2: u8) -> Seq<u8> {
    let v0 = sym_val(a, s0) as u8;
    let v1 = sym_val(a, s1) as u8;
    let v2 = sym_val(a, s2) as u8;
    seq![(v0 << 2) | (v1 >> 4), (v1 << 4) | (v2 >> 2)]
}

/// The one byte of a trailing group closed by two padding bytes.
pub open spec fn dec_tail2(a: Seq<u8>, s0: u8, s1: u8) -> Seq<u8> {
    let v0 = sym_val(a, s0) as u8;
    let v1 = sym_val(a, s1) as u8;
    seq![(v0 << 2) | (v1 >> 4)]
}

/// The bytes decoded from a run of full four-symbol groups.
pub open spec fn decode_full(s: Seq<u8>, a: Seq<u8>) -> Seq<u8>
    decreases s.len(),
{
    if s.len() < 4 {
        Seq::empty()
    } else {
        dec4(a, s[0], s[1], s[2], s[3]) + decode_full(s.skip(4), a)
    }
}

/// The bytes a structurally valid input decodes to: full groups first, then
/// the partial group the trailing padding announces.
pub open spec fn decoded(s: Seq<u8>, a: Seq<u8>) -> Seq<u8> {
    let n = s.len() as int;
    if pad_len(s) == 1 {
        decode_full(s.take(n - 4), a) + dec_tail1(a, s[n - 4], s[n - 3], s[n - 2])
    } else if pad_len(s) == 2 {
        decode_full(s.take(n - 4), a) + dec_tail2(a, s[n - 4], s[n - 3])
    } else {
        decode_full(s, a)
    }
}

/// The view of an exec decode result.
pub open spec fn res_view(r: Result<Vec<u8>, DecodeError>) -> Result<Seq<u8>, DecodeError> {
    match r {
        Ok(v) => Ok(v@),
        Err(e) => Err(e),
    }
}

/// The full contract of strict decoding of `t` over alphabet `a`: success
/// exactly on structurally valid input, the decoded bytes on success, and
/// the exact error otherwise — the first noise byte wins, then an illegal
/// length, then misplaced padding, then stray bits under the padding.
pub open spec fn strict_decode_matches(
    t: Seq<u8>,
    a: Seq<u8>,
    r: Result<Seq<u8>, DecodeError>,
) -> bool {
    &&& (r is Ok <==> strict_ok(t, a))
    &&& (r is Ok ==> r->Ok_0 == decoded(t, a))
    &&& (has_noise(t, a) ==> r == Err::<Seq<u8>, DecodeError>(DecodeError::InvalidByte {
        position: first_noise(t, a) as usize,
        value: t[first_noise(t, a)],
    }))
    &&& (!has_noise(t, a) && t.len() % 4 != 0 ==> r == Err::<Seq<u8>, DecodeError>(
        DecodeError::InvalidLength,
    ))
    &&& (!has_noise(t, a) && t.len() % 4 == 0 && misplaced_pad(t) ==> r == Err::<
        Seq<u8>,
        DecodeError,
    >(DecodeError::InvalidPadding))
    &&& (!has_noise(t, a) && t.len() % 4 == 0 && !misplaced_pad(t) && pad_len(t) == 1
        && !tail_ok(t, a) ==> r == Err::<Seq<u8>, DecodeError>(DecodeError::InvalidByte {
        position: (t.len() - 2) as usize,
        value: t[t.len() - 2],
    }))
    &&& (!has_noise(t, a) && t.len() % 4 == 0 && !misplaced_pad(t) && pad_len(t) == 2
        && !tail_ok(t, a) ==> r == Err::<Seq<u8>, DecodeError>(DecodeError::InvalidByte {
        position: (t.len() - 3) as usize,
        value: t[t.len() - 3],
    }))
}

/// `first_noise_from` finds the first noisy position at or after `i`.
proof fn lemma_first_noise_from_props(s: Seq<u8>, a: Seq<u8>, i: int)
    requires
        0 <= i <= s.len(),
    ensures
        ({
            let p = first_noise_from(s, a, i);
            &&& i <= p <= s.len()
            &&& (p < s.len() ==> noise_at(s, a, p))
            &&& forall|j: int| i <= j < p ==> !noise_at(s, a, j)
        }),
    decreases s.len() - i,
{
    if i < s.len() && !noise_at(s, a, i) {
        lemma_first_noise_from_props(s, a, i + 1);
    }
}

/// The position of the first noise byte: where every earlier byte is
/// clean and position `p` is noisy, `first_noise` is exactly `p`.
proof fn lemma_first_noise_is(s: Seq<u8>, a: Seq<u8>, p: int)
    requires
        0 <= p < s.len(),
        noise_at(s, a, p),
        forall|j: int| 0 <= j < p ==> !noise_at(s, a, j),
    ensures
        first_noise(s, a) == p,
        has_noise(s, a),
{
    lemma_first_noise_from_props(s, a, 0);
    let q = first_noise(s, a);
    if q < p {
        assert(!noise_at(s, a, q));
    } else if p < q {
        assert(!noise_at(s, a, p));
    }
    assert(0 <= p < s.len() && noise_at(s, a, p));
}

/// Where `s` holds noise at all, `first_noise` points at its first noisy
/// byte.
pub proof fn lemma_first_noise_props(s: Seq<u8>, a: Seq<u8>)
    requires
        has_noise(s, a),
    ensures
        0 <= first_noise(s, a) < s.len(),
        noise_at(s, a, first_noise(s, a)),
        forall|j: int| 0 <= j < first_noise(s, a) ==> !noise_at(s, a, j),
{
    lemma_first_noise_from_props(s, a, 0);
    let p = first_noise(s, a);
    if p == s.len() {
        let w = choose|i: int| 0 <= i < s.len() && noise_at(s, a, i);
        assert(!noise_at(s, a, w));
    }
}

/// Full-group decoding distributes over a split at a group boundary.
pub proof fn lemma_decode_full_append(d: Seq<u8>, t: Seq<u8>, a: Seq<u8>)
    requires
        d.len() % 4 == 0,
    ensures
        decode_full(d + t, a) == decode_full(d, a) + decode_full(t, a),
    decreases d.len(),
{
    if d.len() == 0 {
        assert(d + t =~= t);
        assert(decode_full(d, a) + decode_full(t, a) =~= decode_full(t, a));
    } else {
        assert((d + t).skip(4) =~= d.skip(4) + t);
        lemma_decode_full_append(d.skip(4), t, a);
        assert(decode_full(d + t, a) =~= decode_full(d, a) + decode_full(t, a));
    }
}

/// Strict decoding of `s` over the engine's alphabet.
fn decode_strict(s: &[u8], engine: &Alphabet) -> (r: Result<Vec<u8>, DecodeError>)
    ensures
        strict_decode_matches(s@, engine@, res_view(r)),
{
    let ghost a = engine@;
    let n = s.len();

    // Reject the first byte that no decoding accepts.
    let mut j: usize = 0;
    while j < n
        invariant
            j <= n,
            n == s@.len(),
            a == engine@,
            forall|k: int| 0 <= k < j as int ==> !noise_at(s@, a, k),
        decreases n - j,
    {
        let b = s[j];
        let v = engine.value_of(b);
        if v == 255 && b != 61 {
            proof {
                lemma_first_noise_is(s@, a, j as int);
            }
            return Err(DecodeError::InvalidByte { position: j, value: b });
        }
        proof {
            assert(!noise_at(s@, a, j as int));
        }
        j = j + 1;
    }
    assert(!has_noise(s@, a));

    if n % 4 != 0 {
        return Err(DecodeError::InvalidLength);
    }
    if n == 0 {
        let out: Vec<u8> = Vec::new();
        proof {
            assert(!misplaced_pad(s@));
            assert(decoded(s@, a) =~= Seq::<u8>::empty());
        }
        return Ok(out);
    }

    // The trailing padding, capped at two bytes.
    let p: usize = if s[n - 1] == 61 {
        if s[n - 2] == 61 {
            2
        } else {
            1
        }
    } else {
        0
    };
    assert(p as int == pad_len(s@));

    // Reject padding anywhere but in the trailing padding.
    let body_len = n - p;
    let mut j2: usize = 0;
    while j2 < body_len
        invariant
            j2 <= body_len,
            body_len as int == n as int - p as int,
            p as int == pad_len(s@),
            n == s@.len(),
            n as int % 4 == 0,
            a == engine@,
            !has_noise(s@, a),
            forall|k: int| 0 <= k < j2 as int ==> s@[k] != 61,
        decreases body_len - j2,
    {
        if s[j2] == 61 {
            proof {
                assert(misplaced_pad(s@)) by {
                    assert(0 <= (j2 as int) < s@.len() - pad_len(s@) && s@[j2 as int] == 61);
                }
            }
            return Err(DecodeError::InvalidPadding);
        }
        j2 = j2 + 1;
    }
    assert(!misplaced_pad(s@));
    assert forall|k: int| 0 <= k < n as int - p as int implies in_alpha(a, s@[k]) by {
        assert(!noise_at(s@, a, k));
        assert(s@[k] != 61);
    }

    // Reject stray bits under the padding.
    if p == 1 {
        let b = s[n - 2];
        let v = engine.value_of(b);
        if v % 4 != 0 {
            return Err(DecodeError::InvalidByte { position: n - 2, value: b });
        }
    } else if p == 2 {
        let b = s[n - 3];
        let v = engine.value_of(b);
        if v % 16 != 0 {
            return Err(DecodeError::InvalidByte { position: n - 3, value: b });
        }
    }
    assert(tail_ok(s@, a));

    // Decode the full groups, then the partial group the padding announces.
    let limit = if p > 0 {
        n - 4
    } else {
        n
    };
    proof {
        lemma_full_group_limit(n as int, limit as int, p as int);
    }
    let mut out: Vec<u8> = Vec::new();
    let mut idx: usize = 0;
    while idx < limit
        invariant
            idx <= limit,
            idx % 4 == 0,
            limit % 4 == 0,
            limit as int == n as int - (if p > 0 { 4int } else { 0int }),
            limit as int <= n as int - p as int,
            p as int == pad_len(s@),
            n == s@.len(),
            a == engine@,
            forall|k: int| 0 <= k < n as int - p as int ==> in_alpha(a, s@[k]),
            out@ == decode_full(s@.take(idx as int), a),
        decreases limit - idx,
    {
        let v0 = engine.value_of(s[idx]);
        let v1 = engine.value_of(s[idx + 1]);
        let v2 = engine.value_of(s[idx + 2]);
        let v3 = engine.value_of(s[idx + 3]);
        out.push((v0 << 2) | (v1 >> 4));
        out.push((v1 << 4) | (v2 >> 2));
        out.push((v2 << 6) | v3);
        proof {
            let d = s@.take(idx as int);
            let g = s@.subrange(idx as int, idx as int + 4);
            assert(s@.take(idx as int + 4) =~= d + g);
            lemma_decode_full_append(d, g, a);
            assert(g.skip(4) =~= Seq::<u8>::empty());
            assert(decode_full(g.skip(4), a) =~= Seq::<u8>::empty());
            assert(decode_full(g, a) =~= dec4(a, s@[idx as int], s@[idx as int + 1],
                s@[idx as int + 2], s@[idx as int + 3]));
            assert(out@ =~= decode_full(s@.take(idx as int + 4), a));
        }
        idx = idx + 4;
    }
    if p == 1 {
        let v0 = engine.value_of(s[n - 4]);
        let v1 = engine.value_of(s[n - 3]);
        let v2 = engine.value_of(s[n - 2]);
        out.push((v0 << 2) | (v1 >> 4));
        out.push((v1 << 4) | (v2 >> 2));
        proof {
            assert(out@ =~= decoded(s@, a));
        }
    } else if p == 2 {
        let v0 = engine.value_of(s[n - 4]);
        let v1 = engine.value_of(s[n - 3]);
        out.push((v0 << 2) | (v1 >> 4));
        proof {
            assert(out@ =~= decoded(s@, a));
        }
    } else {
        proof {
            assert(s@.take(n as int) =~= s@);
            assert(out@ =~= decoded(s@, a));
        }
    }
    Ok(out)
}

/// The divisibility bookkeeping of the decode loop's bounds.
proof fn lemma_full_group_limit(n: int, limit: int, p: int)
    requires
        n % 4 == 0,
        n >= 4,
        0 <= p <= 2,
        limit == n - (if p > 0 { 4int } else { 0int }),
    ensures
        limit % 4 == 0,
        limit <= n - p,
{
    lemma_fundamental_div_mod(n, 4);
    if p > 0 {
        lemma_fundamental_div_mod_converse(n - 4, 4, n / 4 - 1, 0);
    }
}

/// Drops every byte of `s` that is neither an alphabet symbol nor `=`,
/// keeping the rest in order.
fn filter_input(s: &[u8], engine: &Alphabet) -> (r: Vec<u8>)
    ensures
        r@ == filter_kept(s@, engine@),
{
    let ghost a = engine@;
    let n = s.len();
    let mut out: Vec<u8> = Vec::new();
    let mut j: usize = 0;
    while j < n
        invariant
            j <= n,
            n == s@.len(),
            a == engine@,
            out@ == filter_kept(s@.take(j as int), a),
        decreases n - j,
    {
        let b = s[j];
        let v = engine.value_of(b);
        if v != 255 || b == 61 {
            out.push(b);
        }
        proof {
            let d = s@.take(j as int);
            let d1 = s@.take(j as int + 1);
            assert(d1.drop_last() =~= d);
            assert(d1.last() == s@[j as int]);
            if v != 255 || b == 61 {
                assert(keep_b(a, b));
            } else {
                assert(!keep_b(a, b));
            }
            assert(out@ =~= filter_kept(d1, a));
        }
        j = j + 1;
    }
    proof {
        assert(s@.take(n as int) =~= s@);
    }
    out
}

/// Decodes `input` over the given engine. In strict mode every byte must
/// belong to the stream; in permissive mode bytes outside the alphabet
/// (other than `=`) are silently dropped first, and the remainder must
/// still be structurally valid.
pub fn decode(input: &[u8], engine: &Alphabet, validate: bool) -> (r: Result<
    Vec<u8>,
    DecodeError,
>)
    ensures
        validate ==> strict_decode_matches(input@, engine@, res_view(r)),
        !validate ==> strict_decode_matches(
            filter_kept(input@, engine@),
            engine@,
            res_view(r),
        ),
{
    if validate {
        decode_strict(input, engine)
    } else {
        let filtered = filter_input(input, engine);
        decode_strict(filtered.as_slice(), engine)
    }
}

} // verus!
