//! Alphabet construction: the ordered 64-symbol set `A`-`Z`, `a`-`z`,
//! `0`-`9` followed by the plus- and slash-substitutes, validated to be a
//! legal, non-degenerate alphabet, together with its inverse lookup table.

use vstd::prelude::*;
use crate::altchars::Altchars;
use crate::altchars::standard_altchars;
use crate::errors::ConfigError;

verus! {

/// Symbol `i` of the fixed alphanumeric prefix shared by every alphabet:
/// `A`-`Z` for 0..26, `a`-`z` for 26..52, `0`-`9` for 52..62.
pub open spec fn fixed_sym(i: int) -> u8 {
    if 0 <= i < 26 {
        (65 + i) as u8
    } else if 26 <= i < 52 {
        (97 + (i - 26)) as u8
    } else {
        (48 + (i - 52)) as u8
    }
}

/// Symbol `i` of the alphabet built over the pair `ac`.
pub open spec fn alpha_sym(ac: Altchars, i: int) -> u8 {
    if i < 62 {
        fixed_sym(i)
    } else if i == 62 {
        ac.plus
    } else {
        ac.slash
    }
}

/// The alphabet over `ac` as a sequence of 64 symbols.
pub open spec fn alpha_seq(ac: Altchars) -> Seq<u8> {
    Seq::new(64, |i: int| alpha_sym(ac, i))
}

/// The standard Base64 alphabet, ending in `+` and `/`.
pub open spec fn std_alpha() -> Seq<u8> {
    alpha_seq(standard_altchars())
}

/// Whether `b` is one of the 62 fixed alphanumeric symbols.
pub open spec fn is_alnum(b: u8) -> bool {
    (65 <= b < 91) || (97 <= b < 123) || (48 <= b < 58)
}

/// A legal altchars pair: two distinct bytes that collide neither with the
/// fixed alphanumerics nor with the padding character `=`.
pub open spec fn altchars_legal(ac: Altchars) -> bool {
    &&& ac.plus != ac.slash
    &&& !is_alnum(ac.plus)
    &&& !is_alnum(ac.slash)
    &&& ac.plus != 61
    &&& ac.slash != 61
}

/// What every usable alphabet satisfies: exactly 64 pairwise-distinct
/// symbols, none of them the padding character `=`.
pub open spec fn is_b64_alphabet(a: Seq<u8>) -> bool {
    &&& a.len() == 64
    &&& forall|i: int, j: int| 0 <= i < j < 64 ==> a[i] != a[j]
    &&& forall|i: int| 0 <= i < 64 ==> a[i] != 61
}

/// Whether `b` is a symbol of alphabet `a`.
pub open spec fn in_alpha(a: Seq<u8>, b: u8) -> bool {
    exists|i: int| 0 <= i < a.len() && a[i] == b
}

/// The 6-bit value symbol `b` stands for: its index in `a` (unique for a
/// well-formed alphabet; arbitrary when `b` is no symbol of `a`).
pub open spec fn sym_val(a: Seq<u8>, b: u8) -> int {
    choose|i: int| 0 <= i < a.len() && a[i] == b
}

/// In a well-formed alphabet, the symbol at index `i` has value `i`.
pub proof fn lemma_sym_val_of_index(a: Seq<u8>, i: int)
    requires
        is_b64_alphabet(a),
        0 <= i < 64,
    ensures
        in_alpha(a, a[i]),
        sym_val(a, a[i]) == i,
{
    assert(0 <= i < a.len() && a[i] == a[i]);
    let j = sym_val(a, a[i]);
    assert(0 <= j < a.len() && a[j] == a[i]);
    if j < i {
        assert(a[j] != a[i]);
    } else if i < j {
        assert(a[i] != a[j]);
    }
}

/// A symbol of a well-formed alphabet has a value below 64, sits at that
/// index, and is never the padding character.
pub proof fn lemma_sym_val_in_alpha(a: Seq<u8>, b: u8)
    requires
        is_b64_alphabet(a),
        in_alpha(a, b),
    ensures
        0 <= sym_val(a, b) < 64,
        a[sym_val(a, b)] == b,
        b != 61,
{
    let j = sym_val(a, b);
    assert(0 <= j < a.len() && a[j] == b);
}

/// A legal pair yields a well-formed alphabet.
pub proof fn lemma_legal_alphabet(ac: Altchars)
    requires
        altchars_legal(ac),
    ensures
        is_b64_alphabet(alpha_seq(ac)),
{
    let a = alpha_seq(ac);
    assert forall|i: int, j: int| 0 <= i < j < 64 implies a[i] != a[j] by {
        if j < 62 {
            assert(is_alnum(fixed_sym(i)) && is_alnum(fixed_sym(j)));
            assert(fixed_sym(i) != fixed_sym(j));
        } else if i < 62 {
            assert(is_alnum(fixed_sym(i)));
        }
    }
    assert forall|i: int| 0 <= i < 64 implies a[i] != 61 by {
        if i < 62 {
            assert(is_alnum(fixed_sym(i)));
        }
    }
}

/// The standard pair is legal.
pub proof fn lemma_standard_legal()
    ensures
        altchars_legal(standard_altchars()),
        is_b64_alphabet(std_alpha()),
{
    lemma_legal_alphabet(standard_altchars());
}

/// The effective engine of one encode or decode call: an alphabet and its
/// inverse lookup table. The padding policy is fixed: `=`, always applied.
pub struct Alphabet {
    syms: Vec<u8>,
    inv: Vec<u8>,
}

impl View for Alphabet {
    type V = Seq<u8>;

    closed spec fn view(&self) -> Seq<u8> {
        self.syms@
    }
}

impl Alphabet {
    /// The symbol table is a well-formed alphabet and `inv` is its exact
    /// inverse: a symbol maps to its 6-bit value, every other byte to 255.
    #[verifier::type_invariant]
    spec fn wf(&self) -> bool {
        &&& is_b64_alphabet(self.syms@)
        &&& self.inv@.len() == 256
        &&& forall|i: int| 0 <= i < 64 ==> self.inv@[#[trigger] self.syms@[i] as int] == i as u8
        &&& forall|b: int| 0 <= b < 256 && !in_alpha(self.syms@, b as u8) ==> self.inv@[b] == 255
    }

    /// The symbol standing for the 6-bit value `i`.
    pub fn symbol(&self, i: u8) -> (r: u8)
        requires
            i < 64,
        ensures
            r == self@[i as int],
    {
        proof {
            use_type_invariant(&*self);
        }
        self.syms[i as usize]
    }

    /// The 6-bit value of symbol `b`, or 255 when `b` is no symbol of this
    /// alphabet.
    pub fn value_of(&self, b: u8) -> (r: u8)
        ensures
            in_alpha(self@, b) ==> r as int == sym_val(self@, b) && r < 64,
            !in_alpha(self@, b) ==> r == 255,
    {
        proof {
            use_type_invariant(&*self);
            if in_alpha(self@, b) {
                lemma_sym_val_in_alpha(self@, b);
                let j = sym_val(self@, b);
                assert(self.inv@[self.syms@[j] as int] == j as u8);
            }
        }
        self.inv[b as usize]
    }
}

fn is_alnum_byte(b: u8) -> (r: bool)
    ensures
        r == is_alnum(b),
{
    (65 <= b && b < 91) || (97 <= b && b < 123) || (48 <= b && b < 58)
}

fn fixed_symbol(i: u8) -> (r: u8)
    requires
        i < 62,
    ensures
        r == fixed_sym(i as int),
{
    if i < 26 {
        65 + i
    } else if i < 52 {
        97 + (i - 26)
    } else {
        48 + (i - 52)
    }
}

fn build_syms(ac: Altchars) -> (r: Vec<u8>)
    ensures
        r@ == alpha_seq(ac),
{
    let mut syms: Vec<u8> = Vec::new();
    let mut i: u8 = 0;
    while i < 62
        invariant
            i <= 62,
            syms@.len() == i as int,
            forall|k: int| 0 <= k < i as int ==> syms@[k] == alpha_sym(ac, k),
        decreases 62 - i,
    {
        let s = fixed_symbol(i);
        syms.push(s);
        i = i + 1;
    }
    syms.push(ac.plus);
    syms.push(ac.slash);
    proof {
        assert(syms@ =~= alpha_seq(ac));
    }
    syms
}

fn build_inv(syms: &Vec<u8>) -> (r: Vec<u8>)
    requires
        is_b64_alphabet(syms@),
    ensures
        r@.len() == 256,
        forall|i: int| 0 <= i < 64 ==> r@[#[trigger] syms@[i] as int] == i as u8,
        forall|b: int| 0 <= b < 256 && !in_alpha(syms@, b as u8) ==> r@[b] == 255,
{
    let mut inv: Vec<u8> = Vec::new();
    let mut b: usize = 0;
    while b < 256
        invariant
            b <= 256,
            inv@.len() == b as int,
            forall|k: int| 0 <= k < b as int ==> inv@[k] == 255,
        decreases 256 - b,
    {
        inv.push(255);
        b = b + 1;
    }
    let mut i: usize = 0;
    while i < 64
        invariant
            i <= 64,
            inv@.len() == 256,
            is_b64_alphabet(syms@),
            forall|k: int| 0 <= k < i as int ==> inv@[#[trigger] syms@[k] as int] == k as u8,
            forall|bb: int| 0 <= bb < 256
                && (forall|k: int| 0 <= k < i as int ==> syms@[k] != bb as u8)
                ==> #[trigger] inv@[bb] == 255,
        decreases 64 - i,
    {
        let s = syms[i];
        inv[s as usize] = i as u8;
        i = i + 1;
    }
    proof {
        assert forall|bb: int| 0 <= bb < 256 && !in_alpha(syms@, bb as u8)
            implies inv@[bb] == 255 by {
            assert forall|k: int| 0 <= k < 64 implies syms@[k] != bb as u8 by {
                if syms@[k] == bb as u8 {
                    assert(in_alpha(syms@, bb as u8));
                }
            }
        }
    }
    inv
}

/// Builds the engine for the given pair, or the canonical standard engine
/// when none is supplied. Supplying the standard pair behaves exactly like
/// supplying none.
pub fn build_alphabet(altchars: Option<Altchars>) -> (r: Result<Alphabet, ConfigError>)
    ensures
        match altchars {
            None => r is Ok && r->Ok_0@ == std_alpha(),
            Some(ac) => {
                &&& altchars_legal(ac) ==> r is Ok && r->Ok_0@ == alpha_seq(ac)
                &&& !altchars_legal(ac) ==> r == Err::<Alphabet, ConfigError>(
                    ConfigError::InvalidAlphabet { plus: ac.plus, slash: ac.slash },
                )
            },
        },
{
    let ac = match altchars {
        Some(a) => a,
        None => Altchars::default(),
    };
    let legal = ac.plus != ac.slash && !is_alnum_byte(ac.plus) && !is_alnum_byte(ac.slash)
        && ac.plus != 61 && ac.slash != 61;
    if !legal {
        return Err(ConfigError::InvalidAlphabet { plus: ac.plus, slash: ac.slash });
    }
    let syms = build_syms(ac);
    proof {
        lemma_legal_alphabet(ac);
    }
    let inv = build_inv(&syms);
    Ok(Alphabet { syms, inv })
}

} // verus!
