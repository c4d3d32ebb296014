//! Properties that hold of every hash, stated and proved once.

use crate::model::{hash_bits, num_nibbles, text_of_bits, word_of_bits, words_of_bits};
use vstd::arithmetic::div_mod::{lemma_div_denominator, lemma_fundamental_div_mod_converse};
use vstd::arithmetic::power2::{lemma2_to64, lemma_pow2_pos, lemma_pow2_unfold, pow2};
use vstd::prelude::*;

verus! {

/// Bit `j` (counted from the first bit appended) of a packed bit
/// sequence sits `len - 1 - j` binary places up in the word's value.
pub proof fn lemma_word_of_bits_index(s: Seq<bool>, j: int)
    requires
        0 <= j < s.len(),
    ensures
        (word_of_bits(s) / pow2((s.len() - 1 - j) as nat)) % 2 == (if s[j] {
            1nat
        } else {
            0nat
        }),
    decreases s.len(),
{
    let n = s.len() as int;
    let a = word_of_bits(s.drop_last());
    let b: nat = if s.last() {
        1
    } else {
        0
    };
    assert(word_of_bits(s) == 2 * a + b);
    lemma_fundamental_div_mod_converse(2 * a as int + b, 2, a as int, b as int);
    if j == n - 1 {
        lemma2_to64();
        vstd::arithmetic::div_mod::lemma_div_basics(2 * a as int + b);
    } else {
        let k = (n - 1 - j) as nat;
        lemma_pow2_unfold(k);
        lemma_pow2_pos((k - 1) as nat);
        lemma_div_denominator(2 * a as int + b, 2, pow2((k - 1) as nat) as int);
        lemma_word_of_bits_index(s.drop_last(), j);
        assert(s.drop_last()[j] == s[j]);
        assert((2 * a as int + b) / 2 == a);
        assert(pow2(k) == 2 * pow2((k - 1) as nat));
        assert((2 * a as int + b) / pow2(k) as int == a as int / pow2((k - 1) as nat) as int);
    }
}

/// Bit-order law: a sequence of exactly 64 bits fills a single word, in
/// which the first appended bit is the most significant — bit `j` of
/// the sequence lands `63 - j` binary places up in the word's value.
pub proof fn lemma_bit_order(bits: Seq<bool>)
    requires
        bits.len() == 64,
    ensures
        words_of_bits(bits).len() == 1,
        words_of_bits(bits)[0] == word_of_bits(bits),
        forall|j: int|
            0 <= j < 64 ==> (word_of_bits(bits) / pow2((63 - j) as nat)) % 2 == (if bits[j] {
                1nat
            } else {
                0nat
            }),
{
    crate::model::lemma_word_of_bits_bound(bits);
    lemma2_to64();
    assert(crate::model::word_segment(bits, 0) =~= bits);
    assert forall|j: int| 0 <= j < 64 implies (word_of_bits(bits) / pow2((63 - j) as nat)) % 2
        == (if bits[j] {
        1nat
    } else {
        0nat
    }) by {
        lemma_word_of_bits_index(bits, j);
    }
}

/// Determinism: any two fingerprints built from the same pixel grid
/// render as the same text, since both the bits and the rendering are
/// functions of the grid alone.
pub proof fn lemma_hash_deterministic(h1: crate::buffer::Hash, h2: crate::buffer::Hash, g: Seq<u8>)
    requires
        h1@ == hash_bits(g),
        h2@ == hash_bits(g),
    ensures
        text_of_bits(h1@) == text_of_bits(h2@),
{
}

/// Width law: an `n`-bit fingerprint renders as exactly `ceil(n/4)`
/// hexadecimal digits, whatever its bits.
pub proof fn lemma_text_width(bits: Seq<bool>)
    ensures
        text_of_bits(bits).len() == num_nibbles(bits.len()),
        4 * num_nibbles(bits.len()) >= bits.len(),
        bits.len() > 0 ==> 4 * (num_nibbles(bits.len()) - 1) < bits.len(),
{
    crate::model::lemma_text_len(bits);
    crate::model::lemma_num_nibbles(bits.len());
}

} // verus!
