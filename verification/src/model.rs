//! Mathematical model of the hash: how a sequence of appended bits packs
//! into 64-bit words, and how a packed hash renders as hexadecimal text.

use vstd::arithmetic::div_mod::lemma_fundamental_div_mod;
use vstd::arithmetic::power2::{lemma2_to64, lemma_pow2_unfold, pow2};
use vstd::prelude::*;

verus! {

/// Number of 64-bit words needed to hold `n` bits.
pub open spec fn num_words(n: nat) -> nat {
    (n + 63) / 64
}

/// Numeric value of a bit sequence, first bit most significant: every
/// append shifts the value one position left and sets the low bit.
pub open spec fn word_of_bits(s: Seq<bool>) -> nat
    decreases s.len(),
{
    if s.len() == 0 {
        0
    } else {
        2 * word_of_bits(s.drop_last()) + (if s.last() {
            1nat
        } else {
            0nat
        })
    }
}

/// The slice of `bits` that word `i` holds: bit `64*i` up to bit
/// `64*(i+1)`, or up to the end of the sequence for the last word.
pub open spec fn word_segment(bits: Seq<bool>, i: int) -> Seq<bool> {
    bits.subrange(
        64 * i,
        if 64 * (i + 1) <= bits.len() {
            64 * (i + 1)
        } else {
            bits.len() as int
        },
    )
}

/// The packed words that a bit sequence fills, in order of filling.
pub open spec fn words_of_bits(bits: Seq<bool>) -> Seq<u64> {
    Seq::new(num_words(bits.len()), |i: int| word_of_bits(word_segment(bits, i)) as u64)
}

/// A bit sequence of length `n` never exceeds `n` bits' worth of value.
pub proof fn lemma_word_of_bits_bound(s: Seq<bool>)
    ensures
        word_of_bits(s) < pow2(s.len()),
    decreases s.len(),
{
    if s.len() == 0 {
        lemma2_to64();
    } else {
        lemma_word_of_bits_bound(s.drop_last());
        lemma_pow2_unfold(s.len());
    }
}

/// `num_words` is the exact ceiling of `n / 64`.
pub proof fn lemma_num_words(n: nat)
    ensures
        64 * num_words(n) >= n,
        n > 0 ==> 64 * (num_words(n) - 1) < n,
        n == 0 ==> num_words(n) == 0,
{
    lemma_fundamental_div_mod(n as int + 63, 64);
}

/// Number of hex digits in the rendering of an `n`-bit hash: the exact
/// ceiling of `n / 4`.
pub open spec fn num_nibbles(n: nat) -> nat {
    (n + 3) / 4
}

/// `num_nibbles` is the exact ceiling of `n / 4`.
pub proof fn lemma_num_nibbles(n: nat)
    ensures
        4 * num_nibbles(n) >= n,
        n > 0 ==> 4 * (num_nibbles(n) - 1) < n,
        n == 0 ==> num_nibbles(n) == 0,
{
    lemma_fundamental_div_mod(n as int + 3, 4);
}

/// While digits are still owed, the word that renders next exists.
pub proof fn lemma_nibbles_need_word(n: nat, index: nat)
    requires
        16 * index < num_nibbles(n),
    ensures
        index < num_words(n),
{
    lemma_num_nibbles(n);
    lemma_num_words(n);
}

/// Hexadecimal digit character for a value below 16.
pub open spec fn hex_char(d: nat) -> char {
    if d == 0 {
        '0'
    } else if d == 1 {
        '1'
    } else if d == 2 {
        '2'
    } else if d == 3 {
        '3'
    } else if d == 4 {
        '4'
    } else if d == 5 {
        '5'
    } else if d == 6 {
        '6'
    } else if d == 7 {
        '7'
    } else if d == 8 {
        '8'
    } else if d == 9 {
        '9'
    } else if d == 10 {
        'a'
    } else if d == 11 {
        'b'
    } else if d == 12 {
        'c'
    } else if d == 13 {
        'd'
    } else if d == 14 {
        'e'
    } else {
        'f'
    }
}

/// The `w` hex digits of word `v`, most significant first: digit `j`
/// holds bits `4*(w-1-j)` through `4*(w-1-j)+3` of the word's value.
pub open spec fn word_digits(v: u64, w: nat) -> Seq<char> {
    Seq::new(w, |j: int| hex_char(((v >> ((4 * (w - 1 - j)) as u64)) & 0xf) as nat))
}

/// Rendering of the words from `index` on, with `nibbles` digits still
/// owed: each word emits `min(nibbles, 16)` digits, left-padded with
/// zeros to exactly that width.
pub open spec fn render_words(words: Seq<u64>, nibbles: nat, index: int) -> Seq<char>
    decreases nibbles,
{
    if nibbles == 0 || index < 0 || index >= words.len() {
        Seq::empty()
    } else {
        let w = if nibbles <= 16 {
            nibbles
        } else {
            16nat
        };
        word_digits(words[index], w) + render_words(words, (nibbles - w) as nat, index + 1)
    }
}

/// The full hexadecimal rendering of a hash of `size` significant bits
/// packed into `words`: `ceil(size/4)` digits in all.
pub open spec fn render_hash(words: Seq<u64>, size: nat) -> Seq<char> {
    render_words(words, num_nibbles(size), 0)
}

/// The rendering as a function of the appended bits alone.
pub open spec fn text_of_bits(bits: Seq<bool>) -> Seq<char> {
    render_hash(words_of_bits(bits), bits.len())
}

/// The rendering from `index` on emits exactly the digits still owed,
/// as long as the remaining words can carry them.
pub proof fn lemma_render_words_len(words: Seq<u64>, nibbles: nat, index: nat)
    requires
        nibbles + 16 * index <= 16 * words.len(),
    ensures
        render_words(words, nibbles, index as int).len() == nibbles,
    decreases nibbles,
{
    if nibbles > 0 {
        let w = if nibbles <= 16 {
            nibbles
        } else {
            16nat
        };
        lemma_render_words_len(words, (nibbles - w) as nat, (index + 1) as nat);
    }
}

/// The rendering of an `n`-bit hash is exactly `ceil(n/4)` digits long.
pub proof fn lemma_text_len(bits: Seq<bool>)
    ensures
        text_of_bits(bits).len() == num_nibbles(bits.len()),
{
    let n = bits.len();
    lemma_num_nibbles(n);
    lemma_num_words(n);
    assert(num_nibbles(n) <= 16 * num_words(n));
    lemma_render_words_len(words_of_bits(bits), num_nibbles(n), 0);
}

/// Sum of the intensities of a pixel grid.
pub open spec fn sum_of(s: Seq<u8>) -> nat
    decreases s.len(),
{
    if s.len() == 0 {
        0
    } else {
        sum_of(s.drop_last()) + s.last() as nat
    }
}

/// Average intensity of a pixel grid: the floor of sum over count.
pub open spec fn avg_of(s: Seq<u8>) -> nat
    recommends
        s.len() > 0,
{
    sum_of(s) / s.len()
}

/// The hash bits of a pixel grid in raster order: one bit per pixel,
/// set exactly when the pixel's intensity reaches the grid's average.
pub open spec fn hash_bits(s: Seq<u8>) -> Seq<bool> {
    Seq::new(s.len(), |i: int| s[i] >= avg_of(s))
}

/// The sum of a grid never exceeds 255 per pixel.
pub proof fn lemma_sum_of_bound(s: Seq<u8>)
    ensures
        sum_of(s) <= 255 * s.len(),
    decreases s.len(),
{
    if s.len() > 0 {
        lemma_sum_of_bound(s.drop_last());
    }
}

} // verus!
