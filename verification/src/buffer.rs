//! The bit buffer: an append-only accumulator that packs bits into
//! 64-bit words, and the immutable hash it freezes into.

use crate::error::HashError;
use crate::model::{
    hex_char, lemma_nibbles_need_word, lemma_num_words, lemma_word_of_bits_bound, num_nibbles, num_words, render_hash, render_words, text_of_bits,
    word_digits, word_of_bits, word_segment, words_of_bits,
};
use vstd::arithmetic::power2::{lemma2_to64_rest, lemma_pow2_strictly_increases};
use vstd::prelude::*;

verus! {

/// Relies on `alloc::string::String::push`: appends the given character
/// to the end of the string.
pub assume_specification[ String::push ](s: &mut String, ch: char)
    ensures
        final (s)@ == old(s)@.push(ch),
;

/// An append-only buffer of bits packed into 64-bit words. Words fill
/// low-to-high within each slot: every append shifts the word being
/// filled one bit left and sets its low bit, and a fresh word starts
/// whenever the fill count is a multiple of 64.
///
/// Its view is the sequence of bits appended so far.
pub struct HashBuilder {
    backing: Vec<u64>,
    target_size: usize,
    size: usize,
    appended: Ghost<Seq<bool>>,
}

/// An immutable fingerprint: the packed words of a finished buffer and
/// its significant bit count, renderable as hexadecimal text.
///
/// Its view is the sequence of bits it carries.
pub struct Hash {
    backing: Vec<u64>,
    size: usize,
    appended: Ghost<Seq<bool>>,
}

impl View for HashBuilder {
    type V = Seq<bool>;

    closed spec fn view(&self) -> Seq<bool> {
        self.appended@
    }
}

impl View for Hash {
    type V = Seq<bool>;

    closed spec fn view(&self) -> Seq<bool> {
        self.appended@
    }
}

/// The words `backing` are exactly the bits of `appended`, packed.
spec fn packs(backing: Seq<u64>, appended: Seq<bool>) -> bool {
    &&& backing.len() == num_words(appended.len())
    &&& forall|i: int|
        0 <= i < backing.len() ==> backing[i] == word_of_bits(#[trigger] word_segment(appended, i))
}

impl HashBuilder {
    /// The buffer's internal invariant: the words hold exactly the bits
    /// appended so far, which never outnumber the target.
    pub closed spec fn wf(&self) -> bool {
        &&& self.size == self.appended@.len()
        &&& self.size <= self.target_size
        &&& packs(self.backing@, self.appended@)
    }

    /// The fixed total number of bits the buffer must ultimately hold.
    pub closed spec fn target(&self) -> nat {
        self.target_size as nat
    }

    /// A fresh buffer with no bits filled and storage pre-sized for
    /// `ceil(size/64)` words. Any `size` is legal, zero included.
    pub fn new(size: usize) -> (r: HashBuilder)
        ensures
            r.wf(),
            r@ == Seq::<bool>::empty(),
            r.target() == size,
    {
        let full_words = size / 64;
        let word_count = full_words + if size % 64 > 0 {
            1
        } else {
            0
        };
        HashBuilder {
            backing: Vec::with_capacity(word_count),
            target_size: size,
            size: 0,
            appended: Ghost(Seq::empty()),
        }
    }

    /// Appends one bit: the first bit of each word enters at the bottom
    /// and is shifted up by the bits that follow it.
    pub fn add_bit(&mut self, is_one: bool)
        requires
            old(self).wf(),
            old(self)@.len() < old(self).target(),
        ensures
            final (self).wf(),
            final (self)@ == old(self)@.push(is_one),
            final (self).target() == old(self).target(),
    {
        let ghost oldbits = self.appended@;
        let bit: u64 = if is_one {
            1
        } else {
            0
        };
        if self.size % 64 == 0 {
            self.backing.push(bit);
            proof {
                lemma_num_words(oldbits.len());
                lemma_num_words(oldbits.len() + 1);
            }
        } else {
            let last = self.backing.len() - 1;
            proof {
                lemma_num_words(oldbits.len());
                vstd::arithmetic::div_mod::lemma_mod_multiples_basic(last as int + 1, 64);
                let seg = word_segment(oldbits, last as int);
                assert(seg.len() == oldbits.len() - 64 * last);
                lemma_word_of_bits_bound(seg);
                if seg.len() < 63 {
                    lemma_pow2_strictly_increases(seg.len(), 63);
                }
                lemma2_to64_rest();
            }
            let w = self.backing[last];
            self.backing.set(last, w * 2 + bit);
        }
        self.size = self.size + 1;
        proof {
            self.appended@ = oldbits.push(is_one);
            lemma_num_words(oldbits.len());
            lemma_num_words(oldbits.len() + 1);
            assert forall|i: int| 0 <= i < self.backing@.len() implies self.backing@[i]
                == word_of_bits(#[trigger] word_segment(self.appended@, i)) by {
                if i < self.backing@.len() - 1 {
                    assert(word_segment(self.appended@, i) =~= word_segment(oldbits, i));
                } else {
                    let seg = word_segment(self.appended@, i);
                    if oldbits.len() % 64 == 0 {
                        assert(seg =~= Seq::empty().push(is_one));
                        assert(word_of_bits(seg.drop_last()) == 0);
                    } else {
                        assert(seg.drop_last() =~= word_segment(oldbits, i));
                    }
                }
            }
        }
    }

    /// Consumes the buffer. Succeeds exactly when as many bits were
    /// appended as the target demands, freezing them into a [`Hash`];
    /// an under-filled buffer is refused with
    /// [`HashError::NotEnoughBits`].
    pub fn finalize(self) -> (r: Result<Hash, HashError>)
        requires
            self.wf(),
        ensures
            self@.len() >= self.target() ==> (r matches Ok(h) && h.wf() && h@ == self@
                && h@.len() == self.target()),
            self@.len() < self.target() ==> (r matches Err(e) && e is NotEnoughBits),
    {
        if self.size < self.target_size {
            Err(HashError::NotEnoughBits)
        } else {
            Ok(Hash { backing: self.backing, size: self.target_size, appended: self.appended })
        }
    }
}

/// The hexadecimal digit character of a value below 16.
fn hex_digit(d: u64) -> (c: char)
    requires
        d < 16,
    ensures
        c == hex_char(d as nat),
{
    if d == 0 {
        '0'
    } else if d == 1 {
        '1'
    } else if d == 2 {
        '2'
    } else if d == 3 {
        '3'
    } else if d == 4 {
        '4'
    } else if d == 5 {
        '5'
    } else if d == 6 {
        '6'
    } else if d == 7 {
        '7'
    } else if d == 8 {
        '8'
    } else if d == 9 {
        '9'
    } else if d == 10 {
        'a'
    } else if d == 11 {
        'b'
    } else if d == 12 {
        'c'
    } else if d == 13 {
        'd'
    } else if d == 14 {
        'e'
    } else {
        'f'
    }
}

impl Hash {
    /// The hash's internal invariant: the words hold exactly the
    /// significant bits.
    pub closed spec fn wf(&self) -> bool {
        &&& self.size == self.appended@.len()
        &&& packs(self.backing@, self.appended@)
    }

    /// The number of significant bits of the fingerprint.
    pub fn size(&self) -> (n: usize)
        requires
            self.wf(),
        ensures
            n == self@.len(),
    {
        self.size
    }

    /// Renders the hash as hexadecimal text of exactly `ceil(size/4)`
    /// digits: word by word from the first-filled word on, each word
    /// emits `min(remaining_nibbles, 16)` digits, zero-padded on the
    /// left to exactly that width.
    pub fn to_text(&self) -> (r: String)
        requires
            self.wf(),
        ensures
            r@ == text_of_bits(self@),
    {
        let mut out = String::new();
        let total: usize = self.size / 4 + if self.size % 4 > 0 {
            1
        } else {
            0
        };
        let mut remaining: usize = total;
        let mut index: usize = 0;
        proof {
            assert(self.backing@ =~= words_of_bits(self.appended@));
        }
        while remaining > 0
            invariant
                self.wf(),
                total == num_nibbles(self@.len()),
                self.backing@ == words_of_bits(self@),
                remaining > 0 ==> remaining + 16 * index == total,
                out@ + render_words(self.backing@, remaining as nat, index as int) == render_hash(
                    self.backing@,
                    self@.len(),
                ),
            decreases remaining,
        {
            proof {
                lemma_nibbles_need_word(self@.len(), index as nat);
            }
            let w64 = self.backing[index];
            let width = if remaining < 16 {
                remaining
            } else {
                16
            };
            let ghost prefix = out@;
            let mut j: usize = 0;
            while j < width
                invariant
                    j <= width,
                    1 <= width <= 16,
                    width <= remaining,
                    out@ == prefix + word_digits(w64, width as nat).take(j as int),
                decreases width - j,
            {
                let shift: u64 = (4 * (width - 1 - j)) as u64;
                let d: u64 = (w64 >> shift) & 0xf;
                assert(d < 16) by (bit_vector)
                    requires
                        d == (w64 >> shift) & 0xf,
                ;
                out.push(hex_digit(d));
                proof {
                    assert(word_digits(w64, width as nat).take(j + 1) =~= word_digits(
                        w64,
                        width as nat,
                    ).take(j as int).push(word_digits(w64, width as nat)[j as int]));
                }
                j = j + 1;
            }
            proof {
                assert(word_digits(w64, width as nat).take(width as int) =~= word_digits(
                    w64,
                    width as nat,
                ));
            }
            remaining = remaining - width;
            index = index + 1;
        }
        proof {
            assert(out@ =~= render_hash(self.backing@, self@.len()));
        }
        out
    }
}

} // verus!
