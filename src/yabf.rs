use vstd::prelude::*;

use crate::ops::{
    all_clear, bits_of_words, list_positions, or_into, read_bit, reserve_bits, words_for_bits,
    write_bit, Cursor,
};
use crate::render::{debug_text, render};
use crate::store::WordStore;
use crate::words::{
    all_zero, bit_at, lemma_all_zero_iff_no_bit, lemma_or_words_bits, lemma_position,
    lemma_set_words_bits, lists_set_bits, next_set_from, no_bit_set, or_words, scan_yields,
    set_words, MAX_WORDS,
};

verus! {

/// A growable bit field whose words live in a `Vec<u32>`.
///
/// Every index is valid: reading past the stored words gives `false`, and
/// writing past them grows the storage.
pub struct Yabf {
    internals: Vec<u32>,
}

impl View for Yabf {
    type V = Seq<u32>;

    /// The stored words, lowest first.
    closed spec fn view(&self) -> Seq<u32> {
        self.internals.words()
    }
}

impl Yabf {
    /// The stored words never outnumber what a `usize` position can reach.
    #[verifier::type_invariant]
    spec fn inv(self) -> bool {
        self.internals.words().len() <= MAX_WORDS
    }

    /// Move the words out, leaving no word behind. Working on the words
    /// outside the field keeps the invariant whole even where growing them
    /// unwinds.
    fn take_words(&mut self) -> (r: Vec<u32>)
        ensures
            r.words() == old(self)@,
            r.words().len() <= MAX_WORDS,
            final(self)@ == Seq::<u32>::empty(),
    {
        proof {
            use_type_invariant(&*self);
        }
        let mut taken = Yabf { internals: Vec::<u32>::empty_store() };
        core::mem::swap(self, &mut taken);
        proof {
            use_type_invariant(&taken);
        }
        taken.internals
    }

    /// An empty bit field whose storage is asked for room for
    /// `words_for_bits(bits)` words, that is at least `bits` bits, before it
    /// reallocates.
    pub fn with_capacity(bits: usize) -> (r: Self)
        ensures
            r@ == Seq::<u32>::empty(),
            forall|n: int| !bit_at(r@, n),
    {
        Self { internals: Vec::<u32>::store_with_capacity(words_for_bits(bits)) }
    }

    /// Whether bit `n` is set. Bits past the stored words read as `false`.
    pub fn bit(&self, n: usize) -> (r: bool)
        ensures
            r == bit_at(self@, n as int),
    {
        read_bit(&self.internals, n)
    }

    /// Set bit `n` to `state`, growing the storage with zero words when `n`
    /// lies past it. Every other bit keeps its value.
    pub fn set_bit(&mut self, n: usize, state: bool)
        ensures
            final(self)@ == set_words(old(self)@, n as int, state),
            bit_at(final(self)@, n as int) == state,
            forall|m: int| m != n ==> bit_at(final(self)@, m) == bit_at(old(self)@, m),
    {
        let mut words = self.take_words();
        proof {
            lemma_set_words_bits(words.words(), n as int, state);
            lemma_position(n as int);
        }
        write_bit(&mut words, n, state);
        *self = Yabf { internals: words };
    }

    /// Whether no bit is set. Looks at every stored word, up to the first one
    /// that is not zero.
    pub fn is_empty(&self) -> (r: bool)
        ensures
            r == all_zero(self@),
            r == no_bit_set(self@),
    {
        proof {
            lemma_all_zero_iff_no_bit(self@);
        }
        all_clear(&self.internals)
    }

    /// The number of bits the storage holds without reallocating: its word
    /// capacity times 32, or `usize::MAX` where that product does not fit.
    pub fn capacity(&self) -> (r: usize)
        ensures
            r == usize::MAX || (r % 32 == 0 && r >= 32 * self@.len()),
    {
        bits_of_words(self.internals.word_capacity())
    }

    /// The number of stored words, which never exceeds `MAX_WORDS`.
    pub fn internal_len(&self) -> (r: usize)
        ensures
            r == self@.len(),
            self@.len() <= MAX_WORDS,
    {
        proof {
            use_type_invariant(self);
        }
        self.internals.word_count()
    }

    /// Make room for `additional_bits` more bits: `additional_bits / 32`
    /// words, and one word at least. May reserve more. The bits are left as
    /// they are.
    pub fn reserve(&mut self, additional_bits: usize)
        ensures
            final(self)@ == old(self)@,
    {
        let mut words = self.take_words();
        reserve_bits(&mut words, additional_bits);
        *self = Yabf { internals: words };
    }

    /// Drop every stored word, so that no bit is set.
    pub fn clear(&mut self)
        ensures
            final(self)@ == Seq::<u32>::empty(),
            forall|n: int| !bit_at(final(self)@, n),
    {
        let mut words = self.take_words();
        words.clear_words();
        *self = Yabf { internals: words };
    }

    /// A scan over the set bits, lowest first.
    pub fn iter(&self) -> (r: YabfIterator<'_>)
        ensures
            r.words() == self@,
            r.position() == 0,
    {
        YabfIterator::new(self)
    }

    /// The positions of the set bits, lowest first: what `iter()` yields,
    /// call after call of `next`, before it returns `None`.
    pub fn positions(&self) -> (r: Vec<usize>)
        ensures
            scan_yields(self@, r@),
            lists_set_bits(self@, r@),
    {
        proof {
            use_type_invariant(self);
        }
        list_positions(&self.internals)
    }

    /// Diagnostic text: `Yabf:0x0` when no word is stored, else `Yabf:0x`
    /// followed by the words, highest first, each as eight upper-case
    /// hexadecimal digits and an underscore.
    pub fn debug_string(&self) -> (r: String)
        ensures
            r@ == debug_text(seq!['Y', 'a', 'b', 'f', ':'], self@),
    {
        proof {
            reveal_strlit("Yabf:");
        }
        render("Yabf:", &self.internals)
    }

    /// OR `other` into this bit field: afterwards a bit is set exactly when
    /// it was set here or in `other`. Grows to the length of `other` where
    /// that is longer.
    pub fn merge(&mut self, other: &Yabf)
        ensures
            final(self)@ == or_words(old(self)@, other@),
            forall|n: int| bit_at(final(self)@, n) == (bit_at(old(self)@, n) || bit_at(other@, n)),
    {
        proof {
            use_type_invariant(other);
            lemma_or_words_bits(self@, other@);
        }
        let mut words = self.take_words();
        or_into(&mut words, &other.internals);
        *self = Yabf { internals: words };
    }
}

impl core::ops::BitOrAssign<&Yabf> for Yabf {
    /// `a |= &b` merges `b` into `a`.
    fn bitor_assign(&mut self, other: &Yabf)
        ensures
            final(self)@ == or_words(old(self)@, other@),
    {
        self.merge(other);
    }
}

impl Clone for Yabf {
    /// A bit field with the same words.
    fn clone(&self) -> (r: Self)
        ensures
            r@ == self@,
    {
        proof {
            use_type_invariant(self);
        }
        Yabf { internals: self.internals.copy_store() }
    }
}

impl Default for Yabf {
    /// An empty bit field.
    fn default() -> (r: Self)
        ensures
            r@ == Seq::<u32>::empty(),
            forall|n: int| !bit_at(r@, n),
    {
        Self { internals: Vec::<u32>::empty_store() }
    }
}

} // verus!

verus! {

/// An ascending scan over the set bits of a borrowed `Yabf`. Each call of
/// `next` yields the next set position, until none is left.
pub struct YabfIterator<'s> {
    yabf: &'s Yabf,
    cursor: Cursor,
}

impl<'s> Clone for YabfIterator<'s> {
    /// A scan over the same bit field that stands where this one does.
    fn clone(&self) -> (r: Self)
        ensures
            r.words() == self.words(),
            r.position() == self.position(),
    {
        proof {
            use_type_invariant(self);
        }
        YabfIterator { yabf: self.yabf, cursor: self.cursor }
    }
}

impl<'s> YabfIterator<'s> {
    /// The cursor fits the scanned bit field.
    #[verifier::type_invariant]
    spec fn inv(self) -> bool {
        self.cursor.wf(self.yabf@.len())
    }

    /// The words of the scanned bit field.
    pub closed spec fn words(&self) -> Seq<u32> {
        self.yabf@
    }

    /// The first position the scan has yet to look at.
    pub closed spec fn position(&self) -> int {
        self.cursor.position()
    }

    /// A scan over `yabf` that has yielded nothing yet.
    pub fn new(yabf: &'s Yabf) -> (r: Self)
        ensures
            r.words() == yabf@,
            r.position() == 0,
    {
        Self { yabf, cursor: Cursor::start() }
    }

    /// The lowest set position at or after `position()`, or `None` where
    /// there is none; in that case the scan stays where it is.
    pub fn next(&mut self) -> (r: Option<usize>)
        ensures
            final(self).words() == old(self).words(),
            match r {
                Some(p) => {
                    &&& next_set_from(old(self).words(), old(self).position(), p as int)
                    &&& final(self).position() == p + 1
                },
                None => {
                    &&& forall|q: int| old(self).position() <= q ==> !bit_at(old(self).words(), q)
                    &&& final(self).position() == old(self).position()
                },
            },
    {
        proof {
            use_type_invariant(&*self);
            use_type_invariant(self.yabf);
        }
        let mut cursor = self.cursor;
        let r = cursor.advance(&self.yabf.internals);
        self.cursor = cursor;
        r
    }
}

} // verus!
