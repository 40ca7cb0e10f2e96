use vstd::prelude::*;

use crate::words::MAX_WORDS;

verus! {

/// A growable, owned sequence of 32-bit words: the storage a bit field is
/// built on. Its contents are `words()`; how the words are allocated is the
/// implementation's own business.
pub trait WordStore: Sized {
    /// The words held, lowest first.
    spec fn words(&self) -> Seq<u32>;

    /// An empty store.
    fn empty_store() -> (r: Self)
        ensures
            r.words() == Seq::<u32>::empty(),
    ;

    /// An empty store with room for at least `n` words.
    fn store_with_capacity(n: usize) -> (r: Self)
        requires
            n <= MAX_WORDS,
        ensures
            r.words() == Seq::<u32>::empty(),
    ;

    /// A store holding the same words.
    fn copy_store(&self) -> (r: Self)
        ensures
            r.words() == self.words(),
    ;

    /// The number of words held.
    fn word_count(&self) -> (r: usize)
        ensures
            r == self.words().len(),
    ;

    /// Word `i`.
    fn word(&self, i: usize) -> (r: u32)
        requires
            i < self.words().len(),
        ensures
            r == self.words()[i as int],
    ;

    /// Replace word `i` by `w`.
    fn set_word(&mut self, i: usize, w: u32)
        requires
            i < old(self).words().len(),
        ensures
            final(self).words() == old(self).words().update(i as int, w),
    ;

    /// Append `w`. The bound keeps the growth clear of the capacity
    /// overflow on which a store panics.
    fn push_word(&mut self, w: u32)
        requires
            old(self).words().len() < MAX_WORDS,
        ensures
            final(self).words() == old(self).words().push(w),
    ;

    /// The number of words the store can hold without reallocating.
    fn word_capacity(&self) -> (r: usize)
        ensures
            r >= self.words().len(),
    ;

    /// Make room for at least `additional` more words, possibly more.
    fn reserve_words(&mut self, additional: usize)
        requires
            old(self).words().len() + additional <= 2 * MAX_WORDS,
        ensures
            final(self).words() == old(self).words(),
    ;

    /// Make room for at least `additional` more words, as few more as the
    /// store allows.
    fn reserve_exact_words(&mut self, additional: usize)
        requires
            old(self).words().len() + additional <= MAX_WORDS,
        ensures
            final(self).words() == old(self).words(),
    ;

    /// Drop every word.
    fn clear_words(&mut self)
        ensures
            final(self).words() == Seq::<u32>::empty(),
    ;
}

/// Relies on `Vec::capacity`: the vector holds no more elements than it has
/// room for.
#[verifier::external_body]
fn vec_capacity(v: &Vec<u32>) -> (r: usize)
    ensures
        r >= v@.len(),
{
    v.capacity()
}

/// Relies on `Vec::reserve_exact`: reserving changes no element. The bound
/// keeps the new capacity clear of its panic past `isize::MAX` bytes.
#[verifier::external_body]
fn vec_reserve_exact(v: &mut Vec<u32>, additional: usize)
    requires
        old(v)@.len() + additional <= MAX_WORDS,
    ensures
        final(v)@ == old(v)@,
{
    v.reserve_exact(additional)
}

impl WordStore for Vec<u32> {
    open spec fn words(&self) -> Seq<u32> {
        self@
    }

    fn empty_store() -> (r: Self) {
        Vec::new()
    }

    fn store_with_capacity(n: usize) -> (r: Self) {
        Vec::with_capacity(n)
    }

    fn copy_store(&self) -> (r: Self) {
        let r = self.clone();
        assert(r@ =~= self@);
        r
    }

    fn word_count(&self) -> (r: usize) {
        self.len()
    }

    fn word(&self, i: usize) -> (r: u32) {
        self[i]
    }

    fn set_word(&mut self, i: usize, w: u32) {
        self.set(i, w);
    }

    fn push_word(&mut self, w: u32) {
        self.push(w);
    }

    fn word_capacity(&self) -> (r: usize) {
        vec_capacity(self)
    }

    fn reserve_words(&mut self, additional: usize) {
        self.reserve(additional);
    }

    fn reserve_exact_words(&mut self, additional: usize) {
        vec_reserve_exact(self, additional);
    }

    fn clear_words(&mut self) {
        self.clear();
    }
}

} // verus!
