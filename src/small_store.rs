use vstd::prelude::*;

use smallvec::SmallVec;

use crate::store::WordStore;
use crate::words::MAX_WORDS;

verus! {

/// Words kept in a `smallvec::SmallVec`: the first four inline, the rest on
/// the heap. Verus does not take the declaration of `SmallVec` itself (its
/// parameter is bound by the crate's own `Array` trait), so the vector stays
/// hidden in this struct.
#[verifier::external_body]
pub struct SmallWords {
    inner: SmallVec<[u32; 4]>,
}

/// The words a `SmallWords` holds, lowest first.
pub uninterp spec fn small_words(v: SmallWords) -> Seq<u32>;

/// Relies on `SmallVec::new`: a new vector holds nothing.
#[verifier::external_body]
fn small_new() -> (r: SmallWords)
    ensures
        small_words(r) == Seq::<u32>::empty(),
{
    SmallWords { inner: SmallVec::new() }
}

/// Relies on `SmallVec::with_capacity`: a new vector holds nothing. The
/// bound keeps the room asked for clear of its capacity overflow panic.
#[verifier::external_body]
fn small_with_capacity(n: usize) -> (r: SmallWords)
    requires
        n <= MAX_WORDS,
    ensures
        small_words(r) == Seq::<u32>::empty(),
{
    SmallWords { inner: SmallVec::with_capacity(n) }
}

/// Relies on `SmallVec::clone`: the copy holds the same elements.
#[verifier::external_body]
fn small_clone(v: &SmallWords) -> (r: SmallWords)
    ensures
        small_words(r) == small_words(*v),
{
    SmallWords { inner: v.inner.clone() }
}

/// Relies on `SmallVec::len`: the number of elements held.
#[verifier::external_body]
fn small_len(v: &SmallWords) -> (r: usize)
    ensures
        r == small_words(*v).len(),
{
    v.inner.len()
}

/// Relies on `SmallVec`'s `Index`: element `i`, which is in bounds.
#[verifier::external_body]
fn small_get(v: &SmallWords, i: usize) -> (r: u32)
    requires
        i < small_words(*v).len(),
    ensures
        r == small_words(*v)[i as int],
{
    v.inner[i]
}

/// Relies on `SmallVec`'s `IndexMut`: assigning through it replaces element
/// `i`, which is in bounds, and nothing else.
#[verifier::external_body]
fn small_set(v: &mut SmallWords, i: usize, w: u32)
    requires
        i < small_words(*old(v)).len(),
    ensures
        small_words(*final(v)) == small_words(*old(v)).update(i as int, w),
{
    v.inner[i] = w;
}

/// Relies on `SmallVec::push`: appends one element. The bound keeps the
/// growth clear of its capacity overflow panic.
#[verifier::external_body]
fn small_push(v: &mut SmallWords, w: u32)
    requires
        small_words(*old(v)).len() < MAX_WORDS,
    ensures
        small_words(*final(v)) == small_words(*old(v)).push(w),
{
    v.inner.push(w);
}

/// Relies on `SmallVec::capacity`: never less than the length.
#[verifier::external_body]
fn small_capacity(v: &SmallWords) -> (r: usize)
    ensures
        r >= small_words(*v).len(),
{
    v.inner.capacity()
}

/// Relies on `SmallVec::reserve`: reserving changes no element. The bound
/// keeps the rounded-up capacity clear of its overflow panic.
#[verifier::external_body]
fn small_reserve(v: &mut SmallWords, additional: usize)
    requires
        small_words(*old(v)).len() + additional <= 2 * MAX_WORDS,
    ensures
        small_words(*final(v)) == small_words(*old(v)),
{
    v.inner.reserve(additional);
}

/// Relies on `SmallVec::reserve_exact`: reserving changes no element. The
/// bound keeps the capacity clear of its overflow panic.
#[verifier::external_body]
fn small_reserve_exact(v: &mut SmallWords, additional: usize)
    requires
        small_words(*old(v)).len() + additional <= MAX_WORDS,
    ensures
        small_words(*final(v)) == small_words(*old(v)),
{
    v.inner.reserve_exact(additional);
}

/// Relies on `SmallVec::clear`: no element is left.
#[verifier::external_body]
fn small_clear(v: &mut SmallWords)
    ensures
        small_words(*final(v)) == Seq::<u32>::empty(),
{
    v.inner.clear();
}

impl WordStore for SmallWords {
    open spec fn words(&self) -> Seq<u32> {
        small_words(*self)
    }

    fn empty_store() -> (r: Self) {
        small_new()
    }

    fn store_with_capacity(n: usize) -> (r: Self) {
        small_with_capacity(n)
    }

    fn copy_store(&self) -> (r: Self) {
        small_clone(self)
    }

    fn word_count(&self) -> (r: usize) {
        small_len(self)
    }

    fn word(&self, i: usize) -> (r: u32) {
        small_get(self, i)
    }

    fn set_word(&mut self, i: usize, w: u32) {
        small_set(self, i, w);
    }

    fn push_word(&mut self, w: u32) {
        small_push(self, w);
    }

    fn word_capacity(&self) -> (r: usize) {
        small_capacity(self)
    }

    fn reserve_words(&mut self, additional: usize) {
        small_reserve(self, additional);
    }

    fn reserve_exact_words(&mut self, additional: usize) {
        small_reserve_exact(self, additional);
    }

    fn clear_words(&mut self) {
        small_clear(self);
    }
}

} // verus!
