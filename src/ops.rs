use vstd::prelude::*;

use crate::laws::lemma_scan_lists_set_bits;
use crate::store::WordStore;
use crate::words::{
    all_zero, bit_at, next_set_from, scan_yields, extend_to, lemma_clear_zero, lemma_high_half,
    lemma_last_position, lemma_low_half, lemma_position, lemma_word_or, lemma_zero_word,
    lists_set_bits, or_words, set_words, word_or_zero, zeros, MAX_WORDS,
};

verus! {

/// The number of words a store needs for room for `bits` bits: one more
/// than the words `bits` fills.
pub fn words_for_bits(bits: usize) -> (r: usize)
    ensures
        r == bits / 32 + 1,
{
    (bits / 32) + 1
}

/// The number of bits `words` words hold, or `usize::MAX` where that does
/// not fit.
pub fn bits_of_words(words: usize) -> (r: usize)
    ensures
        words <= usize::MAX / 32 ==> r == words * 32,
        words > usize::MAX / 32 ==> r == usize::MAX,
{
    if words > usize::MAX / 32 {
        usize::MAX
    } else {
        words * 32
    }
}

/// How many more words than `cap` it takes to hold `needed` words: the
/// exact amount a store grows by when it has to reach `needed`.
pub fn words_missing(needed: usize, cap: usize) -> (r: usize)
    requires
        needed > cap,
    ensures
        r == needed - cap,
{
    needed - cap
}

/// Whether position `n` is set in the store.
pub fn read_bit<S: WordStore>(s: &S, n: usize) -> (r: bool)
    ensures
        r == bit_at(s.words(), n as int),
{
    let word = n / 32;
    if word < s.word_count() {
        let value = s.word(word);
        return value & (1u32 << ((n % 32) as u32)) != 0;
    }
    false
}

/// Set position `n` of the store to `state`, growing the store with zero
/// words as far as needed and reserving exactly the room the growth takes.
pub fn write_bit<S: WordStore>(s: &mut S, n: usize, state: bool)
    requires
        old(s).words().len() <= MAX_WORDS,
    ensures
        final(s).words() == set_words(old(s).words(), n as int, state),
{
    let ghost ws0 = s.words();
    proof {
        lemma_position(n as int);
    }
    let word = n / 32;
    let cap = s.word_capacity();
    if word >= cap {
        s.reserve_exact_words(words_missing(word + 1, cap));
    }
    if s.word_count() == 0 {
        // an empty store first gets one zero word, so that the last word exists
        s.push_word(0);
        assert(s.words() =~= extend_to(ws0, 1));
    }
    let bit_mask = 1u32 << ((n % 32) as u32);
    let len = s.word_count();
    let ghost ext = extend_to(ws0, n / 32 + 1);
    if word >= len {
        let mut k: usize = len;
        while k < word
            invariant
                len <= k <= word,
                ws0.len() <= k,
                word < MAX_WORDS,
                s.words() =~= extend_to(ws0, k as int),
            decreases word - k,
        {
            assert(extend_to(ws0, k as int) =~= ws0 + zeros((k - ws0.len()) as nat));
            s.push_word(0);
            k += 1;
            assert(s.words() =~= extend_to(ws0, k as int));
        }
        proof {
            lemma_word_or(0, bit_mask, 0);
            lemma_clear_zero(bit_mask);
        }
        if state {
            s.push_word(bit_mask);
        } else {
            s.push_word(0);
        }
        assert(s.words() =~= set_words(ws0, n as int, state));
    } else {
        assert(ext =~= s.words());
        let w = s.word(word);
        if state {
            s.set_word(word, w | bit_mask);
        } else {
            s.set_word(word, w & !bit_mask);
        }
    }
}

/// Whether every word of the store is zero; visits each word up to the first
/// one that is not.
pub fn all_clear<S: WordStore>(s: &S) -> (r: bool)
    ensures
        r == all_zero(s.words()),
{
    let len = s.word_count();
    let mut i: usize = 0;
    while i < len
        invariant
            i <= len,
            len == s.words().len(),
            forall|j: int| 0 <= j < i ==> s.words()[j] == 0,
        decreases len - i,
    {
        if s.word(i) != 0 {
            return false;
        }
        i += 1;
    }
    true
}

/// OR the words of `o` into `s`: the overlapping words are combined, and
/// where `o` is longer its extra words are appended unchanged.
pub fn or_into<S: WordStore, T: WordStore>(s: &mut S, o: &T)
    requires
        old(s).words().len() <= MAX_WORDS,
        o.words().len() <= MAX_WORDS,
    ensures
        final(s).words() == or_words(old(s).words(), o.words()),
{
    let ghost a = s.words();
    let ghost b = o.words();
    let self_len = s.word_count();
    let other_len = o.word_count();
    let common = if self_len < other_len { self_len } else { other_len };
    let mut i: usize = 0;
    while i < common
        invariant
            i <= common,
            common <= self_len,
            common <= other_len,
            self_len == a.len(),
            other_len == b.len(),
            b == o.words(),
            s.words().len() == a.len(),
            forall|j: int| 0 <= j < i ==> s.words()[j] == a[j] | b[j],
            forall|j: int| i <= j < a.len() ==> s.words()[j] == a[j],
        decreases common - i,
    {
        let v = s.word(i) | o.word(i);
        s.set_word(i, v);
        i += 1;
    }
    if self_len < other_len {
        let cap = s.word_capacity();
        if other_len > cap {
            s.reserve_exact_words(words_missing(other_len, cap));
        }
        let mut k: usize = self_len;
        while k < other_len
            invariant
                self_len <= k <= other_len,
                other_len <= MAX_WORDS,
                self_len == a.len(),
                other_len == b.len(),
                b == o.words(),
                s.words().len() == k,
                forall|j: int| 0 <= j < self_len ==> s.words()[j] == a[j] | b[j],
                forall|j: int| self_len <= j < k ==> s.words()[j] == b[j],
            decreases other_len - k,
        {
            s.push_word(o.word(k));
            k += 1;
        }
    }
    assert forall|j: int| 0 <= j < s.words().len() implies s.words()[j] == or_words(a, b)[j] by {
        lemma_word_or(word_or_zero(a, j), word_or_zero(b, j), 0);
    }
    assert(s.words() =~= or_words(a, b));
}

/// The number of words to reserve for `additional_bits` more bits:
/// `additional_bits / 32` rounded down, and one at least.
pub fn words_to_reserve(additional_bits: usize) -> (r: usize)
    ensures
        r == if additional_bits / 32 < 1 {
            1
        } else {
            additional_bits / 32
        },
{
    let additional = additional_bits / 32;
    if additional < 1 {
        1
    } else {
        additional
    }
}

/// Make room for at least `words_to_reserve(additional_bits)` more words.
pub fn reserve_bits<S: WordStore>(s: &mut S, additional_bits: usize)
    requires
        old(s).words().len() <= MAX_WORDS,
    ensures
        final(s).words() == old(s).words(),
{
    let additional = words_to_reserve(additional_bits);
    s.reserve_words(additional);
}

/// The set positions of the store, lowest first, as a fresh scan yields
/// them one after the other.
pub fn list_positions<S: WordStore>(s: &S) -> (r: Vec<usize>)
    requires
        s.words().len() <= MAX_WORDS,
    ensures
        scan_yields(s.words(), r@),
        lists_set_bits(s.words(), r@),
{
    let ghost ws = s.words();
    let mut cursor = Cursor::start();
    let mut v: Vec<usize> = Vec::new();
    loop
        invariant
            ws == s.words(),
            ws.len() <= MAX_WORDS,
            cursor.wf(ws.len()),
            cursor.position() == if v@.len() == 0 {
                0
            } else {
                v@.last() + 1
            },
            forall|i: int|
                0 <= i < v@.len() ==> next_set_from(
                    ws,
                    if i == 0 {
                        0
                    } else {
                        v@[i - 1] + 1
                    },
                    #[trigger] v@[i] as int,
                ),
        decreases usize::MAX + 1 - cursor.position(),
    {
        match cursor.advance(s) {
            Some(p) => {
                let ghost v0 = v@;
                v.push(p);
                assert(forall|i: int| 0 <= i < v0.len() ==> v@[i] == v0[i]);
            },
            None => {
                proof {
                    lemma_scan_lists_set_bits(ws, v@);
                }
                return v;
            },
        }
    }
}

/// Where an ascending scan over the set positions of a store stands: the
/// word and offset of the last position it yielded, or nothing yet.
#[derive(Clone, Copy)]
pub struct Cursor {
    last_word: usize,
    /// `usize::MAX` until a first position has been yielded.
    last_bit: usize,
}

impl Cursor {
    /// The cursor fits a store of `len` words.
    pub closed spec fn wf(self, len: nat) -> bool {
        ||| self.last_bit == usize::MAX && self.last_word == 0
        ||| self.last_bit < 32 && self.last_word < len
    }

    /// The first position the scan has yet to look at.
    pub closed spec fn position(self) -> int {
        if self.last_bit == usize::MAX {
            0
        } else {
            self.last_word * 32 + self.last_bit + 1
        }
    }

    /// A cursor before the first position.
    pub fn start() -> (r: Cursor)
        ensures
            r.position() == 0,
            forall|len: nat| r.wf(len),
    {
        Cursor { last_word: 0, last_bit: usize::MAX }
    }

    /// Find the next set position of `s` at or after `position()`. Whole zero
    /// words are skipped, and so are zero halves of a word.
    pub fn advance<S: WordStore>(&mut self, s: &S) -> (r: Option<usize>)
        requires
            old(self).wf(s.words().len()),
            s.words().len() <= MAX_WORDS,
        ensures
            final(self).wf(s.words().len()),
            match r {
                Some(p) => {
                    &&& next_set_from(s.words(), old(self).position(), p as int)
                    &&& final(self).position() == p + 1
                },
                None => {
                    &&& forall|q: int| old(self).position() <= q ==> !bit_at(s.words(), q)
                    &&& *final(self) == *old(self)
                },
            },
    {
        let ghost ws = s.words();
        let ghost start = self.position();
        let len = s.word_count();
        let mut next_word = self.last_word;
        let mut next_bit: usize = if self.last_bit == usize::MAX {
            0
        } else {
            self.last_bit + 1
        };
        loop
            invariant
                next_word <= len,
                next_bit <= 32,
                len == ws.len(),
                ws == s.words(),
                len <= MAX_WORDS,
                old(self).wf(len as nat),
                *self == *old(self),
                start == old(self).position(),
                start <= next_word * 32 + next_bit,
                forall|q: int| start <= q < next_word * 32 + next_bit ==> !bit_at(ws, q),
            decreases (len - next_word) * 33 + (32 - next_bit),
        {
            if next_bit > 31 {
                next_bit = 0;
                next_word += 1;
            }
            if next_word >= len {
                proof {
                    assert forall|q: int| start <= q implies !bit_at(ws, q) by {
                        if next_word * 32 + next_bit <= q {
                            lemma_position(q);
                        }
                    }
                }
                return None;
            }
            let sample = s.word(next_word);
            let ghost cur = next_word * 32 + next_bit;
            if sample == 0 {
                proof {
                    assert forall|q: int| start <= q < (next_word + 1) * 32 implies !bit_at(ws, q) by {
                        if cur <= q {
                            lemma_position(q);
                            lemma_zero_word((q % 32) as u32);
                        }
                    }
                }
                next_word += 1;
                next_bit = 0;
                continue;
            }
            if next_bit < 16 && sample & 0xFFFF == 0 {
                proof {
                    assert forall|q: int| start <= q < next_word * 32 + 16 implies !bit_at(ws, q) by {
                        if cur <= q {
                            lemma_position(q);
                            lemma_low_half((sample), (q % 32) as u32);
                        }
                    }
                }
                next_bit = 16;
            }
            if next_bit >= 16 && sample & 0xFFFF0000 == 0 {
                proof {
                    assert forall|q: int| start <= q < (next_word + 1) * 32 implies !bit_at(ws, q) by {
                        if next_word * 32 + next_bit <= q {
                            lemma_position(q);
                            lemma_high_half((sample), (q % 32) as u32);
                        }
                    }
                }
                next_word += 1;
                next_bit = 0;
                continue;
            }
            while next_bit < 32
                invariant
                    next_word < len,
                    next_bit <= 32,
                    len == ws.len(),
                    len <= MAX_WORDS,
                    sample == ws[next_word as int],
                    ws == s.words(),
                    *self == *old(self),
                    start == old(self).position(),
                    start <= next_word * 32 + next_bit,
                    forall|q: int| start <= q < next_word * 32 + next_bit ==> !bit_at(ws, q),
                decreases 32 - next_bit,
            {
                let ghost p = next_word * 32 + next_bit;
                proof {
                    lemma_position(p);
                    lemma_last_position(next_word as int, next_bit as int);
                }
                if sample & (1u32 << (next_bit as u32)) != 0 {
                    self.last_bit = next_bit;
                    self.last_word = next_word;
                    return Some(next_word * 32 + next_bit);
                }
                next_bit += 1;
            }
        }
    }
}

} // verus!
