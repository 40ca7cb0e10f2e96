use vstd::prelude::*;

verus! {

/// The largest number of words a bit field may hold: enough to address every
/// `usize` bit position and no more.
pub const MAX_WORDS: usize = usize::MAX / 32 + 1;

/// Whether offset `i` (in `0..32`) of the word `w` is set.
pub open spec fn word_has(w: u32, i: int) -> bool {
    w & (1u32 << (i as u32)) != 0
}

/// Whether position `n` is set in the words `ws`. Positions past the last
/// word read as unset.
pub open spec fn bit_at(ws: Seq<u32>, n: int) -> bool {
    0 <= n && n / 32 < ws.len() && word_has(ws[n / 32], n % 32)
}

/// The mask that selects offset `n % 32` of a word.
pub open spec fn mask_of(n: int) -> u32 {
    1u32 << ((n % 32) as u32)
}

/// `k` zero words.
pub open spec fn zeros(k: nat) -> Seq<u32> {
    Seq::new(k, |_i: int| 0u32)
}

/// `ws`, padded with zero words up to length `len` where it is shorter.
pub open spec fn extend_to(ws: Seq<u32>, len: int) -> Seq<u32> {
    if len <= ws.len() {
        ws
    } else {
        ws + zeros((len - ws.len()) as nat)
    }
}

/// The words after position `n` is set to `state`: the sequence grows to
/// reach word `n / 32` (never shrinks), and only that word changes.
pub open spec fn set_words(ws: Seq<u32>, n: int, state: bool) -> Seq<u32> {
    let ext = extend_to(ws, n / 32 + 1);
    ext.update(
        n / 32,
        if state {
            ext[n / 32] | mask_of(n)
        } else {
            ext[n / 32] & !mask_of(n)
        },
    )
}

/// Word `i` of `ws`, or zero past its end.
pub open spec fn word_or_zero(ws: Seq<u32>, i: int) -> u32 {
    if 0 <= i < ws.len() {
        ws[i]
    } else {
        0u32
    }
}

/// The word-wise OR of `a` and `b`, as long as the longer of the two.
pub open spec fn or_words(a: Seq<u32>, b: Seq<u32>) -> Seq<u32> {
    Seq::new(
        if a.len() >= b.len() {
            a.len()
        } else {
            b.len()
        },
        |i: int| word_or_zero(a, i) | word_or_zero(b, i),
    )
}

/// Every word of `ws` is zero.
pub open spec fn all_zero(ws: Seq<u32>) -> bool {
    forall|i: int| 0 <= i < ws.len() ==> ws[i] == 0
}

/// No position is set in `ws`.
pub open spec fn no_bit_set(ws: Seq<u32>) -> bool {
    forall|n: int| !bit_at(ws, n)
}

/// The positions in `s` strictly increase.
pub open spec fn ascending(s: Seq<usize>) -> bool {
    forall|i: int, j: int| 0 <= i < j < s.len() ==> s[i] < s[j]
}

/// `s` lists the set positions of `ws`, each once, in ascending order.
pub open spec fn lists_set_bits(ws: Seq<u32>, s: Seq<usize>) -> bool {
    &&& ascending(s)
    &&& forall|i: int| 0 <= i < s.len() ==> bit_at(ws, #[trigger] s[i] as int)
    &&& forall|n: int| bit_at(ws, n) ==> exists|i: int| 0 <= i < s.len() && #[trigger] s[i] == n
}

/// `p` is the lowest set position of `ws` at or after `from`: what one
/// call of an iterator's `next` yields from a scan standing at `from`.
pub open spec fn next_set_from(ws: Seq<u32>, from: int, p: int) -> bool {
    &&& from <= p
    &&& bit_at(ws, p)
    &&& forall|q: int| from <= q < p ==> !bit_at(ws, q)
}

/// `s` is what a fresh iterator over `ws` yields, call after call of
/// `next`, before it first returns `None`: each position is the lowest set
/// one past the one before, and no set position is left after the last.
pub open spec fn scan_yields(ws: Seq<u32>, s: Seq<usize>) -> bool {
    &&& forall|i: int|
        0 <= i < s.len() ==> next_set_from(
            ws,
            if i == 0 {
                0
            } else {
                s[i - 1] + 1
            },
            #[trigger] s[i] as int,
        )
    &&& forall|q: int|
        (if s.len() == 0 {
            0
        } else {
            s.last() + 1
        }) <= q ==> !bit_at(ws, q)
}

/// Setting or clearing one offset of a word leaves the other offsets alone.
pub proof fn lemma_word_update(w: u32, i: u32, j: u32)
    by (bit_vector)
    requires
        i < 32,
        j < 32,
    ensures
        (w | (1u32 << i)) & (1u32 << i) != 0,
        (w & !(1u32 << i)) & (1u32 << i) == 0,
        i != j ==> ((w | (1u32 << i)) & (1u32 << j) != 0) == (w & (1u32 << j) != 0),
        i != j ==> ((w & !(1u32 << i)) & (1u32 << j) != 0) == (w & (1u32 << j) != 0),
{
}

/// The zero word has no offset set.
pub proof fn lemma_zero_word(j: u32)
    by (bit_vector)
    ensures
        0u32 & (1u32 << j) == 0,
{
}

/// An offset of `a | b` is set exactly when it is set in `a` or in `b`.
pub proof fn lemma_word_or(a: u32, b: u32, j: u32)
    by (bit_vector)
    ensures
        ((a | b) & (1u32 << j) != 0) == ((a & (1u32 << j) != 0) || (b & (1u32 << j) != 0)),
        0u32 | b == b,
        a | 0u32 == a,
{
}

/// Setting or clearing the same offset twice is the same as doing it once.
pub proof fn lemma_word_update_twice(w: u32, m: u32)
    by (bit_vector)
    ensures
        (w | m) | m == w | m,
        (w & !m) & !m == w & !m,
{
}

/// Clearing any mask in the zero word leaves it zero.
pub proof fn lemma_clear_zero(m: u32)
    by (bit_vector)
    ensures
        0u32 & !m == 0,
{
}

/// A word whose low half is zero has none of the offsets `0..16` set.
pub proof fn lemma_low_half(w: u32, j: u32)
    by (bit_vector)
    requires
        w & 0xFFFF == 0,
        j < 16,
    ensures
        w & (1u32 << j) == 0,
{
}

/// A word whose high half is zero has none of the offsets `16..32` set.
pub proof fn lemma_high_half(w: u32, j: u32)
    by (bit_vector)
    requires
        w & 0xFFFF0000 == 0,
        16 <= j < 32,
    ensures
        w & (1u32 << j) == 0,
{
}

/// The last position of a word below `MAX_WORDS` is a `usize`.
pub proof fn lemma_last_position(word: int, offset: int)
    requires
        0 <= word < MAX_WORDS,
        0 <= offset < 32,
    ensures
        word * 32 + offset <= usize::MAX,
{
    assert(usize::MAX == u32::MAX || usize::MAX == u64::MAX);
}

/// A word with no offset set is zero.
pub proof fn lemma_no_offset_set(w: u32)
    requires
        forall|j: int| 0 <= j < 32 ==> !word_has(w, j),
    ensures
        w == 0,
{
        assert(!word_has(w, 0));
        assert(!word_has(w, 1));
        assert(!word_has(w, 2));
        assert(!word_has(w, 3));
        assert(!word_has(w, 4));
        assert(!word_has(w, 5));
        assert(!word_has(w, 6));
        assert(!word_has(w, 7));
        assert(!word_has(w, 8));
        assert(!word_has(w, 9));
        assert(!word_has(w, 10));
        assert(!word_has(w, 11));
        assert(!word_has(w, 12));
        assert(!word_has(w, 13));
        assert(!word_has(w, 14));
        assert(!word_has(w, 15));
        assert(!word_has(w, 16));
        assert(!word_has(w, 17));
        assert(!word_has(w, 18));
        assert(!word_has(w, 19));
        assert(!word_has(w, 20));
        assert(!word_has(w, 21));
        assert(!word_has(w, 22));
        assert(!word_has(w, 23));
        assert(!word_has(w, 24));
        assert(!word_has(w, 25));
        assert(!word_has(w, 26));
        assert(!word_has(w, 27));
        assert(!word_has(w, 28));
        assert(!word_has(w, 29));
        assert(!word_has(w, 30));
        assert(!word_has(w, 31));
    assert(w == 0) by (bit_vector)
        requires
            w & (1u32 << 0u32) == 0,
            w & (1u32 << 1u32) == 0,
            w & (1u32 << 2u32) == 0,
            w & (1u32 << 3u32) == 0,
            w & (1u32 << 4u32) == 0,
            w & (1u32 << 5u32) == 0,
            w & (1u32 << 6u32) == 0,
            w & (1u32 << 7u32) == 0,
            w & (1u32 << 8u32) == 0,
            w & (1u32 << 9u32) == 0,
            w & (1u32 << 10u32) == 0,
            w & (1u32 << 11u32) == 0,
            w & (1u32 << 12u32) == 0,
            w & (1u32 << 13u32) == 0,
            w & (1u32 << 14u32) == 0,
            w & (1u32 << 15u32) == 0,
            w & (1u32 << 16u32) == 0,
            w & (1u32 << 17u32) == 0,
            w & (1u32 << 18u32) == 0,
            w & (1u32 << 19u32) == 0,
            w & (1u32 << 20u32) == 0,
            w & (1u32 << 21u32) == 0,
            w & (1u32 << 22u32) == 0,
            w & (1u32 << 23u32) == 0,
            w & (1u32 << 24u32) == 0,
            w & (1u32 << 25u32) == 0,
            w & (1u32 << 26u32) == 0,
            w & (1u32 << 27u32) == 0,
            w & (1u32 << 28u32) == 0,
            w & (1u32 << 29u32) == 0,
            w & (1u32 << 30u32) == 0,
            w & (1u32 << 31u32) == 0,
    ;
}

/// Where position `n` lives: word `n / 32`, offset `n % 32`, which a `usize`
/// position and a word index below `MAX_WORDS` always reach.
pub proof fn lemma_position(n: int)
    requires
        0 <= n,
    ensures
        n == (n / 32) * 32 + n % 32,
        0 <= n % 32 < 32,
        n <= usize::MAX ==> n / 32 < MAX_WORDS,
{
}

/// The words after `set_words` read as before, but for position `n`, which
/// now reads as `state`.
pub proof fn lemma_set_words_bits(ws: Seq<u32>, n: int, state: bool)
    requires
        0 <= n,
    ensures
        set_words(ws, n, state).len() == if n / 32 + 1 <= ws.len() {
            ws.len() as int
        } else {
            n / 32 + 1
        },
        forall|m: int|
            #![trigger bit_at(set_words(ws, n, state), m)]
            bit_at(set_words(ws, n, state), m) == if m == n {
                state
            } else {
                bit_at(ws, m)
            },
{
    let r = set_words(ws, n, state);
    let ext = extend_to(ws, n / 32 + 1);
    assert forall|m: int| #[trigger] bit_at(r, m) == if m == n { state } else { bit_at(ws, m) } by {
        if 0 <= m {
            lemma_position(m);
            lemma_position(n);
            let i = (n % 32) as u32;
            let j = (m % 32) as u32;
            lemma_word_update(ext[n / 32], i, j);
            if m / 32 < ext.len() && m / 32 >= ws.len() {
                lemma_zero_word(j);
            }
        }
    }
}

/// Position `n` of `or_words(a, b)` is set exactly when it is set in `a` or
/// in `b`.
pub proof fn lemma_or_words_bits(a: Seq<u32>, b: Seq<u32>)
    ensures
        forall|n: int|
            #![trigger bit_at(or_words(a, b), n)]
            bit_at(or_words(a, b), n) == (bit_at(a, n) || bit_at(b, n)),
{
    assert forall|n: int| #[trigger] bit_at(or_words(a, b), n) == (bit_at(a, n) || bit_at(b, n)) by {
        if 0 <= n {
            lemma_position(n);
            let j = (n % 32) as u32;
            lemma_word_or(word_or_zero(a, n / 32), word_or_zero(b, n / 32), j);
            lemma_zero_word(j);
        }
    }
}

/// All words are zero exactly when no position is set.
pub proof fn lemma_all_zero_iff_no_bit(ws: Seq<u32>)
    ensures
        all_zero(ws) == no_bit_set(ws),
{
    if all_zero(ws) {
        assert forall|n: int| !bit_at(ws, n) by {
            if 0 <= n && n / 32 < ws.len() {
                lemma_position(n);
                lemma_zero_word((n % 32) as u32);
            }
        }
    }
    if no_bit_set(ws) {
        assert forall|i: int| 0 <= i < ws.len() implies ws[i] == 0 by {
            assert forall|j: int| 0 <= j < 32 implies !word_has(ws[i], j) by {
                assert(!bit_at(ws, i * 32 + j));
                assert((i * 32 + j) / 32 == i && (i * 32 + j) % 32 == j);
            }
            lemma_no_offset_set(ws[i]);
        }
    }
}

} // verus!
