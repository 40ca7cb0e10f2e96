use vstd::prelude::*;

use crate::words::{
    all_zero, ascending, bit_at, lemma_all_zero_iff_no_bit, lemma_set_words_bits,
    lemma_word_update_twice, lists_set_bits, next_set_from, no_bit_set, scan_yields, set_words,
};

verus! {

/// The words after setting each position of `ps` to `state`, in order,
/// starting from `ws`.
pub open spec fn set_run(ws: Seq<u32>, ps: Seq<usize>, state: bool) -> Seq<u32>
    decreases ps.len(),
{
    if ps.len() == 0 {
        ws
    } else {
        set_words(set_run(ws, ps.drop_last(), state), ps.last() as int, state)
    }
}

/// The words after `r` rounds, starting from `ws`, each of which sets the
/// positions of `ps` to `true` in order and then to `false` in order.
pub open spec fn set_clear_rounds(ws: Seq<u32>, ps: Seq<usize>, r: nat) -> Seq<u32>
    decreases r,
{
    if r == 0 {
        ws
    } else {
        set_run(set_run(set_clear_rounds(ws, ps, (r - 1) as nat), ps, true), ps, false)
    }
}

/// A bit field with no words, as a new one is, is empty: every word is
/// zero and no bit is set.
pub proof fn lemma_no_words_is_empty()
    ensures
        all_zero(Seq::<u32>::empty()),
        no_bit_set(Seq::<u32>::empty()),
{
    lemma_all_zero_iff_no_bit(Seq::<u32>::empty());
}

/// Setting a bit twice to the same state leaves the words exactly as
/// setting it once does.
pub proof fn lemma_set_bit_idempotent(ws: Seq<u32>, n: usize, state: bool)
    ensures
        set_words(set_words(ws, n as int, state), n as int, state) == set_words(
            ws,
            n as int,
            state,
        ),
{
    let once = set_words(ws, n as int, state);
    let twice = set_words(once, n as int, state);
    lemma_set_words_bits(ws, n as int, state);
    lemma_word_update_twice(
        if n as int / 32 < ws.len() {
            ws[n as int / 32]
        } else {
            0u32
        },
        1u32 << ((n as int % 32) as u32),
    );
    assert(twice =~= once);
}

/// After setting the positions `ps` to `state`, a position that is one of
/// `ps` reads as `state`, and any other reads as before.
pub proof fn lemma_set_run_bits(ws: Seq<u32>, ps: Seq<usize>, state: bool)
    ensures
        forall|n: int|
            #![trigger bit_at(set_run(ws, ps, state), n)]
            bit_at(set_run(ws, ps, state), n) == if exists|i: int|
                0 <= i < ps.len() && #[trigger] ps[i] as int == n {
                state
            } else {
                bit_at(ws, n)
            },
    decreases ps.len(),
{
    if ps.len() > 0 {
        let init = ps.drop_last();
        lemma_set_run_bits(ws, init, state);
        lemma_set_words_bits(set_run(ws, init, state), ps.last() as int, state);
        assert forall|n: int|
            #![trigger bit_at(set_run(ws, ps, state), n)]
            bit_at(set_run(ws, ps, state), n) == if exists|i: int|
                0 <= i < ps.len() && #[trigger] ps[i] as int == n {
                state
            } else {
                bit_at(ws, n)
            } by {
            let in_init = exists|i: int| 0 <= i < init.len() && #[trigger] init[i] as int == n;
            let in_ps = exists|i: int| 0 <= i < ps.len() && #[trigger] ps[i] as int == n;
            if in_init {
                let i = choose|i: int| 0 <= i < init.len() && #[trigger] init[i] as int == n;
                assert(ps[i] as int == n);
            }
            if in_ps && n != ps.last() as int {
                let i = choose|i: int| 0 <= i < ps.len() && #[trigger] ps[i] as int == n;
                assert(i < init.len());
                assert(init[i] as int == n);
            }
            if n == ps.last() as int {
                assert(ps[ps.len() - 1] as int == n);
            }
        }
    }
}

/// Repeated rounds of setting the positions `ps` to `true` and then to
/// `false` leave an empty bit field empty: every word is zero and no bit
/// is set, after any number of rounds.
pub proof fn lemma_set_clear_rounds_leave_empty(ps: Seq<usize>, r: nat)
    ensures
        no_bit_set(set_clear_rounds(Seq::empty(), ps, r)),
        all_zero(set_clear_rounds(Seq::empty(), ps, r)),
    decreases r,
{
    let ws = set_clear_rounds(Seq::empty(), ps, r);
    if r > 0 {
        let before = set_clear_rounds(Seq::empty(), ps, (r - 1) as nat);
        lemma_set_clear_rounds_leave_empty(ps, (r - 1) as nat);
        let set = set_run(before, ps, true);
        lemma_set_run_bits(before, ps, true);
        lemma_set_run_bits(set, ps, false);
        assert forall|n: int| !bit_at(ws, n) by {
            assert(bit_at(ws, n) == bit_at(set_run(set, ps, false), n));
            assert(!bit_at(before, n));
            assert(bit_at(set, n) == bit_at(set_run(before, ps, true), n));
        }
    }
    lemma_all_zero_iff_no_bit(ws);
}

/// Two ascending sequences with the same elements are equal.
pub proof fn lemma_ascending_unique(a: Seq<usize>, b: Seq<usize>)
    requires
        ascending(a),
        ascending(b),
        forall|x: usize| a.contains(x) <==> b.contains(x),
    ensures
        a == b,
    decreases a.len(),
{
    if a.len() == 0 {
        if b.len() > 0 {
            assert(b.contains(b[0]));
        }
        assert(a =~= b);
    } else {
        assert(a.contains(a[0]));
        assert(b.contains(b[0]));
        let ia = choose|i: int| 0 <= i < a.len() && a[i] == b[0];
        let ib = choose|i: int| 0 <= i < b.len() && b[i] == a[0];
        assert(a[0] == b[0]) by {
            if ia > 0 {
                assert(a[0] < a[ia]);
            }
            if ib > 0 {
                assert(b[0] < b[ib]);
            }
        }
        let a1 = a.subrange(1, a.len() as int);
        let b1 = b.subrange(1, b.len() as int);
        assert forall|x: usize| a1.contains(x) <==> b1.contains(x) by {
            if a1.contains(x) {
                let i = choose|i: int| 0 <= i < a1.len() && a1[i] == x;
                assert(a[i + 1] == x && a[0] < a[i + 1]);
                assert(b.contains(x));
                let j = choose|j: int| 0 <= j < b.len() && b[j] == x;
                assert(j != 0);
                assert(b1[j - 1] == x);
            }
            if b1.contains(x) {
                let i = choose|i: int| 0 <= i < b1.len() && b1[i] == x;
                assert(b[i + 1] == x && b[0] < b[i + 1]);
                assert(a.contains(x));
                let j = choose|j: int| 0 <= j < a.len() && a[j] == x;
                assert(j != 0);
                assert(a1[j - 1] == x);
            }
        }
        lemma_ascending_unique(a1, b1);
        assert forall|i: int| 0 < i < a.len() implies a[i] == b[i] by {
            assert(a[i] == a1[i - 1] && b[i] == b1[i - 1]);
        }
        assert(a =~= b);
    }
}

/// After setting the positions `qs` to `true` on an empty bit field, in any
/// order and clearing none, the set positions listed in ascending order are
/// exactly `ps`, the ascending arrangement of `qs`.
pub proof fn lemma_listing_after_sets(qs: Seq<usize>, ps: Seq<usize>, s: Seq<usize>)
    requires
        ascending(ps),
        forall|x: usize| qs.contains(x) <==> ps.contains(x),
        lists_set_bits(set_run(Seq::empty(), qs, true), s),
    ensures
        s == ps,
{
    let ws = set_run(Seq::empty(), qs, true);
    lemma_set_run_bits(Seq::empty(), qs, true);
    assert forall|x: usize| s.contains(x) <==> ps.contains(x) by {
        if s.contains(x) {
            let i = choose|i: int| 0 <= i < s.len() && s[i] == x;
            assert(bit_at(ws, s[i] as int));
            let j = choose|j: int| 0 <= j < qs.len() && #[trigger] qs[j] as int == x as int;
            assert(qs[j] == x);
            assert(qs.contains(x));
        }
        if ps.contains(x) {
            assert(qs.contains(x));
            let j = choose|j: int| 0 <= j < qs.len() && qs[j] == x;
            assert(qs[j] as int == x as int);
            assert(bit_at(ws, x as int));
            let i = choose|i: int| 0 <= i < s.len() && #[trigger] s[i] == x as int;
            assert(s[i] == x);
        }
    }
    lemma_ascending_unique(s, ps);
}

/// A sequence that rises from each element to the next is ascending.
proof fn lemma_stepwise_ascending(s: Seq<usize>, i: int, j: int)
    requires
        forall|k: int| 0 < k < s.len() ==> s[k - 1] < #[trigger] s[k],
        0 <= i < j < s.len(),
    ensures
        s[i] < s[j],
    decreases j - i,
{
    if i < j - 1 {
        lemma_stepwise_ascending(s, i, j - 1);
    }
}

/// A set position at or below `s[i]` is one the scan yields, at `i` or
/// before.
proof fn lemma_scan_reaches(ws: Seq<u32>, s: Seq<usize>, n: int, i: int)
    requires
        scan_yields(ws, s),
        0 <= i < s.len(),
        0 <= n <= s[i],
        bit_at(ws, n),
    ensures
        exists|j: int| 0 <= j < s.len() && #[trigger] s[j] == n,
    decreases i,
{
    let from = if i == 0 {
        0
    } else {
        s[i - 1] + 1
    };
    assert(next_set_from(ws, from, s[i] as int));
    if from <= n {
        assert(s[i] == n);
    } else {
        lemma_scan_reaches(ws, s, n, i - 1);
    }
}

/// What a fresh iterator yields, call after call of `next` until `None`,
/// lists the set positions once each, in ascending order.
pub proof fn lemma_scan_lists_set_bits(ws: Seq<u32>, s: Seq<usize>)
    requires
        scan_yields(ws, s),
    ensures
        lists_set_bits(ws, s),
{
    assert forall|k: int| 0 < k < s.len() implies s[k - 1] < #[trigger] s[k] by {
        assert(next_set_from(ws, s[k - 1] + 1, s[k] as int));
    }
    assert forall|i: int, j: int| 0 <= i < j < s.len() implies s[i] < s[j] by {
        lemma_stepwise_ascending(s, i, j);
    }
    assert forall|i: int| 0 <= i < s.len() implies bit_at(ws, #[trigger] s[i] as int) by {
        assert(next_set_from(
            ws,
            if i == 0 {
                0
            } else {
                s[i - 1] + 1
            },
            s[i] as int,
        ));
    }
    assert forall|n: int| bit_at(ws, n) implies exists|i: int|
        0 <= i < s.len() && #[trigger] s[i] == n by {
        if s.len() > 0 && n <= s.last() {
            lemma_scan_reaches(ws, s, n, s.len() - 1);
        }
    }
}

/// After setting the positions `qs` to `true` on an empty bit field, in any
/// order and clearing none, a fresh iterator yields, call after call of
/// `next`, exactly `ps`, the ascending arrangement of `qs`, and then `None`.
pub proof fn lemma_iteration_after_sets(qs: Seq<usize>, ps: Seq<usize>, s: Seq<usize>)
    requires
        ascending(ps),
        forall|x: usize| qs.contains(x) <==> ps.contains(x),
        scan_yields(set_run(Seq::empty(), qs, true), s),
    ensures
        s == ps,
{
    lemma_scan_lists_set_bits(set_run(Seq::empty(), qs, true), s);
    lemma_listing_after_sets(qs, ps, s);
}

} // verus!
