use vstd::prelude::*;

use crate::store::WordStore;

verus! {

/// The sixteen hexadecimal digits, upper case.
pub open spec fn hex_digits() -> Seq<char> {
    seq!['0', '1', '2', '3', '4', '5', '6', '7', '8', '9', 'A', 'B', 'C', 'D', 'E', 'F']
}

/// The word `w` as eight hexadecimal digits, most significant first.
pub open spec fn hex_word(w: u32) -> Seq<char> {
    Seq::new(8, |k: int| hex_digits()[((w >> ((28 - 4 * k) as u32)) & 0xF) as int])
}

/// The words of `ws` from index `i` on, highest first, each as eight
/// hexadecimal digits followed by an underscore.
pub open spec fn hex_top(ws: Seq<u32>, i: int) -> Seq<char>
    decreases ws.len() - i,
{
    if i < 0 || i >= ws.len() {
        Seq::empty()
    } else {
        hex_top(ws, i + 1) + hex_word(ws[i]) + seq!['_']
    }
}

/// The diagnostic text of a bit field with words `ws`: `name`, then `0x0`
/// when there is no word, else `0x` and the words highest first.
pub open spec fn debug_text(name: Seq<char>, ws: Seq<u32>) -> Seq<char> {
    if ws.len() == 0 {
        name + seq!['0', 'x', '0']
    } else {
        name + seq!['0', 'x'] + hex_top(ws, 0)
    }
}

/// The hexadecimal digit `d` as a one-character string.
fn hex_digit_str(d: u32) -> (r: &'static str)
    requires
        d < 16,
    ensures
        r@ == seq![hex_digits()[d as int]],
{
    if d == 0 {
        proof {
            reveal_strlit("0");
        }
        "0"
    } else if d == 1 {
        proof {
            reveal_strlit("1");
        }
        "1"
    } else if d == 2 {
        proof {
            reveal_strlit("2");
        }
        "2"
    } else if d == 3 {
        proof {
            reveal_strlit("3");
        }
        "3"
    } else if d == 4 {
        proof {
            reveal_strlit("4");
        }
        "4"
    } else if d == 5 {
        proof {
            reveal_strlit("5");
        }
        "5"
    } else if d == 6 {
        proof {
            reveal_strlit("6");
        }
        "6"
    } else if d == 7 {
        proof {
            reveal_strlit("7");
        }
        "7"
    } else if d == 8 {
        proof {
            reveal_strlit("8");
        }
        "8"
    } else if d == 9 {
        proof {
            reveal_strlit("9");
        }
        "9"
    } else if d == 10 {
        proof {
            reveal_strlit("A");
        }
        "A"
    } else if d == 11 {
        proof {
            reveal_strlit("B");
        }
        "B"
    } else if d == 12 {
        proof {
            reveal_strlit("C");
        }
        "C"
    } else if d == 13 {
        proof {
            reveal_strlit("D");
        }
        "D"
    } else if d == 14 {
        proof {
            reveal_strlit("E");
        }
        "E"
    } else {
        proof {
            reveal_strlit("F");
        }
        "F"
    }
}

/// Append the eight hexadecimal digits of `w` to `out`.
fn push_hex_word(out: &mut String, w: u32)
    ensures
        final(out)@ == old(out)@ + hex_word(w),
{
    let mut k: u32 = 0;
    while k < 8
        invariant
            k <= 8,
            out@ == old(out)@ + hex_word(w).take(k as int),
        decreases 8 - k,
    {
        let shift: u32 = 28 - 4 * k;
        let d = (w >> shift) & 0xF;
        assert(d < 16) by (bit_vector)
            requires
                d == (w >> shift) & 0xF,
        ;
        out.append(hex_digit_str(d));
        k += 1;
        assert(out@ =~= old(out)@ + hex_word(w).take(k as int));
    }
    assert(hex_word(w).take(8) =~= hex_word(w));
}

/// The diagnostic text of the words of `s`, after `name`.
pub fn render<S: WordStore>(name: &str, s: &S) -> (r: String)
    ensures
        r@ == debug_text(name@, s.words()),
{
    let ghost ws = s.words();
    let mut out = String::new();
    out.append(name);
    let len = s.word_count();
    if len == 0 {
        out.append("0x0");
        proof {
            reveal_strlit("0x0");
        }
        assert(out@ =~= debug_text(name@, ws));
        return out;
    }
    out.append("0x");
    proof {
        reveal_strlit("0x");
    }
    let ghost base = out@;
    let mut i: usize = len;
    while i > 0
        invariant
            i <= len,
            len == ws.len(),
            ws == s.words(),
            out@ == base + hex_top(ws, i as int),
        decreases i,
    {
        i -= 1;
        push_hex_word(&mut out, s.word(i));
        out.append("_");
        proof {
            reveal_strlit("_");
        }
        assert(out@ =~= base + hex_top(ws, i as int));
    }
    assert(out@ =~= debug_text(name@, ws));
    out
}

} // verus!
