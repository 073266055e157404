//! Verified plain-text building: repeated glyphs, decimal rendering of
//! magnitudes, and padding, for the chart rows and labels.

use vstd::prelude::*;

verus! {

use vstd::string::StrSliceExecFns;
use vstd::string::StringExecFns;

/// `n` copies of `s`, in one sequence.
pub open spec fn repeat_seq(s: Seq<char>, n: int) -> Seq<char>
    decreases n,
{
    if n <= 0 {
        Seq::empty()
    } else {
        repeat_seq(s, n - 1) + s
    }
}

/// A repetition is as long as its copies together.
pub proof fn lemma_repeat_seq_len(s: Seq<char>, n: int)
    requires
        0 <= n,
    ensures
        repeat_seq(s, n).len() == n * s.len(),
    decreases n,
{
    if n == 0 {
        assert(n * s.len() == 0) by (nonlinear_arith)
            requires
                n == 0,
        ;
    } else {
        lemma_repeat_seq_len(s, n - 1);
        assert(n * s.len() == (n - 1) * s.len() + s.len()) by (nonlinear_arith);
    }
}

/// Builds the string of `n` copies of `piece`.
pub fn repeat_str(piece: &str, n: usize) -> (s: String)
    ensures
        s@ == repeat_seq(piece@, n as int),
{
    let mut s = String::new();
    let mut i: usize = 0;
    while i < n
        invariant
            i <= n,
            s@ == repeat_seq(piece@, i as int),
        decreases n - i,
    {
        s.append(piece);
        i += 1;
    }
    s
}

/// The glyph of one decimal digit.
pub open spec fn digit_char(d: int) -> char {
    if d == 0 {
        '0'
    } else if d == 1 {
        '1'
    } else if d == 2 {
        '2'
    } else if d == 3 {
        '3'
    } else if d == 4 {
        '4'
    } else if d == 5 {
        '5'
    } else if d == 6 {
        '6'
    } else if d == 7 {
        '7'
    } else if d == 8 {
        '8'
    } else {
        '9'
    }
}

/// The decimal form of a non-negative number, most significant digit
/// first, without leading zeros (but `0` itself is `"0"`).
pub open spec fn dec_str(n: int) -> Seq<char>
    decreases n,
{
    if n < 10 {
        seq![digit_char(n)]
    } else {
        dec_str(n / 10).push(digit_char(n % 10))
    }
}

/// A decimal form is never empty.
pub proof fn lemma_dec_str_len_pos(n: int)
    ensures
        dec_str(n).len() >= 1,
    decreases n,
{
    if n >= 10 {
        lemma_dec_str_len_pos(n / 10);
    }
}

/// Digits do not shrink as the number grows.
pub proof fn lemma_dec_str_len_le(a: int, b: int)
    requires
        0 <= a <= b,
    ensures
        dec_str(a).len() <= dec_str(b).len(),
    decreases b,
{
    if a >= 10 {
        lemma_dec_str_len_le(a / 10, b / 10);
    } else if b >= 10 {
        lemma_dec_str_len_pos(b / 10);
    }
}

/// A value that fits a `u32` has at most ten digits.
pub proof fn lemma_dec_str_len_u32(n: int)
    requires
        0 <= n <= u32::MAX,
    ensures
        1 <= dec_str(n).len() <= 10,
{
    lemma_dec_str_len_pos(n);
    lemma_dec_str_len_le(n, u32::MAX as int);
    assert(dec_str(4).len() == 1);
    assert(dec_str(42).len() == 2);
    assert(dec_str(429).len() == 3);
    assert(dec_str(4294).len() == 4);
    assert(dec_str(42949).len() == 5);
    assert(dec_str(429496).len() == 6);
    assert(dec_str(4294967).len() == 7);
    assert(dec_str(42949672).len() == 8);
    assert(dec_str(429496729).len() == 9);
    assert(dec_str(4294967295).len() == 10);
}

fn digit_str(d: u32) -> (s: &'static str)
    requires
        d < 10,
    ensures
        s@ =~= seq![digit_char(d as int)],
{
    match d {
        0 => {
            proof {
                reveal_strlit("0");
            }
            "0"
        },
        1 => {
            proof {
                reveal_strlit("1");
            }
            "1"
        },
        2 => {
            proof {
                reveal_strlit("2");
            }
            "2"
        },
        3 => {
            proof {
                reveal_strlit("3");
            }
            "3"
        },
        4 => {
            proof {
                reveal_strlit("4");
            }
            "4"
        },
        5 => {
            proof {
                reveal_strlit("5");
            }
            "5"
        },
        6 => {
            proof {
                reveal_strlit("6");
            }
            "6"
        },
        7 => {
            proof {
                reveal_strlit("7");
            }
            "7"
        },
        8 => {
            proof {
                reveal_strlit("8");
            }
            "8"
        },
        _ => {
            proof {
                reveal_strlit("9");
            }
            "9"
        },
    }
}

/// Renders a magnitude in decimal.
pub fn u32_dec(n: u32) -> (s: String)
    ensures
        s@ == dec_str(n as int),
    decreases n,
{
    if n < 10 {
        String::from_str(digit_str(n))
    } else {
        let mut s = u32_dec(n / 10);
        s.append(digit_str(n % 10));
        proof {
            assert(dec_str(n as int) =~= dec_str(n as int / 10) + seq![
                digit_char(n as int % 10),
            ]);
        }
        s
    }
}

/// Lexicographic order on texts, by code point: the order in which the
/// standard library's ordered maps keep string keys.
pub open spec fn lex_lt(a: Seq<char>, b: Seq<char>) -> bool
    decreases a.len(),
{
    if b.len() == 0 {
        false
    } else if a.len() == 0 {
        true
    } else if a[0] != b[0] {
        (a[0] as int) < (b[0] as int)
    } else {
        lex_lt(a.drop_first(), b.drop_first())
    }
}

/// The order is strict and total: incomparable texts are equal, and no
/// two texts order before each other.
pub proof fn lemma_lex_connex(a: Seq<char>, b: Seq<char>)
    ensures
        !lex_lt(a, b) && !lex_lt(b, a) ==> a == b,
        lex_lt(a, b) ==> !lex_lt(b, a),
    decreases a.len() + b.len(),
{
    if a.len() > 0 && b.len() > 0 {
        if a[0] == b[0] {
            lemma_lex_connex(a.drop_first(), b.drop_first());
            if !lex_lt(a, b) && !lex_lt(b, a) {
                assert(a.drop_first() == b.drop_first());
                assert(a.len() == b.len());
                assert forall|k: int| 0 <= k < a.len() implies a[k] == b[k] by {
                    if k > 0 {
                        assert(a[k] == a.drop_first()[k - 1]);
                        assert(b[k] == b.drop_first()[k - 1]);
                    }
                }
                assert(a =~= b);
            }
        } else {
            if !lex_lt(a, b) && !lex_lt(b, a) {
                assert(a[0] as int == b[0] as int);
                assert(a[0] == b[0]);
            }
        }
    }
}

/// The order is transitive.
pub proof fn lemma_lex_trans(a: Seq<char>, b: Seq<char>, c: Seq<char>)
    requires
        lex_lt(a, b),
        lex_lt(b, c),
    ensures
        lex_lt(a, c),
    decreases a.len(),
{
    if a.len() > 0 && b.len() > 0 && c.len() > 0 && a[0] == b[0] && b[0] == c[0] {
        lemma_lex_trans(a.drop_first(), b.drop_first(), c.drop_first());
    }
}

/// At-or-below is transitive: what two texts bound from above, their
/// upper bound's upper bounds do too.
pub proof fn lemma_lex_le_trans(a: Seq<char>, b: Seq<char>, c: Seq<char>)
    requires
        !lex_lt(b, a),
        !lex_lt(c, b),
    ensures
        !lex_lt(c, a),
{
    if lex_lt(c, a) {
        lemma_lex_connex(b, c);
        if lex_lt(b, c) {
            lemma_lex_trans(b, c, a);
        } else {
            assert(b == c);
        }
    }
}

/// Whether `a` orders strictly before `b`, by code point.
pub fn str_lt(a: &str, b: &str) -> (r: bool)
    ensures
        r == lex_lt(a@, b@),
{
    let la = a.unicode_len();
    let lb = b.unicode_len();
    let n = if la < lb {
        la
    } else {
        lb
    };
    let mut i: usize = 0;
    proof {
        assert(a@.skip(0) =~= a@);
        assert(b@.skip(0) =~= b@);
    }
    while i < n
        invariant
            i <= n,
            n == if la < lb {
                la as int
            } else {
                lb as int
            },
            la == a@.len(),
            lb == b@.len(),
            lex_lt(a@, b@) == lex_lt(a@.skip(i as int), b@.skip(i as int)),
        decreases n - i,
    {
        let ca = a.get_char(i);
        let cb = b.get_char(i);
        proof {
            assert(a@.skip(i as int)[0] == a@[i as int]);
            assert(b@.skip(i as int)[0] == b@[i as int]);
        }
        if ca != cb {
            return (ca as u32) < (cb as u32);
        }
        proof {
            assert(a@.skip(i as int).drop_first() =~= a@.skip(i as int + 1));
            assert(b@.skip(i as int).drop_first() =~= b@.skip(i as int + 1));
        }
        i += 1;
    }
    proof {
        assert(a@.skip(i as int).len() == a@.len() - i);
        assert(b@.skip(i as int).len() == b@.len() - i);
    }
    la < lb
}

/// `s` left-padded with `c` to width `w`; a string already that wide is
/// untouched.
pub open spec fn pad_left(s: Seq<char>, w: int, c: char) -> Seq<char> {
    if s.len() >= w {
        s
    } else {
        repeat_seq(seq![c], w - s.len()) + s
    }
}

/// Left-pads `s` with copies of the single glyph `fill`.
pub fn pad_left_string(s: String, w: usize, fill: &str) -> (r: String)
    requires
        fill@.len() == 1,
    ensures
        r@ == pad_left(s@, w as int, fill@[0]),
{
    let n = s.as_str().unicode_len();
    if n >= w {
        s
    } else {
        let mut r = repeat_str(fill, w - n);
        proof {
            assert(fill@ =~= seq![fill@[0]]);
        }
        r.append(s.as_str());
        r
    }
}

/// The number of characters of a string, as the labels measure width.
pub fn char_len(s: &String) -> (n: usize)
    ensures
        n == s@.len(),
{
    s.as_str().unicode_len()
}

} // verus!
