//! The JSON wire codec.
//!
//! Discovery datagrams and text-message lines are JSON objects. This module
//! holds the character-level grammar both wire formats share: string
//! escaping, JSON string literals, decimal numbers, and the small structural
//! tokens. The grammar is given by specification functions over character
//! sequences; the executable encoder and parser are proved to match them
//! exactly, and the round-trip lemmas build on both.
//!
//! The parser accepts the canonical form the encoder produces, with optional
//! insignificant whitespace between tokens and the full set of JSON string
//! escapes (including `\uXXXX` escapes and surrogate pairs). Object keys and
//! the tag value are matched verbatim rather than unescaped.

use vstd::prelude::*;
use crate::text::push_char;

verus! {

broadcast use vstd::utf8::char_u32_cast, vstd::seq_lib::group_seq_lib_default;

// ---------------------------------------------------------------------------
// Character classes
// ---------------------------------------------------------------------------

/// Insignificant JSON whitespace.
pub open spec fn is_json_ws(c: char) -> bool {
    c == ' ' || c == '\t' || c == '\n' || c == '\r'
}

/// ASCII decimal digit.
pub open spec fn is_dec_digit(c: char) -> bool {
    48 <= (c as u32) && (c as u32) <= 57
}

/// Value of an ASCII decimal digit.
pub open spec fn dec_val(c: char) -> nat {
    ((c as u32) - 48) as nat
}

/// ASCII hexadecimal digit, either case.
pub open spec fn is_hex_digit(c: char) -> bool {
    is_dec_digit(c) || (97 <= (c as u32) && (c as u32) <= 102) || (65 <= (c as u32) && (c as u32)
        <= 70)
}

/// Value of an ASCII hexadecimal digit.
pub open spec fn hex_val(c: char) -> nat {
    if is_dec_digit(c) {
        dec_val(c)
    } else if 97 <= (c as u32) && (c as u32) <= 102 {
        ((c as u32) - 87) as nat
    } else {
        ((c as u32) - 55) as nat
    }
}

/// The character for a decimal digit value.
pub open spec fn dec_digit_char(n: nat) -> char {
    ((48 + n) as u8) as char
}

/// The character for a hexadecimal digit value, lowercase.
pub open spec fn hex_digit_char(n: nat) -> char {
    if n < 10 {
        ((48 + n) as u8) as char
    } else {
        ((87 + n) as u8) as char
    }
}

/// A code point value that is a Unicode scalar, hence a valid `char`.
pub open spec fn is_unicode_scalar(x: u32) -> bool {
    x < 0xD800 || (0xE000 <= x && x <= 0x10FFFF)
}

/// Produces the character with the given code point.
///
/// Relies on `char::from_u32`: every Unicode scalar value converts to the
/// character with that code point.
#[verifier::external_body]
fn char_from_code(x: u32) -> (c: char)
    requires
        is_unicode_scalar(x),
    ensures
        c as u32 == x,
{
    char::from_u32(x).unwrap()
}

// ---------------------------------------------------------------------------
// String escaping
// ---------------------------------------------------------------------------

/// The escape sequence a character is written as inside a JSON string.
///
/// Quotes and backslashes carry their short escapes, the common control
/// characters theirs, the remaining control characters a `\u00XX` escape;
/// every other character stands for itself.
pub open spec fn escape_char(c: char) -> Seq<char> {
    if c == '"' {
        seq!['\\', '"']
    } else if c == '\\' {
        seq!['\\', '\\']
    } else if c == '\u{8}' {
        seq!['\\', 'b']
    } else if c == '\u{c}' {
        seq!['\\', 'f']
    } else if c == '\n' {
        seq!['\\', 'n']
    } else if c == '\r' {
        seq!['\\', 'r']
    } else if c == '\t' {
        seq!['\\', 't']
    } else if (c as u32) < 0x20 {
        seq!['\\', 'u', '0', '0', hex_digit_char(((c as u32) / 16) as nat), hex_digit_char(
            ((c as u32) % 16) as nat,
        )]
    } else {
        seq![c]
    }
}

/// The body of a JSON string literal holding the given characters.
pub open spec fn escape_string(s: Seq<char>) -> Seq<char>
    decreases s.len(),
{
    if s.len() == 0 {
        Seq::empty()
    } else {
        escape_char(s[0]) + escape_string(s.drop_first())
    }
}

/// A whole JSON string literal: quote, escaped body, quote.
pub open spec fn json_string(s: Seq<char>) -> Seq<char> {
    seq!['"'] + escape_string(s) + seq!['"']
}

proof fn lemma_escape_push(p: Seq<char>, c: char)
    ensures
        escape_string(p.push(c)) == escape_string(p) + escape_char(c),
    decreases p.len(),
{
    if p.len() == 0 {
        assert(p.push(c)[0] == c);
        assert(p.push(c).drop_first() =~= Seq::<char>::empty());
        assert(escape_string(p.push(c)) == escape_char(c) + escape_string(Seq::empty()));
        assert(escape_char(c) + Seq::<char>::empty() =~= escape_char(c));
        assert(escape_string(p) + escape_char(c) =~= escape_char(c));
    } else {
        assert(p.push(c).drop_first() =~= p.drop_first().push(c));
        lemma_escape_push(p.drop_first(), c);
        assert(escape_string(p.push(c)) =~= escape_string(p) + escape_char(c));
    }
}

/// Appends the escaped form of the given characters to `out`.
pub fn append_escaped(out: &mut String, s: &Vec<char>)
    ensures
        final(out)@ == old(out)@ + escape_string(s@),
{
    let ghost init = out@;
    let mut i: usize = 0;
    proof {
        assert(s@.take(0) =~= Seq::<char>::empty());
        assert(out@ =~= init + escape_string(s@.take(0)));
    }
    while i < s.len()
        invariant
            i <= s.len(),
            out@ == init + escape_string(s@.take(i as int)),
        decreases s.len() - i,
    {
        let c = s[i];
        let x = c as u32;
        if c == '"' {
            push_char(out, '\\');
            push_char(out, '"');
        } else if c == '\\' {
            push_char(out, '\\');
            push_char(out, '\\');
        } else if c == '\u{8}' {
            push_char(out, '\\');
            push_char(out, 'b');
        } else if c == '\u{c}' {
            push_char(out, '\\');
            push_char(out, 'f');
        } else if c == '\n' {
            push_char(out, '\\');
            push_char(out, 'n');
        } else if c == '\r' {
            push_char(out, '\\');
            push_char(out, 'r');
        } else if c == '\t' {
            push_char(out, '\\');
            push_char(out, 't');
        } else if x < 0x20 {
            push_char(out, '\\');
            push_char(out, 'u');
            push_char(out, '0');
            push_char(out, '0');
            let hi = (x / 16) as u8;
            let lo = (x % 16) as u8;
            let hc: char = if hi < 10 {
                (48 + hi) as char
            } else {
                (87 + hi) as char
            };
            let lc: char = if lo < 10 {
                (48 + lo) as char
            } else {
                (87 + lo) as char
            };
            push_char(out, hc);
            push_char(out, lc);
        } else {
            push_char(out, c);
        }
        proof {
            lemma_escape_push(s@.take(i as int), s@[i as int]);
            assert(s@.take(i + 1) =~= s@.take(i as int).push(s@[i as int]));
            assert(out@ =~= init + escape_string(s@.take(i + 1)));
        }
        i = i + 1;
    }
    proof {
        assert(s@.take(s@.len() as int) =~= s@);
    }
}

// ---------------------------------------------------------------------------
// JSON string parsing
// ---------------------------------------------------------------------------

/// Prepends a parsed character to the result of parsing the rest.
pub open spec fn cons_parsed(c: char, o: Option<(Seq<char>, Seq<char>)>) -> Option<
    (Seq<char>, Seq<char>),
> {
    match o {
        None => None,
        Some((t, r)) => Some((seq![c] + t, r)),
    }
}

/// Parses the body of a JSON string literal, after its opening quote.
///
/// Returns the decoded characters and the remainder after the closing quote,
/// or `None` if the input is not a well-formed string body. Raw control
/// characters are rejected; escapes, including `\uXXXX` escapes and surrogate
/// pairs, are decoded.
pub open spec fn spec_parse_string_body(s: Seq<char>) -> Option<(Seq<char>, Seq<char>)>
    decreases s.len(),
{
    if s.len() == 0 {
        None
    } else if s[0] == '"' {
        Some((Seq::empty(), s.drop_first()))
    } else if s[0] == '\\' {
        if s.len() < 2 {
            None
        } else {
            let e = s[1];
            if e == '"' || e == '\\' || e == '/' {
                cons_parsed(e, spec_parse_string_body(s.skip(2)))
            } else if e == 'b' {
                cons_parsed('\u{8}', spec_parse_string_body(s.skip(2)))
            } else if e == 'f' {
                cons_parsed('\u{c}', spec_parse_string_body(s.skip(2)))
            } else if e == 'n' {
                cons_parsed('\n', spec_parse_string_body(s.skip(2)))
            } else if e == 'r' {
                cons_parsed('\r', spec_parse_string_body(s.skip(2)))
            } else if e == 't' {
                cons_parsed('\t', spec_parse_string_body(s.skip(2)))
            } else if e == 'u' {
                if s.len() < 6 || !(is_hex_digit(s[2]) && is_hex_digit(s[3]) && is_hex_digit(s[4])
                    && is_hex_digit(s[5])) {
                    None
                } else {
                    let code = hex_val(s[2]) * 4096 + hex_val(s[3]) * 256 + hex_val(s[4]) * 16
                        + hex_val(s[5]);
                    if 0xD800 <= code && code < 0xDC00 {
                        // high surrogate: a low surrogate escape must follow
                        if s.len() < 12 || !(s[6] == '\\' && s[7] == 'u' && is_hex_digit(s[8])
                            && is_hex_digit(s[9]) && is_hex_digit(s[10]) && is_hex_digit(s[11])) {
                            None
                        } else {
                            let low = hex_val(s[8]) * 4096 + hex_val(s[9]) * 256 + hex_val(s[10])
                                * 16 + hex_val(s[11]);
                            if 0xDC00 <= low && low < 0xE000 {
                                let cp = 0x10000 + (code - 0xD800) * 0x400 + (low - 0xDC00);
                                cons_parsed((cp as u32) as char, spec_parse_string_body(s.skip(12)))
                            } else {
                                None
                            }
                        }
                    } else if 0xDC00 <= code && code < 0xE000 {
                        None
                    } else {
                        cons_parsed((code as u32) as char, spec_parse_string_body(s.skip(6)))
                    }
                }
            } else {
                None
            }
        }
    } else if (s[0] as u32) < 0x20 {
        None
    } else {
        cons_parsed(s[0], spec_parse_string_body(s.drop_first()))
    }
}

/// Prepends already-decoded characters to a parse outcome.
pub open spec fn acc_parsed(p: Seq<char>, o: Option<(Seq<char>, Seq<char>)>) -> Option<
    (Seq<char>, Seq<char>),
> {
    match o {
        None => None,
        Some((t, r)) => Some((p + t, r)),
    }
}

proof fn lemma_hex_val_bound(c: char)
    requires
        is_hex_digit(c),
    ensures
        hex_val(c) < 16,
{
}

/// Reads four hexadecimal digits at `i`, which the caller has bounds-checked.
fn read_hex4(v: &Vec<char>, i: usize) -> (r: Option<u32>)
    requires
        i + 4 <= v@.len(),
    ensures
        match r {
            Some(x) => is_hex_digit(v@[i as int]) && is_hex_digit(v@[i + 1]) && is_hex_digit(
                v@[i + 2],
            ) && is_hex_digit(v@[i + 3]) && x == hex_val(v@[i as int]) * 4096 + hex_val(v@[i + 1])
                * 256 + hex_val(v@[i + 2]) * 16 + hex_val(v@[i + 3]) && x < 0x10000,
            None => !(is_hex_digit(v@[i as int]) && is_hex_digit(v@[i + 1]) && is_hex_digit(
                v@[i + 2],
            ) && is_hex_digit(v@[i + 3])),
        },
{
    let n = v.len();
    let mut x: u32 = 0;
    let mut k: usize = 0;
    while k < 4
        invariant
            k <= 4,
            n == v@.len(),
            i + 4 <= v@.len(),
            k >= 1 ==> is_hex_digit(v@[i as int]),
            k >= 2 ==> is_hex_digit(v@[i + 1]),
            k >= 3 ==> is_hex_digit(v@[i + 2]),
            k >= 4 ==> is_hex_digit(v@[i + 3]),
            x < 0x10000,
            k == 0 ==> x == 0,
            k == 1 ==> x < 16,
            k == 2 ==> x < 256,
            k == 3 ==> x < 4096,
            k == 1 ==> x == hex_val(v@[i as int]),
            k == 2 ==> x == hex_val(v@[i as int]) * 16 + hex_val(v@[i + 1]),
            k == 3 ==> x == hex_val(v@[i as int]) * 256 + hex_val(v@[i + 1]) * 16 + hex_val(
                v@[i + 2],
            ),
            k == 4 ==> x == hex_val(v@[i as int]) * 4096 + hex_val(v@[i + 1]) * 256 + hex_val(
                v@[i + 2],
            ) * 16 + hex_val(v@[i + 3]),
        decreases 4 - k,
    {
        let c = v[i + k];
        let u = c as u32;
        let d: u32 = if 48 <= u && u <= 57 {
            u - 48
        } else if 97 <= u && u <= 102 {
            u - 87
        } else if 65 <= u && u <= 70 {
            u - 55
        } else {
            return None;
        };
        proof {
            assert(is_hex_digit(v@[i + k]));
            assert(d == hex_val(v@[i + k]));
            lemma_hex_val_bound(v@[i + k]);
        }
        x = x * 16 + d;
        k = k + 1;
    }
    Some(x)
}

proof fn lemma_acc_cons(p: Seq<char>, c: char, o: Option<(Seq<char>, Seq<char>)>)
    ensures
        acc_parsed(p, cons_parsed(c, o)) == acc_parsed(p.push(c), o),
{
    match o {
        None => {
        },
        Some((t, r)) => {
            assert(p + (seq![c] + t) =~= p.push(c) + t);
        },
    }
}

/// Parses the body of a JSON string literal starting at index `start` of `v`,
/// the opening quote already consumed.
/// Parses one escape sequence at index `i` of `v`, where `v[i]` is the
/// backslash. Returns the decoded character and the index just past the
/// escape.
#[verifier::rlimit(60)]
fn parse_escape(v: &Vec<char>, i: usize) -> (r: Option<(char, usize)>)
    requires
        i < v@.len(),
        v@[i as int] == '\\',
    ensures
        match r {
            Some((d, j)) => i + 2 <= j <= v@.len() && spec_parse_string_body(v@.skip(i as int))
                == cons_parsed(d, spec_parse_string_body(v@.skip(j as int))),
            None => spec_parse_string_body(v@.skip(i as int)) is None,
        },
{
    let n = v.len();
    let ghost suf = v@.skip(i as int);
    proof {
        assert(suf.len() == v@.len() - i);
        assert(forall|j: int| 0 <= j < suf.len() ==> suf[j] == v@[i + j]);
    }
    if i + 1 >= n {
        proof {
            assert(suf.len() < 2);
        }
        return None;
    }
    let e = v[i + 1];
    assert(e == suf[1]);
    if e == '"' || e == '\\' || e == '/' || e == 'b' || e == 'f' || e == 'n' || e == 'r' || e
        == 't' {
        let d: char = if e == 'b' {
            '\u{8}'
        } else if e == 'f' {
            '\u{c}'
        } else if e == 'n' {
            '\n'
        } else if e == 'r' {
            '\r'
        } else if e == 't' {
            '\t'
        } else {
            e
        };
        proof {
            assert(suf.skip(2) =~= v@.skip(i + 2));
        }
        Some((d, i + 2))
    } else if e == 'u' {
        if n - i < 6 {
            proof {
                assert(suf.len() < 6);
            }
            return None;
        }
        let code = match read_hex4(v, i + 2) {
            Some(x) => x,
            None => {
                proof {
                    assert(suf[2] == v@[i + 2] && suf[3] == v@[i + 3] && suf[4] == v@[i + 4]
                        && suf[5] == v@[i + 5]);
                }
                return None;
            },
        };
        proof {
            assert(suf[2] == v@[i + 2] && suf[3] == v@[i + 3] && suf[4] == v@[i + 4] && suf[5]
                == v@[i + 5]);
        }
        if 0xD800 <= code && code < 0xDC00 {
            if n - i < 12 {
                proof {
                    assert(suf.len() < 12);
                }
                return None;
            }
            let c6 = v[i + 6];
            let c7 = v[i + 7];
            if !(c6 == '\\' && c7 == 'u') {
                proof {
                    assert(suf[6] == c6 && suf[7] == c7);
                }
                return None;
            }
            let low = match read_hex4(v, i + 8) {
                Some(x) => x,
                None => {
                    proof {
                        assert(suf[8] == v@[i + 8] && suf[9] == v@[i + 9] && suf[10] == v@[i + 10]
                            && suf[11] == v@[i + 11]);
                    }
                    return None;
                },
            };
            proof {
                assert(suf[8] == v@[i + 8] && suf[9] == v@[i + 9] && suf[10] == v@[i + 10]
                    && suf[11] == v@[i + 11]);
            }
            if !(0xDC00 <= low && low < 0xE000) {
                return None;
            }
            let cp: u32 = 0x10000 + (code - 0xD800) * 0x400 + (low - 0xDC00);
            let d = char_from_code(cp);
            proof {
                assert(suf.skip(12) =~= v@.skip(i + 12));
            }
            Some((d, i + 12))
        } else if 0xDC00 <= code && code < 0xE000 {
            None
        } else {
            let d = char_from_code(code);
            proof {
                assert(suf.skip(6) =~= v@.skip(i + 6));
            }
            Some((d, i + 6))
        }
    } else {
        None
    }
}

/// Parses the body of a JSON string literal starting at index `start` of `v`,
/// the opening quote already consumed.
pub fn parse_string_body(v: &Vec<char>, start: usize) -> (r: Option<(Vec<char>, usize)>)
    requires
        start <= v@.len(),
    ensures
        match r {
            Some((t, j)) => start <= j <= v@.len() && spec_parse_string_body(
                v@.skip(start as int),
            ) == Some((t@, v@.skip(j as int))),
            None => spec_parse_string_body(v@.skip(start as int)) is None,
        },
{
    let mut acc: Vec<char> = Vec::new();
    let mut i: usize = start;
    proof {
        assert(acc@ + v@.skip(start as int) =~= v@.skip(start as int));
    }
    while i < v.len()
        invariant
            start <= i <= v@.len(),
            spec_parse_string_body(v@.skip(start as int)) == acc_parsed(
                acc@,
                spec_parse_string_body(v@.skip(i as int)),
            ),
        decreases v@.len() - i,
    {
        let ghost suf = v@.skip(i as int);
        proof {
            assert(suf.len() == v@.len() - i);
            assert(forall|j: int| 0 <= j < suf.len() ==> suf[j] == v@[i + j]);
        }
        let c = v[i];
        assert(c == suf[0]);
        if c == '"' {
            proof {
                assert(suf.drop_first() =~= v@.skip(i + 1));
                assert(acc@ + Seq::<char>::empty() =~= acc@);
            }
            return Some((acc, i + 1));
        } else if c == '\\' {
            match parse_escape(v, i) {
                Some((d, j)) => {
                    proof {
                        lemma_acc_cons(acc@, d, spec_parse_string_body(v@.skip(j as int)));
                    }
                    acc.push(d);
                    i = j;
                },
                None => {
                    return None;
                },
            }
        } else if (c as u32) < 0x20 {
            return None;
        } else {
            proof {
                assert(suf.drop_first() =~= v@.skip(i + 1));
                assert(spec_parse_string_body(suf) == cons_parsed(
                    c,
                    spec_parse_string_body(v@.skip(i + 1)),
                ));
                lemma_acc_cons(acc@, c, spec_parse_string_body(v@.skip(i + 1)));
            }
            acc.push(c);
            i = i + 1;
        }
    }
    proof {
        assert(v@.skip(i as int).len() == 0);
    }
    None
}


// ---------------------------------------------------------------------------
// Structural tokens
// ---------------------------------------------------------------------------

/// Drops insignificant whitespace from the front of the input.
pub open spec fn spec_skip_ws(s: Seq<char>) -> Seq<char>
    decreases s.len(),
{
    if s.len() > 0 && is_json_ws(s[0]) {
        spec_skip_ws(s.drop_first())
    } else {
        s
    }
}

/// Consumes one expected character.
pub open spec fn spec_char(s: Seq<char>, c: char) -> Option<Seq<char>> {
    if s.len() > 0 && s[0] == c {
        Some(s.drop_first())
    } else {
        None
    }
}

/// Consumes an expected literal character sequence.
pub open spec fn spec_lit(s: Seq<char>, lit: Seq<char>) -> Option<Seq<char>> {
    if lit.len() <= s.len() && s.take(lit.len() as int) == lit {
        Some(s.skip(lit.len() as int))
    } else {
        None
    }
}

/// Skips whitespace starting at index `start`, returning the first
/// non-whitespace index.
pub fn skip_ws(v: &Vec<char>, start: usize) -> (j: usize)
    requires
        start <= v@.len(),
    ensures
        start <= j <= v@.len(),
        spec_skip_ws(v@.skip(start as int)) == v@.skip(j as int),
{
    let mut i: usize = start;
    while i < v.len()
        invariant
            start <= i <= v@.len(),
            spec_skip_ws(v@.skip(start as int)) == spec_skip_ws(v@.skip(i as int)),
        decreases v@.len() - i,
    {
        let c = v[i];
        if !(c == ' ' || c == '\t' || c == '\n' || c == '\r') {
            proof {
                assert(v@.skip(i as int)[0] == c);
                assert(spec_skip_ws(v@.skip(i as int)) == v@.skip(i as int));
            }
            return i;
        }
        proof {
            assert(v@.skip(i as int)[0] == c);
            assert(v@.skip(i as int).drop_first() =~= v@.skip(i + 1));
        }
        i = i + 1;
    }
    proof {
        assert(v@.skip(i as int).len() == 0);
    }
    i
}

/// Consumes the character `c` at index `start`.
pub fn expect_char(v: &Vec<char>, start: usize, c: char) -> (r: Option<usize>)
    requires
        start <= v@.len(),
    ensures
        match r {
            Some(j) => start < j <= v@.len() && spec_char(v@.skip(start as int), c) == Some(
                v@.skip(j as int),
            ),
            None => spec_char(v@.skip(start as int), c) is None,
        },
{
    if start < v.len() {
        let d = v[start];
        proof {
            assert(v@.skip(start as int)[0] == d);
        }
        if d == c {
            proof {
                assert(v@.skip(start as int).drop_first() =~= v@.skip(start + 1));
            }
            Some(start + 1)
        } else {
            None
        }
    } else {
        proof {
            assert(v@.skip(start as int).len() == 0);
        }
        None
    }
}

/// Consumes the literal `lit` at index `start`.
pub fn expect_lit(v: &Vec<char>, start: usize, lit: &Vec<char>) -> (r: Option<usize>)
    requires
        start <= v@.len(),
    ensures
        match r {
            Some(j) => start <= j <= v@.len() && spec_lit(v@.skip(start as int), lit@) == Some(
                v@.skip(j as int),
            ),
            None => spec_lit(v@.skip(start as int), lit@) is None,
        },
{
    let n = v.len();
    let m = lit.len();
    if n - start < m {
        proof {
            assert(v@.skip(start as int).len() < lit@.len());
        }
        return None;
    }
    let mut k: usize = 0;
    while k < m
        invariant
            k <= m,
            m == lit@.len(),
            start + m <= v@.len(),
            v@.len() <= usize::MAX,
            forall|j: int| 0 <= j < k ==> v@[start + j] == lit@[j],
        decreases m - k,
    {
        if v[start + k] != lit[k] {
            proof {
                let suf = v@.skip(start as int);
                assert(suf[k as int] == v@[start + k]);
                assert(suf.take(lit@.len() as int)[k as int] == suf[k as int]);
                assert(suf.take(lit@.len() as int) != lit@);
            }
            return None;
        }
        k = k + 1;
    }
    proof {
        let suf = v@.skip(start as int);
        assert(suf.take(lit@.len() as int) =~= lit@);
        assert(suf.skip(lit@.len() as int) =~= v@.skip(start + m));
    }
    Some(start + m)
}

// ---------------------------------------------------------------------------
// Decimal numbers
// ---------------------------------------------------------------------------

/// The decimal digits of a number, most significant first.
pub open spec fn spec_dec_digits(n: nat) -> Seq<char>
    decreases n,
{
    if n < 10 {
        seq![dec_digit_char(n)]
    } else {
        spec_dec_digits(n / 10).push(dec_digit_char(n % 10))
    }
}

/// The decimal rendering of a signed number.
pub open spec fn spec_dec_i64(v: int) -> Seq<char> {
    if v < 0 {
        seq!['-'] + spec_dec_digits((-v) as nat)
    } else {
        spec_dec_digits(v as nat)
    }
}

/// The numeric value of a sequence of decimal digits.
pub open spec fn digits_val(ds: Seq<char>) -> nat
    decreases ds.len(),
{
    if ds.len() == 0 {
        0
    } else {
        digits_val(ds.drop_last()) * 10 + dec_val(ds.last())
    }
}

/// The maximal run of decimal digits at the front of the input.
pub open spec fn spec_digits_prefix(s: Seq<char>) -> Seq<char>
    decreases s.len(),
{
    if s.len() > 0 && is_dec_digit(s[0]) {
        seq![s[0]] + spec_digits_prefix(s.drop_first())
    } else {
        Seq::empty()
    }
}

/// Parses an unsigned decimal number: a nonempty digit run without a
/// superfluous leading zero.
pub open spec fn spec_parse_nat(s: Seq<char>) -> Option<(nat, Seq<char>)> {
    let ds = spec_digits_prefix(s);
    if ds.len() == 0 {
        None
    } else if ds[0] == '0' && ds.len() > 1 {
        None
    } else {
        Some((digits_val(ds), s.skip(ds.len() as int)))
    }
}

/// Renders an unsigned number in decimal.
pub fn dec_u64_chars(n: u64) -> (v: Vec<char>)
    ensures
        v@ == spec_dec_digits(n as nat),
    decreases n,
{
    if n < 10 {
        let c = (48 + n as u8) as char;
        let mut v: Vec<char> = Vec::new();
        v.push(c);
        proof {
            assert(v@ =~= seq![dec_digit_char(n as nat)]);
        }
        v
    } else {
        let mut v = dec_u64_chars(n / 10);
        let c = (48 + (n % 10) as u8) as char;
        v.push(c);
        v
    }
}


proof fn lemma_digits_prefix_of(ds: Seq<char>, rest: Seq<char>)
    requires
        forall|i: int| 0 <= i < ds.len() ==> is_dec_digit(ds[i]),
        rest.len() == 0 || !is_dec_digit(rest[0]),
    ensures
        spec_digits_prefix(ds + rest) == ds,
    decreases ds.len(),
{
    if ds.len() == 0 {
        assert(ds + rest =~= rest);
        assert(spec_digits_prefix(rest) =~= Seq::<char>::empty());
        assert(ds =~= Seq::<char>::empty());
    } else {
        let s = ds + rest;
        assert(s[0] == ds[0]);
        assert(s.drop_first() =~= ds.drop_first() + rest);
        lemma_digits_prefix_of(ds.drop_first(), rest);
        assert(spec_digits_prefix(s) == seq![ds[0]] + ds.drop_first());
        assert(seq![ds[0]] + ds.drop_first() =~= ds);
    }
}

proof fn lemma_digits_val_append_ge(ds: Seq<char>, ext: Seq<char>)
    ensures
        digits_val(ds + ext) >= digits_val(ds),
    decreases ext.len(),
{
    if ext.len() == 0 {
        assert(ds + ext =~= ds);
    } else {
        assert((ds + ext).drop_last() =~= ds + ext.drop_last());
        lemma_digits_val_append_ge(ds, ext.drop_last());
        assert(digits_val(ds + ext) == digits_val(ds + ext.drop_last()) * 10 + dec_val(
            (ds + ext).last(),
        ));
    }
}

proof fn lemma_dec_digits_props(n: nat)
    ensures
        spec_dec_digits(n).len() >= 1,
        forall|i: int| 0 <= i < spec_dec_digits(n).len() ==> is_dec_digit(#[trigger] spec_dec_digits(n)[i]),
        digits_val(spec_dec_digits(n)) == n,
        n >= 1 ==> dec_val(spec_dec_digits(n)[0]) >= 1,
        n == 0 ==> spec_dec_digits(n) == seq![dec_digit_char(0)],
    decreases n,
{
    if n < 10 {
        let ds = spec_dec_digits(n);
        assert(ds == seq![dec_digit_char(n)]);
        assert(ds[0] == dec_digit_char(n));
        assert(is_dec_digit(dec_digit_char(n)));
        assert(ds.drop_last() =~= Seq::<char>::empty());
        assert(digits_val(ds) == digits_val(Seq::empty()) * 10 + dec_val(dec_digit_char(n)));
        assert(dec_val(dec_digit_char(n)) == n);
    } else {
        lemma_dec_digits_props(n / 10);
        let p = spec_dec_digits(n / 10);
        let ds = spec_dec_digits(n);
        assert(ds == p.push(dec_digit_char(n % 10)));
        assert(ds.drop_last() =~= p);
        assert(ds.last() == dec_digit_char(n % 10));
        assert(digits_val(ds) == digits_val(p) * 10 + dec_val(dec_digit_char(n % 10)));
        assert(dec_val(dec_digit_char(n % 10)) == n % 10);
        assert(digits_val(ds) == (n / 10) * 10 + n % 10);
        assert((n / 10) * 10 + n % 10 == n);
        assert(ds[0] == p[0]);
        assert(forall|i: int| 0 <= i < ds.len() ==> is_dec_digit(ds[i]));
    }
}

/// Decides whether a character is an ASCII decimal digit.
pub fn is_digit_char(c: char) -> (r: bool)
    ensures
        r == is_dec_digit(c),
{
    let u = c as u32;
    48 <= u && u <= 57
}

/// Parses an unsigned decimal value at index `start`, failing when the value
/// exceeds `bound`.
pub fn parse_nat_bounded(v: &Vec<char>, start: usize, bound: u64) -> (r: Option<(u64, usize)>)
    requires
        start <= v@.len(),
    ensures
        match r {
            Some((x, j)) => start <= j <= v@.len() && x <= bound && spec_parse_nat(
                v@.skip(start as int),
            ) == Some((x as nat, v@.skip(j as int))),
            None => match spec_parse_nat(v@.skip(start as int)) {
                None => true,
                Some((nv, rest)) => nv > bound,
            },
        },
{
    let n = v.len();
    let ghost suf = v@.skip(start as int);
    let mut j: usize = start;
    while j < n && is_digit_char(v[j])
        invariant
            start <= j <= n,
            n == v@.len(),
            forall|k: int| start <= k < j ==> is_dec_digit(v@[k]),
        decreases n - j,
    {
        j = j + 1;
    }
    let ghost ds = v@.subrange(start as int, j as int);
    proof {
        assert(suf =~= ds + v@.skip(j as int));
        assert(forall|i: int| 0 <= i < ds.len() ==> is_dec_digit(ds[i]));
        if j < n {
            assert(v@.skip(j as int)[0] == v@[j as int]);
            assert(!is_dec_digit(v@[j as int]));
        } else {
            assert(v@.skip(j as int).len() == 0);
        }
        lemma_digits_prefix_of(ds, v@.skip(j as int));
        assert(spec_digits_prefix(suf) == ds);
    }
    if j == start {
        proof {
            assert(ds.len() == 0);
        }
        return None;
    }
    if v[start] == '0' && j - start > 1 {
        proof {
            assert(ds[0] == v@[start as int]);
        }
        return None;
    }
    let mut acc: u64 = 0;
    let mut k: usize = start;
    proof {
        assert(v@.subrange(start as int, start as int) =~= Seq::<char>::empty());
    }
    while k < j
        invariant
            start <= k <= j <= n,
            n == v@.len(),
            acc <= bound,
            acc as nat == digits_val(v@.subrange(start as int, k as int)),
            forall|t: int| start <= t < j ==> is_dec_digit(v@[t]),
            spec_digits_prefix(suf) == ds,
            ds == v@.subrange(start as int, j as int),
            suf == v@.skip(start as int),
        decreases j - k,
    {
        let c = v[k];
        proof {
            assert(is_dec_digit(v@[k as int]));
        }
        let d: u64 = (c as u32 - 48) as u64;
        proof {
            assert(d as nat == dec_val(v@[k as int]));
            assert(d <= 9);
            assert(v@.subrange(start as int, k + 1) =~= v@.subrange(start as int, k as int).push(
                v@[k as int],
            ));
            assert(v@.subrange(start as int, k + 1).drop_last() =~= v@.subrange(
                start as int,
                k as int,
            ));
        }
        let exceeded: bool = if acc > bound / 10 {
            true
        } else {
            let na = acc * 10;
            proof {
                assert(acc <= bound / 10);
                assert(acc * 10 <= (bound / 10) * 10);
                assert((bound / 10) * 10 <= bound);
            }
            d > bound - na
        };
        if exceeded {
            proof {
                let head = v@.subrange(start as int, k + 1);
                assert(digits_val(head) == acc as nat * 10 + d as nat);
                if acc > bound / 10 {
                    assert(acc as nat * 10 + d as nat > bound as nat);
                }
                assert(digits_val(head) > bound as nat);
                assert(ds =~= head + v@.subrange(k + 1, j as int));
                lemma_digits_val_append_ge(head, v@.subrange(k + 1, j as int));
                assert(digits_val(ds) > bound as nat);
            }
            return None;
        }
        let na = acc * 10;
        acc = na + d;
        k = k + 1;
    }
    proof {
        assert(acc as nat == digits_val(ds));
        assert(suf.skip(ds.len() as int) =~= v@.skip(j as int));
    }
    Some((acc, j))
}

/// Parses a `u16` value.
pub open spec fn spec_parse_u16(s: Seq<char>) -> Option<(u16, Seq<char>)> {
    match spec_parse_nat(s) {
        None => None,
        Some((nv, r)) => if nv <= 65535 {
            Some((nv as u16, r))
        } else {
            None
        },
    }
}

/// Parses a `u16` at index `start`.
pub fn parse_u16_at(v: &Vec<char>, start: usize) -> (r: Option<(u16, usize)>)
    requires
        start <= v@.len(),
    ensures
        match r {
            Some((x, j)) => start <= j <= v@.len() && spec_parse_u16(v@.skip(start as int))
                == Some((x, v@.skip(j as int))),
            None => spec_parse_u16(v@.skip(start as int)) is None,
        },
{
    match parse_nat_bounded(v, start, 65535) {
        Some((x, j)) => Some((x as u16, j)),
        None => None,
    }
}

/// Parses an `i64` value: an optional minus sign and a decimal magnitude.
pub open spec fn spec_parse_i64(s: Seq<char>) -> Option<(i64, Seq<char>)> {
    if s.len() > 0 && s[0] == '-' {
        match spec_parse_nat(s.drop_first()) {
            None => None,
            Some((nv, r)) => if nv <= 0x8000000000000000 {
                Some(((-(nv as int)) as i64, r))
            } else {
                None
            },
        }
    } else {
        match spec_parse_nat(s) {
            None => None,
            Some((nv, r)) => if nv <= 0x7fffffffffffffff {
                Some((nv as i64, r))
            } else {
                None
            },
        }
    }
}

/// Parses an `i64` at index `start`.
pub fn parse_i64_at(v: &Vec<char>, start: usize) -> (r: Option<(i64, usize)>)
    requires
        start <= v@.len(),
    ensures
        match r {
            Some((x, j)) => start <= j <= v@.len() && spec_parse_i64(v@.skip(start as int))
                == Some((x, v@.skip(j as int))),
            None => spec_parse_i64(v@.skip(start as int)) is None,
        },
{
    let n = v.len();
    if start < n && v[start] == '-' {
        proof {
            assert(v@.skip(start as int)[0] == v@[start as int]);
            assert(v@.skip(start as int).drop_first() =~= v@.skip(start + 1));
        }
        match parse_nat_bounded(v, start + 1, 0x8000000000000000) {
            Some((x, j)) => {
                let r: i64 = if x == 0x8000000000000000 {
                    i64::MIN
                } else {
                    -(x as i64)
                };
                Some((r, j))
            },
            None => None,
        }
    } else {
        proof {
            if start < n {
                assert(v@.skip(start as int)[0] == v@[start as int]);
            } else {
                assert(v@.skip(start as int).len() == 0);
            }
        }
        match parse_nat_bounded(v, start, 0x7fffffffffffffff) {
            Some((x, j)) => Some((x as i64, j)),
            None => None,
        }
    }
}

// ---------------------------------------------------------------------------
// Round-trip lemmas for the primitive forms
// ---------------------------------------------------------------------------

/// Consuming a literal that stands at the front of the input leaves exactly
/// the rest.
pub proof fn lemma_lit_prefix(lit: Seq<char>, rest: Seq<char>)
    ensures
        spec_lit(lit + rest, lit) == Some(rest),
{
    assert((lit + rest).take(lit.len() as int) =~= lit);
    assert((lit + rest).skip(lit.len() as int) =~= rest);
}

/// Consuming an expected character that stands at the front of the input
/// leaves exactly the rest.
pub proof fn lemma_char_prefix(c: char, rest: Seq<char>)
    ensures
        spec_char(seq![c] + rest, c) == Some(rest),
{
    assert((seq![c] + rest)[0] == c);
    assert((seq![c] + rest).drop_first() =~= rest);
}

/// Skipping whitespace is the identity when the input does not start with
/// whitespace.
pub proof fn lemma_skip_ws_id(s: Seq<char>)
    requires
        s.len() == 0 || !is_json_ws(s[0]),
    ensures
        spec_skip_ws(s) == s,
{
}

proof fn lemma_hex_digit_char_val(m: nat)
    requires
        m < 16,
    ensures
        is_hex_digit(hex_digit_char(m)),
        hex_val(hex_digit_char(m)) == m,
{
}

/// A decimal rendering followed by a non-digit parses back to the same value.
pub proof fn lemma_parse_nat_of_digits(n: nat, rest: Seq<char>)
    requires
        rest.len() == 0 || !is_dec_digit(rest[0]),
    ensures
        spec_parse_nat(spec_dec_digits(n) + rest) == Some((n, rest)),
{
    lemma_dec_digits_props(n);
    let ds = spec_dec_digits(n);
    lemma_digits_prefix_of(ds, rest);
    assert(spec_digits_prefix(ds + rest) == ds);
    if ds[0] == '0' {
        assert(dec_val(ds[0]) == 0);
        assert(n == 0);
        assert(ds.len() == 1);
    }
    assert((ds + rest).skip(ds.len() as int) =~= rest);
}

/// The input a string-body parse sees when an escaped string, its closing
/// quote, and a remainder stand at the front.
pub open spec fn escaped_body_input(p: Seq<char>, rest: Seq<char>) -> Seq<char> {
    escape_string(p) + seq!['\u{22}'] + rest
}


#[verifier::rlimit(100)]
pub proof fn lemma_unescape_round_trip(p: Seq<char>, rest: Seq<char>)
    ensures
        Some((p, rest)) == spec_parse_string_body(escaped_body_input(p, rest)),
    decreases p.len(),
{
    let s = escaped_body_input(p, rest);
    if p.len() == 0 {
        assert(s =~= seq!['"'] + rest);
        assert(s[0] == '"');
        assert(s.drop_first() =~= rest);
    } else {
        let c = p[0];
        let tail = escaped_body_input(p.drop_first(), rest);
        assert(escape_string(p) == escape_char(c) + escape_string(p.drop_first()));
        assert(s =~= escape_char(c) + tail);
        lemma_unescape_round_trip(p.drop_first(), rest);
        let ec = escape_char(c);
        assert(forall|i: int| 0 <= i < ec.len() ==> s[i] == ec[i]);
        if c == '"' || c == '\\' {
            assert(s[0] == '\\' && s[1] == c);
            assert(s.skip(2) =~= tail);
            assert(spec_parse_string_body(s) == cons_parsed(c, Some((p.drop_first(), rest))));
            assert(seq![c] + p.drop_first() =~= p);
        } else if c == '\u{8}' || c == '\u{c}' || c == '\n' || c == '\r' || c == '\t' {
            assert(s[0] == '\\');
            assert(s.skip(2) =~= tail);
            assert(spec_parse_string_body(s) == cons_parsed(c, Some((p.drop_first(), rest))));
            assert(seq![c] + p.drop_first() =~= p);
        } else if (c as u32) < 0x20 {
            let x = c as u32;
            assert(s[0] == '\\' && s[1] == 'u' && s[2] == '0' && s[3] == '0');
            assert(s[4] == hex_digit_char((x / 16) as nat));
            assert(s[5] == hex_digit_char((x % 16) as nat));
            assert(is_hex_digit('0') && hex_val('0') == 0);
            lemma_hex_digit_char_val((x / 16) as nat);
            lemma_hex_digit_char_val((x % 16) as nat);
            let code = hex_val(s[2]) * 4096 + hex_val(s[3]) * 256 + hex_val(s[4]) * 16 + hex_val(
                s[5],
            );
            assert(code == (x / 16) * 16 + x % 16);
            assert(code == x);
            assert(s.skip(6) =~= tail);
            assert(code < 0x20);
            assert((code as u32) == x);
            vstd::utf8::char_u32_cast(c, code as u32);
            assert(((code as u32) as char) == c);
            assert(spec_parse_string_body(s) == cons_parsed(c, Some((p.drop_first(), rest))));
            assert(seq![c] + p.drop_first() =~= p);
        } else {
            assert(ec == seq![c]);
            assert(s[0] == c);
            assert(s.drop_first() =~= tail);
            assert(spec_parse_string_body(s) == cons_parsed(c, Some((p.drop_first(), rest))));
            assert(seq![c] + p.drop_first() =~= p);
        }
    }
}


// ---------------------------------------------------------------------------
// Object-level combinators
// ---------------------------------------------------------------------------

/// Consumes whitespace and then one expected character.
pub open spec fn spec_ws_char(s: Seq<char>, c: char) -> Option<Seq<char>> {
    spec_char(spec_skip_ws(s), c)
}

/// Consumes whitespace, a verbatim key literal, whitespace, and a colon.
pub open spec fn spec_key_colon(s: Seq<char>, key: Seq<char>) -> Option<Seq<char>> {
    match spec_lit(spec_skip_ws(s), key) {
        None => None,
        Some(s2) => spec_ws_char(s2, ':'),
    }
}

/// Consumes whitespace and a JSON string value.
pub open spec fn spec_string_value(s: Seq<char>) -> Option<(Seq<char>, Seq<char>)> {
    match spec_ws_char(s, '\u{22}') {
        None => None,
        Some(s2) => spec_parse_string_body(s2),
    }
}

/// Consumes whitespace and an unsigned 16-bit number.
pub open spec fn spec_u16_value(s: Seq<char>) -> Option<(u16, Seq<char>)> {
    spec_parse_u16(spec_skip_ws(s))
}

/// Consumes whitespace and a signed 64-bit number.
pub open spec fn spec_i64_value(s: Seq<char>) -> Option<(i64, Seq<char>)> {
    spec_parse_i64(spec_skip_ws(s))
}

/// True when the input holds nothing but the closing brace and whitespace.
pub open spec fn spec_object_end(s: Seq<char>) -> bool {
    match spec_ws_char(s, '}') {
        None => false,
        Some(s2) => spec_skip_ws(s2).len() == 0,
    }
}

/// Consumes whitespace and the character `c` at index `start`.
pub fn ws_char(v: &Vec<char>, start: usize, c: char) -> (r: Option<usize>)
    requires
        start <= v@.len(),
    ensures
        match r {
            Some(j) => start <= j <= v@.len() && spec_ws_char(v@.skip(start as int), c) == Some(
                v@.skip(j as int),
            ),
            None => spec_ws_char(v@.skip(start as int), c) is None,
        },
{
    let i = skip_ws(v, start);
    expect_char(v, i, c)
}

/// Consumes whitespace, the key literal, whitespace and a colon at `start`.
pub fn key_colon(v: &Vec<char>, start: usize, key: &Vec<char>) -> (r: Option<usize>)
    requires
        start <= v@.len(),
    ensures
        match r {
            Some(j) => start <= j <= v@.len() && spec_key_colon(v@.skip(start as int), key@)
                == Some(v@.skip(j as int)),
            None => spec_key_colon(v@.skip(start as int), key@) is None,
        },
{
    let i = skip_ws(v, start);
    match expect_lit(v, i, key) {
        None => None,
        Some(j) => ws_char(v, j, ':'),
    }
}

/// Consumes whitespace and a JSON string value at `start`.
pub fn string_value(v: &Vec<char>, start: usize) -> (r: Option<(Vec<char>, usize)>)
    requires
        start <= v@.len(),
    ensures
        match r {
            Some((t, j)) => start <= j <= v@.len() && spec_string_value(v@.skip(start as int))
                == Some((t@, v@.skip(j as int))),
            None => spec_string_value(v@.skip(start as int)) is None,
        },
{
    match ws_char(v, start, '"') {
        None => None,
        Some(j) => parse_string_body(v, j),
    }
}

/// Consumes whitespace and a `u16` value at `start`.
pub fn u16_value(v: &Vec<char>, start: usize) -> (r: Option<(u16, usize)>)
    requires
        start <= v@.len(),
    ensures
        match r {
            Some((x, j)) => start <= j <= v@.len() && spec_u16_value(v@.skip(start as int))
                == Some((x, v@.skip(j as int))),
            None => spec_u16_value(v@.skip(start as int)) is None,
        },
{
    let i = skip_ws(v, start);
    parse_u16_at(v, i)
}

/// Consumes whitespace and an `i64` value at `start`.
pub fn i64_value(v: &Vec<char>, start: usize) -> (r: Option<(i64, usize)>)
    requires
        start <= v@.len(),
    ensures
        match r {
            Some((x, j)) => start <= j <= v@.len() && spec_i64_value(v@.skip(start as int))
                == Some((x, v@.skip(j as int))),
            None => spec_i64_value(v@.skip(start as int)) is None,
        },
{
    let i = skip_ws(v, start);
    parse_i64_at(v, i)
}

/// Decides whether only the closing brace and whitespace remain at `start`.
pub fn object_end(v: &Vec<char>, start: usize) -> (r: bool)
    requires
        start <= v@.len(),
    ensures
        r == spec_object_end(v@.skip(start as int)),
{
    match ws_char(v, start, '}') {
        None => false,
        Some(j) => {
            let k = skip_ws(v, j);
            k == v.len()
        },
    }
}

/// Appends the characters of `v` to `out`.
pub fn append_chars(out: &mut String, v: &Vec<char>)
    ensures
        final(out)@ == old(out)@ + v@,
{
    let ghost init = out@;
    let mut i: usize = 0;
    proof {
        assert(out@ =~= init + v@.take(0));
    }
    while i < v.len()
        invariant
            i <= v.len(),
            out@ == init + v@.take(i as int),
        decreases v.len() - i,
    {
        push_char(out, v[i]);
        proof {
            assert(v@.take(i + 1) =~= v@.take(i as int).push(v@[i as int]));
            assert(out@ =~= init + v@.take(i + 1));
        }
        i = i + 1;
    }
    proof {
        assert(v@.take(v@.len() as int) =~= v@);
    }
}

// ---------------------------------------------------------------------------
// Prefix lemmas for the combinators
// ---------------------------------------------------------------------------

/// A non-whitespace expected character at the front is consumed exactly.
pub proof fn lemma_ws_char_prefix(c: char, rest: Seq<char>)
    requires
        !is_json_ws(c),
    ensures
        spec_ws_char(seq![c] + rest, c) == Some(rest),
{
    assert((seq![c] + rest)[0] == c);
    lemma_skip_ws_id(seq![c] + rest);
    lemma_char_prefix(c, rest);
}

/// A key literal followed by a colon at the front is consumed exactly.
pub proof fn lemma_key_colon_prefix(key: Seq<char>, rest: Seq<char>)
    requires
        key.len() > 0,
        !is_json_ws(key[0]),
    ensures
        spec_key_colon(key + seq![':'] + rest, key) == Some(rest),
{
    let s = key + seq![':'] + rest;
    assert(s[0] == key[0]);
    lemma_skip_ws_id(s);
    assert(s =~= key + (seq![':'] + rest));
    lemma_lit_prefix(key, seq![':'] + rest);
    lemma_ws_char_prefix(':', rest);
}

/// A JSON string literal at the front is consumed exactly and decodes to the
/// original characters.
pub proof fn lemma_string_value_prefix(p: Seq<char>, rest: Seq<char>)
    ensures
        spec_string_value(json_string(p) + rest) == Some((p, rest)),
{
    let s = json_string(p) + rest;
    assert(s[0] == '\u{22}');
    lemma_skip_ws_id(s);
    assert(s =~= seq!['\u{22}'] + escaped_body_input(p, rest));
    lemma_char_prefix('\u{22}', escaped_body_input(p, rest));
    lemma_unescape_round_trip(p, rest);
}

/// A decimal `u16` at the front, followed by a non-digit, is consumed
/// exactly.
pub proof fn lemma_u16_value_prefix(x: u16, rest: Seq<char>)
    requires
        rest.len() == 0 || !is_dec_digit(rest[0]),
    ensures
        spec_u16_value(spec_dec_digits(x as nat) + rest) == Some((x, rest)),
{
    let s = spec_dec_digits(x as nat) + rest;
    lemma_dec_digits_props(x as nat);
    assert(s[0] == spec_dec_digits(x as nat)[0]);
    assert(is_dec_digit(s[0]));
    lemma_skip_ws_id(s);
    lemma_parse_nat_of_digits(x as nat, rest);
}

/// A decimal `i64` at the front, followed by a non-digit, is consumed
/// exactly.
pub proof fn lemma_i64_value_prefix(t: i64, rest: Seq<char>)
    requires
        rest.len() == 0 || !is_dec_digit(rest[0]),
    ensures
        spec_i64_value(spec_dec_i64(t as int) + rest) == Some((t, rest)),
{
    if t < 0 {
        let mag = (-(t as int)) as nat;
        let ds = spec_dec_digits(mag);
        lemma_dec_digits_props(mag);
        let s = spec_dec_i64(t as int) + rest;
        assert(s =~= seq!['-'] + (ds + rest));
        assert(s[0] == '-');
        lemma_skip_ws_id(s);
        assert(s.drop_first() =~= ds + rest);
        lemma_parse_nat_of_digits(mag, rest);
        assert(mag <= 0x8000000000000000);
        assert((-(mag as int)) as i64 == t);
    } else {
        let ds = spec_dec_digits(t as nat);
        lemma_dec_digits_props(t as nat);
        let s = spec_dec_i64(t as int) + rest;
        assert(s =~= ds + rest);
        assert(s[0] == ds[0]);
        assert(is_dec_digit(s[0]));
        assert(s[0] != '-');
        lemma_skip_ws_id(s);
        lemma_parse_nat_of_digits(t as nat, rest);
        assert(t as nat <= 0x7fffffffffffffff);
    }
}

/// The closing brace of an object, alone.
pub open spec fn brace_only() -> Seq<char> {
    seq!['\u{7d}']
}

/// A closing brace alone ends the object.
pub proof fn lemma_object_end_prefix()
    ensures
        spec_object_end(brace_only()),
{
    let s = brace_only();
    assert(s[0] == '}');
    lemma_skip_ws_id(s);
    assert(s =~= seq!['}'] + Seq::<char>::empty());
    lemma_char_prefix('}', Seq::empty());
    assert(spec_skip_ws(Seq::<char>::empty()).len() == 0);
}
} // verus!
