//! Decoder for the verbose text solid encoding.
//!
//! The grammar separates tokens by one-or-more whitespace, tolerates any
//! amount of whitespace at either end, matches keywords case-insensitively,
//! and allows an optional name after `solid` and after `endsolid` (the two
//! are never compared). The whole buffer must be consumed; any deviation
//! collapses into the single `Unparsable` failure.

use vstd::prelude::*;
use crate::coordinate::Coordinate;
use crate::facet::Facet;
use crate::parser::error::SolidError;
use crate::solid::Solid;

verus! {

/// Space, tab, carriage return or line feed.
pub open spec fn is_ws(b: u8) -> bool {
    b == 32 || b == 9 || b == 13 || b == 10
}

/// The ASCII upper-case letters folded to lower case.
pub open spec fn lower(b: u8) -> u8 {
    if 65 <= b <= 90 {
        (b + 32) as u8
    } else {
        b
    }
}

/// An ASCII decimal digit.
pub open spec fn is_digit(b: u8) -> bool {
    48 <= b <= 57
}

/// A leading plus or minus.
pub open spec fn is_sign(b: u8) -> bool {
    b == 43 || b == 45
}

/// First position at or after `i` that does not hold whitespace.
pub open spec fn ws_end(s: Seq<u8>, i: int) -> int
    decreases s.len() - i,
{
    if i < 0 || i >= s.len() || !is_ws(s[i]) {
        i
    } else {
        ws_end(s, i + 1)
    }
}

/// First position at or after `i` that holds whitespace (or the end).
pub open spec fn tok_end(s: Seq<u8>, i: int) -> int
    decreases s.len() - i,
{
    if i < 0 || i >= s.len() || is_ws(s[i]) {
        i
    } else {
        tok_end(s, i + 1)
    }
}

/// The next token from `pos` on: its start and end, or `None` when only
/// whitespace is left. Tokens are maximal runs of non-whitespace, so any two
/// consecutive tokens are separated by at least one whitespace byte.
pub open spec fn next_tok(s: Seq<u8>, pos: int) -> Option<(int, int)> {
    let a = ws_end(s, pos);
    if a >= s.len() {
        None
    } else {
        Some((a, tok_end(s, a)))
    }
}

/// First position at or after `i`, before `end`, that holds no digit.
pub open spec fn digits_end(s: Seq<u8>, i: int, end: int) -> int
    decreases end - i,
{
    if i < 0 || i >= end || i >= s.len() || !is_digit(s[i]) {
        i
    } else {
        digits_end(s, i + 1, end)
    }
}

/// An exponent part filling `[i, end)`: `e` or `E`, an optional sign, then
/// one or more digits.
pub open spec fn is_exp_part(s: Seq<u8>, i: int, end: int) -> bool {
    &&& i < end
    &&& (s[i] == 101 || s[i] == 69)
    &&& {
        let j = if i + 1 < end && is_sign(s[i + 1]) {
            i + 2
        } else {
            i + 1
        };
        j < end && digits_end(s, j, end) == end
    }
}

/// A decimal number filling `[i, end)`: digits with an optional fraction, or
/// a fraction alone, then an optional exponent.
pub open spec fn is_dec_num(s: Seq<u8>, i: int, end: int) -> bool {
    let d1 = digits_end(s, i, end);
    if d1 > i {
        ||| d1 == end
        ||| (d1 < end && d1 < s.len() && s[d1] == 46 && {
            let d2 = digits_end(s, d1 + 1, end);
            d2 == end || is_exp_part(s, d2, end)
        })
        ||| is_exp_part(s, d1, end)
    } else {
        i < end && i < s.len() && s[i] == 46 && {
            let d2 = digits_end(s, i + 1, end);
            d2 > i + 1 && (d2 == end || is_exp_part(s, d2, end))
        }
    }
}

/// A whole decimal token: an optional sign, then a decimal number.
pub open spec fn is_dec_token(t: Seq<u8>) -> bool {
    t.len() > 0 && {
        let i: int = if is_sign(t[0]) {
            1
        } else {
            0
        };
        is_dec_num(t, i, t.len() as int)
    }
}

/// Bit pattern of the correctly rounded (nearest, ties to even) IEEE 754
/// binary32 value of a decimal token, sign included.
pub uninterp spec fn dec_bits(t: Seq<u8>) -> u32;

/// Relies on `rustc_apfloat::ieee::Single::from_str`: the correctly rounded
/// binary32 value of a decimal numeral, a function of its characters alone.
#[verifier::external_body]
fn dec32(tok: &[u8]) -> (r: u32)
    requires
        is_dec_token(tok@),
    ensures
        r == dec_bits(tok@),
{
    let s = core::str::from_utf8(tok).unwrap();
    let v = s.parse::<rustc_apfloat::ieee::Single>().unwrap();
    rustc_apfloat::Float::to_bits(v) as u32
}

// Keyword and special-word recognition, case-insensitive, over a whole
// token `[a, b)`.

pub open spec fn tok_is_solid(s: Seq<u8>, a: int, b: int) -> bool {
    b - a == 5 && lower(s[a]) == 115 && lower(s[a + 1]) == 111 && lower(s[a + 2]) == 108 && lower(
        s[a + 3],
    ) == 105 && lower(s[a + 4]) == 100
}

pub open spec fn tok_is_endsolid(s: Seq<u8>, a: int, b: int) -> bool {
    b - a == 8 && lower(s[a]) == 101 && lower(s[a + 1]) == 110 && lower(s[a + 2]) == 100 && lower(
        s[a + 3],
    ) == 115 && lower(s[a + 4]) == 111 && lower(s[a + 5]) == 108 && lower(s[a + 6]) == 105 && lower(
        s[a + 7],
    ) == 100
}

pub open spec fn tok_is_facet(s: Seq<u8>, a: int, b: int) -> bool {
    b - a == 5 && lower(s[a]) == 102 && lower(s[a + 1]) == 97 && lower(s[a + 2]) == 99 && lower(
        s[a + 3],
    ) == 101 && lower(s[a + 4]) == 116
}

pub open spec fn tok_is_endfacet(s: Seq<u8>, a: int, b: int) -> bool {
    b - a == 8 && lower(s[a]) == 101 && lower(s[a + 1]) == 110 && lower(s[a + 2]) == 100 && lower(
        s[a + 3],
    ) == 102 && lower(s[a + 4]) == 97 && lower(s[a + 5]) == 99 && lower(s[a + 6]) == 101 && lower(
        s[a + 7],
    ) == 116
}

pub open spec fn tok_is_normal(s: Seq<u8>, a: int, b: int) -> bool {
    b - a == 6 && lower(s[a]) == 110 && lower(s[a + 1]) == 111 && lower(s[a + 2]) == 114 && lower(
        s[a + 3],
    ) == 109 && lower(s[a + 4]) == 97 && lower(s[a + 5]) == 108
}

pub open spec fn tok_is_outer(s: Seq<u8>, a: int, b: int) -> bool {
    b - a == 5 && lower(s[a]) == 111 && lower(s[a + 1]) == 117 && lower(s[a + 2]) == 116 && lower(
        s[a + 3],
    ) == 101 && lower(s[a + 4]) == 114
}

pub open spec fn tok_is_loop(s: Seq<u8>, a: int, b: int) -> bool {
    b - a == 4 && lower(s[a]) == 108 && lower(s[a + 1]) == 111 && lower(s[a + 2]) == 111 && lower(
        s[a + 3],
    ) == 112
}

pub open spec fn tok_is_vertex(s: Seq<u8>, a: int, b: int) -> bool {
    b - a == 6 && lower(s[a]) == 118 && lower(s[a + 1]) == 101 && lower(s[a + 2]) == 114 && lower(
        s[a + 3],
    ) == 116 && lower(s[a + 4]) == 101 && lower(s[a + 5]) == 120
}

pub open spec fn tok_is_endloop(s: Seq<u8>, a: int, b: int) -> bool {
    b - a == 7 && lower(s[a]) == 101 && lower(s[a + 1]) == 110 && lower(s[a + 2]) == 100 && lower(
        s[a + 3],
    ) == 108 && lower(s[a + 4]) == 111 && lower(s[a + 5]) == 111 && lower(s[a + 6]) == 112
}

pub open spec fn tok_is_nan(s: Seq<u8>, a: int, b: int) -> bool {
    b - a == 3 && lower(s[a]) == 110 && lower(s[a + 1]) == 97 && lower(s[a + 2]) == 110
}

pub open spec fn tok_is_inf(s: Seq<u8>, a: int, b: int) -> bool {
    b - a == 3 && lower(s[a]) == 105 && lower(s[a + 1]) == 110 && lower(s[a + 2]) == 102
}

pub open spec fn tok_is_infinity(s: Seq<u8>, a: int, b: int) -> bool {
    b - a == 8 && lower(s[a]) == 105 && lower(s[a + 1]) == 110 && lower(s[a + 2]) == 102 && lower(
        s[a + 3],
    ) == 105 && lower(s[a + 4]) == 110 && lower(s[a + 5]) == 105 && lower(s[a + 6]) == 116 && lower(
        s[a + 7],
    ) == 121
}

/// Whether a keyword is seen in a token depends only on the case-folded
/// bytes: two buffers that agree up to ASCII case agree on every keyword.
pub proof fn lemma_keywords_case_insensitive(s1: Seq<u8>, s2: Seq<u8>, a: int, b: int)
    requires
        forall|i: int| a <= i < b ==> lower(s1[i]) == lower(s2[i]),
    ensures
        tok_is_solid(s1, a, b) == tok_is_solid(s2, a, b),
        tok_is_endsolid(s1, a, b) == tok_is_endsolid(s2, a, b),
        tok_is_facet(s1, a, b) == tok_is_facet(s2, a, b),
        tok_is_endfacet(s1, a, b) == tok_is_endfacet(s2, a, b),
        tok_is_normal(s1, a, b) == tok_is_normal(s2, a, b),
        tok_is_outer(s1, a, b) == tok_is_outer(s2, a, b),
        tok_is_loop(s1, a, b) == tok_is_loop(s2, a, b),
        tok_is_vertex(s1, a, b) == tok_is_vertex(s2, a, b),
        tok_is_endloop(s1, a, b) == tok_is_endloop(s2, a, b),
{
}

/// The value of a float token: a case-insensitive NaN or infinity word with
/// an optional sign, or a signed decimal numeral, handed (sign included) to
/// the correctly rounded conversion; anything else is no float.
pub open spec fn float_tok_val(s: Seq<u8>, a: int, b: int) -> Option<u32> {
    if a >= b || b > s.len() {
        None
    } else {
        let neg = s[a] == 45;
        let i: int = if is_sign(s[a]) {
            a + 1
        } else {
            a
        };
        if tok_is_nan(s, i, b) {
            Some(
                if neg {
                    0xFFC0_0000u32
                } else {
                    0x7FC0_0000u32
                },
            )
        } else if tok_is_inf(s, i, b) || tok_is_infinity(s, i, b) {
            Some(
                if neg {
                    0xFF80_0000u32
                } else {
                    0x7F80_0000u32
                },
            )
        } else if is_dec_num(s, i, b) {
            Some(dec_bits(s.subrange(a, b)))
        } else {
            None
        }
    }
}

// The grammar itself, over tokens. Each rule hands back the position just
// after what it consumed.

/// Three whitespace-separated float tokens.
pub open spec fn parse_vec3(s: Seq<u8>, pos: int) -> Option<(int, (u32, u32, u32))> {
    match next_tok(s, pos) {
        None => None,
        Some((a1, b1)) => match float_tok_val(s, a1, b1) {
            None => None,
            Some(x) => match next_tok(s, b1) {
                None => None,
                Some((a2, b2)) => match float_tok_val(s, a2, b2) {
                    None => None,
                    Some(y) => match next_tok(s, b2) {
                        None => None,
                        Some((a3, b3)) => match float_tok_val(s, a3, b3) {
                            None => None,
                            Some(z) => Some((b3, (x, y, z))),
                        },
                    },
                },
            },
        },
    }
}

/// The keyword `vertex` followed by a vector.
pub open spec fn parse_vertex(s: Seq<u8>, pos: int) -> Option<(int, Coordinate)> {
    match next_tok(s, pos) {
        None => None,
        Some((a, b)) => if !tok_is_vertex(s, a, b) {
            None
        } else {
            match parse_vec3(s, b) {
                None => None,
                Some((p, v)) => Some((p, Coordinate { x: v.0, y: v.1, z: v.2 })),
            }
        },
    }
}

/// One whole facet: `facet`, `normal`, its vector, `outer`, `loop`, exactly
/// three vertices, `endloop`, `endfacet`.
pub open spec fn parse_facet(s: Seq<u8>, pos: int) -> Option<(int, Facet)> {
    match next_tok(s, pos) {
        None => None,
        Some((a, b)) => if !tok_is_facet(s, a, b) {
            None
        } else {
            match next_tok(s, b) {
                None => None,
                Some((a2, b2)) => if !tok_is_normal(s, a2, b2) {
                    None
                } else {
                    match parse_vec3(s, b2) {
                        None => None,
                        Some((p3, nv)) => match next_tok(s, p3) {
                            None => None,
                            Some((a4, b4)) => if !tok_is_outer(s, a4, b4) {
                                None
                            } else {
                                match next_tok(s, b4) {
                                    None => None,
                                    Some((a5, b5)) => if !tok_is_loop(s, a5, b5) {
                                        None
                                    } else {
                                        match parse_vertex(s, b5) {
                                            None => None,
                                            Some((p6, v1)) => match parse_vertex(s, p6) {
                                                None => None,
                                                Some((p7, v2)) => match parse_vertex(s, p7) {
                                                    None => None,
                                                    Some((p8, v3)) => match next_tok(s, p8) {
                                                        None => None,
                                                        Some((a9, b9)) => if !tok_is_endloop(
                                                            s,
                                                            a9,
                                                            b9,
                                                        ) {
                                                            None
                                                        } else {
                                                            match next_tok(s, b9) {
                                                                None => None,
                                                                Some((a10, b10)) => if !tok_is_endfacet(
                                                                    s,
                                                                    a10,
                                                                    b10,
                                                                ) {
                                                                    None
                                                                } else {
                                                                    Some(
                                                                        (
                                                                            b10,
                                                                            Facet {
                                                                                normal_vector: nv,
                                                                                vertices: (
                                                                                    v1,
                                                                                    v2,
                                                                                    v3,
                                                                                ),
                                                                            },
                                                                        ),
                                                                    )
                                                                },
                                                            }
                                                        },
                                                    },
                                                },
                                            },
                                        }
                                    },
                                }
                            },
                        },
                    }
                },
            }
        },
    }
}

/// Zero or more facets: collects while the next token is `facet`, and fails
/// if one that starts does not parse.
pub open spec fn parse_facets(s: Seq<u8>, pos: int) -> Option<(int, Seq<Facet>)>
    decreases s.len() - pos,
{
    match next_tok(s, pos) {
        None => Some((pos, Seq::empty())),
        Some((a, b)) => if !tok_is_facet(s, a, b) {
            Some((pos, Seq::empty()))
        } else {
            match parse_facet(s, pos) {
                None => None,
                Some((p2, f)) => if pos < p2 <= s.len() {
                    match parse_facets(s, p2) {
                        None => None,
                        Some((p3, fs)) => Some((p3, seq![f] + fs)),
                    }
                } else {
                    None
                },
            }
        },
    }
}

/// The facet list, `endsolid`, an optional closing name (accepted and
/// discarded, never compared to the opening one), then nothing but
/// whitespace to the end of the buffer.
pub open spec fn parse_tail(s: Seq<u8>, pos: int) -> Option<Seq<Facet>> {
    match parse_facets(s, pos) {
        None => None,
        Some((p, fs)) => match next_tok(s, p) {
            None => None,
            Some((a, b)) => if !tok_is_endsolid(s, a, b) {
                None
            } else {
                match next_tok(s, b) {
                    None => Some(fs),
                    Some((c, d)) => if tok_is_facet(s, c, d) {
                        None
                    } else if next_tok(s, d) is None {
                        Some(fs)
                    } else {
                        None
                    },
                }
            },
        },
    }
}

/// A whole text solid: `solid`, an optional name (any token other than
/// `facet`; taken when the rest of the buffer parses with it, else left),
/// the facet list, `endsolid`, an optional name, and the end of the buffer.
pub open spec fn parse_solid(s: Seq<u8>) -> Option<(Option<Seq<u8>>, Seq<Facet>)> {
    match next_tok(s, 0) {
        None => None,
        Some((a, b)) => if !tok_is_solid(s, a, b) {
            None
        } else {
            let named = match next_tok(s, b) {
                None => None,
                Some((c, d)) => if tok_is_facet(s, c, d) {
                    None
                } else {
                    match parse_tail(s, d) {
                        None => None,
                        Some(fs) => Some((Some(s.subrange(c, d)), fs)),
                    }
                },
            };
            if named is Some {
                named
            } else {
                match parse_tail(s, b) {
                    None => None,
                    Some(fs) => Some((None, fs)),
                }
            }
        },
    }
}

// Executable scanners, each verified against its specification above.

fn is_ws_b(b: u8) -> (r: bool)
    ensures
        r == is_ws(b),
{
    b == 32 || b == 9 || b == 13 || b == 10
}

fn is_digit_b(b: u8) -> (r: bool)
    ensures
        r == is_digit(b),
{
    48 <= b && b <= 57
}

fn lower_b(b: u8) -> (r: u8)
    ensures
        r == lower(b),
{
    if 65 <= b && b <= 90 {
        b + 32
    } else {
        b
    }
}

#[verifier::loop_isolation(false)]
fn skip_ws(input: &[u8], pos: usize) -> (r: usize)
    requires
        pos <= input@.len(),
    ensures
        r == ws_end(input@, pos as int),
        pos <= r <= input@.len(),
{
    let len = input.len();
    let mut i = pos;
    while i < len
        invariant
            pos <= i <= len,
            ws_end(input@, pos as int) == ws_end(input@, i as int),
        decreases len - i,
    {
        if !is_ws_b(input[i]) {
            return i;
        }
        i = i + 1;
    }
    i
}

#[verifier::loop_isolation(false)]
fn scan_token_end(input: &[u8], pos: usize) -> (r: usize)
    requires
        pos <= input@.len(),
    ensures
        r == tok_end(input@, pos as int),
        pos <= r <= input@.len(),
{
    let len = input.len();
    let mut i = pos;
    while i < len
        invariant
            pos <= i <= len,
            tok_end(input@, pos as int) == tok_end(input@, i as int),
        decreases len - i,
    {
        if is_ws_b(input[i]) {
            return i;
        }
        i = i + 1;
    }
    i
}

fn next_token(input: &[u8], pos: usize) -> (r: Option<(usize, usize)>)
    requires
        pos <= input@.len(),
    ensures
        match r {
            None => next_tok(input@, pos as int) is None,
            Some((a, b)) => {
                &&& next_tok(input@, pos as int) == Some((a as int, b as int))
                &&& pos <= a < b <= input@.len()
            },
        },
{
    let a = skip_ws(input, pos);
    if a == input.len() {
        None
    } else {
        let b = scan_token_end(input, a);
        proof {
            lemma_ws_end_props(input@, pos as int);
            lemma_tok_end_props(input@, a + 1);
        }
        assert(tok_end(input@, a as int) > a);
        Some((a, b))
    }
}

#[verifier::loop_isolation(false)]
fn scan_digits(input: &[u8], pos: usize, end: usize) -> (r: usize)
    requires
        pos <= end <= input@.len(),
    ensures
        r == digits_end(input@, pos as int, end as int),
        pos <= r <= end,
{
    let mut i = pos;
    while i < end
        invariant
            pos <= i <= end,
            digits_end(input@, pos as int, end as int) == digits_end(input@, i as int, end as int),
        decreases end - i,
    {
        if !is_digit_b(input[i]) {
            return i;
        }
        i = i + 1;
    }
    i
}

fn check_exp(input: &[u8], i: usize, end: usize) -> (r: bool)
    requires
        i <= end <= input@.len(),
    ensures
        r == is_exp_part(input@, i as int, end as int),
{
    if i >= end {
        return false;
    }
    if !(input[i] == 101 || input[i] == 69) {
        return false;
    }
    let j = if i + 1 < end && (input[i + 1] == 43 || input[i + 1] == 45) {
        i + 2
    } else {
        i + 1
    };
    j < end && scan_digits(input, j, end) == end
}

fn check_dec(input: &[u8], i: usize, end: usize) -> (r: bool)
    requires
        i <= end <= input@.len(),
    ensures
        r == is_dec_num(input@, i as int, end as int),
{
    let d1 = scan_digits(input, i, end);
    if d1 > i {
        if d1 == end {
            true
        } else if input[d1] == 46 {
            let d2 = scan_digits(input, d1 + 1, end);
            d2 == end || check_exp(input, d2, end)
        } else {
            check_exp(input, d1, end)
        }
    } else {
        if i < end && input[i] == 46 {
            let d2 = scan_digits(input, i + 1, end);
            d2 > i + 1 && (d2 == end || check_exp(input, d2, end))
        } else {
            false
        }
    }
}

proof fn lemma_ws_end_props(s: Seq<u8>, i: int)
    requires
        0 <= i <= s.len(),
    ensures
        i <= ws_end(s, i) <= s.len(),
        ws_end(s, i) < s.len() ==> !is_ws(s[ws_end(s, i)]),
    decreases s.len() - i,
{
    if i < s.len() && is_ws(s[i]) {
        lemma_ws_end_props(s, i + 1);
    }
}

proof fn lemma_tok_end_props(s: Seq<u8>, i: int)
    requires
        0 <= i <= s.len(),
    ensures
        i <= tok_end(s, i) <= s.len(),
    decreases s.len() - i,
{
    if i < s.len() && !is_ws(s[i]) {
        lemma_tok_end_props(s, i + 1);
    }
}

proof fn lemma_digits_end_props(s: Seq<u8>, i: int, end: int)
    requires
        0 <= i <= end <= s.len(),
    ensures
        i <= digits_end(s, i, end) <= end,
    decreases end - i,
{
    if i < end && is_digit(s[i]) {
        lemma_digits_end_props(s, i + 1, end);
    }
}

/// Scanning digits in a window of the buffer scans the same digits.
proof fn lemma_digits_end_shift(s: Seq<u8>, a: int, b: int, j: int)
    requires
        0 <= a <= j <= b <= s.len(),
    ensures
        digits_end(s.subrange(a, b), j - a, b - a) == digits_end(s, j, b) - a,
    decreases b - j,
{
    if j < b && is_digit(s[j]) {
        lemma_digits_end_shift(s, a, b, j + 1);
    }
}

/// As `lemma_digits_end_shift`, for the exponent part.
proof fn lemma_exp_shift(s: Seq<u8>, a: int, b: int, j: int)
    requires
        0 <= a <= j <= b <= s.len(),
    ensures
        is_exp_part(s.subrange(a, b), j - a, b - a) == is_exp_part(s, j, b),
{
    if j < b {
        if j + 1 < b && is_sign(s[j + 1]) {
            lemma_digits_end_shift(s, a, b, j + 2);
        } else if j + 1 <= b {
            lemma_digits_end_shift(s, a, b, j + 1);
        }
    }
}

/// As `lemma_digits_end_shift`, for a whole decimal number.
proof fn lemma_dec_shift(s: Seq<u8>, a: int, b: int, j: int)
    requires
        0 <= a <= j <= b <= s.len(),
    ensures
        is_dec_num(s.subrange(a, b), j - a, b - a) == is_dec_num(s, j, b),
{
    lemma_digits_end_shift(s, a, b, j);
    lemma_digits_end_props(s, j, b);
    let d1 = digits_end(s, j, b);
    if d1 > j {
        if d1 < b && s[d1] == 46 {
            lemma_digits_end_shift(s, a, b, d1 + 1);
            lemma_digits_end_props(s, d1 + 1, b);
            let d2 = digits_end(s, d1 + 1, b);
            lemma_exp_shift(s, a, b, d2);
        }
        lemma_exp_shift(s, a, b, d1);
    } else {
        if j < b && s[j] == 46 {
            lemma_digits_end_shift(s, a, b, j + 1);
            lemma_digits_end_props(s, j + 1, b);
            let d2 = digits_end(s, j + 1, b);
            lemma_exp_shift(s, a, b, d2);
        }
    }
}

// Executable keyword recognition.

fn ck_solid(input: &[u8], a: usize, b: usize) -> (r: bool)
    requires
        a <= b <= input@.len(),
    ensures
        r == tok_is_solid(input@, a as int, b as int),
{
    b - a == 5 && lower_b(input[a]) == 115 && lower_b(input[a + 1]) == 111 && lower_b(input[a + 2])
        == 108 && lower_b(input[a + 3]) == 105 && lower_b(input[a + 4]) == 100
}

fn ck_endsolid(input: &[u8], a: usize, b: usize) -> (r: bool)
    requires
        a <= b <= input@.len(),
    ensures
        r == tok_is_endsolid(input@, a as int, b as int),
{
    b - a == 8 && lower_b(input[a]) == 101 && lower_b(input[a + 1]) == 110 && lower_b(input[a + 2])
        == 100 && lower_b(input[a + 3]) == 115 && lower_b(input[a + 4]) == 111 && lower_b(
        input[a + 5],
    ) == 108 && lower_b(input[a + 6]) == 105 && lower_b(input[a + 7]) == 100
}

fn ck_facet(input: &[u8], a: usize, b: usize) -> (r: bool)
    requires
        a <= b <= input@.len(),
    ensures
        r == tok_is_facet(input@, a as int, b as int),
{
    b - a == 5 && lower_b(input[a]) == 102 && lower_b(input[a + 1]) == 97 && lower_b(input[a + 2])
        == 99 && lower_b(input[a + 3]) == 101 && lower_b(input[a + 4]) == 116
}

fn ck_endfacet(input: &[u8], a: usize, b: usize) -> (r: bool)
    requires
        a <= b <= input@.len(),
    ensures
        r == tok_is_endfacet(input@, a as int, b as int),
{
    b - a == 8 && lower_b(input[a]) == 101 && lower_b(input[a + 1]) == 110 && lower_b(input[a + 2])
        == 100 && lower_b(input[a + 3]) == 102 && lower_b(input[a + 4]) == 97 && lower_b(
        input[a + 5],
    ) == 99 && lower_b(input[a + 6]) == 101 && lower_b(input[a + 7]) == 116
}

fn ck_normal(input: &[u8], a: usize, b: usize) -> (r: bool)
    requires
        a <= b <= input@.len(),
    ensures
        r == tok_is_normal(input@, a as int, b as int),
{
    b - a == 6 && lower_b(input[a]) == 110 && lower_b(input[a + 1]) == 111 && lower_b(input[a + 2])
        == 114 && lower_b(input[a + 3]) == 109 && lower_b(input[a + 4]) == 97 && lower_b(
        input[a + 5],
    ) == 108
}

fn ck_outer(input: &[u8], a: usize, b: usize) -> (r: bool)
    requires
        a <= b <= input@.len(),
    ensures
        r == tok_is_outer(input@, a as int, b as int),
{
    b - a == 5 && lower_b(input[a]) == 111 && lower_b(input[a + 1]) == 117 && lower_b(input[a + 2])
        == 116 && lower_b(input[a + 3]) == 101 && lower_b(input[a + 4]) == 114
}

fn ck_loop(input: &[u8], a: usize, b: usize) -> (r: bool)
    requires
        a <= b <= input@.len(),
    ensures
        r == tok_is_loop(input@, a as int, b as int),
{
    b - a == 4 && lower_b(input[a]) == 108 && lower_b(input[a + 1]) == 111 && lower_b(input[a + 2])
        == 111 && lower_b(input[a + 3]) == 112
}

fn ck_vertex(input: &[u8], a: usize, b: usize) -> (r: bool)
    requires
        a <= b <= input@.len(),
    ensures
        r == tok_is_vertex(input@, a as int, b as int),
{
    b - a == 6 && lower_b(input[a]) == 118 && lower_b(input[a + 1]) == 101 && lower_b(input[a + 2])
        == 114 && lower_b(input[a + 3]) == 116 && lower_b(input[a + 4]) == 101 && lower_b(
        input[a + 5],
    ) == 120
}

fn ck_endloop(input: &[u8], a: usize, b: usize) -> (r: bool)
    requires
        a <= b <= input@.len(),
    ensures
        r == tok_is_endloop(input@, a as int, b as int),
{
    b - a == 7 && lower_b(input[a]) == 101 && lower_b(input[a + 1]) == 110 && lower_b(input[a + 2])
        == 100 && lower_b(input[a + 3]) == 108 && lower_b(input[a + 4]) == 111 && lower_b(
        input[a + 5],
    ) == 111 && lower_b(input[a + 6]) == 112
}

fn ck_nan(input: &[u8], a: usize, b: usize) -> (r: bool)
    requires
        a <= b <= input@.len(),
    ensures
        r == tok_is_nan(input@, a as int, b as int),
{
    b - a == 3 && lower_b(input[a]) == 110 && lower_b(input[a + 1]) == 97 && lower_b(input[a + 2])
        == 110
}

fn ck_inf(input: &[u8], a: usize, b: usize) -> (r: bool)
    requires
        a <= b <= input@.len(),
    ensures
        r == tok_is_inf(input@, a as int, b as int),
{
    b - a == 3 && lower_b(input[a]) == 105 && lower_b(input[a + 1]) == 110 && lower_b(input[a + 2])
        == 102
}

fn ck_infinity(input: &[u8], a: usize, b: usize) -> (r: bool)
    requires
        a <= b <= input@.len(),
    ensures
        r == tok_is_infinity(input@, a as int, b as int),
{
    b - a == 8 && lower_b(input[a]) == 105 && lower_b(input[a + 1]) == 110 && lower_b(input[a + 2])
        == 102 && lower_b(input[a + 3]) == 105 && lower_b(input[a + 4]) == 110 && lower_b(
        input[a + 5],
    ) == 105 && lower_b(input[a + 6]) == 116 && lower_b(input[a + 7]) == 121
}

/// Executable float-token evaluation.
fn float_token(input: &[u8], a: usize, b: usize) -> (r: Option<u32>)
    requires
        a < b <= input@.len(),
    ensures
        r == float_tok_val(input@, a as int, b as int),
{
    let neg = input[a] == 45;
    let i = if input[a] == 43 || input[a] == 45 {
        a + 1
    } else {
        a
    };
    if ck_nan(input, i, b) {
        Some(
            if neg {
                0xFFC0_0000
            } else {
                0x7FC0_0000
            },
        )
    } else if ck_inf(input, i, b) || ck_infinity(input, i, b) {
        Some(
            if neg {
                0xFF80_0000
            } else {
                0x7F80_0000
            },
        )
    } else if check_dec(input, i, b) {
        proof {
            lemma_dec_shift(input@, a as int, b as int, i as int);
            assert(is_dec_token(input@.subrange(a as int, b as int)));
        }
        Some(dec32(&input[a..b]))
    } else {
        None
    }
}

#[verifier::loop_isolation(false)]
fn copy_range(input: &[u8], a: usize, b: usize) -> (r: Vec<u8>)
    requires
        a <= b <= input@.len(),
    ensures
        r@ == input@.subrange(a as int, b as int),
{
    let mut out: Vec<u8> = Vec::new();
    let mut i = a;
    while i < b
        invariant
            a <= i <= b,
            out@ == input@.subrange(a as int, i as int),
        decreases b - i,
    {
        out.push(input[i]);
        proof {
            assert(out@ =~= input@.subrange(a as int, i + 1));
        }
        i = i + 1;
    }
    out
}

/// Executable vector rule.
fn read_vec3(input: &[u8], pos: usize) -> (r: Option<(usize, (u32, u32, u32))>)
    requires
        pos <= input@.len(),
    ensures
        match r {
            None => parse_vec3(input@, pos as int) is None,
            Some((p, v)) => {
                &&& parse_vec3(input@, pos as int) == Some((p as int, v))
                &&& pos <= p <= input@.len()
            },
        },
{
    let (a1, b1) = match next_token(input, pos) {
        None => {
            return None;
        },
        Some(t) => t,
    };
    let x = match float_token(input, a1, b1) {
        None => {
            return None;
        },
        Some(v) => v,
    };
    let (a2, b2) = match next_token(input, b1) {
        None => {
            return None;
        },
        Some(t) => t,
    };
    let y = match float_token(input, a2, b2) {
        None => {
            return None;
        },
        Some(v) => v,
    };
    let (a3, b3) = match next_token(input, b2) {
        None => {
            return None;
        },
        Some(t) => t,
    };
    let z = match float_token(input, a3, b3) {
        None => {
            return None;
        },
        Some(v) => v,
    };
    Some((b3, (x, y, z)))
}

/// Executable vertex rule.
fn read_vertex(input: &[u8], pos: usize) -> (r: Option<(usize, Coordinate)>)
    requires
        pos <= input@.len(),
    ensures
        match r {
            None => parse_vertex(input@, pos as int) is None,
            Some((p, v)) => {
                &&& parse_vertex(input@, pos as int) == Some((p as int, v))
                &&& pos <= p <= input@.len()
            },
        },
{
    let (a, b) = match next_token(input, pos) {
        None => {
            return None;
        },
        Some(t) => t,
    };
    if !ck_vertex(input, a, b) {
        return None;
    }
    match read_vec3(input, b) {
        None => None,
        Some((p, v)) => Some((p, Coordinate { x: v.0, y: v.1, z: v.2 })),
    }
}

/// Executable facet rule, from a given position.
fn read_facet(input: &[u8], pos: usize) -> (r: Option<(usize, Facet)>)
    requires
        pos <= input@.len(),
    ensures
        match r {
            None => parse_facet(input@, pos as int) is None,
            Some((p, f)) => {
                &&& parse_facet(input@, pos as int) == Some((p as int, f))
                &&& pos < p <= input@.len()
            },
        },
{
    let (a, b) = match next_token(input, pos) {
        None => {
            return None;
        },
        Some(t) => t,
    };
    if !ck_facet(input, a, b) {
        return None;
    }
    let (a2, b2) = match next_token(input, b) {
        None => {
            return None;
        },
        Some(t) => t,
    };
    if !ck_normal(input, a2, b2) {
        return None;
    }
    let (p3, nv) = match read_vec3(input, b2) {
        None => {
            return None;
        },
        Some(t) => t,
    };
    let (a4, b4) = match next_token(input, p3) {
        None => {
            return None;
        },
        Some(t) => t,
    };
    if !ck_outer(input, a4, b4) {
        return None;
    }
    let (a5, b5) = match next_token(input, b4) {
        None => {
            return None;
        },
        Some(t) => t,
    };
    if !ck_loop(input, a5, b5) {
        return None;
    }
    let (p6, v1) = match read_vertex(input, b5) {
        None => {
            return None;
        },
        Some(t) => t,
    };
    let (p7, v2) = match read_vertex(input, p6) {
        None => {
            return None;
        },
        Some(t) => t,
    };
    let (p8, v3) = match read_vertex(input, p7) {
        None => {
            return None;
        },
        Some(t) => t,
    };
    let (a9, b9) = match next_token(input, p8) {
        None => {
            return None;
        },
        Some(t) => t,
    };
    if !ck_endloop(input, a9, b9) {
        return None;
    }
    let (a10, b10) = match next_token(input, b9) {
        None => {
            return None;
        },
        Some(t) => t,
    };
    if !ck_endfacet(input, a10, b10) {
        return None;
    }
    Some((b10, Facet { normal_vector: nv, vertices: (v1, v2, v3) }))
}

/// Parses one facet at the start of the buffer (leading whitespace aside)
/// and returns the position just after it.
pub fn facet(input: &[u8]) -> (r: Option<(usize, Facet)>)
    ensures
        match r {
            None => parse_facet(input@, 0) is None,
            Some((p, f)) => parse_facet(input@, 0) == Some((p as int, f)),
        },
{
    read_facet(input, 0)
}

/// Executable facet list.
#[verifier::loop_isolation(false)]
fn read_facets(input: &[u8], pos: usize) -> (r: Option<(usize, Vec<Facet>)>)
    requires
        pos <= input@.len(),
    ensures
        match r {
            None => parse_facets(input@, pos as int) is None,
            Some((p, fs)) => {
                &&& parse_facets(input@, pos as int) == Some((p as int, fs@))
                &&& pos <= p <= input@.len()
            },
        },
{
    let mut cur = pos;
    let mut out: Vec<Facet> = Vec::new();
    loop
        invariant
            pos <= cur <= input@.len(),
            match parse_facets(input@, cur as int) {
                None => parse_facets(input@, pos as int) is None,
                Some((p, fs)) => parse_facets(input@, pos as int) == Some((p, out@ + fs)),
            },
        decreases input@.len() - cur,
    {
        let more = match next_token(input, cur) {
            None => false,
            Some((a, b)) => ck_facet(input, a, b),
        };
        if !more {
            proof {
                assert(parse_facets(input@, cur as int) == Some((cur as int, Seq::<Facet>::empty())));
                assert(out@ + Seq::<Facet>::empty() =~= out@);
            }
            return Some((cur, out));
        }
        let (p2, f) = match read_facet(input, cur) {
            None => {
                return None;
            },
            Some(t) => t,
        };
        proof {
            assert(parse_facets(input@, cur as int) matches Some(q) ==> q.1 == seq![f] + (
            match parse_facets(input@, p2 as int) {
                Some((_, fs)) => fs,
                None => Seq::empty(),
            }));
            assert(out@ + seq![f] =~= out@.push(f));
        }
        let ghost old_out = out@;
        out.push(f);
        proof {
            if parse_facets(input@, p2 as int) is Some {
                let (pp, fs) = parse_facets(input@, p2 as int)->Some_0;
                assert(old_out + (seq![f] + fs) =~= out@ + fs);
            }
        }
        cur = p2;
    }
}

/// Executable tail rule: facets, `endsolid`, optional name, end of buffer.
fn read_tail(input: &[u8], pos: usize) -> (r: Option<Vec<Facet>>)
    requires
        pos <= input@.len(),
    ensures
        match r {
            None => parse_tail(input@, pos as int) is None,
            Some(fs) => parse_tail(input@, pos as int) == Some(fs@),
        },
{
    let (p, fs) = match read_facets(input, pos) {
        None => {
            return None;
        },
        Some(t) => t,
    };
    let (a, b) = match next_token(input, p) {
        None => {
            return None;
        },
        Some(t) => t,
    };
    if !ck_endsolid(input, a, b) {
        return None;
    }
    match next_token(input, b) {
        None => Some(fs),
        Some((c, d)) => {
            if ck_facet(input, c, d) {
                return None;
            }
            match next_token(input, d) {
                None => Some(fs),
                Some(_) => None,
            }
        },
    }
}

/// Decodes a whole text solid from an in-memory buffer. On success the
/// result is exactly what the grammar derives: the optional opening name and
/// the facets in order; on any grammar violation the one `Unparsable` error.
pub fn solid(input: &[u8]) -> (r: Result<Solid, SolidError>)
    ensures
        match r {
            Ok(sol) => match parse_solid(input@) {
                Some(p) => {
                    &&& sol.facets@ == p.1
                    &&& match sol.name {
                        Some(n) => p.0 == Some(n@),
                        None => p.0 is None,
                    }
                },
                None => false,
            },
            Err(e) => parse_solid(input@) is None && e is Unparsable,
        },
{
    let (a, b) = match next_token(input, 0) {
        None => {
            return Err(SolidError::Unparsable);
        },
        Some(t) => t,
    };
    if !ck_solid(input, a, b) {
        return Err(SolidError::Unparsable);
    }
    match next_token(input, b) {
        Some((c, d)) if !ck_facet(input, c, d) => {
            match read_tail(input, d) {
                Some(fs) => {
                    let name = copy_range(input, c, d);
                    return Ok(Solid { name: Some(name), facets: fs });
                },
                None => {
                    match read_tail(input, b) {
                        Some(fs) => Ok(Solid { name: None, facets: fs }),
                        None => Err(SolidError::Unparsable),
                    }
                },
            }
        },
        _ => {
            match read_tail(input, b) {
                Some(fs) => Ok(Solid { name: None, facets: fs }),
                None => Err(SolidError::Unparsable),
            }
        },
    }
}

} // verus!
