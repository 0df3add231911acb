//! A byte-level parser for the upstream search reply.
//!
//! The search endpoint answers with a JSON array of records, each of which
//! must carry a `url` member holding a string. This module defines that
//! format as spec functions over byte sequences and provides executable
//! parsers proved against them.
//!
//! The accepted format, precisely:
//! - the body is an array `[ ... ]` of zero or more records, with nothing but
//!   whitespace after the closing bracket;
//! - every record is an object `{ ... }` with at least one member, exactly one
//!   of which is named `url` and holds a string;
//! - member values may be strings, numbers, `true`, `false`, `null`, or
//!   composites (arrays or objects), whose inside is checked against the
//!   same grammar, token by token;
//! - strings know the eight simple escapes and `\u` followed by four hex
//!   digits, with a high surrogate and the low one that must follow it
//!   combined into one scalar and a lone surrogate rejected; the content of
//!   a string is its bytes with escapes resolved, `\u` escapes as UTF-8;
//! - numbers are an optional minus, an integer part without a leading zero,
//!   an optional fraction and an optional exponent.

use vstd::prelude::*;

verus! {

/// JSON whitespace: space, tab, line feed, carriage return.
pub open spec fn is_ws(b: u8) -> bool {
    b == 0x20 || b == 0x09 || b == 0x0a || b == 0x0d
}

/// An ASCII decimal digit.
pub open spec fn is_digit(b: u8) -> bool {
    0x30 <= b <= 0x39
}

/// An ASCII hexadecimal digit, either case.
pub open spec fn is_hex(b: u8) -> bool {
    (0x30 <= b <= 0x39) || (0x41 <= b <= 0x46) || (0x61 <= b <= 0x66)
}

/// The value of a hexadecimal digit.
pub open spec fn hex_val(b: u8) -> int
    recommends
        is_hex(b),
{
    if 0x30 <= b <= 0x39 {
        b - 0x30
    } else if 0x41 <= b <= 0x46 {
        b - 0x41 + 10
    } else {
        b - 0x61 + 10
    }
}

/// What a simple two-character escape `\x` stands for, if `x` is one of the
/// eight bytes JSON allows there.
pub open spec fn escape_byte(e: u8) -> Option<u8> {
    if e == 0x22 {  // \" -> "
        Some(0x22u8)
    } else if e == 0x5c {  // \\ -> \
        Some(0x5cu8)
    } else if e == 0x2f {  // \/ -> /
        Some(0x2fu8)
    } else if e == 0x62 {  // \b -> backspace
        Some(0x08u8)
    } else if e == 0x66 {  // \f -> form feed
        Some(0x0cu8)
    } else if e == 0x6e {  // \n -> line feed
        Some(0x0au8)
    } else if e == 0x72 {  // \r -> carriage return
        Some(0x0du8)
    } else if e == 0x74 {  // \t -> tab
        Some(0x09u8)
    } else {
        None
    }
}

/// The UTF-8 encoding of a Unicode scalar value.
pub open spec fn utf8_of(cp: int) -> Seq<u8>
    recommends
        0 <= cp < 0x110000,
{
    if cp < 0x80 {
        seq![cp as u8]
    } else if cp < 0x800 {
        seq![(0xc0 + cp / 0x40) as u8, (0x80 + cp % 0x40) as u8]
    } else if cp < 0x10000 {
        seq![(0xe0 + cp / 0x1000) as u8, (0x80 + (cp / 0x40) % 0x40) as u8, (0x80 + cp % 0x40) as u8]
    } else {
        seq![
            (0xf0 + cp / 0x40000) as u8,
            (0x80 + (cp / 0x1000) % 0x40) as u8,
            (0x80 + (cp / 0x40) % 0x40) as u8,
            (0x80 + cp % 0x40) as u8,
        ]
    }
}

/// The first position at or after `i` that does not hold whitespace.
pub open spec fn spec_skip_ws(s: Seq<u8>, i: int) -> int
    recommends
        0 <= i <= s.len(),
    decreases s.len() - i,
{
    if 0 <= i < s.len() && is_ws(s[i]) {
        spec_skip_ws(s, i + 1)
    } else {
        i
    }
}

proof fn lemma_skip_ws_bounds(s: Seq<u8>, i: int)
    ensures
        0 <= i <= s.len() ==> i <= spec_skip_ws(s, i) <= s.len(),
    decreases s.len() - i,
{
    if 0 <= i < s.len() && is_ws(s[i]) {
        lemma_skip_ws_bounds(s, i + 1);
    }
}

/// The first position at or after `i` that does not hold a digit.
pub open spec fn spec_skip_digits(s: Seq<u8>, i: int) -> int
    recommends
        0 <= i <= s.len(),
    decreases s.len() - i,
{
    if 0 <= i < s.len() && is_digit(s[i]) {
        spec_skip_digits(s, i + 1)
    } else {
        i
    }
}

proof fn lemma_skip_digits_bounds(s: Seq<u8>, i: int)
    ensures
        0 <= i <= s.len() ==> i <= spec_skip_digits(s, i) <= s.len(),
    decreases s.len() - i,
{
    if 0 <= i < s.len() && is_digit(s[i]) {
        lemma_skip_digits_bounds(s, i + 1);
    }
}

/// Parses the rest of a string, from position `i` just past the opening
/// quote, accumulating the content seen so far in `acc`. Yields the position
/// just past the closing quote and the full content, or `None` if the string
/// never closes or holds an illegal byte or escape.
pub open spec fn spec_string_rest(s: Seq<u8>, i: int, acc: Seq<u8>) -> Option<(int, Seq<u8>)>
    recommends
        0 <= i <= s.len(),
    decreases s.len() - i,
{
    if !(0 <= i < s.len()) {
        None
    } else if s[i] == 0x22 {  // closing quote
        Some((i + 1, acc))
    } else if s[i] == 0x5c {  // backslash
        if i + 1 >= s.len() {
            None
        } else if s[i + 1] == 0x75 {  // \uXXXX
            if i + 6 <= s.len() && is_hex(s[i + 2]) && is_hex(s[i + 3]) && is_hex(s[i + 4])
                && is_hex(s[i + 5]) {
                let cp = hex_val(s[i + 2]) * 0x1000 + hex_val(s[i + 3]) * 0x100 + hex_val(
                    s[i + 4],
                ) * 0x10 + hex_val(s[i + 5]);
                if 0xdc00 <= cp < 0xe000 {  // a lone low surrogate
                    None
                } else if 0xd800 <= cp < 0xdc00 {  // a high surrogate: needs its low one
                    if i + 12 <= s.len() && s[i + 6] == 0x5c && s[i + 7] == 0x75 && is_hex(
                        s[i + 8],
                    ) && is_hex(s[i + 9]) && is_hex(s[i + 10]) && is_hex(s[i + 11]) {
                        let lo = hex_val(s[i + 8]) * 0x1000 + hex_val(s[i + 9]) * 0x100 + hex_val(
                            s[i + 10],
                        ) * 0x10 + hex_val(s[i + 11]);
                        if 0xdc00 <= lo < 0xe000 {
                            spec_string_rest(
                                s,
                                i + 12,
                                acc + utf8_of(0x10000 + (cp - 0xd800) * 0x400 + (lo - 0xdc00)),
                            )
                        } else {
                            None
                        }
                    } else {
                        None
                    }
                } else {
                    spec_string_rest(s, i + 6, acc + utf8_of(cp))
                }
            } else {
                None
            }
        } else {
            match escape_byte(s[i + 1]) {
                Some(m) => spec_string_rest(s, i + 2, acc.push(m)),
                None => None,
            }
        }
    } else if s[i] < 0x20 {  // raw control bytes are not accepted
        None
    } else {
        spec_string_rest(s, i + 1, acc.push(s[i]))
    }
}

proof fn lemma_string_rest_bounds(s: Seq<u8>, i: int, acc: Seq<u8>)
    ensures
        spec_string_rest(s, i, acc) matches Some(r) ==> i < r.0 <= s.len(),
    decreases s.len() - i,
{
    if 0 <= i < s.len() {
        if s[i] == 0x5c && i + 1 < s.len() && s[i + 1] == 0x75 && i + 6 <= s.len() && is_hex(
            s[i + 2],
        ) && is_hex(s[i + 3]) && is_hex(s[i + 4]) && is_hex(s[i + 5]) {
            let cp = hex_val(s[i + 2]) * 0x1000 + hex_val(s[i + 3]) * 0x100 + hex_val(s[i + 4])
                * 0x10 + hex_val(s[i + 5]);
            lemma_string_rest_bounds(s, i + 6, acc + utf8_of(cp));
            if i + 12 <= s.len() && is_hex(s[i + 8]) && is_hex(s[i + 9]) && is_hex(s[i + 10])
                && is_hex(s[i + 11]) {
                let lo = hex_val(s[i + 8]) * 0x1000 + hex_val(s[i + 9]) * 0x100 + hex_val(
                    s[i + 10],
                ) * 0x10 + hex_val(s[i + 11]);
                lemma_string_rest_bounds(
                    s,
                    i + 12,
                    acc + utf8_of(0x10000 + (cp - 0xd800) * 0x400 + (lo - 0xdc00)),
                );
            }
        }
        if s[i] == 0x5c && i + 1 < s.len() {
            match escape_byte(s[i + 1]) {
                Some(m) => lemma_string_rest_bounds(s, i + 2, acc.push(m)),
                None => (),
            }
        }
        lemma_string_rest_bounds(s, i + 1, acc.push(s[i]));
    }
}

/// Whether `b` is whitespace.
fn ws_at(s: &Vec<u8>, j: usize) -> (r: bool)
    requires
        j < s@.len(),
    ensures
        r == is_ws(s@[j as int]),
{
    let b = s[j];
    b == 0x20 || b == 0x09 || b == 0x0a || b == 0x0d
}

/// Advances past whitespace, starting at `i`.
fn skip_ws(s: &Vec<u8>, i: usize) -> (r: usize)
    requires
        i <= s@.len(),
    ensures
        r == spec_skip_ws(s@, i as int),
        i <= r <= s@.len(),
{
    let mut j = i;
    while j < s.len() && ws_at(s, j)
        invariant
            i <= j <= s@.len(),
            spec_skip_ws(s@, i as int) == spec_skip_ws(s@, j as int),
        decreases s@.len() - j,
    {
        j = j + 1;
    }
    j
}

/// Advances past digits, starting at `i`.
fn skip_digits(s: &Vec<u8>, i: usize) -> (r: usize)
    requires
        i <= s@.len(),
    ensures
        r == spec_skip_digits(s@, i as int),
        i <= r <= s@.len(),
{
    let mut j = i;
    while j < s.len() && s[j] >= 0x30 && s[j] <= 0x39
        invariant
            i <= j <= s@.len(),
            spec_skip_digits(s@, i as int) == spec_skip_digits(s@, j as int),
        decreases s@.len() - j,
    {
        j = j + 1;
    }
    j
}

/// Appends the UTF-8 encoding of a Unicode scalar value.
fn push_utf8(acc: &mut Vec<u8>, cp: u32)
    requires
        cp < 0x110000,
    ensures
        final(acc)@ == old(acc)@ + utf8_of(cp as int),
{
    let ghost acc_old = acc@;
    if cp < 0x80 {
        acc.push(cp as u8);
    } else if cp < 0x800 {
        acc.push((0xc0 + cp / 0x40) as u8);
        acc.push((0x80 + cp % 0x40) as u8);
    } else if cp < 0x10000 {
        acc.push((0xe0 + cp / 0x1000) as u8);
        acc.push((0x80 + (cp / 0x40) % 0x40) as u8);
        acc.push((0x80 + cp % 0x40) as u8);
    } else {
        acc.push((0xf0 + cp / 0x40000) as u8);
        acc.push((0x80 + (cp / 0x1000) % 0x40) as u8);
        acc.push((0x80 + (cp / 0x40) % 0x40) as u8);
        acc.push((0x80 + cp % 0x40) as u8);
    }
    proof {
        assert(acc@ =~= acc_old + utf8_of(cp as int));
    }
}

/// The value of a hexadecimal digit byte.
fn hex_val_of(b: u8) -> (r: u32)
    requires
        is_hex(b),
    ensures
        r == hex_val(b),
        r <= 15,
{
    if 0x30 <= b && b <= 0x39 {
        (b - 0x30) as u32
    } else if 0x41 <= b && b <= 0x46 {
        (b - 0x41) as u32 + 10
    } else {
        (b - 0x61) as u32 + 10
    }
}

/// Parses the rest of a string from just past its opening quote; returns the
/// position past the closing quote and the unescaped content.
fn parse_string_rest(s: &Vec<u8>, i: usize) -> (r: Option<(usize, Vec<u8>)>)
    requires
        i <= s@.len(),
    ensures
        match r {
            Some(p) => {
                &&& spec_string_rest(s@, i as int, Seq::empty()) == Some((p.0 as int, p.1@))
                &&& i < p.0 <= s@.len()
            },
            None => spec_string_rest(s@, i as int, Seq::empty()) is None,
        },
{
    let mut j = i;
    let mut acc: Vec<u8> = Vec::new();
    loop
        invariant
            i <= j <= s@.len(),
            spec_string_rest(s@, i as int, Seq::empty()) == spec_string_rest(s@, j as int, acc@),
        decreases s@.len() - j,
    {
        if j >= s.len() {
            return None;
        }
        let b = s[j];
        if b == 0x22 {
            proof {
                lemma_string_rest_bounds(s@, i as int, Seq::empty());
            }
            return Some((j + 1, acc));
        } else if b == 0x5c {
            if s.len() - j < 2 {
                return None;
            }
            let e = s[j + 1];
            if e == 0x75 {
                if s.len() - j < 6 {
                    return None;
                }
                let h0 = s[j + 2];
                let h1 = s[j + 3];
                let h2 = s[j + 4];
                let h3 = s[j + 5];
                if !(hex_at(h0) && hex_at(h1) && hex_at(h2) && hex_at(h3)) {
                    return None;
                }
                let cp: u32 = hex_val_of(h0) * 0x1000 + hex_val_of(h1) * 0x100 + hex_val_of(h2)
                    * 0x10 + hex_val_of(h3);
                if 0xdc00 <= cp && cp < 0xe000 {
                    return None;
                }
                if 0xd800 <= cp && cp < 0xdc00 {
                    if s.len() - j < 12 {
                        return None;
                    }
                    if !(s[j + 6] == 0x5c && s[j + 7] == 0x75) {
                        return None;
                    }
                    let g0 = s[j + 8];
                    let g1 = s[j + 9];
                    let g2 = s[j + 10];
                    let g3 = s[j + 11];
                    if !(hex_at(g0) && hex_at(g1) && hex_at(g2) && hex_at(g3)) {
                        return None;
                    }
                    let lo: u32 = hex_val_of(g0) * 0x1000 + hex_val_of(g1) * 0x100 + hex_val_of(
                        g2,
                    ) * 0x10 + hex_val_of(g3);
                    if !(0xdc00 <= lo && lo < 0xe000) {
                        return None;
                    }
                    let scalar: u32 = 0x10000 + (cp - 0xd800) * 0x400 + (lo - 0xdc00);
                    push_utf8(&mut acc, scalar);
                    j = j + 12;
                } else {
                    push_utf8(&mut acc, cp);
                    j = j + 6;
                }
            } else {
                let m: u8 = if e == 0x22 {
                    0x22
                } else if e == 0x5c {
                    0x5c
                } else if e == 0x2f {
                    0x2f
                } else if e == 0x62 {
                    0x08
                } else if e == 0x66 {
                    0x0c
                } else if e == 0x6e {
                    0x0a
                } else if e == 0x72 {
                    0x0d
                } else if e == 0x74 {
                    0x09
                } else {
                    return None;
                };
                acc.push(m);
                j = j + 2;
            }
        } else if b < 0x20 {
            return None;
        } else {
            acc.push(b);
            j = j + 1;
        }
    }
}

/// Whether `b` is a hexadecimal digit.
fn hex_at(b: u8) -> (r: bool)
    ensures
        r == is_hex(b),
{
    (0x30 <= b && b <= 0x39) || (0x41 <= b && b <= 0x46) || (0x61 <= b && b <= 0x66)
}

/// The end of the fraction part starting at `k`: either there is none, or a
/// point followed by at least one digit.
pub open spec fn spec_frac_end(s: Seq<u8>, k: int) -> Option<int>
    recommends
        0 <= k <= s.len(),
{
    if k < s.len() && s[k] == 0x2e {  // '.'
        if k + 1 < s.len() && is_digit(s[k + 1]) {
            Some(spec_skip_digits(s, k + 1))
        } else {
            None
        }
    } else {
        Some(k)
    }
}

/// The end of the exponent part starting at `k`: either there is none, or an
/// `e`/`E`, an optional sign, and at least one digit.
pub open spec fn spec_exp_end(s: Seq<u8>, k: int) -> Option<int>
    recommends
        0 <= k <= s.len(),
{
    if k < s.len() && (s[k] == 0x65 || s[k] == 0x45) {  // 'e' | 'E'
        let m = if k + 1 < s.len() && (s[k + 1] == 0x2b || s[k + 1] == 0x2d) {  // '+' | '-'
            k + 2
        } else {
            k + 1
        };
        if m < s.len() && is_digit(s[m]) {
            Some(spec_skip_digits(s, m))
        } else {
            None
        }
    } else {
        Some(k)
    }
}

/// The position just past a number that starts at `i`, or `None` if no
/// number starts there.
pub open spec fn spec_number_end(s: Seq<u8>, i: int) -> Option<int>
    recommends
        0 <= i <= s.len(),
{
    let j = if i < s.len() && s[i] == 0x2d {  // leading '-'
        i + 1
    } else {
        i
    };
    if j < s.len() && is_digit(s[j]) {
        if s[j] == 0x30 && j + 1 < s.len() && is_digit(s[j + 1]) {
            None  // a leading zero
        } else {
            let k = spec_skip_digits(s, j);
            match spec_frac_end(s, k) {
                Some(k2) => spec_exp_end(s, k2),
                None => None,
            }
        }
    } else {
        None
    }
}

proof fn lemma_number_end_bounds(s: Seq<u8>, i: int)
    requires
        0 <= i <= s.len(),
    ensures
        spec_number_end(s, i) matches Some(e) ==> i < e <= s.len(),
{
    let j = if i < s.len() && s[i] == 0x2d {
        i + 1
    } else {
        i
    };
    if j < s.len() && is_digit(s[j]) {
        lemma_skip_digits_bounds(s, j + 1);
        assert(spec_skip_digits(s, j) == spec_skip_digits(s, j + 1));
        let k = spec_skip_digits(s, j);
        if k < s.len() && s[k] == 0x2e && k + 1 < s.len() && is_digit(s[k + 1]) {
            lemma_skip_digits_bounds(s, k + 1);
        }
        match spec_frac_end(s, k) {
            Some(k2) => {
                if k2 < s.len() && (s[k2] == 0x65 || s[k2] == 0x45) {
                    let m = if k2 + 1 < s.len() && (s[k2 + 1] == 0x2b || s[k2 + 1] == 0x2d) {
                        k2 + 2
                    } else {
                        k2 + 1
                    };
                    if m <= s.len() {
                        lemma_skip_digits_bounds(s, m);
                    }
                }
            },
            None => (),
        }
    }
}

/// Scans a number that starts at `i`; returns the position just past it.
fn parse_number(s: &Vec<u8>, i: usize) -> (r: Option<usize>)
    requires
        i <= s@.len(),
    ensures
        match r {
            Some(e) => spec_number_end(s@, i as int) == Some(e as int) && i < e <= s@.len(),
            None => spec_number_end(s@, i as int) is None,
        },
{
    proof {
        lemma_number_end_bounds(s@, i as int);
    }
    let j = if i < s.len() && s[i] == 0x2d {
        i + 1
    } else {
        i
    };
    if !(j < s.len() && s[j] >= 0x30 && s[j] <= 0x39) {
        return None;
    }
    if s[j] == 0x30 && j + 1 < s.len() && s[j + 1] >= 0x30 && s[j + 1] <= 0x39 {
        return None;
    }
    let k = skip_digits(s, j);
    let k2: usize = if k < s.len() && s[k] == 0x2e {
        if k + 1 < s.len() && s[k + 1] >= 0x30 && s[k + 1] <= 0x39 {
            skip_digits(s, k + 1)
        } else {
            return None;
        }
    } else {
        k
    };
    if k2 < s.len() && (s[k2] == 0x65 || s[k2] == 0x45) {
        let m = if k2 + 1 < s.len() && (s[k2 + 1] == 0x2b || s[k2 + 1] == 0x2d) {
            k2 + 2
        } else {
            k2 + 1
        };
        if m < s.len() && s[m] >= 0x30 && s[m] <= 0x39 {
            Some(skip_digits(s, m))
        } else {
            None
        }
    } else {
        Some(k2)
    }
}

/// Walks a composite member value (an array or an object) token by token,
/// from position `i` just past the bracket that opened it, and checks the
/// full grammar inside. `stack` holds the yet unclosed opening brackets,
/// innermost last, and `expect` what must come next:
/// 0 a value or the closing `]`, 1 a value, 2 a key or the closing `}`,
/// 3 a key, 4 the colon after a key, 5 a comma or the container's close.
/// Yields the position just past the bracket that closes the outermost one.
#[verifier::opaque]
pub open spec fn spec_composite(s: Seq<u8>, i: int, stack: Seq<u8>, expect: u8) -> Option<int>
    recommends
        stack.len() >= 1,
    decreases s.len() - i,
    via spec_composite_dec
{
    if !(0 <= i <= s.len()) {
        None
    } else {
        let j = spec_skip_ws(s, i);
        if j >= s.len() {
            None
        } else {
            let b = s[j];
            if expect == 4 {  // the colon after a key
                if b == 0x3a {
                    spec_composite(s, j + 1, stack, 1)
                } else {
                    None
                }
            } else if expect == 5 {  // after a value: ',' or the close
                if b == 0x2c {
                    if stack.last() == 0x5b {
                        spec_composite(s, j + 1, stack, 1)
                    } else {
                        spec_composite(s, j + 1, stack, 3)
                    }
                } else if b == 0x5d && stack.last() == 0x5b {
                    if stack.len() == 1 {
                        Some(j + 1)
                    } else {
                        spec_composite(s, j + 1, stack.drop_last(), 5)
                    }
                } else if b == 0x7d && stack.last() == 0x7b {
                    if stack.len() == 1 {
                        Some(j + 1)
                    } else {
                        spec_composite(s, j + 1, stack.drop_last(), 5)
                    }
                } else {
                    None
                }
            } else if expect == 2 || expect == 3 {  // a key
                if b == 0x7d && expect == 2 && stack.last() == 0x7b {
                    if stack.len() == 1 {
                        Some(j + 1)
                    } else {
                        spec_composite(s, j + 1, stack.drop_last(), 5)
                    }
                } else if b == 0x22 {
                    match spec_string_rest(s, j + 1, Seq::empty()) {
                        Some(r) => spec_composite(s, r.0, stack, 4),
                        None => None,
                    }
                } else {
                    None
                }
            } else {  // a value
                if b == 0x5d && expect == 0 && stack.last() == 0x5b {
                    if stack.len() == 1 {
                        Some(j + 1)
                    } else {
                        spec_composite(s, j + 1, stack.drop_last(), 5)
                    }
                } else if b == 0x22 {
                    match spec_string_rest(s, j + 1, Seq::empty()) {
                        Some(r) => spec_composite(s, r.0, stack, 5),
                        None => None,
                    }
                } else if b == 0x2d || is_digit(b) {
                    match spec_number_end(s, j) {
                        Some(e) => spec_composite(s, e, stack, 5),
                        None => None,
                    }
                } else if b == 0x74 {  // true
                    if j + 4 <= s.len() && s[j + 1] == 0x72 && s[j + 2] == 0x75 && s[j + 3]
                        == 0x65 {
                        spec_composite(s, j + 4, stack, 5)
                    } else {
                        None
                    }
                } else if b == 0x66 {  // false
                    if j + 5 <= s.len() && s[j + 1] == 0x61 && s[j + 2] == 0x6c && s[j + 3]
                        == 0x73 && s[j + 4] == 0x65 {
                        spec_composite(s, j + 5, stack, 5)
                    } else {
                        None
                    }
                } else if b == 0x6e {  // null
                    if j + 4 <= s.len() && s[j + 1] == 0x75 && s[j + 2] == 0x6c && s[j + 3]
                        == 0x6c {
                        spec_composite(s, j + 4, stack, 5)
                    } else {
                        None
                    }
                } else if b == 0x5b {
                    spec_composite(s, j + 1, stack.push(0x5b), 0)
                } else if b == 0x7b {
                    spec_composite(s, j + 1, stack.push(0x7b), 2)
                } else {
                    None
                }
            }
        }
    }
}

#[via_fn]
proof fn spec_composite_dec(s: Seq<u8>, i: int, stack: Seq<u8>, expect: u8) {
    if 0 <= i <= s.len() {
        lemma_skip_ws_bounds(s, i);
        let j = spec_skip_ws(s, i);
        if j < s.len() {
            lemma_string_rest_bounds(s, j + 1, Seq::empty());
            lemma_number_end_bounds(s, j);
        }
    }
}

/// One unfolding of `spec_composite`, packaged so that callers need not
/// unfold the definition themselves.
proof fn lemma_composite_unfold(s: Seq<u8>, i: int, stack: Seq<u8>, expect: u8)
    ensures
        spec_composite(s, i, stack, expect) == ({
        if !(0 <= i <= s.len()) {
            None
        } else {
            let j = spec_skip_ws(s, i);
            if j >= s.len() {
                None
            } else {
                let b = s[j];
                if expect == 4 {  // the colon after a key
                    if b == 0x3a {
                        spec_composite(s, j + 1, stack, 1)
                    } else {
                        None
                    }
                } else if expect == 5 {  // after a value: ',' or the close
                    if b == 0x2c {
                        if stack.last() == 0x5b {
                            spec_composite(s, j + 1, stack, 1)
                        } else {
                            spec_composite(s, j + 1, stack, 3)
                        }
                    } else if b == 0x5d && stack.last() == 0x5b {
                        if stack.len() == 1 {
                            Some(j + 1)
                        } else {
                            spec_composite(s, j + 1, stack.drop_last(), 5)
                        }
                    } else if b == 0x7d && stack.last() == 0x7b {
                        if stack.len() == 1 {
                            Some(j + 1)
                        } else {
                            spec_composite(s, j + 1, stack.drop_last(), 5)
                        }
                    } else {
                        None
                    }
                } else if expect == 2 || expect == 3 {  // a key
                    if b == 0x7d && expect == 2 && stack.last() == 0x7b {
                        if stack.len() == 1 {
                            Some(j + 1)
                        } else {
                            spec_composite(s, j + 1, stack.drop_last(), 5)
                        }
                    } else if b == 0x22 {
                        match spec_string_rest(s, j + 1, Seq::empty()) {
                            Some(r) => spec_composite(s, r.0, stack, 4),
                            None => None,
                        }
                    } else {
                        None
                    }
                } else {  // a value
                    if b == 0x5d && expect == 0 && stack.last() == 0x5b {
                        if stack.len() == 1 {
                            Some(j + 1)
                        } else {
                            spec_composite(s, j + 1, stack.drop_last(), 5)
                        }
                    } else if b == 0x22 {
                        match spec_string_rest(s, j + 1, Seq::empty()) {
                            Some(r) => spec_composite(s, r.0, stack, 5),
                            None => None,
                        }
                    } else if b == 0x2d || is_digit(b) {
                        match spec_number_end(s, j) {
                            Some(e) => spec_composite(s, e, stack, 5),
                            None => None,
                        }
                    } else if b == 0x74 {  // true
                        if j + 4 <= s.len() && s[j + 1] == 0x72 && s[j + 2] == 0x75 && s[j + 3]
                            == 0x65 {
                            spec_composite(s, j + 4, stack, 5)
                        } else {
                            None
                        }
                    } else if b == 0x66 {  // false
                        if j + 5 <= s.len() && s[j + 1] == 0x61 && s[j + 2] == 0x6c && s[j + 3]
                            == 0x73 && s[j + 4] == 0x65 {
                            spec_composite(s, j + 5, stack, 5)
                        } else {
                            None
                        }
                    } else if b == 0x6e {  // null
                        if j + 4 <= s.len() && s[j + 1] == 0x75 && s[j + 2] == 0x6c && s[j + 3]
                            == 0x6c {
                            spec_composite(s, j + 4, stack, 5)
                        } else {
                            None
                        }
                    } else if b == 0x5b {
                        spec_composite(s, j + 1, stack.push(0x5b), 0)
                    } else if b == 0x7b {
                        spec_composite(s, j + 1, stack.push(0x7b), 2)
                    } else {
                        None
                    }
                }
            }
        }
        }),
{
    reveal_with_fuel(spec_composite, 1);
}

proof fn lemma_composite_bounds(s: Seq<u8>, i: int, stack: Seq<u8>, expect: u8)
    ensures
        0 <= i <= s.len() ==> (spec_composite(s, i, stack, expect) matches Some(e) ==> i < e
            <= s.len()),
    decreases s.len() - i,
{
    reveal_with_fuel(spec_composite, 1);
    if 0 <= i <= s.len() {
        lemma_skip_ws_bounds(s, i);
        let j = spec_skip_ws(s, i);
        if j < s.len() {
            lemma_string_rest_bounds(s, j + 1, Seq::empty());
            lemma_number_end_bounds(s, j);
            lemma_composite_bounds(s, j + 1, stack, 1);
            lemma_composite_bounds(s, j + 1, stack, 3);
            lemma_composite_bounds(s, j + 1, stack.drop_last(), 5);
            lemma_composite_bounds(s, j + 1, stack.push(0x5b), 0);
            lemma_composite_bounds(s, j + 1, stack.push(0x7b), 2);
            match spec_string_rest(s, j + 1, Seq::empty()) {
                Some(r) => {
                    lemma_composite_bounds(s, r.0, stack, 4);
                    lemma_composite_bounds(s, r.0, stack, 5);
                },
                None => (),
            }
            match spec_number_end(s, j) {
                Some(e) => lemma_composite_bounds(s, e, stack, 5),
                None => (),
            }
            if j + 4 <= s.len() {
                lemma_composite_bounds(s, j + 4, stack, 5);
            }
            if j + 5 <= s.len() {
                lemma_composite_bounds(s, j + 5, stack, 5);
            }
        }
    }
}

/// Walks and checks a composite value; `i` stands just past its opening
/// bracket, which is given as `open_bracket`.
fn skip_composite(s: &Vec<u8>, i: usize, open_bracket: u8) -> (r: Option<usize>)
    requires
        i <= s@.len(),
        open_bracket == 0x5b || open_bracket == 0x7b,
    ensures
        ({
            let init: u8 = if open_bracket == 0x5b {
                0
            } else {
                2
            };
            match r {
                Some(e) => {
                    &&& spec_composite(s@, i as int, seq![open_bracket], init) == Some(e as int)
                    &&& i < e <= s@.len()
                },
                None => spec_composite(s@, i as int, seq![open_bracket], init) is None,
            }
        }),
{
    let ghost init: u8 = if open_bracket == 0x5b {
        0
    } else {
        2
    };
    let mut pos = i;
    let mut expect: u8 = if open_bracket == 0x5b {
        0
    } else {
        2
    };
    let mut stack: Vec<u8> = Vec::new();
    stack.push(open_bracket);
    proof {
        assert(stack@ =~= seq![open_bracket]);
    }
    loop
        invariant
            open_bracket == 0x5b || open_bracket == 0x7b,
            init == (if open_bracket == 0x5b { 0u8 } else { 2u8 }),
            i <= pos <= s@.len(),
            stack@.len() >= 1,
            spec_composite(s@, i as int, seq![open_bracket], init) == spec_composite(
                s@,
                pos as int,
                stack@,
                expect,
            ),
        decreases s@.len() - pos,
    {
        proof {
            lemma_composite_unfold(s@, pos as int, stack@, expect);
        }
        let j = skip_ws(s, pos);
        if j >= s.len() {
            return None;
        }
        let b = s[j];
        if expect == 4 {
            if b == 0x3a {
                pos = j + 1;
                expect = 1;
            } else {
                return None;
            }
        } else if expect == 5 {
            if b == 0x2c {
                let top = stack[stack.len() - 1];
                expect = if top == 0x5b {
                    1
                } else {
                    3
                };
                pos = j + 1;
            } else if b == 0x5d || b == 0x7d {
                let want: u8 = if b == 0x5d {
                    0x5b
                } else {
                    0x7b
                };
                let top = stack[stack.len() - 1];
                if top != want {
                    return None;
                }
                if stack.len() == 1 {
                    return Some(j + 1);
                }
                let ghost old_stack = stack@;
                stack.pop();
                proof {
                    assert(stack@ =~= old_stack.drop_last());
                }
                pos = j + 1;
            } else {
                return None;
            }
        } else if expect == 2 || expect == 3 {
            if b == 0x7d && expect == 2 {
                let top = stack[stack.len() - 1];
                if top != 0x7b {
                    return None;
                }
                if stack.len() == 1 {
                    return Some(j + 1);
                }
                let ghost old_stack = stack@;
                stack.pop();
                proof {
                    assert(stack@ =~= old_stack.drop_last());
                }
                pos = j + 1;
                expect = 5;
            } else if b == 0x22 {
                match parse_string_rest(s, j + 1) {
                    Some(p) => {
                        pos = p.0;
                        expect = 4;
                    },
                    None => {
                        return None;
                    },
                }
            } else {
                return None;
            }
        } else {
            if b == 0x5d && expect == 0 {
                let top = stack[stack.len() - 1];
                if top != 0x5b {
                    return None;
                }
                if stack.len() == 1 {
                    return Some(j + 1);
                }
                let ghost old_stack = stack@;
                stack.pop();
                proof {
                    assert(stack@ =~= old_stack.drop_last());
                }
                pos = j + 1;
                expect = 5;
            } else if b == 0x22 {
                match parse_string_rest(s, j + 1) {
                    Some(p) => {
                        pos = p.0;
                        expect = 5;
                    },
                    None => {
                        return None;
                    },
                }
            } else if b == 0x2d || (0x30 <= b && b <= 0x39) {
                match parse_number(s, j) {
                    Some(e) => {
                        pos = e;
                        expect = 5;
                    },
                    None => {
                        return None;
                    },
                }
            } else if b == 0x74 {
                if s.len() - j >= 4 && s[j + 1] == 0x72 && s[j + 2] == 0x75 && s[j + 3] == 0x65 {
                    pos = j + 4;
                    expect = 5;
                } else {
                    return None;
                }
            } else if b == 0x66 {
                if s.len() - j >= 5 && s[j + 1] == 0x61 && s[j + 2] == 0x6c && s[j + 3] == 0x73
                    && s[j + 4] == 0x65 {
                    pos = j + 5;
                    expect = 5;
                } else {
                    return None;
                }
            } else if b == 0x6e {
                if s.len() - j >= 4 && s[j + 1] == 0x75 && s[j + 2] == 0x6c && s[j + 3] == 0x6c {
                    pos = j + 4;
                    expect = 5;
                } else {
                    return None;
                }
            } else if b == 0x5b {
                stack.push(b);
                pos = j + 1;
                expect = 0;
            } else if b == 0x7b {
                stack.push(b);
                pos = j + 1;
                expect = 2;
            } else {
                return None;
            }
        }
    }
}

/// The bytes of the member name `url`.
pub open spec fn url_key() -> Seq<u8> {
    seq![0x75u8, 0x72u8, 0x6cu8]
}

/// Whether `key` is exactly the member name `url`.
fn is_url_key(key: &Vec<u8>) -> (r: bool)
    ensures
        r == (key@ == url_key()),
{
    let r = key.len() == 3 && key[0] == 0x75 && key[1] == 0x72 && key[2] == 0x6c;
    proof {
        if r {
            assert(key@ =~= url_key());
        } else if key@ == url_key() {
            assert(key@.len() == 3);
            assert(key@[0] == 0x75 && key@[1] == 0x72 && key@[2] == 0x6c);
        }
    }
    r
}

/// One member value that starts at `i`: a string, a number, one of the three
/// literal words, or a bracketed composite. Yields the position just past it
/// and, for a string, its content.
pub open spec fn spec_member_value(s: Seq<u8>, i: int) -> Option<(int, Option<Seq<u8>>)> {
    if !(0 <= i < s.len()) {
        None
    } else if s[i] == 0x22 {  // string
        match spec_string_rest(s, i + 1, Seq::empty()) {
            Some(r) => Some((r.0, Some(r.1))),
            None => None,
        }
    } else if s[i] == 0x2d || is_digit(s[i]) {  // number
        match spec_number_end(s, i) {
            Some(e) => Some((e, None)),
            None => None,
        }
    } else if s[i] == 0x74 {  // true
        if i + 4 <= s.len() && s[i + 1] == 0x72 && s[i + 2] == 0x75 && s[i + 3] == 0x65 {
            Some((i + 4, None))
        } else {
            None
        }
    } else if s[i] == 0x66 {  // false
        if i + 5 <= s.len() && s[i + 1] == 0x61 && s[i + 2] == 0x6c && s[i + 3] == 0x73 && s[i + 4]
            == 0x65 {
            Some((i + 5, None))
        } else {
            None
        }
    } else if s[i] == 0x6e {  // null
        if i + 4 <= s.len() && s[i + 1] == 0x75 && s[i + 2] == 0x6c && s[i + 3] == 0x6c {
            Some((i + 4, None))
        } else {
            None
        }
    } else if s[i] == 0x5b {  // array
        match spec_composite(s, i + 1, seq![0x5bu8], 0u8) {
            Some(e) => Some((e, None)),
            None => None,
        }
    } else if s[i] == 0x7b {  // object
        match spec_composite(s, i + 1, seq![0x7bu8], 2u8) {
            Some(e) => Some((e, None)),
            None => None,
        }
    } else {
        None
    }
}

pub proof fn lemma_member_value_bounds(s: Seq<u8>, i: int)
    ensures
        0 <= i <= s.len() ==> (spec_member_value(s, i) matches Some(r) ==> i < r.0 <= s.len()),
{
    if 0 <= i < s.len() {
        lemma_string_rest_bounds(s, i + 1, Seq::empty());
        lemma_number_end_bounds(s, i);
        lemma_composite_bounds(s, i + 1, seq![0x5bu8], 0u8);
        lemma_composite_bounds(s, i + 1, seq![0x7bu8], 2u8);
    }
}

/// Parses one member value that starts at `i`.
fn parse_member_value(s: &Vec<u8>, i: usize) -> (r: Option<(usize, Option<Vec<u8>>)>)
    requires
        i <= s@.len(),
    ensures
        match r {
            Some(p) => {
                &&& spec_member_value(s@, i as int) matches Some(q) && q.0 == p.0 as int && q.1
                    == (match p.1 {
                    Some(v) => Some(v@),
                    None => None,
                })
                &&& i < p.0 <= s@.len()
            },
            None => spec_member_value(s@, i as int) is None,
        },
{
    proof {
        lemma_member_value_bounds(s@, i as int);
    }
    if i >= s.len() {
        return None;
    }
    let b = s[i];
    if b == 0x22 {
        match parse_string_rest(s, i + 1) {
            Some(p) => Some((p.0, Some(p.1))),
            None => None,
        }
    } else if b == 0x2d || (0x30 <= b && b <= 0x39) {
        match parse_number(s, i) {
            Some(e) => Some((e, None)),
            None => None,
        }
    } else if b == 0x74 {
        if s.len() - i >= 4 && s[i + 1] == 0x72 && s[i + 2] == 0x75 && s[i + 3] == 0x65 {
            Some((i + 4, None))
        } else {
            None
        }
    } else if b == 0x66 {
        if s.len() - i >= 5 && s[i + 1] == 0x61 && s[i + 2] == 0x6c && s[i + 3] == 0x73 && s[i + 4]
            == 0x65 {
            Some((i + 5, None))
        } else {
            None
        }
    } else if b == 0x6e {
        if s.len() - i >= 4 && s[i + 1] == 0x75 && s[i + 2] == 0x6c && s[i + 3] == 0x6c {
            Some((i + 4, None))
        } else {
            None
        }
    } else if b == 0x5b || b == 0x7b {
        match skip_composite(s, i + 1, b) {
            Some(e) => Some((e, None)),
            None => None,
        }
    } else {
        None
    }
}

/// The view of an optional byte vector.
pub open spec fn view_opt(u: Option<Vec<u8>>) -> Option<Seq<u8>> {
    match u {
        Some(v) => Some(v@),
        None => None,
    }
}

/// Parses the members of a record from position `i`, just past `{` or a
/// comma. `url` holds the content of the `url` member if one was already
/// seen. Yields the position just past the closing `}` and the `url`
/// content. A second `url` member, or one that does not hold a string,
/// fails the parse.
#[verifier::opaque]
pub open spec fn spec_members(s: Seq<u8>, i: int, url: Option<Seq<u8>>) -> Option<
    (int, Option<Seq<u8>>),
>
    decreases s.len() - i,
    via spec_members_dec
{
    if !(0 <= i <= s.len()) {
        None
    } else {
        let j = spec_skip_ws(s, i);
        if !(j < s.len() && s[j] == 0x22) {  // a member starts with its name
            None
        } else {
            match spec_string_rest(s, j + 1, Seq::empty()) {
                None => None,
                Some(ks) => {
                    let c = spec_skip_ws(s, ks.0);
                    if !(c < s.len() && s[c] == 0x3a) {  // ':'
                        None
                    } else {
                        let v = spec_skip_ws(s, c + 1);
                        match spec_member_value(s, v) {
                            None => None,
                            Some(vr) => {
                                let is_url = ks.1 == url_key();
                                if is_url && !(url is None) {
                                    None  // a second url member
                                } else if is_url && vr.1 is None {
                                    None  // url member without a string
                                } else {
                                    let url2 = if is_url {
                                        vr.1
                                    } else {
                                        url
                                    };
                                    let t = spec_skip_ws(s, vr.0);
                                    if t < s.len() && s[t] == 0x2c {
                                        spec_members(s, t + 1, url2)
                                    } else if t < s.len() && s[t] == 0x7d {
                                        Some((t + 1, url2))
                                    } else {
                                        None
                                    }
                                }
                            },
                        }
                    }
                },
            }
        }
    }
}

#[via_fn]
proof fn spec_members_dec(s: Seq<u8>, i: int, url: Option<Seq<u8>>) {
    lemma_members_chain(s, i);
}

/// The positions a member parse walks through all lie strictly between the
/// member's start and the end of the input.
proof fn lemma_members_chain(s: Seq<u8>, i: int)
    ensures
        0 <= i <= s.len() ==> {
            let j = spec_skip_ws(s, i);
            j < s.len() && s[j] == 0x22 ==> (spec_string_rest(s, j + 1, Seq::empty()) matches Some(
                ks,
            ) ==> {
                let c = spec_skip_ws(s, ks.0);
                c < s.len() && s[c] == 0x3a ==> {
                    let v = spec_skip_ws(s, c + 1);
                    spec_member_value(s, v) matches Some(vr) ==> {
                        let t = spec_skip_ws(s, vr.0);
                        i < t <= s.len() && i < v
                    }
                }
            })
        },
{
    if 0 <= i <= s.len() {
        lemma_skip_ws_bounds(s, i);
        let j = spec_skip_ws(s, i);
        if j < s.len() && s[j] == 0x22 {
            lemma_string_rest_bounds(s, j + 1, Seq::empty());
            match spec_string_rest(s, j + 1, Seq::empty()) {
                Some(ks) => {
                    lemma_skip_ws_bounds(s, ks.0);
                    let c = spec_skip_ws(s, ks.0);
                    if c < s.len() && s[c] == 0x3a {
                        lemma_skip_ws_bounds(s, c + 1);
                        let v = spec_skip_ws(s, c + 1);
                        lemma_member_value_bounds(s, v);
                        match spec_member_value(s, v) {
                            Some(vr) => {
                                lemma_skip_ws_bounds(s, vr.0);
                            },
                            None => (),
                        }
                    }
                },
                None => (),
            }
        }
    }
}

proof fn lemma_members_bounds(s: Seq<u8>, i: int, url: Option<Seq<u8>>)
    ensures
        0 <= i <= s.len() ==> (spec_members(s, i, url) matches Some(r) ==> i < r.0 <= s.len()),
    decreases s.len() - i,
{
    reveal_with_fuel(spec_members, 1);
    lemma_members_chain(s, i);
    if 0 <= i <= s.len() {
        let j = spec_skip_ws(s, i);
        if j < s.len() && s[j] == 0x22 {
            match spec_string_rest(s, j + 1, Seq::empty()) {
                Some(ks) => {
                    let c = spec_skip_ws(s, ks.0);
                    if c < s.len() && s[c] == 0x3a {
                        let v = spec_skip_ws(s, c + 1);
                        match spec_member_value(s, v) {
                            Some(vr) => {
                                let is_url = ks.1 == url_key();
                                let url2 = if is_url {
                                    vr.1
                                } else {
                                    url
                                };
                                let t = spec_skip_ws(s, vr.0);
                                if t < s.len() && s[t] == 0x2c {
                                    lemma_members_bounds(s, t + 1, url2);
                                }
                            },
                            None => (),
                        }
                    }
                },
                None => (),
            }
        }
    }
}

/// One unfolding of `spec_members`, packaged so that callers need not
/// unfold the definition themselves.
proof fn lemma_members_unfold(s: Seq<u8>, i: int, url: Option<Seq<u8>>)
    requires
        0 <= i <= s.len(),
    ensures
        spec_members(s, i, url) == ({
            let j = spec_skip_ws(s, i);
            if !(j < s.len() && s[j] == 0x22) {
                None
            } else {
                match spec_string_rest(s, j + 1, Seq::empty()) {
                    None => None,
                    Some(ks) => {
                        let c = spec_skip_ws(s, ks.0);
                        if !(c < s.len() && s[c] == 0x3a) {
                            None
                        } else {
                            let v = spec_skip_ws(s, c + 1);
                            match spec_member_value(s, v) {
                                None => None,
                                Some(vr) => {
                                    let is_url = ks.1 == url_key();
                                    if is_url && !(url is None) {
                                        None
                                    } else if is_url && vr.1 is None {
                                        None
                                    } else {
                                        let url2 = if is_url {
                                            vr.1
                                        } else {
                                            url
                                        };
                                        let t = spec_skip_ws(s, vr.0);
                                        if t < s.len() && s[t] == 0x2c {
                                            spec_members(s, t + 1, url2)
                                        } else if t < s.len() && s[t] == 0x7d {
                                            Some((t + 1, url2))
                                        } else {
                                            None
                                        }
                                    }
                                },
                            }
                        }
                    },
                }
            }
        }),
{
    reveal_with_fuel(spec_members, 1);
}

/// Parses the members of one record, starting just past its `{`.
fn parse_members(s: &Vec<u8>, i: usize) -> (r: Option<(usize, Option<Vec<u8>>)>)
    requires
        i <= s@.len(),
    ensures
        match r {
            Some(p) => {
                &&& spec_members(s@, i as int, None) matches Some(q) && q.0 == p.0 as int && q.1
                    == view_opt(p.1)
                &&& i < p.0 <= s@.len()
            },
            None => spec_members(s@, i as int, None) is None,
        },
{
    let mut pos = i;
    let mut url: Option<Vec<u8>> = None;
    loop
        invariant
            i <= pos <= s@.len(),
            spec_members(s@, i as int, None) == spec_members(s@, pos as int, view_opt(url)),
        decreases s@.len() - pos,
    {
        proof {
            lemma_members_bounds(s@, i as int, None);
            lemma_members_unfold(s@, pos as int, view_opt(url));
        }
        let j = skip_ws(s, pos);
        if !(j < s.len() && s[j] == 0x22) {
            return None;
        }
        match parse_string_rest(s, j + 1) {
            None => {
                return None;
            },
            Some((ke, key)) => {
                let c = skip_ws(s, ke);
                if !(c < s.len() && s[c] == 0x3a) {
                    return None;
                }
                let v = skip_ws(s, c + 1);
                match parse_member_value(s, v) {
                    None => {
                        return None;
                    },
                    Some((ve, sval)) => {
                        let is_url = is_url_key(&key);
                        if is_url && url.is_some() {
                            return None;
                        }
                        if is_url && sval.is_none() {
                            return None;
                        }
                        if is_url {
                            url = sval;
                        }
                        let t = skip_ws(s, ve);
                        if t < s.len() && s[t] == 0x2c {
                            pos = t + 1;
                        } else if t < s.len() && s[t] == 0x7d {
                            return Some((t + 1, url));
                        } else {
                            return None;
                        }
                    },
                }
            },
        }
    }
}

/// Parses the records of the list from position `i`, just past `[` or a
/// comma, with `acc` holding the `url` contents collected so far. Yields
/// the position just past the closing `]` and all `url` contents in order.
#[verifier::opaque]
pub open spec fn spec_elements(s: Seq<u8>, i: int, acc: Seq<Seq<u8>>) -> Option<
    (int, Seq<Seq<u8>>),
>
    decreases s.len() - i,
    via spec_elements_dec
{
    if !(0 <= i <= s.len()) {
        None
    } else {
        let j = spec_skip_ws(s, i);
        if !(j < s.len() && s[j] == 0x7b) {  // each record is an object
            None
        } else {
            match spec_members(s, j + 1, None) {
                None => None,
                Some(mr) => {
                    match mr.1 {
                        None => None,  // a record without a url member
                        Some(u) => {
                            let t = spec_skip_ws(s, mr.0);
                            if t < s.len() && s[t] == 0x2c {
                                spec_elements(s, t + 1, acc.push(u))
                            } else if t < s.len() && s[t] == 0x5d {
                                Some((t + 1, acc.push(u)))
                            } else {
                                None
                            }
                        },
                    }
                },
            }
        }
    }
}

#[via_fn]
proof fn spec_elements_dec(s: Seq<u8>, i: int, acc: Seq<Seq<u8>>) {
    if 0 <= i <= s.len() {
        lemma_skip_ws_bounds(s, i);
        let j = spec_skip_ws(s, i);
        if j < s.len() && s[j] == 0x7b {
            lemma_members_bounds(s, j + 1, None);
            match spec_members(s, j + 1, None) {
                Some(mr) => {
                    lemma_skip_ws_bounds(s, mr.0);
                },
                None => (),
            }
        }
    }
}

/// The whole search reply body: optional whitespace, a list of records,
/// optional whitespace, end of input. Yields the `url` contents of all
/// records, in the order they stand in the body.
pub open spec fn spec_parse_search(s: Seq<u8>) -> Option<Seq<Seq<u8>>> {
    let j = spec_skip_ws(s, 0);
    if !(j < s.len() && s[j] == 0x5b) {
        None
    } else {
        let k = spec_skip_ws(s, j + 1);
        if k < s.len() && s[k] == 0x5d {
            if spec_skip_ws(s, k + 1) == s.len() {
                Some(Seq::empty())
            } else {
                None
            }
        } else {
            match spec_elements(s, j + 1, Seq::empty()) {
                Some(er) => {
                    if spec_skip_ws(s, er.0) == s.len() {
                        Some(er.1)
                    } else {
                        None
                    }
                },
                None => None,
            }
        }
    }
}

/// One unfolding of `spec_elements`, packaged so that callers need not
/// unfold the definition themselves.
proof fn lemma_elements_unfold(s: Seq<u8>, i: int, acc: Seq<Seq<u8>>)
    requires
        0 <= i <= s.len(),
    ensures
        spec_elements(s, i, acc) == ({
            let j = spec_skip_ws(s, i);
            if !(j < s.len() && s[j] == 0x7b) {
                None
            } else {
                match spec_members(s, j + 1, None) {
                    None => None,
                    Some(mr) => {
                        match mr.1 {
                            None => None,
                            Some(u) => {
                                let t = spec_skip_ws(s, mr.0);
                                if t < s.len() && s[t] == 0x2c {
                                    spec_elements(s, t + 1, acc.push(u))
                                } else if t < s.len() && s[t] == 0x5d {
                                    Some((t + 1, acc.push(u)))
                                } else {
                                    None
                                }
                            },
                        }
                    },
                }
            }
        }),
{
    reveal_with_fuel(spec_elements, 1);
}

/// Parses the search reply body; on success the result holds the `url`
/// member of every record, in order.
#[verifier::rlimit(100)]
pub fn parse_search(s: &Vec<u8>) -> (r: Option<Vec<Vec<u8>>>)
    ensures
        match r {
            Some(urls) => spec_parse_search(s@) == Some(urls.deep_view()),
            None => spec_parse_search(s@) is None,
        },
{
    let j = skip_ws(s, 0);
    if !(j < s.len() && s[j] == 0x5b) {
        return None;
    }
    let k = skip_ws(s, j + 1);
    if k < s.len() && s[k] == 0x5d {
        let t = skip_ws(s, k + 1);
        if t == s.len() {
            let empty: Vec<Vec<u8>> = Vec::new();
            proof {
                assert(empty.deep_view() =~~= Seq::<Seq<u8>>::empty());
            }
            return Some(empty);
        } else {
            return None;
        }
    }
    let ghost gk = spec_skip_ws(s@, j + 1 as int);
    let mut pos: usize = j + 1;
    let mut acc: Vec<Vec<u8>> = Vec::new();
    proof {
        assert(acc.deep_view() =~~= Seq::<Seq<u8>>::empty());
    }
    loop
        invariant
            pos <= s@.len(),
            j < s@.len() && s@[j as int] == 0x5b,
            spec_skip_ws(s@, 0) == j as int,
            gk == spec_skip_ws(s@, j + 1 as int),
            0 <= gk <= s@.len(),
            !(0 <= gk < s@.len() && s@[gk] == 0x5d),
            spec_elements(s@, j + 1 as int, Seq::empty()) == spec_elements(
                s@,
                pos as int,
                acc.deep_view(),
            ),
        decreases s@.len() - pos,
    {
        proof {
            lemma_elements_unfold(s@, pos as int, acc.deep_view());
        }
        let jw = skip_ws(s, pos);
        if !(jw < s.len() && s[jw] == 0x7b) {
            return None;
        }
        match parse_members(s, jw + 1) {
            None => {
                return None;
            },
            Some((me, urlopt)) => {
                match urlopt {
                    None => {
                        return None;
                    },
                    Some(u) => {
                        let t = skip_ws(s, me);
                        if t < s.len() && s[t] == 0x2c {
                            let ghost acc_old = acc.deep_view();
                            let ghost gu = u@;
                            proof {
                                assert(spec_elements(s@, pos as int, acc_old) == spec_elements(
                                    s@,
                                    t + 1 as int,
                                    acc_old.push(gu),
                                ));
                            }
                            acc.push(u);
                            proof {
                                assert(acc.deep_view() =~~= acc_old.push(gu));
                            }
                            pos = t + 1;
                        } else if t < s.len() && s[t] == 0x5d {
                            let ghost acc_old = acc.deep_view();
                            let ghost gu = u@;
                            proof {
                                assert(spec_elements(s@, pos as int, acc_old) == Some(
                                    ((t + 1) as int, acc_old.push(gu)),
                                ));
                            }
                            acc.push(u);
                            proof {
                                assert(acc.deep_view() =~~= acc_old.push(gu));
                            }
                            let t2 = skip_ws(s, t + 1);
                            if t2 == s.len() {
                                return Some(acc);
                            } else {
                                return None;
                            }
                        } else {
                            return None;
                        }
                    },
                }
            },
        }
    }
}

} // verus!
