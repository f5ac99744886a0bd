//! The lexical layer of JSON: white space, numerals and quoted texts.
use vstd::prelude::*;
use crate::bytes::is_digit;

verus! {

/// Whether `b` is JSON white space.
pub open spec fn is_space(b: u8) -> bool {
    b == 0x20 || b == 0x09 || b == 0x0A || b == 0x0D
}

/// The first position from `pos` on that holds no white space.
pub open spec fn skip_spaces(s: Seq<u8>, pos: int) -> int
    decreases s.len() - pos,
{
    if 0 <= pos < s.len() && is_space(s[pos]) {
        skip_spaces(s, pos + 1)
    } else {
        pos
    }
}

/// Steps over white space.
pub fn pass_spaces(s: &Vec<u8>, pos: usize) -> (r: usize)
    requires
        pos <= s.len(),
    ensures
        r == skip_spaces(s@, pos as int),
        pos <= r <= s.len(),
{
    let mut p = pos;
    while p < s.len() && (s[p] == 0x20 || s[p] == 0x09 || s[p] == 0x0A || s[p] == 0x0D)
        invariant
            pos <= p <= s.len(),
            skip_spaces(s@, pos as int) == skip_spaces(s@, p as int),
        decreases s.len() - p,
    {
        p += 1;
    }
    p
}

/// Whether `b` can occur in a numeral.
pub open spec fn is_number_byte(b: u8) -> bool {
    is_digit(b) || b == 0x2D || b == 0x2B || b == 0x2E || b == 0x65 || b == 0x45
}

/// The end of the longest run of numeral bytes that starts at `pos`.
pub open spec fn number_end(s: Seq<u8>, pos: int) -> int
    decreases s.len() - pos,
{
    if 0 <= pos < s.len() && is_number_byte(s[pos]) {
        number_end(s, pos + 1)
    } else {
        pos
    }
}

/// Finds the end of the run of numeral bytes that starts at `pos`.
pub fn pass_number(s: &Vec<u8>, pos: usize) -> (r: usize)
    requires
        pos <= s.len(),
    ensures
        r == number_end(s@, pos as int),
        pos <= r <= s.len(),
{
    let mut p = pos;
    while p < s.len() && ((48 <= s[p] && s[p] <= 57) || s[p] == 0x2D || s[p] == 0x2B || s[p] == 0x2E
        || s[p] == 0x65 || s[p] == 0x45)
        invariant
            pos <= p <= s.len(),
            number_end(s@, pos as int) == number_end(s@, p as int),
        decreases s.len() - p,
    {
        p += 1;
    }
    p
}

/// The end of the longest run of digits that starts at `i`.
pub open spec fn digits_end(l: Seq<u8>, i: int) -> int
    decreases l.len() - i,
{
    if 0 <= i < l.len() && is_digit(l[i]) {
        digits_end(l, i + 1)
    } else {
        i
    }
}

/// Where the integer part of `l` ends, if it has one that starts at `i`:
/// a single zero, or digits that do not start with zero.
pub open spec fn integer_end(l: Seq<u8>, i: int) -> Option<int> {
    if !(0 <= i < l.len() && is_digit(l[i])) {
        None
    } else if l[i] == 48 {
        Some(i + 1)
    } else {
        Some(digits_end(l, i))
    }
}

/// Where the fraction of `l` ends, if there is room for one at `i`: nothing,
/// or a point and at least one digit.
pub open spec fn fraction_end(l: Seq<u8>, i: int) -> Option<int> {
    if !(0 <= i < l.len() && l[i] == 0x2E) {
        Some(i)
    } else if i + 1 < l.len() && is_digit(l[i + 1]) {
        Some(digits_end(l, i + 1))
    } else {
        None
    }
}

/// Where the exponent of `l` ends, if there is room for one at `i`: nothing,
/// or `e` or `E`, an optional sign and at least one digit.
pub open spec fn exponent_end(l: Seq<u8>, i: int) -> Option<int> {
    if !(0 <= i < l.len() && (l[i] == 0x65 || l[i] == 0x45)) {
        Some(i)
    } else {
        let j = if i + 1 < l.len() && (l[i + 1] == 0x2B || l[i + 1] == 0x2D) {
            i + 2
        } else {
            i + 1
        };
        if j < l.len() && is_digit(l[j]) {
            Some(digits_end(l, j))
        } else {
            None
        }
    }
}

/// Whether `l` is a JSON numeral: an optional minus, an integer part, an
/// optional fraction and an optional exponent, and nothing else.
pub open spec fn is_number(l: Seq<u8>) -> bool {
    let i0: int = if l.len() > 0 && l[0] == 0x2D {
        1
    } else {
        0
    };
    match integer_end(l, i0) {
        None => false,
        Some(i1) => match fraction_end(l, i1) {
            None => false,
            Some(i2) => match exponent_end(l, i2) {
                None => false,
                Some(i3) => i3 == l.len(),
            },
        },
    }
}

/// A run of digits lies inside the string and holds digits only.
pub proof fn lemma_digits_end(l: Seq<u8>, i: int)
    requires
        0 <= i <= l.len(),
    ensures
        i <= digits_end(l, i) <= l.len(),
        forall|k: int| i <= k < digits_end(l, i) ==> is_digit(#[trigger] l[k]),
    decreases l.len() - i,
{
    if i < l.len() && is_digit(l[i]) {
        lemma_digits_end(l, i + 1);
    }
}

/// A numeral is not empty, starts with a minus or a digit, and holds
/// numeral bytes only.
pub proof fn lemma_number_bytes(l: Seq<u8>)
    requires
        is_number(l),
    ensures
        l.len() > 0,
        l[0] == 0x2D || is_digit(l[0]),
        forall|k: int| 0 <= k < l.len() ==> is_number_byte(#[trigger] l[k]),
{
    let i0: int = if l.len() > 0 && l[0] == 0x2D {
        1
    } else {
        0
    };
    let i1 = integer_end(l, i0).unwrap();
    lemma_digits_end(l, i0);
    let i2 = fraction_end(l, i1).unwrap();
    if i1 < l.len() && l[i1] == 0x2E {
        lemma_digits_end(l, i1 + 1);
    }
    let i3 = exponent_end(l, i2).unwrap();
    if i2 < l.len() && (l[i2] == 0x65 || l[i2] == 0x45) {
        let j = if i2 + 1 < l.len() && (l[i2 + 1] == 0x2B || l[i2 + 1] == 0x2D) {
            i2 + 2
        } else {
            i2 + 1
        };
        lemma_digits_end(l, j);
    }
}

/// Steps over digits.
fn pass_digits(l: &Vec<u8>, i: usize) -> (r: usize)
    requires
        i <= l.len(),
    ensures
        r == digits_end(l@, i as int),
        i <= r <= l.len(),
{
    let mut p = i;
    while p < l.len() && 48 <= l[p] && l[p] <= 57
        invariant
            i <= p <= l.len(),
            digits_end(l@, i as int) == digits_end(l@, p as int),
        decreases l.len() - p,
    {
        p += 1;
    }
    p
}

/// Decides whether `l` is a JSON numeral.
pub fn check_number(l: &Vec<u8>) -> (r: bool)
    ensures
        r == is_number(l@),
{
    let n = l.len();
    let i0: usize = if n > 0 && l[0] == 0x2D {
        1
    } else {
        0
    };
    if !(i0 < n && 48 <= l[i0] && l[i0] <= 57) {
        return false;
    }
    let i1: usize = if l[i0] == 48 {
        i0 + 1
    } else {
        pass_digits(l, i0)
    };
    let i2: usize = if i1 < n && l[i1] == 0x2E {
        if i1 + 1 < n && 48 <= l[i1 + 1] && l[i1 + 1] <= 57 {
            pass_digits(l, i1 + 1)
        } else {
            return false;
        }
    } else {
        i1
    };
    let i3: usize = if i2 < n && (l[i2] == 0x65 || l[i2] == 0x45) {
        let j: usize = if i2 + 1 < n && (l[i2 + 1] == 0x2B || l[i2 + 1] == 0x2D) {
            i2 + 2
        } else {
            i2 + 1
        };
        if j < n && 48 <= l[j] && l[j] <= 57 {
            pass_digits(l, j)
        } else {
            return false;
        }
    } else {
        i2
    };
    i3 == n
}

/// The value of a hexadecimal digit.
pub open spec fn hex_value(b: u8) -> Option<nat> {
    if 48 <= b <= 57 {
        Some((b - 48) as nat)
    } else if 97 <= b <= 102 {
        Some((b - 87) as nat)
    } else if 65 <= b <= 70 {
        Some((b - 55) as nat)
    } else {
        None
    }
}

/// The number that the four hexadecimal digits at `pos` denote.
pub open spec fn hex4(s: Seq<u8>, pos: int) -> Option<nat> {
    if pos < 0 || pos + 4 > s.len() {
        None
    } else {
        match (hex_value(s[pos]), hex_value(s[pos + 1]), hex_value(s[pos + 2]), hex_value(s[pos + 3])) {
            (Some(a), Some(b), Some(c), Some(d)) => Some(((a * 16 + b) * 16 + c) * 16 + d),
            _ => None,
        }
    }
}

/// The UTF-8 encoding of the code point `cp`.
pub open spec fn utf8(cp: nat) -> Seq<u8> {
    if cp < 0x80 {
        seq![cp as u8]
    } else if cp < 0x800 {
        seq![(0xC0 + cp / 64) as u8, (0x80 + cp % 64) as u8]
    } else if cp < 0x10000 {
        seq![(0xE0 + cp / 4096) as u8, (0x80 + cp / 64 % 64) as u8, (0x80 + cp % 64) as u8]
    } else {
        seq![
            (0xF0 + cp / 262144) as u8,
            (0x80 + cp / 4096 % 64) as u8,
            (0x80 + cp / 64 % 64) as u8,
            (0x80 + cp % 64) as u8,
        ]
    }
}

/// The byte that a two-byte escape with the letter `b` stands for.
pub open spec fn short_escape(b: u8) -> Option<u8> {
    if b == 0x22 || b == 0x5C || b == 0x2F {
        Some(b)
    } else if b == 0x62 {
        Some(0x08u8)
    } else if b == 0x66 {
        Some(0x0Cu8)
    } else if b == 0x6E {
        Some(0x0Au8)
    } else if b == 0x72 {
        Some(0x0Du8)
    } else if b == 0x74 {
        Some(0x09u8)
    } else {
        None
    }
}

/// What the `\u` escape whose backslash stands at `pos` denotes, as UTF-8,
/// and where it ends. A code unit in the high surrogate range must be
/// followed by an escape in the low surrogate range; the two denote one
/// code point. A low surrogate alone denotes nothing.
pub open spec fn unicode_escape(s: Seq<u8>, pos: int) -> Option<(Seq<u8>, int)> {
    match hex4(s, pos + 2) {
        None => None,
        Some(hi) => if 0xD800 <= hi < 0xDC00 {
            if pos + 7 < s.len() && s[pos + 6] == 0x5C && s[pos + 7] == 0x75 {
                match hex4(s, pos + 8) {
                    Some(lo) => if 0xDC00 <= lo < 0xE000 {
                        Some(
                            (
                                utf8((0x10000 + (hi - 0xD800) * 0x400 + (lo - 0xDC00)) as nat),
                                pos + 12,
                            ),
                        )
                    } else {
                        None
                    },
                    None => None,
                }
            } else {
                None
            }
        } else if 0xDC00 <= hi < 0xE000 {
            None
        } else {
            Some((utf8(hi), pos + 6))
        },
    }
}

/// Reads the inside of a quoted text from `pos` on, after `acc`: the bytes
/// it denotes up to the closing quote, and the position after that quote.
/// Control bytes and malformed escapes denote nothing.
pub open spec fn unescape(s: Seq<u8>, pos: int, acc: Seq<u8>) -> Option<(Seq<u8>, int)>
    decreases s.len() - pos,
{
    if pos < 0 || pos >= s.len() {
        None
    } else if s[pos] == 0x22 {
        Some((acc, pos + 1))
    } else if s[pos] < 0x20 {
        None
    } else if s[pos] != 0x5C {
        unescape(s, pos + 1, acc.push(s[pos]))
    } else if pos + 1 >= s.len() {
        None
    } else if s[pos + 1] == 0x75 {
        match unicode_escape(s, pos) {
            Some((bytes, next)) => if next > pos {
                unescape(s, next, acc + bytes)
            } else {
                None
            },
            None => None,
        }
    } else {
        match short_escape(s[pos + 1]) {
            Some(b) => unescape(s, pos + 2, acc.push(b)),
            None => None,
        }
    }
}

/// The value of the hexadecimal digit `b`.
fn read_hex(b: u8) -> (r: Option<u32>)
    ensures
        match r {
            Some(v) => hex_value(b) == Some(v as nat) && v < 16,
            None => hex_value(b) is None,
        },
{
    if 48 <= b && b <= 57 {
        Some((b - 48) as u32)
    } else if 97 <= b && b <= 102 {
        Some((b - 87) as u32)
    } else if 65 <= b && b <= 70 {
        Some((b - 55) as u32)
    } else {
        None
    }
}

/// Reads four hexadecimal digits at `pos`.
fn read_hex4(s: &Vec<u8>, pos: usize) -> (r: Option<u32>)
    ensures
        match r {
            Some(v) => hex4(s@, pos as int) == Some(v as nat) && v < 0x10000,
            None => hex4(s@, pos as int) is None,
        },
{
    if s.len() < 4 || pos > s.len() - 4 {
        return None;
    }
    let a = match read_hex(s[pos]) {
        Some(v) => v,
        None => {
            return None;
        },
    };
    let b = match read_hex(s[pos + 1]) {
        Some(v) => v,
        None => {
            return None;
        },
    };
    let c = match read_hex(s[pos + 2]) {
        Some(v) => v,
        None => {
            return None;
        },
    };
    let d = match read_hex(s[pos + 3]) {
        Some(v) => v,
        None => {
            return None;
        },
    };
    Some(((a * 16 + b) * 16 + c) * 16 + d)
}

/// Appends the UTF-8 encoding of `cp`.
fn push_utf8(out: &mut Vec<u8>, cp: u32)
    requires
        cp < 0x110000,
    ensures
        final(out)@ == old(out)@ + utf8(cp as nat),
{
    if cp < 0x80 {
        out.push(cp as u8);
    } else if cp < 0x800 {
        out.push((0xC0 + cp / 64) as u8);
        out.push((0x80 + cp % 64) as u8);
    } else if cp < 0x10000 {
        out.push((0xE0 + cp / 4096) as u8);
        out.push((0x80 + cp / 64 % 64) as u8);
        out.push((0x80 + cp % 64) as u8);
    } else {
        out.push((0xF0 + cp / 262144) as u8);
        out.push((0x80 + cp / 4096 % 64) as u8);
        out.push((0x80 + cp / 64 % 64) as u8);
        out.push((0x80 + cp % 64) as u8);
    }
    assert(out@ == old(out)@ + utf8(cp as nat));
}

/// Reads the `\u` escape whose backslash stands at `pos` and appends what it
/// denotes; gives the position after it.
fn read_unicode_escape(s: &Vec<u8>, pos: usize, out: &mut Vec<u8>) -> (r: Option<usize>)
    requires
        pos + 1 < s.len(),
    ensures
        match r {
            Some(next) => unicode_escape(s@, pos as int) == Some((appended(old(out)@, final(out)@), next as int))
                && final(out)@ == old(out)@ + appended(old(out)@, final(out)@) && pos < next <= s.len(),
            None => unicode_escape(s@, pos as int) is None,
        },
{
    let hi = match read_hex4(s, pos + 2) {
        Some(v) => v,
        None => {
            return None;
        },
    };
    if 0xD800 <= hi && hi < 0xDC00 {
        if s.len() >= 12 && pos <= s.len() - 12 && s[pos + 6] == 0x5C && s[pos + 7] == 0x75 {
            let lo = match read_hex4(s, pos + 8) {
                Some(v) => v,
                None => {
                    return None;
                },
            };
            if 0xDC00 <= lo && lo < 0xE000 {
                let cp: u32 = 0x10000 + (hi - 0xD800) * 0x400 + (lo - 0xDC00);
                push_utf8(out, cp);
                proof {
                    lemma_suffix(old(out)@, utf8(cp as nat));
                }
                Some(pos + 12)
            } else {
                None
            }
        } else {
            None
        }
    } else if 0xDC00 <= hi && hi < 0xE000 {
        None
    } else {
        push_utf8(out, hi);
        proof {
            lemma_suffix(old(out)@, utf8(hi as nat));
        }
        Some(pos + 6)
    }
}

/// What was appended to `before` to give `after`.
pub open spec fn appended(before: Seq<u8>, after: Seq<u8>) -> Seq<u8> {
    after.subrange(before.len() as int, after.len() as int)
}

proof fn lemma_suffix(a: Seq<u8>, b: Seq<u8>)
    ensures
        appended(a, a + b) == b,
{
    assert((a + b).subrange(a.len() as int, (a + b).len() as int) == b);
}

/// Reads the inside of a quoted text that starts at `pos`: the bytes it
/// denotes and the position after its closing quote.
pub fn read_text(s: &Vec<u8>, pos: usize) -> (r: Option<(Vec<u8>, usize)>)
    requires
        pos <= s.len(),
    ensures
        match r {
            Some((t, next)) => unescape(s@, pos as int, Seq::empty()) == Some((t@, next as int)) && pos
                < next <= s.len(),
            None => unescape(s@, pos as int, Seq::empty()) is None,
        },
{
    let mut acc: Vec<u8> = Vec::new();
    let mut p = pos;
    loop
        invariant
            pos <= p <= s.len(),
            unescape(s@, pos as int, Seq::empty()) == unescape(s@, p as int, acc@),
        decreases s.len() - p,
    {
        if p >= s.len() {
            return None;
        }
        let b = s[p];
        if b == 0x22 {
            return Some((acc, p + 1));
        }
        if b < 0x20 {
            return None;
        }
        if b != 0x5C {
            acc.push(b);
            p += 1;
        } else {
            if p + 1 >= s.len() {
                return None;
            }
            let e = s[p + 1];
            if e == 0x75 {
                match read_unicode_escape(s, p, &mut acc) {
                    Some(next) => {
                        p = next;
                    },
                    None => {
                        return None;
                    },
                }
            } else {
                let d: u8 = if e == 0x22 || e == 0x5C || e == 0x2F {
                    e
                } else if e == 0x62 {
                    0x08
                } else if e == 0x66 {
                    0x0C
                } else if e == 0x6E {
                    0x0A
                } else if e == 0x72 {
                    0x0D
                } else if e == 0x74 {
                    0x09
                } else {
                    return None;
                };
                acc.push(d);
                p += 2;
            }
        }
    }
}

} // verus!
