//! Text helpers: lossy UTF-8 decoding for register-reported names,
//! trailing-padding trim, substring search, and decimal and
//! hexadecimal rendering.
//!
//! Byte sequences become `String`s through one trusted conversion,
//! `string_from_utf8`, always on bytes proved to be valid UTF-8.

use vstd::prelude::*;
use vstd::utf8::{
    codepoint_width_2, codepoint_width_3, codepoint_width_4, encode_scalar, encode_utf8,
    encode_utf8_decode_utf8, encode_utf8_valid_utf8, is_continuation_byte,
    last_continuation_byte, leading_byte_width_1, leading_byte_width_2, leading_byte_width_3,
    leading_byte_width_4, second_last_continuation_byte, third_last_continuation_byte, valid_utf8,
};

verus! {

/// Padding found after register-reported names: whitespace and NULs.
pub open spec fn is_pad_char(c: char) -> bool {
    c == ' ' || c == '\t' || c == '\n' || c == '\r' || c == '\u{0}'
}

/// Exec test for [`is_pad_char`] at one position of a string.
fn is_pad_at(s: &str, i: usize) -> (r: bool)
    requires
        i < s@.len(),
    ensures
        r == is_pad_char(s@[i as int]),
{
    let c = s.get_char(i);
    c == ' ' || c == '\t' || c == '\n' || c == '\r' || c == '\u{0}'
}

/// ASCII bytes read as the characters with the same code points.
pub open spec fn ascii_chars(s: Seq<u8>) -> Seq<char> {
    s.map_values(|b: u8| b as char)
}

/// A byte kept if ASCII, replaced by `'?'` otherwise.
pub open spec fn ascii_or_query(b: u8) -> u8 {
    if b < 0x80 {
        b
    } else {
        0x3F
    }
}

/// The sequence with trailing padding dropped.
pub open spec fn trim_back_chars(s: Seq<char>) -> Seq<char>
    decreases s.len(),
{
    if s.len() > 0 && is_pad_char(s.last()) {
        trim_back_chars(s.drop_last())
    } else {
        s
    }
}

/// Drops trailing padding from `s`.
pub fn trim_trailing(s: &str) -> (r: String)
    ensures
        r@ == trim_back_chars(s@),
{
    let n = s.unicode_len();
    proof {
        assert(s@.take(n as int) =~= s@);
    }
    let mut end: usize = n;
    while end > 0 && is_pad_at(s, end - 1)
        invariant
            n == s@.len(),
            end <= n,
            trim_back_chars(s@) == trim_back_chars(s@.take(end as int)),
        decreases end,
    {
        proof {
            let t = s@.take(end as int);
            assert(t.last() == s@[end - 1]);
            assert(t.drop_last() =~= s@.take(end as int - 1));
        }
        end -= 1;
    }
    proof {
        let t = s@.take(end as int);
        if end > 0 {
            assert(t.last() == s@[end - 1]);
        }
        assert(trim_back_chars(t) == t);
    }
    let r = s.substring_char(0, end);
    proof {
        assert(r@ =~= s@.take(end as int));
    }
    r.to_owned()
}

/// Whether `n` occurs in `h` starting at index `i`.
pub open spec fn match_at_chars(h: Seq<char>, n: Seq<char>, i: int) -> bool {
    forall|j: int| 0 <= j < n.len() ==> h[i + j] == n[j]
}

/// Whether `n` occurs somewhere in `h`.
pub open spec fn contains_chars(h: Seq<char>, n: Seq<char>) -> bool {
    exists|i: int| 0 <= i && i + n.len() <= h.len() && match_at_chars(h, n, i)
}

/// Compares `needle` against `hay` at position `i`.
fn match_chars_at(hay: &str, needle: &str, i: usize, hl: usize, nl: usize) -> (r: bool)
    requires
        hl == hay@.len(),
        nl == needle@.len(),
        i + nl <= hl,
    ensures
        r == match_at_chars(hay@, needle@, i as int),
{
    let mut j: usize = 0;
    while j < nl
        invariant
            hl == hay@.len(),
            nl == needle@.len(),
            i + nl <= hl,
            j <= nl,
            forall|t: int| 0 <= t < j ==> hay@[i + t] == needle@[t],
        decreases nl - j,
    {
        if hay.get_char(i + j) != needle.get_char(j) {
            assert(!match_at_chars(hay@, needle@, i as int));
            return false;
        }
        j += 1;
    }
    true
}

/// Whether `needle` occurs anywhere in `hay`.
pub fn str_contains(hay: &str, needle: &str) -> (r: bool)
    ensures
        r == contains_chars(hay@, needle@),
{
    let hl = hay.unicode_len();
    let nl = needle.unicode_len();
    if nl > hl {
        return false;
    }
    let mut i: usize = 0;
    while i <= hl - nl
        invariant
            hl == hay@.len(),
            nl == needle@.len(),
            nl <= hl,
            i <= hl - nl + 1,
            forall|k: int| 0 <= k < i ==> !match_at_chars(hay@, needle@, k),
        decreases hl - nl - i + 1,
    {
        if match_chars_at(hay, needle, i, hl, nl) {
            assert(contains_chars(hay@, needle@));
            return true;
        }
        i += 1;
    }
    false
}

/// First-continuation range of a three-byte encoding, tightened for
/// 0xE0 (overlong encodings) and 0xED (the surrogate range).
pub open spec fn third_byte_ok(b0: u8, b1: u8) -> bool {
    if b0 == 0xE0 {
        0xA0 <= b1 <= 0xBF
    } else if b0 == 0xED {
        0x80 <= b1 <= 0x9F
    } else {
        is_continuation_byte(b1)
    }
}

/// First-continuation range of a four-byte encoding, tightened for
/// 0xF0 (overlong encodings) and 0xF4 (the top of the scalar range).
pub open spec fn fourth_byte_ok(b0: u8, b1: u8) -> bool {
    if b0 == 0xF0 {
        0x90 <= b1 <= 0xBF
    } else if b0 == 0xF4 {
        0x80 <= b1 <= 0x8F
    } else {
        is_continuation_byte(b1)
    }
}

/// Length of the maximal subpart of an ill-formed sequence at the
/// head of `s`: how many bytes one replacement character stands for.
pub open spec fn invalid_prefix_len(s: Seq<u8>) -> int
    recommends
        s.len() > 0,
{
    let b0 = s[0];
    if 0xE0 <= b0 <= 0xEF {
        if s.len() >= 2 && third_byte_ok(b0, s[1]) {
            2
        } else {
            1
        }
    } else if 0xF0 <= b0 <= 0xF4 {
        if s.len() >= 2 && fourth_byte_ok(b0, s[1]) {
            if s.len() >= 3 && is_continuation_byte(s[2]) {
                3
            } else {
                2
            }
        } else {
            1
        }
    } else {
        1
    }
}

/// Lossy UTF-8 decoding: each well-formed scalar encoding becomes its
/// character, and each maximal subpart of an ill-formed sequence
/// becomes one replacement character.
pub open spec fn utf8_lossy(s: Seq<u8>) -> Seq<char>
    decreases s.len(),
{
    if s.len() == 0 {
        Seq::<char>::empty()
    } else {
        let b0 = s[0];
        if b0 <= 0x7F {
            seq![b0 as char] + utf8_lossy(s.skip(1))
        } else if 0xC2 <= b0 <= 0xDF && s.len() >= 2 && is_continuation_byte(s[1]) {
            seq![codepoint_width_2(b0, s[1]) as char] + utf8_lossy(s.skip(2))
        } else if 0xE0 <= b0 <= 0xEF && s.len() >= 3 && third_byte_ok(b0, s[1])
            && is_continuation_byte(s[2]) {
            seq![codepoint_width_3(b0, s[1], s[2]) as char] + utf8_lossy(s.skip(3))
        } else if 0xF0 <= b0 <= 0xF4 && s.len() >= 4 && fourth_byte_ok(b0, s[1])
            && is_continuation_byte(s[2]) && is_continuation_byte(s[3]) {
            seq![codepoint_width_4(b0, s[1], s[2], s[3]) as char] + utf8_lossy(s.skip(4))
        } else {
            seq!['\u{FFFD}'] + utf8_lossy(s.skip(invalid_prefix_len(s)))
        }
    }
}

/// Appending one character appends its scalar's encoding.
proof fn lemma_encode_push(cs: Seq<char>, c: char)
    ensures
        encode_utf8(cs.push(c)) == encode_utf8(cs) + encode_scalar(c as u32),
    decreases cs.len(),
{
    let p = cs.push(c);
    if cs.len() == 0 {
        assert(p[0] == c);
        assert(p.drop_first() =~= Seq::<char>::empty());
        assert(encode_utf8(p) == encode_scalar(c as u32) + encode_utf8(p.drop_first()));
        assert(encode_utf8(p) =~= encode_utf8(cs) + encode_scalar(c as u32));
    } else {
        assert(p[0] == cs[0]);
        assert(p.drop_first() =~= cs.drop_first().push(c));
        lemma_encode_push(cs.drop_first(), c);
        assert(encode_utf8(p) == encode_scalar(p[0] as u32) + encode_utf8(p.drop_first()));
        assert(encode_utf8(cs) == encode_scalar(cs[0] as u32) + encode_utf8(cs.drop_first()));
        assert(encode_utf8(p) =~= encode_utf8(cs) + encode_scalar(c as u32));
    }
}

/// An ASCII byte encodes as itself.
proof fn lemma_ascii_byte(b: u8)
    requires
        b <= 0x7F,
    ensures
        (b as char) as u32 == b as u32,
        encode_scalar((b as char) as u32) =~= seq![b],
{
    assert(leading_byte_width_1(b as u32) == b) by (bit_vector)
        requires
            b <= 0x7F,
    ;
}

/// A two-byte scalar round-trips to its bytes.
proof fn lemma_scalar_2(b0: u8, b1: u8)
    requires
        0xC2 <= b0 <= 0xDF,
        is_continuation_byte(b1),
    ensures
        ({
            let v = codepoint_width_2(b0, b1);
            0x80 <= v < 0x800 && (v as char) as u32 == v && encode_scalar((v as char) as u32)
                =~= seq![b0, b1]
        }),
{
    let v = codepoint_width_2(b0, b1);
    assert(0x80 <= v && v < 0x800 && leading_byte_width_2(v) == b0 && last_continuation_byte(v)
        == b1) by (bit_vector)
        requires
            v == codepoint_width_2(b0, b1),
            0xC2 <= b0 <= 0xDF,
            0x80 <= b1 <= 0xBF,
    ;
    assert((v as char) as u32 == v);
}

/// A three-byte scalar round-trips to its bytes; the tightened first
/// continuation range rules out overlong encodings and surrogates.
proof fn lemma_scalar_3(b0: u8, b1: u8, b2: u8)
    requires
        0xE0 <= b0 <= 0xEF,
        third_byte_ok(b0, b1),
        is_continuation_byte(b2),
    ensures
        ({
            let v = codepoint_width_3(b0, b1, b2);
            0x800 <= v < 0x10000 && !(0xD800 <= v <= 0xDFFF) && (v as char) as u32 == v
                && encode_scalar((v as char) as u32) =~= seq![b0, b1, b2]
        }),
{
    let v = codepoint_width_3(b0, b1, b2);
    assert(0x800 <= v && v < 0x10000 && !(0xD800 <= v && v <= 0xDFFF) && leading_byte_width_3(v)
        == b0 && second_last_continuation_byte(v) == b1 && last_continuation_byte(v) == b2)
        by (bit_vector)
        requires
            v == codepoint_width_3(b0, b1, b2),
            0xE0 <= b0 <= 0xEF,
            third_byte_ok(b0, b1),
            0x80 <= b2 <= 0xBF,
    ;
    assert((v as char) as u32 == v);
}

/// A four-byte scalar round-trips to its bytes; the tightened first
/// continuation range keeps the value inside the scalar range.
proof fn lemma_scalar_4(b0: u8, b1: u8, b2: u8, b3: u8)
    requires
        0xF0 <= b0 <= 0xF4,
        fourth_byte_ok(b0, b1),
        is_continuation_byte(b2),
        is_continuation_byte(b3),
    ensures
        ({
            let v = codepoint_width_4(b0, b1, b2, b3);
            0x10000 <= v <= 0x10FFFF && (v as char) as u32 == v && encode_scalar(
                (v as char) as u32,
            ) =~= seq![b0, b1, b2, b3]
        }),
{
    let v = codepoint_width_4(b0, b1, b2, b3);
    assert(0x10000 <= v && v <= 0x10FFFF && leading_byte_width_4(v) == b0
        && third_last_continuation_byte(v) == b1 && second_last_continuation_byte(v) == b2
        && last_continuation_byte(v) == b3) by (bit_vector)
        requires
            v == codepoint_width_4(b0, b1, b2, b3),
            0xF0 <= b0 <= 0xF4,
            fourth_byte_ok(b0, b1),
            0x80 <= b2 <= 0xBF,
            0x80 <= b3 <= 0xBF,
    ;
    assert((v as char) as u32 == v);
}

/// The replacement character encodes as EF BF BD.
proof fn lemma_replacement()
    ensures
        encode_scalar('\u{FFFD}' as u32) =~= seq![0xEFu8, 0xBFu8, 0xBDu8],
{
    assert(leading_byte_width_3(0xFFFD) == 0xEF && second_last_continuation_byte(0xFFFD) == 0xBF
        && last_continuation_byte(0xFFFD) == 0xBD) by (bit_vector);
}

/// Exec test for a continuation byte.
fn is_cont(b: u8) -> (r: bool)
    ensures
        r == is_continuation_byte(b),
{
    0x80 <= b && b <= 0xBF
}

/// Exec test for [`third_byte_ok`].
fn third_ok(b0: u8, b1: u8) -> (r: bool)
    ensures
        r == third_byte_ok(b0, b1),
{
    if b0 == 0xE0 {
        0xA0 <= b1 && b1 <= 0xBF
    } else if b0 == 0xED {
        0x80 <= b1 && b1 <= 0x9F
    } else {
        0x80 <= b1 && b1 <= 0xBF
    }
}

/// Exec test for [`fourth_byte_ok`].
fn fourth_ok(b0: u8, b1: u8) -> (r: bool)
    ensures
        r == fourth_byte_ok(b0, b1),
{
    if b0 == 0xF0 {
        0x90 <= b1 && b1 <= 0xBF
    } else if b0 == 0xF4 {
        0x80 <= b1 && b1 <= 0x8F
    } else {
        0x80 <= b1 && b1 <= 0xBF
    }
}

/// Decodes `bytes` as lossy UTF-8: the decoded characters are
/// re-encoded (valid by construction) and turned into a `String`.
pub fn utf8_lossy_string(bytes: &Vec<u8>) -> (r: String)
    ensures
        r@ == utf8_lossy(bytes@),
{
    let n = bytes.len();
    let mut out: Vec<u8> = Vec::new();
    let ghost mut cs = Seq::<char>::empty();
    proof {
        assert(bytes@.skip(0) =~= bytes@);
        assert(utf8_lossy(bytes@) =~= cs + utf8_lossy(bytes@.skip(0)));
    }
    let mut i: usize = 0;
    while i < n
        invariant
            n == bytes@.len(),
            i <= n,
            utf8_lossy(bytes@) == cs + utf8_lossy(bytes@.skip(i as int)),
            out@ == encode_utf8(cs),
        decreases n - i,
    {
        let ghost s = bytes@.skip(i as int);
        let rem = n - i;
        let b0 = bytes[i];
        proof {
            assert(s[0] == b0);
        }
        if b0 <= 0x7F {
            out.push(b0);
            proof {
                let c = b0 as char;
                lemma_ascii_byte(b0);
                lemma_encode_push(cs, c);
                cs = cs.push(c);
                assert(out@ =~= encode_utf8(cs));
                assert(s.skip(1) =~= bytes@.skip(i + 1));
                assert(utf8_lossy(bytes@) =~= cs + utf8_lossy(bytes@.skip(i + 1)));
            }
            i += 1;
        } else if 0xC2 <= b0 && b0 <= 0xDF && rem >= 2 && is_cont(bytes[i + 1]) {
            let b1 = bytes[i + 1];
            out.push(b0);
            out.push(b1);
            proof {
                assert(s[1] == b1);
                lemma_scalar_2(b0, b1);
                let c = codepoint_width_2(b0, b1) as char;
                lemma_encode_push(cs, c);
                cs = cs.push(c);
                assert(out@ =~= encode_utf8(cs));
                assert(s.skip(2) =~= bytes@.skip(i + 2));
                assert(utf8_lossy(bytes@) =~= cs + utf8_lossy(bytes@.skip(i + 2)));
            }
            i += 2;
        } else if 0xE0 <= b0 && b0 <= 0xEF && rem >= 3 && third_ok(b0, bytes[i + 1]) && is_cont(
            bytes[i + 2],
        ) {
            let b1 = bytes[i + 1];
            let b2 = bytes[i + 2];
            out.push(b0);
            out.push(b1);
            out.push(b2);
            proof {
                assert(s[1] == b1 && s[2] == b2);
                lemma_scalar_3(b0, b1, b2);
                let c = codepoint_width_3(b0, b1, b2) as char;
                lemma_encode_push(cs, c);
                cs = cs.push(c);
                assert(out@ =~= encode_utf8(cs));
                assert(s.skip(3) =~= bytes@.skip(i + 3));
                assert(utf8_lossy(bytes@) =~= cs + utf8_lossy(bytes@.skip(i + 3)));
            }
            i += 3;
        } else if 0xF0 <= b0 && b0 <= 0xF4 && rem >= 4 && fourth_ok(b0, bytes[i + 1]) && is_cont(
            bytes[i + 2],
        ) && is_cont(bytes[i + 3]) {
            let b1 = bytes[i + 1];
            let b2 = bytes[i + 2];
            let b3 = bytes[i + 3];
            out.push(b0);
            out.push(b1);
            out.push(b2);
            out.push(b3);
            proof {
                assert(s[1] == b1 && s[2] == b2 && s[3] == b3);
                lemma_scalar_4(b0, b1, b2, b3);
                let c = codepoint_width_4(b0, b1, b2, b3) as char;
                lemma_encode_push(cs, c);
                cs = cs.push(c);
                assert(out@ =~= encode_utf8(cs));
                assert(s.skip(4) =~= bytes@.skip(i + 4));
                assert(utf8_lossy(bytes@) =~= cs + utf8_lossy(bytes@.skip(i + 4)));
            }
            i += 4;
        } else {
            out.push(0xEF);
            out.push(0xBF);
            out.push(0xBD);
            let skip: usize;
            if 0xE0 <= b0 && b0 <= 0xEF && rem >= 2 && third_ok(b0, bytes[i + 1]) {
                proof {
                    assert(s[1] == bytes@[i + 1]);
                }
                skip = 2;
            } else if 0xF0 <= b0 && b0 <= 0xF4 && rem >= 2 && fourth_ok(b0, bytes[i + 1]) {
                proof {
                    assert(s[1] == bytes@[i + 1]);
                }
                if rem >= 3 && is_cont(bytes[i + 2]) {
                    proof {
                        assert(s[2] == bytes@[i + 2]);
                    }
                    skip = 3;
                } else {
                    skip = 2;
                }
            } else {
                skip = 1;
            }
            proof {
                if 1 < s.len() {
                    assert(s[1] == bytes@[i + 1]);
                }
                if 2 < s.len() {
                    assert(s[2] == bytes@[i + 2]);
                }
                assert(skip as int == invalid_prefix_len(s));
                let c = '\u{FFFD}';
                lemma_replacement();
                lemma_encode_push(cs, c);
                cs = cs.push(c);
                assert(out@ =~= encode_utf8(cs));
                assert(s.skip(skip as int) =~= bytes@.skip(i + skip));
                assert(utf8_lossy(bytes@) =~= cs + utf8_lossy(bytes@.skip(i + skip)));
            }
            i += skip;
        }
    }
    proof {
        assert(bytes@.skip(n as int) =~= Seq::<u8>::empty());
        assert(utf8_lossy(bytes@) =~= cs);
        encode_utf8_valid_utf8(cs);
    }
    let r = string_from_utf8(out);
    proof {
        encode_utf8_decode_utf8(r@);
        encode_utf8_decode_utf8(cs);
    }
    r
}

/// Decimal digits of `n`, most significant first.
pub open spec fn dec_chars(n: nat) -> Seq<char>
    decreases n,
{
    if n < 10 {
        seq![((48 + n) as u8) as char]
    } else {
        dec_chars(n / 10).push(((48 + n % 10) as u8) as char)
    }
}

/// Decimal digits of `n` as ASCII bytes.
fn dec_bytes(n: u32) -> (r: Vec<u8>)
    ensures
        ascii_chars(r@) == dec_chars(n as nat),
        forall|i: int| 0 <= i < r@.len() ==> r@[i] < 0x80,
    decreases n,
{
    if n < 10 {
        let mut v: Vec<u8> = Vec::new();
        v.push(48 + n as u8);
        proof {
            assert(ascii_chars(v@) =~= dec_chars(n as nat));
        }
        v
    } else {
        let mut v = dec_bytes(n / 10);
        let ghost prefix = v@;
        v.push(48 + (n % 10) as u8);
        proof {
            assert(ascii_chars(v@) =~= ascii_chars(prefix).push(((48 + (n as nat) % 10) as u8) as char));
        }
        v
    }
}

/// Renders `n` in decimal.
pub fn dec_string(n: u32) -> (r: String)
    ensures
        r@ == dec_chars(n as nat),
{
    let v = dec_bytes(n);
    string_from_ascii(v)
}

/// The ASCII byte of one hexadecimal digit, upper case.
pub open spec fn hex_digit(n: nat) -> u8
    recommends
        n < 16,
{
    if n < 10 {
        (48 + n) as u8
    } else {
        (55 + n) as u8
    }
}

/// The eight hexadecimal digits of `v`, most significant first.
pub open spec fn hex8_chars(v: u32) -> Seq<char> {
    seq![
        hex_digit(((v >> 28) & 0xF) as nat) as char,
        hex_digit(((v >> 24) & 0xF) as nat) as char,
        hex_digit(((v >> 20) & 0xF) as nat) as char,
        hex_digit(((v >> 16) & 0xF) as nat) as char,
        hex_digit(((v >> 12) & 0xF) as nat) as char,
        hex_digit(((v >> 8) & 0xF) as nat) as char,
        hex_digit(((v >> 4) & 0xF) as nat) as char,
        hex_digit((v & 0xF) as nat) as char,
    ]
}

/// One hexadecimal digit as its ASCII byte.
fn hex_digit_byte(d: u32) -> (r: u8)
    requires
        d < 16,
    ensures
        r == hex_digit(d as nat),
        r < 0x80,
{
    if d < 10 {
        48 + d as u8
    } else {
        55 + d as u8
    }
}

/// Renders `v` as eight upper-case hexadecimal digits.
pub fn hex8_string(v: u32) -> (r: String)
    ensures
        r@ == hex8_chars(v),
{
    proof {
        crate::mmio::lemma_mask_bounds(v >> 28);
        crate::mmio::lemma_mask_bounds(v >> 24);
        crate::mmio::lemma_mask_bounds(v >> 20);
        crate::mmio::lemma_mask_bounds(v >> 16);
        crate::mmio::lemma_mask_bounds(v >> 12);
        crate::mmio::lemma_mask_bounds(v >> 8);
        crate::mmio::lemma_mask_bounds(v >> 4);
        crate::mmio::lemma_mask_bounds(v);
    }
    let mut b: Vec<u8> = Vec::new();
    b.push(hex_digit_byte((v >> 28) & 0xF));
    b.push(hex_digit_byte((v >> 24) & 0xF));
    b.push(hex_digit_byte((v >> 20) & 0xF));
    b.push(hex_digit_byte((v >> 16) & 0xF));
    b.push(hex_digit_byte((v >> 12) & 0xF));
    b.push(hex_digit_byte((v >> 8) & 0xF));
    b.push(hex_digit_byte((v >> 4) & 0xF));
    b.push(hex_digit_byte(v & 0xF));
    let r = string_from_ascii(b);
    proof {
        assert(r@ =~= hex8_chars(v));
    }
    r
}

/// ASCII byte sequences are valid UTF-8 and encode their own
/// characters.
proof fn lemma_ascii_encode(b: Seq<u8>)
    requires
        forall|i: int| 0 <= i < b.len() ==> b[i] < 0x80,
    ensures
        valid_utf8(encode_utf8(ascii_chars(b))),
        encode_utf8(ascii_chars(b)) == b,
    decreases b.len(),
{
    encode_utf8_valid_utf8(ascii_chars(b));
    if b.len() == 0 {
        assert(encode_utf8(ascii_chars(b)) =~= b);
    } else {
        lemma_ascii_byte(b[0]);
        lemma_ascii_encode(b.drop_first());
        assert(ascii_chars(b).drop_first() =~= ascii_chars(b.drop_first()));
        assert(encode_utf8(ascii_chars(b)) =~= b);
    }
}

/// Builds a `String` out of ASCII bytes, one character per byte.
pub(crate) fn string_from_ascii(bytes: Vec<u8>) -> (r: String)
    requires
        forall|i: int| 0 <= i < bytes@.len() ==> bytes@[i] < 0x80,
    ensures
        r@ == ascii_chars(bytes@),
{
    let ghost b0 = bytes@;
    proof {
        lemma_ascii_encode(b0);
    }
    let r = string_from_utf8(bytes);
    proof {
        encode_utf8_decode_utf8(r@);
        encode_utf8_decode_utf8(ascii_chars(b0));
    }
    r
}

/// Relies on `String::from_utf8`: the returned string's UTF-8 bytes
/// are exactly the bytes given (the contract vstd states for the
/// unchecked `str` conversion); on valid UTF-8 it cannot fail.
#[verifier::external_body]
pub(crate) fn string_from_utf8(bytes: Vec<u8>) -> (r: String)
    requires
        valid_utf8(bytes@),
    ensures
        encode_utf8(r@) == bytes@,
{
    match String::from_utf8(bytes) {
        Ok(s) => s,
        Err(_) => String::new(),
    }
}

} // verus!
