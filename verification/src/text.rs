//! Textual input and display: decimal and hexadecimal integer parsing,
//! hexadecimal byte strings, and string comparison.
//!
//! Edit events carry their payload as text; these routines turn that text
//! into the plain values the tree stores, and render byte buffers back.

use vstd::prelude::*;
use vstd::string::*;

use crate::scale::{le_value, lemma_le_value_drop_zero, lemma_minimal_le, magnitude_bytes_u128,
    minimal_le};
use vstd::utf8::{decode_utf8, encode_utf8_decode_utf8, valid_utf8};

verus! {

/// Is `c` a decimal digit?
pub open spec fn dec_digit(c: char) -> bool {
    48 <= c as u32 <= 57
}

/// Is `c` a hexadecimal digit (either case)?
pub open spec fn hex_digit(c: char) -> bool {
    48 <= c as u32 <= 57 || 97 <= c as u32 <= 102 || 65 <= c as u32 <= 70
}

/// The numeric value of a digit, in either base.
pub open spec fn digit_val(c: char) -> nat {
    if 48 <= c as u32 <= 57 {
        (c as u32 - 48) as nat
    } else if 97 <= c as u32 <= 102 {
        (c as u32 - 87) as nat
    } else if 65 <= c as u32 <= 70 {
        (c as u32 - 55) as nat
    } else {
        0
    }
}

pub open spec fn all_dec_digits(s: Seq<char>) -> bool {
    forall|i: int| 0 <= i < s.len() ==> dec_digit(#[trigger] s[i])
}

pub open spec fn all_hex_digits(s: Seq<char>) -> bool {
    forall|i: int| 0 <= i < s.len() ==> hex_digit(#[trigger] s[i])
}

/// The value of a decimal digit string.
pub open spec fn dec_value(s: Seq<char>) -> nat
    decreases s.len(),
{
    if s.len() == 0 {
        0
    } else {
        dec_value(s.drop_last()) * 10 + digit_val(s.last())
    }
}

/// The value of a hexadecimal digit string.
pub open spec fn hex_value(s: Seq<char>) -> nat
    decreases s.len(),
{
    if s.len() == 0 {
        0
    } else {
        hex_value(s.drop_last()) * 16 + digit_val(s.last())
    }
}

/// Does `s` start with the prefix `0x`?
pub open spec fn has_hex_prefix(s: Seq<char>) -> bool {
    s.len() >= 2 && s[0] == '0' && s[1] == 'x'
}

/// The unsigned magnitude a text denotes: hexadecimal with a `0x` prefix,
/// decimal otherwise; `None` when a character is out of place.
pub open spec fn spec_parse_uint(s: Seq<char>) -> Option<nat> {
    if has_hex_prefix(s) {
        if s.len() > 2 && all_hex_digits(s.skip(2)) {
            Some(hex_value(s.skip(2)))
        } else {
            None
        }
    } else {
        if s.len() > 0 && all_dec_digits(s) {
            Some(dec_value(s))
        } else {
            None
        }
    }
}

/// The signed value a text denotes: an optional leading minus sign, then an
/// unsigned magnitude.
pub open spec fn spec_parse_int(s: Seq<char>) -> Option<int> {
    if s.len() >= 1 && s[0] == '-' {
        match spec_parse_uint(s.skip(1)) {
            Some(v) => Some(-(v as int)),
            None => None,
        }
    } else {
        match spec_parse_uint(s) {
            Some(v) => Some(v as int),
            None => None,
        }
    }
}

/// The bytes a hexadecimal text denotes, two digits per byte.
pub open spec fn hex_bytes(s: Seq<char>) -> Seq<u8> {
    Seq::new((s.len() / 2) as nat, |i: int| (digit_val(s[2 * i]) * 16 + digit_val(s[2 * i + 1])) as u8)
}

/// Hex-decode a whole text: an even number of hex digits, or `None`.
pub open spec fn spec_parse_hex_bytes(s: Seq<char>) -> Option<Seq<u8>> {
    if s.len() % 2 == 0 && all_hex_digits(s) {
        Some(hex_bytes(s))
    } else {
        None
    }
}

/// Hex-decode with an optional `0x` prefix.
pub open spec fn spec_unhex(s: Seq<char>) -> Option<Seq<u8>> {
    if has_hex_prefix(s) {
        spec_parse_hex_bytes(s.skip(2))
    } else {
        spec_parse_hex_bytes(s)
    }
}

/// The little-endian bytes a hexadecimal digit string denotes: two
/// digits per byte from the right, with a lone leading digit making the
/// top byte on its own.
pub open spec fn hex_mag_bytes(s: Seq<char>) -> Seq<u8> {
    Seq::new(((s.len() + 1) / 2) as nat, |j: int|
        if 2 * j + 2 <= s.len() {
            (digit_val(s[s.len() - 2 - 2 * j]) * 16 + digit_val(s[s.len() - 1 - 2 * j])) as u8
        } else {
            digit_val(s[0]) as u8
        })
}

/// The little-endian byte reading of a hex digit string denotes the same
/// magnitude as its numeric reading.
pub proof fn lemma_hex_mag_bytes(s: Seq<char>)
    ensures
        le_value(hex_mag_bytes(s)) == hex_value(s),
    decreases s.len(),
{
    if s.len() == 0 {
        assert(hex_mag_bytes(s) =~= Seq::<u8>::empty());
    } else if s.len() == 1 {
        reveal_with_fuel(le_value, 3);
        reveal_with_fuel(hex_value, 2);
        assert(digit_val(s[0]) < 16);
        assert(hex_mag_bytes(s) =~= seq![digit_val(s[0]) as u8]);
        assert(hex_mag_bytes(s).skip(1) =~= Seq::<u8>::empty());
        assert(s.drop_last() =~= Seq::<char>::empty());
        assert(le_value(hex_mag_bytes(s)) == digit_val(s[0]));
    } else {
        let t = s.take(s.len() - 2);
        lemma_hex_mag_bytes(t);
        assert(hex_mag_bytes(s).skip(1) =~= hex_mag_bytes(t)) by {
            assert forall|j: int|
                0 <= j < hex_mag_bytes(t).len() implies hex_mag_bytes(s).skip(1)[j]
                == hex_mag_bytes(t)[j] by {
                if 2 * j + 2 <= t.len() {
                    assert(t[t.len() - 2 - 2 * j] == s[s.len() - 2 - 2 * (j + 1)]);
                    assert(t[t.len() - 1 - 2 * j] == s[s.len() - 1 - 2 * (j + 1)]);
                } else {
                    assert(t[0] == s[0]);
                }
            }
        };
        assert(s.drop_last().drop_last() =~= t);
        assert(s.drop_last().last() == s[s.len() - 2]);
        reveal_with_fuel(hex_value, 3);
        assert(hex_value(s) == (hex_value(t) * 16 + digit_val(s[s.len() - 2])) * 16 + digit_val(
            s[s.len() - 1],
        ));
        assert(hex_mag_bytes(s)[0] == (digit_val(s[s.len() - 2]) * 16 + digit_val(
            s[s.len() - 1],
        )) as u8);
        assert(le_value(hex_mag_bytes(s)) == hex_mag_bytes(s)[0] as nat + 256 * hex_value(t));
        assert((hex_value(t) * 16 + digit_val(s[s.len() - 2])) * 16 == 256 * hex_value(t) + 16
            * digit_val(s[s.len() - 2])) by (nonlinear_arith);
    }
}

/// The value of one hex digit; zero for any other character.
fn hex_val_char(c: char) -> (r: u32)
    ensures
        hex_digit(c) ==> r == digit_val(c),
        r < 16,
{
    let cu = c as u32;
    if cu >= 48 && cu <= 57 {
        cu - 48
    } else if cu >= 97 && cu <= 102 {
        cu - 87
    } else if cu >= 65 && cu <= 70 {
        cu - 55
    } else {
        0
    }
}

/// Parse the hexadecimal digits of `s` from position `from` on into a
/// minimal little-endian magnitude, of any size.
pub(crate) fn parse_hex_magnitude_from(s: &str, from: usize, n: usize) -> (r: Option<Vec<u8>>)
    requires
        from <= n,
        n == s@.len(),
    ensures
        ({
            let t = s@.skip(from as int);
            match r {
                Some(mag) => t.len() > 0 && all_hex_digits(t) && minimal_le(mag@) && le_value(mag@)
                    == hex_value(t),
                None => t.len() == 0 || !all_hex_digits(t),
            }
        }),
{
    let ghost t = s@.skip(from as int);
    if from == n {
        return None;
    }
    let mut i: usize = from;
    while i < n
        invariant
            from <= i <= n,
            n == s@.len(),
            t == s@.skip(from as int),
            all_hex_digits(t.take(i - from)),
        decreases n - i,
    {
        let cu = s.get_char(i) as u32;
        proof {
            assert(t[i - from] == s@[i as int]);
        }
        if !((cu >= 48 && cu <= 57) || (cu >= 97 && cu <= 102) || (cu >= 65 && cu <= 70)) {
            proof {
                assert(!hex_digit(t[i - from]));
            }
            return None;
        }
        proof {
            assert(forall|k: int|
                0 <= k < i + 1 - from ==> hex_digit(#[trigger] t.take(i + 1 - from)[k]));
        }
        i += 1;
    }
    proof {
        assert(t.take(n - from) =~= t);
    }
    let tl = n - from;
    let total = tl / 2 + tl % 2;
    let mut bytes: Vec<u8> = Vec::new();
    let mut j: usize = 0;
    while j < total
        invariant
            j <= total,
            total == tl / 2 + tl % 2,
            tl == n - from,
            from <= n,
            n == s@.len(),
            tl >= 1,
            t == s@.skip(from as int),
            t.len() == tl,
            all_hex_digits(t),
            bytes@.len() == j,
            forall|k: int| 0 <= k < j ==> bytes@[k] == hex_mag_bytes(t)[k],
        decreases total - j,
    {
        proof {
            assert(2 * j <= tl - 1);
        }
        let lo = hex_val_char(s.get_char(n - 1 - 2 * j));
        proof {
            assert(t[tl - 1 - 2 * j] == s@[n - 1 - 2 * j]);
        }
        let b: u8 = if tl >= 2 && 2 * j <= tl - 2 {
            let hi = hex_val_char(s.get_char(n - 2 - 2 * j));
            proof {
                assert(t[tl - 2 - 2 * j] == s@[n - 2 - 2 * j]);
            }
            (hi * 16 + lo) as u8
        } else {
            proof {
                assert(tl - 1 - 2 * j == 0);
            }
            lo as u8
        };
        bytes.push(b);
        j += 1;
    }
    proof {
        assert(bytes@ =~= hex_mag_bytes(t));
        lemma_hex_mag_bytes(t);
    }
    while bytes.len() > 0 && bytes[bytes.len() - 1] == 0
        invariant
            le_value(bytes@) == hex_value(t),
        decreases bytes@.len(),
    {
        proof {
            lemma_le_value_drop_zero(bytes@);
            assert(bytes@.take(bytes@.len() - 1) =~= bytes@.drop_last());
        }
        bytes.pop();
    }
    proof {
        assert(minimal_le(bytes@));
    }
    Some(bytes)
}

/// Parse an unsigned magnitude from position `from` on, as a minimal
/// little-endian byte string: `0x`-prefixed hexadecimal of any size, or
/// decimal within 128 bits.
pub(crate) fn parse_magnitude_from(s: &str, from: usize, n: usize) -> (r: Option<Vec<u8>>)
    requires
        from <= n,
        n == s@.len(),
    ensures
        ({
            let t = s@.skip(from as int);
            match r {
                Some(mag) => minimal_le(mag@) && spec_parse_uint(t) == Some(le_value(mag@)) && (
                has_hex_prefix(t) || le_value(mag@) <= u128::MAX),
                None => (spec_parse_uint(t) matches Some(w) ==> !has_hex_prefix(t) && w
                    > u128::MAX),
            }
        }),
{
    let ghost t = s@.skip(from as int);
    if n - from >= 2 && s.get_char(from) == '0' && s.get_char(from + 1) == 'x' {
        proof {
            assert(t[0] == s@[from as int]);
            assert(t[1] == s@[from as int + 1]);
            assert(has_hex_prefix(t));
            assert(t.skip(2) =~= s@.skip(from as int + 2));
        }
        match parse_hex_magnitude_from(s, from + 2, n) {
            Some(mag) => Some(mag),
            None => None,
        }
    } else {
        proof {
            if t.len() >= 2 {
                assert(t[0] == s@[from as int]);
                assert(t[1] == s@[from as int + 1]);
            }
            assert(!has_hex_prefix(t));
        }
        match parse_dec_from(s, from, n) {
            Some(v) => {
                let mag = magnitude_bytes_u128(v);
                Some(mag)
            },
            None => None,
        }
    }
}

/// The lowercase hexadecimal rendering of a byte string.
pub open spec fn hex_chars(b: Seq<u8>) -> Seq<char> {
    Seq::new(2 * b.len(), |i: int|
        if i % 2 == 0 {
            hex_digit_char((b[i / 2] / 16) as nat)
        } else {
            hex_digit_char((b[i / 2] % 16) as nat)
        })
}

/// The lowercase hexadecimal digit for a value below 16.
pub open spec fn hex_digit_char(x: nat) -> char {
    seq!['0', '1', '2', '3', '4', '5', '6', '7', '8', '9', 'a', 'b', 'c', 'd', 'e', 'f'][x as int]
}

proof fn lemma_dec_value_take_le(s: Seq<char>, i: int)
    requires
        0 <= i <= s.len(),
    ensures
        dec_value(s.take(i)) <= dec_value(s),
    decreases s.len() - i,
{
    if i < s.len() {
        assert(s.take(i + 1).drop_last() =~= s.take(i));
        assert(s.take(i + 1).last() == s[i]);
        lemma_dec_value_take_le(s, i + 1);
    } else {
        assert(s.take(i) =~= s);
    }
}

proof fn lemma_hex_value_take_le(s: Seq<char>, i: int)
    requires
        0 <= i <= s.len(),
    ensures
        hex_value(s.take(i)) <= hex_value(s),
    decreases s.len() - i,
{
    if i < s.len() {
        assert(s.take(i + 1).drop_last() =~= s.take(i));
        assert(s.take(i + 1).last() == s[i]);
        lemma_hex_value_take_le(s, i + 1);
    } else {
        assert(s.take(i) =~= s);
    }
}

/// Parse the decimal digits of `s` from position `from` on.
fn parse_dec_from(s: &str, from: usize, n: usize) -> (r: Option<u128>)
    requires
        from <= n,
        n == s@.len(),
    ensures
        ({
            let t = s@.skip(from as int);
            match r {
                Some(v) => t.len() > 0 && all_dec_digits(t) && v as nat == dec_value(t),
                None => t.len() == 0 || !all_dec_digits(t) || dec_value(t) > u128::MAX,
            }
        }),
{
    let ghost t = s@.skip(from as int);
    if from == n {
        return None;
    }
    let mut acc: u128 = 0;
    let mut i: usize = from;
    while i < n
        invariant
            from <= i <= n,
            n == s@.len(),
            t == s@.skip(from as int),
            all_dec_digits(t.take(i - from)),
            acc as nat == dec_value(t.take(i - from)),
        decreases n - i,
    {
        let c = s.get_char(i);
        let cu = c as u32;
        proof {
            assert(t[i - from] == s@[i as int]);
            assert(t.take(i - from + 1).drop_last() =~= t.take(i - from));
            assert(t.take(i - from + 1).last() == t[i - from]);
        }
        if cu < 48 || cu > 57 {
            proof {
                assert(!dec_digit(t[i - from]));
            }
            return None;
        }
        let d = (cu - 48) as u128;
        if acc > (u128::MAX - d) / 10 {
            proof {
                vstd::arithmetic::div_mod::lemma_fundamental_div_mod((u128::MAX - d) as int, 10);
                assert(acc as nat * 10 + d as nat > u128::MAX);
                lemma_dec_value_take_le(t, i - from + 1);
            }
            return None;
        }
        acc = acc * 10 + d;
        i += 1;
    }
    proof {
        assert(t.take(n - from) =~= t);
    }
    Some(acc)
}

/// Parse the hexadecimal digits of `s` from position `from` on.
fn parse_hex_from(s: &str, from: usize, n: usize) -> (r: Option<u128>)
    requires
        from <= n,
        n == s@.len(),
    ensures
        ({
            let t = s@.skip(from as int);
            match r {
                Some(v) => t.len() > 0 && all_hex_digits(t) && v as nat == hex_value(t),
                None => t.len() == 0 || !all_hex_digits(t) || hex_value(t) > u128::MAX,
            }
        }),
{
    let ghost t = s@.skip(from as int);
    if from == n {
        return None;
    }
    let mut acc: u128 = 0;
    let mut i: usize = from;
    while i < n
        invariant
            from <= i <= n,
            n == s@.len(),
            t == s@.skip(from as int),
            all_hex_digits(t.take(i - from)),
            acc as nat == hex_value(t.take(i - from)),
        decreases n - i,
    {
        let c = s.get_char(i);
        let cu = c as u32;
        proof {
            assert(t[i - from] == s@[i as int]);
            assert(t.take(i - from + 1).drop_last() =~= t.take(i - from));
            assert(t.take(i - from + 1).last() == t[i - from]);
        }
        let d: u128 = if cu >= 48 && cu <= 57 {
            (cu - 48) as u128
        } else if cu >= 97 && cu <= 102 {
            (cu - 87) as u128
        } else if cu >= 65 && cu <= 70 {
            (cu - 55) as u128
        } else {
            proof {
                assert(!hex_digit(t[i - from]));
            }
            return None;
        };
        if acc > (u128::MAX - d) / 16 {
            proof {
                vstd::arithmetic::div_mod::lemma_fundamental_div_mod((u128::MAX - d) as int, 16);
                assert(acc as nat * 16 + d as nat > u128::MAX);
                lemma_hex_value_take_le(t, i - from + 1);
            }
            return None;
        }
        acc = acc * 16 + d;
        i += 1;
    }
    proof {
        assert(t.take(n - from) =~= t);
    }
    Some(acc)
}

/// Parse an unsigned magnitude: `0x`-prefixed hexadecimal or plain decimal.
pub fn parse_uint(s: &str) -> (r: Option<u128>)
    ensures
        (r matches Some(v) ==> spec_parse_uint(s@) == Some(v as nat)),
        (r is None ==> (spec_parse_uint(s@) is None || (spec_parse_uint(s@) matches Some(w) && w
            > u128::MAX))),
{
    let n = s.unicode_len();
    if n >= 2 && s.get_char(0) == '0' && s.get_char(1) == 'x' {
        parse_hex_from(s, 2, n)
    } else {
        proof {
            assert(s@.skip(0) =~= s@);
        }
        parse_dec_from(s, 0, n)
    }
}

/// Parse a signed value: an optional minus sign, then a magnitude.
pub fn parse_int(s: &str) -> (r: Option<i128>)
    ensures
        (r matches Some(v) ==> spec_parse_int(s@) == Some(v as int)),
        (r is None ==> (spec_parse_int(s@) is None || (spec_parse_int(s@) matches Some(w) && (w
            < i128::MIN || w > i128::MAX)))),
{
    let n = s.unicode_len();
    if n >= 1 && s.get_char(0) == '-' {
        let t = s.substring_char(1, n);
        let m = if t.unicode_len() >= 2 && t.get_char(0) == '0' && t.get_char(1) == 'x' {
            parse_hex_from(t, 2, t.unicode_len())
        } else {
            proof {
                assert(t@.skip(0) =~= t@);
            }
            parse_dec_from(t, 0, t.unicode_len())
        };
        proof {
            assert(t@ =~= s@.skip(1));
        }
        match m {
            Some(v) => {
                if v > 0x8000_0000_0000_0000_0000_0000_0000_0000u128 {
                    None
                } else if v == 0x8000_0000_0000_0000_0000_0000_0000_0000u128 {
                    Some(i128::MIN)
                } else {
                    Some(-(v as i128))
                }
            },
            None => None,
        }
    } else {
        match parse_uint(s) {
            Some(v) => {
                if v > i128::MAX as u128 {
                    None
                } else {
                    Some(v as i128)
                }
            },
            None => None,
        }
    }
}

/// Hex-decode the text of `s` from position `from` on: two digits per byte.
fn parse_hex_bytes_from(s: &str, from: usize, n: usize) -> (r: Option<Vec<u8>>)
    requires
        from <= n,
        n == s@.len(),
    ensures
        ({
            let t = s@.skip(from as int);
            match r {
                Some(b) => spec_parse_hex_bytes(t) == Some(b@),
                None => spec_parse_hex_bytes(t) is None,
            }
        }),
{
    let ghost t = s@.skip(from as int);
    if (n - from) % 2 != 0 {
        return None;
    }
    let mut out: Vec<u8> = Vec::new();
    let mut i: usize = from;
    while i < n
        invariant
            from <= i <= n,
            n == s@.len(),
            t == s@.skip(from as int),
            (i - from) % 2 == 0,
            (n - from) % 2 == 0,
            all_hex_digits(t.take(i - from)),
            out@.len() == (i - from) / 2,
            forall|k: int|
                0 <= k < out@.len() ==> out@[k] == (digit_val(t[2 * k]) * 16 + digit_val(
                    t[2 * k + 1],
                )) as u8,
        decreases n - i,
    {
        let c0 = s.get_char(i) as u32;
        let c1 = s.get_char(i + 1) as u32;
        proof {
            assert(t[i - from] == s@[i as int]);
            assert(t[i - from + 1] == s@[i as int + 1]);
        }
        let d0: u32 = if c0 >= 48 && c0 <= 57 {
            c0 - 48
        } else if c0 >= 97 && c0 <= 102 {
            c0 - 87
        } else if c0 >= 65 && c0 <= 70 {
            c0 - 55
        } else {
            proof {
                assert(!hex_digit(t[i - from]));
            }
            return None;
        };
        let d1: u32 = if c1 >= 48 && c1 <= 57 {
            c1 - 48
        } else if c1 >= 97 && c1 <= 102 {
            c1 - 87
        } else if c1 >= 65 && c1 <= 70 {
            c1 - 55
        } else {
            proof {
                assert(!hex_digit(t[i - from + 1]));
            }
            return None;
        };
        out.push((d0 * 16 + d1) as u8);
        i += 2;
        proof {
            assert(forall|j: int|
                0 <= j < i - from ==> hex_digit(#[trigger] t.take(i - from)[j]));
        }
    }
    proof {
        assert(t.take(n - from) =~= t);
        assert(out@ =~= hex_bytes(t));
    }
    Some(out)
}

/// Hex-decode a whole text, accepting an optional `0x` prefix.
pub fn unhex(hex_input: &str) -> (r: Option<Vec<u8>>)
    ensures
        (r matches Some(b) ==> spec_unhex(hex_input@) == Some(b@)),
        (r is None ==> spec_unhex(hex_input@) is None),
{
    let n = hex_input.unicode_len();
    if n >= 2 && hex_input.get_char(0) == '0' && hex_input.get_char(1) == 'x' {
        parse_hex_bytes_from(hex_input, 2, n)
    } else {
        proof {
            assert(hex_input@.skip(0) =~= hex_input@);
        }
        parse_hex_bytes_from(hex_input, 0, n)
    }
}

/// Append the two hex digits of one byte.
fn push_hex_byte(out: &mut String, x: u8)
    ensures
        final(out)@ == old(out)@ + seq![
            hex_digit_char((x / 16) as nat),
            hex_digit_char((x % 16) as nat),
        ],
{
    let digits = "0123456789abcdef";
    proof {
        reveal_strlit("0123456789abcdef");
        assert(digits@ =~= seq!['0', '1', '2', '3', '4', '5', '6', '7', '8', '9', 'a', 'b', 'c', 'd', 'e', 'f']);
        assert(forall|k: int| 0 <= k < 16 ==> digits@[k] == hex_digit_char(k as nat));
    }
    let hi = digits.substring_ascii((x / 16) as usize, (x / 16) as usize + 1);
    out.append(hi);
    let lo = digits.substring_ascii((x % 16) as usize, (x % 16) as usize + 1);
    out.append(lo);
    proof {
        assert(hi@ =~= seq![digits@[x as int / 16]]);
        assert(lo@ =~= seq![digits@[x as int % 16]]);
        assert(out@ =~= old(out)@ + seq![
            hex_digit_char((x / 16) as nat),
            hex_digit_char((x % 16) as nat),
        ]);
    }
}

/// The lowercase hexadecimal rendering of a byte buffer.
pub fn to_hex(b: &Vec<u8>) -> (r: String)
    ensures
        r@ == hex_chars(b@),
{
    let mut out = String::new();
    let mut i: usize = 0;
    while i < b.len()
        invariant
            i <= b@.len(),
            out@.len() == 2 * i,
            forall|j: int| 0 <= j < out@.len() ==> out@[j] == hex_chars(b@)[j],
        decreases b@.len() - i,
    {
        push_hex_byte(&mut out, b[i]);
        i += 1;
    }
    proof {
        assert(out@ =~= hex_chars(b@));
    }
    out
}

/// Do two strings hold the same characters?
pub fn str_eq(a: &str, b: &str) -> (r: bool)
    ensures
        r == (a@ == b@),
{
    let ab = a.as_bytes();
    let bb = b.as_bytes();
    if ab.len() != bb.len() {
        proof {
            if a@ == b@ {
                assert(a.spec_bytes() == b.spec_bytes());
            }
        }
        return false;
    }
    let mut i: usize = 0;
    while i < ab.len()
        invariant
            i <= ab@.len(),
            ab@.len() == bb@.len(),
            ab@ == a.spec_bytes(),
            bb@ == b.spec_bytes(),
            forall|j: int| 0 <= j < i ==> ab@[j] == bb@[j],
        decreases ab@.len() - i,
    {
        if ab[i] != bb[i] {
            proof {
                if a@ == b@ {
                    assert(a.spec_bytes() == b.spec_bytes());
                }
            }
            return false;
        }
        i += 1;
    }
    proof {
        assert(a.spec_bytes() =~= b.spec_bytes());
        encode_utf8_decode_utf8(a@);
        encode_utf8_decode_utf8(b@);
    }
    true
}

/// Relies on `String::from_utf8`: yields the string whose UTF-8 bytes are
/// exactly `b` when `b` is valid UTF-8, and nothing otherwise.
#[verifier::external_body]
pub(crate) fn utf8_string(b: &Vec<u8>) -> (r: Option<String>)
    ensures
        r is Some <==> valid_utf8(b@),
        (r matches Some(s) ==> s@ == decode_utf8(b@)),
{
    match String::from_utf8(b.clone()) {
        Ok(s) => Some(s),
        Err(_) => None,
    }
}

} // verus!
