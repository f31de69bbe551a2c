//! Little-endian byte strings and the compact ("SCALE") encoding of
//! unsigned magnitudes.
//!
//! Every magnitude in this crate is carried as a little-endian byte string
//! with no trailing zero byte ("minimal"). `spec_encode_compact` is the
//! canonical wire form: one byte for values up to `0x3f`, two bytes up to
//! `0x3fff`, four bytes up to `0x3fff_ffff`, and a length-tagged raw
//! magnitude beyond that.

use vstd::arithmetic::div_mod::{
    lemma_fundamental_div_mod, lemma_fundamental_div_mod_converse, lemma_mod_mod,
    lemma_mod_multiples_vanish, lemma_small_mod,
};
use vstd::prelude::*;

verus! {

/// 256 raised to the power `n`.
pub open spec fn pow256(n: nat) -> nat
    decreases n,
{
    if n == 0 {
        1
    } else {
        256 * pow256((n - 1) as nat)
    }
}

/// The unsigned value denoted by a little-endian byte string.
pub open spec fn le_value(b: Seq<u8>) -> nat
    decreases b.len(),
{
    if b.len() == 0 {
        0
    } else {
        b[0] as nat + 256 * le_value(b.skip(1))
    }
}

/// The `n` little-endian bytes of `v` (low bytes of `v` if `v >= 256^n`).
pub open spec fn le_bytes(v: nat, n: nat) -> Seq<u8>
    decreases n,
{
    if n == 0 {
        Seq::empty()
    } else {
        seq![(v % 256) as u8] + le_bytes(v / 256, (n - 1) as nat)
    }
}

/// The length of the shortest little-endian encoding of `v`.
pub open spec fn byte_len(v: nat) -> nat
    decreases v,
{
    if v == 0 {
        0
    } else {
        1 + byte_len(v / 256)
    }
}

/// A little-endian magnitude with no trailing zero byte.
pub open spec fn minimal_le(b: Seq<u8>) -> bool {
    b.len() == 0 || b[b.len() - 1] != 0
}

/// Canonical compact encoding of an unsigned magnitude.
pub open spec fn spec_encode_compact(v: nat) -> Seq<u8> {
    if v <= 0x3f {
        seq![(4 * v) as u8]
    } else if v <= 0x3fff {
        le_bytes(4 * v + 1, 2)
    } else if v <= 0x3fff_ffff {
        le_bytes(4 * v + 2, 4)
    } else {
        seq![(4 * (byte_len(v) - 4) + 3) as u8] + le_bytes(v, byte_len(v))
    }
}

/// Decoding of a compact-encoded magnitude: the value and what follows it.
pub open spec fn spec_decode_compact(b: Seq<u8>) -> Option<(nat, Seq<u8>)> {
    if b.len() == 0 {
        None
    } else if b[0] % 4 == 0 {
        Some(((b[0] / 4) as nat, b.skip(1)))
    } else if b[0] % 4 == 1 {
        if b.len() >= 2 {
            Some(((le_value(b.take(2)) / 4) as nat, b.skip(2)))
        } else {
            None
        }
    } else if b[0] % 4 == 2 {
        if b.len() >= 4 {
            Some(((le_value(b.take(4)) / 4) as nat, b.skip(4)))
        } else {
            None
        }
    } else {
        let n = b[0] / 4 + 4;
        if b.len() >= 1 + n {
            Some((le_value(b.subrange(1, 1 + n)), b.skip(1 + n)))
        } else {
            None
        }
    }
}

pub proof fn lemma_le_bytes_len(v: nat, n: nat)
    ensures
        le_bytes(v, n).len() == n,
    decreases n,
{
    if n > 0 {
        lemma_le_bytes_len(v / 256, (n - 1) as nat);
    }
}

pub proof fn lemma_le_value_bound(b: Seq<u8>)
    ensures
        le_value(b) < pow256(b.len()),
    decreases b.len(),
{
    if b.len() > 0 {
        lemma_le_value_bound(b.skip(1));
    }
}

pub proof fn lemma_le_value_le_bytes(v: nat, n: nat)
    requires
        v < pow256(n),
    ensures
        le_value(le_bytes(v, n)) == v,
    decreases n,
{
    if n > 0 {
        let tail = le_bytes(v / 256, (n - 1) as nat);
        assert(le_bytes(v, n).skip(1) =~= tail);
        assert(v / 256 < pow256((n - 1) as nat)) by {
            lemma_fundamental_div_mod(v as int, 256);
        };
        lemma_le_value_le_bytes(v / 256, (n - 1) as nat);
        assert(v % 256 + 256 * (v / 256) == v) by {
            lemma_fundamental_div_mod(v as int, 256);
        };
    }
}

pub proof fn lemma_byte_len_bound(v: nat)
    ensures
        v < pow256(byte_len(v)),
    decreases v,
{
    if v > 0 {
        lemma_byte_len_bound(v / 256);
        lemma_fundamental_div_mod(v as int, 256);
    }
}

/// A minimal little-endian byte string denotes exactly the value whose
/// shortest encoding it is.
pub proof fn lemma_minimal_le(b: Seq<u8>)
    requires
        minimal_le(b),
    ensures
        byte_len(le_value(b)) == b.len(),
        le_bytes(le_value(b), b.len()) == b,
    decreases b.len(),
{
    if b.len() > 0 {
        let tail = b.skip(1);
        assert(minimal_le(tail));
        lemma_minimal_le(tail);
        let w = le_value(tail);
        let v = le_value(b);
        assert(v == b[0] + 256 * w);
        if b.len() == 1 {
            assert(w == 0);
            assert(b[0] != 0);
        } else {
            assert(byte_len(w) == tail.len());
            assert(w > 0) by {
                if w == 0 {
                    assert(byte_len(0nat) == 0);
                }
            };
        }
        assert(v > 0);
        lemma_fundamental_div_mod_converse(v as int, 256, w as int, b[0] as int);
        assert(v / 256 == w);
        assert(v % 256 == b[0]);
        assert(byte_len(v) == 1 + byte_len(w));
        assert(le_bytes(v, b.len()) =~= b) by {
            assert(le_bytes(v, b.len()) == seq![(v % 256) as u8] + le_bytes(w, tail.len()));
        };
    }
}

/// The shortest encoding of `v` is itself minimal.
pub proof fn lemma_le_bytes_minimal(v: nat)
    ensures
        minimal_le(le_bytes(v, byte_len(v))),
        le_value(le_bytes(v, byte_len(v))) == v,
    decreases v,
{
    lemma_byte_len_bound(v);
    lemma_le_value_le_bytes(v, byte_len(v));
    if v > 0 {
        let n = byte_len(v);
        lemma_le_bytes_len(v / 256, (n - 1) as nat);
        lemma_le_bytes_minimal(v / 256);
        let b = le_bytes(v, n);
        let tail = le_bytes(v / 256, (n - 1) as nat);
        if n > 1 {
            assert(b[b.len() - 1] == tail[tail.len() - 1]);
        } else {
            assert(byte_len(v / 256) == 0);
            assert(v / 256 == 0) by {
                if v / 256 > 0 {
                    assert(byte_len(v / 256) >= 1);
                }
            };
            lemma_fundamental_div_mod(v as int, 256);
            assert(b[0] == v);
        }
    }
}

/// Dropping a trailing zero byte does not change the denoted value.
pub proof fn lemma_le_value_drop_zero(b: Seq<u8>)
    requires
        b.len() > 0,
        b[b.len() - 1] == 0,
    ensures
        le_value(b) == le_value(b.take(b.len() - 1)),
    decreases b.len(),
{
    if b.len() == 1 {
        reveal_with_fuel(le_value, 2);
        assert(b.take(0) =~= Seq::<u8>::empty());
        assert(b.skip(1) =~= Seq::<u8>::empty());
        assert(le_value(b) == 0);
    } else {
        let tail = b.skip(1);
        assert(tail[tail.len() - 1] == b[b.len() - 1]);
        lemma_le_value_drop_zero(tail);
        let front = b.take(b.len() - 1);
        assert(front.skip(1) =~= tail.take(tail.len() - 1));
        assert(front[0] == b[0]);
        assert(le_value(front) == front[0] as nat + 256 * le_value(front.skip(1)));
        assert(le_value(b) == b[0] as nat + 256 * le_value(tail));
    }
}

pub proof fn lemma_pow256_mono(m: nat, n: nat)
    requires
        m <= n,
    ensures
        pow256(m) <= pow256(n),
    decreases n,
{
    if m < n && n > 0 {
        lemma_pow256_mono(m, (n - 1) as nat);
    }
}

pub proof fn lemma_byte_len_le(v: nat, n: nat)
    requires
        v < pow256(n),
    ensures
        byte_len(v) <= n,
    decreases n,
{
    if v > 0 {
        assert(n > 0);
        assert(v / 256 < pow256((n - 1) as nat)) by {
            lemma_fundamental_div_mod(v as int, 256);
        };
        lemma_byte_len_le(v / 256, (n - 1) as nat);
    }
}

pub proof fn lemma_byte_len_lower(v: nat)
    requires
        v > 0,
    ensures
        pow256((byte_len(v) - 1) as nat) <= v,
    decreases v,
{
    if v >= 256 {
        assert(v / 256 > 0);
        lemma_byte_len_lower(v / 256);
        lemma_fundamental_div_mod(v as int, 256);
    } else {
        reveal_with_fuel(byte_len, 2);
        assert(v / 256 == 0);
        assert(byte_len(v) == 1);
    }
}

/// How long the compact encoding is: exactly the minimal class for the
/// magnitude, never more.
pub proof fn lemma_compact_len(v: nat)
    ensures
        v <= 0x3f ==> spec_encode_compact(v).len() == 1,
        0x3f < v <= 0x3fff ==> spec_encode_compact(v).len() == 2,
        0x3fff < v <= 0x3fff_ffff ==> spec_encode_compact(v).len() == 4,
        0x3fff_ffff < v ==> spec_encode_compact(v).len() == 1 + byte_len(v),
{
    if v <= 0x3f {
    } else if v <= 0x3fff {
        lemma_le_bytes_len(4 * v + 1, 2);
    } else if v <= 0x3fff_ffff {
        lemma_le_bytes_len(4 * v + 2, 4);
    } else {
        lemma_le_bytes_len(v, byte_len(v));
    }
}

/// Decoding inverts encoding, whatever bytes follow the encoded value.
pub proof fn lemma_compact_round_trip(v: nat, rest: Seq<u8>)
    requires
        byte_len(v) <= 67,
    ensures
        spec_decode_compact(spec_encode_compact(v) + rest) == Some((v, rest)),
{
    let b = spec_encode_compact(v) + rest;
    if v <= 0x3f {
        assert(b[0] == (4 * v) as u8);
        lemma_fundamental_div_mod_converse(4 * v as int, 4, v as int, 0);
        assert(b.skip(1) =~= rest);
    } else if v <= 0x3fff {
        let enc = le_bytes(4 * v + 1, 2);
        lemma_le_bytes_len(4 * v + 1, 2);
        assert(b[0] == enc[0]);
        assert(enc[0] == ((4 * v + 1) % 256) as u8);
        assert((4 * v + 1) % 256 % 4 == (4 * v + 1) % 4) by {
            lemma_mod_mod(4 * v as int + 1, 4, 64);
        };
        assert((4 * v + 1) % 4 == 1) by {
            lemma_mod_multiples_vanish(v as int, 1, 4);
            lemma_small_mod(1, 4);
        };
        assert(b.take(2) =~= enc);
        assert(4 * v + 1 < pow256(2)) by {
            reveal_with_fuel(pow256, 3);
        };
        lemma_le_value_le_bytes(4 * v + 1, 2);
        lemma_fundamental_div_mod_converse(4 * v as int + 1, 4, v as int, 1);
        assert(b.skip(2) =~= rest);
    } else if v <= 0x3fff_ffff {
        let enc = le_bytes(4 * v + 2, 4);
        lemma_le_bytes_len(4 * v + 2, 4);
        assert(b[0] == enc[0]);
        assert(enc[0] == ((4 * v + 2) % 256) as u8);
        assert((4 * v + 2) % 256 % 4 == (4 * v + 2) % 4) by {
            lemma_mod_mod(4 * v as int + 2, 4, 64);
        };
        assert((4 * v + 2) % 4 == 2) by {
            lemma_mod_multiples_vanish(v as int, 2, 4);
            lemma_small_mod(2, 4);
        };
        assert(b.take(4) =~= enc);
        assert(4 * v + 2 < pow256(4)) by {
            reveal_with_fuel(pow256, 5);
        };
        lemma_le_value_le_bytes(4 * v + 2, 4);
        lemma_fundamental_div_mod_converse(4 * v as int + 2, 4, v as int, 2);
        assert(b.skip(4) =~= rest);
    } else {
        let ell = byte_len(v);
        assert(ell >= 4) by {
            if ell < 4 {
                lemma_byte_len_bound(v);
                lemma_pow256_mono(ell, 3);
                assert(pow256(3) == 0x100_0000) by {
                    reveal_with_fuel(pow256, 4);
                };
            }
        };
        let tagged = 4 * (ell - 4) + 3;
        assert(tagged <= 255);
        assert(b[0] == tagged as u8);
        assert(tagged % 4 == 3) by {
            lemma_mod_multiples_vanish(ell - 4, 3, 4);
            lemma_small_mod(3, 4);
        };
        lemma_fundamental_div_mod_converse(tagged, 4, ell - 4, 3);
        lemma_le_bytes_len(v, ell);
        assert(b.len() >= 1 + ell);
        assert(b.subrange(1, 1 + ell as int) =~= le_bytes(v, ell));
        lemma_byte_len_bound(v);
        lemma_le_value_le_bytes(v, ell);
        assert(b.skip(1 + ell as int) =~= rest);
    }
}

/// Appending one byte raises the value by that byte at the next weight.
pub proof fn lemma_le_value_snoc(b: Seq<u8>, x: u8)
    ensures
        le_value(b.push(x)) == le_value(b) + x * pow256(b.len()),
    decreases b.len(),
{
    if b.len() == 0 {
        reveal_with_fuel(le_value, 3);
        assert(pow256(0) == 1);
        assert(b.push(x) =~= seq![x]);
        assert(seq![x].skip(1) =~= Seq::<u8>::empty());
        assert(x * 1 == x) by (nonlinear_arith);
    } else {
        assert(b.push(x).skip(1) =~= b.skip(1).push(x));
        lemma_le_value_snoc(b.skip(1), x);
        assert(b.push(x)[0] == b[0]);
        assert(256 * (x * pow256((b.len() - 1) as nat)) == x * (256 * pow256(
            (b.len() - 1) as nat,
        ))) by (nonlinear_arith);
        assert(pow256(b.len()) == 256 * pow256((b.len() - 1) as nat));
    }
}

/// Every byte string is the fixed-width encoding of its own value.
pub proof fn lemma_le_bytes_exact(b: Seq<u8>)
    ensures
        le_bytes(le_value(b), b.len()) == b,
    decreases b.len(),
{
    if b.len() > 0 {
        let w = le_value(b.skip(1));
        lemma_fundamental_div_mod_converse(le_value(b) as int, 256, w as int, b[0] as int);
        lemma_le_bytes_exact(b.skip(1));
        assert(le_bytes(le_value(b), b.len()) =~= b);
    } else {
        assert(le_bytes(le_value(b), 0) =~= b);
    }
}

/// A value below the shorter width keeps its bytes under zero padding.
pub proof fn lemma_le_bytes_extend(v: nat, m1: nat, m2: nat)
    requires
        v < pow256(m1),
        m1 <= m2,
    ensures
        le_bytes(v, m2) == le_bytes(v, m1) + le_bytes(0, (m2 - m1) as nat),
    decreases m1,
{
    lemma_le_bytes_len(v, m1);
    lemma_le_bytes_len(v, m2);
    lemma_le_bytes_len(0, (m2 - m1) as nat);
    if m1 == 0 {
        assert(v == 0);
        assert(le_bytes(v, m2) =~= le_bytes(v, m1) + le_bytes(0, (m2 - m1) as nat));
    } else {
        assert(v / 256 < pow256((m1 - 1) as nat)) by {
            lemma_fundamental_div_mod(v as int, 256);
        };
        lemma_le_bytes_extend(v / 256, (m1 - 1) as nat, (m2 - 1) as nat);
        if m2 > m1 {
            assert(le_bytes(0, (m2 - m1) as nat)[0] == 0);
        }
        assert(le_bytes(v, m2) =~= le_bytes(v, m1) + le_bytes(0, (m2 - m1) as nat));
    }
}

/// The zero magnitude encodes as zero bytes at any width.
pub proof fn lemma_le_bytes_zero(k: nat)
    ensures
        le_bytes(0, k) =~= Seq::new(k, |i: int| 0u8),
    decreases k,
{
    if k > 0 {
        lemma_le_bytes_zero((k - 1) as nat);
        lemma_le_bytes_len(0, k);
        assert(le_bytes(0, k) =~= Seq::new(k, |i: int| 0u8));
    }
}

/// The last byte of a string brackets which slice of the range its value
/// lies in.
pub proof fn lemma_le_value_top_byte(b: Seq<u8>)
    requires
        b.len() >= 1,
    ensures
        le_value(b) >= b[b.len() - 1] as nat * pow256((b.len() - 1) as nat),
        le_value(b) < (b[b.len() - 1] as nat + 1) * pow256((b.len() - 1) as nat),
{
    let front = b.drop_last();
    let x = b[b.len() - 1];
    assert(front.push(x) =~= b);
    lemma_le_value_snoc(front, x);
    lemma_le_value_bound(front);
    assert((x as nat + 1) * pow256(front.len()) == x as nat * pow256(front.len()) + pow256(
        front.len(),
    )) by (nonlinear_arith);
}

/// The 32 little-endian bytes of the two's complement of a nonzero
/// 32-byte magnitude.
pub fn twos_complement32(b: &Vec<u8>) -> (r: Vec<u8>)
    requires
        b@.len() == 32,
        le_value(b@) > 0,
    ensures
        r@.len() == 32,
        le_value(r@) == pow256(32) - le_value(b@),
{
    let mut out: Vec<u8> = Vec::new();
    let mut carry: u8 = 1;
    let mut i: usize = 0;
    while i < 32
        invariant
            i <= 32,
            b@.len() == 32,
            out@.len() == i,
            carry <= 1,
            le_value(out@) + (carry as nat) * pow256(i as nat) == pow256(i as nat) - le_value(
                b@.take(i as int),
            ),
            le_value(b@.take(i as int)) <= pow256(i as nat) - 1,
        decreases 32 - i,
    {
        let ghost p = pow256(i as nat);
        let ghost vout = le_value(out@);
        let ghost vtake = le_value(b@.take(i as int));
        let t: u16 = (255 - b[i]) as u16 + carry as u16;
        let digit: u8 = (t % 256) as u8;
        let newcarry: u8 = (t / 256) as u8;
        proof {
            lemma_le_value_snoc(out@, digit);
            assert(b@.take(i as int).push(b@[i as int]) =~= b@.take(i as int + 1));
            lemma_le_value_snoc(b@.take(i as int), b@[i as int]);
            assert(255 - b@[i as int] + carry == 256 * newcarry + digit);
            assert(digit as nat * p + newcarry as nat * pow256(i as nat + 1) == (255
                - b@[i as int] + carry) * p) by (nonlinear_arith)
                requires
                    p == pow256(i as nat),
                    pow256(i as nat + 1) == 256 * p,
                    255 - b@[i as int] + carry == 256 * newcarry + digit,
            ;
            assert((255 - b@[i as int] + carry) as int * p == 255 * p - b@[i as int] * p + carry
                * p) by (nonlinear_arith);
            assert(pow256(i as nat + 1) == 256 * p);
            lemma_le_value_bound(b@.take(i as int + 1));
        }
        out.push(digit);
        carry = newcarry;
        i += 1;
    }
    proof {
        assert(b@.take(32) =~= b@);
        lemma_le_value_bound(out@);
        if carry == 1 {
            assert(false);
        }
    }
    out
}

/// Zero-extend a magnitude to a fixed width.
pub fn pad_to(mag: Vec<u8>, width: usize) -> (r: Vec<u8>)
    requires
        mag@.len() <= width,
    ensures
        r@.len() == width,
        r@ == le_bytes(le_value(mag@), width as nat),
        le_value(r@) == le_value(mag@),
{
    let ghost v = le_value(mag@);
    let ghost base = mag@.len();
    proof {
        lemma_le_value_bound(mag@);
        lemma_le_bytes_exact(mag@);
        lemma_le_bytes_extend(v, base, width as nat);
        lemma_le_bytes_zero((width - base) as nat);
        lemma_le_bytes_len(v, width as nat);
    }
    let mut r = mag;
    while r.len() < width
        invariant
            base <= r@.len() <= width,
            r@.take(base as int) == le_bytes(v, base),
            forall|k: int| base <= k < r@.len() ==> r@[k] == 0u8,
        decreases width - r@.len(),
    {
        r.push(0);
        proof {
            assert(r@.take(base as int) =~= r@.drop_last().take(base as int));
        }
    }
    proof {
        assert(r@ =~= le_bytes(v, base) + le_bytes(0, (width - base) as nat));
        lemma_pow256_mono(base, width as nat);
        lemma_le_value_le_bytes(v, width as nat);
    }
    r
}

/// The number of bytes in the shortest little-endian encoding of `v`.
pub fn byte_len_u64(v: u64) -> (n: usize)
    ensures
        n == byte_len(v as nat),
        n <= 8,
    decreases v,
{
    proof {
        assert(pow256(8) == 0x1_0000_0000_0000_0000) by {
            reveal_with_fuel(pow256, 9);
        };
        lemma_byte_len_le(v as nat, 8);
    }
    if v == 0 {
        0
    } else {
        1 + byte_len_u64(v / 256)
    }
}

/// The `n` little-endian bytes of `v`.
pub fn le_bytes_u128(v: u128, n: usize) -> (r: Vec<u8>)
    ensures
        r@ == le_bytes(v as nat, n as nat),
    decreases n,
{
    if n == 0 {
        let r: Vec<u8> = Vec::new();
        proof {
            assert(r@ =~= le_bytes(v as nat, 0));
        }
        r
    } else {
        let mut r: Vec<u8> = Vec::new();
        r.push((v % 256) as u8);
        let mut tail = le_bytes_u128(v / 256, n - 1);
        r.append(&mut tail);
        proof {
            assert(r@ =~= seq![((v as nat) % 256) as u8] + le_bytes((v as nat) / 256, (n - 1) as nat));
        }
        r
    }
}

fn le_value_from(b: &Vec<u8>, i: usize) -> (r: u64)
    requires
        i <= b@.len(),
        b@.len() - i <= 8,
    ensures
        r as nat == le_value(b@.skip(i as int)),
    decreases b@.len() - i,
{
    if i == b.len() {
        proof {
            assert(b@.skip(i as int) =~= Seq::<u8>::empty());
        }
        0
    } else {
        let rest = le_value_from(b, i + 1);
        proof {
            lemma_le_value_bound(b@.skip(i as int + 1));
            lemma_pow256_mono(b@.skip(i as int + 1).len() as nat, 7);
            assert(pow256(7) == 0x100_0000_0000_0000) by {
                reveal_with_fuel(pow256, 8);
            };
            assert(b@.skip(i as int)[0] == b@[i as int]);
            assert(b@.skip(i as int).skip(1) =~= b@.skip(i as int + 1));
        }
        b[i] as u64 + 256 * rest
    }
}

/// The value of a short little-endian byte string.
pub fn le_value_u64(b: &Vec<u8>) -> (r: u64)
    requires
        b@.len() <= 8,
    ensures
        r as nat == le_value(b@),
{
    proof {
        assert(b@.skip(0) =~= b@);
    }
    le_value_from(b, 0)
}

/// The shortest little-endian encoding of `v`.
pub fn magnitude_bytes_u64(v: u64) -> (r: Vec<u8>)
    ensures
        r@ == le_bytes(v as nat, byte_len(v as nat)),
        minimal_le(r@),
        le_value(r@) == v as nat,
        r@.len() == byte_len(v as nat),
{
    let n = byte_len_u64(v);
    proof {
        lemma_le_bytes_minimal(v as nat);
        lemma_le_bytes_len(v as nat, byte_len(v as nat));
    }
    le_bytes_u128(v as u128, n)
}

/// The number of bytes in the shortest little-endian encoding of `v`.
pub fn byte_len_u128(v: u128) -> (n: usize)
    ensures
        n == byte_len(v as nat),
        n <= 16,
    decreases v,
{
    proof {
        assert(pow256(16) == 0x1_0000_0000_0000_0000_0000_0000_0000_0000) by {
            reveal_with_fuel(pow256, 17);
        };
        lemma_byte_len_le(v as nat, 16);
    }
    if v == 0 {
        0
    } else {
        1 + byte_len_u128(v / 256)
    }
}

/// The shortest little-endian encoding of a wide magnitude.
pub fn magnitude_bytes_u128(v: u128) -> (r: Vec<u8>)
    ensures
        r@ == le_bytes(v as nat, byte_len(v as nat)),
        minimal_le(r@),
        le_value(r@) == v as nat,
        r@.len() == byte_len(v as nat),
{
    let n = byte_len_u128(v);
    proof {
        lemma_le_bytes_minimal(v as nat);
        lemma_le_bytes_len(v as nat, byte_len(v as nat));
    }
    le_bytes_u128(v, n)
}

/// Compact-encode a magnitude that fits in a machine word.
pub fn encode_compact(v: u64) -> (r: Vec<u8>)
    ensures
        r@ == spec_encode_compact(v as nat),
{
    if v <= 0x3f {
        let mut r: Vec<u8> = Vec::new();
        r.push((v * 4) as u8);
        proof {
            assert(r@ =~= seq![(4 * (v as nat)) as u8]);
        }
        r
    } else if v <= 0x3fff {
        le_bytes_u128(v as u128 * 4 + 1, 2)
    } else if v <= 0x3fff_ffff {
        le_bytes_u128(v as u128 * 4 + 2, 4)
    } else {
        let n = byte_len_u64(v);
        proof {
            assert(n >= 4) by {
                if byte_len(v as nat) < 4 {
                    lemma_byte_len_bound(v as nat);
                    lemma_pow256_mono(byte_len(v as nat), 3);
                    assert(pow256(3) == 0x100_0000) by {
                        reveal_with_fuel(pow256, 4);
                    };
                }
            };
        }
        let mut r: Vec<u8> = Vec::new();
        r.push(((n - 4) * 4 + 3) as u8);
        let mut tail = le_bytes_u128(v as u128, n);
        r.append(&mut tail);
        proof {
            assert(r@ =~= seq![(4 * (byte_len(v as nat) - 4) + 3) as u8] + le_bytes(
                v as nat,
                byte_len(v as nat),
            ));
        }
        r
    }
}

/// Compact-encode a magnitude given as a minimal little-endian byte string.
pub fn encode_compact_magnitude(mag: &Vec<u8>) -> (r: Vec<u8>)
    requires
        minimal_le(mag@),
        mag@.len() <= 67,
    ensures
        r@ == spec_encode_compact(le_value(mag@)),
{
    proof {
        lemma_minimal_le(mag@);
    }
    if mag.len() <= 8 {
        proof {
            lemma_le_value_bound(mag@);
            lemma_pow256_mono(mag@.len() as nat, 8);
            assert(pow256(8) == 0x1_0000_0000_0000_0000) by {
                reveal_with_fuel(pow256, 9);
            };
        }
        let v = le_value_u64(mag);
        encode_compact(v)
    } else {
        let ghost v = le_value(mag@);
        proof {
            lemma_byte_len_lower(v);
            lemma_pow256_mono(8, (byte_len(v) - 1) as nat);
            assert(pow256(8) == 0x1_0000_0000_0000_0000) by {
                reveal_with_fuel(pow256, 9);
            };
        }
        let mut r: Vec<u8> = Vec::new();
        r.push(((mag.len() - 4) * 4 + 3) as u8);
        let mut j: usize = 0;
        while j < mag.len()
            invariant
                j <= mag@.len(),
                mag@.len() <= 67,
                r@.len() == 1 + j,
                r@[0] == ((mag@.len() - 4) * 4 + 3) as u8,
                r@.skip(1) =~= mag@.take(j as int),
            decreases mag@.len() - j,
        {
            r.push(mag[j]);
            j += 1;
        }
        proof {
            assert(mag@.take(mag@.len() as int) =~= mag@);
            assert(r@ =~= seq![(4 * (byte_len(v) - 4) + 3) as u8] + le_bytes(v, byte_len(v)));
        }
        r
    }
}

/// Compact-decode at position `pos`: the magnitude (as a minimal
/// little-endian byte string) and the position just past the encoding.
pub fn decode_compact(b: &Vec<u8>, pos: usize) -> (r: Option<(Vec<u8>, usize)>)
    requires
        pos <= b@.len(),
    ensures
        r is None ==> spec_decode_compact(b@.skip(pos as int)) is None,
        (r matches Some(p) ==> {
            &&& spec_decode_compact(b@.skip(pos as int)) matches Some(q)
            &&& minimal_le(p.0@)
            &&& le_value(p.0@) == q.0
            &&& pos < p.1 <= b@.len()
            &&& b@.skip(p.1 as int) == q.1
        }),
{
    let ghost s = b@.skip(pos as int);
    if pos == b.len() {
        proof {
            assert(s.len() == 0);
        }
        return None;
    }
    let x = b[pos];
    proof {
        assert(s[0] == x);
    }
    let tag = x % 4;
    if tag == 0 {
        let mag = magnitude_bytes_u64((x / 4) as u64);
        proof {
            assert(s.skip(1) =~= b@.skip(pos as int + 1));
        }
        Some((mag, pos + 1))
    } else if tag == 1 {
        if b.len() - pos < 2 {
            return None;
        }
        let v: u64 = x as u64 + 256 * (b[pos + 1] as u64);
        proof {
            reveal_with_fuel(le_value, 3);
            assert(s.take(2) =~= seq![b@[pos as int], b@[pos as int + 1]]);
            assert(s.take(2).skip(1) =~= seq![b@[pos as int + 1]]);
            assert(seq![b@[pos as int + 1]].skip(1) =~= Seq::<u8>::empty());
            assert(le_value(s.take(2)) == v as nat);
            assert(s.skip(2) =~= b@.skip(pos as int + 2));
        }
        let mag = magnitude_bytes_u64(v / 4);
        Some((mag, pos + 2))
    } else if tag == 2 {
        if b.len() - pos < 4 {
            return None;
        }
        let v: u64 = x as u64 + 256 * (b[pos + 1] as u64) + 0x1_0000 * (b[pos + 2] as u64)
            + 0x100_0000 * (b[pos + 3] as u64);
        proof {
            reveal_with_fuel(le_value, 5);
            let t = s.take(4);
            assert(t =~= seq![b@[pos as int], b@[pos as int + 1], b@[pos as int + 2], b@[pos as int + 3]]);
            assert(t.skip(1) =~= seq![b@[pos as int + 1], b@[pos as int + 2], b@[pos as int + 3]]);
            assert(t.skip(1).skip(1) =~= seq![b@[pos as int + 2], b@[pos as int + 3]]);
            assert(t.skip(1).skip(1).skip(1) =~= seq![b@[pos as int + 3]]);
            assert(t.skip(1).skip(1).skip(1).skip(1) =~= Seq::<u8>::empty());
            assert(le_value(t) == v as nat);
            assert(s.skip(4) =~= b@.skip(pos as int + 4));
        }
        let mag = magnitude_bytes_u64(v / 4);
        Some((mag, pos + 4))
    } else {
        let n = (x / 4) as usize + 4;
        if b.len() - pos < 1 + n {
            return None;
        }
        let ghost raw = s.subrange(1, 1 + n as int);
        let mut mag: Vec<u8> = Vec::new();
        let mut j: usize = 0;
        while j < n
            invariant
                j <= n,
                pos + 1 + n <= b@.len(),
                b@.len() <= usize::MAX,
                mag@ =~= b@.subrange(pos as int + 1, pos as int + 1 + j),
            decreases n - j,
        {
            mag.push(b[pos + 1 + j]);
            j += 1;
        }
        proof {
            assert(mag@ =~= raw);
        }
        while mag.len() > 0 && mag[mag.len() - 1] == 0
            invariant
                le_value(mag@) == le_value(raw),
            decreases mag@.len(),
        {
            proof {
                lemma_le_value_drop_zero(mag@);
                assert(mag@.take(mag@.len() - 1) =~= mag@.drop_last());
            }
            mag.pop();
        }
        proof {
            assert(minimal_le(mag@));
            assert(s.skip(1 + n as int) =~= b@.skip(pos as int + 1 + n));
        }
        Some((mag, pos + 1 + n))
    }
}

} // verus!
