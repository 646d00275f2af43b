//! Integer encodings of the file format: varints and big-endian
//! two's-complement integers.

use vstd::prelude::*;
use crate::error::StorageError;

verus! {

/// `256^n`.
pub open spec fn pow256(n: nat) -> nat
    decreases n,
{
    if n == 0 { 1 } else { 256 * pow256((n - 1) as nat) }
}

/// `128^n`.
pub open spec fn pow128(n: nat) -> nat
    decreases n,
{
    if n == 0 { 1 } else { 128 * pow128((n - 1) as nat) }
}

/// The 64-bit two's-complement reading of an unsigned 64-bit value.
pub open spec fn as_signed64(v: nat) -> int {
    if v < 0x8000_0000_0000_0000 { v as int } else { v - 0x1_0000_0000_0000_0000 }
}

/// The first `n` bytes of `s`, big-endian, 7 payload bits (the low ones) each.
pub open spec fn be7(s: Seq<u8>, n: nat) -> nat
    decreases n,
{
    if n == 0 { 0 } else { be7(s, (n - 1) as nat) * 128 + (s[n - 1] % 128) as nat }
}

/// Number of bytes of the varint that starts `s`, looking from byte `i` on,
/// when all bytes before `i` have their top bit set.
pub open spec fn varint_len_from(s: Seq<u8>, i: nat) -> Option<nat>
    decreases 8 - i,
{
    if i >= 8 {
        if s.len() > 8 { Some(9) } else { None }
    } else if i >= s.len() {
        None
    } else if s[i as int] < 128 {
        Some(i + 1)
    } else {
        varint_len_from(s, i + 1)
    }
}

/// Number of bytes of the varint at the start of `s`: the first byte whose
/// top bit is clear ends it, and the ninth byte ends it in any case.
/// `None` when `s` ends first.
pub open spec fn varint_len(s: Seq<u8>) -> Option<nat> {
    varint_len_from(s, 0)
}

/// Unsigned value of a varint of `len` bytes at the start of `s`: seven bits
/// from each of the first eight bytes, all eight bits of a ninth.
pub open spec fn varint_value(s: Seq<u8>, len: nat) -> nat {
    if len == 9 { be7(s, 8) * 256 + s[8] as nat } else { be7(s, len) }
}

/// A decoded varint: its value, read as a 64-bit two's-complement integer,
/// and the number of bytes it takes.
pub open spec fn varint_spec(s: Seq<u8>) -> Option<(i64, usize)> {
    match varint_len(s) {
        Some(n) => Some((as_signed64(varint_value(s, n)) as i64, n as usize)),
        None => None,
    }
}

proof fn lemma_be7_bound(s: Seq<u8>, n: nat)
    ensures
        be7(s, n) < pow128(n),
    decreases n,
{
    if n > 0 {
        lemma_be7_bound(s, (n - 1) as nat);
        let p = pow128((n - 1) as nat);
        let b = be7(s, (n - 1) as nat);
        let x = (s[n - 1] % 128) as nat;
        assert(b * 128 + x < p * 128) by (nonlinear_arith)
            requires
                b < p,
                x < 128,
        ;
    }
}

proof fn lemma_be7_prefix(s: Seq<u8>, t: Seq<u8>, n: nat)
    requires
        n <= s.len(),
        n <= t.len(),
        s.subrange(0, n as int) == t.subrange(0, n as int),
    ensures
        be7(s, n) == be7(t, n),
    decreases n,
{
    if n > 0 {
        assert(s[n - 1] == s.subrange(0, n as int)[n - 1]);
        assert(t[n - 1] == t.subrange(0, n as int)[n - 1]);
        assert(s.subrange(0, n - 1) == s.subrange(0, n as int).subrange(0, n - 1));
        assert(t.subrange(0, n - 1) == t.subrange(0, n as int).subrange(0, n - 1));
        lemma_be7_prefix(s, t, (n - 1) as nat);
    }
}

/// Reads a 64-bit value as two's complement (wrapping, as `u64::cast_signed`).
pub fn cast_signed(v: u64) -> (r: i64)
    ensures
        r == as_signed64(v as nat),
{
    if v <= 0x7fff_ffff_ffff_ffff {
        v as i64
    } else {
        let low: u64 = v - 0x8000_0000_0000_0000;
        (low as i64) + i64::MIN
    }
}

/// Decodes the varint at the start of `buf`: its value and the number of
/// bytes it takes. Bytes after it are ignored.
pub fn varint(buf: &[u8]) -> (r: Result<(i64, usize), StorageError>)
    ensures
        match varint_spec(buf@) {
            Some(p) => r == Ok::<(i64, usize), StorageError>(p),
            None => r matches Err(StorageError::TruncatedVarint),
        },
{
    let mut value: u64 = 0;
    let mut i: usize = 0;
    while i < 8
        invariant
            i <= 8,
            i <= buf@.len(),
            value == be7(buf@, i as nat),
            varint_len(buf@) == varint_len_from(buf@, i as nat),
        decreases 8 - i,
    {
        if i >= buf.len() {
            return Err(StorageError::TruncatedVarint);
        }
        let byte = buf[i];
        proof {
            lemma_be7_bound(buf@, i as nat);
            assert(pow128(i as nat) <= pow128(7)) by {
                lemma_pow128_mono(i as nat, 7);
            }
            reveal_with_fuel(pow128, 8);
            assert(pow128(7) == 0x2_0000_0000_0000);
        }
        value = value * 128 + (byte % 128) as u64;
        i = i + 1;
        if byte < 128 {
            proof {
                assert(varint_value(buf@, i as nat) == value);
            }
            return Ok((cast_signed(value), i));
        }
    }
    if buf.len() <= 8 {
        return Err(StorageError::TruncatedVarint);
    }
    proof {
        lemma_be7_bound(buf@, 8);
        reveal_with_fuel(pow128, 9);
        assert(pow128(8) == 0x100_0000_0000_0000);
    }
    value = value * 256 + buf[8] as u64;
    Ok((cast_signed(value), 9))
}

proof fn lemma_pow128_mono(a: nat, b: nat)
    requires
        a <= b,
    ensures
        pow128(a) <= pow128(b),
    decreases b,
{
    if a < b {
        lemma_pow128_mono(a, (b - 1) as nat);
    }
}


/// The bytes of `s`, big-endian, as an unsigned number.
pub open spec fn be256(s: Seq<u8>) -> nat
    decreases s.len(),
{
    if s.len() == 0 { 0 } else { be256(s.drop_last()) * 256 + s.last() as nat }
}

/// The bytes of `s`, big-endian, as a two's-complement number of `8 * s.len()` bits.
pub open spec fn int_be_spec(s: Seq<u8>) -> int {
    let raw = be256(s);
    if raw * 2 >= pow256(s.len()) { raw - pow256(s.len()) } else { raw as int }
}

pub proof fn lemma_be256_bound(s: Seq<u8>)
    ensures
        be256(s) < pow256(s.len()),
    decreases s.len(),
{
    if s.len() > 0 {
        lemma_be256_bound(s.drop_last());
        let p = pow256(s.drop_last().len());
        let b = be256(s.drop_last());
        let x = s.last() as nat;
        assert(b * 256 + x < p * 256) by (nonlinear_arith)
            requires
                b < p,
                x < 256,
        ;
    }
}

pub proof fn lemma_pow256_mono(a: nat, b: nat)
    requires
        a <= b,
    ensures
        pow256(a) <= pow256(b),
    decreases b,
{
    if a < b {
        lemma_pow256_mono(a, (b - 1) as nat);
    }
}

fn pow256_exec(n: usize) -> (r: u64)
    requires
        n <= 7,
    ensures
        r == pow256(n as nat),
{
    let mut r: u64 = 1;
    let mut i: usize = 0;
    while i < n
        invariant
            i <= n <= 7,
            r == pow256(i as nat),
        decreases n - i,
    {
        proof {
            lemma_pow256_mono(i as nat, 6);
            reveal_with_fuel(pow256, 7);
        }
        r = r * 256;
        i = i + 1;
    }
    r
}

/// Reads a big-endian two's-complement integer of 1 to 8 bytes,
/// sign-extended to `i64`.
pub fn int_be(bytes: &[u8]) -> (r: Result<i64, StorageError>)
    requires
        1 <= bytes@.len() <= 8,
    ensures
        r == Ok::<i64, StorageError>(int_be_spec(bytes@) as i64),
        i64::MIN <= int_be_spec(bytes@) <= i64::MAX,
{
    let n = bytes.len();
    let mut raw: u64 = 0;
    let mut i: usize = 0;
    while i < n
        invariant
            i <= n == bytes@.len() <= 8,
            raw == be256(bytes@.subrange(0, i as int)),
        decreases n - i,
    {
        proof {
            let pre = bytes@.subrange(0, i as int);
            lemma_be256_bound(pre);
            lemma_pow256_mono(i as nat, 7);
            reveal_with_fuel(pow256, 8);
            assert(bytes@.subrange(0, i + 1).drop_last() == pre);
        }
        raw = raw * 256 + bytes[i] as u64;
        i = i + 1;
    }
    proof {
        assert(bytes@.subrange(0, n as int) == bytes@);
        lemma_be256_bound(bytes@);
        reveal_with_fuel(pow256, 9);
    }
    if n == 8 {
        Ok(cast_signed(raw))
    } else {
        let full = pow256_exec(n);
        proof {
            lemma_pow256_mono(n as nat, 7);
            reveal_with_fuel(pow256, 8);
        }
        if raw * 2 >= full {
            Ok((raw as i64) - (full as i64))
        } else {
            Ok(raw as i64)
        }
    }
}

/// Converts a number read from the file to a `usize`, or names it in an
/// `OutOfRange` error when it is negative or too large.
pub fn to_usize(value: i64, what: &'static str) -> (r: Result<usize, StorageError>)
    ensures
        0 <= value <= usize::MAX ==> r == Ok::<usize, StorageError>(value as usize),
        !(0 <= value <= usize::MAX) ==> r == Err::<usize, StorageError>(
            StorageError::OutOfRange { what, value },
        ),
{
    if value < 0 || value as u64 > usize::MAX as u64 {
        Err(StorageError::OutOfRange { what, value })
    } else {
        Ok(value as usize)
    }
}


/// The unsigned 64-bit reading of a two's-complement value.
pub open spec fn as_unsigned64(v: int) -> nat {
    if v >= 0 { v as nat } else { (v + 0x1_0000_0000_0000_0000) as nat }
}

/// Reads a two's-complement value as unsigned (as `i64::cast_unsigned`).
pub fn cast_unsigned(v: i64) -> (r: u64)
    ensures
        r == as_unsigned64(v as int),
{
    if v >= 0 {
        v as u64
    } else {
        let low: i64 = v - i64::MIN;
        (low as u64) + 0x8000_0000_0000_0000
    }
}

pub proof fn lemma_varint_len_from_bounds(s: Seq<u8>, i: nat)
    requires
        i <= 8,
    ensures
        varint_len_from(s, i) matches Some(n) ==> i < n <= 9 && n <= s.len(),
    decreases 8 - i,
{
    if i < 8 && i < s.len() && s[i as int] >= 128 {
        lemma_varint_len_from_bounds(s, i + 1);
    }
}

/// A varint takes between one and nine bytes, all of them inside the buffer.
pub proof fn lemma_varint_bounds(s: Seq<u8>)
    ensures
        varint_spec(s) matches Some((_, n)) ==> 1 <= n <= 9 && n <= s.len(),
{
    lemma_varint_len_from_bounds(s, 0);
}


proof fn lemma_varint_len_from_extend(s: Seq<u8>, t: Seq<u8>, i: nat)
    requires
        i <= 8,
        varint_len_from(s, i) is Some,
    ensures
        varint_len_from(s + t, i) == varint_len_from(s, i),
    decreases 8 - i,
{
    if i < 8 && i < s.len() && s[i as int] >= 128 {
        assert((s + t)[i as int] == s[i as int]);
        lemma_varint_len_from_extend(s, t, i + 1);
    } else if i < 8 && i < s.len() {
        assert((s + t)[i as int] == s[i as int]);
    }
}

/// A varint reads the same whatever bytes follow it: only the bytes it
/// takes count.
pub proof fn lemma_varint_ignores_trailing(s: Seq<u8>, t: Seq<u8>)
    requires
        varint_spec(s) is Some,
    ensures
        varint_spec(s + t) == varint_spec(s),
{
    lemma_varint_len_from_extend(s, t, 0);
    lemma_varint_len_from_bounds(s, 0);
    let n = varint_len(s)->0;
    let m: nat = if n == 9 { 8 } else { n };
    assert((s + t).subrange(0, m as int) == s.subrange(0, m as int));
    lemma_be7_prefix(s + t, s, m);
    if n == 9 {
        assert((s + t)[8] == s[8]);
    }
}

proof fn lemma_be256_prepend(b: u8, s: Seq<u8>)
    ensures
        be256(seq![b] + s) == b as nat * pow256(s.len()) + be256(s),
    decreases s.len(),
{
    if s.len() > 0 {
        assert((seq![b] + s).drop_last() == seq![b] + s.drop_last());
        assert((seq![b] + s).last() == s.last());
        lemma_be256_prepend(b, s.drop_last());
        let p = pow256(s.drop_last().len());
        let r = be256(s.drop_last());
        assert(be256(seq![b] + s) == be256(seq![b] + s.drop_last()) * 256 + s.last() as nat);
        assert(be256(s) == r * 256 + s.last() as nat);
        assert(pow256(s.len()) == 256 * p);
        assert((b as nat * p + r) * 256 + s.last() as nat == b as nat * (256 * p) + (r * 256 + s.last() as nat)) by (nonlinear_arith);
        assert(be256(seq![b] + s.drop_last()) == b as nat * p + r);
        assert(b as nat * pow256(s.len()) == b as nat * (256 * p)) by (nonlinear_arith)
            requires
                pow256(s.len()) == 256 * p,
        ;
    } else {
        assert(seq![b] + s == seq![b]);
        assert(seq![b].drop_last() == Seq::<u8>::empty());
        assert(be256(seq![b]) == be256(Seq::<u8>::empty()) * 256 + b as nat);
        assert(be256(Seq::<u8>::empty()) == 0);
        assert(pow256(0) == 1);
        assert(s.len() == 0);
        assert(be256(s) == 0);
        assert(b as nat * pow256(s.len()) == b as nat) by (nonlinear_arith)
            requires
                pow256(s.len()) == 1,
        ;
    }
}

/// Sign extension: one more leading byte that repeats the sign (`0x00`
/// before a non-negative value, `0xff` before a negative one) leaves a
/// big-endian two's-complement value unchanged.
pub proof fn lemma_int_be_sign_extension(s: Seq<u8>)
    requires
        1 <= s.len(),
    ensures
        int_be_spec(seq![if s[0] >= 128 { 0xffu8 } else { 0u8 }] + s) == int_be_spec(s),
{
    let n = s.len();
    let ext: u8 = if s[0] >= 128 { 0xff } else { 0 };
    let tail = s.drop_first();
    assert(seq![s[0]] + tail == s);
    lemma_be256_prepend(s[0], tail);
    lemma_be256_prepend(ext, s);
    lemma_be256_bound(tail);
    let p = pow256(tail.len());
    let raw = be256(s);
    assert(pow256(n) == 256 * p);
    assert((seq![ext] + s).len() == n + 1);
    assert(pow256(n + 1) == 256 * pow256(n));
    let hi = s[0] as nat;
    let low = be256(tail);
    assert(raw == hi * p + low);
    if s[0] >= 128 {
        assert(raw * 2 >= 256 * p) by (nonlinear_arith)
            requires
                raw == hi * p + low,
                hi >= 128,
        ;
        assert(0xff * (256 * p) + raw - 256 * (256 * p) == raw - 256 * p) by (nonlinear_arith);
        assert((0xff * (256 * p) + raw) * 2 >= 256 * (256 * p)) by (nonlinear_arith)
            requires
                raw * 2 >= 256 * p,
        ;
    } else {
        assert(raw * 2 < 256 * p) by (nonlinear_arith)
            requires
                raw == hi * p + low,
                hi < 128,
                low < p,
        ;
        assert((0 * (256 * p) + raw) * 2 < 256 * (256 * p)) by (nonlinear_arith)
            requires
                raw * 2 < 256 * p,
        ;
    }
}

} // verus!
