//! Little-endian field primitives for the binary library format.
//!
//! The byte order of every stored field is fixed: least-significant
//! byte first.  The reading and writing of raw machine integers is done
//! by the `byteorder` crate behind trusted wrappers; the meaning of a
//! field is stated by the spec functions here, and the round trip of a
//! value through its byte image is proved below.

use vstd::prelude::*;
use byteorder::ByteOrder;

verus! {

/// The little-endian byte image of `v`, `n` bytes long (`v` reduced
/// modulo 256^n).
pub open spec fn le_bytes(v: int, n: nat) -> Seq<u8>
    decreases n,
{
    if n == 0 {
        Seq::empty()
    } else {
        seq![(v % 256) as u8].add(le_bytes(v / 256, (n - 1) as nat))
    }
}

/// The value of a little-endian byte sequence.
pub open spec fn de_bytes(s: Seq<u8>) -> int
    decreases s.len(),
{
    if s.len() == 0 {
        0
    } else {
        s[0] + 256 * de_bytes(s.drop_first())
    }
}

/// The `i64` read from the two's-complement image `u` (`0 <= u < 2^64`).
pub open spec fn from_unsigned64(u: int) -> int {
    if u >= 0x8000000000000000 {
        u - 0x10000000000000000
    } else {
        u
    }
}

/// The two's-complement image of an `i64` value.
pub open spec fn to_unsigned64(v: int) -> int {
    if v < 0 {
        v + 0x10000000000000000
    } else {
        v
    }
}

pub proof fn lemma_le_bytes_len(v: int, n: nat)
    ensures
        le_bytes(v, n).len() == n,
    decreases n,
{
    if n > 0 {
        lemma_le_bytes_len(v / 256, (n - 1) as nat);
    }
}

/// Reading back the byte image of a value in range reproduces the value.
pub proof fn lemma_le_roundtrip(v: int, n: nat)
    requires
        0 <= v < vstd::arithmetic::power::pow(256, n),
    ensures
        de_bytes(le_bytes(v, n)) == v,
        le_bytes(v, n).len() == n,
    decreases n,
{
    lemma_le_bytes_len(v, n);
    reveal_with_fuel(vstd::arithmetic::power::pow, 2);
    if n == 0 {
        assert(vstd::arithmetic::power::pow(256, 0) == 1);
    } else {
        assert(vstd::arithmetic::power::pow(256, n) == 256 * vstd::arithmetic::power::pow(
            256, (n - 1) as nat));
        vstd::arithmetic::div_mod::lemma_multiply_divide_lt(
            v, 256, vstd::arithmetic::power::pow(256, (n - 1) as nat));
        vstd::arithmetic::div_mod::lemma_div_pos_is_pos(v, 256);
        lemma_le_roundtrip(v / 256, (n - 1) as nat);
        let s = le_bytes(v, n);
        assert(s.drop_first() =~= le_bytes(v / 256, (n - 1) as nat));
        vstd::arithmetic::div_mod::lemma_fundamental_div_mod(v, 256);
    }
}

pub proof fn lemma_pow256_values()
    ensures
        vstd::arithmetic::power::pow(256, 4) == 0x100000000,
        vstd::arithmetic::power::pow(256, 8) == 0x10000000000000000,
{
    reveal_with_fuel(vstd::arithmetic::power::pow, 2);
    assert(vstd::arithmetic::power::pow(256, 0) == 1) by {
        vstd::arithmetic::power::lemma_pow0(256);
    }
    assert(vstd::arithmetic::power::pow(256, 1) == 256 * vstd::arithmetic::power::pow(256, 0));
    assert(vstd::arithmetic::power::pow(256, 2) == 256 * vstd::arithmetic::power::pow(256, 1));
    assert(vstd::arithmetic::power::pow(256, 3) == 256 * vstd::arithmetic::power::pow(256, 2));
    assert(vstd::arithmetic::power::pow(256, 4) == 256 * vstd::arithmetic::power::pow(256, 3));
    assert(vstd::arithmetic::power::pow(256, 5) == 256 * vstd::arithmetic::power::pow(256, 4));
    assert(vstd::arithmetic::power::pow(256, 6) == 256 * vstd::arithmetic::power::pow(256, 5));
    assert(vstd::arithmetic::power::pow(256, 7) == 256 * vstd::arithmetic::power::pow(256, 6));
    assert(vstd::arithmetic::power::pow(256, 8) == 256 * vstd::arithmetic::power::pow(256, 7));
}

/// A byte sequence's value is nonnegative and below 256^length.
pub proof fn lemma_de_bytes_bound(s: Seq<u8>)
    ensures
        0 <= de_bytes(s) < vstd::arithmetic::power::pow(256, s.len()),
    decreases s.len(),
{
    reveal_with_fuel(vstd::arithmetic::power::pow, 2);
    if s.len() > 0 {
        lemma_de_bytes_bound(s.drop_first());
    }
}

/// `u32` round trip through its 4-byte little-endian image.
pub proof fn lemma_u32_roundtrip(v: int)
    requires
        0 <= v < 0x100000000,
    ensures
        de_bytes(le_bytes(v, 4)) == v,
        le_bytes(v, 4).len() == 4,
{
    lemma_pow256_values();
    lemma_le_roundtrip(v, 4);
}

/// `i64` round trip through its 8-byte two's-complement image.
pub proof fn lemma_i64_roundtrip(v: int)
    requires
        i64::MIN as int <= v <= i64::MAX as int,
    ensures
        de_bytes(le_bytes(to_unsigned64(v), 8)) == to_unsigned64(v),
        from_unsigned64(to_unsigned64(v)) == v,
        le_bytes(to_unsigned64(v), 8).len() == 8,
{
    lemma_pow256_values();
    lemma_le_roundtrip(to_unsigned64(v), 8);
}

/// Relies on byteorder's `LittleEndian::read_u32`: the value of the four
/// bytes at `off`, least-significant first.
#[verifier::external_body]
pub fn read_u32(b: &Vec<u8>, off: usize) -> (r: u32)
    requires
        off + 4 <= b@.len(),
    ensures
        r as int == de_bytes(b@.subrange(off as int, off as int + 4)),
{
    byteorder::LittleEndian::read_u32(&b[off..off + 4])
}

/// Relies on byteorder's `LittleEndian::read_i64`: the value of the
/// eight bytes at `off`, least-significant first, two's complement.
#[verifier::external_body]
pub fn read_i64(b: &Vec<u8>, off: usize) -> (r: i64)
    requires
        off + 8 <= b@.len(),
    ensures
        r as int == from_unsigned64(de_bytes(b@.subrange(off as int, off as int + 8))),
{
    byteorder::LittleEndian::read_i64(&b[off..off + 8])
}

/// Relies on byteorder's `LittleEndian::write_u32`: appends the 4-byte
/// little-endian image of `v`.
#[verifier::external_body]
pub fn push_u32(out: &mut Vec<u8>, v: u32)
    ensures
        final(out)@ == old(out)@ + le_bytes(v as int, 4),
{
    let mut tmp = [0u8; 4];
    byteorder::LittleEndian::write_u32(&mut tmp, v);
    out.extend_from_slice(&tmp);
}

/// Relies on byteorder's `LittleEndian::write_i64`: appends the 8-byte
/// little-endian two's-complement image of `v`.
#[verifier::external_body]
pub fn push_i64(out: &mut Vec<u8>, v: i64)
    ensures
        final(out)@ == old(out)@ + le_bytes(to_unsigned64(v as int), 8),
{
    let mut tmp = [0u8; 8];
    byteorder::LittleEndian::write_i64(&mut tmp, v);
    out.extend_from_slice(&tmp);
}

} // verus!
