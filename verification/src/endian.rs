//! Fixed-width integers as they lie in a byte buffer, in either byte order.

use byteorder::{BigEndian, ByteOrder, LittleEndian};
use vstd::prelude::*;

verus! {

/// The number that `s` spells with its first byte least significant.
pub open spec fn le_nat(s: Seq<u8>) -> nat
    decreases s.len(),
{
    if s.len() == 0 {
        0
    } else {
        s[0] as nat + 256 * le_nat(s.skip(1))
    }
}

/// The number that `s` spells with its first byte most significant.
pub open spec fn be_nat(s: Seq<u8>) -> nat
    decreases s.len(),
{
    if s.len() == 0 {
        0
    } else {
        256 * be_nat(s.drop_last()) + s.last() as nat
    }
}

/// The `k` bytes that spell `n` modulo `256^k`, least significant first.
pub open spec fn le_bytes(n: nat, k: nat) -> Seq<u8>
    decreases k,
{
    if k == 0 {
        Seq::empty()
    } else {
        seq![(n % 256) as u8] + le_bytes(n / 256, (k - 1) as nat)
    }
}

/// The `k` bytes that spell `n` modulo `256^k`, most significant first.
pub open spec fn be_bytes(n: nat, k: nat) -> Seq<u8>
    decreases k,
{
    if k == 0 {
        Seq::empty()
    } else {
        be_bytes(n / 256, (k - 1) as nat).push((n % 256) as u8)
    }
}

pub open spec fn pow256(k: nat) -> nat
    decreases k,
{
    if k == 0 {
        1
    } else {
        256 * pow256((k - 1) as nat)
    }
}

/// The unsigned number spelled by `s` in the given byte order.
pub open spec fn uint_of(s: Seq<u8>, big: bool) -> nat {
    if big {
        be_nat(s)
    } else {
        le_nat(s)
    }
}

/// The bytes of the unsigned number `n` in the given byte order.
pub open spec fn uint_bytes(n: nat, k: nat, big: bool) -> Seq<u8> {
    if big {
        be_bytes(n, k)
    } else {
        le_bytes(n, k)
    }
}

/// Two's complement reading of an unsigned 32-bit pattern.
pub open spec fn signed32(n: nat) -> int {
    if n >= 0x8000_0000 {
        n - 0x1_0000_0000
    } else {
        n as int
    }
}

/// Two's complement reading of an unsigned 64-bit pattern.
pub open spec fn signed64(n: nat) -> int {
    if n >= 0x8000_0000_0000_0000 {
        n - 0x1_0000_0000_0000_0000
    } else {
        n as int
    }
}

/// The unsigned 32-bit pattern of a signed number.
pub open spec fn pattern32(v: int) -> nat {
    if v < 0 {
        (v + 0x1_0000_0000) as nat
    } else {
        v as nat
    }
}

/// The unsigned 64-bit pattern of a signed number.
pub open spec fn pattern64(v: int) -> nat {
    if v < 0 {
        (v + 0x1_0000_0000_0000_0000) as nat
    } else {
        v as nat
    }
}

/// The unsigned 32-bit number at `pos`.
pub open spec fn u32_at(bytes: Seq<u8>, pos: int, big: bool) -> nat {
    uint_of(bytes.subrange(pos, pos + 4), big)
}

/// The signed 32-bit number at `pos`.
pub open spec fn i32_at(bytes: Seq<u8>, pos: int, big: bool) -> int {
    signed32(uint_of(bytes.subrange(pos, pos + 4), big))
}

/// The signed 64-bit number at `pos`.
pub open spec fn i64_at(bytes: Seq<u8>, pos: int, big: bool) -> int {
    signed64(uint_of(bytes.subrange(pos, pos + 8), big))
}

/// `bytes` with the run that starts at `pos` replaced by `patch`.
pub open spec fn splice(bytes: Seq<u8>, pos: int, patch: Seq<u8>) -> Seq<u8> {
    bytes.subrange(0, pos) + patch + bytes.subrange(pos + patch.len(), bytes.len() as int)
}

/// `bytes` with the signed 32-bit number `v` stored at `pos`.
pub open spec fn with_i32(bytes: Seq<u8>, pos: int, v: int, big: bool) -> Seq<u8> {
    splice(bytes, pos, uint_bytes(pattern32(v), 4, big))
}

/// `bytes` with the signed 64-bit number `v` stored at `pos`.
pub open spec fn with_i64(bytes: Seq<u8>, pos: int, v: int, big: bool) -> Seq<u8> {
    splice(bytes, pos, uint_bytes(pattern64(v), 8, big))
}

pub proof fn lemma_le_bytes_len(n: nat, k: nat)
    ensures
        le_bytes(n, k).len() == k,
    decreases k,
{
    if k > 0 {
        lemma_le_bytes_len(n / 256, (k - 1) as nat);
    }
}

pub proof fn lemma_be_bytes_len(n: nat, k: nat)
    ensures
        be_bytes(n, k).len() == k,
    decreases k,
{
    if k > 0 {
        lemma_be_bytes_len(n / 256, (k - 1) as nat);
    }
}

/// Decoding what was encoded in little-endian order gives the number back.
pub proof fn lemma_le_round_trip(n: nat, k: nat)
    requires
        n < pow256(k),
    ensures
        le_nat(le_bytes(n, k)) == n,
    decreases k,
{
    if k > 0 {
        let rest = le_bytes(n / 256, (k - 1) as nat);
        let s = seq![(n % 256) as u8] + rest;
        assert(n / 256 < pow256((k - 1) as nat)) by (nonlinear_arith)
            requires
                n < 256 * pow256((k - 1) as nat),
        ;
        lemma_le_round_trip(n / 256, (k - 1) as nat);
        assert(s.skip(1) =~= rest);
        assert(s[0] == (n % 256) as u8);
        assert(n == n % 256 + 256 * (n / 256)) by (nonlinear_arith);
    }
}

/// Decoding what was encoded in big-endian order gives the number back.
pub proof fn lemma_be_round_trip(n: nat, k: nat)
    requires
        n < pow256(k),
    ensures
        be_nat(be_bytes(n, k)) == n,
    decreases k,
{
    if k > 0 {
        let rest = be_bytes(n / 256, (k - 1) as nat);
        let s = rest.push((n % 256) as u8);
        assert(n / 256 < pow256((k - 1) as nat)) by (nonlinear_arith)
            requires
                n < 256 * pow256((k - 1) as nat),
        ;
        lemma_be_round_trip(n / 256, (k - 1) as nat);
        assert(s.drop_last() =~= rest);
        assert(s.last() == (n % 256) as u8);
        assert(n == n % 256 + 256 * (n / 256)) by (nonlinear_arith);
    }
}

pub proof fn lemma_uint_bytes_len(n: nat, k: nat, big: bool)
    ensures
        uint_bytes(n, k, big).len() == k,
{
    lemma_le_bytes_len(n, k);
    lemma_be_bytes_len(n, k);
}

pub proof fn lemma_pow256_values()
    ensures
        pow256(4) == 0x1_0000_0000,
        pow256(8) == 0x1_0000_0000_0000_0000,
{
    reveal_with_fuel(pow256, 9);
}

/// A stored signed 32-bit number reads back as itself.
pub proof fn lemma_i32_round_trip(bytes: Seq<u8>, pos: int, v: i32, big: bool)
    requires
        0 <= pos,
        pos + 4 <= bytes.len(),
    ensures
        with_i32(bytes, pos, v as int, big).len() == bytes.len(),
        i32_at(with_i32(bytes, pos, v as int, big), pos, big) == v,
{
    let n = pattern32(v as int);
    lemma_pow256_values();
    lemma_uint_bytes_len(n, 4, big);
    lemma_le_round_trip(n, 4);
    lemma_be_round_trip(n, 4);
    let out = with_i32(bytes, pos, v as int, big);
    assert(out.subrange(pos, pos + 4) =~= uint_bytes(n, 4, big));
}

/// A stored signed 64-bit number reads back as itself.
pub proof fn lemma_i64_round_trip(bytes: Seq<u8>, pos: int, v: i64, big: bool)
    requires
        0 <= pos,
        pos + 8 <= bytes.len(),
    ensures
        with_i64(bytes, pos, v as int, big).len() == bytes.len(),
        i64_at(with_i64(bytes, pos, v as int, big), pos, big) == v,
{
    let n = pattern64(v as int);
    lemma_pow256_values();
    lemma_uint_bytes_len(n, 8, big);
    lemma_le_round_trip(n, 8);
    lemma_be_round_trip(n, 8);
    let out = with_i64(bytes, pos, v as int, big);
    assert(out.subrange(pos, pos + 8) =~= uint_bytes(n, 8, big));
}

/// `byteorder::LittleEndian::read_u32` on the four bytes at `pos`: the
/// unsigned number they spell, first byte least significant.
#[verifier::external_body]
pub(crate) fn read_u32_le(buf: &[u8], pos: usize) -> (r: u32)
    requires
        pos + 4 <= buf@.len(),
    ensures
        r as nat == u32_at(buf@, pos as int, false),
{
    LittleEndian::read_u32(&buf[pos..])
}

/// `byteorder::BigEndian::read_u32` on the four bytes at `pos`: the
/// unsigned number they spell, first byte most significant.
#[verifier::external_body]
pub(crate) fn read_u32_be(buf: &[u8], pos: usize) -> (r: u32)
    requires
        pos + 4 <= buf@.len(),
    ensures
        r as nat == u32_at(buf@, pos as int, true),
{
    BigEndian::read_u32(&buf[pos..])
}

/// `byteorder::LittleEndian::read_i32` on the four bytes at `pos`: the
/// two's complement number they spell, first byte least significant.
#[verifier::external_body]
pub(crate) fn read_i32_le(buf: &[u8], pos: usize) -> (r: i32)
    requires
        pos + 4 <= buf@.len(),
    ensures
        r as int == i32_at(buf@, pos as int, false),
{
    LittleEndian::read_i32(&buf[pos..])
}

/// `byteorder::BigEndian::read_i32` on the four bytes at `pos`: the two's
/// complement number they spell, first byte most significant.
#[verifier::external_body]
pub(crate) fn read_i32_be(buf: &[u8], pos: usize) -> (r: i32)
    requires
        pos + 4 <= buf@.len(),
    ensures
        r as int == i32_at(buf@, pos as int, true),
{
    BigEndian::read_i32(&buf[pos..])
}

/// `byteorder::LittleEndian::read_i64` on the eight bytes at `pos`: the
/// two's complement number they spell, first byte least significant.
#[verifier::external_body]
pub(crate) fn read_i64_le(buf: &[u8], pos: usize) -> (r: i64)
    requires
        pos + 8 <= buf@.len(),
    ensures
        r as int == i64_at(buf@, pos as int, false),
{
    LittleEndian::read_i64(&buf[pos..])
}

/// `byteorder::BigEndian::read_i64` on the eight bytes at `pos`: the two's
/// complement number they spell, first byte most significant.
#[verifier::external_body]
pub(crate) fn read_i64_be(buf: &[u8], pos: usize) -> (r: i64)
    requires
        pos + 8 <= buf@.len(),
    ensures
        r as int == i64_at(buf@, pos as int, true),
{
    BigEndian::read_i64(&buf[pos..])
}

/// `byteorder::LittleEndian::write_i32` into the four bytes at `pos`: they
/// become the two's complement pattern of `v`, least significant byte
/// first; no other byte changes.
#[verifier::external_body]
pub(crate) fn write_i32_le(buf: &mut Vec<u8>, pos: usize, v: i32)
    requires
        pos + 4 <= old(buf)@.len(),
    ensures
        final(buf)@ == with_i32(old(buf)@, pos as int, v as int, false),
{
    LittleEndian::write_i32(&mut buf[pos..], v)
}

/// `byteorder::BigEndian::write_i32` into the four bytes at `pos`: they
/// become the two's complement pattern of `v`, most significant byte first;
/// no other byte changes.
#[verifier::external_body]
pub(crate) fn write_i32_be(buf: &mut Vec<u8>, pos: usize, v: i32)
    requires
        pos + 4 <= old(buf)@.len(),
    ensures
        final(buf)@ == with_i32(old(buf)@, pos as int, v as int, true),
{
    BigEndian::write_i32(&mut buf[pos..], v)
}

/// `byteorder::LittleEndian::write_i64` into the eight bytes at `pos`: they
/// become the two's complement pattern of `v`, least significant byte
/// first; no other byte changes.
#[verifier::external_body]
pub(crate) fn write_i64_le(buf: &mut Vec<u8>, pos: usize, v: i64)
    requires
        pos + 8 <= old(buf)@.len(),
    ensures
        final(buf)@ == with_i64(old(buf)@, pos as int, v as int, false),
{
    LittleEndian::write_i64(&mut buf[pos..], v)
}

/// `byteorder::BigEndian::write_i64` into the eight bytes at `pos`: they
/// become the two's complement pattern of `v`, most significant byte first;
/// no other byte changes.
#[verifier::external_body]
pub(crate) fn write_i64_be(buf: &mut Vec<u8>, pos: usize, v: i64)
    requires
        pos + 8 <= old(buf)@.len(),
    ensures
        final(buf)@ == with_i64(old(buf)@, pos as int, v as int, true),
{
    BigEndian::write_i64(&mut buf[pos..], v)
}

/// The unsigned 32-bit number at `pos`, in the given byte order.
pub fn read_u32(buf: &[u8], pos: usize, big: bool) -> (r: u32)
    requires
        pos + 4 <= buf@.len(),
    ensures
        r as nat == u32_at(buf@, pos as int, big),
{
    if big {
        read_u32_be(buf, pos)
    } else {
        read_u32_le(buf, pos)
    }
}

/// The signed 32-bit number at `pos`, in the given byte order.
pub fn read_i32(buf: &[u8], pos: usize, big: bool) -> (r: i32)
    requires
        pos + 4 <= buf@.len(),
    ensures
        r as int == i32_at(buf@, pos as int, big),
{
    if big {
        read_i32_be(buf, pos)
    } else {
        read_i32_le(buf, pos)
    }
}

/// The signed 64-bit number at `pos`, in the given byte order.
pub fn read_i64(buf: &[u8], pos: usize, big: bool) -> (r: i64)
    requires
        pos + 8 <= buf@.len(),
    ensures
        r as int == i64_at(buf@, pos as int, big),
{
    if big {
        read_i64_be(buf, pos)
    } else {
        read_i64_le(buf, pos)
    }
}

/// Stores the signed 32-bit number `v` at `pos`, in the given byte order.
pub fn write_i32(buf: &mut Vec<u8>, pos: usize, v: i32, big: bool)
    requires
        pos + 4 <= old(buf)@.len(),
    ensures
        final(buf)@ == with_i32(old(buf)@, pos as int, v as int, big),
{
    if big {
        write_i32_be(buf, pos, v)
    } else {
        write_i32_le(buf, pos, v)
    }
}

/// Stores the signed 64-bit number `v` at `pos`, in the given byte order.
pub fn write_i64(buf: &mut Vec<u8>, pos: usize, v: i64, big: bool)
    requires
        pos + 8 <= old(buf)@.len(),
    ensures
        final(buf)@ == with_i64(old(buf)@, pos as int, v as int, big),
{
    if big {
        write_i64_be(buf, pos, v)
    } else {
        write_i64_le(buf, pos, v)
    }
}

} // verus!
