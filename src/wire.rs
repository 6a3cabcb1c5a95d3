//! Byte encodings of the wire primitives: varints, big-endian integers, strings.

use vstd::prelude::*;
use vstd::string::StringSliceAdditionalSpecFns;

verus! {

/// The continuation encoding of `v`: seven payload bits per byte, low bits
/// first, the high bit set on every byte but the last.
pub open spec fn varint_bytes(v: nat) -> Seq<u8>
    decreases v,
{
    if v < 128 {
        seq![v as u8]
    } else {
        seq![(v % 128 + 128) as u8] + varint_bytes(v / 128)
    }
}

/// The `n` bytes of `v` (taken modulo `256^n`), most significant first.
pub open spec fn be_bytes(v: nat, n: nat) -> Seq<u8>
    decreases n,
{
    if n == 0 {
        seq![]
    } else {
        be_bytes(v / 256, (n - 1) as nat) + seq![(v % 256) as u8]
    }
}

pub open spec fn bool_byte(b: bool) -> Seq<u8> {
    seq![if b { 1u8 } else { 0u8 }]
}

/// A string on the wire: its UTF-8 length as a varint, then its bytes.
pub open spec fn string_bytes(s: Seq<u8>) -> Seq<u8> {
    varint_bytes(s.len()) + s
}

/// A block position packed into one long: 26 bits of x, 26 of z, 12 of y.
pub open spec fn position_value(x: i32, y: i32, z: i32) -> u64 {
    (((x as u32 as u64) & 0x3FFFFFF) << 38u64) | (((z as u32 as u64) & 0x3FFFFFF) << 12u64) | ((
    y as u32 as u64) & 0xFFF)
}

pub fn write_varint_u64(buf: &mut Vec<u8>, v: u64)
    ensures
        final(buf)@ == old(buf)@ + varint_bytes(v as nat),
    decreases v,
{
    if v < 128 {
        buf.push(v as u8);
        proof {
            assert(final(buf)@ =~= old(buf)@ + varint_bytes(v as nat));
        }
    } else {
        buf.push((v % 128 + 128) as u8);
        let ghost mid = buf@;
        write_varint_u64(buf, v / 128);
        proof {
            assert(buf@ =~= old(buf)@ + varint_bytes(v as nat));
        }
    }
}

/// A 32-bit varint: the value's two's-complement bits, as an unsigned number.
pub fn write_varint(buf: &mut Vec<u8>, v: i32)
    ensures
        final(buf)@ == old(buf)@ + varint_bytes(v as u32 as nat),
{
    write_varint_u64(buf, v as u32 as u64);
}

/// A 64-bit varint.
pub fn write_varlong(buf: &mut Vec<u8>, v: i64)
    ensures
        final(buf)@ == old(buf)@ + varint_bytes(v as u64 as nat),
{
    write_varint_u64(buf, v as u64);
}

pub fn write_be(buf: &mut Vec<u8>, v: u64, n: usize)
    ensures
        final(buf)@ == old(buf)@ + be_bytes(v as nat, n as nat),
    decreases n,
{
    if n == 0 {
        proof {
            assert(final(buf)@ =~= old(buf)@ + be_bytes(v as nat, 0));
        }
        return;
    }
    write_be(buf, v / 256, n - 1);
    buf.push((v % 256) as u8);
    proof {
        assert(final(buf)@ =~= old(buf)@ + be_bytes(v as nat, n as nat));
    }
}

pub fn write_byte(buf: &mut Vec<u8>, v: i8)
    ensures
        final(buf)@ == old(buf)@ + be_bytes(v as u8 as nat, 1),
{
    write_be(buf, v as u8 as u64, 1);
}

pub fn write_unsigned_byte(buf: &mut Vec<u8>, v: u8)
    ensures
        final(buf)@ == old(buf)@ + be_bytes(v as nat, 1),
{
    write_be(buf, v as u64, 1);
}

pub fn write_bool(buf: &mut Vec<u8>, v: bool)
    ensures
        final(buf)@ == old(buf)@ + bool_byte(v),
{
    buf.push(if v { 1 } else { 0 });
    proof {
        assert(final(buf)@ =~= old(buf)@ + bool_byte(v));
    }
}

pub fn write_short(buf: &mut Vec<u8>, v: i16)
    ensures
        final(buf)@ == old(buf)@ + be_bytes(v as u16 as nat, 2),
{
    write_be(buf, v as u16 as u64, 2);
}

pub fn write_int(buf: &mut Vec<u8>, v: i32)
    ensures
        final(buf)@ == old(buf)@ + be_bytes(v as u32 as nat, 4),
{
    write_be(buf, v as u32 as u64, 4);
}

pub fn write_long(buf: &mut Vec<u8>, v: i64)
    ensures
        final(buf)@ == old(buf)@ + be_bytes(v as u64 as nat, 8),
{
    write_be(buf, v as u64, 8);
}

pub fn write_uuid(buf: &mut Vec<u8>, v: u128)
    ensures
        final(buf)@ == old(buf)@ + be_bytes((v / 0x1_0000_0000_0000_0000) as nat, 8) + be_bytes(
            (v % 0x1_0000_0000_0000_0000) as nat,
            8,
        ),
{
    write_be(buf, (v / 0x1_0000_0000_0000_0000) as u64, 8);
    write_be(buf, (v % 0x1_0000_0000_0000_0000) as u64, 8);
}

pub fn write_position(buf: &mut Vec<u8>, x: i32, y: i32, z: i32)
    ensures
        final(buf)@ == old(buf)@ + be_bytes(position_value(x, y, z) as nat, 8),
{
    let v = (((x as u32 as u64) & 0x3FFFFFF) << 38u64) | (((z as u32 as u64) & 0x3FFFFFF) << 12u64)
        | ((y as u32 as u64) & 0xFFF);
    write_be(buf, v, 8);
}

/// Appends raw bytes.
pub fn write_bytes(buf: &mut Vec<u8>, bytes: &Vec<u8>)
    ensures
        final(buf)@ == old(buf)@ + bytes@,
{
    let mut i: usize = 0;
    while i < bytes.len()
        invariant
            i <= bytes@.len(),
            buf@ == old(buf)@ + bytes@.subrange(0, i as int),
        decreases bytes.len() - i,
    {
        buf.push(bytes[i]);
        i = i + 1;
        proof {
            assert(buf@ =~= old(buf)@ + bytes@.subrange(0, i as int));
        }
    }
    proof {
        assert(bytes@.subrange(0, i as int) =~= bytes@);
    }
}

/// The UTF-8 bytes of a string.
pub open spec fn utf8(s: Seq<char>) -> Seq<u8> {
    vstd::utf8::encode_utf8(s)
}

/// A string: its UTF-8 length as a varint, then its bytes.
pub fn write_string(buf: &mut Vec<u8>, s: &str)
    requires
        utf8(s@).len() <= i32::MAX,
    ensures
        final(buf)@ == old(buf)@ + string_bytes(utf8(s@)),
{
    let bytes = s.as_bytes();
    write_varint(buf, bytes.len() as i32);
    let ghost mid = buf@;
    let mut i: usize = 0;
    while i < bytes.len()
        invariant
            i <= bytes@.len(),
            bytes@ == s.spec_bytes(),
            buf@ == mid + bytes@.subrange(0, i as int),
        decreases bytes.len() - i,
    {
        buf.push(bytes[i]);
        i = i + 1;
        proof {
            assert(buf@ =~= mid + bytes@.subrange(0, i as int));
        }
    }
    proof {
        assert(bytes@.subrange(0, i as int) =~= bytes@);
        assert(buf@ =~= old(buf)@ + string_bytes(utf8(s@)));
    }
}

} // verus!
