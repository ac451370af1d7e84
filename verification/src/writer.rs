//! Writing the primitive types of the protocol to a growable buffer.
//!
//! The encoders are spec functions from values to byte sequences. Every
//! writing function appends the encoding of its argument to the buffer and
//! leaves what the buffer held before in place.

use vstd::prelude::*;
use crate::errors::KafkaErrors;
use crate::models::views;

verus! {

/// The `width` low bytes of `x`, most significant byte first.
pub open spec fn be_bytes(x: nat, width: nat) -> Seq<u8>
    decreases width,
{
    if width == 0 {
        Seq::empty()
    } else {
        be_bytes(x / 256, (width - 1) as nat).push((x % 256) as u8)
    }
}

/// The two's complement code of `x`, where `modulus` is the number of values
/// of the integer type.
pub open spec fn to_unsigned(x: int, modulus: nat) -> nat {
    if x < 0 {
        (x + modulus) as nat
    } else {
        x as nat
    }
}

/// A type that can be written to a Kafka-protocol stream.
pub trait KafkaWrite: View {
    /// The bytes that stand for the value on the wire.
    spec fn encode(v: Self::V) -> Seq<u8>;

    fn write(&self, writer: &mut Vec<u8>) -> (res: Result<(), KafkaErrors>)
        ensures
            res is Ok,
            final(writer)@ == old(writer)@ + Self::encode(self@),
    ;
}

/// Appends the `width` low bytes of `x`, most significant byte first.
fn write_be(resp: &mut Vec<u8>, x: u128, width: usize)
    ensures
        final(resp)@ == old(resp)@ + be_bytes(x as nat, width as nat),
    decreases width,
{
    if width > 0 {
        write_be(resp, x / 256, width - 1);
        resp.push((x % 256) as u8);
        assert(resp@ =~= old(resp)@ + be_bytes(x as nat, width as nat));
    } else {
        assert(resp@ =~= old(resp)@ + be_bytes(x as nat, width as nat));
    }
}

impl KafkaWrite for u8 {
    open spec fn encode(v: u8) -> Seq<u8> {
        be_bytes(v as nat, 1)
    }

    fn write(&self, writer: &mut Vec<u8>) -> (res: Result<(), KafkaErrors>) {
        write_be(writer, *self as u128, 1);
        assert(writer@ == old(writer)@ + Self::encode(*self));
        Ok(())
    }
}

impl KafkaWrite for u16 {
    open spec fn encode(v: u16) -> Seq<u8> {
        be_bytes(v as nat, 2)
    }

    fn write(&self, writer: &mut Vec<u8>) -> (res: Result<(), KafkaErrors>) {
        write_be(writer, *self as u128, 2);
        assert(writer@ == old(writer)@ + Self::encode(*self));
        Ok(())
    }
}

impl KafkaWrite for u32 {
    open spec fn encode(v: u32) -> Seq<u8> {
        be_bytes(v as nat, 4)
    }

    fn write(&self, writer: &mut Vec<u8>) -> (res: Result<(), KafkaErrors>) {
        write_be(writer, *self as u128, 4);
        assert(writer@ == old(writer)@ + Self::encode(*self));
        Ok(())
    }
}

impl KafkaWrite for u64 {
    open spec fn encode(v: u64) -> Seq<u8> {
        be_bytes(v as nat, 8)
    }

    fn write(&self, writer: &mut Vec<u8>) -> (res: Result<(), KafkaErrors>) {
        write_be(writer, *self as u128, 8);
        assert(writer@ == old(writer)@ + Self::encode(*self));
        Ok(())
    }
}

impl KafkaWrite for u128 {
    open spec fn encode(v: u128) -> Seq<u8> {
        be_bytes(v as nat, 16)
    }

    fn write(&self, writer: &mut Vec<u8>) -> (res: Result<(), KafkaErrors>) {
        write_be(writer, *self, 16);
        assert(writer@ == old(writer)@ + Self::encode(*self));
        Ok(())
    }
}

impl KafkaWrite for i8 {
    open spec fn encode(v: i8) -> Seq<u8> {
        be_bytes(to_unsigned(v as int, 0x100), 1)
    }

    fn write(&self, writer: &mut Vec<u8>) -> (res: Result<(), KafkaErrors>) {
        let code = if *self < 0 { (*self as i16 + 0x100) as u128 } else { *self as u128 };
        write_be(writer, code, 1);
        assert(writer@ == old(writer)@ + Self::encode(*self));
        Ok(())
    }
}

impl KafkaWrite for i16 {
    open spec fn encode(v: i16) -> Seq<u8> {
        be_bytes(to_unsigned(v as int, 0x1_0000), 2)
    }

    fn write(&self, writer: &mut Vec<u8>) -> (res: Result<(), KafkaErrors>) {
        let code = if *self < 0 { (*self as i32 + 0x1_0000) as u128 } else { *self as u128 };
        write_be(writer, code, 2);
        assert(writer@ == old(writer)@ + Self::encode(*self));
        Ok(())
    }
}

impl KafkaWrite for i32 {
    open spec fn encode(v: i32) -> Seq<u8> {
        be_bytes(to_unsigned(v as int, 0x1_0000_0000), 4)
    }

    fn write(&self, writer: &mut Vec<u8>) -> (res: Result<(), KafkaErrors>) {
        let code = if *self < 0 { (*self as i64 + 0x1_0000_0000) as u128 } else { *self as u128 };
        write_be(writer, code, 4);
        assert(writer@ == old(writer)@ + Self::encode(*self));
        Ok(())
    }
}

impl KafkaWrite for i64 {
    open spec fn encode(v: i64) -> Seq<u8> {
        be_bytes(to_unsigned(v as int, 0x1_0000_0000_0000_0000), 8)
    }

    fn write(&self, writer: &mut Vec<u8>) -> (res: Result<(), KafkaErrors>) {
        let code = if *self < 0 {
            (*self as i128 + 0x1_0000_0000_0000_0000) as u128
        } else {
            *self as u128
        };
        write_be(writer, code, 8);
        assert(writer@ == old(writer)@ + Self::encode(*self));
        Ok(())
    }
}

impl KafkaWrite for bool {
    /// One byte: 1 for `true`, 0 for `false`.
    open spec fn encode(v: bool) -> Seq<u8> {
        u8::encode(if v { 1u8 } else { 0u8 })
    }

    fn write(&self, writer: &mut Vec<u8>) -> (res: Result<(), KafkaErrors>) {
        let byte: u8 = if *self { 1 } else { 0 };
        byte.write(writer)
    }
}

/// Writes one value of a fixed-width type.
pub fn write_bytes<T: KafkaWrite>(resp: &mut Vec<u8>, data: &T) -> (res: Result<(), KafkaErrors>)
    ensures
        res is Ok,
        final(resp)@ == old(resp)@ + T::encode(data@),
{
    data.write(resp)
}

/// Writes a boolean.
pub fn write_bool(resp: &mut Vec<u8>, val: bool) -> (res: Result<(), KafkaErrors>)
    ensures
        res is Ok,
        final(resp)@ == old(resp)@ + bool::encode(val),
{
    val.write(resp)
}

/// The unsigned variable-length code of `x`: seven bits to a byte, least
/// significant group first, the high bit set on every byte but the last.
pub open spec fn uvarint_bytes(x: nat) -> Seq<u8>
    decreases x,
{
    if x < 0x80 {
        seq![x as u8]
    } else {
        seq![(0x80 + x % 0x80) as u8] + uvarint_bytes(x / 0x80)
    }
}

/// The zig-zag code of a signed number: the numbers from zero up get the even
/// codes, those from minus one down the odd ones.
pub open spec fn zigzag_encode(n: int) -> nat {
    if n >= 0 {
        (2 * n) as nat
    } else {
        (-2 * n - 1) as nat
    }
}

/// The signed variable-length code of `n`.
pub open spec fn varint_bytes(n: int) -> Seq<u8> {
    uvarint_bytes(zigzag_encode(n))
}

/// Compact bytes: the length plus one as a variable-length integer, then
/// the bytes.
pub open spec fn compact_bytes(bytes: Seq<u8>) -> Seq<u8> {
    uvarint_bytes(bytes.len() + 1) + bytes
}

/// Compact bytes that may be absent: a single zero stands for "absent".
pub open spec fn nullable_compact_bytes(bytes: Option<Seq<u8>>) -> Seq<u8> {
    match bytes {
        Some(b) => compact_bytes(b),
        None => uvarint_bytes(0),
    }
}

/// The encodings of `items`, one behind the other.
pub open spec fn encode_all<T: KafkaWrite>(items: Seq<T::V>) -> Seq<u8>
    decreases items.len(),
{
    if items.len() == 0 {
        Seq::empty()
    } else {
        encode_all::<T>(items.drop_last()) + T::encode(items.last())
    }
}

/// A compact array: the number of items plus one as a variable-length
/// integer, then the items.
pub open spec fn encode_array<T: KafkaWrite>(items: Seq<T::V>) -> Seq<u8> {
    uvarint_bytes(items.len() + 1) + encode_all::<T>(items)
}

/// The empty tag buffer.
pub open spec fn empty_tag_buffer() -> Seq<u8> {
    seq![0u8]
}

/// Appends the variable-length code of `x`.
fn write_unsigned(resp: &mut Vec<u8>, x: u128)
    ensures
        final(resp)@ == old(resp)@ + uvarint_bytes(x as nat),
{
    let mut left = x;
    while left >= 0x80
        invariant
            old(resp)@ + uvarint_bytes(x as nat) == resp@ + uvarint_bytes(left as nat),
        decreases left,
    {
        let ghost before = resp@;
        resp.push((0x80 + left % 0x80) as u8);
        assert(before + (seq![(0x80 + left % 0x80) as u8] + uvarint_bytes((left / 0x80) as nat))
            =~= resp@ + uvarint_bytes((left / 0x80) as nat));
        left = left / 0x80;
    }
    let ghost before = resp@;
    resp.push(left as u8);
    assert(before + seq![left as u8] =~= resp@);
}

/// Writes `val` as an unsigned variable-length integer. A length or a count
/// goes through here, so the whole of `usize` is accepted.
pub fn write_varint(resp: &mut Vec<u8>, val: usize) -> (res: Result<(), KafkaErrors>)
    ensures
        res is Ok,
        final(resp)@ == old(resp)@ + uvarint_bytes(val as nat),
{
    write_unsigned(resp, val as u128);
    Ok(())
}

/// Writes a signed variable-length integer, in zig-zag code.
pub fn write_varint_main(resp: &mut Vec<u8>, x: i32) -> (res: Result<(), KafkaErrors>)
    ensures
        res is Ok,
        final(resp)@ == old(resp)@ + varint_bytes(x as int),
{
    let wide = x as i64;
    let code = if wide >= 0 { 2 * wide } else { 0 - 2 * wide - 1 };
    write_unsigned(resp, code as u128);
    Ok(())
}

/// Writes a length as a signed variable-length integer.
pub fn write_varint_len(resp: &mut Vec<u8>, len: usize) -> (res: Result<(), KafkaErrors>)
    ensures
        res is Ok,
        final(resp)@ == old(resp)@ + varint_bytes(len as int),
{
    write_unsigned(resp, 2 * (len as u128));
    Ok(())
}

/// Writes an unsigned variable-length integer.
pub fn write_uvarint(resp: &mut Vec<u8>, x: u32) -> (res: Result<(), KafkaErrors>)
    ensures
        res is Ok,
        final(resp)@ == old(resp)@ + uvarint_bytes(x as nat),
{
    write_unsigned(resp, x as u128);
    Ok(())
}

/// Writes the marker of an absent structure, the byte `0xFF`.
pub fn write_null(resp: &mut Vec<u8>) -> (res: Result<(), KafkaErrors>)
    ensures
        res is Ok,
        final(resp)@ == old(resp)@ + seq![0xFFu8],
{
    resp.push(0xFF);
    assert(resp@ =~= old(resp)@ + seq![0xFFu8]);
    Ok(())
}

/// Writes the empty tag buffer, the byte `0x00`.
pub fn write_tag_buffer(resp: &mut Vec<u8>) -> (res: Result<(), KafkaErrors>)
    ensures
        res is Ok,
        final(resp)@ == old(resp)@ + empty_tag_buffer(),
{
    resp.push(0);
    assert(resp@ =~= old(resp)@ + empty_tag_buffer());
    Ok(())
}

/// Appends `s` as it is.
pub fn write_raw(resp: &mut Vec<u8>, s: &[u8])
    ensures
        final(resp)@ == old(resp)@ + s@,
{
    let mut i: usize = 0;
    while i < s.len()
        invariant
            i <= s@.len(),
            resp@ == old(resp)@ + s@.take(i as int),
        decreases s@.len() - i,
    {
        resp.push(s[i]);
        assert(resp@ =~= old(resp)@ + s@.take(i + 1));
        i += 1;
    }
    assert(s@.take(s@.len() as int) =~= s@);
}

/// Writes a compact string, or compact bytes.
pub fn write_compact_string(resp: &mut Vec<u8>, s: &[u8]) -> (res: Result<(), KafkaErrors>)
    ensures
        res is Ok,
        final(resp)@ == old(resp)@ + compact_bytes(s@),
{
    write_unsigned(resp, s.len() as u128 + 1);
    write_raw(resp, s);
    assert(resp@ =~= old(resp)@ + compact_bytes(s@));
    Ok(())
}

/// Writes a compact string that may be absent.
pub fn write_nullable_compact_string(resp: &mut Vec<u8>, val: Option<&[u8]>) -> (res: Result<
    (),
    KafkaErrors,
>)
    ensures
        res is Ok,
        final(resp)@ == old(resp)@ + nullable_compact_bytes(
            match val {
                Some(s) => Some(s@),
                None => None,
            },
        ),
{
    if let Some(s) = val {
        write_compact_string(resp, s)
    } else {
        write_unsigned(resp, 0);
        Ok(())
    }
}

/// Writes the items one behind the other, without their number.
pub fn write_many<T: KafkaWrite>(resp: &mut Vec<u8>, items: &[T]) -> (res: Result<(), KafkaErrors>)
    ensures
        res is Ok,
        final(resp)@ == old(resp)@ + encode_all::<T>(views(items@)),
{
    let ghost all = views(items@);
    let mut i: usize = 0;
    assert(old(resp)@ + encode_all::<T>(all.take(0)) =~= old(resp)@);
    while i < items.len()
        invariant
            i <= items@.len(),
            all == views(items@),
            resp@ == old(resp)@ + encode_all::<T>(all.take(i as int)),
        decreases items@.len() - i,
    {
        let _ = items[i].write(resp);
        proof {
            assert(all.take(i + 1).drop_last() =~= all.take(i as int));
            assert(all.take(i + 1).last() == items@[i as int]@);
            assert(resp@ =~= old(resp)@ + encode_all::<T>(all.take(i + 1)));
        }
        i += 1;
    }
    assert(all.take(items@.len() as int) =~= all);
    Ok(())
}

/// Writes a compact array of any type that can be written.
pub fn write_array<T: KafkaWrite>(resp: &mut Vec<u8>, items: &[T]) -> (res: Result<
    (),
    KafkaErrors,
>)
    ensures
        res is Ok,
        final(resp)@ == old(resp)@ + encode_array::<T>(views(items@)),
{
    write_unsigned(resp, items.len() as u128 + 1);
    let _ = write_many(resp, items);
    assert(resp@ =~= old(resp)@ + encode_array::<T>(views(items@)));
    Ok(())
}

} // verus!
