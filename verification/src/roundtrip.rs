//! What is written can be read back: the laws that tie the encoders of
//! `writer` to the decoders of `parser`.
//!
//! Each law is stated with arbitrary bytes `rest` behind the encoding, so that
//! it also says where the decoder stops.

use vstd::prelude::*;
use crate::errors::KafkaErrors;
use crate::parser::{
    KafkaRead, be_value, decode_array, decode_be, decode_compact_bytes, decode_compact_string,
    decode_many, decode_tag_buffer, decode_uvarint, decode_varint, lemma_be_value_bound,
    lemma_pow128_values, lemma_pow256_values, pow128, pow256, uvarint_prefix,
};
use crate::writer::{
    KafkaWrite, be_bytes, compact_bytes, empty_tag_buffer, encode_all, encode_array,
    nullable_compact_bytes, uvarint_bytes, varint_bytes, zigzag_encode,
};

verus! {

/// A number below `256^width` is spelt with exactly `width` bytes, and they
/// spell it.
pub proof fn lemma_be_bytes_value(x: nat, width: nat)
    requires
        x < pow256(width),
    ensures
        be_bytes(x, width).len() == width,
        be_value(be_bytes(x, width)) == x,
    decreases width,
{
    if width > 0 {
        lemma_be_bytes_value(x / 256, (width - 1) as nat);
        assert(be_bytes(x, width).drop_last() =~= be_bytes(x / 256, (width - 1) as nat));
    }
}

/// The way back: bytes spell a number whose bytes they are.
pub proof fn lemma_be_value_bytes(s: Seq<u8>)
    ensures
        be_bytes(be_value(s), s.len()) == s,
    decreases s.len(),
{
    if s.len() > 0 {
        lemma_be_value_bytes(s.drop_last());
        assert(be_bytes(be_value(s), s.len()) =~= s);
    } else {
        assert(be_bytes(be_value(s), s.len()) =~= s);
    }
}

/// Big-endian round trip at any width: the bytes of `x` decode to `x`, and
/// the decoder stops behind them.
pub proof fn lemma_be_round_trip(x: nat, width: nat, rest: Seq<u8>)
    requires
        x < pow256(width),
    ensures
        decode_be(be_bytes(x, width) + rest, width) == Ok::<(nat, Seq<u8>), KafkaErrors>((x, rest)),
{
    lemma_be_bytes_value(x, width);
    let s = be_bytes(x, width) + rest;
    assert(s.take(width as int) =~= be_bytes(x, width));
    assert(s.skip(width as int) =~= rest);
}

/// Round trip of an unsigned byte.
pub proof fn lemma_u8_round_trip(v: u8, rest: Seq<u8>)
    ensures
        u8::decode(u8::encode(v) + rest) == Ok::<(u8, Seq<u8>), KafkaErrors>((v, rest)),
{
    lemma_pow256_values();
    lemma_be_bytes_value(v as nat, 1);
    let s = u8::encode(v) + rest;
    assert(be_bytes(v as nat, 1).drop_last() =~= Seq::<u8>::empty());
    assert(s.skip(1) =~= rest);
}

/// Round trip of a signed byte.
pub proof fn lemma_i8_round_trip(v: i8, rest: Seq<u8>)
    ensures
        i8::decode(i8::encode(v) + rest) == Ok::<(i8, Seq<u8>), KafkaErrors>((v, rest)),
{
    let code: u8 = if v < 0 { (v + 0x100) as u8 } else { v as u8 };
    lemma_u8_round_trip(code, rest);
}

/// Round trip of a boolean.
pub proof fn lemma_bool_round_trip(v: bool, rest: Seq<u8>)
    ensures
        bool::decode(bool::encode(v) + rest) == Ok::<(bool, Seq<u8>), KafkaErrors>((v, rest)),
{
    lemma_u8_round_trip(if v { 1u8 } else { 0u8 }, rest);
}

/// Round trip of an unsigned 16-bit integer.
pub proof fn lemma_u16_round_trip(v: u16, rest: Seq<u8>)
    ensures
        u16::decode(u16::encode(v) + rest) == Ok::<(u16, Seq<u8>), KafkaErrors>((v, rest)),
{
    lemma_pow256_values();
    lemma_be_round_trip(v as nat, 2, rest);
}

/// Round trip of a signed 16-bit integer.
pub proof fn lemma_i16_round_trip(v: i16, rest: Seq<u8>)
    ensures
        i16::decode(i16::encode(v) + rest) == Ok::<(i16, Seq<u8>), KafkaErrors>((v, rest)),
{
    lemma_pow256_values();
    let code: nat = if v < 0 { (v + 0x1_0000) as nat } else { v as nat };
    lemma_be_round_trip(code, 2, rest);
}

/// Round trip of an unsigned 32-bit integer.
pub proof fn lemma_u32_round_trip(v: u32, rest: Seq<u8>)
    ensures
        u32::decode(u32::encode(v) + rest) == Ok::<(u32, Seq<u8>), KafkaErrors>((v, rest)),
{
    lemma_pow256_values();
    lemma_be_round_trip(v as nat, 4, rest);
}

/// Round trip of a signed 32-bit integer.
pub proof fn lemma_i32_round_trip(v: i32, rest: Seq<u8>)
    ensures
        i32::decode(i32::encode(v) + rest) == Ok::<(i32, Seq<u8>), KafkaErrors>((v, rest)),
{
    lemma_pow256_values();
    let code: nat = if v < 0 { (v + 0x1_0000_0000) as nat } else { v as nat };
    lemma_be_round_trip(code, 4, rest);
}

/// The way back for a signed 32-bit integer: the four bytes that were read
/// are the encoding of what they were read as.
pub proof fn lemma_i32_bytes_back(s: Seq<u8>)
    requires
        s.len() >= 4,
    ensures
        i32::decode(s) matches Ok((v, rest)) && i32::encode(v) == s.take(4) && rest == s.skip(4),
{
    lemma_pow256_values();
    lemma_be_value_bound(s.take(4));
    lemma_be_value_bytes(s.take(4));
}

/// Round trip of an unsigned 64-bit integer.
pub proof fn lemma_u64_round_trip(v: u64, rest: Seq<u8>)
    ensures
        u64::decode(u64::encode(v) + rest) == Ok::<(u64, Seq<u8>), KafkaErrors>((v, rest)),
{
    lemma_pow256_values();
    lemma_be_round_trip(v as nat, 8, rest);
}

/// Round trip of a signed 64-bit integer.
pub proof fn lemma_i64_round_trip(v: i64, rest: Seq<u8>)
    ensures
        i64::decode(i64::encode(v) + rest) == Ok::<(i64, Seq<u8>), KafkaErrors>((v, rest)),
{
    lemma_pow256_values();
    let code: nat = if v < 0 { (v + 0x1_0000_0000_0000_0000) as nat } else { v as nat };
    lemma_be_round_trip(code, 8, rest);
}

/// Round trip of a UUID.
pub proof fn lemma_u128_round_trip(v: u128, rest: Seq<u8>)
    ensures
        u128::decode(u128::encode(v) + rest) == Ok::<(u128, Seq<u8>), KafkaErrors>((v, rest)),
{
    lemma_pow256_values();
    lemma_be_round_trip(v as nat, 16, rest);
}

/// The variable-length code of a number below `128^limit` takes at most
/// `limit` bytes, and reading at most `limit` bytes yields the number.
pub proof fn lemma_uvarint_prefix_of_bytes(x: nat, limit: nat, rest: Seq<u8>)
    requires
        limit > 0,
        x < pow128(limit),
    ensures
        uvarint_prefix(uvarint_bytes(x) + rest, limit) == Ok::<(nat, nat), KafkaErrors>(
            (x, uvarint_bytes(x).len()),
        ),
    decreases limit,
{
    let s = uvarint_bytes(x) + rest;
    if x >= 0x80 {
        assert(limit > 1) by {
            reveal_with_fuel(pow128, 2);
        }
        lemma_uvarint_prefix_of_bytes(x / 0x80, (limit - 1) as nat, rest);
        assert(s.skip(1) =~= uvarint_bytes(x / 0x80) + rest);
        assert(s[0] == (0x80 + x % 0x80) as u8);
    } else {
        assert(s[0] == x as u8);
    }
}

/// Round trip of every unsigned variable-length integer of 32 bits.
pub proof fn lemma_uvarint_round_trip(n: u32, rest: Seq<u8>)
    ensures
        decode_uvarint(uvarint_bytes(n as nat) + rest) == Ok::<(u32, Seq<u8>), KafkaErrors>(
            (n, rest),
        ),
{
    lemma_pow128_values();
    lemma_uvarint_prefix_of_bytes(n as nat, 5, rest);
    let s = uvarint_bytes(n as nat) + rest;
    assert(s.skip(uvarint_bytes(n as nat).len() as int) =~= rest);
}

/// Round trip of every signed variable-length integer of 32 bits.
pub proof fn lemma_varint_round_trip(n: i32, rest: Seq<u8>)
    ensures
        decode_varint(varint_bytes(n as int) + rest) == Ok::<(i32, Seq<u8>), KafkaErrors>(
            (n, rest),
        ),
{
    lemma_uvarint_round_trip(zigzag_encode(n as int) as u32, rest);
}

/// Round trip of compact bytes that may be absent. The absent form reads
/// back as absent. Bytes that are there read back as they are, as long as
/// their length plus one fits the 32 bits that the decoder reads.
pub proof fn lemma_nullable_compact_string_round_trip(bytes: Option<Seq<u8>>, rest: Seq<u8>)
    requires
        bytes matches Some(b) ==> b.len() < 0xFFFF_FFFF,
    ensures
        decode_compact_bytes(nullable_compact_bytes(bytes) + rest) == Ok::<
            (Option<Seq<u8>>, Seq<u8>),
            KafkaErrors,
        >((bytes, rest)),
{
    match bytes {
        None => {
            lemma_uvarint_round_trip(0, rest);
        },
        Some(b) => {
            let n = (b.len() + 1) as u32;
            lemma_uvarint_round_trip(n, b + rest);
            assert(compact_bytes(b) + rest =~= uvarint_bytes(n as nat) + (b + rest));
            assert((b + rest).take(b.len() as int) =~= b);
            assert((b + rest).skip(b.len() as int) =~= rest);
        },
    }
}

/// Round trip of a compact string, under the same bound on its length.
pub proof fn lemma_compact_string_round_trip(bytes: Seq<u8>, rest: Seq<u8>)
    requires
        bytes.len() < 0xFFFF_FFFF,
    ensures
        decode_compact_string(compact_bytes(bytes) + rest) == Ok::<(Seq<u8>, Seq<u8>), KafkaErrors>(
            (bytes, rest),
        ),
{
    lemma_nullable_compact_string_round_trip(Some(bytes), rest);
}

/// Round trip of the empty tag buffer.
pub proof fn lemma_tag_buffer_round_trip(rest: Seq<u8>)
    ensures
        decode_tag_buffer(empty_tag_buffer() + rest) == Ok::<((), Seq<u8>), KafkaErrors>(
            ((), rest),
        ),
{
    assert(empty_tag_buffer() =~= uvarint_bytes(0));
    lemma_uvarint_round_trip(0, rest);
}

/// Whether every value of the type `T` reads back as it was written, with the
/// reader stopping right behind it.
pub open spec fn round_trips<T: KafkaRead + KafkaWrite>() -> bool {
    forall|v: T::V, rest: Seq<u8>| #[trigger]
        T::decode(T::encode(v) + rest) == Ok::<(T::V, Seq<u8>), KafkaErrors>((v, rest))
}

/// Items are read one by one: where the first is read and then the others,
/// all of them are read.
pub proof fn lemma_decode_many_front<T: KafkaRead>(
    s: Seq<u8>,
    n: nat,
    first: T::V,
    middle: Seq<u8>,
    others: Seq<T::V>,
    rest: Seq<u8>,
)
    requires
        n > 0,
        T::decode(s) == Ok::<(T::V, Seq<u8>), KafkaErrors>((first, middle)),
        decode_many::<T>(middle, (n - 1) as nat) == Ok::<(Seq<T::V>, Seq<u8>), KafkaErrors>(
            (others, rest),
        ),
    ensures
        decode_many::<T>(s, n) == Ok::<(Seq<T::V>, Seq<u8>), KafkaErrors>(
            (seq![first] + others, rest),
        ),
{
}

/// Items that are written one behind the other read back as they were, if
/// each of them does.
pub proof fn lemma_many_round_trip<T: KafkaRead + KafkaWrite>(items: Seq<T::V>, rest: Seq<u8>)
    requires
        round_trips::<T>(),
    ensures
        decode_many::<T>(encode_all::<T>(items) + rest, items.len()) == Ok::<
            (Seq<T::V>, Seq<u8>),
            KafkaErrors,
        >((items, rest)),
    decreases items.len(),
{
    if items.len() == 0 {
        assert(encode_all::<T>(items) + rest =~= rest);
        assert(items =~= Seq::<T::V>::empty());
    } else {
        let first = items.first();
        let others = items.skip(1);
        let behind_first = encode_all::<T>(others) + rest;
        lemma_encode_all_front::<T>(items);
        lemma_many_round_trip::<T>(others, rest);
        assert(encode_all::<T>(items) + rest =~= T::encode(first) + behind_first);
        assert(T::decode(T::encode(first) + behind_first) == Ok::<(T::V, Seq<u8>), KafkaErrors>(
            (first, behind_first),
        ));
        lemma_decode_many_front::<T>(
            T::encode(first) + behind_first,
            items.len(),
            first,
            behind_first,
            others,
            rest,
        );
        assert(seq![first] + others =~= items);
    }
}

/// The encodings of some items begin with the encoding of the first.
pub proof fn lemma_encode_all_front<T: KafkaWrite>(items: Seq<T::V>)
    requires
        items.len() > 0,
    ensures
        encode_all::<T>(items) == T::encode(items.first()) + encode_all::<T>(items.skip(1)),
    decreases items.len(),
{
    if items.len() == 1 {
        assert(items.drop_last() =~= Seq::<T::V>::empty());
        assert(items.skip(1) =~= Seq::<T::V>::empty());
        assert(encode_all::<T>(items) =~= T::encode(items.first()) + encode_all::<T>(
            items.skip(1),
        ));
    } else {
        lemma_encode_all_front::<T>(items.drop_last());
        assert(items.drop_last().skip(1) =~= items.skip(1).drop_last());
        assert(items.drop_last().first() == items.first());
        assert(items.skip(1).last() == items.last());
        assert(encode_all::<T>(items) =~= T::encode(items.first()) + encode_all::<T>(
            items.skip(1),
        ));
    }
}

/// Round trip of a compact array whose items round-trip, as long as their
/// number plus one fits the 32 bits that the decoder reads.
pub proof fn lemma_array_round_trip<T: KafkaRead + KafkaWrite>(items: Seq<T::V>, rest: Seq<u8>)
    requires
        round_trips::<T>(),
        items.len() < 0xFFFF_FFFF,
    ensures
        decode_array::<T>(encode_array::<T>(items) + rest) == Ok::<
            (Seq<T::V>, Seq<u8>),
            KafkaErrors,
        >((items, rest)),
{
    let n = (items.len() + 1) as u32;
    let behind_count = encode_all::<T>(items) + rest;
    lemma_uvarint_round_trip(n, behind_count);
    assert(encode_array::<T>(items) + rest =~= uvarint_bytes(n as nat) + behind_count);
    lemma_many_round_trip::<T>(items, rest);
}

/// Every 32-bit integer round-trips, so that arrays of them do.
pub proof fn lemma_i32_round_trips()
    ensures
        round_trips::<i32>(),
{
    assert forall|v: i32, rest: Seq<u8>| #[trigger]
        i32::decode(i32::encode(v) + rest) == Ok::<(i32, Seq<u8>), KafkaErrors>((v, rest)) by {
        lemma_i32_round_trip(v, rest);
    }
}

/// Every UUID round-trips, so that arrays of them do.
pub proof fn lemma_u128_round_trips()
    ensures
        round_trips::<u128>(),
{
    assert forall|v: u128, rest: Seq<u8>| #[trigger]
        u128::decode(u128::encode(v) + rest) == Ok::<(u128, Seq<u8>), KafkaErrors>((v, rest)) by {
        lemma_u128_round_trip(v, rest);
    }
}

} // verus!
