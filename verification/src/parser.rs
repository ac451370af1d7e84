//! Reading the primitive types of the protocol from a byte stream.
//!
//! Every fixed-width integer is big-endian. The decoders are spec functions on
//! byte sequences; each reading function is held to its decoder by `reads_as`
//! or by `reads_past`. The two differ in where the stream stands after a read
//! that failed: where it was, or behind what the read had consumed by then.

use vstd::prelude::*;
use vstd::slice::slice_subrange;
use crate::errors::{Decoded, KafkaErrors};
use crate::models::{opt_view, views};

verus! {

/// A readable stream over borrowed bytes. Its view is what is left to read.
#[derive(Clone, Copy, Debug)]
pub struct Reader<'a> {
    rest: &'a [u8],
}

impl<'a> View for Reader<'a> {
    type V = Seq<u8>;

    closed spec fn view(&self) -> Seq<u8> {
        self.rest@
    }
}

impl<'a> Reader<'a> {
    /// A reader that will yield all of `data`.
    pub fn new(data: &'a [u8]) -> (r: Self)
        ensures
            r@ == data@,
    {
        Reader { rest: data }
    }

    /// How many bytes are left.
    pub fn remaining(&self) -> (n: usize)
        ensures
            n == self@.len(),
    {
        self.rest.len()
    }

    /// Splits off the next `n` bytes as a reader of their own, so that whatever
    /// is parsed from them cannot run into the bytes that follow.
    pub fn take(&mut self, n: usize) -> (res: Result<Reader<'a>, KafkaErrors>)
        ensures
            match res {
                Ok(sub) => n <= old(self)@.len() && sub@ == old(self)@.take(n as int)
                    && final(self)@ == old(self)@.skip(n as int),
                Err(e) => n > old(self)@.len() && e == KafkaErrors::UnexpectedEndOfInput
                    && final(self)@ == old(self)@,
            },
    {
        let data = self.rest;
        if n > data.len() {
            return Err(KafkaErrors::UnexpectedEndOfInput);
        }
        let head = slice_subrange(data, 0, n);
        self.rest = slice_subrange(data, n, data.len());
        Ok(Reader { rest: head })
    }
}

/// The contract that the reading functions share. `res` is what the function
/// returned, `before` and `after` are what its stream held when it was called
/// and when it returned, and `expected` is what the decoder makes of `before`.
/// A successful read hands out the decoded value and leaves the stream at the
/// bytes that follow it; a failed read reports the decoder's error and leaves
/// the stream where it was.
pub open spec fn reads_as<T: View>(
    res: Result<T, KafkaErrors>,
    before: Seq<u8>,
    after: Seq<u8>,
    expected: Decoded<T::V>,
) -> bool {
    match expected {
        Ok((v, rest)) => res matches Ok(x) && x@ == v && after == rest,
        Err(e) => res == Err::<T, KafkaErrors>(e) && after == before,
    }
}

/// The contract of a reading function that has consumed bytes before it
/// fails. It reads as `reads_as` says where the read succeeds; a failed read
/// reports the decoder's error and leaves the stream at `behind`.
pub open spec fn reads_past<T: View>(
    res: Result<T, KafkaErrors>,
    after: Seq<u8>,
    expected: Decoded<T::V>,
    behind: Seq<u8>,
) -> bool {
    match expected {
        Ok((v, rest)) => res matches Ok(x) && x@ == v && after == rest,
        Err(e) => res == Err::<T, KafkaErrors>(e) && after == behind,
    }
}

/// A type that is read from the wire: its decoder, and the function that
/// follows the decoder on a stream.
pub trait KafkaRead: View + Sized {
    /// What the bytes at the front of `s` stand for.
    spec fn decode(s: Seq<u8>) -> Decoded<Self::V>;

    fn read(req: &mut Reader) -> (res: Result<Self, KafkaErrors>)
        ensures
            reads_as(res, old(req)@, final(req)@, Self::decode(old(req)@)),
    ;
}

/// 256 to the power `n`: how many values `n` bytes can tell apart.
pub open spec fn pow256(n: nat) -> nat
    decreases n,
{
    if n == 0 {
        1
    } else {
        256 * pow256((n - 1) as nat)
    }
}

/// The number that the bytes of `s` spell, most significant byte first.
pub open spec fn be_value(s: Seq<u8>) -> nat
    decreases s.len(),
{
    if s.len() == 0 {
        0
    } else {
        be_value(s.drop_last()) * 256 + s.last() as nat
    }
}

/// The two's complement reading of `u`, where `modulus` is the number of
/// values of the integer type.
pub open spec fn to_signed(u: nat, modulus: nat) -> int {
    if 2 * u >= modulus {
        u - modulus
    } else {
        u as int
    }
}

/// The unsigned number of the first `width` bytes of `s`.
pub open spec fn decode_be(s: Seq<u8>, width: nat) -> Decoded<nat> {
    if s.len() < width {
        Err(KafkaErrors::UnexpectedEndOfInput)
    } else {
        Ok((be_value(s.take(width as int)), s.skip(width as int)))
    }
}

/// The signed number of the first `width` bytes of `s`, in two's complement.
pub open spec fn decode_be_signed(s: Seq<u8>, width: nat) -> Decoded<int> {
    match decode_be(s, width) {
        Ok((u, rest)) => Ok((to_signed(u, pow256(width)), rest)),
        Err(e) => Err(e),
    }
}

/// The powers of 256 at the widths of the integer types.
pub proof fn lemma_pow256_values()
    ensures
        pow256(0) == 1,
        pow256(1) == 0x100,
        pow256(2) == 0x1_0000,
        pow256(4) == 0x1_0000_0000,
        pow256(8) == 0x1_0000_0000_0000_0000,
        pow256(16) == 0x1_0000_0000_0000_0000_0000_0000_0000_0000,
{
    reveal_with_fuel(pow256, 17);
}

/// The powers of 256 grow with the exponent.
pub proof fn lemma_pow256_grows(a: nat, b: nat)
    requires
        a <= b,
    ensures
        1 <= pow256(a) <= pow256(b),
    decreases b,
{
    if b == 0 {
    } else if a == b {
        lemma_pow256_grows(0, (b - 1) as nat);
    } else {
        lemma_pow256_grows(a, (b - 1) as nat);
    }
}

/// A number spelt with `n` bytes is below `256^n`.
pub proof fn lemma_be_value_bound(s: Seq<u8>)
    ensures
        be_value(s) < pow256(s.len()),
    decreases s.len(),
{
    if s.len() > 0 {
        lemma_be_value_bound(s.drop_last());
    }
}

/// Reads exactly `n` bytes.
pub fn read_bytes(req: &mut Reader, n: usize) -> (res: Result<Vec<u8>, KafkaErrors>)
    ensures
        match res {
            Ok(v) => n <= old(req)@.len() && v@ == old(req)@.take(n as int)
                && final(req)@ == old(req)@.skip(n as int),
            Err(e) => n > old(req)@.len() && e == KafkaErrors::UnexpectedEndOfInput
                && final(req)@ == old(req)@,
        },
{
    let head = req.take(n)?;
    Ok(vstd::slice::slice_to_vec(head.rest))
}

/// Reads `width` bytes as one unsigned big-endian number.
fn read_be(req: &mut Reader, width: usize) -> (res: Result<u128, KafkaErrors>)
    requires
        width <= 16,
    ensures
        match decode_be(old(req)@, width as nat) {
            Ok((v, rest)) => res == Ok::<u128, KafkaErrors>(v as u128) && v < pow256(width as nat)
                && final(req)@ == rest,
            Err(e) => res == Err::<u128, KafkaErrors>(e) && final(req)@ == old(req)@,
        },
{
    let head = req.take(width)?;
    let mut acc: u128 = 0;
    let mut i: usize = 0;
    while i < width
        invariant
            i <= width <= 16,
            head@.len() == width,
            acc == be_value(head@.take(i as int)),
        decreases width - i,
    {
        let b = head.rest[i];
        proof {
            let next = head@.take(i + 1);
            assert(next.drop_last() =~= head@.take(i as int));
            lemma_be_value_bound(next);
            lemma_pow256_grows((i + 1) as nat, 16);
            lemma_pow256_values();
        }
        acc = acc * 256 + b as u128;
        i += 1;
    }
    proof {
        assert(head@.take(width as int) =~= head@);
        lemma_be_value_bound(head@);
    }
    Ok(acc)
}

impl KafkaRead for u8 {
    open spec fn decode(s: Seq<u8>) -> Decoded<u8> {
        if s.len() < 1 {
            Err(KafkaErrors::UnexpectedEndOfInput)
        } else {
            Ok((s[0], s.skip(1)))
        }
    }

    fn read(req: &mut Reader) -> (res: Result<u8, KafkaErrors>) {
        read_u8(req)
    }
}

impl KafkaRead for i8 {
    open spec fn decode(s: Seq<u8>) -> Decoded<i8> {
        match u8::decode(s) {
            Ok((u, rest)) => Ok((to_signed(u as nat, 0x100) as i8, rest)),
            Err(e) => Err(e),
        }
    }

    fn read(req: &mut Reader) -> (res: Result<i8, KafkaErrors>) {
        read_byte(req)
    }
}

impl KafkaRead for bool {
    /// Any byte but zero stands for `true`.
    open spec fn decode(s: Seq<u8>) -> Decoded<bool> {
        match u8::decode(s) {
            Ok((u, rest)) => Ok((u != 0, rest)),
            Err(e) => Err(e),
        }
    }

    fn read(req: &mut Reader) -> (res: Result<bool, KafkaErrors>) {
        read_bool(req)
    }
}

impl KafkaRead for i16 {
    open spec fn decode(s: Seq<u8>) -> Decoded<i16> {
        match decode_be_signed(s, 2) {
            Ok((v, rest)) => Ok((v as i16, rest)),
            Err(e) => Err(e),
        }
    }

    fn read(req: &mut Reader) -> (res: Result<i16, KafkaErrors>) {
        read_short(req)
    }
}

impl KafkaRead for u16 {
    open spec fn decode(s: Seq<u8>) -> Decoded<u16> {
        match decode_be(s, 2) {
            Ok((u, rest)) => Ok((u as u16, rest)),
            Err(e) => Err(e),
        }
    }

    fn read(req: &mut Reader) -> (res: Result<u16, KafkaErrors>) {
        read_u16(req)
    }
}

impl KafkaRead for i32 {
    open spec fn decode(s: Seq<u8>) -> Decoded<i32> {
        match decode_be_signed(s, 4) {
            Ok((v, rest)) => Ok((v as i32, rest)),
            Err(e) => Err(e),
        }
    }

    fn read(req: &mut Reader) -> (res: Result<i32, KafkaErrors>) {
        read_int(req)
    }
}

impl KafkaRead for i64 {
    open spec fn decode(s: Seq<u8>) -> Decoded<i64> {
        match decode_be_signed(s, 8) {
            Ok((v, rest)) => Ok((v as i64, rest)),
            Err(e) => Err(e),
        }
    }

    fn read(req: &mut Reader) -> (res: Result<i64, KafkaErrors>) {
        read_long(req)
    }
}

impl KafkaRead for u32 {
    open spec fn decode(s: Seq<u8>) -> Decoded<u32> {
        match decode_be(s, 4) {
            Ok((u, rest)) => Ok((u as u32, rest)),
            Err(e) => Err(e),
        }
    }

    fn read(req: &mut Reader) -> (res: Result<u32, KafkaErrors>) {
        read_u32(req)
    }
}

impl KafkaRead for u64 {
    open spec fn decode(s: Seq<u8>) -> Decoded<u64> {
        match decode_be(s, 8) {
            Ok((u, rest)) => Ok((u as u64, rest)),
            Err(e) => Err(e),
        }
    }

    fn read(req: &mut Reader) -> (res: Result<u64, KafkaErrors>) {
        read_u64(req)
    }
}

impl KafkaRead for u128 {
    open spec fn decode(s: Seq<u8>) -> Decoded<u128> {
        match decode_be(s, 16) {
            Ok((u, rest)) => Ok((u as u128, rest)),
            Err(e) => Err(e),
        }
    }

    fn read(req: &mut Reader) -> (res: Result<u128, KafkaErrors>) {
        read_u128(req)
    }
}

/// Reads an unsigned byte.
pub fn read_u8(req: &mut Reader) -> (res: Result<u8, KafkaErrors>)
    ensures
        reads_as(res, old(req)@, final(req)@, u8::decode(old(req)@)),
{
    let head = req.take(1)?;
    Ok(head.rest[0])
}

/// Reads a signed byte.
pub fn read_byte(req: &mut Reader) -> (res: Result<i8, KafkaErrors>)
    ensures
        reads_as(res, old(req)@, final(req)@, i8::decode(old(req)@)),
{
    let u = read_u8(req)?;
    if u >= 0x80 {
        Ok((u as i16 - 0x100) as i8)
    } else {
        Ok(u as i8)
    }
}

/// Reads a boolean.
pub fn read_bool(req: &mut Reader) -> (res: Result<bool, KafkaErrors>)
    ensures
        reads_as(res, old(req)@, final(req)@, bool::decode(old(req)@)),
{
    let u = read_u8(req)?;
    Ok(u != 0)
}

/// Reads a signed 16-bit integer.
pub fn read_short(req: &mut Reader) -> (res: Result<i16, KafkaErrors>)
    ensures
        reads_as(res, old(req)@, final(req)@, i16::decode(old(req)@)),
{
    proof {
        lemma_pow256_values();
    }
    let u = read_be(req, 2)?;
    if u >= 0x8000 {
        Ok((u as i32 - 0x1_0000) as i16)
    } else {
        Ok(u as i16)
    }
}

/// Reads an unsigned 16-bit integer.
pub fn read_u16(req: &mut Reader) -> (res: Result<u16, KafkaErrors>)
    ensures
        reads_as(res, old(req)@, final(req)@, u16::decode(old(req)@)),
{
    proof {
        lemma_pow256_values();
    }
    let u = read_be(req, 2)?;
    Ok(u as u16)
}

/// Reads a signed 32-bit integer.
pub fn read_int(req: &mut Reader) -> (res: Result<i32, KafkaErrors>)
    ensures
        reads_as(res, old(req)@, final(req)@, i32::decode(old(req)@)),
{
    proof {
        lemma_pow256_values();
    }
    let u = read_be(req, 4)?;
    if u >= 0x8000_0000 {
        Ok((u as i64 - 0x1_0000_0000) as i32)
    } else {
        Ok(u as i32)
    }
}

/// Reads a signed 64-bit integer.
pub fn read_long(req: &mut Reader) -> (res: Result<i64, KafkaErrors>)
    ensures
        reads_as(res, old(req)@, final(req)@, i64::decode(old(req)@)),
{
    proof {
        lemma_pow256_values();
    }
    let u = read_be(req, 8)?;
    if u >= 0x8000_0000_0000_0000 {
        Ok((u as i128 - 0x1_0000_0000_0000_0000) as i64)
    } else {
        Ok(u as i64)
    }
}

/// Reads an unsigned 32-bit integer.
pub fn read_u32(req: &mut Reader) -> (res: Result<u32, KafkaErrors>)
    ensures
        reads_as(res, old(req)@, final(req)@, u32::decode(old(req)@)),
{
    proof {
        lemma_pow256_values();
    }
    let u = read_be(req, 4)?;
    Ok(u as u32)
}

/// Reads an unsigned 64-bit integer.
pub fn read_u64(req: &mut Reader) -> (res: Result<u64, KafkaErrors>)
    ensures
        reads_as(res, old(req)@, final(req)@, u64::decode(old(req)@)),
{
    proof {
        lemma_pow256_values();
    }
    let u = read_be(req, 8)?;
    Ok(u as u64)
}

/// Reads a UUID: sixteen bytes as one number.
pub fn read_u128(req: &mut Reader) -> (res: Result<u128, KafkaErrors>)
    ensures
        reads_as(res, old(req)@, final(req)@, u128::decode(old(req)@)),
{
    proof {
        lemma_pow256_values();
    }
    read_be(req, 16)
}

/// 128 to the power `n`: how many values `n` bytes of a variable-length
/// integer can tell apart.
pub open spec fn pow128(n: nat) -> nat
    decreases n,
{
    if n == 0 {
        1
    } else {
        128 * pow128((n - 1) as nat)
    }
}

/// The variable-length integer at the front of `s`, as its value and the
/// number of bytes it takes. Each byte carries seven bits, least significant
/// group first, and its high bit says that another byte follows. A number
/// that has not ended after `limit` bytes is malformed.
pub open spec fn uvarint_prefix(s: Seq<u8>, limit: nat) -> Result<(nat, nat), KafkaErrors>
    decreases limit,
{
    if limit == 0 {
        Err(KafkaErrors::MalformedVarint)
    } else if s.len() == 0 {
        Err(KafkaErrors::UnexpectedEndOfInput)
    } else if s[0] < 0x80 {
        Ok((s[0] as nat, 1))
    } else {
        match uvarint_prefix(s.skip(1), (limit - 1) as nat) {
            Ok((v, n)) => Ok(((s[0] - 0x80) as nat + 128 * v, n + 1)),
            Err(e) => Err(e),
        }
    }
}

/// An unsigned variable-length integer of at most five bytes. Bits beyond the
/// thirty-second are dropped.
pub open spec fn decode_uvarint(s: Seq<u8>) -> Decoded<u32> {
    match uvarint_prefix(s, 5) {
        Ok((v, n)) => Ok(((v % 0x1_0000_0000) as u32, s.skip(n as int))),
        Err(e) => Err(e),
    }
}

/// Where a stream stands after a variable-length integer could not be read
/// from `s`: behind the five bytes that were read where the integer is
/// malformed, and at `s` where the input ended too early.
pub open spec fn behind_failed_uvarint(s: Seq<u8>) -> Seq<u8> {
    if uvarint_prefix(s, 5) == Err::<(nat, nat), KafkaErrors>(KafkaErrors::MalformedVarint) {
        s.skip(5)
    } else {
        s
    }
}

/// The signed number that the zig-zag code `u` stands for: even codes are the
/// numbers from zero up, odd codes those from minus one down.
pub open spec fn zigzag_decode(u: u32) -> i32 {
    if u % 2 == 0 {
        (u / 2) as i32
    } else {
        (-(u / 2) - 1) as i32
    }
}

/// A signed variable-length integer: an unsigned one, read as a zig-zag code.
pub open spec fn decode_varint(s: Seq<u8>) -> Decoded<i32> {
    match decode_uvarint(s) {
        Ok((u, rest)) => Ok((zigzag_decode(u), rest)),
        Err(e) => Err(e),
    }
}

/// The powers of 128 up to the fifth.
pub proof fn lemma_pow128_values()
    ensures
        pow128(0) == 1,
        pow128(1) == 0x80,
        pow128(2) == 0x4000,
        pow128(3) == 0x20_0000,
        pow128(4) == 0x1000_0000,
        pow128(5) == 0x8_0000_0000,
{
    reveal_with_fuel(pow128, 6);
}

/// A variable-length integer of at most `limit` bytes is below `128^limit`,
/// and lies within the bytes it was read from.
pub proof fn lemma_uvarint_prefix_bounds(s: Seq<u8>, limit: nat)
    ensures
        uvarint_prefix(s, limit) matches Ok((v, n)) ==> v < pow128(limit) && 1 <= n <= limit && n
            <= s.len(),
    decreases limit,
{
    if limit > 0 && s.len() > 0 && s[0] >= 0x80 {
        lemma_uvarint_prefix_bounds(s.skip(1), (limit - 1) as nat);
    } else if limit > 0 {
        assert(pow128(limit) >= 128) by {
            lemma_pow128_at_least((limit - 1) as nat);
        }
    }
}

/// No power of 128 is zero.
pub proof fn lemma_pow128_at_least(n: nat)
    ensures
        pow128(n) >= 1,
    decreases n,
{
    if n > 0 {
        lemma_pow128_at_least((n - 1) as nat);
    }
}

/// A variable-length integer is malformed only where every one of the
/// `limit` bytes that may be read says that another follows.
pub proof fn lemma_uvarint_malformed(s: Seq<u8>, limit: nat)
    requires
        uvarint_prefix(s, limit) == Err::<(nat, nat), KafkaErrors>(KafkaErrors::MalformedVarint),
    ensures
        s.len() >= limit,
        forall|i: int| 0 <= i < limit ==> #[trigger] s[i] >= 0x80,
    decreases limit,
{
    if limit > 0 {
        lemma_uvarint_malformed(s.skip(1), (limit - 1) as nat);
        assert forall|i: int| 0 <= i < limit implies #[trigger] s[i] >= 0x80 by {
            if i > 0 {
                assert(s[i] == s.skip(1)[i - 1]);
            }
        }
    }
}

/// Reads a variable-length integer of at most `limit` bytes. Where the
/// integer is malformed, the `limit` bytes that were read are consumed.
fn read_uvarint_within(req: &mut Reader, limit: u8) -> (res: Result<u64, KafkaErrors>)
    requires
        limit <= 5,
    ensures
        match uvarint_prefix(old(req)@, limit as nat) {
            Ok((v, n)) => res == Ok::<u64, KafkaErrors>(v as u64) && final(req)@ == old(req)@.skip(
                n as int,
            ),
            Err(e) => res == Err::<u64, KafkaErrors>(e) && final(req)@ == if e
                == KafkaErrors::MalformedVarint {
                old(req)@.skip(limit as int)
            } else {
                old(req)@
            },
        },
    decreases limit,
{
    if limit == 0 {
        assert(req@.skip(0) =~= req@);
        return Err(KafkaErrors::MalformedVarint);
    }
    let mut cur = *req;
    let b = read_u8(&mut cur)?;
    if b < 0x80 {
        *req = cur;
        return Ok(b as u64);
    }
    proof {
        lemma_uvarint_prefix_bounds(cur@, (limit - 1) as nat);
        lemma_pow128_values();
    }
    match read_uvarint_within(&mut cur, limit - 1) {
        Ok(v) => {
            proof {
                let n = uvarint_prefix(old(req)@.skip(1), (limit - 1) as nat)->Ok_0.1;
                assert(old(req)@.skip(1).skip(n as int) =~= old(req)@.skip(n as int + 1));
            }
            *req = cur;
            Ok((b - 0x80) as u64 + 128 * v)
        },
        Err(e) => {
            if e == KafkaErrors::MalformedVarint {
                proof {
                    lemma_uvarint_malformed(old(req)@.skip(1), (limit - 1) as nat);
                    assert(old(req)@.skip(1).skip(limit - 1) =~= old(req)@.skip(limit as int));
                }
                *req = cur;
            }
            Err(e)
        },
    }
}

/// Reads an unsigned variable-length integer. Where the integer is
/// malformed, the five bytes that were read are consumed; where the input
/// ends too early, none is.
pub fn read_uvarint(req: &mut Reader) -> (res: Result<u32, KafkaErrors>)
    ensures
        reads_past(res, final(req)@, decode_uvarint(old(req)@), behind_failed_uvarint(old(req)@)),
{
    proof {
        lemma_uvarint_prefix_bounds(req@, 5);
        lemma_pow128_values();
    }
    let v = read_uvarint_within(req, 5)?;
    Ok((v % 0x1_0000_0000) as u32)
}

/// Reads a signed variable-length integer. Where the integer is malformed,
/// the five bytes that were read are consumed; where the input ends too
/// early, none is.
pub fn read_varint(req: &mut Reader) -> (res: Result<i32, KafkaErrors>)
    ensures
        reads_past(res, final(req)@, decode_varint(old(req)@), behind_failed_uvarint(old(req)@)),
{
    let u = read_uvarint(req)?;
    if u % 2 == 0 {
        Ok((u / 2) as i32)
    } else {
        Ok((-((u / 2) as i64) - 1) as i32)
    }
}

/// Compact bytes that may be absent: a variable-length integer that holds
/// the length plus one, zero for "absent", and then the bytes.
pub open spec fn decode_compact_bytes(s: Seq<u8>) -> Decoded<Option<Seq<u8>>> {
    match decode_uvarint(s) {
        Err(e) => Err(e),
        Ok((n, rest)) => if n == 0 {
            Ok((None, rest))
        } else if rest.len() < n - 1 {
            Err(KafkaErrors::UnexpectedEndOfInput)
        } else {
            Ok((Some(rest.take(n - 1)), rest.skip(n - 1)))
        },
    }
}

/// A compact string that is expected to be there: the absent form reads as
/// the empty string.
pub open spec fn decode_compact_string(s: Seq<u8>) -> Decoded<Seq<u8>> {
    match decode_compact_bytes(s) {
        Err(e) => Err(e),
        Ok((Some(bytes), rest)) => Ok((bytes, rest)),
        Ok((None, rest)) => Ok((Seq::empty(), rest)),
    }
}

/// Reads a compact string, or compact bytes, that may be absent.
pub fn read_nullable_compact_string(req: &mut Reader) -> (res: Result<Option<Vec<u8>>, KafkaErrors>)
    ensures
        match decode_compact_bytes(old(req)@) {
            Ok((v, rest)) => res matches Ok(x) && opt_view(x) == v && final(req)@ == rest,
            Err(e) => res == Err::<Option<Vec<u8>>, KafkaErrors>(e) && final(req)@ == old(req)@,
        },
{
    let mut cur = *req;
    let n = read_uvarint(&mut cur)?;
    if n == 0 {
        *req = cur;
        return Ok(None);
    }
    let bytes = read_bytes(&mut cur, (n - 1) as usize)?;
    *req = cur;
    Ok(Some(bytes))
}

/// Reads a compact string.
pub fn read_compact_string(req: &mut Reader) -> (res: Result<Vec<u8>, KafkaErrors>)
    ensures
        reads_as(res, old(req)@, final(req)@, decode_compact_string(old(req)@)),
{
    match read_nullable_compact_string(req)? {
        Some(bytes) => Ok(bytes),
        None => Ok(Vec::new()),
    }
}

/// A string behind a signed 16-bit length, where the length -1 stands for
/// "absent". No other negative length is a string.
pub open spec fn decode_nullable_string_bytes(s: Seq<u8>) -> Decoded<Option<Seq<u8>>> {
    match i16::decode(s) {
        Err(e) => Err(e),
        Ok((n, rest)) => if n == -1 {
            Ok((None, rest))
        } else if n < 0 {
            Err(KafkaErrors::MalformedFrame)
        } else if rest.len() < n {
            Err(KafkaErrors::UnexpectedEndOfInput)
        } else {
            Ok((Some(rest.take(n as int)), rest.skip(n as int)))
        },
    }
}

/// Reads a string behind a 16-bit length.
pub fn decode_nullable_string(req: &mut Reader) -> (res: Result<Option<Vec<u8>>, KafkaErrors>)
    ensures
        match decode_nullable_string_bytes(old(req)@) {
            Ok((v, rest)) => res matches Ok(x) && opt_view(x) == v && final(req)@ == rest,
            Err(e) => res == Err::<Option<Vec<u8>>, KafkaErrors>(e) && final(req)@ == old(req)@,
        },
{
    let mut cur = *req;
    let n = read_short(&mut cur)?;
    if n == -1 {
        *req = cur;
        return Ok(None);
    }
    if n < 0 {
        return Err(KafkaErrors::MalformedFrame);
    }
    let bytes = read_bytes(&mut cur, n as usize)?;
    *req = cur;
    Ok(Some(bytes))
}

/// What is left of `s` behind `n` tagged fields. A tagged field is a tag, a
/// length, both variable-length integers, and as many bytes as the length says.
pub open spec fn skip_tagged_fields(s: Seq<u8>, n: nat) -> Decoded<()>
    decreases n,
{
    if n == 0 {
        Ok(((), s))
    } else {
        match decode_uvarint(s) {
            Err(e) => Err(e),
            Ok((_, after_tag)) => match decode_uvarint(after_tag) {
                Err(e) => Err(e),
                Ok((len, body)) => if body.len() < len {
                    Err(KafkaErrors::UnexpectedEndOfInput)
                } else {
                    skip_tagged_fields(body.skip(len as int), (n - 1) as nat)
                },
            },
        }
    }
}

/// A tag buffer: the number of tagged fields, then the fields. Nothing of it
/// is kept.
pub open spec fn decode_tag_buffer(s: Seq<u8>) -> Decoded<()> {
    match decode_uvarint(s) {
        Err(e) => Err(e),
        Ok((n, rest)) => skip_tagged_fields(rest, n as nat),
    }
}

/// Reads a tag buffer and discards it.
pub fn tag_buffer(req: &mut Reader) -> (res: Result<(), KafkaErrors>)
    ensures
        reads_as(res, old(req)@, final(req)@, decode_tag_buffer(old(req)@)),
{
    let mut cur = *req;
    let n = read_uvarint(&mut cur)?;
    let ghost fields = cur@;
    let mut i: u32 = 0;
    while i < n
        invariant
            i <= n,
            req@ == old(req)@,
            decode_uvarint(old(req)@) == Ok::<(u32, Seq<u8>), KafkaErrors>((n, fields)),
            skip_tagged_fields(fields, n as nat) == skip_tagged_fields(cur@, (n - i) as nat),
        decreases n - i,
    {
        let _tag = read_uvarint(&mut cur)?;
        let len = read_uvarint(&mut cur)?;
        let _ = cur.take(len as usize)?;
        i += 1;
    }
    *req = cur;
    Ok(())
}

/// `n` values of one type, one behind the other.
pub open spec fn decode_many<T: KafkaRead>(s: Seq<u8>, n: nat) -> Decoded<Seq<T::V>>
    decreases n,
{
    if n == 0 {
        Ok((Seq::empty(), s))
    } else {
        match T::decode(s) {
            Err(e) => Err(e),
            Ok((first, rest)) => match decode_many::<T>(rest, (n - 1) as nat) {
                Err(e) => Err(e),
                Ok((others, end)) => Ok((seq![first] + others, end)),
            },
        }
    }
}

/// A compact array: a variable-length integer that holds the number of items
/// plus one, then the items. The absent form, zero, reads as no items.
pub open spec fn decode_array<T: KafkaRead>(s: Seq<u8>) -> Decoded<Seq<T::V>> {
    match decode_uvarint(s) {
        Err(e) => Err(e),
        Ok((n, rest)) => decode_many::<T>(rest, if n == 0 { 0 } else { (n - 1) as nat }),
    }
}

/// `reads_as` for a function that returns the items of an array.
pub open spec fn reads_all_as<T: View>(
    res: Result<Vec<T>, KafkaErrors>,
    before: Seq<u8>,
    after: Seq<u8>,
    expected: Decoded<Seq<T::V>>,
) -> bool {
    match expected {
        Ok((items, rest)) => res matches Ok(v) && views(v@) == items && after == rest,
        Err(e) => res == Err::<Vec<T>, KafkaErrors>(e) && after == before,
    }
}

/// What a decoder yields when `done` has been decoded before it started.
pub open spec fn behind<V>(done: Seq<V>, more: Decoded<Seq<V>>) -> Decoded<Seq<V>> {
    match more {
        Ok((others, end)) => Ok((done + others, end)),
        Err(e) => Err(e),
    }
}

/// Decoding one item and then `n` more is decoding `n + 1` items.
pub proof fn lemma_decode_many_step<T: KafkaRead>(done: Seq<T::V>, s: Seq<u8>, n: nat)
    requires
        n > 0,
    ensures
        behind(done, decode_many::<T>(s, n)) == match T::decode(s) {
            Err(e) => Err(e),
            Ok((first, rest)) => behind(done.push(first), decode_many::<T>(rest, (n - 1) as nat)),
        },
{
    match T::decode(s) {
        Err(e) => {},
        Ok((first, rest)) => {
            match decode_many::<T>(rest, (n - 1) as nat) {
                Err(e) => {},
                Ok((others, end)) => {
                    assert(done + (seq![first] + others) =~= done.push(first) + others);
                },
            }
        },
    }
}

/// Reads `count` values of one type, one behind the other.
pub fn read_many<T: KafkaRead>(req: &mut Reader, count: usize) -> (res: Result<Vec<T>, KafkaErrors>)
    ensures
        reads_all_as(res, old(req)@, final(req)@, decode_many::<T>(old(req)@, count as nat)),
{
    let mut cur = *req;
    let mut items: Vec<T> = Vec::new();
    let mut i: usize = 0;
    assert(views(items@) + Seq::<T::V>::empty() =~= views(items@));
    while i < count
        invariant
            i <= count,
            req@ == old(req)@,
            decode_many::<T>(old(req)@, count as nat) == behind(
                views(items@),
                decode_many::<T>(cur@, (count - i) as nat),
            ),
        decreases count - i,
    {
        proof {
            lemma_decode_many_step::<T>(views(items@), cur@, (count - i) as nat);
        }
        let ghost before = items@;
        let item = T::read(&mut cur)?;
        items.push(item);
        assert(views(items@) =~= views(before).push(item@));
        i += 1;
    }
    assert(views(items@) + Seq::<T::V>::empty() =~= views(items@));
    *req = cur;
    Ok(items)
}

/// Reads a compact array of any type that can be read.
pub fn read_array<T: KafkaRead>(req: &mut Reader) -> (res: Result<Vec<T>, KafkaErrors>)
    ensures
        reads_all_as(res, old(req)@, final(req)@, decode_array::<T>(old(req)@)),
{
    let mut cur = *req;
    let n = read_uvarint(&mut cur)?;
    let count = if n == 0 { 0 } else { n - 1 };
    let items = read_many::<T>(&mut cur, count as usize)?;
    *req = cur;
    Ok(items)
}

/// Reads a compact array of 32-bit integers.
pub fn read_int_array(req: &mut Reader) -> (res: Result<Vec<i32>, KafkaErrors>)
    ensures
        reads_as(res, old(req)@, final(req)@, decode_array::<i32>(old(req)@)),
{
    let res = read_array::<i32>(req);
    proof {
        if res is Ok {
            assert(views(res->Ok_0@) =~= res->Ok_0@);
        }
    }
    res
}

/// Reads a compact array of UUIDs.
pub fn read_u128_array(req: &mut Reader) -> (res: Result<Vec<u128>, KafkaErrors>)
    ensures
        reads_as(res, old(req)@, final(req)@, decode_array::<u128>(old(req)@)),
{
    let res = read_array::<u128>(req);
    proof {
        if res is Ok {
            assert(views(res->Ok_0@) =~= res->Ok_0@);
        }
    }
    res
}

/// `n` names, one behind the other, each a compact string with a tag buffer
/// behind it.
pub open spec fn decode_names(s: Seq<u8>, n: nat) -> Decoded<Seq<Seq<u8>>>
    decreases n,
{
    if n == 0 {
        Ok((Seq::empty(), s))
    } else {
        match decode_compact_string(s) {
            Err(e) => Err(e),
            Ok((first, s1)) => match decode_tag_buffer(s1) {
                Err(e) => Err(e),
                Ok((_, s2)) => match decode_names(s2, (n - 1) as nat) {
                    Err(e) => Err(e),
                    Ok((others, end)) => Ok((seq![first] + others, end)),
                },
            },
        }
    }
}

/// A compact array of names.
pub open spec fn decode_name_array(s: Seq<u8>) -> Decoded<Seq<Seq<u8>>> {
    match decode_uvarint(s) {
        Err(e) => Err(e),
        Ok((n, rest)) => decode_names(rest, if n == 0 { 0 } else { (n - 1) as nat }),
    }
}

/// The bytes of each of some strings, in order.
pub open spec fn all_bytes(items: Seq<Vec<u8>>) -> Seq<Seq<u8>> {
    items.map_values(|v: Vec<u8>| v@)
}

/// Reads a compact array of names, each with a tag buffer behind it.
pub fn array(req: &mut Reader) -> (res: Result<Vec<Vec<u8>>, KafkaErrors>)
    ensures
        match decode_name_array(old(req)@) {
            Ok((names, rest)) => res matches Ok(v) && all_bytes(v@) == names && final(req)@ == rest,
            Err(e) => res == Err::<Vec<Vec<u8>>, KafkaErrors>(e) && final(req)@ == old(req)@,
        },
{
    let mut cur = *req;
    let n = read_uvarint(&mut cur)?;
    let count = if n == 0 { 0 } else { n - 1 };
    let ghost start = cur@;
    let mut result: Vec<Vec<u8>> = Vec::new();
    let mut i: u32 = 0;
    assert(all_bytes(result@) + Seq::<Seq<u8>>::empty() =~= all_bytes(result@));
    while i < count
        invariant
            i <= count,
            req@ == old(req)@,
            decode_name_array(old(req)@) == decode_names(start, count as nat),
            decode_names(start, count as nat) == behind(
                all_bytes(result@),
                decode_names(cur@, (count - i) as nat),
            ),
        decreases count - i,
    {
        let ghost before = result@;
        let name = read_compact_string(&mut cur)?;
        tag_buffer(&mut cur)?;
        result.push(name);
        proof {
            assert(all_bytes(result@) =~= all_bytes(before).push(name@));
            if let Ok((others, end)) = decode_names(cur@, (count - i - 1) as nat) {
                assert(all_bytes(before) + (seq![name@] + others) =~= all_bytes(result@) + others);
            }
        }
        i += 1;
    }
    assert(all_bytes(result@) + Seq::<Seq<u8>>::empty() =~= all_bytes(result@));
    *req = cur;
    Ok(result)
}

} // verus!
