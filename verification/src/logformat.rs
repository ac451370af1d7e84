//! The log format reads back what it writes: the laws that tie the encoders
//! of `records` to its decoders.
//!
//! A decoder accepts more than the encoder writes, a variable-length integer
//! with needless bytes for one. So the laws speak of values in the form in
//! which the encoder writes them, which the predicates of this module name.

use vstd::prelude::*;
use crate::errors::KafkaErrors;
use crate::parser::{KafkaRead, decode_many, decode_varint, lemma_pow256_values};
use crate::records::{
    BatchHeader, KAFKA_RECORDTYPE_FEATURE, KAFKA_RECORDTYPE_PARTITION, KAFKA_RECORDTYPE_TOPIC,
    KafkaRecord, KafkaRecordFeature, KafkaRecordFeatureView, KafkaRecordHeader,
    KafkaRecordHeaderView, KafkaRecordPartitionRecord, KafkaRecordPartitionRecordView,
    KafkaRecordTopicRecord, KafkaRecordTopicRecordView, KafkaRecordValue, KafkaRecordValueView,
    KafkaRecordView, RecordsBatch, RecordsBatchView, crc32c_of, decode_value_frame, value_frame,
};
use crate::roundtrip::{
    lemma_array_round_trip, lemma_be_bytes_value, lemma_compact_string_round_trip,
    lemma_decode_many_front, lemma_encode_all_front, lemma_i16_round_trip, lemma_i32_round_trip,
    lemma_i32_round_trips, lemma_i64_round_trip, lemma_i8_round_trip, lemma_tag_buffer_round_trip,
    lemma_u128_round_trip, lemma_u128_round_trips, lemma_u32_round_trip, lemma_u64_round_trip,
    lemma_varint_round_trip,
};
use crate::writer::{
    KafkaWrite, compact_bytes, empty_tag_buffer, encode_all, encode_array, to_unsigned,
    uvarint_bytes, varint_bytes,
};

verus! {

/// Bytes behind two pieces are behind the first and then behind the second.
pub proof fn lemma_behind(a: Seq<u8>, b: Seq<u8>, rest: Seq<u8>)
    ensures
        (a + b) + rest == a + (b + rest),
{
    assert((a + b) + rest =~= a + (b + rest));
}

/// Whether a string, or an array, is short enough for the decoder of a
/// compact length, which reads the length plus one in 32 bits.
pub open spec fn fits_compact(len: nat) -> bool {
    len < 0xFFFF_FFFF
}

/// A header whose strings are short enough for compact lengths.
pub open spec fn header_fits(h: KafkaRecordHeaderView) -> bool {
    fits_compact(h.key.len()) && fits_compact(h.value.len())
}

/// A header reads back as it was written.
pub proof fn lemma_header_round_trip(h: KafkaRecordHeaderView, rest: Seq<u8>)
    requires
        header_fits(h),
    ensures
        KafkaRecordHeader::decode(KafkaRecordHeader::encode(h) + rest) == Ok::<
            (KafkaRecordHeaderView, Seq<u8>),
            KafkaErrors,
        >((h, rest)),
{
    let behind_key = compact_bytes(h.value) + rest;
    lemma_behind(compact_bytes(h.key), compact_bytes(h.value), rest);
    lemma_compact_string_round_trip(h.key, behind_key);
    lemma_compact_string_round_trip(h.value, rest);
}

/// The frame fields of a value that holds a record; zero for one that holds
/// none.
pub open spec fn frame_of(v: KafkaRecordValueView) -> (i8, i8, i8) {
    match v {
        KafkaRecordValueView::Invalid => (0, 0, 0),
        KafkaRecordValueView::KafkaRecordFeatureType(f) => (
            f.frame_version,
            f.frame_type,
            f.version,
        ),
        KafkaRecordValueView::KafkaRecordTopicRecordType(t) => (
            t.frame_version,
            t.frame_type,
            t.version,
        ),
        KafkaRecordValueView::KafkaRecordPartitionType(p) => (
            p.frame_version,
            p.frame_type,
            p.version,
        ),
    }
}

/// A value in the form in which it is written: its frame type is that of
/// its kind, and its strings and arrays are short enough for compact lengths.
pub open spec fn value_fits(v: KafkaRecordValueView) -> bool {
    match v {
        KafkaRecordValueView::Invalid => true,
        KafkaRecordValueView::KafkaRecordFeatureType(f) => f.frame_type
            == KAFKA_RECORDTYPE_FEATURE && fits_compact(f.name.len()),
        KafkaRecordValueView::KafkaRecordTopicRecordType(t) => t.frame_type
            == KAFKA_RECORDTYPE_TOPIC && fits_compact(t.topic_name.len()),
        KafkaRecordValueView::KafkaRecordPartitionType(p) => {
            &&& p.frame_type == KAFKA_RECORDTYPE_PARTITION
            &&& fits_compact(p.replica_array.len())
            &&& fits_compact(p.insync_replica_array.len())
            &&& fits_compact(p.removing_replica_array.len())
            &&& fits_compact(p.adding_replica_array.len())
            &&& fits_compact(p.dir_array.len())
        },
    }
}

/// The three bytes that a control-record value begins with read back.
pub proof fn lemma_frame_round_trip(frame_version: i8, frame_type: i8, version: i8, body: Seq<u8>)
    ensures
        decode_value_frame(value_frame(frame_version, frame_type, version) + body) == Ok::<
            ((i8, i8, i8), Seq<u8>),
            KafkaErrors,
        >(((frame_version, frame_type, version), body)),
{
    let behind_type = i8::encode(version) + body;
    let behind_version = i8::encode(frame_type) + behind_type;
    lemma_behind(i8::encode(frame_version) + i8::encode(frame_type), i8::encode(version), body);
    lemma_behind(i8::encode(frame_version), i8::encode(frame_type), behind_type);
    lemma_i8_round_trip(frame_version, behind_version);
    lemma_i8_round_trip(frame_type, behind_type);
    lemma_i8_round_trip(version, body);
}

/// What follows the frame of a feature-level record reads back.
pub proof fn lemma_feature_body_round_trip(f: KafkaRecordFeatureView, rest: Seq<u8>)
    requires
        fits_compact(f.name.len()),
    ensures
        KafkaRecordFeature::decode_body(KafkaRecordFeature::encode_body(f) + rest) == Ok::<
            (KafkaRecordFeatureView, Seq<u8>),
            KafkaErrors,
        >((KafkaRecordFeatureView { frame_version: 0, frame_type: 0, version: 0, ..f }, rest)),
{
    let behind_level = empty_tag_buffer() + rest;
    let behind_name = i16::encode(f.feature_level) + behind_level;
    lemma_behind(
        compact_bytes(f.name) + i16::encode(f.feature_level),
        empty_tag_buffer(),
        rest,
    );
    lemma_behind(compact_bytes(f.name), i16::encode(f.feature_level), behind_level);
    lemma_compact_string_round_trip(f.name, behind_name);
    lemma_i16_round_trip(f.feature_level, behind_level);
    lemma_tag_buffer_round_trip(rest);
}

/// What follows the frame of a topic record reads back.
pub proof fn lemma_topic_body_round_trip(t: KafkaRecordTopicRecordView, rest: Seq<u8>)
    requires
        fits_compact(t.topic_name.len()),
    ensures
        KafkaRecordTopicRecord::decode_body(KafkaRecordTopicRecord::encode_body(t) + rest) == Ok::<
            (KafkaRecordTopicRecordView, Seq<u8>),
            KafkaErrors,
        >((KafkaRecordTopicRecordView { frame_version: 0, frame_type: 0, version: 0, ..t }, rest)),
{
    let behind_uuid = empty_tag_buffer() + rest;
    let behind_name = u128::encode(t.topic_uuid) + behind_uuid;
    lemma_behind(
        compact_bytes(t.topic_name) + u128::encode(t.topic_uuid),
        empty_tag_buffer(),
        rest,
    );
    lemma_behind(compact_bytes(t.topic_name), u128::encode(t.topic_uuid), behind_uuid);
    lemma_compact_string_round_trip(t.topic_name, behind_name);
    lemma_u128_round_trip(t.topic_uuid, behind_uuid);
    lemma_tag_buffer_round_trip(rest);
}

/// The four replica arrays of a partition record read back.
pub proof fn lemma_replicas_round_trip(p: KafkaRecordPartitionRecordView, rest: Seq<u8>)
    requires
        fits_compact(p.replica_array.len()),
        fits_compact(p.insync_replica_array.len()),
        fits_compact(p.removing_replica_array.len()),
        fits_compact(p.adding_replica_array.len()),
    ensures
        KafkaRecordPartitionRecord::decode_replicas(
            KafkaRecordPartitionRecord::encode_replicas(p) + rest,
        ) == Ok::<((Seq<i32>, Seq<i32>, Seq<i32>, Seq<i32>), Seq<u8>), KafkaErrors>(
            (
                (
                    p.replica_array,
                    p.insync_replica_array,
                    p.removing_replica_array,
                    p.adding_replica_array,
                ),
                rest,
            ),
        ),
{
    let a1 = encode_array::<i32>(p.replica_array);
    let a2 = encode_array::<i32>(p.insync_replica_array);
    let a3 = encode_array::<i32>(p.removing_replica_array);
    let a4 = encode_array::<i32>(p.adding_replica_array);
    let s3 = a4 + rest;
    let s2 = a3 + s3;
    let s1 = a2 + s2;
    lemma_behind(a1 + a2 + a3, a4, rest);
    lemma_behind(a1 + a2, a3, s3);
    lemma_behind(a1, a2, s2);
    lemma_i32_round_trips();
    lemma_array_round_trip::<i32>(p.replica_array, s1);
    lemma_array_round_trip::<i32>(p.insync_replica_array, s2);
    lemma_array_round_trip::<i32>(p.removing_replica_array, s3);
    lemma_array_round_trip::<i32>(p.adding_replica_array, rest);
}

/// The leader, the epochs and the directories of a partition record read
/// back.
pub proof fn lemma_leadership_round_trip(p: KafkaRecordPartitionRecordView, rest: Seq<u8>)
    requires
        fits_compact(p.dir_array.len()),
    ensures
        KafkaRecordPartitionRecord::decode_leadership(
            KafkaRecordPartitionRecord::encode_leadership(p) + rest,
        ) == Ok::<((i32, i32, i32, Seq<u128>), Seq<u8>), KafkaErrors>(
            ((p.leader, p.leader_epoch, p.partition_epoch, p.dir_array), rest),
        ),
{
    let e1 = i32::encode(p.leader);
    let e2 = i32::encode(p.leader_epoch);
    let e3 = i32::encode(p.partition_epoch);
    let e4 = encode_array::<u128>(p.dir_array);
    let s4 = empty_tag_buffer() + rest;
    let s3 = e4 + s4;
    let s2 = e3 + s3;
    let s1 = e2 + s2;
    lemma_behind(e1 + e2 + e3 + e4, empty_tag_buffer(), rest);
    lemma_behind(e1 + e2 + e3, e4, s4);
    lemma_behind(e1 + e2, e3, s3);
    lemma_behind(e1, e2, s2);
    lemma_i32_round_trip(p.leader, s1);
    lemma_i32_round_trip(p.leader_epoch, s2);
    lemma_i32_round_trip(p.partition_epoch, s3);
    lemma_u128_round_trips();
    lemma_array_round_trip::<u128>(p.dir_array, s4);
    lemma_tag_buffer_round_trip(rest);
}

/// What follows the frame of a partition record reads back.
pub proof fn lemma_partition_body_round_trip(p: KafkaRecordPartitionRecordView, rest: Seq<u8>)
    requires
        fits_compact(p.replica_array.len()),
        fits_compact(p.insync_replica_array.len()),
        fits_compact(p.removing_replica_array.len()),
        fits_compact(p.adding_replica_array.len()),
        fits_compact(p.dir_array.len()),
    ensures
        KafkaRecordPartitionRecord::decode_body(KafkaRecordPartitionRecord::encode_body(p) + rest)
            == Ok::<(KafkaRecordPartitionRecordView, Seq<u8>), KafkaErrors>(
            (
                KafkaRecordPartitionRecordView { frame_version: 0, frame_type: 0, version: 0, ..p },
                rest,
            ),
        ),
{
    let e1 = i32::encode(p.partition_id);
    let e2 = u128::encode(p.topic_uuid);
    let e3 = KafkaRecordPartitionRecord::encode_replicas(p);
    let e4 = KafkaRecordPartitionRecord::encode_leadership(p);
    let s3 = e4 + rest;
    let s2 = e3 + s3;
    let s1 = e2 + s2;
    lemma_behind(e1 + e2 + e3, e4, rest);
    lemma_behind(e1 + e2, e3, s3);
    lemma_behind(e1, e2, s2);
    lemma_i32_round_trip(p.partition_id, s1);
    lemma_u128_round_trip(p.topic_uuid, s2);
    lemma_replicas_round_trip(p, s3);
    lemma_leadership_round_trip(p, rest);
}

/// A value that is there reads back as it was written, from bytes that hold
/// it at their front.
pub proof fn lemma_framed_round_trip(v: KafkaRecordValueView, rest: Seq<u8>)
    requires
        v !is Invalid,
        value_fits(v),
    ensures
        KafkaRecordValue::decode_framed(KafkaRecordValue::encode(v) + rest) == Ok::<
            KafkaRecordValueView,
            KafkaErrors,
        >(v),
{
    match v {
        KafkaRecordValueView::Invalid => {},
        KafkaRecordValueView::KafkaRecordFeatureType(f) => {
            let frame = value_frame(f.frame_version, f.frame_type, f.version);
            let body = KafkaRecordFeature::encode_body(f);
            lemma_behind(frame, body, rest);
            lemma_frame_round_trip(f.frame_version, f.frame_type, f.version, body + rest);
            lemma_feature_body_round_trip(f, rest);
        },
        KafkaRecordValueView::KafkaRecordTopicRecordType(t) => {
            let frame = value_frame(t.frame_version, t.frame_type, t.version);
            let body = KafkaRecordTopicRecord::encode_body(t);
            lemma_behind(frame, body, rest);
            lemma_frame_round_trip(t.frame_version, t.frame_type, t.version, body + rest);
            lemma_topic_body_round_trip(t, rest);
        },
        KafkaRecordValueView::KafkaRecordPartitionType(p) => {
            let frame = value_frame(p.frame_version, p.frame_type, p.version);
            let body = KafkaRecordPartitionRecord::encode_body(p);
            lemma_behind(frame, body, rest);
            lemma_frame_round_trip(p.frame_version, p.frame_type, p.version, body + rest);
            lemma_partition_body_round_trip(p, rest);
        },
    }
}

/// A value that is there reads back as it was written, from as many bytes
/// as it takes, and the reader stops right behind them.
pub proof fn lemma_value_round_trip(v: KafkaRecordValueView, rest: Seq<u8>)
    requires
        v !is Invalid,
        value_fits(v),
    ensures
        KafkaRecordValue::decode(
            KafkaRecordValue::encode(v) + rest,
            KafkaRecordValue::encode(v).len(),
        ) == Ok::<(KafkaRecordValueView, Seq<u8>), KafkaErrors>((v, rest)),
{
    let bytes = KafkaRecordValue::encode(v);
    lemma_framed_round_trip(v, Seq::empty());
    assert((bytes + rest).take(bytes.len() as int) =~= bytes + Seq::<u8>::empty());
    assert((bytes + rest).skip(bytes.len() as int) =~= rest);
}

/// A record in the form in which it is written: what it declares is what it
/// holds, and what it holds is short enough to be declared.
#[verifier::opaque]
pub open spec fn record_fits(r: KafkaRecordView) -> bool {
    &&& r.length == KafkaRecord::encode_body(r).len()
    &&& if r.key_length < 0 {
        r.key_length == -1 && r.key.len() == 0
    } else {
        r.key_length == r.key.len()
    }
    &&& match r.value {
        KafkaRecordValueView::Invalid => r.value_length == -1,
        _ => r.value_length == KafkaRecordValue::encode(r.value).len(),
    }
    &&& value_fits(r.value)
    &&& r.header_count == r.headers.len()
    &&& forall|i: int| 0 <= i < r.headers.len() ==> header_fits(#[trigger] r.headers[i])
}

/// The key of a record reads back.
pub proof fn lemma_key_round_trip(r: KafkaRecordView, rest: Seq<u8>)
    requires
        record_fits(r),
    ensures
        KafkaRecord::decode_key(KafkaRecord::encode_key(r) + rest) == Ok::<
            ((i32, Seq<u8>), Seq<u8>),
            KafkaErrors,
        >(((r.key_length, r.key), rest)),
{
    reveal(record_fits);
    if r.key_length < 0 {
        lemma_varint_round_trip(-1i32, rest);
        assert(r.key =~= Seq::<u8>::empty());
    } else {
        let behind_length = r.key + rest;
        lemma_behind(varint_bytes(r.key.len() as int), r.key, rest);
        lemma_varint_round_trip(r.key_length, behind_length);
        assert(behind_length.take(r.key_length as int) =~= r.key);
        assert(behind_length.skip(r.key_length as int) =~= rest);
        if r.key_length == 0 {
            assert(r.key =~= Seq::<u8>::empty());
        }
    }
}

/// A value that is there takes at least the three bytes of its frame.
pub proof fn lemma_value_len(v: KafkaRecordValueView)
    requires
        v !is Invalid,
    ensures
        KafkaRecordValue::encode(v).len() >= 3,
{
    let frame = frame_of(v);
    lemma_pow256_values();
    lemma_be_bytes_value(to_unsigned(frame.0 as int, 0x100), 1);
    lemma_be_bytes_value(to_unsigned(frame.1 as int, 0x100), 1);
    lemma_be_bytes_value(to_unsigned(frame.2 as int, 0x100), 1);
}

/// The value of a record reads back.
pub proof fn lemma_record_value_round_trip(r: KafkaRecordView, rest: Seq<u8>)
    requires
        record_fits(r),
    ensures
        KafkaRecord::decode_value(KafkaRecord::encode_value(r) + rest) == Ok::<
            ((i32, KafkaRecordValueView), Seq<u8>),
            KafkaErrors,
        >(((r.value_length, r.value), rest)),
{
    reveal(record_fits);
    match r.value {
        KafkaRecordValueView::Invalid => {
            lemma_varint_round_trip(-1i32, rest);
        },
        _ => {
            let bytes = KafkaRecordValue::encode(r.value);
            lemma_value_len(r.value);
            lemma_behind(varint_bytes(bytes.len() as int), bytes, rest);
            lemma_varint_round_trip(r.value_length, bytes + rest);
            lemma_value_round_trip(r.value, rest);
        },
    }
}

/// Headers that are written one behind the other read back.
pub proof fn lemma_many_headers_round_trip(headers: Seq<KafkaRecordHeaderView>, rest: Seq<u8>)
    requires
        forall|i: int| 0 <= i < headers.len() ==> header_fits(#[trigger] headers[i]),
    ensures
        decode_many::<KafkaRecordHeader>(
            encode_all::<KafkaRecordHeader>(headers) + rest,
            headers.len(),
        ) == Ok::<(Seq<KafkaRecordHeaderView>, Seq<u8>), KafkaErrors>((headers, rest)),
    decreases headers.len(),
{
    if headers.len() == 0 {
        assert(encode_all::<KafkaRecordHeader>(headers) + rest =~= rest);
        assert(headers =~= Seq::<KafkaRecordHeaderView>::empty());
    } else {
        let first = headers.first();
        let others = headers.skip(1);
        let behind_first = encode_all::<KafkaRecordHeader>(others) + rest;
        lemma_encode_all_front::<KafkaRecordHeader>(headers);
        lemma_behind(
            KafkaRecordHeader::encode(first),
            encode_all::<KafkaRecordHeader>(others),
            rest,
        );
        assert(header_fits(headers[0]));
        lemma_header_round_trip(first, behind_first);
        assert forall|i: int| 0 <= i < others.len() implies header_fits(#[trigger] others[i]) by {
            assert(others[i] == headers[i + 1]);
        }
        lemma_many_headers_round_trip(others, rest);
        lemma_decode_many_front::<KafkaRecordHeader>(
            KafkaRecordHeader::encode(first) + behind_first,
            headers.len(),
            first,
            behind_first,
            others,
            rest,
        );
        assert(seq![first] + others =~= headers);
    }
}

/// The headers of a record read back.
pub proof fn lemma_headers_round_trip(r: KafkaRecordView, rest: Seq<u8>)
    requires
        record_fits(r),
    ensures
        KafkaRecord::decode_headers(KafkaRecord::encode_headers(r) + rest) == Ok::<
            ((i32, Seq<KafkaRecordHeaderView>), Seq<u8>),
            KafkaErrors,
        >(((r.header_count, r.headers), rest)),
{
    reveal(record_fits);
    let all = encode_all::<KafkaRecordHeader>(r.headers);
    lemma_behind(varint_bytes(r.headers.len() as int), all, rest);
    lemma_varint_round_trip(r.header_count, all + rest);
    lemma_many_headers_round_trip(r.headers, rest);
}

/// A record is read piece by piece: where each piece of `r` is read from
/// where the piece before it ended, what is read is `r`.
proof fn lemma_record_body_pieces(
    r: KafkaRecordView,
    s0: Seq<u8>,
    s1: Seq<u8>,
    s2: Seq<u8>,
    s3: Seq<u8>,
    s4: Seq<u8>,
    s5: Seq<u8>,
    s6: Seq<u8>,
)
    requires
        i8::decode(s0) == Ok::<(i8, Seq<u8>), KafkaErrors>((r.attributes, s1)),
        decode_varint(s1) == Ok::<(i32, Seq<u8>), KafkaErrors>((r.timestamp_delta, s2)),
        decode_varint(s2) == Ok::<(i32, Seq<u8>), KafkaErrors>((r.offset_delta, s3)),
        KafkaRecord::decode_key(s3) == Ok::<((i32, Seq<u8>), Seq<u8>), KafkaErrors>(
            ((r.key_length, r.key), s4),
        ),
        KafkaRecord::decode_value(s4) == Ok::<((i32, KafkaRecordValueView), Seq<u8>), KafkaErrors>(
            ((r.value_length, r.value), s5),
        ),
        KafkaRecord::decode_headers(s5) == Ok::<
            ((i32, Seq<KafkaRecordHeaderView>), Seq<u8>),
            KafkaErrors,
        >(((r.header_count, r.headers), s6)),
    ensures
        KafkaRecord::decode_body(s0, r.length) == Ok::<KafkaRecordView, KafkaErrors>(r),
{
}

/// What follows the length of a record reads back.
pub proof fn lemma_record_body_round_trip(r: KafkaRecordView, rest: Seq<u8>)
    requires
        record_fits(r),
    ensures
        KafkaRecord::decode_body(KafkaRecord::encode_body(r) + rest, r.length) == Ok::<
            KafkaRecordView,
            KafkaErrors,
        >(r),
{
    let e1 = i8::encode(r.attributes);
    let e2 = varint_bytes(r.timestamp_delta as int);
    let e3 = varint_bytes(r.offset_delta as int);
    let e4 = KafkaRecord::encode_key(r);
    let e5 = KafkaRecord::encode_value(r);
    let e6 = KafkaRecord::encode_headers(r);
    let s5 = e6 + rest;
    let s4 = e5 + s5;
    let s3 = e4 + s4;
    let s2 = e3 + s3;
    let s1 = e2 + s2;
    let s0 = e1 + s1;
    assert(KafkaRecord::encode_body(r) + rest == s0) by {
        lemma_behind(e1 + e2 + e3 + e4 + e5, e6, rest);
        lemma_behind(e1 + e2 + e3 + e4, e5, s5);
        lemma_behind(e1 + e2 + e3, e4, s4);
        lemma_behind(e1 + e2, e3, s3);
        lemma_behind(e1, e2, s2);
    }
    lemma_i8_round_trip(r.attributes, s1);
    lemma_varint_round_trip(r.timestamp_delta, s2);
    lemma_varint_round_trip(r.offset_delta, s3);
    lemma_key_round_trip(r, s4);
    lemma_record_value_round_trip(r, s5);
    lemma_headers_round_trip(r, rest);
    lemma_record_body_pieces(r, s0, s1, s2, s3, s4, s5, rest);
}

/// A record reads back as it was written, and the reader stops right behind
/// it.
pub proof fn lemma_record_round_trip(r: KafkaRecordView, rest: Seq<u8>)
    requires
        record_fits(r),
    ensures
        KafkaRecord::encode(r) matches Some(bytes) && KafkaRecord::decode(bytes + rest) == Ok::<
            (KafkaRecordView, Seq<u8>),
            KafkaErrors,
        >((r, rest)),
{
    reveal(record_fits);
    let body = KafkaRecord::encode_body(r);
    let bytes = KafkaRecord::encode(r)->Some_0;
    lemma_pow256_values();
    lemma_be_bytes_value(to_unsigned(r.attributes as int, 0x100), 1);
    assert(body.len() >= 1);
    lemma_behind(varint_bytes(body.len() as int), body, rest);
    lemma_varint_round_trip(r.length, body + rest);
    lemma_record_body_round_trip(r, Seq::empty());
    assert((body + rest).take(r.length as int) =~= body + Seq::<u8>::empty());
    assert((body + rest).skip(r.length as int) =~= rest);
}

/// Whether each of some records is in the form in which it is written.
pub open spec fn records_fit(records: Seq<KafkaRecordView>) -> bool {
    forall|i: int| 0 <= i < records.len() ==> record_fits(#[trigger] records[i])
}

/// Some pieces of bytes, one behind the other.
pub open spec fn joined(pieces: Seq<Seq<u8>>) -> Seq<u8>
    decreases pieces.len(),
{
    if pieces.len() == 0 {
        Seq::empty()
    } else {
        joined(pieces.drop_last()) + pieces.last()
    }
}

/// Pieces that are joined begin with the first of them.
pub proof fn lemma_joined_front(pieces: Seq<Seq<u8>>)
    requires
        pieces.len() > 0,
    ensures
        joined(pieces) == pieces.first() + joined(pieces.skip(1)),
    decreases pieces.len(),
{
    if pieces.len() == 1 {
        assert(pieces.drop_last() =~= Seq::<Seq<u8>>::empty());
        assert(pieces.skip(1) =~= Seq::<Seq<u8>>::empty());
        assert(joined(pieces) =~= pieces.first() + joined(pieces.skip(1)));
    } else {
        lemma_joined_front(pieces.drop_last());
        assert(pieces.drop_last().skip(1) =~= pieces.skip(1).drop_last());
        assert(pieces.drop_last().first() == pieces.first());
        assert(pieces.skip(1).last() == pieces.last());
        lemma_behind(pieces.first(), joined(pieces.skip(1).drop_last()), pieces.last());
    }
}

/// Whether each of the pieces reads as the item at its place, whatever
/// follows it.
pub open spec fn read_as<T: KafkaRead>(pieces: Seq<Seq<u8>>, items: Seq<T::V>) -> bool {
    &&& pieces.len() == items.len()
    &&& forall|i: int, rest: Seq<u8>|
        0 <= i < pieces.len() ==> #[trigger] T::decode(pieces[i] + rest) == Ok::<
            (T::V, Seq<u8>),
            KafkaErrors,
        >((items[i], rest))
}

/// Pieces that each read as an item read, joined, as the items.
pub proof fn lemma_joined_read_back<T: KafkaRead>(
    pieces: Seq<Seq<u8>>,
    items: Seq<T::V>,
    rest: Seq<u8>,
)
    requires
        read_as::<T>(pieces, items),
    ensures
        decode_many::<T>(joined(pieces) + rest, items.len()) == Ok::<
            (Seq<T::V>, Seq<u8>),
            KafkaErrors,
        >((items, rest)),
    decreases pieces.len(),
{
    if pieces.len() == 0 {
        assert(joined(pieces) + rest =~= rest);
        assert(items =~= Seq::<T::V>::empty());
    } else {
        let behind_first = joined(pieces.skip(1)) + rest;
        lemma_joined_front(pieces);
        lemma_behind(pieces.first(), joined(pieces.skip(1)), rest);
        assert(T::decode(pieces[0] + behind_first) == Ok::<(T::V, Seq<u8>), KafkaErrors>(
            (items[0], behind_first),
        ));
        let more = pieces.skip(1);
        assert forall|i: int, r: Seq<u8>| 0 <= i < more.len() implies #[trigger] T::decode(
            more[i] + r,
        ) == Ok::<(T::V, Seq<u8>), KafkaErrors>((items.skip(1)[i], r)) by {
            assert(pieces.skip(1)[i] == pieces[i + 1]);
            assert(items.skip(1)[i] == items[i + 1]);
            assert(T::decode(pieces[i + 1] + r) == Ok::<(T::V, Seq<u8>), KafkaErrors>(
                (items[i + 1], r),
            ));
        }
        lemma_joined_read_back::<T>(pieces.skip(1), items.skip(1), rest);
        lemma_decode_many_front::<T>(
            pieces.first() + behind_first,
            items.len(),
            items.first(),
            behind_first,
            items.skip(1),
            rest,
        );
        assert(seq![items.first()] + items.skip(1) =~= items);
    }
}

/// The encoding of each of some records, in their order.
pub open spec fn record_pieces(records: Seq<KafkaRecordView>) -> Seq<Seq<u8>> {
    records.map_values(|r: KafkaRecordView| KafkaRecord::encode(r)->Some_0)
}

/// Whether each of some records has an encoding.
pub open spec fn records_encode(records: Seq<KafkaRecordView>) -> bool {
    forall|i: int| 0 <= i < records.len() ==> (#[trigger] KafkaRecord::encode(records[i])) is Some
}

/// Records that each have an encoding are written as their encodings, one
/// behind the other.
pub proof fn lemma_records_joined(records: Seq<KafkaRecordView>)
    requires
        records_encode(records),
    ensures
        RecordsBatch::encode_records(records) == Some(joined(record_pieces(records))),
    decreases records.len(),
{
    if records.len() > 0 {
        let front = records.drop_last();
        assert forall|i: int| 0 <= i < front.len() implies (#[trigger] KafkaRecord::encode(
            front[i],
        )) is Some by {
            assert(front[i] == records[i]);
        }
        lemma_records_joined(front);
        assert(KafkaRecord::encode(records[records.len() - 1]) is Some);
        assert(record_pieces(records).drop_last() =~= record_pieces(front));
    }
}

/// A record in the form in which it is written has an encoding.
pub proof fn lemma_fitting_record_encodes(r: KafkaRecordView)
    requires
        record_fits(r),
    ensures
        KafkaRecord::encode(r) is Some,
{
    reveal(record_fits);
}

/// Records that are written one behind the other read back.
pub proof fn lemma_records_round_trip(records: Seq<KafkaRecordView>, rest: Seq<u8>)
    requires
        records_fit(records),
    ensures
        RecordsBatch::encode_records(records) matches Some(bytes) && decode_many::<KafkaRecord>(
            bytes + rest,
            records.len(),
        ) == Ok::<(Seq<KafkaRecordView>, Seq<u8>), KafkaErrors>((records, rest)),
{
    let pieces = record_pieces(records);
    assert forall|i: int| 0 <= i < records.len() implies (#[trigger] KafkaRecord::encode(
        records[i],
    )) is Some by {
        assert(record_fits(records[i]));
        lemma_fitting_record_encodes(records[i]);
    }
    lemma_records_joined(records);
    assert forall|i: int, r: Seq<u8>| 0 <= i < pieces.len() implies #[trigger] KafkaRecord::decode(
        pieces[i] + r,
    ) == Ok::<(KafkaRecordView, Seq<u8>), KafkaErrors>((records[i], r)) by {
        assert(record_fits(records[i]));
        lemma_record_round_trip(records[i], r);
    }
    lemma_joined_read_back::<KafkaRecord>(pieces, records, rest);
}

/// The first five fixed-width fields of a batch as they are written.
pub open spec fn front_bytes(h: BatchHeader) -> Seq<u8> {
    i32::encode(h.partition_leader_epoch) + i8::encode(h.magic) + u32::encode(h.crc)
        + i16::encode(h.attributes) + i32::encode(h.last_offset_delta)
}

/// The six fixed-width fields that follow them.
pub open spec fn back_bytes(h: BatchHeader) -> Seq<u8> {
    i64::encode(h.base_timestamp) + i64::encode(h.max_timestamp) + i64::encode(h.producer_id)
        + i16::encode(h.producer_epoch) + i32::encode(h.base_sequence) + i32::encode(h.rec_length)
}

/// The fixed-width fields of a batch as they are written.
pub open spec fn header_bytes(h: BatchHeader) -> Seq<u8> {
    front_bytes(h) + back_bytes(h)
}

/// The first five fixed-width fields of a batch read back.
pub proof fn lemma_front_round_trip(h: BatchHeader, rest: Seq<u8>)
    ensures
        BatchHeader::decode_front(front_bytes(h) + rest) == Ok::<
            ((i32, i8, u32, i16, i32), Seq<u8>),
            KafkaErrors,
        >(((h.partition_leader_epoch, h.magic, h.crc, h.attributes, h.last_offset_delta), rest)),
{
    let e1 = i32::encode(h.partition_leader_epoch);
    let e2 = i8::encode(h.magic);
    let e3 = u32::encode(h.crc);
    let e4 = i16::encode(h.attributes);
    let e5 = i32::encode(h.last_offset_delta);
    let s4 = e5 + rest;
    let s3 = e4 + s4;
    let s2 = e3 + s3;
    let s1 = e2 + s2;
    lemma_behind(e1 + e2 + e3 + e4, e5, rest);
    lemma_behind(e1 + e2 + e3, e4, s4);
    lemma_behind(e1 + e2, e3, s3);
    lemma_behind(e1, e2, s2);
    lemma_i32_round_trip(h.partition_leader_epoch, s1);
    lemma_i8_round_trip(h.magic, s2);
    lemma_u32_round_trip(h.crc, s3);
    lemma_i16_round_trip(h.attributes, s4);
    lemma_i32_round_trip(h.last_offset_delta, rest);
}

/// The six fields that follow them read back.
pub proof fn lemma_back_round_trip(h: BatchHeader, rest: Seq<u8>)
    ensures
        BatchHeader::decode_back(back_bytes(h) + rest) == Ok::<
            ((i64, i64, i64, i16, i32, i32), Seq<u8>),
            KafkaErrors,
        >(
            (
                (
                    h.base_timestamp,
                    h.max_timestamp,
                    h.producer_id,
                    h.producer_epoch,
                    h.base_sequence,
                    h.rec_length,
                ),
                rest,
            ),
        ),
{
    let e1 = i64::encode(h.base_timestamp);
    let e2 = i64::encode(h.max_timestamp);
    let e3 = i64::encode(h.producer_id);
    let e4 = i16::encode(h.producer_epoch);
    let e5 = i32::encode(h.base_sequence);
    let e6 = i32::encode(h.rec_length);
    let s5 = e6 + rest;
    let s4 = e5 + s5;
    let s3 = e4 + s4;
    let s2 = e3 + s3;
    let s1 = e2 + s2;
    lemma_behind(e1 + e2 + e3 + e4 + e5, e6, rest);
    lemma_behind(e1 + e2 + e3 + e4, e5, s5);
    lemma_behind(e1 + e2 + e3, e4, s4);
    lemma_behind(e1 + e2, e3, s3);
    lemma_behind(e1, e2, s2);
    lemma_i64_round_trip(h.base_timestamp, s1);
    lemma_i64_round_trip(h.max_timestamp, s2);
    lemma_i64_round_trip(h.producer_id, s3);
    lemma_i16_round_trip(h.producer_epoch, s4);
    lemma_i32_round_trip(h.base_sequence, s5);
    lemma_i32_round_trip(h.rec_length, rest);
}

/// The fixed-width fields of a batch read back.
pub proof fn lemma_batch_header_round_trip(h: BatchHeader, rest: Seq<u8>)
    ensures
        BatchHeader::decode(header_bytes(h) + rest) == Ok::<(BatchHeader, Seq<u8>), KafkaErrors>(
            (h, rest),
        ),
{
    lemma_behind(front_bytes(h), back_bytes(h), rest);
    lemma_front_round_trip(h, back_bytes(h) + rest);
    lemma_back_round_trip(h, rest);
}

/// The fixed-width fields of a batch.
pub open spec fn header_of(b: RecordsBatchView) -> BatchHeader {
    BatchHeader {
        partition_leader_epoch: b.partition_leader_epoch,
        magic: b.magic,
        crc: b.crc,
        attributes: b.attributes,
        last_offset_delta: b.last_offset_delta,
        base_timestamp: b.base_timestamp,
        max_timestamp: b.max_timestamp,
        producer_id: b.producer_id,
        producer_epoch: b.producer_epoch,
        base_sequence: b.base_sequence,
        rec_length: b.rec_length,
    }
}

/// A batch in the form in which it is written: its records are in that
/// form, and what it declares of their number, of its length and of its
/// checksum is what the encoder computes.
spec fn batch_fits(b: RecordsBatchView) -> bool {
    &&& records_fit(b.records)
    &&& b.rec_length == b.records.len()
    &&& RecordsBatch::encode_tail(b) matches Some(tail) && b.batch_length == 9 + tail.len()
        && b.crc == crc32c_of(tail)
}

/// How the bytes of a batch are laid out: the base offset, the length, and
/// in as many bytes as the length says the fixed-width fields and the
/// records.
proof fn lemma_batch_layout(b: RecordsBatchView)
    requires
        batch_fits(b),
    ensures
        RecordsBatch::encode_records(b.records) matches Some(records) && RecordsBatch::encode(b)
            == Some(
            u64::encode(b.base_offset) + (i32::encode(b.batch_length) + (header_bytes(header_of(b))
                + records)),
        ) && (header_bytes(header_of(b)) + records).len() == b.batch_length,
{
    let tail = RecordsBatch::encode_tail(b)->Some_0;
    let records = RecordsBatch::encode_records(b.records)->Some_0;
    let inside = header_bytes(header_of(b)) + records;
    lemma_pow256_values();
    lemma_be_bytes_value(to_unsigned(b.partition_leader_epoch as int, 0x1_0000_0000), 4);
    lemma_be_bytes_value(to_unsigned(b.magic as int, 0x100), 1);
    lemma_be_bytes_value(b.crc as nat, 4);
    assert(inside =~= i32::encode(b.partition_leader_epoch) + i8::encode(b.magic) + u32::encode(
        b.crc,
    ) + tail);
    assert(RecordsBatch::encode(b)->Some_0 =~= u64::encode(b.base_offset) + (i32::encode(
        b.batch_length,
    ) + inside));
}

/// What follows the length of a batch reads back.
pub proof fn lemma_batch_body_round_trip(b: RecordsBatchView, records: Seq<u8>)
    requires
        records_fit(b.records),
        b.rec_length == b.records.len(),
        RecordsBatch::encode_records(b.records) == Some(records),
    ensures
        RecordsBatch::decode_body(
            header_bytes(header_of(b)) + records,
            b.base_offset,
            b.batch_length,
        ) == Ok::<RecordsBatchView, KafkaErrors>(b),
{
    lemma_batch_header_round_trip(header_of(b), records);
    lemma_records_round_trip(b.records, Seq::empty());
    assert(records + Seq::<u8>::empty() =~= records);
}

/// The frame of a batch reads back: the base offset, the length, and as many
/// bytes as the length says.
pub proof fn lemma_batch_frame_round_trip(
    base_offset: u64,
    batch_length: i32,
    inside: Seq<u8>,
    rest: Seq<u8>,
)
    requires
        inside.len() == batch_length,
    ensures
        RecordsBatch::decode_frame(
            u64::encode(base_offset) + (i32::encode(batch_length) + inside) + rest,
        ) == Ok::<((u64, i32, Seq<u8>), Seq<u8>), KafkaErrors>(
            ((base_offset, batch_length, inside), rest),
        ),
{
    let behind_length = inside + rest;
    let behind_offset = i32::encode(batch_length) + behind_length;
    lemma_behind(u64::encode(base_offset), i32::encode(batch_length) + inside, rest);
    lemma_behind(i32::encode(batch_length), inside, rest);
    lemma_u64_round_trip(base_offset, behind_offset);
    lemma_i32_round_trip(batch_length, behind_length);
    assert(behind_length.take(batch_length as int) =~= inside);
    assert(behind_length.skip(batch_length as int) =~= rest);
}

/// A batch in the form in which it is written reads back as it is.
proof fn lemma_written_batch_round_trip(b: RecordsBatchView, rest: Seq<u8>)
    requires
        batch_fits(b),
    ensures
        RecordsBatch::encode(b) matches Some(bytes) && RecordsBatch::decode(bytes + rest) == Ok::<
            (RecordsBatchView, Seq<u8>),
            KafkaErrors,
        >((b, rest)),
{
    lemma_batch_layout(b);
    let records = RecordsBatch::encode_records(b.records)->Some_0;
    let inside = header_bytes(header_of(b)) + records;
    lemma_batch_frame_round_trip(b.base_offset, b.batch_length, inside, rest);
    lemma_batch_body_round_trip(b, records);
}

/// Whether what a record holds can be written and read back: its value is
/// in the form in which it is written, its headers are short enough for
/// compact lengths, and the record has an encoding.
pub open spec fn record_content_fits(r: KafkaRecordView) -> bool {
    &&& value_fits(r.value)
    &&& forall|i: int| 0 <= i < r.headers.len() ==> header_fits(#[trigger] r.headers[i])
    &&& KafkaRecord::encode(r) is Some
}

/// A record as it reads back from its encoding: with its length, the length
/// of its key, the length of its value and the number of its headers as the
/// encoder computes them, whatever the record declared before. A record
/// that declares a negative key length reads back without a key.
pub open spec fn record_written(r: KafkaRecordView) -> KafkaRecordView {
    KafkaRecordView {
        length: KafkaRecord::encode_body(r).len() as i32,
        key_length: if r.key_length < 0 {
            -1i32
        } else {
            r.key.len() as i32
        },
        key: if r.key_length < 0 {
            Seq::empty()
        } else {
            r.key
        },
        value_length: match r.value {
            KafkaRecordValueView::Invalid => -1i32,
            _ => KafkaRecordValue::encode(r.value).len() as i32,
        },
        header_count: r.headers.len() as i32,
        ..r
    }
}

/// Headers take at least as many bytes as there are headers.
pub proof fn lemma_headers_len(headers: Seq<KafkaRecordHeaderView>)
    ensures
        encode_all::<KafkaRecordHeader>(headers).len() >= headers.len(),
    decreases headers.len(),
{
    if headers.len() > 0 {
        lemma_headers_len(headers.drop_last());
        let last = headers.last();
        assert(uvarint_bytes(last.key.len() + 1).len() >= 1);
    }
}

/// A record is written as the record that it reads back as, and that record
/// is in the form in which it is written.
pub proof fn lemma_record_written(r: KafkaRecordView)
    requires
        record_content_fits(r),
    ensures
        KafkaRecord::encode(record_written(r)) == KafkaRecord::encode(r),
        record_fits(record_written(r)),
{
    reveal(record_fits);
    let w = record_written(r);
    lemma_headers_len(r.headers);
    assert(KafkaRecord::encode_key(w) == KafkaRecord::encode_key(r));
    assert(KafkaRecord::encode_value(w) == KafkaRecord::encode_value(r));
    assert(KafkaRecord::encode_headers(w) == KafkaRecord::encode_headers(r));
    assert(KafkaRecord::encode_body(w) == KafkaRecord::encode_body(r));
}

/// A record that can be written reads back from its encoding, and the
/// reader stops right behind it.
pub proof fn lemma_record_reads_back(r: KafkaRecordView, rest: Seq<u8>)
    requires
        record_content_fits(r),
    ensures
        KafkaRecord::decode(KafkaRecord::encode(r)->Some_0 + rest) == Ok::<
            (KafkaRecordView, Seq<u8>),
            KafkaErrors,
        >((record_written(r), rest)),
{
    lemma_record_written(r);
    lemma_record_round_trip(record_written(r), rest);
}

/// Some records as they read back from their encodings.
pub open spec fn records_written(records: Seq<KafkaRecordView>) -> Seq<KafkaRecordView> {
    records.map_values(|r: KafkaRecordView| record_written(r))
}

/// Whether each of some records can be written and read back.
pub open spec fn records_content_fits(records: Seq<KafkaRecordView>) -> bool {
    forall|i: int| 0 <= i < records.len() ==> record_content_fits(#[trigger] records[i])
}

/// Records are written as the records that they read back as, and those are
/// in the form in which they are written.
pub proof fn lemma_records_written(records: Seq<KafkaRecordView>)
    requires
        records_content_fits(records),
    ensures
        RecordsBatch::encode_records(records_written(records)) == RecordsBatch::encode_records(
            records,
        ),
        records_fit(records_written(records)),
    decreases records.len(),
{
    let written = records_written(records);
    assert forall|i: int| 0 <= i < written.len() implies record_fits(#[trigger] written[i]) by {
        assert(record_content_fits(records[i]));
        lemma_record_written(records[i]);
    }
    if records.len() > 0 {
        let front = records.drop_last();
        assert forall|i: int| 0 <= i < front.len() implies record_content_fits(
            #[trigger] front[i],
        ) by {
            assert(front[i] == records[i]);
        }
        lemma_records_written(front);
        assert(written.drop_last() =~= records_written(front));
        assert(record_content_fits(records[records.len() - 1]));
        lemma_record_written(records.last());
    }
}

/// A batch as it reads back from its encoding: with the number of its
/// records, its length and its checksum as the encoder computes them, and
/// with its records as they read back, whatever the batch and its records
/// declared before.
pub open spec fn batch_written(b: RecordsBatchView) -> RecordsBatchView {
    let tail = RecordsBatch::encode_tail(b)->Some_0;
    RecordsBatchView {
        batch_length: (9 + tail.len()) as i32,
        crc: crc32c_of(tail),
        rec_length: b.records.len() as i32,
        records: records_written(b.records),
        ..b
    }
}

/// A batch that has an encoding reads back from it, and the reader stops
/// right behind it. The lengths, the numbers and the checksum that come
/// back are those that the encoder computed; everything else comes back as
/// it was written.
pub proof fn lemma_batch_round_trip(b: RecordsBatchView, rest: Seq<u8>)
    requires
        records_content_fits(b.records),
        RecordsBatch::encode(b) is Some,
    ensures
        RecordsBatch::decode(RecordsBatch::encode(b)->Some_0 + rest) == Ok::<
            (RecordsBatchView, Seq<u8>),
            KafkaErrors,
        >((batch_written(b), rest)),
{
    let w = batch_written(b);
    lemma_records_written(b.records);
    assert(RecordsBatch::encode_tail(w) == RecordsBatch::encode_tail(b));
    assert(RecordsBatch::encode(w) == RecordsBatch::encode(b));
    lemma_written_batch_round_trip(w, rest);
}

} // verus!
