//! Record batches of the cluster-metadata log: the batch, its records, and
//! the control-record values that a record carries.
//!
//! A batch declares how many bytes it takes, and so does each record in it.
//! The decoders cut those bytes off before they look inside, so whatever a
//! record or a batch holds, the stream goes on right behind it.

use vstd::prelude::*;
use crc32c::crc32c;
use crate::errors::{Decoded, KafkaErrors};
use crate::models::views;
use crate::parser::{
    KafkaRead, Reader, decode_array, decode_compact_string, decode_many, decode_tag_buffer,
    decode_varint, lemma_pow256_values, read_byte, read_bytes, read_compact_string, read_int,
    read_int_array, read_long, read_many, read_short, read_u128, read_u128_array, read_u32,
    read_u64, read_varint, reads_as, reads_past, tag_buffer,
};
use crate::roundtrip::{lemma_be_bytes_value, lemma_u32_round_trip};
use crate::writer::{
    KafkaWrite, compact_bytes, empty_tag_buffer, encode_all, encode_array, to_unsigned,
    varint_bytes, write_array, write_bytes, write_compact_string, write_many, write_raw,
    write_tag_buffer, write_varint_len, write_varint_main,
};

verus! {

/// The CRC-32C checksum (Castagnoli polynomial) of `data`.
pub uninterp spec fn crc32c_of(data: Seq<u8>) -> u32;

/// What is taken on trust of `crc32c::crc32c`: it computes the CRC-32C of the
/// data payload. The crate chooses between a hardware and a software path;
/// both compute the same checksum, so the result goes by the bytes alone.
pub assume_specification[ crc32c::crc32c ](data: &[u8]) -> (crc: u32)
    ensures
        crc == crc32c_of(data@),
;

/// The three bytes that every control-record value begins with: the version
/// of the frame, the type of the record, and the version of the type.
pub open spec fn value_frame(frame_version: i8, frame_type: i8, version: i8) -> Seq<u8> {
    i8::encode(frame_version) + i8::encode(frame_type) + i8::encode(version)
}

/// The three bytes that a control-record value begins with, as they are
/// read.
pub open spec fn decode_value_frame(s: Seq<u8>) -> Decoded<(i8, i8, i8)> {
    match i8::decode(s) {
        Err(e) => Err(e),
        Ok((frame_version, s1)) => match i8::decode(s1) {
            Err(e) => Err(e),
            Ok((frame_type, s2)) => match i8::decode(s2) {
                Err(e) => Err(e),
                Ok((version, s3)) => Ok(((frame_version, frame_type, version), s3)),
            },
        },
    }
}

/// The frame type of a feature-level record.
pub const KAFKA_RECORDTYPE_FEATURE: i8 = 12;

/// The frame type of a topic record.
pub const KAFKA_RECORDTYPE_TOPIC: i8 = 2;

/// The frame type of a partition record.
pub const KAFKA_RECORDTYPE_PARTITION: i8 = 3;

/// A header of a record: a key and a value, both compact.
#[derive(Debug, Clone)]
pub struct KafkaRecordHeader {
    pub key: Vec<u8>,
    pub value: Vec<u8>,
}

/// What a `KafkaRecordHeader` stands for: the same fields, with sequences in place of
/// vectors.
pub struct KafkaRecordHeaderView {
    pub key: Seq<u8>,
    pub value: Seq<u8>,
}

impl View for KafkaRecordHeader {
    type V = KafkaRecordHeaderView;

    open spec fn view(&self) -> KafkaRecordHeaderView {
        KafkaRecordHeaderView { key: self.key@, value: self.value@ }
    }
}

impl KafkaRead for KafkaRecordHeader {
    open spec fn decode(s: Seq<u8>) -> Decoded<KafkaRecordHeaderView> {
        match decode_compact_string(s) {
            Err(e) => Err(e),
            Ok((key, s1)) => match decode_compact_string(s1) {
                Err(e) => Err(e),
                Ok((value, s2)) => Ok((KafkaRecordHeaderView { key, value }, s2)),
            },
        }
    }

    fn read(req: &mut Reader) -> (res: Result<Self, KafkaErrors>) {
        Self::deserialize(req)
    }
}

impl KafkaWrite for KafkaRecordHeader {
    open spec fn encode(v: KafkaRecordHeaderView) -> Seq<u8> {
        compact_bytes(v.key) + compact_bytes(v.value)
    }

    fn write(&self, writer: &mut Vec<u8>) -> (res: Result<(), KafkaErrors>) {
        self.serialize(writer)
    }
}

impl Default for KafkaRecordHeader {
    /// A header with an empty key and an empty value.
    fn default() -> (h: Self)
        ensures
            h@ == (KafkaRecordHeaderView { key: Seq::empty(), value: Seq::empty() }),
    {
        KafkaRecordHeader { key: Vec::new(), value: Vec::new() }
    }
}

impl KafkaRecordHeader {
    /// How many bytes the header takes on the wire.
    pub fn size(&self) -> (n: usize)
        ensures
            n == Self::encode(self@).len(),
    {
        let mut scratch: Vec<u8> = Vec::new();
        let _ = self.serialize(&mut scratch);
        scratch.len()
    }

    /// Writes the header.
    pub fn serialize(&self, resp: &mut Vec<u8>) -> (res: Result<(), KafkaErrors>)
        ensures
            res is Ok,
            final(resp)@ == old(resp)@ + Self::encode(self@),
    {
        write_compact_string(resp, self.key.as_slice())?;
        write_compact_string(resp, self.value.as_slice())?;
        assert(resp@ =~= old(resp)@ + Self::encode(self@));
        Ok(())
    }

    /// A header with an empty key and an empty value.
    pub fn new() -> (h: Self)
        ensures
            h@ == (KafkaRecordHeaderView { key: Seq::empty(), value: Seq::empty() }),
    {
        KafkaRecordHeader { key: Vec::new(), value: Vec::new() }
    }

    /// Reads one header.
    pub fn deserialize(data: &mut Reader) -> (res: Result<Self, KafkaErrors>)
        ensures
            reads_as(res, old(data)@, final(data)@, Self::decode(old(data)@)),
    {
        let mut cur = *data;
        let key = read_compact_string(&mut cur)?;
        let value = read_compact_string(&mut cur)?;
        *data = cur;
        Ok(KafkaRecordHeader { key, value })
    }
}

/// The value of a feature-level record. The three `frame_version`,
/// `frame_type` and `version` fields are the bytes that every control-record
/// value begins with.
#[derive(Debug, Clone)]
pub struct KafkaRecordFeature {
    pub frame_version: i8,
    pub frame_type: i8,
    pub version: i8,
    pub name: Vec<u8>,
    pub feature_level: i16,
}

/// What a `KafkaRecordFeature` stands for: the same fields, with sequences in place of
/// vectors.
pub struct KafkaRecordFeatureView {
    pub frame_version: i8,
    pub frame_type: i8,
    pub version: i8,
    pub name: Seq<u8>,
    pub feature_level: i16,
}

impl View for KafkaRecordFeature {
    type V = KafkaRecordFeatureView;

    open spec fn view(&self) -> KafkaRecordFeatureView {
        KafkaRecordFeatureView {
            frame_version: self.frame_version,
            frame_type: self.frame_type,
            version: self.version,
            name: self.name@,
            feature_level: self.feature_level,
        }
    }
}

impl Default for KafkaRecordFeature {
    /// A record with no name and zero in every other field.
    fn default() -> (r: Self)
        ensures
            r@ == (KafkaRecordFeatureView {
                frame_version: 0,
                frame_type: 0,
                version: 0,
                name: Seq::empty(),
                feature_level: 0,
            }),
    {
        KafkaRecordFeature {
            frame_version: 0,
            frame_type: 0,
            version: 0,
            name: Vec::new(),
            feature_level: 0,
        }
    }
}

impl KafkaRecordFeature {
    /// What follows the three leading bytes of a feature-level record: the
    /// name, the level and a tag buffer. The three leading fields of the
    /// result are zero.
    pub open spec fn decode_body(s: Seq<u8>) -> Decoded<KafkaRecordFeatureView> {
        match decode_compact_string(s) {
            Err(e) => Err(e),
            Ok((name, s1)) => match i16::decode(s1) {
                Err(e) => Err(e),
                Ok((feature_level, s2)) => match decode_tag_buffer(s2) {
                    Err(e) => Err(e),
                    Ok((_, s3)) => Ok(
                        (
                            KafkaRecordFeatureView {
                                frame_version: 0,
                                frame_type: 0,
                                version: 0,
                                name,
                                feature_level,
                            },
                            s3,
                        ),
                    ),
                },
            },
        }
    }

    /// What follows the three leading bytes: the name, the level and an
    /// empty tag buffer.
    pub open spec fn encode_body(v: KafkaRecordFeatureView) -> Seq<u8> {
        compact_bytes(v.name) + i16::encode(v.feature_level) + empty_tag_buffer()
    }

    /// The record on the wire: the three leading bytes, and what follows them.
    pub open spec fn encode(v: KafkaRecordFeatureView) -> Seq<u8> {
        value_frame(v.frame_version, v.frame_type, v.version) + Self::encode_body(v)
    }

    /// How many bytes the record takes on the wire.
    pub fn size(&self) -> (n: usize)
        ensures
            n == Self::encode(self@).len(),
    {
        let mut scratch: Vec<u8> = Vec::new();
        let _ = self.serialize(&mut scratch);
        scratch.len()
    }

    /// Writes the record.
    pub fn serialize(&self, resp: &mut Vec<u8>) -> (res: Result<(), KafkaErrors>)
        ensures
            res is Ok,
            final(resp)@ == old(resp)@ + Self::encode(self@),
    {
        write_bytes(resp, &self.frame_version)?;
        write_bytes(resp, &self.frame_type)?;
        write_bytes(resp, &self.version)?;
        write_compact_string(resp, self.name.as_slice())?;
        write_bytes(resp, &self.feature_level)?;
        write_tag_buffer(resp)?;
        assert(resp@ =~= old(resp)@ + Self::encode(self@));
        Ok(())
    }

    /// A record with no name and level zero.
    pub fn new() -> (r: Self)
        ensures
            r@ == (KafkaRecordFeatureView {
                frame_version: 0,
                frame_type: 0,
                version: 0,
                name: Seq::empty(),
                feature_level: 0,
            }),
    {
        KafkaRecordFeature {
            frame_version: 0,
            frame_type: 0,
            version: 0,
            name: Vec::new(),
            feature_level: 0,
        }
    }

    /// Reads what follows the three leading bytes.
    pub fn deserialize(buffer: &mut Reader) -> (res: Result<Self, KafkaErrors>)
        ensures
            reads_as(res, old(buffer)@, final(buffer)@, Self::decode_body(old(buffer)@)),
    {
        let mut cur = *buffer;
        let name = read_compact_string(&mut cur)?;
        let feature_level = read_short(&mut cur)?;
        tag_buffer(&mut cur)?;
        *buffer = cur;
        Ok(KafkaRecordFeature { frame_version: 0, frame_type: 0, version: 0, name, feature_level })
    }
}

/// The value of a topic record: a topic's name and its UUID.
#[derive(Debug, Clone)]
pub struct KafkaRecordTopicRecord {
    pub frame_version: i8,
    pub frame_type: i8,
    pub version: i8,
    pub topic_name: Vec<u8>,
    pub topic_uuid: u128,
}

/// What a `KafkaRecordTopicRecord` stands for: the same fields, with sequences in place of
/// vectors.
pub struct KafkaRecordTopicRecordView {
    pub frame_version: i8,
    pub frame_type: i8,
    pub version: i8,
    pub topic_name: Seq<u8>,
    pub topic_uuid: u128,
}

impl View for KafkaRecordTopicRecord {
    type V = KafkaRecordTopicRecordView;

    open spec fn view(&self) -> KafkaRecordTopicRecordView {
        KafkaRecordTopicRecordView {
            frame_version: self.frame_version,
            frame_type: self.frame_type,
            version: self.version,
            topic_name: self.topic_name@,
            topic_uuid: self.topic_uuid,
        }
    }
}

impl Default for KafkaRecordTopicRecord {
    /// A record with no name and zero in every other field.
    fn default() -> (r: Self)
        ensures
            r@ == (KafkaRecordTopicRecordView {
                frame_version: 0,
                frame_type: 0,
                version: 0,
                topic_name: Seq::empty(),
                topic_uuid: 0,
            }),
    {
        KafkaRecordTopicRecord {
            frame_version: 0,
            frame_type: 0,
            version: 0,
            topic_name: Vec::new(),
            topic_uuid: 0,
        }
    }
}

impl KafkaRecordTopicRecord {
    /// What follows the three leading bytes of a topic record: the name, the
    /// UUID and a tag buffer. The three leading fields of the result are zero.
    pub open spec fn decode_body(s: Seq<u8>) -> Decoded<KafkaRecordTopicRecordView> {
        match decode_compact_string(s) {
            Err(e) => Err(e),
            Ok((topic_name, s1)) => match u128::decode(s1) {
                Err(e) => Err(e),
                Ok((topic_uuid, s2)) => match decode_tag_buffer(s2) {
                    Err(e) => Err(e),
                    Ok((_, s3)) => Ok(
                        (
                            KafkaRecordTopicRecordView {
                                frame_version: 0,
                                frame_type: 0,
                                version: 0,
                                topic_name,
                                topic_uuid,
                            },
                            s3,
                        ),
                    ),
                },
            },
        }
    }

    /// What follows the three leading bytes: the name, the UUID and an empty
    /// tag buffer.
    pub open spec fn encode_body(v: KafkaRecordTopicRecordView) -> Seq<u8> {
        compact_bytes(v.topic_name) + u128::encode(v.topic_uuid) + empty_tag_buffer()
    }

    /// The record on the wire: the three leading bytes, and what follows them.
    pub open spec fn encode(v: KafkaRecordTopicRecordView) -> Seq<u8> {
        value_frame(v.frame_version, v.frame_type, v.version) + Self::encode_body(v)
    }

    /// How many bytes the record takes on the wire.
    pub fn size(&self) -> (n: usize)
        ensures
            n == Self::encode(self@).len(),
    {
        let mut scratch: Vec<u8> = Vec::new();
        let _ = self.serialize(&mut scratch);
        scratch.len()
    }

    /// Writes the record.
    pub fn serialize(&self, resp: &mut Vec<u8>) -> (res: Result<(), KafkaErrors>)
        ensures
            res is Ok,
            final(resp)@ == old(resp)@ + Self::encode(self@),
    {
        write_bytes(resp, &self.frame_version)?;
        write_bytes(resp, &self.frame_type)?;
        write_bytes(resp, &self.version)?;
        write_compact_string(resp, self.topic_name.as_slice())?;
        write_bytes(resp, &self.topic_uuid)?;
        write_tag_buffer(resp)?;
        assert(resp@ =~= old(resp)@ + Self::encode(self@));
        Ok(())
    }

    /// A record with no name and the zero UUID.
    pub fn new() -> (r: Self)
        ensures
            r@ == (KafkaRecordTopicRecordView {
                frame_version: 0,
                frame_type: 0,
                version: 0,
                topic_name: Seq::empty(),
                topic_uuid: 0,
            }),
    {
        KafkaRecordTopicRecord {
            frame_version: 0,
            frame_type: 0,
            version: 0,
            topic_name: Vec::new(),
            topic_uuid: 0,
        }
    }

    /// Reads what follows the three leading bytes.
    pub fn deserialize(buffer: &mut Reader) -> (res: Result<Self, KafkaErrors>)
        ensures
            reads_as(res, old(buffer)@, final(buffer)@, Self::decode_body(old(buffer)@)),
    {
        let mut cur = *buffer;
        let topic_name = read_compact_string(&mut cur)?;
        let topic_uuid = read_u128(&mut cur)?;
        tag_buffer(&mut cur)?;
        *buffer = cur;
        Ok(
            KafkaRecordTopicRecord {
                frame_version: 0,
                frame_type: 0,
                version: 0,
                topic_name,
                topic_uuid,
            },
        )
    }
}

/// The value of a partition record: a partition of a topic, with its
/// replicas, its leader and its directories.
#[derive(Debug, Clone)]
pub struct KafkaRecordPartitionRecord {
    pub frame_version: i8,
    pub frame_type: i8,
    pub version: i8,
    pub partition_id: i32,
    pub topic_uuid: u128,
    pub replica_array: Vec<i32>,
    pub insync_replica_array: Vec<i32>,
    pub removing_replica_array: Vec<i32>,
    pub adding_replica_array: Vec<i32>,
    pub leader: i32,
    pub leader_epoch: i32,
    pub partition_epoch: i32,
    pub dir_array: Vec<u128>,
}

/// What a `KafkaRecordPartitionRecord` stands for: the same fields, with sequences in place of
/// vectors.
pub struct KafkaRecordPartitionRecordView {
    pub frame_version: i8,
    pub frame_type: i8,
    pub version: i8,
    pub partition_id: i32,
    pub topic_uuid: u128,
    pub replica_array: Seq<i32>,
    pub insync_replica_array: Seq<i32>,
    pub removing_replica_array: Seq<i32>,
    pub adding_replica_array: Seq<i32>,
    pub leader: i32,
    pub leader_epoch: i32,
    pub partition_epoch: i32,
    pub dir_array: Seq<u128>,
}

impl View for KafkaRecordPartitionRecord {
    type V = KafkaRecordPartitionRecordView;

    open spec fn view(&self) -> KafkaRecordPartitionRecordView {
        KafkaRecordPartitionRecordView {
            frame_version: self.frame_version,
            frame_type: self.frame_type,
            version: self.version,
            partition_id: self.partition_id,
            topic_uuid: self.topic_uuid,
            replica_array: self.replica_array@,
            insync_replica_array: self.insync_replica_array@,
            removing_replica_array: self.removing_replica_array@,
            adding_replica_array: self.adding_replica_array@,
            leader: self.leader,
            leader_epoch: self.leader_epoch,
            partition_epoch: self.partition_epoch,
            dir_array: self.dir_array@,
        }
    }
}

impl Default for KafkaRecordPartitionRecord {
    /// A record with nothing in its arrays and zero in every other field.
    fn default() -> (r: Self)
        ensures
            r@ == (KafkaRecordPartitionRecordView {
                frame_version: 0,
                frame_type: 0,
                version: 0,
                partition_id: 0,
                topic_uuid: 0,
                replica_array: Seq::empty(),
                insync_replica_array: Seq::empty(),
                removing_replica_array: Seq::empty(),
                adding_replica_array: Seq::empty(),
                leader: 0,
                leader_epoch: 0,
                partition_epoch: 0,
                dir_array: Seq::empty(),
            }),
    {
        KafkaRecordPartitionRecord {
            frame_version: 0,
            frame_type: 0,
            version: 0,
            partition_id: 0,
            topic_uuid: 0,
            replica_array: Vec::new(),
            insync_replica_array: Vec::new(),
            removing_replica_array: Vec::new(),
            adding_replica_array: Vec::new(),
            leader: 0,
            leader_epoch: 0,
            partition_epoch: 0,
            dir_array: Vec::new(),
        }
    }
}

impl KafkaRecordPartitionRecord {
    /// The four replica arrays of a partition record, one behind the other.
    pub open spec fn decode_replicas(s: Seq<u8>) -> Decoded<
        (Seq<i32>, Seq<i32>, Seq<i32>, Seq<i32>),
    > {
        match decode_array::<i32>(s) {
            Err(e) => Err(e),
            Ok((replicas, s1)) => match decode_array::<i32>(s1) {
                Err(e) => Err(e),
                Ok((insync, s2)) => match decode_array::<i32>(s2) {
                    Err(e) => Err(e),
                    Ok((removing, s3)) => match decode_array::<i32>(s3) {
                        Err(e) => Err(e),
                        Ok((adding, s4)) => Ok(((replicas, insync, removing, adding), s4)),
                    },
                },
            },
        }
    }

    /// The leader, the two epochs, the directories and the tag buffer that
    /// end a partition record.
    pub open spec fn decode_leadership(s: Seq<u8>) -> Decoded<(i32, i32, i32, Seq<u128>)> {
        match i32::decode(s) {
            Err(e) => Err(e),
            Ok((leader, s1)) => match i32::decode(s1) {
                Err(e) => Err(e),
                Ok((leader_epoch, s2)) => match i32::decode(s2) {
                    Err(e) => Err(e),
                    Ok((partition_epoch, s3)) => match decode_array::<u128>(s3) {
                        Err(e) => Err(e),
                        Ok((directories, s4)) => match decode_tag_buffer(s4) {
                            Err(e) => Err(e),
                            Ok((_, s5)) => Ok(
                                ((leader, leader_epoch, partition_epoch, directories), s5),
                            ),
                        },
                    },
                },
            },
        }
    }

    /// What follows the three leading bytes of a partition record. The three
    /// leading fields of the result are zero.
    pub open spec fn decode_body(s: Seq<u8>) -> Decoded<KafkaRecordPartitionRecordView> {
        match i32::decode(s) {
            Err(e) => Err(e),
            Ok((partition_id, s1)) => match u128::decode(s1) {
                Err(e) => Err(e),
                Ok((topic_uuid, s2)) => match Self::decode_replicas(s2) {
                    Err(e) => Err(e),
                    Ok((replicas, s3)) => match Self::decode_leadership(s3) {
                        Err(e) => Err(e),
                        Ok((leadership, s4)) => Ok(
                            (
                                KafkaRecordPartitionRecordView {
                                    frame_version: 0,
                                    frame_type: 0,
                                    version: 0,
                                    partition_id,
                                    topic_uuid,
                                    replica_array: replicas.0,
                                    insync_replica_array: replicas.1,
                                    removing_replica_array: replicas.2,
                                    adding_replica_array: replicas.3,
                                    leader: leadership.0,
                                    leader_epoch: leadership.1,
                                    partition_epoch: leadership.2,
                                    dir_array: leadership.3,
                                },
                                s4,
                            ),
                        ),
                    },
                },
            },
        }
    }

    /// The four replica arrays, each compact.
    pub open spec fn encode_replicas(v: KafkaRecordPartitionRecordView) -> Seq<u8> {
        encode_array::<i32>(v.replica_array) + encode_array::<i32>(v.insync_replica_array)
            + encode_array::<i32>(v.removing_replica_array) + encode_array::<i32>(
            v.adding_replica_array,
        )
    }

    /// The leader, the two epochs, the directories as a compact array, and an
    /// empty tag buffer.
    pub open spec fn encode_leadership(v: KafkaRecordPartitionRecordView) -> Seq<u8> {
        i32::encode(v.leader) + i32::encode(v.leader_epoch) + i32::encode(v.partition_epoch)
            + encode_array::<u128>(v.dir_array) + empty_tag_buffer()
    }

    /// What follows the three leading bytes: the fields in the order of the
    /// wire.
    pub open spec fn encode_body(v: KafkaRecordPartitionRecordView) -> Seq<u8> {
        i32::encode(v.partition_id) + u128::encode(v.topic_uuid) + Self::encode_replicas(v)
            + Self::encode_leadership(v)
    }

    /// The record on the wire: the three leading bytes, and what follows them.
    pub open spec fn encode(v: KafkaRecordPartitionRecordView) -> Seq<u8> {
        value_frame(v.frame_version, v.frame_type, v.version) + Self::encode_body(v)
    }

    /// How many bytes the record takes on the wire.
    pub fn size(&self) -> (n: usize)
        ensures
            n == Self::encode(self@).len(),
    {
        let mut scratch: Vec<u8> = Vec::new();
        let _ = self.serialize(&mut scratch);
        scratch.len()
    }

    /// Writes the record.
    pub fn serialize(&self, resp: &mut Vec<u8>) -> (res: Result<(), KafkaErrors>)
        ensures
            res is Ok,
            final(resp)@ == old(resp)@ + Self::encode(self@),
    {
        write_bytes(resp, &self.frame_version)?;
        write_bytes(resp, &self.frame_type)?;
        write_bytes(resp, &self.version)?;
        write_bytes(resp, &self.partition_id)?;
        write_bytes(resp, &self.topic_uuid)?;
        self.write_replicas(resp);
        self.write_leadership(resp);
        assert(resp@ =~= old(resp)@ + Self::encode(self@));
        Ok(())
    }

    /// Writes the four replica arrays.
    fn write_replicas(&self, resp: &mut Vec<u8>)
        ensures
            final(resp)@ == old(resp)@ + Self::encode_replicas(self@),
    {
        proof {
            assert(views(self.replica_array@) =~= self.replica_array@);
            assert(views(self.insync_replica_array@) =~= self.insync_replica_array@);
            assert(views(self.removing_replica_array@) =~= self.removing_replica_array@);
            assert(views(self.adding_replica_array@) =~= self.adding_replica_array@);
        }
        let _ = write_array(resp, self.replica_array.as_slice());
        let _ = write_array(resp, self.insync_replica_array.as_slice());
        let _ = write_array(resp, self.removing_replica_array.as_slice());
        let _ = write_array(resp, self.adding_replica_array.as_slice());
        assert(resp@ =~= old(resp)@ + Self::encode_replicas(self@));
    }

    /// Writes the leader, the epochs, the directories and the tag buffer.
    fn write_leadership(&self, resp: &mut Vec<u8>)
        ensures
            final(resp)@ == old(resp)@ + Self::encode_leadership(self@),
    {
        proof {
            assert(views(self.dir_array@) =~= self.dir_array@);
        }
        let _ = write_bytes(resp, &self.leader);
        let _ = write_bytes(resp, &self.leader_epoch);
        let _ = write_bytes(resp, &self.partition_epoch);
        let _ = write_array(resp, self.dir_array.as_slice());
        let _ = write_tag_buffer(resp);
        assert(resp@ =~= old(resp)@ + Self::encode_leadership(self@));
    }

    /// A record of partition zero of the zero UUID, with nothing in its arrays.
    pub fn new() -> (r: Self)
        ensures
            r@ == (KafkaRecordPartitionRecordView {
                frame_version: 0,
                frame_type: 0,
                version: 0,
                partition_id: 0,
                topic_uuid: 0,
                replica_array: Seq::empty(),
                insync_replica_array: Seq::empty(),
                removing_replica_array: Seq::empty(),
                adding_replica_array: Seq::empty(),
                leader: 0,
                leader_epoch: 0,
                partition_epoch: 0,
                dir_array: Seq::empty(),
            }),
    {
        KafkaRecordPartitionRecord {
            frame_version: 0,
            frame_type: 0,
            version: 0,
            partition_id: 0,
            topic_uuid: 0,
            replica_array: Vec::new(),
            insync_replica_array: Vec::new(),
            removing_replica_array: Vec::new(),
            adding_replica_array: Vec::new(),
            leader: 0,
            leader_epoch: 0,
            partition_epoch: 0,
            dir_array: Vec::new(),
        }
    }

    /// Reads what follows the three leading bytes.
    pub fn deserialize(buffer: &mut Reader) -> (res: Result<Self, KafkaErrors>)
        ensures
            reads_as(res, old(buffer)@, final(buffer)@, Self::decode_body(old(buffer)@)),
    {
        let mut cur = *buffer;
        let partition_id = read_int(&mut cur)?;
        let topic_uuid = read_u128(&mut cur)?;
        let replica_array = read_int_array(&mut cur)?;
        let insync_replica_array = read_int_array(&mut cur)?;
        let removing_replica_array = read_int_array(&mut cur)?;
        let adding_replica_array = read_int_array(&mut cur)?;
        let leader = read_int(&mut cur)?;
        let leader_epoch = read_int(&mut cur)?;
        let partition_epoch = read_int(&mut cur)?;
        let dir_array = read_u128_array(&mut cur)?;
        tag_buffer(&mut cur)?;
        *buffer = cur;
        Ok(
            KafkaRecordPartitionRecord {
                frame_version: 0,
                frame_type: 0,
                version: 0,
                partition_id,
                topic_uuid,
                replica_array,
                insync_replica_array,
                removing_replica_array,
                adding_replica_array,
                leader,
                leader_epoch,
                partition_epoch,
                dir_array,
            },
        )
    }
}

/// What a record carries: one of the three control-record values, or nothing.
#[derive(Debug, Clone)]
pub enum KafkaRecordValue {
    /// No value: the record declares a length of zero or less.
    Invalid,
    KafkaRecordFeatureType(KafkaRecordFeature),
    KafkaRecordTopicRecordType(KafkaRecordTopicRecord),
    KafkaRecordPartitionType(KafkaRecordPartitionRecord),
}

/// What a `KafkaRecordValue` stands for: the same variants, with sequences in place of
/// vectors.
pub enum KafkaRecordValueView {
    Invalid,
    KafkaRecordFeatureType(KafkaRecordFeatureView),
    KafkaRecordTopicRecordType(KafkaRecordTopicRecordView),
    KafkaRecordPartitionType(KafkaRecordPartitionRecordView),
}

impl View for KafkaRecordValue {
    type V = KafkaRecordValueView;

    open spec fn view(&self) -> KafkaRecordValueView {
        match self {
            KafkaRecordValue::Invalid => KafkaRecordValueView::Invalid,
            KafkaRecordValue::KafkaRecordFeatureType(
                v,
            ) => KafkaRecordValueView::KafkaRecordFeatureType(v@),
            KafkaRecordValue::KafkaRecordTopicRecordType(
                v,
            ) => KafkaRecordValueView::KafkaRecordTopicRecordType(v@),
            KafkaRecordValue::KafkaRecordPartitionType(
                v,
            ) => KafkaRecordValueView::KafkaRecordPartitionType(v@),
        }
    }
}

impl Default for KafkaRecordValue {
    /// No value.
    fn default() -> (v: Self)
        ensures
            v@ == KafkaRecordValueView::Invalid,
    {
        KafkaRecordValue::Invalid
    }
}

impl KafkaRecordValue {
    /// The value that the bytes of `s` hold: three leading bytes, of which the
    /// second tells the kind of record, then the record of that kind. Bytes
    /// that follow the record are of no account. A kind other than the three
    /// known ones is a malformed frame.
    pub open spec fn decode_framed(s: Seq<u8>) -> Result<KafkaRecordValueView, KafkaErrors> {
        match decode_value_frame(s) {
            Err(e) => Err(e),
            Ok(((frame_version, frame_type, version), s3)) => if frame_type
                == KAFKA_RECORDTYPE_FEATURE {
                match KafkaRecordFeature::decode_body(s3) {
                    Err(e) => Err(e),
                    Ok((body, _)) => Ok(
                        KafkaRecordValueView::KafkaRecordFeatureType(
                            KafkaRecordFeatureView { frame_version, frame_type, version, ..body },
                        ),
                    ),
                }
            } else if frame_type == KAFKA_RECORDTYPE_TOPIC {
                match KafkaRecordTopicRecord::decode_body(s3) {
                    Err(e) => Err(e),
                    Ok((body, _)) => Ok(
                        KafkaRecordValueView::KafkaRecordTopicRecordType(
                            KafkaRecordTopicRecordView {
                                frame_version,
                                frame_type,
                                version,
                                ..body
                            },
                        ),
                    ),
                }
            } else if frame_type == KAFKA_RECORDTYPE_PARTITION {
                match KafkaRecordPartitionRecord::decode_body(s3) {
                    Err(e) => Err(e),
                    Ok((body, _)) => Ok(
                        KafkaRecordValueView::KafkaRecordPartitionType(
                            KafkaRecordPartitionRecordView {
                                frame_version,
                                frame_type,
                                version,
                                ..body
                            },
                        ),
                    ),
                }
            } else {
                Err(KafkaErrors::MalformedFrame)
            },
        }
    }

    /// The bytes of the record that the value holds; none where it holds none.
    pub open spec fn encode(v: KafkaRecordValueView) -> Seq<u8> {
        match v {
            KafkaRecordValueView::Invalid => Seq::empty(),
            KafkaRecordValueView::KafkaRecordFeatureType(r) => KafkaRecordFeature::encode(r),
            KafkaRecordValueView::KafkaRecordTopicRecordType(r) => KafkaRecordTopicRecord::encode(
                r,
            ),
            KafkaRecordValueView::KafkaRecordPartitionType(r) => KafkaRecordPartitionRecord::encode(
                r,
            ),
        }
    }

    /// How many bytes the value takes on the wire.
    pub fn size(&self) -> (n: usize)
        ensures
            n == Self::encode(self@).len(),
    {
        match self {
            KafkaRecordValue::Invalid => 0,
            KafkaRecordValue::KafkaRecordFeatureType(v) => v.size(),
            KafkaRecordValue::KafkaRecordTopicRecordType(v) => v.size(),
            KafkaRecordValue::KafkaRecordPartitionType(v) => v.size(),
        }
    }

    /// Writes the value.
    pub fn serialize(&self, resp: &mut Vec<u8>) -> (res: Result<(), KafkaErrors>)
        ensures
            res is Ok,
            final(resp)@ == old(resp)@ + Self::encode(self@),
    {
        match self {
            KafkaRecordValue::Invalid => {
                assert(resp@ =~= old(resp)@ + Self::encode(self@));
                Ok(())
            },
            KafkaRecordValue::KafkaRecordFeatureType(v) => v.serialize(resp),
            KafkaRecordValue::KafkaRecordTopicRecordType(v) => v.serialize(resp),
            KafkaRecordValue::KafkaRecordPartitionType(v) => v.serialize(resp),
        }
    }

    /// The value in the first `data_len` bytes of `s`.
    pub open spec fn decode(s: Seq<u8>, data_len: nat) -> Decoded<KafkaRecordValueView> {
        if s.len() < data_len {
            Err(KafkaErrors::UnexpectedEndOfInput)
        } else {
            match Self::decode_framed(s.take(data_len as int)) {
                Err(e) => Err(e),
                Ok(v) => Ok((v, s.skip(data_len as int))),
            }
        }
    }

    /// Where a stream stands after no value could be read from `s`: behind
    /// the `data_len` bytes of the value where they were there, whatever
    /// they hold, and at `s` where the input ended before them.
    pub open spec fn behind_failed(s: Seq<u8>, data_len: nat) -> Seq<u8> {
        if s.len() >= data_len {
            s.skip(data_len as int)
        } else {
            s
        }
    }

    /// Reads a value that takes `data_len` bytes. The bytes are cut off
    /// before they are looked at, so the stream goes on behind them also
    /// where they hold no value.
    pub fn deserialize(buffer: &mut Reader, data_len: usize) -> (res: Result<
        KafkaRecordValue,
        KafkaErrors,
    >)
        ensures
            reads_past(
                res,
                final(buffer)@,
                Self::decode(old(buffer)@, data_len as nat),
                Self::behind_failed(old(buffer)@, data_len as nat),
            ),
    {
        let mut value_reader = buffer.take(data_len)?;
        let frame_version = read_byte(&mut value_reader)?;
        let frame_type = read_byte(&mut value_reader)?;
        let version = read_byte(&mut value_reader)?;
        let value = if frame_type == KAFKA_RECORDTYPE_FEATURE {
            let mut rec = KafkaRecordFeature::deserialize(&mut value_reader)?;
            rec.frame_version = frame_version;
            rec.frame_type = frame_type;
            rec.version = version;
            KafkaRecordValue::KafkaRecordFeatureType(rec)
        } else if frame_type == KAFKA_RECORDTYPE_TOPIC {
            let mut rec = KafkaRecordTopicRecord::deserialize(&mut value_reader)?;
            rec.frame_version = frame_version;
            rec.frame_type = frame_type;
            rec.version = version;
            KafkaRecordValue::KafkaRecordTopicRecordType(rec)
        } else if frame_type == KAFKA_RECORDTYPE_PARTITION {
            let mut rec = KafkaRecordPartitionRecord::deserialize(&mut value_reader)?;
            rec.frame_version = frame_version;
            rec.frame_type = frame_type;
            rec.version = version;
            KafkaRecordValue::KafkaRecordPartitionType(rec)
        } else {
            return Err(KafkaErrors::MalformedFrame);
        };
        Ok(value)
    }
}

/// One record of a batch. `length`, `key_length`, `value_length` and
/// `header_count` hold what the record declared when it was read.
#[derive(Debug, Clone)]
pub struct KafkaRecord {
    pub length: i32,
    pub attributes: i8,
    pub timestamp_delta: i32,
    pub offset_delta: i32,
    pub key_length: i32,
    pub key: Vec<u8>,
    pub value_length: i32,
    pub value: KafkaRecordValue,
    pub header_count: i32,
    pub headers: Vec<KafkaRecordHeader>,
}

/// What a `KafkaRecord` stands for: the same fields, with sequences in place of
/// vectors.
pub struct KafkaRecordView {
    pub length: i32,
    pub attributes: i8,
    pub timestamp_delta: i32,
    pub offset_delta: i32,
    pub key_length: i32,
    pub key: Seq<u8>,
    pub value_length: i32,
    pub value: KafkaRecordValueView,
    pub header_count: i32,
    pub headers: Seq<KafkaRecordHeaderView>,
}

impl View for KafkaRecord {
    type V = KafkaRecordView;

    open spec fn view(&self) -> KafkaRecordView {
        KafkaRecordView {
            length: self.length,
            attributes: self.attributes,
            timestamp_delta: self.timestamp_delta,
            offset_delta: self.offset_delta,
            key_length: self.key_length,
            key: self.key@,
            value_length: self.value_length,
            value: self.value@,
            header_count: self.header_count,
            headers: views(self.headers@),
        }
    }
}

impl Default for KafkaRecord {
    /// A record with no key, no value, no header, and zero in every other
    /// field.
    fn default() -> (r: Self)
        ensures
            r@ == (KafkaRecordView {
                length: 0,
                attributes: 0,
                timestamp_delta: 0,
                offset_delta: 0,
                key_length: 0,
                key: Seq::empty(),
                value_length: 0,
                value: KafkaRecordValueView::Invalid,
                header_count: 0,
                headers: Seq::empty(),
            }),
    {
        let r = KafkaRecord {
            length: 0,
            attributes: 0,
            timestamp_delta: 0,
            offset_delta: 0,
            key_length: 0,
            key: Vec::new(),
            value_length: 0,
            value: KafkaRecordValue::Invalid,
            header_count: 0,
            headers: Vec::new(),
        };
        assert(r@.headers =~= Seq::empty());
        r
    }
}

impl KafkaRecord {
    /// The key of a record: its declared length, and that many bytes if the
    /// length is above zero.
    pub open spec fn decode_key(s: Seq<u8>) -> Decoded<(i32, Seq<u8>)> {
        match decode_varint(s) {
            Err(e) => Err(e),
            Ok((key_length, s1)) => if key_length <= 0 {
                Ok(((key_length, Seq::empty()), s1))
            } else if s1.len() < key_length {
                Err(KafkaErrors::UnexpectedEndOfInput)
            } else {
                Ok(((key_length, s1.take(key_length as int)), s1.skip(key_length as int)))
            },
        }
    }

    /// The value of a record: its declared length, and the control-record
    /// value in that many bytes if the length is above zero.
    pub open spec fn decode_value(s: Seq<u8>) -> Decoded<(i32, KafkaRecordValueView)> {
        match decode_varint(s) {
            Err(e) => Err(e),
            Ok((value_length, s1)) => if value_length <= 0 {
                Ok(((value_length, KafkaRecordValueView::Invalid), s1))
            } else {
                match KafkaRecordValue::decode(s1, value_length as nat) {
                    Err(e) => Err(e),
                    Ok((value, s2)) => Ok(((value_length, value), s2)),
                }
            },
        }
    }

    /// The headers of a record: their declared number, and that many headers
    /// if the number is above zero.
    pub open spec fn decode_headers(s: Seq<u8>) -> Decoded<(i32, Seq<KafkaRecordHeaderView>)> {
        match decode_varint(s) {
            Err(e) => Err(e),
            Ok((header_count, s1)) => match decode_many::<KafkaRecordHeader>(
                s1,
                if header_count <= 0 {
                    0
                } else {
                    header_count as nat
                },
            ) {
                Err(e) => Err(e),
                Ok((headers, s2)) => Ok(((header_count, headers), s2)),
            },
        }
    }

    /// The record that the bytes of `s` hold, where `length` is the length
    /// that the record declared. Bytes that follow the headers are of no
    /// account.
    pub open spec fn decode_body(s: Seq<u8>, length: i32) -> Result<KafkaRecordView, KafkaErrors> {
        match i8::decode(s) {
            Err(e) => Err(e),
            Ok((attributes, s1)) => match decode_varint(s1) {
                Err(e) => Err(e),
                Ok((timestamp_delta, s2)) => match decode_varint(s2) {
                    Err(e) => Err(e),
                    Ok((offset_delta, s3)) => match Self::decode_key(s3) {
                        Err(e) => Err(e),
                        Ok((key, s4)) => match Self::decode_value(s4) {
                            Err(e) => Err(e),
                            Ok((value, s5)) => match Self::decode_headers(s5) {
                                Err(e) => Err(e),
                                Ok((headers, _)) => Ok(
                                    KafkaRecordView {
                                        length,
                                        attributes,
                                        timestamp_delta,
                                        offset_delta,
                                        key_length: key.0,
                                        key: key.1,
                                        value_length: value.0,
                                        value: value.1,
                                        header_count: headers.0,
                                        headers: headers.1,
                                    },
                                ),
                            },
                        },
                    },
                },
            },
        }
    }

    /// The key as it is written: the length -1 alone where the record holds
    /// a negative key length, else the length of the key and the key.
    pub open spec fn encode_key(v: KafkaRecordView) -> Seq<u8> {
        if v.key_length < 0 {
            varint_bytes(-1)
        } else {
            varint_bytes(v.key.len() as int) + v.key
        }
    }

    /// The value as it is written: the length -1 alone where the record
    /// holds no value, else the length of the value's bytes and the bytes.
    pub open spec fn encode_value(v: KafkaRecordView) -> Seq<u8> {
        match v.value {
            KafkaRecordValueView::Invalid => varint_bytes(-1),
            _ => varint_bytes(KafkaRecordValue::encode(v.value).len() as int)
                + KafkaRecordValue::encode(v.value),
        }
    }

    /// The headers as they are written: their number, and the headers.
    pub open spec fn encode_headers(v: KafkaRecordView) -> Seq<u8> {
        varint_bytes(v.headers.len() as int) + encode_all::<KafkaRecordHeader>(v.headers)
    }

    /// What follows the length of a record. The lengths and the number of
    /// headers are those of what the record holds, whatever it declared when
    /// it was read.
    pub open spec fn encode_body(v: KafkaRecordView) -> Seq<u8> {
        i8::encode(v.attributes) + varint_bytes(v.timestamp_delta as int) + varint_bytes(
            v.offset_delta as int,
        ) + Self::encode_key(v) + Self::encode_value(v) + Self::encode_headers(v)
    }

    /// The record on the wire: the length of its body as a signed
    /// variable-length integer, and the body. A body longer than that integer
    /// can say has no encoding.
    pub open spec fn encode(v: KafkaRecordView) -> Option<Seq<u8>> {
        let body = Self::encode_body(v);
        if body.len() > i32::MAX {
            None
        } else {
            Some(varint_bytes(body.len() as int) + body)
        }
    }

    /// The body of the record, in a buffer of its own.
    fn body(&self) -> (body: Vec<u8>)
        ensures
            body@ == Self::encode_body(self@),
    {
        let mut body: Vec<u8> = Vec::new();
        let _ = write_bytes(&mut body, &self.attributes);
        let _ = write_varint_main(&mut body, self.timestamp_delta);
        let _ = write_varint_main(&mut body, self.offset_delta);
        self.write_key(&mut body);
        self.write_value(&mut body);
        self.write_headers(&mut body);
        assert(body@ =~= Self::encode_body(self@));
        body
    }

    /// Writes the key with its length.
    fn write_key(&self, resp: &mut Vec<u8>)
        ensures
            final(resp)@ == old(resp)@ + Self::encode_key(self@),
    {
        if self.key_length < 0 {
            let _ = write_varint_main(resp, -1);
        } else {
            let _ = write_varint_len(resp, self.key.len());
            write_raw(resp, self.key.as_slice());
            assert(resp@ =~= old(resp)@ + Self::encode_key(self@));
        }
    }

    /// Writes the value with its length.
    fn write_value(&self, resp: &mut Vec<u8>)
        ensures
            final(resp)@ == old(resp)@ + Self::encode_value(self@),
    {
        match &self.value {
            KafkaRecordValue::Invalid => {
                let _ = write_varint_main(resp, -1);
            },
            _ => {
                let mut value: Vec<u8> = Vec::new();
                let _ = self.value.serialize(&mut value);
                assert(value@ =~= KafkaRecordValue::encode(self.value@));
                let _ = write_varint_len(resp, value.len());
                write_raw(resp, value.as_slice());
                assert(resp@ =~= old(resp)@ + Self::encode_value(self@));
            },
        }
    }

    /// Writes the headers with their number.
    fn write_headers(&self, resp: &mut Vec<u8>)
        ensures
            final(resp)@ == old(resp)@ + Self::encode_headers(self@),
    {
        let _ = write_varint_len(resp, self.headers.len());
        let _ = write_many(resp, self.headers.as_slice());
        assert(resp@ =~= old(resp)@ + Self::encode_headers(self@));
    }

    /// How many bytes the body of the record takes, which is what the record
    /// declares as its length on the wire.
    pub fn size(&self) -> (res: Result<usize, KafkaErrors>)
        ensures
            match Self::encode(self@) {
                Some(_) => res == Ok::<usize, KafkaErrors>(Self::encode_body(self@).len() as usize),
                None => res == Err::<usize, KafkaErrors>(KafkaErrors::InvalidWriterArg),
            },
    {
        let body = self.body();
        if body.len() > i32::MAX as usize {
            return Err(KafkaErrors::InvalidWriterArg);
        }
        Ok(body.len())
    }

    /// Writes the record, or nothing where it has no encoding.
    pub fn serialize(&self, resp: &mut Vec<u8>) -> (res: Result<(), KafkaErrors>)
        ensures
            match Self::encode(self@) {
                Some(bytes) => res is Ok && final(resp)@ == old(resp)@ + bytes,
                None => res == Err::<(), KafkaErrors>(KafkaErrors::InvalidWriterArg)
                    && final(resp)@ == old(resp)@,
            },
    {
        let body = self.body();
        if body.len() > i32::MAX as usize {
            return Err(KafkaErrors::InvalidWriterArg);
        }
        write_varint_main(resp, body.len() as i32)?;
        write_raw(resp, body.as_slice());
        assert(resp@ =~= old(resp)@ + Self::encode(self@)->Some_0);
        Ok(())
    }

    /// The record that `new` makes: no key, no value, one empty header, and
    /// zero in every other field.
    pub open spec fn blank() -> KafkaRecordView {
        KafkaRecordView {
            length: 0,
            attributes: 0,
            timestamp_delta: 0,
            offset_delta: 0,
            key_length: 0,
            key: Seq::empty(),
            value_length: 0,
            value: KafkaRecordValueView::Invalid,
            header_count: 0,
            headers: seq![KafkaRecordHeaderView { key: Seq::empty(), value: Seq::empty() }],
        }
    }

    /// A record with no key, no value and one empty header.
    pub fn new() -> (r: Self)
        ensures
            r@ == Self::blank(),
    {
        let mut headers = Vec::new();
        headers.push(KafkaRecordHeader::new());
        let r = KafkaRecord {
            length: 0,
            attributes: 0,
            timestamp_delta: 0,
            offset_delta: 0,
            key_length: 0,
            key: Vec::new(),
            value_length: 0,
            value: KafkaRecordValue::Invalid,
            header_count: 0,
            headers,
        };
        assert(r@.headers =~= Self::blank().headers);
        r
    }

    /// The frame of a record: its length as a signed variable-length
    /// integer, which must be above zero, and then that many bytes.
    pub open spec fn decode_frame(s: Seq<u8>) -> Decoded<(i32, Seq<u8>)> {
        match decode_varint(s) {
            Err(e) => Err(e),
            Ok((length, s1)) => if length <= 0 {
                Err(KafkaErrors::MalformedFrame)
            } else if s1.len() < length {
                Err(KafkaErrors::UnexpectedEndOfInput)
            } else {
                Ok(((length, s1.take(length as int)), s1.skip(length as int)))
            },
        }
    }

    /// Where a stream stands after no record could be read from `s`: behind
    /// the frame of the record where the frame is whole, whatever is in it,
    /// and at `s` where the frame itself could not be read.
    pub open spec fn behind_failed(s: Seq<u8>) -> Seq<u8> {
        match Self::decode_frame(s) {
            Ok((_, rest)) => rest,
            Err(_) => s,
        }
    }

    /// Reads one record. The bytes that the record declares are cut off
    /// before they are looked at, so the stream goes on behind them also
    /// where they hold no record.
    pub fn deserialize(buffer: &mut Reader) -> (res: Result<Self, KafkaErrors>)
        ensures
            reads_past(
                res,
                final(buffer)@,
                Self::decode(old(buffer)@),
                Self::behind_failed(old(buffer)@),
            ),
    {
        let mut cur = *buffer;
        let length = read_varint(&mut cur)?;
        if length <= 0 {
            return Err(KafkaErrors::MalformedFrame);
        }
        let mut record_cursor = cur.take(length as usize)?;
        *buffer = cur;
        let attributes = read_byte(&mut record_cursor)?;
        let timestamp_delta = read_varint(&mut record_cursor)?;
        let offset_delta = read_varint(&mut record_cursor)?;
        let key_length = read_varint(&mut record_cursor)?;
        let key = if key_length > 0 {
            read_bytes(&mut record_cursor, key_length as usize)?
        } else {
            Vec::new()
        };
        let value_length = read_varint(&mut record_cursor)?;
        let value = if value_length > 0 {
            KafkaRecordValue::deserialize(&mut record_cursor, value_length as usize)?
        } else {
            KafkaRecordValue::Invalid
        };
        let header_count = read_varint(&mut record_cursor)?;
        let headers = read_many::<KafkaRecordHeader>(
            &mut record_cursor,
            if header_count <= 0 {
                0
            } else {
                header_count as usize
            },
        )?;
        Ok(
            KafkaRecord {
                length,
                attributes,
                timestamp_delta,
                offset_delta,
                key_length,
                key,
                value_length,
                value,
                header_count,
                headers,
            },
        )
    }
}

impl KafkaRead for KafkaRecord {
    /// A record: its frame, and in the bytes of the frame the record.
    open spec fn decode(s: Seq<u8>) -> Decoded<KafkaRecordView> {
        match Self::decode_frame(s) {
            Err(e) => Err(e),
            Ok((frame, rest)) => match Self::decode_body(frame.1, frame.0) {
                Err(e) => Err(e),
                Ok(record) => Ok((record, rest)),
            },
        }
    }

    /// Reads one record of a run of records. A run that fails is given up as
    /// a whole, so a record that cannot be read leaves the stream where it
    /// was.
    fn read(req: &mut Reader) -> (res: Result<Self, KafkaErrors>) {
        let mut cur = *req;
        let record = Self::deserialize(&mut cur)?;
        *req = cur;
        Ok(record)
    }
}

/// A record batch of the log. `batch_length`, `crc` and `rec_length` hold
/// what the batch declared when it was read.
#[derive(Debug, Clone)]
pub struct RecordsBatch {
    pub base_offset: u64,
    pub batch_length: i32,
    pub partition_leader_epoch: i32,
    pub magic: i8,
    pub crc: u32,
    pub attributes: i16,
    pub last_offset_delta: i32,
    pub base_timestamp: i64,
    pub max_timestamp: i64,
    pub producer_id: i64,
    pub producer_epoch: i16,
    pub base_sequence: i32,
    pub rec_length: i32,
    pub records: Vec<KafkaRecord>,
}

/// What a `RecordsBatch` stands for: the same fields, with sequences in place of
/// vectors.
pub struct RecordsBatchView {
    pub base_offset: u64,
    pub batch_length: i32,
    pub partition_leader_epoch: i32,
    pub magic: i8,
    pub crc: u32,
    pub attributes: i16,
    pub last_offset_delta: i32,
    pub base_timestamp: i64,
    pub max_timestamp: i64,
    pub producer_id: i64,
    pub producer_epoch: i16,
    pub base_sequence: i32,
    pub rec_length: i32,
    pub records: Seq<KafkaRecordView>,
}

impl View for RecordsBatch {
    type V = RecordsBatchView;

    open spec fn view(&self) -> RecordsBatchView {
        RecordsBatchView {
            base_offset: self.base_offset,
            batch_length: self.batch_length,
            partition_leader_epoch: self.partition_leader_epoch,
            magic: self.magic,
            crc: self.crc,
            attributes: self.attributes,
            last_offset_delta: self.last_offset_delta,
            base_timestamp: self.base_timestamp,
            max_timestamp: self.max_timestamp,
            producer_id: self.producer_id,
            producer_epoch: self.producer_epoch,
            base_sequence: self.base_sequence,
            rec_length: self.rec_length,
            records: views(self.records@),
        }
    }
}

/// The fields of a batch between its length and its records.
#[derive(Debug, Clone, Copy)]
pub struct BatchHeader {
    pub partition_leader_epoch: i32,
    pub magic: i8,
    pub crc: u32,
    pub attributes: i16,
    pub last_offset_delta: i32,
    pub base_timestamp: i64,
    pub max_timestamp: i64,
    pub producer_id: i64,
    pub producer_epoch: i16,
    pub base_sequence: i32,
    pub rec_length: i32,
}

impl View for BatchHeader {
    type V = BatchHeader;

    open spec fn view(&self) -> BatchHeader {
        *self
    }
}

impl BatchHeader {
    /// The first five fields behind the length.
    pub open spec fn decode_front(s: Seq<u8>) -> Decoded<(i32, i8, u32, i16, i32)> {
        match i32::decode(s) {
            Err(e) => Err(e),
            Ok((partition_leader_epoch, s1)) => match i8::decode(s1) {
                Err(e) => Err(e),
                Ok((magic, s2)) => match u32::decode(s2) {
                    Err(e) => Err(e),
                    Ok((crc, s3)) => match i16::decode(s3) {
                        Err(e) => Err(e),
                        Ok((attributes, s4)) => match i32::decode(s4) {
                            Err(e) => Err(e),
                            Ok((last_offset_delta, s5)) => Ok(
                                (
                                    (
                                        partition_leader_epoch,
                                        magic,
                                        crc,
                                        attributes,
                                        last_offset_delta,
                                    ),
                                    s5,
                                ),
                            ),
                        },
                    },
                },
            },
        }
    }

    /// The six fields that follow them.
    pub open spec fn decode_back(s: Seq<u8>) -> Decoded<(i64, i64, i64, i16, i32, i32)> {
        match i64::decode(s) {
            Err(e) => Err(e),
            Ok((base_timestamp, s1)) => match i64::decode(s1) {
                Err(e) => Err(e),
                Ok((max_timestamp, s2)) => match i64::decode(s2) {
                    Err(e) => Err(e),
                    Ok((producer_id, s3)) => match i16::decode(s3) {
                        Err(e) => Err(e),
                        Ok((producer_epoch, s4)) => match i32::decode(s4) {
                            Err(e) => Err(e),
                            Ok((base_sequence, s5)) => match i32::decode(s5) {
                                Err(e) => Err(e),
                                Ok((rec_length, s6)) => Ok(
                                    (
                                        (
                                            base_timestamp,
                                            max_timestamp,
                                            producer_id,
                                            producer_epoch,
                                            base_sequence,
                                            rec_length,
                                        ),
                                        s6,
                                    ),
                                ),
                            },
                        },
                    },
                },
            },
        }
    }

    /// The eleven fixed-width fields of a batch, in the order of the wire.
    pub open spec fn decode(s: Seq<u8>) -> Decoded<BatchHeader> {
        match Self::decode_front(s) {
            Err(e) => Err(e),
            Ok((front, s1)) => match Self::decode_back(s1) {
                Err(e) => Err(e),
                Ok((back, s2)) => Ok(
                    (
                        BatchHeader {
                            partition_leader_epoch: front.0,
                            magic: front.1,
                            crc: front.2,
                            attributes: front.3,
                            last_offset_delta: front.4,
                            base_timestamp: back.0,
                            max_timestamp: back.1,
                            producer_id: back.2,
                            producer_epoch: back.3,
                            base_sequence: back.4,
                            rec_length: back.5,
                        },
                        s2,
                    ),
                ),
            },
        }
    }

    /// Reads the fixed-width fields of a batch.
    pub fn read(buffer: &mut Reader) -> (res: Result<Self, KafkaErrors>)
        ensures
            reads_as(res, old(buffer)@, final(buffer)@, Self::decode(old(buffer)@)),
    {
        let mut cur = *buffer;
        let partition_leader_epoch = read_int(&mut cur)?;
        let magic = read_byte(&mut cur)?;
        let crc = read_u32(&mut cur)?;
        let attributes = read_short(&mut cur)?;
        let last_offset_delta = read_int(&mut cur)?;
        let base_timestamp = read_long(&mut cur)?;
        let max_timestamp = read_long(&mut cur)?;
        let producer_id = read_long(&mut cur)?;
        let producer_epoch = read_short(&mut cur)?;
        let base_sequence = read_int(&mut cur)?;
        let rec_length = read_int(&mut cur)?;
        *buffer = cur;
        Ok(
            BatchHeader {
                partition_leader_epoch,
                magic,
                crc,
                attributes,
                last_offset_delta,
                base_timestamp,
                max_timestamp,
                producer_id,
                producer_epoch,
                base_sequence,
                rec_length,
            },
        )
    }
}

impl Default for RecordsBatch {
    /// A batch with no record and zero in every field.
    fn default() -> (b: Self)
        ensures
            b@ == (RecordsBatchView {
                base_offset: 0,
                batch_length: 0,
                partition_leader_epoch: 0,
                magic: 0,
                crc: 0,
                attributes: 0,
                last_offset_delta: 0,
                base_timestamp: 0,
                max_timestamp: 0,
                producer_id: 0,
                producer_epoch: 0,
                base_sequence: 0,
                rec_length: 0,
                records: Seq::empty(),
            }),
    {
        let b = RecordsBatch {
            base_offset: 0,
            batch_length: 0,
            partition_leader_epoch: 0,
            magic: 0,
            crc: 0,
            attributes: 0,
            last_offset_delta: 0,
            base_timestamp: 0,
            max_timestamp: 0,
            producer_id: 0,
            producer_epoch: 0,
            base_sequence: 0,
            rec_length: 0,
            records: Vec::new(),
        };
        assert(b@.records =~= Seq::empty());
        b
    }
}

impl RecordsBatch {
    /// The batch that the bytes of `s` hold, where `base_offset` and
    /// `batch_length` are what stood before them: the fixed-width fields,
    /// then as many records as the batch declares, none if it declares a
    /// negative number. Bytes that follow the last record are of no account.
    pub open spec fn decode_body(s: Seq<u8>, base_offset: u64, batch_length: i32) -> Result<
        RecordsBatchView,
        KafkaErrors,
    > {
        match BatchHeader::decode(s) {
            Err(e) => Err(e),
            Ok((h, s1)) => match decode_many::<KafkaRecord>(
                s1,
                if h.rec_length <= 0 {
                    0
                } else {
                    h.rec_length as nat
                },
            ) {
                Err(e) => Err(e),
                Ok((records, _)) => Ok(
                    RecordsBatchView {
                        base_offset,
                        batch_length,
                        partition_leader_epoch: h.partition_leader_epoch,
                        magic: h.magic,
                        crc: h.crc,
                        attributes: h.attributes,
                        last_offset_delta: h.last_offset_delta,
                        base_timestamp: h.base_timestamp,
                        max_timestamp: h.max_timestamp,
                        producer_id: h.producer_id,
                        producer_epoch: h.producer_epoch,
                        base_sequence: h.base_sequence,
                        rec_length: h.rec_length,
                        records,
                    },
                ),
            },
        }
    }

    /// The frame of a batch: its base offset, its length, which must not be
    /// negative, and then that many bytes.
    pub open spec fn decode_frame(s: Seq<u8>) -> Decoded<(u64, i32, Seq<u8>)> {
        match u64::decode(s) {
            Err(e) => Err(e),
            Ok((base_offset, s1)) => match i32::decode(s1) {
                Err(e) => Err(e),
                Ok((batch_length, s2)) => if batch_length < 0 {
                    Err(KafkaErrors::MalformedFrame)
                } else if s2.len() < batch_length {
                    Err(KafkaErrors::UnexpectedEndOfInput)
                } else {
                    Ok(
                        (
                            (base_offset, batch_length, s2.take(batch_length as int)),
                            s2.skip(batch_length as int),
                        ),
                    )
                },
            },
        }
    }

    /// A batch: its frame, and in the bytes of the frame the batch.
    pub open spec fn decode(s: Seq<u8>) -> Decoded<RecordsBatchView> {
        match Self::decode_frame(s) {
            Err(e) => Err(e),
            Ok((frame, rest)) => match Self::decode_body(frame.2, frame.0, frame.1) {
                Err(e) => Err(e),
                Ok(batch) => Ok((batch, rest)),
            },
        }
    }

    /// The encodings of the records, one behind the other; none where one of
    /// them has none.
    pub open spec fn encode_records(records: Seq<KafkaRecordView>) -> Option<Seq<u8>>
        decreases records.len(),
    {
        if records.len() == 0 {
            Some(Seq::empty())
        } else {
            match Self::encode_records(records.drop_last()) {
                None => None,
                Some(front) => match KafkaRecord::encode(records.last()) {
                    None => None,
                    Some(last) => Some(front + last),
                },
            }
        }
    }

    /// The part of a batch that its checksum covers: the bytes from
    /// `attributes` to the end of the last record. The number of records is
    /// that of the records the batch holds.
    pub open spec fn encode_tail(v: RecordsBatchView) -> Option<Seq<u8>> {
        if v.records.len() > i32::MAX {
            None
        } else {
            match Self::encode_records(v.records) {
                None => None,
                Some(records) => Some(
                    i16::encode(v.attributes) + i32::encode(v.last_offset_delta) + i64::encode(
                        v.base_timestamp,
                    ) + i64::encode(v.max_timestamp) + i64::encode(v.producer_id) + i16::encode(
                        v.producer_epoch,
                    ) + i32::encode(v.base_sequence) + i32::encode(v.records.len() as i32)
                        + records,
                ),
            }
        }
    }

    /// The batch on the wire. Its length counts every byte from
    /// `partition_leader_epoch` to the end of the last record, and its
    /// checksum is the CRC-32C of the part that `encode_tail` gives; both are
    /// computed, whatever the batch declared when it was read. A batch longer
    /// than its length field can say has no encoding.
    pub open spec fn encode(v: RecordsBatchView) -> Option<Seq<u8>> {
        match Self::encode_tail(v) {
            None => None,
            Some(tail) => if 9 + tail.len() > i32::MAX {
                None
            } else {
                Some(
                    u64::encode(v.base_offset) + i32::encode((9 + tail.len()) as i32) + i32::encode(
                        v.partition_leader_epoch,
                    ) + i8::encode(v.magic) + u32::encode(crc32c_of(tail)) + tail,
                )
            },
        }
    }

    /// In every encoded batch the four bytes at offset 17 spell the CRC-32C
    /// of all the bytes from offset 21 on, and those are the bytes from
    /// `attributes` to the end of the last record.
    pub proof fn lemma_crc_covers_tail(v: RecordsBatchView)
        requires
            Self::encode(v) is Some,
        ensures
            Self::encode_tail(v) == Some(Self::encode(v)->Some_0.skip(21)),
            u32::decode(Self::encode(v)->Some_0.skip(17)) == Ok::<(u32, Seq<u8>), KafkaErrors>(
                (crc32c_of(Self::encode(v)->Some_0.skip(21)), Self::encode(v)->Some_0.skip(21)),
            ),
    {
        let tail = Self::encode_tail(v)->Some_0;
        let bytes = Self::encode(v)->Some_0;
        let crc = crc32c_of(tail);
        lemma_pow256_values();
        lemma_be_bytes_value(v.base_offset as nat, 8);
        lemma_be_bytes_value(to_unsigned((9 + tail.len()) as i32 as int, 0x1_0000_0000), 4);
        lemma_be_bytes_value(to_unsigned(v.partition_leader_epoch as int, 0x1_0000_0000), 4);
        lemma_be_bytes_value(to_unsigned(v.magic as int, 0x100), 1);
        lemma_be_bytes_value(crc as nat, 4);
        assert(bytes.skip(17) =~= u32::encode(crc) + tail);
        assert(bytes.skip(21) =~= tail);
        lemma_u32_round_trip(crc, tail);
    }

    /// Once a record has no encoding, no longer run of records has one.
    pub proof fn lemma_encode_records_fails(records: Seq<KafkaRecordView>, k: int)
        requires
            0 <= k <= records.len(),
            Self::encode_records(records.take(k)) is None,
        ensures
            Self::encode_records(records) is None,
        decreases records.len() - k,
    {
        if k == records.len() {
            assert(records.take(k) =~= records);
        } else {
            assert(records.take(k + 1).drop_last() =~= records.take(k));
            Self::lemma_encode_records_fails(records, k + 1);
        }
    }

    /// The part of the batch that the checksum covers, in a buffer of its own.
    fn tail(&self) -> (res: Result<Vec<u8>, KafkaErrors>)
        ensures
            match Self::encode_tail(self@) {
                Some(bytes) => res matches Ok(tail) && tail@ == bytes,
                None => res == Err::<Vec<u8>, KafkaErrors>(KafkaErrors::InvalidWriterArg),
            },
    {
        if self.records.len() > i32::MAX as usize {
            return Err(KafkaErrors::InvalidWriterArg);
        }
        let mut tail: Vec<u8> = Vec::new();
        let _ = write_bytes(&mut tail, &self.attributes);
        let _ = write_bytes(&mut tail, &self.last_offset_delta);
        let _ = write_bytes(&mut tail, &self.base_timestamp);
        let _ = write_bytes(&mut tail, &self.max_timestamp);
        let _ = write_bytes(&mut tail, &self.producer_id);
        let _ = write_bytes(&mut tail, &self.producer_epoch);
        let _ = write_bytes(&mut tail, &self.base_sequence);
        let _ = write_bytes(&mut tail, &(self.records.len() as i32));
        let ghost fixed = tail@;
        let ghost all = views(self.records@);
        let mut i: usize = 0;
        assert(fixed + Seq::<u8>::empty() =~= fixed);
        while i < self.records.len()
            invariant
                i <= self.records@.len(),
                all == views(self.records@),
                all == self@.records,
                Self::encode_records(all.take(i as int)) matches Some(done) && tail@ == fixed
                    + done,
            decreases self.records@.len() - i,
        {
            proof {
                assert(all.take(i + 1).drop_last() =~= all.take(i as int));
                assert(all.take(i + 1).last() == self.records@[i as int]@);
            }
            match self.records[i].serialize(&mut tail) {
                Ok(()) => {},
                Err(e) => {
                    proof {
                        Self::lemma_encode_records_fails(all, i + 1);
                    }
                    return Err(e);
                },
            }
            assert(tail@ =~= fixed + Self::encode_records(all.take(i + 1))->Some_0);
            i += 1;
        }
        assert(all.take(self.records@.len() as int) =~= all);
        assert(tail@ =~= Self::encode_tail(self@)->Some_0);
        Ok(tail)
    }

    /// The checksum and the length that the batch has on the wire.
    pub fn calc_meta(&self) -> (res: Result<(u32, i32), KafkaErrors>)
        ensures
            match (Self::encode(self@), Self::encode_tail(self@)) {
                (Some(_), Some(tail)) => res == Ok::<(u32, i32), KafkaErrors>(
                    (crc32c_of(tail), (9 + tail.len()) as i32),
                ),
                _ => res == Err::<(u32, i32), KafkaErrors>(KafkaErrors::InvalidWriterArg),
            },
    {
        let tail = self.tail()?;
        if tail.len() > i32::MAX as usize - 9 {
            return Err(KafkaErrors::InvalidWriterArg);
        }
        Ok((crc32c(tail.as_slice()), (tail.len() + 9) as i32))
    }

    /// How many bytes the batch takes behind its length field.
    pub fn size(&self) -> (res: Result<usize, KafkaErrors>)
        ensures
            match (Self::encode(self@), Self::encode_tail(self@)) {
                (Some(_), Some(tail)) => res == Ok::<usize, KafkaErrors>((9 + tail.len()) as usize),
                _ => res == Err::<usize, KafkaErrors>(KafkaErrors::InvalidWriterArg),
            },
    {
        let (_, length) = self.calc_meta()?;
        Ok(length as usize)
    }

    /// Writes the batch, or nothing where it has no encoding.
    pub fn serialize(&self, resp: &mut Vec<u8>) -> (res: Result<(), KafkaErrors>)
        ensures
            match Self::encode(self@) {
                Some(bytes) => res is Ok && final(resp)@ == old(resp)@ + bytes,
                None => res == Err::<(), KafkaErrors>(KafkaErrors::InvalidWriterArg)
                    && final(resp)@ == old(resp)@,
            },
    {
        let tail = self.tail()?;
        if tail.len() > i32::MAX as usize - 9 {
            return Err(KafkaErrors::InvalidWriterArg);
        }
        let crc = crc32c(tail.as_slice());
        let length = (tail.len() + 9) as i32;
        write_bytes(resp, &self.base_offset)?;
        write_bytes(resp, &length)?;
        write_bytes(resp, &self.partition_leader_epoch)?;
        write_bytes(resp, &self.magic)?;
        write_bytes(resp, &crc)?;
        write_raw(resp, tail.as_slice());
        assert(resp@ =~= old(resp)@ + Self::encode(self@)->Some_0);
        Ok(())
    }

    /// A batch with one blank record and zero in every field.
    pub fn new() -> (b: Self)
        ensures
            b@ == (RecordsBatchView {
                base_offset: 0,
                batch_length: 0,
                partition_leader_epoch: 0,
                magic: 0,
                crc: 0,
                attributes: 0,
                last_offset_delta: 0,
                base_timestamp: 0,
                max_timestamp: 0,
                producer_id: 0,
                producer_epoch: 0,
                base_sequence: 0,
                rec_length: 0,
                records: seq![KafkaRecord::blank()],
            }),
    {
        let mut records = Vec::new();
        records.push(KafkaRecord::new());
        assert(views(records@) =~= seq![KafkaRecord::blank()]);
        RecordsBatch {
            base_offset: 0,
            batch_length: 0,
            partition_leader_epoch: 0,
            magic: 0,
            crc: 0,
            attributes: 0,
            last_offset_delta: 0,
            base_timestamp: 0,
            max_timestamp: 0,
            producer_id: 0,
            producer_epoch: 0,
            base_sequence: 0,
            rec_length: 0,
            records,
        }
    }

    /// Where a stream stands after no batch could be read from `s`: behind
    /// the frame of the batch where the frame is whole, whatever is in it,
    /// and at `s` where the frame itself could not be read.
    pub open spec fn behind_failed(s: Seq<u8>) -> Seq<u8> {
        match Self::decode_frame(s) {
            Ok((_, rest)) => rest,
            Err(_) => s,
        }
    }

    /// Reads exactly one batch. The bytes that the batch declares are cut
    /// off before they are looked at, so the stream goes on behind them also
    /// where they hold no batch: a malformed record fails its batch and
    /// leaves the next batch where it is found.
    pub fn deserialize(input_buffer: &mut Reader) -> (res: Result<Self, KafkaErrors>)
        ensures
            reads_past(
                res,
                final(input_buffer)@,
                Self::decode(old(input_buffer)@),
                Self::behind_failed(old(input_buffer)@),
            ),
    {
        let mut cur = *input_buffer;
        let base_offset = read_u64(&mut cur)?;
        let batch_length = read_int(&mut cur)?;
        if batch_length < 0 {
            return Err(KafkaErrors::MalformedFrame);
        }
        let mut buffer = cur.take(batch_length as usize)?;
        *input_buffer = cur;
        let header = BatchHeader::read(&mut buffer)?;
        let records = read_many::<KafkaRecord>(
            &mut buffer,
            if header.rec_length <= 0 {
                0
            } else {
                header.rec_length as usize
            },
        )?;
        Ok(
            RecordsBatch {
                base_offset,
                batch_length,
                partition_leader_epoch: header.partition_leader_epoch,
                magic: header.magic,
                crc: header.crc,
                attributes: header.attributes,
                last_offset_delta: header.last_offset_delta,
                base_timestamp: header.base_timestamp,
                max_timestamp: header.max_timestamp,
                producer_id: header.producer_id,
                producer_epoch: header.producer_epoch,
                base_sequence: header.base_sequence,
                rec_length: header.rec_length,
                records,
            },
        )
    }
}

} // verus!
