//! The Fetch API: the request as the wire gives it, and the response, which
//! tells of every partition asked for that its topic is not known.

use vstd::prelude::*;
use crate::errors::{Decoded, KafkaErrors};
use crate::models::views;
use crate::parser::{
    KafkaRead, Reader, decode_array, decode_compact_string, decode_tag_buffer, read_array,
    read_byte, read_compact_string, read_int, read_int_array, read_long, read_u128, reads_as,
    tag_buffer,
};
use crate::writer::{
    KafkaWrite, compact_bytes, empty_tag_buffer, encode_array, write_array, write_bytes,
    write_compact_string, write_tag_buffer,
};

verus! {

/// The error code of a partition whose topic UUID is not known.
pub const FETCH_RESPONSE_UNKNOWN_TOPIC: i16 = 100;

/// A topic that a fetch session is to forget, with its partitions.
#[derive(Debug, Clone)]
pub struct FetchRequestForgottenTopic {
    pub topic_id: u128,
    pub partitions: Vec<i32>,
}

/// What a `FetchRequestForgottenTopic` stands for: the same fields, with sequences in place of
/// vectors.
pub struct FetchRequestForgottenTopicView {
    pub topic_id: u128,
    pub partitions: Seq<i32>,
}

impl View for FetchRequestForgottenTopic {
    type V = FetchRequestForgottenTopicView;

    open spec fn view(&self) -> FetchRequestForgottenTopicView {
        FetchRequestForgottenTopicView { topic_id: self.topic_id, partitions: self.partitions@ }
    }
}

impl KafkaRead for FetchRequestForgottenTopic {
    /// The UUID, the partitions as a compact array, and a tag buffer.
    open spec fn decode(s: Seq<u8>) -> Decoded<FetchRequestForgottenTopicView> {
        match u128::decode(s) {
            Err(e) => Err(e),
            Ok((topic_id, s1)) => match decode_array::<i32>(s1) {
                Err(e) => Err(e),
                Ok((partitions, s2)) => match decode_tag_buffer(s2) {
                    Err(e) => Err(e),
                    Ok((_, s3)) => Ok(
                        (FetchRequestForgottenTopicView { topic_id, partitions }, s3),
                    ),
                },
            },
        }
    }

    fn read(req: &mut Reader) -> (res: Result<Self, KafkaErrors>) {
        Self::new(req)
    }
}

impl FetchRequestForgottenTopic {
    /// Reads a forgotten topic.
    pub fn new(req: &mut Reader) -> (res: Result<Self, KafkaErrors>)
        ensures
            reads_as(res, old(req)@, final(req)@, Self::decode(old(req)@)),
    {
        let mut cur = *req;
        let topic_id = read_u128(&mut cur)?;
        let partitions = read_int_array(&mut cur)?;
        tag_buffer(&mut cur)?;
        *req = cur;
        Ok(FetchRequestForgottenTopic { topic_id, partitions })
    }
}

/// A partition that a fetch request asks for.
#[derive(Debug, Clone, Copy)]
pub struct FetchPartition {
    pub partition: i32,
    pub current_leader_epoch: i32,
    pub fetch_offset: i64,
    pub last_fetched_epoch: i32,
    pub log_start_offset: i64,
    pub partition_max_bytes: i32,
}

impl View for FetchPartition {
    type V = FetchPartition;

    open spec fn view(&self) -> FetchPartition {
        *self
    }
}

impl KafkaRead for FetchPartition {
    /// The six fields in the order of the wire, and a tag buffer.
    open spec fn decode(s: Seq<u8>) -> Decoded<FetchPartition> {
        match i32::decode(s) {
            Err(e) => Err(e),
            Ok((partition, s1)) => match i32::decode(s1) {
                Err(e) => Err(e),
                Ok((current_leader_epoch, s2)) => match i64::decode(s2) {
                    Err(e) => Err(e),
                    Ok((fetch_offset, s3)) => match i32::decode(s3) {
                        Err(e) => Err(e),
                        Ok((last_fetched_epoch, s4)) => match i64::decode(s4) {
                            Err(e) => Err(e),
                            Ok((log_start_offset, s5)) => match i32::decode(s5) {
                                Err(e) => Err(e),
                                Ok((partition_max_bytes, s6)) => match decode_tag_buffer(s6) {
                                    Err(e) => Err(e),
                                    Ok((_, s7)) => Ok(
                                        (
                                            FetchPartition {
                                                partition,
                                                current_leader_epoch,
                                                fetch_offset,
                                                last_fetched_epoch,
                                                log_start_offset,
                                                partition_max_bytes,
                                            },
                                            s7,
                                        ),
                                    ),
                                },
                            },
                        },
                    },
                },
            },
        }
    }

    fn read(req: &mut Reader) -> (res: Result<Self, KafkaErrors>) {
        Self::new(req)
    }
}

impl FetchPartition {
    /// Reads a partition of a fetch request.
    pub fn new(req: &mut Reader) -> (res: Result<Self, KafkaErrors>)
        ensures
            reads_as(res, old(req)@, final(req)@, Self::decode(old(req)@)),
    {
        let mut cur = *req;
        let partition = read_int(&mut cur)?;
        let current_leader_epoch = read_int(&mut cur)?;
        let fetch_offset = read_long(&mut cur)?;
        let last_fetched_epoch = read_int(&mut cur)?;
        let log_start_offset = read_long(&mut cur)?;
        let partition_max_bytes = read_int(&mut cur)?;
        tag_buffer(&mut cur)?;
        *req = cur;
        Ok(
            FetchPartition {
                partition,
                current_leader_epoch,
                fetch_offset,
                last_fetched_epoch,
                log_start_offset,
                partition_max_bytes,
            },
        )
    }
}

/// A topic that a fetch request asks for, with the partitions asked for.
#[derive(Debug, Clone)]
pub struct FetchTopic {
    pub topic_id: u128,
    pub partitions: Vec<FetchPartition>,
}

/// What a `FetchTopic` stands for: the same fields, with sequences in place of
/// vectors.
pub struct FetchTopicView {
    pub topic_id: u128,
    pub partitions: Seq<FetchPartition>,
}

impl View for FetchTopic {
    type V = FetchTopicView;

    open spec fn view(&self) -> FetchTopicView {
        FetchTopicView { topic_id: self.topic_id, partitions: views(self.partitions@) }
    }
}

impl KafkaRead for FetchTopic {
    /// The UUID, the partitions as a compact array, and a tag buffer.
    open spec fn decode(s: Seq<u8>) -> Decoded<FetchTopicView> {
        match u128::decode(s) {
            Err(e) => Err(e),
            Ok((topic_id, s1)) => match decode_array::<FetchPartition>(s1) {
                Err(e) => Err(e),
                Ok((partitions, s2)) => match decode_tag_buffer(s2) {
                    Err(e) => Err(e),
                    Ok((_, s3)) => Ok((FetchTopicView { topic_id, partitions }, s3)),
                },
            },
        }
    }

    fn read(req: &mut Reader) -> (res: Result<Self, KafkaErrors>) {
        Self::new(req)
    }
}

impl FetchTopic {
    /// Reads a topic of a fetch request.
    pub fn new(req: &mut Reader) -> (res: Result<Self, KafkaErrors>)
        ensures
            reads_as(res, old(req)@, final(req)@, Self::decode(old(req)@)),
    {
        let mut cur = *req;
        let topic_id = read_u128(&mut cur)?;
        let partitions = read_array::<FetchPartition>(&mut cur)?;
        tag_buffer(&mut cur)?;
        *req = cur;
        Ok(FetchTopic { topic_id, partitions })
    }
}

/// A fetch request.
#[derive(Debug, Clone)]
pub struct FetchRequest {
    pub max_wait_ms: i32,
    pub min_bytes: i32,
    pub max_bytes: i32,
    pub isolation_level: i8,
    pub session_id: i32,
    pub session_epoch: i32,
    pub topics: Vec<FetchTopic>,
    pub forgotten_topics_data: Vec<FetchRequestForgottenTopic>,
    pub rack_id: Vec<u8>,
}

/// What a `FetchRequest` stands for: the same fields, with sequences in place of
/// vectors.
pub struct FetchRequestView {
    pub max_wait_ms: i32,
    pub min_bytes: i32,
    pub max_bytes: i32,
    pub isolation_level: i8,
    pub session_id: i32,
    pub session_epoch: i32,
    pub topics: Seq<FetchTopicView>,
    pub forgotten_topics_data: Seq<FetchRequestForgottenTopicView>,
    pub rack_id: Seq<u8>,
}

impl View for FetchRequest {
    type V = FetchRequestView;

    open spec fn view(&self) -> FetchRequestView {
        FetchRequestView {
            max_wait_ms: self.max_wait_ms,
            min_bytes: self.min_bytes,
            max_bytes: self.max_bytes,
            isolation_level: self.isolation_level,
            session_id: self.session_id,
            session_epoch: self.session_epoch,
            topics: views(self.topics@),
            forgotten_topics_data: views(self.forgotten_topics_data@),
            rack_id: self.rack_id@,
        }
    }
}

impl FetchRequest {
    /// The six fixed-width fields that a fetch request begins with.
    pub open spec fn decode_limits(s: Seq<u8>) -> Decoded<(i32, i32, i32, i8, i32, i32)> {
        match i32::decode(s) {
            Err(e) => Err(e),
            Ok((max_wait_ms, s1)) => match i32::decode(s1) {
                Err(e) => Err(e),
                Ok((min_bytes, s2)) => match i32::decode(s2) {
                    Err(e) => Err(e),
                    Ok((max_bytes, s3)) => match i8::decode(s3) {
                        Err(e) => Err(e),
                        Ok((isolation_level, s4)) => match i32::decode(s4) {
                            Err(e) => Err(e),
                            Ok((session_id, s5)) => match i32::decode(s5) {
                                Err(e) => Err(e),
                                Ok((session_epoch, s6)) => Ok(
                                    (
                                        (
                                            max_wait_ms,
                                            min_bytes,
                                            max_bytes,
                                            isolation_level,
                                            session_id,
                                            session_epoch,
                                        ),
                                        s6,
                                    ),
                                ),
                            },
                        },
                    },
                },
            },
        }
    }

    /// The body of a fetch request: the fixed-width fields, the topics, the
    /// forgotten topics, the rack id and a tag buffer.
    pub open spec fn decode(s: Seq<u8>) -> Decoded<FetchRequestView> {
        match Self::decode_limits(s) {
            Err(e) => Err(e),
            Ok((limits, s1)) => match decode_array::<FetchTopic>(s1) {
                Err(e) => Err(e),
                Ok((topics, s2)) => match decode_array::<FetchRequestForgottenTopic>(s2) {
                    Err(e) => Err(e),
                    Ok((forgotten_topics_data, s3)) => match decode_compact_string(s3) {
                        Err(e) => Err(e),
                        Ok((rack_id, s4)) => match decode_tag_buffer(s4) {
                            Err(e) => Err(e),
                            Ok((_, s5)) => Ok(
                                (
                                    FetchRequestView {
                                        max_wait_ms: limits.0,
                                        min_bytes: limits.1,
                                        max_bytes: limits.2,
                                        isolation_level: limits.3,
                                        session_id: limits.4,
                                        session_epoch: limits.5,
                                        topics,
                                        forgotten_topics_data,
                                        rack_id,
                                    },
                                    s5,
                                ),
                            ),
                        },
                    },
                },
            },
        }
    }

    /// Reads the body of a fetch request.
    pub fn new(req: &mut Reader) -> (res: Result<Self, KafkaErrors>)
        ensures
            reads_as(res, old(req)@, final(req)@, Self::decode(old(req)@)),
    {
        let mut cur = *req;
        let max_wait_ms = read_int(&mut cur)?;
        let min_bytes = read_int(&mut cur)?;
        let max_bytes = read_int(&mut cur)?;
        let isolation_level = read_byte(&mut cur)?;
        let session_id = read_int(&mut cur)?;
        let session_epoch = read_int(&mut cur)?;
        let topics = read_array::<FetchTopic>(&mut cur)?;
        let forgotten_topics_data = read_array::<FetchRequestForgottenTopic>(&mut cur)?;
        let rack_id = read_compact_string(&mut cur)?;
        tag_buffer(&mut cur)?;
        *req = cur;
        Ok(
            FetchRequest {
                max_wait_ms,
                min_bytes,
                max_bytes,
                isolation_level,
                session_id,
                session_epoch,
                topics,
                forgotten_topics_data,
                rack_id,
            },
        )
    }
}

/// An aborted transaction in the response for a partition.
#[derive(Debug, Clone, Copy)]
pub struct FetchResponseAbortedTransaction {
    pub producer_id: i64,
    pub first_offset: i64,
}

impl View for FetchResponseAbortedTransaction {
    type V = FetchResponseAbortedTransaction;

    open spec fn view(&self) -> FetchResponseAbortedTransaction {
        *self
    }
}

impl KafkaWrite for FetchResponseAbortedTransaction {
    /// The producer id, the first offset, and an empty tag buffer.
    open spec fn encode(v: FetchResponseAbortedTransaction) -> Seq<u8> {
        i64::encode(v.producer_id) + i64::encode(v.first_offset) + empty_tag_buffer()
    }

    fn write(&self, writer: &mut Vec<u8>) -> (res: Result<(), KafkaErrors>) {
        write_bytes(writer, &self.producer_id)?;
        write_bytes(writer, &self.first_offset)?;
        write_tag_buffer(writer)?;
        assert(writer@ =~= old(writer)@ + Self::encode(self@));
        Ok(())
    }
}

impl Default for FetchResponseAbortedTransaction {
    /// The entry of no transaction: producer zero at offset zero.
    fn default() -> (t: Self)
        ensures
            t == (FetchResponseAbortedTransaction { producer_id: 0, first_offset: 0 }),
    {
        FetchResponseAbortedTransaction { producer_id: 0, first_offset: 0 }
    }
}

impl FetchResponseAbortedTransaction {
    /// The entry of no transaction: producer zero at offset zero.
    pub fn new(_req: &FetchRequest) -> (t: Self)
        ensures
            t == (FetchResponseAbortedTransaction { producer_id: 0, first_offset: 0 }),
    {
        FetchResponseAbortedTransaction { producer_id: 0, first_offset: 0 }
    }

    /// Writes the entry.
    pub fn serialize(&self, resp: &mut Vec<u8>) -> (res: Result<(), KafkaErrors>)
        ensures
            res is Ok,
            final(resp)@ == old(resp)@ + Self::encode(self@),
    {
        self.write(resp)
    }
}

/// The response for one partition.
#[derive(Debug, Clone)]
pub struct FetchResponsePartition {
    pub partition_index: i32,
    pub error_code: i16,
    pub high_watermark: i64,
    pub last_stable_offset: i64,
    pub log_start_offset: i64,
    pub aborted_transactions: Vec<FetchResponseAbortedTransaction>,
    pub preferred_read_replica: i32,
    pub records: Vec<u8>,
}

/// What a `FetchResponsePartition` stands for: the same fields, with sequences in place of
/// vectors.
pub struct FetchResponsePartitionView {
    pub partition_index: i32,
    pub error_code: i16,
    pub high_watermark: i64,
    pub last_stable_offset: i64,
    pub log_start_offset: i64,
    pub aborted_transactions: Seq<FetchResponseAbortedTransaction>,
    pub preferred_read_replica: i32,
    pub records: Seq<u8>,
}

impl View for FetchResponsePartition {
    type V = FetchResponsePartitionView;

    open spec fn view(&self) -> FetchResponsePartitionView {
        FetchResponsePartitionView {
            partition_index: self.partition_index,
            error_code: self.error_code,
            high_watermark: self.high_watermark,
            last_stable_offset: self.last_stable_offset,
            log_start_offset: self.log_start_offset,
            aborted_transactions: views(self.aborted_transactions@),
            preferred_read_replica: self.preferred_read_replica,
            records: self.records@,
        }
    }
}

impl KafkaWrite for FetchResponsePartition {
    /// The fields in the order of the wire, the aborted transactions as a
    /// compact array, the records as compact bytes, and an empty tag buffer.
    open spec fn encode(v: FetchResponsePartitionView) -> Seq<u8> {
        i32::encode(v.partition_index) + i16::encode(v.error_code) + i64::encode(v.high_watermark)
            + i64::encode(v.last_stable_offset) + i64::encode(v.log_start_offset) + encode_array::<
            FetchResponseAbortedTransaction,
        >(v.aborted_transactions) + i32::encode(v.preferred_read_replica) + compact_bytes(v.records)
            + empty_tag_buffer()
    }

    fn write(&self, writer: &mut Vec<u8>) -> (res: Result<(), KafkaErrors>) {
        write_bytes(writer, &self.partition_index)?;
        write_bytes(writer, &self.error_code)?;
        write_bytes(writer, &self.high_watermark)?;
        write_bytes(writer, &self.last_stable_offset)?;
        write_bytes(writer, &self.log_start_offset)?;
        write_array(writer, self.aborted_transactions.as_slice())?;
        write_bytes(writer, &self.preferred_read_replica)?;
        write_compact_string(writer, self.records.as_slice())?;
        write_tag_buffer(writer)?;
        assert(writer@ =~= old(writer)@ + Self::encode(self@));
        Ok(())
    }
}

impl Default for FetchResponsePartition {
    /// The response with no error, no records, and zero in every field.
    fn default() -> (r: Self)
        ensures
            r@ == (FetchResponsePartitionView {
                partition_index: 0,
                error_code: 0,
                high_watermark: 0,
                last_stable_offset: 0,
                log_start_offset: 0,
                aborted_transactions: Seq::empty(),
                preferred_read_replica: 0,
                records: Seq::empty(),
            }),
    {
        let r = FetchResponsePartition {
            partition_index: 0,
            error_code: 0,
            high_watermark: 0,
            last_stable_offset: 0,
            log_start_offset: 0,
            aborted_transactions: Vec::new(),
            preferred_read_replica: 0,
            records: Vec::new(),
        };
        assert(r@.aborted_transactions =~= Seq::empty());
        r
    }
}

impl FetchResponsePartition {
    /// The response for a partition that was asked for: the topic is not
    /// known, every offset is zero, and there are no records.
    pub open spec fn respond(part: FetchPartition) -> FetchResponsePartitionView {
        FetchResponsePartitionView {
            partition_index: part.partition,
            error_code: FETCH_RESPONSE_UNKNOWN_TOPIC,
            high_watermark: 0,
            last_stable_offset: 0,
            log_start_offset: 0,
            aborted_transactions: Seq::empty(),
            preferred_read_replica: 0,
            records: Seq::empty(),
        }
    }

    /// The responses for the partitions of a topic, in their order.
    pub open spec fn respond_all(parts: Seq<FetchPartition>) -> Seq<FetchResponsePartitionView> {
        parts.map_values(|p: FetchPartition| Self::respond(p))
    }

    /// The response for a partition that was asked for.
    pub fn new(part: &FetchPartition) -> (r: Self)
        ensures
            r@ == Self::respond(part@),
    {
        let r = FetchResponsePartition {
            partition_index: part.partition,
            error_code: FETCH_RESPONSE_UNKNOWN_TOPIC,
            high_watermark: 0,
            last_stable_offset: 0,
            log_start_offset: 0,
            aborted_transactions: Vec::new(),
            preferred_read_replica: 0,
            records: Vec::new(),
        };
        assert(r@.aborted_transactions =~= Seq::empty());
        r
    }

    /// Writes the response for a partition.
    pub fn serialize(&self, resp: &mut Vec<u8>) -> (res: Result<(), KafkaErrors>)
        ensures
            res is Ok,
            final(resp)@ == old(resp)@ + Self::encode(self@),
    {
        self.write(resp)
    }
}

/// The response for one topic.
#[derive(Debug, Clone)]
pub struct FetchResponseInternal {
    pub topic_id: u128,
    pub partitions: Vec<FetchResponsePartition>,
}

/// What a `FetchResponseInternal` stands for: the same fields, with sequences in place of
/// vectors.
pub struct FetchResponseInternalView {
    pub topic_id: u128,
    pub partitions: Seq<FetchResponsePartitionView>,
}

impl View for FetchResponseInternal {
    type V = FetchResponseInternalView;

    open spec fn view(&self) -> FetchResponseInternalView {
        FetchResponseInternalView { topic_id: self.topic_id, partitions: views(self.partitions@) }
    }
}

impl KafkaWrite for FetchResponseInternal {
    /// The UUID, the partitions as a compact array, and an empty tag buffer.
    open spec fn encode(v: FetchResponseInternalView) -> Seq<u8> {
        u128::encode(v.topic_id) + encode_array::<FetchResponsePartition>(v.partitions)
            + empty_tag_buffer()
    }

    fn write(&self, writer: &mut Vec<u8>) -> (res: Result<(), KafkaErrors>) {
        write_bytes(writer, &self.topic_id)?;
        write_array(writer, self.partitions.as_slice())?;
        write_tag_buffer(writer)?;
        assert(writer@ =~= old(writer)@ + Self::encode(self@));
        Ok(())
    }
}

impl FetchResponseInternal {
    /// The response for a topic that was asked for: its UUID, and the
    /// response for each of its partitions.
    pub open spec fn respond(topic: FetchTopicView) -> FetchResponseInternalView {
        FetchResponseInternalView {
            topic_id: topic.topic_id,
            partitions: FetchResponsePartition::respond_all(topic.partitions),
        }
    }

    /// The responses for the topics of a request, in their order.
    pub open spec fn respond_all(topics: Seq<FetchTopicView>) -> Seq<FetchResponseInternalView> {
        topics.map_values(|t: FetchTopicView| Self::respond(t))
    }

    /// The response for a topic that was asked for.
    pub fn new(topic: &FetchTopic) -> (r: Self)
        ensures
            r@ == Self::respond(topic@),
    {
        let mut partitions: Vec<FetchResponsePartition> = Vec::new();
        let ghost asked = topic@.partitions;
        let mut i: usize = 0;
        assert(views(partitions@) =~= FetchResponsePartition::respond_all(asked.take(0)));
        while i < topic.partitions.len()
            invariant
                i <= topic.partitions@.len(),
                asked == views(topic.partitions@),
                views(partitions@) == FetchResponsePartition::respond_all(asked.take(i as int)),
            decreases topic.partitions@.len() - i,
        {
            let ghost before = views(partitions@);
            let part = FetchResponsePartition::new(&topic.partitions[i]);
            partitions.push(part);
            assert(views(partitions@) =~= before.push(part@));
            assert(asked[i as int] == topic.partitions@[i as int]@);
            assert(views(partitions@) =~= FetchResponsePartition::respond_all(asked.take(i + 1)));
            i += 1;
        }
        assert(asked.take(topic.partitions@.len() as int) =~= asked);
        FetchResponseInternal { topic_id: topic.topic_id, partitions }
    }

    /// Writes the response for a topic.
    pub fn serialize(&self, resp: &mut Vec<u8>) -> (res: Result<(), KafkaErrors>)
        ensures
            res is Ok,
            final(resp)@ == old(resp)@ + Self::encode(self@),
    {
        self.write(resp)
    }
}

/// The response to a fetch request.
#[derive(Debug, Clone)]
pub struct FetchResponse {
    pub throttle_time_ms: i32,
    pub error_code: i16,
    pub session_id: i32,
    pub responses: Vec<FetchResponseInternal>,
}

/// What a `FetchResponse` stands for: the same fields, with sequences in place of
/// vectors.
pub struct FetchResponseView {
    pub throttle_time_ms: i32,
    pub error_code: i16,
    pub session_id: i32,
    pub responses: Seq<FetchResponseInternalView>,
}

impl View for FetchResponse {
    type V = FetchResponseView;

    open spec fn view(&self) -> FetchResponseView {
        FetchResponseView {
            throttle_time_ms: self.throttle_time_ms,
            error_code: self.error_code,
            session_id: self.session_id,
            responses: views(self.responses@),
        }
    }
}

impl FetchResponse {
    /// The response to a request: no throttling, no error at the top, the
    /// session id of the request, and the response for each topic asked for.
    pub open spec fn respond(req: FetchRequestView) -> FetchResponseView {
        FetchResponseView {
            throttle_time_ms: 0,
            error_code: 0,
            session_id: req.session_id,
            responses: FetchResponseInternal::respond_all(req.topics),
        }
    }

    /// The body of the response on the wire: the three fixed-width fields,
    /// the topics as a compact array, and an empty tag buffer.
    pub open spec fn encode(v: FetchResponseView) -> Seq<u8> {
        i32::encode(v.throttle_time_ms) + i16::encode(v.error_code) + i32::encode(v.session_id)
            + encode_array::<FetchResponseInternal>(v.responses) + empty_tag_buffer()
    }

    /// The response to a request.
    pub fn new(req: &FetchRequest) -> (r: Self)
        ensures
            r@ == Self::respond(req@),
    {
        let mut responses: Vec<FetchResponseInternal> = Vec::new();
        let ghost asked = req@.topics;
        let mut i: usize = 0;
        assert(views(responses@) =~= FetchResponseInternal::respond_all(asked.take(0)));
        while i < req.topics.len()
            invariant
                i <= req.topics@.len(),
                asked == views(req.topics@),
                views(responses@) == FetchResponseInternal::respond_all(asked.take(i as int)),
            decreases req.topics@.len() - i,
        {
            let ghost before = views(responses@);
            let topic = FetchResponseInternal::new(&req.topics[i]);
            responses.push(topic);
            assert(views(responses@) =~= before.push(topic@));
            assert(asked[i as int] == req.topics@[i as int]@);
            assert(views(responses@) =~= FetchResponseInternal::respond_all(asked.take(i + 1)));
            i += 1;
        }
        assert(asked.take(req.topics@.len() as int) =~= asked);
        FetchResponse { throttle_time_ms: 0, error_code: 0, session_id: req.session_id, responses }
    }

    /// Writes the body of the response.
    pub fn serialize(&self, resp: &mut Vec<u8>) -> (res: Result<(), KafkaErrors>)
        ensures
            res is Ok,
            final(resp)@ == old(resp)@ + Self::encode(self@),
    {
        write_bytes(resp, &self.throttle_time_ms)?;
        write_bytes(resp, &self.error_code)?;
        write_bytes(resp, &self.session_id)?;
        write_array(resp, self.responses.as_slice())?;
        write_tag_buffer(resp)?;
        assert(resp@ =~= old(resp)@ + Self::encode(self@));
        Ok(())
    }
}

} // verus!
