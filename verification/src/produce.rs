//! The Produce API: the request as the wire gives it, and the response,
//! which tells of every partition written to that it is not known.

use vstd::prelude::*;
use vstd::slice::slice_to_vec;
use crate::basics::CompactNullableString;
use crate::errors::{Decoded, KafkaErrors};
use crate::models::{opt_view, views};
use crate::parser::{
    KafkaRead, Reader, decode_array, decode_compact_bytes, decode_compact_string,
    decode_tag_buffer, read_array, read_compact_string, read_int, read_nullable_compact_string,
    read_short, reads_as, tag_buffer,
};
use crate::writer::{
    KafkaWrite, compact_bytes, empty_tag_buffer, encode_array, nullable_compact_bytes,
    write_array, write_bytes, write_compact_string, write_nullable_compact_string,
    write_tag_buffer,
};

verus! {

/// The error code of a partition that is not known.
pub const PRODUCE_RESPONSE_UNKNOWN_TOPIC_OR_PARTITION: i16 = 3;

/// A partition that a produce request writes to, with the records for it as
/// they came, not decoded.
#[derive(Debug, Clone)]
pub struct ProduceRequestTopicPartition {
    pub partition_idx: i32,
    pub records: Option<Vec<u8>>,
}

/// What a `ProduceRequestTopicPartition` stands for: the same fields, with sequences in place of
/// vectors.
pub struct ProduceRequestTopicPartitionView {
    pub partition_idx: i32,
    pub records: Option<Seq<u8>>,
}

impl View for ProduceRequestTopicPartition {
    type V = ProduceRequestTopicPartitionView;

    open spec fn view(&self) -> ProduceRequestTopicPartitionView {
        ProduceRequestTopicPartitionView {
            partition_idx: self.partition_idx,
            records: opt_view(self.records),
        }
    }
}

impl KafkaRead for ProduceRequestTopicPartition {
    /// The index of the partition, and the records as compact bytes that may
    /// be absent.
    open spec fn decode(s: Seq<u8>) -> Decoded<ProduceRequestTopicPartitionView> {
        match i32::decode(s) {
            Err(e) => Err(e),
            Ok((partition_idx, s1)) => match decode_compact_bytes(s1) {
                Err(e) => Err(e),
                Ok((records, s2)) => Ok(
                    (ProduceRequestTopicPartitionView { partition_idx, records }, s2),
                ),
            },
        }
    }

    fn read(req: &mut Reader) -> (res: Result<Self, KafkaErrors>) {
        Self::new(req)
    }
}

impl KafkaWrite for ProduceRequestTopicPartition {
    open spec fn encode(v: ProduceRequestTopicPartitionView) -> Seq<u8> {
        i32::encode(v.partition_idx) + nullable_compact_bytes(v.records)
    }

    fn write(&self, writer: &mut Vec<u8>) -> (res: Result<(), KafkaErrors>) {
        self.serialize(writer)
    }
}

impl ProduceRequestTopicPartition {
    /// Reads a partition of a produce request.
    pub fn new(req: &mut Reader) -> (res: Result<Self, KafkaErrors>)
        ensures
            reads_as(res, old(req)@, final(req)@, Self::decode(old(req)@)),
    {
        let mut cur = *req;
        let partition_idx = read_int(&mut cur)?;
        let records = read_nullable_compact_string(&mut cur)?;
        *req = cur;
        Ok(ProduceRequestTopicPartition { partition_idx, records })
    }

    /// Writes a partition of a produce request.
    pub fn serialize(&self, resp: &mut Vec<u8>) -> (res: Result<(), KafkaErrors>)
        ensures
            res is Ok,
            final(resp)@ == old(resp)@ + Self::encode(self@),
    {
        write_bytes(resp, &self.partition_idx)?;
        match &self.records {
            Some(bytes) => write_nullable_compact_string(resp, Some(bytes.as_slice()))?,
            None => write_nullable_compact_string(resp, None)?,
        }
        assert(resp@ =~= old(resp)@ + Self::encode(self@));
        Ok(())
    }
}

/// A topic that a produce request writes to, with its partitions.
#[derive(Debug, Clone)]
pub struct ProduceRequestTopic {
    pub topic_name: Vec<u8>,
    pub partitions: Vec<ProduceRequestTopicPartition>,
}

/// What a `ProduceRequestTopic` stands for: the same fields, with sequences in place of
/// vectors.
pub struct ProduceRequestTopicView {
    pub topic_name: Seq<u8>,
    pub partitions: Seq<ProduceRequestTopicPartitionView>,
}

impl View for ProduceRequestTopic {
    type V = ProduceRequestTopicView;

    open spec fn view(&self) -> ProduceRequestTopicView {
        ProduceRequestTopicView {
            topic_name: self.topic_name@,
            partitions: views(self.partitions@),
        }
    }
}

impl KafkaRead for ProduceRequestTopic {
    /// The name as a compact string, the partitions as a compact array, and
    /// a tag buffer.
    open spec fn decode(s: Seq<u8>) -> Decoded<ProduceRequestTopicView> {
        match decode_compact_string(s) {
            Err(e) => Err(e),
            Ok((topic_name, s1)) => match decode_array::<ProduceRequestTopicPartition>(s1) {
                Err(e) => Err(e),
                Ok((partitions, s2)) => match decode_tag_buffer(s2) {
                    Err(e) => Err(e),
                    Ok((_, s3)) => Ok((ProduceRequestTopicView { topic_name, partitions }, s3)),
                },
            },
        }
    }

    fn read(req: &mut Reader) -> (res: Result<Self, KafkaErrors>) {
        Self::new(req)
    }
}

impl KafkaWrite for ProduceRequestTopic {
    open spec fn encode(v: ProduceRequestTopicView) -> Seq<u8> {
        compact_bytes(v.topic_name) + encode_array::<ProduceRequestTopicPartition>(v.partitions)
            + empty_tag_buffer()
    }

    fn write(&self, writer: &mut Vec<u8>) -> (res: Result<(), KafkaErrors>) {
        self.serialize(writer)
    }
}

impl ProduceRequestTopic {
    /// Reads a topic of a produce request.
    pub fn new(req: &mut Reader) -> (res: Result<Self, KafkaErrors>)
        ensures
            reads_as(res, old(req)@, final(req)@, Self::decode(old(req)@)),
    {
        let mut cur = *req;
        let topic_name = read_compact_string(&mut cur)?;
        let partitions = read_array::<ProduceRequestTopicPartition>(&mut cur)?;
        tag_buffer(&mut cur)?;
        *req = cur;
        Ok(ProduceRequestTopic { topic_name, partitions })
    }

    /// Writes a topic of a produce request.
    pub fn serialize(&self, resp: &mut Vec<u8>) -> (res: Result<(), KafkaErrors>)
        ensures
            res is Ok,
            final(resp)@ == old(resp)@ + Self::encode(self@),
    {
        write_compact_string(resp, self.topic_name.as_slice())?;
        write_array(resp, self.partitions.as_slice())?;
        write_tag_buffer(resp)?;
        assert(resp@ =~= old(resp)@ + Self::encode(self@));
        Ok(())
    }
}

/// A produce request.
#[derive(Debug, Clone)]
pub struct ProduceRequest {
    pub transaction_id: Option<Vec<u8>>,
    pub required_acks: i16,
    pub timeout: i32,
    pub topics: Vec<ProduceRequestTopic>,
}

/// What a `ProduceRequest` stands for: the same fields, with sequences in place of
/// vectors.
pub struct ProduceRequestView {
    pub transaction_id: Option<Seq<u8>>,
    pub required_acks: i16,
    pub timeout: i32,
    pub topics: Seq<ProduceRequestTopicView>,
}

impl View for ProduceRequest {
    type V = ProduceRequestView;

    open spec fn view(&self) -> ProduceRequestView {
        ProduceRequestView {
            transaction_id: opt_view(self.transaction_id),
            required_acks: self.required_acks,
            timeout: self.timeout,
            topics: views(self.topics@),
        }
    }
}

impl ProduceRequest {
    /// The body of a produce request: the transactional id as a compact
    /// string that may be absent, the acknowledgements asked for, the
    /// timeout, the topics as a compact array, and a tag buffer.
    pub open spec fn decode(s: Seq<u8>) -> Decoded<ProduceRequestView> {
        match decode_compact_bytes(s) {
            Err(e) => Err(e),
            Ok((transaction_id, s1)) => match i16::decode(s1) {
                Err(e) => Err(e),
                Ok((required_acks, s2)) => match i32::decode(s2) {
                    Err(e) => Err(e),
                    Ok((timeout, s3)) => match decode_array::<ProduceRequestTopic>(s3) {
                        Err(e) => Err(e),
                        Ok((topics, s4)) => match decode_tag_buffer(s4) {
                            Err(e) => Err(e),
                            Ok((_, s5)) => Ok(
                                (
                                    ProduceRequestView {
                                        transaction_id,
                                        required_acks,
                                        timeout,
                                        topics,
                                    },
                                    s5,
                                ),
                            ),
                        },
                    },
                },
            },
        }
    }

    /// Reads the body of a produce request.
    pub fn new(req: &mut Reader) -> (res: Result<Self, KafkaErrors>)
        ensures
            reads_as(res, old(req)@, final(req)@, Self::decode(old(req)@)),
    {
        let mut cur = *req;
        let transaction_id = read_nullable_compact_string(&mut cur)?;
        let required_acks = read_short(&mut cur)?;
        let timeout = read_int(&mut cur)?;
        let topics = read_array::<ProduceRequestTopic>(&mut cur)?;
        tag_buffer(&mut cur)?;
        *req = cur;
        Ok(ProduceRequest { transaction_id, required_acks, timeout, topics })
    }
}

/// An error of one record in the response for a partition.
#[derive(Debug, Clone, Copy)]
pub struct ProduceResponseTopicPartitionError {
    pub length: u8,
}

impl View for ProduceResponseTopicPartitionError {
    type V = ProduceResponseTopicPartitionError;

    open spec fn view(&self) -> ProduceResponseTopicPartitionError {
        *self
    }
}

impl KafkaWrite for ProduceResponseTopicPartitionError {
    open spec fn encode(v: ProduceResponseTopicPartitionError) -> Seq<u8> {
        u8::encode(v.length)
    }

    fn write(&self, writer: &mut Vec<u8>) -> (res: Result<(), KafkaErrors>) {
        self.serialize(writer)
    }
}

impl ProduceResponseTopicPartitionError {
    /// The entry of no error.
    pub fn new() -> (e: Self)
        ensures
            e.length == 0,
    {
        ProduceResponseTopicPartitionError { length: 0 }
    }

    /// Writes the entry.
    pub fn serialize(&self, resp: &mut Vec<u8>) -> (res: Result<(), KafkaErrors>)
        ensures
            res is Ok,
            final(resp)@ == old(resp)@ + Self::encode(self@),
    {
        write_bytes(resp, &self.length)
    }
}

/// The response for one partition.
#[derive(Debug, Clone)]
pub struct ProduceResponseTopicPartition {
    pub partition_id: i32,
    pub error_code: i16,
    pub base_offset: i64,
    pub log_append_time: i64,
    pub log_start_offset: i64,
    pub errors: Vec<ProduceResponseTopicPartitionError>,
    pub error_message: CompactNullableString,
}

/// What a `ProduceResponseTopicPartition` stands for: the same fields, with sequences in place of
/// vectors.
pub struct ProduceResponseTopicPartitionView {
    pub partition_id: i32,
    pub error_code: i16,
    pub base_offset: i64,
    pub log_append_time: i64,
    pub log_start_offset: i64,
    pub errors: Seq<ProduceResponseTopicPartitionError>,
    pub error_message: Option<Seq<u8>>,
}

impl View for ProduceResponseTopicPartition {
    type V = ProduceResponseTopicPartitionView;

    open spec fn view(&self) -> ProduceResponseTopicPartitionView {
        ProduceResponseTopicPartitionView {
            partition_id: self.partition_id,
            error_code: self.error_code,
            base_offset: self.base_offset,
            log_append_time: self.log_append_time,
            log_start_offset: self.log_start_offset,
            errors: views(self.errors@),
            error_message: self.error_message@,
        }
    }
}

impl KafkaWrite for ProduceResponseTopicPartition {
    /// The five fixed-width fields, the errors of records as a compact
    /// array, the error message, and an empty tag buffer.
    open spec fn encode(v: ProduceResponseTopicPartitionView) -> Seq<u8> {
        i32::encode(v.partition_id) + i16::encode(v.error_code) + i64::encode(v.base_offset)
            + i64::encode(v.log_append_time) + i64::encode(v.log_start_offset) + encode_array::<
            ProduceResponseTopicPartitionError,
        >(v.errors) + nullable_compact_bytes(v.error_message) + empty_tag_buffer()
    }

    fn write(&self, writer: &mut Vec<u8>) -> (res: Result<(), KafkaErrors>) {
        self.serialize(writer)
    }
}

impl ProduceResponseTopicPartition {
    /// The response for a partition that was written to: the partition is
    /// not known, every offset and the append time are -1, and there is
    /// neither an error of a record nor a message.
    pub open spec fn respond(
        request: ProduceRequestTopicPartitionView,
    ) -> ProduceResponseTopicPartitionView {
        ProduceResponseTopicPartitionView {
            partition_id: request.partition_idx,
            error_code: PRODUCE_RESPONSE_UNKNOWN_TOPIC_OR_PARTITION,
            base_offset: -1i64,
            log_append_time: -1i64,
            log_start_offset: -1i64,
            errors: Seq::empty(),
            error_message: None,
        }
    }

    /// The responses for the partitions of a topic, in their order.
    pub open spec fn respond_all(requests: Seq<ProduceRequestTopicPartitionView>) -> Seq<
        ProduceResponseTopicPartitionView,
    > {
        requests.map_values(|p: ProduceRequestTopicPartitionView| Self::respond(p))
    }

    /// The response for a partition that was written to.
    pub fn new(request: &ProduceRequestTopicPartition) -> (r: Self)
        ensures
            r@ == Self::respond(request@),
    {
        let r = ProduceResponseTopicPartition {
            partition_id: request.partition_idx,
            error_code: PRODUCE_RESPONSE_UNKNOWN_TOPIC_OR_PARTITION,
            base_offset: -1,
            log_append_time: -1,
            log_start_offset: -1,
            errors: Vec::new(),
            error_message: CompactNullableString::null(),
        };
        assert(r@.errors =~= Seq::empty());
        r
    }

    /// Writes the response for a partition.
    pub fn serialize(&self, resp: &mut Vec<u8>) -> (res: Result<(), KafkaErrors>)
        ensures
            res is Ok,
            final(resp)@ == old(resp)@ + Self::encode(self@),
    {
        write_bytes(resp, &self.partition_id)?;
        write_bytes(resp, &self.error_code)?;
        write_bytes(resp, &self.base_offset)?;
        write_bytes(resp, &self.log_append_time)?;
        write_bytes(resp, &self.log_start_offset)?;
        write_array(resp, self.errors.as_slice())?;
        self.error_message.serialize(resp)?;
        write_tag_buffer(resp)?;
        assert(resp@ =~= old(resp)@ + Self::encode(self@));
        Ok(())
    }
}

/// The response for one topic.
#[derive(Debug, Clone)]
pub struct ProduceResponseTopic {
    pub topic_name: Vec<u8>,
    pub partitions: Vec<ProduceResponseTopicPartition>,
}

/// What a `ProduceResponseTopic` stands for: the same fields, with sequences in place of
/// vectors.
pub struct ProduceResponseTopicView {
    pub topic_name: Seq<u8>,
    pub partitions: Seq<ProduceResponseTopicPartitionView>,
}

impl View for ProduceResponseTopic {
    type V = ProduceResponseTopicView;

    open spec fn view(&self) -> ProduceResponseTopicView {
        ProduceResponseTopicView {
            topic_name: self.topic_name@,
            partitions: views(self.partitions@),
        }
    }
}

impl KafkaWrite for ProduceResponseTopic {
    /// The name as a compact string, the partitions as a compact array, and
    /// an empty tag buffer.
    open spec fn encode(v: ProduceResponseTopicView) -> Seq<u8> {
        compact_bytes(v.topic_name) + encode_array::<ProduceResponseTopicPartition>(v.partitions)
            + empty_tag_buffer()
    }

    fn write(&self, writer: &mut Vec<u8>) -> (res: Result<(), KafkaErrors>) {
        self.serialize(writer)
    }
}

impl ProduceResponseTopic {
    /// The response for a topic that was written to: its name, and the
    /// response for each of its partitions.
    pub open spec fn respond(request: ProduceRequestTopicView) -> ProduceResponseTopicView {
        ProduceResponseTopicView {
            topic_name: request.topic_name,
            partitions: ProduceResponseTopicPartition::respond_all(request.partitions),
        }
    }

    /// The responses for the topics of a request, in their order.
    pub open spec fn respond_all(requests: Seq<ProduceRequestTopicView>) -> Seq<
        ProduceResponseTopicView,
    > {
        requests.map_values(|t: ProduceRequestTopicView| Self::respond(t))
    }

    /// The response for a topic that was written to.
    pub fn new(request: &ProduceRequestTopic) -> (r: Self)
        ensures
            r@ == Self::respond(request@),
    {
        let mut partitions: Vec<ProduceResponseTopicPartition> = Vec::new();
        let ghost asked = request@.partitions;
        let mut i: usize = 0;
        assert(views(partitions@) =~= ProduceResponseTopicPartition::respond_all(asked.take(0)));
        while i < request.partitions.len()
            invariant
                i <= request.partitions@.len(),
                asked == views(request.partitions@),
                views(partitions@) == ProduceResponseTopicPartition::respond_all(
                    asked.take(i as int),
                ),
            decreases request.partitions@.len() - i,
        {
            let ghost before = views(partitions@);
            let part = ProduceResponseTopicPartition::new(&request.partitions[i]);
            partitions.push(part);
            assert(views(partitions@) =~= before.push(part@));
            assert(asked[i as int] == request.partitions@[i as int]@);
            assert(views(partitions@) =~= ProduceResponseTopicPartition::respond_all(
                asked.take(i + 1),
            ));
            i += 1;
        }
        assert(asked.take(request.partitions@.len() as int) =~= asked);
        ProduceResponseTopic { topic_name: slice_to_vec(request.topic_name.as_slice()), partitions }
    }

    /// Writes the response for a topic.
    pub fn serialize(&self, resp: &mut Vec<u8>) -> (res: Result<(), KafkaErrors>)
        ensures
            res is Ok,
            final(resp)@ == old(resp)@ + Self::encode(self@),
    {
        write_compact_string(resp, self.topic_name.as_slice())?;
        write_array(resp, self.partitions.as_slice())?;
        write_tag_buffer(resp)?;
        assert(resp@ =~= old(resp)@ + Self::encode(self@));
        Ok(())
    }
}

/// The response to a produce request.
#[derive(Debug, Clone)]
pub struct ProduceResponse {
    pub topics: Vec<ProduceResponseTopic>,
    pub throttle_time: i32,
}

/// What a `ProduceResponse` stands for: the same fields, with sequences in place of
/// vectors.
pub struct ProduceResponseView {
    pub topics: Seq<ProduceResponseTopicView>,
    pub throttle_time: i32,
}

impl View for ProduceResponse {
    type V = ProduceResponseView;

    open spec fn view(&self) -> ProduceResponseView {
        ProduceResponseView { topics: views(self.topics@), throttle_time: self.throttle_time }
    }
}

impl ProduceResponse {
    /// The response to a request: the response for each topic written to,
    /// and no throttling.
    pub open spec fn respond(request: ProduceRequestView) -> ProduceResponseView {
        ProduceResponseView {
            topics: ProduceResponseTopic::respond_all(request.topics),
            throttle_time: 0,
        }
    }

    /// The body of the response on the wire: the topics as a compact array,
    /// the throttle time, and an empty tag buffer.
    pub open spec fn encode(v: ProduceResponseView) -> Seq<u8> {
        encode_array::<ProduceResponseTopic>(v.topics) + i32::encode(v.throttle_time)
            + empty_tag_buffer()
    }

    /// The response to a request.
    pub fn new(request: &ProduceRequest) -> (r: Self)
        ensures
            r@ == Self::respond(request@),
    {
        let mut topics: Vec<ProduceResponseTopic> = Vec::new();
        let ghost asked = request@.topics;
        let mut i: usize = 0;
        assert(views(topics@) =~= ProduceResponseTopic::respond_all(asked.take(0)));
        while i < request.topics.len()
            invariant
                i <= request.topics@.len(),
                asked == views(request.topics@),
                views(topics@) == ProduceResponseTopic::respond_all(asked.take(i as int)),
            decreases request.topics@.len() - i,
        {
            let ghost before = views(topics@);
            let topic = ProduceResponseTopic::new(&request.topics[i]);
            topics.push(topic);
            assert(views(topics@) =~= before.push(topic@));
            assert(asked[i as int] == request.topics@[i as int]@);
            assert(views(topics@) =~= ProduceResponseTopic::respond_all(asked.take(i + 1)));
            i += 1;
        }
        assert(asked.take(request.topics@.len() as int) =~= asked);
        ProduceResponse { topics, throttle_time: 0 }
    }

    /// Writes the body of the response.
    pub fn serialize(&self, resp: &mut Vec<u8>) -> (res: Result<(), KafkaErrors>)
        ensures
            res is Ok,
            final(resp)@ == old(resp)@ + Self::encode(self@),
    {
        write_array(resp, self.topics.as_slice())?;
        write_bytes(resp, &self.throttle_time)?;
        write_tag_buffer(resp)?;
        assert(resp@ =~= old(resp)@ + Self::encode(self@));
        Ok(())
    }
}

} // verus!
