//! The DescribeTopicPartitions API: the request as the wire gives it, and
//! the response, which lists the partitions of the topics asked for as far
//! as the limit of the request allows.

use vstd::prelude::*;
use vstd::slice::slice_to_vec;
use crate::errors::{Decoded, KafkaErrors};
use crate::metadata::{Metadata, MetadataView, PartitionMetadata};
use crate::models::{opt_view, views};
use crate::parser::{
    KafkaRead, Reader, decode_array, decode_compact_string, decode_tag_buffer, read_array,
    read_compact_string, read_int, read_u8, reads_as, tag_buffer,
};
use crate::writer::{
    KafkaWrite, compact_bytes, empty_tag_buffer, encode_array, write_array, write_bool,
    write_bytes, write_compact_string, write_null, write_tag_buffer,
};

verus! {

/// The operations that a topic of a response is authorized for: the mask
/// for reading and describing.
pub const TOPIC_AUTHORIZED_OPERATIONS: i32 = 0x0000_0DF8;

/// The error code of a topic whose name is not known.
pub const UNKNOWN_TOPIC_OR_PARTITION: i16 = 3;

/// The byte that stands for an absent cursor.
pub const NULL_CURSOR: u8 = 0xFF;

/// Where a listing of partitions is to go on: a topic and a partition of it.
#[derive(Debug, Clone)]
pub struct Cursor {
    pub topic_name: Vec<u8>,
    pub partition_index: i32,
}

/// What a `Cursor` stands for: the same fields, with sequences in place of
/// vectors.
pub struct CursorView {
    pub topic_name: Seq<u8>,
    pub partition_index: i32,
}

impl View for Cursor {
    type V = CursorView;

    open spec fn view(&self) -> CursorView {
        CursorView { topic_name: self.topic_name@, partition_index: self.partition_index }
    }
}

impl KafkaRead for Cursor {
    /// The cursor of a request: the name of the topic, the index of the
    /// partition, and a tag buffer.
    open spec fn decode(s: Seq<u8>) -> Decoded<CursorView> {
        match decode_compact_string(s) {
            Err(e) => Err(e),
            Ok((topic_name, s1)) => match i32::decode(s1) {
                Err(e) => Err(e),
                Ok((partition_index, s2)) => match decode_tag_buffer(s2) {
                    Err(e) => Err(e),
                    Ok((_, s3)) => Ok((CursorView { topic_name, partition_index }, s3)),
                },
            },
        }
    }

    fn read(req: &mut Reader) -> (res: Result<Self, KafkaErrors>) {
        Self::new(req)
    }
}

impl Cursor {
    /// The cursor of a response: the name of the topic and the index of the
    /// partition.
    pub open spec fn encode(v: CursorView) -> Seq<u8> {
        compact_bytes(v.topic_name) + i32::encode(v.partition_index)
    }

    /// A cursor that may be absent, as a request holds it: the byte `0xFF`
    /// for an absent one, else the cursor.
    pub open spec fn decode_nullable(s: Seq<u8>) -> Decoded<Option<CursorView>> {
        if s.len() == 0 {
            Err(KafkaErrors::UnexpectedEndOfInput)
        } else if s[0] == NULL_CURSOR {
            Ok((None, s.skip(1)))
        } else {
            match Self::decode(s) {
                Err(e) => Err(e),
                Ok((cursor, rest)) => Ok((Some(cursor), rest)),
            }
        }
    }

    /// A cursor that may be absent, as a response holds it.
    pub open spec fn encode_nullable(v: Option<CursorView>) -> Seq<u8> {
        match v {
            Some(cursor) => Self::encode(cursor),
            None => seq![NULL_CURSOR],
        }
    }

    /// Reads the cursor of a request.
    pub fn new(req: &mut Reader) -> (res: Result<Self, KafkaErrors>)
        ensures
            reads_as(res, old(req)@, final(req)@, Self::decode(old(req)@)),
    {
        let mut cur = *req;
        let topic_name = read_compact_string(&mut cur)?;
        let partition_index = read_int(&mut cur)?;
        tag_buffer(&mut cur)?;
        *req = cur;
        Ok(Cursor { topic_name, partition_index })
    }

    /// Reads a cursor that may be absent.
    pub fn read_nullable(req: &mut Reader) -> (res: Result<Option<Cursor>, KafkaErrors>)
        ensures
            match Self::decode_nullable(old(req)@) {
                Ok((v, rest)) => res matches Ok(x) && opt_view(x) == v && final(req)@ == rest,
                Err(e) => res == Err::<Option<Cursor>, KafkaErrors>(e) && final(req)@ == old(req)@,
            },
    {
        let mut cur = *req;
        let marker = read_u8(&mut cur)?;
        if marker == NULL_CURSOR {
            *req = cur;
            return Ok(None);
        }
        let cursor = Self::new(req)?;
        Ok(Some(cursor))
    }

    /// Writes the cursor of a response.
    pub fn serialize(&self, resp: &mut Vec<u8>) -> (res: Result<(), KafkaErrors>)
        ensures
            res is Ok,
            final(resp)@ == old(resp)@ + Self::encode(self@),
    {
        write_compact_string(resp, self.topic_name.as_slice())?;
        write_bytes(resp, &self.partition_index)?;
        assert(resp@ =~= old(resp)@ + Self::encode(self@));
        Ok(())
    }
}

/// A topic that a request asks for, by its name.
#[derive(Debug, Clone)]
pub struct TopicRequest {
    pub name: Vec<u8>,
}

/// What a `TopicRequest` stands for: the same fields, with sequences in place of
/// vectors.
pub struct TopicRequestView {
    pub name: Seq<u8>,
}

impl View for TopicRequest {
    type V = TopicRequestView;

    open spec fn view(&self) -> TopicRequestView {
        TopicRequestView { name: self.name@ }
    }
}

impl KafkaRead for TopicRequest {
    /// The name as a compact string, and a tag buffer.
    open spec fn decode(s: Seq<u8>) -> Decoded<TopicRequestView> {
        match decode_compact_string(s) {
            Err(e) => Err(e),
            Ok((name, s1)) => match decode_tag_buffer(s1) {
                Err(e) => Err(e),
                Ok((_, s2)) => Ok((TopicRequestView { name }, s2)),
            },
        }
    }

    fn read(req: &mut Reader) -> (res: Result<Self, KafkaErrors>) {
        Self::new(req)
    }
}

impl KafkaWrite for TopicRequest {
    /// The name as a compact string, and an empty tag buffer.
    open spec fn encode(v: TopicRequestView) -> Seq<u8> {
        compact_bytes(v.name) + empty_tag_buffer()
    }

    fn write(&self, writer: &mut Vec<u8>) -> (res: Result<(), KafkaErrors>) {
        write_compact_string(writer, self.name.as_slice())?;
        write_tag_buffer(writer)?;
        assert(writer@ =~= old(writer)@ + Self::encode(self@));
        Ok(())
    }
}

impl TopicRequest {
    /// Reads a topic of a request.
    pub fn new(req: &mut Reader) -> (res: Result<Self, KafkaErrors>)
        ensures
            reads_as(res, old(req)@, final(req)@, Self::decode(old(req)@)),
    {
        let mut cur = *req;
        let name = read_compact_string(&mut cur)?;
        tag_buffer(&mut cur)?;
        *req = cur;
        Ok(TopicRequest { name })
    }

    /// Writes the topic of a request.
    pub fn serialize(&self, resp: &mut Vec<u8>) -> (res: Result<(), KafkaErrors>)
        ensures
            res is Ok,
            final(resp)@ == old(resp)@ + Self::encode(self@),
    {
        self.write(resp)
    }
}

/// A request of the DescribeTopicPartitions API.
#[derive(Debug, Clone)]
pub struct PartitionsRequest {
    pub topics: Vec<TopicRequest>,
    pub response_partition_limit: i32,
    pub cursor: Option<Cursor>,
}

/// What a `PartitionsRequest` stands for: the same fields, with sequences in place of
/// vectors.
pub struct PartitionsRequestView {
    pub topics: Seq<TopicRequestView>,
    pub response_partition_limit: i32,
    pub cursor: Option<CursorView>,
}

impl View for PartitionsRequest {
    type V = PartitionsRequestView;

    open spec fn view(&self) -> PartitionsRequestView {
        PartitionsRequestView {
            topics: views(self.topics@),
            response_partition_limit: self.response_partition_limit,
            cursor: opt_view(self.cursor),
        }
    }
}

impl PartitionsRequest {
    /// The body of the request: the topics as a compact array, the limit on
    /// the partitions of the response, the cursor, and a tag buffer.
    pub open spec fn decode(s: Seq<u8>) -> Decoded<PartitionsRequestView> {
        match decode_array::<TopicRequest>(s) {
            Err(e) => Err(e),
            Ok((topics, s1)) => match i32::decode(s1) {
                Err(e) => Err(e),
                Ok((response_partition_limit, s2)) => match Cursor::decode_nullable(s2) {
                    Err(e) => Err(e),
                    Ok((cursor, s3)) => match decode_tag_buffer(s3) {
                        Err(e) => Err(e),
                        Ok((_, s4)) => Ok(
                            (
                                PartitionsRequestView { topics, response_partition_limit, cursor },
                                s4,
                            ),
                        ),
                    },
                },
            },
        }
    }

    /// Reads the body of the request.
    pub fn new(req: &mut Reader) -> (res: Result<Self, KafkaErrors>)
        ensures
            reads_as(res, old(req)@, final(req)@, Self::decode(old(req)@)),
    {
        let mut cur = *req;
        let topics = read_array::<TopicRequest>(&mut cur)?;
        let response_partition_limit = read_int(&mut cur)?;
        let cursor = Cursor::read_nullable(&mut cur)?;
        tag_buffer(&mut cur)?;
        *req = cur;
        Ok(PartitionsRequest { topics, response_partition_limit, cursor })
    }
}

/// A partition as a response describes it.
#[derive(Debug, Clone)]
pub struct Partition {
    pub error_code: i16,
    pub partition_index: i32,
    pub leader_id: i32,
    pub leader_epoch: i32,
    pub replica_nodes: Vec<i32>,
    pub isr_nodes: Vec<i32>,
    pub eligible_leader_replicas: Vec<i32>,
    pub last_known_elr: Vec<i32>,
    pub offline_replicas: Vec<i32>,
}

/// What a `Partition` stands for: the same fields, with sequences in place of
/// vectors.
pub struct PartitionView {
    pub error_code: i16,
    pub partition_index: i32,
    pub leader_id: i32,
    pub leader_epoch: i32,
    pub replica_nodes: Seq<i32>,
    pub isr_nodes: Seq<i32>,
    pub eligible_leader_replicas: Seq<i32>,
    pub last_known_elr: Seq<i32>,
    pub offline_replicas: Seq<i32>,
}

impl View for Partition {
    type V = PartitionView;

    open spec fn view(&self) -> PartitionView {
        PartitionView {
            error_code: self.error_code,
            partition_index: self.partition_index,
            leader_id: self.leader_id,
            leader_epoch: self.leader_epoch,
            replica_nodes: self.replica_nodes@,
            isr_nodes: self.isr_nodes@,
            eligible_leader_replicas: self.eligible_leader_replicas@,
            last_known_elr: self.last_known_elr@,
            offline_replicas: self.offline_replicas@,
        }
    }
}

impl KafkaWrite for Partition {
    /// The four fixed-width fields, the five lists of nodes as compact
    /// arrays, and an empty tag buffer.
    open spec fn encode(v: PartitionView) -> Seq<u8> {
        i16::encode(v.error_code) + i32::encode(v.partition_index) + i32::encode(v.leader_id)
            + i32::encode(v.leader_epoch) + encode_array::<i32>(v.replica_nodes) + encode_array::<
            i32,
        >(v.isr_nodes) + encode_array::<i32>(v.eligible_leader_replicas) + encode_array::<i32>(
            v.last_known_elr,
        ) + encode_array::<i32>(v.offline_replicas) + empty_tag_buffer()
    }

    fn write(&self, writer: &mut Vec<u8>) -> (res: Result<(), KafkaErrors>) {
        proof {
            assert(views(self.replica_nodes@) =~= self.replica_nodes@);
            assert(views(self.isr_nodes@) =~= self.isr_nodes@);
            assert(views(self.eligible_leader_replicas@) =~= self.eligible_leader_replicas@);
            assert(views(self.last_known_elr@) =~= self.last_known_elr@);
            assert(views(self.offline_replicas@) =~= self.offline_replicas@);
        }
        write_bytes(writer, &self.error_code)?;
        write_bytes(writer, &self.partition_index)?;
        write_bytes(writer, &self.leader_id)?;
        write_bytes(writer, &self.leader_epoch)?;
        write_array(writer, self.replica_nodes.as_slice())?;
        write_array(writer, self.isr_nodes.as_slice())?;
        write_array(writer, self.eligible_leader_replicas.as_slice())?;
        write_array(writer, self.last_known_elr.as_slice())?;
        write_array(writer, self.offline_replicas.as_slice())?;
        write_tag_buffer(writer)?;
        assert(writer@ =~= old(writer)@ + Self::encode(self@));
        Ok(())
    }
}

impl Partition {
    /// What a response says of a partition of the catalog: its index, no
    /// error, leader zero, and no nodes in any list.
    pub open spec fn describe(p: PartitionMetadata) -> PartitionView {
        PartitionView {
            error_code: 0,
            partition_index: p.partition_id,
            leader_id: 0,
            leader_epoch: 0,
            replica_nodes: Seq::empty(),
            isr_nodes: Seq::empty(),
            eligible_leader_replicas: Seq::empty(),
            last_known_elr: Seq::empty(),
            offline_replicas: Seq::empty(),
        }
    }

    /// What a response says of some partitions, in their order.
    pub open spec fn describe_all(ps: Seq<PartitionMetadata>) -> Seq<PartitionView> {
        ps.map_values(|p: PartitionMetadata| Self::describe(p))
    }

    /// The entry of a response for a partition of the catalog.
    pub fn new(p: &PartitionMetadata) -> (r: Self)
        ensures
            r@ == Self::describe(*p),
    {
        Partition {
            error_code: 0,
            partition_index: p.partition_id,
            leader_id: 0,
            leader_epoch: 0,
            replica_nodes: Vec::new(),
            isr_nodes: Vec::new(),
            eligible_leader_replicas: Vec::new(),
            last_known_elr: Vec::new(),
            offline_replicas: Vec::new(),
        }
    }

    /// The entries of a response for the first `count` of some partitions,
    /// or for all of them where there are fewer.
    pub fn list(all: &[PartitionMetadata], count: usize) -> (r: Vec<Self>)
        ensures
            views(r@) == Self::describe_all(
                all@.take(if count < all@.len() { count as int } else { all@.len() as int }),
            ),
    {
        let shown = if count < all.len() { count } else { all.len() };
        let mut listed: Vec<Partition> = Vec::new();
        let mut i: usize = 0;
        assert(views(listed@) =~= Self::describe_all(all@.take(0)));
        while i < shown
            invariant
                i <= shown <= all@.len(),
                views(listed@) == Self::describe_all(all@.take(i as int)),
            decreases shown - i,
        {
            let ghost before = views(listed@);
            let entry = Partition::new(&all[i]);
            listed.push(entry);
            assert(views(listed@) =~= before.push(entry@));
            assert(views(listed@) =~= Self::describe_all(all@.take(i + 1)));
            i += 1;
        }
        listed
    }

    /// Writes the entry of a partition.
    pub fn serialize(&self, resp: &mut Vec<u8>) -> (res: Result<(), KafkaErrors>)
        ensures
            res is Ok,
            final(resp)@ == old(resp)@ + Self::encode(self@),
    {
        self.write(resp)
    }
}

/// A topic as a response describes it.
#[derive(Debug, Clone)]
pub struct Topic {
    pub error_code: i16,
    pub name: Vec<u8>,
    pub topic_id: u128,
    pub is_internal: bool,
    pub partitions: Vec<Partition>,
    pub topic_authorized_operations: i32,
}

/// What a `Topic` stands for: the same fields, with sequences in place of
/// vectors.
pub struct TopicView {
    pub error_code: i16,
    pub name: Seq<u8>,
    pub topic_id: u128,
    pub is_internal: bool,
    pub partitions: Seq<PartitionView>,
    pub topic_authorized_operations: i32,
}

impl View for Topic {
    type V = TopicView;

    open spec fn view(&self) -> TopicView {
        TopicView {
            error_code: self.error_code,
            name: self.name@,
            topic_id: self.topic_id,
            is_internal: self.is_internal,
            partitions: views(self.partitions@),
            topic_authorized_operations: self.topic_authorized_operations,
        }
    }
}

impl KafkaWrite for Topic {
    /// The error code, the name as a compact string, the UUID, whether the
    /// topic is internal, the partitions as a compact array, the authorized
    /// operations, and an empty tag buffer.
    open spec fn encode(v: TopicView) -> Seq<u8> {
        i16::encode(v.error_code) + compact_bytes(v.name) + u128::encode(v.topic_id) + bool::encode(
            v.is_internal,
        ) + encode_array::<Partition>(v.partitions) + i32::encode(v.topic_authorized_operations)
            + empty_tag_buffer()
    }

    fn write(&self, writer: &mut Vec<u8>) -> (res: Result<(), KafkaErrors>) {
        write_bytes(writer, &self.error_code)?;
        write_compact_string(writer, self.name.as_slice())?;
        write_bytes(writer, &self.topic_id)?;
        write_bool(writer, self.is_internal)?;
        write_array(writer, self.partitions.as_slice())?;
        write_bytes(writer, &self.topic_authorized_operations)?;
        write_tag_buffer(writer)?;
        assert(writer@ =~= old(writer)@ + Self::encode(self@));
        Ok(())
    }
}

/// The partitions that the catalog knows of the topic with the name `name`;
/// none where it knows no such topic.
pub open spec fn known_partitions(md: MetadataView, name: Seq<u8>) -> Seq<PartitionMetadata> {
    match md.topic_named(name) {
        Some(t) => md.partitions_of(t.uuid),
        None => Seq::empty(),
    }
}

/// How many partitions of the topic `name` a response lists when `remaining`
/// more may be listed: all that the catalog knows, or as many as may be.
pub open spec fn listed(md: MetadataView, name: Seq<u8>, remaining: nat) -> nat {
    if remaining < known_partitions(md, name).len() {
        remaining
    } else {
        known_partitions(md, name).len()
    }
}

impl Topic {
    /// What a response says of the topic with the name `name` when
    /// `remaining` more partitions may be listed. A name that the catalog
    /// does not know gets the error code 3, the zero UUID and no partitions.
    /// A name that it knows gets no error, the UUID of the topic and its
    /// first partitions, in the order of the catalog.
    pub open spec fn describe(md: MetadataView, name: Seq<u8>, remaining: nat) -> TopicView {
        match md.topic_named(name) {
            None => TopicView {
                error_code: UNKNOWN_TOPIC_OR_PARTITION,
                name,
                topic_id: 0,
                is_internal: false,
                partitions: Seq::empty(),
                topic_authorized_operations: TOPIC_AUTHORIZED_OPERATIONS,
            },
            Some(t) => TopicView {
                error_code: 0,
                name,
                topic_id: t.uuid,
                is_internal: false,
                partitions: Partition::describe_all(
                    md.partitions_of(t.uuid).take(listed(md, name, remaining) as int),
                ),
                topic_authorized_operations: TOPIC_AUTHORIZED_OPERATIONS,
            },
        }
    }

    /// Writes the entry of a topic.
    pub fn serialize(&self, resp: &mut Vec<u8>) -> (res: Result<(), KafkaErrors>)
        ensures
            res is Ok,
            final(resp)@ == old(resp)@ + Self::encode(self@),
    {
        self.write(resp)
    }
}

/// The names of the topics that a request asks for, in their order.
pub open spec fn requested_names(req: PartitionsRequestView) -> Seq<Seq<u8>> {
    req.topics.map_values(|t: TopicRequestView| t.name)
}

/// How many partitions a response may list at most: the limit of the
/// request, or none where that is negative.
pub open spec fn partition_limit(req: PartitionsRequestView) -> nat {
    if req.response_partition_limit < 0 {
        0
    } else {
        req.response_partition_limit as nat
    }
}

/// How many partitions may still be listed behind the first `n` topics.
pub open spec fn remaining_after(md: MetadataView, names: Seq<Seq<u8>>, limit: nat, n: nat) -> nat
    decreases n,
{
    if n == 0 {
        limit
    } else {
        let before = remaining_after(md, names, limit, (n - 1) as nat);
        (before - listed(md, names[n - 1], before)) as nat
    }
}

/// The entries of the first `n` topics.
pub open spec fn topics_upto(md: MetadataView, names: Seq<Seq<u8>>, limit: nat, n: nat) -> Seq<
    TopicView,
>
    decreases n,
{
    if n == 0 {
        Seq::empty()
    } else {
        topics_upto(md, names, limit, (n - 1) as nat).push(
            Topic::describe(md, names[n - 1], remaining_after(md, names, limit, (n - 1) as nat)),
        )
    }
}

/// The first partition, among those of the first `n` topics, that the
/// response does not list: the name of its topic and its index. There is
/// none where every partition is listed.
pub open spec fn cursor_upto(md: MetadataView, names: Seq<Seq<u8>>, limit: nat, n: nat) -> Option<
    CursorView,
>
    decreases n,
{
    if n == 0 {
        None
    } else {
        match cursor_upto(md, names, limit, (n - 1) as nat) {
            Some(c) => Some(c),
            None => {
                let before = remaining_after(md, names, limit, (n - 1) as nat);
                let all = known_partitions(md, names[n - 1]);
                if before < all.len() {
                    Some(
                        CursorView {
                            topic_name: names[n - 1],
                            partition_index: all[before as int].partition_id,
                        },
                    )
                } else {
                    None
                }
            },
        }
    }
}

/// The response of the DescribeTopicPartitions API.
#[derive(Debug, Clone)]
pub struct PartitionsResponse {
    pub throttle_ms: i32,
    pub topics: Vec<Topic>,
    pub next_cursor: Option<Cursor>,
}

/// What a `PartitionsResponse` stands for: the same fields, with sequences in place of
/// vectors.
pub struct PartitionsResponseView {
    pub throttle_ms: i32,
    pub topics: Seq<TopicView>,
    pub next_cursor: Option<CursorView>,
}

impl View for PartitionsResponse {
    type V = PartitionsResponseView;

    open spec fn view(&self) -> PartitionsResponseView {
        PartitionsResponseView {
            throttle_ms: self.throttle_ms,
            topics: views(self.topics@),
            next_cursor: opt_view(self.next_cursor),
        }
    }
}

impl PartitionsResponse {
    /// The response to a request, from a catalog. The topics stand in the
    /// order of the request. Each lists its partitions until the limit of
    /// the request is used up; the topics behind that list none. The cursor
    /// points at the first partition that is not listed.
    pub open spec fn respond(
        req: PartitionsRequestView,
        md: MetadataView,
    ) -> PartitionsResponseView {
        let names = requested_names(req);
        let limit = partition_limit(req);
        PartitionsResponseView {
            throttle_ms: 0,
            topics: topics_upto(md, names, limit, names.len()),
            next_cursor: cursor_upto(md, names, limit, names.len()),
        }
    }

    /// The body of the response on the wire: the throttle time, the topics
    /// as a compact array, the cursor, and an empty tag buffer.
    pub open spec fn encode(v: PartitionsResponseView) -> Seq<u8> {
        i32::encode(v.throttle_ms) + encode_array::<Topic>(v.topics) + Cursor::encode_nullable(
            v.next_cursor,
        ) + empty_tag_buffer()
    }

    /// The response to a request, from a catalog.
    pub fn new(request: &PartitionsRequest, metadata: &Metadata) -> (r: Self)
        ensures
            r@ == Self::respond(request@, metadata@),
    {
        let ghost names = requested_names(request@);
        let ghost md = metadata@;
        let limit: usize = if request.response_partition_limit < 0 {
            0
        } else {
            request.response_partition_limit as usize
        };
        let mut remaining: usize = limit;
        let mut topics: Vec<Topic> = Vec::new();
        let mut next_cursor: Option<Cursor> = None;
        let mut i: usize = 0;
        assert(views(topics@) =~= topics_upto(md, names, limit as nat, 0));
        while i < request.topics.len()
            invariant
                i <= request.topics@.len(),
                names == requested_names(request@),
                names.len() == request.topics@.len(),
                md == metadata@,
                limit == partition_limit(request@),
                remaining == remaining_after(md, names, limit as nat, i as nat),
                views(topics@) == topics_upto(md, names, limit as nat, i as nat),
                opt_view(next_cursor) == cursor_upto(md, names, limit as nat, i as nat),
            decreases request.topics@.len() - i,
        {
            let ghost before = views(topics@);
            let asked = &request.topics[i].name;
            assert(names[i as int] == asked@);
            let name = slice_to_vec(asked.as_slice());
            let ghost room = remaining as nat;
            let topic = match metadata.get_topic_by_name(asked.as_slice()) {
                None => {
                    let unknown = Topic {
                        error_code: UNKNOWN_TOPIC_OR_PARTITION,
                        name,
                        topic_id: 0,
                        is_internal: false,
                        partitions: Vec::new(),
                        topic_authorized_operations: TOPIC_AUTHORIZED_OPERATIONS,
                    };
                    assert(unknown@.partitions =~= Seq::empty());
                    unknown
                },
                Some(found) => {
                    let all = metadata.get_partition(found.uuid);
                    let count = if remaining < all.len() {
                        remaining
                    } else {
                        all.len()
                    };
                    if next_cursor.is_none() && count < all.len() {
                        next_cursor =
                        Some(
                            Cursor {
                                topic_name: slice_to_vec(asked.as_slice()),
                                partition_index: all[count].partition_id,
                            },
                        );
                    }
                    let partitions = Partition::list(all.as_slice(), count);
                    remaining = remaining - count;
                    assert(count == listed(md, asked@, room));
                    Topic {
                        error_code: 0,
                        name,
                        topic_id: found.uuid,
                        is_internal: false,
                        partitions,
                        topic_authorized_operations: TOPIC_AUTHORIZED_OPERATIONS,
                    }
                },
            };
            assert(topic@ == Topic::describe(md, names[i as int], room));
            topics.push(topic);
            assert(views(topics@) =~= before.push(topic@));
            i += 1;
        }
        PartitionsResponse { throttle_ms: 0, topics, next_cursor }
    }

    /// Writes the body of the response.
    pub fn serialize(&self, resp: &mut Vec<u8>) -> (res: Result<(), KafkaErrors>)
        ensures
            res is Ok,
            final(resp)@ == old(resp)@ + Self::encode(self@),
    {
        write_bytes(resp, &self.throttle_ms)?;
        write_array(resp, self.topics.as_slice())?;
        match &self.next_cursor {
            Some(cursor) => cursor.serialize(resp)?,
            None => write_null(resp)?,
        }
        write_tag_buffer(resp)?;
        assert(resp@ =~= old(resp)@ + Self::encode(self@));
        Ok(())
    }
}

/// How many partitions the entries of some topics list, all in all.
pub open spec fn partition_count(topics: Seq<TopicView>) -> nat
    decreases topics.len(),
{
    if topics.len() == 0 {
        0
    } else {
        partition_count(topics.drop_last()) + topics.last().partitions.len()
    }
}

/// Whether the listing `topics` of `names` stops within the topic `i`, with
/// `cursor` pointing at where it stops: every topic before `i` lists all the
/// partitions that the catalog knows of it, the topic `i` lists fewer, and
/// the cursor names that topic and the first partition that it does not list.
pub open spec fn stops_at(
    md: MetadataView,
    names: Seq<Seq<u8>>,
    topics: Seq<TopicView>,
    i: int,
    cursor: CursorView,
) -> bool {
    let shown = topics[i].partitions.len() as int;
    let all = known_partitions(md, names[i]);
    &&& 0 <= i < topics.len()
    &&& shown < all.len()
    &&& cursor.topic_name == names[i]
    &&& cursor.partition_index == all[shown].partition_id
    &&& forall|j: int|
        0 <= j < i ==> (#[trigger] topics[j]).partitions.len() == known_partitions(
            md,
            names[j],
        ).len()
}

/// The entry of a topic lists as many partitions as `listed` says.
pub proof fn lemma_described_count(md: MetadataView, name: Seq<u8>, remaining: nat)
    ensures
        Topic::describe(md, name, remaining).partitions.len() == listed(md, name, remaining),
{
}

/// The first `n` topics have `n` entries.
pub proof fn lemma_topics_upto_len(md: MetadataView, names: Seq<Seq<u8>>, limit: nat, n: nat)
    ensures
        topics_upto(md, names, limit, n).len() == n,
    decreases n,
{
    if n > 0 {
        lemma_topics_upto_len(md, names, limit, (n - 1) as nat);
    }
}

/// The entry of the topic `i` does not depend on how many topics follow it.
pub proof fn lemma_topics_upto_index(
    md: MetadataView,
    names: Seq<Seq<u8>>,
    limit: nat,
    n: nat,
    i: int,
)
    requires
        0 <= i < n <= names.len(),
    ensures
        topics_upto(md, names, limit, n)[i] == Topic::describe(
            md,
            names[i],
            remaining_after(md, names, limit, i as nat),
        ),
    decreases n,
{
    lemma_topics_upto_len(md, names, limit, (n - 1) as nat);
    if i < n - 1 {
        lemma_topics_upto_index(md, names, limit, (n - 1) as nat, i);
    }
}

/// What the first `n` topics list and what may still be listed behind them
/// add up to the limit.
pub proof fn lemma_listed_and_remaining(md: MetadataView, names: Seq<Seq<u8>>, limit: nat, n: nat)
    requires
        n <= names.len(),
    ensures
        partition_count(topics_upto(md, names, limit, n)) + remaining_after(md, names, limit, n)
            == limit,
    decreases n,
{
    if n > 0 {
        let before = (n - 1) as nat;
        lemma_listed_and_remaining(md, names, limit, before);
        lemma_described_count(md, names[n - 1], remaining_after(md, names, limit, before));
        assert(topics_upto(md, names, limit, n).drop_last() =~= topics_upto(
            md,
            names,
            limit,
            before,
        ));
    }
}

/// Where there is no cursor, every one of the first `n` topics lists all its
/// partitions. Where there is one, the limit is used up, and the listing
/// stops within one of the topics, at the partition that the cursor names.
pub proof fn lemma_cursor_upto(md: MetadataView, names: Seq<Seq<u8>>, limit: nat, n: nat)
    requires
        n <= names.len(),
    ensures
        match cursor_upto(md, names, limit, n) {
            None => forall|i: int|
                0 <= i < n ==> (#[trigger] topics_upto(md, names, limit, n)[i]).partitions.len()
                    == known_partitions(md, names[i]).len(),
            Some(c) => remaining_after(md, names, limit, n) == 0 && exists|i: int|
                stops_at(md, names, topics_upto(md, names, limit, n), i, c),
        },
    decreases n,
{
    if n > 0 {
        let before = (n - 1) as nat;
        let shorter = topics_upto(md, names, limit, before);
        let longer = topics_upto(md, names, limit, n);
        let room = remaining_after(md, names, limit, before);
        lemma_cursor_upto(md, names, limit, before);
        lemma_described_count(md, names[n - 1], room);
        lemma_topics_upto_len(md, names, limit, before);
        lemma_topics_upto_index(md, names, limit, n, n - 1);
        assert(longer.drop_last() =~= shorter);
        assert forall|j: int| 0 <= j < n - 1 implies longer[j] == shorter[j] by {}
        match cursor_upto(md, names, limit, before) {
            Some(c) => {
                let i = choose|i: int| stops_at(md, names, shorter, i, c);
                assert(stops_at(md, names, longer, i, c));
            },
            None => {
                if room < known_partitions(md, names[n - 1]).len() {
                    let c = cursor_upto(md, names, limit, n)->Some_0;
                    assert(stops_at(md, names, longer, n - 1, c));
                } else {
                    assert forall|i: int| 0 <= i < n implies (#[trigger] longer[i]).partitions.len()
                        == known_partitions(md, names[i]).len() by {}
                }
            },
        }
    }
}

/// The limit of a request is honoured. A response to a request whose limit
/// is not negative lists no more partitions than the limit says. Where the
/// response has no cursor, every topic lists all the partitions that the
/// catalog knows of it. Where it has one, the limit is reached, and the
/// cursor points at the first partition that is not listed: the one that
/// comes next in the topic at which the listing stops.
pub proof fn lemma_partition_limit(req: PartitionsRequestView, md: MetadataView)
    requires
        req.response_partition_limit >= 0,
    ensures
        ({
            let r = PartitionsResponse::respond(req, md);
            let names = requested_names(req);
            &&& r.topics.len() == names.len()
            &&& partition_count(r.topics) <= req.response_partition_limit
            &&& match r.next_cursor {
                None => forall|i: int|
                    0 <= i < r.topics.len() ==> (#[trigger] r.topics[i]).partitions.len()
                        == known_partitions(md, names[i]).len(),
                Some(c) => partition_count(r.topics) == req.response_partition_limit && exists|
                    i: int,
                | stops_at(md, names, r.topics, i, c),
            }
        }),
{
    let names = requested_names(req);
    let limit = partition_limit(req);
    lemma_listed_and_remaining(md, names, limit, names.len());
    lemma_cursor_upto(md, names, limit, names.len());
    lemma_topics_upto_len(md, names, limit, names.len());
}

} // verus!
