//! The catalog of topics and partitions that the cluster-metadata log
//! describes.
//!
//! The log is a run of record batches. Its topic records become the topics
//! of the catalog, keyed by UUID, and its partition records the partitions of
//! each topic, in the order of the log.

use std::collections::HashMap;
use vstd::prelude::*;
use vstd::slice::slice_to_vec;
use crate::errors::KafkaErrors;
use crate::models::views;
use crate::parser::{KafkaRead, Reader, decode_be};
use crate::records::{
    KafkaRecordValue, KafkaRecordValueView, KafkaRecordView, RecordsBatch, RecordsBatchView,
};

verus! {

broadcast use vstd::std_specs::hash::group_hash_axioms;

/// The batches of a log, from its first byte on. The log ends, without an
/// error, where the input ends before a batch does; any other failure of a
/// batch is the failure of the log.
pub open spec fn decode_log(s: Seq<u8>) -> Result<Seq<RecordsBatchView>, KafkaErrors>
    decreases s.len(),
{
    match RecordsBatch::decode(s) {
        Err(e) => if e == KafkaErrors::UnexpectedEndOfInput {
            Ok(Seq::empty())
        } else {
            Err(e)
        },
        Ok((batch, rest)) => match decode_log(rest) {
            Err(e) => Err(e),
            Ok(more) => Ok(seq![batch] + more),
        },
    }
}

/// How many batches of the log `s` lie within its first `k` bytes.
pub open spec fn whole_batches(s: Seq<u8>, k: int) -> nat
    decreases s.len(),
{
    match RecordsBatch::decode(s) {
        Err(_) => 0,
        Ok((_, rest)) => if s.len() - rest.len() <= k {
            1 + whole_batches(rest, k - (s.len() - rest.len()))
        } else {
            0
        },
    }
}

/// A fixed-width number read from the first `k` bytes of `s` is the number
/// read from `s`, unless the cut runs through it.
pub proof fn lemma_decode_be_prefix(s: Seq<u8>, width: nat, k: int)
    requires
        0 <= k <= s.len(),
    ensures
        k < width ==> decode_be(s.take(k), width) == Err::<(nat, Seq<u8>), KafkaErrors>(
            KafkaErrors::UnexpectedEndOfInput,
        ),
        k >= width ==> decode_be(s, width) is Ok && decode_be(s.take(k), width) == Ok::<
            (nat, Seq<u8>),
            KafkaErrors,
        >((decode_be(s, width)->Ok_0.0, s.skip(width as int).take(k - width))),
{
    if k >= width {
        assert(s.take(k).take(width as int) =~= s.take(width as int));
        assert(s.take(k).skip(width as int) =~= s.skip(width as int).take(k - width));
    }
}

/// The frame of a batch read from the first `k` bytes of `s` is the frame
/// read from `s` if it lies within them; if the cut runs through it, the
/// input ends too early. Where the input `s` ends too early, so do its first
/// `k` bytes.
pub proof fn lemma_frame_prefix(s: Seq<u8>, k: int)
    requires
        0 <= k <= s.len(),
    ensures
        match RecordsBatch::decode_frame(s) {
            Ok((frame, rest)) => {
                let used = s.len() - rest.len();
                &&& 12 <= used <= s.len()
                &&& rest == s.skip(used)
                &&& used <= k ==> RecordsBatch::decode_frame(s.take(k)) == Ok::<
                    ((u64, i32, Seq<u8>), Seq<u8>),
                    KafkaErrors,
                >((frame, rest.take(k - used)))
                &&& k < used ==> RecordsBatch::decode_frame(s.take(k)) == Err::<
                    ((u64, i32, Seq<u8>), Seq<u8>),
                    KafkaErrors,
                >(KafkaErrors::UnexpectedEndOfInput)
            },
            Err(e) => e == KafkaErrors::UnexpectedEndOfInput ==> RecordsBatch::decode_frame(
                s.take(k),
            ) == Err::<((u64, i32, Seq<u8>), Seq<u8>), KafkaErrors>(
                KafkaErrors::UnexpectedEndOfInput,
            ),
        },
{
    let t = s.take(k);
    lemma_decode_be_prefix(s, 8, k);
    if k >= 8 && s.len() >= 8 {
        let s1 = s.skip(8);
        let t1 = s1.take(k - 8);
        lemma_decode_be_prefix(s1, 4, k - 8);
        if k >= 12 && s1.len() >= 4 {
            let s2 = s1.skip(4);
            let t2 = s2.take(k - 12);
            let length = i32::decode(s1)->Ok_0.0;
            assert(i32::decode(t1) == Ok::<(i32, Seq<u8>), KafkaErrors>((length, t2)));
            if 0 <= length <= s2.len() {
                if k - 12 >= length {
                    assert(t2.take(length as int) =~= s2.take(length as int));
                    assert(t2.skip(length as int) =~= s2.skip(length as int).take(k - 12 - length));
                    assert(s2.skip(length as int) =~= s.skip(12 + length));
                }
            }
        }
    }
}

/// The same of a whole batch.
pub proof fn lemma_batch_prefix(s: Seq<u8>, k: int)
    requires
        0 <= k <= s.len(),
    ensures
        match RecordsBatch::decode(s) {
            Ok((batch, rest)) => {
                let used = s.len() - rest.len();
                &&& 12 <= used <= s.len()
                &&& rest == s.skip(used)
                &&& used <= k ==> RecordsBatch::decode(s.take(k)) == Ok::<
                    (RecordsBatchView, Seq<u8>),
                    KafkaErrors,
                >((batch, rest.take(k - used)))
                &&& k < used ==> RecordsBatch::decode(s.take(k)) == Err::<
                    (RecordsBatchView, Seq<u8>),
                    KafkaErrors,
                >(KafkaErrors::UnexpectedEndOfInput)
            },
            Err(e) => e == KafkaErrors::UnexpectedEndOfInput ==> RecordsBatch::decode(s.take(k))
                == Err::<(RecordsBatchView, Seq<u8>), KafkaErrors>(
                KafkaErrors::UnexpectedEndOfInput,
            ),
        },
{
    lemma_frame_prefix(s, k);
}

/// A log that is cut off anywhere still scans without an error, and it scans
/// to exactly the batches of the whole log that lie before the cut.
pub proof fn lemma_truncated_log(s: Seq<u8>, k: int)
    requires
        0 <= k <= s.len(),
        decode_log(s) is Ok,
    ensures
        whole_batches(s, k) <= decode_log(s)->Ok_0.len(),
        decode_log(s.take(k)) == Ok::<Seq<RecordsBatchView>, KafkaErrors>(
            decode_log(s)->Ok_0.take(whole_batches(s, k) as int),
        ),
    decreases s.len(),
{
    lemma_batch_prefix(s, k);
    let all = decode_log(s)->Ok_0;
    match RecordsBatch::decode(s) {
        Ok((batch, rest)) => {
            let used = s.len() - rest.len();
            let more = decode_log(rest)->Ok_0;
            if used <= k {
                lemma_truncated_log(rest, k - used);
                let n = whole_batches(rest, k - used);
                assert(seq![batch] + more.take(n as int) =~= all.take(n as int + 1));
            } else {
                assert(all.take(0) =~= Seq::<RecordsBatchView>::empty());
            }
        },
        Err(e) => {
            assert(all.take(0) =~= Seq::<RecordsBatchView>::empty());
        },
    }
}

/// What a scan yields when `done` has been read before it started.
pub open spec fn after<V>(done: Seq<V>, more: Result<Seq<V>, KafkaErrors>) -> Result<
    Seq<V>,
    KafkaErrors,
> {
    match more {
        Ok(others) => Ok(done + others),
        Err(e) => Err(e),
    }
}

/// Reads the batches of a log.
pub fn read_log(data: &[u8]) -> (res: Result<Vec<RecordsBatch>, KafkaErrors>)
    ensures
        match decode_log(data@) {
            Ok(batches) => res matches Ok(v) && views(v@) == batches,
            Err(e) => res == Err::<Vec<RecordsBatch>, KafkaErrors>(e),
        },
{
    let mut reader = Reader::new(data);
    let mut batches: Vec<RecordsBatch> = Vec::new();
    assert(views(batches@) + decode_log(reader@)->Ok_0 =~= decode_log(reader@)->Ok_0);
    loop
        invariant
            decode_log(data@) == after(views(batches@), decode_log(reader@)),
        decreases reader@.len(),
    {
        proof {
            lemma_batch_prefix(reader@, reader@.len() as int);
        }
        let ghost done = views(batches@);
        match RecordsBatch::deserialize(&mut reader) {
            Ok(batch) => {
                batches.push(batch);
                proof {
                    assert(views(batches@) =~= done.push(batch@));
                    if let Ok(more) = decode_log(reader@) {
                        assert(done + (seq![batch@] + more) =~= views(batches@) + more);
                    }
                }
            },
            Err(e) => {
                if e == KafkaErrors::UnexpectedEndOfInput {
                    assert(done + Seq::<RecordsBatchView>::empty() =~= done);
                    return Ok(batches);
                }
                return Err(e);
            },
        }
    }
}

/// A topic of the catalog, and where in the log it was declared: in the
/// batch `record_id1`, by the record `record_id2` of that batch.
#[derive(Debug, Clone)]
pub struct TopicMetadata {
    pub uuid: u128,
    pub record_id1: usize,
    pub record_id2: usize,
    pub topic_name: Vec<u8>,
}

/// What a `TopicMetadata` stands for: the same fields, with sequences in place of
/// vectors.
pub struct TopicMetadataView {
    pub uuid: u128,
    pub record_id1: usize,
    pub record_id2: usize,
    pub topic_name: Seq<u8>,
}

impl View for TopicMetadata {
    type V = TopicMetadataView;

    open spec fn view(&self) -> TopicMetadataView {
        TopicMetadataView {
            uuid: self.uuid,
            record_id1: self.record_id1,
            record_id2: self.record_id2,
            topic_name: self.topic_name@,
        }
    }
}

impl Default for TopicMetadata {
    /// The topic with the zero UUID and no name.
    fn default() -> (t: Self)
        ensures
            t@ == (TopicMetadataView {
                uuid: 0,
                record_id1: 0,
                record_id2: 0,
                topic_name: Seq::empty(),
            }),
    {
        TopicMetadata { uuid: 0, record_id1: 0, record_id2: 0, topic_name: Vec::new() }
    }
}

/// A partition of a topic, and where in the log it was declared.
#[derive(Debug, Clone, Copy)]
pub struct PartitionMetadata {
    pub partition_id: i32,
    pub topic_uuid: u128,
    pub record_id1: usize,
    pub record_id2: usize,
}

impl Default for PartitionMetadata {
    /// Partition zero of the zero UUID.
    fn default() -> (p: Self)
        ensures
            p == (PartitionMetadata {
                partition_id: 0,
                topic_uuid: 0,
                record_id1: 0,
                record_id2: 0,
            }),
    {
        PartitionMetadata { partition_id: 0, topic_uuid: 0, record_id1: 0, record_id2: 0 }
    }
}

/// The catalog. `topic_map` holds the topics by UUID and `topic_order` their
/// UUIDs in the order in which the log first declared them; `partition_map`
/// holds the partitions of each topic in the order of the log; `records`
/// keeps the batches that the catalog was made from.
#[derive(Debug, Clone)]
pub struct Metadata {
    pub topic_map: HashMap<u128, TopicMetadata>,
    pub topic_order: Vec<u128>,
    pub partition_map: HashMap<u128, Vec<PartitionMetadata>>,
    pub records: Vec<RecordsBatch>,
}

/// What a `Metadata` stands for: maps and sequences in place of hash maps
/// and vectors.
pub struct MetadataView {
    pub topics: Map<u128, TopicMetadataView>,
    pub order: Seq<u128>,
    pub partitions: Map<u128, Seq<PartitionMetadata>>,
    pub batches: Seq<RecordsBatchView>,
}

/// The catalog that the parts of a `Metadata` stand for.
pub open spec fn assemble(
    topic_map: Map<u128, TopicMetadata>,
    topic_order: Seq<u128>,
    partition_map: Map<u128, Vec<PartitionMetadata>>,
    batches: Seq<RecordsBatchView>,
) -> MetadataView {
    MetadataView {
        topics: topic_map.map_values(|t: TopicMetadata| t@),
        order: topic_order,
        partitions: partition_map.map_values(|v: Vec<PartitionMetadata>| v@),
        batches,
    }
}

impl View for Metadata {
    type V = MetadataView;

    open spec fn view(&self) -> MetadataView {
        assemble(self.topic_map@, self.topic_order@, self.partition_map@, views(self.records@))
    }
}

impl MetadataView {
    /// The catalog of a log that declares nothing.
    pub open spec fn empty(batches: Seq<RecordsBatchView>) -> MetadataView {
        MetadataView {
            topics: Map::empty(),
            order: Seq::empty(),
            partitions: Map::empty(),
            batches,
        }
    }

    /// The partitions of a topic in the order of the log; none for a UUID
    /// that the catalog does not know.
    pub open spec fn partitions_of(self, uuid: u128) -> Seq<PartitionMetadata> {
        if self.partitions.contains_key(uuid) {
            self.partitions[uuid]
        } else {
            Seq::empty()
        }
    }

    /// The catalog after the record `j` of the batch `i`. A topic record puts
    /// its topic under its UUID, in place of any topic that was there. A
    /// partition record adds its partition behind those of its topic. Any
    /// other record leaves the catalog as it is.
    pub open spec fn with_record(self, i: nat, j: nat, record: KafkaRecordView) -> MetadataView {
        match record.value {
            KafkaRecordValueView::KafkaRecordTopicRecordType(t) => MetadataView {
                topics: self.topics.insert(
                    t.topic_uuid,
                    TopicMetadataView {
                        uuid: t.topic_uuid,
                        record_id1: i as usize,
                        record_id2: j as usize,
                        topic_name: t.topic_name,
                    },
                ),
                order: if self.topics.contains_key(t.topic_uuid) {
                    self.order
                } else {
                    self.order.push(t.topic_uuid)
                },
                ..self
            },
            KafkaRecordValueView::KafkaRecordPartitionType(p) => MetadataView {
                partitions: self.partitions.insert(
                    p.topic_uuid,
                    self.partitions_of(p.topic_uuid).push(
                        PartitionMetadata {
                            partition_id: p.partition_id,
                            topic_uuid: p.topic_uuid,
                            record_id1: i as usize,
                            record_id2: j as usize,
                        },
                    ),
                ),
                ..self
            },
            _ => self,
        }
    }

    /// The catalog after the first `n` records of the batch `i`.
    pub open spec fn with_records(
        self,
        i: nat,
        records: Seq<KafkaRecordView>,
        n: nat,
    ) -> MetadataView
        decreases n,
    {
        if n == 0 {
            self
        } else {
            self.with_records(i, records, (n - 1) as nat).with_record(
                i,
                (n - 1) as nat,
                records[n - 1],
            )
        }
    }

    /// The catalog after the first `n` batches.
    pub open spec fn with_batches(self, batches: Seq<RecordsBatchView>, n: nat) -> MetadataView
        decreases n,
    {
        if n == 0 {
            self
        } else {
            let batch = batches[n - 1];
            self.with_batches(batches, (n - 1) as nat).with_records(
                (n - 1) as nat,
                batch.records,
                batch.records.len(),
            )
        }
    }

    /// The first topic with the name `name` among those that the log declared
    /// `i`-th or later.
    pub open spec fn topic_named_from(self, name: Seq<u8>, i: nat) -> Option<TopicMetadataView>
        decreases self.order.len() - i,
    {
        if i >= self.order.len() {
            None
        } else {
            let uuid = self.order[i as int];
            if self.topics.contains_key(uuid) && self.topics[uuid].topic_name == name {
                Some(self.topics[uuid])
            } else {
                self.topic_named_from(name, i + 1)
            }
        }
    }

    /// The topic with the name `name`: of several, the one that the log
    /// declared first.
    pub open spec fn topic_named(self, name: Seq<u8>) -> Option<TopicMetadataView> {
        self.topic_named_from(name, 0)
    }

    /// Every topic of the catalog is listed in `order`, under its own UUID.
    pub open spec fn well_formed(self) -> bool {
        forall|u: u128| #[trigger]
            self.topics.contains_key(u) ==> self.order.contains(u) && self.topics[u].uuid == u
    }
}

/// The catalog that a log of these batches describes.
pub open spec fn catalog(batches: Seq<RecordsBatchView>) -> MetadataView {
    MetadataView::empty(batches).with_batches(batches, batches.len())
}

/// A record keeps a catalog well formed.
pub proof fn lemma_with_record_well_formed(c: MetadataView, i: nat, j: nat, record: KafkaRecordView)
    requires
        c.well_formed(),
    ensures
        c.with_record(i, j, record).well_formed(),
{
    let after = c.with_record(i, j, record);
    match record.value {
        KafkaRecordValueView::KafkaRecordTopicRecordType(t) => {
            assert forall|u: u128| #[trigger] after.topics.contains_key(u) implies
                after.order.contains(u) && after.topics[u].uuid == u by {
                if u == t.topic_uuid {
                    if !c.topics.contains_key(u) {
                        assert(after.order[c.order.len() as int] == u);
                    }
                } else {
                    assert(c.topics.contains_key(u));
                    let k = choose|k: int| 0 <= k < c.order.len() && c.order[k] == u;
                    assert(after.order[k] == u);
                }
            }
        },
        _ => {},
    }
}

/// So do the records of a batch.
pub proof fn lemma_with_records_well_formed(
    c: MetadataView,
    i: nat,
    records: Seq<KafkaRecordView>,
    n: nat,
)
    requires
        c.well_formed(),
    ensures
        c.with_records(i, records, n).well_formed(),
    decreases n,
{
    if n > 0 {
        lemma_with_records_well_formed(c, i, records, (n - 1) as nat);
        lemma_with_record_well_formed(
            c.with_records(i, records, (n - 1) as nat),
            i,
            (n - 1) as nat,
            records[n - 1],
        );
    }
}

/// So do the batches of a log.
pub proof fn lemma_with_batches_well_formed(c: MetadataView, batches: Seq<RecordsBatchView>, n: nat)
    requires
        c.well_formed(),
    ensures
        c.with_batches(batches, n).well_formed(),
    decreases n,
{
    if n > 0 {
        lemma_with_batches_well_formed(c, batches, (n - 1) as nat);
        lemma_with_records_well_formed(
            c.with_batches(batches, (n - 1) as nat),
            (n - 1) as nat,
            batches[n - 1].records,
            batches[n - 1].records.len(),
        );
    }
}

/// The records of a batch leave the batches that a catalog keeps as they
/// are.
pub proof fn lemma_with_records_keeps_batches(
    c: MetadataView,
    i: nat,
    records: Seq<KafkaRecordView>,
    n: nat,
)
    ensures
        c.with_records(i, records, n).batches == c.batches,
    decreases n,
{
    if n > 0 {
        lemma_with_records_keeps_batches(c, i, records, (n - 1) as nat);
    }
}

/// So do the batches of a log.
pub proof fn lemma_with_batches_keeps_batches(
    c: MetadataView,
    batches: Seq<RecordsBatchView>,
    n: nat,
)
    ensures
        c.with_batches(batches, n).batches == c.batches,
    decreases n,
{
    if n > 0 {
        lemma_with_batches_keeps_batches(c, batches, (n - 1) as nat);
        lemma_with_records_keeps_batches(
            c.with_batches(batches, (n - 1) as nat),
            (n - 1) as nat,
            batches[n - 1].records,
            batches[n - 1].records.len(),
        );
    }
}

/// The catalog of a log is well formed, and it keeps the batches of the log.
pub proof fn lemma_catalog_well_formed(batches: Seq<RecordsBatchView>)
    ensures
        catalog(batches).well_formed(),
        catalog(batches).batches == batches,
{
    lemma_with_batches_well_formed(MetadataView::empty(batches), batches, batches.len());
    lemma_with_batches_keeps_batches(MetadataView::empty(batches), batches, batches.len());
}

/// A scan for a name from the `i`-th topic on finds a topic of the catalog
/// with that name, or there is none among the topics from the `i`-th on.
pub proof fn lemma_topic_named_from(c: MetadataView, name: Seq<u8>, i: nat)
    ensures
        match c.topic_named_from(name, i) {
            Some(t) => exists|k: int|
                i <= k < c.order.len() && c.topics.contains_key(#[trigger] c.order[k])
                    && c.topics[c.order[k]] == t && t.topic_name == name,
            None => forall|k: int|
                i <= k < c.order.len() && c.topics.contains_key(#[trigger] c.order[k])
                    ==> c.topics[c.order[k]].topic_name != name,
        },
    decreases c.order.len() - i,
{
    if i < c.order.len() {
        let uuid = c.order[i as int];
        if !(c.topics.contains_key(uuid) && c.topics[uuid].topic_name == name) {
            lemma_topic_named_from(c, name, i + 1);
        }
    }
}

/// A name resolves exactly if the catalog holds a topic with that name, and
/// it resolves to such a topic.
pub proof fn lemma_topic_named(c: MetadataView, name: Seq<u8>)
    requires
        c.well_formed(),
    ensures
        match c.topic_named(name) {
            Some(t) => c.topics.contains_key(t.uuid) && c.topics[t.uuid] == t && t.topic_name
                == name,
            None => forall|u: u128| #[trigger]
                c.topics.contains_key(u) ==> c.topics[u].topic_name != name,
        },
{
    lemma_topic_named_from(c, name, 0);
    match c.topic_named(name) {
        Some(t) => {},
        None => {
            assert forall|u: u128| #[trigger] c.topics.contains_key(u) implies
                c.topics[u].topic_name != name by {
                let k = choose|k: int| 0 <= k < c.order.len() && c.order[k] == u;
                assert(c.topics.contains_key(c.order[k]));
            }
        },
    }
}

/// Whether two byte strings are the same.
pub fn same_bytes(a: &[u8], b: &[u8]) -> (same: bool)
    ensures
        same == (a@ == b@),
{
    if a.len() != b.len() {
        return false;
    }
    let mut i: usize = 0;
    while i < a.len()
        invariant
            i <= a@.len(),
            a@.len() == b@.len(),
            a@.take(i as int) == b@.take(i as int),
        decreases a@.len() - i,
    {
        if a[i] != b[i] {
            return false;
        }
        assert(a@.take(i + 1) =~= a@.take(i as int).push(a@[i as int]));
        assert(b@.take(i + 1) =~= b@.take(i as int).push(b@[i as int]));
        i += 1;
    }
    assert(a@.take(a@.len() as int) =~= a@);
    assert(b@.take(b@.len() as int) =~= b@);
    true
}

impl Default for Metadata {
    /// The catalog of a log that holds nothing.
    fn default() -> (m: Self)
        ensures
            m@ == catalog(Seq::empty()),
            m@.batches == Seq::<RecordsBatchView>::empty(),
    {
        let records: Vec<RecordsBatch> = Vec::new();
        assert(views(records@) =~= Seq::<RecordsBatchView>::empty());
        Self::from_batches(records)
    }
}

impl Metadata {
    /// The catalog of a log file: the empty catalog where there is no file,
    /// else what the bytes of the file describe.
    pub fn new(log: Option<&[u8]>) -> (res: Result<Self, KafkaErrors>)
        ensures
            match log {
                None => res matches Ok(m) && m@ == catalog(Seq::empty()) && m@.batches
                    == Seq::<RecordsBatchView>::empty(),
                Some(data) => match decode_log(data@) {
                    Ok(batches) => res matches Ok(m) && m@ == catalog(batches) && m@.batches
                        == batches,
                    Err(e) => res matches Err(x) && x == e,
                },
            },
    {
        match log {
            Some(data) => Self::decode(data),
            None => Ok(Self::default()),
        }
    }

    /// The catalog that the bytes of a log describe.
    pub fn decode(buffer: &[u8]) -> (res: Result<Self, KafkaErrors>)
        ensures
            match decode_log(buffer@) {
                Ok(batches) => res matches Ok(m) && m@ == catalog(batches) && m@.batches == batches,
                Err(e) => res matches Err(x) && x == e,
            },
    {
        let records = read_log(buffer)?;
        Ok(Self::from_batches(records))
    }

    /// The catalog that these batches describe.
    pub fn from_batches(records: Vec<RecordsBatch>) -> (m: Self)
        ensures
            m@ == catalog(views(records@)),
            m@.batches == views(records@),
    {
        let mut topic_map: HashMap<u128, TopicMetadata> = HashMap::new();
        let mut topic_order: Vec<u128> = Vec::new();
        let mut partition_map: HashMap<u128, Vec<PartitionMetadata>> = HashMap::new();
        let ghost batches = views(records@);
        assert(assemble(topic_map@, topic_order@, partition_map@, batches) =~= MetadataView::empty(
            batches,
        )) by {
            assert(topic_map@.map_values(|t: TopicMetadata| t@) =~= Map::empty());
            assert(partition_map@.map_values(|v: Vec<PartitionMetadata>| v@) =~= Map::empty());
        }
        let mut i: usize = 0;
        while i < records.len()
            invariant
                i <= records@.len(),
                batches == views(records@),
                assemble(topic_map@, topic_order@, partition_map@, batches) == MetadataView::empty(
                    batches,
                ).with_batches(batches, i as nat),
            decreases records@.len() - i,
        {
            let batch = &records[i];
            let ghost start = MetadataView::empty(batches).with_batches(batches, i as nat);
            let ghost items = views(batch.records@);
            assert(batches[i as int] == batch@);
            let mut j: usize = 0;
            while j < batch.records.len()
                invariant
                    j <= batch.records@.len(),
                    items == views(batch.records@),
                    assemble(topic_map@, topic_order@, partition_map@, batches)
                        == start.with_records(i as nat, items, j as nat),
                decreases batch.records@.len() - j,
            {
                let ghost now = assemble(topic_map@, topic_order@, partition_map@, batches);
                let ghost old_topics = topic_map@;
                let ghost old_partitions = partition_map@;
                assert(items[j as int] == batch.records@[j as int]@);
                match &batch.records[j].value {
                    KafkaRecordValue::KafkaRecordTopicRecordType(v) => {
                        let meta = TopicMetadata {
                            uuid: v.topic_uuid,
                            record_id1: i,
                            record_id2: j,
                            topic_name: slice_to_vec(v.topic_name.as_slice()),
                        };
                        if !topic_map.contains_key(&v.topic_uuid) {
                            topic_order.push(v.topic_uuid);
                        }
                        let ghost shown = meta@;
                        topic_map.insert(v.topic_uuid, meta);
                        assert(topic_map@.map_values(|t: TopicMetadata| t@)
                            =~= old_topics.map_values(|t: TopicMetadata| t@).insert(
                            v.topic_uuid,
                            shown,
                        ));
                    },
                    KafkaRecordValue::KafkaRecordPartitionType(v) => {
                        let meta = PartitionMetadata {
                            partition_id: v.partition_id,
                            topic_uuid: v.topic_uuid,
                            record_id1: i,
                            record_id2: j,
                        };
                        let mut list = match partition_map.remove(&v.topic_uuid) {
                            Some(list) => list,
                            None => Vec::new(),
                        };
                        assert(list@ == now.partitions_of(v.topic_uuid));
                        list.push(meta);
                        let ghost shown = list@;
                        partition_map.insert(v.topic_uuid, list);
                        assert(partition_map@.map_values(|v: Vec<PartitionMetadata>| v@)
                            =~= old_partitions.map_values(|v: Vec<PartitionMetadata>| v@).insert(
                            v.topic_uuid,
                            shown,
                        ));
                    },
                    _ => {},
                }
                j += 1;
            }
            assert(items == batches[i as int].records);
            i += 1;
        }
        Metadata { topic_map, topic_order, partition_map, records }
    }

    /// The topic with the given UUID.
    pub fn get_topic(&self, topic: u128) -> (res: Option<&TopicMetadata>)
        ensures
            match res {
                Some(t) => self@.topics.contains_key(topic) && t@ == self@.topics[topic],
                None => !self@.topics.contains_key(topic),
            },
    {
        self.topic_map.get(&topic)
    }

    /// The topic with the given name: of several, the one that the log
    /// declared first.
    pub fn get_topic_by_name(&self, name: &[u8]) -> (res: Option<&TopicMetadata>)
        ensures
            match self@.topic_named(name@) {
                Some(t) => res matches Some(x) && x@ == t,
                None => res is None,
            },
    {
        let mut i: usize = 0;
        while i < self.topic_order.len()
            invariant
                i <= self.topic_order@.len(),
                self@.topic_named(name@) == self@.topic_named_from(name@, i as nat),
            decreases self.topic_order@.len() - i,
        {
            match self.topic_map.get(&self.topic_order[i]) {
                Some(topic) => {
                    if same_bytes(topic.topic_name.as_slice(), name) {
                        return Some(topic);
                    }
                },
                None => {},
            }
            i += 1;
        }
        None
    }

    /// The partitions of the topic with the given UUID, in the order of the
    /// log; none for a UUID that the catalog does not know.
    pub fn get_partition(&self, topic: u128) -> (res: Vec<PartitionMetadata>)
        ensures
            res@ == self@.partitions_of(topic),
    {
        match self.partition_map.get(&topic) {
            Some(list) => slice_to_vec(list.as_slice()),
            None => Vec::new(),
        }
    }
}

} // verus!
