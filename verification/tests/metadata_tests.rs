use kafka_wire::errors::KafkaErrors;
use kafka_wire::metadata::{read_log, same_bytes, Metadata, PartitionMetadata, TopicMetadata};
use kafka_wire::records::{
    KafkaRecord, KafkaRecordFeature, KafkaRecordPartitionRecord, KafkaRecordTopicRecord,
    KafkaRecordValue, RecordsBatch, KAFKA_RECORDTYPE_FEATURE, KAFKA_RECORDTYPE_PARTITION,
    KAFKA_RECORDTYPE_TOPIC,
};

fn feature_value() -> KafkaRecordValue {
    KafkaRecordValue::KafkaRecordFeatureType(KafkaRecordFeature {
        frame_version: 1,
        frame_type: KAFKA_RECORDTYPE_FEATURE,
        version: 0,
        name: b"metadata.version".to_vec(),
        feature_level: 20,
    })
}

fn topic_value(name: &[u8], uuid: u128) -> KafkaRecordValue {
    KafkaRecordValue::KafkaRecordTopicRecordType(KafkaRecordTopicRecord {
        frame_version: 1,
        frame_type: KAFKA_RECORDTYPE_TOPIC,
        version: 0,
        topic_name: name.to_vec(),
        topic_uuid: uuid,
    })
}

fn partition_value(id: i32, uuid: u128) -> KafkaRecordValue {
    KafkaRecordValue::KafkaRecordPartitionType(KafkaRecordPartitionRecord {
        frame_version: 1,
        frame_type: KAFKA_RECORDTYPE_PARTITION,
        version: 1,
        partition_id: id,
        topic_uuid: uuid,
        replica_array: vec![1],
        insync_replica_array: vec![1],
        removing_replica_array: vec![],
        adding_replica_array: vec![],
        leader: 1,
        leader_epoch: 0,
        partition_epoch: 0,
        dir_array: vec![9],
    })
}

fn batch(base_offset: u64, values: Vec<KafkaRecordValue>) -> Vec<u8> {
    let mut records = Vec::new();
    for (i, value) in values.into_iter().enumerate() {
        records.push(KafkaRecord {
            length: 0,
            attributes: 0,
            timestamp_delta: 0,
            offset_delta: i as i32,
            key_length: -1,
            key: vec![],
            value_length: 0,
            value,
            header_count: 0,
            headers: vec![],
        });
    }
    let b = RecordsBatch {
        base_offset,
        batch_length: 0,
        partition_leader_epoch: 1,
        magic: 2,
        crc: 0,
        attributes: 0,
        last_offset_delta: 0,
        base_timestamp: 0,
        max_timestamp: 0,
        producer_id: -1,
        producer_epoch: -1,
        base_sequence: -1,
        rec_length: 0,
        records,
    };
    let mut out = Vec::new();
    b.serialize(&mut out).unwrap();
    out
}

const FOO: u128 = 0x0000_0000_0000_4000_8000_0000_0000_0091;
const BAR: u128 = 0x0000_0000_0000_4000_8000_0000_0000_0092;

fn sample_log() -> (Vec<u8>, Vec<usize>) {
    let mut log = Vec::new();
    let mut ends = Vec::new();
    log.extend(batch(0, vec![feature_value()]));
    ends.push(log.len());
    log.extend(batch(
        1,
        vec![topic_value(b"foo", FOO), partition_value(0, FOO), partition_value(1, FOO)],
    ));
    ends.push(log.len());
    log.extend(batch(
        4,
        vec![topic_value(b"bar", BAR), partition_value(5, BAR), partition_value(2, FOO)],
    ));
    ends.push(log.len());
    (log, ends)
}

#[test]
fn no_file_gives_the_empty_catalog() {
    let md = Metadata::new(None).unwrap();
    assert!(md.topic_map.is_empty());
    assert!(md.partition_map.is_empty());
    assert!(md.records.is_empty());
    assert!(md.get_topic(FOO).is_none());
    assert!(md.get_topic_by_name(b"foo").is_none());
    assert!(md.get_partition(FOO).is_empty());
}

#[test]
fn the_default_catalog_is_empty() {
    let md = Metadata::default();
    assert!(md.topic_map.is_empty());
    assert!(md.topic_order.is_empty());
    assert!(md.partition_map.is_empty());
    assert!(md.records.is_empty());
    let t = TopicMetadata::default();
    assert_eq!((t.uuid, t.record_id1, t.record_id2), (0, 0, 0));
    assert!(t.topic_name.is_empty());
    let p = PartitionMetadata::default();
    assert_eq!((p.partition_id, p.topic_uuid, p.record_id1, p.record_id2), (0, 0, 0, 0));
}

#[test]
fn an_empty_file_gives_the_empty_catalog() {
    let md = Metadata::new(Some(&[])).unwrap();
    assert!(md.topic_map.is_empty());
    assert!(md.records.is_empty());
}

#[test]
fn the_catalog_of_a_log() {
    let (log, _) = sample_log();
    let md = Metadata::new(Some(&log)).unwrap();
    assert_eq!(md.records.len(), 3);
    assert_eq!(md.topic_map.len(), 2);
    assert_eq!(md.topic_order, vec![FOO, BAR]);

    let foo = md.get_topic(FOO).unwrap();
    assert_eq!(foo.topic_name, b"foo".to_vec());
    assert_eq!(foo.uuid, FOO);
    assert_eq!((foo.record_id1, foo.record_id2), (1, 0));
    let bar = md.get_topic_by_name(b"bar").unwrap();
    assert_eq!(bar.uuid, BAR);
    assert_eq!((bar.record_id1, bar.record_id2), (2, 0));
    assert!(md.get_topic_by_name(b"baz").is_none());
    assert!(md.get_topic(7).is_none());

    let parts = md.get_partition(FOO);
    let ids: Vec<i32> = parts.iter().map(|p| p.partition_id).collect();
    assert_eq!(ids, vec![0, 1, 2]);
    let places: Vec<(usize, usize)> = parts.iter().map(|p| (p.record_id1, p.record_id2)).collect();
    assert_eq!(places, vec![(1, 1), (1, 2), (2, 2)]);
    assert!(parts.iter().all(|p| p.topic_uuid == FOO));
    let parts = md.get_partition(BAR);
    assert_eq!(parts.len(), 1);
    assert_eq!(parts[0].partition_id, 5);
    assert!(md.get_partition(12345).is_empty());
}

#[test]
fn decode_is_new_on_a_file() {
    let (log, _) = sample_log();
    let md = Metadata::decode(&log).unwrap();
    assert_eq!(md.records.len(), 3);
    assert_eq!(md.get_partition(FOO).len(), 3);
}

#[test]
fn a_later_topic_record_replaces_an_earlier_one() {
    let mut log = batch(0, vec![topic_value(b"old", FOO), topic_value(b"other", BAR)]);
    log.extend(batch(2, vec![topic_value(b"new", FOO)]));
    let md = Metadata::decode(&log).unwrap();
    assert_eq!(md.topic_map.len(), 2);
    assert_eq!(md.topic_order, vec![FOO, BAR]);
    let topic = md.get_topic(FOO).unwrap();
    assert_eq!(topic.topic_name, b"new".to_vec());
    assert_eq!((topic.record_id1, topic.record_id2), (1, 0));
    assert!(md.get_topic_by_name(b"old").is_none());
    assert_eq!(md.get_topic_by_name(b"new").unwrap().uuid, FOO);
}

#[test]
fn of_two_topics_with_one_name_the_first_is_found() {
    let log = batch(0, vec![topic_value(b"twin", BAR), topic_value(b"twin", FOO)]);
    let md = Metadata::decode(&log).unwrap();
    assert_eq!(md.get_topic_by_name(b"twin").unwrap().uuid, BAR);
}

#[test]
fn partitions_of_a_topic_that_was_never_declared_are_kept() {
    let log = batch(0, vec![partition_value(3, 42)]);
    let md = Metadata::decode(&log).unwrap();
    assert!(md.get_topic(42).is_none());
    assert_eq!(md.get_partition(42).len(), 1);
}

#[test]
fn a_log_that_is_cut_off_scans_to_its_whole_batches() {
    let (log, ends) = sample_log();
    for cut in 0..=log.len() {
        let batches = read_log(&log[..cut]).unwrap();
        let whole = ends.iter().filter(|&&end| end <= cut).count();
        assert_eq!(batches.len(), whole, "cut at {}", cut);
        let md = Metadata::decode(&log[..cut]).unwrap();
        assert_eq!(md.records.len(), whole);
        if whole >= 2 {
            assert!(md.get_topic_by_name(b"foo").is_some());
        } else {
            assert!(md.get_topic_by_name(b"foo").is_none());
        }
    }
}

#[test]
fn the_scan_keeps_the_batches_in_order() {
    let (log, _) = sample_log();
    let batches = read_log(&log).unwrap();
    let offsets: Vec<u64> = batches.iter().map(|b| b.base_offset).collect();
    assert_eq!(offsets, vec![0, 1, 4]);
}

#[test]
fn a_batch_of_length_zero_ends_the_scan() {
    let (mut log, _) = sample_log();
    log.extend_from_slice(&[0, 0, 0, 0, 0, 0, 0, 9, 0, 0, 0, 0]);
    log.extend(batch(9, vec![topic_value(b"late", 1)]));
    let md = Metadata::decode(&log).unwrap();
    assert_eq!(md.records.len(), 3);
    assert!(md.get_topic_by_name(b"late").is_none());
}

#[test]
fn a_malformed_batch_fails_the_scan() {
    let (mut log, _) = sample_log();
    log.extend_from_slice(&[0, 0, 0, 0, 0, 0, 0, 9, 0x80, 0, 0, 0]);
    assert_eq!(read_log(&log).err(), Some(KafkaErrors::MalformedFrame));
    assert_eq!(Metadata::decode(&log).err(), Some(KafkaErrors::MalformedFrame));
    assert_eq!(Metadata::new(Some(&log)).err(), Some(KafkaErrors::MalformedFrame));
}

#[test]
fn an_unknown_record_type_fails_the_scan() {
    let mut log = batch(0, vec![topic_value(b"foo", FOO)]);
    let at = 61 + 1 + 5 + 1;
    assert_eq!(log[at], 2);
    log[at] = 21;
    assert_eq!(Metadata::decode(&log).err(), Some(KafkaErrors::MalformedFrame));
}

#[test]
fn comparing_bytes() {
    assert!(same_bytes(b"", b""));
    assert!(same_bytes(b"abc", b"abc"));
    assert!(!same_bytes(b"abc", b"abd"));
    assert!(!same_bytes(b"abc", b"ab"));
}
