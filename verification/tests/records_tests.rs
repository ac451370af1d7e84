use kafka_wire::errors::KafkaErrors;
use kafka_wire::parser::Reader;
use kafka_wire::records::{
    KafkaRecord, KafkaRecordFeature, KafkaRecordHeader, KafkaRecordPartitionRecord,
    KafkaRecordTopicRecord, KafkaRecordValue, RecordsBatch, KAFKA_RECORDTYPE_FEATURE,
    KAFKA_RECORDTYPE_PARTITION, KAFKA_RECORDTYPE_TOPIC,
};

fn topic_value(name: &[u8], uuid: u128) -> KafkaRecordValue {
    KafkaRecordValue::KafkaRecordTopicRecordType(KafkaRecordTopicRecord {
        frame_version: 1,
        frame_type: KAFKA_RECORDTYPE_TOPIC,
        version: 0,
        topic_name: name.to_vec(),
        topic_uuid: uuid,
    })
}

fn partition_value(id: i32, uuid: u128) -> KafkaRecordValue {
    KafkaRecordValue::KafkaRecordPartitionType(KafkaRecordPartitionRecord {
        frame_version: 1,
        frame_type: KAFKA_RECORDTYPE_PARTITION,
        version: 1,
        partition_id: id,
        topic_uuid: uuid,
        replica_array: vec![1],
        insync_replica_array: vec![1],
        removing_replica_array: vec![],
        adding_replica_array: vec![],
        leader: 1,
        leader_epoch: 0,
        partition_epoch: 0,
        dir_array: vec![0x1111_2222_3333_4444_5555_6666_7777_8888],
    })
}

fn record(offset_delta: i32, value: KafkaRecordValue) -> KafkaRecord {
    KafkaRecord {
        length: 0,
        attributes: 0,
        timestamp_delta: 0,
        offset_delta,
        key_length: -1,
        key: vec![],
        value_length: 0,
        value,
        header_count: 0,
        headers: vec![],
    }
}

fn batch(base_offset: u64, records: Vec<KafkaRecord>) -> RecordsBatch {
    RecordsBatch {
        base_offset,
        batch_length: 0,
        partition_leader_epoch: 1,
        magic: 2,
        crc: 0,
        attributes: 0,
        last_offset_delta: records.len() as i32 - 1,
        base_timestamp: 1_726_045_943_832,
        max_timestamp: 1_726_045_943_832,
        producer_id: -1,
        producer_epoch: -1,
        base_sequence: -1,
        rec_length: 0,
        records,
    }
}

#[test]
fn a_feature_record_on_the_wire() {
    let rec = KafkaRecordFeature {
        frame_version: 1,
        frame_type: KAFKA_RECORDTYPE_FEATURE,
        version: 0,
        name: b"metadata.version".to_vec(),
        feature_level: 20,
    };
    let mut out = Vec::new();
    rec.serialize(&mut out).unwrap();
    let mut expected = vec![1, 12, 0, 17];
    expected.extend_from_slice(b"metadata.version");
    expected.extend_from_slice(&[0, 20, 0]);
    assert_eq!(out, expected);
    assert_eq!(rec.size(), expected.len());

    let mut r = Reader::new(&out);
    let value = KafkaRecordValue::deserialize(&mut r, out.len()).unwrap();
    match value {
        KafkaRecordValue::KafkaRecordFeatureType(f) => {
            assert_eq!(f.frame_version, 1);
            assert_eq!(f.frame_type, 12);
            assert_eq!(f.version, 0);
            assert_eq!(f.name, b"metadata.version".to_vec());
            assert_eq!(f.feature_level, 20);
        }
        other => panic!("not a feature record: {:?}", other),
    }
    assert_eq!(r.remaining(), 0);
}

#[test]
fn a_feature_record_body_is_read_without_its_frame() {
    let body = [4, b'a', b'b', b'c', 0x01, 0x02, 0x00, 0x99];
    let mut r = Reader::new(&body);
    let rec = KafkaRecordFeature::deserialize(&mut r).unwrap();
    assert_eq!(rec.name, b"abc".to_vec());
    assert_eq!(rec.feature_level, 0x0102);
    assert_eq!((rec.frame_version, rec.frame_type, rec.version), (0, 0, 0));
    assert_eq!(r.remaining(), 1);
}

#[test]
fn a_topic_record_on_the_wire() {
    let rec = KafkaRecordTopicRecord {
        frame_version: 1,
        frame_type: KAFKA_RECORDTYPE_TOPIC,
        version: 0,
        topic_name: b"foo".to_vec(),
        topic_uuid: 0x0000_0000_0000_4000_8000_0000_0000_0091,
    };
    let mut out = Vec::new();
    rec.serialize(&mut out).unwrap();
    assert_eq!(
        out,
        vec![
            1, 2, 0, 4, b'f', b'o', b'o', 0, 0, 0, 0, 0, 0, 0x40, 0, 0x80, 0, 0, 0, 0, 0, 0, 0x91, 0
        ]
    );
    assert_eq!(rec.size(), 24);
    let mut r = Reader::new(&out[3..]);
    let back = KafkaRecordTopicRecord::deserialize(&mut r).unwrap();
    assert_eq!(back.topic_name, b"foo".to_vec());
    assert_eq!(back.topic_uuid, rec.topic_uuid);
}

#[test]
fn a_partition_record_round_trips() {
    let value = partition_value(7, 0xABCD);
    let mut out = Vec::new();
    value.serialize(&mut out).unwrap();
    assert_eq!(out.len(), value.size());
    // frame, id, uuid, four arrays (2 x one item, 2 x none), three ints, directories, tags
    assert_eq!(out.len(), 3 + 4 + 16 + 5 + 5 + 1 + 1 + 12 + 17 + 1);
    let mut r = Reader::new(&out);
    match KafkaRecordValue::deserialize(&mut r, out.len()).unwrap() {
        KafkaRecordValue::KafkaRecordPartitionType(p) => {
            assert_eq!(p.partition_id, 7);
            assert_eq!(p.topic_uuid, 0xABCD);
            assert_eq!(p.replica_array, vec![1]);
            assert_eq!(p.insync_replica_array, vec![1]);
            assert!(p.removing_replica_array.is_empty());
            assert!(p.adding_replica_array.is_empty());
            assert_eq!((p.leader, p.leader_epoch, p.partition_epoch), (1, 0, 0));
            assert_eq!(p.dir_array, vec![0x1111_2222_3333_4444_5555_6666_7777_8888]);
            assert_eq!((p.frame_version, p.frame_type, p.version), (1, 3, 1));
        }
        other => panic!("not a partition record: {:?}", other),
    }
    let mut r = Reader::new(&out[3..]);
    let body = KafkaRecordPartitionRecord::deserialize(&mut r).unwrap();
    assert_eq!(body.partition_id, 7);
    assert_eq!(r.remaining(), 0);
}

#[test]
fn an_unknown_frame_type_is_malformed() {
    let data = [1, 99, 0, 1, 2, 3];
    let mut r = Reader::new(&data);
    assert_eq!(
        KafkaRecordValue::deserialize(&mut r, 6).err(),
        Some(KafkaErrors::MalformedFrame)
    );
    assert_eq!(r.remaining(), 0);
    let mut r = Reader::new(&data);
    assert_eq!(
        KafkaRecordValue::deserialize(&mut r, 4).err(),
        Some(KafkaErrors::MalformedFrame)
    );
    assert_eq!(r.remaining(), 2);
}

#[test]
fn a_value_stays_within_its_declared_length() {
    // The topic record announces a name of 3 bytes, but the value has only 5 bytes in all.
    let data = [1, 2, 0, 4, b'f', b'o', b'o', 0, 0];
    let mut r = Reader::new(&data);
    assert_eq!(
        KafkaRecordValue::deserialize(&mut r, 5).err(),
        Some(KafkaErrors::UnexpectedEndOfInput)
    );
    assert_eq!(r.remaining(), 4);
    let mut r = Reader::new(&data);
    assert_eq!(
        KafkaRecordValue::deserialize(&mut r, 10).err(),
        Some(KafkaErrors::UnexpectedEndOfInput)
    );
    assert_eq!(r.remaining(), 9);
}

#[test]
fn the_value_without_content() {
    let value = KafkaRecordValue::Invalid;
    let mut out = vec![7];
    value.serialize(&mut out).unwrap();
    assert_eq!(out, vec![7]);
    assert_eq!(value.size(), 0);
}

#[test]
fn record_headers() {
    let h = KafkaRecordHeader { key: b"k".to_vec(), value: b"vv".to_vec() };
    let mut out = Vec::new();
    h.serialize(&mut out).unwrap();
    assert_eq!(out, vec![2, b'k', 3, b'v', b'v']);
    assert_eq!(h.size(), 5);
    let mut r = Reader::new(&out);
    let back = KafkaRecordHeader::deserialize(&mut r).unwrap();
    assert_eq!(back.key, b"k".to_vec());
    assert_eq!(back.value, b"vv".to_vec());
    let empty = KafkaRecordHeader::new();
    assert!(empty.key.is_empty() && empty.value.is_empty());
    assert_eq!(empty.size(), 2);
}

#[test]
fn a_record_on_the_wire() {
    let rec = KafkaRecord {
        length: 0,
        attributes: 0,
        timestamp_delta: 0,
        offset_delta: 1,
        key_length: 2,
        key: b"ab".to_vec(),
        value_length: 0,
        value: KafkaRecordValue::Invalid,
        header_count: 0,
        headers: vec![KafkaRecordHeader { key: b"k".to_vec(), value: b"v".to_vec() }],
    };
    let mut out = Vec::new();
    rec.serialize(&mut out).unwrap();
    // length 12 (zig-zag 24), attributes, two deltas, key, no value, one header
    assert_eq!(
        out,
        vec![24, 0, 0, 2, 4, b'a', b'b', 1, 2, 2, b'k', 2, b'v']
    );
    assert_eq!(rec.size(), Ok(12));
    let mut r = Reader::new(&out);
    let back = KafkaRecord::deserialize(&mut r).unwrap();
    assert_eq!(back.length, 12);
    assert_eq!(back.offset_delta, 1);
    assert_eq!(back.key_length, 2);
    assert_eq!(back.key, b"ab".to_vec());
    assert_eq!(back.value_length, -1);
    assert!(matches!(back.value, KafkaRecordValue::Invalid));
    assert_eq!(back.header_count, 1);
    assert_eq!(back.headers.len(), 1);
    assert_eq!(back.headers[0].value, b"v".to_vec());
    assert_eq!(r.remaining(), 0);
}

#[test]
fn a_record_without_a_key() {
    let rec = record(0, topic_value(b"foo", 5));
    let mut out = Vec::new();
    rec.serialize(&mut out).unwrap();
    assert_eq!(out[0], 2 * 30);
    assert_eq!(&out[1..6], &[0, 0, 0, 1, 48]);
    let mut r = Reader::new(&out);
    let back = KafkaRecord::deserialize(&mut r).unwrap();
    assert_eq!(back.key_length, -1);
    assert!(back.key.is_empty());
    assert_eq!(back.value_length, 24);
    match back.value {
        KafkaRecordValue::KafkaRecordTopicRecordType(t) => {
            assert_eq!(t.topic_name, b"foo".to_vec());
            assert_eq!(t.topic_uuid, 5);
        }
        other => panic!("not a topic record: {:?}", other),
    }
}

#[test]
fn a_record_must_declare_a_length_above_zero() {
    let mut r = Reader::new(&[0, 1, 2]);
    assert_eq!(KafkaRecord::deserialize(&mut r).err(), Some(KafkaErrors::MalformedFrame));
    let mut r = Reader::new(&[1, 1, 2]);
    assert_eq!(KafkaRecord::deserialize(&mut r).err(), Some(KafkaErrors::MalformedFrame));
    assert_eq!(r.remaining(), 3);
}

#[test]
fn a_record_cannot_run_into_what_follows_it() {
    // Declares 3 bytes; the key would need more than is inside.
    let data = [6, 0, 0, 0, 20, 1, 2, 3, 4, 5, 6, 7, 8, 9, 10];
    let mut r = Reader::new(&data);
    assert_eq!(
        KafkaRecord::deserialize(&mut r).err(),
        Some(KafkaErrors::UnexpectedEndOfInput)
    );
    // The three declared bytes are gone, and what follows them is the next record.
    assert_eq!(r.remaining(), data.len() - 4);
    // A record whose declared bytes are not all there leaves the stream where it was.
    let short = [20, 0, 0, 0];
    let mut r = Reader::new(&short);
    assert_eq!(
        KafkaRecord::deserialize(&mut r).err(),
        Some(KafkaErrors::UnexpectedEndOfInput)
    );
    assert_eq!(r.remaining(), 4);
}

#[test]
fn the_blank_record_and_batch() {
    let rec = KafkaRecord::new();
    assert_eq!(rec.headers.len(), 1);
    assert!(matches!(rec.value, KafkaRecordValue::Invalid));
    let b = RecordsBatch::new();
    assert_eq!(b.records.len(), 1);
    assert_eq!(b.base_offset, 0);
    assert_eq!(b.rec_length, 0);
    let f = KafkaRecordFeature::new();
    assert!(f.name.is_empty());
    let t = KafkaRecordTopicRecord::new();
    assert_eq!(t.topic_uuid, 0);
    let p = KafkaRecordPartitionRecord::new();
    assert!(p.dir_array.is_empty());
}

#[test]
fn a_batch_computes_its_length_and_its_checksum() {
    let b = batch(3, vec![record(0, topic_value(b"foo", 5)), record(1, partition_value(0, 5))]);
    let mut out = Vec::new();
    b.serialize(&mut out).unwrap();
    assert_eq!(&out[0..8], &3_u64.to_be_bytes());
    let declared = i32::from_be_bytes([out[8], out[9], out[10], out[11]]);
    assert_eq!(declared as usize, out.len() - 12);
    assert_eq!(b.size(), Ok(out.len() - 12));
    assert_eq!(&out[12..16], &1_i32.to_be_bytes());
    assert_eq!(out[16], 2);
    let stored = u32::from_be_bytes([out[17], out[18], out[19], out[20]]);
    assert_eq!(stored, crc32c::crc32c(&out[21..]));
    assert_eq!(b.calc_meta(), Ok((stored, declared)));
    // the record count
    assert_eq!(&out[57..61], &2_i32.to_be_bytes());
}

#[test]
fn the_checksum_of_a_known_batch() {
    let b = batch(0, vec![]);
    let mut out = Vec::new();
    b.serialize(&mut out).unwrap();
    assert_eq!(out.len(), 61);
    let tail: Vec<u8> = vec![
        0, 0, 0xFF, 0xFF, 0xFF, 0xFF, 0, 0, 0x01, 0x91, 0xE0, 0x5A, 0xF8, 0x18, 0, 0, 0x01, 0x91,
        0xE0, 0x5A, 0xF8, 0x18, 0xFF, 0xFF, 0xFF, 0xFF, 0xFF, 0xFF, 0xFF, 0xFF, 0xFF, 0xFF, 0xFF,
        0xFF, 0xFF, 0xFF, 0, 0, 0, 0,
    ];
    assert_eq!(&out[21..], &tail[..]);
    assert_eq!(&out[17..21], &crc32c::crc32c(&tail).to_be_bytes());
    assert_ne!(&out[17..21], &tail[0..4]);
}

#[test]
fn a_flipped_bit_changes_the_checksum() {
    let b = batch(0, vec![record(0, topic_value(b"foo", 5))]);
    let mut out = Vec::new();
    b.serialize(&mut out).unwrap();
    let stored = u32::from_be_bytes([out[17], out[18], out[19], out[20]]);
    for i in 21..out.len() {
        for bit in 0..8 {
            let mut damaged = out.clone();
            damaged[i] ^= 1 << bit;
            assert_ne!(crc32c::crc32c(&damaged[21..]), stored);
        }
    }
}

#[test]
fn a_batch_round_trips() {
    let b = batch(
        9,
        vec![
            record(0, topic_value(b"bar", 0x77)),
            record(1, partition_value(0, 0x77)),
            record(2, partition_value(1, 0x77)),
        ],
    );
    let mut out = Vec::new();
    b.serialize(&mut out).unwrap();
    out.extend_from_slice(&[0xAA, 0xBB]);
    let mut r = Reader::new(&out);
    let back = RecordsBatch::deserialize(&mut r).unwrap();
    assert_eq!(r.remaining(), 2);
    assert_eq!(back.base_offset, 9);
    assert_eq!(back.batch_length as usize, out.len() - 14);
    assert_eq!(back.magic, 2);
    assert_eq!(back.crc, crc32c::crc32c(&out[21..out.len() - 2]));
    assert_eq!(back.producer_id, -1);
    assert_eq!(back.base_timestamp, 1_726_045_943_832);
    assert_eq!(back.rec_length, 3);
    assert_eq!(back.records.len(), 3);
    assert_eq!(back.records[2].offset_delta, 2);
    let mut again = Vec::new();
    back.serialize(&mut again).unwrap();
    assert_eq!(&again[..], &out[..out.len() - 2]);
}

#[test]
fn a_batch_that_is_cut_off_ends_too_early() {
    let b = batch(0, vec![record(0, topic_value(b"foo", 5))]);
    let mut out = Vec::new();
    b.serialize(&mut out).unwrap();
    for cut in 0..out.len() {
        let mut r = Reader::new(&out[..cut]);
        assert_eq!(
            RecordsBatch::deserialize(&mut r).err(),
            Some(KafkaErrors::UnexpectedEndOfInput)
        );
        assert_eq!(r.remaining(), cut);
    }
}

#[test]
fn a_batch_of_negative_length_is_malformed() {
    let data = [0, 0, 0, 0, 0, 0, 0, 0, 0xFF, 0xFF, 0xFF, 0xFF, 1, 2, 3];
    let mut r = Reader::new(&data);
    assert_eq!(
        RecordsBatch::deserialize(&mut r).err(),
        Some(KafkaErrors::MalformedFrame)
    );
}

#[test]
fn a_batch_of_length_zero_ends_too_early() {
    let data = [0, 0, 0, 0, 0, 0, 0, 0, 0, 0, 0, 0, 1, 2, 3];
    let mut r = Reader::new(&data);
    assert_eq!(
        RecordsBatch::deserialize(&mut r).err(),
        Some(KafkaErrors::UnexpectedEndOfInput)
    );
}

#[test]
fn a_malformed_record_fails_its_batch_and_nothing_else() {
    let b = batch(0, vec![record(0, topic_value(b"foo", 5))]);
    let mut out = Vec::new();
    b.serialize(&mut out).unwrap();
    // the frame type of the record's value
    let at = 61 + 1 + 5 + 1;
    assert_eq!(out[at], 2);
    out[at] = 42;
    let good = batch(7, vec![record(0, topic_value(b"bar", 6))]);
    good.serialize(&mut out).unwrap();
    let mut r = Reader::new(&out);
    assert_eq!(
        RecordsBatch::deserialize(&mut r).err(),
        Some(KafkaErrors::MalformedFrame)
    );
    // The stream stands behind the batch that failed, at the batch that follows it.
    let next = RecordsBatch::deserialize(&mut r).unwrap();
    assert_eq!(next.base_offset, 7);
    assert_eq!(r.remaining(), 0);
}

#[test]
fn a_whole_frame_without_a_batch_in_it_is_consumed() {
    let data = [0, 0, 0, 0, 0, 0, 0, 0, 0, 0, 0, 4, 9, 9, 9, 9, 7];
    let mut r = Reader::new(&data);
    assert_eq!(
        RecordsBatch::deserialize(&mut r).err(),
        Some(KafkaErrors::UnexpectedEndOfInput)
    );
    assert_eq!(r.remaining(), 1);
}

#[test]
fn defaults() {
    let b = RecordsBatch::default();
    assert!(b.records.is_empty());
    assert_eq!((b.base_offset, b.batch_length, b.magic, b.crc, b.rec_length), (0, 0, 0, 0, 0));
    let r = KafkaRecord::default();
    assert!(r.headers.is_empty() && r.key.is_empty());
    assert!(matches!(r.value, KafkaRecordValue::Invalid));
    assert!(matches!(KafkaRecordValue::default(), KafkaRecordValue::Invalid));
    assert!(KafkaRecordHeader::default().key.is_empty());
    assert!(KafkaRecordFeature::default().name.is_empty());
    assert_eq!(KafkaRecordTopicRecord::default().topic_uuid, 0);
    assert!(KafkaRecordPartitionRecord::default().replica_array.is_empty());
}
