use kafka_wire::apikey::{supported_api_keys, ApiKey, ErrorCodes};
use kafka_wire::basics::CompactNullableString;
use kafka_wire::body::RequestBody;
use kafka_wire::connection::{
    read_frame, step, write_frame, ConnectionAction, ConnectionEvent, ConnectionState,
};
use kafka_wire::errors::KafkaErrors;
use kafka_wire::header::RequestHeader;
use kafka_wire::incoming::{
    dispatch, is_flexible, write_api_versions, write_response_header, Request,
};
use kafka_wire::metadata::Metadata;
use kafka_wire::parser::Reader;
use kafka_wire::records::{
    KafkaRecord, KafkaRecordPartitionRecord, KafkaRecordTopicRecord, KafkaRecordValue,
    RecordsBatch, KAFKA_RECORDTYPE_PARTITION, KAFKA_RECORDTYPE_TOPIC,
};

const FOO: u128 = 0x0000_0000_0000_4000_8000_0000_0000_0091;

fn catalog() -> Metadata {
    let mut values = vec![KafkaRecordValue::KafkaRecordTopicRecordType(KafkaRecordTopicRecord {
        frame_version: 1,
        frame_type: KAFKA_RECORDTYPE_TOPIC,
        version: 0,
        topic_name: b"foo".to_vec(),
        topic_uuid: FOO,
    })];
    for id in [0, 1, 4] {
        values.push(KafkaRecordValue::KafkaRecordPartitionType(KafkaRecordPartitionRecord {
            frame_version: 1,
            frame_type: KAFKA_RECORDTYPE_PARTITION,
            version: 1,
            partition_id: id,
            topic_uuid: FOO,
            replica_array: vec![1],
            insync_replica_array: vec![1],
            removing_replica_array: vec![],
            adding_replica_array: vec![],
            leader: 1,
            leader_epoch: 0,
            partition_epoch: 0,
            dir_array: vec![],
        }));
    }
    let records = values
        .into_iter()
        .map(|value| KafkaRecord {
            length: 0,
            attributes: 0,
            timestamp_delta: 0,
            offset_delta: 0,
            key_length: -1,
            key: vec![],
            value_length: 0,
            value,
            header_count: 0,
            headers: vec![],
        })
        .collect();
    let batch = RecordsBatch {
        base_offset: 0,
        batch_length: 0,
        partition_leader_epoch: 0,
        magic: 2,
        crc: 0,
        attributes: 0,
        last_offset_delta: 3,
        base_timestamp: 0,
        max_timestamp: 0,
        producer_id: -1,
        producer_epoch: -1,
        base_sequence: -1,
        rec_length: 0,
        records,
    };
    let mut log = Vec::new();
    batch.serialize(&mut log).unwrap();
    Metadata::decode(&log).unwrap()
}

fn header(api_key: i16, version: i16, correlation_id: i32) -> Vec<u8> {
    let mut out = Vec::new();
    out.extend_from_slice(&api_key.to_be_bytes());
    out.extend_from_slice(&version.to_be_bytes());
    out.extend_from_slice(&correlation_id.to_be_bytes());
    out.extend_from_slice(&[0x00, 0x09]);
    out.extend_from_slice(b"kafka-cli");
    out.push(0x00);
    out
}

fn api_versions_frame(version: i16) -> Vec<u8> {
    let mut frame = header(18, version, 7);
    frame.extend_from_slice(&[0x02, b'a', 0x00]);
    frame
}

fn advertised_keys() -> Vec<u8> {
    vec![
        0x05, //
        0x00, 0x12, 0x00, 0x00, 0x00, 0x04, 0x00, //
        0x00, 0x4B, 0x00, 0x00, 0x00, 0x00, 0x00, //
        0x00, 0x01, 0x00, 0x00, 0x00, 0x10, 0x00, //
        0x00, 0x00, 0x00, 0x00, 0x00, 0x0B, 0x00,
    ]
}

fn describe_frame(names: &[&[u8]], limit: i32, correlation_id: i32) -> Vec<u8> {
    let mut frame = header(75, 0, correlation_id);
    frame.push(names.len() as u8 + 1);
    for name in names {
        frame.push(name.len() as u8 + 1);
        frame.extend_from_slice(name);
        frame.push(0x00);
    }
    frame.extend_from_slice(&limit.to_be_bytes());
    frame.push(0xFF);
    frame.push(0x00);
    frame
}

fn described_partition(index: i32) -> Vec<u8> {
    let mut out = vec![0x00, 0x00];
    out.extend_from_slice(&index.to_be_bytes());
    out.extend_from_slice(&[0; 8]);
    out.extend_from_slice(&[0x01; 5]);
    out.push(0x00);
    out
}

#[test]
fn the_api_versions_handshake() {
    let frame = api_versions_frame(4);
    assert_eq!(frame.len(), 0x17);
    assert_eq!(&frame[..10], &[0x00, 0x12, 0x00, 0x04, 0x00, 0x00, 0x00, 0x07, 0x00, 0x09]);
    let reply = dispatch(&frame, &Metadata::new(None).unwrap()).unwrap();
    assert_eq!(reply.error, None);
    let mut expected = vec![0x00, 0x00, 0x00, 0x07, 0x00, 0x00];
    expected.extend(advertised_keys());
    expected.extend_from_slice(&[0x00, 0x00, 0x00, 0x00, 0x00]);
    assert_eq!(reply.response, expected);
}

#[test]
fn an_unsupported_version_of_api_versions() {
    let frame = api_versions_frame(0x0064);
    let reply = dispatch(&frame, &Metadata::new(None).unwrap()).unwrap();
    assert_eq!(reply.error, None);
    let mut expected = vec![0x00, 0x00, 0x00, 0x07, 0x00, 0x23];
    expected.extend(advertised_keys());
    expected.extend_from_slice(&[0x00, 0x00, 0x00, 0x00, 0x00]);
    assert_eq!(reply.response, expected);
    let reply = dispatch(&api_versions_frame(-1), &Metadata::new(None).unwrap()).unwrap();
    assert_eq!(&reply.response[4..6], &[0x00, 0x23]);
    let reply = dispatch(&api_versions_frame(0), &Metadata::new(None).unwrap()).unwrap();
    assert_eq!(&reply.response[4..6], &[0x00, 0x00]);
}

#[test]
fn the_body_of_an_api_versions_response() {
    let mut out = vec![0xAA];
    write_api_versions(&mut out, 2);
    let mut expected = vec![0xAA, 0x00, 0x00];
    expected.extend(advertised_keys());
    expected.extend_from_slice(&[0x00, 0x00, 0x00, 0x00, 0x00]);
    assert_eq!(out, expected);
    let mut out = Vec::new();
    write_api_versions(&mut out, 5);
    assert_eq!(&out[..2], &[0x00, 0x23]);
    assert_eq!(out.len(), expected.len() - 1);
}

#[test]
fn what_the_broker_advertises() {
    let keys = supported_api_keys();
    let listed: Vec<(i16, i16, i16)> = keys.iter().map(|k| (k.key, k.min, k.max)).collect();
    assert_eq!(listed, vec![(18, 0, 4), (75, 0, 0), (1, 0, 16), (0, 0, 11)]);
}

#[test]
fn describing_an_unknown_topic() {
    let frame = describe_frame(&[b"nope"], 100, 0x1122_3344);
    let reply = dispatch(&frame, &catalog()).unwrap();
    assert_eq!(reply.error, None);
    let mut expected = vec![0x11, 0x22, 0x33, 0x44, 0x00];
    expected.extend_from_slice(&[0, 0, 0, 0]);
    expected.push(0x02);
    expected.extend_from_slice(&[0x00, 0x03]);
    expected.extend_from_slice(&[0x05, b'n', b'o', b'p', b'e']);
    expected.extend_from_slice(&[0; 16]);
    expected.push(0x00);
    expected.push(0x01);
    expected.extend_from_slice(&[0x00, 0x00, 0x0D, 0xF8]);
    expected.push(0x00);
    expected.push(0xFF);
    expected.push(0x00);
    assert_eq!(reply.response, expected);
}

#[test]
fn describing_a_known_topic_within_the_limit() {
    let frame = describe_frame(&[b"foo"], 2, 9);
    let reply = dispatch(&frame, &catalog()).unwrap();
    assert_eq!(reply.error, None);
    let mut expected = vec![0, 0, 0, 9, 0x00];
    expected.extend_from_slice(&[0, 0, 0, 0]);
    expected.push(0x02);
    expected.extend_from_slice(&[0x00, 0x00]);
    expected.extend_from_slice(&[0x04, b'f', b'o', b'o']);
    expected.extend_from_slice(&FOO.to_be_bytes());
    expected.push(0x00);
    expected.push(0x03);
    expected.extend(described_partition(0));
    expected.extend(described_partition(1));
    expected.extend_from_slice(&[0x00, 0x00, 0x0D, 0xF8]);
    expected.push(0x00);
    // the cursor: the third partition of the topic, which has the index 4
    expected.extend_from_slice(&[0x04, b'f', b'o', b'o', 0, 0, 0, 4]);
    expected.push(0x00);
    assert_eq!(reply.response, expected);
}

#[test]
fn describing_a_known_topic_in_full() {
    let frame = describe_frame(&[b"foo"], 3, 9);
    let reply = dispatch(&frame, &catalog()).unwrap();
    let mut expected = vec![0, 0, 0, 9, 0x00];
    expected.extend_from_slice(&[0, 0, 0, 0]);
    expected.push(0x02);
    expected.extend_from_slice(&[0x00, 0x00]);
    expected.extend_from_slice(&[0x04, b'f', b'o', b'o']);
    expected.extend_from_slice(&FOO.to_be_bytes());
    expected.push(0x00);
    expected.push(0x04);
    expected.extend(described_partition(0));
    expected.extend(described_partition(1));
    expected.extend(described_partition(4));
    expected.extend_from_slice(&[0x00, 0x00, 0x0D, 0xF8]);
    expected.push(0x00);
    expected.push(0xFF);
    expected.push(0x00);
    assert_eq!(reply.response, expected);
}

#[test]
fn fetching_from_an_unknown_topic() {
    let mut frame = header(1, 16, 0x0A0B_0C0D);
    frame.extend_from_slice(&500_i32.to_be_bytes());
    frame.extend_from_slice(&1_i32.to_be_bytes());
    frame.extend_from_slice(&0x0320_0000_i32.to_be_bytes());
    frame.push(0);
    frame.extend_from_slice(&0x0000_0055_i32.to_be_bytes());
    frame.extend_from_slice(&0_i32.to_be_bytes());
    frame.push(0x02);
    let topic: u128 = 0x1234_5678_9ABC_DEF0_0FED_CBA9_8765_4321;
    frame.extend_from_slice(&topic.to_be_bytes());
    frame.push(0x02);
    frame.extend_from_slice(&3_i32.to_be_bytes());
    frame.extend_from_slice(&(-1_i32).to_be_bytes());
    frame.extend_from_slice(&0_i64.to_be_bytes());
    frame.extend_from_slice(&(-1_i32).to_be_bytes());
    frame.extend_from_slice(&(-1_i64).to_be_bytes());
    frame.extend_from_slice(&1_048_576_i32.to_be_bytes());
    frame.push(0x00);
    frame.push(0x00);
    frame.push(0x01);
    frame.push(0x01);
    frame.push(0x00);

    let reply = dispatch(&frame, &catalog()).unwrap();
    assert_eq!(reply.error, None);
    let mut expected = vec![0x0A, 0x0B, 0x0C, 0x0D, 0x00];
    expected.extend_from_slice(&[0, 0, 0, 0]);
    expected.extend_from_slice(&[0, 0]);
    expected.extend_from_slice(&[0, 0, 0, 0x55]);
    expected.push(0x02);
    expected.extend_from_slice(&topic.to_be_bytes());
    expected.push(0x02);
    expected.extend_from_slice(&[0, 0, 0, 3]);
    expected.extend_from_slice(&[0x00, 0x64]);
    expected.extend_from_slice(&[0; 24]);
    expected.push(0x01);
    expected.extend_from_slice(&[0, 0, 0, 0]);
    expected.push(0x01);
    expected.push(0x00);
    expected.push(0x00);
    expected.push(0x00);
    assert_eq!(reply.response, expected);
}

#[test]
fn an_old_fetch_gets_a_header_without_a_tag_buffer() {
    let mut frame = header(1, 11, 1);
    frame.extend_from_slice(&[0; 21]);
    frame.extend_from_slice(&[0x01, 0x01, 0x01, 0x00]);
    let reply = dispatch(&frame, &catalog()).unwrap();
    assert_eq!(reply.error, None);
    let mut expected = vec![0, 0, 0, 1];
    expected.extend_from_slice(&[0; 10]);
    expected.push(0x01);
    expected.push(0x00);
    assert_eq!(reply.response, expected);
}

#[test]
fn producing_to_any_partition() {
    let mut frame = header(0, 11, 0x5566_7788);
    frame.push(0x00);
    frame.extend_from_slice(&(-1_i16).to_be_bytes());
    frame.extend_from_slice(&1500_i32.to_be_bytes());
    frame.push(0x02);
    frame.extend_from_slice(&[0x04, b'f', b'o', b'o']);
    frame.push(0x02);
    frame.extend_from_slice(&2_i32.to_be_bytes());
    frame.extend_from_slice(&[0x04, 0xCA, 0xFE, 0x00]);
    frame.push(0x00);
    frame.push(0x00);

    let reply = dispatch(&frame, &catalog()).unwrap();
    assert_eq!(reply.error, None);
    let mut expected = vec![0x55, 0x66, 0x77, 0x88, 0x00];
    expected.push(0x02);
    expected.extend_from_slice(&[0x04, b'f', b'o', b'o']);
    expected.push(0x02);
    expected.extend_from_slice(&[0, 0, 0, 2]);
    expected.extend_from_slice(&[0x00, 0x03]);
    expected.extend_from_slice(&[0xFF; 24]);
    expected.push(0x01);
    expected.push(0x00);
    expected.push(0x00);
    expected.push(0x00);
    expected.extend_from_slice(&[0, 0, 0, 0]);
    expected.push(0x00);
    assert_eq!(reply.response, expected);
}

#[test]
fn a_reserved_api_key_without_a_handler() {
    let frame = header(3, 0, 0x0102_0304);
    let reply = dispatch(&frame, &catalog()).unwrap();
    assert_eq!(reply.error, Some(KafkaErrors::Unimplemented(3)));
    assert_eq!(reply.response, vec![1, 2, 3, 4]);
}

#[test]
fn a_number_that_is_no_api_key() {
    let reply = dispatch(&header(76, 0, 5), &catalog()).unwrap();
    assert_eq!(reply.error, Some(KafkaErrors::InvalidApiKey(76)));
    assert_eq!(reply.response, vec![0, 0, 0, 5]);
    let reply = dispatch(&header(-1, 0, -2), &catalog()).unwrap();
    assert_eq!(reply.error, Some(KafkaErrors::InvalidApiKey(-1)));
    assert_eq!(reply.response, vec![0xFF, 0xFF, 0xFF, 0xFE]);
}

#[test]
fn a_body_that_does_not_parse_still_gets_a_header() {
    let mut frame = header(75, 0, 0x0000_0100);
    frame.extend_from_slice(&[0x02, 0x09, b'x']);
    let reply = dispatch(&frame, &catalog()).unwrap();
    assert_eq!(reply.error, Some(KafkaErrors::UnexpectedEndOfInput));
    assert_eq!(reply.response, vec![0, 0, 1, 0, 0]);

    let mut frame = header(1, 16, 8);
    frame.extend_from_slice(&[0; 21]);
    frame.extend_from_slice(&[0x80, 0x80, 0x80, 0x80, 0x80, 0x80]);
    let reply = dispatch(&frame, &catalog()).unwrap();
    assert_eq!(reply.error, Some(KafkaErrors::MalformedVarint));
    assert_eq!(reply.response, vec![0, 0, 0, 8, 0]);
}

#[test]
fn a_header_that_is_cut_off_still_echoes_the_correlation_id() {
    let frame = header(18, 4, 0x0BAD_CAFE);
    let reply = dispatch(&frame[..12], &catalog()).unwrap();
    assert_eq!(reply.error, Some(KafkaErrors::UnexpectedEndOfInput));
    assert_eq!(reply.response, vec![0x0B, 0xAD, 0xCA, 0xFE]);
}

#[test]
fn a_frame_without_a_correlation_id_gets_no_response() {
    let frame = header(18, 4, 1);
    for cut in 0..8 {
        assert!(dispatch(&frame[..cut], &catalog()).is_none());
    }
}

#[test]
fn every_response_begins_with_the_correlation_id() {
    let md = catalog();
    let frames = vec![
        api_versions_frame(4),
        api_versions_frame(99),
        describe_frame(&[b"foo", b"nope"], 1, 0x7FFF_FFFF),
        header(42, 0, -7),
        header(300, 0, i32::MIN),
        header(75, 0, 77),
        header(1, 16, 78),
        header(0, 9, 79),
    ];
    for frame in frames {
        let reply = dispatch(&frame, &md).unwrap();
        assert_eq!(&reply.response[..4], &frame[4..8]);
    }
}

#[test]
fn requests_are_parsed_and_processed() {
    let frame = describe_frame(&[b"foo"], 1, 3);
    let mut r = Reader::new(&frame);
    let request = Request::new(&mut r).unwrap();
    assert_eq!(r.remaining(), 0);
    assert_eq!(request.header.get_correlation_id(), 3);
    assert_eq!(request.header.get_api_key(), ApiKey::DescribeTopicPartitions);
    assert_eq!(request.header.get_api_key_num(), 75);
    assert_eq!(request.header.get_api_ver(), 0);
    assert_eq!(request.header.get_client_id(), Some(b"kafka-cli".to_vec()));
    assert!(is_flexible(&request.header));
    match &request.body {
        RequestBody::DescribePartitions(p) => {
            assert_eq!(p.topics.len(), 1);
            assert_eq!(p.topics[0].name, b"foo".to_vec());
            assert_eq!(p.response_partition_limit, 1);
            assert!(p.cursor.is_none());
        }
        other => panic!("not a describe request: {:?}", other),
    }
    let mut out = vec![0xEE];
    request.process(&mut out, &catalog()).unwrap();
    assert_eq!(out[0], 0xEE);
    assert_eq!(&out[1..6], &[0, 0, 0, 3, 0]);
    assert_eq!(out[1..], dispatch(&frame, &catalog()).unwrap().response[..]);
}

#[test]
fn request_headers() {
    let frame = header(18, 3, -5);
    let mut r = Reader::new(&frame);
    let h = RequestHeader::new(&mut r).unwrap();
    assert_eq!(h.get_api_key(), ApiKey::ApiVersions);
    assert_eq!(h.get_api_ver(), 3);
    assert_eq!(h.get_correlation_id(), -5);
    assert!(!is_flexible(&h));
    let mut out = Vec::new();
    write_response_header(&mut out, &h);
    assert_eq!(out, vec![0xFF, 0xFF, 0xFF, 0xFB]);

    let no_client = [0x00, 0x00, 0x00, 0x09, 0, 0, 0, 1, 0xFF, 0xFF, 0x00];
    let mut r = Reader::new(&no_client);
    let h = RequestHeader::new(&mut r).unwrap();
    assert_eq!(h.get_api_key(), ApiKey::Produce);
    assert_eq!(h.get_client_id(), None);
    assert!(is_flexible(&h));
    let mut out = Vec::new();
    write_response_header(&mut out, &h);
    assert_eq!(out, vec![0, 0, 0, 1, 0]);

    let bad_length = [0x00, 0x12, 0x00, 0x04, 0, 0, 0, 1, 0xFF, 0xF0, 0x00];
    let mut r = Reader::new(&bad_length);
    assert_eq!(RequestHeader::new(&mut r).err(), Some(KafkaErrors::MalformedFrame));
    assert_eq!(r.remaining(), bad_length.len());
}

#[test]
fn api_keys() {
    assert_eq!(ApiKey::try_from(0), Ok(ApiKey::Produce));
    assert_eq!(ApiKey::try_from(1), Ok(ApiKey::Fetch));
    assert_eq!(ApiKey::try_from(18), Ok(ApiKey::ApiVersions));
    assert_eq!(ApiKey::try_from(75), Ok(ApiKey::DescribeTopicPartitions));
    assert_eq!(ApiKey::try_from(2), Err(KafkaErrors::Unimplemented(2)));
    assert_eq!(ApiKey::try_from(74), Err(KafkaErrors::Unimplemented(74)));
    assert_eq!(ApiKey::try_from(76), Err(KafkaErrors::InvalidApiKey(76)));
    assert_eq!(ApiKey::try_from(-1), Err(KafkaErrors::InvalidApiKey(-1)));
    assert_eq!(i16::from(ApiKey::Fetch), 1);
    assert_eq!(i16::from(ApiKey::DescribeTopicPartitions), 75);
    assert_eq!(i16::from(ErrorCodes::NoError), 0);
    assert_eq!(i16::from(ErrorCodes::UnsupportedTopicOrPartition), 3);
    assert_eq!(i16::from(ErrorCodes::UnsupportedAPIVersion), 35);
    assert_eq!(i16::from(ErrorCodes::UnknownTopicId), 100);
    let mut r = Reader::new(&[0x00, 0x12, 0x01]);
    assert_eq!(ApiKey::parse(&mut r), Ok(ApiKey::ApiVersions));
    assert_eq!(r.remaining(), 1);
    let mut r = Reader::new(&[0x00, 0x13, 0x07]);
    assert_eq!(ApiKey::parse(&mut r), Err(KafkaErrors::Unimplemented(19)));
    assert_eq!(r.remaining(), 1);
    let mut r = Reader::new(&[0x01, 0x00, 0x07]);
    assert_eq!(ApiKey::parse(&mut r), Err(KafkaErrors::InvalidApiKey(256)));
    assert_eq!(r.remaining(), 1);
    let mut r = Reader::new(&[0x00]);
    assert_eq!(ApiKey::parse(&mut r), Err(KafkaErrors::UnexpectedEndOfInput));
    assert_eq!(r.remaining(), 1);
}

#[test]
fn nullable_strings_as_values() {
    let s = CompactNullableString::from(b"ab".to_vec());
    let mut out = Vec::new();
    s.serialize(&mut out).unwrap();
    assert_eq!(out, vec![3, b'a', b'b']);
    let mut out = Vec::new();
    CompactNullableString::null().serialize(&mut out).unwrap();
    assert_eq!(out, vec![0]);
    let mut r = Reader::new(&[3, b'a', b'b', 0, 9]);
    assert_eq!(CompactNullableString::new(&mut r).unwrap().val, Some(b"ab".to_vec()));
    assert_eq!(CompactNullableString::new(&mut r).unwrap().val, None);
    assert_eq!(r.remaining(), 1);
}

#[test]
fn frames() {
    let mut out = Vec::new();
    write_frame(&mut out, &[1, 2, 3]).unwrap();
    write_frame(&mut out, &[]).unwrap();
    write_frame(&mut out, &[9]).unwrap();
    assert_eq!(out, vec![0, 0, 0, 3, 1, 2, 3, 0, 0, 0, 0, 0, 0, 0, 1, 9]);
    let mut r = Reader::new(&out);
    assert_eq!(read_frame(&mut r), Ok(vec![1, 2, 3]));
    assert_eq!(r.remaining(), 9);
    assert_eq!(read_frame(&mut r), Ok(vec![]));
    assert_eq!(read_frame(&mut r), Ok(vec![9]));
    assert_eq!(read_frame(&mut r), Err(KafkaErrors::UnexpectedEndOfInput));
    let mut r = Reader::new(&[0, 0, 0, 5, 1, 2]);
    assert_eq!(read_frame(&mut r), Err(KafkaErrors::UnexpectedEndOfInput));
    assert_eq!(r.remaining(), 6);
    let mut r = Reader::new(&[0xFF, 0xFF, 0xFF, 0xFF, 1, 2]);
    assert_eq!(read_frame(&mut r), Err(KafkaErrors::MalformedFrame));
}

#[test]
fn a_connection_from_request_to_response() {
    let md = Metadata::new(None).unwrap();
    let (state, action) = step(ConnectionState::Idle, ConnectionEvent::Ready, &md);
    assert_eq!(state, ConnectionState::ReadingSize);
    assert!(matches!(action, ConnectionAction::Read(4)));

    let (state, action) = step(state, ConnectionEvent::Data(vec![0x00, 0x00, 0x00, 0x17]), &md);
    assert_eq!(state, ConnectionState::ReadingBody(23));
    assert!(matches!(action, ConnectionAction::Read(23)));

    let (state, action) = step(state, ConnectionEvent::Data(api_versions_frame(4)), &md);
    assert_eq!(state, ConnectionState::Writing);
    match action {
        ConnectionAction::Write(bytes, error) => {
            assert_eq!(error, None);
            let body = dispatch(&api_versions_frame(4), &md).unwrap().response;
            assert_eq!(&bytes[..4], &(body.len() as i32).to_be_bytes());
            assert_eq!(&bytes[4..], &body[..]);
            assert_eq!(&bytes[4..8], &[0, 0, 0, 7]);
        }
        other => panic!("nothing to write: {:?}", other),
    }

    let (state, action) = step(state, ConnectionEvent::Ready, &md);
    assert_eq!(state, ConnectionState::ReadingSize);
    assert!(matches!(action, ConnectionAction::Read(4)));
}

#[test]
fn a_connection_goes_on_after_an_unknown_api_key() {
    let md = Metadata::new(None).unwrap();
    let frame = header(60, 0, 11);
    let (state, action) = step(
        ConnectionState::ReadingBody(frame.len()),
        ConnectionEvent::Data(frame),
        &md,
    );
    assert_eq!(state, ConnectionState::Writing);
    match action {
        ConnectionAction::Write(bytes, error) => {
            assert_eq!(bytes, vec![0, 0, 0, 4, 0, 0, 0, 11]);
            assert_eq!(error, Some(KafkaErrors::Unimplemented(60)));
        }
        other => panic!("nothing to write: {:?}", other),
    }
}

#[test]
fn a_connection_ends_behind_a_request_that_does_not_parse() {
    let md = Metadata::new(None).unwrap();
    let mut malformed = header(1, 16, 8);
    malformed.extend_from_slice(&[0; 21]);
    malformed.extend_from_slice(&[0x80, 0x80, 0x80, 0x80, 0x80, 0x80]);
    let mut cut_off = header(75, 0, 8);
    cut_off.extend_from_slice(&[0x02, 0x09, b'x']);
    let mut bad_length = header(18, 4, 8);
    bad_length[8] = 0xFF;
    bad_length[9] = 0xF0;
    let cases = vec![
        (malformed, KafkaErrors::MalformedVarint, vec![0, 0, 0, 5, 0, 0, 0, 8, 0]),
        (cut_off, KafkaErrors::UnexpectedEndOfInput, vec![0, 0, 0, 5, 0, 0, 0, 8, 0]),
        (bad_length, KafkaErrors::MalformedFrame, vec![0, 0, 0, 4, 0, 0, 0, 8]),
        (header(76, 0, 8), KafkaErrors::InvalidApiKey(76), vec![0, 0, 0, 4, 0, 0, 0, 8]),
    ];
    for (frame, expected, written) in cases {
        let (state, action) = step(
            ConnectionState::ReadingBody(frame.len()),
            ConnectionEvent::Data(frame),
            &md,
        );
        assert_eq!(state, ConnectionState::Closed);
        match action {
            ConnectionAction::Write(bytes, error) => {
                assert_eq!(bytes, written);
                assert_eq!(error, Some(expected));
            }
            other => panic!("nothing to write: {:?}", other),
        }
        let (state, action) = step(state, ConnectionEvent::Ready, &md);
        assert_eq!(state, ConnectionState::Closed);
        assert!(matches!(action, ConnectionAction::Close));
    }
}

#[test]
fn a_connection_closes() {
    let md = Metadata::new(None).unwrap();
    let closes = |state: ConnectionState, event: ConnectionEvent| {
        let (next, action) = step(state, event, &md);
        next == ConnectionState::Closed && matches!(action, ConnectionAction::Close)
    };
    assert!(closes(ConnectionState::ReadingSize, ConnectionEvent::EndOfStream));
    assert!(closes(ConnectionState::ReadingSize, ConnectionEvent::Failed));
    assert!(closes(ConnectionState::ReadingSize, ConnectionEvent::Data(vec![])));
    assert!(closes(ConnectionState::ReadingSize, ConnectionEvent::Data(vec![0, 0, 1])));
    assert!(closes(ConnectionState::ReadingSize, ConnectionEvent::Data(vec![0, 0, 0, 1, 0])));
    assert!(closes(
        ConnectionState::ReadingSize,
        ConnectionEvent::Data(vec![0x80, 0, 0, 0])
    ));
    assert!(closes(ConnectionState::ReadingSize, ConnectionEvent::Ready));
    assert!(closes(ConnectionState::ReadingBody(5), ConnectionEvent::Data(vec![1, 2, 3])));
    assert!(closes(ConnectionState::ReadingBody(5), ConnectionEvent::EndOfStream));
    assert!(closes(ConnectionState::ReadingBody(3), ConnectionEvent::Data(vec![1, 2, 3])));
    assert!(closes(ConnectionState::Writing, ConnectionEvent::Failed));
    assert!(closes(ConnectionState::Writing, ConnectionEvent::Data(vec![1])));
    assert!(closes(ConnectionState::Idle, ConnectionEvent::EndOfStream));
    assert!(closes(ConnectionState::Closed, ConnectionEvent::Ready));
    assert!(closes(ConnectionState::Closed, ConnectionEvent::Data(vec![0, 0, 0, 1])));
}

#[test]
fn a_request_of_length_zero_closes_the_connection() {
    let md = Metadata::new(None).unwrap();
    let (state, action) = step(
        ConnectionState::ReadingSize,
        ConnectionEvent::Data(vec![0, 0, 0, 0]),
        &md,
    );
    assert_eq!(state, ConnectionState::ReadingBody(0));
    assert!(matches!(action, ConnectionAction::Read(0)));
    let (state, action) = step(state, ConnectionEvent::Data(vec![]), &md);
    assert_eq!(state, ConnectionState::Closed);
    assert!(matches!(action, ConnectionAction::Close));
}

#[test]
fn a_message_too_long_for_its_length_field_is_not_sent() {
    let payload = vec![0_u8; i32::MAX as usize + 1];
    let mut out = vec![1, 2];
    assert_eq!(write_frame(&mut out, &payload), Err(KafkaErrors::InvalidWriterArg));
    assert_eq!(out, vec![1, 2]);
}
