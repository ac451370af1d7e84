use kafka_wire::writer::KafkaWrite;

#[test]
fn test_write_bytes() {
    let mut buffer: Vec<u8> = Vec::new();

    // Test with u8
    let u8_val: u8 = 123;
    u8_val.write(&mut buffer).unwrap();
    assert_eq!(&buffer, &vec![123]);
    buffer.clear();

    // Test with u16
    let u16_val: u16 = 0x1234;
    u16_val.write(&mut buffer).unwrap();
    assert_eq!(&buffer, &vec![0x12, 0x34]);
    buffer.clear();

    // Test with u32
    let u32_val: u32 = 0x12345678;
    u32_val.write(&mut buffer).unwrap();
    assert_eq!(&buffer, &vec![0x12, 0x34, 0x56, 0x78]);
    buffer.clear();

    // Test with u64
    let u64_val: u64 = 0x123456789ABCDEF0;
    u64_val.write(&mut buffer).unwrap();
    assert_eq!(
        &buffer,
        &vec![0x12, 0x34, 0x56, 0x78, 0x9A, 0xBC, 0xDE, 0xF0]
    );
    buffer.clear();

    // Test with u128
    let u128_val: u128 = 0x123456789ABCDEF0123456789ABCDEF0;
    u128_val.write(&mut buffer).unwrap();
    assert_eq!(
        &buffer,
        &vec![
            0x12, 0x34, 0x56, 0x78, 0x9A, 0xBC, 0xDE, 0xF0, 0x12, 0x34, 0x56, 0x78, 0x9A, 0xBC,
            0xDE, 0xF0
        ]
    );
    buffer.clear();
}
