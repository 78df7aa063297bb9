use message_relay::byte_order::ByteOrder;

#[test]
fn big_endian_length_field() {
    assert_eq!(ByteOrder::BigEndian.write_length(1_000_000), [0x00, 0x0f, 0x42, 0x40]);
    assert_eq!(ByteOrder::BigEndian.write_length(27), [0, 0, 0, 27]);
    assert_eq!(ByteOrder::BigEndian.write_length(u32::MAX), [0xff, 0xff, 0xff, 0xff]);
}

#[test]
fn little_endian_length_field() {
    assert_eq!(ByteOrder::LittleEndian.write_length(1_000_000), [0x40, 0x42, 0x0f, 0x00]);
    assert_eq!(ByteOrder::LittleEndian.write_length(27), [27, 0, 0, 0]);
    assert_eq!(ByteOrder::LittleEndian.write_length(0), [0, 0, 0, 0]);
}

#[test]
fn length_field_reads_back_in_its_own_order() {
    for n in [0u32, 1, 27, 255, 256, 65_535, 65_536, 1_000_000, 0x0102_0304, u32::MAX] {
        for order in [ByteOrder::BigEndian, ByteOrder::LittleEndian] {
            assert_eq!(order.read_length(&order.write_length(n)), n);
        }
    }
}

#[test]
fn read_length_takes_the_bytes_in_order() {
    let field = [0x01, 0x02, 0x03, 0x04];
    assert_eq!(ByteOrder::BigEndian.read_length(&field), 0x0102_0304);
    assert_eq!(ByteOrder::LittleEndian.read_length(&field), 0x0403_0201);
}

#[test]
fn the_other_order_reads_the_length_reversed() {
    let field = ByteOrder::BigEndian.write_length(100);
    assert_eq!(ByteOrder::LittleEndian.read_length(&field), 0x6400_0000);
    let field = ByteOrder::LittleEndian.write_length(0x0102_0304);
    assert_eq!(ByteOrder::BigEndian.read_length(&field), 0x0403_0201);
}

#[test]
fn symmetric_lengths_look_the_same_in_both_orders() {
    for n in [0u32, 0x0100_0001, 0x0102_0201, 0xffff_ffff] {
        assert_eq!(
            ByteOrder::BigEndian.write_length(n),
            ByteOrder::LittleEndian.write_length(n)
        );
    }
    assert_ne!(
        ByteOrder::BigEndian.write_length(0x0102_0301),
        ByteOrder::LittleEndian.write_length(0x0102_0301)
    );
}

#[test]
fn probe_decides_the_order() {
    assert_eq!(ByteOrder::from_probe(1), ByteOrder::BigEndian);
    assert_eq!(ByteOrder::from_probe(0x0100_0000), ByteOrder::LittleEndian);
}

#[test]
fn native_order_is_that_of_the_machine() {
    let native = ByteOrder::native();
    assert_eq!(native.write_length(0x0102_0304), 0x0102_0304u32.to_ne_bytes());
    assert_eq!(native.read_length(&[1, 2, 3, 4]), u32::from_ne_bytes([1, 2, 3, 4]));
}
