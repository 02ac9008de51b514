use pinnacle::bytes::{
    le16_bytes, le32_bytes, read_be16, read_be32, read_le16, read_le32, read_le64,
};

#[test]
fn little_endian_numbers_are_written_and_read() {
    assert_eq!(le16_bytes(0x1234), [0x34, 0x12]);
    assert_eq!(le32_bytes(0x1234_5678), [0x78, 0x56, 0x34, 0x12]);
    let bytes = [0xff, 0x01, 0x02, 0x03, 0x04, 0x05, 0x06, 0x07, 0x08];
    assert_eq!(read_le16(&bytes, 1), 0x0201);
    assert_eq!(read_le32(&bytes, 1), 0x0403_0201);
    assert_eq!(read_le64(&bytes, 1), 0x0807_0605_0403_0201);
}

#[test]
fn big_endian_numbers_are_read() {
    let bytes = [0xff, 0x01, 0x02, 0x03, 0x04];
    assert_eq!(read_be16(&bytes, 1), 0x0102);
    assert_eq!(read_be32(&bytes, 1), 0x0102_0304);
    assert_eq!(read_be32(&[0xff; 4], 0), u32::MAX);
}
