use parse_tcp::encoding::{read_varint, varint_size, write_varint};
use parse_tcp::frame::{StreamData, StreamWindowLimit};
use parse_tcp::frame_encoding::{
    read_varint4, read_varint8, varint4_size, varint8_size, write_varint4, write_varint8,
};

#[test]
fn varint_test() {
    let mut buf: Vec<u8> = vec![0, 5, 5, 5, 5, 5, 5, 5];
    assert_eq!(varint_size(0), Some(1));
    assert_eq!(write_varint(&mut buf, 0, 0), Some(1));
    assert_eq!(buf, [0u8, 5, 5, 5, 5, 5, 5, 5]);
    assert_eq!(read_varint(&buf, 0), Some((0, 1)));

    assert_eq!(varint_size(16), Some(1));
    assert_eq!(write_varint(&mut buf, 0, 16), Some(1));
    assert_eq!(buf, [16u8, 5, 5, 5, 5, 5, 5, 5]);
    assert_eq!(read_varint(&buf, 0), Some((16, 1)));

    assert_eq!(varint_size(128), Some(2));
    assert_eq!(write_varint(&mut buf, 0, 128), Some(2));
    assert_eq!(buf, [64u8, 128, 5, 5, 5, 5, 5, 5]);
    assert_eq!(read_varint(&buf, 0), Some((128, 2)));

    assert_eq!(varint_size(57_829_138), Some(4));
    assert_eq!(write_varint(&mut buf, 0, 57_829_138), Some(4));
    assert_eq!(buf, [0x83u8, 0x72, 0x67, 0x12, 5, 5, 5, 5]);
    assert_eq!(read_varint(&buf, 0), Some((57_829_138, 4)));

    assert_eq!(varint_size(3_933_194_752_826_327_366), Some(8));
    assert_eq!(write_varint(&mut buf, 0, 3_933_194_752_826_327_366), Some(8));
    assert_eq!(buf, [0xf6u8, 0x95, 0x83, 0xc9, 0xea, 0xa4, 0xc1, 0x46]);
    assert_eq!(read_varint(&buf, 0), Some((3_933_194_752_826_327_366, 8)));
}

#[test]
fn varint8_test() {
    let mut buf: Vec<u8> = vec![0, 5, 5, 5, 5, 5, 5, 5];
    assert_eq!(varint8_size(0), Some(1));
    assert_eq!(write_varint8(&mut buf, 0, 0), Some(1));
    assert_eq!(buf, [0u8, 5, 5, 5, 5, 5, 5, 5]);
    assert_eq!(read_varint8(&buf, 0), Some((0, 1)));

    assert_eq!(varint8_size(16), Some(1));
    assert_eq!(write_varint8(&mut buf, 0, 16), Some(1));
    assert_eq!(buf, [16u8, 5, 5, 5, 5, 5, 5, 5]);
    assert_eq!(read_varint8(&buf, 0), Some((16, 1)));

    assert_eq!(varint8_size(128), Some(2));
    assert_eq!(write_varint8(&mut buf, 0, 128), Some(2));
    assert_eq!(buf, [64u8, 128, 5, 5, 5, 5, 5, 5]);
    assert_eq!(read_varint8(&buf, 0), Some((128, 2)));

    assert_eq!(varint8_size(57_829_138), Some(4));
    assert_eq!(write_varint8(&mut buf, 0, 57_829_138), Some(4));
    assert_eq!(buf, [0x83u8, 0x72, 0x67, 0x12, 5, 5, 5, 5]);
    assert_eq!(read_varint8(&buf, 0), Some((57_829_138, 4)));

    assert_eq!(varint8_size(3_933_194_752_826_327_366), Some(8));
    assert_eq!(write_varint8(&mut buf, 0, 3_933_194_752_826_327_366), Some(8));
    assert_eq!(buf, [0xf6u8, 0x95, 0x83, 0xc9, 0xea, 0xa4, 0xc1, 0x46]);
    assert_eq!(read_varint8(&buf, 0), Some((3_933_194_752_826_327_366, 8)));

    assert_eq!(varint8_size(9_000_000_000_000_000_000), None);
}

#[test]
fn varint4_test() {
    let mut buf: Vec<u8> = vec![0, 5, 5, 5, 5, 5, 5, 5];
    assert_eq!(varint4_size(0), Some(1));
    assert_eq!(write_varint4(&mut buf, 0, 0), Some(1));
    assert_eq!(buf, [0u8, 5, 5, 5, 5, 5, 5, 5]);
    assert_eq!(read_varint4(&buf, 0), Some((0, 1)));

    assert_eq!(varint4_size(16), Some(1));
    assert_eq!(write_varint4(&mut buf, 0, 16), Some(1));
    assert_eq!(buf, [16u8, 5, 5, 5, 5, 5, 5, 5]);
    assert_eq!(read_varint4(&buf, 0), Some((16, 1)));

    assert_eq!(varint4_size(128), Some(2));
    assert_eq!(write_varint4(&mut buf, 0, 128), Some(2));
    assert_eq!(buf, [64u8, 128, 5, 5, 5, 5, 5, 5]);
    assert_eq!(read_varint4(&buf, 0), Some((128, 2)));

    assert_eq!(varint4_size(57_829_138), Some(4));
    assert_eq!(write_varint4(&mut buf, 0, 57_829_138), Some(4));
    assert_eq!(buf, [0x83u8, 0x72, 0x67, 0x12, 5, 5, 5, 5]);
    assert_eq!(read_varint4(&buf, 0), Some((57_829_138, 4)));

    assert_eq!(varint4_size(2_118_699_314), Some(4));
    assert_eq!(write_varint4(&mut buf, 0, 2_118_699_314), Some(4));
    assert_eq!(buf, [0xfeu8, 0x48, 0xc9, 0x32, 5, 5, 5, 5]);
    assert_eq!(read_varint4(&buf, 0), Some((2_118_699_314, 4)));

    assert_eq!(varint4_size(2_147_483_648), None);
}

#[test]
fn stream_data() {
    let frame = StreamData {
        stream_id: 16384,
        stream_offset: 32768,
        message_offset: Some(4),
        data: vec![0, 1, 1, 2, 3, 5, 7, 12, 19, 31],
    };
    let length = frame.serialized_length();
    let mut buf = vec![0u8; length];
    assert_eq!(frame.write(&mut buf), length);
    let (length2, frame2) = StreamData::read(&buf).unwrap();
    assert_eq!(length, length2);
    assert_eq!(frame.stream_id, frame2.stream_id);
    assert_eq!(frame.stream_offset, frame2.stream_offset);
    assert_eq!(frame.message_offset, frame2.message_offset);
    assert_eq!(frame.data, frame2.data);
}

#[test]
fn stream_limit() {
    let frame = StreamWindowLimit { stream_id: 38174897, limit: 993989418939 };
    let length = frame.serialized_length();
    let mut buf = vec![0u8; length];
    assert_eq!(frame.write(&mut buf), length);
    let (length2, frame2) = StreamWindowLimit::read(&buf).unwrap();
    assert_eq!(length, length2);
    assert_eq!(frame.stream_id, frame2.stream_id);
    assert_eq!(frame.limit, frame2.limit);
}
