use soundtransfer::protocol::{Header, PacketType, WireFormat, HEADER_LEN};

fn sample_header() -> Header {
    Header {
        ptype: PacketType::Audio,
        channels: 2,
        format: WireFormat::S16le,
        sample_rate: 48000,
        seq: 0xDEAD_BEEF,
        sample_pos: 0x1122_3344_5566_7788,
    }
}

#[test]
fn round_trip() {
    let h = sample_header();
    let mut buf = [0u8; HEADER_LEN];
    h.write(&mut buf);
    assert_eq!(Header::parse(&buf), Some(h));
}

#[test]
fn rejects_bad_magic() {
    let mut buf = [0u8; HEADER_LEN];
    sample_header().write(&mut buf);
    buf[0] = b'X';
    assert_eq!(Header::parse(&buf), None);
}

#[test]
fn rejects_bad_version() {
    let mut buf = [0u8; HEADER_LEN];
    sample_header().write(&mut buf);
    buf[4] = 99;
    assert_eq!(Header::parse(&buf), None);
}

#[test]
fn rejects_short_buffer() {
    let mut buf = [0u8; HEADER_LEN];
    sample_header().write(&mut buf);
    assert_eq!(Header::parse(&buf[..HEADER_LEN - 1]), None);
}

#[test]
fn rejects_unknown_ptype_and_format() {
    let mut buf = [0u8; HEADER_LEN];
    sample_header().write(&mut buf);
    buf[5] = 42;
    assert_eq!(Header::parse(&buf), None);
    sample_header().write(&mut buf);
    buf[7] = 42;
    assert_eq!(Header::parse(&buf), None);
}

#[test]
fn header_bytes_are_laid_out_little_endian() {
    let mut buf = [0xAAu8; HEADER_LEN + 2];
    sample_header().write(&mut buf);
    let expected: [u8; 26] = [
        b'S', b'N', b'D', b'1', 1, 0, 2, 0, 0x80, 0xBB, 0, 0, 0xEF, 0xBE, 0xAD, 0xDE, 0x88, 0x77,
        0x66, 0x55, 0x44, 0x33, 0x22, 0x11, 0xAA, 0xAA,
    ];
    assert_eq!(buf, expected);
}

#[test]
fn codes_of_types_and_formats() {
    for v in 0u8..=255 {
        match PacketType::from_u8(v) {
            Some(p) => assert_eq!(p.as_u8(), v),
            None => assert!(v > 2),
        }
        match WireFormat::from_u8(v) {
            Some(f) => assert_eq!(f.as_u8(), v),
            None => assert!(v > 1),
        }
    }
    assert_eq!(WireFormat::S16le.bytes_per_sample(), 2);
    assert_eq!(WireFormat::F32le.bytes_per_sample(), 4);
}

#[test]
fn what_is_read_is_written_again() {
    let mut bytes = b"SND1\x01\x02\x06\x01".to_vec();
    bytes.extend(1u8..=16);
    let header = Header::parse(&bytes).unwrap();
    let mut again = vec![0xEEu8; HEADER_LEN + 2];
    header.write(&mut again);
    assert_eq!(&again[..HEADER_LEN], &bytes[..]);
    assert_eq!(&again[HEADER_LEN..], &[0xEE, 0xEE]);
}
