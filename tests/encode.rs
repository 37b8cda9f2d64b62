use cbor_event::encode::{EncodeError, Encoder};
use cbor_event::event::Event;

#[test]
fn test_encode_head_with_argument() {
    let mut buf = Vec::<u8>::new();
    let mut enc = Encoder::new(&mut buf);

    enc.encode_head_with_argument(0x20, 23);
    enc.encode_head_with_argument(0xA0, 0x6B);
    enc.encode_head_with_argument(0x40, 0x6A35);
    enc.encode_head_with_argument(0x60, 0x0614_82FA);
    enc.encode_head_with_argument(0x80, 0xDEC9_E143_001A_BA53);

    assert_eq!(
        buf,
        [
            0x37, 0xB8, 0x6B, 0x59, 0x6A, 0x35, 0x7A, 0x06, 0x14, 0x82, 0xFA, 0x9B, 0xDE, 0xC9,
            0xE1, 0x43, 0x00, 0x1A, 0xBA, 0x53
        ]
    );
}

#[test]
fn test_encode_bytes() {
    let mut buf = Vec::<u8>::new();
    let mut enc = Encoder::new(&mut buf);

    enc.encode_bytes(&[0x01, 0x1E, 0x53]);
    enc.encode_bytes(&[0x7C]);

    assert_eq!(buf, [0x01, 0x1E, 0x53, 0x7C]);
}

#[test]
fn test_encode_event_integer() {
    let mut buf = Vec::<u8>::new();
    let mut enc = Encoder::new(&mut buf);

    let _ = enc.encode_event(&Event::UnsignedInteger(0x04));
    let _ = enc.encode_event(&Event::UnsignedInteger(0xA1));
    let _ = enc.encode_event(&Event::UnsignedInteger(0x087B));
    let _ = enc.encode_event(&Event::NegativeInteger(0x4CEB_716E));
    let _ = enc.encode_event(&Event::NegativeInteger(0xC1C0_067D_BA82_C53F));

    assert_eq!(
        buf,
        [
            0x04, 0x18, 0xA1, 0x19, 0x08, 0x7B, 0x3A, 0x4C, 0xEB, 0x71, 0x6E, 0x3B, 0xC1, 0xC0,
            0x06, 0x7D, 0xBA, 0x82, 0xC5, 0x3F
        ]
    );
}

#[test]
fn test_encode_event_string() {
    let mut buf = Vec::<u8>::new();
    let mut enc = Encoder::new(&mut buf);

    let _ = enc.encode_event(&Event::ByteString(&[0x3C, 0x6A]));
    let _ = enc.encode_event(&Event::TextString(&[0x61, 0x62, 0x63]));
    let _ = enc.encode_event(&Event::IndefiniteByteString);
    let _ = enc.encode_event(&Event::IndefiniteTextString);

    assert_eq!(buf, [0x42, 0x3C, 0x6A, 0x63, 0x61, 0x62, 0x63, 0x5F, 0x7F]);
}

#[test]
fn test_encode_event_array_map() {
    let mut buf = Vec::<u8>::new();
    let mut enc = Encoder::new(&mut buf);

    let _ = enc.encode_event(&Event::Array(0xAC));
    let _ = enc.encode_event(&Event::Mapping(0x09));
    let _ = enc.encode_event(&Event::IndefiniteArray);
    let _ = enc.encode_event(&Event::IndefiniteMap);

    assert_eq!(buf, [0x98, 0xAC, 0xA9, 0x9F, 0xBF]);
}

#[test]
fn test_encode_event_tag() {
    let mut buf = Vec::<u8>::new();
    let mut enc = Encoder::new(&mut buf);

    let _ = enc.encode_event(&Event::Tag(0x37A5));

    assert_eq!(buf, [0xD9, 0x37, 0xA5]);
}

#[test]
fn test_encode_event_simple() {
    let mut buf = Vec::<u8>::new();
    let mut enc = Encoder::new(&mut buf);

    let _ = enc.encode_event(&Event::Simple(10));
    let _ = enc.encode_event(&Event::Simple(0x5C));

    assert_eq!(buf, [0xEA, 0xF8, 0x5C]);
}

#[test]
fn test_encode_event_float() {
    let mut buf = Vec::<u8>::new();
    let mut enc = Encoder::new(&mut buf);

    let _ = enc.encode_event(&Event::Float(&[0xFC, 0x00]));
    let _ = enc.encode_event(&Event::Float(&[0xFF, 0x80, 0x00, 0x00]));
    let _ = enc.encode_event(&Event::Float(&[0xFF, 0xF0, 0x00, 0x00, 0x00, 0x00, 0x00, 0x00]));

    assert_eq!(
        buf,
        [
            0xF9, 0xFC, 0x00, 0xFA, 0xFF, 0x80, 0x00, 0x00, 0xFB, 0xFF, 0xF0, 0x00, 0x00, 0x00,
            0x00, 0x00, 0x00
        ]
    );
}

#[test]
fn test_encode_event_break() {
    let mut buf = Vec::<u8>::new();
    let mut enc = Encoder::new(&mut buf);

    let _ = enc.encode_event(&Event::Break);

    assert_eq!(buf, [0xFF]);
}

#[test]
fn test_encode_event_end() {
    let mut buf = Vec::<u8>::new();
    let mut enc = Encoder::new(&mut buf);

    let _ = enc.encode_event(&Event::End);

    assert_eq!(buf, []);
}

fn encode_one(event: &Event) -> (Result<(), EncodeError>, Vec<u8>) {
    let mut buf = Vec::<u8>::new();
    let mut enc = Encoder::new(&mut buf);
    let r = enc.encode_event(event);
    (r, buf)
}

#[test]
fn encode_shortest_header_widths() {
    let cases: [(u64, usize); 8] = [
        (23, 1),
        (24, 2),
        (255, 2),
        (256, 3),
        (65535, 3),
        (65536, 5),
        (0xFFFF_FFFF, 5),
        (0x1_0000_0000, 9),
    ];
    for (arg, width) in cases {
        let (r, bytes) = encode_one(&Event::UnsignedInteger(arg));
        assert_eq!(r, Ok(()));
        assert_eq!(bytes.len(), width, "argument {}", arg);
    }
    assert_eq!(encode_one(&Event::UnsignedInteger(24)).1, [0x18, 0x18]);
    assert_eq!(encode_one(&Event::Tag(256)).1, [0xD9, 0x01, 0x00]);
    assert_eq!(
        encode_one(&Event::Array(0x1_0000_0000)).1,
        [0x9B, 0x00, 0x00, 0x00, 0x01, 0x00, 0x00, 0x00, 0x00]
    );
    assert_eq!(
        encode_one(&Event::UnsignedInteger(u64::MAX)).1,
        [0x1B, 0xFF, 0xFF, 0xFF, 0xFF, 0xFF, 0xFF, 0xFF, 0xFF]
    );
}

#[test]
fn encode_simple_value_boundary() {
    assert_eq!(encode_one(&Event::Simple(23)), (Ok(()), vec![0xF7]));
    for v in 24..=31u8 {
        assert_eq!(
            encode_one(&Event::Simple(v)),
            (Err(EncodeError::ReservedSimpleValue), vec![])
        );
    }
    assert_eq!(encode_one(&Event::Simple(32)), (Ok(()), vec![0xF8, 0x20]));
    assert_eq!(encode_one(&Event::Simple(255)), (Ok(()), vec![0xF8, 0xFF]));
}

#[test]
fn encode_float_width_boundary() {
    assert_eq!(
        encode_one(&Event::Float(&[0x00, 0x00, 0x00])),
        (Err(EncodeError::InvalidFloatWidth), vec![])
    );
    assert_eq!(
        encode_one(&Event::Float(&[0x01])),
        (Err(EncodeError::InvalidFloatWidth), vec![])
    );
    assert_eq!(
        encode_one(&Event::Float(&[])),
        (Err(EncodeError::InvalidFloatWidth), vec![])
    );
    let (r, bytes) = encode_one(&Event::Float(&[0x3C, 0x00]));
    assert_eq!(r, Ok(()));
    assert_eq!(bytes[0] & 0x1F, 25);
    let (r, bytes) = encode_one(&Event::Float(&[0x3F, 0x80, 0x00, 0x00]));
    assert_eq!(r, Ok(()));
    assert_eq!(bytes[0] & 0x1F, 26);
    let (r, bytes) = encode_one(&Event::Float(&[0x3F, 0xF0, 0, 0, 0, 0, 0, 0]));
    assert_eq!(r, Ok(()));
    assert_eq!(bytes[0] & 0x1F, 27);
}

#[test]
fn encode_error_does_not_poison() {
    let mut buf = Vec::<u8>::new();
    let mut enc = Encoder::new(&mut buf);
    assert_eq!(enc.encode_event(&Event::Simple(25)), Err(EncodeError::ReservedSimpleValue));
    assert_eq!(enc.encode_event(&Event::UnsignedInteger(1)), Ok(()));
    assert_eq!(buf, [0x01]);
}

#[test]
fn encode_empty_strings() {
    assert_eq!(encode_one(&Event::ByteString(&[])), (Ok(()), vec![0x40]));
    assert_eq!(encode_one(&Event::TextString(&[])), (Ok(()), vec![0x60]));
}

#[test]
fn encode_long_string_header() {
    let content = vec![0xABu8; 300];
    let (r, bytes) = encode_one(&Event::TextString(&content));
    assert_eq!(r, Ok(()));
    assert_eq!(&bytes[0..3], &[0x79, 0x01, 0x2C]);
    assert_eq!(&bytes[3..], &content[..]);
}
