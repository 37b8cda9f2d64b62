use cbor_event::decode::Decoder;
use cbor_event::encode::Encoder;
use cbor_event::event::Event;
use cbor_event::misc::{
    SIMPLE_VALUE_FALSE, SIMPLE_VALUE_NULL, SIMPLE_VALUE_TRUE, SIMPLE_VALUE_UNDEFINED,
};

fn round_trip(events: &[Event]) {
    let mut buf = Vec::<u8>::new();
    let mut enc = Encoder::new(&mut buf);
    for e in events {
        assert_eq!(enc.encode_event(e), Ok(()));
    }
    let mut dec = Decoder::new(&buf);
    for e in events {
        assert_eq!(dec.decode_event(), Ok(*e));
    }
    assert_eq!(dec.decode_event(), Ok(Event::End));
}

#[test]
fn round_trip_every_kind() {
    let text = b"hello";
    let bytes = [0x00u8, 0xFF, 0x10];
    let half = [0x7Cu8, 0x00];
    let single = [0x7Fu8, 0x80, 0x00, 0x00];
    let double = [0x7Fu8, 0xF0, 0, 0, 0, 0, 0, 0];
    round_trip(&[
        Event::UnsignedInteger(0),
        Event::UnsignedInteger(23),
        Event::UnsignedInteger(24),
        Event::UnsignedInteger(0x1234),
        Event::UnsignedInteger(0x1234_5678),
        Event::UnsignedInteger(u64::MAX),
        Event::NegativeInteger(0),
        Event::NegativeInteger(0xFFFF_FFFF_FFFF),
        Event::ByteString(&bytes),
        Event::ByteString(&[]),
        Event::TextString(text),
        Event::Array(3),
        Event::Mapping(0x100),
        Event::IndefiniteByteString,
        Event::IndefiniteTextString,
        Event::IndefiniteArray,
        Event::IndefiniteMap,
        Event::Tag(55799),
        Event::Simple(0),
        Event::Simple(23),
        Event::Simple(32),
        Event::Simple(255),
        Event::Float(&half),
        Event::Float(&single),
        Event::Float(&double),
        Event::Break,
    ]);
}

#[test]
fn round_trip_nested_indefinite() {
    let chunk = [0x01u8, 0x02];
    round_trip(&[
        Event::IndefiniteMap,
        Event::TextString(b"k"),
        Event::IndefiniteArray,
        Event::IndefiniteByteString,
        Event::ByteString(&chunk),
        Event::Break,
        Event::Break,
        Event::Break,
    ]);
}

#[test]
fn simple_value_constants() {
    let mut dec = Decoder::new(&[0xF4, 0xF5, 0xF6, 0xF7]);
    assert_eq!(dec.decode_event(), Ok(Event::Simple(SIMPLE_VALUE_FALSE)));
    assert_eq!(dec.decode_event(), Ok(Event::Simple(SIMPLE_VALUE_TRUE)));
    assert_eq!(dec.decode_event(), Ok(Event::Simple(SIMPLE_VALUE_NULL)));
    assert_eq!(dec.decode_event(), Ok(Event::Simple(SIMPLE_VALUE_UNDEFINED)));
}
