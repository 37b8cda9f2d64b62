use vstd::prelude::*;

use crate::event::{Event, EventView};

verus! {

/// Why an event could not be encoded.
#[derive(Clone, Copy, PartialEq, Eq, Debug, Structural)]
pub enum EncodeError {
    /// A string longer than a 64-bit argument can state.
    LengthOverflow,
    /// A simple value in `24..=31`, which has no encoding.
    ReservedSimpleValue,
    /// A float payload that is not 2, 4 or 8 bytes long.
    InvalidFloatWidth,
}

/// The `n` low-order bytes of `v`, most significant first.
pub open spec fn be_bytes(v: u64, n: nat) -> Seq<u8>
    decreases n,
{
    if n == 0 {
        seq![]
    } else {
        be_bytes(v >> 8, (n - 1) as nat).push(#[verifier::truncate] (v as u8))
    }
}

/// The shortest header with major-type bits `major` (the major type times 32)
/// and argument `arg`.
pub open spec fn head_encoding(major: u8, arg: u64) -> Seq<u8> {
    if arg < 24 {
        seq![(major + arg) as u8]
    } else if arg <= 0xFF {
        seq![(major + 24) as u8] + be_bytes(arg, 1)
    } else if arg <= 0xFFFF {
        seq![(major + 25) as u8] + be_bytes(arg, 2)
    } else if arg <= 0xFFFF_FFFF {
        seq![(major + 26) as u8] + be_bytes(arg, 4)
    } else {
        seq![(major + 27) as u8] + be_bytes(arg, 8)
    }
}

/// The bytes that encode an event, or the reason why it has no encoding.
pub open spec fn event_encoding(e: EventView) -> Result<Seq<u8>, EncodeError> {
    match e {
        EventView::UnsignedInteger(v) => Ok(head_encoding(0x00, v)),
        EventView::NegativeInteger(v) => Ok(head_encoding(0x20, v)),
        EventView::ByteString(s) => if s.len() > u64::MAX {
            Err(EncodeError::LengthOverflow)
        } else {
            Ok(head_encoding(0x40, s.len() as u64) + s)
        },
        EventView::TextString(s) => if s.len() > u64::MAX {
            Err(EncodeError::LengthOverflow)
        } else {
            Ok(head_encoding(0x60, s.len() as u64) + s)
        },
        EventView::Array(n) => Ok(head_encoding(0x80, n)),
        EventView::Mapping(n) => Ok(head_encoding(0xA0, n)),
        EventView::IndefiniteByteString => Ok(seq![0x5Fu8]),
        EventView::IndefiniteTextString => Ok(seq![0x7Fu8]),
        EventView::IndefiniteArray => Ok(seq![0x9Fu8]),
        EventView::IndefiniteMap => Ok(seq![0xBFu8]),
        EventView::Tag(v) => Ok(head_encoding(0xC0, v)),
        EventView::Simple(v) => if 24 <= v <= 31 {
            Err(EncodeError::ReservedSimpleValue)
        } else {
            Ok(head_encoding(0xE0, v as u64))
        },
        EventView::Float(s) => if s.len() == 2 {
            Ok(seq![0xF9u8] + s)
        } else if s.len() == 4 {
            Ok(seq![0xFAu8] + s)
        } else if s.len() == 8 {
            Ok(seq![0xFBu8] + s)
        } else {
            Err(EncodeError::InvalidFloatWidth)
        },
        EventView::Break => Ok(seq![0xFFu8]),
        EventView::End => Ok(seq![]),
    }
}

/// Or-ing a major-type byte with an additional information below 32 adds them.
proof fn lemma_or_is_add(major: u8, low: u8)
    requires
        major % 32 == 0,
        low < 32,
    ensures
        major | low == major + low,
{
    assert(major | low == major + low) by (bit_vector)
        requires
            major % 32 == 0,
            low < 32,
    ;
}

fn write_u8(writer: &mut Vec<u8>, byte: u8)
    ensures
        final(writer)@ == old(writer)@.push(byte),
{
    writer.push(byte);
}

/// Writes events to a byte vector, each in its shortest form.
///
/// The encoder keeps the sink it was made with: each writing method leaves
/// the final value of `writer` unchanged, so that once the encoder is dropped
/// the caller's vector holds what `written` held last.
pub struct Encoder<'a> {
    pub writer: &'a mut Vec<u8>,
}

impl<'a> Encoder<'a> {
    /// The bytes in the sink.
    pub open spec fn written(&self) -> Seq<u8> {
        self.writer@
    }

    /// An encoder that appends to `writer`. The vector ends up with what the
    /// encoder's sink holds when the encoder is done.
    pub fn new(writer: &'a mut Vec<u8>) -> (r: Encoder<'a>)
        ensures
            r.written() == old(writer)@,
            final(writer)@ == final(r.writer)@,
    {
        Encoder { writer }
    }

    /// Appends the shortest header with major-type bits `major_type` and
    /// argument `argument`.
    pub fn encode_head_with_argument(&mut self, major_type: u8, argument: u64)
        requires
            major_type % 32 == 0,
        ensures
            final(self).written() == old(self).written() + head_encoding(major_type, argument),
            *final(final(self).writer) == *final(old(self).writer),
    {
        let a = argument;
        if a < 24 {
            proof {
                lemma_or_is_add(major_type, a as u8);
            }
            write_u8(self.writer, major_type | (a as u8));
        } else if a <= 0xFF {
            proof {
                lemma_or_is_add(major_type, 24);
                reveal_with_fuel(be_bytes, 2);
                assert(be_bytes(a, 1) =~= seq![a as u8]);
            }
            write_u8(self.writer, major_type | 0x18);
            write_u8(self.writer, a as u8);
        } else if a <= 0xFFFF {
            proof {
                lemma_or_is_add(major_type, 25);
                reveal_with_fuel(be_bytes, 3);
                assert(be_bytes(a, 2) =~= seq![(a >> 8) as u8, a as u8]);
            }
            write_u8(self.writer, major_type | 0x19);
            write_u8(self.writer, (a >> 8) as u8);
            write_u8(self.writer, a as u8);
        } else if a <= 0xFFFF_FFFF {
            proof {
                lemma_or_is_add(major_type, 26);
                reveal_with_fuel(be_bytes, 5);
                assert((a >> 8) >> 8 == a >> 16 && ((a >> 8) >> 8) >> 8 == a >> 24)
                    by (bit_vector);
                assert(be_bytes(a, 4) =~= seq![
                    (a >> 24) as u8,
                    (a >> 16) as u8,
                    (a >> 8) as u8,
                    a as u8,
                ]);
            }
            write_u8(self.writer, major_type | 0x1A);
            write_u8(self.writer, (a >> 24) as u8);
            write_u8(self.writer, (a >> 16) as u8);
            write_u8(self.writer, (a >> 8) as u8);
            write_u8(self.writer, a as u8);
        } else {
            proof {
                lemma_or_is_add(major_type, 27);
                reveal_with_fuel(be_bytes, 9);
                assert({
                    &&& (a >> 8) >> 8 == a >> 16
                    &&& ((a >> 8) >> 8) >> 8 == a >> 24
                    &&& (((a >> 8) >> 8) >> 8) >> 8 == a >> 32
                    &&& ((((a >> 8) >> 8) >> 8) >> 8) >> 8 == a >> 40
                    &&& (((((a >> 8) >> 8) >> 8) >> 8) >> 8) >> 8 == a >> 48
                    &&& ((((((a >> 8) >> 8) >> 8) >> 8) >> 8) >> 8) >> 8 == a >> 56
                }) by (bit_vector);
                assert(be_bytes(a, 8) =~= seq![
                    (a >> 56) as u8,
                    (a >> 48) as u8,
                    (a >> 40) as u8,
                    (a >> 32) as u8,
                    (a >> 24) as u8,
                    (a >> 16) as u8,
                    (a >> 8) as u8,
                    a as u8,
                ]);
            }
            write_u8(self.writer, major_type | 0x1B);
            write_u8(self.writer, (a >> 56) as u8);
            write_u8(self.writer, (a >> 48) as u8);
            write_u8(self.writer, (a >> 40) as u8);
            write_u8(self.writer, (a >> 32) as u8);
            write_u8(self.writer, (a >> 24) as u8);
            write_u8(self.writer, (a >> 16) as u8);
            write_u8(self.writer, (a >> 8) as u8);
            write_u8(self.writer, a as u8);
        }
        proof {
            assert(self.writer@ =~= old(self).writer@ + head_encoding(major_type, argument));
        }
    }

    /// Appends the encoding of `event`. An event that has no encoding is
    /// refused before anything is written.
    pub fn encode_event<'e>(&mut self, event: &Event<'e>) -> (r: Result<(), EncodeError>)
        ensures
            match event_encoding(event@) {
                Ok(bytes) => r is Ok && final(self).written() == old(self).written() + bytes,
                Err(e) => r == Err::<(), EncodeError>(e) && final(self).written() == old(
                    self,
                ).written(),
            },
            *final(final(self).writer) == *final(old(self).writer),
    {
        match *event {
            Event::UnsignedInteger(v) => {
                self.encode_head_with_argument(0x00, v);
                Ok(())
            },
            Event::NegativeInteger(v) => {
                self.encode_head_with_argument(0x20, v);
                Ok(())
            },
            Event::ByteString(content) => match u64::try_from(content.len()) {
                Ok(len) => {
                    self.encode_head_with_argument(0x40, len);
                    self.encode_bytes(content);
                    proof {
                        assert(self.written() =~= old(self).written() + head_encoding(
                            0x40,
                            len,
                        ) + content@);
                    }
                    Ok(())
                },
                Err(_) => Err(EncodeError::LengthOverflow),
            },
            Event::TextString(content) => match u64::try_from(content.len()) {
                Ok(len) => {
                    self.encode_head_with_argument(0x60, len);
                    self.encode_bytes(content);
                    proof {
                        assert(self.written() =~= old(self).written() + head_encoding(
                            0x60,
                            len,
                        ) + content@);
                    }
                    Ok(())
                },
                Err(_) => Err(EncodeError::LengthOverflow),
            },
            Event::Array(n) => {
                self.encode_head_with_argument(0x80, n);
                Ok(())
            },
            Event::Mapping(n) => {
                self.encode_head_with_argument(0xA0, n);
                Ok(())
            },
            Event::IndefiniteByteString => {
                write_u8(self.writer, 0x5F);
                Ok(())
            },
            Event::IndefiniteTextString => {
                write_u8(self.writer, 0x7F);
                Ok(())
            },
            Event::IndefiniteArray => {
                write_u8(self.writer, 0x9F);
                Ok(())
            },
            Event::IndefiniteMap => {
                write_u8(self.writer, 0xBF);
                Ok(())
            },
            Event::Tag(v) => {
                self.encode_head_with_argument(0xC0, v);
                Ok(())
            },
            Event::Simple(v) => {
                if 24 <= v && v <= 31 {
                    Err(EncodeError::ReservedSimpleValue)
                } else {
                    self.encode_head_with_argument(0xE0, v as u64);
                    Ok(())
                }
            },
            Event::Float(bytes) => {
                let ai: u8 = if bytes.len() == 2 {
                    0x19
                } else if bytes.len() == 4 {
                    0x1A
                } else if bytes.len() == 8 {
                    0x1B
                } else {
                    return Err(EncodeError::InvalidFloatWidth);
                };
                proof {
                    lemma_or_is_add(0xE0, ai);
                }
                write_u8(self.writer, 0xE0 | ai);
                self.encode_bytes(bytes);
                proof {
                    assert(self.written() =~= old(self).written() + seq![(0xE0 + ai) as u8] + bytes@);
                }
                Ok(())
            },
            Event::Break => {
                write_u8(self.writer, 0xFF);
                Ok(())
            },
            Event::End => Ok(()),
        }
    }

    /// Appends `bytes` as they are.
    pub fn encode_bytes(&mut self, bytes: &[u8])
        ensures
            final(self).written() == old(self).written() + bytes@,
            *final(final(self).writer) == *final(old(self).writer),
    {
        self.writer.extend_from_slice(bytes);
        proof {
            assert(self.writer@ =~= old(self).writer@ + bytes@);
        }
    }
}

} // verus!
