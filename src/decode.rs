use vstd::prelude::*;

use crate::event::{Event, EventView};
use crate::head::{
    ai_of, be_value, following_len, is_reserved_ai, lemma_be_value_bound, lemma_mask_ai,
    lemma_pow256_monotone, lemma_pow256_values, major_type_of, Head,
};

verus! {

/// Why a buffer could not be decoded.
#[derive(Clone, Copy, PartialEq, Eq, Debug, Structural)]
pub enum DecodeError {
    /// Fewer bytes remain than the header or the payload needs.
    TruncatedInput,
    /// Additional information 28, 29 or 30.
    ReservedAdditionalInformation,
    /// The indefinite-length marker on an integer or a tag.
    InvalidIndefiniteLength,
    /// A string length that does not fit in `usize`.
    LengthOverflow,
    /// A two-byte simple value below 32, which has a one-byte form or is reserved.
    InvalidSimpleValue,
    /// An earlier call on the same decoder failed.
    AlreadyFailed,
}

/// The first event at the front of `data` and the number of bytes it takes,
/// or the reason why there is none.
pub open spec fn parse_event(data: Seq<u8>) -> Result<(EventView, nat), DecodeError> {
    if data.len() == 0 {
        Ok((EventView::End, 0))
    } else {
        let ib = data[0];
        let ai = ai_of(ib);
        let major = major_type_of(ib);
        let hlen = (1 + following_len(ai)) as nat;
        if is_reserved_ai(ai) {
            Err(DecodeError::ReservedAdditionalInformation)
        } else if data.len() < hlen {
            Err(DecodeError::TruncatedInput)
        } else if ai == 31 {
            if major == 2 {
                Ok((EventView::IndefiniteByteString, 1))
            } else if major == 3 {
                Ok((EventView::IndefiniteTextString, 1))
            } else if major == 4 {
                Ok((EventView::IndefiniteArray, 1))
            } else if major == 5 {
                Ok((EventView::IndefiniteMap, 1))
            } else if major == 7 {
                Ok((EventView::Break, 1))
            } else {
                Err(DecodeError::InvalidIndefiniteLength)
            }
        } else {
            let following = data.subrange(1, hlen as int);
            let arg: nat = if ai < 24 {
                ai as nat
            } else {
                be_value(following)
            };
            if major == 0 {
                Ok((EventView::UnsignedInteger(arg as u64), hlen))
            } else if major == 1 {
                Ok((EventView::NegativeInteger(arg as u64), hlen))
            } else if major == 2 || major == 3 {
                if arg > usize::MAX {
                    Err(DecodeError::LengthOverflow)
                } else if data.len() < hlen + arg {
                    Err(DecodeError::TruncatedInput)
                } else {
                    let payload = data.subrange(hlen as int, (hlen + arg) as int);
                    let ev = if major == 2 {
                        EventView::ByteString(payload)
                    } else {
                        EventView::TextString(payload)
                    };
                    Ok((ev, (hlen + arg) as nat))
                }
            } else if major == 4 {
                Ok((EventView::Array(arg as u64), hlen))
            } else if major == 5 {
                Ok((EventView::Mapping(arg as u64), hlen))
            } else if major == 6 {
                Ok((EventView::Tag(arg as u64), hlen))
            } else if ai < 24 {
                Ok((EventView::Simple(ai), hlen))
            } else if ai == 24 {
                if arg < 32 {
                    Err(DecodeError::InvalidSimpleValue)
                } else {
                    Ok((EventView::Simple(arg as u8), hlen))
                }
            } else {
                Ok((EventView::Float(following), hlen))
            }
        }
    }
}

/// Splits the header off the front of a non-empty buffer. The header is not
/// checked for soundness beyond its length.
pub fn decode_head<'a>(data: &'a [u8]) -> (r: Result<(Head<'a>, &'a [u8]), DecodeError>)
    requires
        data@.len() > 0,
    ensures
        ({
            let ai = ai_of(data@[0]);
            let hlen = 1 + following_len(ai) as int;
            if is_reserved_ai(ai) {
                r == Err::<(Head<'a>, &'a [u8]), DecodeError>(
                    DecodeError::ReservedAdditionalInformation,
                )
            } else if data@.len() < hlen {
                r == Err::<(Head<'a>, &'a [u8]), DecodeError>(DecodeError::TruncatedInput)
            } else {
                &&& r is Ok
                &&& r->Ok_0.0.initial_byte == data@[0]
                &&& r->Ok_0.0.following_bytes@ == data@.subrange(1, hlen)
                &&& r->Ok_0.1@ == data@.skip(hlen)
            }
        }),
{
    let ib = data[0];
    let rest = &data[1..data.len()];
    proof {
        lemma_mask_ai(ib);
    }
    let ai = ib & Head::ADDITIONAL_INFORMATION_MASK;
    if ai == 28 || ai == 29 || ai == 30 {
        return Err(DecodeError::ReservedAdditionalInformation);
    }
    let bytes_len: usize = if ai < 24 || ai == 31 {
        0
    } else if ai == 24 {
        1
    } else if ai == 25 {
        2
    } else if ai == 26 {
        4
    } else {
        8
    };
    if rest.len() >= bytes_len {
        let (bytes, rest) = rest.split_at(bytes_len);
        proof {
            assert(bytes@ =~= data@.subrange(1, 1 + bytes_len));
            assert(rest@ =~= data@.skip(1 + bytes_len));
        }
        Ok((Head::new(ib, bytes), rest))
    } else {
        Err(DecodeError::TruncatedInput)
    }
}

/// Splits `count` bytes off the front of `data`.
pub fn decode_bytes<'a>(data: &'a [u8], count: usize) -> (r: Result<
    (&'a [u8], &'a [u8]),
    DecodeError,
>)
    ensures
        count <= data@.len() ==> r is Ok && r->Ok_0.0@ == data@.take(count as int) && r->Ok_0.1@
            == data@.skip(count as int),
        count > data@.len() ==> r == Err::<(&'a [u8], &'a [u8]), DecodeError>(
            DecodeError::TruncatedInput,
        ),
{
    if data.len() >= count {
        Ok(data.split_at(count))
    } else {
        Err(DecodeError::TruncatedInput)
    }
}

/// Decodes the event at the front of `data` and returns it with the bytes
/// that follow it.
pub fn decode_event<'a>(data: &'a [u8]) -> (r: Result<(Event<'a>, &'a [u8]), DecodeError>)
    ensures
        match parse_event(data@) {
            Ok((ev, n)) => r is Ok && r->Ok_0.0@ == ev && r->Ok_0.1@ == data@.skip(n as int),
            Err(e) => r == Err::<(Event<'a>, &'a [u8]), DecodeError>(e),
        },
{
    if data.is_empty() {
        proof {
            assert(data@.skip(0) =~= data@);
        }
        return Ok((Event::End, data));
    }
    let (head, rest) = match decode_head(data) {
        Ok(split) => split,
        Err(e) => return Err(e),
    };
    // decode_head has checked the reserved values and the length, so an
    // unsound header can only be the indefinite-length marker where it is
    // not allowed
    if !head.is_sound() {
        return Err(DecodeError::InvalidIndefiniteLength);
    }
    let ai = head.additional_information();
    let major = head.major_type() >> 5;
    proof {
        let m = major_type_of(head.initial_byte);
        assert((m * 32) as u8 >> 5 == m) by (bit_vector)
            requires
                m < 8,
        ;
        let fb = head.following_bytes@;
        lemma_be_value_bound(fb);
        lemma_pow256_monotone(fb.len(), 8);
        lemma_pow256_values();
    }
    if ai == 31 {
        return if major == 2 {
            Ok((Event::IndefiniteByteString, rest))
        } else if major == 3 {
            Ok((Event::IndefiniteTextString, rest))
        } else if major == 4 {
            Ok((Event::IndefiniteArray, rest))
        } else if major == 5 {
            Ok((Event::IndefiniteMap, rest))
        } else {
            Ok((Event::Break, rest))
        };
    }
    let arg = head.argument().unwrap();
    if major == 0 {
        Ok((Event::UnsignedInteger(arg), rest))
    } else if major == 1 {
        Ok((Event::NegativeInteger(arg), rest))
    } else if major == 2 || major == 3 {
        if let Ok(len) = usize::try_from(arg) {
            let (content, rest) = match decode_bytes(rest, len) {
                Ok(split) => split,
                Err(e) => return Err(e),
            };
            proof {
                let hlen = 1 + following_len(ai) as int;
                assert(content@ =~= data@.subrange(hlen, hlen + len));
                assert(rest@ =~= data@.skip(hlen + len));
            }
            if major == 2 {
                Ok((Event::ByteString(content), rest))
            } else {
                Ok((Event::TextString(content), rest))
            }
        } else {
            Err(DecodeError::LengthOverflow)
        }
    } else if major == 4 {
        Ok((Event::Array(arg), rest))
    } else if major == 5 {
        Ok((Event::Mapping(arg), rest))
    } else if major == 6 {
        Ok((Event::Tag(arg), rest))
    } else if ai < 24 {
        Ok((Event::Simple(ai), rest))
    } else if ai == 24 {
        if arg < 32 {
            Err(DecodeError::InvalidSimpleValue)
        } else {
            Ok((Event::Simple(arg as u8), rest))
        }
    } else {
        Ok((Event::Float(head.following_bytes), rest))
    }
}

/// A cursor over a byte buffer that hands out one event per call. Once a call
/// fails, every later call fails too: a malformed item leaves no way to find
/// the start of the next one.
pub struct Decoder<'a> {
    data: &'a [u8],
    failed: bool,
}

impl<'a> Decoder<'a> {
    /// The bytes that have not been decoded yet.
    pub closed spec fn remaining(&self) -> Seq<u8> {
        self.data@
    }

    /// Whether an earlier call failed.
    pub closed spec fn has_failed(&self) -> bool {
        self.failed
    }

    /// A decoder positioned at the start of `data`.
    pub fn new(data: &'a [u8]) -> (r: Decoder<'a>)
        ensures
            r.remaining() == data@,
            !r.has_failed(),
    {
        Decoder { data, failed: false }
    }

    /// The next event. After the last item this returns `End`, and keeps
    /// returning it.
    pub fn decode_event(&mut self) -> (r: Result<Event<'a>, DecodeError>)
        ensures
            old(self).has_failed() ==> {
                &&& r == Err::<Event<'a>, DecodeError>(DecodeError::AlreadyFailed)
                &&& final(self).has_failed()
                &&& final(self).remaining() == old(self).remaining()
            },
            !old(self).has_failed() ==> match parse_event(old(self).remaining()) {
                Ok((ev, n)) => {
                    &&& r is Ok
                    &&& r->Ok_0@ == ev
                    &&& !final(self).has_failed()
                    &&& final(self).remaining() == old(self).remaining().skip(n as int)
                },
                Err(e) => {
                    &&& r == Err::<Event<'a>, DecodeError>(e)
                    &&& final(self).has_failed()
                    &&& final(self).remaining() == old(self).remaining()
                },
            },
    {
        if self.failed {
            return Err(DecodeError::AlreadyFailed);
        }
        match decode_event(self.data) {
            Ok((event, rest)) => {
                self.data = rest;
                Ok(event)
            },
            Err(e) => {
                self.failed = true;
                Err(e)
            },
        }
    }
}

} // verus!
