use vstd::prelude::*;

use crate::decode::{parse_event, DecodeError};
use crate::encode::{be_bytes, event_encoding, head_encoding, EncodeError};
use crate::event::{Event, EventView};
use crate::head::{
    ai_of, be_value, following_len, is_reserved_ai, lemma_be_value_push, lemma_pow256_values,
    major_type_of, pow256,
};

verus! {

proof fn lemma_be_bytes_len(v: u64, n: nat)
    ensures
        be_bytes(v, n).len() == n,
    decreases n,
{
    if n > 0 {
        lemma_be_bytes_len(v >> 8, (n - 1) as nat);
    }
}

/// `n` big-endian bytes of a value below `256^n` spell that value.
proof fn lemma_be_bytes_value(v: u64, n: nat)
    requires
        v < pow256(n),
    ensures
        be_value(be_bytes(v, n)) == v,
    decreases n,
{
    if n > 0 {
        let hi = v >> 8;
        let lo = #[verifier::truncate] (v as u8);
        assert(hi == v / 256 && lo == v % 256) by (bit_vector)
            requires
                hi == v >> 8,
                lo == #[verifier::truncate] (v as u8),
        ;
        let p = pow256((n - 1) as nat);
        assert(v / 256 < p) by (nonlinear_arith)
            requires
                v < 256 * p,
        ;
        lemma_be_bytes_value(hi, (n - 1) as nat);
        lemma_be_value_push(be_bytes(hi, (n - 1) as nat), lo);
        assert((v / 256) * 256 + v % 256 == v) by (nonlinear_arith);
    }
}

/// What the decoder reads back from a header that the encoder wrote, with
/// any bytes after it.
proof fn lemma_head_parses(major: u8, arg: u64, rest: Seq<u8>)
    requires
        major % 32 == 0,
    ensures
        ({
            let h = head_encoding(major, arg);
            let data = h + rest;
            let ib = data[0];
            let ai = ai_of(ib);
            &&& h.len() > 0
            &&& major_type_of(ib) == major / 32
            &&& !is_reserved_ai(ai)
            &&& ai != 31
            &&& h.len() == 1 + following_len(ai)
            &&& data.subrange(1, h.len() as int) == h.subrange(1, h.len() as int)
            &&& (if ai < 24 {
                ai as nat
            } else {
                be_value(h.subrange(1, h.len() as int))
            }) == arg
            &&& (ai < 24 <==> arg < 24)
            &&& (ai == 24 <==> 24 <= arg <= 0xFF)
        }),
{
    let h = head_encoding(major, arg);
    let data = h + rest;
    lemma_pow256_values();
    let n: nat = if arg < 24 {
        0
    } else if arg <= 0xFF {
        1
    } else if arg <= 0xFFFF {
        2
    } else if arg <= 0xFFFF_FFFF {
        4
    } else {
        8
    };
    if n > 0 {
        lemma_be_bytes_len(arg, n);
        lemma_be_bytes_value(arg, n);
        assert(h.subrange(1, h.len() as int) =~= be_bytes(arg, n));
    }
    assert(data[0] == h[0]);
    assert(data.subrange(1, h.len() as int) =~= h.subrange(1, h.len() as int));
}

/// Decoding the encoding of an event gives back the event and consumes the
/// whole encoding, whatever bytes come after it. `End` has an empty encoding
/// and is read back only at the end of the buffer.
pub proof fn lemma_round_trip(e: Event, rest: Seq<u8>)
    requires
        event_encoding(e@) is Ok,
        e@ is End ==> rest.len() == 0,
    ensures
        ({
            let bytes = event_encoding(e@)->Ok_0;
            parse_event(bytes + rest) == Ok::<(EventView, nat), DecodeError>((e@, bytes.len()))
        }),
{
    let bytes = event_encoding(e@)->Ok_0;
    let data = bytes + rest;
    match e {
        Event::UnsignedInteger(v) => {
            lemma_head_parses(0x00, v, rest);
        },
        Event::NegativeInteger(v) => {
            lemma_head_parses(0x20, v, rest);
        },
        Event::ByteString(s) => {
            assert(s@.len() <= usize::MAX) by {
                assert(s.len() == s@.len());
            }
            let h = head_encoding(0x40, s@.len() as u64);
            lemma_head_parses(0x40, s@.len() as u64, s@ + rest);
            assert(data =~= h + (s@ + rest));
            assert(data.subrange(h.len() as int, (h.len() + s@.len()) as int) =~= s@);
        },
        Event::TextString(s) => {
            assert(s@.len() <= usize::MAX) by {
                assert(s.len() == s@.len());
            }
            let h = head_encoding(0x60, s@.len() as u64);
            lemma_head_parses(0x60, s@.len() as u64, s@ + rest);
            assert(data =~= h + (s@ + rest));
            assert(data.subrange(h.len() as int, (h.len() + s@.len()) as int) =~= s@);
        },
        Event::Array(n) => {
            lemma_head_parses(0x80, n, rest);
        },
        Event::Mapping(n) => {
            lemma_head_parses(0xA0, n, rest);
        },
        Event::Tag(v) => {
            lemma_head_parses(0xC0, v, rest);
        },
        Event::Simple(v) => {
            lemma_head_parses(0xE0, v as u64, rest);
        },
        Event::Float(s) => {
            assert(data[0] == bytes[0]);
            assert(data.subrange(1, (1 + s@.len()) as int) =~= s@);
        },
        Event::End => {
            assert(data =~= Seq::<u8>::empty());
        },
        _ => {
            assert(data[0] == bytes[0]);
        },
    }
}

/// The encoder writes the narrowest header for an argument: no following
/// byte when the argument is below 24, and otherwise the fewest following
/// bytes, out of 1, 2, 4 and 8, that can hold it.
pub proof fn lemma_shortest_head(major: u8, arg: u64, n: nat)
    requires
        major % 32 == 0,
        (n == 0 && arg < 24) || ((n == 1 || n == 2 || n == 4 || n == 8) && arg < pow256(n)),
    ensures
        head_encoding(major, arg).len() <= 1 + n,
{
    lemma_pow256_values();
    lemma_be_bytes_len(arg, 1);
    lemma_be_bytes_len(arg, 2);
    lemma_be_bytes_len(arg, 4);
    lemma_be_bytes_len(arg, 8);
}

/// The indefinite-length marker (additional information 31) is refused on
/// unsigned and negative integers and on tags, and accepted on strings,
/// arrays, maps and as the break code, whatever bytes follow it.
pub proof fn lemma_indefinite_marker(major: u8, rest: Seq<u8>)
    requires
        major < 8,
    ensures
        ({
            let data = seq![(major * 32 + 31) as u8] + rest;
            &&& (major == 0 || major == 1 || major == 6) ==> parse_event(data) == Err::<
                (EventView, nat),
                DecodeError,
            >(DecodeError::InvalidIndefiniteLength)
            &&& major == 2 ==> parse_event(data) == Ok::<(EventView, nat), DecodeError>(
                (EventView::IndefiniteByteString, 1),
            )
            &&& major == 3 ==> parse_event(data) == Ok::<(EventView, nat), DecodeError>(
                (EventView::IndefiniteTextString, 1),
            )
            &&& major == 4 ==> parse_event(data) == Ok::<(EventView, nat), DecodeError>(
                (EventView::IndefiniteArray, 1),
            )
            &&& major == 5 ==> parse_event(data) == Ok::<(EventView, nat), DecodeError>(
                (EventView::IndefiniteMap, 1),
            )
            &&& major == 7 ==> parse_event(data) == Ok::<(EventView, nat), DecodeError>(
                (EventView::Break, 1),
            )
        }),
{
    let data = seq![(major * 32 + 31) as u8] + rest;
    assert(data[0] == (major * 32 + 31) as u8);
}

/// A simple value below 24 is written as one byte, one from 32 up as two,
/// and 24 to 31 cannot be written.
pub proof fn lemma_simple_encoding(v: u8)
    ensures
        v < 24 ==> event_encoding(EventView::Simple(v)) == Ok::<Seq<u8>, EncodeError>(
            seq![(0xE0 + v) as u8],
        ),
        24 <= v <= 31 ==> event_encoding(EventView::Simple(v)) == Err::<Seq<u8>, EncodeError>(
            EncodeError::ReservedSimpleValue,
        ),
        v >= 32 ==> event_encoding(EventView::Simple(v)) == Ok::<Seq<u8>, EncodeError>(
            seq![0xF8u8, v],
        ),
{
    if v >= 32 {
        reveal_with_fuel(be_bytes, 2);
        assert(#[verifier::truncate] ((v as u64) as u8) == v) by (bit_vector);
        assert(event_encoding(EventView::Simple(v))->Ok_0 =~= seq![0xF8u8, v]);
    }
}

/// A float payload of 2, 4 or 8 bytes is written after a header with
/// additional information 25, 26 or 27; any other width cannot be written.
pub proof fn lemma_float_encoding(s: Seq<u8>)
    ensures
        ({
            let r = event_encoding(EventView::Float(s));
            &&& (s.len() == 2 || s.len() == 4 || s.len() == 8) ==> {
                &&& r is Ok
                &&& r->Ok_0 == seq![r->Ok_0[0]] + s
                &&& major_type_of(r->Ok_0[0]) == 7
                &&& s.len() == 2 ==> ai_of(r->Ok_0[0]) == 25
                &&& s.len() == 4 ==> ai_of(r->Ok_0[0]) == 26
                &&& s.len() == 8 ==> ai_of(r->Ok_0[0]) == 27
            }
            &&& !(s.len() == 2 || s.len() == 4 || s.len() == 8) ==> r == Err::<
                Seq<u8>,
                EncodeError,
            >(EncodeError::InvalidFloatWidth)
        }),
{
    let r = event_encoding(EventView::Float(s));
    if r is Ok {
        assert(r->Ok_0 =~= seq![r->Ok_0[0]] + s);
    }
}

} // verus!
