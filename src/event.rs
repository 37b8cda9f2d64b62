use vstd::prelude::*;

verus! {

/// One structural event: the header of a data item, with its payload where
/// the item carries one. Payloads borrow from the buffer that was decoded, or
/// from the caller on the encoding side.
#[derive(Clone, Copy, PartialEq, Eq, Debug)]
pub enum Event<'a> {
    /// An unsigned integer.
    UnsignedInteger(u64),
    /// A negative integer, stored as the encoded magnitude `n` of `-1 - n`.
    NegativeInteger(u64),
    /// A definite-length byte string.
    ByteString(&'a [u8]),
    /// A definite-length text string; its bytes are not checked as UTF-8.
    TextString(&'a [u8]),
    /// An array header with its number of elements.
    Array(u64),
    /// A map header with its number of pairs.
    Mapping(u64),
    /// The start of a byte string given in chunks.
    IndefiniteByteString,
    /// The start of a text string given in chunks.
    IndefiniteTextString,
    /// The start of an array whose length is not stated.
    IndefiniteArray,
    /// The start of a map whose length is not stated.
    IndefiniteMap,
    /// A tag number.
    Tag(u64),
    /// A simple value.
    Simple(u8),
    /// A floating-point value as its 2, 4 or 8 raw bytes, never interpreted.
    Float(&'a [u8]),
    /// The end of an indefinite-length item.
    Break,
    /// No more bytes in the buffer; this has no encoding of its own.
    End,
}

/// An event with its payloads seen as byte sequences.
pub enum EventView {
    UnsignedInteger(u64),
    NegativeInteger(u64),
    ByteString(Seq<u8>),
    TextString(Seq<u8>),
    Array(u64),
    Mapping(u64),
    IndefiniteByteString,
    IndefiniteTextString,
    IndefiniteArray,
    IndefiniteMap,
    Tag(u64),
    Simple(u8),
    Float(Seq<u8>),
    Break,
    End,
}

impl<'a> View for Event<'a> {
    type V = EventView;

    open spec fn view(&self) -> EventView {
        match *self {
            Event::UnsignedInteger(v) => EventView::UnsignedInteger(v),
            Event::NegativeInteger(v) => EventView::NegativeInteger(v),
            Event::ByteString(s) => EventView::ByteString(s@),
            Event::TextString(s) => EventView::TextString(s@),
            Event::Array(n) => EventView::Array(n),
            Event::Mapping(n) => EventView::Mapping(n),
            Event::IndefiniteByteString => EventView::IndefiniteByteString,
            Event::IndefiniteTextString => EventView::IndefiniteTextString,
            Event::IndefiniteArray => EventView::IndefiniteArray,
            Event::IndefiniteMap => EventView::IndefiniteMap,
            Event::Tag(v) => EventView::Tag(v),
            Event::Simple(v) => EventView::Simple(v),
            Event::Float(s) => EventView::Float(s@),
            Event::Break => EventView::Break,
            Event::End => EventView::End,
        }
    }
}

} // verus!
