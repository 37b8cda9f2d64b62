//! An event-level codec for CBOR: item headers, a decoder that turns a byte
//! buffer into a flat sequence of events, and an encoder that turns events
//! back into bytes in shortest form.

/// The wire format of an item header and its argument.
pub mod head;

/// The events exchanged between the decoder and the encoder.
pub mod event;

/// The decoder: bytes to events.
pub mod decode;

/// The encoder: events to bytes.
pub mod encode;

/// Laws that tie the encoder and the decoder together.
pub mod laws;

/// Named simple values.
pub mod misc;
