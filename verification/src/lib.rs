//! Message framing for the Protocol Buffers wire format.
//!
//! A structured record that implements the [`Message`](message::Message)
//! contract can be written as a self-delimiting byte stream and read back,
//! whether it stands alone, is nested inside another message, or occurs
//! repeatedly as elements of a field.  The crate provides the byte-cursor
//! abstractions the codec runs over ([`buffer`]), the primitive varint and
//! field-key codec ([`encoding`]), the message contract itself ([`message`]),
//! the adaptation that lets a message (or an ordered collection of messages)
//! act as one tagged field of a containing message ([`field`]), and two
//! concrete message types that instantiate the contract ([`messages`]).

pub mod buffer;
pub mod encoding;
pub mod error;
pub mod field;
pub mod message;
pub mod messages;
