//! Peer-handshake and message codec for a blockchain node's network protocol.
//!
//! Nodes agree on which message kinds they will exchange by trading a
//! `Handshake`, a fixed four-element wire sequence holding the network magic,
//! the protocol version and two handler tables.  Outbound commands are built
//! by the message builders, and tagged-union responses are decoded strictly:
//! anything malformed is reported as a `DecodeError`, never a panic.
//!
//! Every encoder and decoder is specified against the byte-level grammar in
//! `cbor` and `item`, and the encode/decode round trips are proved.

pub mod cbor;
pub mod error;
pub mod item;
pub mod messages;
pub mod packet;
pub mod response;
pub mod text;

pub use error::DecodeError;
pub use messages::{send_msg_announcetx, send_msg_getblocks, send_msg_getheaders,
    send_msg_subscribe, HeaderHash, Message, MsgType, TxId};
pub use packet::{send_handshake, HandlerSpec, HandlerSpecs, Handshake, ProtocolMagic, Version};
pub use response::{Block, BlockHeader, BlockHeaderResponse, BlockResponse};
