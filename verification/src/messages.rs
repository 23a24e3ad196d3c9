//! Builders for the outbound command messages: each produces a command code
//! for the transport framer and a payload whose bytes are pinned exactly.
//! These commands are only ever sent, so no decode path exists for them.

use vstd::prelude::*;

use crate::cbor::{enc_array, enc_bytes, enc_uint, write_bytes, write_uint};

verus! {

/// A wire-ready message: a single-byte command code and its payload.
pub type Message = (u8, Vec<u8>);

/// The command codes this codec can emit or expect.
#[derive(Debug, Clone, Copy, PartialEq, Eq, Structural)]
pub enum MsgType {
    MsgGetHeaders,
    MsgHeaders,
    MsgGetBlocks,
    MsgSubscribe,
    MsgAnnounceTx,
}

impl MsgType {
    /// The command code of this message kind.
    pub open spec fn spec_code(self) -> u8 {
        match self {
            MsgType::MsgGetHeaders => 0x04,
            MsgType::MsgHeaders => 0x05,
            MsgType::MsgGetBlocks => 0x06,
            MsgType::MsgSubscribe => 0x0d,
            MsgType::MsgAnnounceTx => 0x25,
        }
    }

    /// The command code of this message kind.
    pub fn code(&self) -> (r: u8)
        ensures
            r == self.spec_code(),
    {
        match self {
            MsgType::MsgGetHeaders => 0x04,
            MsgType::MsgHeaders => 0x05,
            MsgType::MsgGetBlocks => 0x06,
            MsgType::MsgSubscribe => 0x0d,
            MsgType::MsgAnnounceTx => 0x25,
        }
    }
}

/// A block header hash: 32 bytes, opaque to this codec, carried on the wire
/// as a byte string.
#[derive(Debug, PartialEq, Eq, PartialOrd, Ord, Clone)]
pub struct HeaderHash {
    bytes: Vec<u8>,
}

impl View for HeaderHash {
    type V = Seq<u8>;

    closed spec fn view(&self) -> Seq<u8> {
        self.bytes@
    }
}

impl HeaderHash {
    pub fn new(bytes: Vec<u8>) -> (r: Self)
        requires
            bytes@.len() == 32,
        ensures
            r@ == bytes@,
    {
        HeaderHash { bytes }
    }

    pub fn as_bytes(&self) -> (r: &Vec<u8>)
        ensures
            r@ == self@,
    {
        &self.bytes
    }
}

/// A transaction id: 32 bytes, opaque to this codec, carried on the wire as
/// a byte string.
#[derive(Debug, PartialEq, Eq, PartialOrd, Ord, Clone)]
pub struct TxId {
    bytes: Vec<u8>,
}

impl View for TxId {
    type V = Seq<u8>;

    closed spec fn view(&self) -> Seq<u8> {
        self.bytes@
    }
}

impl TxId {
    pub fn new(bytes: Vec<u8>) -> (r: Self)
        requires
            bytes@.len() == 32,
        ensures
            r@ == bytes@,
    {
        TxId { bytes }
    }

    pub fn as_bytes(&self) -> (r: &Vec<u8>)
        ensures
            r@ == self@,
    {
        &self.bytes
    }
}

/// The subscribe payload: the single unsigned integer 43 with keep-alive,
/// 42 without.
pub open spec fn subscribe_payload(keep_alive: bool) -> Seq<u8> {
    if keep_alive {
        enc_uint(43)
    } else {
        enc_uint(42)
    }
}

/// Builds the subscribe command: code 0x0d with the keep-alive mode as its
/// payload.
pub fn send_msg_subscribe(keep_alive: bool) -> (m: Message)
    ensures
        m.0 == 0x0d,
        m.1@ == subscribe_payload(keep_alive),
{
    let value: u64 = if keep_alive {
        43
    } else {
        42
    };
    let mut dat: Vec<u8> = Vec::new();
    write_uint(&mut dat, value);
    assert(dat@ =~= subscribe_payload(keep_alive));
    (MsgType::MsgSubscribe.code(), dat)
}

/// The byte strings of a list of hashes, in order.
pub open spec fn enc_hash_list(hs: Seq<Seq<u8>>) -> Seq<u8>
    decreases hs.len(),
{
    if hs.len() == 0 {
        Seq::empty()
    } else {
        enc_hash_list(hs.drop_last()) + enc_bytes(hs.last())
    }
}

/// The get-headers payload: a pair of the "from" hashes as an
/// indefinite-length sequence and the optional "to" hash as a zero- or
/// one-element sequence.
pub open spec fn getheaders_payload(froms: Seq<Seq<u8>>, to: Option<Seq<u8>>) -> Seq<u8> {
    enc_array(2) + seq![0x9fu8] + enc_hash_list(froms) + seq![0xffu8] + (match to {
        None => enc_array(0),
        Some(h) => enc_array(1) + enc_bytes(h),
    })
}

/// Builds the get-headers command: code 0x04 with the requested range as
/// its payload.
pub fn send_msg_getheaders(froms: &[HeaderHash], to: &Option<HeaderHash>) -> (m: Message)
    ensures
        m.0 == 0x04,
        m.1@ == getheaders_payload(
            froms@.map_values(|h: HeaderHash| h@),
            (match to {
                None => None,
                Some(h) => Some(h@),
            }),
        ),
{
    let ghost fs = froms@.map_values(|h: HeaderHash| h@);
    let mut dat: Vec<u8> = Vec::new();
    crate::cbor::write_array(&mut dat, 2);
    dat.push(0x9f);
    let ghost base = dat@;
    let mut i: usize = 0;
    assert(dat@ =~= base + enc_hash_list(fs.take(0)));
    while i < froms.len()
        invariant
            i <= froms@.len(),
            fs == froms@.map_values(|h: HeaderHash| h@),
            base == enc_array(2) + seq![0x9fu8],
            dat@ == base + enc_hash_list(fs.take(i as int)),
        decreases froms@.len() - i,
    {
        write_bytes(&mut dat, froms[i].as_bytes().as_slice());
        proof {
            assert(fs.take(i + 1).drop_last() =~= fs.take(i as int));
            assert(fs.take(i + 1).last() == fs[i as int]);
            assert(dat@ =~= base + enc_hash_list(fs.take(i + 1)));
        }
        i = i + 1;
    }
    assert(fs.take(fs.len() as int) =~= fs);
    dat.push(0xff);
    match to {
        None => {
            crate::cbor::write_array(&mut dat, 0);
        },
        Some(h) => {
            crate::cbor::write_array(&mut dat, 1);
            write_bytes(&mut dat, h.as_bytes().as_slice());
        },
    }
    assert(dat@ =~= getheaders_payload(
        fs,
        (match to {
            None => None,
            Some(h) => Some(h@),
        }),
    ));
    (MsgType::MsgGetHeaders.code(), dat)
}

/// The get-blocks payload: the mandatory pair of range ends.
pub open spec fn getblocks_payload(from: Seq<u8>, to: Seq<u8>) -> Seq<u8> {
    enc_array(2) + enc_bytes(from) + enc_bytes(to)
}

/// Builds the get-blocks command: code 0x06 with both range ends as its
/// payload.
pub fn send_msg_getblocks(from: &HeaderHash, to: &HeaderHash) -> (m: Message)
    ensures
        m.0 == 0x06,
        m.1@ == getblocks_payload(from@, to@),
{
    let mut dat: Vec<u8> = Vec::new();
    crate::cbor::write_array(&mut dat, 2);
    write_bytes(&mut dat, from.as_bytes().as_slice());
    write_bytes(&mut dat, to.as_bytes().as_slice());
    assert(dat@ =~= getblocks_payload(from@, to@));
    (MsgType::MsgGetBlocks.code(), dat)
}

/// The announce payload: the inventory-announcement marker 0, then the id.
pub open spec fn announcetx_payload(txid: Seq<u8>) -> Seq<u8> {
    enc_array(2) + enc_uint(0) + enc_bytes(txid)
}

/// Builds the transaction announcement: code 0x25 with the inventory
/// marker and the transaction id as its payload.
pub fn send_msg_announcetx(txid: &TxId) -> (m: Message)
    ensures
        m.0 == 0x25,
        m.1@ == announcetx_payload(txid@),
{
    let mut dat: Vec<u8> = Vec::new();
    crate::cbor::write_array(&mut dat, 2);
    write_uint(&mut dat, 0);
    write_bytes(&mut dat, txid.as_bytes().as_slice());
    assert(dat@ =~= announcetx_payload(txid@));
    (MsgType::MsgAnnounceTx.code(), dat)
}

} // verus!
