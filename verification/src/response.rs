//! Strict decoders for the tagged-union responses.  Each response is the
//! two-element wire sequence `[discriminant, payload]`; a discriminant
//! outside the recognized set is an `UnknownVariant` error, never a guess.
//! Block headers and blocks are domain types opaque to this codec: they are
//! carried through as the raw bytes of one complete wire item each.

use vstd::prelude::*;

use crate::cbor::{copy_range, lemma_skip_skip, parse_head, parse_text, parse_tuple_head,
    parse_uint, read_head, read_text, read_tuple_head, read_uint, CborHead};
use crate::error::DecodeError;
use crate::item::{lemma_parse_item_bounds, parse_item, skip_item};

verus! {

/// One block header, opaque to this codec: the raw bytes of its wire item.
#[derive(Debug, PartialEq, Eq, Clone)]
pub struct BlockHeader {
    bytes: Vec<u8>,
}

impl View for BlockHeader {
    type V = Seq<u8>;

    closed spec fn view(&self) -> Seq<u8> {
        self.bytes@
    }
}

impl BlockHeader {
    /// The raw bytes of this header's wire item.
    pub fn as_bytes(&self) -> (r: &Vec<u8>)
        ensures
            r@ == self@,
    {
        &self.bytes
    }
}

/// One block, opaque to this codec: the raw bytes of its wire item.
#[derive(Debug, PartialEq, Eq, Clone)]
pub struct Block {
    bytes: Vec<u8>,
}

impl View for Block {
    type V = Seq<u8>;

    closed spec fn view(&self) -> Seq<u8> {
        self.bytes@
    }
}

impl Block {
    /// The raw bytes of this block's wire item.
    pub fn as_bytes(&self) -> (r: &Vec<u8>)
        ensures
            r@ == self@,
    {
        &self.bytes
    }
}

/// What `String::from_utf8` returns: the decoded characters on valid UTF-8
/// input, nothing otherwise.
pub uninterp spec fn utf8_decoding(b: Seq<u8>) -> Option<Seq<char>>;

/// Relies on String::from_utf8: it succeeds exactly on valid UTF-8 input,
/// and the result depends on the bytes alone.
#[verifier::external_body]
fn bytes_to_string(b: Vec<u8>) -> (r: Option<String>)
    ensures
        (match r {
            Some(s) => utf8_decoding(b@) == Some(s@),
            None => utf8_decoding(b@) is None,
        }),
{
    String::from_utf8(b).ok()
}

/// A header-list response: either the headers asked for or the peer's error
/// text.
#[derive(Debug, PartialEq, Eq, Clone)]
pub enum BlockHeaderResponse {
    Headers(Vec<BlockHeader>),
    Fail(String),
}

/// The mathematical shape of a header-list response.
pub enum BlockHeaderResponseView {
    Headers(Seq<Seq<u8>>),
    Fail(Seq<char>),
}

impl View for BlockHeaderResponse {
    type V = BlockHeaderResponseView;

    open spec fn view(&self) -> BlockHeaderResponseView {
        match self {
            BlockHeaderResponse::Headers(hs) => BlockHeaderResponseView::Headers(
                hs@.map_values(|h: BlockHeader| h@),
            ),
            BlockHeaderResponse::Fail(s) => BlockHeaderResponseView::Fail(s@),
        }
    }
}

/// A block response: the block asked for.  The wire format reserves room
/// for more variants; any discriminant but 0 is rejected.
#[derive(Debug, PartialEq, Eq, Clone)]
pub enum BlockResponse {
    Block(Block),
}

impl View for BlockResponse {
    type V = Seq<u8>;

    open spec fn view(&self) -> Seq<u8> {
        match self {
            BlockResponse::Block(b) => b@,
        }
    }
}

/// Reads `count` consecutive items from the front of `s`, each captured as
/// its raw bytes.
pub open spec fn parse_raw_items(s: Seq<u8>, count: nat) -> Result<
    (Seq<Seq<u8>>, nat),
    DecodeError,
>
    decreases count,
{
    if count == 0 {
        Ok((Seq::empty(), 0))
    } else {
        match parse_item(s) {
            Err(e) => Err(e),
            Ok(k) => if 1 <= k && k <= s.len() {
                match parse_raw_items(s.skip(k as int), (count - 1) as nat) {
                    Err(e) => Err(e),
                    Ok((items, k2)) => Ok((seq![s.take(k as int)] + items, (k + k2) as nat)),
                }
            } else {
                Err(DecodeError::MalformedEncoding)
            },
        }
    }
}

/// Reads consecutive items up to and including a break byte, each captured
/// as its raw bytes.
pub open spec fn parse_raw_until_break(s: Seq<u8>) -> Result<(Seq<Seq<u8>>, nat), DecodeError>
    decreases s.len(),
{
    match parse_head(s) {
        Err(e) => Err(e),
        Ok((CborHead::Indefinite(7), n)) => Ok((Seq::empty(), n)),
        Ok(_) => match parse_item(s) {
            Err(e) => Err(e),
            Ok(k) => if 1 <= k && k <= s.len() {
                match parse_raw_until_break(s.skip(k as int)) {
                    Err(e) => Err(e),
                    Ok((items, k2)) => Ok((seq![s.take(k as int)] + items, (k + k2) as nat)),
                }
            } else {
                Err(DecodeError::MalformedEncoding)
            },
        },
    }
}

/// Reads a sequence of headers: a definite- or indefinite-length array
/// whose elements are captured raw.
pub open spec fn parse_header_list(s: Seq<u8>) -> Result<(Seq<Seq<u8>>, nat), DecodeError> {
    match crate::cbor::parse_array_head(s) {
        Err(e) => Err(e),
        Ok((Some(n), k0)) => match parse_raw_items(s.skip(k0 as int), n as nat) {
            Err(e) => Err(e),
            Ok((items, k)) => Ok((items, (k0 + k) as nat)),
        },
        Ok((None, k0)) => match parse_raw_until_break(s.skip(k0 as int)) {
            Err(e) => Err(e),
            Ok((items, k)) => Ok((items, (k0 + k) as nat)),
        },
    }
}

/// Reads a whole header-list response from the front of `s`: arity 2, then
/// discriminant 0 with a header list or 1 with error text; anything else is
/// an unknown variant.
pub open spec fn parse_block_header_response(s: Seq<u8>) -> Result<
    (BlockHeaderResponseView, nat),
    DecodeError,
> {
    match parse_tuple_head(s, 2) {
        Err(e) => Err(e),
        Ok(k0) => match parse_uint(s.skip(k0 as int)) {
            Err(e) => Err(e),
            Ok((disc, k1)) => if disc == 0 {
                match parse_header_list(s.skip((k0 + k1) as int)) {
                    Err(e) => Err(e),
                    Ok((items, k2)) => Ok(
                        (BlockHeaderResponseView::Headers(items), (k0 + k1 + k2) as nat),
                    ),
                }
            } else if disc == 1 {
                match parse_text(s.skip((k0 + k1) as int)) {
                    Err(e) => Err(e),
                    Ok((tb, k2)) => match utf8_decoding(tb) {
                        Some(cs) => Ok((BlockHeaderResponseView::Fail(cs), (k0 + k1 + k2) as nat)),
                        None => Err(DecodeError::MalformedEncoding),
                    },
                }
            } else {
                Err(DecodeError::UnknownVariant(disc))
            },
        },
    }
}

/// Reads a whole block response from the front of `s`: arity 2, then
/// discriminant 0 with the block captured raw; anything else is an unknown
/// variant.
pub open spec fn parse_block_response(s: Seq<u8>) -> Result<(Seq<u8>, nat), DecodeError> {
    match parse_tuple_head(s, 2) {
        Err(e) => Err(e),
        Ok(k0) => match parse_uint(s.skip(k0 as int)) {
            Err(e) => Err(e),
            Ok((disc, k1)) => if disc == 0 {
                match parse_item(s.skip((k0 + k1) as int)) {
                    Err(e) => Err(e),
                    Ok(k2) => Ok(
                        (s.skip((k0 + k1) as int).take(k2 as int), (k0 + k1 + k2) as nat),
                    ),
                }
            } else {
                Err(DecodeError::UnknownVariant(disc))
            },
        },
    }
}

/// Reads `count` headers starting at `pos`, capturing each one raw.
fn collect_n(buf: &[u8], pos: usize, count: u64) -> (r: Result<
    (Vec<BlockHeader>, usize),
    DecodeError,
>)
    requires
        pos <= buf@.len(),
    ensures
        (match parse_raw_items(buf@.skip(pos as int), count as nat) {
            Ok((items, k)) => r matches Ok(p) && p.0@.map_values(|h: BlockHeader| h@) == items
                && p.1 == pos + k && pos + k <= buf@.len(),
            Err(e) => r matches Err(e2) && e2 == e,
        }),
    decreases count,
{
    let ghost s = buf@.skip(pos as int);
    if count == 0 {
        let out: Vec<BlockHeader> = Vec::new();
        assert(out@.map_values(|h: BlockHeader| h@) =~= Seq::<Seq<u8>>::empty());
        Ok((out, pos))
    } else {
        proof {
            lemma_parse_item_bounds(s);
        }
        let end = skip_item(buf, pos)?;
        let piece = copy_range(buf, pos, end);
        assert(piece@ =~= s.take((end - pos) as int));
        proof {
            lemma_skip_skip(buf@, pos as int, (end - pos) as int);
        }
        let (mut rest, fin) = collect_n(buf, end, count - 1)?;
        let ghost tail = rest@.map_values(|h: BlockHeader| h@);
        let header = BlockHeader { bytes: piece };
        rest.insert(0, header);
        assert(rest@.map_values(|h: BlockHeader| h@) =~= seq![header@] + tail);
        Ok((rest, fin))
    }
}

/// Reads headers up to a break byte starting at `pos`, capturing each one
/// raw.
fn collect_until_break(buf: &[u8], pos: usize) -> (r: Result<
    (Vec<BlockHeader>, usize),
    DecodeError,
>)
    requires
        pos <= buf@.len(),
    ensures
        (match parse_raw_until_break(buf@.skip(pos as int)) {
            Ok((items, k)) => r matches Ok(p) && p.0@.map_values(|h: BlockHeader| h@) == items
                && p.1 == pos + k && pos + k <= buf@.len(),
            Err(e) => r matches Err(e2) && e2 == e,
        }),
    decreases buf@.len() - pos,
{
    let ghost s = buf@.skip(pos as int);
    proof {
        crate::cbor::lemma_parse_head_bounds(s);
    }
    match read_head(buf, pos)? {
        (CborHead::Indefinite(7), p) => {
            let out: Vec<BlockHeader> = Vec::new();
            assert(out@.map_values(|h: BlockHeader| h@) =~= Seq::<Seq<u8>>::empty());
            Ok((out, p))
        },
        _ => {
            proof {
                lemma_parse_item_bounds(s);
            }
            let end = skip_item(buf, pos)?;
            let piece = copy_range(buf, pos, end);
            assert(piece@ =~= s.take((end - pos) as int));
            proof {
                lemma_skip_skip(buf@, pos as int, (end - pos) as int);
            }
            let (mut rest, fin) = collect_until_break(buf, end)?;
            let ghost tail = rest@.map_values(|h: BlockHeader| h@);
            let header = BlockHeader { bytes: piece };
            rest.insert(0, header);
            assert(rest@.map_values(|h: BlockHeader| h@) =~= seq![header@] + tail);
            Ok((rest, fin))
        },
    }
}

impl BlockHeaderResponse {
    /// Decodes a header-list response from `buf`; trailing bytes are left
    /// unread.
    pub fn deserialize(buf: &[u8]) -> (r: Result<BlockHeaderResponse, DecodeError>)
        ensures
            (match parse_block_header_response(buf@) {
                Ok((v, n)) => r matches Ok(resp) && resp@ == v,
                Err(e) => r matches Err(e2) && e2 == e,
            }),
    {
        assert(buf@.skip(0) =~= buf@);
        let p0 = read_tuple_head(buf, 0, 2)?;
        proof {
            lemma_skip_skip(buf@, 0, p0 as int);
        }
        let (disc, p1) = read_uint(buf, p0)?;
        proof {
            lemma_skip_skip(buf@, 0, p1 as int);
        }
        if disc == 0 {
            let (headers, _end) = (match crate::cbor::read_array_head(buf, p1)? {
                (Some(n), p2) => {
                    proof {
                        lemma_skip_skip(buf@, p1 as int, (p2 - p1) as int);
                    }
                    collect_n(buf, p2, n)?
                },
                (None, p2) => {
                    proof {
                        lemma_skip_skip(buf@, p1 as int, (p2 - p1) as int);
                    }
                    collect_until_break(buf, p2)?
                },
            });
            Ok(BlockHeaderResponse::Headers(headers))
        } else if disc == 1 {
            let (tb, _end) = read_text(buf, p1)?;
            match bytes_to_string(tb) {
                Some(text) => Ok(BlockHeaderResponse::Fail(text)),
                None => Err(DecodeError::MalformedEncoding),
            }
        } else {
            Err(DecodeError::UnknownVariant(disc))
        }
    }
}

impl BlockResponse {
    /// Decodes a block response from `buf`; trailing bytes are left unread.
    pub fn deserialize(buf: &[u8]) -> (r: Result<BlockResponse, DecodeError>)
        ensures
            (match parse_block_response(buf@) {
                Ok((v, n)) => r matches Ok(resp) && resp@ == v,
                Err(e) => r matches Err(e2) && e2 == e,
            }),
    {
        assert(buf@.skip(0) =~= buf@);
        let p0 = read_tuple_head(buf, 0, 2)?;
        proof {
            lemma_skip_skip(buf@, 0, p0 as int);
        }
        let (disc, p1) = read_uint(buf, p0)?;
        proof {
            lemma_skip_skip(buf@, 0, p1 as int);
        }
        if disc == 0 {
            let ghost s1 = buf@.skip(p1 as int);
            proof {
                lemma_parse_item_bounds(s1);
            }
            let end = skip_item(buf, p1)?;
            let piece = copy_range(buf, p1, end);
            assert(piece@ =~= s1.take((end - p1) as int));
            Ok(BlockResponse::Block(Block { bytes: piece }))
        } else {
            Err(DecodeError::UnknownVariant(disc))
        }
    }
}

} // verus!
