//! The boundary of one complete wire item, whatever its shape.  The response
//! decoders carry block headers and blocks through as opaque payloads, so
//! they only need to know where one item ends: `parse_item` gives that
//! boundary in the specification and `skip_item` computes it.

use vstd::prelude::*;

use crate::cbor::{lemma_skip_skip, parse_head, read_head, CborHead};
use crate::error::DecodeError;

verus! {

/// The number of bytes taken by one complete item at the front of `s`:
/// its head, its payload, and every nested item.  Indefinite-length arrays
/// and maps run until a break; indefinite-length strings are not accepted.
pub open spec fn parse_item(s: Seq<u8>) -> Result<nat, DecodeError>
    decreases s.len(), 0nat,
{
    match parse_head(s) {
        Err(e) => Err(e),
        Ok((CborHead::Value(major, v), n)) => {
            if major == 0 || major == 1 || major == 7 {
                Ok(n)
            } else if major == 2 || major == 3 {
                if n + v <= s.len() {
                    Ok((n + v) as nat)
                } else {
                    Err(DecodeError::MalformedEncoding)
                }
            } else if major == 4 || major == 5 {
                let count: nat = if major == 4 {
                    v as nat
                } else {
                    2 * (v as nat)
                };
                if 1 <= n && n <= s.len() {
                    match parse_items(s.skip(n as int), count) {
                        Err(e) => Err(e),
                        Ok(k) => Ok((n + k) as nat),
                    }
                } else {
                    Err(DecodeError::MalformedEncoding)
                }
            } else {
                if 1 <= n && n <= s.len() {
                    match parse_item(s.skip(n as int)) {
                        Err(e) => Err(e),
                        Ok(k) => Ok((n + k) as nat),
                    }
                } else {
                    Err(DecodeError::MalformedEncoding)
                }
            }
        },
        Ok((CborHead::Indefinite(major), n)) => {
            if major == 4 || major == 5 {
                if 1 <= n && n <= s.len() {
                    match parse_items_until_break(s.skip(n as int)) {
                        Err(e) => Err(e),
                        Ok(k) => Ok((n + k) as nat),
                    }
                } else {
                    Err(DecodeError::MalformedEncoding)
                }
            } else {
                Err(DecodeError::MalformedEncoding)
            }
        },
    }
}

/// The bytes taken by `count` consecutive items at the front of `s`.
pub open spec fn parse_items(s: Seq<u8>, count: nat) -> Result<nat, DecodeError>
    decreases s.len(), 1nat,
{
    if count == 0 {
        Ok(0)
    } else {
        match parse_item(s) {
            Err(e) => Err(e),
            Ok(k) => if 1 <= k && k <= s.len() {
                match parse_items(s.skip(k as int), (count - 1) as nat) {
                    Err(e) => Err(e),
                    Ok(k2) => Ok((k + k2) as nat),
                }
            } else {
                Err(DecodeError::MalformedEncoding)
            },
        }
    }
}

/// The bytes taken by consecutive items up to and including a break byte.
pub open spec fn parse_items_until_break(s: Seq<u8>) -> Result<nat, DecodeError>
    decreases s.len(), 1nat,
{
    match parse_head(s) {
        Err(e) => Err(e),
        Ok((CborHead::Indefinite(7), n)) => Ok(n),
        Ok(_) => match parse_item(s) {
            Err(e) => Err(e),
            Ok(k) => if 1 <= k && k <= s.len() {
                match parse_items_until_break(s.skip(k as int)) {
                    Err(e) => Err(e),
                    Ok(k2) => Ok((k + k2) as nat),
                }
            } else {
                Err(DecodeError::MalformedEncoding)
            },
        },
    }
}

/// A successful item parse consumes between 1 and `s.len()` bytes.
pub proof fn lemma_parse_item_bounds(s: Seq<u8>)
    ensures
        (match parse_item(s) {
            Ok(k) => 1 <= k && k <= s.len(),
            Err(e) => true,
        }),
    decreases s.len(), 0nat,
{
    match parse_head(s) {
        Err(e) => {},
        Ok((CborHead::Value(major, v), n)) => {
            crate::cbor::lemma_parse_head_bounds(s);
            if major == 0 || major == 1 || major == 7 || major == 2 || major == 3 {
            } else if major == 4 || major == 5 {
                if 1 <= n && n <= s.len() {
                    let count: nat = if major == 4 {
                        v as nat
                    } else {
                        2 * (v as nat)
                    };
                    lemma_parse_items_bounds(s.skip(n as int), count);
                }
            } else {
                if 1 <= n && n <= s.len() {
                    lemma_parse_item_bounds(s.skip(n as int));
                }
            }
        },
        Ok((CborHead::Indefinite(major), n)) => {
            crate::cbor::lemma_parse_head_bounds(s);
            if major == 4 || major == 5 {
                if 1 <= n && n <= s.len() {
                    lemma_parse_items_until_break_bounds(s.skip(n as int));
                }
            }
        },
    }
}

/// Parsing `count` items consumes at most `s.len()` bytes.
pub proof fn lemma_parse_items_bounds(s: Seq<u8>, count: nat)
    ensures
        (match parse_items(s, count) {
            Ok(k) => k <= s.len(),
            Err(e) => true,
        }),
    decreases s.len(), 1nat,
{
    if count != 0 {
        match parse_item(s) {
            Err(e) => {},
            Ok(k) => {
                lemma_parse_item_bounds(s);
                if 1 <= k && k <= s.len() {
                    lemma_parse_items_bounds(s.skip(k as int), (count - 1) as nat);
                }
            },
        }
    }
}

/// Parsing items up to a break consumes between 1 and `s.len()` bytes.
pub proof fn lemma_parse_items_until_break_bounds(s: Seq<u8>)
    ensures
        (match parse_items_until_break(s) {
            Ok(k) => 1 <= k && k <= s.len(),
            Err(e) => true,
        }),
    decreases s.len(), 1nat,
{
    match parse_head(s) {
        Err(e) => {},
        Ok((CborHead::Indefinite(7), n)) => {
            crate::cbor::lemma_parse_head_bounds(s);
        },
        Ok(_) => {
            match parse_item(s) {
                Err(e) => {},
                Ok(k) => {
                    lemma_parse_item_bounds(s);
                    if 1 <= k && k <= s.len() {
                        lemma_parse_items_until_break_bounds(s.skip(k as int));
                    }
                },
            }
        },
    }
}

/// Steps over one complete item starting at `pos`, returning the position
/// just after it.
pub fn skip_item(buf: &[u8], pos: usize) -> (r: Result<usize, DecodeError>)
    requires
        pos <= buf@.len(),
    ensures
        (match parse_item(buf@.skip(pos as int)) {
            Ok(k) => r matches Ok(end) && end == pos + k && end <= buf@.len(),
            Err(e) => r matches Err(e2) && e2 == e,
        }),
    decreases buf@.len() - pos, 0nat,
{
    let ghost s = buf@.skip(pos as int);
    proof {
        lemma_parse_item_bounds(s);
        crate::cbor::lemma_parse_head_bounds(s);
    }
    match read_head(buf, pos)? {
        (CborHead::Value(major, v), p) => {
            if major == 0 || major == 1 || major == 7 {
                Ok(p)
            } else if major == 2 || major == 3 {
                if v > (buf.len() - p) as u64 {
                    Err(DecodeError::MalformedEncoding)
                } else {
                    Ok(p + (v as usize))
                }
            } else if major == 4 || major == 5 {
                let count: u128 = if major == 4 {
                    v as u128
                } else {
                    2 * (v as u128)
                };
                proof {
                    lemma_skip_skip(buf@, pos as int, (p - pos) as int);
                }
                match skip_items(buf, p, count) {
                    Err(e) => Err(e),
                    Ok(end) => Ok(end),
                }
            } else {
                proof {
                    lemma_skip_skip(buf@, pos as int, (p - pos) as int);
                }
                match skip_item(buf, p) {
                    Err(e) => Err(e),
                    Ok(end) => Ok(end),
                }
            }
        },
        (CborHead::Indefinite(major), p) => {
            if major == 4 || major == 5 {
                proof {
                    lemma_skip_skip(buf@, pos as int, (p - pos) as int);
                }
                match skip_until_break(buf, p) {
                    Err(e) => Err(e),
                    Ok(end) => Ok(end),
                }
            } else {
                Err(DecodeError::MalformedEncoding)
            }
        },
    }
}

/// Steps over `count` consecutive items starting at `pos`.
pub fn skip_items(buf: &[u8], pos: usize, count: u128) -> (r: Result<usize, DecodeError>)
    requires
        pos <= buf@.len(),
    ensures
        (match parse_items(buf@.skip(pos as int), count as nat) {
            Ok(k) => r matches Ok(end) && end == pos + k && end <= buf@.len(),
            Err(e) => r matches Err(e2) && e2 == e,
        }),
    decreases buf@.len() - pos, 1nat,
{
    if count == 0 {
        Ok(pos)
    } else {
        proof {
            lemma_parse_item_bounds(buf@.skip(pos as int));
        }
        let q = skip_item(buf, pos)?;
        proof {
            lemma_skip_skip(buf@, pos as int, (q - pos) as int);
        }
        let end = skip_items(buf, q, count - 1)?;
        Ok(end)
    }
}

/// Steps over consecutive items up to and including a break byte, starting
/// at `pos`.
pub fn skip_until_break(buf: &[u8], pos: usize) -> (r: Result<usize, DecodeError>)
    requires
        pos <= buf@.len(),
    ensures
        (match parse_items_until_break(buf@.skip(pos as int)) {
            Ok(k) => r matches Ok(end) && end == pos + k && end <= buf@.len(),
            Err(e) => r matches Err(e2) && e2 == e,
        }),
    decreases buf@.len() - pos, 1nat,
{
    let ghost s = buf@.skip(pos as int);
    proof {
        crate::cbor::lemma_parse_head_bounds(s);
    }
    match read_head(buf, pos)? {
        (CborHead::Indefinite(7), p) => Ok(p),
        _ => {
            proof {
                lemma_parse_item_bounds(s);
            }
            let q = skip_item(buf, pos)?;
            proof {
                lemma_skip_skip(buf@, pos as int, (q - pos) as int);
            }
            let end = skip_until_break(buf, q)?;
            Ok(end)
        },
    }
}

} // verus!
