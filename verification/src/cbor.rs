//! The binary item grammar used on the wire: each item starts with a head
//! byte whose high three bits are a major type and whose low five bits are
//! additional information, followed by zero to eight big-endian argument
//! bytes.  Encoding always emits the canonical (shortest) head; decoding
//! accepts any well-formed head.

use vstd::prelude::*;

use crate::error::DecodeError;

verus! {

/// A decoded item head: a major type with its argument, or an
/// indefinite-length marker for a major type.
#[derive(Debug, Clone, Copy, PartialEq, Eq, Structural)]
pub enum CborHead {
    Value(u8, u64),
    Indefinite(u8),
}

pub open spec fn be16(b0: u8, b1: u8) -> u64 {
    ((b0 as u64) << 8) | (b1 as u64)
}

pub open spec fn be32(b0: u8, b1: u8, b2: u8, b3: u8) -> u64 {
    ((b0 as u64) << 24) | ((b1 as u64) << 16) | ((b2 as u64) << 8) | (b3 as u64)
}

pub open spec fn be64(b0: u8, b1: u8, b2: u8, b3: u8, b4: u8, b5: u8, b6: u8, b7: u8) -> u64 {
    ((b0 as u64) << 56) | ((b1 as u64) << 48) | ((b2 as u64) << 40) | ((b3 as u64) << 32)
        | ((b4 as u64) << 24) | ((b5 as u64) << 16) | ((b6 as u64) << 8) | (b7 as u64)
}

/// The canonical head for a major type and argument: the shortest form that
/// holds the argument.
#[verifier::opaque]
pub open spec fn enc_head(major: u8, v: u64) -> Seq<u8>
    recommends
        major < 8,
{
    if v < 24 {
        seq![(major << 5) | (v as u8)]
    } else if v <= 0xff {
        seq![(major << 5) | 24, v as u8]
    } else if v <= 0xffff {
        seq![(major << 5) | 25, (v >> 8) as u8, v as u8]
    } else if v <= 0xffff_ffff {
        seq![(major << 5) | 26, (v >> 24) as u8, (v >> 16) as u8, (v >> 8) as u8, v as u8]
    } else {
        seq![(major << 5) | 27, (v >> 56) as u8, (v >> 48) as u8, (v >> 40) as u8,
            (v >> 32) as u8, (v >> 24) as u8, (v >> 16) as u8, (v >> 8) as u8, v as u8]
    }
}

/// Reads one head from the front of `s`: the head and the number of bytes it
/// took, or an error on truncated input or a reserved additional-information
/// value.
#[verifier::opaque]
pub open spec fn parse_head(s: Seq<u8>) -> Result<(CborHead, nat), DecodeError> {
    if s.len() == 0 {
        Err(DecodeError::MalformedEncoding)
    } else {
        let major = s[0] >> 5;
        let ai = s[0] & 0x1f;
        if ai < 24 {
            Ok((CborHead::Value(major, ai as u64), 1))
        } else if ai == 24 {
            if s.len() >= 2 {
                Ok((CborHead::Value(major, s[1] as u64), 2))
            } else {
                Err(DecodeError::MalformedEncoding)
            }
        } else if ai == 25 {
            if s.len() >= 3 {
                Ok((CborHead::Value(major, be16(s[1], s[2])), 3))
            } else {
                Err(DecodeError::MalformedEncoding)
            }
        } else if ai == 26 {
            if s.len() >= 5 {
                Ok((CborHead::Value(major, be32(s[1], s[2], s[3], s[4])), 5))
            } else {
                Err(DecodeError::MalformedEncoding)
            }
        } else if ai == 27 {
            if s.len() >= 9 {
                Ok((CborHead::Value(major, be64(s[1], s[2], s[3], s[4], s[5], s[6], s[7], s[8])),
                    9))
            } else {
                Err(DecodeError::MalformedEncoding)
            }
        } else if ai == 31 {
            Ok((CborHead::Indefinite(major), 1))
        } else {
            Err(DecodeError::MalformedEncoding)
        }
    }
}

/// A successful head parse consumes between 1 and `s.len()` bytes.
pub proof fn lemma_parse_head_bounds(s: Seq<u8>)
    ensures
        (match parse_head(s) {
            Ok((h, n)) => 1 <= n && n <= s.len(),
            Err(e) => true,
        }),
{
    reveal(parse_head);
}

/// A canonical head takes between 1 and 9 bytes.
pub proof fn lemma_enc_head_len(major: u8, v: u64)
    ensures
        1 <= enc_head(major, v).len() <= 9,
{
    reveal(enc_head);
}

/// Parsing starts again exactly after a canonical head: the head comes back
/// unchanged whatever follows it.
pub proof fn lemma_parse_enc_head(major: u8, v: u64, rest: Seq<u8>)
    requires
        major < 8,
    ensures
        parse_head(enc_head(major, v) + rest) == Ok::<(CborHead, nat), DecodeError>(
            (CborHead::Value(major, v), enc_head(major, v).len() as nat),
        ),
{
    reveal(enc_head);
    reveal(parse_head);
    let e = enc_head(major, v);
    let s = e + rest;
    if v < 24 {
        let b: u8 = (major << 5) | (v as u8);
        assert(s[0] == b);
        assert(b >> 5 == major && (b & 0x1f) as u64 == v && b & 0x1f < 24) by (bit_vector)
            requires
                major < 8,
                v < 24,
                b == (major << 5) | (v as u8),
        ;
    } else if v <= 0xff {
        let b: u8 = (major << 5) | 24;
        assert(s[0] == b && s[1] == (v as u8));
        assert(b >> 5 == major && b & 0x1f == 24 && (v as u8) as u64 == v) by (bit_vector)
            requires
                major < 8,
                24 <= v <= 0xff,
                b == (major << 5) | 24,
        ;
    } else if v <= 0xffff {
        let b: u8 = (major << 5) | 25;
        assert(s[0] == b && s[1] == ((v >> 8) as u8) && s[2] == (v as u8));
        assert(b >> 5 == major && b & 0x1f == 25 && be16((v >> 8) as u8, v as u8) == v)
            by (bit_vector)
            requires
                major < 8,
                0xff < v <= 0xffff,
                b == (major << 5) | 25,
        ;
    } else if v <= 0xffff_ffff {
        let b: u8 = (major << 5) | 26;
        assert(s[0] == b && s[1] == ((v >> 24) as u8) && s[2] == ((v >> 16) as u8) && s[3] == ((v
            >> 8) as u8) && s[4] == (v as u8));
        assert(b >> 5 == major && b & 0x1f == 26 && be32(
            (v >> 24) as u8,
            (v >> 16) as u8,
            (v >> 8) as u8,
            v as u8,
        ) == v) by (bit_vector)
            requires
                major < 8,
                0xffff < v <= 0xffff_ffff,
                b == (major << 5) | 26,
        ;
    } else {
        let b: u8 = (major << 5) | 27;
        assert(s[0] == b && s[1] == ((v >> 56) as u8) && s[2] == ((v >> 48) as u8) && s[3] == ((v
            >> 40) as u8) && s[4] == ((v >> 32) as u8) && s[5] == ((v >> 24) as u8) && s[6] == ((v
            >> 16) as u8) && s[7] == ((v >> 8) as u8) && s[8] == (v as u8));
        assert(b >> 5 == major && b & 0x1f == 27 && be64(
            (v >> 56) as u8,
            (v >> 48) as u8,
            (v >> 40) as u8,
            (v >> 32) as u8,
            (v >> 24) as u8,
            (v >> 16) as u8,
            (v >> 8) as u8,
            v as u8,
        ) == v) by (bit_vector)
            requires
                major < 8,
                0xffff_ffff < v,
                b == (major << 5) | 27,
        ;
    }
}

/// Appends the canonical head for `major` and `v` to `out`.
pub fn write_head(out: &mut Vec<u8>, major: u8, v: u64)
    requires
        major < 8,
    ensures
        final(out)@ == old(out)@ + enc_head(major, v),
{
    proof {
        reveal(enc_head);
    }
    let b0: u8 = major << 5;
    if v < 24 {
        out.push(b0 | (v as u8));
    } else if v <= 0xff {
        out.push(b0 | 24);
        out.push(v as u8);
    } else if v <= 0xffff {
        out.push(b0 | 25);
        out.push((v >> 8) as u8);
        out.push(v as u8);
    } else if v <= 0xffff_ffff {
        out.push(b0 | 26);
        out.push((v >> 24) as u8);
        out.push((v >> 16) as u8);
        out.push((v >> 8) as u8);
        out.push(v as u8);
    } else {
        out.push(b0 | 27);
        out.push((v >> 56) as u8);
        out.push((v >> 48) as u8);
        out.push((v >> 40) as u8);
        out.push((v >> 32) as u8);
        out.push((v >> 24) as u8);
        out.push((v >> 16) as u8);
        out.push((v >> 8) as u8);
        out.push(v as u8);
    }
    assert(out@ =~= old(out)@ + enc_head(major, v));
}

/// Reads one head starting at `pos`, returning it with the position just
/// after it.
pub fn read_head(buf: &[u8], pos: usize) -> (r: Result<(CborHead, usize), DecodeError>)
    requires
        pos <= buf@.len(),
    ensures
        (match parse_head(buf@.skip(pos as int)) {
            Ok((h, n)) => r matches Ok(p) && p.0 == h && p.1 == pos + n && pos + n <= buf@.len(),
            Err(e) => r matches Err(e2) && e2 == e,
        }),
{
    let ghost s = buf@.skip(pos as int);
    proof {
        reveal(parse_head);
    }
    if pos >= buf.len() {
        return Err(DecodeError::MalformedEncoding);
    }
    let remaining = buf.len() - pos;
    assert(s[0] == buf@[pos as int]);
    let b = buf[pos];
    let major = b >> 5;
    let ai = b & 0x1f;
    if ai < 24 {
        Ok((CborHead::Value(major, ai as u64), pos + 1))
    } else if ai == 24 {
        if remaining < 2 {
            return Err(DecodeError::MalformedEncoding);
        }
        assert(s[1] == buf@[pos + 1]);
        Ok((CborHead::Value(major, buf[pos + 1] as u64), pos + 2))
    } else if ai == 25 {
        if remaining < 3 {
            return Err(DecodeError::MalformedEncoding);
        }
        assert(s[1] == buf@[pos + 1] && s[2] == buf@[pos + 2]);
        let v = ((buf[pos + 1] as u64) << 8) | (buf[pos + 2] as u64);
        Ok((CborHead::Value(major, v), pos + 3))
    } else if ai == 26 {
        if remaining < 5 {
            return Err(DecodeError::MalformedEncoding);
        }
        assert(s[1] == buf@[pos + 1] && s[2] == buf@[pos + 2] && s[3] == buf@[pos + 3] && s[4]
            == buf@[pos + 4]);
        let v = ((buf[pos + 1] as u64) << 24) | ((buf[pos + 2] as u64) << 16) | ((buf[pos
            + 3] as u64) << 8) | (buf[pos + 4] as u64);
        Ok((CborHead::Value(major, v), pos + 5))
    } else if ai == 27 {
        if remaining < 9 {
            return Err(DecodeError::MalformedEncoding);
        }
        assert(s[1] == buf@[pos + 1] && s[2] == buf@[pos + 2] && s[3] == buf@[pos + 3] && s[4]
            == buf@[pos + 4] && s[5] == buf@[pos + 5] && s[6] == buf@[pos + 6] && s[7] == buf@[pos
            + 7] && s[8] == buf@[pos + 8]);
        let v = ((buf[pos + 1] as u64) << 56) | ((buf[pos + 2] as u64) << 48) | ((buf[pos
            + 3] as u64) << 40) | ((buf[pos + 4] as u64) << 32) | ((buf[pos + 5] as u64) << 24) | ((
        buf[pos + 6] as u64) << 16) | ((buf[pos + 7] as u64) << 8) | (buf[pos + 8] as u64);
        Ok((CborHead::Value(major, v), pos + 9))
    } else if ai == 31 {
        Ok((CborHead::Indefinite(major), pos + 1))
    } else {
        Err(DecodeError::MalformedEncoding)
    }
}

/// Skipping a prefix in two steps is skipping it in one.
pub proof fn lemma_skip_skip(s: Seq<u8>, a: int, b: int)
    requires
        0 <= a,
        0 <= b,
        a + b <= s.len(),
    ensures
        s.skip(a).skip(b) == s.skip(a + b),
{
    assert(s.skip(a).skip(b) =~= s.skip(a + b));
}

/// What follows an appended prefix is the appended suffix.
pub proof fn lemma_skip_append(a: Seq<u8>, b: Seq<u8>)
    ensures
        (a + b).skip(a.len() as int) == b,
{
    assert((a + b).skip(a.len() as int) =~= b);
}

pub open spec fn enc_uint(v: u64) -> Seq<u8> {
    enc_head(0, v)
}

pub open spec fn enc_tag(t: u64) -> Seq<u8> {
    enc_head(6, t)
}

pub open spec fn enc_bytes(b: Seq<u8>) -> Seq<u8>
    recommends
        b.len() <= u64::MAX,
{
    enc_head(2, b.len() as u64) + b
}

pub open spec fn enc_array(n: u64) -> Seq<u8> {
    enc_head(4, n)
}

pub open spec fn enc_map(n: u64) -> Seq<u8> {
    enc_head(5, n)
}

/// Reads an unsigned integer item.
pub open spec fn parse_uint(s: Seq<u8>) -> Result<(u64, nat), DecodeError> {
    match parse_head(s) {
        Ok((CborHead::Value(major, v), n)) => if major == 0 {
            Ok((v, n))
        } else {
            Err(DecodeError::MalformedEncoding)
        },
        Ok((CborHead::Indefinite(major), n)) => Err(DecodeError::MalformedEncoding),
        Err(e) => Err(e),
    }
}

/// Reads a semantic tag.
pub open spec fn parse_tag(s: Seq<u8>) -> Result<(u64, nat), DecodeError> {
    match parse_head(s) {
        Ok((CborHead::Value(major, v), n)) => if major == 6 {
            Ok((v, n))
        } else {
            Err(DecodeError::MalformedEncoding)
        },
        Ok((CborHead::Indefinite(major), n)) => Err(DecodeError::MalformedEncoding),
        Err(e) => Err(e),
    }
}

/// Reads a definite-length byte string: its contents and the bytes consumed.
pub open spec fn parse_bytes(s: Seq<u8>) -> Result<(Seq<u8>, nat), DecodeError> {
    match parse_head(s) {
        Ok((CborHead::Value(major, v), n)) => if major == 2 {
            if n + v <= s.len() {
                Ok((s.subrange(n as int, n + v), (n + v) as nat))
            } else {
                Err(DecodeError::MalformedEncoding)
            }
        } else {
            Err(DecodeError::MalformedEncoding)
        },
        Ok((CborHead::Indefinite(major), n)) => Err(DecodeError::MalformedEncoding),
        Err(e) => Err(e),
    }
}

/// Reads a definite-length text string: its raw bytes and the bytes consumed.
pub open spec fn parse_text(s: Seq<u8>) -> Result<(Seq<u8>, nat), DecodeError> {
    match parse_head(s) {
        Ok((CborHead::Value(major, v), n)) => if major == 3 {
            if n + v <= s.len() {
                Ok((s.subrange(n as int, n + v), (n + v) as nat))
            } else {
                Err(DecodeError::MalformedEncoding)
            }
        } else {
            Err(DecodeError::MalformedEncoding)
        },
        Ok((CborHead::Indefinite(major), n)) => Err(DecodeError::MalformedEncoding),
        Err(e) => Err(e),
    }
}

/// Reads the head of a fixed-arity sequence, demanding exactly `expected`
/// elements.  A definite array of another length is an arity mismatch; an
/// indefinite array or any other item is malformed.
pub open spec fn parse_tuple_head(s: Seq<u8>, expected: u64) -> Result<nat, DecodeError> {
    match parse_head(s) {
        Ok((CborHead::Value(major, n0), k)) => if major == 4 {
            if n0 == expected {
                Ok(k)
            } else {
                Err(DecodeError::ArityMismatch { expected, actual: n0 })
            }
        } else {
            Err(DecodeError::MalformedEncoding)
        },
        Ok((CborHead::Indefinite(major), k)) => Err(DecodeError::MalformedEncoding),
        Err(e) => Err(e),
    }
}

/// Reads an array head: `Some(n)` for a definite length, `None` for an
/// indefinite one.
pub open spec fn parse_array_head(s: Seq<u8>) -> Result<(Option<u64>, nat), DecodeError> {
    match parse_head(s) {
        Ok((CborHead::Value(major, n0), k)) => if major == 4 {
            Ok((Some(n0), k))
        } else {
            Err(DecodeError::MalformedEncoding)
        },
        Ok((CborHead::Indefinite(major), k)) => if major == 4 {
            Ok((None, k))
        } else {
            Err(DecodeError::MalformedEncoding)
        },
        Err(e) => Err(e),
    }
}

/// Reads a definite-length map head: the number of entries.
pub open spec fn parse_map_head(s: Seq<u8>) -> Result<(u64, nat), DecodeError> {
    match parse_head(s) {
        Ok((CborHead::Value(major, n0), k)) => if major == 5 {
            Ok((n0, k))
        } else {
            Err(DecodeError::MalformedEncoding)
        },
        Ok((CborHead::Indefinite(major), k)) => Err(DecodeError::MalformedEncoding),
        Err(e) => Err(e),
    }
}

pub proof fn lemma_parse_enc_uint(v: u64, rest: Seq<u8>)
    ensures
        parse_uint(enc_uint(v) + rest) == Ok::<(u64, nat), DecodeError>(
            (v, enc_uint(v).len() as nat),
        ),
{
    lemma_parse_enc_head(0, v, rest);
}

pub proof fn lemma_parse_enc_tag(t: u64, rest: Seq<u8>)
    ensures
        parse_tag(enc_tag(t) + rest) == Ok::<(u64, nat), DecodeError>(
            (t, enc_tag(t).len() as nat),
        ),
{
    lemma_parse_enc_head(6, t, rest);
}

pub proof fn lemma_parse_enc_bytes(b: Seq<u8>, rest: Seq<u8>)
    requires
        b.len() <= u64::MAX,
    ensures
        parse_bytes(enc_bytes(b) + rest) == Ok::<(Seq<u8>, nat), DecodeError>(
            (b, enc_bytes(b).len() as nat),
        ),
{
    let h = enc_head(2, b.len() as u64);
    assert(enc_bytes(b) + rest =~= h + (b + rest));
    lemma_parse_enc_head(2, b.len() as u64, b + rest);
    let s = h + (b + rest);
    assert(s.subrange(h.len() as int, h.len() as int + b.len() as int) =~= b);
}

pub proof fn lemma_parse_enc_tuple_head(n: u64, rest: Seq<u8>)
    ensures
        parse_tuple_head(enc_array(n) + rest, n) == Ok::<nat, DecodeError>(
            enc_array(n).len() as nat,
        ),
{
    lemma_parse_enc_head(4, n, rest);
}

pub proof fn lemma_parse_enc_map_head(n: u64, rest: Seq<u8>)
    ensures
        parse_map_head(enc_map(n) + rest) == Ok::<(u64, nat), DecodeError>(
            (n, enc_map(n).len() as nat),
        ),
{
    lemma_parse_enc_head(5, n, rest);
}

/// Appends an unsigned integer item.
pub fn write_uint(out: &mut Vec<u8>, v: u64)
    ensures
        final(out)@ == old(out)@ + enc_uint(v),
{
    write_head(out, 0, v);
}

/// Appends a semantic tag.
pub fn write_tag(out: &mut Vec<u8>, t: u64)
    ensures
        final(out)@ == old(out)@ + enc_tag(t),
{
    write_head(out, 6, t);
}

/// Appends every byte of `b`.
pub fn push_all(out: &mut Vec<u8>, b: &[u8])
    ensures
        final(out)@ == old(out)@ + b@,
{
    let mut i: usize = 0;
    assert(out@ =~= out@ + b@.take(0));
    while i < b.len()
        invariant
            i <= b@.len(),
            out@ == old(out)@ + b@.take(i as int),
        decreases b@.len() - i,
    {
        out.push(b[i]);
        assert(out@ =~= old(out)@ + b@.take(i + 1));
        i = i + 1;
    }
    assert(out@ =~= old(out)@ + b@);
}

/// Appends a definite-length byte string holding `b`.
pub fn write_bytes(out: &mut Vec<u8>, b: &[u8])
    ensures
        final(out)@ == old(out)@ + enc_bytes(b@),
{
    write_head(out, 2, b.len() as u64);
    push_all(out, b);
    assert(out@ =~= old(out)@ + enc_bytes(b@));
}

/// Appends a definite-length array head.
pub fn write_array(out: &mut Vec<u8>, n: u64)
    ensures
        final(out)@ == old(out)@ + enc_array(n),
{
    write_head(out, 4, n);
}

/// Appends a definite-length map head.
pub fn write_map(out: &mut Vec<u8>, n: u64)
    ensures
        final(out)@ == old(out)@ + enc_map(n),
{
    write_head(out, 5, n);
}

/// Reads an unsigned integer item starting at `pos`.
pub fn read_uint(buf: &[u8], pos: usize) -> (r: Result<(u64, usize), DecodeError>)
    requires
        pos <= buf@.len(),
    ensures
        (match parse_uint(buf@.skip(pos as int)) {
            Ok((v, n)) => r matches Ok(p) && p.0 == v && p.1 == pos + n && pos + n <= buf@.len(),
            Err(e) => r matches Err(e2) && e2 == e,
        }),
{
    match read_head(buf, pos)? {
        (CborHead::Value(0, v), p) => Ok((v, p)),
        _ => Err(DecodeError::MalformedEncoding),
    }
}

/// Reads a semantic tag starting at `pos`.
pub fn read_tag(buf: &[u8], pos: usize) -> (r: Result<(u64, usize), DecodeError>)
    requires
        pos <= buf@.len(),
    ensures
        (match parse_tag(buf@.skip(pos as int)) {
            Ok((t, n)) => r matches Ok(p) && p.0 == t && p.1 == pos + n && pos + n <= buf@.len(),
            Err(e) => r matches Err(e2) && e2 == e,
        }),
{
    match read_head(buf, pos)? {
        (CborHead::Value(6, t), p) => Ok((t, p)),
        _ => Err(DecodeError::MalformedEncoding),
    }
}

/// Copies `buf[start..end]` into a fresh vector.
pub fn copy_range(buf: &[u8], start: usize, end: usize) -> (r: Vec<u8>)
    requires
        start <= end <= buf@.len(),
    ensures
        r@ == buf@.subrange(start as int, end as int),
{
    let mut r: Vec<u8> = Vec::new();
    assert(r@ =~= buf@.subrange(start as int, start as int));
    let mut i: usize = start;
    while i < end
        invariant
            start <= i <= end <= buf@.len(),
            r@ == buf@.subrange(start as int, i as int),
        decreases end - i,
    {
        r.push(buf[i]);
        assert(r@ =~= buf@.subrange(start as int, i + 1));
        i = i + 1;
    }
    r
}

/// Reads a definite-length byte string starting at `pos`, returning its
/// contents.
pub fn read_bytes(buf: &[u8], pos: usize) -> (r: Result<(Vec<u8>, usize), DecodeError>)
    requires
        pos <= buf@.len(),
    ensures
        (match parse_bytes(buf@.skip(pos as int)) {
            Ok((b, n)) => r matches Ok(p) && p.0@ == b && p.1 == pos + n && pos + n <= buf@.len(),
            Err(e) => r matches Err(e2) && e2 == e,
        }),
{
    let ghost s = buf@.skip(pos as int);
    match read_head(buf, pos)? {
        (CborHead::Value(2, v), p) => {
            if v > (buf.len() - p) as u64 {
                return Err(DecodeError::MalformedEncoding);
            }
            let end = p + (v as usize);
            let piece = copy_range(buf, p, end);
            assert(piece@ =~= s.subrange((p - pos) as int, (p - pos) + v));
            Ok((piece, end))
        },
        _ => Err(DecodeError::MalformedEncoding),
    }
}

/// Reads a definite-length text string starting at `pos`, returning its raw
/// bytes.
pub fn read_text(buf: &[u8], pos: usize) -> (r: Result<(Vec<u8>, usize), DecodeError>)
    requires
        pos <= buf@.len(),
    ensures
        (match parse_text(buf@.skip(pos as int)) {
            Ok((b, n)) => r matches Ok(p) && p.0@ == b && p.1 == pos + n && pos + n <= buf@.len(),
            Err(e) => r matches Err(e2) && e2 == e,
        }),
{
    let ghost s = buf@.skip(pos as int);
    match read_head(buf, pos)? {
        (CborHead::Value(3, v), p) => {
            if v > (buf.len() - p) as u64 {
                return Err(DecodeError::MalformedEncoding);
            }
            let end = p + (v as usize);
            let piece = copy_range(buf, p, end);
            assert(piece@ =~= s.subrange((p - pos) as int, (p - pos) + v));
            Ok((piece, end))
        },
        _ => Err(DecodeError::MalformedEncoding),
    }
}

/// Reads the head of a fixed-arity sequence starting at `pos`.
pub fn read_tuple_head(buf: &[u8], pos: usize, expected: u64) -> (r: Result<
    usize,
    DecodeError,
>)
    requires
        pos <= buf@.len(),
    ensures
        (match parse_tuple_head(buf@.skip(pos as int), expected) {
            Ok(n) => r matches Ok(p) && p == pos + n && pos + n <= buf@.len(),
            Err(e) => r matches Err(e2) && e2 == e,
        }),
{
    match read_head(buf, pos)? {
        (CborHead::Value(4, n0), p) => {
            if n0 == expected {
                Ok(p)
            } else {
                Err(DecodeError::ArityMismatch { expected, actual: n0 })
            }
        },
        _ => Err(DecodeError::MalformedEncoding),
    }
}

/// Reads an array head starting at `pos`.
pub fn read_array_head(buf: &[u8], pos: usize) -> (r: Result<
    (Option<u64>, usize),
    DecodeError,
>)
    requires
        pos <= buf@.len(),
    ensures
        (match parse_array_head(buf@.skip(pos as int)) {
            Ok((n0, n)) => r matches Ok(p) && p.0 == n0 && p.1 == pos + n && pos + n <= buf@.len(),
            Err(e) => r matches Err(e2) && e2 == e,
        }),
{
    match read_head(buf, pos)? {
        (CborHead::Value(4, n0), p) => Ok((Some(n0), p)),
        (CborHead::Indefinite(4), p) => Ok((None, p)),
        _ => Err(DecodeError::MalformedEncoding),
    }
}

/// Reads a definite-length map head starting at `pos`.
pub fn read_map_head(buf: &[u8], pos: usize) -> (r: Result<(u64, usize), DecodeError>)
    requires
        pos <= buf@.len(),
    ensures
        (match parse_map_head(buf@.skip(pos as int)) {
            Ok((n0, n)) => r matches Ok(p) && p.0 == n0 && p.1 == pos + n && pos + n <= buf@.len(),
            Err(e) => r matches Err(e2) && e2 == e,
        }),
{
    match read_head(buf, pos)? {
        (CborHead::Value(5, n0), p) => Ok((n0, p)),
        _ => Err(DecodeError::MalformedEncoding),
    }
}

} // verus!
