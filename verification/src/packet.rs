//! The handshake exchanged when two nodes connect: the network magic, the
//! protocol version and two handler tables, with their exact wire forms.
//!
//! A handler spec is the two-element sequence `[0, tag(24, bytes(uint(v)))]`:
//! a reserved leading zero, then the spec's 16-bit code encoded on its own
//! and wrapped as an embedded item.  A handler table is a map from message
//! code to handler spec, keys strictly ascending.  The handshake is the
//! four-element sequence `[magic, version, in_handlers, out_handlers]`.

use vstd::prelude::*;

use crate::cbor::{enc_array, enc_bytes, enc_map, enc_tag, enc_uint, lemma_parse_enc_bytes,
    lemma_parse_enc_map_head, lemma_parse_enc_tag, lemma_parse_enc_tuple_head,
    lemma_parse_enc_uint, lemma_skip_append, lemma_skip_skip, parse_bytes, parse_map_head,
    parse_tag, parse_tuple_head, parse_uint, read_bytes, read_map_head, read_tag,
    read_tuple_head, read_uint, write_bytes, write_map, write_tag, write_uint};
use crate::error::DecodeError;
use crate::text::{dec_chars, u64_to_string};
use vstd::string::StringExecFns;

verus! {

/// One message handler: a 16-bit code paired under the legacy double-code
/// wire convention.
#[derive(Debug, PartialEq, Eq, PartialOrd, Ord, Clone, Copy, Structural)]
pub struct HandlerSpec(pub u16);

/// The wire form of one handler spec.
pub open spec fn enc_handler_spec(v: u16) -> Seq<u8> {
    enc_array(2) + enc_uint(0) + enc_tag(24) + enc_bytes(enc_uint(v as u64))
}

/// Reads one handler spec from the front of `s`: arity must be exactly 2,
/// the reserved field exactly 0, the tag exactly 24; the embedded byte
/// string is then decoded as its own unsigned integer and narrowed to 16
/// bits.
pub open spec fn parse_handler_spec(s: Seq<u8>) -> Result<(u16, nat), DecodeError> {
    match parse_tuple_head(s, 2) {
        Err(e) => Err(e),
        Ok(k0) => match parse_uint(s.skip(k0 as int)) {
            Err(e) => Err(e),
            Ok((t, k1)) => if t != 0 {
                Err(DecodeError::InvalidDiscriminant { expected: 0, actual: t })
            } else {
                match parse_tag(s.skip((k0 + k1) as int)) {
                    Err(e) => Err(e),
                    Ok((tag, k2)) => if tag != 24 {
                        Err(DecodeError::InvalidTag { expected: 24, actual: tag })
                    } else {
                        match parse_bytes(s.skip((k0 + k1 + k2) as int)) {
                            Err(e) => Err(e),
                            Ok((b, k3)) => match parse_uint(b) {
                                Err(e) => Err(e),
                                Ok((v, _used)) => Ok((v as u16, (k0 + k1 + k2 + k3) as nat)),
                            },
                        }
                    },
                }
            },
        },
    }
}

impl HandlerSpec {
    pub fn new(c: u16) -> (r: Self)
        ensures
            r == HandlerSpec(c),
    {
        HandlerSpec(c)
    }

    /// The code this spec wraps.
    pub fn code(&self) -> (r: u16)
        ensures
            r == self.0,
    {
        self.0
    }

    /// The code in decimal, as the diagnostic listing shows it.
    pub fn fmt(&self) -> (r: String)
        ensures
            r@ == dec_chars(self.0 as nat),
    {
        u64_to_string(self.0 as u64)
    }

    /// Appends the wire form of this spec.
    pub fn serialize(&self, out: &mut Vec<u8>)
        ensures
            final(out)@ == old(out)@ + enc_handler_spec(self.0),
    {
        crate::cbor::write_array(out, 2);
        write_uint(out, 0);
        write_tag(out, 24);
        let mut inner: Vec<u8> = Vec::new();
        write_uint(&mut inner, self.0 as u64);
        assert(inner@ =~= enc_uint(self.0 as u64));
        write_bytes(out, inner.as_slice());
        assert(out@ =~= old(out)@ + enc_handler_spec(self.0));
    }

    /// Reads one handler spec starting at `pos`.
    #[verifier::rlimit(100)]
    pub fn deserialize(buf: &[u8], pos: usize) -> (r: Result<(HandlerSpec, usize), DecodeError>)
        requires
            pos <= buf@.len(),
        ensures
            (match parse_handler_spec(buf@.skip(pos as int)) {
                Ok((v, n)) => r matches Ok(p) && p.0 == HandlerSpec(v) && p.1 == pos + n && pos
                    + n <= buf@.len(),
                Err(e) => r matches Err(e2) && e2 == e,
            }),
    {
        let p0 = read_tuple_head(buf, pos, 2)?;
        proof {
            lemma_skip_skip(buf@, pos as int, (p0 - pos) as int);
        }
        let (t, p1) = read_uint(buf, p0)?;
        if t != 0 {
            return Err(DecodeError::InvalidDiscriminant { expected: 0, actual: t });
        }
        proof {
            lemma_skip_skip(buf@, pos as int, (p1 - pos) as int);
        }
        let (tag, p2) = read_tag(buf, p1)?;
        if tag != 24 {
            return Err(DecodeError::InvalidTag { expected: 24, actual: tag });
        }
        proof {
            lemma_skip_skip(buf@, pos as int, (p2 - pos) as int);
        }
        let (inner, p3) = read_bytes(buf, p2)?;
        assert(inner@.skip(0) =~= inner@);
        let (v, _used) = read_uint(inner.as_slice(), 0)?;
        Ok((HandlerSpec(v as u16), p3))
    }
}

/// A handler spec survives its own wire form unchanged, whatever follows.
pub proof fn lemma_handler_spec_round_trip(v: u16, rest: Seq<u8>)
    ensures
        parse_handler_spec(enc_handler_spec(v) + rest) == Ok::<(u16, nat), DecodeError>(
            (v, enc_handler_spec(v).len() as nat),
        ),
{
    crate::cbor::lemma_enc_head_len(0, v as u64);
    let e1 = enc_array(2);
    let e2 = enc_uint(0);
    let e3 = enc_tag(24);
    let inner = enc_uint(v as u64);
    let e4 = enc_bytes(inner);
    let s = enc_handler_spec(v) + rest;
    assert(s =~= e1 + (e2 + (e3 + (e4 + rest))));
    lemma_parse_enc_tuple_head(2, e2 + (e3 + (e4 + rest)));
    lemma_skip_append(e1, e2 + (e3 + (e4 + rest)));
    lemma_parse_enc_uint(0, e3 + (e4 + rest));
    lemma_skip_skip(s, e1.len() as int, e2.len() as int);
    lemma_skip_append(e1 + e2, e3 + (e4 + rest));
    assert(s =~= (e1 + e2) + (e3 + (e4 + rest)));
    lemma_parse_enc_tag(24, e4 + rest);
    lemma_skip_skip(s, (e1.len() + e2.len()) as int, e3.len() as int);
    assert(s =~= ((e1 + e2) + e3) + (e4 + rest));
    lemma_skip_append((e1 + e2) + e3, e4 + rest);
    lemma_parse_enc_bytes(inner, rest);
    lemma_skip_skip(s, (e1.len() + e2.len() + e3.len()) as int, e4.len() as int);
    assert(inner + Seq::<u8>::empty() =~= inner);
    lemma_parse_enc_uint(v as u64, Seq::<u8>::empty());
}

/// An ordered handler table: entries strictly ascending by message code.
#[derive(Debug, PartialEq, Eq, PartialOrd, Ord, Clone)]
pub struct HandlerSpecs {
    entries: Vec<(u32, HandlerSpec)>,
}

impl View for HandlerSpecs {
    type V = Seq<(u32, HandlerSpec)>;

    closed spec fn view(&self) -> Seq<(u32, HandlerSpec)> {
        self.entries@
    }
}

/// Keys strictly ascending.
pub open spec fn table_sorted(m: Seq<(u32, HandlerSpec)>) -> bool {
    forall|i: int, j: int| 0 <= i < j < m.len() ==> m[i].0 < m[j].0
}

/// The wire form of a table's entries, in table order.
pub open spec fn enc_entry(e: (u32, HandlerSpec)) -> Seq<u8> {
    enc_uint(e.0 as u64) + enc_handler_spec(e.1.0)
}

pub open spec fn enc_entries(m: Seq<(u32, HandlerSpec)>) -> Seq<u8>
    decreases m.len(),
{
    if m.len() == 0 {
        Seq::empty()
    } else {
        enc_entries(m.drop_last()) + enc_entry(m.last())
    }
}

/// The wire form of a whole table: a map head, then the entries ascending.
pub open spec fn enc_handler_specs(m: Seq<(u32, HandlerSpec)>) -> Seq<u8>
    recommends
        m.len() <= u64::MAX,
{
    enc_map(m.len() as u64) + enc_entries(m)
}

/// The entries also decompose at the front.
pub proof fn lemma_enc_entries_first(m: Seq<(u32, HandlerSpec)>)
    requires
        m.len() > 0,
    ensures
        enc_entries(m) == enc_entry(m[0]) + enc_entries(m.skip(1)),
    decreases m.len(),
{
    if m.len() == 1 {
        assert(m.drop_last() =~= Seq::<(u32, HandlerSpec)>::empty());
        assert(m.skip(1) =~= Seq::<(u32, HandlerSpec)>::empty());
        assert(m.last() == m[0]);
        assert(Seq::<u8>::empty() + enc_entry(m[0]) =~= enc_entry(m[0]) + Seq::<u8>::empty());
    } else {
        lemma_enc_entries_first(m.drop_last());
        assert(m.drop_last()[0] == m[0]);
        assert(m.drop_last().skip(1) =~= m.skip(1).drop_last());
        assert(m.skip(1).last() == m.last());
        assert((enc_entry(m[0]) + enc_entries(m.skip(1).drop_last())) + enc_entry(m.skip(1).last())
            =~= enc_entry(m[0]) + (enc_entries(m.skip(1).drop_last()) + enc_entry(
            m.skip(1).last(),
        )));
    }
}

/// One line of the diagnostic listing: "  * code -> code".
pub open spec fn entry_display(e: (u32, HandlerSpec)) -> Seq<char> {
    "  * "@ + dec_chars(e.0 as nat) + " -> "@ + dec_chars(e.1.0 as nat) + "\n"@
}

/// The diagnostic listing of a whole table, one line per entry in table
/// order.
pub open spec fn table_display(m: Seq<(u32, HandlerSpec)>) -> Seq<char>
    decreases m.len(),
{
    if m.len() == 0 {
        Seq::empty()
    } else {
        table_display(m.drop_last()) + entry_display(m.last())
    }
}

/// Inserts a key into a table in order; `None` when the key is already
/// there.
pub open spec fn insert_entry(
    m: Seq<(u32, HandlerSpec)>,
    code: u32,
    handler: HandlerSpec,
) -> Option<Seq<(u32, HandlerSpec)>>
    decreases m.len(),
{
    if m.len() == 0 {
        Some(seq![(code, handler)])
    } else if code < m[0].0 {
        Some(seq![(code, handler)] + m)
    } else if code == m[0].0 {
        None
    } else {
        match insert_entry(m.skip(1), code, handler) {
            None => None,
            Some(t) => Some(seq![m[0]] + t),
        }
    }
}

/// Appending a key above every present key is an ordered insert.
pub proof fn lemma_insert_entry_append(m: Seq<(u32, HandlerSpec)>, code: u32, handler: HandlerSpec)
    requires
        table_sorted(m),
        m.len() == 0 || m.last().0 < code,
    ensures
        insert_entry(m, code, handler) == Some(m.push((code, handler))),
    decreases m.len(),
{
    if m.len() == 0 {
        assert(seq![(code, handler)] =~= m.push((code, handler)));
    } else {
        assert(m[0].0 < code) by {
            if m.len() > 1 {
                assert(m[0].0 < m.last().0);
            }
        }
        assert(table_sorted(m.skip(1)));
        assert(m.skip(1).len() == 0 || m.skip(1).last().0 < code);
        lemma_insert_entry_append(m.skip(1), code, handler);
        assert(seq![m[0]] + m.skip(1).push((code, handler)) =~= m.push((code, handler)));
    }
}

/// Pushing a key above every present key keeps the table sorted.
pub proof fn lemma_sorted_push(m: Seq<(u32, HandlerSpec)>, code: u32, handler: HandlerSpec)
    requires
        table_sorted(m),
        m.len() == 0 || m.last().0 < code,
    ensures
        table_sorted(m.push((code, handler))),
{
    let m2 = m.push((code, handler));
    assert forall|i: int, j: int| 0 <= i < j < m2.len() implies m2[i].0 < m2[j].0 by {
        if j == m.len() {
            if i < m.len() - 1 {
                assert(m[i].0 < m[m.len() - 1].0);
            }
        }
    }
}

/// Where the ordered insert lands, given the number of keys below `code`.
pub proof fn lemma_insert_entry_at(
    m: Seq<(u32, HandlerSpec)>,
    code: u32,
    handler: HandlerSpec,
    j: int,
)
    requires
        table_sorted(m),
        0 <= j <= m.len(),
        forall|i: int| 0 <= i < j ==> m[i].0 < code,
        j < m.len() ==> code <= m[j].0,
    ensures
        insert_entry(m, code, handler) == (if j < m.len() && m[j].0 == code {
            Option::<Seq<(u32, HandlerSpec)>>::None
        } else {
            Some(m.take(j) + seq![(code, handler)] + m.skip(j))
        }),
    decreases m.len(),
{
    if m.len() == 0 {
        assert(seq![(code, handler)] =~= m.take(0) + seq![(code, handler)] + m.skip(0));
    } else if j == 0 {
        if code < m[0].0 {
            assert(seq![(code, handler)] + m =~= m.take(0) + seq![(code, handler)] + m.skip(0));
        }
    } else {
        assert(m[0].0 < code);
        assert(table_sorted(m.skip(1)));
        assert(forall|i: int| 0 <= i < j - 1 ==> m.skip(1)[i].0 < code);
        assert(j - 1 < m.skip(1).len() ==> code <= m.skip(1)[j - 1].0);
        lemma_insert_entry_at(m.skip(1), code, handler, j - 1);
        if j < m.len() && m[j].0 == code {
            assert(m.skip(1)[j - 1].0 == code);
        } else {
            assert(seq![m[0]] + (m.skip(1).take(j - 1) + seq![(code, handler)] + m.skip(1).skip(
                j - 1,
            )) =~= m.take(j) + seq![(code, handler)] + m.skip(j));
        }
    }
}

/// Reads `n` map entries from the front of `s`, folding each into `acc` by
/// ordered insert; a repeated key is a decode error.
pub open spec fn parse_table_entries(
    s: Seq<u8>,
    n: nat,
    acc: Seq<(u32, HandlerSpec)>,
) -> Result<(Seq<(u32, HandlerSpec)>, nat), DecodeError>
    decreases n,
{
    if n == 0 {
        Ok((acc, 0))
    } else {
        match parse_uint(s) {
            Err(e) => Err(e),
            Ok((kv, k1)) => if kv > 0xffff_ffff {
                Err(DecodeError::MalformedEncoding)
            } else {
                match parse_handler_spec(s.skip(k1 as int)) {
                    Err(e) => Err(e),
                    Ok((hv, k2)) => match insert_entry(acc, kv as u32, HandlerSpec(hv)) {
                        None => Err(DecodeError::MalformedEncoding),
                        Some(acc2) => match parse_table_entries(
                            s.skip((k1 + k2) as int),
                            (n - 1) as nat,
                            acc2,
                        ) {
                            Err(e) => Err(e),
                            Ok((t, k3)) => Ok((t, (k1 + k2 + k3) as nat)),
                        },
                    },
                }
            },
        }
    }
}

/// Reads a whole handler table from the front of `s`.
pub open spec fn parse_handler_specs(s: Seq<u8>) -> Result<
    (Seq<(u32, HandlerSpec)>, nat),
    DecodeError,
> {
    match parse_map_head(s) {
        Err(e) => Err(e),
        Ok((n, k0)) => match parse_table_entries(s.skip(k0 as int), n as nat, Seq::empty()) {
            Err(e) => Err(e),
            Ok((t, k)) => Ok((t, (k0 + k) as nat)),
        },
    }
}

impl HandlerSpecs {
    pub open spec fn wf(&self) -> bool {
        table_sorted(self@)
    }

    /// An empty table.
    pub fn new() -> (r: Self)
        ensures
            r@ == Seq::<(u32, HandlerSpec)>::empty(),
            r.wf(),
    {
        HandlerSpecs { entries: Vec::new() }
    }

    /// The number of entries.
    pub fn len(&self) -> (r: usize)
        ensures
            r == self@.len(),
    {
        self.entries.len()
    }

    /// The entry at `i`, in ascending key order.
    pub fn entry(&self, i: usize) -> (r: (u32, HandlerSpec))
        requires
            i < self@.len(),
        ensures
            r == self@[i as int],
    {
        self.entries[i]
    }

    /// Inserts one entry in order; returns false and leaves the table
    /// unchanged when the code is already present.
    pub fn insert(&mut self, code: u32, handler: HandlerSpec) -> (ok: bool)
        requires
            old(self).wf(),
        ensures
            (match insert_entry(old(self)@, code, handler) {
                Some(m) => ok && final(self)@ == m,
                None => !ok && final(self)@ == old(self)@,
            }),
            final(self).wf(),
    {
        let ghost m = self.entries@;
        let len = self.entries.len();
        let mut j: usize = 0;
        while j < len && self.entries[j].0 < code
            invariant
                j <= m.len(),
                len == m.len(),
                self.entries@ == m,
                forall|i: int| 0 <= i < j ==> m[i].0 < code,
            decreases len - j,
        {
            j = j + 1;
        }
        proof {
            lemma_insert_entry_at(m, code, handler, j as int);
        }
        if j < len {
            let (k2, _h2) = self.entries[j];
            if k2 == code {
                return false;
            }
        }
        self.entries.insert(j, (code, handler));
        assert(self.entries@ =~= m.take(j as int) + seq![(code, handler)] + m.skip(j as int));
        assert forall|a: int, b: int|
            0 <= a < b < self.entries@.len() implies self.entries@[a].0 < self.entries@[b].0 by {
            let mv = m.take(j as int) + seq![(code, handler)] + m.skip(j as int);
            if a < j && b == j {
                assert(mv[a] == m[a]);
            } else if a == j && b > j {
                assert(mv[b] == m[b - 1]);
                assert(code < m[b - 1].0) by {
                    assert(code != m[j as int].0);
                    if b - 1 > j {
                        assert(m[j as int].0 < m[b - 1].0);
                    }
                }
            } else if a < j && b > j {
                assert(mv[a] == m[a] && mv[b] == m[b - 1]);
                if b - 1 == j {
                    assert(code != m[j as int].0);
                }
                assert(m[a].0 < m[b - 1].0);
            } else {
                assert(mv[a] == (if a < j {
                    m[a]
                } else if a == j {
                    (code, handler)
                } else {
                    m[a - 1]
                }));
            }
        }
        true
    }

    /// The default inbound handler table.
    pub fn default_ins() -> (r: Self)
        ensures
            r@ == default_ins_entries(),
            r.wf(),
    {
        let mut bm: Vec<(u32, HandlerSpec)> = Vec::new();
        push_entry(&mut bm, 0x04, HandlerSpec::new(0x05));
        push_entry(&mut bm, 0x05, HandlerSpec::new(0x04));
        push_entry(&mut bm, 0x06, HandlerSpec::new(0x07));
        push_entry(&mut bm, 0x22, HandlerSpec::new(0x5e));
        push_entry(&mut bm, 0x25, HandlerSpec::new(0x5e));
        push_entry(&mut bm, 0x2b, HandlerSpec::new(0x5d));
        push_entry(&mut bm, 0x31, HandlerSpec::new(0x5c));
        push_entry(&mut bm, 0x37, HandlerSpec::new(0x62));
        push_entry(&mut bm, 0x3d, HandlerSpec::new(0x61));
        push_entry(&mut bm, 0x43, HandlerSpec::new(0x60));
        push_entry(&mut bm, 0x49, HandlerSpec::new(0x5f));
        push_entry(&mut bm, 0x53, HandlerSpec::new(0x00));
        push_entry(&mut bm, 0x5c, HandlerSpec::new(0x31));
        push_entry(&mut bm, 0x5d, HandlerSpec::new(0x2b));
        push_entry(&mut bm, 0x5e, HandlerSpec::new(0x25));
        push_entry(&mut bm, 0x5f, HandlerSpec::new(0x49));
        push_entry(&mut bm, 0x60, HandlerSpec::new(0x43));
        push_entry(&mut bm, 0x61, HandlerSpec::new(0x3d));
        push_entry(&mut bm, 0x62, HandlerSpec::new(0x37));
        let r = HandlerSpecs { entries: bm };
        assert(r@ =~= default_ins_entries());
        r
    }

    /// The default outbound handler table.
    pub fn default_outs() -> (r: Self)
        ensures
            r@ == default_outs_entries(),
            r.wf(),
    {
        let mut bm: Vec<(u32, HandlerSpec)> = Vec::new();
        push_entry(&mut bm, 0x04, HandlerSpec::new(0x05));
        push_entry(&mut bm, 0x05, HandlerSpec::new(0x04));
        push_entry(&mut bm, 0x06, HandlerSpec::new(0x07));
        push_entry(&mut bm, 0x0d, HandlerSpec::new(0x00));
        push_entry(&mut bm, 0x0e, HandlerSpec::new(0x00));
        push_entry(&mut bm, 0x25, HandlerSpec::new(0x5e));
        push_entry(&mut bm, 0x2b, HandlerSpec::new(0x5d));
        push_entry(&mut bm, 0x31, HandlerSpec::new(0x5c));
        push_entry(&mut bm, 0x37, HandlerSpec::new(0x62));
        push_entry(&mut bm, 0x3d, HandlerSpec::new(0x61));
        push_entry(&mut bm, 0x43, HandlerSpec::new(0x60));
        push_entry(&mut bm, 0x49, HandlerSpec::new(0x5f));
        push_entry(&mut bm, 0x53, HandlerSpec::new(0x00));
        let r = HandlerSpecs { entries: bm };
        assert(r@ =~= default_outs_entries());
        r
    }

    /// The diagnostic listing: one "code -> code" line per entry,
    /// ascending.
    pub fn fmt(&self) -> (r: String)
        ensures
            r@ == table_display(self@),
    {
        let ghost m = self.entries@;
        let mut s = String::new();
        let mut i: usize = 0;
        assert(s@ =~= table_display(m.take(0)));
        while i < self.entries.len()
            invariant
                i <= m.len(),
                self.entries@ == m,
                s@ == table_display(m.take(i as int)),
            decreases m.len() - i,
        {
            let (k, h) = self.entries[i];
            s.append("  * ");
            let ks = u64_to_string(k as u64);
            s.append(ks.as_str());
            s.append(" -> ");
            let hs = u64_to_string(h.0 as u64);
            s.append(hs.as_str());
            s.append("\n");
            proof {
                assert(m.take(i + 1).drop_last() =~= m.take(i as int));
                assert(m.take(i + 1).last() == m[i as int]);
                assert(s@ =~= table_display(m.take(i + 1)));
            }
            i = i + 1;
        }
        assert(m.take(m.len() as int) =~= m);
        s
    }

    /// Appends the wire form of this table.
    pub fn serialize(&self, out: &mut Vec<u8>)
        ensures
            final(out)@ == old(out)@ + enc_handler_specs(self@),
    {
        write_map(out, self.entries.len() as u64);
        let ghost m = self.entries@;
        let ghost base = out@;
        let mut i: usize = 0;
        assert(out@ =~= base + enc_entries(m.take(0)));
        while i < self.entries.len()
            invariant
                i <= m.len(),
                self.entries@ == m,
                base == old(out)@ + enc_map(m.len() as u64),
                out@ == base + enc_entries(m.take(i as int)),
            decreases m.len() - i,
        {
            let (k, h) = self.entries[i];
            write_uint(out, k as u64);
            h.serialize(out);
            proof {
                assert(m.take(i + 1).drop_last() =~= m.take(i as int));
                assert(m.take(i + 1).last() == m[i as int]);
                assert(out@ =~= base + enc_entries(m.take(i + 1)));
            }
            i = i + 1;
        }
        assert(m.take(m.len() as int) =~= m);
        assert(out@ =~= old(out)@ + enc_handler_specs(m));
    }

    /// Reads one handler table starting at `pos`.
    #[verifier::rlimit(100)]
    pub fn deserialize(buf: &[u8], pos: usize) -> (r: Result<(HandlerSpecs, usize), DecodeError>)
        requires
            pos <= buf@.len(),
        ensures
            (match parse_handler_specs(buf@.skip(pos as int)) {
                Ok((t, n)) => r matches Ok(p) && p.0@ == t && p.0.wf() && p.1 == pos + n && pos
                    + n <= buf@.len(),
                Err(e) => r matches Err(e2) && e2 == e,
            }),
    {
        let ghost s = buf@.skip(pos as int);
        let (n, p0) = read_map_head(buf, pos)?;
        proof {
            lemma_skip_skip(buf@, pos as int, (p0 - pos) as int);
        }
        let mut table = HandlerSpecs { entries: Vec::new() };
        let mut cur = p0;
        let mut i: u64 = 0;
        assert(table@ =~= Seq::<(u32, HandlerSpec)>::empty());
        while i < n
            invariant
                pos <= p0 <= cur <= buf@.len(),
                i <= n,
                table.wf(),
                s == buf@.skip(pos as int),
                pos <= buf@.len(),
                buf@.skip(p0 as int) == s.skip((p0 - pos) as int),
                parse_map_head(s) == Ok::<(u64, nat), DecodeError>((n, (p0 - pos) as nat)),
                (parse_table_entries(buf@.skip(p0 as int), n as nat, Seq::empty()) == (
                match parse_table_entries(buf@.skip(cur as int), (n - i) as nat, table@) {
                    Ok((t, k)) => Ok::<(Seq<(u32, HandlerSpec)>, nat), DecodeError>(
                        (t, ((cur - p0) + k) as nat),
                    ),
                    Err(e) => Err::<(Seq<(u32, HandlerSpec)>, nat), DecodeError>(e),
                })),
            decreases n - i,
        {
            let (kv, c1) = read_uint(buf, cur)?;
            if kv > 0xffff_ffff {
                return Err(DecodeError::MalformedEncoding);
            }
            proof {
                lemma_skip_skip(buf@, cur as int, (c1 - cur) as int);
            }
            let (h, c2) = HandlerSpec::deserialize(buf, c1)?;
            let ghost before = table@;
            let ok = table.insert(kv as u32, h);
            if !ok {
                return Err(DecodeError::MalformedEncoding);
            }
            proof {
                lemma_skip_skip(buf@, cur as int, (c2 - cur) as int);
            }
            cur = c2;
            i = i + 1;
        }
        Ok((table, cur))
    }
}

/// Appends an entry whose code is above every code already present.
fn push_entry(entries: &mut Vec<(u32, HandlerSpec)>, code: u32, handler: HandlerSpec)
    requires
        table_sorted(old(entries)@),
        old(entries)@.len() == 0 || old(entries)@.last().0 < code,
    ensures
        final(entries)@ == old(entries)@.push((code, handler)),
        table_sorted(final(entries)@),
{
    proof {
        lemma_sorted_push(entries@, code, handler);
    }
    entries.push((code, handler));
}

/// The entries of the default inbound table.
pub open spec fn default_ins_entries() -> Seq<(u32, HandlerSpec)> {
    seq![
        (0x04u32, HandlerSpec(0x05u16)),
        (0x05u32, HandlerSpec(0x04u16)),
        (0x06u32, HandlerSpec(0x07u16)),
        (0x22u32, HandlerSpec(0x5eu16)),
        (0x25u32, HandlerSpec(0x5eu16)),
        (0x2bu32, HandlerSpec(0x5du16)),
        (0x31u32, HandlerSpec(0x5cu16)),
        (0x37u32, HandlerSpec(0x62u16)),
        (0x3du32, HandlerSpec(0x61u16)),
        (0x43u32, HandlerSpec(0x60u16)),
        (0x49u32, HandlerSpec(0x5fu16)),
        (0x53u32, HandlerSpec(0x00u16)),
        (0x5cu32, HandlerSpec(0x31u16)),
        (0x5du32, HandlerSpec(0x2bu16)),
        (0x5eu32, HandlerSpec(0x25u16)),
        (0x5fu32, HandlerSpec(0x49u16)),
        (0x60u32, HandlerSpec(0x43u16)),
        (0x61u32, HandlerSpec(0x3du16)),
        (0x62u32, HandlerSpec(0x37u16)),
    ]
}

/// The entries of the default outbound table.
pub open spec fn default_outs_entries() -> Seq<(u32, HandlerSpec)> {
    seq![
        (0x04u32, HandlerSpec(0x05u16)),
        (0x05u32, HandlerSpec(0x04u16)),
        (0x06u32, HandlerSpec(0x07u16)),
        (0x0du32, HandlerSpec(0x00u16)),
        (0x0eu32, HandlerSpec(0x00u16)),
        (0x25u32, HandlerSpec(0x5eu16)),
        (0x2bu32, HandlerSpec(0x5du16)),
        (0x31u32, HandlerSpec(0x5cu16)),
        (0x37u32, HandlerSpec(0x62u16)),
        (0x3du32, HandlerSpec(0x61u16)),
        (0x43u32, HandlerSpec(0x60u16)),
        (0x49u32, HandlerSpec(0x5fu16)),
        (0x53u32, HandlerSpec(0x00u16)),
    ]
}

/// Every sorted table survives its own wire form unchanged: the generalized
/// induction behind the table round trip.
#[verifier::rlimit(100)]
pub proof fn lemma_entries_round_trip(
    m: Seq<(u32, HandlerSpec)>,
    acc: Seq<(u32, HandlerSpec)>,
    rest: Seq<u8>,
)
    requires
        table_sorted(acc),
        table_sorted(m),
        forall|i: int, j: int| 0 <= i < acc.len() && 0 <= j < m.len() ==> acc[i].0 < m[j].0,
    ensures
        parse_table_entries(enc_entries(m) + rest, m.len(), acc) == Ok::<
            (Seq<(u32, HandlerSpec)>, nat),
            DecodeError,
        >((acc + m, enc_entries(m).len() as nat)),
    decreases m.len(),
{
    if m.len() == 0 {
        assert(acc + m =~= acc);
    } else {
        lemma_enc_entries_first(m);
        let e0 = m[0];
        let eu = enc_uint(e0.0 as u64);
        let eh = enc_handler_spec(e0.1.0);
        let tail = enc_entries(m.skip(1));
        let s = enc_entries(m) + rest;
        assert(s =~= eu + (eh + (tail + rest)));
        lemma_parse_enc_uint(e0.0 as u64, eh + (tail + rest));
        lemma_skip_append(eu, eh + (tail + rest));
        lemma_handler_spec_round_trip(e0.1.0, tail + rest);
        assert(HandlerSpec(e0.1.0) == e0.1);
        assert(e0 == (e0.0, e0.1));
        assert(acc.len() == 0 || acc.last().0 < e0.0);
        lemma_insert_entry_append(acc, e0.0, e0.1);
        lemma_sorted_push(acc, e0.0, e0.1);
        assert(s =~= (eu + eh) + (tail + rest));
        lemma_skip_skip(s, eu.len() as int, eh.len() as int);
        lemma_skip_append(eu + eh, tail + rest);
        let acc2 = acc.push(e0);
        assert(table_sorted(m.skip(1)));
        assert(forall|i: int, j: int|
            0 <= i < acc2.len() && 0 <= j < m.skip(1).len() ==> acc2[i].0 < m.skip(1)[j].0) by {
            assert forall|i: int, j: int|
                0 <= i < acc2.len() && 0 <= j < m.skip(1).len() implies acc2[i].0 < m.skip(
                1,
            )[j].0 by {
                assert(m.skip(1)[j] == m[j + 1]);
                if i < acc.len() {
                } else {
                    assert(acc2[i] == e0);
                    assert(m[0].0 < m[j + 1].0);
                }
            }
        }
        lemma_entries_round_trip(m.skip(1), acc2, rest);
        assert(acc.push(e0) + m.skip(1) =~= acc + m);
        assert(enc_entries(m).len() == eu.len() + eh.len() + tail.len());
    }
}

/// A sorted table survives its own wire form unchanged, whatever follows.
pub proof fn lemma_handler_specs_round_trip(m: Seq<(u32, HandlerSpec)>, rest: Seq<u8>)
    requires
        table_sorted(m),
        m.len() <= u64::MAX,
    ensures
        parse_handler_specs(enc_handler_specs(m) + rest) == Ok::<
            (Seq<(u32, HandlerSpec)>, nat),
            DecodeError,
        >((m, enc_handler_specs(m).len() as nat)),
{
    let h = enc_map(m.len() as u64);
    let s = enc_handler_specs(m) + rest;
    assert(s =~= h + (enc_entries(m) + rest));
    lemma_parse_enc_map_head(m.len() as u64, enc_entries(m) + rest);
    lemma_skip_append(h, enc_entries(m) + rest);
    lemma_entries_round_trip(m, Seq::empty(), rest);
    assert(Seq::<(u32, HandlerSpec)>::empty() + m =~= m);
}

/// The network identifier distinguishing independent chains; peers whose
/// magics differ must not interoperate.
#[derive(Debug, PartialEq, Eq, PartialOrd, Ord, Clone, Copy, Structural)]
pub struct ProtocolMagic(pub u32);

impl Default for ProtocolMagic {
    /// The main network's magic.
    fn default() -> (r: Self)
        ensures
            r == ProtocolMagic(764824073),
    {
        ProtocolMagic(764824073)
    }
}

/// A protocol version triple, encoded as the three-element sequence
/// `[major, minor, revision]`.
#[derive(Debug, PartialEq, Eq, PartialOrd, Ord, Clone, Copy, Structural)]
pub struct Version {
    pub major: u32,
    pub minor: u32,
    pub revision: u32,
}

impl Default for Version {
    /// Version 0.1.0.
    fn default() -> (r: Self)
        ensures
            r == (Version { major: 0, minor: 1, revision: 0 }),
    {
        Version { major: 0, minor: 1, revision: 0 }
    }
}

/// The wire form of a version triple.
pub open spec fn enc_version(v: Version) -> Seq<u8> {
    enc_array(3) + enc_uint(v.major as u64) + enc_uint(v.minor as u64) + enc_uint(
        v.revision as u64,
    )
}

/// Reads a version triple from the front of `s`.
pub open spec fn parse_version(s: Seq<u8>) -> Result<(Version, nat), DecodeError> {
    match parse_tuple_head(s, 3) {
        Err(e) => Err(e),
        Ok(k0) => match parse_uint(s.skip(k0 as int)) {
            Err(e) => Err(e),
            Ok((a, k1)) => if a > 0xffff_ffff {
                Err(DecodeError::MalformedEncoding)
            } else {
                match parse_uint(s.skip((k0 + k1) as int)) {
                    Err(e) => Err(e),
                    Ok((b, k2)) => if b > 0xffff_ffff {
                        Err(DecodeError::MalformedEncoding)
                    } else {
                        match parse_uint(s.skip((k0 + k1 + k2) as int)) {
                            Err(e) => Err(e),
                            Ok((c, k3)) => if c > 0xffff_ffff {
                                Err(DecodeError::MalformedEncoding)
                            } else {
                                Ok((
                                    Version {
                                        major: a as u32,
                                        minor: b as u32,
                                        revision: c as u32,
                                    },
                                    (k0 + k1 + k2 + k3) as nat,
                                ))
                            },
                        }
                    },
                }
            },
        },
    }
}

impl Version {
    pub fn new(major: u32, minor: u32, revision: u32) -> (r: Self)
        ensures
            r == (Version { major, minor, revision }),
    {
        Version { major, minor, revision }
    }

    /// Appends the wire form of this version.
    pub fn serialize(&self, out: &mut Vec<u8>)
        ensures
            final(out)@ == old(out)@ + enc_version(*self),
    {
        crate::cbor::write_array(out, 3);
        write_uint(out, self.major as u64);
        write_uint(out, self.minor as u64);
        write_uint(out, self.revision as u64);
        assert(out@ =~= old(out)@ + enc_version(*self));
    }

    /// Reads a version triple starting at `pos`.
    pub fn deserialize(buf: &[u8], pos: usize) -> (r: Result<(Version, usize), DecodeError>)
        requires
            pos <= buf@.len(),
        ensures
            (match parse_version(buf@.skip(pos as int)) {
                Ok((v, n)) => r matches Ok(p) && p.0 == v && p.1 == pos + n && pos + n
                    <= buf@.len(),
                Err(e) => r matches Err(e2) && e2 == e,
            }),
    {
        let p0 = read_tuple_head(buf, pos, 3)?;
        proof {
            lemma_skip_skip(buf@, pos as int, (p0 - pos) as int);
        }
        let (a, p1) = read_uint(buf, p0)?;
        if a > 0xffff_ffff {
            return Err(DecodeError::MalformedEncoding);
        }
        proof {
            lemma_skip_skip(buf@, pos as int, (p1 - pos) as int);
        }
        let (b, p2) = read_uint(buf, p1)?;
        if b > 0xffff_ffff {
            return Err(DecodeError::MalformedEncoding);
        }
        proof {
            lemma_skip_skip(buf@, pos as int, (p2 - pos) as int);
        }
        let (c, p3) = read_uint(buf, p2)?;
        if c > 0xffff_ffff {
            return Err(DecodeError::MalformedEncoding);
        }
        Ok((Version { major: a as u32, minor: b as u32, revision: c as u32 }, p3))
    }
}

/// A version triple survives its own wire form unchanged, whatever follows.
pub proof fn lemma_version_round_trip(v: Version, rest: Seq<u8>)
    ensures
        parse_version(enc_version(v) + rest) == Ok::<(Version, nat), DecodeError>(
            (v, enc_version(v).len() as nat),
        ),
{
    let e1 = enc_array(3);
    let e2 = enc_uint(v.major as u64);
    let e3 = enc_uint(v.minor as u64);
    let e4 = enc_uint(v.revision as u64);
    let s = enc_version(v) + rest;
    assert(s =~= e1 + (e2 + (e3 + (e4 + rest))));
    lemma_parse_enc_tuple_head(3, e2 + (e3 + (e4 + rest)));
    lemma_skip_append(e1, e2 + (e3 + (e4 + rest)));
    lemma_parse_enc_uint(v.major as u64, e3 + (e4 + rest));
    lemma_skip_skip(s, e1.len() as int, e2.len() as int);
    assert(s =~= (e1 + e2) + (e3 + (e4 + rest)));
    lemma_skip_append(e1 + e2, e3 + (e4 + rest));
    lemma_parse_enc_uint(v.minor as u64, e4 + rest);
    lemma_skip_skip(s, (e1.len() + e2.len()) as int, e3.len() as int);
    assert(s =~= ((e1 + e2) + e3) + (e4 + rest));
    lemma_skip_append((e1 + e2) + e3, e4 + rest);
    lemma_parse_enc_uint(v.revision as u64, rest);
    assert(v == (Version { major: v.major, minor: v.minor, revision: v.revision }));
}

/// The handshake two peers exchange on connection: magic, version and the
/// two advertised handler tables, as the fixed four-element wire sequence.
#[derive(Debug, PartialEq, Eq, PartialOrd, Ord, Clone)]
pub struct Handshake {
    pub protocol_magic: ProtocolMagic,
    pub version: Version,
    pub in_handlers: HandlerSpecs,
    pub out_handlers: HandlerSpecs,
}

impl View for Handshake {
    type V = (u32, Version, Seq<(u32, HandlerSpec)>, Seq<(u32, HandlerSpec)>);

    open spec fn view(&self) -> (u32, Version, Seq<(u32, HandlerSpec)>, Seq<(u32, HandlerSpec)>) {
        (self.protocol_magic.0, self.version, self.in_handlers@, self.out_handlers@)
    }
}

/// The wire form of a whole handshake.
pub open spec fn enc_handshake(h: Handshake) -> Seq<u8>
    recommends
        h.in_handlers@.len() <= u64::MAX,
        h.out_handlers@.len() <= u64::MAX,
{
    enc_array(4) + enc_uint(h.protocol_magic.0 as u64) + enc_version(h.version)
        + enc_handler_specs(h.in_handlers@) + enc_handler_specs(h.out_handlers@)
}

/// Reads a whole handshake from the front of `s`.
pub open spec fn parse_handshake(s: Seq<u8>) -> Result<
    ((u32, Version, Seq<(u32, HandlerSpec)>, Seq<(u32, HandlerSpec)>), nat),
    DecodeError,
> {
    match parse_tuple_head(s, 4) {
        Err(e) => Err(e),
        Ok(k0) => match parse_uint(s.skip(k0 as int)) {
            Err(e) => Err(e),
            Ok((pm, k1)) => if pm > 0xffff_ffff {
                Err(DecodeError::MalformedEncoding)
            } else {
                match parse_version(s.skip((k0 + k1) as int)) {
                    Err(e) => Err(e),
                    Ok((v, k2)) => match parse_handler_specs(s.skip((k0 + k1 + k2) as int)) {
                        Err(e) => Err(e),
                        Ok((ins, k3)) => match parse_handler_specs(
                            s.skip((k0 + k1 + k2 + k3) as int),
                        ) {
                            Err(e) => Err(e),
                            Ok((outs, k4)) => Ok(
                                ((pm as u32, v, ins, outs), (k0 + k1 + k2 + k3 + k4) as nat),
                            ),
                        },
                    },
                }
            },
        },
    }
}

/// The diagnostic listing of a whole handshake.
pub open spec fn handshake_display(h: Handshake) -> Seq<char> {
    "protocol magic: "@ + dec_chars(h.protocol_magic.0 as nat) + "\n"@ + "version: "@ + dec_chars(
        h.version.major as nat,
    ) + "."@ + dec_chars(h.version.minor as nat) + "."@ + dec_chars(h.version.revision as nat)
        + "\n"@ + "in handlers:\n"@ + table_display(h.in_handlers@) + "out handlers:\n"@
        + table_display(h.out_handlers@)
}

impl Handshake {
    /// Both handler tables are ordered.
    pub open spec fn wf(&self) -> bool {
        self.in_handlers.wf() && self.out_handlers.wf()
    }

    /// The diagnostic listing: magic, version, then both tables.
    pub fn fmt(&self) -> (r: String)
        ensures
            r@ == handshake_display(*self),
    {
        let mut s = String::from_str("protocol magic: ");
        let pm = u64_to_string(self.protocol_magic.0 as u64);
        s.append(pm.as_str());
        s.append("\n");
        s.append("version: ");
        let ma = u64_to_string(self.version.major as u64);
        s.append(ma.as_str());
        s.append(".");
        let mi = u64_to_string(self.version.minor as u64);
        s.append(mi.as_str());
        s.append(".");
        let re = u64_to_string(self.version.revision as u64);
        s.append(re.as_str());
        s.append("\n");
        s.append("in handlers:\n");
        let ins = self.in_handlers.fmt();
        s.append(ins.as_str());
        s.append("out handlers:\n");
        let outs = self.out_handlers.fmt();
        s.append(outs.as_str());
        assert(s@ =~= handshake_display(*self));
        s
    }

    pub fn new(pm: ProtocolMagic, v: Version, ins: HandlerSpecs, outs: HandlerSpecs) -> (r: Self)
        ensures
            r == (Handshake { protocol_magic: pm, version: v, in_handlers: ins, out_handlers: outs }),
    {
        Handshake { protocol_magic: pm, version: v, in_handlers: ins, out_handlers: outs }
    }

    /// Appends the wire form of this handshake.
    pub fn serialize(&self, out: &mut Vec<u8>)
        ensures
            final(out)@ == old(out)@ + enc_handshake(*self),
    {
        crate::cbor::write_array(out, 4);
        write_uint(out, self.protocol_magic.0 as u64);
        self.version.serialize(out);
        self.in_handlers.serialize(out);
        self.out_handlers.serialize(out);
        assert(out@ =~= old(out)@ + enc_handshake(*self));
    }

    /// Reads a whole handshake starting at `pos`.
    pub fn deserialize(buf: &[u8], pos: usize) -> (r: Result<(Handshake, usize), DecodeError>)
        requires
            pos <= buf@.len(),
        ensures
            (match parse_handshake(buf@.skip(pos as int)) {
                Ok((hv, n)) => r matches Ok(p) && p.0@ == hv && p.0.wf() && p.1 == pos + n && pos
                    + n <= buf@.len(),
                Err(e) => r matches Err(e2) && e2 == e,
            }),
    {
        let p0 = read_tuple_head(buf, pos, 4)?;
        proof {
            lemma_skip_skip(buf@, pos as int, (p0 - pos) as int);
        }
        let (pm, p1) = read_uint(buf, p0)?;
        if pm > 0xffff_ffff {
            return Err(DecodeError::MalformedEncoding);
        }
        proof {
            lemma_skip_skip(buf@, pos as int, (p1 - pos) as int);
        }
        let (v, p2) = Version::deserialize(buf, p1)?;
        proof {
            lemma_skip_skip(buf@, pos as int, (p2 - pos) as int);
        }
        let (ins, p3) = HandlerSpecs::deserialize(buf, p2)?;
        proof {
            lemma_skip_skip(buf@, pos as int, (p3 - pos) as int);
        }
        let (outs, p4) = HandlerSpecs::deserialize(buf, p3)?;
        Ok((Handshake::new(ProtocolMagic(pm as u32), v, ins, outs), p4))
    }
}

impl Default for Handshake {
    /// The handshake a node offers by default: the default magic and
    /// version with the two default handler tables.
    fn default() -> (r: Self)
        ensures
            r.protocol_magic == ProtocolMagic(764824073),
            r.version == (Version { major: 0, minor: 1, revision: 0 }),
            r.in_handlers@ == default_ins_entries(),
            r.out_handlers@ == default_outs_entries(),
            r.wf(),
    {
        Handshake::new(
            ProtocolMagic::default(),
            Version::default(),
            HandlerSpecs::default_ins(),
            HandlerSpecs::default_outs(),
        )
    }
}

/// The bytes a node sends for a handshake.
pub fn send_handshake(hs: &Handshake) -> (r: Vec<u8>)
    ensures
        r@ == enc_handshake(*hs),
{
    let mut out: Vec<u8> = Vec::new();
    hs.serialize(&mut out);
    assert(out@ =~= enc_handshake(*hs));
    out
}

/// A well-formed handshake survives its own wire form unchanged, whatever
/// follows.
pub proof fn lemma_handshake_round_trip(h: Handshake, rest: Seq<u8>)
    requires
        h.wf(),
        h.in_handlers@.len() <= u64::MAX,
        h.out_handlers@.len() <= u64::MAX,
    ensures
        parse_handshake(enc_handshake(h) + rest) == Ok::<
            ((u32, Version, Seq<(u32, HandlerSpec)>, Seq<(u32, HandlerSpec)>), nat),
            DecodeError,
        >((h@, enc_handshake(h).len() as nat)),
{
    let e1 = enc_array(4);
    let e2 = enc_uint(h.protocol_magic.0 as u64);
    let e3 = enc_version(h.version);
    let e4 = enc_handler_specs(h.in_handlers@);
    let e5 = enc_handler_specs(h.out_handlers@);
    let s = enc_handshake(h) + rest;
    assert(s =~= e1 + (e2 + (e3 + (e4 + (e5 + rest)))));
    lemma_parse_enc_tuple_head(4, e2 + (e3 + (e4 + (e5 + rest))));
    lemma_skip_append(e1, e2 + (e3 + (e4 + (e5 + rest))));
    lemma_parse_enc_uint(h.protocol_magic.0 as u64, e3 + (e4 + (e5 + rest)));
    lemma_skip_skip(s, e1.len() as int, e2.len() as int);
    assert(s =~= (e1 + e2) + (e3 + (e4 + (e5 + rest))));
    lemma_skip_append(e1 + e2, e3 + (e4 + (e5 + rest)));
    lemma_version_round_trip(h.version, e4 + (e5 + rest));
    lemma_skip_skip(s, (e1.len() + e2.len()) as int, e3.len() as int);
    assert(s =~= ((e1 + e2) + e3) + (e4 + (e5 + rest)));
    lemma_skip_append((e1 + e2) + e3, e4 + (e5 + rest));
    lemma_handler_specs_round_trip(h.in_handlers@, e5 + rest);
    lemma_skip_skip(s, (e1.len() + e2.len() + e3.len()) as int, e4.len() as int);
    assert(s =~= (((e1 + e2) + e3) + e4) + (e5 + rest));
    lemma_skip_append(((e1 + e2) + e3) + e4, e5 + rest);
    lemma_handler_specs_round_trip(h.out_handlers@, rest);
    assert(h.protocol_magic == ProtocolMagic(h.protocol_magic.0));
}

} // verus!
