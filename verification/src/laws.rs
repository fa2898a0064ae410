//! Proved laws of the container format.
//!
//! Each proof function here states a property of the spec-level parse and
//! extraction that the executable contracts are then held to.

use vstd::prelude::*;

use crate::error::ObbyError;
use crate::format::{
    lemma_varint_bounds, spec_entries, spec_extract, spec_header, spec_lookup, spec_magic,
    spec_parse, spec_read, spec_string, spec_u32, spec_varint, sum_stored, SpecArchive, SpecEntry,
};

verus! {

/// Prepending one record adds its stored length to the sum.
proof fn lemma_sum_stored_prepend(e: SpecEntry, t: Seq<SpecEntry>)
    ensures
        sum_stored(seq![e] + t) == e.compressed_length + sum_stored(t),
    decreases t.len(),
{
    if t.len() == 0 {
        assert(seq![e] + t =~= seq![e]);
        assert((seq![e]).last() == e);
        assert((seq![e]).drop_last() =~= Seq::<SpecEntry>::empty());
        assert(sum_stored(Seq::<SpecEntry>::empty()) == 0);
    } else {
        assert((seq![e] + t).drop_last() =~= seq![e] + t.drop_last());
        lemma_sum_stored_prepend(e, t.drop_last());
        assert((seq![e] + t).last() == t.last());
    }
}

/// Within a parsed entry table, every record's offset is the running sum of
/// the stored lengths of the records before it.
proof fn lemma_entries_offsets(s: Seq<u8>, i: int, k: nat, off: nat)
    ensures
        match spec_entries(s, i, k, off) {
            Ok((es, end)) => es.len() == k && forall|t: int|
                0 <= t < es.len() ==> (#[trigger] es[t]).offset == off + sum_stored(es.take(t)),
            Err(_) => true,
        },
    decreases k,
{
    if k == 0 {
    } else {
        match spec_entries(s, i, k, off) {
            Err(_) => {},
            Ok((es, end)) => {
                match crate::format::spec_string(s, i) {
                    None => {},
                    Some((name, j1)) => match crate::format::spec_u32(s, j1) {
                        None => {},
                        Some((len, j2)) => match crate::format::spec_u32(s, j2) {
                            None => {},
                            Some((clen, j3)) => {
                                let e = SpecEntry {
                                    name,
                                    offset: off,
                                    length: len,
                                    compressed_length: clen,
                                };
                                lemma_entries_offsets(s, j3, (k - 1) as nat, off + clen);
                                match spec_entries(s, j3, (k - 1) as nat, off + clen) {
                                    Err(_) => {},
                                    Ok((rest, _end2)) => {
                                        assert(es == seq![e] + rest);
                                        assert forall|t: int| 0 <= t < es.len() implies (
                                        #[trigger] es[t]).offset == off + sum_stored(
                                            es.take(t),
                                        ) by {
                                            if t == 0 {
                                                assert(es.take(0) =~= Seq::<SpecEntry>::empty());
                                            } else {
                                                assert(es[t] == rest[t - 1]);
                                                assert(rest[t - 1].offset == (off + clen)
                                                    + sum_stored(rest.take(t - 1)));
                                                assert(es.take(t) =~= seq![e] + rest.take(t - 1));
                                                lemma_sum_stored_prepend(e, rest.take(t - 1));
                                            }
                                        }
                                    },
                                }
                            },
                        },
                    },
                }
            },
        }
    }
}

/// Payload accounting: in a parsed container the records partition the
/// payload region contiguously and in table order — each record's offset is
/// the sum of the stored lengths of all earlier records, and the whole
/// payload region spans exactly the sum of all stored lengths. A source
/// with no trailing bytes therefore ends at `data_start` plus that sum.
pub proof fn lemma_payload_accounting(s: Seq<u8>, m: SpecArchive)
    requires
        spec_parse(s) == Ok::<SpecArchive, ObbyError>(m),
    ensures
        forall|k: int|
            0 <= k < m.records.len() ==> (#[trigger] m.records[k]).offset == sum_stored(
                m.records.take(k),
            ),
        m.records.len() > 0 ==> sum_stored(m.records) == m.records.last().offset
            + m.records.last().compressed_length,
{
    match crate::format::spec_header(s) {
        Err(_) => {
            assert(false);
        },
        Ok((count, p8)) => {
            lemma_entries_offsets(s, p8, count, 0);
            if m.records.len() > 0 {
                let n = m.records.len() as int;
                assert(m.records[n - 1].offset == 0 + sum_stored(m.records.take(n - 1)));
                assert(m.records.take(n) =~= m.records);
                assert(m.records.take(n).drop_last() =~= m.records.take(n - 1));
            }
        },
    }
}

/// An entry whose stored length equals its declared uncompressed length is
/// returned raw: exactly the stored bytes at its computed offset.
pub proof fn lemma_extract_raw(
    m: SpecArchive,
    source: Seq<u8>,
    name: Seq<char>,
    e: SpecEntry,
    raw: Seq<u8>,
)
    requires
        spec_lookup(m.records, name) == Some(e),
        e.compressed_length == e.length,
        spec_read(source, (m.data_start + e.offset) as int, e.compressed_length as int) == Some(
            raw,
        ),
    ensures
        spec_extract(m, source, name) == Ok::<Seq<u8>, ObbyError>(raw),
{
}

/// An entry whose stored length differs from its declared uncompressed
/// length is returned as the deflate expansion of the stored bytes at its
/// computed offset, or rejected as corrupt when they do not inflate.
pub proof fn lemma_extract_compressed(
    m: SpecArchive,
    source: Seq<u8>,
    name: Seq<char>,
    e: SpecEntry,
    raw: Seq<u8>,
)
    requires
        spec_lookup(m.records, name) == Some(e),
        e.compressed_length != e.length,
        spec_read(source, (m.data_start + e.offset) as int, e.compressed_length as int) == Some(
            raw,
        ),
    ensures
        spec_extract(m, source, name) == match crate::format::inflate_of(raw) {
            Some(out) => Ok::<Seq<u8>, ObbyError>(out),
            None => Err::<Seq<u8>, ObbyError>(ObbyError::CorruptData),
        },
{
}

/// A source whose first four bytes are present but are not the magic tag is
/// rejected as `InvalidHeader`; the parse looks at nothing past those four
/// bytes.
pub proof fn lemma_bad_magic(s: Seq<u8>)
    requires
        s.len() >= 4,
        s.subrange(0, 4) != spec_magic(),
    ensures
        spec_parse(s) == Err::<SpecArchive, ObbyError>(ObbyError::InvalidHeader),
{
}

/// A varint read from a cut-down source: bytes that end at or before the
/// cut decode unchanged, and a varint that ends past the cut is gone.
proof fn lemma_varint_prefix(s: Seq<u8>, n: int, i: int)
    requires
        0 <= i,
        0 <= n <= s.len(),
    ensures
        match spec_varint(s, i) {
            Some((v, j)) => if j <= n {
                spec_varint(s.take(n), i) == Some((v, j))
            } else {
                spec_varint(s.take(n), i) is None
            },
            None => spec_varint(s.take(n), i) is None,
        },
    decreases s.len() - i,
{
    if i < s.len() && s[i] >= 128 {
        lemma_varint_prefix(s, n, i + 1);
        lemma_varint_bounds(s, i + 1);
    }
}

/// A fixed-size read from a cut-down source.
proof fn lemma_read_prefix(s: Seq<u8>, n: int, i: int, cnt: int)
    requires
        0 <= i,
        0 <= n <= s.len(),
        0 <= cnt,
    ensures
        match spec_read(s, i, cnt) {
            Some(b) => if cnt == 0 || i + cnt <= n {
                spec_read(s.take(n), i, cnt) == Some(b)
            } else {
                spec_read(s.take(n), i, cnt) is None
            },
            None => spec_read(s.take(n), i, cnt) is None,
        },
{
    if cnt > 0 && i + cnt <= n && spec_read(s, i, cnt) is Some {
        assert(s.take(n).subrange(i, i + cnt) =~= s.subrange(i, i + cnt));
    }
}

/// A 4-byte little-endian field read from a cut-down source.
proof fn lemma_u32_prefix(s: Seq<u8>, n: int, i: int)
    requires
        0 <= i,
        0 <= n <= s.len(),
    ensures
        match spec_u32(s, i) {
            Some((v, j)) => if j <= n {
                spec_u32(s.take(n), i) == Some((v, j))
            } else {
                spec_u32(s.take(n), i) is None
            },
            None => spec_u32(s.take(n), i) is None,
        },
{
}

/// A length-prefixed string read from a cut-down source.
proof fn lemma_string_prefix(s: Seq<u8>, n: int, i: int)
    requires
        0 <= i,
        0 <= n <= s.len(),
    ensures
        match spec_string(s, i) {
            Some((st, j)) => if j <= n {
                spec_string(s.take(n), i) == Some((st, j))
            } else {
                spec_string(s.take(n), i) is None
            },
            None => spec_string(s.take(n), i) is None,
        },
{
    lemma_varint_prefix(s, n, i);
    lemma_varint_bounds(s, i);
    match spec_varint(s, i) {
        None => {},
        Some((v, jv)) => {
            lemma_read_prefix(s, n, jv, v as int);
        },
    }
}

/// A parsed entry table only moves the position forward, and never past
/// the end of the source.
proof fn lemma_entries_end(s: Seq<u8>, i: int, k: nat, off: nat)
    requires
        0 <= i <= s.len(),
    ensures
        match spec_entries(s, i, k, off) {
            Ok((es, end)) => i <= end <= s.len(),
            Err(_) => true,
        },
    decreases k,
{
    if k > 0 {
        lemma_varint_bounds(s, i);
        match spec_string(s, i) {
            None => {},
            Some((_name, j1)) => match spec_u32(s, j1) {
                None => {},
                Some((_len, j2)) => match spec_u32(s, j2) {
                    None => {},
                    Some((clen, j3)) => {
                        lemma_entries_end(s, j3, (k - 1) as nat, off + clen);
                    },
                },
            },
        }
    }
}

/// An entry table read from a cut-down source: a table that ended at or
/// before the cut parses unchanged, and one that ran past it is truncated.
proof fn lemma_entries_prefix(s: Seq<u8>, n: int, i: int, k: nat, off: nat)
    requires
        0 <= i <= n,
        n <= s.len(),
    ensures
        match spec_entries(s, i, k, off) {
            Ok((es, end)) => if end <= n {
                spec_entries(s.take(n), i, k, off) == Ok::<(Seq<SpecEntry>, int), ObbyError>(
                    (es, end),
                )
            } else {
                spec_entries(s.take(n), i, k, off) == Err::<(Seq<SpecEntry>, int), ObbyError>(
                    ObbyError::Truncated,
                )
            },
            Err(_) => true,
        },
    decreases k,
{
    if k > 0 {
        lemma_string_prefix(s, n, i);
        lemma_varint_bounds(s, i);
        match spec_string(s, i) {
            None => {},
            Some((_name, j1)) => {
                lemma_u32_prefix(s, n, j1);
                match spec_u32(s, j1) {
                    None => {},
                    Some((_len, j2)) => {
                        lemma_u32_prefix(s, n, j2);
                        match spec_u32(s, j2) {
                            None => {},
                            Some((clen, j3)) => {
                                lemma_entries_end(s, j3, (k - 1) as nat, off + clen);
                                if j3 <= n {
                                    lemma_entries_prefix(s, n, j3, (k - 1) as nat, off + clen);
                                }
                            },
                        }
                    },
                }
            },
        }
    }
}

/// Cutting a parseable container anywhere after the magic tag and before
/// the payload region leaves a source that fails to open as `Truncated`.
#[verifier::rlimit(100)]
pub proof fn lemma_truncated_prefix(s: Seq<u8>, m: SpecArchive, n: int)
    requires
        spec_parse(s) == Ok::<SpecArchive, ObbyError>(m),
        4 <= n < m.data_start,
    ensures
        spec_parse(s.take(n)) == Err::<SpecArchive, ObbyError>(ObbyError::Truncated),
{
    let t = s.take(n);
    match spec_header(s) {
        Err(_) => {},
        Ok((count, p8)) => {
            lemma_entries_end(s, p8, count, 0);
            assert(n <= s.len());
            assert(t.subrange(0, 4) =~= s.subrange(0, 4));
            lemma_string_prefix(s, n, 4);
            match spec_string(s, 4) {
                None => {},
                Some((_api, p1)) => {
                    if p1 <= n {
                        lemma_read_prefix(s, n, p1, 48);
                        let p2 = p1 + 48;
                        if p2 + 1 <= n {
                            let sig_len: int = if s[p2] != 0 {
                                384
                            } else {
                                0
                            };
                            let p3 = p2 + 1;
                            lemma_read_prefix(s, n, p3, sig_len);
                            let p4 = p3 + sig_len;
                            if p4 <= n {
                                lemma_u32_prefix(s, n, p4);
                                match spec_u32(s, p4) {
                                    None => {},
                                    Some((_dlen, p5)) => {
                                        if p5 <= n {
                                            lemma_string_prefix(s, n, p5);
                                            match spec_string(s, p5) {
                                                None => {},
                                                Some((_asm, p6)) => {
                                                    if p6 <= n {
                                                        lemma_string_prefix(s, n, p6);
                                                        match spec_string(s, p6) {
                                                            None => {},
                                                            Some((_ver, p7)) => {
                                                                if p7 <= n {
                                                                    lemma_u32_prefix(s, n, p7);
                                                                    if p8 <= n {
                                                                        lemma_entries_prefix(
                                                                            s,
                                                                            n,
                                                                            p8,
                                                                            count,
                                                                            0,
                                                                        );
                                                                    }
                                                                }
                                                            },
                                                        }
                                                    }
                                                },
                                            }
                                        }
                                    },
                                }
                            }
                        }
                    }
                },
            }
        },
    }
}

/// A name absent from the table fails with `EntryNotFound` before any byte
/// of the source is consulted: the outcome does not depend on `source`.
pub proof fn lemma_extract_absent(m: SpecArchive, source: Seq<u8>, name: Seq<char>)
    requires
        spec_lookup(m.records, name) is None,
    ensures
        spec_extract(m, source, name) == Err::<Seq<u8>, ObbyError>(ObbyError::EntryNotFound),
{
}

/// Extraction is deterministic: the outcome is a function of the parsed
/// table, the byte source and the name alone, and extraction leaves all
/// three as they were — so repeated calls on one handle return
/// bit-identical output.
pub proof fn lemma_extract_idempotent(
    m: SpecArchive,
    source: Seq<u8>,
    name: Seq<char>,
    r1: Result<Seq<u8>, ObbyError>,
    r2: Result<Seq<u8>, ObbyError>,
)
    requires
        r1 == spec_extract(m, source, name),
        r2 == spec_extract(m, source, name),
    ensures
        r1 == r2,
{
}

} // verus!
