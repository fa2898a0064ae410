//! Mathematical model of the container wire format.
//!
//! Every executable contract of the crate is stated against the spec
//! functions here: a byte-exact, one-pass description of the header, the
//! entry table and the extraction rule.

use vstd::prelude::*;

use crate::error::ObbyError;

verus! {

/// The fixed 4-byte magic tag `OBBY` that opens every container.
pub open spec fn spec_magic() -> Seq<u8> {
    seq![0x4fu8, 0x42u8, 0x42u8, 0x59u8]
}

/// What `String::from_utf8_lossy` returns on the given bytes: the decoded
/// characters, with every malformed sequence replaced. The result depends on
/// the bytes alone.
pub uninterp spec fn lossy_utf8_of(bytes: Seq<u8>) -> Seq<char>;

/// What raw-deflate decompression (the legacy deflate-without-zlib-wrapper
/// variant) returns on the given bytes: the decompressed bytes, or `None`
/// when the input is not a well-formed deflate stream. The result depends on
/// the bytes alone.
pub uninterp spec fn inflate_of(bytes: Seq<u8>) -> Option<Seq<u8>>;

/// Decoded value and end position of a base-128 varint starting at `i`: the
/// low 7 bits of each byte form the value, least-significant group first,
/// and a set top bit means "one more byte follows". `None` when the bytes
/// run out before a byte with a clear top bit.
pub open spec fn spec_varint(s: Seq<u8>, i: int) -> Option<(nat, int)>
    decreases s.len() - i,
{
    if i < 0 || i >= s.len() {
        None
    } else if s[i] < 128 {
        Some((s[i] as nat, i + 1))
    } else {
        match spec_varint(s, i + 1) {
            None => None,
            Some((v, j)) => Some((((s[i] - 128) + 128 * v) as nat, j)),
        }
    }
}

/// The `n` bytes at position `p`, when they are all there. Reading zero
/// bytes succeeds at any position, as a cursor read into an empty buffer
/// does.
pub open spec fn spec_read(s: Seq<u8>, p: int, n: int) -> Option<Seq<u8>> {
    if n == 0 {
        Some(Seq::empty())
    } else if 0 <= p && 0 < n && p + n <= s.len() {
        Some(s.subrange(p, p + n))
    } else {
        None
    }
}

/// A length-prefixed string starting at `i`: a varint length, then that many
/// bytes, decoded as UTF-8 with malformed sequences replaced.
pub open spec fn spec_string(s: Seq<u8>, i: int) -> Option<(Seq<char>, int)> {
    match spec_varint(s, i) {
        None => None,
        Some((n, j)) => match spec_read(s, j, n as int) {
            None => None,
            Some(bytes) => Some((lossy_utf8_of(bytes), j + n)),
        },
    }
}

/// Value of the 4 little-endian bytes at `i`.
pub open spec fn le32_at(s: Seq<u8>, i: int) -> nat
    recommends
        0 <= i,
        i + 4 <= s.len(),
{
    (s[i] + s[i + 1] * 0x100 + s[i + 2] * 0x10000 + s[i + 3] * 0x1000000) as nat
}

/// A 4-byte little-endian field starting at `i`, with its end position.
pub open spec fn spec_u32(s: Seq<u8>, i: int) -> Option<(nat, int)> {
    if 0 <= i && i + 4 <= s.len() {
        Some((le32_at(s, i), i + 4))
    } else {
        None
    }
}

/// One table record, as parsed: the decoded name, the cumulative offset of
/// its payload relative to the start of the payload region, and the two
/// declared lengths (equal when the entry was stored uncompressed).
#[verifier::ext_equal]
pub struct SpecEntry {
    pub name: Seq<char>,
    pub offset: nat,
    pub length: nat,
    pub compressed_length: nat,
}

/// The observable result of parsing a container: the table records in wire
/// order (a duplicated name keeps every record), and the absolute position
/// where the payload region begins.
#[verifier::ext_equal]
pub struct SpecArchive {
    pub records: Seq<SpecEntry>,
    pub data_start: nat,
}

/// The entry table: `k` records starting at `i`, each a length-prefixed
/// name and two signed 32-bit length fields. Offsets accumulate the stored
/// lengths of every record seen so far, starting from `off`. The wire
/// declares the fields signed; a negative value is a format-level error.
pub open spec fn spec_entries(s: Seq<u8>, i: int, k: nat, off: nat) -> Result<
    (Seq<SpecEntry>, int),
    ObbyError,
>
    decreases k,
{
    if k == 0 {
        Ok((Seq::empty(), i))
    } else {
        match spec_string(s, i) {
            None => Err(ObbyError::Truncated),
            Some((name, j1)) => match spec_u32(s, j1) {
                None => Err(ObbyError::Truncated),
                Some((len, j2)) => if len >= 0x8000_0000 {
                    Err(ObbyError::InvalidHeader)
                } else {
                    match spec_u32(s, j2) {
                        None => Err(ObbyError::Truncated),
                        Some((clen, j3)) => if clen >= 0x8000_0000 {
                            Err(ObbyError::InvalidHeader)
                        } else {
                            let e = SpecEntry {
                                name,
                                offset: off,
                                length: len,
                                compressed_length: clen,
                            };
                            match spec_entries(s, j3, (k - 1) as nat, off + clen) {
                                Err(err) => Err(err),
                                Ok((rest, end)) => Ok((seq![e] + rest, end)),
                            }
                        },
                    }
                },
            },
        }
    }
}

/// The fixed prelude of the container, through the entry count: magic tag,
/// API version string, 48-byte content hash, signed flag with its
/// conditional 384-byte signature, declared payload length, and the two
/// plugin strings. Yields the entry count and the position where the entry
/// table begins.
pub open spec fn spec_header(s: Seq<u8>) -> Result<(nat, int), ObbyError> {
    if s.len() < 4 {
        Err(ObbyError::Truncated)
    } else if s.subrange(0, 4) != spec_magic() {
        Err(ObbyError::InvalidHeader)
    } else {
        match spec_string(s, 4) {
            None => Err(ObbyError::Truncated),
            Some((_api_version, p1)) => match spec_read(s, p1, 48) {
                None => Err(ObbyError::Truncated),
                Some(_hash) => {
                    let p2 = p1 + 48;
                    if p2 + 1 > s.len() {
                        Err(ObbyError::Truncated)
                    } else {
                        let sig_len: int = if s[p2] != 0 { 384 } else { 0 };
                        let p3 = p2 + 1;
                        match spec_read(s, p3, sig_len) {
                            None => Err(ObbyError::Truncated),
                            Some(_signature) => {
                                let p4 = p3 + sig_len;
                                match spec_u32(s, p4) {
                                    None => Err(ObbyError::Truncated),
                                    Some((dlen, p5)) => if dlen >= 0x8000_0000 {
                                        Err(ObbyError::InvalidHeader)
                                    } else {
                                        match spec_string(s, p5) {
                                            None => Err(ObbyError::Truncated),
                                            Some((_assembly, p6)) => match spec_string(s, p6) {
                                                None => Err(ObbyError::Truncated),
                                                Some((_version, p7)) => match spec_u32(s, p7) {
                                                    None => Err(ObbyError::Truncated),
                                                    Some((count, p8)) => if count >= 0x8000_0000 {
                                                        Err(ObbyError::InvalidHeader)
                                                    } else {
                                                        Ok((count, p8))
                                                    },
                                                },
                                            },
                                        }
                                    },
                                }
                            },
                        }
                    }
                },
            },
        }
    }
}

/// The whole one-pass parse: the header prelude, then the entry table. The
/// position after the table is where entry payloads begin.
pub open spec fn spec_parse(s: Seq<u8>) -> Result<SpecArchive, ObbyError> {
    match spec_header(s) {
        Err(e) => Err(e),
        Ok((count, p8)) => match spec_entries(s, p8, count, 0) {
            Err(err) => Err(err),
            Ok((records, end)) => Ok(SpecArchive { records, data_start: end as nat }),
        },
    }
}

/// The record a name lookup finds: the last record in wire order bearing
/// that name, exactly as one map insert per record would leave the table.
pub open spec fn spec_lookup(records: Seq<SpecEntry>, name: Seq<char>) -> Option<SpecEntry>
    decreases records.len(),
{
    if records.len() == 0 {
        None
    } else if records.last().name == name {
        Some(records.last())
    } else {
        spec_lookup(records.drop_last(), name)
    }
}

/// What extracting `name` yields from a parsed container over `source`:
/// the entry's stored bytes at `data_start + offset`, decompressed exactly
/// when the two declared lengths differ.
pub open spec fn spec_extract(m: SpecArchive, source: Seq<u8>, name: Seq<char>) -> Result<
    Seq<u8>,
    ObbyError,
> {
    match spec_lookup(m.records, name) {
        None => Err(ObbyError::EntryNotFound),
        Some(e) => match spec_read(
            source,
            (m.data_start + e.offset) as int,
            e.compressed_length as int,
        ) {
            None => Err(ObbyError::Truncated),
            Some(raw) => if e.compressed_length == e.length {
                Ok(raw)
            } else {
                match inflate_of(raw) {
                    Some(out) => Ok(out),
                    None => Err(ObbyError::CorruptData),
                }
            },
        },
    }
}

/// The decoded names of the records, in wire order.
pub open spec fn spec_names(records: Seq<SpecEntry>) -> Seq<Seq<char>> {
    records.map_values(|e: SpecEntry| e.name)
}

/// A decoded varint ends strictly after it starts and within the bytes.
pub proof fn lemma_varint_bounds(s: Seq<u8>, i: int)
    ensures
        match spec_varint(s, i) {
            None => true,
            Some((v, j)) => i < j <= s.len(),
        },
    decreases s.len() - i,
{
    if 0 <= i && i < s.len() && s[i] >= 128 {
        lemma_varint_bounds(s, i + 1);
    }
}

/// Sum of the stored (on-wire) lengths of a record sequence.
pub open spec fn sum_stored(records: Seq<SpecEntry>) -> nat
    decreases records.len(),
{
    if records.len() == 0 {
        0
    } else {
        sum_stored(records.drop_last()) + records.last().compressed_length
    }
}

} // verus!
