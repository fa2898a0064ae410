//! The container parser and the archive handle.
//!
//! [`ObbyArchive::new`] runs the one-pass parse over an in-memory byte
//! buffer and builds the entry table; [`ObbyArchive::extract_entry`] seeks
//! to an entry's payload, reads its stored bytes and decompresses them when
//! the two declared lengths differ.

use vstd::prelude::*;

use crate::error::ObbyError;
use crate::format::{inflate_of, spec_extract, spec_lookup, spec_parse, SpecArchive, SpecEntry};

verus! {

broadcast use vstd::seq_lib::lemma_seq_contains_after_push;

/// One entry of the table: the decoded name, the payload offset relative to
/// the start of the payload region (the running sum of the stored lengths of
/// every earlier record), and the entry's two declared lengths.
pub struct EntryInfo {
    /// Decoded entry name, the lookup key.
    pub name: String,
    /// Offset of the stored bytes, relative to the payload region start.
    pub offset: u64,
    /// Declared uncompressed length.
    pub length: u32,
    /// Declared stored length; equal to `length` when the entry is raw.
    pub compressed_length: u32,
}

impl View for EntryInfo {
    type V = SpecEntry;

    open spec fn view(&self) -> SpecEntry {
        SpecEntry {
            name: self.name@,
            offset: self.offset as nat,
            length: self.length as nat,
            compressed_length: self.compressed_length as nat,
        }
    }
}

/// A parsed container: the entry table, the byte source it was parsed from,
/// and the absolute position where entry payloads begin.
pub struct ObbyArchive {
    entries: Vec<EntryInfo>,
    reader: crate::reader::BinaryReader,
    data_start_pos: u64,
}

impl View for ObbyArchive {
    type V = SpecArchive;

    closed spec fn view(&self) -> SpecArchive {
        SpecArchive {
            records: self.entries@.map_values(|e: EntryInfo| e@),
            data_start: self.data_start_pos as nat,
        }
    }
}

/// Relies on `flate2::read::DeflateDecoder` driven by `Read::read_to_end`:
/// raw-deflate decompression, a function of the compressed bytes alone,
/// yielding `None` exactly when the bytes are not a well-formed deflate
/// stream.
#[verifier::external_body]
fn inflate(data: &Vec<u8>) -> (r: Option<Vec<u8>>)
    ensures
        (match (r, inflate_of(data@)) {
            (Some(v), Some(b)) => v@ == b,
            (None, None) => true,
            _ => false,
        }),
{
    let mut out = Vec::new();
    let mut decoder = flate2::read::DeflateDecoder::new(data.as_slice());
    match std::io::Read::read_to_end(&mut decoder, &mut out) {
        Ok(_) => Some(out),
        Err(_) => None,
    }
}

/// Relies on `String::from_utf8`: strict UTF-8 decoding, succeeding exactly
/// on valid UTF-8 and returning its decoded characters.
#[verifier::external_body]
fn utf8_strict(bytes: Vec<u8>) -> (r: Option<String>)
    ensures
        (match r {
            Some(t) => vstd::utf8::valid_utf8(bytes@) && t@ == vstd::utf8::decode_utf8(bytes@),
            None => !vstd::utf8::valid_utf8(bytes@),
        }),
{
    String::from_utf8(bytes).ok()
}

/// The character sequences of a list of owned strings.
pub open spec fn names_view(names: Seq<String>) -> Seq<Seq<char>> {
    names.map_values(|s: String| s@)
}

/// The decoded names of a table, in wire order.
pub open spec fn entry_names(entries: Seq<EntryInfo>) -> Seq<Seq<char>> {
    entries.map_values(|e: EntryInfo| e.name@)
}

/// True when one of `names` holds the same characters as `name`.
fn contains_name(names: &Vec<String>, name: &String) -> (r: bool)
    ensures
        r == names_view(names@).contains(name@),
{
    let mut i: usize = 0;
    while i < names.len()
        invariant
            i <= names@.len(),
            forall|j: int| 0 <= j < i ==> names_view(names@)[j] != name@,
        decreases names@.len() - i,
    {
        if names[i] == *name {
            proof {
                assert(names_view(names@)[i as int] == name@);
            }
            return true;
        }
        i = i + 1;
    }
    proof {
        assert(forall|j: int|
            0 <= j < names_view(names@).len() ==> names_view(names@)[j] != name@);
    }
    false
}

impl ObbyArchive {
    /// The byte source the archive was parsed from and reads payloads from.
    pub closed spec fn source(&self) -> Seq<u8> {
        self.reader.source()
    }

    /// Parses a container held in a byte buffer: magic tag, metadata
    /// prelude, optional signature, and the entry table. Succeeds exactly
    /// when the spec-level parse does, and returns the handle it describes.
    #[verifier::loop_isolation(false)]
    #[verifier::rlimit(60)]
    pub fn new(data: Vec<u8>) -> (r: Result<ObbyArchive, ObbyError>)
        ensures
            match r {
                Ok(a) => spec_parse(data@) == Ok::<SpecArchive, ObbyError>(a@) && a.source()
                    == data@,
                Err(e) => spec_parse(data@) == Err::<SpecArchive, ObbyError>(e),
            },
    {
        let ghost s = data@;
        let mut reader = crate::reader::BinaryReader::new(data);

        // Magic tag.
        let header = match reader.read_bytes(4) {
            Ok(b) => b,
            Err(e) => {
                return Err(e);
            },
        };
        proof {
            let m = crate::format::spec_magic();
            assert(m.len() == 4);
            assert(m[0] == 0x4f && m[1] == 0x42 && m[2] == 0x42 && m[3] == 0x59);
        }
        if !(header[0] == 0x4f && header[1] == 0x42 && header[2] == 0x42 && header[3] == 0x59) {
            proof {
                assert(s.subrange(0, 4) != crate::format::spec_magic());
            }
            return Err(ObbyError::InvalidHeader);
        }
        proof {
            assert(header@ =~= crate::format::spec_magic());
        }

        // Metadata prelude: API version string and content hash.
        let _api_version = match reader.read_csharp_string() {
            Ok(v) => v,
            Err(e) => {
                return Err(e);
            },
        };
        let _hash = match reader.read_bytes(48) {
            Ok(v) => v,
            Err(e) => {
                return Err(e);
            },
        };

        // Signed flag, then the signature block when it is set.
        let is_signed = match reader.read_u8() {
            Ok(v) => v,
            Err(e) => {
                return Err(e);
            },
        };
        if is_signed != 0 {
            let _signature = match reader.read_bytes(384) {
                Ok(v) => v,
                Err(e) => {
                    return Err(e);
                },
            };
        }

        // Declared payload length and plugin identification strings.
        let data_length = match reader.read_u32_le() {
            Ok(v) => v,
            Err(e) => {
                return Err(e);
            },
        };
        if data_length >= 0x8000_0000 {
            return Err(ObbyError::InvalidHeader);
        }
        let _plugin_assembly = match reader.read_csharp_string() {
            Ok(v) => v,
            Err(e) => {
                return Err(e);
            },
        };
        let _plugin_version = match reader.read_csharp_string() {
            Ok(v) => v,
            Err(e) => {
                return Err(e);
            },
        };

        // Entry count, then the table records.
        let entry_count = match reader.read_u32_le() {
            Ok(v) => v,
            Err(e) => {
                return Err(e);
            },
        };
        if entry_count >= 0x8000_0000 {
            return Err(ObbyError::InvalidHeader);
        }

        let ghost p8 = reader.position();
        let ghost entries_res = crate::format::spec_entries(s, p8, entry_count as nat, 0);
        proof {
            assert(spec_parse(s) == (match entries_res {
                Err(err) => Err::<SpecArchive, ObbyError>(err),
                Ok((records, end)) => Ok::<SpecArchive, ObbyError>(
                    SpecArchive { records, data_start: end as nat },
                ),
            }));
        }
        let mut entries: Vec<EntryInfo> = Vec::new();
        let mut current_offset: u64 = 0;
        let mut i: u32 = 0;
        while i < entry_count
            invariant
                reader.source() == s,
                i <= entry_count,
                entries@.len() == i as nat,
                current_offset as int <= (i as int) * 0x7fff_ffff,
                match crate::format::spec_entries(
                    s,
                    reader.position(),
                    (entry_count - i) as nat,
                    current_offset as nat,
                ) {
                    Err(err) => entries_res == Err::<(Seq<SpecEntry>, int), ObbyError>(err),
                    Ok((rest, end)) => entries_res == Ok::<(Seq<SpecEntry>, int), ObbyError>(
                        (entries@.map_values(|e: EntryInfo| e@) + rest, end),
                    ),
                },
            decreases entry_count - i,
        {
            let ghost built = entries@.map_values(|e: EntryInfo| e@);
            let name = match reader.read_csharp_string() {
                Ok(v) => v,
                Err(e) => {
                    return Err(e);
                },
            };
            let length = match reader.read_u32_le() {
                Ok(v) => v,
                Err(e) => {
                    return Err(e);
                },
            };
            if length >= 0x8000_0000 {
                return Err(ObbyError::InvalidHeader);
            }
            let compressed_length = match reader.read_u32_le() {
                Ok(v) => v,
                Err(e) => {
                    return Err(e);
                },
            };
            if compressed_length >= 0x8000_0000 {
                return Err(ObbyError::InvalidHeader);
            }
            proof {
                assert((i as int) * 0x7fff_ffff + 0x7fff_ffff == (i as int + 1) * 0x7fff_ffff) by (
                nonlinear_arith);
                assert((i as int + 1) * 0x7fff_ffff <= 0x8000_0000 * 0x7fff_ffff) by (
                nonlinear_arith)
                    requires
                        0 <= i as int + 1 <= 0x8000_0000,
                ;
            }
            let entry = EntryInfo { name, offset: current_offset, length, compressed_length };
            let ghost se = entry@;
            entries.push(entry);
            current_offset = current_offset + compressed_length as u64;
            i = i + 1;
            proof {
                assert(entries@.map_values(|e: EntryInfo| e@) =~= built + seq![se]);
                match crate::format::spec_entries(
                    s,
                    reader.position(),
                    (entry_count - i) as nat,
                    current_offset as nat,
                ) {
                    Err(err) => {},
                    Ok((rest2, end2)) => {
                        assert((built + seq![se]) + rest2 =~= built + (seq![se] + rest2));
                    },
                }
            }
        }
        proof {
            assert(entries@.map_values(|e: EntryInfo| e@) + Seq::<SpecEntry>::empty() =~= entries@.map_values(
                |e: EntryInfo| e@,
            ));
        }
        let data_start_pos = reader.stream_position();
        let archive = ObbyArchive { entries, reader, data_start_pos };
        proof {
            assert(spec_parse(s) == Ok::<SpecArchive, ObbyError>(archive@));
        }
        Ok(archive)
    }

    /// The names in the table, each once, in no promised order: a name is
    /// listed exactly when some record bears it, and no name is listed
    /// twice.
    pub fn list_entries(&self) -> (r: Vec<String>)
        ensures
            names_view(r@).no_duplicates(),
            forall|name: Seq<char>| #[trigger]
                names_view(r@).contains(name) <==> crate::format::spec_names(
                    self@.records,
                ).contains(name),
    {
        let mut out: Vec<String> = Vec::new();
        let mut k: usize = 0;
        while k < self.entries.len()
            invariant
                k <= self.entries@.len(),
                names_view(out@).no_duplicates(),
                forall|name: Seq<char>| #[trigger]
                    names_view(out@).contains(name) <==> entry_names(self.entries@).take(
                        k as int,
                    ).contains(name),
            decreases self.entries@.len() - k,
        {
            let name_ref = &self.entries[k].name;
            let ghost old_names = names_view(out@);
            let ghost nm = name_ref@;
            let present = contains_name(&out, name_ref);
            if !present {
                out.push(name_ref.clone());
            }
            proof {
                assert(entry_names(self.entries@).take(k as int + 1) =~= entry_names(
                    self.entries@,
                ).take(k as int).push(nm));
                if !present {
                    assert(names_view(out@) =~= old_names.push(nm));
                }
            }
            k = k + 1;
        }
        proof {
            assert(entry_names(self.entries@).take(self.entries@.len() as int) =~= entry_names(
                self.entries@,
            ));
            assert(crate::format::spec_names(self@.records) =~= entry_names(self.entries@));
        }
        out
    }

    /// The absolute position in the byte source where the payload region
    /// (the concatenated stored entry bytes) begins.
    pub fn payload_region_start(&self) -> (r: u64)
        ensures
            r as nat == self@.data_start,
    {
        self.data_start_pos
    }

    /// How many records the table holds (a duplicated name counts each
    /// record).
    pub fn entry_count(&self) -> (r: usize)
        ensures
            r as nat == self@.records.len(),
    {
        self.entries.len()
    }

    /// Extracts one entry by name: looks the name up, reads the entry's
    /// stored bytes from the payload region, and inflates them exactly when
    /// the stored length differs from the declared uncompressed length.
    /// The handle itself is left as it was, so repeated calls on the same
    /// name return the same bytes.
    #[verifier::loop_isolation(false)]
    pub fn extract_entry(&mut self, entry_name: &str) -> (r: Result<Vec<u8>, ObbyError>)
        ensures
            final(self)@ == old(self)@,
            final(self).source() == old(self).source(),
            (match (r, spec_extract(old(self)@, old(self).source(), entry_name@)) {
                (Ok(v), Ok(b)) => v@ == b,
                (Err(e1), Err(e2)) => e1 == e2,
                _ => false,
            }),
    {
        let ghost m = self@;
        let ghost src = self.source();
        let key: String = entry_name.to_owned();
        let n = self.entries.len();
        let mut idx: usize = n;
        let mut found = false;
        let mut found_idx: usize = 0;
        proof {
            assert(m.records.take(n as int) =~= m.records);
        }
        while idx > 0 && !found
            invariant
                n == self.entries@.len(),
                m == self@,
                src == self.source(),
                key@ == entry_name@,
                idx <= n,
                m.records.len() == n as int,
                forall|t: int|
                    0 <= t < n ==> (#[trigger] m.records[t]) == self.entries@[t]@,
                !found ==> spec_lookup(m.records, entry_name@) == spec_lookup(
                    m.records.take(idx as int),
                    entry_name@,
                ),
                found ==> found_idx < n && spec_lookup(m.records, entry_name@) == Some(
                    m.records[found_idx as int],
                ),
            decreases idx,
        {
            idx = idx - 1;
            proof {
                assert(m.records.take(idx as int + 1).last() == m.records[idx as int]);
                assert(m.records.take(idx as int + 1).drop_last() =~= m.records.take(idx as int));
            }
            if self.entries[idx].name == key {
                found = true;
                found_idx = idx;
            }
        }
        if !found {
            proof {
                assert(m.records.take(0) =~= Seq::<SpecEntry>::empty());
            }
            return Err(ObbyError::EntryNotFound);
        }
        let ghost se = m.records[found_idx as int];
        let e_off = self.entries[found_idx].offset;
        let e_len = self.entries[found_idx].length;
        let e_cl = self.entries[found_idx].compressed_length;

        let raw: Vec<u8>;
        if e_cl == 0 {
            raw = Vec::new();
        } else {
            let start = match self.data_start_pos.checked_add(e_off) {
                Some(v) => v,
                None => {
                    proof {
                        self.reader.lemma_source_len();
                    }
                    return Err(ObbyError::Truncated);
                },
            };
            self.reader.seek(start);
            raw = match self.reader.read_bytes(e_cl as usize) {
                Ok(b) => b,
                Err(err) => {
                    return Err(err);
                },
            };
        }
        if e_cl != e_len {
            match inflate(&raw) {
                Some(out) => Ok(out),
                None => Err(ObbyError::CorruptData),
            }
        } else {
            Ok(raw)
        }
    }

    /// Extracts the entry conventionally named `plugin.json` and decodes it
    /// as UTF-8 text, strictly: bytes that are not valid UTF-8 are an
    /// [`ObbyError::InvalidEncoding`] error, not replaced.
    pub fn extract_plugin_json(&mut self) -> (r: Result<String, ObbyError>)
        ensures
            final(self)@ == old(self)@,
            final(self).source() == old(self).source(),
            (match (r, spec_extract(old(self)@, old(self).source(), "plugin.json"@)) {
                (Ok(t), Ok(b)) => vstd::utf8::valid_utf8(b) && t@ == vstd::utf8::decode_utf8(b),
                (Err(e), Ok(b)) => e == ObbyError::InvalidEncoding && !vstd::utf8::valid_utf8(b),
                (Err(e1), Err(e2)) => e1 == e2,
                (Ok(_), Err(_)) => false,
            }),
    {
        let data = match self.extract_entry("plugin.json") {
            Ok(d) => d,
            Err(e) => {
                return Err(e);
            },
        };
        match utf8_strict(data) {
            Some(t) => Ok(t),
            None => Err(ObbyError::InvalidEncoding),
        }
    }
}

} // verus!
