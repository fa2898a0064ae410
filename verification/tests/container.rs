use obsidian_lib::{ObbyArchive, ObbyError};
use std::io::Write;

/// Encodes a value as a base-128 varint, least-significant group first.
fn varint(mut v: u64) -> Vec<u8> {
    let mut out = Vec::new();
    loop {
        let byte = (v & 0x7f) as u8;
        v >>= 7;
        if v == 0 {
            out.push(byte);
            return out;
        }
        out.push(byte | 0x80);
    }
}

/// Encodes a length-prefixed string: varint byte count, then the bytes.
fn cs_string(s: &str) -> Vec<u8> {
    let mut out = varint(s.len() as u64);
    out.extend_from_slice(s.as_bytes());
    out
}

/// Builds a minimal unsigned container: magic, empty API version, zero
/// hash, unsigned flag, declared length 0, empty plugin strings, the given
/// records, then the payload bytes.
fn build_container(records: &[(&str, i32, i32)], payload: &[u8]) -> Vec<u8> {
    let mut v = b"OBBY".to_vec();
    v.push(0x00);
    v.extend_from_slice(&[0u8; 48]);
    v.push(0x00);
    v.extend_from_slice(&0i32.to_le_bytes());
    v.push(0x00);
    v.push(0x00);
    v.extend_from_slice(&(records.len() as i32).to_le_bytes());
    for (name, ulen, slen) in records {
        v.extend_from_slice(&cs_string(name));
        v.extend_from_slice(&ulen.to_le_bytes());
        v.extend_from_slice(&slen.to_le_bytes());
    }
    v.extend_from_slice(payload);
    v
}

#[test]
fn test_memory_buffer() {
    let json = br#"{"id":"test-plugin"}"#;
    let buffer = build_container(
        &[("plugin.json", json.len() as i32, json.len() as i32)],
        json,
    );
    let archive = ObbyArchive::new(buffer);
    assert!(archive.is_ok());
}

#[test]
fn test_round_trip_plugin_json() {
    let json = br#"{"name":"demo","version":"1.0.0"}"#;
    let len = json.len() as i32;
    let buffer = build_container(&[("plugin.json", len, len)], json);
    let mut archive = ObbyArchive::new(buffer).unwrap();
    let entries = archive.list_entries();
    assert_eq!(entries, vec!["plugin.json".to_string()]);
    let data = archive.extract_entry("plugin.json").unwrap();
    assert_eq!(data, json.to_vec());
}

#[test]
fn test_varint_decode() {
    let mut reader = obsidian_lib::reader::BinaryReader::new(vec![0xE5, 0x8E, 0x26]);
    let v = reader.read_varint().unwrap();
    assert_eq!(v, 624485);
}

#[test]
fn test_varint_single_byte() {
    let mut reader = obsidian_lib::reader::BinaryReader::new(vec![0x00, 0x7f]);
    assert_eq!(reader.read_varint().unwrap(), 0);
    assert_eq!(reader.read_varint().unwrap(), 0x7f);
}

#[test]
fn test_varint_truncated() {
    let mut reader = obsidian_lib::reader::BinaryReader::new(vec![0x80, 0x80]);
    assert_eq!(reader.read_varint(), Err(ObbyError::Truncated));
}

#[test]
fn test_extract_raw_entries() {
    let payload = b"firstsecond!";
    let buffer = build_container(
        &[("a.txt", 5, 5), ("b.txt", 7, 7)],
        payload,
    );
    let mut archive = ObbyArchive::new(buffer).unwrap();
    assert_eq!(archive.extract_entry("a.txt").unwrap(), b"first".to_vec());
    assert_eq!(archive.extract_entry("b.txt").unwrap(), b"second!".to_vec());
}

#[test]
fn test_extract_compressed_entry() {
    let original = b"hello hello hello hello hello hello hello";
    let mut encoder =
        flate2::write::DeflateEncoder::new(Vec::new(), flate2::Compression::default());
    encoder.write_all(original).unwrap();
    let compressed = encoder.finish().unwrap();
    assert_ne!(compressed.len(), original.len());
    let buffer = build_container(
        &[("data.bin", original.len() as i32, compressed.len() as i32)],
        &compressed,
    );
    let mut archive = ObbyArchive::new(buffer).unwrap();
    assert_eq!(archive.extract_entry("data.bin").unwrap(), original.to_vec());
}

#[test]
fn test_corrupt_compressed_entry() {
    // Lengths differ, so the stored bytes are treated as deflate data; this
    // garbage is not a deflate stream.
    let garbage = &[0xff, 0xff, 0xff, 0xff, 0xff, 0xff, 0xff, 0x01];
    let buffer = build_container(&[("bad.bin", 100, garbage.len() as i32)], garbage);
    let mut archive = ObbyArchive::new(buffer).unwrap();
    assert_eq!(archive.extract_entry("bad.bin"), Err(ObbyError::CorruptData));
}

#[test]
fn test_entry_not_found() {
    let payload = b"data";
    let buffer = build_container(&[("present", 4, 4)], payload);
    let mut archive = ObbyArchive::new(buffer).unwrap();
    assert_eq!(archive.extract_entry("absent"), Err(ObbyError::EntryNotFound));
    // The handle stays usable afterwards.
    assert_eq!(archive.extract_entry("present").unwrap(), b"data".to_vec());
}

#[test]
fn test_invalid_header() {
    let mut buffer = build_container(&[], &[]);
    buffer[0] = b'N';
    assert_eq!(ObbyArchive::new(buffer).err(), Some(ObbyError::InvalidHeader));
}

#[test]
fn test_short_source_is_truncated() {
    assert_eq!(ObbyArchive::new(vec![b'O', b'B']).err(), Some(ObbyError::Truncated));
    assert_eq!(ObbyArchive::new(Vec::new()).err(), Some(ObbyError::Truncated));
}

#[test]
fn test_truncated_at_every_point() {
    let payload = b"payload-bytes";
    let buffer = build_container(&[("entry", 13, 13)], payload);
    let archive = ObbyArchive::new(buffer.clone()).unwrap();
    let table_end = archive.payload_region_start() as usize;
    for cut in 4..table_end {
        let shorter = buffer[..cut].to_vec();
        assert_eq!(
            ObbyArchive::new(shorter).err(),
            Some(ObbyError::Truncated),
            "cut at {}",
            cut
        );
    }
}

#[test]
fn test_extract_is_idempotent() {
    let payload = b"same bytes every time";
    let buffer = build_container(&[("x", 21, 21)], payload);
    let mut archive = ObbyArchive::new(buffer).unwrap();
    let first = archive.extract_entry("x").unwrap();
    let second = archive.extract_entry("x").unwrap();
    let third = archive.extract_entry("x").unwrap();
    assert_eq!(first, second);
    assert_eq!(second, third);
    assert_eq!(first, payload.to_vec());
}

#[test]
fn test_payload_accounting() {
    // payload_region_start plus the sum of stored lengths covers the source
    // exactly when nothing trails the last entry.
    let payload = b"0123456789";
    let buffer = build_container(&[("a", 4, 4), ("b", 6, 6)], payload);
    let archive = ObbyArchive::new(buffer.clone()).unwrap();
    assert_eq!(
        archive.payload_region_start() as usize + 4 + 6,
        buffer.len()
    );
    assert_eq!(archive.entry_count(), 2);
}

#[test]
fn test_signed_container() {
    let json = b"{}";
    let mut v = b"OBBY".to_vec();
    v.push(0x00);
    v.extend_from_slice(&[0u8; 48]);
    v.push(0x01);
    v.extend_from_slice(&[0u8; 384]);
    v.extend_from_slice(&0i32.to_le_bytes());
    v.push(0x00);
    v.push(0x00);
    v.extend_from_slice(&1i32.to_le_bytes());
    v.extend_from_slice(&cs_string("plugin.json"));
    v.extend_from_slice(&(json.len() as i32).to_le_bytes());
    v.extend_from_slice(&(json.len() as i32).to_le_bytes());
    v.extend_from_slice(json);
    let mut archive = ObbyArchive::new(v).unwrap();
    assert_eq!(archive.extract_entry("plugin.json").unwrap(), json.to_vec());
}

#[test]
fn test_negative_entry_count() {
    let mut v = b"OBBY".to_vec();
    v.push(0x00);
    v.extend_from_slice(&[0u8; 48]);
    v.push(0x00);
    v.extend_from_slice(&0i32.to_le_bytes());
    v.push(0x00);
    v.push(0x00);
    v.extend_from_slice(&(-1i32).to_le_bytes());
    assert_eq!(ObbyArchive::new(v).err(), Some(ObbyError::InvalidHeader));
}

#[test]
fn test_negative_entry_length() {
    let mut v = b"OBBY".to_vec();
    v.push(0x00);
    v.extend_from_slice(&[0u8; 48]);
    v.push(0x00);
    v.extend_from_slice(&0i32.to_le_bytes());
    v.push(0x00);
    v.push(0x00);
    v.extend_from_slice(&1i32.to_le_bytes());
    v.extend_from_slice(&cs_string("n"));
    v.extend_from_slice(&(-5i32).to_le_bytes());
    v.extend_from_slice(&0i32.to_le_bytes());
    assert_eq!(ObbyArchive::new(v).err(), Some(ObbyError::InvalidHeader));
}

#[test]
fn test_duplicate_names_last_wins() {
    // Both records' bytes sit in the payload region, but lookup sees the
    // later record, and the name is listed once.
    let payload = b"oldestnewest";
    let buffer = build_container(&[("dup", 6, 6), ("dup", 6, 6)], payload);
    let mut archive = ObbyArchive::new(buffer).unwrap();
    assert_eq!(archive.list_entries(), vec!["dup".to_string()]);
    assert_eq!(archive.extract_entry("dup").unwrap(), b"newest".to_vec());
}

#[test]
fn test_extract_plugin_json_text() {
    let json = br#"{"ok":true}"#;
    let len = json.len() as i32;
    let buffer = build_container(&[("plugin.json", len, len)], json);
    let mut archive = ObbyArchive::new(buffer).unwrap();
    assert_eq!(archive.extract_plugin_json().unwrap(), r#"{"ok":true}"#.to_string());
}

#[test]
fn test_extract_plugin_json_invalid_encoding() {
    let raw = &[0xff, 0xfe, 0xfd];
    let buffer = build_container(&[("plugin.json", 3, 3)], raw);
    let mut archive = ObbyArchive::new(buffer).unwrap();
    assert_eq!(archive.extract_plugin_json(), Err(ObbyError::InvalidEncoding));
}

#[test]
fn test_lossy_name_decoding() {
    // A name whose bytes are not valid UTF-8 is decoded with replacement,
    // not rejected: the entry is reachable under the replacement character.
    let mut v = b"OBBY".to_vec();
    v.push(0x00);
    v.extend_from_slice(&[0u8; 48]);
    v.push(0x00);
    v.extend_from_slice(&0i32.to_le_bytes());
    v.push(0x00);
    v.push(0x00);
    v.extend_from_slice(&1i32.to_le_bytes());
    v.push(0x01);
    v.push(0xff);
    v.extend_from_slice(&2i32.to_le_bytes());
    v.extend_from_slice(&2i32.to_le_bytes());
    v.extend_from_slice(b"hi");
    let mut archive = ObbyArchive::new(v).unwrap();
    assert_eq!(archive.list_entries(), vec!["\u{fffd}".to_string()]);
    assert_eq!(archive.extract_entry("\u{fffd}").unwrap(), b"hi".to_vec());
}

#[test]
fn test_long_name_varint_prefix() {
    // A 200-byte name needs a two-byte varint length prefix.
    let name = "n".repeat(200);
    let payload = b"xyz";
    let buffer = build_container(&[(name.as_str(), 3, 3)], payload);
    let mut archive = ObbyArchive::new(buffer).unwrap();
    assert_eq!(archive.list_entries(), vec![name.clone()]);
    assert_eq!(archive.extract_entry(&name).unwrap(), b"xyz".to_vec());
}

#[test]
fn test_zero_length_entry() {
    let buffer = build_container(&[("empty", 0, 0)], &[]);
    let mut archive = ObbyArchive::new(buffer).unwrap();
    assert_eq!(archive.extract_entry("empty").unwrap(), Vec::<u8>::new());
}

#[test]
fn test_missing_payload_is_truncated_on_extract() {
    // The table declares 10 stored bytes but the payload region is empty:
    // opening succeeds, extraction reports the truncation.
    let buffer = build_container(&[("gone", 10, 10)], &[]);
    let mut archive = ObbyArchive::new(buffer).unwrap();
    assert_eq!(archive.extract_entry("gone"), Err(ObbyError::Truncated));
}

#[test]
fn test_error_descriptions() {
    assert_eq!(ObbyError::InvalidHeader.describe(), "invalid plugin header");
    assert_eq!(ObbyError::Truncated.describe(), "unexpected end of data");
    assert_eq!(ObbyError::EntryNotFound.describe(), "entry not found in archive");
    assert_eq!(ObbyError::CorruptData.describe(), "corrupt compressed data");
    assert_eq!(ObbyError::InvalidEncoding.describe(), "entry is not valid UTF-8");
}
