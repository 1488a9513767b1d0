use paklib::{PakError, PakFile, PakReader, PakReaderError};

const MAGIC: u32 = 0x5A6F12E1;

fn fstr(s: &str) -> Vec<u8> {
    let mut v = ((s.len() as i32) + 1).to_le_bytes().to_vec();
    v.extend_from_slice(s.as_bytes());
    v.push(0);
    v
}

fn footer(version: i32, sub_version: i32, encrypted: u8, index_offset: i64, index_size: i64) -> Vec<u8> {
    let mut f: Vec<u8> = Vec::new();
    f.extend_from_slice(&[0xABu8; 16]);
    f.push(encrypted);
    f.extend_from_slice(&MAGIC.to_le_bytes());
    f.extend_from_slice(&version.to_le_bytes());
    f.extend_from_slice(&index_offset.to_le_bytes());
    f.extend_from_slice(&index_size.to_le_bytes());
    f.extend_from_slice(&[0u8; 20]);
    if version >= 9 {
        f.push(0);
    }
    if version >= 8 {
        let name_block: usize = if version == 8 && sub_version == 0 { 128 } else { 160 };
        let mut names = vec![0u8; name_block];
        names[..5].copy_from_slice(b"Zlib\0");
        names[5..10].copy_from_slice(b"Gzip\0");
        f.extend_from_slice(&names);
    }
    f
}

/// An entry record; `flag_word` overrides the legacy flag word below
/// version 8 when given.
fn entry_record(
    version: i32,
    sub_version: i32,
    offset: u64,
    size: u64,
    uncompressed: u64,
    ci: u32,
    flag_word: Option<u32>,
    blocks: &[(i64, i64)],
    block_size: u32,
) -> Vec<u8> {
    let mut v: Vec<u8> = Vec::new();
    v.extend_from_slice(&offset.to_le_bytes());
    v.extend_from_slice(&size.to_le_bytes());
    v.extend_from_slice(&uncompressed.to_le_bytes());
    if version >= 8 {
        if sub_version == 1 {
            v.push(ci as u8);
        } else {
            v.extend_from_slice(&ci.to_le_bytes());
        }
    } else {
        let w: u32 = flag_word.unwrap_or(match ci {
            0 => 0,
            1 => 1,
            2 => 2,
            _ => 4,
        });
        v.extend_from_slice(&w.to_le_bytes());
    }
    if version < 2 {
        v.extend_from_slice(&0u64.to_le_bytes());
    }
    v.extend_from_slice(&[0u8; 20]);
    if version >= 3 && ci != 0 {
        v.extend_from_slice(&(blocks.len() as i32).to_le_bytes());
        for b in blocks {
            v.extend_from_slice(&b.0.to_le_bytes());
            v.extend_from_slice(&b.1.to_le_bytes());
        }
        v.push(0);
        v.extend_from_slice(&block_size.to_le_bytes());
    }
    v
}

/// Build a whole archive: a payload region, the index, the trailer. Each
/// entry is (name, payload position, on-disk size, uncompressed size,
/// compression index, flag word override, blocks, nominal block size).
fn archive(
    version: i32,
    sub_version: i32,
    encrypted: u8,
    mount: &str,
    payload_region: &[u8],
    entries: &[(&str, u64, u64, u64, u32, Option<u32>, Vec<(i64, i64)>, u32)],
) -> Vec<u8> {
    let mut index: Vec<u8> = Vec::new();
    index.extend_from_slice(&fstr(mount));
    index.extend_from_slice(&(entries.len() as i32).to_le_bytes());
    for e in entries {
        index.extend_from_slice(&fstr(e.0));
        let rec = entry_record(version, sub_version, 0, e.2, e.3, e.4, e.5, &e.6, e.7);
        // the payload sits at offset + header size, so the offset backs up
        // by the record's own length
        let offset = e.1 - rec.len() as u64;
        let rec = entry_record(version, sub_version, offset, e.2, e.3, e.4, e.5, &e.6, e.7);
        index.extend_from_slice(&rec);
    }
    let mut a: Vec<u8> = payload_region.to_vec();
    let index_offset = a.len() as i64;
    let index_size = index.len() as i64;
    a.extend_from_slice(&index);
    a.extend_from_slice(&footer(version, sub_version, encrypted, index_offset, index_size));
    a
}

/// A zlib stream holding `data` in one stored deflate block.
fn zlib_stored(data: &[u8]) -> Vec<u8> {
    let mut v = vec![0x78u8, 0x01];
    v.extend_from_slice(&deflate_stored(data));
    let mut a: u32 = 1;
    let mut b: u32 = 0;
    for &x in data {
        a = (a + x as u32) % 65521;
        b = (b + a) % 65521;
    }
    let adler = (b << 16) | a;
    v.extend_from_slice(&adler.to_be_bytes());
    v
}

/// A raw deflate stream holding `data` in one stored block.
fn deflate_stored(data: &[u8]) -> Vec<u8> {
    let mut v = vec![0x01u8];
    let len = data.len() as u16;
    v.extend_from_slice(&len.to_le_bytes());
    v.extend_from_slice(&(!len).to_le_bytes());
    v.extend_from_slice(data);
    v
}

#[test]
fn probe_each_version() {
    for &(version, sub_version) in
        &[(1, 0), (2, 0), (3, 0), (4, 0), (5, 0), (7, 0), (8, 0), (8, 1), (9, 0)]
    {
        let a = archive(version, sub_version, 0, "Mount/", &[0u8; 64], &[]);
        let pak = PakFile::from_memory(a).unwrap();
        assert_eq!(pak.info.version, version);
        assert_eq!(pak.info.sub_version, sub_version);
        assert_eq!(pak.info.magic, MAGIC);
        assert!(!pak.info.is_encrypted);
    }
}

#[test]
fn probe_unknown_version_on_garbage() {
    let a = vec![7u8; 400];
    match PakFile::from_memory(a) {
        Err(PakError::ReaderError(PakReaderError::UnknownVersion)) => {}
        other => panic!("unexpected: {:?}", other.is_ok()),
    }
}

#[test]
fn probe_out_of_range_version_rejected() {
    // a well-formed trailer whose version field is outside the known range
    let a = archive(42, 0, 0, "Mount/", &[0u8; 64], &[]);
    match PakFile::from_memory(a) {
        Err(PakError::ReaderError(PakReaderError::UnknownVersion)) => {}
        other => panic!("unexpected: {:?}", other.is_ok()),
    }
}

#[test]
fn default_compression_methods_below_version_8() {
    let a = archive(4, 0, 0, "Mount/", &[0u8; 64], &[]);
    let pak = PakFile::from_memory(a).unwrap();
    assert_eq!(pak.info.compression_methods, vec!["Zlib", "Gzip", "Oodle"]);
}

#[test]
fn named_compression_methods_from_version_8() {
    let a = archive(8, 0, 0, "Mount/", &[0u8; 64], &[]);
    let pak = PakFile::from_memory(a).unwrap();
    assert_eq!(pak.info.compression_methods, vec!["Zlib", "Gzip"]);
}

#[test]
fn stored_entry_round_trip() {
    let mut payload = vec![0u8; 256];
    payload.extend_from_slice(b"HelloWorld");
    let entries = [("file.bin", 256u64, 10u64, 10u64, 0u32, None, vec![], 0u32)];
    let a = archive(4, 0, 0, "Mount/", &payload, &entries);
    let mut pak = PakFile::from_memory(a).unwrap();
    let data = pak.get_entry_data("file.bin").unwrap().unwrap();
    assert_eq!(data, b"HelloWorld");
}

#[test]
fn absent_name_is_explicit_absence() {
    let mut payload = vec![0u8; 256];
    payload.extend_from_slice(b"HelloWorld");
    let entries = [("file.bin", 256u64, 10u64, 10u64, 0u32, None, vec![], 0u32)];
    let a = archive(4, 0, 0, "Mount/", &payload, &entries);
    let mut pak = PakFile::from_memory(a).unwrap();
    assert!(pak.get_entry_data("no-such-file").unwrap().is_none());
}

#[test]
fn zlib_entry_round_trip() {
    let stream = zlib_stored(b"test");
    let mut payload = vec![0u8; 256];
    payload.extend_from_slice(&stream);
    let end = 256 + stream.len() as i64;
    let entries = [(
        "z.bin",
        256u64,
        stream.len() as u64,
        4u64,
        1u32,
        None,
        vec![(256i64, end)],
        65536u32,
    )];
    let a = archive(4, 0, 0, "Mount/", &payload, &entries);
    let mut pak = PakFile::from_memory(a).unwrap();
    let data = pak.get_entry_data("z.bin").unwrap().unwrap();
    assert_eq!(data, b"test");
    assert_eq!(data.len() as u64, 4);
}

#[test]
fn gzip_index_entry_round_trip() {
    let stream = deflate_stored(b"flate data");
    let mut payload = vec![0u8; 256];
    payload.extend_from_slice(&stream);
    let end = 256 + stream.len() as i64;
    let entries = [(
        "f.bin",
        256u64,
        stream.len() as u64,
        10u64,
        2u32,
        None,
        vec![(256i64, end)],
        65536u32,
    )];
    let a = archive(4, 0, 0, "Mount/", &payload, &entries);
    let mut pak = PakFile::from_memory(a).unwrap();
    let data = pak.get_entry_data("f.bin").unwrap().unwrap();
    assert_eq!(data, b"flate data");
}

#[test]
fn multi_block_entry_assembles_in_order() {
    let s1 = zlib_stored(b"abc");
    let s2 = zlib_stored(b"de");
    let mut payload = vec![0u8; 256];
    payload.extend_from_slice(&s1);
    payload.extend_from_slice(&s2);
    let b1 = (256i64, 256 + s1.len() as i64);
    let b2 = (b1.1, b1.1 + s2.len() as i64);
    let entries = [(
        "m.bin",
        256u64,
        (s1.len() + s2.len()) as u64,
        5u64,
        1u32,
        None,
        vec![b1, b2],
        3u32,
    )];
    let a = archive(4, 0, 0, "Mount/", &payload, &entries);
    let mut pak = PakFile::from_memory(a).unwrap();
    let data = pak.get_entry_data("m.bin").unwrap().unwrap();
    assert_eq!(data, b"abcde");
    assert_eq!(data.len(), 5);
}

#[test]
fn unsupported_codec_fails_only_its_own_fetch() {
    let stream = zlib_stored(b"test");
    let mut payload = vec![0u8; 256];
    payload.extend_from_slice(b"RAWDATA");
    payload.extend_from_slice(&stream);
    let zs = 263i64;
    let entries = [
        ("raw.bin", 256u64, 7u64, 7u64, 0u32, None, vec![], 0u32),
        ("bad.bin", 256u64, 7u64, 7u64, 3u32, None, vec![], 65536u32),
        (
            "z.bin",
            263u64,
            stream.len() as u64,
            4u64,
            1u32,
            None,
            vec![(zs, zs + stream.len() as i64)],
            65536u32,
        ),
    ];
    let a = archive(4, 0, 0, "Mount/", &payload, &entries);
    let mut pak = PakFile::from_memory(a).unwrap();
    match pak.get_entry_data("bad.bin") {
        Err(PakError::ReaderError(PakReaderError::UnsupportedCompression)) => {}
        other => panic!("unexpected: {:?}", other.is_ok()),
    }
    assert_eq!(pak.get_entry_data("raw.bin").unwrap().unwrap(), b"RAWDATA");
    assert_eq!(pak.get_entry_data("z.bin").unwrap().unwrap(), b"test");
}

#[test]
fn legacy_flag_word_first_bit_wins() {
    // both the zlib and gzip bits set: the zlib bit takes priority
    let stream = zlib_stored(b"test");
    let mut payload = vec![0u8; 256];
    payload.extend_from_slice(&stream);
    let end = 256 + stream.len() as i64;
    let entries = [(
        "z.bin",
        256u64,
        stream.len() as u64,
        4u64,
        1u32,
        Some(3u32),
        vec![(256i64, end)],
        65536u32,
    )];
    let a = archive(4, 0, 0, "Mount/", &payload, &entries);
    let mut pak = PakFile::from_memory(a).unwrap();
    assert_eq!(pak.get_entry_data("z.bin").unwrap().unwrap(), b"test");
}

#[test]
fn encrypted_archive_refused() {
    let a = archive(4, 0, 1, "Mount/", &[0u8; 64], &[]);
    match PakFile::from_memory(a) {
        Err(PakError::ReaderError(PakReaderError::EncryptionNotSupported)) => {}
        other => panic!("unexpected: {:?}", other.is_ok()),
    }
}

#[test]
fn encrypted_flag_gated_off_below_version_4() {
    // below version 4 the encrypted flag byte is ignored
    let a = archive(3, 0, 1, "Mount/", &[0u8; 64], &[]);
    let pak = PakFile::from_memory(a).unwrap();
    assert!(!pak.info.is_encrypted);
}

#[test]
fn oversized_index_is_a_read_error() {
    let mut a = archive(4, 0, 0, "Mount/", &[0u8; 64], &[]);
    // rewrite the trailer with an index size running past the end
    let len = a.len();
    let total = len as i64;
    a.truncate(len - 61);
    a.extend_from_slice(&footer(4, 0, 0, 0, total + 1000));
    match PakFile::from_memory(a) {
        Err(PakError::ReaderError(PakReaderError::ReadError)) => {}
        other => panic!("unexpected: {:?}", other.is_ok()),
    }
}

#[test]
fn fstring_ascii_decodes_without_terminator() {
    let mut bytes = 5i32.to_le_bytes().to_vec();
    bytes.extend_from_slice(b"test\0");
    let mut r = PakReader::new(bytes);
    assert_eq!(r.read_fstring().unwrap(), "test");
}

#[test]
fn fstring_wide_collapses_high_units() {
    let mut bytes = (-3i32).to_le_bytes().to_vec();
    for unit in [0x0041u16, 0x0142, 0x0043] {
        bytes.extend_from_slice(&unit.to_le_bytes());
    }
    let mut r = PakReader::new(bytes);
    assert_eq!(r.read_fstring().unwrap(), "A$C");
}

#[test]
fn mount_point_is_sanitized() {
    let a = archive(4, 0, 0, "../../../Game/Content/", &[0u8; 64], &[]);
    let pak = PakFile::from_memory(a).unwrap();
    assert_eq!(pak.mount_point, "Game/Content/");
}

#[test]
fn later_duplicate_name_overrides_earlier() {
    let mut payload = vec![0u8; 256];
    payload.extend_from_slice(b"firstsecond");
    let entries = [
        ("dup.bin", 256u64, 5u64, 5u64, 0u32, None, vec![], 0u32),
        ("dup.bin", 261u64, 6u64, 6u64, 0u32, None, vec![], 0u32),
    ];
    let a = archive(4, 0, 0, "Mount/", &payload, &entries);
    let mut pak = PakFile::from_memory(a).unwrap();
    assert_eq!(pak.file_indexes.len(), 1);
    assert_eq!(pak.get_entry_data("dup.bin").unwrap().unwrap(), b"second");
}

#[test]
fn malformed_stream_is_an_error_not_a_crash() {
    // a block of garbage bytes under the zlib codec fails the fetch cleanly
    let mut payload = vec![0u8; 256];
    payload.extend_from_slice(&[0xFFu8; 16]);
    let entries = [(
        "junk.bin",
        256u64,
        16u64,
        64u64,
        1u32,
        None,
        vec![(256i64, 272i64)],
        65536u32,
    )];
    let a = archive(4, 0, 0, "Mount/", &payload, &entries);
    let mut pak = PakFile::from_memory(a).unwrap();
    match pak.get_entry_data("junk.bin") {
        Err(PakError::ReaderError(PakReaderError::ReadError)) => {}
        other => panic!("unexpected: {:?}", other.is_ok()),
    }
}

#[test]
fn stored_entry_at_oldest_version_with_timestamp() {
    let mut payload = vec![0u8; 256];
    payload.extend_from_slice(b"old");
    let entries = [("a", 256u64, 3u64, 3u64, 0u32, None, vec![], 0u32)];
    let a = archive(1, 0, 0, "Mount/", &payload, &entries);
    let mut pak = PakFile::from_memory(a).unwrap();
    assert_eq!(pak.get_entry_data("a").unwrap().unwrap(), b"old");
}

#[test]
fn stored_entry_at_version_8_single_byte_index() {
    let mut payload = vec![0u8; 256];
    payload.extend_from_slice(b"v8a-data");
    let entries = [("a", 256u64, 8u64, 8u64, 0u32, None, vec![], 0u32)];
    let a = archive(8, 1, 0, "Mount/", &payload, &entries);
    let mut pak = PakFile::from_memory(a).unwrap();
    assert_eq!(pak.info.sub_version, 1);
    assert_eq!(pak.get_entry_data("a").unwrap().unwrap(), b"v8a-data");
}

#[test]
fn stored_entry_at_version_9() {
    let mut payload = vec![0u8; 256];
    payload.extend_from_slice(b"frozen");
    let entries = [("a", 256u64, 6u64, 6u64, 0u32, None, vec![], 0u32)];
    let a = archive(9, 0, 0, "Mount/", &payload, &entries);
    let mut pak = PakFile::from_memory(a).unwrap();
    assert_eq!(pak.info.version, 9);
    assert_eq!(pak.get_entry_data("a").unwrap().unwrap(), b"frozen");
}

#[test]
fn key_id_cleared_below_version_7() {
    let a = archive(4, 0, 0, "Mount/", &[0u8; 64], &[]);
    let pak = PakFile::from_memory(a).unwrap();
    assert!(pak.info.encryption_index_guid.is_empty());
}

#[test]
fn key_id_kept_from_version_7() {
    let a = archive(7, 0, 0, "Mount/", &[0u8; 64], &[]);
    let pak = PakFile::from_memory(a).unwrap();
    assert_eq!(pak.info.encryption_index_guid, vec![0xABu8; 16]);
}

#[test]
fn frozen_index_flag_read_at_version_9() {
    let mut a = archive(9, 0, 0, "Mount/", &[0u8; 64], &[]);
    let len = a.len();
    // the frozen flag byte sits right after the 61 fixed trailer bytes
    a[len - 222 + 61] = 1;
    let pak = PakFile::from_memory(a).unwrap();
    assert_eq!(pak.info.index_frozen, 1);
}

#[test]
fn candidate_sizes_ascend() {
    let sizes = paklib::PakVersionSizes::get_sizes();
    let bytes: Vec<usize> = sizes.iter().map(|s| s.size_bytes()).collect();
    assert_eq!(bytes, vec![61, 189, 221, 222]);
}

#[test]
fn block_get_size() {
    let b = paklib::PakCompressionBlock { compression_start: 256, compression_end: 271 };
    assert_eq!(b.get_size(), 15);
}
