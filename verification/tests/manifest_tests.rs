use legendary::chunk::{chunk_header_fits, decompress_chunk, parse_chunk, CHUNK_MAGIC};
use legendary::manifest::{parse_manifest, ChunkInfo, MANIFEST_MAGIC};
use legendary::wire::{read_fstring, read_u8, WireError};
use sha1::{Digest, Sha1};
use std::io::Write;

fn fstring(s: &str) -> Vec<u8> {
    let mut v = Vec::new();
    if s.is_empty() {
        v.extend_from_slice(&0i32.to_le_bytes());
    } else {
        v.extend_from_slice(&((s.len() + 1) as i32).to_le_bytes());
        v.extend_from_slice(s.as_bytes());
        v.push(0);
    }
    v
}

fn fstring_utf16(s: &str) -> Vec<u8> {
    let units: Vec<u16> = s.encode_utf16().collect();
    let mut v = Vec::new();
    v.extend_from_slice(&(-((units.len() + 1) as i32)).to_le_bytes());
    for u in units {
        v.extend_from_slice(&u.to_le_bytes());
    }
    v.extend_from_slice(&0u16.to_le_bytes());
    v
}

struct TestChunk {
    guid: [u32; 4],
    hash: u64,
    sha: [u8; 20],
    group: u8,
    window: u32,
    size: i64,
}

struct TestFile {
    name: Vec<u8>,
    hash: [u8; 20],
    tags: Vec<&'static str>,
    parts: Vec<([u32; 4], u32, u32)>,
}

fn body(meta: [&str; 4], chunks: &[TestChunk], files: &[TestFile]) -> Vec<u8> {
    let mut m = Vec::new();
    m.push(0u8);
    m.extend_from_slice(&18u32.to_le_bytes());
    m.push(0u8);
    m.extend_from_slice(&0u32.to_le_bytes());
    for s in meta.iter() {
        m.extend_from_slice(&fstring(s));
    }
    let mut out = Vec::new();
    out.extend_from_slice(&((m.len() + 4) as u32).to_le_bytes());
    out.extend_from_slice(&m);

    let mut c = Vec::new();
    c.push(0u8);
    c.extend_from_slice(&(chunks.len() as u32).to_le_bytes());
    for ch in chunks {
        for g in ch.guid.iter() {
            c.extend_from_slice(&g.to_le_bytes());
        }
    }
    for ch in chunks {
        c.extend_from_slice(&ch.hash.to_le_bytes());
    }
    for ch in chunks {
        c.extend_from_slice(&ch.sha);
    }
    for ch in chunks {
        c.push(ch.group);
    }
    for ch in chunks {
        c.extend_from_slice(&ch.window.to_le_bytes());
    }
    for ch in chunks {
        c.extend_from_slice(&ch.size.to_le_bytes());
    }
    out.extend_from_slice(&((c.len() + 4) as u32).to_le_bytes());
    out.extend_from_slice(&c);

    let mut f = Vec::new();
    f.push(0u8);
    f.extend_from_slice(&(files.len() as u32).to_le_bytes());
    for fl in files {
        f.extend_from_slice(&fl.name);
    }
    for _ in files {
        f.extend_from_slice(&fstring(""));
    }
    for fl in files {
        f.extend_from_slice(&fl.hash);
    }
    for _ in files {
        f.push(0u8);
    }
    for fl in files {
        f.extend_from_slice(&(fl.tags.len() as u32).to_le_bytes());
        for t in &fl.tags {
            f.extend_from_slice(&fstring(t));
        }
    }
    for fl in files {
        f.extend_from_slice(&(fl.parts.len() as u32).to_le_bytes());
        for (g, off, size) in &fl.parts {
            f.extend_from_slice(&28u32.to_le_bytes());
            for x in g.iter() {
                f.extend_from_slice(&x.to_le_bytes());
            }
            f.extend_from_slice(&off.to_le_bytes());
            f.extend_from_slice(&size.to_le_bytes());
        }
    }
    out.extend_from_slice(&((f.len() + 4) as u32).to_le_bytes());
    out.extend_from_slice(&f);
    out
}

fn manifest_bytes(version: u32, body: &[u8], compress: bool) -> Vec<u8> {
    let stored = if compress {
        let mut e = flate2::write::ZlibEncoder::new(Vec::new(), flate2::Compression::default());
        e.write_all(body).unwrap();
        e.finish().unwrap()
    } else {
        body.to_vec()
    };
    let mut out = Vec::new();
    out.extend_from_slice(&MANIFEST_MAGIC.to_le_bytes());
    out.extend_from_slice(&41u32.to_le_bytes());
    out.extend_from_slice(&(body.len() as u32).to_le_bytes());
    out.extend_from_slice(&(stored.len() as u32).to_le_bytes());
    out.extend_from_slice(&[0u8; 20]);
    out.push(if compress { 1 } else { 0 });
    out.extend_from_slice(&version.to_le_bytes());
    out.extend_from_slice(&stored);
    out
}

fn sample_body() -> Vec<u8> {
    let g1 = [1, 2, 3, 4];
    let g2 = [5, 6, 7, 8];
    body(
        ["Anemone", "1.0.2", "Game/Binaries/Game.exe", "-windowed"],
        &[
            TestChunk { guid: g1, hash: 0xABCD, sha: [7; 20], group: 3, window: 1048576, size: 100 },
            TestChunk { guid: g2, hash: 0x1234, sha: [8; 20], group: 45, window: 1048576, size: 50 },
        ],
        &[
            TestFile { name: fstring("b.txt"), hash: [1; 20], tags: vec!["en"], parts: vec![(g1, 0, 10), (g2, 5, 20)] },
            TestFile { name: fstring("a.pak"), hash: [2; 20], tags: vec![], parts: vec![(g2, 0, 5)] },
            TestFile { name: fstring_utf16("Grüße.txt"), hash: [3; 20], tags: vec!["de", "en"], parts: vec![] },
        ],
    )
}

#[test]
fn parses_plain_manifest() {
    let data = manifest_bytes(18, &sample_body(), false);
    let m = parse_manifest(&data).unwrap();
    assert_eq!(m.manifest_version, 18);
    assert_eq!(m.meta.app_name, "Anemone");
    assert_eq!(m.meta.build_version, "1.0.2");
    assert_eq!(m.meta.launch_exe, "Game/Binaries/Game.exe");
    assert_eq!(m.meta.launch_command, "-windowed");
    assert_eq!(m.chunks.len(), 2);
    assert_eq!(m.files.len(), 3);
    let names: Vec<&str> = m.files.iter().map(|f| f.filename.as_str()).collect();
    assert_eq!(names, vec!["Grüße.txt", "a.pak", "b.txt"]);
    let b = &m.files[2];
    assert_eq!(b.file_size, 30);
    assert_eq!(b.chunk_parts.len(), 2);
    assert_eq!(b.chunk_parts[0].file_offset, 0);
    assert_eq!(b.chunk_parts[1].file_offset, 10);
    assert_eq!(b.chunk_parts[1].offset, 5);
    assert_eq!(b.install_tags, vec!["en".to_string()]);
    assert_eq!(m.total_uncompressed_size, 35);
    assert_eq!(m.total_download_size, 150);
}

#[test]
fn parses_compressed_manifest() {
    let data = manifest_bytes(21, &sample_body(), true);
    let m = parse_manifest(&data).unwrap();
    assert_eq!(m.manifest_version, 21);
    assert_eq!(m.files.len(), 3);
    assert_eq!(m.meta.app_name, "Anemone");
}

#[test]
fn rejects_bad_manifest_magic() {
    let mut data = manifest_bytes(18, &sample_body(), false);
    data[0] = 0;
    match parse_manifest(&data) {
        Err(WireError::BadManifestMagic(_)) => {}
        _ => panic!("expected a magic error"),
    }
}

#[test]
fn rejects_short_manifest() {
    assert!(matches!(parse_manifest(&[1, 2]), Err(WireError::Truncated)));
    let data = manifest_bytes(18, &sample_body(), false);
    assert!(matches!(parse_manifest(&data[..30]), Err(WireError::Truncated)));
    assert!(matches!(parse_manifest(&data[..60]), Err(WireError::Truncated)));
}

#[test]
fn rejects_broken_compression() {
    let mut data = manifest_bytes(18, &sample_body(), false);
    data[36] = 1;
    assert!(matches!(parse_manifest(&data), Err(WireError::Inflate)));
}

#[test]
fn later_duplicates_win() {
    let g = [9, 9, 9, 9];
    let b = body(
        ["A", "1", "", ""],
        &[
            TestChunk { guid: g, hash: 1, sha: [0; 20], group: 1, window: 1, size: 10 },
            TestChunk { guid: g, hash: 2, sha: [0; 20], group: 2, window: 1, size: 20 },
        ],
        &[
            TestFile { name: fstring("x"), hash: [1; 20], tags: vec![], parts: vec![(g, 0, 1)] },
            TestFile { name: fstring("x"), hash: [2; 20], tags: vec![], parts: vec![(g, 0, 2)] },
        ],
    );
    let m = parse_manifest(&manifest_bytes(18, &b, false)).unwrap();
    assert_eq!(m.chunks.len(), 1);
    assert_eq!(m.chunks[0].hash, 2);
    assert_eq!(m.files.len(), 1);
    assert_eq!(m.files[0].hash, [2; 20]);
    assert_eq!(m.files[0].file_size, 2);
    assert_eq!(m.total_download_size, 20);
}

#[test]
fn list_files_sorted() {
    let m = parse_manifest(&manifest_bytes(18, &sample_body(), false)).unwrap();
    assert_eq!(m.list_files(), vec!["Grüße.txt".to_string(), "a.pak".to_string(), "b.txt".to_string()]);
}

#[test]
fn chunk_path_format() {
    let c = ChunkInfo { guid: [0x1A, 0xFFFFFFFF, 0, 0x12345678], hash: 0xABCDEF, sha_hash: [0; 20], group_num: 7, window_size: 0, file_size: 0 };
    assert_eq!(c.path(18), "ChunksV4/07/0000000000ABCDEF_0000001AFFFFFFFF0000000012345678.chunk");
    assert_eq!(c.path(15), "ChunksV4/07/0000000000ABCDEF_0000001AFFFFFFFF0000000012345678.chunk");
    assert_eq!(c.path(14), "ChunksV3/07/0000000000ABCDEF_0000001AFFFFFFFF0000000012345678.chunk");
    assert_eq!(c.path(6), "ChunksV3/07/0000000000ABCDEF_0000001AFFFFFFFF0000000012345678.chunk");
    assert_eq!(c.path(3), "ChunksV2/07/0000000000ABCDEF_0000001AFFFFFFFF0000000012345678.chunk");
    assert_eq!(c.path(2), "Chunks/07/0000000000ABCDEF_0000001AFFFFFFFF0000000012345678.chunk");
    let d = ChunkInfo { guid: [1, 2, 3, 4], hash: 1, sha_hash: [0; 20], group_num: 99, window_size: 0, file_size: 0 };
    assert_eq!(d.path(18), "ChunksV4/99/0000000000000001_00000001000000020000000300000004.chunk");
}

fn chunk_file(version: u32, payload: &[u8], compress: bool, sha: [u8; 20], big_endian_magic: bool, uncompressed: u32) -> Vec<u8> {
    let stored = if compress {
        let mut e = flate2::write::ZlibEncoder::new(Vec::new(), flate2::Compression::default());
        e.write_all(payload).unwrap();
        e.finish().unwrap()
    } else {
        payload.to_vec()
    };
    let header = if version >= 3 { 66 } else if version >= 2 { 62 } else { 41 };
    let mut out = Vec::new();
    if big_endian_magic {
        out.extend_from_slice(&CHUNK_MAGIC.to_be_bytes());
    } else {
        out.extend_from_slice(&CHUNK_MAGIC.to_le_bytes());
    }
    out.extend_from_slice(&version.to_le_bytes());
    out.extend_from_slice(&(header as u32).to_le_bytes());
    out.extend_from_slice(&(stored.len() as u32).to_le_bytes());
    for g in [1u32, 2, 3, 4] {
        out.extend_from_slice(&g.to_le_bytes());
    }
    out.extend_from_slice(&0u64.to_le_bytes());
    out.push(if compress { 1 } else { 0 });
    if version >= 2 {
        out.extend_from_slice(&sha);
        out.push(1);
    }
    if version >= 3 {
        out.extend_from_slice(&uncompressed.to_le_bytes());
    }
    out.extend_from_slice(&stored);
    out
}

fn sha1_of(d: &[u8]) -> [u8; 20] {
    Sha1::digest(d).into()
}

#[test]
fn parses_chunk_with_sum() {
    let payload = b"hello chunk".to_vec();
    let data = chunk_file(3, &payload, true, sha1_of(&payload), true, payload.len() as u32);
    assert!(chunk_header_fits(&data));
    assert_eq!(parse_chunk(&data).unwrap(), payload);
}

#[test]
fn chunk_sum_of_padded_bytes_accepted() {
    let payload = b"short".to_vec();
    let mut padded = payload.clone();
    padded.resize(1048576, 0);
    let data = chunk_file(3, &payload, false, sha1_of(&padded), true, payload.len() as u32);
    assert_eq!(parse_chunk(&data).unwrap(), payload);
}

#[test]
fn chunk_sum_mismatch() {
    let payload = b"hello chunk".to_vec();
    let data = chunk_file(3, &payload, false, [0; 20], true, payload.len() as u32);
    assert!(matches!(parse_chunk(&data), Err(WireError::ShaMismatch { .. })));
}

#[test]
fn chunk_bad_magic() {
    let payload = b"x".to_vec();
    let data = chunk_file(3, &payload, false, sha1_of(&payload), false, 1);
    assert!(matches!(parse_chunk(&data), Err(WireError::BadChunkMagic(_))));
}

#[test]
fn chunk_header_past_end_is_flagged() {
    let payload = b"x".to_vec();
    let mut data = chunk_file(1, &payload, false, [0; 20], true, 1);
    data[8..12].copy_from_slice(&1000u32.to_le_bytes());
    assert!(!chunk_header_fits(&data));
}

#[test]
fn old_chunk_version_has_no_sum() {
    let payload = b"abc".to_vec();
    let data = chunk_file(1, &payload, false, [0; 20], true, 0);
    assert_eq!(parse_chunk(&data).unwrap(), payload);
}

#[test]
fn decompresses_downloaded_chunk() {
    let payload = b"downloaded data".to_vec();
    let data = chunk_file(3, &payload, true, [0; 20], false, payload.len() as u32);
    assert_eq!(decompress_chunk(&data).unwrap(), payload);
    let plain = chunk_file(2, &payload, false, [0; 20], false, 0);
    assert_eq!(decompress_chunk(&plain).unwrap(), payload);
}

#[test]
fn decompress_rejects_oversized_body() {
    let payload = b"abc".to_vec();
    let mut data = chunk_file(3, &payload, false, [0; 20], false, 3);
    data[12..16].copy_from_slice(&100u32.to_le_bytes());
    assert!(matches!(decompress_chunk(&data), Err(WireError::CompressedSizeTooLarge)));
    let be = chunk_file(3, &payload, false, [0; 20], true, 3);
    assert!(matches!(decompress_chunk(&be), Err(WireError::BadChunkMagic(_))));
    assert!(matches!(decompress_chunk(&[0, 1]), Err(WireError::Truncated)));
}

#[test]
fn single_byte_reads() {
    let data = [7u8, 9u8];
    assert_eq!(read_u8(&data, 0), Ok((7, 1)));
    assert_eq!(read_u8(&data, 1), Ok((9, 2)));
    assert_eq!(read_u8(&data, 2), Err(WireError::Truncated));
}

#[test]
fn length_prefixed_strings() {
    let mut utf8 = 4i32.to_le_bytes().to_vec();
    utf8.extend_from_slice(b"abc\0");
    assert_eq!(read_fstring(&utf8, 0), Ok(("abc".to_string(), 8)));

    let mut utf16 = (-3i32).to_le_bytes().to_vec();
    for u in [0x00e9u16, 0x0078u16, 0u16] {
        utf16.extend_from_slice(&u.to_le_bytes());
    }
    assert_eq!(read_fstring(&utf16, 0), Ok(("\u{e9}x".to_string(), 10)));

    let empty = 0i32.to_le_bytes().to_vec();
    assert_eq!(read_fstring(&empty, 0), Ok((String::new(), 4)));

    let mut bad_utf8 = 3i32.to_le_bytes().to_vec();
    bad_utf8.extend_from_slice(&[0xff, 0xfe, 0]);
    assert_eq!(read_fstring(&bad_utf8, 0), Err(WireError::BadText));

    let mut lone_surrogate = (-2i32).to_le_bytes().to_vec();
    lone_surrogate.extend_from_slice(&0xd800u16.to_le_bytes());
    lone_surrogate.extend_from_slice(&0u16.to_le_bytes());
    assert_eq!(read_fstring(&lone_surrogate, 0), Err(WireError::BadText));

    let min = i32::MIN.to_le_bytes().to_vec();
    assert_eq!(read_fstring(&min, 0), Err(WireError::BadText));

    let mut short = 10i32.to_le_bytes().to_vec();
    short.extend_from_slice(b"ab");
    assert_eq!(read_fstring(&short, 0), Err(WireError::Truncated));
}

#[test]
fn parsed_manifest_is_well_formed() {
    let m = parse_manifest(&manifest_bytes(18, &sample_body(), false)).unwrap();
    for f in &m.files {
        let total: u64 = f.chunk_parts.iter().map(|p| p.size as u64).sum();
        assert_eq!(f.file_size, total);
        let mut at = 0u64;
        for p in &f.chunk_parts {
            assert_eq!(p.file_offset, at);
            at += p.size as u64;
        }
    }
    let sizes: u64 = m.files.iter().map(|f| f.file_size).sum();
    assert_eq!(m.total_uncompressed_size, sizes);
    let stored: u64 = m.chunks.iter().map(|c| c.file_size as u64).sum();
    assert_eq!(m.total_download_size, stored);
    assert_ne!(m.chunks[0].guid, m.chunks[1].guid);
}

#[test]
fn error_texts() {
    assert_eq!(WireError::BadManifestMagic(0x44BEC00B).message(), "Invalid manifest magic: 44BEC00B");
    assert_eq!(WireError::BadChunkMagic(0x1A).message(), "Invalid chunk magic: 0000001A");
    assert_eq!(WireError::CompressedSizeTooLarge.message(), "Compressed size exceeds buffer");
    assert_eq!(WireError::Truncated.message(), "failed to fill whole buffer");
    let e = WireError::ShaMismatch { expected: [0xab; 20], padded: [1; 20], raw: [0; 20] };
    assert_eq!(
        e.message(),
        format!("Chunk SHA1 mismatch. Expected: {}, Actual (padded): {}, Actual (raw): {}", "ab".repeat(20), "01".repeat(20), "00".repeat(20))
    );
}

#[test]
fn parsed_file_names_listed_strictly_in_order() {
    let m = parse_manifest(&manifest_bytes(18, &sample_body(), false)).unwrap();
    let names = m.list_files();
    assert_eq!(names.len(), m.files.len());
    assert!(names.windows(2).all(|w| w[0] < w[1]));
}
