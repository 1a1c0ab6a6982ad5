use legendary::cloud::{
    assemble_parts, build_version_text, chunk_save_files, cloud_rel_path, download_order, fresh_guids, package_saves, latest_instant, latest_remote_time,
    pack_save_files, restore_file, save_chunk_sha, save_file_manifest, upload_order, AssembleError, PackedPart,
    SAVE_CHUNK_SIZE,
};
use legendary::manifest::{ChunkPart, FileManifest};
use legendary::models::CloudSaveFile;
use sha1::{Digest, Sha1};

fn bytes(n: usize, seed: u8) -> Vec<u8> {
    (0..n).map(|i| (i as u8).wrapping_mul(31).wrapping_add(seed)).collect()
}

#[test]
fn packing_fills_chunks_in_order() {
    let sizes = vec![10usize, SAVE_CHUNK_SIZE, 5];
    let plan = pack_save_files(&sizes);
    assert_eq!(plan.len(), 3);
    assert_eq!(plan[0], vec![PackedPart { chunk: 0, offset: 0, size: 10, file_offset: 0 }]);
    assert_eq!(
        plan[1],
        vec![
            PackedPart { chunk: 0, offset: 10, size: (SAVE_CHUNK_SIZE - 10) as u32, file_offset: 0 },
            PackedPart { chunk: 1, offset: 0, size: 10, file_offset: (SAVE_CHUNK_SIZE - 10) as u64 },
        ]
    );
    assert_eq!(plan[2], vec![PackedPart { chunk: 1, offset: 10, size: 5, file_offset: 0 }]);
    assert!(pack_save_files(&vec![0usize]).iter().all(|p| p.is_empty()));
}

#[test]
fn chunks_cut_at_a_mebibyte() {
    let files = vec![bytes(10, 1), bytes(SAVE_CHUNK_SIZE, 2), bytes(5, 3)];
    let chunks = chunk_save_files(&files);
    assert_eq!(chunks.len(), 2);
    assert_eq!(chunks[0].len(), SAVE_CHUNK_SIZE);
    assert_eq!(chunks[1].len(), 15);
    assert_eq!(&chunks[0][..10], &files[0][..]);
    assert_eq!(&chunks[1][10..], &files[2][..]);
    assert!(chunk_save_files(&Vec::new()).is_empty());
}

fn sha1_of(d: &[u8]) -> [u8; 20] {
    Sha1::digest(d).into()
}

#[test]
fn packed_files_come_back() {
    let files = vec![bytes(10, 1), bytes(SAVE_CHUNK_SIZE + 7, 2), bytes(5, 3), Vec::new()];
    let sizes: Vec<usize> = files.iter().map(|f| f.len()).collect();
    let plan = pack_save_files(&sizes);
    let chunks = chunk_save_files(&files);
    let guids: Vec<[u32; 4]> = (0..chunks.len() as u32).map(|i| [i, 7, 7, 7]).collect();
    let stored: Vec<([u32; 4], Vec<u8>)> = guids.iter().cloned().zip(chunks.into_iter()).collect();
    for (i, f) in files.iter().enumerate() {
        let fm = save_file_manifest(format!("f{}", i), f, &plan[i], &guids);
        assert_eq!(fm.hash, sha1_of(f));
        assert_eq!(fm.file_size, f.len() as u64);
        assert_eq!(restore_file(&fm, &stored).unwrap(), *f);
    }
}

#[test]
fn reassembly_errors() {
    let chunks = vec![([1, 1, 1, 1], vec![1u8, 2, 3, 4])];
    let ok = vec![ChunkPart { guid: [1, 1, 1, 1], offset: 1, size: 2, file_offset: 0 }];
    assert_eq!(assemble_parts(&ok, &chunks).unwrap(), vec![2u8, 3]);
    let past = vec![ChunkPart { guid: [1, 1, 1, 1], offset: 3, size: 2, file_offset: 0 }];
    assert_eq!(assemble_parts(&past, &chunks), Err(AssembleError::PartOutOfBounds));
    let missing = vec![ChunkPart { guid: [2, 2, 2, 2], offset: 0, size: 1, file_offset: 0 }];
    assert_eq!(assemble_parts(&missing, &chunks), Err(AssembleError::MissingChunk));
    let both = vec![missing[0], past[0]];
    assert_eq!(assemble_parts(&both, &chunks), Err(AssembleError::MissingChunk));
    let f = FileManifest { filename: "x".to_string(), hash: [0; 20], chunk_parts: ok, file_size: 2, install_tags: Vec::new() };
    assert_eq!(restore_file(&f, &chunks), Err(AssembleError::HashMismatch));
}

#[test]
fn newest_instant() {
    assert_eq!(latest_instant(&vec![]), None);
    assert_eq!(latest_instant(&vec![None, Some((5, 1)), Some((5, 0)), None, Some((3, 9))]), Some((5, 1)));
}

fn cloud_file(modified: Option<&str>) -> CloudSaveFile {
    CloudSaveFile {
        app_name: String::new(),
        file_name: String::new(),
        manifest_name: String::new(),
        hash: String::new(),
        length: 0,
        last_modified: modified.map(|s| s.to_string()),
        read_link: None,
        write_link: None,
    }
}

#[test]
fn newest_remote_change() {
    let files = vec![
        cloud_file(Some("2023-01-01T00:00:00Z")),
        cloud_file(None),
        cloud_file(Some("garbage")),
        cloud_file(Some("2024-02-03T04:05:06Z")),
    ];
    assert_eq!(latest_remote_time(&files), Some((1706933106, 0)));
    assert_eq!(latest_remote_time(&vec![cloud_file(None)]), None);
    let offset = vec![cloud_file(Some("2023-01-01T01:00:00.5+01:00")), cloud_file(Some("2023-01-01T00:00:00Z"))];
    assert_eq!(latest_remote_time(&offset), Some((1672531200, 500000000)));
    assert_eq!(latest_remote_time(&vec![cloud_file(Some("yesterday"))]), None);
}

#[test]
fn upload_order_ignores_case() {
    let paths = vec!["b.sav".to_string(), "A.sav".to_string(), "a.sav".to_string(), "C.sav".to_string()];
    assert_eq!(upload_order(&paths), vec![1, 2, 0, 3]);
}

#[test]
fn build_version_of_time() {
    assert_eq!(build_version_text(2024, 3, 7, 9, 5, 1), "2024.03.07-09.05.01");
    assert_eq!(build_version_text(987, 12, 31, 23, 59, 59), "0987.12.31-23.59.59");
    assert_eq!(build_version_text(10000, 1, 2, 3, 4, 5), "+10000.01.02-03.04.05");
}

#[test]
fn chunk_sum_uses_padding() {
    let d = vec![1u8, 2, 3];
    let mut p = d.clone();
    p.resize(SAVE_CHUNK_SIZE, 0);
    assert_eq!(save_chunk_sha(&d), sha1_of(&p));
    let full = bytes(SAVE_CHUNK_SIZE, 9);
    assert_eq!(save_chunk_sha(&full), sha1_of(&full));
}

#[test]
fn relative_paths_use_slashes() {
    assert_eq!(cloud_rel_path("Saves\\slot1\\data.sav"), "Saves/slot1/data.sav");
    assert_eq!(cloud_rel_path("plain.sav"), "plain.sav");
}

#[test]
fn manifests_download_by_name() {
    let names: Vec<String> = ["b.manifest", "a.manifest", "b.manifest", "B.manifest"].iter().map(|s| s.to_string()).collect();
    assert_eq!(download_order(&names), vec![3, 1, 0, 2]);
    assert!(download_order(&Vec::new()).is_empty());
}

#[test]
fn fresh_guids_one_per_chunk() {
    assert_eq!(fresh_guids(3).len(), 3);
    assert!(fresh_guids(0).is_empty());
}

#[test]
fn saves_packaged_for_upload() {
    let files = vec![bytes(10, 1), bytes(SAVE_CHUNK_SIZE, 2), bytes(5, 3)];
    let paths = vec!["a.sav".to_string(), "dir/b.sav".to_string(), "c.sav".to_string()];
    let pkg = package_saves(&paths, &files);
    assert_eq!(pkg.chunks.len(), 2);
    assert_eq!(pkg.guids.len(), 2);
    assert_eq!(pkg.chunks[1].len(), 15);
    assert_eq!(pkg.files.len(), 3);
    assert_eq!(pkg.files[1].filename, "dir/b.sav");
    assert_eq!(pkg.files[1].file_size, SAVE_CHUNK_SIZE as u64);
    let digest: [u8; 20] = Sha1::digest(&files[2]).into();
    assert_eq!(pkg.files[2].hash, digest);
    let parts: Vec<([u32; 4], u32, u32, u64)> =
        pkg.files[1].chunk_parts.iter().map(|p: &ChunkPart| (p.guid, p.offset, p.size, p.file_offset)).collect();
    assert_eq!(
        parts,
        vec![
            (pkg.guids[0], 10, (SAVE_CHUNK_SIZE - 10) as u32, 0),
            (pkg.guids[1], 0, 10, (SAVE_CHUNK_SIZE - 10) as u64),
        ]
    );
    let chunks: Vec<([u32; 4], Vec<u8>)> = pkg.guids.iter().cloned().zip(pkg.chunks.iter().cloned()).collect();
    if pkg.guids[0] != pkg.guids[1] {
        for (f, data) in pkg.files.iter().zip(files.iter()) {
            assert_eq!(&restore_file(f, &chunks).unwrap(), data);
        }
    }
}
