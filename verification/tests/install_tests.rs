use legendary::install::{
    available_install_tags, chunk_url, chunk_writes, files_to_fetch, manifest_base_url, needed_chunks, ChunkWrite,
};
use legendary::manifest::{ChunkInfo, ChunkPart, FileManifest, Manifest, ManifestMeta};

fn chunk(g: u32) -> ChunkInfo {
    ChunkInfo { guid: [g, 0, 0, 0], hash: g as u64, sha_hash: [0; 20], group_num: 1, window_size: 1048576, file_size: 10 }
}

fn part(g: u32, offset: u32, size: u32, file_offset: u64) -> ChunkPart {
    ChunkPart { guid: [g, 0, 0, 0], offset, size, file_offset }
}

fn file(name: &str, hash: u8, tags: &[&str], parts: Vec<ChunkPart>) -> FileManifest {
    let size = parts.iter().map(|p| p.size as u64).sum();
    FileManifest {
        filename: name.to_string(),
        hash: [hash; 20],
        chunk_parts: parts,
        file_size: size,
        install_tags: tags.iter().map(|t| t.to_string()).collect(),
    }
}

fn manifest() -> Manifest {
    Manifest {
        manifest_version: 18,
        meta: ManifestMeta {
            app_name: "A".to_string(),
            build_version: "1".to_string(),
            launch_exe: String::new(),
            launch_command: String::new(),
        },
        chunks: vec![chunk(1), chunk(2), chunk(3)],
        files: vec![
            file("a", 1, &[], vec![part(1, 0, 4, 0)]),
            file("b", 2, &["de"], vec![part(2, 0, 4, 0), part(1, 4, 4, 4)]),
            file("c", 3, &["en", "fr"], vec![part(3, 0, 8, 0)]),
        ],
        total_uncompressed_size: 20,
        total_download_size: 30,
    }
}

#[test]
fn fetch_all_without_selection() {
    let m = manifest();
    assert_eq!(files_to_fetch(&m, &None, &vec![None, None, None]), vec![0, 1, 2]);
}

#[test]
fn fetch_by_tags() {
    let m = manifest();
    let sel = Some(vec!["en".to_string()]);
    assert_eq!(files_to_fetch(&m, &sel, &vec![None, None, None]), vec![0, 2]);
    let none = Some(Vec::new());
    assert_eq!(files_to_fetch(&m, &none, &vec![None, None, None]), vec![0]);
}

#[test]
fn skip_files_already_present() {
    let m = manifest();
    let same = Some("01".repeat(20));
    let other = Some("ff".repeat(20));
    assert_eq!(files_to_fetch(&m, &None, &vec![same, other, None]), vec![1, 2]);
}

#[test]
fn chunks_of_chosen_files() {
    let m = manifest();
    assert_eq!(needed_chunks(&m, &vec![1]), vec![0, 1]);
    assert_eq!(needed_chunks(&m, &vec![2]), vec![2]);
    assert!(needed_chunks(&m, &Vec::new()).is_empty());
}

#[test]
fn writes_of_a_chunk() {
    let m = manifest();
    let w = chunk_writes(&m, &vec![0, 1], [1, 0, 0, 0], 8);
    assert_eq!(
        w,
        vec![
            ChunkWrite { file: 0, file_offset: 0, start: 0, end: 4 },
            ChunkWrite { file: 1, file_offset: 4, start: 4, end: 8 },
        ]
    );
    let short = chunk_writes(&m, &vec![0, 1], [1, 0, 0, 0], 6);
    assert_eq!(short, vec![ChunkWrite { file: 0, file_offset: 0, start: 0, end: 4 }]);
}

#[test]
fn chunk_download_url() {
    let c = ChunkInfo { guid: [1, 2, 3, 4], hash: 0xAB, sha_hash: [0; 20], group_num: 5, window_size: 0, file_size: 0 };
    assert_eq!(
        chunk_url("https://cdn/Builds/x/CloudDir", &c, 18),
        "https://cdn/Builds/x/CloudDir/ChunksV4/05/00000000000000AB_00000001000000020000000300000004.chunk"
    );
}

#[test]
fn base_urls() {
    assert_eq!(manifest_base_url("https://cdn.example/Builds/Org/app/CloudDir/abc.manifest?x=1&y=2"), "https://cdn.example/Builds/Org/app/CloudDir");
    assert_eq!(manifest_base_url("https://cdn.example/a/b.manifest"), "https://cdn.example/a");
    assert_eq!(manifest_base_url("nodir.manifest?q=/x"), "nodir.manifest?q=/x");
    assert_eq!(manifest_base_url("plain"), "plain");
}

#[test]
fn tags_sorted_once() {
    let m = manifest();
    assert_eq!(available_install_tags(&m), vec!["de".to_string(), "en".to_string(), "fr".to_string()]);
    let mut m2 = manifest();
    m2.files = vec![file("x", 0, &["z", "a", "z"], vec![]), file("y", 0, &["a"], vec![])];
    assert_eq!(available_install_tags(&m2), vec!["a".to_string(), "z".to_string()]);
}
