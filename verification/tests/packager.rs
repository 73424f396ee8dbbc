use pkgsmgr::chunks::{chunk_filename, clean_old_chunks, install_chunk, Chunk};
use pkgsmgr::generations::Generations;
use pkgsmgr::manifest::{parse_manifest, update_manifest};
use pkgsmgr::packager::{
    classify, compressed_name, discover, emit, publish, Entry, EntryKind, Publication,
};
use pkgsmgr::rollback::{rollback, RollbackError};
use pkgsmgr::store::StoreEntry;
use pkgsmgr::tree::TreeLink;
use pkgsmgr::types::{Compression, HashType};
use pkgsmgr::updater::{plan_update, pointer_changed, Settings, Version};
use pkgsmgr::utils::StreamHasher;

fn chunk(permissions: u32, size: u64, hash: &str, path: &str) -> Chunk {
    Chunk { hash: hash.into(), size, path: path.into(), permissions }
}

fn digest_of(body: &[u8], method: HashType) -> String {
    let mut hasher = StreamHasher::new(method);
    hasher.write(body);
    hasher.digest()
}

#[test]
fn entries_are_classified_directory_first() {
    assert_eq!(classify(true, false, false), EntryKind::Directory);
    assert_eq!(classify(true, true, true), EntryKind::Directory);
    assert_eq!(classify(false, true, false), EntryKind::Symlink);
    assert_eq!(classify(false, true, true), EntryKind::Symlink);
    assert_eq!(classify(false, false, true), EntryKind::File);
    assert_eq!(classify(false, false, false), EntryKind::Other);
}

#[test]
fn discovery_sorts_entries_by_kind() {
    let entries = vec![
        Entry { path: "bin".into(), kind: EntryKind::Directory },
        Entry { path: "bin/b".into(), kind: EntryKind::File },
        Entry { path: "bin/sh".into(), kind: EntryKind::Symlink },
        Entry { path: "run/sock".into(), kind: EntryKind::Other },
        Entry { path: "bin/a".into(), kind: EntryKind::File },
        Entry { path: "etc".into(), kind: EntryKind::Directory },
    ];
    let found = discover(&entries);
    assert_eq!(found.directories, vec!["bin", "etc"]);
    assert_eq!(found.files, vec!["bin/b", "bin/a"]);
    assert_eq!(found.symlinks, vec!["bin/sh"]);
    let found = discover(&Vec::new());
    assert!(found.directories.is_empty() && found.files.is_empty() && found.symlinks.is_empty());
}

#[test]
fn compressed_objects_carry_the_extension() {
    assert_eq!(compressed_name("abc", Compression::Zstd), Some("abc.zstd".to_string()));
    assert_eq!(compressed_name("abc", Compression::Raw), None);
}

#[test]
fn emitted_manifest_has_the_chosen_headers() {
    let files = vec![chunk(33188, 2048, "aa", "bin/a"), chunk(33261, 0, "bb", "bin/b;c")];
    assert_eq!(
        emit(Compression::Zstd, HashType::Blake3, None, &files),
        "Compression: zstd\nHasher: blake3\n---\n33188;2048;aa;bin/a\n33261;0;bb;bin/b;c\n"
    );
    assert_eq!(
        emit(Compression::Raw, HashType::Xxh3_128, None, &files[..1]),
        "Hasher: xxh3_128\n---\n33188;2048;aa;bin/a\n"
    );
    assert_eq!(
        emit(Compression::Zstd, HashType::Xxh3_128, Some(Version { major: 1, minor: 20 }), &[]),
        "Compression: zstd\nHasher: xxh3_128\nMinVersion: 1.20\n---\n"
    );
    assert_eq!(
        emit(Compression::Raw, HashType::Blake3, Some(Version { major: 0, minor: 0 }), &[]),
        "Hasher: blake3\nMinVersion: 0.0\n---\n"
    );
}

#[test]
fn emitted_manifest_is_read_as_it_was_chosen() {
    let files = vec![chunk(33188, 2048, "aa", "bin/a"), chunk(33261, 0, "bb", "bin/b;c")];
    let asked = Version { major: u64::MAX, minor: 7 };
    let text = emit(Compression::Zstd, HashType::Xxh3_128, Some(asked), &files);
    let (headers, chunks) = parse_manifest(&text).unwrap();
    assert_eq!(chunks, files);
    let plan = plan_update(&headers, &chunks, &asked, &Vec::new()).unwrap();
    assert_eq!(plan.settings, Settings { compression: Compression::Zstd, hasher: HashType::Xxh3_128 });
    assert!(plan.warnings.is_empty());
    assert!(plan_update(&headers, &chunks, &Version { major: u64::MAX, minor: 6 }, &Vec::new()).is_err());
}

#[test]
fn publication_names_the_manifest_by_its_digest() {
    let text = emit(Compression::Raw, HashType::Blake3, None, &[]);
    assert_eq!(
        publish(&text),
        Publication {
            object: blake3::hash(text.as_bytes()).to_hex().to_string(),
            pointer: "manifest".into(),
            temporary: "manifest.tmp".into(),
        }
    );
}

#[test]
fn two_identical_files_make_one_object_and_two_links() {
    // The packager's side: two files with the same bytes and mode.
    let body = b"#!/bin/sh\nexit 0\n";
    let hash = digest_of(body, HashType::Blake3);
    let files = vec![
        chunk(33261, body.len() as u64, &hash, "bin/true"),
        chunk(33261, body.len() as u64, &hash, "bin/yes"),
    ];
    let manifest = emit(Compression::Raw, HashType::Blake3, None, &files);
    let pointer = publish(&manifest).object;

    // The client's side, on an empty root.
    let mut kept = Generations::new();
    assert_eq!(rollback(&mut kept), Err(RollbackError::NoRollbackAvailable));
    assert!(pointer_changed(&kept, &pointer));
    let (headers, chunks) = parse_manifest(&manifest).unwrap();
    assert_eq!(chunks.len(), 2);
    assert_eq!(chunks[0].hash, chunks[1].hash);
    let plan = plan_update(&headers, &chunks, &Version { major: 1, minor: 0 }, &Vec::new()).unwrap();
    assert_eq!(plan.fetch.len(), 1);

    let mut store: Vec<StoreEntry> = Vec::new();
    for missing in &plan.fetch {
        let mut install =
            install_chunk(missing, "http://repo", &plan.settings.compression, plan.settings.hasher);
        install.write(body);
        let done = install.finish().unwrap();
        assert_eq!(done.name, chunk_filename(missing));
        store.push(StoreEntry { name: done.name, size: body.len() as u64 });
    }
    assert_eq!(store.len(), 1);

    assert!(update_manifest(&manifest, &mut kept));
    let object = format!("{hash}33261");
    assert_eq!(
        plan.links,
        vec![
            TreeLink { object: object.clone(), path: "bin/true".into() },
            TreeLink { object: object.clone(), path: "bin/yes".into() },
        ]
    );
    let sweep = clean_old_chunks(&kept, &store).unwrap();
    assert!(sweep.remove.is_empty());
    assert_eq!(sweep.freed, 0);
    assert!(!pointer_changed(&kept, &pointer));
    assert_eq!(rollback(&mut kept), Err(RollbackError::NoRollbackAvailable));
}

#[test]
fn update_then_rollback_keeps_both_generations_objects() {
    let mut kept = Generations::new();
    let first = emit(Compression::Raw, HashType::Blake3, None, &[chunk(420, 1, "one", "f")]);
    let second = emit(Compression::Raw, HashType::Blake3, None, &[chunk(420, 1, "two", "f")]);
    let third = emit(Compression::Raw, HashType::Blake3, None, &[chunk(420, 1, "three", "f")]);
    let store = vec![
        StoreEntry { name: "one420".into(), size: 1 },
        StoreEntry { name: "two420".into(), size: 2 },
        StoreEntry { name: "three420".into(), size: 4 },
    ];
    update_manifest(&first, &mut kept);
    update_manifest(&second, &mut kept);
    assert_eq!(clean_old_chunks(&kept, &store).unwrap().remove, vec!["three420"]);
    update_manifest(&third, &mut kept);
    let sweep = clean_old_chunks(&kept, &store).unwrap();
    assert_eq!(sweep.remove, vec!["one420"]);
    assert_eq!(sweep.freed, 1);
    let links = rollback(&mut kept).unwrap();
    assert_eq!(links, vec![TreeLink { object: "two420".into(), path: "f".into() }]);
}
