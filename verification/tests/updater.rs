use pkgsmgr::chunks::Chunk;
use pkgsmgr::generations::Generations;
use pkgsmgr::headers::Headers;
use pkgsmgr::manifest::{parse_headers, parse_manifest, update_manifest};
use pkgsmgr::tree::TreeLink;
use pkgsmgr::types::{Compression, HashType};
use pkgsmgr::updater::{
    check_headers, check_min_version, header_warnings, plan_update, pointer_changed,
    resolve_settings, CompatibilityError, Settings, Version, Warning,
};
use pkgsmgr::utils::digest_manifest;

fn version(major: u64, minor: u64) -> Version {
    Version { major, minor }
}

#[test]
fn later_major_version_is_refused() {
    assert_eq!(check_min_version("2.0", &version(1, 0)), Err(CompatibilityError::Major));
    assert_eq!(check_min_version("2.0", &version(1, 9)), Err(CompatibilityError::Major));
    let headers = parse_headers("MinVersion: 2.0\n");
    assert_eq!(check_headers(&headers, &version(1, 3)), Err(CompatibilityError::Major));
}

#[test]
fn later_minor_version_is_refused() {
    assert_eq!(check_min_version("1.5", &version(1, 3)), Err(CompatibilityError::Minor));
    let headers = parse_headers("MinVersion: 1.5\n");
    assert_eq!(check_headers(&headers, &version(1, 3)), Err(CompatibilityError::Minor));
}

#[test]
fn earlier_minor_version_proceeds() {
    assert_eq!(check_min_version("1.2", &version(1, 3)), Ok(()));
    let headers = parse_headers("MinVersion: 1.2\n");
    assert_eq!(check_headers(&headers, &version(1, 3)), Ok(()));
}

#[test]
fn equal_version_proceeds() {
    assert_eq!(check_min_version("1.3", &version(1, 3)), Ok(()));
}

#[test]
fn earlier_major_version_proceeds_whatever_the_minor() {
    assert_eq!(check_min_version("1.99", &version(2, 0)), Ok(()));
    assert_eq!(check_min_version("0.0", &version(0, 0)), Ok(()));
}

#[test]
fn major_version_alone_is_enough() {
    assert_eq!(check_min_version("1", &version(1, 0)), Ok(()));
    assert_eq!(check_min_version("2", &version(1, 0)), Err(CompatibilityError::Major));
}

#[test]
fn further_numbers_are_read_and_not_compared() {
    assert_eq!(check_min_version("1.3.9", &version(1, 3)), Ok(()));
    assert_eq!(check_min_version("1.3.x", &version(1, 3)), Err(CompatibilityError::Malformed));
}

#[test]
fn malformed_versions_are_refused() {
    for value in ["", "one.two", "1.", ".1", "1..2", "1,2", "-1.0", "1. 2", "18446744073709551616.0"] {
        assert_eq!(check_min_version(value, &version(1, 3)), Err(CompatibilityError::Malformed));
    }
    assert_eq!(check_min_version("9.x", &version(1, 3)), Err(CompatibilityError::Malformed));
}

#[test]
fn largest_version_is_read() {
    assert_eq!(
        check_min_version("18446744073709551615.18446744073709551615", &version(u64::MAX, u64::MAX)),
        Ok(())
    );
    assert_eq!(
        check_min_version("18446744073709551615.18446744073709551615", &version(u64::MAX, 0)),
        Err(CompatibilityError::Minor)
    );
}

#[test]
fn no_min_version_is_no_gate() {
    assert_eq!(check_headers(&Headers::new(), &version(0, 0)), Ok(()));
    assert_eq!(check_headers(&parse_headers("minversion: 9.9\n"), &version(0, 0)), Ok(()));
}

#[test]
fn settings_default_to_raw_and_blake3() {
    let settings = resolve_settings(&Headers::new());
    assert_eq!(settings, Settings { compression: Compression::Raw, hasher: HashType::Blake3 });
}

#[test]
fn settings_follow_the_headers() {
    let settings = resolve_settings(&parse_headers("Compression: zstd\nHasher: xxh3_128\n"));
    assert_eq!(settings, Settings { compression: Compression::Zstd, hasher: HashType::Xxh3_128 });
    let settings = resolve_settings(&parse_headers("Compression: none\nHasher: blake3\n"));
    assert_eq!(settings, Settings { compression: Compression::Raw, hasher: HashType::Blake3 });
}

#[test]
fn setting_names_may_be_in_capitals() {
    let settings = resolve_settings(&parse_headers("Compression: ZSTD\nHasher: Xxh3_128\n"));
    assert_eq!(settings, Settings { compression: Compression::Zstd, hasher: HashType::Xxh3_128 });
    assert_eq!(Compression::from_name("None"), Some(Compression::Raw));
    assert_eq!(HashType::from_name("BLAKE3"), Some(HashType::Blake3));
}

#[test]
fn unknown_setting_values_keep_the_default() {
    let headers = parse_headers("Compression: gzip\nHasher: sha256\n");
    let settings = resolve_settings(&headers);
    assert_eq!(settings, Settings { compression: Compression::Raw, hasher: HashType::Blake3 });
    assert_eq!(Compression::from_name("zstd "), None);
    assert_eq!(Compression::from_name(""), None);
    assert_eq!(HashType::from_name("xxh3"), None);
    assert_eq!(HashType::from_name("bla\u{212a}e3"), None);
}

#[test]
fn algorithm_names_and_extensions() {
    assert_eq!(Compression::Raw.extension(), "");
    assert_eq!(Compression::Zstd.extension(), ".zstd");
    assert_eq!(HashType::Blake3.name(), "blake3");
    assert_eq!(HashType::Xxh3_128.name(), "xxh3_128");
}

#[test]
fn warnings_name_what_is_passed_over() {
    let headers = parse_headers(
        "MinVersion: 1.0\nColour: blue\nCompression: gzip\nHasher: sha256\ncompression: zstd\n",
    );
    assert_eq!(
        header_warnings(&headers),
        vec![
            Warning::UnknownHeader("Colour".into()),
            Warning::UnknownCompression("gzip".into()),
            Warning::UnknownHasher("sha256".into()),
            Warning::UnknownHeader("compression".into()),
        ]
    );
    assert!(header_warnings(&parse_headers("Compression: none\nHasher: blake3\nMinVersion: x\n")).is_empty());
}

#[test]
fn plan_lists_what_to_fetch_and_what_to_link() {
    let (headers, chunks) = parse_manifest(
        "Compression: zstd\nHasher: xxh3_128\nMinVersion: 1.2\nExtra: 1\n---\n420;5;aa;bin/a\n420;5;aa;bin/b\n493;6;bb;bin/c\n",
    )
    .unwrap();
    let plan = plan_update(&headers, &chunks, &version(1, 3), &vec!["bb493".to_string()]).unwrap();
    assert_eq!(plan.settings, Settings { compression: Compression::Zstd, hasher: HashType::Xxh3_128 });
    assert_eq!(plan.warnings, vec![Warning::UnknownHeader("Extra".into())]);
    assert_eq!(
        plan.fetch,
        vec![Chunk { hash: "aa".into(), size: 5, path: "bin/a".into(), permissions: 420 }]
    );
    assert_eq!(
        plan.links,
        vec![
            TreeLink { object: "aa420".into(), path: "bin/a".into() },
            TreeLink { object: "aa420".into(), path: "bin/b".into() },
            TreeLink { object: "bb493".into(), path: "bin/c".into() },
        ]
    );
}

#[test]
fn nothing_is_planned_for_a_manifest_that_is_too_new() {
    let (headers, chunks) = parse_manifest("MinVersion: 2.0\n---\n420;5;aa;bin/a\n").unwrap();
    assert_eq!(
        plan_update(&headers, &chunks, &version(1, 0), &Vec::new()).err(),
        Some(CompatibilityError::Major)
    );
    let (headers, chunks) = parse_manifest("MinVersion: 1.5\n---\n").unwrap();
    assert_eq!(
        plan_update(&headers, &chunks, &version(1, 3), &Vec::new()).err(),
        Some(CompatibilityError::Minor)
    );
    let (headers, chunks) = parse_manifest("MinVersion: soon\n---\n").unwrap();
    assert_eq!(
        plan_update(&headers, &chunks, &version(1, 3), &Vec::new()).err(),
        Some(CompatibilityError::Malformed)
    );
}

#[test]
fn pointer_to_the_current_manifest_is_no_change() {
    let mut kept = Generations::new();
    let text = "Hasher: blake3\n---\n420;5;aa;bin/a\n";
    let digest = digest_manifest(text);
    assert!(pointer_changed(&kept, &digest));
    update_manifest(text, &mut kept);
    assert!(!pointer_changed(&kept, &digest));
    assert!(pointer_changed(&kept, &digest_manifest("---\n")));
    assert!(pointer_changed(&kept, ""));
    update_manifest("---\n", &mut kept);
    assert!(pointer_changed(&kept, &digest));
}
