use pkgsmgr::chunks::Chunk;
use pkgsmgr::encode::encode_manifest;
use pkgsmgr::headers::Headers;
use pkgsmgr::manifest::{parse_chunklist, parse_headers, parse_manifest, FormatError};

fn chunk(permissions: u32, size: u64, hash: &str, path: &str) -> Chunk {
    Chunk { hash: hash.into(), size, path: path.into(), permissions }
}

#[test]
fn test_chunklist_parsing() {
    let raw_chunklist =
        "420;16000;example_hash;this/is/a;path\n420;127510;anotherhash;path/path/path/path";

    let chunklist = parse_chunklist(raw_chunklist).unwrap();

    assert_eq!(chunklist.len(), 2);
    assert_eq!(
        chunklist[0],
        Chunk {
            permissions: 420,
            size: 16000,
            hash: "example_hash".into(),
            path: "this/is/a;path".into()
        }
    )
}

#[test]
fn test_header_parsing() {
    let raw_headers = "Header: Key\nAnotherHeader: Slightly secret key \n ";

    let headers = parse_headers(raw_headers);

    assert_eq!(headers.len(), 2);
    assert_eq!(headers.get("Header").unwrap(), &"Key")
}

#[test]
fn second_chunk_of_a_list_is_read_too() {
    let chunklist =
        parse_chunklist("420;16000;example_hash;this/is/a;path\n420;127510;anotherhash;path/path")
            .unwrap();
    assert_eq!(chunklist[1], chunk(420, 127510, "anotherhash", "path/path"));
}

#[test]
fn header_values_are_trimmed_and_keys_are_not() {
    let headers = parse_headers("Key :\t padded value \u{a0}\n");
    assert_eq!(headers.len(), 1);
    assert_eq!(headers.get("Key ").unwrap(), "padded value");
    assert!(headers.get("Key").is_none());
}

#[test]
fn header_value_may_hold_colons() {
    let headers = parse_headers("Url: http://host:80/x");
    assert_eq!(headers.get("Url").unwrap(), "http://host:80/x");
}

#[test]
fn later_duplicate_header_overwrites() {
    let headers = parse_headers("Hasher: blake3\nCompression: zstd\nHasher: xxh3_128\n");
    assert_eq!(headers.len(), 2);
    assert_eq!(headers.get("Hasher").unwrap(), "xxh3_128");
    assert_eq!(headers.get("Compression").unwrap(), "zstd");
    let entries = headers.entries();
    assert_eq!(entries[0].key, "Hasher");
    assert_eq!(entries[1].key, "Compression");
}

#[test]
fn lines_without_colon_are_no_headers() {
    let headers = parse_headers("no header here\n\nA: b\n");
    assert_eq!(headers.len(), 1);
    assert_eq!(headers.get("A").unwrap(), "b");
}

#[test]
fn empty_text_has_no_headers_and_no_chunks() {
    assert_eq!(parse_headers("").len(), 0);
    assert_eq!(parse_chunklist("").unwrap().len(), 0);
}

#[test]
fn lines_with_fewer_than_three_fields_are_skipped() {
    let chunklist = parse_chunklist("\nnot a chunk\n1;2\nx;y\n420;7;h;p\n").unwrap();
    assert_eq!(chunklist, vec![chunk(420, 7, "h", "p")]);
}

#[test]
fn three_fields_give_an_empty_path() {
    let chunklist = parse_chunklist("420;7;h").unwrap();
    assert_eq!(chunklist, vec![chunk(420, 7, "h", "")]);
}

#[test]
fn path_keeps_every_later_semicolon() {
    let chunklist = parse_chunklist("1;2;h;a;;b;").unwrap();
    assert_eq!(chunklist, vec![chunk(1, 2, "h", "a;;b;")]);
}

#[test]
fn carriage_return_before_line_feed_is_dropped() {
    let chunklist = parse_chunklist("420;7;h;p\r\n493;8;i;q\r").unwrap();
    assert_eq!(chunklist, vec![chunk(420, 7, "h", "p"), chunk(493, 8, "i", "q\r")]);
    let (headers, chunks) = parse_manifest("A: b\r\n---\r\n1;2;h;p\r\n").unwrap();
    assert_eq!(headers.get("A").unwrap(), "b");
    assert_eq!(chunks, vec![chunk(1, 2, "h", "p")]);
}

#[test]
fn numbers_may_have_a_plus_sign_and_leading_zeros() {
    let chunklist = parse_chunklist("+0420;007;h;p").unwrap();
    assert_eq!(chunklist, vec![chunk(420, 7, "h", "p")]);
}

#[test]
fn non_numeric_permissions_are_rejected() {
    assert_eq!(parse_chunklist("rwx;7;h;p"), Err(FormatError::InvalidPermissions));
    assert_eq!(parse_chunklist(";7;h;p"), Err(FormatError::InvalidPermissions));
    assert_eq!(parse_chunklist("+;7;h;p"), Err(FormatError::InvalidPermissions));
    assert_eq!(parse_chunklist("-1;7;h;p"), Err(FormatError::InvalidPermissions));
    assert_eq!(parse_chunklist(" 420;7;h;p"), Err(FormatError::InvalidPermissions));
}

#[test]
fn permissions_must_fit_32_bits() {
    assert_eq!(
        parse_chunklist("4294967295;7;h;p").unwrap(),
        vec![chunk(u32::MAX, 7, "h", "p")]
    );
    assert_eq!(parse_chunklist("4294967296;7;h;p"), Err(FormatError::InvalidPermissions));
}

#[test]
fn non_numeric_size_is_rejected() {
    assert_eq!(parse_chunklist("420;big;h;p"), Err(FormatError::InvalidSize));
    assert_eq!(parse_chunklist("420;;h;p"), Err(FormatError::InvalidSize));
}

#[test]
fn size_must_fit_64_bits() {
    assert_eq!(
        parse_chunklist("420;18446744073709551615;h;p").unwrap(),
        vec![chunk(420, u64::MAX, "h", "p")]
    );
    assert_eq!(
        parse_chunklist("420;18446744073709551616;h;p"),
        Err(FormatError::InvalidSize)
    );
}

#[test]
fn permissions_are_checked_before_size() {
    assert_eq!(parse_chunklist("x;y;h;p"), Err(FormatError::InvalidPermissions));
}

#[test]
fn first_invalid_line_decides_the_error() {
    assert_eq!(
        parse_chunklist("420;7;h;p\n420;x;h;p\nx;7;h;p"),
        Err(FormatError::InvalidSize)
    );
}

#[test]
fn manifest_is_parted_at_the_divider_line() {
    let (headers, chunks) =
        parse_manifest("Compression: zstd\nHasher: blake3\n---\n420;7;h;p\n493;8;i;q\n").unwrap();
    assert_eq!(headers.len(), 2);
    assert_eq!(headers.get("Compression").unwrap(), "zstd");
    assert_eq!(headers.get("Hasher").unwrap(), "blake3");
    assert_eq!(chunks, vec![chunk(420, 7, "h", "p"), chunk(493, 8, "i", "q")]);
}

#[test]
fn manifest_without_divider_is_rejected() {
    assert_eq!(parse_manifest("Hasher: blake3\n420;7;h;p\n").err(), Some(FormatError::MissingDivider));
    assert_eq!(parse_manifest("").err(), Some(FormatError::MissingDivider));
}

#[test]
fn dashes_inside_a_line_are_no_divider() {
    assert_eq!(parse_manifest("Key: a---b\n").err(), Some(FormatError::MissingDivider));
    assert_eq!(parse_manifest("----\n").err(), Some(FormatError::MissingDivider));
    let (headers, chunks) = parse_manifest("Key: a---b\n---\n").unwrap();
    assert_eq!(headers.get("Key").unwrap(), "a---b");
    assert!(chunks.is_empty());
}

#[test]
fn only_the_first_divider_parts_the_manifest() {
    let (headers, chunks) = parse_manifest("A: b\n---\n1;2;h;p\n---\n3;4;i;q\n").unwrap();
    assert_eq!(headers.len(), 1);
    assert_eq!(chunks, vec![chunk(1, 2, "h", "p"), chunk(3, 4, "i", "q")]);
}

#[test]
fn headers_after_the_divider_are_not_read() {
    let (headers, _) = parse_manifest("---\nA: b\n").unwrap();
    assert_eq!(headers.len(), 0);
}

#[test]
fn manifest_with_an_invalid_chunk_is_rejected() {
    assert_eq!(parse_manifest("---\n420;x;h;p\n").err(), Some(FormatError::InvalidSize));
    assert_eq!(parse_manifest("---\nx;7;h;p\n").err(), Some(FormatError::InvalidPermissions));
}

#[test]
fn encoding_writes_headers_divider_and_chunks() {
    let mut headers = Headers::new();
    headers.insert("Compression".into(), "zstd".into());
    headers.insert("Hasher".into(), "blake3".into());
    let chunks = vec![chunk(420, 16000, "abc", "usr/bin/tool"), chunk(493, 0, "def", "a;b")];
    assert_eq!(
        encode_manifest(&headers, &chunks),
        "Compression: zstd\nHasher: blake3\n---\n420;16000;abc;usr/bin/tool\n493;0;def;a;b\n"
    );
}

#[test]
fn encoding_nothing_writes_the_divider() {
    assert_eq!(encode_manifest(&Headers::new(), &[]), "---\n");
}

#[test]
fn decoding_an_encoded_manifest_gives_it_back() {
    let mut headers = Headers::new();
    headers.insert("MinVersion".into(), "1.2".into());
    headers.insert("Hasher".into(), "xxh3_128".into());
    headers.insert("Note".into(), "".into());
    headers.insert("Hasher".into(), "blake3".into());
    let chunks = vec![
        chunk(420, 16000, "example_hash", "this/is/a;path"),
        chunk(u32::MAX, u64::MAX, "", ""),
        chunk(0, 0, "h", ";;;"),
        chunk(33188, 12, "h\r", "dir/with space/\rfile"),
    ];
    let text = encode_manifest(&headers, &chunks);
    let (read_headers, read_chunks) = parse_manifest(&text).unwrap();
    assert_eq!(read_chunks, chunks);
    assert_eq!(read_headers.len(), 3);
    assert_eq!(read_headers.get("MinVersion").unwrap(), "1.2");
    assert_eq!(read_headers.get("Hasher").unwrap(), "blake3");
    assert_eq!(read_headers.get("Note").unwrap(), "");
}

#[test]
fn headers_insert_replaces_in_place() {
    let mut headers = Headers::new();
    assert_eq!(headers.len(), 0);
    headers.insert("a".into(), "1".into());
    headers.insert("b".into(), "2".into());
    headers.insert("a".into(), "3".into());
    assert_eq!(headers.len(), 2);
    assert_eq!(headers.get("a").unwrap(), "3");
    assert_eq!(headers.get("b").unwrap(), "2");
    assert!(headers.get("c").is_none());
    assert_eq!(headers.entries()[0].key, "a");
    assert_eq!(headers.entries()[0].value, "3");
}
