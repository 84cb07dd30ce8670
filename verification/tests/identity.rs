use respipe::cache::{is_changed, parse_cache, record_mtimes, CacheMap};
use respipe::digest::{compute_id, compute_version, preprocess_input_files, InputFile};
use respipe::kind::ResourceInfo;
use respipe::namespace::Namespace;
use respipe::num::{format_dec_u128, format_hex_u64, format_octal_u64, parse_u128};

fn file(path: &str, data: &[u8]) -> InputFile {
    InputFile {
        path: path.to_owned(),
        exists: true,
        is_dir: false,
        mtime: 1000,
        data: data.to_vec(),
    }
}

#[test]
fn encode_documented_bit_shifts() {
    let info = ResourceInfo {
        name: "maps.forest".to_owned(),
        id: 0x0102030405,
        version: 0x06,
        namespaces: Namespace::new(),
    };
    assert_eq!(info.encode(), "1/1003/4/5/6");
}

#[test]
fn encode_zero_identity() {
    let info = ResourceInfo {
        name: "x".to_owned(),
        id: 0,
        version: 0,
        namespaces: Namespace::new(),
    };
    assert_eq!(info.encode(), "0/0/0/0/0");
}

#[test]
fn encode_octal_groups() {
    let info = ResourceInfo {
        name: "x".to_owned(),
        id: 0xff,
        version: 8,
        namespaces: Namespace::new(),
    };
    // id bits 0-7 are 0o377, the higher groups are zero
    assert_eq!(info.encode(), "0/0/0/377/10");
}

#[test]
fn compute_id_is_the_crc32_of_the_path() {
    // the catalogued check value of the CRC-32 (ISO-HDLC) algorithm
    assert_eq!(compute_id("123456789"), 0xCBF43926);
    let direct = crc::Crc::<u32>::new(&crc::CRC_32_ISO_HDLC).checksum("maps/forest".as_bytes());
    assert_eq!(compute_id("maps/forest"), direct as i64);
}

#[test]
fn compute_version_digests_sorted_bytes() {
    let files = vec![file("b", &[3, 4]), file("a", &[1, 2])];
    let sorted = preprocess_input_files(files);
    assert_eq!(sorted[0].path, "a");
    assert_eq!(sorted[1].path, "b");
    let version = compute_version(&sorted);
    let direct = crc::Crc::<u32>::new(&crc::CRC_32_ISO_HDLC).checksum(&[1, 2, 3, 4]);
    assert_eq!(version, direct as i64);
}

#[test]
fn compute_version_ignores_discovery_order() {
    let one = preprocess_input_files(vec![
        file("a", &[1]),
        file("b", &[2]),
        file("c", &[3]),
    ]);
    let two = preprocess_input_files(vec![
        file("c", &[3]),
        file("a", &[1]),
        file("b", &[2]),
    ]);
    assert_eq!(compute_version(&one), compute_version(&two));
}

#[test]
fn compute_version_skips_directories_and_missing_files() {
    let mut dir = file("d", &[9, 9, 9]);
    dir.is_dir = true;
    let mut missing = file("m", &[7]);
    missing.exists = false;
    let with = preprocess_input_files(vec![file("a", &[1, 2]), dir, missing]);
    let without = preprocess_input_files(vec![file("a", &[1, 2])]);
    assert_eq!(compute_version(&with), compute_version(&without));
}

#[test]
fn cache_parses_persisted_lines() {
    let cache = parse_cache("textures/a.jpg: 1700000000000\nsounds/b.mp3: 5\n").unwrap();
    assert_eq!(cache.get("textures/a.jpg"), Some(1700000000000));
    assert_eq!(cache.get("sounds/b.mp3"), Some(5));
    assert_eq!(cache.get("absent"), None);
}

#[test]
fn cache_skips_lines_without_separator_and_trims() {
    let cache = parse_cache("\n  a: 7  \nnoise\n").unwrap();
    assert_eq!(cache.get("a"), Some(7));
    assert_eq!(cache.get("noise"), None);
}

#[test]
fn cache_rejects_malformed_values() {
    assert!(parse_cache("a: xyz\n").is_none());
    assert!(parse_cache("a: 12 34\n").is_none());
    // trimming eats the lone space, so the line has no separator and is
    // skipped rather than rejected
    let cache = parse_cache("a: \n").unwrap();
    assert_eq!(cache.get("a"), None);
}

#[test]
fn cache_round_trips_through_its_persisted_form() {
    let mut cache = CacheMap::new();
    cache.record("maps/forest/map.xml".to_owned(), 1700000000123);
    cache.record("props/tree.3ds".to_owned(), 42);
    cache.record("maps/forest/map.xml".to_owned(), 1700000000456);
    let text = cache.serialize();
    let reread = parse_cache(text.as_str()).unwrap();
    assert_eq!(reread.get("maps/forest/map.xml"), Some(1700000000456));
    assert_eq!(reread.get("props/tree.3ds"), Some(42));
    // a second round trip writes the same bytes
    assert_eq!(reread.serialize(), text);
}

#[test]
fn cache_persisted_form_is_line_oriented() {
    let mut cache = CacheMap::new();
    cache.record("a/b.jpg".to_owned(), 5);
    cache.record("c".to_owned(), 1700000000123);
    assert_eq!(cache.serialize(), "a/b.jpg: 5\nc: 1700000000123\n");
}

#[test]
fn touching_one_file_marks_the_resource_changed() {
    let files = vec![file("a", &[1]), file("b", &[2])];
    let mut cache = CacheMap::new();
    record_mtimes(&mut cache, &files);
    assert!(!is_changed(&cache, &files));

    let mut touched = vec![file("a", &[1]), file("b", &[2])];
    touched[1].mtime = 2000;
    assert!(is_changed(&cache, &touched));
}

#[test]
fn a_new_file_marks_the_resource_changed() {
    let files = vec![file("a", &[1])];
    let mut cache = CacheMap::new();
    record_mtimes(&mut cache, &files);
    let grown = vec![file("a", &[1]), file("new", &[2])];
    assert!(is_changed(&cache, &grown));
}

#[test]
fn directories_do_not_take_part_in_change_detection() {
    let mut dir = file("d", &[]);
    dir.is_dir = true;
    let cache = CacheMap::new();
    assert!(!is_changed(&cache, &vec![dir]));
}

#[test]
fn number_renderings() {
    assert_eq!(format_octal_u64(0), "0");
    assert_eq!(format_octal_u64(8), "10");
    assert_eq!(format_octal_u64(0o755), "755");
    assert_eq!(format_hex_u64(255), "ff");
    assert_eq!(format_hex_u64(0), "0");
    assert_eq!(format_dec_u128(1700000000123), "1700000000123");
}

#[test]
fn decimal_parsing() {
    assert_eq!(parse_u128("0"), Some(0));
    assert_eq!(parse_u128("1700000000123"), Some(1700000000123));
    assert_eq!(parse_u128(""), None);
    assert_eq!(parse_u128("12x"), None);
    assert_eq!(parse_u128(" 5"), None);
    assert_eq!(
        parse_u128("340282366920938463463374607431768211455"),
        Some(u128::MAX)
    );
    assert_eq!(parse_u128("340282366920938463463374607431768211456"), None);
}
