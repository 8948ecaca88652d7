use std::io::{Cursor, Read};

use packager::archive::{add_to_zip, new_zip_file};
use packager::compression::{
    is_known_lowered, method_from_lowered, str_to_compression_method, verify_compression_meth, verify_compression_val, CompressionConfig,
    Method,
};
use packager::error::PackageError;
use packager::package::{FsEntry, Package};
use packager::paths::{base_name_of, get_delta};
use packager::ratio::{ratio_percent, safe_divide};

fn file(path: &str, contents: &[u8]) -> FsEntry {
    FsEntry { path: path.to_string(), is_dir: false, contents: contents.to_vec() }
}

fn dir(path: &str) -> FsEntry {
    FsEntry { path: path.to_string(), is_dir: true, contents: Vec::new() }
}

fn configured(root: &str, method: &str, level: i32) -> Package {
    let mut pkg = Package::new(root, true).expect("a directory with a name");
    pkg.set_options(level, method.to_string());
    pkg
}

/// Name, content and codec of every record of a zip archive, in order.
fn read_archive(bytes: Vec<u8>) -> Vec<(String, Vec<u8>, zip::CompressionMethod)> {
    let mut archive = zip::ZipArchive::new(Cursor::new(bytes)).expect("a readable archive");
    let mut out = Vec::new();
    for i in 0..archive.len() {
        let mut f = archive.by_index(i).expect("a readable entry");
        let mut data = Vec::new();
        f.read_to_end(&mut data).expect("readable content");
        out.push((f.name().to_string(), data, f.compression()));
    }
    out
}

/// The entry count recorded in the archive's end-of-central-directory record.
fn directory_end_count(bytes: &[u8]) -> u16 {
    let n = bytes.len();
    assert_eq!(&bytes[n - 22..n - 18], &[0x50, 0x4b, 0x05, 0x06]);
    u16::from_le_bytes([bytes[n - 12], bytes[n - 11]])
}

fn sample_tree() -> Vec<FsEntry> {
    vec![
        file("/work/proj/a.txt", b"0123456789"),
        dir("/work/proj/sub"),
        file("/work/proj/sub/b.txt", b""),
    ]
}

#[test]
fn safe_divide_values() {
    assert_eq!(safe_divide(10, 10), 1);
    assert_eq!(safe_divide(7, 2), 3);
    assert_eq!(safe_divide(0, 5), 0);
    assert_eq!(safe_divide(5, 0), 0);
    assert_eq!(safe_divide(0, 0), 0);
}

#[test]
fn ratio_of_empty_content_is_zero() {
    assert_eq!(ratio_percent(0, 0), (0, 0));
    assert_eq!(ratio_percent(5, 0), (0, 0));
}

#[test]
fn ratio_values() {
    assert_eq!(ratio_percent(10, 10), (100, 0));
    assert_eq!(ratio_percent(1, 3), (33, 33));
    assert_eq!(ratio_percent(2, 3), (66, 67));
    assert_eq!(ratio_percent(1, 20000), (0, 1));
    assert_eq!(ratio_percent(1, 8), (12, 50));
    assert_eq!(ratio_percent(3, 2), (150, 0));
    assert_eq!(ratio_percent(usize::MAX, 1), ((usize::MAX as u128) * 100, 0));
}

#[test]
fn method_names_resolve_in_any_case() {
    assert_eq!(str_to_compression_method("ZSTD".to_string()), Method::Zstd);
    assert_eq!(
        str_to_compression_method("ZSTD".to_string()),
        str_to_compression_method("zstd".to_string())
    );
    assert_eq!(str_to_compression_method("aes".to_string()), Method::Aes);
    assert_eq!(str_to_compression_method("Bz2".to_string()), Method::Bzip2);
    assert_eq!(str_to_compression_method("DEFLATE".to_string()), Method::Deflated);
    assert_eq!(str_to_compression_method("store".to_string()), Method::Stored);
}

#[test]
fn unknown_method_names_resolve_to_store() {
    assert_eq!(str_to_compression_method("lzma".to_string()), Method::Stored);
    assert_eq!(str_to_compression_method("".to_string()), Method::Stored);
    assert_eq!(str_to_compression_method("zstd ".to_string()), Method::Stored);
}

#[test]
fn level_check() {
    assert!(!verify_compression_val(&-1));
    assert!(verify_compression_val(&0));
    assert!(verify_compression_val(&9));
    assert!(!verify_compression_val(&10));
}

#[test]
fn method_check() {
    for name in ["aes", "bz2", "deflate", "zstd", "store", "Store", "ZSTD"] {
        assert!(verify_compression_meth(&name.to_string()), "{}", name);
    }
    for name in ["lzma", "", "stored", "gzip"] {
        assert!(!verify_compression_meth(&name.to_string()), "{}", name);
    }
}

#[test]
fn delta_strips_parent_of_root() {
    assert_eq!(get_delta("/home/u/proj/a.txt", "/home/u/proj").unwrap(), "proj/a.txt");
    assert_eq!(get_delta("/proj/sub/b.txt", "/proj").unwrap(), "proj/sub/b.txt");
    assert_eq!(get_delta("/home/u/proj", "/home/u/proj").unwrap(), "proj");
}

#[test]
fn delta_outside_parent_fails() {
    assert!(matches!(
        get_delta("/elsewhere/a.txt", "/home/u/proj"),
        Err(PackageError::PathResolution { .. })
    ));
    assert!(matches!(get_delta("/home/u/", "/home/u/proj"), Err(PackageError::PathResolution { .. })));
    assert!(matches!(get_delta("", "/home/u/proj"), Err(PackageError::PathResolution { .. })));
}

#[test]
fn base_name_values() {
    assert_eq!(base_name_of("/home/u/proj"), "proj");
    assert_eq!(base_name_of("proj"), "proj");
    assert_eq!(base_name_of("/"), "");
}

#[test]
fn source_must_be_a_directory() {
    assert!(Package::new("/work/notes.txt", false).is_none());
    assert_eq!(
        Package::from_str("/work/missing", false).err(),
        Some(PackageError::InvalidSource { path: "/work/missing".to_string() })
    );
    let pkg = Package::new("/work/proj", true).unwrap();
    assert_eq!(pkg.package_name(), "proj");
    assert_eq!(pkg.archive_file_name(), "proj.zip");
    assert_eq!(pkg.to_string(), "/work/proj");
    assert_eq!(pkg.describe(), "Package \"proj\" on \"/work\"");
}

#[test]
fn filesystem_root_is_a_source() {
    let pkg = Package::new("/", true).expect("the root directory is a directory");
    assert_eq!(pkg.package_name(), "");
    assert_eq!(pkg.describe(), "Package \"\" on \"/\"");
    let quoted = Package::new("/\"", true).unwrap();
    assert_eq!(quoted.describe(), "Package \"\\\"\" on \"/\"");
    assert_eq!(quoted.describe(), format!("Package {:?} on {:?}", "\"", "/"));
    assert_eq!(Package::new("/proj", true).unwrap().describe(), "Package \"proj\" on \"/\"");
}

#[test]
fn lowered_names() {
    assert_eq!(method_from_lowered(&"zstd".to_string()), Method::Zstd);
    assert_eq!(method_from_lowered(&"ZSTD".to_string()), Method::Stored);
    assert!(is_known_lowered(&"store".to_string()));
    assert!(!is_known_lowered(&"Store".to_string()));
}

#[test]
fn bzip2_level_zero_is_refused() {
    let pkg = configured("/work/proj", "bz2", 0);
    assert_eq!(
        pkg.package(&sample_tree()).err(),
        Some(PackageError::EntryWrite { path: "proj/a.txt".to_string() })
    );
}

#[test]
fn empty_listing_gives_empty_archive() {
    let pkg = configured("/work/proj", "deflate", 6);
    let (bytes, progress) = pkg.package(&Vec::new()).unwrap();
    assert!(progress.is_empty());
    assert_eq!(directory_end_count(&bytes), 0);
    assert!(read_archive(bytes).is_empty());
}

#[test]
fn packaging_without_options_fails() {
    let pkg = Package::new("/work/proj", true).unwrap();
    assert!(matches!(pkg.begin(), Err(PackageError::MissingOptions)));
    assert!(matches!(pkg.package(&sample_tree()), Err(PackageError::MissingOptions)));
}

#[test]
fn store_scenario() {
    let pkg = configured("/work/proj", "store", 0);
    assert_eq!(pkg.archive_file_name(), "proj.zip");
    let (bytes, progress) = pkg.package(&sample_tree()).expect("packaging succeeds");
    assert_eq!(directory_end_count(&bytes), 3);
    let records = read_archive(bytes);
    let names: Vec<&str> = records.iter().map(|r| r.0.as_str()).collect();
    assert_eq!(names, vec!["proj/a.txt", "proj/sub/", "proj/sub/b.txt"]);
    assert_eq!(records[0].1, b"0123456789".to_vec());
    assert_eq!(records[0].2, zip::CompressionMethod::Stored);
    assert!(records[2].1.is_empty());
    assert_eq!(progress.len(), 3);
    assert_eq!((progress[0].bytes_written, progress[0].content_length), (10, 10));
    assert_eq!(ratio_percent(progress[0].bytes_written, progress[0].content_length), (100, 0));
    assert!(progress[1].is_dir);
    assert_eq!((progress[2].bytes_written, progress[2].content_length), (0, 0));
    assert_eq!(ratio_percent(progress[2].bytes_written, progress[2].content_length), (0, 0));
    assert_eq!(progress[2].path, "/work/proj/sub/b.txt");
}

fn round_trip(method: &str, level: i32, expected: zip::CompressionMethod) {
    let big: Vec<u8> = (0..20000u32).map(|i| (i % 251) as u8).collect();
    let tree = vec![
        dir("/work/proj/src"),
        file("/work/proj/src/lib.rs", b"fn main() {}\n"),
        file("/work/proj/data.bin", &big),
        dir("/work/proj/empty"),
    ];
    let pkg = configured("/work/proj", method, level);
    let (bytes, progress) = pkg.package(&tree).expect("packaging succeeds");
    assert_eq!(progress.len(), tree.len());
    let records = read_archive(bytes);
    assert_eq!(records.len(), 4);
    assert_eq!(records[0].0, "proj/src/");
    assert_eq!(records[1].0, "proj/src/lib.rs");
    assert_eq!(records[1].1, b"fn main() {}\n".to_vec());
    assert_eq!(records[1].2, expected);
    assert_eq!(records[2].0, "proj/data.bin");
    assert_eq!(records[2].1, big);
    assert_eq!(records[3].0, "proj/empty/");
}

#[test]
fn round_trip_deflate() {
    round_trip("deflate", 6, zip::CompressionMethod::Deflated);
}

#[test]
fn round_trip_zstd() {
    round_trip("Zstd", 3, zip::CompressionMethod::Zstd);
}

#[test]
fn round_trip_bzip2() {
    round_trip("bz2", 6, zip::CompressionMethod::Bzip2);
}

#[test]
fn round_trip_unknown_method_stores() {
    round_trip("gzip", 0, zip::CompressionMethod::Stored);
}

#[test]
fn aes_cannot_be_written() {
    let pkg = configured("/work/proj", "aes", 0);
    assert!(matches!(pkg.package(&sample_tree()), Err(PackageError::EntryWrite { .. })));
}

#[test]
fn entry_outside_root_parent_stops_run() {
    let pkg = configured("/work/proj", "store", 0);
    let mut run = pkg.begin().unwrap();
    assert!(matches!(
        run.add_entry("/other/x.txt", false, &b"x".to_vec()),
        Err(PackageError::PathResolution { .. })
    ));
    let tree = vec![
        file("/work/proj/a.txt", b"a"),
        file("/other/x.txt", b"x"),
        file("/else/y.txt", b"y"),
    ];
    assert_eq!(
        pkg.package(&tree).err(),
        Some(PackageError::PathResolution { path: "/other/x.txt".to_string() })
    );
}

#[test]
fn stepwise_run_matches_whole_run() {
    let pkg = configured("/work/proj", "deflate", 9);
    let mut run = pkg.begin().unwrap();
    for e in sample_tree() {
        let p = run.add_entry(&e.path, e.is_dir, &e.contents).unwrap();
        assert_eq!(p.path, e.path);
        assert_eq!(p.is_dir, e.is_dir);
    }
    let names: Vec<String> = read_archive(run.finish().unwrap()).into_iter().map(|r| r.0).collect();
    assert_eq!(names, vec!["proj/a.txt", "proj/sub/", "proj/sub/b.txt"]);
}

#[test]
fn writer_holds_what_was_added() {
    let mut w = new_zip_file();
    let config = CompressionConfig { method: Method::Stored, level: 0 };
    assert_eq!(add_to_zip(&mut w, "top/x", &b"hello".to_vec(), config).unwrap(), (5, 5));
    w.add_directory("top/d/", config).unwrap();
    w.add_directory("top/e", config).unwrap();
    let bytes = w.finish().unwrap();
    assert_eq!(directory_end_count(&bytes), 3);
    let records = read_archive(bytes);
    let names: Vec<&str> = records.iter().map(|r| r.0.as_str()).collect();
    assert_eq!(names, vec!["top/x", "top/d/", "top/e/"]);
    assert_eq!(records[0].1, b"hello".to_vec());
}
