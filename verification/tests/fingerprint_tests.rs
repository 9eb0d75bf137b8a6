use equicord_launcher::fingerprint::{hash_directory, DirListing, FileEntry};

fn entry(path: &str, size: u64, mtime: u64) -> FileEntry {
    FileEntry { path: path.as_bytes().to_vec(), size, mtime }
}

#[test]
fn missing_directory_has_sentinel_digest() {
    assert_eq!(hash_directory(&DirListing::Missing), "empty");
}

#[test]
fn empty_directory_digest_differs_from_sentinel() {
    let d = hash_directory(&DirListing::Present(vec![]));
    assert_eq!(d, "0000000000000000");
    assert_ne!(d, "empty");
}

#[test]
fn single_entry_digest_exact_value() {
    let d = hash_directory(&DirListing::Present(vec![entry("a.txt", 10, 100)]));
    assert_eq!(d, "22c550ed4151ce0d");
}

#[test]
fn digest_independent_of_enumeration_order() {
    let fwd = hash_directory(&DirListing::Present(vec![
        entry("a.txt", 10, 100),
        entry("sub/b.ts", 7, 99),
    ]));
    let rev = hash_directory(&DirListing::Present(vec![
        entry("sub/b.ts", 7, 99),
        entry("a.txt", 10, 100),
    ]));
    assert_eq!(fwd, rev);
    assert_eq!(fwd, "de0dfcf9553bfb14");
}

#[test]
fn digest_changes_when_size_changes() {
    let before = hash_directory(&DirListing::Present(vec![entry("a.txt", 10, 100)]));
    let after = hash_directory(&DirListing::Present(vec![entry("a.txt", 11, 100)]));
    assert_ne!(before, after);
    assert_eq!(after, "22c550ed415fe58e");
}

#[test]
fn digest_changes_when_mtime_changes() {
    let before = hash_directory(&DirListing::Present(vec![entry("a.txt", 10, 100)]));
    let after = hash_directory(&DirListing::Present(vec![entry("a.txt", 10, 101)]));
    assert_ne!(before, after);
    assert_eq!(after, "22c550ed4151ce0e");
}

#[test]
fn digest_changes_when_file_added_or_removed() {
    let one = hash_directory(&DirListing::Present(vec![entry("a.txt", 10, 100)]));
    let two = hash_directory(&DirListing::Present(vec![
        entry("a.txt", 10, 100),
        entry("sub/b.ts", 7, 99),
    ]));
    assert_ne!(one, two);
}

#[test]
fn digest_is_sixteen_lowercase_hex_digits() {
    let d = hash_directory(&DirListing::Present(vec![entry("plugin/index.ts", 4096, 1700000000)]));
    assert_eq!(d.len(), 16);
    assert!(d.chars().all(|c| c.is_ascii_hexdigit() && !c.is_ascii_uppercase()));
}
