use std::path::PathBuf;

use hashdiff::{
    collect_hashed, compare, deduplicate_by_hash, diff, fingerprint_of, ContentHasher, FileEntry,
    Fingerprint, FingerprintSet,
};

fn entry(path: &str, content: &str) -> FileEntry {
    FileEntry::new(fingerprint_of(content.as_bytes()), PathBuf::from(path))
}

fn paths(entries: &[FileEntry]) -> Vec<String> {
    entries.iter().map(|e| e.path.to_string_lossy().into_owned()).collect()
}

const HELLO: &str = "2cf24dba5fb0a30e26e83b2ac5b9e29e1b161e5c1fa7425e73043362938b9824";
const EMPTY: &str = "e3b0c44298fc1c149afbf4c8996fb92427ae41e4649b934ca495991b7852b855";
const ABC: &str = "ba7816bf8f01cfea414140de5dae2223b00361a396177a9cb410ff61f20015ad";

#[test]
fn fingerprint_hex_of_known_contents() {
    assert_eq!(fingerprint_of(b"hello").to_hex(), HELLO);
    assert_eq!(fingerprint_of(b"").to_hex(), EMPTY);
    assert_eq!(fingerprint_of(b"abc").to_hex(), ABC);
}

#[test]
fn streaming_in_chunks_matches_whole_content() {
    let mut h = ContentHasher::new();
    h.update(b"he");
    h.update(b"");
    h.update(b"llo");
    let streamed = h.finish();
    let whole = fingerprint_of(b"hello");
    assert_eq!(streamed, whole);
    assert!(streamed.same_as(&whole));
    assert_eq!(streamed.to_hex(), HELLO);
}

#[test]
fn identical_content_gives_identical_fingerprint() {
    let a = entry("x/one.bin", "same bytes");
    let b = entry("y/two.bin", "same bytes");
    assert!(a.fingerprint.same_as(&b.fingerprint));
    assert_eq!(a.fingerprint.bytes, b.fingerprint.bytes);
}

#[test]
fn one_byte_difference_changes_fingerprint() {
    let a = fingerprint_of(b"hello");
    let b = fingerprint_of(b"hellp");
    assert!(!a.same_as(&b));
    assert_ne!(a.to_hex(), b.to_hex());
}

#[test]
fn hex_is_lowercase_and_64_digits() {
    let hex = fingerprint_of(b"world").to_hex();
    assert_eq!(hex.len(), 64);
    assert!(hex.chars().all(|c| c.is_ascii_digit() || ('a'..='f').contains(&c)));
    let fp = Fingerprint { bytes: [0xAB; 32] };
    assert_eq!(fp.to_hex(), "ab".repeat(32));
}

#[test]
fn scenario_a_reports_only_new_content() {
    let left = vec![entry("a.txt", "hello")];
    let right = vec![entry("b.txt", "hello"), entry("c.txt", "world")];
    let out = diff(&left, right);
    assert_eq!(paths(&out), vec!["c.txt"]);
    assert_eq!(out[0].fingerprint, fingerprint_of(b"world"));
}

#[test]
fn scenario_b_duplicates_with_and_without_collapse() {
    let left = vec![entry("other", "different")];
    let right = || vec![entry("dup1", "same"), entry("dup2", "same")];
    let all = compare(&left, right(), false);
    assert_eq!(paths(&all), vec!["dup1", "dup2"]);
    assert_eq!(all[0].fingerprint, all[1].fingerprint);
    let one = compare(&left, right(), true);
    assert_eq!(paths(&one), vec!["dup1"]);
}

#[test]
fn scenario_c_empty_left_reports_everything() {
    let left: Vec<FileEntry> = Vec::new();
    let right = || vec![entry("r1", "x"), entry("r2", "y"), entry("r3", "x")];
    assert_eq!(paths(&compare(&left, right(), false)), vec!["r1", "r2", "r3"]);
    assert_eq!(paths(&compare(&left, right(), true)), vec!["r1", "r2"]);
}

#[test]
fn scenario_d_unreadable_file_is_dropped() {
    let outcomes = vec![Some(entry("ok1", "a")), None, Some(entry("ok2", "b"))];
    let collected = collect_hashed(outcomes);
    assert_eq!(paths(&collected), vec!["ok1", "ok2"]);
    let left = vec![entry("l", "a")];
    assert_eq!(paths(&diff(&left, collected)), vec!["ok2"]);
}

#[test]
fn collect_hashed_of_nothing_readable_is_empty() {
    assert!(collect_hashed(vec![None, None]).is_empty());
    assert!(collect_hashed(Vec::new()).is_empty());
}

#[test]
fn diff_of_collection_with_itself_is_empty() {
    let x = || vec![entry("a", "1"), entry("b", "2"), entry("c", "1")];
    assert!(diff(&x(), x()).is_empty());
    assert!(compare(&x(), x(), false).is_empty());
}

#[test]
fn dedupe_keeps_first_and_is_idempotent() {
    let x = vec![
        entry("p1", "a"),
        entry("p2", "b"),
        entry("p3", "a"),
        entry("p4", "c"),
        entry("p5", "b"),
    ];
    let once = deduplicate_by_hash(x);
    assert_eq!(paths(&once), vec!["p1", "p2", "p4"]);
    let twice = deduplicate_by_hash(once);
    assert_eq!(paths(&twice), vec!["p1", "p2", "p4"]);
    assert!(deduplicate_by_hash(Vec::new()).is_empty());
}

#[test]
fn entry_excluded_regardless_of_path_or_count_in_left() {
    let left = vec![entry("z/a", "q"), entry("z/b", "q"), entry("z/c", "r")];
    let right = vec![entry("q-copy", "q"), entry("s", "s"), entry("r-copy", "r")];
    assert_eq!(paths(&diff(&left, right)), vec!["s"]);
}

#[test]
fn fingerprint_set_membership() {
    let mut set = FingerprintSet::new();
    let a = fingerprint_of(b"a");
    let b = fingerprint_of(b"b");
    assert!(!set.contains(&a));
    set.insert(a);
    set.insert(a);
    assert!(set.contains(&a));
    assert!(!set.contains(&b));
    let mut shared = [7u8; 32];
    let p = Fingerprint { bytes: shared };
    shared[31] = 8;
    let q = Fingerprint { bytes: shared };
    set.insert(p);
    assert!(set.contains(&p));
    assert!(!set.contains(&q));
    set.insert(q);
    assert!(set.contains(&q));
}

#[test]
fn from_entries_holds_every_digest_of_left() {
    let left = vec![entry("a", "1"), entry("b", "2")];
    let set = FingerprintSet::from_entries(&left);
    assert!(set.contains(&fingerprint_of(b"1")));
    assert!(set.contains(&fingerprint_of(b"2")));
    assert!(!set.contains(&fingerprint_of(b"3")));
}
