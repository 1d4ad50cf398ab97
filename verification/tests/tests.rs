use backup_diff::hashing::hash_bytes;
use backup_diff::tracker::ProgressTracker;
use backup_diff::{
    find_duplicates, get_diff, get_errors, hash_file_list, push_error, record_completion,
    ErrorLog, FileData,
};
use multimap::MultiMap;
use sha2::Digest;

fn entry(path: &str, bytes: &[u8]) -> FileData {
    FileData { path: path.to_string(), content: Ok(bytes.to_vec()) }
}

fn bad_entry(path: &str, why: &str) -> FileData {
    FileData { path: path.to_string(), content: Err(format!("{}: {}", path, why)) }
}

fn build(entries: Vec<FileData>) -> (MultiMap<String, String>, ErrorLog) {
    let mut log = ErrorLog::new();
    let map = hash_file_list(entries, &mut log);
    (map, log)
}

/// SHA-256 hex computed straight through the sha2 crate, independently of
/// the library's own hashing path.
fn sha256_hex(bytes: &[u8]) -> String {
    let digest = sha2::Sha256::digest(bytes);
    let mut out = String::new();
    for b in digest.as_slice() {
        out += &format!("{:02x}", b);
    }
    out
}

fn sorted_keys(map: &MultiMap<String, String>) -> Vec<String> {
    let mut keys: Vec<String> = map.keys().cloned().collect();
    keys.sort();
    keys
}

#[test]
fn same_files_different_filenames() {
    let (dir_a, _) = build(vec![entry("after/report.txt", b"identical bytes")]);
    let (dir_b, _) = build(vec![entry("before/archive.txt", b"identical bytes")]);

    let (new, del) = get_diff(&dir_a, &dir_b);
    assert_eq!(new.len(), 0);
    assert_eq!(del.len(), 0);
}

#[test]
fn old_file_only() {
    let (dir_a, _) = build(vec![]);
    let (dir_b, _) = build(vec![entry("before/old.txt", b"old content")]);

    let (new, del) = get_diff(&dir_a, &dir_b);
    assert_eq!(new.len(), 0);
    assert_eq!(del.len(), 1);
}

#[test]
fn new_file_only() {
    let (dir_a, _) = build(vec![entry("after/new.txt", b"new content")]);
    let (dir_b, _) = build(vec![]);

    let (new, del) = get_diff(&dir_a, &dir_b);
    assert_eq!(new.len(), 1);
    assert_eq!(del.len(), 0);
}

#[test]
fn new_and_old() {
    let (dir_a, _) = build(vec![entry("after/new.txt", b"added later")]);
    let (dir_b, _) = build(vec![entry("before/old.txt", b"removed since")]);

    let (new, del) = get_diff(&dir_a, &dir_b);
    assert_eq!(new.len(), 1);
    assert_eq!(del.len(), 1);
}

#[test]
fn empty_directories() {
    let (dir_a, log_a) = build(vec![]);
    let (dir_b, log_b) = build(vec![]);

    let (new, del) = get_diff(&dir_a, &dir_b);
    assert_eq!(new.len(), 0);
    assert_eq!(del.len(), 0);
    assert_eq!(dir_a.len(), 0);
    assert_eq!(dir_b.len(), 0);
    assert_eq!(get_errors(&log_a).len(), 0);
    assert_eq!(get_errors(&log_b).len(), 0);
}

#[test]
fn nesting_file_order() {
    let (dir_a, _) = build(vec![
        entry("after/one.txt", b"first"),
        entry("after/sub/two.txt", b"second"),
        entry("after/sub/deep/three.txt", b"third"),
    ]);
    let (dir_b, _) = build(vec![
        entry("before/sub/deep/three.txt", b"third"),
        entry("before/one.txt", b"first"),
        entry("before/sub/two.txt", b"second"),
    ]);

    let (new, del) = get_diff(&dir_a, &dir_b);
    assert_eq!(new.len(), 0);
    assert_eq!(del.len(), 0);
    assert_eq!(dir_a.len(), 3);
    assert_eq!(dir_b.len(), 3);
}

#[test]
fn duplicates_simple() {
    let (dir_a, _) = build(vec![
        entry("after/copy1.txt", b"after payload"),
        entry("after/copy2.txt", b"after payload"),
    ]);
    let (dir_b, _) = build(vec![
        entry("before/copy1.txt", b"before payload"),
        entry("before/copy2.txt", b"before payload"),
    ]);

    let (new, del) = get_diff(&dir_a, &dir_b);
    assert_eq!(new.len(), 1);
    assert_eq!(del.len(), 1);
    assert_eq!(dir_a.len(), 1);
    assert_eq!(dir_b.len(), 1);
    let dup_a = find_duplicates(&dir_a);
    let dup_b = find_duplicates(&dir_b);

    assert_eq!(dup_a.len(), 1);
    assert_eq!(dup_b.len(), 1);
    assert_eq!(dup_a.get(0).unwrap().len(), 2);
    assert_eq!(dup_b.get(0).unwrap().len(), 2);
}

#[test]
fn duplicates_multiple() {
    let (dir_a, _) = build(vec![
        entry("after/shared1.txt", b"shared payload"),
        entry("after/shared2.txt", b"shared payload"),
        entry("after/shared3.txt", b"shared payload"),
        entry("after/own1.txt", b"after only"),
        entry("after/own2.txt", b"after only"),
        entry("after/own3.txt", b"after only"),
    ]);
    let (dir_b, _) = build(vec![
        entry("before/shared1.txt", b"shared payload"),
        entry("before/shared2.txt", b"shared payload"),
        entry("before/shared3.txt", b"shared payload"),
        entry("before/own1.txt", b"before only"),
        entry("before/own2.txt", b"before only"),
        entry("before/own3.txt", b"before only"),
    ]);

    let (new, del) = get_diff(&dir_a, &dir_b);
    assert_eq!(new.len(), 1);
    assert_eq!(del.len(), 1);
    assert_eq!(dir_a.len(), 2);
    assert_eq!(dir_b.len(), 2);
    let dup_a = find_duplicates(&dir_a);
    let dup_b = find_duplicates(&dir_b);

    assert_eq!(dup_a.len(), 2);
    assert_eq!(dup_b.len(), 2);
    assert_eq!(dup_a.get(0).unwrap().len(), 3);
    assert_eq!(dup_b.get(0).unwrap().len(), 3);
    assert_eq!(dup_a.get(1).unwrap().len(), 3);
    assert_eq!(dup_b.get(1).unwrap().len(), 3);
}

#[test]
fn hash_known_answer_empty() {
    let fp = hash_bytes(&Vec::new());
    assert_eq!(fp, "e3b0c44298fc1c149afbf4c8996fb92427ae41e4649b934ca495991b7852b855");
}

#[test]
fn hash_known_answer_abc() {
    let fp = hash_bytes(&b"abc".to_vec());
    assert_eq!(fp, "ba7816bf8f01cfea414140de5dae2223b00361a396177a9cb410ff61f20015ad");
}

#[test]
fn hash_matches_independent_sha2() {
    let payload = b"some larger payload, hashed twice by different routes".to_vec();
    assert_eq!(hash_bytes(&payload), sha256_hex(&payload));
}

#[test]
fn extra_file_hash_reported() {
    let shared = entry("a/common.txt", b"both sides hold this");
    let shared_b = entry("b/common.txt", b"both sides hold this");
    let extra_bytes = b"only the second directory holds this";
    let (dir_a, _) = build(vec![shared]);
    let (dir_b, _) = build(vec![shared_b, entry("b/extra.txt", extra_bytes)]);

    let (only_a, only_b) = get_diff(&dir_a, &dir_b);
    assert_eq!(only_a.len(), 0);
    assert_eq!(only_b.len(), 1);
    assert_eq!(only_b[0], sha256_hex(extra_bytes));
}

#[test]
fn unreadable_file_alongside_readable() {
    let (map, log) = build(vec![
        entry("dir/readable1.txt", b"first readable"),
        bad_entry("dir/locked.txt", "permission denied"),
        entry("dir/readable2.txt", b"second readable"),
    ]);

    assert_eq!(map.len(), 2);
    assert!(map.contains_key(&sha256_hex(b"first readable")));
    assert!(map.contains_key(&sha256_hex(b"second readable")));
    let errors = get_errors(&log);
    assert_eq!(errors.len(), 1);
    assert!(errors[0].contains("dir/locked.txt"));
}

#[test]
fn build_order_independent() {
    let one = || entry("d/one.txt", b"payload one");
    let two = || entry("d/two.txt", b"payload two");
    let three = || entry("d/three.txt", b"payload one");

    let (map_x, _) = build(vec![one(), two(), three()]);
    let (map_y, _) = build(vec![three(), one(), two()]);

    assert_eq!(sorted_keys(&map_x), sorted_keys(&map_y));
    for key in map_x.keys() {
        assert_eq!(map_x.get_vec(key).unwrap().len(), map_y.get_vec(key).unwrap().len());
    }
}

#[test]
fn rebuild_identical() {
    let batch = || {
        vec![
            entry("d/a.txt", b"alpha"),
            entry("d/b.txt", b"beta"),
            entry("d/c.txt", b"alpha"),
        ]
    };
    let (map_x, _) = build(batch());
    let (map_y, _) = build(batch());

    let keys = sorted_keys(&map_x);
    assert_eq!(keys, sorted_keys(&map_y));
    for key in &keys {
        assert_eq!(map_x.get_vec(key), map_y.get_vec(key));
    }
}

#[test]
fn diff_symmetry() {
    let (dir_a, _) = build(vec![
        entry("a/shared.txt", b"shared"),
        entry("a/own.txt", b"a only"),
    ]);
    let (dir_b, _) = build(vec![
        entry("b/shared.txt", b"shared"),
        entry("b/own.txt", b"b only"),
    ]);

    let (ab_first, ab_second) = get_diff(&dir_a, &dir_b);
    let (ba_first, ba_second) = get_diff(&dir_b, &dir_a);

    let sort = |mut v: Vec<String>| {
        v.sort();
        v
    };
    assert_eq!(sort(ab_first), sort(ba_second));
    assert_eq!(sort(ab_second), sort(ba_first));
}

#[test]
fn duplicates_exactly_once() {
    let (map, _) = build(vec![
        entry("d/c1.txt", b"three of these"),
        entry("d/c2.txt", b"three of these"),
        entry("d/c3.txt", b"three of these"),
        entry("d/single.txt", b"just one"),
    ]);

    let dups = find_duplicates(&map);
    assert_eq!(dups.len(), 1);
    assert_eq!(dups[0].len(), 3);
    assert!(dups[0].contains(&"d/c1.txt".to_string()));
    assert!(dups[0].contains(&"d/c2.txt".to_string()));
    assert!(dups[0].contains(&"d/c3.txt".to_string()));
}

#[test]
fn errors_accumulate_in_order() {
    let mut log = ErrorLog::new();
    push_error(&mut log, "first failure");
    let map = hash_file_list(
        vec![
            bad_entry("d/x.txt", "not found"),
            bad_entry("d/y.txt", "permission denied"),
        ],
        &mut log,
    );
    assert_eq!(map.len(), 0);
    let errors = get_errors(&log);
    assert_eq!(errors.len(), 3);
    assert_eq!(errors[0], "first failure");
    assert_eq!(errors[1], "d/x.txt: not found");
    assert_eq!(errors[2], "d/y.txt: permission denied");
}

#[test]
fn tracker_behaviour() {
    let mut tracker = ProgressTracker::new(2, 4);
    assert!(!tracker.is_done());
    tracker.increment();
    tracker.increment();
    assert!(tracker.is_done());
    tracker.increment();
    assert!(tracker.is_done());
    tracker.decrement();
    assert!(!tracker.is_done());
    tracker.update(1);
    assert!(!tracker.is_done());
    tracker.update(4);
    assert!(tracker.is_done());
    tracker.decrement();
    tracker.decrement();
    tracker.decrement();
    tracker.update(2);
    assert!(!tracker.is_done());
}

#[test]
fn record_completion_drives_batch() {
    let mut store: MultiMap<String, String> = MultiMap::new();
    let mut log = ErrorLog::new();
    let mut tracker = ProgressTracker::new(0, 3);

    let fp = hash_bytes(&b"worker payload".to_vec());
    let done1 = record_completion(
        &mut store,
        &mut log,
        &mut tracker,
        "d/w1.txt".to_string(),
        Ok(fp.clone()),
    );
    let done2 = record_completion(
        &mut store,
        &mut log,
        &mut tracker,
        "d/w2.txt".to_string(),
        Err("d/w2.txt: read interrupted".to_string()),
    );
    let done3 = record_completion(
        &mut store,
        &mut log,
        &mut tracker,
        "d/w3.txt".to_string(),
        Ok(fp.clone()),
    );

    assert!(!done1);
    assert!(!done2);
    assert!(done3);
    assert_eq!(store.len(), 1);
    assert_eq!(store.get_vec(&fp).unwrap().len(), 2);
    let errors = get_errors(&log);
    assert_eq!(errors.len(), 1);
    assert_eq!(errors[0], "d/w2.txt: read interrupted");
}
