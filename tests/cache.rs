use aurora::cache::{hash_commands, hash_content};
use aurora::{Beam, BuildCache, RunBlock, StrMap};

fn snapshot(files: &[(&str, &[u8])]) -> StrMap {
    let mut m = StrMap::new();
    for (path, bytes) in files {
        m.insert(path.to_string(), hash_content(bytes));
    }
    m
}

fn beam() -> Beam {
    Beam::new("test")
        .with_inputs(vec!["in.txt".to_string()])
        .with_outputs(vec!["out.txt".to_string()])
        .with_run(RunBlock::from_strings(vec!["cp in.txt out.txt".to_string(), "echo ok > out.txt".to_string()]))
}

#[test]
fn test_cache_creation() {
    let cache = BuildCache::new(".aurora/cache");
    assert!(cache.entries().is_empty());
    assert_eq!(cache.cache_dir(), ".aurora/cache");
}

#[test]
fn test_cache_record_and_check() {
    let mut cache = BuildCache::new(".aurora/cache");
    let b = Beam::new("test").with_inputs(vec!["input.txt".to_string()]);
    let files = snapshot(&[("input.txt", b"test content")]);

    assert!(!cache.is_up_to_date(&b, &files));
    cache.record(&b, &files, 1);
    assert!(cache.is_up_to_date(&b, &files));

    let modified = snapshot(&[("input.txt", b"modified content")]);
    assert!(!cache.is_up_to_date(&b, &modified));
}

#[test]
fn content_hash_is_blake3_hex() {
    assert_eq!(hash_content(b""), "af1349b9f5f9a1a6a0404dea36dcc9499bcb25c9adc112b7cc9a93cae41f3262");
    assert_eq!(hash_content(b"abc"), "6437b3ac38465133ffb63b75273a8db548c558465d79db03fd359c6cd5bd9d85");
}

#[test]
fn command_fingerprint_joins_lines() {
    let none = Beam::new("x");
    assert_eq!(hash_commands(&none), hash_content(b""));
    let two = Beam::new("x").with_run(RunBlock::from_strings(vec!["a".to_string(), "b".to_string()]));
    assert_eq!(hash_commands(&two), hash_content(b"a\nb"));
}

#[test]
fn recorded_beam_is_up_to_date() {
    let mut cache = BuildCache::new("c");
    let b = beam();
    let files = snapshot(&[("in.txt", b"hello"), ("out.txt", b"ok\n")]);
    cache.record(&b, &files, 42);
    assert!(cache.is_up_to_date(&b, &files));
    assert_eq!(cache.get("test").unwrap().timestamp, 42);
}

#[test]
fn changed_input_makes_stale() {
    let mut cache = BuildCache::new("c");
    let b = beam();
    cache.record(&b, &snapshot(&[("in.txt", b"hello"), ("out.txt", b"ok\n")]), 1);
    assert!(!cache.is_up_to_date(&b, &snapshot(&[("in.txt", b"new"), ("out.txt", b"ok\n")])));
}

#[test]
fn deleted_output_makes_stale() {
    let mut cache = BuildCache::new("c");
    let b = beam();
    cache.record(&b, &snapshot(&[("in.txt", b"hello"), ("out.txt", b"ok\n")]), 1);
    assert!(!cache.is_up_to_date(&b, &snapshot(&[("in.txt", b"hello")])));
}

#[test]
fn changed_command_makes_stale() {
    let mut cache = BuildCache::new("c");
    let b = beam();
    let files = snapshot(&[("in.txt", b"hello"), ("out.txt", b"ok\n")]);
    cache.record(&b, &files, 1);
    let changed = beam().with_run(RunBlock::from_strings(vec!["cp in.txt out.txt".to_string()]));
    assert!(!cache.is_up_to_date(&changed, &files));
}

#[test]
fn clear_and_invalidate_make_stale() {
    let mut cache = BuildCache::new("c");
    let b = beam();
    let other = Beam::new("other");
    let files = snapshot(&[("in.txt", b"hello"), ("out.txt", b"ok\n")]);
    cache.record(&b, &files, 1);
    cache.record(&other, &files, 1);
    cache.invalidate("test");
    assert!(!cache.is_up_to_date(&b, &files));
    assert!(cache.is_up_to_date(&other, &files));
    cache.clear();
    assert!(!cache.is_up_to_date(&other, &files));
    assert!(cache.entries().is_empty());
}

#[test]
fn missing_input_at_record_time_stays_stale() {
    let mut cache = BuildCache::new("c");
    let b = beam();
    let files = snapshot(&[("out.txt", b"ok\n")]);
    cache.record(&b, &files, 1);
    assert!(!cache.is_up_to_date(&b, &files));
    assert!(cache.get("test").unwrap().input_hashes.is_empty());
}

#[test]
fn second_run_skips_then_input_change_reruns() {
    let mut cache = BuildCache::new("c");
    let b = beam();
    let first = snapshot(&[("in.txt", b"v1"), ("out.txt", b"ok\n")]);
    assert!(!cache.is_up_to_date(&b, &first));
    cache.record(&b, &first, 1);
    assert!(cache.is_up_to_date(&b, &first));
    let changed = snapshot(&[("in.txt", b"new\n"), ("out.txt", b"ok\n")]);
    assert!(!cache.is_up_to_date(&b, &changed));
}
