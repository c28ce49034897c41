use vpo_core::hasher::{
    collect_results, fingerprint_chunks, fingerprint_small, fingerprint_string, finish_path,
    plan_for_size, ReadPlan, CHUNK_SIZE,
};

#[test]
fn finish_path_gives_exactly_one_outcome() {
    let ok = finish_path("a.bin".to_string(), Ok("xxh64:0:0:1".to_string()));
    assert_eq!(ok.path, "a.bin");
    assert_eq!(ok.hash.as_deref(), Some("xxh64:0:0:1"));
    assert!(ok.error.is_none());
    let err = finish_path("b.bin".to_string(), Err("denied".to_string()));
    assert_eq!(err.path, "b.bin");
    assert!(err.hash.is_none());
    assert_eq!(err.error.as_deref(), Some("denied"));
}

#[test]
fn small_fingerprint_matches_direct_digest() {
    let content = b"hello world";
    let fp = fingerprint_small(content);
    let h = xxhash_rust::xxh64::xxh64(content, 0);
    let expected = format!("xxh64:{:016x}:{:016x}:{}", h, h, content.len());
    assert_eq!(fp, expected);
    assert!(fp.starts_with("xxh64:"));
    assert!(fp.ends_with(":11"));
}

#[test]
fn empty_fingerprint_exact() {
    let fp = fingerprint_small(&[]);
    assert_eq!(fp, "xxh64:ef46db3751d8e999:ef46db3751d8e999:0");
}

#[test]
fn small_fingerprint_fields_identical() {
    let fp = fingerprint_small(b"some bytes of content");
    let parts: Vec<&str> = fp.split(':').collect();
    assert_eq!(parts.len(), 4);
    assert_eq!(parts[0], "xxh64");
    assert_eq!(parts[1], parts[2]);
    assert_eq!(parts[1].len(), 16);
}

#[test]
fn large_fingerprint_matches_direct_digests() {
    let size: usize = 200_000;
    let mut data = vec![0u8; size];
    data[0] = 7;
    data[size - 1] = 9;
    let first = &data[..CHUNK_SIZE];
    let last = &data[size - CHUNK_SIZE..];
    let fp = fingerprint_chunks(size as u64, first, last);
    let fh = xxhash_rust::xxh64::xxh64(first, 0);
    let lh = xxhash_rust::xxh64::xxh64(last, 0);
    let expected = format!("xxh64:{:016x}:{:016x}:{}", fh, lh, size);
    assert_eq!(fp, expected);
    assert!(fp.starts_with("xxh64:"));
    assert!(fp.ends_with(":200000"));
}

#[test]
fn middle_bytes_do_not_change_fingerprint() {
    let size: usize = 200_000;
    let data = vec![1u8; size];
    let mut altered = data.clone();
    altered[100_000] = 42;
    let fp1 = fingerprint_chunks(
        size as u64,
        &data[..CHUNK_SIZE],
        &data[size - CHUNK_SIZE..],
    );
    let fp2 = fingerprint_chunks(
        size as u64,
        &altered[..CHUNK_SIZE],
        &altered[size - CHUNK_SIZE..],
    );
    assert_eq!(fp1, fp2);
}

#[test]
fn end_bytes_change_fingerprint() {
    let size: usize = 200_000;
    let data = vec![1u8; size];
    let mut head_changed = data.clone();
    head_changed[0] = 2;
    let mut tail_changed = data.clone();
    tail_changed[size - 1] = 2;
    let fp = fingerprint_chunks(
        size as u64,
        &data[..CHUNK_SIZE],
        &data[size - CHUNK_SIZE..],
    );
    let fp_head = fingerprint_chunks(
        size as u64,
        &head_changed[..CHUNK_SIZE],
        &head_changed[size - CHUNK_SIZE..],
    );
    let fp_tail = fingerprint_chunks(
        size as u64,
        &tail_changed[..CHUNK_SIZE],
        &tail_changed[size - CHUNK_SIZE..],
    );
    assert_ne!(fp, fp_head);
    assert_ne!(fp, fp_tail);
}

#[test]
fn fingerprint_string_pads_hex_fields() {
    let fp = fingerprint_string(1, 0xdeadbeef, 12345);
    assert_eq!(fp, "xxh64:0000000000000001:00000000deadbeef:12345");
}

#[test]
fn plan_switches_at_twice_chunk_size() {
    assert!(plan_for_size(0) == ReadPlan::Whole);
    assert!(plan_for_size(131071) == ReadPlan::Whole);
    assert!(plan_for_size(131072) == ReadPlan::FirstAndLast);
    assert!(plan_for_size(u64::MAX) == ReadPlan::FirstAndLast);
}

#[test]
fn collect_results_empty_input() {
    let r = collect_results(&vec![], &vec![]);
    assert!(r.is_empty());
}

#[test]
fn collect_results_mixed_outcomes() {
    let paths = vec!["good.bin".to_string(), "missing.bin".to_string()];
    let outcomes = vec![
        Ok("xxh64:aa:aa:1".to_string()),
        Err("No such file or directory".to_string()),
    ];
    let r = collect_results(&paths, &outcomes);
    assert_eq!(r.len(), 2);
    assert_eq!(r[0].path, "good.bin");
    assert_eq!(r[0].hash.as_deref(), Some("xxh64:aa:aa:1"));
    assert!(r[0].error.is_none());
    assert_eq!(r[1].path, "missing.bin");
    assert!(r[1].hash.is_none());
    assert_eq!(r[1].error.as_deref(), Some("No such file or directory"));
    let with_hash = r.iter().filter(|fh| fh.hash.is_some()).count();
    let with_error = r.iter().filter(|fh| fh.error.is_some()).count();
    assert_eq!(with_hash, 1);
    assert_eq!(with_error, 1);
}
