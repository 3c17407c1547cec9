use cpx::resume::{resume_check, skip_by_content, ContentHash, FileFacts, ResumeStep};

fn hash(data: &[u8]) -> u64 {
    let mut h = ContentHash::new();
    h.update(data);
    h.digest()
}

#[test]
fn test_calculate_checksum_same_content() {
    let content = b"Hello, World!";
    let hash1 = hash(content);
    let hash2 = hash(content);

    assert_eq!(hash1, hash2);
}

#[test]
fn test_calculate_checksum_different_content() {
    let hash1 = hash(b"Hello");
    let hash2 = hash(b"World");

    assert_ne!(hash1, hash2);
}

#[test]
fn checksum_of_nothing_is_the_xxh3_seed_zero_value() {
    assert_eq!(hash(b""), 0x2D06800538D394C2);
}

#[test]
fn checksum_is_independent_of_chunking() {
    let data: Vec<u8> = (0..300_000u32).map(|i| (i % 251) as u8).collect();
    let mut h = ContentHash::new();
    for chunk in data.chunks(128 * 1024) {
        h.update(chunk);
    }
    assert_eq!(h.digest(), hash(&data));
}

#[test]
fn test_should_skip_file_identical() {
    let source = FileFacts { size: 12, modified: Some(1_000) };
    let dest = FileFacts { size: 12, modified: Some(11_000_000) };
    assert_eq!(resume_check(&source, &Some(dest)), ResumeStep::Skip, "Should skip identical file with newer mtime");
}

#[test]
fn test_should_skip_file_different_content() {
    let source = FileFacts { size: 14, modified: Some(5) };
    let dest = FileFacts { size: 17, modified: Some(9) };
    assert_eq!(resume_check(&source, &Some(dest)), ResumeStep::Transfer, "Should not skip files with different content");
    assert!(!skip_by_content(hash(b"source content"), hash(b"different content")));
}

#[test]
fn test_should_skip_file_dest_not_exists() {
    let source = FileFacts { size: 7, modified: Some(5) };
    assert_eq!(resume_check(&source, &None), ResumeStep::Transfer, "Should not skip when dest doesn't exist");
}

#[test]
fn equal_mtimes_count_as_not_newer() {
    let source = FileFacts { size: 3, modified: Some(42) };
    let dest = FileFacts { size: 3, modified: Some(42) };
    assert_eq!(resume_check(&source, &Some(dest)), ResumeStep::Skip);
}

#[test]
fn newer_source_or_unknown_time_falls_back_to_content() {
    let source = FileFacts { size: 3, modified: Some(43) };
    let dest = FileFacts { size: 3, modified: Some(42) };
    assert_eq!(resume_check(&source, &Some(dest)), ResumeStep::CompareContent);
    let unknown = FileFacts { size: 3, modified: None };
    assert_eq!(resume_check(&unknown, &Some(dest)), ResumeStep::CompareContent);
    assert!(skip_by_content(hash(b"abc"), hash(b"abc")));
}

#[test]
fn two_older_sources_against_one_newer_destination() {
    let dest = FileFacts { size: 5, modified: Some(2_000) };
    let a = FileFacts { size: 5, modified: Some(1_000) };
    let b = FileFacts { size: 5, modified: Some(1_500) };
    assert_eq!(resume_check(&a, &Some(dest)), ResumeStep::Skip);
    assert_eq!(resume_check(&b, &Some(dest)), ResumeStep::Skip);
}
