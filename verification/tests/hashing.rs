use ingst::hashing::{fast_hash_of_bytes, fast_hash_samples, full_hash, tail_sample_start, FullHasher};

const CHUNK: usize = 64 * 1024;

fn filler(len: usize) -> Vec<u8> {
    (0..len).map(|i| (i % 251) as u8).collect()
}

#[test]
fn fast_hash_cannot_see_changes_in_the_middle_of_a_file() {
    let size = 300 * 1024;
    let a = filler(size);
    let mut b = a.clone();
    b[size / 2] ^= 0xFF;

    assert_eq!(a[..CHUNK], b[..CHUNK], "test setup: heads must match");
    assert_eq!(a[size - CHUNK..], b[size - CHUNK..], "test setup: tails must match");

    assert_eq!(
        fast_hash_of_bytes(&a, size as u64),
        fast_hash_of_bytes(&b, size as u64),
        "known limitation: middle-of-file differences are invisible to fast_hash"
    );
    assert_ne!(full_hash(&a), full_hash(&b), "full_hash must still distinguish them");
}

#[test]
fn fast_hash_ignores_everything_after_64k_in_a_100k_file() {
    let size = 100 * 1024;
    let a = filler(size);
    let mut b = a.clone();
    b[size - 1] ^= 0xFF;

    assert_ne!(
        fast_hash_of_bytes(&a, size as u64),
        fast_hash_of_bytes(&b, size as u64),
        "the tail is sampled above 64 KiB, so the last byte of a 100 KiB file counts"
    );
    assert_eq!(tail_sample_start(size as u64), Some((size - CHUNK) as u64));
}

#[test]
fn fast_hash_detects_head_tail_and_size_changes() {
    let size = 300 * 1024;
    let base = filler(size);
    let baseline = fast_hash_of_bytes(&base, size as u64);

    let mut head = base.clone();
    head[0] ^= 0xFF;
    assert_ne!(fast_hash_of_bytes(&head, size as u64), baseline, "a difference in the first bytes must be detected");

    let mut tail = base.clone();
    tail[size - 1] ^= 0xFF;
    assert_ne!(fast_hash_of_bytes(&tail, size as u64), baseline, "a difference in the last bytes must be detected");

    let mut longer = base.clone();
    longer.extend_from_slice(&[0u8; 1024]);
    assert_ne!(
        fast_hash_of_bytes(&longer, longer.len() as u64),
        baseline,
        "a difference in length must be detected"
    );
}

#[test]
fn fast_hash_is_stable_across_calls_on_a_file_large_enough_to_seek() {
    let size = 5 * 1024 * 1024;
    let data = filler(size);
    let first = fast_hash_of_bytes(&data, size as u64);
    for _ in 0..5 {
        assert_eq!(fast_hash_of_bytes(&data, size as u64), first);
    }
}

#[test]
fn full_hash_is_lowercase_hex_sha256() {
    assert_eq!(full_hash(b""), "e3b0c44298fc1c149afbf4c8996fb92427ae41e4649b934ca495991b7852b855");
    assert_eq!(full_hash(b"abc"), "ba7816bf8f01cfea414140de5dae2223b00361a396177a9cb410ff61f20015ad");
}

#[test]
fn hashing_in_chunks_matches_hashing_at_once() {
    let data = filler(3 * 1024 * 1024 + 17);
    let mut h = FullHasher::new();
    for chunk in data.chunks(1024 * 1024) {
        h.feed(chunk);
    }
    assert_eq!(h.finish(), full_hash(&data));
}

#[test]
fn the_tail_sample_starts_64k_from_the_end_of_files_over_64k() {
    assert_eq!(tail_sample_start(64 * 1024), None);
    assert_eq!(tail_sample_start(64 * 1024 + 1), Some(1));
    assert_eq!(tail_sample_start(128 * 1024 + 1), Some(64 * 1024 + 1));
    assert_eq!(tail_sample_start(0), None);
}

#[test]
fn samples_read_from_a_file_give_the_same_fingerprint() {
    let size = 300 * 1024;
    let data = filler(size);
    let start = tail_sample_start(size as u64).unwrap() as usize;
    let by_samples = fast_hash_samples(&data[..CHUNK], Some(&data[start..]), size as u64);
    assert_eq!(by_samples, fast_hash_of_bytes(&data, size as u64));
    // The fingerprint is SHA-256 of head, tail and the little-endian length.
    let mut message = data[..CHUNK].to_vec();
    message.extend_from_slice(&data[start..]);
    message.extend_from_slice(&(size as u64).to_le_bytes());
    assert_eq!(by_samples, full_hash(&message));
}
