use c2pa_lib::hashing::hash_bytes_by_alg;
use c2pa_lib::hashing::HashError;
use c2pa_lib::ranges::HashRange;
use c2pa_lib::signer::C2paSigner;

fn sha256_direct(data: &[u8]) -> Vec<u8> {
    let mut hasher = <sha2::Sha256 as sha2::Digest>::new();
    sha2::Digest::update(&mut hasher, data);
    sha2::Digest::finalize(hasher).to_vec()
}

#[test]
fn whole_file_inclusion_range_matches_raw_digest() {
    let data: Vec<u8> = (0u8..100).collect();
    let full = vec![HashRange::new(0, data.len() as u64)];
    let by_range = hash_bytes_by_alg("sha256", &data, Some(&full), false).unwrap();
    assert_eq!(by_range, sha256_direct(&data));
    assert_eq!(by_range, C2paSigner::sha256_all_bytes(&data));
}

#[test]
fn empty_exclusion_list_matches_raw_digest() {
    let data: Vec<u8> = (0u8..100).collect();
    let no_ranges: Vec<HashRange> = Vec::new();
    let digest = hash_bytes_by_alg("sha256", &data, Some(&no_ranges), true).unwrap();
    assert_eq!(digest, sha256_direct(&data));
}

#[test]
fn no_range_list_digests_the_whole_data() {
    let data = vec![5u8, 6, 7, 8];
    let digest = hash_bytes_by_alg("sha256", &data, None, false).unwrap();
    assert_eq!(digest, sha256_direct(&data));
}

#[test]
fn inclusion_ranges_are_digested_in_list_order() {
    let data: Vec<u8> = (0u8..50).collect();
    let ranges = vec![HashRange::new(10, 5), HashRange::new(30, 3)];
    let digest = hash_bytes_by_alg("sha256", &data, Some(&ranges), false).unwrap();
    let mut selected = Vec::new();
    selected.extend_from_slice(&data[10..15]);
    selected.extend_from_slice(&data[30..33]);
    assert_eq!(digest, sha256_direct(&selected));

    let swapped = vec![HashRange::new(30, 3), HashRange::new(10, 5)];
    let digest_swapped = hash_bytes_by_alg("sha256", &data, Some(&swapped), false).unwrap();
    let mut reordered = Vec::new();
    reordered.extend_from_slice(&data[30..33]);
    reordered.extend_from_slice(&data[10..15]);
    assert_eq!(digest_swapped, sha256_direct(&reordered));
    assert_ne!(digest, digest_swapped);
}

#[test]
fn exclusion_ranges_drop_their_bytes() {
    let data: Vec<u8> = (0u8..20).collect();
    let ranges = vec![HashRange::new(5, 5), HashRange::new(12, 2)];
    let digest = hash_bytes_by_alg("sha256", &data, Some(&ranges), true).unwrap();
    let mut kept = Vec::new();
    kept.extend_from_slice(&data[0..5]);
    kept.extend_from_slice(&data[10..12]);
    kept.extend_from_slice(&data[14..20]);
    assert_eq!(digest, sha256_direct(&kept));
}

#[test]
fn unknown_algorithm_is_rejected_before_any_work() {
    let data = vec![1u8, 2, 3];
    let ranges = vec![HashRange::new(0, 3)];
    assert_eq!(
        hash_bytes_by_alg("sha1", &data, Some(&ranges), false),
        Err(HashError::UnsupportedAlgorithm)
    );
    assert_eq!(
        hash_bytes_by_alg("", &data, None, false),
        Err(HashError::UnsupportedAlgorithm)
    );
}

#[test]
fn inclusion_range_past_end_of_data_is_rejected() {
    let data = vec![1u8, 2, 3];
    let ranges = vec![HashRange::new(2, 5)];
    assert_eq!(
        hash_bytes_by_alg("sha256", &data, Some(&ranges), false),
        Err(HashError::RangeOutOfBounds)
    );
}

#[test]
fn exclusion_range_past_end_of_data_covers_nothing_extra() {
    let data = vec![1u8, 2, 3];
    let ranges = vec![HashRange::new(10, 5)];
    let digest = hash_bytes_by_alg("sha256", &data, Some(&ranges), true).unwrap();
    assert_eq!(digest, sha256_direct(&data));
}

#[test]
fn digest_is_32_bytes() {
    let digest = C2paSigner::sha256_all_bytes(&[]);
    assert_eq!(digest.len(), 32);
}
