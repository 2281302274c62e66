use c2pa_lib::hashing::HashError;
use c2pa_lib::jpeg::JpegParser;
use c2pa_lib::ranges::HashRange;
use c2pa_lib::signer::C2paSigner;

fn sha256_direct(data: &[u8]) -> Vec<u8> {
    let mut hasher = <sha2::Sha256 as sha2::Digest>::new();
    sha2::Digest::update(&mut hasher, data);
    sha2::Digest::finalize(hasher).to_vec()
}

/// SOI, APP0 with length 4 and payload AA BB, EOI.
fn plain_jpeg() -> Vec<u8> {
    vec![0xff, 0xd8, 0xff, 0xe0, 0x00, 0x04, 0xaa, 0xbb, 0xff, 0xd9]
}

/// The same bytes with the APP0 marker replaced by APP11.
fn app11_jpeg() -> Vec<u8> {
    vec![0xff, 0xd8, 0xff, 0xeb, 0x00, 0x04, 0xaa, 0xbb, 0xff, 0xd9]
}

#[test]
fn walker_emits_one_range_for_plain_jpeg() {
    let data = plain_jpeg();
    let ranges = JpegParser::get_hash_range(&data).unwrap();
    assert_eq!(ranges, vec![HashRange::new(0, 10)]);
}

#[test]
fn walker_splits_around_app11_segment() {
    let data = app11_jpeg();
    let ranges = JpegParser::get_hash_range(&data).unwrap();
    assert_eq!(ranges, vec![HashRange::new(0, 2), HashRange::new(8, 2)]);
}

#[test]
fn walker_rejects_missing_soi() {
    let data = vec![0x00, 0xd8, 0xff, 0xe0];
    assert_eq!(JpegParser::get_hash_range(&data), Err(HashError::Format));
    assert!(JpegParser::get_hash_range(&[]).is_err());
}

#[test]
fn walker_treats_scan_data_as_terminal_range() {
    // SOI, SOS, then entropy-coded data with an escaped 0xff and EOI.
    let data = vec![0xff, 0xd8, 0xff, 0xda, 0x00, 0x02, 0x12, 0xff, 0x00, 0x34, 0xff, 0xd9];
    let ranges = JpegParser::get_hash_range(&data).unwrap();
    assert_eq!(ranges, vec![HashRange::new(0, 12)]);
}

#[test]
fn walker_ranges_tile_the_file_with_the_excluded_segment() {
    // For the APP11 file the excluded segment spans [2, 8): together
    // with the emitted ranges the whole file is covered, without
    // overlap.
    let data = app11_jpeg();
    let ranges = JpegParser::get_hash_range(&data).unwrap();
    let mut covered = vec![false; data.len()];
    for r in &ranges {
        for i in r.offset..r.offset + r.length {
            assert!(!covered[i as usize]);
            covered[i as usize] = true;
        }
    }
    for i in 2..8 {
        assert!(!covered[i]);
        covered[i] = true;
    }
    assert!(covered.iter().all(|&c| c));
}

#[test]
fn get_hash_matches_raw_digest_when_everything_is_hashable() {
    let data = plain_jpeg();
    let digest = JpegParser::get_hash(&data, "sha256").unwrap();
    assert_eq!(digest, sha256_direct(&data));
}

#[test]
fn get_hash_skips_excluded_segment() {
    let data = app11_jpeg();
    let digest = JpegParser::get_hash(&data, "sha256").unwrap();
    // Selected bytes: SOI and EOI only.
    assert_eq!(digest, sha256_direct(&[0xff, 0xd8, 0xff, 0xd9]));
}

#[test]
fn jpeg_get_hash_rejects_unknown_algorithm() {
    let data = plain_jpeg();
    assert_eq!(
        JpegParser::get_hash(&data, "sha512"),
        Err(HashError::UnsupportedAlgorithm)
    );
}

#[test]
fn strip_keeps_jpeg_without_app11_identical() {
    let data = plain_jpeg();
    let out = C2paSigner::extract_jpeg_without_c2pa(&data).unwrap();
    assert_eq!(out, data);

    // A larger file with scan data and restart markers.
    let data2 = vec![
        0xff, 0xd8, 0xff, 0xe1, 0x00, 0x05, 0x01, 0x02, 0x03, 0xff, 0xd0, 0xff, 0xda, 0x00,
        0x02, 0x11, 0x22, 0xff, 0x00, 0x33, 0xff, 0xd9,
    ];
    let out2 = C2paSigner::extract_jpeg_without_c2pa(&data2).unwrap();
    assert_eq!(out2, data2);
}

#[test]
fn strip_removes_tagged_app11_segment() {
    // APP11, length 8: payload is "C2PA" plus two bytes.
    let mut data = vec![0xff, 0xd8];
    data.extend_from_slice(&[0xff, 0xeb, 0x00, 0x08, 0x43, 0x32, 0x50, 0x41, 0x01, 0x02]);
    data.extend_from_slice(&[0xff, 0xe0, 0x00, 0x04, 0xaa, 0xbb, 0xff, 0xd9]);
    let out = C2paSigner::extract_jpeg_without_c2pa(&data).unwrap();
    assert_eq!(out, vec![0xff, 0xd8, 0xff, 0xe0, 0x00, 0x04, 0xaa, 0xbb, 0xff, 0xd9]);
}

#[test]
fn strip_keeps_untagged_app11_segment() {
    // APP11 whose payload does not open with the tag is not a
    // provenance segment and is kept.
    let data = app11_jpeg();
    let out = C2paSigner::extract_jpeg_without_c2pa(&data).unwrap();
    assert_eq!(out, data);
}

#[test]
fn strip_rejects_missing_soi() {
    assert_eq!(
        C2paSigner::extract_jpeg_without_c2pa(&[0x00, 0x01, 0x02]),
        Err(HashError::Format)
    );
}

#[test]
fn comp_hash_jpeg_reports_both_digests() {
    let mut signed = vec![0xff, 0xd8];
    signed.extend_from_slice(&[0xff, 0xeb, 0x00, 0x08, 0x43, 0x32, 0x50, 0x41, 0x01, 0x02]);
    signed.extend_from_slice(&[0xff, 0xe0, 0x00, 0x04, 0xaa, 0xbb, 0xff, 0xd9]);
    let stripped = vec![0xff, 0xd8, 0xff, 0xe0, 0x00, 0x04, 0xaa, 0xbb, 0xff, 0xd9];

    let signer = C2paSigner::new(String::from("cert.pub"), String::from("key.pem"));
    let (h_signed, h_stripped) = signer.comp_hash_jpeg(&signed).unwrap();
    assert_eq!(h_signed, sha256_direct(&signed));
    assert_eq!(h_stripped, sha256_direct(&stripped));
    assert_ne!(h_signed, h_stripped);
}
