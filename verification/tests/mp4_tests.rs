use c2pa_lib::hashing::HashError;
use c2pa_lib::mp4::Mp4Parser;
use c2pa_lib::ranges::HashRange;
use c2pa_lib::signer::C2paSigner;

fn sha256_direct(data: &[u8]) -> Vec<u8> {
    let mut hasher = <sha2::Sha256 as sha2::Digest>::new();
    sha2::Digest::update(&mut hasher, data);
    sha2::Digest::finalize(hasher).to_vec()
}

fn push_box(out: &mut Vec<u8>, typ: &[u8; 4], payload: &[u8]) {
    let size = (8 + payload.len()) as u32;
    out.extend_from_slice(&size.to_be_bytes());
    out.extend_from_slice(typ);
    out.extend_from_slice(payload);
}

/// ftyp(8+8), moov(8+16) holding one mdat(8+8), mdat(8+4).
fn sample_mp4() -> Vec<u8> {
    let mut data = Vec::new();
    push_box(&mut data, b"ftyp", &[0x69, 0x73, 0x6f, 0x6d, 0, 0, 0, 1]);
    let mut inner = Vec::new();
    push_box(&mut inner, b"mdat", &[1, 2, 3, 4, 5, 6, 7, 8]);
    push_box(&mut data, b"moov", &inner);
    push_box(&mut data, b"mdat", &[9, 10, 11, 12]);
    data
}

#[test]
fn walker_emits_ftyp_mdat_and_recurses_into_moov() {
    let data = sample_mp4();
    assert_eq!(data.len(), 52);
    let ranges = Mp4Parser::get_hash_range(&data);
    assert_eq!(
        ranges,
        vec![
            HashRange::new(8, 8),
            HashRange::new(32, 8),
            HashRange::new(48, 4),
        ]
    );
}

#[test]
fn walker_stays_within_the_file() {
    let data = sample_mp4();
    let len = data.len() as u64;
    for r in Mp4Parser::get_hash_range(&data) {
        assert!(r.offset + r.length <= len);
    }
}

#[test]
fn top_level_box_sizes_sum_to_file_length() {
    // The sample file is well formed: its top-level box sizes, read
    // from the size fields, add up to the file length.
    let data = sample_mp4();
    let mut pos = 0usize;
    let mut sum = 0u64;
    while pos + 8 <= data.len() {
        let size =
            u32::from_be_bytes([data[pos], data[pos + 1], data[pos + 2], data[pos + 3]]) as u64;
        sum += size;
        pos += size as usize;
    }
    assert_eq!(sum, data.len() as u64);
    assert_eq!(pos, data.len());
}

#[test]
fn walker_reads_size_zero_box_to_end_of_file() {
    let mut data = Vec::new();
    push_box(&mut data, b"ftyp", &[0, 0, 0, 0]);
    // An mdat whose size field is 0 runs to the end of the file.
    data.extend_from_slice(&0u32.to_be_bytes());
    data.extend_from_slice(b"mdat");
    data.extend_from_slice(&[1, 2, 3, 4, 5, 6]);
    let ranges = Mp4Parser::get_hash_range(&data);
    assert_eq!(ranges, vec![HashRange::new(8, 4), HashRange::new(20, 6)]);
}

#[test]
fn walker_reads_largesize_box() {
    let mut data = Vec::new();
    // size32 == 1: the 64-bit size counts the whole box (16 + 8).
    data.extend_from_slice(&1u32.to_be_bytes());
    data.extend_from_slice(b"mdat");
    data.extend_from_slice(&24u64.to_be_bytes());
    data.extend_from_slice(&[1, 2, 3, 4, 5, 6, 7, 8]);
    let ranges = Mp4Parser::get_hash_range(&data);
    assert_eq!(ranges, vec![HashRange::new(16, 8)]);
}

#[test]
fn walker_stops_at_undersized_box() {
    let mut data = Vec::new();
    push_box(&mut data, b"ftyp", &[0, 0, 0, 0]);
    // A box claiming a size smaller than its header ends the walk.
    data.extend_from_slice(&5u32.to_be_bytes());
    data.extend_from_slice(b"mdat");
    data.extend_from_slice(&[1, 2, 3, 4, 5, 6, 7, 8]);
    let ranges = Mp4Parser::get_hash_range(&data);
    assert_eq!(ranges, vec![HashRange::new(8, 4)]);
}

#[test]
fn walker_stops_at_box_past_end_of_file() {
    let mut data = Vec::new();
    push_box(&mut data, b"mdat", &[1, 2]);
    data.extend_from_slice(&100u32.to_be_bytes());
    data.extend_from_slice(b"mdat");
    let ranges = Mp4Parser::get_hash_range(&data);
    assert_eq!(ranges, vec![HashRange::new(8, 2)]);
}

#[test]
fn get_hash_digests_selected_contents_in_order() {
    let data = sample_mp4();
    let digest = Mp4Parser::get_hash(&data, "sha256").unwrap();
    let mut selected = Vec::new();
    selected.extend_from_slice(&data[8..16]);
    selected.extend_from_slice(&data[32..40]);
    selected.extend_from_slice(&data[48..52]);
    assert_eq!(digest, sha256_direct(&selected));
}

#[test]
fn mp4_get_hash_rejects_unknown_algorithm() {
    let data = sample_mp4();
    assert_eq!(
        Mp4Parser::get_hash(&data, "md5"),
        Err(HashError::UnsupportedAlgorithm)
    );
}

#[test]
fn is_c2pa_uuid_checks_leading_tag() {
    let mut uuid = [0u8; 16];
    uuid[0] = 0x63;
    uuid[1] = 0x32;
    uuid[2] = 0x70;
    uuid[3] = 0x61;
    assert!(C2paSigner::is_c2pa_uuid(&uuid));
    uuid[3] = 0x62;
    assert!(!C2paSigner::is_c2pa_uuid(&uuid));
}

#[test]
fn hash_mp4_boxes_skips_provenance_uuid_box() {
    let mut data = Vec::new();
    push_box(&mut data, b"ftyp", &[0, 0, 0, 0]);
    let ftyp_end = data.len();
    // A provenance uuid box: 16-byte extended type opening with c2pa.
    let mut uuid_payload = vec![0x63, 0x32, 0x70, 0x61];
    uuid_payload.extend_from_slice(&[0u8; 12]);
    uuid_payload.extend_from_slice(&[0xde, 0xad]);
    push_box(&mut data, b"uuid", &uuid_payload);
    let uuid_end = data.len();
    push_box(&mut data, b"mdat", &[7, 8, 9]);

    let digests = C2paSigner::hash_mp4_boxes(&data);
    assert_eq!(digests.len(), 2);
    assert_eq!(digests[0].box_type, b"ftyp".to_vec());
    assert_eq!(digests[0].digest, sha256_direct(&data[0..ftyp_end]));
    assert_eq!(digests[1].box_type, b"mdat".to_vec());
    assert_eq!(digests[1].digest, sha256_direct(&data[uuid_end..]));
}

#[test]
fn hash_mp4_boxes_keeps_other_uuid_boxes() {
    let mut data = Vec::new();
    let mut uuid_payload = vec![0x61, 0x62, 0x63, 0x64];
    uuid_payload.extend_from_slice(&[0u8; 12]);
    push_box(&mut data, b"uuid", &uuid_payload);
    let digests = C2paSigner::hash_mp4_boxes(&data);
    assert_eq!(digests.len(), 1);
    assert_eq!(digests[0].box_type, b"uuid".to_vec());
    assert_eq!(digests[0].digest, sha256_direct(&data));
}

#[test]
fn comp_hash_mp4_pairs_up_both_files() {
    let signed = sample_mp4();
    let mut origin = sample_mp4();
    origin.truncate(40);
    let signer = C2paSigner::new(String::from("cert.pub"), String::from("key.pem"));
    let (signed_list, origin_list) = signer.comp_hash_mp4(&signed, &origin);
    assert_eq!(signed_list, C2paSigner::hash_mp4_boxes(&signed));
    assert_eq!(origin_list, C2paSigner::hash_mp4_boxes(&origin));
}
