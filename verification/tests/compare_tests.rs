use c2pa_lib::compare::compare_content;
use c2pa_lib::compare::HashVerdict;
use c2pa_lib::compare::MediaFormat;
use c2pa_lib::hashing::HashError;

fn push_box(out: &mut Vec<u8>, typ: &[u8; 4], payload: &[u8]) {
    let size = (8 + payload.len()) as u32;
    out.extend_from_slice(&size.to_be_bytes());
    out.extend_from_slice(typ);
    out.extend_from_slice(payload);
}

fn plain_jpeg() -> Vec<u8> {
    vec![0xff, 0xd8, 0xff, 0xe0, 0x00, 0x04, 0xaa, 0xbb, 0xff, 0xd9]
}

/// The plain JPEG with an APP11 provenance block inserted after SOI.
fn signed_jpeg() -> Vec<u8> {
    let mut data = vec![0xff, 0xd8];
    data.extend_from_slice(&[0xff, 0xeb, 0x00, 0x08, 0x43, 0x32, 0x50, 0x41, 0x01, 0x02]);
    data.extend_from_slice(&plain_jpeg()[2..]);
    data
}

#[test]
fn jpeg_differing_only_in_provenance_block_compares_equal() {
    let before = plain_jpeg();
    let after = signed_jpeg();
    let verdict = compare_content(MediaFormat::Jpeg, &before, &after, "sha256").unwrap();
    assert_eq!(verdict, HashVerdict::Equal);
}

#[test]
fn jpeg_differing_in_scan_data_compares_differ() {
    let before = plain_jpeg();
    let mut after = signed_jpeg();
    let last = after.len() - 3;
    after[last] ^= 0xff;
    let verdict = compare_content(MediaFormat::Jpeg, &before, &after, "sha256").unwrap();
    assert_eq!(verdict, HashVerdict::Differ);
}

#[test]
fn mp4_differing_only_in_provenance_uuid_box_compares_equal() {
    let mut before = Vec::new();
    push_box(&mut before, b"ftyp", &[0, 0, 0, 1]);
    push_box(&mut before, b"mdat", &[1, 2, 3, 4]);

    let mut after = Vec::new();
    push_box(&mut after, b"ftyp", &[0, 0, 0, 1]);
    let mut uuid_payload = vec![0x63, 0x32, 0x70, 0x61];
    uuid_payload.extend_from_slice(&[0u8; 12]);
    uuid_payload.extend_from_slice(&[0xca, 0xfe]);
    push_box(&mut after, b"uuid", &uuid_payload);
    push_box(&mut after, b"mdat", &[1, 2, 3, 4]);

    let verdict = compare_content(MediaFormat::Mp4, &before, &after, "sha256").unwrap();
    assert_eq!(verdict, HashVerdict::Equal);
}

#[test]
fn mp4_with_appended_uuid_box_compares_equal() {
    let mut before = Vec::new();
    push_box(&mut before, b"ftyp", &[0, 0, 0, 1]);
    push_box(&mut before, b"mdat", &[1, 2, 3, 4]);

    let mut after = before.clone();
    let mut uuid_payload = vec![0x63, 0x32, 0x70, 0x61];
    uuid_payload.extend_from_slice(&[0u8; 12]);
    uuid_payload.extend_from_slice(&[0xbe, 0xef]);
    push_box(&mut after, b"uuid", &uuid_payload);

    let verdict = compare_content(MediaFormat::Mp4, &before, &after, "sha256").unwrap();
    assert_eq!(verdict, HashVerdict::Equal);
}

#[test]
fn mp4_differing_in_mdat_compares_differ() {
    let mut before = Vec::new();
    push_box(&mut before, b"ftyp", &[0, 0, 0, 1]);
    push_box(&mut before, b"mdat", &[1, 2, 3, 4]);

    let mut after = before.clone();
    let last = after.len() - 1;
    after[last] = 99;

    let verdict = compare_content(MediaFormat::Mp4, &before, &after, "sha256").unwrap();
    assert_eq!(verdict, HashVerdict::Differ);
}

#[test]
fn comparator_rejects_unknown_algorithm() {
    let before = plain_jpeg();
    let after = plain_jpeg();
    assert_eq!(
        compare_content(MediaFormat::Jpeg, &before, &after, "blake3"),
        Err(HashError::UnsupportedAlgorithm)
    );
}

#[test]
fn comparator_rejects_jpeg_without_soi() {
    let before = vec![0x00, 0x01];
    let after = plain_jpeg();
    assert_eq!(
        compare_content(MediaFormat::Jpeg, &before, &after, "sha256"),
        Err(HashError::Format)
    );
    assert_eq!(
        compare_content(MediaFormat::Jpeg, &after, &before, "sha256"),
        Err(HashError::Format)
    );
}
