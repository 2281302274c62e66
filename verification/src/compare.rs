//! Comparing the content digests of two files: a pre-signing and a
//! post-signing file are walked and hashed independently, and only the
//! digests are compared — embedding a provenance record shifts byte
//! offsets, so the ranges themselves are not comparable.

use vstd::prelude::*;

use crate::hashing::HashError;
use crate::hashing::included_bytes;
use crate::hashing::sha256_of;
use crate::jpeg::JpegParser;
use crate::jpeg::has_soi;
use crate::jpeg::jpeg_scan;
use crate::jpeg::span_ranges;
use crate::mp4::Mp4Parser;
use crate::mp4::mp4_ranges;

verus! {

/// The two container formats the walkers understand.
#[derive(Clone, Copy, Debug, PartialEq, Eq, Structural)]
pub enum MediaFormat {
    Jpeg,
    Mp4,
}

/// Whether two files carry the same hashable content.
#[derive(Clone, Copy, Debug, PartialEq, Eq, Structural)]
pub enum HashVerdict {
    Equal,
    Differ,
}

/// The content digest of a file: the digest of the bytes its format's
/// walker selects as hashable.
pub open spec fn content_digest(format: MediaFormat, data: Seq<u8>) -> Seq<u8> {
    match format {
        MediaFormat::Jpeg => sha256_of(included_bytes(data, span_ranges(jpeg_scan(data, 2, 0)))),
        MediaFormat::Mp4 => sha256_of(included_bytes(data, mp4_ranges(data, 0, data.len() as int))),
    }
}

/// A signed JPEG differing from the original only in an APP11
/// provenance segment embedded after the start-of-image marker has the
/// same content digest: the comparator finds the two files equal.
pub proof fn lemma_insert_app11_keeps_content_digest(before: Seq<u8>, seg: Seq<u8>)
    requires
        has_soi(before),
        seg.len() >= 4,
        before.len() + seg.len() <= u64::MAX,
        seg[0] == 0xff,
        seg[1] == 0xeb,
        crate::jpeg::be16(seg, 2) == seg.len() - 2,
    ensures
        ({
            let after = before.subrange(0, 2) + seg + before.subrange(2, before.len() as int);
            content_digest(MediaFormat::Jpeg, after) == content_digest(MediaFormat::Jpeg, before)
        }),
{
    crate::jpeg::lemma_insert_app11_keeps_selection(before, seg);
}

/// A signed MP4 differing from the original only in a provenance
/// `uuid` box appended to it has the same content digest: the
/// comparator finds the two files equal. The original must be well
/// formed, with explicit sizes on its top-level boxes.
pub proof fn lemma_append_uuid_box_keeps_content_digest(before: Seq<u8>, ubox: Seq<u8>)
    requires
        crate::mp4::mp4_well_formed(before),
        crate::mp4::mp4_no_size_zero(before, 0, before.len() as int),
        before.len() + ubox.len() <= u64::MAX,
        ubox.len() >= 8,
        crate::mp4::be32(ubox, 0) == ubox.len(),
        crate::mp4::be32(ubox, 4) == crate::mp4::UUID_TYPE,
    ensures
        content_digest(MediaFormat::Mp4, before + ubox) == content_digest(
            MediaFormat::Mp4,
            before,
        ),
{
    crate::mp4::lemma_append_uuid_box_keeps_selection(before, ubox);
}

/// Compares two byte vectors.
fn bytes_eq(a: &Vec<u8>, b: &Vec<u8>) -> (r: bool)
    ensures
        r == (a@ == b@),
{
    let n = a.len();
    if n != b.len() {
        assert(a@ != b@);
        return false;
    }
    let mut i: usize = 0;
    while i < n
        invariant
            n == a@.len() == b@.len(),
            0 <= i <= n,
            forall|j: int| 0 <= j < i ==> a@[j] == #[trigger] b@[j],
        decreases n - i,
    {
        if a[i] != b[i] {
            assert(a@[i as int] != b@[i as int]);
            return false;
        }
        i = i + 1;
    }
    assert(a@ =~= b@);
    true
}

/// Walks `before` and `after` with the format's walker, digests each
/// with the named algorithm, and reports whether the hashable content
/// is equal. The two files need not share byte offsets; only the
/// classification policy and the digests are shared.
pub fn compare_content(format: MediaFormat, before: &[u8], after: &[u8], algorithm: &str) -> (r:
    Result<HashVerdict, HashError>)
    ensures
        r is Ok <==> (algorithm@ == "sha256"@ && (format is Mp4 || (has_soi(before@) && has_soi(
            after@,
        )))),
        r matches Ok(v) ==> (v == HashVerdict::Equal <==> content_digest(format, before@)
            == content_digest(format, after@)),
        r == Err::<HashVerdict, HashError>(HashError::Format) <==> format is Jpeg && (!has_soi(
            before@,
        ) || (algorithm@ == "sha256"@ && !has_soi(after@))),
{
    let (digest_before, digest_after) = match format {
        MediaFormat::Jpeg => {
            let db = match JpegParser::get_hash(before, algorithm) {
                Ok(d) => d,
                Err(e) => {
                    return Err(e);
                },
            };
            let da = match JpegParser::get_hash(after, algorithm) {
                Ok(d) => d,
                Err(e) => {
                    return Err(e);
                },
            };
            (db, da)
        },
        MediaFormat::Mp4 => {
            let db = match Mp4Parser::get_hash(before, algorithm) {
                Ok(d) => d,
                Err(e) => {
                    return Err(e);
                },
            };
            let da = match Mp4Parser::get_hash(after, algorithm) {
                Ok(d) => d,
                Err(e) => {
                    return Err(e);
                },
            };
            (db, da)
        },
    };
    if bytes_eq(&digest_before, &digest_after) {
        Ok(HashVerdict::Equal)
    } else {
        Ok(HashVerdict::Differ)
    }
}

} // verus!
