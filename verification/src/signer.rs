//! Content-hash operations around the signing workflow: whole-file
//! digests, the byte-exact provenance stripper for JPEG, and the
//! per-box digest comparison for MP4.

use vstd::prelude::*;

use crate::hashing::HashError;
use crate::hashing::sha256_digest;
use crate::hashing::sha256_of;
use crate::jpeg::has_soi;
use crate::jpeg::jpeg_strip;
use crate::jpeg::jpeg_strip_from;
use crate::jpeg::push_byte_range;
use crate::mp4::UUID_TYPE;
use crate::mp4::be32;
use crate::mp4::mp4_box_ok;
use crate::mp4::mp4_box_size;
use crate::mp4::mp4_header_len;
use crate::mp4::read_sized_box;

verus! {

/// The four ASCII bytes `c2pa` that open the extended type of a
/// provenance `uuid` box.
pub open spec fn c2pa_uuid_tag() -> Seq<u8> {
    seq![0x63u8, 0x32u8, 0x70u8, 0x61u8]
}

/// The type tag and whole-box digest of one box.
#[derive(Debug, Clone, PartialEq, Eq)]
pub struct BoxDigest {
    /// The four bytes of the box type.
    pub box_type: Vec<u8>,
    /// The digest of the whole box, header included.
    pub digest: Vec<u8>,
}

/// The type tags and digests of the top-level boxes of `data` from
/// `pos` on, each box digested whole (header and payload), except
/// `uuid` boxes whose 16-byte extended type opens with `c2pa`, which
/// are provenance containers and are skipped. A box that cannot be
/// read whole ends the walk.
pub open spec fn mp4_box_digests(data: Seq<u8>, pos: int) -> Seq<(Seq<u8>, Seq<u8>)>
    decreases data.len() - pos,
{
    let len = data.len() as int;
    if !mp4_box_ok(data, pos, len) {
        Seq::empty()
    } else {
        let header_len = mp4_header_len(data, pos);
        let box_size = mp4_box_size(data, pos, len);
        let rest = mp4_box_digests(data, pos + box_size);
        if be32(data, pos + 4) == UUID_TYPE && box_size - header_len >= 16 && data.subrange(
            pos + header_len,
            pos + header_len + 4,
        ) == c2pa_uuid_tag() {
            rest
        } else {
            seq![
                (data.subrange(pos + 4, pos + 8), sha256_of(data.subrange(pos, pos + box_size))),
            ] + rest
        }
    }
}

/// The list `r` carries exactly the type tags and digests `s` lists.
pub open spec fn box_digests_match(r: Seq<BoxDigest>, s: Seq<(Seq<u8>, Seq<u8>)>) -> bool {
    &&& r.len() == s.len()
    &&& forall|i: int|
        0 <= i < r.len() ==> #[trigger] r[i].box_type@ == s[i].0 && r[i].digest@ == s[i].1
}

/// Signs media files through the outside provenance library and
/// checks, by content hashing, that signing left the media data
/// unchanged.
#[derive(Debug, Default)]
pub struct C2paSigner {
    input_file_path: String,
    output_file_path: String,
}

impl View for C2paSigner {
    type V = (Seq<char>, Seq<char>);

    closed spec fn view(&self) -> (Seq<char>, Seq<char>) {
        (self.input_file_path@, self.output_file_path@)
    }
}

impl C2paSigner {
    pub fn new(cert_path: String, key_path: String) -> (s: Self)
        ensures
            s@ == (cert_path@, key_path@),
    {
        Self { input_file_path: cert_path, output_file_path: key_path }
    }

    /// The digest of all the bytes as they stand.
    pub fn sha256_all_bytes(data: &[u8]) -> (r: Vec<u8>)
        ensures
            r@ == sha256_of(data@),
            r@.len() == 32,
    {
        sha256_digest(data)
    }

    /// A `uuid` box's 16-byte extended type marks a provenance
    /// container when it opens with the four bytes `c2pa`.
    pub fn is_c2pa_uuid(uuid: &[u8]) -> (r: bool)
        requires
            uuid@.len() == 16,
        ensures
            r == (uuid@.subrange(0, 4) == c2pa_uuid_tag()),
    {
        let hit = uuid[0] == 0x63 && uuid[1] == 0x32 && uuid[2] == 0x70 && uuid[3] == 0x61;
        proof {
            let sub = uuid@.subrange(0, 4);
            assert(sub[0] == uuid@[0] && sub[1] == uuid@[1] && sub[2] == uuid@[2] && sub[3]
                == uuid@[3]);
            if hit {
                assert(sub =~= c2pa_uuid_tag());
            }
        }
        hit
    }

    /// Copies `data`, leaving out every APP11 segment whose payload
    /// opens with the tag `C2PA` (an embedded provenance record).
    /// Everything else, entropy-coded data and malformed tails
    /// included, is copied byte for byte. Fails exactly when the data
    /// does not begin with the start-of-image marker.
    pub fn extract_jpeg_without_c2pa(data: &[u8]) -> (r: Result<Vec<u8>, HashError>)
        ensures
            r is Ok <==> has_soi(data@),
            r matches Err(e) ==> e == HashError::Format,
            r matches Ok(out) ==> out@ == jpeg_strip(data@),
    {
        let len: usize = data.len();
        if len < 2 || data[0] != 0xff || data[1] != 0xd8 {
            return Err(HashError::Format);
        }
        let mut out: Vec<u8> = Vec::new();
        push_byte_range(&mut out, data, 0, 2);
        assert(out@ =~= data@.subrange(0, 2));
        let mut cursor: usize = 2;
        let mut done: bool = false;
        while !done
            invariant
                len == data@.len(),
                has_soi(data@),
                2 <= cursor <= len,
                done ==> cursor == len,
                out@ + jpeg_strip_from(data@, cursor as int) == jpeg_strip(data@),
            decreases len - cursor, (if done { 0int } else { 1int }),
        {
            let ghost prior = out@;
            if cursor >= len {
                done = true;
            } else if data[cursor] != 0xff {
                push_byte_range(&mut out, data, cursor, len);
                cursor = len;
                done = true;
            } else if cursor + 1 == len {
                push_byte_range(&mut out, data, cursor, len);
                cursor = len;
                done = true;
            } else {
                let m = data[cursor + 1];
                if m == 0xd9 || (0xd0 <= m && m <= 0xd7) {
                    out.push(0xff);
                    out.push(m);
                    assert(out@ =~= prior + seq![0xffu8, m]);
                    cursor = cursor + 2;
                } else if len - (cursor + 1) < 3 {
                    assert(cursor + 4 > len);
                    push_byte_range(&mut out, data, cursor, len);
                    cursor = len;
                    done = true;
                } else {
                    let l: usize = (data[cursor + 2] as usize) * 256 + (data[cursor + 3] as usize);
                    if l > len - (cursor + 2) {
                        push_byte_range(&mut out, data, cursor, len);
                        cursor = len;
                        done = true;
                    } else {
                        let tagged = m == 0xeb && l >= 6 && data[cursor + 4] == 0x43 && data[cursor
                            + 5] == 0x32 && data[cursor + 6] == 0x50 && data[cursor + 7] == 0x41;
                        proof {
                            let c = cursor as int;
                            if m == 0xeb && l >= 6 {
                                let sub = data@.subrange(c + 4, c + 8);
                                assert(sub[0] == data@[c + 4] && sub[1] == data@[c + 5] && sub[2]
                                    == data@[c + 6] && sub[3] == data@[c + 7]);
                                if data@[c + 4] == 0x43 && data@[c + 5] == 0x32 && data@[c + 6]
                                    == 0x50 && data@[c + 7] == 0x41 {
                                    assert(sub =~= crate::jpeg::c2pa_tag());
                                }
                            }
                        }
                        if tagged {
                            cursor = cursor + 2 + l;
                        } else {
                            push_byte_range(&mut out, data, cursor, cursor + 2 + l);
                            cursor = cursor + 2 + l;
                        }
                    }
                }
            }
        }
        proof {
            assert(jpeg_strip_from(data@, cursor as int) =~= Seq::<u8>::empty());
            assert(out@ + jpeg_strip_from(data@, cursor as int) =~= out@);
        }
        Ok(out)
    }

    /// Strips provenance from a signed JPEG and digests both forms:
    /// the digest of the signed bytes, then of the stripped bytes.
    pub fn comp_hash_jpeg(&self, signed: &[u8]) -> (r: Result<(Vec<u8>, Vec<u8>), HashError>)
        ensures
            r is Ok <==> has_soi(signed@),
            r matches Err(e) ==> e == HashError::Format,
            r matches Ok(pair) ==> pair.0@ == sha256_of(signed@) && pair.1@ == sha256_of(
                jpeg_strip(signed@),
            ),
    {
        match Self::extract_jpeg_without_c2pa(signed) {
            Err(e) => Err(e),
            Ok(stripped) => {
                let h1 = Self::sha256_all_bytes(signed);
                let h2 = Self::sha256_all_bytes(stripped.as_slice());
                Ok((h1, h2))
            },
        }
    }

    /// Digests each top-level box of an MP4 on its own, skipping
    /// provenance `uuid` boxes, and returns the type tags and digests
    /// in file order.
    pub fn hash_mp4_boxes(data: &[u8]) -> (r: Vec<BoxDigest>)
        ensures
            box_digests_match(r@, mp4_box_digests(data@, 0)),
    {
        let len: usize = data.len();
        let mut out: Vec<BoxDigest> = Vec::new();
        let mut pos: usize = 0;
        let mut done: bool = false;
        let ghost mut prefix: Seq<(Seq<u8>, Seq<u8>)> = Seq::empty();
        proof {
            assert(box_digests_match(out@, prefix));
            assert(prefix + mp4_box_digests(data@, 0) =~= mp4_box_digests(data@, 0));
        }
        while !done
            invariant
                len == data@.len(),
                0 <= pos <= len,
                done ==> !mp4_box_ok(data@, pos as int, len as int),
                box_digests_match(out@, prefix),
                prefix + mp4_box_digests(data@, pos as int) == mp4_box_digests(data@, 0),
            decreases len - pos, (if done { 0int } else { 1int }),
        {
            let sized = read_sized_box(data, pos, len);
            match sized {
                None => {
                    done = true;
                },
                Some((header_len, box_size, typ)) => {
                    assert(mp4_box_ok(data@, pos as int, len as int));
                    let content_start: usize = pos + header_len as usize;
                    let box_end: usize = pos + box_size as usize;
                    let skip = typ == UUID_TYPE && box_size - header_len >= 16 && Self::is_c2pa_uuid(
                        &data[content_start..content_start + 16],
                    );
                    proof {
                        if typ == UUID_TYPE && box_size - header_len >= 16 {
                            let p = pos as int;
                            let hl = header_len as int;
                            let sub16 = data@.subrange(p + hl, p + hl + 16);
                            let sub4 = data@.subrange(p + hl, p + hl + 4);
                            assert(sub16.subrange(0, 4) =~= sub4);
                        }
                    }
                    let ghost rest = mp4_box_digests(data@, box_end as int);
                    let ghost here: Seq<(Seq<u8>, Seq<u8>)> = if skip {
                        Seq::empty()
                    } else {
                        seq![
                            (
                                data@.subrange(pos + 4, pos + 8),
                                sha256_of(data@.subrange(pos as int, box_end as int)),
                            ),
                        ]
                    };
                    proof {
                        assert(mp4_box_digests(data@, pos as int) == here + rest);
                    }
                    if !skip {
                        let mut type_bytes: Vec<u8> = Vec::new();
                        push_byte_range(&mut type_bytes, data, pos + 4, pos + 8);
                        assert(type_bytes@ =~= data@.subrange(pos + 4, pos + 8));
                        let digest = sha256_digest(&data[pos..box_end]);
                        let ghost tb = type_bytes@;
                        let ghost dg = digest@;
                        let ghost prior = out@;
                        out.push(BoxDigest { box_type: type_bytes, digest });
                        proof {
                            let p0 = prefix;
                            prefix = p0 + here;
                            assert(out@[out@.len() - 1].box_type@ == tb);
                            assert(out@[out@.len() - 1].digest@ == dg);
                            assert forall|i: int| 0 <= i < out@.len() implies #[trigger] out@[i].box_type@
                                == prefix[i].0 && out@[i].digest@ == prefix[i].1 by {
                                if i < prior.len() {
                                    assert(out@[i] == prior[i]);
                                    assert(prefix[i] == p0[i]);
                                } else {
                                    assert(prefix[i] == here[0]);
                                }
                            }
                            assert(box_digests_match(out@, prefix));
                        }
                    } else {
                        proof {
                            let p0 = prefix;
                            prefix = p0 + here;
                            assert(prefix =~= p0);
                            assert(box_digests_match(out@, prefix));
                        }
                    }
                    proof {
                        assert((prefix + rest) =~= mp4_box_digests(data@, 0));
                    }
                    pos = box_end;
                },
            }
        }
        proof {
            assert(mp4_box_digests(data@, pos as int) =~= Seq::<(Seq<u8>, Seq<u8>)>::empty());
            assert(prefix =~= prefix + mp4_box_digests(data@, pos as int));
            assert(prefix =~= mp4_box_digests(data@, 0));
        }
        out
    }

    /// Digests the top-level boxes of a signed MP4 and of the original
    /// file, for a box-by-box comparison: the signed file's list, then
    /// the original's.
    pub fn comp_hash_mp4(&self, signed: &[u8], origin: &[u8]) -> (r: (Vec<BoxDigest>, Vec<
        BoxDigest,
    >))
        ensures
            box_digests_match(r.0@, mp4_box_digests(signed@, 0)),
            box_digests_match(r.1@, mp4_box_digests(origin@, 0)),
    {
        let signed_hash = Self::hash_mp4_boxes(signed);
        let origin_hash = Self::hash_mp4_boxes(origin);
        (signed_hash, origin_hash)
    }
}

} // verus!
