//! Walking the box tree of an ISOBMFF (MP4-family) byte stream.
//!
//! Boxes carry a 32-bit size that may be replaced by a 64-bit size, or
//! be zero for a box running to the end of the bounding range. The
//! walker recurses into `moov`, emits the contents of `ftyp` and `mdat`
//! as hashable ranges, and skips everything else.

use vstd::prelude::*;

use crate::hashing::HashError;
use crate::hashing::hash_bytes_by_alg;
use crate::hashing::included_bytes;
use crate::hashing::ranges_in_bounds;
use crate::hashing::sha256_of;
use crate::ranges::HashRange;

verus! {

/// The big-endian 32-bit value at `pos`.
pub open spec fn be32(data: Seq<u8>, pos: int) -> int {
    ((data[pos] * 0x100 + data[pos + 1]) * 0x100 + data[pos + 2]) * 0x100 + data[pos + 3]
}

/// The big-endian 64-bit value at `pos`.
pub open spec fn be64(data: Seq<u8>, pos: int) -> int {
    be32(data, pos) * 0x100000000 + be32(data, pos + 4)
}

/// Box type tags, as big-endian 32-bit values of their ASCII names.
pub const MOOV_TYPE: u32 = 0x6d6f6f76;

pub const FTYP_TYPE: u32 = 0x66747970;

pub const MDAT_TYPE: u32 = 0x6d646174;

pub const UUID_TYPE: u32 = 0x75756964;

/// The length of the box header at `pos`: 8 bytes, or 16 when the
/// 32-bit size field is 1 and a 64-bit size follows.
pub open spec fn mp4_header_len(data: Seq<u8>, pos: int) -> int {
    if be32(data, pos) == 1 {
        16
    } else {
        8
    }
}

/// The size of the whole box at `pos`, bounded by `end`: the 32-bit
/// size field; or the 64-bit size when the field is 1 (0 when that
/// does not fit or is undersized); or the rest of the bounding range
/// when the field is 0.
pub open spec fn mp4_box_size(data: Seq<u8>, pos: int, end: int) -> int {
    let size32 = be32(data, pos);
    if size32 == 1 {
        if pos + 16 <= end && be64(data, pos + 8) >= 16 {
            be64(data, pos + 8)
        } else {
            0
        }
    } else if size32 == 0 {
        end - pos
    } else {
        size32
    }
}

/// A whole box can be read at `pos`: the header fits in the bounding
/// range and the box size holds the header and stays within the range.
pub open spec fn mp4_box_ok(data: Seq<u8>, pos: int, end: int) -> bool {
    &&& 0 <= pos
    &&& pos + 8 <= end
    &&& end <= data.len()
    &&& mp4_box_size(data, pos, end) >= mp4_header_len(data, pos)
    &&& pos + mp4_box_size(data, pos, end) <= end
}

/// The hashable ranges of the boxes in `data[pos..end)`.
///
/// The contents of a `moov` box are walked recursively; the contents
/// of `ftyp` and `mdat` are emitted as ranges; other boxes are
/// skipped. A header that does not fit, a size smaller than the
/// header, or a box reaching past the bounding range ends the walk
/// (best effort on malformed data).
pub open spec fn mp4_ranges(data: Seq<u8>, pos: int, end: int) -> Seq<HashRange>
    decreases end - pos,
{
    if !mp4_box_ok(data, pos, end) {
        Seq::empty()
    } else {
        let header_len = mp4_header_len(data, pos);
        let box_size = mp4_box_size(data, pos, end);
        let typ = be32(data, pos + 4);
        let here: Seq<HashRange> = if typ == MOOV_TYPE {
            mp4_ranges(data, pos + header_len, pos + box_size)
        } else if (typ == FTYP_TYPE || typ == MDAT_TYPE) && box_size > header_len {
            seq![
                HashRange {
                    offset: (pos + header_len) as u64,
                    length: (box_size - header_len) as u64,
                },
            ]
        } else {
            Seq::empty()
        };
        here + mp4_ranges(data, pos + box_size, end)
    }
}

/// Every range the walk of `data[pos..end)` emits lies within
/// `[pos, end)`: the recursion never reaches outside the bounding
/// range of the box it was given. The ranges form a well-formed set:
/// non-empty, pairwise disjoint, in increasing offset order.
pub proof fn lemma_mp4_ranges_in_parent(data: Seq<u8>, pos: int, end: int)
    requires
        0 <= pos,
        end <= u64::MAX,
    ensures
        forall|i: int|
            0 <= i < mp4_ranges(data, pos, end).len() ==> pos
                <= #[trigger] mp4_ranges(data, pos, end)[i].offset && mp4_ranges(
                data,
                pos,
                end,
            )[i].offset + mp4_ranges(data, pos, end)[i].length <= end,
        crate::ranges::ranges_wf(mp4_ranges(data, pos, end)),
    decreases end - pos,
{
    let rs = mp4_ranges(data, pos, end);
    if mp4_box_ok(data, pos, end) {
        let header_len = mp4_header_len(data, pos);
        let box_size = mp4_box_size(data, pos, end);
        let typ = be32(data, pos + 4);
        lemma_mp4_ranges_in_parent(data, pos + header_len, pos + box_size);
        lemma_mp4_ranges_in_parent(data, pos + box_size, end);
        let front: Seq<HashRange> = if typ == MOOV_TYPE {
            mp4_ranges(data, pos + header_len, pos + box_size)
        } else if (typ == FTYP_TYPE || typ == MDAT_TYPE) && box_size > header_len {
            seq![
                HashRange {
                    offset: (pos + header_len) as u64,
                    length: (box_size - header_len) as u64,
                },
            ]
        } else {
            Seq::empty()
        };
        let back = mp4_ranges(data, pos + box_size, end);
        assert(rs == front + back);
        assert forall|i: int| 0 <= i < rs.len() implies pos <= #[trigger] rs[i].offset && rs[i].offset
            + rs[i].length <= end by {
            if i < front.len() {
                assert(rs[i] == front[i]);
            } else {
                let j = i - front.len();
                assert(rs[j + front.len()] == back[j]);
                assert(rs[i] == back[j]);
            }
        }
        assert forall|i: int| 0 <= i < rs.len() implies #[trigger] rs[i].length > 0 by {
            if i < front.len() {
                assert(rs[i] == front[i]);
            } else {
                let j = i - front.len();
                assert(rs[j + front.len()] == back[j]);
            }
        }
        assert forall|i: int, j: int| 0 <= i < j < rs.len() implies #[trigger] rs[i].spec_end()
            <= #[trigger] rs[j].offset as int by {
            if j < front.len() {
                assert(rs[i] == front[i]);
                assert(rs[j] == front[j]);
                assert(front[i].spec_end() <= front[j].offset as int);
            } else if i >= front.len() {
                let i2 = i - front.len();
                let j2 = j - front.len();
                assert(rs[i2 + front.len()] == back[i2]);
                assert(rs[j2 + front.len()] == back[j2]);
                assert(back[i2].spec_end() <= back[j2].offset as int);
            } else {
                let j2 = j - front.len();
                assert(rs[i] == front[i]);
                assert(rs[j2 + front.len()] == back[j2]);
                assert(front[i].spec_end() <= pos + box_size);
                assert(pos + box_size <= back[j2].offset as int);
            }
        }
    }
}

/// The sizes of the top-level boxes of `data[pos..end)`, in order, as
/// the walk computes them.
pub open spec fn mp4_box_sizes(data: Seq<u8>, pos: int, end: int) -> Seq<int>
    decreases end - pos,
{
    if !mp4_box_ok(data, pos, end) {
        Seq::empty()
    } else {
        seq![mp4_box_size(data, pos, end)] + mp4_box_sizes(
            data,
            pos + mp4_box_size(data, pos, end),
            end,
        )
    }
}

/// The position where the top-level walk of `data[pos..end)` stops:
/// after the last whole box it could read.
pub open spec fn mp4_consumed(data: Seq<u8>, pos: int, end: int) -> int
    decreases end - pos,
{
    if !mp4_box_ok(data, pos, end) {
        pos
    } else {
        mp4_consumed(data, pos + mp4_box_size(data, pos, end), end)
    }
}

/// A well-formed MP4: the top-level boxes consume the file exactly.
pub open spec fn mp4_well_formed(data: Seq<u8>) -> bool {
    mp4_consumed(data, 0, data.len() as int) == data.len()
}

/// The sum of a sequence of integers.
pub open spec fn sum_of(s: Seq<int>) -> int
    decreases s.len(),
{
    if s.len() == 0 {
        0
    } else {
        s[0] + sum_of(s.drop_first())
    }
}

/// The walk stops exactly the sum of the box sizes past where it
/// started.
proof fn lemma_mp4_sizes_telescope(data: Seq<u8>, pos: int, end: int)
    ensures
        mp4_consumed(data, pos, end) == pos + sum_of(mp4_box_sizes(data, pos, end)),
    decreases end - pos,
{
    if !mp4_box_ok(data, pos, end) {
        assert(mp4_box_sizes(data, pos, end) =~= Seq::<int>::empty());
    } else {
        let box_size = mp4_box_size(data, pos, end);
        lemma_mp4_sizes_telescope(data, pos + box_size, end);
        let sizes = mp4_box_sizes(data, pos, end);
        assert(sizes.drop_first() =~= mp4_box_sizes(data, pos + box_size, end));
        assert(sizes[0] == box_size);
    }
}

/// For a well-formed file the sum of the top-level box sizes equals
/// the file length.
pub proof fn lemma_mp4_wf_sizes_sum(data: Seq<u8>)
    requires
        mp4_well_formed(data),
    ensures
        sum_of(mp4_box_sizes(data, 0, data.len() as int)) == data.len(),
{
    lemma_mp4_sizes_telescope(data, 0, data.len() as int);
}

/// The walker reads nothing outside `[low, end)`: on data that agrees
/// there it produces the same ranges.
proof fn lemma_mp4_ranges_local(d1: Seq<u8>, d2: Seq<u8>, low: int, pos: int, end: int)
    requires
        0 <= low <= pos,
        end <= d1.len(),
        end <= d2.len(),
        forall|i: int| low <= i < end ==> d1[i] == #[trigger] d2[i],
    ensures
        mp4_ranges(d2, pos, end) == mp4_ranges(d1, pos, end),
    decreases end - pos,
{
    if mp4_box_ok(d1, pos, end) || mp4_box_ok(d2, pos, end) {
        assert(be32(d1, pos) == be32(d2, pos));
        assert(be32(d1, pos + 4) == be32(d2, pos + 4));
        if pos + 16 <= end {
            assert(be64(d1, pos + 8) == be64(d2, pos + 8));
        }
        assert(mp4_box_size(d1, pos, end) == mp4_box_size(d2, pos, end));
        assert(mp4_box_ok(d1, pos, end) == mp4_box_ok(d2, pos, end));
        let header_len = mp4_header_len(d1, pos);
        let box_size = mp4_box_size(d1, pos, end);
        lemma_mp4_ranges_local(d1, d2, low, pos + header_len, pos + box_size);
        lemma_mp4_ranges_local(d1, d2, low, pos + box_size, end);
    }
}

/// No top-level box of `data[pos..end)` uses the to-end-of-range size.
pub open spec fn mp4_no_size_zero(data: Seq<u8>, pos: int, end: int) -> bool
    decreases end - pos,
{
    if !mp4_box_ok(data, pos, end) {
        true
    } else {
        be32(data, pos) != 0 && mp4_no_size_zero(data, pos + mp4_box_size(data, pos, end), end)
    }
}

/// Appending one whole box of a type the walker skips, to a file whose
/// top-level boxes consume it exactly and carry explicit sizes, does
/// not change the emitted ranges.
proof fn lemma_mp4_append_ranges(before: Seq<u8>, ubox: Seq<u8>, pos: int)
    requires
        0 <= pos <= before.len(),
        mp4_consumed(before, pos, before.len() as int) == before.len(),
        mp4_no_size_zero(before, pos, before.len() as int),
        ubox.len() >= 8,
        be32(ubox, 0) == ubox.len(),
        be32(ubox, 4) == UUID_TYPE,
    ensures
        mp4_ranges(before + ubox, pos, (before + ubox).len() as int) == mp4_ranges(
            before,
            pos,
            before.len() as int,
        ),
    decreases before.len() - pos,
{
    let after = before + ubox;
    let len1 = before.len() as int;
    let len2 = after.len() as int;
    let k = ubox.len() as int;
    assert(forall|i: int| 0 <= i < len1 ==> after[i] == #[trigger] before[i]);
    assert forall|i: int| 0 <= i < k implies after[len1 + i] == #[trigger] ubox[i] by {}
    if !mp4_box_ok(before, pos, len1) {
        assert(mp4_consumed(before, pos, len1) == pos);
        assert(pos == len1);
        // The appended box is read, skipped whole, and the walk ends.
        assert(be32(after, len1) == be32(ubox, 0));
        assert(be32(after, len1 + 4) == be32(ubox, 4));
        assert(mp4_box_size(after, len1, len2) == k);
        assert(mp4_header_len(after, len1) == 8);
        assert(mp4_box_ok(after, len1, len2));
        assert(!mp4_box_ok(after, len2, len2));
        assert(mp4_ranges(after, len2, len2) =~= Seq::<HashRange>::empty());
        assert(mp4_ranges(after, len1, len2) =~= Seq::<HashRange>::empty());
        assert(mp4_ranges(before, pos, len1) =~= Seq::<HashRange>::empty());
    } else {
        assert(be32(after, pos) == be32(before, pos));
        assert(be32(after, pos + 4) == be32(before, pos + 4));
        let size32 = be32(before, pos);
        assert(size32 != 0);
        if size32 == 1 {
            assert(pos + 16 <= len1 && be64(before, pos + 8) >= 16);
            assert(be64(after, pos + 8) == be64(before, pos + 8));
        }
        let header_len = mp4_header_len(before, pos);
        let box_size = mp4_box_size(before, pos, len1);
        assert(mp4_box_size(after, pos, len2) == box_size);
        assert(mp4_box_ok(after, pos, len2));
        let typ = be32(before, pos + 4);
        if typ == MOOV_TYPE {
            lemma_mp4_ranges_local(before, after, pos + header_len, pos + header_len, pos
                + box_size);
        }
        lemma_mp4_append_ranges(before, ubox, pos + box_size);
    }
}

/// The bytes two files share select the same contents for ranges that
/// stay within the shared prefix.
proof fn lemma_included_bytes_agree(d1: Seq<u8>, d2: Seq<u8>, bound: int, rs: Seq<HashRange>)
    requires
        bound <= d1.len(),
        bound <= d2.len(),
        forall|i: int| 0 <= i < bound ==> d1[i] == #[trigger] d2[i],
        crate::hashing::ranges_in_bounds(rs, bound),
    ensures
        included_bytes(d2, rs) == included_bytes(d1, rs),
    decreases rs.len(),
{
    if rs.len() == 0 {
    } else {
        assert(rs[0].offset + rs[0].length <= bound);
        assert forall|j: int| 0 <= j < rs.drop_first().len() implies #[trigger] rs.drop_first()[j].offset
            + rs.drop_first()[j].length <= bound by {
            assert(rs.drop_first()[j] == rs[j + 1]);
        }
        lemma_included_bytes_agree(d1, d2, bound, rs.drop_first());
        assert(d2.subrange(rs[0].offset as int, rs[0].spec_end()) =~= d1.subrange(
            rs[0].offset as int,
            rs[0].spec_end(),
        ));
    }
}

/// Appending one provenance `uuid` box to a well-formed MP4 whose
/// top-level boxes carry explicit sizes leaves the walker's selected
/// bytes unchanged: the box is skipped whole, so the content digest of
/// the file does not move.
pub proof fn lemma_append_uuid_box_keeps_selection(before: Seq<u8>, ubox: Seq<u8>)
    requires
        mp4_well_formed(before),
        mp4_no_size_zero(before, 0, before.len() as int),
        before.len() + ubox.len() <= u64::MAX,
        ubox.len() >= 8,
        be32(ubox, 0) == ubox.len(),
        be32(ubox, 4) == UUID_TYPE,
    ensures
        ({
            let after = before + ubox;
            included_bytes(after, mp4_ranges(after, 0, after.len() as int)) == included_bytes(
                before,
                mp4_ranges(before, 0, before.len() as int),
            )
        }),
{
    let after = before + ubox;
    let len1 = before.len() as int;
    lemma_mp4_append_ranges(before, ubox, 0);
    lemma_mp4_ranges_in_parent(before, 0, len1);
    assert(crate::hashing::ranges_in_bounds(mp4_ranges(before, 0, len1), len1));
    assert(forall|i: int| 0 <= i < len1 ==> before[i] == #[trigger] after[i]);
    lemma_included_bytes_agree(before, after, len1, mp4_ranges(before, 0, len1));
}

/// Relies on mp4's `BoxHeader::read`: from the window `data[pos..end]`
/// it reads a big-endian 32-bit size and type; a size of 1 is replaced
/// by the following 64-bit size less 8 (64-bit sizes of 1 through 15
/// are rejected); a window too short for the header fails.
#[verifier::external_body]
fn read_box_header(data: &[u8], pos: usize, end: usize) -> (r: Option<(u64, u32)>)
    requires
        pos <= end <= data@.len(),
    ensures
        ({
            let avail = end - pos;
            if avail < 8 {
                r is None
            } else if be32(data@, pos as int) == 1 {
                if avail < 16 {
                    r is None
                } else {
                    let ls = be64(data@, pos + 8);
                    if ls == 0 {
                        r == Some((0u64, be32(data@, pos + 4) as u32))
                    } else if ls < 16 {
                        r is None
                    } else {
                        r == Some(((ls - 8) as u64, be32(data@, pos + 4) as u32))
                    }
                }
            } else {
                r == Some((be32(data@, pos as int) as u64, be32(data@, pos + 4) as u32))
            }
        }),
{
    let mut cursor = std::io::Cursor::new(&data[pos..end]);
    match mp4::BoxHeader::read(&mut cursor) {
        Ok(header) => Some((header.size, u32::from(header.name))),
        Err(_) => None,
    }
}

/// The bytes at `pos` hold the given big-endian 32-bit value.
fn be32_is(data: &[u8], pos: usize, value: u32) -> (r: bool)
    requires
        pos + 4 <= data@.len(),
    ensures
        r == (be32(data@, pos as int) == value),
{
    let v: u32 = ((data[pos] as u32) << 24) | ((data[pos + 1] as u32) << 16) | ((data[pos + 2]
        as u32) << 8) | (data[pos + 3] as u32);
    proof {
        let a = data@[pos as int];
        let b = data@[pos + 1];
        let c = data@[pos + 2];
        let d = data@[pos + 3];
        assert(((a as u32) << 24) | ((b as u32) << 16) | ((c as u32) << 8) | (d as u32) == ((a
            * 0x100 + b) * 0x100 + c) * 0x100 + d) by (bit_vector);
    }
    v == value
}

/// Reads the header of the box at `pos` and sizes the box against the
/// bounding range: header length, whole box size, and type tag.
/// Fails exactly when no whole box can be read there.
pub(crate) fn read_sized_box(data: &[u8], pos: usize, end: usize) -> (r: Option<(u64, u64, u32)>)
    requires
        pos <= end <= data@.len(),
    ensures
        r is Some <==> mp4_box_ok(data@, pos as int, end as int),
        r matches Some((header_len, box_size, typ)) ==> header_len == mp4_header_len(
            data@,
            pos as int,
        ) && box_size == mp4_box_size(data@, pos as int, end as int) && typ == be32(
            data@,
            pos + 4,
        ),
{
    if end - pos < 8 {
        return None;
    }
    let header = read_box_header(data, pos, end);
    let (hsize, typ) = match header {
        Some(h) => h,
        None => {
            return None;
        },
    };
    let size32_is_one = be32_is(data, pos, 1);
    let size32_is_zero = be32_is(data, pos, 0);
    let header_len: u64 = if size32_is_one {
        16
    } else {
        8
    };
    let box_size: u64 = if size32_is_one {
        if hsize == 0 {
            assert(mp4_box_size(data@, pos as int, end as int) == 0);
            return None;
        }
        hsize + 8
    } else if size32_is_zero {
        (end - pos) as u64
    } else {
        hsize
    };
    assert(box_size == mp4_box_size(data@, pos as int, end as int));
    assert(header_len == mp4_header_len(data@, pos as int));
    if box_size < header_len || box_size > (end - pos) as u64 {
        return None;
    }
    Some((header_len, box_size, typ))
}

/// Walks MP4 box structure and hashes the emitted ranges.
pub struct Mp4Parser;

impl Mp4Parser {
    /// Walks the boxes of `data[read_position..read_position + read_size)`
    /// and returns the hashable content ranges, in increasing offset
    /// order, never reaching outside the given bounds.
    #[verifier::rlimit(100)]
    #[verifier::loop_isolation(false)]
    pub fn parse_boxes(data: &[u8], read_position: u64, read_size: u64) -> (r: Vec<HashRange>)
        requires
            read_position + read_size <= data@.len(),
        ensures
            r@ == mp4_ranges(data@, read_position as int, read_position + read_size),
        decreases read_size,
    {
        let dlen: usize = data.len();
        let start: usize = read_position as usize;
        let end: usize = start + read_size as usize;
        let mut out: Vec<HashRange> = Vec::new();
        let mut pos: usize = start;
        let mut done: bool = false;
        while !done
            invariant
                end == read_position + read_size,
                end <= dlen == data@.len(),
                start <= pos <= end,
                done ==> !mp4_box_ok(data@, pos as int, end as int),
                out@ + mp4_ranges(data@, pos as int, end as int) == mp4_ranges(
                    data@,
                    start as int,
                    end as int,
                ),
            decreases end - pos, (if done { 0int } else { 1int }),
        {
            let sized = read_sized_box(data, pos, end);
            match sized {
                None => {
                    done = true;
                },
                Some((header_len, box_size, typ)) => {
                    assert(mp4_box_ok(data@, pos as int, end as int));
                    let content_start: usize = pos + header_len as usize;
                    let content_end: usize = pos + box_size as usize;
                    let ghost prior = out@;
                    let ghost here: Seq<HashRange> = if typ == MOOV_TYPE {
                        mp4_ranges(data@, content_start as int, content_end as int)
                    } else if (typ == FTYP_TYPE || typ == MDAT_TYPE) && box_size > header_len {
                        seq![
                            HashRange {
                                offset: content_start as u64,
                                length: (box_size - header_len) as u64,
                            },
                        ]
                    } else {
                        Seq::empty()
                    };
                    proof {
                        let rest = mp4_ranges(data@, content_end as int, end as int);
                        assert(mp4_ranges(data@, pos as int, end as int) == here + rest);
                    }
                    if typ == MOOV_TYPE {
                        let mut inner = Self::parse_boxes(
                            data,
                            content_start as u64,
                            box_size - header_len,
                        );
                        out.append(&mut inner);
                    } else if (typ == FTYP_TYPE || typ == MDAT_TYPE) && box_size > header_len {
                        out.push(HashRange::new(content_start as u64, box_size - header_len));
                        assert(out@ =~= prior + here);
                    } else {
                        assert(out@ =~= prior + here);
                    }
                    proof {
                        let rest = mp4_ranges(data@, content_end as int, end as int);
                        assert(out@ == prior + here);
                        assert((prior + here) + rest =~= prior + (here + rest));
                        assert(here + rest == mp4_ranges(data@, pos as int, end as int));
                    }
                    pos = content_end;
                },
            }
        }
        proof {
            assert(mp4_ranges(data@, pos as int, end as int) =~= Seq::<HashRange>::empty());
            assert(out@ =~= out@ + mp4_ranges(data@, pos as int, end as int));
        }
        out
    }

    /// Walks the whole of `data` and returns the hashable ranges, a
    /// well-formed set in increasing offset order.
    pub fn get_hash_range(data: &[u8]) -> (r: Vec<HashRange>)
        ensures
            r@ == mp4_ranges(data@, 0, data@.len() as int),
            crate::ranges::ranges_wf(r@),
    {
        let len: usize = data.len();
        proof {
            lemma_mp4_ranges_in_parent(data@, 0, len as int);
        }
        Self::parse_boxes(data, 0, len as u64)
    }

    /// Walks the boxes of `data` and digests the hashable ranges with
    /// the named algorithm.
    pub fn get_hash(data: &[u8], algorithm: &str) -> (r: Result<Vec<u8>, HashError>)
        ensures
            r is Ok <==> algorithm@ == "sha256"@,
            r == Err::<Vec<u8>, HashError>(HashError::UnsupportedAlgorithm) <==> algorithm@
                != "sha256"@,
            r matches Ok(d) ==> d@ == sha256_of(
                included_bytes(data@, mp4_ranges(data@, 0, data@.len() as int)),
            ),
    {
        let hash_ranges = Self::get_hash_range(data);
        let len: usize = data.len();
        proof {
            lemma_mp4_ranges_in_parent(data@, 0, len as int);
            assert(ranges_in_bounds(hash_ranges@, len as int));
        }
        hash_bytes_by_alg(algorithm, data, Some(&hash_ranges), false)
    }
}

} // verus!
