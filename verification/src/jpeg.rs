//! Walking the marker-delimited structure of a JPEG byte stream.
//!
//! The walker classifies each segment as hashable or excluded (APP11
//! segments carry provenance records and are excluded), and emits the
//! hashable byte ranges. A separate byte-exact transform removes
//! provenance segments from a JPEG.

use vstd::prelude::*;

use crate::hashing::HashError;
use crate::hashing::hash_bytes_by_alg;
use crate::hashing::included_bytes;
use crate::hashing::ranges_in_bounds;
use crate::hashing::sha256_of;
use crate::ranges::HashRange;

verus! {

/// The big-endian 16-bit value at `pos`.
pub open spec fn be16(data: Seq<u8>, pos: int) -> int {
    data[pos] * 256 + data[pos + 1]
}

/// The data begins with the JPEG start-of-image marker.
pub open spec fn has_soi(data: Seq<u8>) -> bool {
    data.len() >= 2 && data[0] == 0xff && data[1] == 0xd8
}

/// A marker that stands alone, with no length field or payload:
/// a restart marker or end-of-image.
pub open spec fn is_standalone_marker(m: u8) -> bool {
    m == 0xd9 || (0xd0 <= m <= 0xd7)
}

/// One span of the file as the walker classifies it: hashable
/// (`excluded` false) or an excluded provenance segment.
pub struct JpegSpan {
    pub lo: int,
    pub hi: int,
    pub excluded: bool,
}

/// The spans the walker produces, scanning from byte `pos` with a
/// hashable span pending since byte `pending`.
///
/// The scan looks for `0xff`; `0xff 0x00` is an escape and standalone
/// markers leave the pending span unaffected. A segment with a length
/// field folds into the pending span unless its marker is APP11
/// (`0xeb`), which closes the pending span, adds the whole segment as
/// an excluded span, and starts a new pending span after it. At
/// start-of-scan (`0xda`) the rest of the file is entropy-coded data
/// and the pending span runs to the end; a truncated or undersized
/// length field ends the walk the same way.
pub open spec fn jpeg_scan(data: Seq<u8>, pos: int, pending: int) -> Seq<JpegSpan>
    decreases data.len() - pos,
{
    let len = data.len() as int;
    if !(0 <= pos < len) {
        seq![JpegSpan { lo: pending, hi: len, excluded: false }]
    } else if data[pos] != 0xff {
        jpeg_scan(data, pos + 1, pending)
    } else if pos + 1 >= len {
        seq![JpegSpan { lo: pending, hi: len, excluded: false }]
    } else {
        let m = data[pos + 1];
        if m == 0x00 || is_standalone_marker(m) {
            jpeg_scan(data, pos + 2, pending)
        } else if m == 0xda {
            seq![JpegSpan { lo: pending, hi: len, excluded: false }]
        } else if pos + 4 > len {
            seq![JpegSpan { lo: pending, hi: len, excluded: false }]
        } else {
            let l: int = be16(data, pos + 2);
            if l < 2 {
                seq![JpegSpan { lo: pending, hi: len, excluded: false }]
            } else {
                let seg_end: int = if pos + 2 + l <= len {
                    pos + 2 + l
                } else {
                    len
                };
                if m == 0xeb {
                    seq![
                        JpegSpan { lo: pending, hi: pos, excluded: false },
                        JpegSpan { lo: pos, hi: seg_end, excluded: true },
                    ] + jpeg_scan(data, seg_end, seg_end)
                } else {
                    jpeg_scan(data, seg_end, pending)
                }
            }
        }
    }
}

/// The spans partition `[lo, hi)`: the first starts at `lo`, each next
/// span starts where the previous one ends, and the last ends at `hi`,
/// so together they cover `[lo, hi)` with no gap and no overlap.
pub open spec fn spans_tile(spans: Seq<JpegSpan>, lo: int, hi: int) -> bool {
    &&& spans.len() > 0
    &&& spans[0].lo == lo
    &&& spans[spans.len() - 1].hi == hi
    &&& forall|i: int| 0 <= i < spans.len() ==> #[trigger] spans[i].lo <= spans[i].hi
    &&& forall|i: int| 0 <= i < spans.len() - 1 ==> #[trigger] spans[i + 1].lo == spans[i].hi
    &&& forall|i: int| 0 <= i < spans.len() ==> lo <= #[trigger] spans[i].lo && spans[i].hi <= hi
}

/// The hash ranges of a span list: each non-empty hashable span as a
/// range, in order; excluded and empty spans contribute nothing.
pub open spec fn span_ranges(spans: Seq<JpegSpan>) -> Seq<HashRange>
    decreases spans.len(),
{
    if spans.len() == 0 {
        Seq::empty()
    } else {
        let head: Seq<HashRange> = if !spans[0].excluded && spans[0].lo < spans[0].hi {
            seq![
                HashRange {
                    offset: spans[0].lo as u64,
                    length: (spans[0].hi - spans[0].lo) as u64,
                },
            ]
        } else {
            Seq::empty()
        };
        head + span_ranges(spans.drop_first())
    }
}

/// `span_ranges` distributes over concatenation.
proof fn lemma_span_ranges_concat(a: Seq<JpegSpan>, b: Seq<JpegSpan>)
    ensures
        span_ranges(a + b) == span_ranges(a) + span_ranges(b),
    decreases a.len(),
{
    if a.len() == 0 {
        assert(a + b =~= b);
        assert(span_ranges(a) =~= Seq::<HashRange>::empty());
        assert(span_ranges(a) + span_ranges(b) =~= span_ranges(b));
    } else {
        assert((a + b).drop_first() =~= a.drop_first() + b);
        assert((a + b)[0] == a[0]);
        lemma_span_ranges_concat(a.drop_first(), b);
        assert(span_ranges(a + b) =~= span_ranges(a) + span_ranges(b));
    }
}

/// The walker's spans tile the interval from the pending start to the
/// end of the data: every byte of the file from the pending position
/// on lies in exactly one span, hashable or excluded.
pub proof fn lemma_jpeg_scan_tiles(data: Seq<u8>, pos: int, pending: int)
    requires
        0 <= pending <= pos,
        pending <= data.len(),
    ensures
        spans_tile(jpeg_scan(data, pos, pending), pending, data.len() as int),
    decreases data.len() - pos,
{
    let len = data.len() as int;
    if !(0 <= pos < len) {
    } else if data[pos] != 0xff {
        lemma_jpeg_scan_tiles(data, pos + 1, pending);
    } else if pos + 1 >= len {
    } else {
        let m = data[pos + 1];
        if m == 0x00 || is_standalone_marker(m) {
            lemma_jpeg_scan_tiles(data, pos + 2, pending);
        } else if m == 0xda {
        } else if pos + 4 > len {
        } else {
            let l: int = be16(data, pos + 2);
            if l < 2 {
            } else {
                let seg_end: int = if pos + 2 + l <= len {
                    pos + 2 + l
                } else {
                    len
                };
                if m == 0xeb {
                    lemma_jpeg_scan_tiles(data, seg_end, seg_end);
                    let head = seq![
                        JpegSpan { lo: pending, hi: pos, excluded: false },
                        JpegSpan { lo: pos, hi: seg_end, excluded: true },
                    ];
                    let tail = jpeg_scan(data, seg_end, seg_end);
                    let whole = head + tail;
                    assert(whole[0].lo == pending);
                    assert(whole.len() == 2 + tail.len());
                    assert(forall|i: int|
                        0 <= i < tail.len() ==> whole[i + 2] == #[trigger] tail[i]);
                    assert(whole[whole.len() - 1].hi == len);
                    assert forall|i: int| 0 <= i < whole.len() implies #[trigger] whole[i].lo
                        <= whole[i].hi by {
                        if i >= 2 {
                            assert(whole[i] == tail[i - 2]);
                        }
                    }
                    assert forall|i: int| 0 <= i < whole.len() - 1 implies #[trigger] whole[i
                        + 1].lo == whole[i].hi by {
                        if i == 0 {
                            assert(whole[0] == head[0]);
                            assert(whole[1] == head[1]);
                        } else if i == 1 {
                            assert(whole[1] == head[1]);
                            assert(whole[2] == tail[0]);
                            assert(tail[0].lo == seg_end);
                        } else {
                            let j = i - 2;
                            assert(whole[j + 2] == tail[j]);
                            assert(whole[j + 3] == tail[j + 1]);
                            assert(tail[j + 1].lo == tail[j].hi);
                            assert(whole[i] == tail[j]);
                            assert(whole[i + 1] == tail[j + 1]);
                        }
                    }
                    assert forall|i: int| 0 <= i < whole.len() implies pending
                        <= #[trigger] whole[i].lo && whole[i].hi <= len by {
                        if i >= 2 {
                            assert(whole[i] == tail[i - 2]);
                        }
                    }
                    assert(spans_tile(whole, pending, len));
                } else {
                    lemma_jpeg_scan_tiles(data, seg_end, pending);
                }
            }
        }
    }
}

/// The union of the hash ranges a JPEG walk emits and the excluded
/// segment spans covers the whole file, with no gap and no overlap.
pub proof fn lemma_jpeg_walk_covers(data: Seq<u8>)
    requires
        data.len() >= 2,
    ensures
        spans_tile(jpeg_scan(data, 2, 0), 0, data.len() as int),
{
    lemma_jpeg_scan_tiles(data, 2, 0);
}

/// The ranges a walk emits form a well-formed set: non-empty, pairwise
/// disjoint, in increasing offset order, between the pending start and
/// the end of the data.
pub proof fn lemma_jpeg_scan_ranges_wf(data: Seq<u8>, pos: int, pending: int)
    requires
        0 <= pending <= pos,
        pending <= data.len(),
        data.len() <= u64::MAX,
    ensures
        crate::ranges::ranges_wf(span_ranges(jpeg_scan(data, pos, pending))),
        forall|i: int|
            0 <= i < span_ranges(jpeg_scan(data, pos, pending)).len() ==> pending
                <= #[trigger] span_ranges(jpeg_scan(data, pos, pending))[i].offset && span_ranges(
                jpeg_scan(data, pos, pending),
            )[i].spec_end() <= data.len(),
    decreases data.len() - pos,
{
    let len = data.len() as int;
    let rs = span_ranges(jpeg_scan(data, pos, pending));
    let fin = seq![JpegSpan { lo: pending, hi: len, excluded: false }];
    assert(fin.drop_first() =~= Seq::<JpegSpan>::empty());
    assert(span_ranges(fin.drop_first()) =~= Seq::<HashRange>::empty());
    if !(0 <= pos < len) {
    } else if data[pos] != 0xff {
        lemma_jpeg_scan_ranges_wf(data, pos + 1, pending);
    } else if pos + 1 >= len {
    } else {
        let m = data[pos + 1];
        if m == 0x00 || is_standalone_marker(m) {
            lemma_jpeg_scan_ranges_wf(data, pos + 2, pending);
        } else if m == 0xda {
        } else if pos + 4 > len {
        } else {
            let l: int = be16(data, pos + 2);
            if l < 2 {
            } else {
                let seg_end: int = if pos + 2 + l <= len {
                    pos + 2 + l
                } else {
                    len
                };
                if m == 0xeb {
                    lemma_jpeg_scan_ranges_wf(data, seg_end, seg_end);
                    let head = seq![
                        JpegSpan { lo: pending, hi: pos, excluded: false },
                        JpegSpan { lo: pos, hi: seg_end, excluded: true },
                    ];
                    let tail = jpeg_scan(data, seg_end, seg_end);
                    assert(jpeg_scan(data, pos, pending) == head + tail);
                    lemma_span_ranges_concat(head, tail);
                    assert(head.drop_first() =~= seq![
                        JpegSpan { lo: pos, hi: seg_end, excluded: true },
                    ]);
                    assert(head.drop_first().drop_first() =~= Seq::<JpegSpan>::empty());
                    assert(span_ranges(head.drop_first().drop_first()) =~= Seq::<
                        HashRange,
                    >::empty());
                    assert(span_ranges(head.drop_first()) =~= Seq::<HashRange>::empty());
                    let front: Seq<HashRange> = if pending < pos {
                        seq![HashRange { offset: pending as u64, length: (pos - pending) as u64 }]
                    } else {
                        Seq::empty()
                    };
                    assert(span_ranges(head) =~= front);
                    let back = span_ranges(tail);
                    assert(rs == front + back);
                    assert forall|i: int| 0 <= i < rs.len() implies #[trigger] rs[i].length > 0
                        && pending <= rs[i].offset && rs[i].spec_end() <= len by {
                        if i < front.len() {
                            assert(rs[i] == front[i]);
                        } else {
                            let j = i - front.len();
                            assert(rs[j + front.len()] == back[j]);
                            assert(back[j].length > 0);
                            assert(seg_end <= back[j].offset && back[j].spec_end() <= len);
                        }
                    }
                    assert forall|i: int, j: int| 0 <= i < j < rs.len() implies #[trigger] rs[i].spec_end()
                        <= #[trigger] rs[j].offset as int by {
                        if j < front.len() {
                        } else if i >= front.len() {
                            let i2 = i - front.len();
                            let j2 = j - front.len();
                            assert(rs[i2 + front.len()] == back[i2]);
                            assert(rs[j2 + front.len()] == back[j2]);
                            assert(back[i2].spec_end() <= back[j2].offset as int);
                        } else {
                            let j2 = j - front.len();
                            assert(rs[i] == front[i]);
                            assert(rs[j2 + front.len()] == back[j2]);
                            assert(front[i].spec_end() <= pos);
                            assert(seg_end <= back[j2].offset as int);
                        }
                    }
                } else {
                    lemma_jpeg_scan_ranges_wf(data, seg_end, pending);
                }
            }
        }
    }
}

/// The spans moved `k` bytes towards the end of the file.
pub open spec fn shift_spans(spans: Seq<JpegSpan>, k: int) -> Seq<JpegSpan> {
    spans.map(
        |i: int, s: JpegSpan| JpegSpan { lo: s.lo + k, hi: s.hi + k, excluded: s.excluded },
    )
}

/// The walker reads nothing before its scan position: on data that
/// agrees from `pos` on but sits `k` bytes later in the file, it
/// produces the same spans, moved by `k`.
proof fn lemma_jpeg_scan_shift(d1: Seq<u8>, d2: Seq<u8>, k: int, pos: int, pending: int)
    requires
        0 <= pos,
        0 <= k,
        d2.len() == d1.len() + k,
        forall|i: int| pos <= i < d1.len() ==> d2[i + k] == #[trigger] d1[i],
    ensures
        jpeg_scan(d2, pos + k, pending + k) == shift_spans(jpeg_scan(d1, pos, pending), k),
    decreases d1.len() - pos,
{
    let len1 = d1.len() as int;
    let len2 = d2.len() as int;
    let fin1 = seq![JpegSpan { lo: pending, hi: len1, excluded: false }];
    let fin2 = seq![JpegSpan { lo: pending + k, hi: len2, excluded: false }];
    assert(shift_spans(fin1, k) =~= fin2);
    if !(0 <= pos < len1) {
    } else if d1[pos] != 0xff {
        assert(d2[pos + k] == d1[pos]);
        lemma_jpeg_scan_shift(d1, d2, k, pos + 1, pending);
    } else if pos + 1 >= len1 {
        assert(d2[pos + k] == d1[pos]);
    } else {
        assert(d2[pos + k] == d1[pos]);
        assert(d2[pos + k + 1] == d1[pos + 1]);
        let m = d1[pos + 1];
        if m == 0x00 || is_standalone_marker(m) {
            lemma_jpeg_scan_shift(d1, d2, k, pos + 2, pending);
        } else if m == 0xda {
        } else if pos + 4 > len1 {
        } else {
            assert(d2[pos + k + 2] == d1[pos + 2]);
            assert(d2[pos + k + 3] == d1[pos + 3]);
            let l: int = be16(d1, pos + 2);
            assert(be16(d2, pos + k + 2) == l);
            if l < 2 {
            } else {
                let seg_end: int = if pos + 2 + l <= len1 {
                    pos + 2 + l
                } else {
                    len1
                };
                assert(seg_end + k == if pos + k + 2 + l <= len2 {
                    pos + k + 2 + l
                } else {
                    len2
                });
                if m == 0xeb {
                    lemma_jpeg_scan_shift(d1, d2, k, seg_end, seg_end);
                    let head1 = seq![
                        JpegSpan { lo: pending, hi: pos, excluded: false },
                        JpegSpan { lo: pos, hi: seg_end, excluded: true },
                    ];
                    let head2 = seq![
                        JpegSpan { lo: pending + k, hi: pos + k, excluded: false },
                        JpegSpan { lo: pos + k, hi: seg_end + k, excluded: true },
                    ];
                    let tail1 = jpeg_scan(d1, seg_end, seg_end);
                    assert(jpeg_scan(d1, pos, pending) == head1 + tail1);
                    assert(jpeg_scan(d2, pos + k, pending + k) == head2 + shift_spans(tail1, k));
                    assert(shift_spans(head1 + tail1, k) =~= head2 + shift_spans(tail1, k));
                } else {
                    lemma_jpeg_scan_shift(d1, d2, k, seg_end, pending);
                }
            }
        }
    }
}

/// Shifted spans select the same bytes from the shifted data.
proof fn lemma_included_shift(d1: Seq<u8>, d2: Seq<u8>, k: int, low: int, spans: Seq<JpegSpan>)
    requires
        0 <= low,
        0 <= k,
        d2.len() == d1.len() + k,
        d2.len() <= u64::MAX,
        forall|i: int| low <= i < d1.len() ==> d2[i + k] == #[trigger] d1[i],
        forall|j: int|
            0 <= j < spans.len() ==> low <= #[trigger] spans[j].lo <= spans[j].hi <= d1.len(),
    ensures
        included_bytes(d2, span_ranges(shift_spans(spans, k))) == included_bytes(
            d1,
            span_ranges(spans),
        ),
    decreases spans.len(),
{
    if spans.len() == 0 {
        assert(shift_spans(spans, k) =~= Seq::<JpegSpan>::empty());
        assert(span_ranges(spans) =~= Seq::<HashRange>::empty());
        assert(included_bytes(d1, span_ranges(spans)) =~= Seq::<u8>::empty());
        assert(included_bytes(d2, span_ranges(shift_spans(spans, k))) =~= Seq::<u8>::empty());
    } else {
        let s0 = spans[0];
        let shifted = shift_spans(spans, k);
        assert(shifted[0] == JpegSpan { lo: s0.lo + k, hi: s0.hi + k, excluded: s0.excluded });
        assert(shifted.drop_first() =~= shift_spans(spans.drop_first(), k));
        assert forall|j: int| 0 <= j < spans.drop_first().len() implies low
            <= #[trigger] spans.drop_first()[j].lo <= spans.drop_first()[j].hi <= d1.len() by {
            assert(spans.drop_first()[j] == spans[j + 1]);
        }
        lemma_included_shift(d1, d2, k, low, spans.drop_first());
        if !s0.excluded && s0.lo < s0.hi {
            let r1 = HashRange { offset: s0.lo as u64, length: (s0.hi - s0.lo) as u64 };
            let r2 = HashRange {
                offset: (s0.lo + k) as u64,
                length: ((s0.hi + k) - (s0.lo + k)) as u64,
            };
            assert(span_ranges(spans) == seq![r1] + span_ranges(spans.drop_first()));
            assert(span_ranges(shifted) == seq![r2] + span_ranges(shifted.drop_first()));
            assert((seq![r1] + span_ranges(spans.drop_first())).drop_first() =~= span_ranges(
                spans.drop_first(),
            ));
            assert((seq![r2] + span_ranges(shifted.drop_first())).drop_first() =~= span_ranges(
                shifted.drop_first(),
            ));
            assert(included_bytes(d1, span_ranges(spans)) == d1.subrange(s0.lo, s0.hi)
                + included_bytes(d1, span_ranges(spans.drop_first())));
            assert(included_bytes(d2, span_ranges(shifted)) == d2.subrange(s0.lo + k, s0.hi + k)
                + included_bytes(d2, span_ranges(shifted.drop_first())));
            assert(d2.subrange(s0.lo + k, s0.hi + k) =~= d1.subrange(s0.lo, s0.hi));
        } else {
            assert(span_ranges(spans) == span_ranges(spans.drop_first()));
            assert(span_ranges(shifted) == span_ranges(shifted.drop_first()));
        }
    }
}

/// The pending start changes only where the first span begins; the
/// first span is always hashable and ends at or past the scan
/// position, and everything after it is unchanged.
proof fn lemma_jpeg_scan_pending(data: Seq<u8>, pos: int, p1: int, p2: int)
    requires
        0 <= pos <= data.len(),
    ensures
        ({
            let s1 = jpeg_scan(data, pos, p1);
            let s2 = jpeg_scan(data, pos, p2);
            &&& s1.len() == s2.len()
            &&& s1.len() > 0
            &&& s1[0].lo == p1
            &&& s2[0].lo == p2
            &&& s1[0].hi == s2[0].hi
            &&& !s1[0].excluded
            &&& !s2[0].excluded
            &&& pos <= s1[0].hi <= data.len()
            &&& forall|i: int| 1 <= i < s1.len() ==> #[trigger] s1[i] == s2[i]
        }),
    decreases data.len() - pos,
{
    let len = data.len() as int;
    if !(0 <= pos < len) {
    } else if data[pos] != 0xff {
        lemma_jpeg_scan_pending(data, pos + 1, p1, p2);
    } else if pos + 1 >= len {
    } else {
        let m = data[pos + 1];
        if m == 0x00 || is_standalone_marker(m) {
            lemma_jpeg_scan_pending(data, pos + 2, p1, p2);
        } else if m == 0xda {
        } else if pos + 4 > len {
        } else {
            let l: int = be16(data, pos + 2);
            if l < 2 {
            } else {
                let seg_end: int = if pos + 2 + l <= len {
                    pos + 2 + l
                } else {
                    len
                };
                if m == 0xeb {
                    let tail = jpeg_scan(data, seg_end, seg_end);
                    let head1 = seq![
                        JpegSpan { lo: p1, hi: pos, excluded: false },
                        JpegSpan { lo: pos, hi: seg_end, excluded: true },
                    ];
                    let head2 = seq![
                        JpegSpan { lo: p2, hi: pos, excluded: false },
                        JpegSpan { lo: pos, hi: seg_end, excluded: true },
                    ];
                    assert(jpeg_scan(data, pos, p1) == head1 + tail);
                    assert(jpeg_scan(data, pos, p2) == head2 + tail);
                    assert forall|i: int| 1 <= i < (head1 + tail).len() implies #[trigger] (head1
                        + tail)[i] == (head2 + tail)[i] by {
                        if i >= 2 {
                            assert((head1 + tail)[i] == tail[i - 2]);
                            assert((head2 + tail)[i] == tail[i - 2]);
                        }
                    }
                } else {
                    lemma_jpeg_scan_pending(data, seg_end, p1, p2);
                }
            }
        }
    }
}

/// Starting the pending span earlier prefixes the selected bytes with
/// exactly the bytes between the two start positions.
proof fn lemma_included_pending(data: Seq<u8>, pos: int, p1: int, p2: int)
    requires
        0 <= p1 <= p2 <= pos <= data.len(),
        data.len() <= u64::MAX,
    ensures
        included_bytes(data, span_ranges(jpeg_scan(data, pos, p1))) == data.subrange(p1, p2)
            + included_bytes(data, span_ranges(jpeg_scan(data, pos, p2))),
    decreases data.len() - pos,
{
    lemma_jpeg_scan_pending(data, pos, p1, p2);
    let s1 = jpeg_scan(data, pos, p1);
    let s2 = jpeg_scan(data, pos, p2);
    let hi0 = s1[0].hi;
    assert forall|j: int| 0 <= j < s1.drop_first().len() implies #[trigger] s1.drop_first()[j]
        == s2.drop_first()[j] by {
        assert(s1.drop_first()[j] == s1[j + 1]);
        assert(s2.drop_first()[j] == s2[j + 1]);
        assert(s1[j + 1] == s2[j + 1]);
    }
    assert(s1.drop_first() =~= s2.drop_first());
    let tail_ranges = span_ranges(s1.drop_first());
    assert(span_ranges(s2.drop_first()) == tail_ranges);
    let tail_sel = included_bytes(data, tail_ranges);
    if p1 < hi0 {
        let r1 = HashRange { offset: p1 as u64, length: (hi0 - p1) as u64 };
        assert(span_ranges(s1) == seq![r1] + tail_ranges);
        assert((seq![r1] + tail_ranges).drop_first() =~= tail_ranges);
        assert(included_bytes(data, span_ranges(s1)) == data.subrange(p1, hi0) + tail_sel);
    } else {
        assert(span_ranges(s1) == tail_ranges);
        assert(data.subrange(p1, hi0) =~= Seq::<u8>::empty());
        assert(included_bytes(data, span_ranges(s1)) =~= data.subrange(p1, hi0) + tail_sel);
    }
    if p2 < hi0 {
        let r2 = HashRange { offset: p2 as u64, length: (hi0 - p2) as u64 };
        assert(span_ranges(s2) == seq![r2] + tail_ranges);
        assert((seq![r2] + tail_ranges).drop_first() =~= tail_ranges);
        assert(included_bytes(data, span_ranges(s2)) == data.subrange(p2, hi0) + tail_sel);
    } else {
        assert(span_ranges(s2) == tail_ranges);
        assert(data.subrange(p2, hi0) =~= Seq::<u8>::empty());
        assert(included_bytes(data, span_ranges(s2)) =~= data.subrange(p2, hi0) + tail_sel);
    }
    assert(data.subrange(p1, hi0) =~= data.subrange(p1, p2) + data.subrange(p2, hi0));
    assert(data.subrange(p1, p2) + (data.subrange(p2, hi0) + tail_sel) =~= (data.subrange(p1, p2)
        + data.subrange(p2, hi0)) + tail_sel);
}

/// Embedding one APP11 segment right after the start-of-image marker
/// leaves the walker's selected bytes unchanged: the segment becomes
/// an excluded span and every other byte keeps its classification, so
/// the content digest of the file does not move.
pub proof fn lemma_insert_app11_keeps_selection(before: Seq<u8>, seg: Seq<u8>)
    requires
        has_soi(before),
        seg.len() >= 4,
        before.len() + seg.len() <= u64::MAX,
        seg[0] == 0xff,
        seg[1] == 0xeb,
        be16(seg, 2) == seg.len() - 2,
    ensures
        ({
            let after = before.subrange(0, 2) + seg + before.subrange(2, before.len() as int);
            included_bytes(after, span_ranges(jpeg_scan(after, 2, 0))) == included_bytes(
                before,
                span_ranges(jpeg_scan(before, 2, 0)),
            )
        }),
{
    let len1 = before.len() as int;
    let k = seg.len() as int;
    let after = before.subrange(0, 2) + seg + before.subrange(2, len1);
    let len2 = after.len() as int;
    assert(len2 == len1 + k);
    assert forall|i: int| 0 <= i < k implies after[2 + i] == #[trigger] seg[i] by {
        assert(after[2 + i] == (before.subrange(0, 2) + seg)[2 + i]);
    }
    assert forall|i: int| 2 <= i < len1 implies after[i + k] == #[trigger] before[i] by {
        assert(after[i + k] == before.subrange(2, len1)[i + k - 2 - k]);
    }
    assert(after[0] == before[0] && after[1] == before[1]);

    // The walker sees the inserted segment first and excludes it whole.
    assert(after[2] == seg[0]);
    assert(after[3] == seg[1]);
    let l: int = be16(after, 4);
    assert(after[4] == seg[2] && after[5] == seg[3]);
    assert(l == be16(seg, 2));
    assert(l == k - 2);
    let head = seq![
        JpegSpan { lo: 0, hi: 2, excluded: false },
        JpegSpan { lo: 2, hi: 2 + k, excluded: true },
    ];
    let tail = jpeg_scan(after, 2 + k, 2 + k);
    assert(jpeg_scan(after, 2, 0) == head + tail);

    // Past the segment, the walk is the walk of the original file,
    // moved by the segment's length.
    lemma_jpeg_scan_shift(before, after, k, 2, 2);
    assert(tail == shift_spans(jpeg_scan(before, 2, 2), k));

    // Selected bytes of the combined walk: the marker bytes, then the
    // selection of the shifted walk.
    lemma_span_ranges_concat(head, tail);
    let r02 = HashRange { offset: 0, length: 2 };
    assert(head.drop_first() =~= seq![JpegSpan { lo: 2, hi: 2 + k, excluded: true }]);
    assert(head.drop_first().drop_first() =~= Seq::<JpegSpan>::empty());
    assert(span_ranges(head.drop_first().drop_first()) =~= Seq::<HashRange>::empty());
    assert(span_ranges(head.drop_first()) =~= Seq::<HashRange>::empty());
    assert(span_ranges(head) =~= seq![r02]);
    assert(span_ranges(jpeg_scan(after, 2, 0)) == seq![r02] + span_ranges(tail));
    assert((seq![r02] + span_ranges(tail)).drop_first() =~= span_ranges(tail));
    assert(included_bytes(after, span_ranges(jpeg_scan(after, 2, 0))) == after.subrange(0, 2)
        + included_bytes(after, span_ranges(tail)));

    // The shifted selection is the original selection.
    lemma_jpeg_scan_tiles(before, 2, 2);
    lemma_included_shift(before, after, k, 2, jpeg_scan(before, 2, 2));
    assert(included_bytes(after, span_ranges(tail)) == included_bytes(
        before,
        span_ranges(jpeg_scan(before, 2, 2)),
    ));

    // The original walk selects the marker bytes, then the same tail.
    lemma_included_pending(before, 2, 0, 2);
    assert(after.subrange(0, 2) =~= before.subrange(0, 2));
}

/// The four ASCII bytes `C2PA` that tag a provenance payload.
pub open spec fn c2pa_tag() -> Seq<u8> {
    seq![0x43u8, 0x32u8, 0x50u8, 0x41u8]
}

/// What remains of `data[c..]` after removing tagged provenance
/// segments.
///
/// Each segment is copied verbatim unless its marker is APP11 (`0xeb`)
/// and its payload begins with the tag `C2PA`, in which case the whole
/// segment (marker, length field and payload) is dropped. Standalone
/// markers are copied as they stand. At the first non-marker byte
/// (entropy-coded data), and on any truncated structure, the rest of
/// the data is copied unconditionally.
pub open spec fn jpeg_strip_from(data: Seq<u8>, c: int) -> Seq<u8>
    decreases data.len() - c,
{
    let len = data.len() as int;
    if !(0 <= c < len) {
        Seq::empty()
    } else if data[c] != 0xff {
        data.subrange(c, len)
    } else if c + 1 >= len {
        data.subrange(c, len)
    } else {
        let m = data[c + 1];
        if is_standalone_marker(m) {
            seq![0xffu8, m] + jpeg_strip_from(data, c + 2)
        } else if c + 4 > len {
            data.subrange(c, len)
        } else {
            let l: int = be16(data, c + 2);
            if c + 2 + l > len {
                data.subrange(c, len)
            } else if m == 0xeb && l >= 6 && data.subrange(c + 4, c + 8) == c2pa_tag() {
                jpeg_strip_from(data, c + 2 + l)
            } else {
                data.subrange(c, c + 2 + l) + jpeg_strip_from(data, c + 2 + l)
            }
        }
    }
}

/// The provenance-stripped form of a JPEG: the start-of-image marker,
/// then the remaining segments with tagged provenance segments removed.
pub open spec fn jpeg_strip(data: Seq<u8>) -> Seq<u8> {
    data.subrange(0, 2) + jpeg_strip_from(data, 2)
}

/// No APP11 marker occurs anywhere in the data.
pub open spec fn no_app11_marker(data: Seq<u8>) -> bool {
    forall|i: int|
        0 <= i < data.len() - 1 ==> !(#[trigger] data[i] == 0xff && data[i + 1] == 0xeb)
}

/// From any scan position, stripping data without an APP11 marker
/// keeps every byte.
proof fn lemma_strip_from_no_app11(data: Seq<u8>, c: int)
    requires
        0 <= c <= data.len(),
        no_app11_marker(data),
    ensures
        jpeg_strip_from(data, c) == data.subrange(c, data.len() as int),
    decreases data.len() - c,
{
    let len = data.len() as int;
    if c >= len {
        assert(jpeg_strip_from(data, c) =~= data.subrange(c, len));
    } else if data[c] != 0xff {
    } else if c + 1 >= len {
    } else {
        let m = data[c + 1];
        if is_standalone_marker(m) {
            lemma_strip_from_no_app11(data, c + 2);
            assert(seq![0xffu8, m] + data.subrange(c + 2, len) =~= data.subrange(c, len));
        } else if c + 4 > len {
        } else {
            let l: int = be16(data, c + 2);
            if c + 2 + l > len {
            } else {
                assert(m != 0xeb);
                lemma_strip_from_no_app11(data, c + 2 + l);
                assert(data.subrange(c, c + 2 + l) + data.subrange(c + 2 + l, len)
                    =~= data.subrange(c, len));
            }
        }
    }
}

/// Stripping provenance from a JPEG that holds no APP11 marker gives
/// back the input, byte for byte.
pub proof fn lemma_strip_identity_without_app11(data: Seq<u8>)
    requires
        has_soi(data),
        no_app11_marker(data),
    ensures
        jpeg_strip(data) == data,
{
    lemma_strip_from_no_app11(data, 2);
    assert(data.subrange(0, 2) + data.subrange(2, data.len() as int) =~= data);
}

/// Appends the bytes `data[from..to]` to `out`.
pub(crate) fn push_byte_range(out: &mut Vec<u8>, data: &[u8], from: usize, to: usize)
    requires
        from <= to <= data@.len(),
    ensures
        final(out)@ == old(out)@ + data@.subrange(from as int, to as int),
{
    let mut j: usize = from;
    assert(out@ =~= old(out)@ + data@.subrange(from as int, from as int));
    while j < to
        invariant
            from <= j <= to <= data@.len(),
            out@ == old(out)@ + data@.subrange(from as int, j as int),
        decreases to - j,
    {
        out.push(data[j]);
        assert(out@ =~= old(out)@ + data@.subrange(from as int, j + 1));
        j = j + 1;
    }
    assert(out@ =~= old(out)@ + data@.subrange(from as int, to as int));
}

/// Walks JPEG structure and hashes the emitted ranges.
pub struct JpegParser;

impl JpegParser {
    /// Walks the segments of `data` and returns the hashable byte
    /// ranges: a well-formed set, in increasing offset order. Fails
    /// exactly when the data does not begin with the start-of-image
    /// marker.
    pub fn get_hash_range(data: &[u8]) -> (r: Result<Vec<HashRange>, HashError>)
        ensures
            r is Ok <==> has_soi(data@),
            r matches Err(e) ==> e == HashError::Format,
            r matches Ok(rs) ==> rs@ == span_ranges(jpeg_scan(data@, 2, 0)) && crate::ranges::ranges_wf(
                rs@,
            ),
    {
        let len: usize = data.len();
        proof {
            if has_soi(data@) {
                lemma_jpeg_scan_ranges_wf(data@, 2, 0);
            }
        }
        if len < 2 || data[0] != 0xff || data[1] != 0xd8 {
            return Err(HashError::Format);
        }
        let mut ranges: Vec<HashRange> = Vec::new();
        let mut pos: usize = 2;
        let mut pending: usize = 0;
        while pos < len
            invariant_except_break
                len == data@.len(),
                has_soi(data@),
                pending <= pos <= len,
                ranges@ + span_ranges(jpeg_scan(data@, pos as int, pending as int))
                    == span_ranges(jpeg_scan(data@, 2, 0)),
            ensures
                len == data@.len(),
                pending <= len,
                ranges@ + span_ranges(
                    seq![JpegSpan { lo: pending as int, hi: len as int, excluded: false }],
                ) == span_ranges(jpeg_scan(data@, 2, 0)),
            decreases len - pos,
        {
            if data[pos] != 0xff {
                pos = pos + 1;
            } else if pos + 1 == len {
                assert(jpeg_scan(data@, pos as int, pending as int) == seq![
                    JpegSpan { lo: pending as int, hi: len as int, excluded: false },
                ]);
                break;
            } else {
                let m = data[pos + 1];
                if m == 0x00 || m == 0xd9 || (0xd0 <= m && m <= 0xd7) {
                    pos = pos + 2;
                } else if m == 0xda {
                    assert(jpeg_scan(data@, pos as int, pending as int) == seq![
                        JpegSpan { lo: pending as int, hi: len as int, excluded: false },
                    ]);
                    break;
                } else if len - (pos + 1) < 3 {
                    assert(pos + 4 > len);
                    assert(jpeg_scan(data@, pos as int, pending as int) == seq![
                        JpegSpan { lo: pending as int, hi: len as int, excluded: false },
                    ]);
                    break;
                } else {
                    let l: usize = (data[pos + 2] as usize) * 256 + (data[pos + 3] as usize);
                    if l < 2 {
                        assert(jpeg_scan(data@, pos as int, pending as int) == seq![
                            JpegSpan { lo: pending as int, hi: len as int, excluded: false },
                        ]);
                        break;
                    }
                    let seg_end: usize = if l <= len - (pos + 2) {
                        pos + 2 + l
                    } else {
                        len
                    };
                    if m == 0xeb {
                        proof {
                            let head = seq![
                                JpegSpan {
                                    lo: pending as int,
                                    hi: pos as int,
                                    excluded: false,
                                },
                                JpegSpan { lo: pos as int, hi: seg_end as int, excluded: true },
                            ];
                            let tail = jpeg_scan(data@, seg_end as int, seg_end as int);
                            assert(jpeg_scan(data@, pos as int, pending as int) == head + tail);
                            lemma_span_ranges_concat(head, tail);
                            assert(head.drop_first() =~= seq![
                                JpegSpan { lo: pos as int, hi: seg_end as int, excluded: true },
                            ]);
                            assert(head.drop_first().drop_first() =~= Seq::<JpegSpan>::empty());
                            assert(span_ranges(head.drop_first().drop_first())
                                =~= Seq::<HashRange>::empty());
                            assert(span_ranges(head.drop_first()) =~= Seq::<HashRange>::empty());
                            if pending < pos {
                                assert(span_ranges(head) =~= seq![
                                    HashRange {
                                        offset: pending as u64,
                                        length: (pos - pending) as u64,
                                    },
                                ]);
                            } else {
                                assert(span_ranges(head) =~= Seq::<HashRange>::empty());
                            }
                        }
                        if pending < pos {
                            ranges.push(HashRange::new(pending as u64, (pos - pending) as u64));
                        }
                        assert(ranges@ + span_ranges(
                            jpeg_scan(data@, seg_end as int, seg_end as int),
                        ) =~= span_ranges(jpeg_scan(data@, 2, 0)));
                        pending = seg_end;
                        pos = seg_end;
                    } else {
                        pos = seg_end;
                    }
                }
            }
        }
        if pending < len {
            ranges.push(HashRange::new(pending as u64, (len - pending) as u64));
        }
        proof {
            let fin = seq![JpegSpan { lo: pending as int, hi: len as int, excluded: false }];
            assert(fin.drop_first() =~= Seq::<JpegSpan>::empty());
            assert(span_ranges(fin.drop_first()) =~= Seq::<HashRange>::empty());
            if pending < len {
                assert(span_ranges(fin) =~= seq![
                    HashRange { offset: pending as u64, length: (len - pending) as u64 },
                ]);
            } else {
                assert(span_ranges(fin) =~= Seq::<HashRange>::empty());
            }
            assert(ranges@ =~= span_ranges(jpeg_scan(data@, 2, 0)));
        }
        Ok(ranges)
    }

    /// Walks the segments of `data` and digests the hashable ranges
    /// with the named algorithm.
    pub fn get_hash(data: &[u8], algorithm: &str) -> (r: Result<Vec<u8>, HashError>)
        ensures
            r is Ok <==> (has_soi(data@) && algorithm@ == "sha256"@),
            r == Err::<Vec<u8>, HashError>(HashError::Format) <==> !has_soi(data@),
            r == Err::<Vec<u8>, HashError>(HashError::UnsupportedAlgorithm) <==> (has_soi(data@)
                && algorithm@ != "sha256"@),
            r matches Ok(d) ==> d@ == sha256_of(
                included_bytes(data@, span_ranges(jpeg_scan(data@, 2, 0))),
            ),
    {
        let hash_ranges = match Self::get_hash_range(data) {
            Ok(rs) => rs,
            Err(e) => {
                return Err(e);
            },
        };
        let len: usize = data.len();
        proof {
            lemma_jpeg_scan_ranges_wf(data@, 2, 0);
            assert(ranges_in_bounds(hash_ranges@, len as int));
        }
        hash_bytes_by_alg(algorithm, data, Some(&hash_ranges), false)
    }
}

} // verus!
