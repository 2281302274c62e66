//! Streaming a byte source through a digest, restricted to a list of
//! byte ranges (inclusion mode) or to their complement (exclusion mode).

use vstd::prelude::*;

use crate::ranges::HashRange;

verus! {

/// The SHA-256 digest of a byte sequence. The value is determined by
/// the bytes alone; what it is on given bytes is known only to the
/// outside digest implementation.
pub uninterp spec fn sha256_of(data: Seq<u8>) -> Seq<u8>;

/// Relies on sha2's `Sha256` (via the `Digest` trait): the digest is a
/// function of the input bytes alone and is 32 bytes long.
#[verifier::external_body]
pub(crate) fn sha256_digest(data: &[u8]) -> (r: Vec<u8>)
    ensures
        r@ == sha256_of(data@),
        r@.len() == 32,
{
    let mut hasher = <sha2::Sha256 as sha2::Digest>::new();
    sha2::Digest::update(&mut hasher, data);
    sha2::Digest::finalize(hasher).to_vec()
}

/// Relies on str's `PartialEq`: two string slices compare equal exactly
/// when their character content is equal.
#[verifier::external_body]
fn str_eq(a: &str, b: &str) -> (r: bool)
    ensures
        r == (a@ == b@),
{
    a == b
}

/// Why a digest could not be computed.
#[derive(Clone, Copy, Debug, PartialEq, Eq, Structural)]
pub enum HashError {
    /// The digest algorithm identifier names no supported algorithm.
    UnsupportedAlgorithm,
    /// An inclusion range reaches past the end of the data.
    RangeOutOfBounds,
    /// The data does not begin with the structure the format requires.
    Format,
}

/// Every range lies within the first `len` bytes.
pub open spec fn ranges_in_bounds(rs: Seq<HashRange>, len: int) -> bool {
    forall|i: int| 0 <= i < rs.len() ==> #[trigger] rs[i].offset + rs[i].length <= len
}

/// The bytes selected by an inclusion list: the ranges' contents,
/// visited in list order.
pub open spec fn included_bytes(data: Seq<u8>, rs: Seq<HashRange>) -> Seq<u8>
    decreases rs.len(),
{
    if rs.len() == 0 {
        Seq::empty()
    } else {
        data.subrange(rs[0].offset as int, rs[0].spec_end()) + included_bytes(
            data,
            rs.drop_first(),
        )
    }
}

/// Position `i` falls inside one of the ranges.
pub open spec fn covered(i: int, rs: Seq<HashRange>) -> bool {
    exists|k: int|
        0 <= k < rs.len() && #[trigger] rs[k].offset <= i < rs[k].offset + rs[k].length
}

/// The bytes selected by an exclusion list: every byte from position
/// `from` on that no listed range covers, in file order.
pub open spec fn excluded_bytes(data: Seq<u8>, rs: Seq<HashRange>, from: int) -> Seq<u8>
    decreases data.len() - from,
{
    if 0 <= from < data.len() {
        if covered(from, rs) {
            excluded_bytes(data, rs, from + 1)
        } else {
            seq![data[from]] + excluded_bytes(data, rs, from + 1)
        }
    } else {
        Seq::empty()
    }
}

/// Appending a range to an inclusion list appends its content to the
/// selection.
proof fn lemma_included_bytes_push(data: Seq<u8>, rs: Seq<HashRange>, r: HashRange)
    ensures
        included_bytes(data, rs.push(r)) == included_bytes(data, rs) + data.subrange(
            r.offset as int,
            r.spec_end(),
        ),
    decreases rs.len(),
{
    if rs.len() == 0 {
        assert(rs.push(r).drop_first() =~= rs);
        assert(included_bytes(data, rs) =~= Seq::<u8>::empty());
        assert(rs.push(r)[0] == r);
        assert(included_bytes(data, rs.push(r)) == data.subrange(r.offset as int, r.spec_end())
            + included_bytes(data, rs));
        assert(included_bytes(data, rs) + data.subrange(r.offset as int, r.spec_end())
            =~= data.subrange(r.offset as int, r.spec_end()) + included_bytes(data, rs));
    } else {
        let sub_head = data.subrange(rs[0].offset as int, rs[0].spec_end());
        let sub_r = data.subrange(r.offset as int, r.spec_end());
        assert(rs.push(r).drop_first() =~= rs.drop_first().push(r));
        assert(rs.push(r)[0] == rs[0]);
        assert(included_bytes(data, rs.push(r)) == sub_head + included_bytes(
            data,
            rs.drop_first().push(r),
        ));
        lemma_included_bytes_push(data, rs.drop_first(), r);
        assert(included_bytes(data, rs) == sub_head + included_bytes(data, rs.drop_first()));
        assert(sub_head + (included_bytes(data, rs.drop_first()) + sub_r) =~= (sub_head
            + included_bytes(data, rs.drop_first())) + sub_r);
    }
}

/// With no ranges to exclude, the selection is the data itself.
proof fn lemma_excluded_bytes_empty(data: Seq<u8>, from: int)
    requires
        0 <= from <= data.len(),
    ensures
        excluded_bytes(data, Seq::empty(), from) == data.subrange(from, data.len() as int),
    decreases data.len() - from,
{
    if from < data.len() {
        lemma_excluded_bytes_empty(data, from + 1);
        assert(excluded_bytes(data, Seq::empty(), from) =~= data.subrange(
            from,
            data.len() as int,
        ));
    } else {
        assert(excluded_bytes(data, Seq::empty(), from) =~= data.subrange(
            from,
            data.len() as int,
        ));
    }
}

/// Hashing the whole input as one inclusion range, or with nothing
/// excluded, selects exactly the raw bytes, so the digest is the digest
/// of the raw bytes.
pub proof fn lemma_whole_file_selection(data: Seq<u8>)
    requires
        data.len() <= u64::MAX,
    ensures
        included_bytes(data, seq![HashRange { offset: 0, length: data.len() as u64 }]) == data,
        excluded_bytes(data, Seq::empty(), 0) == data,
{
    let full = seq![HashRange { offset: 0, length: data.len() as u64 }];
    assert(full.drop_first() =~= Seq::<HashRange>::empty());
    assert(included_bytes(data, Seq::<HashRange>::empty()) =~= Seq::<u8>::empty());
    assert(full[0].offset == 0 && full[0].spec_end() == data.len());
    assert(included_bytes(data, full) =~= data.subrange(0, data.len() as int));
    assert(included_bytes(data, full) =~= data);
    lemma_excluded_bytes_empty(data, 0);
    assert(data.subrange(0, data.len() as int) =~= data);
}

/// Does position `pos` fall inside one of the ranges?
fn is_covered(pos: usize, rs: &Vec<HashRange>) -> (r: bool)
    ensures
        r == covered(pos as int, rs@),
{
    let n = rs.len();
    let mut k: usize = 0;
    while k < n
        invariant
            n == rs@.len(),
            0 <= k <= n,
            forall|j: int|
                0 <= j < k ==> !(#[trigger] rs@[j].offset <= pos < rs@[j].offset + rs@[j].length),
        decreases n - k,
    {
        let r = rs[k];
        if r.offset <= pos as u64 && (pos as u64 - r.offset) < r.length {
            assert(rs@[k as int].offset <= pos < rs@[k as int].offset + rs@[k as int].length);
            return true;
        }
        k = k + 1;
    }
    false
}

/// Collect the bytes of `data` selected by the inclusion list `rs`.
/// Fails when a range reaches past the end of the data.
fn collect_included(data: &[u8], rs: &Vec<HashRange>) -> (r: Result<Vec<u8>, HashError>)
    ensures
        match r {
            Ok(sel) => ranges_in_bounds(rs@, data@.len() as int) && sel@ == included_bytes(
                data@,
                rs@,
            ),
            Err(e) => e == HashError::RangeOutOfBounds && !ranges_in_bounds(
                rs@,
                data@.len() as int,
            ),
        },
{
    let len: usize = data.len();
    let n = rs.len();
    let mut sel: Vec<u8> = Vec::new();
    let mut k: usize = 0;
    while k < n
        invariant
            n == rs@.len(),
            0 <= k <= n,
            len == data@.len(),
            forall|j: int| 0 <= j < k ==> #[trigger] rs@[j].offset + rs@[j].length <= len,
            sel@ == included_bytes(data@, rs@.take(k as int)),
        decreases n - k,
    {
        let r = rs[k];
        if r.offset > len as u64 || r.length > len as u64 - r.offset {
            assert(!ranges_in_bounds(rs@, data@.len() as int));
            return Err(HashError::RangeOutOfBounds);
        }
        let start: usize = r.offset as usize;
        let count: usize = r.length as usize;
        let mut j: usize = 0;
        while j < count
            invariant
                len == data@.len(),
                start == r.offset,
                count == r.length,
                start + count <= len,
                0 <= j <= count,
                sel@ == included_bytes(data@, rs@.take(k as int)) + data@.subrange(
                    start as int,
                    start + j,
                ),
            decreases count - j,
        {
            sel.push(data[start + j]);
            assert(sel@ =~= included_bytes(data@, rs@.take(k as int)) + data@.subrange(
                start as int,
                start + j + 1,
            ));
            j = j + 1;
        }
        proof {
            lemma_included_bytes_push(data@, rs@.take(k as int), rs@[k as int]);
            assert(rs@.take(k as int).push(rs@[k as int]) =~= rs@.take(k + 1));
        }
        k = k + 1;
    }
    proof {
        assert(rs@.take(n as int) =~= rs@);
    }
    Ok(sel)
}

/// Collect the bytes of `data` that no range of the exclusion list
/// covers, in file order.
fn collect_excluded(data: &[u8], rs: &Vec<HashRange>) -> (sel: Vec<u8>)
    ensures
        sel@ == excluded_bytes(data@, rs@, 0),
{
    let len: usize = data.len();
    let mut sel: Vec<u8> = Vec::new();
    let mut i: usize = 0;
    while i < len
        invariant
            len == data@.len(),
            0 <= i <= len,
            sel@ + excluded_bytes(data@, rs@, i as int) == excluded_bytes(data@, rs@, 0),
        decreases len - i,
    {
        if !is_covered(i, rs) {
            sel.push(data[i]);
        }
        assert(sel@ + excluded_bytes(data@, rs@, i + 1) =~= excluded_bytes(data@, rs@, 0));
        i = i + 1;
    }
    assert(sel@ =~= excluded_bytes(data@, rs@, 0));
    sel
}

/// Digest the bytes of `data` selected by `hash_ranges` with the named
/// algorithm. With `Some` ranges and `is_exclusion` false, the ranges'
/// contents are digested in list order; with `is_exclusion` true, every
/// byte no range covers is digested in file order; with `None`, the
/// whole data is digested. Only the identifier `"sha256"` is supported.
pub fn hash_bytes_by_alg(
    algorithm: &str,
    data: &[u8],
    hash_ranges: Option<&Vec<HashRange>>,
    is_exclusion: bool,
) -> (r: Result<Vec<u8>, HashError>)
    ensures
        r is Err <==> (algorithm@ != "sha256"@ || (hash_ranges is Some && !is_exclusion
            && !ranges_in_bounds(hash_ranges->0@, data@.len() as int))),
        r == Err::<Vec<u8>, HashError>(HashError::UnsupportedAlgorithm) <==> algorithm@
            != "sha256"@,
        r is Ok ==> match hash_ranges {
            Some(rs) => r->Ok_0@ == if is_exclusion {
                sha256_of(excluded_bytes(data@, rs@, 0))
            } else {
                sha256_of(included_bytes(data@, rs@))
            },
            None => r->Ok_0@ == sha256_of(data@),
        },
{
    if !str_eq(algorithm, "sha256") {
        return Err(HashError::UnsupportedAlgorithm);
    }
    match hash_ranges {
        None => Ok(sha256_digest(data)),
        Some(rs) => {
            if is_exclusion {
                let sel = collect_excluded(data, rs);
                Ok(sha256_digest(sel.as_slice()))
            } else {
                match collect_included(data, rs) {
                    Ok(sel) => Ok(sha256_digest(sel.as_slice())),
                    Err(e) => Err(e),
                }
            }
        },
    }
}

} // verus!
