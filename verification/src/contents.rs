//! Both sides of a file for the diff view, and how the work of reading many
//! files or counting many diffs is cut into chunks for worker threads.

use vstd::prelude::*;
use vstd::utf8::{decode_utf8, valid_utf8};

use crate::paths::{comps_view, path_components, Comp, PathComponent, components};
use crate::types::{error_text, BackendError, FileContentsBatchItem, FileContentsResponse};

verus! {

/// One side of a file: its text, or nothing when it is absent or binary.
#[derive(Debug)]
pub struct FileSideContent {
    pub content: Option<String>,
    pub is_binary: bool,
}

impl FileSideContent {
    /// File is absent from this side (no tree entry, or no file on disk).
    pub fn absent() -> (s: Self)
        ensures
            s.content is None,
            !s.is_binary,
    {
        FileSideContent { content: None, is_binary: false }
    }
}

/// `std::str::from_utf8`, copied into a `String`: the text the bytes encode
/// when they are valid UTF-8, `None` when they are not (its `Err`).
#[verifier::external_body]
fn utf8_text(bytes: &[u8]) -> (r: Option<String>)
    ensures
        r is Some <==> valid_utf8(bytes@),
        r matches Some(s) ==> s@ == decode_utf8(bytes@),
{
    match std::str::from_utf8(bytes) {
        Ok(text) => Some(text.to_owned()),
        Err(_) => None,
    }
}

/// A side read from `bytes`: its text when they are UTF-8, otherwise binary.
pub fn decode_file_side(bytes: &[u8]) -> (s: FileSideContent)
    ensures
        valid_utf8(bytes@) ==> (s.content matches Some(t) && t@ == decode_utf8(bytes@)
            && !s.is_binary),
        !valid_utf8(bytes@) ==> s.content is None && s.is_binary,
{
    match utf8_text(bytes) {
        Some(text) => FileSideContent { content: Some(text), is_binary: false },
        None => FileSideContent { content: None, is_binary: true },
    }
}

/// The name shown for a requested path: its last component when that is a
/// plain name (`Path::file_name`), otherwise the path itself.
pub open spec fn display_name(path: Seq<char>) -> Seq<char> {
    let cs = components(path);
    if cs.len() > 0 && cs.last() is Normal {
        cs.last()->Normal_0
    } else {
        path
    }
}

/// The name shown for a requested path.
pub fn file_display_name(path: &str) -> (name: String)
    ensures
        name@ == display_name(path@),
{
    let cs = path_components(path);
    let n = cs.len();
    if n > 0 {
        match &cs[n - 1] {
            PathComponent::Normal(s) => {
                assert(comps_view(cs@).last() == Comp::Normal(s@));
                return s.clone();
            },
            _ => {
                assert(!(comps_view(cs@).last() is Normal));
            },
        }
    }
    String::from_str(path)
}

/// The answer to one file request from its two sides: both sides when both
/// were read, otherwise the text of the first failure (the old side first).
pub fn batch_item(
    path: String,
    name: String,
    old_side: Result<FileSideContent, BackendError>,
    new_side: Result<FileSideContent, BackendError>,
) -> (it: FileContentsBatchItem)
    ensures
        it.path == path,
        match (old_side, new_side) {
            (Ok(o), Ok(n)) => it.error is None && it.response == Some(
                FileContentsResponse {
                    name,
                    old_content: o.content,
                    old_binary: o.is_binary,
                    new_content: n.content,
                    new_binary: n.is_binary,
                },
            ),
            (Err(e), _) => it.response is None && (it.error matches Some(t) && t@ == error_text(e)),
            (Ok(_), Err(e)) => it.response is None && (it.error matches Some(t) && t@ == error_text(
                e,
            )),
        },
{
    match (old_side, new_side) {
        (Ok(old), Ok(new)) => FileContentsBatchItem {
            path,
            response: Some(
                FileContentsResponse {
                    name,
                    old_content: old.content,
                    old_binary: old.is_binary,
                    new_content: new.content,
                    new_binary: new.is_binary,
                },
            ),
            error: None,
        },
        (Err(e), _) => FileContentsBatchItem { path, response: None, error: Some(e.message()) },
        (Ok(_), Err(e)) => FileContentsBatchItem {
            path,
            response: None,
            error: Some(e.message()),
        },
    }
}

/// A line count as the diff reports it, saturated into 32 bits.
pub fn saturating_u32(n: usize) -> (r: u32)
    ensures
        n <= u32::MAX ==> r == n,
        n > u32::MAX ==> r == u32::MAX,
{
    if n <= 4294967295usize {
        n as u32
    } else {
        u32::MAX
    }
}

/// At most eight workers, four when the machine's parallelism is unknown,
/// and never more workers than items.
pub open spec fn worker_count(total: nat, parallelism: Option<usize>) -> nat {
    let cap: nat = match parallelism {
        Some(p) => if p < 8 {
            p as nat
        } else {
            8
        },
        None => 4,
    };
    if cap < total {
        cap
    } else {
        total
    }
}

/// `a / b` rounded up.
pub open spec fn ceil_div(a: nat, b: nat) -> nat {
    if b == 0 {
        0
    } else {
        ((a + b - 1) / (b as int)) as nat
    }
}

/// The size of each worker's chunk.
pub open spec fn chunk_len(total: nat, parallelism: Option<usize>) -> nat {
    ceil_div(total, worker_count(total, parallelism))
}

proof fn lemma_chunk_positive(total: nat, parallelism: Option<usize>)
    requires
        total > 0,
        parallelism matches Some(p) ==> p > 0,
    ensures
        worker_count(total, parallelism) >= 1,
        chunk_len(total, parallelism) >= 1,
        chunk_len(total, parallelism) <= total,
{
    let w = worker_count(total, parallelism);
    assert(w >= 1);
    assert(w <= total);
    let c = chunk_len(total, parallelism);
    assert(c == ((total + w - 1) / (w as int)) as nat);
    assert((total + w - 1) / (w as int) >= 1) by (nonlinear_arith)
        requires
            w >= 1,
            total >= 1,
    ;
    assert((total + w - 1) / (w as int) <= total) by (nonlinear_arith)
        requires
            w >= 1,
            total >= w,
    ;
}

proof fn lemma_chunks_at_most_workers(total: nat, c: nat, w: nat)
    requires
        w >= 1,
        total >= 1,
        c == (total + w - 1) / (w as int),
    ensures
        c * w >= total,
{
    assert(c * w >= total) by (nonlinear_arith)
        requires
            w >= 1,
            c == (total + w - 1) / (w as int),
    ;
}

/// Item `k` falls in the range `[r.0, r.1)`.
pub open spec fn in_range(r: (usize, usize), k: int) -> bool {
    r.0 <= k < r.1
}

/// Item `k` falls in one of the ranges `r`.
pub open spec fn covered(r: Seq<(usize, usize)>, k: int) -> bool {
    exists|i: int| 0 <= i < r.len() && #[trigger] in_range(r[i], k)
}

/// `r` cuts the items `0..total` into consecutive non-empty ranges, in order.
pub open spec fn cuts_into(r: Seq<(usize, usize)>, total: int) -> bool {
    &&& (r.len() == 0 <==> total == 0)
    &&& r.len() > 0 ==> r[0].0 == 0 && r.last().1 == total
    &&& forall|i: int| 0 <= i < r.len() ==> #[trigger] r[i].0 < r[i].1
    &&& forall|i: int| 0 <= i < r.len() - 1 ==> #[trigger] r[i].1 == r[i + 1].0
}

/// Consecutive ranges of length `c` from 0, the last one ending at `total`,
/// put each of the `total` items in exactly one range.
proof fn lemma_ranges_partition(r: Seq<(usize, usize)>, total: int, c: int)
    requires
        c >= 1,
        r.len() > 0,
        r.last().1 == total,
        forall|i: int|
            0 <= i < r.len() ==> #[trigger] r[i].0 == i * c && r[i].0 < r[i].1 && r[i].1 <= r[i].0
                + c && (r[i].1 == r[i].0 + c || (i == r.len() - 1 && r[i].1 == total)),
    ensures
        forall|k: int| 0 <= k < total ==> #[trigger] covered(r, k),
        forall|i: int, j: int, k: int|
            0 <= i < r.len() && 0 <= j < r.len() && #[trigger] in_range(r[i], k) && #[trigger] in_range(
                r[j],
                k,
            ) ==> i == j,
{
    let n = r.len() as int;
    assert(r[n - 1].0 == (n - 1) * c);
    assert((n - 1) * c + c == n * c) by (nonlinear_arith);
    assert forall|k: int| 0 <= k < total implies #[trigger] covered(r, k) by {
        let i = k / c;
        assert(0 <= i && i * c <= k && k < i * c + c) by (nonlinear_arith)
            requires
                c >= 1,
                k >= 0,
                i == k / c,
        ;
        assert(i < n) by (nonlinear_arith)
            requires
                k < total,
                total <= n * c,
                i * c <= k,
                c >= 1,
        ;
        assert(r[i].0 == i * c);
        assert(in_range(r[i], k));
    };
    assert forall|i: int, j: int, k: int|
        0 <= i < r.len() && 0 <= j < r.len() && #[trigger] in_range(r[i], k) && #[trigger] in_range(r[j], k) implies i == j by {
        if i < j {
            assert(r[i].0 == i * c && r[j].0 == j * c);
            assert(i * c + c <= j * c) by (nonlinear_arith)
                requires
                    i < j,
                    c >= 1,
            ;
        } else if j < i {
            assert(r[i].0 == i * c && r[j].0 == j * c);
            assert(j * c + c <= i * c) by (nonlinear_arith)
                requires
                    j < i,
                    c >= 1,
            ;
        }
    };
}

/// The consecutive ranges `[start, end)` into which `total` items are cut,
/// one per worker, every range but the last of the full chunk length; every
/// item falls in exactly one of them.
pub fn worker_ranges(total: usize, parallelism: Option<usize>) -> (r: Vec<(usize, usize)>)
    requires
        parallelism matches Some(p) ==> p > 0,
    ensures
        total == 0 ==> r@.len() == 0,
        cuts_into(r@, total as int),
        total > 0 ==> {
            let c = chunk_len(total as nat, parallelism);
            &&& r@.len() > 0
            &&& r@[0].0 == 0
            &&& r@.last().1 == total
            &&& r@.len() <= worker_count(total as nat, parallelism)
            &&& forall|i: int|
                0 <= i < r@.len() ==> #[trigger] r@[i].0 == i * c && r@[i].0 < r@[i].1 && (
                r@[i].1 == r@[i].0 + c || (i == r@.len() - 1 && r@[i].1 == total))
            &&& forall|i: int| 0 <= i < r@.len() - 1 ==> #[trigger] r@[i].1 == r@[i + 1].0
        },
        forall|k: int| 0 <= k < total ==> #[trigger] covered(r@, k),
        forall|i: int, j: int, k: int|
            0 <= i < r@.len() && 0 <= j < r@.len() && #[trigger] in_range(r@[i], k) && #[trigger] in_range(
                r@[j],
                k,
            ) ==> i == j,
{
    let mut r: Vec<(usize, usize)> = Vec::new();
    if total == 0 {
        return r;
    }
    let cap: usize = match parallelism {
        Some(p) => if p < 8 {
            p
        } else {
            8
        },
        None => 4,
    };
    let workers: usize = if cap < total {
        cap
    } else {
        total
    };
    proof {
        lemma_chunk_positive(total as nat, parallelism);
    }
    assert(workers as nat == worker_count(total as nat, parallelism));
    let chunk: usize = (total - 1) / workers + 1;
    proof {
        assert(((total - 1) / (workers as int) + 1) == (total + workers - 1) / (workers as int))
            by (nonlinear_arith)
            requires
                workers >= 1,
                total >= 1,
        ;
        lemma_chunks_at_most_workers(total as nat, chunk as nat, workers as nat);
    }
    let ghost c = chunk_len(total as nat, parallelism);
    assert(chunk == c);
    let mut start: usize = 0;
    while start < total
        invariant
            chunk == c,
            1 <= c <= total,
            c * workers >= total,
            workers >= 1,
            workers == worker_count(total as nat, parallelism),
            start <= total,
            start < total ==> start == r@.len() * c,
            r@.len() > 0 ==> r@[0].0 == 0 && r@.last().1 == start,
            r@.len() <= workers,
            r@.len() == 0 ==> start == 0,
            start < total ==> r@.len() < workers,
            forall|i: int|
                0 <= i < r@.len() ==> #[trigger] r@[i].0 == i * c && r@[i].0 < r@[i].1 && r@[i].1
                    <= r@[i].0 + c && (r@[i].1 == r@[i].0 + c || (i == r@.len() - 1 && r@[i].1
                    == total)),
            forall|i: int| 0 <= i < r@.len() - 1 ==> #[trigger] r@[i].1 == r@[i + 1].0,
        decreases total - start,
    {
        let end: usize = if total - start < chunk {
            total
        } else {
            start + chunk
        };
        let ghost old_r = r@;
        r.push((start, end));
        proof {
            assert(r@.len() == old_r.len() + 1);
            assert((old_r.len() + 1) * c == old_r.len() * c + c) by (nonlinear_arith);
            if end < total {
                assert(end == (old_r.len() + 1) * c);
                assert(r@.len() < workers) by (nonlinear_arith)
                    requires
                        end == r@.len() * c,
                        end < total,
                        c * workers >= total,
                        c >= 1,
                ;
            }
            assert forall|i: int| 0 <= i < r@.len() - 1 implies #[trigger] r@[i].1 == r@[i
                + 1].0 by {
                if i < old_r.len() - 1 {
                    assert(r@[i] == old_r[i] && r@[i + 1] == old_r[i + 1]);
                } else {
                    assert(r@[i] == old_r[i]);
                }
            };
        }
        start = end;
    }
    proof {
        lemma_ranges_partition(r@, total as int, c as int);
    }
    r
}

/// The parts as sequences.
pub open spec fn part_views<T>(parts: Seq<Vec<T>>) -> Seq<Seq<T>> {
    parts.map_values(|p: Vec<T>| p@)
}

/// The results of the workers put back together: the parts one after the
/// other, in the order of the ranges they were cut from.
pub fn assemble_chunks<T>(parts: Vec<Vec<T>>) -> (out: Vec<T>)
    ensures
        out@ == part_views(parts@).flatten_alt(),
{
    let ghost ps = part_views(parts@);
    let n_parts = parts.len();
    assert(ps.len() == n_parts);
    let mut rest = parts;
    let mut rev: Vec<Vec<T>> = Vec::new();
    while rest.len() > 0
        invariant
            rev@.len() + rest@.len() == ps.len(),
            ps.len() <= usize::MAX,
            forall|k: int| 0 <= k < rest@.len() ==> #[trigger] rest@[k]@ == ps[k],
            forall|k: int| 0 <= k < rev@.len() ==> #[trigger] rev@[k]@ == ps[ps.len() - 1 - k],
        decreases rest@.len(),
    {
        let p = rest.pop().unwrap();
        rev.push(p);
    }
    let mut out: Vec<T> = Vec::new();
    let mut taken: usize = 0;
    assert(ps.take(0) =~= Seq::<Seq<T>>::empty());
    while rev.len() > 0
        invariant
            taken + rev@.len() == ps.len(),
            ps.len() <= usize::MAX,
            forall|k: int| 0 <= k < rev@.len() ==> #[trigger] rev@[k]@ == ps[ps.len() - 1 - k],
            out@ == ps.take(taken as int).flatten_alt(),
        decreases rev@.len(),
    {
        let mut p = rev.pop().unwrap();
        proof {
            assert(p@ == ps[taken as int]);
            assert(ps.take(taken + 1).drop_last() =~= ps.take(taken as int));
            assert(ps.take(taken + 1).last() == ps[taken as int]);
        }
        out.append(&mut p);
        taken = taken + 1;
    }
    assert(ps.take(ps.len() as int) =~= ps);
    out
}

proof fn lemma_reassemble_prefix<T>(rs: Seq<T>, ranges: Seq<(usize, usize)>, parts: Seq<Seq<T>>, m: int)
    requires
        cuts_into(ranges, rs.len() as int),
        parts.len() == ranges.len(),
        forall|j: int|
            0 <= j < parts.len() ==> #[trigger] parts[j] == rs.subrange(
                ranges[j].0 as int,
                ranges[j].1 as int,
            ),
        0 < m <= parts.len(),
    ensures
        parts.take(m).flatten_alt() == rs.subrange(0, ranges[m - 1].1 as int),
        ranges[m - 1].1 <= rs.len(),
    decreases m,
{
    let n = parts.len() as int;
    assert forall|j: int| 0 <= j < n implies #[trigger] ranges[j].1 <= rs.len() by {
        lemma_range_end_bounded(rs.len() as int, ranges, j);
    };
    assert(parts.take(m).drop_last() =~= parts.take(m - 1));
    assert(parts.take(m).last() == parts[m - 1]);
    if m == 1 {
        assert(parts.take(0) =~= Seq::<Seq<T>>::empty());
        assert(parts.take(0).flatten_alt() =~= Seq::<T>::empty());
        assert(parts.take(1).flatten_alt() == parts.take(0).flatten_alt() + parts[0]);
        assert(Seq::<T>::empty() + parts[0] =~= parts[0]);
        assert(ranges[0].0 == 0);
    } else {
        lemma_reassemble_prefix(rs, ranges, parts, m - 1);
        assert(ranges[m - 2].1 == ranges[m - 1].0);
        assert(rs.subrange(0, ranges[m - 2].1 as int) + rs.subrange(
            ranges[m - 1].0 as int,
            ranges[m - 1].1 as int,
        ) =~= rs.subrange(0, ranges[m - 1].1 as int));
    }
}

proof fn lemma_range_end_bounded(total: int, ranges: Seq<(usize, usize)>, j: int)
    requires
        cuts_into(ranges, total),
        0 <= j < ranges.len(),
    ensures
        ranges[j].1 <= total,
        ranges[j].0 <= ranges[j].1,
    decreases ranges.len() - j,
{
    if j < ranges.len() - 1 {
        lemma_range_end_bounded(total, ranges, j + 1);
        assert(ranges[j].1 == ranges[j + 1].0);
        assert(ranges[j + 1].0 < ranges[j + 1].1);
    }
    assert(ranges[j].0 < ranges[j].1);
}

/// However the items are cut into ranges for the workers, when each worker
/// hands back the results of its range in order, the assembled results are
/// the results of all items in item order: one per item, item `i`'s at `i`.
pub proof fn law_chunked_results_reassemble<T>(
    rs: Seq<T>,
    ranges: Seq<(usize, usize)>,
    parts: Seq<Seq<T>>,
)
    requires
        cuts_into(ranges, rs.len() as int),
        parts.len() == ranges.len(),
        forall|j: int|
            0 <= j < parts.len() ==> #[trigger] parts[j] == rs.subrange(
                ranges[j].0 as int,
                ranges[j].1 as int,
            ),
    ensures
        parts.flatten_alt() == rs,
{
    if parts.len() == 0 {
        assert(rs =~= Seq::<T>::empty());
    } else {
        lemma_reassemble_prefix(rs, ranges, parts, parts.len() as int);
        assert(parts.take(parts.len() as int) =~= parts);
        assert(rs.subrange(0, rs.len() as int) =~= rs);
    }
}

} // verus!
