//! Byte-level comparison of two decompressed pool streams, and the BMSH
//! records of a HOD file, for comparing a generated file with a reference.
use crate::bytes::{u32_at_be, read_u32_be};
use vstd::prelude::*;

verus! {

/// Number of positions below `n` where `a` and `b` differ.
pub open spec fn count_diffs(a: Seq<u8>, b: Seq<u8>, n: int) -> int
    decreases n,
{
    if n <= 0 {
        0
    } else {
        count_diffs(a, b, n - 1) + if a[n - 1] != b[n - 1] {
            1int
        } else {
            0
        }
    }
}

/// The maximal runs of differing positions below `i`, as half-open ranges,
/// the run still open at `i` left out; whether a run is open at `i`; and
/// where it starts.
pub open spec fn region_scan(a: Seq<u8>, b: Seq<u8>, i: int) -> (Seq<(usize, usize)>, bool, int)
    decreases i,
{
    if i <= 0 {
        (Seq::empty(), false, 0)
    } else {
        let (rs, open, start) = region_scan(a, b, i - 1);
        if a[i - 1] != b[i - 1] {
            if open {
                (rs, true, start)
            } else {
                (rs, true, i - 1)
            }
        } else if open {
            (rs.push((start as usize, (i - 1) as usize)), false, start)
        } else {
            (rs, false, start)
        }
    }
}

/// The maximal runs of differing positions below `n`, as half-open ranges.
pub open spec fn diff_regions(a: Seq<u8>, b: Seq<u8>, n: int) -> Seq<(usize, usize)> {
    let (rs, open, start) = region_scan(a, b, n);
    if open {
        rs.push((start as usize, n as usize))
    } else {
        rs
    }
}

/// The first position below `n` where `a` and `b` differ.
pub open spec fn first_diff_below(a: Seq<u8>, b: Seq<u8>, n: int) -> Option<usize>
    decreases n,
{
    if n <= 0 {
        None
    } else {
        match first_diff_below(a, b, n - 1) {
            Some(f) => Some(f),
            None => if a[n - 1] != b[n - 1] {
                Some((n - 1) as usize)
            } else {
                None
            },
        }
    }
}

/// Among the first `v` records of `stride` bytes, the number where byte
/// `col` differs.
pub open spec fn column_diffs(a: Seq<u8>, b: Seq<u8>, stride: int, col: int, v: int) -> int
    decreases v,
{
    if v <= 0 {
        0
    } else {
        column_diffs(a, b, stride, col, v - 1) + if a[(v - 1) * stride + col] != b[(v - 1)
            * stride + col] {
            1int
        } else {
            0
        }
    }
}

proof fn lemma_column_diffs_bound(a: Seq<u8>, b: Seq<u8>, stride: int, col: int, v: int)
    requires
        0 <= v,
    ensures
        0 <= column_diffs(a, b, stride, col, v) <= v,
    decreases v,
{
    if v > 0 {
        lemma_column_diffs_bound(a, b, stride, col, v - 1);
    }
}

/// The result of comparing two streams over their common length.
pub struct PoolComparison {
    /// The length compared: the shorter of the two.
    pub compare_len: usize,
    pub diff_count: usize,
    pub first_diff: Option<usize>,
    /// Maximal runs of differing bytes, as half-open ranges.
    pub regions: Vec<(usize, usize)>,
    /// For a vertex stream of at least 16 bytes per vertex: per byte of a
    /// vertex, the number of vertices where that byte differs.
    pub heatmap: Option<Vec<u32>>,
}

/// Whether `name` is "Mesh".
fn is_mesh(name: &str) -> (r: bool)
    ensures
        r == (name@ == "Mesh"@),
{
    String::from_str(name) == String::from_str("Mesh")
}

/// Compares the stream `name` of two files byte by byte.
pub fn compare_pools(name: &str, hodor: &[u8], generated: &[u8], stride: usize) -> (r:
    PoolComparison)
    requires
        stride >= 16 ==> (if hodor@.len() < generated@.len() {
            hodor@.len() as int
        } else {
            generated@.len() as int
        }) / (stride as int) <= u32::MAX,
    ensures
        r.compare_len == if hodor@.len() < generated@.len() {
            hodor@.len()
        } else {
            generated@.len()
        },
        r.diff_count == count_diffs(hodor@, generated@, r.compare_len as int),
        r.first_diff == first_diff_below(hodor@, generated@, r.compare_len as int),
        r.regions@ == diff_regions(hodor@, generated@, r.compare_len as int),
        (name@ == "Mesh"@ && stride >= 16) ==> (r.heatmap matches Some(h) && h@.len() == stride
            && forall|c: int|
            0 <= c < stride ==> #[trigger] h@[c] == column_diffs(
                hodor@,
                generated@,
                stride as int,
                c,
                r.compare_len as int / stride as int,
            )),
        !(name@ == "Mesh"@ && stride >= 16) ==> r.heatmap is None,
{
    let compare_len = if hodor.len() < generated.len() {
        hodor.len()
    } else {
        generated.len()
    };
    let mut first_diff: Option<usize> = None;
    let mut diff_count: usize = 0;
    let mut diff_regions: Vec<(usize, usize)> = Vec::new();
    let mut in_diff = false;
    let mut diff_start: usize = 0;
    let mut i: usize = 0;
    while i < compare_len
        invariant
            compare_len <= hodor@.len(),
            compare_len <= generated@.len(),
            i <= compare_len,
            diff_count == count_diffs(hodor@, generated@, i as int),
            diff_count <= i,
            first_diff == first_diff_below(hodor@, generated@, i as int),
            (diff_regions@, in_diff, diff_start as int) == region_scan(hodor@, generated@, i as int),
            diff_start <= i,
        decreases compare_len - i,
    {
        if hodor[i] != generated[i] {
            diff_count += 1;
            if first_diff.is_none() {
                first_diff = Some(i);
            }
            if !in_diff {
                in_diff = true;
                diff_start = i;
            }
        } else if in_diff {
            in_diff = false;
            diff_regions.push((diff_start, i));
        }
        i += 1;
    }
    if in_diff {
        diff_regions.push((diff_start, compare_len));
    }
    let heatmap = if is_mesh(name) && stride >= 16 {
        let vertex_count = compare_len / stride;
        let mut histogram: Vec<u32> = Vec::new();
        let mut c: usize = 0;
        while c < stride
            invariant
                c <= stride,
                histogram@.len() == c,
                forall|k: int| 0 <= k < c ==> #[trigger] histogram@[k] == 0,
            decreases stride - c,
        {
            histogram.push(0);
            c += 1;
        }
        let mut v: usize = 0;
        while v < vertex_count
            invariant
                stride >= 16,
                vertex_count == compare_len / stride,
                vertex_count <= u32::MAX,
                compare_len <= hodor@.len(),
                compare_len <= generated@.len(),
                v <= vertex_count,
                histogram@.len() == stride,
                forall|k: int|
                    0 <= k < stride ==> #[trigger] histogram@[k] == column_diffs(
                        hodor@,
                        generated@,
                        stride as int,
                        k,
                        v as int,
                    ),
            decreases vertex_count - v,
        {
            assert(vertex_count * stride <= compare_len) by (nonlinear_arith)
                requires
                    vertex_count == compare_len / stride,
                    stride >= 16,
            ;
            assert(v * stride + stride <= compare_len) by (nonlinear_arith)
                requires
                    v < vertex_count,
                    vertex_count * stride <= compare_len,
            ;
            proof {
                assert forall|k: int| 0 <= k < stride implies #[trigger] histogram@[k] <= v by {
                    lemma_column_diffs_bound(hodor@, generated@, stride as int, k, v as int);
                }
            }
            let base = v * stride;
            let ghost before = histogram@;
            let mut b: usize = 0;
            while b < stride
                invariant
                    stride >= 16,
                    base == v * stride,
                    base + stride <= compare_len,
                    compare_len <= hodor@.len(),
                    compare_len <= generated@.len(),
                    v < vertex_count,
                    vertex_count <= u32::MAX,
                    b <= stride,
                    histogram@.len() == stride,
                    forall|k: int|
                        0 <= k < b ==> #[trigger] histogram@[k] == column_diffs(
                            hodor@,
                            generated@,
                            stride as int,
                            k,
                            v + 1,
                        ),
                    forall|k: int| b <= k < stride ==> #[trigger] histogram@[k] == before[k],
                    forall|k: int|
                        0 <= k < stride ==> #[trigger] before[k] == column_diffs(
                            hodor@,
                            generated@,
                            stride as int,
                            k,
                            v as int,
                        ),
                    forall|k: int| 0 <= k < stride ==> #[trigger] before[k] <= v,
                decreases stride - b,
            {
                let offset = base + b;
                if offset < compare_len && hodor[offset] != generated[offset] {
                    let count = histogram[b];
                    histogram.set(b, count + 1);
                }
                b += 1;
            }
            v += 1;
        }
        Some(histogram)
    } else {
        None
    };
    PoolComparison { compare_len, diff_count, first_diff, regions: diff_regions, heatmap }
}

/// Whether the four bytes at `p` of `s` are `a`, `b`, `c`, `d`.
pub open spec fn tag_at(s: Seq<u8>, p: int, a: char, b: char, c: char, d: char) -> bool {
    s[p] == a as u8 && s[p + 1] == b as u8 && s[p + 2] == c as u8 && s[p + 3] == d as u8
}

/// The BMSH payload found at `i`, if a BMSH tag there follows an NRML
/// header: from 8 bytes after the tag, as many bytes as the NRML size less
/// 8, cut at the end of the file; nothing when that is empty.
pub open spec fn bmsh_at(s: Seq<u8>, i: int) -> Option<Seq<u8>> {
    if tag_at(s, i, 'B', 'M', 'S', 'H') && i >= 8 && tag_at(s, i - 8, 'N', 'R', 'M', 'L') {
        let start = i + 8;
        let want = start + u32_at_be(s, i - 4) as int - 8;
        let end = if want < s.len() {
            want
        } else {
            s.len() as int
        };
        if end > start {
            Some(s.subrange(start, end))
        } else {
            None
        }
    } else {
        None
    }
}

/// The BMSH payloads found at positions below `i`, in order.
pub open spec fn bmsh_scan(s: Seq<u8>, i: int) -> Seq<Seq<u8>>
    decreases i,
{
    if i <= 0 {
        Seq::empty()
    } else {
        match bmsh_at(s, i - 1) {
            Some(r) => bmsh_scan(s, i - 1).push(r),
            None => bmsh_scan(s, i - 1),
        }
    }
}

/// The views of a sequence of byte vectors.
pub open spec fn byte_vecs_view(v: Seq<Vec<u8>>) -> Seq<Seq<u8>> {
    v.map_values(|b: Vec<u8>| b@)
}

/// Whether the four bytes at `p` are `t`.
fn has_tag(data: &[u8], p: usize, t: [u8; 4]) -> (r: bool)
    requires
        p + 4 <= data@.len(),
    ensures
        r == (data@[p as int] == t@[0] && data@[p + 1] == t@[1] && data@[p + 2] == t@[2]
            && data@[p + 3] == t@[3]),
{
    data[p] == t[0] && data[p + 1] == t[1] && data[p + 2] == t[2] && data[p + 3] == t[3]
}

/// The payloads of the BMSH chunks nested in NRML chunks of a HOD file, in
/// the order they appear.
pub fn extract_bmsh_data(data: &[u8]) -> (r: Vec<Vec<u8>>)
    ensures
        byte_vecs_view(r@) == bmsh_scan(
            data@,
            if data@.len() < 8 {
                0
            } else {
                data@.len() - 8
            },
        ),
{
    let len = data.len();
    let limit = if len < 8 {
        0
    } else {
        len - 8
    };
    let bmsh = ['B' as u8, 'M' as u8, 'S' as u8, 'H' as u8];
    let nrml = ['N' as u8, 'R' as u8, 'M' as u8, 'L' as u8];
    let mut results: Vec<Vec<u8>> = Vec::new();
    let mut i: usize = 0;
    while i < limit
        invariant
            len == data@.len(),
            limit <= len,
            limit == 0 || limit + 8 == len,
            i <= limit,
            bmsh@ == seq!['B' as u8, 'M' as u8, 'S' as u8, 'H' as u8],
            nrml@ == seq!['N' as u8, 'R' as u8, 'M' as u8, 'L' as u8],
            byte_vecs_view(results@) == bmsh_scan(data@, i as int),
        decreases limit - i,
    {
        let ghost before = results@;
        if has_tag(data, i, bmsh) && i >= 8 && has_tag(data, i - 8, nrml) {
            let nrml_size = read_u32_be(data, i - 4) as u128;
            let start = i + 8;
            let want = start as u128 + nrml_size - 8;
            let end = if want < len as u128 {
                want as usize
            } else {
                len
            };
            if end > start {
                let mut rec: Vec<u8> = Vec::new();
                let mut k: usize = start;
                while k < end
                    invariant
                        start <= k <= end,
                        end <= data@.len(),
                        rec@ == data@.subrange(start as int, k as int),
                    decreases end - k,
                {
                    rec.push(data[k]);
                    k += 1;
                    assert(rec@ =~= data@.subrange(start as int, k as int));
                }
                results.push(rec);
            }
        }
        assert(byte_vecs_view(results@) =~= bmsh_scan(data@, i + 1));
        i += 1;
    }
    results
}

} // verus!
