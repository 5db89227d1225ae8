//! Mesh names and their level-of-detail suffixes.
use vstd::prelude::*;

verus! {

/// Whether `p` occurs in `s` starting at `k`.
pub open spec fn occurs_at(s: Seq<char>, p: Seq<char>, k: int) -> bool {
    0 <= k && k + p.len() <= s.len() && s.subrange(k, k + p.len()) == p
}

/// Whether `k` is the first position where `p` occurs in `s`.
pub open spec fn is_first_occurrence(s: Seq<char>, p: Seq<char>, k: int) -> bool {
    occurs_at(s, p, k) && forall|j: int| 0 <= j < k ==> !occurs_at(s, p, j)
}

/// Whether `k` is the last position where `p` occurs in `s`.
pub open spec fn is_last_occurrence(s: Seq<char>, p: Seq<char>, k: int) -> bool {
    occurs_at(s, p, k) && forall|j: int| k < j ==> !occurs_at(s, p, j)
}

/// Whether `p` occurs somewhere in `s`.
pub open spec fn contains_pattern(s: Seq<char>, p: Seq<char>) -> bool {
    exists|k: int| occurs_at(s, p, k)
}

/// Whether `s` is made of ASCII digits only.
pub open spec fn all_digits(s: Seq<char>) -> bool {
    forall|i: int| 0 <= i < s.len() ==> '0' <= #[trigger] s[i] <= '9'
}

/// The name with a level-of-detail suffix of the form `_LOD<digits>` or
/// `_lod<digits>`, found from its last occurrence, removed.
pub open spec fn strip_numbered_suffix(s: Seq<char>, p: Seq<char>) -> Seq<char> {
    let k = choose|k: int| is_last_occurrence(s, p, k);
    let suffix = s.skip(k + 4);
    if suffix.len() > 0 && all_digits(suffix) {
        s.take(k)
    } else {
        s
    }
}

/// The pattern `_lod_`.
pub open spec fn lod_infix() -> Seq<char> {
    seq!['_', 'l', 'o', 'd', '_']
}

/// The pattern `_LOD`.
pub open spec fn upper_lod() -> Seq<char> {
    seq!['_', 'L', 'O', 'D']
}

/// The pattern `_lod`.
pub open spec fn lower_lod() -> Seq<char> {
    seq!['_', 'l', 'o', 'd']
}

/// The name that all levels of detail of a mesh share: what precedes the
/// first `_lod_`; else, when there is an `_LOD`, the name without its last
/// `_LOD` when only digits (at least one) follow it, or the whole name;
/// else the same for `_lod`; else the whole name.
pub open spec fn base_name(s: Seq<char>) -> Seq<char> {
    if contains_pattern(s, lod_infix()) {
        s.take(choose|k: int| is_first_occurrence(s, lod_infix(), k))
    } else if contains_pattern(s, upper_lod()) {
        strip_numbered_suffix(s, upper_lod())
    } else if contains_pattern(s, lower_lod()) {
        strip_numbered_suffix(s, lower_lod())
    } else {
        s
    }
}

/// The characters of `s`.
fn chars_of(s: &str) -> (r: Vec<char>)
    ensures
        r@ == s@,
{
    let n = s.unicode_len();
    let mut r: Vec<char> = Vec::new();
    let mut i: usize = 0;
    while i < n
        invariant
            n == s@.len(),
            i <= n,
            r@ == s@.take(i as int),
        decreases n - i,
    {
        r.push(s.get_char(i));
        i += 1;
        assert(r@ =~= s@.take(i as int));
    }
    assert(s@.take(n as int) =~= s@);
    r
}

/// Whether `pat` occurs in `s` at `k`.
fn matches_at(s: &Vec<char>, pat: &[char], k: usize) -> (r: bool)
    ensures
        r == occurs_at(s@, pat@, k as int),
{
    if k > s.len() || pat.len() > s.len() - k {
        return false;
    }
    let n = s.len();
    let mut i: usize = 0;
    while i < pat.len()
        invariant
            n == s@.len(),
            k + pat@.len() <= s@.len(),
            i <= pat@.len(),
            forall|j: int| 0 <= j < i ==> s@[k + j] == pat@[j],
        decreases pat@.len() - i,
    {
        if s[k + i] != pat[i] {
            assert(s@.subrange(k as int, k + pat@.len())[i as int] != pat@[i as int]);
            return false;
        }
        i += 1;
    }
    assert(s@.subrange(k as int, k + pat@.len()) =~= pat@);
    true
}

/// The first position where `pat` occurs in `s`.
fn find_first(s: &Vec<char>, pat: &[char]) -> (r: Option<usize>)
    ensures
        r matches Some(k) ==> is_first_occurrence(s@, pat@, k as int),
        r is None ==> !contains_pattern(s@, pat@),
{
    let n = s.len();
    let mut k: usize = 0;
    loop
        invariant
            n == s@.len(),
            k <= n,
            forall|j: int| 0 <= j < k ==> !occurs_at(s@, pat@, j),
        decreases n - k,
    {
        if matches_at(s, pat, k) {
            return Some(k);
        }
        if k == n {
            assert forall|j: int| !occurs_at(s@, pat@, j) by {
                if 0 <= j < k {
                }
            }
            return None;
        }
        k += 1;
    }
}

/// The last position where `pat` occurs in `s`.
fn find_last(s: &Vec<char>, pat: &[char]) -> (r: Option<usize>)
    ensures
        r matches Some(k) ==> is_last_occurrence(s@, pat@, k as int),
        r is None ==> !contains_pattern(s@, pat@),
{
    let mut k: usize = s.len();
    loop
        invariant
            k <= s@.len(),
            forall|j: int| k < j ==> !occurs_at(s@, pat@, j),
        decreases k,
    {
        if matches_at(s, pat, k) {
            return Some(k);
        }
        if k == 0 {
            assert forall|j: int| !occurs_at(s@, pat@, j) by {
                if 0 < j {
                }
            }
            return None;
        }
        k -= 1;
    }
}

/// Whether the characters of `s` from `from` on are digits, and there is at
/// least one.
fn digits_from(s: &Vec<char>, from: usize) -> (r: bool)
    requires
        from <= s@.len(),
    ensures
        r == (s@.skip(from as int).len() > 0 && all_digits(s@.skip(from as int))),
{
    if from == s.len() {
        return false;
    }
    let mut i: usize = from;
    while i < s.len()
        invariant
            from <= i <= s@.len(),
            forall|j: int| from <= j < i ==> '0' <= #[trigger] s@[j] <= '9',
        decreases s@.len() - i,
    {
        let c = s[i];
        if !(c >= '0' && c <= '9') {
            assert(s@.skip(from as int)[i - from] == c);
            return false;
        }
        i += 1;
    }
    assert forall|j: int| 0 <= j < s@.skip(from as int).len() implies '0' <= #[trigger] s@.skip(
        from as int,
    )[j] <= '9' by {
        assert(s@.skip(from as int)[j] == s@[from + j]);
    }
    true
}

/// `s` without a numbered suffix `pat` that is known to occur last at `k`.
fn strip_at(name: &str, s: &Vec<char>, pat: &[char], k: usize) -> (r: String)
    requires
        s@ == name@,
        pat@.len() == 4,
        is_last_occurrence(s@, pat@, k as int),
    ensures
        r@ == strip_numbered_suffix(s@, pat@),
{
    let ghost c = choose|c: int| is_last_occurrence(s@, pat@, c);
    assert(c == k) by {
        if c < k {
            assert(!occurs_at(s@, pat@, k as int));
        } else if c > k {
            assert(!occurs_at(s@, pat@, c));
        }
    }
    let n = s.len();
    assert(k + 4 <= n);
    if digits_from(s, k + 4) {
        String::from_str(name.substring_char(0, k))
    } else {
        String::from_str(name)
    }
}

/// The name shared by all levels of detail of the mesh `name`.
pub fn get_base_name(name: &str) -> (r: String)
    ensures
        r@ == base_name(name@),
{
    let s = chars_of(name);
    let infix = ['_', 'l', 'o', 'd', '_'];
    let upper = ['_', 'L', 'O', 'D'];
    let lower = ['_', 'l', 'o', 'd'];
    assert(infix@ == lod_infix());
    assert(upper@ == upper_lod());
    assert(lower@ == lower_lod());
    if let Some(idx) = find_first(&s, infix.as_slice()) {
        let ghost c = choose|c: int| is_first_occurrence(s@, lod_infix(), c);
        assert(c == idx) by {
            if c < idx {
                assert(!occurs_at(s@, lod_infix(), c));
            } else if c > idx {
                assert(!occurs_at(s@, lod_infix(), idx as int));
            }
        }
        String::from_str(name.substring_char(0, idx))
    } else if let Some(idx) = find_last(&s, upper.as_slice()) {
        strip_at(name, &s, upper.as_slice(), idx)
    } else if let Some(idx) = find_last(&s, lower.as_slice()) {
        strip_at(name, &s, lower.as_slice(), idx)
    } else {
        String::from_str(name)
    }
}

} // verus!
