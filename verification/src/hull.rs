//! The last stage of building a convex hull from candidate faces: merging
//! repeated faces, dropping degenerate ones, and renumbering the vertices
//! that remain.
use vstd::prelude::*;

verus! {

/// The corners of a face in increasing order, which identify it whatever
/// its orientation.
pub open spec fn face_key(f: [usize; 3]) -> (usize, usize, usize) {
    let (a, b, c) = (f@[0], f@[1], f@[2]);
    if a <= b {
        if b <= c {
            (a, b, c)
        } else if a <= c {
            (a, c, b)
        } else {
            (c, a, b)
        }
    } else {
        if a <= c {
            (b, a, c)
        } else if b <= c {
            (b, c, a)
        } else {
            (c, b, a)
        }
    }
}

/// `fs` with every face dropped whose key equals that of the face kept
/// just before it.
pub open spec fn dedup_faces(fs: Seq<[usize; 3]>) -> Seq<[usize; 3]>
    decreases fs.len(),
{
    if fs.len() == 0 {
        Seq::empty()
    } else {
        let d = dedup_faces(fs.drop_last());
        if d.len() > 0 && face_key(d.last()) == face_key(fs.last()) {
            d
        } else {
            d.push(fs.last())
        }
    }
}

/// How many corners of `f` are `v`.
pub open spec fn corner_count(f: [usize; 3], v: usize) -> int {
    (if f@[0] == v { 1int } else { 0int }) + (if f@[1] == v { 1int } else { 0int }) + (if f@[2]
        == v { 1int } else { 0int })
}

/// How many entries of the triple `k` are `v`.
pub open spec fn triple_count(k: (usize, usize, usize), v: usize) -> int {
    (if k.0 == v { 1int } else { 0int }) + (if k.1 == v { 1int } else { 0int }) + (if k.2 == v {
        1int
    } else {
        0int
    })
}

/// Whether two faces have the same corners, counted with repetition.
pub open spec fn same_corners(f: [usize; 3], g: [usize; 3]) -> bool {
    forall|v: usize| corner_count(f, v) == corner_count(g, v)
}

/// The key of a face is its three corners in increasing order.
pub proof fn lemma_face_key_sorts(f: [usize; 3])
    ensures
        face_key(f).0 <= face_key(f).1 <= face_key(f).2,
        forall|v: usize| triple_count(face_key(f), v) == corner_count(f, v),
{
}

/// Two faces have the same key exactly when they have the same corners.
pub proof fn lemma_face_key_same_corners(f: [usize; 3], g: [usize; 3])
    ensures
        face_key(f) == face_key(g) <==> same_corners(f, g),
{
    lemma_face_key_sorts(f);
    lemma_face_key_sorts(g);
    let (a, b, c) = face_key(f);
    let (x, y, z) = face_key(g);
    if same_corners(f, g) {
        assert(corner_count(f, a) == corner_count(g, a));
        assert(corner_count(f, b) == corner_count(g, b));
        assert(corner_count(f, c) == corner_count(g, c));
        assert(corner_count(f, x) == corner_count(g, x));
        assert(corner_count(f, y) == corner_count(g, y));
        assert(corner_count(f, z) == corner_count(g, z));
        assert(triple_count(face_key(f), a) == triple_count(face_key(g), a));
        assert(triple_count(face_key(f), b) == triple_count(face_key(g), b));
        assert(triple_count(face_key(f), c) == triple_count(face_key(g), c));
        assert(triple_count(face_key(f), x) == triple_count(face_key(g), x));
        assert(triple_count(face_key(f), y) == triple_count(face_key(g), y));
        assert(triple_count(face_key(f), z) == triple_count(face_key(g), z));
    }
    if face_key(f) == face_key(g) {
        assert forall|v: usize| corner_count(f, v) == corner_count(g, v) by {
            assert(triple_count(face_key(f), v) == corner_count(f, v));
            assert(triple_count(face_key(g), v) == corner_count(g, v));
        }
    }
}

/// Merging repeated faces drops a face only when it has the same corners
/// as the face kept just before it: every kept face is a face of `fs`, no
/// two consecutive kept faces have the same corners, and when no two
/// consecutive faces of `fs` have the same corners, all are kept.
pub proof fn lemma_dedup_faces_corners(fs: Seq<[usize; 3]>)
    ensures
        forall|i: int| 0 <= i < dedup_faces(fs).len() ==> fs.contains(#[trigger] dedup_faces(fs)[i]),
        forall|i: int|
            0 < i < dedup_faces(fs).len() ==> !same_corners(
                dedup_faces(fs)[i - 1],
                #[trigger] dedup_faces(fs)[i],
            ),
        (forall|i: int| 0 < i < fs.len() ==> !same_corners(fs[i - 1], #[trigger] fs[i]))
            ==> dedup_faces(fs) == fs,
    decreases fs.len(),
{
    if fs.len() > 0 {
        let prev = fs.drop_last();
        lemma_dedup_faces_corners(prev);
        let d = dedup_faces(prev);
        let l = fs.last();
        if d.len() > 0 {
            lemma_face_key_same_corners(d.last(), l);
        }
        assert forall|i: int| 0 <= i < dedup_faces(fs).len() implies fs.contains(
            #[trigger] dedup_faces(fs)[i],
        ) by {
            if i < d.len() {
                assert(prev.contains(d[i]));
                let j = choose|j: int| 0 <= j < prev.len() && prev[j] == d[i];
                assert(fs[j] == d[i]);
            } else {
                assert(fs[fs.len() - 1] == l);
            }
        }
        if forall|i: int| 0 < i < fs.len() ==> !same_corners(fs[i - 1], #[trigger] fs[i]) {
            assert forall|i: int| 0 < i < prev.len() implies !same_corners(prev[i - 1], #[trigger] prev[i]) by {
                assert(prev[i] == fs[i] && prev[i - 1] == fs[i - 1]);
            }
            assert(d == prev);
            if prev.len() > 0 {
                assert(!same_corners(fs[fs.len() - 2], fs[fs.len() - 1]));
                assert(d.last() == fs[fs.len() - 2]);
            }
            assert(dedup_faces(fs) =~= fs);
        }
    }
}

/// Whether a face has three different corners.
pub open spec fn non_degenerate(f: [usize; 3]) -> bool {
    f@[0] != f@[1] && f@[1] != f@[2] && f@[0] != f@[2]
}

/// The faces of `fs` with three different corners, in order.
pub open spec fn proper_faces(fs: Seq<[usize; 3]>) -> Seq<[usize; 3]>
    decreases fs.len(),
{
    if fs.len() == 0 {
        Seq::empty()
    } else if non_degenerate(fs.last()) {
        proper_faces(fs.drop_last()).push(fs.last())
    } else {
        proper_faces(fs.drop_last())
    }
}

/// Whether vertex `v` is a corner of some face of `fs`.
pub open spec fn used_by(fs: Seq<[usize; 3]>, v: usize) -> bool {
    exists|t: int, c: int| 0 <= t < fs.len() && 0 <= c < 3 && fs[t]@[c] == v
}

/// Whether `s` increases strictly.
pub open spec fn strictly_increasing(s: Seq<usize>) -> bool {
    forall|i: int, j: int| 0 <= i < j < s.len() ==> s[i] < s[j]
}

/// The position of `v` in `s`.
pub open spec fn position_of(s: Seq<usize>, v: usize) -> int {
    choose|i: int| 0 <= i < s.len() && s[i] == v
}

fn key_of(f: &[usize; 3]) -> (r: (usize, usize, usize))
    ensures
        r == face_key(*f),
{
    let (a, b, c) = (f[0], f[1], f[2]);
    if a <= b {
        if b <= c {
            (a, b, c)
        } else if a <= c {
            (a, c, b)
        } else {
            (c, a, b)
        }
    } else {
        if a <= c {
            (b, a, c)
        } else if b <= c {
            (b, c, a)
        } else {
            (c, b, a)
        }
    }
}

/// Whether `v` is a corner of a face of `fs`.
fn is_used(fs: &Vec<[usize; 3]>, v: usize) -> (r: bool)
    ensures
        r == used_by(fs@, v),
{
    let mut t: usize = 0;
    while t < fs.len()
        invariant
            t <= fs@.len(),
            forall|u: int, c: int| 0 <= u < t && 0 <= c < 3 ==> fs@[u]@[c] != v,
        decreases fs@.len() - t,
    {
        if fs[t][0] == v || fs[t][1] == v || fs[t][2] == v {
            assert(fs@[t as int]@[0] == v || fs@[t as int]@[1] == v || fs@[t as int]@[2] == v);
            return true;
        }
        t += 1;
    }
    false
}

/// Finishes a hull from its candidate faces: merges each face with the one
/// kept before it when they have the same corners, drops faces with a
/// repeated corner, and lists the vertices that the remaining faces use,
/// in increasing order; the faces are renumbered into that list (as
/// `u16`). Gives the list and the renumbered faces.
pub fn finish_hull(faces: Vec<[usize; 3]>) -> (r: (Vec<usize>, Vec<[u16; 3]>))
    ensures
        strictly_increasing(r.0@),
        forall|v: usize| r.0@.contains(v) <==> used_by(proper_faces(dedup_faces(faces@)), v),
        r.1@.len() == proper_faces(dedup_faces(faces@)).len(),
        forall|t: int, c: int|
            0 <= t < r.1@.len() && 0 <= c < 3 ==> (#[trigger] r.1@[t]@[c]) as int == position_of(
                r.0@,
                proper_faces(dedup_faces(faces@))[t]@[c],
            ) % 65536,
{
    let mut deduped: Vec<[usize; 3]> = Vec::new();
    let mut i: usize = 0;
    while i < faces.len()
        invariant
            i <= faces@.len(),
            deduped@ == dedup_faces(faces@.take(i as int)),
        decreases faces@.len() - i,
    {
        assert(faces@.take(i + 1).drop_last() =~= faces@.take(i as int));
        let keep = if deduped.len() > 0 {
            let last = deduped.len() - 1;
            let ka = key_of(&deduped[last]);
            let kb = key_of(&faces[i]);
            !(ka.0 == kb.0 && ka.1 == kb.1 && ka.2 == kb.2)
        } else {
            true
        };
        if keep {
            deduped.push(faces[i]);
        }
        i += 1;
    }
    assert(faces@.take(i as int) =~= faces@);
    let mut kept: Vec<[usize; 3]> = Vec::new();
    let mut j: usize = 0;
    while j < deduped.len()
        invariant
            j <= deduped@.len(),
            kept@ == proper_faces(deduped@.take(j as int)),
        decreases deduped@.len() - j,
    {
        assert(deduped@.take(j + 1).drop_last() =~= deduped@.take(j as int));
        let f = deduped[j];
        if f[0] != f[1] && f[1] != f[2] && f[0] != f[2] {
            kept.push(f);
        }
        j += 1;
    }
    assert(deduped@.take(j as int) =~= deduped@);
    let ghost fs = kept@;
    let mut top: usize = 0;
    let mut any = false;
    let mut t: usize = 0;
    while t < kept.len()
        invariant
            fs == kept@,
            t <= fs.len(),
            any == (t > 0),
            forall|u: int, c: int| 0 <= u < t && 0 <= c < 3 ==> fs[u]@[c] <= top,
        decreases fs.len() - t,
    {
        let f = kept[t];
        if f[0] > top {
            top = f[0];
        }
        if f[1] > top {
            top = f[1];
        }
        if f[2] > top {
            top = f[2];
        }
        any = true;
        t += 1;
    }
    let mut used: Vec<usize> = Vec::new();
    if any {
        let mut v: usize = 0;
        loop
            invariant_except_break
                forall|k: int| 0 <= k < used@.len() ==> used@[k] < v,
                forall|w: usize| w < v ==> (used@.contains(w) <==> used_by(fs, w)),
            invariant
                fs == kept@,
                v <= top,
                forall|u: int, c: int| 0 <= u < fs.len() && 0 <= c < 3 ==> fs[u]@[c] <= top,
                strictly_increasing(used@),
            ensures
                forall|k: int| 0 <= k < used@.len() ==> used@[k] <= top,
                forall|w: usize| w <= top ==> (used@.contains(w) <==> used_by(fs, w)),
            decreases top - v,
        {
            let ghost before = used@;
            if is_used(&kept, v) {
                used.push(v);
                assert(used@[used@.len() - 1] == v);
            }
            assert forall|w: usize| w <= v implies (used@.contains(w) <==> used_by(fs, w)) by {
                if w < v {
                    if before.contains(w) {
                        let k = choose|k: int| 0 <= k < before.len() && before[k] == w;
                        assert(used@[k] == w);
                    }
                    if used@.contains(w) {
                        let k = choose|k: int| 0 <= k < used@.len() && used@[k] == w;
                        if k < before.len() {
                            assert(before[k] == w);
                        }
                    }
                } else {
                    if used@.contains(w) {
                        let k = choose|k: int| 0 <= k < used@.len() && used@[k] == w;
                        if k < before.len() {
                            assert(before[k] < v);
                        }
                    }
                    if used_by(fs, w) {
                        assert(used@[used@.len() - 1] == w);
                    }
                }
            }
            if v == top {
                break ;
            }
            v += 1;
        }
        assert forall|w: usize| (used@.contains(w) <==> used_by(fs, w)) by {
            if w > top {
                if used_by(fs, w) {
                    let (u, c) = choose|u: int, c: int|
                        0 <= u < fs.len() && 0 <= c < 3 && fs[u]@[c] == w;
                    assert(fs[u]@[c] <= top);
                }
                if used@.contains(w) {
                    let k = choose|k: int| 0 <= k < used@.len() && used@[k] == w;
                    assert(used@[k] <= top);
                }
            }
        }
    } else {
        assert forall|w: usize| !used_by(fs, w) by {
        }
    }
    let mut tris: Vec<[u16; 3]> = Vec::new();
    let mut u: usize = 0;
    while u < kept.len()
        invariant
            fs == kept@,
            u <= fs.len(),
            strictly_increasing(used@),
            forall|w: usize| used@.contains(w) <==> used_by(fs, w),
            tris@.len() == u,
            forall|a: int, c: int|
                0 <= a < u && 0 <= c < 3 ==> (#[trigger] tris@[a]@[c]) as int == position_of(
                    used@,
                    fs[a]@[c],
                ) % 65536,
        decreases fs.len() - u,
    {
        let f = kept[u];
        let mut tri: [u16; 3] = [0, 0, 0];
        let mut c: usize = 0;
        while c < 3
            invariant
                fs == kept@,
                u < fs.len(),
                f == fs[u as int],
                c <= 3,
                strictly_increasing(used@),
                forall|w: usize| used@.contains(w) <==> used_by(fs, w),
                forall|d: int| 0 <= d < c ==> (#[trigger] tri@[d]) as int == position_of(
                    used@,
                    fs[u as int]@[d],
                ) % 65536,
            decreases 3 - c,
        {
            let w = f[c];
            assert(used_by(fs, w)) by {
                assert(fs[u as int]@[c as int] == w);
            }
            assert(used@.contains(w));
            let mut k: usize = 0;
            while k < used.len() && used[k] != w
                invariant
                    k <= used@.len(),
                    used@.contains(w),
                    forall|q: int| 0 <= q < k ==> used@[q] != w,
                decreases used@.len() - k,
            {
                k += 1;
            }
            assert(k < used@.len() && used@[k as int] == w) by {
                if k >= used@.len() {
                    let q = choose|q: int| 0 <= q < used@.len() && used@[q] == w;
                    assert(used@[q] != w);
                }
            }
            let ghost p = position_of(used@, w);
            assert(p == k as int) by {
                let p2 = position_of(used@, w);
                if p2 < k {
                    assert(used@[p2] < used@[k as int]);
                } else if p2 > k {
                    assert(used@[k as int] < used@[p2]);
                }
            }
            assert(k as u16 == k % 65536) by (bit_vector);
            tri[c] = k as u16;
            c += 1;
        }
        tris.push(tri);
        u += 1;
    }
    (used, tris)
}

} // verus!
