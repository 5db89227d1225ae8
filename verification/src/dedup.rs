//! Merging vertices that are identical attribute for attribute.
use crate::mesh::{clone_vertex, copy_bytes, vertices_view, HODVertex, Vector2, Vector3, VertexView};
use vstd::prelude::*;

verus! {

/// Whether `bits` is the pattern of a NaN: all exponent bits set and a
/// nonzero fraction.
pub open spec fn is_nan_bits(bits: u32) -> bool {
    (bits & 0x7f80_0000) == 0x7f80_0000 && (bits & 0x007f_ffff) != 0
}

/// The key of one float component: its bit pattern, with every NaN mapped to 0.
pub open spec fn float_key(bits: u32) -> u32 {
    if is_nan_bits(bits) {
        0
    } else {
        bits
    }
}

/// The key of an `f32` given by its bit pattern: the pattern itself, or 0
/// for a NaN, so that all NaNs compare equal.
pub fn f32_to_u32(bits: u32) -> (r: u32)
    ensures
        r == float_key(bits),
{
    if (bits & 0x7f80_0000) == 0x7f80_0000 && (bits & 0x007f_ffff) != 0 {
        0
    } else {
        bits
    }
}

/// The keys of an optional vector, or three zeros when it is absent.
pub open spec fn vec3_keys(v: Option<Vector3>) -> Seq<u32> {
    match v {
        Some(n) => seq![float_key(n.x), float_key(n.y), float_key(n.z)],
        None => seq![0u32, 0u32, 0u32],
    }
}

/// The keys of an optional coordinate pair, or two zeros when it is absent.
pub open spec fn vec2_keys(v: Option<Vector2>) -> Seq<u32> {
    match v {
        Some(t) => seq![float_key(t.u), float_key(t.v)],
        None => seq![0u32, 0u32],
    }
}

/// What identifies a vertex: the keys of its position, normal, color (0 when
/// absent), texture coordinates, tangent and binormal, in that order, and
/// its skinning bytes.
pub open spec fn vertex_key(v: VertexView) -> (Seq<u32>, Option<Seq<u8>>) {
    (
        seq![float_key(v.position.x), float_key(v.position.y), float_key(v.position.z)]
            + vec3_keys(v.normal) + seq![
            match v.color {
                Some(c) => c,
                None => 0u32,
            },
        ] + vec2_keys(v.uv) + vec3_keys(v.tangent) + vec3_keys(v.binormal),
        v.skinning_data,
    )
}

/// The identifying fields of a vertex.
pub struct HashableVertex {
    pub px: u32,
    pub py: u32,
    pub pz: u32,
    pub nx: u32,
    pub ny: u32,
    pub nz: u32,
    pub c: u32,
    pub u: u32,
    pub v: u32,
    pub tx: u32,
    pub ty: u32,
    pub tz: u32,
    pub bx: u32,
    pub by: u32,
    pub bz: u32,
    pub skinning: Option<Vec<u8>>,
}

impl View for HashableVertex {
    type V = (Seq<u32>, Option<Seq<u8>>);

    open spec fn view(&self) -> (Seq<u32>, Option<Seq<u8>>) {
        (
            seq![
                self.px,
                self.py,
                self.pz,
                self.nx,
                self.ny,
                self.nz,
                self.c,
                self.u,
                self.v,
                self.tx,
                self.ty,
                self.tz,
                self.bx,
                self.by,
                self.bz,
            ],
            match &self.skinning {
                Some(b) => Some(b@),
                None => None,
            },
        )
    }
}

fn vec3_key_triple(v: &Option<Vector3>) -> (r: (u32, u32, u32))
    ensures
        seq![r.0, r.1, r.2] == vec3_keys(*v),
{
    match v {
        Some(n) => (f32_to_u32(n.x), f32_to_u32(n.y), f32_to_u32(n.z)),
        None => (0, 0, 0),
    }
}

impl HashableVertex {
    /// The identifying fields of `v`.
    pub fn from_hod(v: &HODVertex) -> (r: Self)
        ensures
            r@ == vertex_key(v@),
    {
        let (nx, ny, nz) = vec3_key_triple(&v.normal);
        let (u, v_uv) = match &v.uv {
            Some(t) => (f32_to_u32(t.u), f32_to_u32(t.v)),
            None => (0, 0),
        };
        let (tx, ty, tz) = vec3_key_triple(&v.tangent);
        let (bx, by, bz) = vec3_key_triple(&v.binormal);
        let skinning = match &v.skinning_data {
            Some(b) => Some(copy_bytes(b)),
            None => None,
        };
        let r = HashableVertex {
            px: f32_to_u32(v.position.x),
            py: f32_to_u32(v.position.y),
            pz: f32_to_u32(v.position.z),
            nx,
            ny,
            nz,
            c: match v.color {
                Some(c) => c,
                None => 0,
            },
            u,
            v: v_uv,
            tx,
            ty,
            tz,
            bx,
            by,
            bz,
            skinning,
        };
        assert(r@.0 =~= vertex_key(v@).0);
        r
    }

    /// Whether two keys are equal.
    pub fn same_as(&self, other: &HashableVertex) -> (r: bool)
        ensures
            r == (self@ == other@),
    {
        let fields_equal = self.px == other.px && self.py == other.py && self.pz == other.pz
            && self.nx == other.nx && self.ny == other.ny && self.nz == other.nz && self.c
            == other.c && self.u == other.u && self.v == other.v && self.tx == other.tx
            && self.ty == other.ty && self.tz == other.tz && self.bx == other.bx && self.by
            == other.by && self.bz == other.bz;
        if !fields_equal {
            assert(self@.0[0] != other@.0[0] || self@.0[1] != other@.0[1] || self@.0[2]
                != other@.0[2] || self@.0[3] != other@.0[3] || self@.0[4] != other@.0[4]
                || self@.0[5] != other@.0[5] || self@.0[6] != other@.0[6] || self@.0[7]
                != other@.0[7] || self@.0[8] != other@.0[8] || self@.0[9] != other@.0[9]
                || self@.0[10] != other@.0[10] || self@.0[11] != other@.0[11] || self@.0[12]
                != other@.0[12] || self@.0[13] != other@.0[13] || self@.0[14] != other@.0[14]);
            return false;
        }
        assert(self@.0 =~= other@.0);
        match (&self.skinning, &other.skinning) {
            (None, None) => true,
            (Some(a), Some(b)) => bytes_equal(a, b),
            _ => false,
        }
    }
}

/// Whether two byte sequences are equal.
pub fn bytes_equal(a: &Vec<u8>, b: &Vec<u8>) -> (r: bool)
    ensures
        r == (a@ == b@),
{
    if a.len() != b.len() {
        return false;
    }
    let mut i: usize = 0;
    while i < a.len()
        invariant
            a@.len() == b@.len(),
            i <= a@.len(),
            forall|j: int| 0 <= j < i ==> a@[j] == b@[j],
        decreases a@.len() - i,
    {
        if a[i] != b[i] {
            return false;
        }
        i += 1;
    }
    assert(a@ =~= b@);
    true
}

/// Whether some vertex of `vs` has key `k`.
pub open spec fn has_key(vs: Seq<VertexView>, k: (Seq<u32>, Option<Seq<u8>>)) -> bool {
    exists|i: int| 0 <= i < vs.len() && vertex_key(#[trigger] vs[i]) == k
}

/// The position of a vertex of `vs` with key `k`.
pub open spec fn key_index(vs: Seq<VertexView>, k: (Seq<u32>, Option<Seq<u8>>)) -> int {
    choose|i: int| 0 <= i < vs.len() && vertex_key(#[trigger] vs[i]) == k
}

/// Whether no two vertices of `vs` have the same key.
pub open spec fn distinct_keys(vs: Seq<VertexView>) -> bool {
    forall|i: int, j: int|
        0 <= i < vs.len() && 0 <= j < vs.len() && i != j ==> vertex_key(#[trigger] vs[i])
            != vertex_key(#[trigger] vs[j])
}

/// What adding `v` to the distinct vertices `u` gives: `u` unchanged and
/// the position of the vertex with `v`'s key when there is one, else `u`
/// with `v` appended and its position; positions are kept as `u16`.
pub open spec fn dedup_add(u: Seq<VertexView>, v: VertexView) -> (Seq<VertexView>, u16) {
    let k = vertex_key(v);
    if has_key(u, k) {
        (u, (key_index(u, k) % 65536) as u16)
    } else {
        (u.push(v), (u.len() % 65536) as u16)
    }
}

/// The distinct vertices of `vs` in order of first appearance, and for each
/// vertex of `vs` the index of its equal among them, kept as a `u16`.
pub open spec fn dedup_fold(vs: Seq<VertexView>) -> (Seq<VertexView>, Seq<u16>)
    decreases vs.len(),
{
    if vs.len() == 0 {
        (Seq::empty(), Seq::empty())
    } else {
        let (u, idx) = dedup_fold(vs.drop_last());
        let (u2, r) = dedup_add(u, vs.last());
        (u2, idx.push(r))
    }
}

/// Deduplication keeps every vertex: there is one index per vertex; the
/// distinct vertices have pairwise different keys and each is one of the
/// input vertices; and, while there are at most 65536 of them (so that
/// every index fits in a `u16`), the vertex at each vertex's index has that
/// vertex's key.
pub proof fn lemma_dedup_fold(vs: Seq<VertexView>)
    ensures
        dedup_fold(vs).1.len() == vs.len(),
        dedup_fold(vs).0.len() <= vs.len(),
        distinct_keys(dedup_fold(vs).0),
        forall|i: int|
            0 <= i < dedup_fold(vs).0.len() ==> exists|j: int|
                0 <= j < vs.len() && vs[j] == #[trigger] dedup_fold(vs).0[i],
        dedup_fold(vs).0.len() <= 65536 ==> forall|j: int|
            0 <= j < vs.len() ==> #[trigger] dedup_fold(vs).1[j] < dedup_fold(vs).0.len()
                && vertex_key(dedup_fold(vs).0[dedup_fold(vs).1[j] as int]) == vertex_key(vs[j]),
    decreases vs.len(),
{
    if vs.len() == 0 {
    } else {
        let prev = vs.drop_last();
        lemma_dedup_fold(prev);
        let (u0, idx0) = dedup_fold(prev);
        let (u, idx) = dedup_fold(vs);
        let k = vertex_key(vs.last());
        assert forall|i: int| 0 <= i < u.len() implies exists|j: int|
            0 <= j < vs.len() && vs[j] == #[trigger] u[i] by {
            if i < u0.len() {
                let j = choose|j: int| 0 <= j < prev.len() && prev[j] == u0[i];
                assert(vs[j] == u[i]);
            } else {
                assert(vs[vs.len() - 1] == u[i]);
            }
        }
        if u.len() <= 65536 {
            assert forall|j: int| 0 <= j < vs.len() implies #[trigger] idx[j] < u.len()
                && vertex_key(u[idx[j] as int]) == vertex_key(vs[j]) by {
                if j < prev.len() {
                    assert(prev[j] == vs[j]);
                    assert(idx[j] == idx0[j]);
                } else if has_key(u0, k) {
                    let t = key_index(u0, k);
                    assert(t % 65536 == t);
                } else {
                    assert(u0.len() % 65536 == u0.len());
                }
            }
        }
    }
}

/// Whether `states` and `rs` are the runs of a deduplicator that starts
/// empty and is given the vertices `vs` one after the other: `states[i]` is
/// its vertices before the `i`-th call and `rs[i]` what that call returned.
pub open spec fn is_add_run(states: Seq<Seq<VertexView>>, vs: Seq<VertexView>, rs: Seq<u16>) -> bool {
    &&& states.len() == vs.len() + 1
    &&& rs.len() == vs.len()
    &&& states[0] == Seq::<VertexView>::empty()
    &&& forall|i: int|
        0 <= i < vs.len() ==> (#[trigger] states[i + 1], rs[i]) == dedup_add(states[i], vs[i])
}

proof fn lemma_add_run_is_fold(states: Seq<Seq<VertexView>>, vs: Seq<VertexView>, rs: Seq<u16>, k: int)
    requires
        is_add_run(states, vs, rs),
        0 <= k <= vs.len(),
    ensures
        (states[k], rs.take(k)) == dedup_fold(vs.take(k)),
        forall|i: int| 0 <= i <= k ==> states[k].take(states[i].len() as int) == #[trigger] states[i],
        forall|i: int| 0 <= i <= k ==> states[i].len() <= states[k].len(),
    decreases k,
{
    if k == 0 {
        assert(rs.take(0) =~= Seq::<u16>::empty());
        assert(vs.take(0) =~= Seq::<VertexView>::empty());
        assert(states[0].take(0) =~= states[0]);
    } else {
        lemma_add_run_is_fold(states, vs, rs, k - 1);
        assert(vs.take(k).drop_last() =~= vs.take(k - 1));
        assert(rs.take(k) =~= rs.take(k - 1).push(rs[k - 1]));
        assert((states[k], rs[k - 1]) == dedup_add(states[k - 1], vs[k - 1]));
        assert forall|i: int| 0 <= i <= k implies states[k].take(states[i].len() as int)
            == #[trigger] states[i] by {
            if i < k {
                assert(states[k - 1].take(states[i].len() as int) == states[i]);
                assert(states[k].take(states[k - 1].len() as int) =~= states[k - 1]);
                assert(states[k].take(states[i].len() as int) =~= states[k - 1].take(
                    states[i].len() as int,
                ));
            } else {
                assert(states[k].take(states[k].len() as int) =~= states[k]);
            }
        }
    }
}

/// Whatever sequence of `add_vertex` calls a new deduplicator is given
/// (`is_add_run`), vertices are never removed or reordered (each earlier
/// state is a prefix of each later one), the vertices kept have distinct
/// keys, and, while at most 65536 are kept, every index handed out, early or
/// late, still designates a kept vertex with the key of the vertex it was
/// handed out for.
pub proof fn lemma_add_vertex_run(states: Seq<Seq<VertexView>>, vs: Seq<VertexView>, rs: Seq<u16>)
    requires
        is_add_run(states, vs, rs),
    ensures
        forall|i: int, j: int|
            0 <= i <= j <= vs.len() ==> states[j].take(states[i].len() as int) == #[trigger] states[i]
                && states[i].len() <= #[trigger] states[j].len(),
        distinct_keys(states[vs.len() as int]),
        states[vs.len() as int].len() <= 65536 ==> forall|i: int|
            0 <= i < vs.len() ==> #[trigger] rs[i] < states[vs.len() as int].len() && vertex_key(
                states[vs.len() as int][rs[i] as int],
            ) == vertex_key(vs[i]),
{
    let n = vs.len() as int;
    lemma_add_run_is_fold(states, vs, rs, n);
    assert(vs.take(n) =~= vs);
    assert(rs.take(n) =~= rs);
    lemma_dedup_fold(vs);
    assert forall|i: int, j: int| 0 <= i <= j <= vs.len() implies states[j].take(
        states[i].len() as int,
    ) == #[trigger] states[i] && states[i].len() <= #[trigger] states[j].len() by {
        lemma_add_run_is_fold(states, vs, rs, j);
    }
}

/// Collects the distinct vertices of a part and the index of each vertex
/// among them.
pub struct MeshDeduplicator {
    vertices: Vec<HODVertex>,
    keys: Vec<HashableVertex>,
}

impl View for MeshDeduplicator {
    type V = Seq<VertexView>;

    closed spec fn view(&self) -> Seq<VertexView> {
        vertices_view(self.vertices@)
    }
}

impl MeshDeduplicator {
    /// The deduplicator's bookkeeping agrees with its vertices.
    pub closed spec fn wf(&self) -> bool {
        &&& self.keys@.len() == self.vertices@.len()
        &&& forall|i: int|
            0 <= i < self.keys@.len() ==> (#[trigger] self.keys@[i])@ == vertex_key(
                self.vertices@[i]@,
            )
        &&& distinct_keys(self@)
    }

    /// An empty deduplicator.
    pub fn new() -> (r: Self)
        ensures
            r.wf(),
            r@ == Seq::<VertexView>::empty(),
    {
        let r = MeshDeduplicator { vertices: Vec::new(), keys: Vec::new() };
        assert(r@ =~= Seq::<VertexView>::empty());
        r
    }

    /// The index of `v` among the distinct vertices, adding it when no
    /// vertex with the same key is there yet. The index is kept as a `u16`:
    /// past 65535 distinct vertices it wraps around.
    pub fn add_vertex(&mut self, v: &HODVertex) -> (r: u16)
        requires
            old(self).wf(),
        ensures
            final(self).wf(),
            distinct_keys(final(self)@),
            has_key(old(self)@, vertex_key(v@)) ==> final(self)@ == old(self)@ && r as int
                == key_index(old(self)@, vertex_key(v@)) % 65536,
            !has_key(old(self)@, vertex_key(v@)) ==> final(self)@ == old(self)@.push(v@)
                && r as int == old(self)@.len() % 65536,
            (final(self)@, r) == dedup_add(old(self)@, v@),
    {
        let hv = HashableVertex::from_hod(v);
        let n = self.keys.len();
        let mut i: usize = 0;
        while i < n
            invariant
                self.wf(),
                n == self.keys@.len(),
                i <= n,
                hv@ == vertex_key(v@),
                forall|j: int| 0 <= j < i ==> vertex_key(#[trigger] self@[j]) != hv@,
            decreases n - i,
        {
            if self.keys[i].same_as(&hv) {
                assert(vertex_key(self@[i as int]) == hv@);
                assert(has_key(self@, hv@));
                let ghost k = key_index(self@, hv@);
                assert(k == i) by {
                    if k != i {
                        assert(vertex_key(self@[k]) == vertex_key(self@[i as int]));
                    }
                }
                assert(i as u16 == i % 65536) by (bit_vector);
                return i as u16;
            }
            i += 1;
        }
        assert(!has_key(self@, hv@));
        let idx = n as u16;
        assert(n as u16 == n % 65536) by (bit_vector);
        let ghost old_view = self@;
        self.vertices.push(clone_vertex(v));
        self.keys.push(hv);
        assert(self@ =~= old_view.push(v@));
        idx
    }

    /// The distinct vertices in the order they were first added.
    pub fn get_vertices(&self) -> (r: &[HODVertex])
        ensures
            vertices_view(r@) == self@,
    {
        self.vertices.as_slice()
    }
}

} // verus!
