//! Faces and their vertices.
//!
//! A face record lists index groups of the shape `p/t/n`: three 1-based
//! positive integers naming a declared position, colour and normal.  Each
//! group resolves to one owned vertex; the vertex count alone classifies
//! the face as a triangle, a quad, or an n-gon.

use crate::scalar::{digits_val, first_non_digit, is_digit, lemma_digits_val_bound,
    lemma_digits_val_snoc, lemma_first_non_digit_is, Scalar, ScalarView};
use crate::texture::Rgba;
use vstd::prelude::*;
use vstd::slice::slice_subrange;

verus! {

/// A position or a normal: three decimal numerals.
#[derive(Debug, PartialEq, Eq)]
pub struct Vec3 {
    pub x: Scalar,
    pub y: Scalar,
    pub z: Scalar,
}

/// The view of a `Vec3`.
pub ghost struct Vec3View {
    pub x: ScalarView,
    pub y: ScalarView,
    pub z: ScalarView,
}

impl View for Vec3 {
    type V = Vec3View;

    open spec fn view(&self) -> Vec3View {
        Vec3View { x: self.x@, y: self.y@, z: self.z@ }
    }
}

impl Clone for Vec3 {
    fn clone(&self) -> (r: Self)
        ensures
            r@ == self@,
    {
        Vec3 { x: self.x.clone(), y: self.y.clone(), z: self.z.clone() }
    }
}

/// One fully resolved vertex: it owns its position, colour and normal,
/// shared with no table and no other vertex.
#[derive(Debug, PartialEq, Eq)]
pub struct Vertex {
    pub pos: Vec3,
    pub color: Rgba,
    pub normal: Vec3,
}

/// The view of a `Vertex`.
pub ghost struct VertexView {
    pub pos: Vec3View,
    pub color: Rgba,
    pub normal: Vec3View,
}

impl View for Vertex {
    type V = VertexView;

    open spec fn view(&self) -> VertexView {
        VertexView { pos: self.pos@, color: self.color, normal: self.normal@ }
    }
}

impl Clone for Vertex {
    fn clone(&self) -> (r: Self)
        ensures
            r@ == self@,
    {
        Vertex { pos: self.pos.clone(), color: self.color, normal: self.normal.clone() }
    }
}

/// A polygonal face, classified by its vertex count alone: exactly three
/// vertices make a triangle, exactly four a quad, and any other count an
/// n-gon.
#[derive(Debug, PartialEq, Eq)]
pub enum Face {
    Triangle(Vec<Vertex>),
    Quad(Vec<Vertex>),
    Ngon(Vec<Vertex>),
}

/// The view of a `Face`.
pub ghost enum FaceView {
    Triangle(Seq<VertexView>),
    Quad(Seq<VertexView>),
    Ngon(Seq<VertexView>),
}

impl View for Face {
    type V = FaceView;

    open spec fn view(&self) -> FaceView {
        match self {
            Face::Triangle(v) => FaceView::Triangle(v@.map_values(|x: Vertex| x@)),
            Face::Quad(v) => FaceView::Quad(v@.map_values(|x: Vertex| x@)),
            Face::Ngon(v) => FaceView::Ngon(v@.map_values(|x: Vertex| x@)),
        }
    }
}

impl FaceView {
    /// The vertices a face holds, whatever its variant.
    pub open spec fn verts(self) -> Seq<VertexView> {
        match self {
            FaceView::Triangle(v) => v,
            FaceView::Quad(v) => v,
            FaceView::Ngon(v) => v,
        }
    }
}

impl Face {
    /// The vertices a face holds, whatever its variant.
    pub fn vertices(&self) -> (r: &Vec<Vertex>)
        ensures
            r@.map_values(|x: Vertex| x@) == self@.verts(),
    {
        match self {
            Face::Triangle(v) => v,
            Face::Quad(v) => v,
            Face::Ngon(v) => v,
        }
    }
}

/// The face a resolved vertex list yields: the count alone picks the
/// variant.
pub open spec fn spec_face_of(verts: Seq<VertexView>) -> FaceView {
    if verts.len() == 3 {
        FaceView::Triangle(verts)
    } else if verts.len() == 4 {
        FaceView::Quad(verts)
    } else {
        FaceView::Ngon(verts)
    }
}

/// Why a face record was refused.
#[derive(Debug, PartialEq, Eq, Structural, Clone, Copy)]
pub enum FaceErr {
    /// An index group was malformed: not exactly three `/`-separated
    /// non-empty digit runs.
    Format,
    /// An index was 0 or exceeded the length of its table.
    Index,
}

/// The numeric value of a run of ASCII digits.
pub open spec fn num_of(s: Seq<u8>) -> int {
    digits_val(s.map_values(|b: u8| (b - 48) as u8))
}

/// Parsing one index group `p/t/n`: three non-empty runs of digits
/// separated by exactly two slashes, nothing else.
pub open spec fn spec_index_group(t: Seq<u8>) -> Option<(int, int, int)> {
    let k1: int = first_non_digit(t);
    if !(1 <= k1 && k1 < t.len() && t[k1] == 47u8) {
        None
    } else {
        let u: Seq<u8> = t.skip(k1 + 1);
        let k2: int = first_non_digit(u);
        if !(1 <= k2 && k2 < u.len() && u[k2] == 47u8) {
            None
        } else {
            let w: Seq<u8> = u.skip(k2 + 1);
            if w.len() >= 1 && first_non_digit(w) == w.len() {
                Some((num_of(t.take(k1)), num_of(u.take(k2)), num_of(w)))
            } else {
                None
            }
        }
    }
}

/// Resolving one index group against the three attribute tables: a
/// malformed group is a format error; an index of 0 or beyond a table is
/// an index error; otherwise the vertex owns copies of the three 1-based
/// entries.
pub open spec fn spec_resolve_group(
    t: Seq<u8>,
    positions: Seq<Vec3View>,
    colors: Seq<Rgba>,
    normals: Seq<Vec3View>,
) -> Result<VertexView, FaceErr> {
    match spec_index_group(t) {
        None => Err(FaceErr::Format),
        Some((p, c, n)) => {
            if 1 <= p <= positions.len() && 1 <= c <= colors.len() && 1 <= n <= normals.len() {
                Ok(VertexView { pos: positions[p - 1], color: colors[c - 1], normal: normals[n - 1] })
            } else {
                Err(FaceErr::Index)
            }
        },
    }
}

/// Resolving a whole face record's index groups, in order; the first
/// failing group decides the error.
pub open spec fn spec_resolve_groups(
    toks: Seq<Seq<u8>>,
    positions: Seq<Vec3View>,
    colors: Seq<Rgba>,
    normals: Seq<Vec3View>,
) -> Result<Seq<VertexView>, FaceErr>
    decreases toks.len(),
{
    if toks.len() == 0 {
        Ok(Seq::empty())
    } else {
        match spec_resolve_group(toks[0], positions, colors, normals) {
            Err(e) => Err(e),
            Ok(v) => match spec_resolve_groups(toks.skip(1), positions, colors, normals) {
                Err(e) => Err(e),
                Ok(vs) => Ok(seq![v] + vs),
            },
        }
    }
}

/// A face record with N index groups resolves, when it resolves at all,
/// to exactly N vertices.
pub proof fn lemma_resolve_groups_length(
    toks: Seq<Seq<u8>>,
    positions: Seq<Vec3View>,
    colors: Seq<Rgba>,
    normals: Seq<Vec3View>,
)
    requires
        spec_resolve_groups(toks, positions, colors, normals) is Ok,
    ensures
        spec_resolve_groups(toks, positions, colors, normals)->Ok_0.len() == toks.len(),
    decreases toks.len(),
{
    if toks.len() == 0 {
    } else {
        lemma_resolve_groups_length(toks.skip(1), positions, colors, normals);
    }
}

/// The vertex count alone classifies a face: a triangle exactly when
/// there are three vertices, a quad exactly when four, an n-gon
/// otherwise; and classification neither reorders nor drops vertices.
pub proof fn lemma_face_classification(verts: Seq<VertexView>)
    ensures
        spec_face_of(verts).verts() == verts,
        spec_face_of(verts) is Triangle <==> verts.len() == 3,
        spec_face_of(verts) is Quad <==> verts.len() == 4,
        spec_face_of(verts) is Ngon <==> (verts.len() != 3 && verts.len() != 4),
{
}

/// The round trip from declaration to resolution: a well-formed index
/// group whose three indices are in range resolves to the vertex that
/// owns exactly the 1-based entries it names, unchanged.
pub proof fn lemma_vertex_round_trip(
    t: Seq<u8>,
    positions: Seq<Vec3View>,
    colors: Seq<Rgba>,
    normals: Seq<Vec3View>,
    p: int,
    c: int,
    n: int,
)
    requires
        spec_index_group(t) == Some((p, c, n)),
        1 <= p <= positions.len(),
        1 <= c <= colors.len(),
        1 <= n <= normals.len(),
    ensures
        spec_resolve_group(t, positions, colors, normals) == Ok::<VertexView, FaceErr>(
            VertexView { pos: positions[p - 1], color: colors[c - 1], normal: normals[n - 1] },
        ),
{
}

/// The value of the ASCII digit run `s[from..to]`.  The flag reports a
/// value too large for `u64`; when it is clear, the first component is
/// the exact value.
fn digits_value_of(s: &[u8], from: usize, to: usize) -> (r: (u64, bool))
    requires
        0 <= from <= to <= s@.len(),
        forall|i: int| from <= i < to ==> is_digit(#[trigger] s@[i]),
    ensures
        r.1 == (num_of(s@.subrange(from as int, to as int)) > u64::MAX),
        !r.1 ==> r.0 == num_of(s@.subrange(from as int, to as int)),
{
    let mut c: u64 = 0;
    let mut of: bool = false;
    let mut i: usize = from;
    while i < to
        invariant
            from <= i <= to <= s@.len(),
            forall|j: int| from <= j < to ==> is_digit(#[trigger] s@[j]),
            of == (num_of(s@.subrange(from as int, i as int)) > u64::MAX),
            !of ==> c == num_of(s@.subrange(from as int, i as int)),
        decreases to - i,
    {
        let ghost pre: Seq<u8> = s@.subrange(from as int, i as int).map_values(
            |b: u8| (b - 48) as u8,
        );
        proof {
            lemma_digits_val_snoc(pre, (s@[i as int] - 48) as u8);
            assert(s@.subrange(from as int, i as int + 1).map_values(|b: u8| (b - 48) as u8)
                =~= pre.push((s@[i as int] - 48) as u8));
            assert(forall|j: int| 0 <= j < pre.len() ==> #[trigger] pre[j] <= 9);
            lemma_digits_val_bound(pre);
        }
        let d: u64 = (s[i] - 48) as u64;
        if !of {
            let x: u128 = (c as u128) * 10 + (d as u128);
            if x > u64::MAX as u128 {
                of = true;
            } else {
                c = x as u64;
            }
        }
        i += 1;
    }
    proof {
        assert(s@.subrange(from as int, to as int) =~= s@.subrange(from as int, i as int));
    }
    (c, of)
}

/// Resolve one `p/t/n` index group against the attribute tables.
pub fn resolve_group(
    t: &[u8],
    positions: &Vec<Vec3>,
    colors: &Vec<Rgba>,
    normals: &Vec<Vec3>,
) -> (r: Result<Vertex, FaceErr>)
    ensures
        match r {
            Ok(v) => spec_resolve_group(
                t@,
                positions@.map_values(|x: Vec3| x@),
                colors@,
                normals@.map_values(|x: Vec3| x@),
            ) == Ok::<VertexView, FaceErr>(v@),
            Err(e) => spec_resolve_group(
                t@,
                positions@.map_values(|x: Vec3| x@),
                colors@,
                normals@.map_values(|x: Vec3| x@),
            ) == Err::<VertexView, FaceErr>(e),
        },
{
    let n: usize = t.len();
    let mut i: usize = 0;
    while i < n && 48 <= t[i] && t[i] <= 57
        invariant
            0 <= i <= n,
            n == t@.len(),
            forall|j: int| 0 <= j < i ==> is_digit(#[trigger] t@[j]),
        decreases n - i,
    {
        i += 1;
    }
    proof {
        lemma_first_non_digit_is(t@, i as int);
    }
    if i == 0 || i == n || t[i] != 47 {
        return Err(FaceErr::Format);
    }
    let k1: usize = i;
    let ghost u: Seq<u8> = t@.skip(k1 as int + 1);
    i += 1;
    let c_start: usize = i;
    while i < n && 48 <= t[i] && t[i] <= 57
        invariant
            c_start <= i <= n,
            n == t@.len(),
            c_start == k1 + 1,
            k1 < n,
            u == t@.skip(k1 as int + 1),
            forall|j: int| c_start <= j < i ==> is_digit(#[trigger] t@[j]),
        decreases n - i,
    {
        i += 1;
    }
    proof {
        assert(forall|j: int| 0 <= j < i - c_start ==> #[trigger] u[j] == t@[c_start + j]);
        lemma_first_non_digit_is(u, i - c_start);
    }
    if i == c_start || i == n || t[i] != 47 {
        return Err(FaceErr::Format);
    }
    let k2: usize = i - c_start;
    let ghost w: Seq<u8> = u.skip(k2 as int + 1);
    i += 1;
    let n_start: usize = i;
    while i < n && 48 <= t[i] && t[i] <= 57
        invariant
            n_start <= i <= n,
            n == t@.len(),
            n_start == k1 + 1 + k2 + 1,
            k1 + 1 + k2 < n,
            w == u.skip(k2 as int + 1),
            u == t@.skip(k1 as int + 1),
            forall|j: int| n_start <= j < i ==> is_digit(#[trigger] t@[j]),
        decreases n - i,
    {
        i += 1;
    }
    proof {
        assert(forall|j: int| 0 <= j < i - n_start ==> #[trigger] w[j] == t@[n_start + j]);
    }
    if i < n || i == n_start {
        proof {
            if i < n {
                assert(!is_digit(w[i - n_start]));
                lemma_first_non_digit_is(w, i - n_start);
            }
        }
        return Err(FaceErr::Format);
    }
    proof {
        lemma_first_non_digit_is(w, i - n_start);
        assert(w.len() == i - n_start);
    }
    // the group is well formed; now bound-check the three indices
    let plen: usize = positions.len();
    let clen: usize = colors.len();
    let nlen: usize = normals.len();
    let ghost pv: Seq<Vec3View> = positions@.map_values(|x: Vec3| x@);
    let ghost cv: Seq<Rgba> = colors@;
    let ghost nv: Seq<Vec3View> = normals@.map_values(|x: Vec3| x@);
    proof {
        assert(t@.take(k1 as int) =~= t@.subrange(0, k1 as int));
        assert(u.take(k2 as int) =~= t@.subrange(c_start as int, c_start as int + k2));
        assert(w =~= t@.subrange(n_start as int, n as int));
    }
    let (p, pof) = digits_value_of(t, 0, k1);
    let (c, cof) = digits_value_of(t, c_start, c_start + k2);
    let (nn, nof) = digits_value_of(t, n_start, n);
    if !pof && p >= 1 && p <= plen as u64 && !cof && c >= 1 && c <= clen as u64 && !nof && nn >= 1
        && nn <= nlen as u64 {
        let pos = positions[(p - 1) as usize].clone();
        let color = colors[(c - 1) as usize];
        let normal = normals[(nn - 1) as usize].clone();
        proof {
            assert(pv[p - 1] == positions@[p - 1]@);
            assert(nv[nn - 1] == normals@[nn - 1]@);
        }
        Ok(Vertex { pos, color, normal })
    } else {
        Err(FaceErr::Index)
    }
}

/// Resolve all index groups of a face record (the tokens after the `f`
/// keyword) and classify the outcome by vertex count.
pub fn assemble_face(
    toks: &Vec<Vec<u8>>,
    from: usize,
    positions: &Vec<Vec3>,
    colors: &Vec<Rgba>,
    normals: &Vec<Vec3>,
) -> (r: Result<Face, FaceErr>)
    requires
        from <= toks@.len(),
    ensures
        match r {
            Ok(f) => {
                &&& spec_resolve_groups(
                    toks@.map_values(|x: Vec<u8>| x@).skip(from as int),
                    positions@.map_values(|x: Vec3| x@),
                    colors@,
                    normals@.map_values(|x: Vec3| x@),
                ) matches Ok(vs) && f@ == spec_face_of(vs)
            },
            Err(e) => spec_resolve_groups(
                toks@.map_values(|x: Vec<u8>| x@).skip(from as int),
                positions@.map_values(|x: Vec3| x@),
                colors@,
                normals@.map_values(|x: Vec3| x@),
            ) == Err::<Seq<VertexView>, FaceErr>(e),
        },
{
    let ghost groups: Seq<Seq<u8>> = toks@.map_values(|x: Vec<u8>| x@).skip(from as int);
    let ghost pv: Seq<Vec3View> = positions@.map_values(|x: Vec3| x@);
    let ghost cv: Seq<Rgba> = colors@;
    let ghost nv: Seq<Vec3View> = normals@.map_values(|x: Vec3| x@);
    let mut verts: Vec<Vertex> = Vec::new();
    let mut j: usize = from;
    proof {
        assert(groups.skip(0) =~= groups);
        assert(verts@.map_values(|x: Vertex| x@) =~= Seq::<VertexView>::empty());
        let rr = spec_resolve_groups(groups, pv, cv, nv);
        if rr is Ok {
            assert(Seq::<VertexView>::empty() + rr->Ok_0 =~= rr->Ok_0);
        }
    }
    while j < toks.len()
        invariant
            from <= j <= toks@.len(),
            groups == toks@.map_values(|x: Vec<u8>| x@).skip(from as int),
            pv == positions@.map_values(|x: Vec3| x@),
            cv == colors@,
            nv == normals@.map_values(|x: Vec3| x@),
            spec_resolve_groups(groups, pv, cv, nv) == match spec_resolve_groups(
                groups.skip(j - from),
                pv,
                cv,
                nv,
            ) {
                Ok(vs) => Ok::<Seq<VertexView>, FaceErr>(
                    verts@.map_values(|x: Vertex| x@) + vs,
                ),
                Err(e) => Err::<Seq<VertexView>, FaceErr>(e),
            },
        decreases toks@.len() - j,
    {
        let ghost rem: Seq<Seq<u8>> = groups.skip(j - from);
        proof {
            assert(rem[0] == toks@.map_values(|x: Vec<u8>| x@)[j as int]);
            assert(rem.skip(1) =~= groups.skip(j + 1 - from));
        }
        match resolve_group(toks[j].as_slice(), positions, colors, normals) {
            Ok(v) => {
                proof {
                    assert(verts@.push(v).map_values(|x: Vertex| x@) =~= verts@.map_values(
                        |x: Vertex| x@,
                    ).push(v@));
                    let rr = spec_resolve_groups(groups.skip(j + 1 - from), pv, cv, nv);
                    if rr is Ok {
                        assert(verts@.map_values(|x: Vertex| x@) + (seq![v@] + rr->Ok_0)
                            =~= verts@.map_values(|x: Vertex| x@).push(v@) + rr->Ok_0);
                    }
                }
                verts.push(v);
            },
            Err(e) => {
                return Err(e);
            },
        }
        j += 1;
    }
    proof {
        assert(groups.skip(j - from).len() == 0);
        assert(spec_resolve_groups(groups.skip(j - from), pv, cv, nv)
            == Ok::<Seq<VertexView>, FaceErr>(Seq::empty()));
        assert(verts@.map_values(|x: Vertex| x@) + Seq::<VertexView>::empty()
            =~= verts@.map_values(|x: Vertex| x@));
    }
    let count: usize = verts.len();
    if count == 3 {
        Ok(Face::Triangle(verts))
    } else if count == 4 {
        Ok(Face::Quad(verts))
    } else {
        Ok(Face::Ngon(verts))
    }
}

} // verus!
