//! The mesh parser.
//!
//! One pass over the lines of the mesh text, dispatching on each line's
//! first token: `v`, `vn` and `vt` records grow the three attribute
//! tables, `f` records resolve into faces, `mtllib` records switch the
//! current texture image, and every other line is ignored.  Reading the
//! material file and decoding its image are the caller's work: when the
//! parser meets an `mtllib` record for which no image was supplied, it
//! stops and asks for it; the caller decodes and parses again with the
//! image list extended by one entry (`None` where the material names no
//! texture).  Errors carry the 1-based line of the offending record and
//! abort the whole parse.

use crate::face::{
    assemble_face, spec_face_of, spec_resolve_groups, Face, FaceErr, FaceView, Vec3, Vec3View,
};
use crate::scalar::{spec_parse_numeral, Scalar};
use crate::texture::{spec_sample, Image, ImageView, Rgba};
use crate::tokenize::{bytes_eq, lines_of, spec_lines, spec_tokens, tokens_of};
use crate::ParseError;
use vstd::prelude::*;

verus! {

/// The bytes of the keyword `mtllib`.
pub open spec fn kw_mtllib() -> Seq<u8> {
    seq![109u8, 116u8, 108u8, 108u8, 105u8, 98u8]
}

/// The bytes of the keyword `v`.
pub open spec fn kw_v() -> Seq<u8> {
    seq![118u8]
}

/// The bytes of the keyword `vn`.
pub open spec fn kw_vn() -> Seq<u8> {
    seq![118u8, 110u8]
}

/// The bytes of the keyword `vt`.
pub open spec fn kw_vt() -> Seq<u8> {
    seq![118u8, 116u8]
}

/// The bytes of the keyword `f`.
pub open spec fn kw_f() -> Seq<u8> {
    seq![102u8]
}

/// The parser's state between lines: the three attribute tables, the
/// current texture image, how many supplied images were consumed, and
/// the faces built so far.
pub ghost struct MeshState {
    pub positions: Seq<Vec3View>,
    pub normals: Seq<Vec3View>,
    pub colors: Seq<Rgba>,
    pub img: ImageView,
    pub next_image: int,
    pub faces: Seq<FaceView>,
}

/// The state before the first line: empty tables, no faces, and the 0x0
/// image that refuses every sample.
pub open spec fn init_state() -> MeshState {
    MeshState {
        positions: Seq::empty(),
        normals: Seq::empty(),
        colors: Seq::empty(),
        img: ImageView { width: 0, height: 0, pixels: Seq::empty() },
        next_image: 0,
        faces: Seq::empty(),
    }
}

/// What one line does to the parser.
pub ghost enum StepOut {
    /// The line was consumed; the state after it.
    Next(MeshState),
    /// An `mtllib` record for which no image was supplied yet; its
    /// filename token.
    NeedMaterial(Seq<u8>),
    /// The line aborts the parse.
    Fail(ParseError),
}

/// Parsing a position or normal record: the keyword and at least three
/// tokens, each a decimal numeral.
pub open spec fn spec_triple(toks: Seq<Seq<u8>>) -> Option<Vec3View> {
    if toks.len() < 4 {
        None
    } else {
        match (
            spec_parse_numeral(toks[1]),
            spec_parse_numeral(toks[2]),
            spec_parse_numeral(toks[3]),
        ) {
            (Some(x), Some(y), Some(z)) => Some(Vec3View { x, y, z }),
            _ => None,
        }
    }
}

/// One step of the parse: what the line with tokens `toks` and 1-based
/// number `ln` does to the state `st`, given the images supplied for the
/// `mtllib` records so far.
pub open spec fn spec_step(
    st: MeshState,
    toks: Seq<Seq<u8>>,
    ln: usize,
    images: Seq<Option<ImageView>>,
) -> StepOut {
    if toks.len() == 0 {
        StepOut::Next(st)
    } else if toks[0] == kw_mtllib() {
        if toks.len() < 2 {
            StepOut::Fail(ParseError::FormatError { line: ln })
        } else if st.next_image >= images.len() {
            StepOut::NeedMaterial(toks[1])
        } else {
            StepOut::Next(
                MeshState {
                    img: match images[st.next_image] {
                        Some(iv) => iv,
                        None => st.img,
                    },
                    next_image: st.next_image + 1,
                    ..st
                },
            )
        }
    } else if toks[0] == kw_v() {
        match spec_triple(toks) {
            Some(t) => StepOut::Next(MeshState { positions: st.positions.push(t), ..st }),
            None => StepOut::Fail(ParseError::FormatError { line: ln }),
        }
    } else if toks[0] == kw_vn() {
        match spec_triple(toks) {
            Some(t) => StepOut::Next(MeshState { normals: st.normals.push(t), ..st }),
            None => StepOut::Fail(ParseError::FormatError { line: ln }),
        }
    } else if toks[0] == kw_vt() {
        if toks.len() < 3 {
            StepOut::Fail(ParseError::FormatError { line: ln })
        } else {
            match (spec_parse_numeral(toks[1]), spec_parse_numeral(toks[2])) {
                (Some(u), Some(v)) => match spec_sample(st.img, u, v) {
                    Some(c) => StepOut::Next(MeshState { colors: st.colors.push(c), ..st }),
                    None => StepOut::Fail(ParseError::SampleOutOfRange { line: ln }),
                },
                _ => StepOut::Fail(ParseError::FormatError { line: ln }),
            }
        }
    } else if toks[0] == kw_f() {
        match spec_resolve_groups(toks.skip(1), st.positions, st.colors, st.normals) {
            Ok(vs) => StepOut::Next(MeshState { faces: st.faces.push(spec_face_of(vs)), ..st }),
            Err(FaceErr::Format) => StepOut::Fail(ParseError::FormatError { line: ln }),
            Err(FaceErr::Index) => StepOut::Fail(ParseError::IndexOutOfRange { line: ln }),
        }
    } else {
        StepOut::Next(st)
    }
}

/// How a whole parse ends.
pub ghost enum RunOut {
    /// Every line was consumed; the faces, in declaration order.
    Done(Seq<FaceView>),
    /// An `mtllib` record needs its image: its 1-based line and its
    /// filename token.
    NeedMaterial { line: usize, filename: Seq<u8> },
    /// The parse was aborted.
    Fail(ParseError),
}

/// Running the parse from state `st` over the lines from index `i` on.
pub open spec fn spec_run(
    st: MeshState,
    lines: Seq<Seq<u8>>,
    i: int,
    images: Seq<Option<ImageView>>,
) -> RunOut
    decreases lines.len() - i,
{
    if i < 0 || i >= lines.len() {
        RunOut::Done(st.faces)
    } else {
        match spec_step(st, spec_tokens(lines[i]), (i + 1) as usize, images) {
            StepOut::Next(st2) => spec_run(st2, lines, i + 1, images),
            StepOut::NeedMaterial(f) => RunOut::NeedMaterial {
                line: (i + 1) as usize,
                filename: f,
            },
            StepOut::Fail(e) => RunOut::Fail(e),
        }
    }
}

/// The views of the supplied images.
pub open spec fn images_view(s: Seq<Option<Image>>) -> Seq<Option<ImageView>> {
    s.map_values(
        |o: Option<Image>|
            match o {
                Some(im) => Some(im@),
                None => None::<ImageView>,
            },
    )
}

/// The whole parse of a mesh text against a list of supplied images.
pub open spec fn spec_parse(content: Seq<u8>, images: Seq<Option<ImageView>>) -> RunOut {
    spec_run(init_state(), spec_lines(content), 0, images)
}

/// The line is an `f` record: its first token is the keyword `f`.
pub open spec fn is_f_record(line: Seq<u8>) -> bool {
    let toks: Seq<Seq<u8>> = spec_tokens(line);
    toks.len() >= 1 && toks[0] == kw_f()
}

/// How many `f` records stand on the lines from index `i` on.
pub open spec fn count_f_records(lines: Seq<Seq<u8>>, i: int) -> int
    decreases lines.len() - i,
{
    if i < 0 || i >= lines.len() {
        0
    } else {
        (if is_f_record(lines[i]) {
            1int
        } else {
            0int
        }) + count_f_records(lines, i + 1)
    }
}

pub proof fn lemma_count_f_nonneg(lines: Seq<Seq<u8>>, i: int)
    ensures
        count_f_records(lines, i) >= 0,
    decreases lines.len() - i,
{
    if i < 0 || i >= lines.len() {
    } else {
        lemma_count_f_nonneg(lines, i + 1);
    }
}

/// A parse that runs to completion returns one face per `f` record, and
/// keeps the faces already built, in order, as a prefix.
pub proof fn lemma_run_face_count(
    st: MeshState,
    lines: Seq<Seq<u8>>,
    i: int,
    images: Seq<Option<ImageView>>,
)
    requires
        spec_run(st, lines, i, images) is Done,
    ensures
        spec_run(st, lines, i, images)->Done_0.len() == st.faces.len() + count_f_records(
            lines,
            i,
        ),
        spec_run(st, lines, i, images)->Done_0.take(st.faces.len() as int) == st.faces,
    decreases lines.len() - i,
{
    if i < 0 || i >= lines.len() {
        assert(spec_run(st, lines, i, images)->Done_0.take(st.faces.len() as int) =~= st.faces);
    } else {
        let toks: Seq<Seq<u8>> = spec_tokens(lines[i]);
        match spec_step(st, toks, (i + 1) as usize, images) {
            StepOut::Next(st2) => {
                lemma_run_face_count(st2, lines, i + 1, images);
                let out: Seq<FaceView> = spec_run(st2, lines, i + 1, images)->Done_0;
                if is_f_record(lines[i]) {
                    assert(kw_f() != kw_mtllib()) by {
                        assert(kw_f().len() == 1 && kw_mtllib().len() == 6);
                    }
                    assert(kw_f() != kw_v()) by {
                        assert(kw_f()[0] == 102u8 && kw_v()[0] == 118u8);
                    }
                    assert(kw_f() != kw_vn()) by {
                        assert(kw_f().len() == 1 && kw_vn().len() == 2);
                    }
                    assert(kw_f() != kw_vt()) by {
                        assert(kw_f().len() == 1 && kw_vt().len() == 2);
                    }
                    assert(st2.faces.len() == st.faces.len() + 1);
                    let a: int = st.faces.len() as int;
                    let b: int = st2.faces.len() as int;
                    lemma_count_f_nonneg(lines, i + 1);
                    assert(out.len() >= b);
                    assert forall|j: int| 0 <= j < a implies out[j] == st.faces[j] by {
                        assert(out.take(b)[j] == out[j]);
                        assert(st2.faces[j] == st.faces[j]);
                    }
                    assert(out.take(a) =~= st.faces);
                } else {
                    assert(st2.faces == st.faces);
                }
            },
            StepOut::NeedMaterial(_) => {
                assert(false);
            },
            StepOut::Fail(_) => {
                assert(false);
            },
        }
    }
}

/// One returned face per `f` record of the mesh text, whatever the
/// supplied images, whenever the parse runs to completion.
pub proof fn lemma_face_count(content: Seq<u8>, images: Seq<Option<ImageView>>)
    requires
        spec_parse(content, images) is Done,
    ensures
        spec_parse(content, images)->Done_0.len() == count_f_records(spec_lines(content), 0),
{
    lemma_run_face_count(init_state(), spec_lines(content), 0, images);
}

/// How one parsing call ends.
#[derive(Debug)]
pub enum Outcome {
    /// Every line was consumed: the faces, in declaration order.
    Faces(Vec<Face>),
    /// The `mtllib` record on the given 1-based line names a material
    /// file for which no image was supplied yet.  The caller reads that
    /// file, has its texture decoded, and parses again with the image
    /// list extended by one entry.
    NeedMaterial { line: usize, filename: Vec<u8> },
    /// The parse was aborted.
    Fail(ParseError),
}

impl View for Outcome {
    type V = RunOut;

    open spec fn view(&self) -> RunOut {
        match self {
            Outcome::Faces(v) => RunOut::Done(v@.map_values(|f: Face| f@)),
            Outcome::NeedMaterial { line, filename } => RunOut::NeedMaterial {
                line: *line,
                filename: filename@,
            },
            Outcome::Fail(e) => RunOut::Fail(*e),
        }
    }
}

/// Parse a position or normal record's tokens.
fn parse_triple(toks: &Vec<Vec<u8>>) -> (r: Option<Vec3>)
    ensures
        match r {
            Some(t) => spec_triple(toks@.map_values(|x: Vec<u8>| x@)) == Some(t@),
            None => spec_triple(toks@.map_values(|x: Vec<u8>| x@)) is None,
        },
{
    if toks.len() < 4 {
        return None;
    }
    let x = Scalar::parse(toks[1].as_slice());
    let y = Scalar::parse(toks[2].as_slice());
    let z = Scalar::parse(toks[3].as_slice());
    match (x, y, z) {
        (Some(x), Some(y), Some(z)) => Some(Vec3 { x, y, z }),
        _ => None,
    }
}

/// One pass of the mesh parser over `content`, with `images` answering
/// the `mtllib` records in order of appearance.
pub fn parse_mesh(content: &[u8], images: &Vec<Option<Image>>) -> (r: Outcome)
    ensures
        r@ == spec_parse(content@, images_view(images@)),
{
    let ghost big: Seq<Seq<u8>> = spec_lines(content@);
    let ghost iv: Seq<Option<ImageView>> = images_view(images@);
    let lines: Vec<Vec<u8>> = lines_of(content);
    let empty_img: Image = Image::empty();
    let mut cur_img: &Image = &empty_img;
    let mut positions: Vec<Vec3> = Vec::new();
    let mut normals: Vec<Vec3> = Vec::new();
    let mut colors: Vec<Rgba> = Vec::new();
    let mut faces: Vec<Face> = Vec::new();
    let mut next_image: usize = 0;
    let kwm: Vec<u8> = vec![109u8, 116u8, 108u8, 108u8, 105u8, 98u8];
    let kwv: Vec<u8> = vec![118u8];
    let kwvn: Vec<u8> = vec![118u8, 110u8];
    let kwvt: Vec<u8> = vec![118u8, 116u8];
    let kwf: Vec<u8> = vec![102u8];
    let mut i: usize = 0;
    proof {
        assert(kwm@ =~= kw_mtllib());
        assert(kwv@ =~= kw_v());
        assert(kwvn@ =~= kw_vn());
        assert(kwvt@ =~= kw_vt());
        assert(kwf@ =~= kw_f());
        assert(positions@.map_values(|x: Vec3| x@) =~= Seq::<Vec3View>::empty());
        assert(normals@.map_values(|x: Vec3| x@) =~= Seq::<Vec3View>::empty());
        assert(faces@.map_values(|x: Face| x@) =~= Seq::<FaceView>::empty());
        assert(empty_img@.pixels =~= Seq::<Rgba>::empty());
    }
    while i < lines.len()
        invariant
            0 <= i <= lines@.len(),
            big == spec_lines(content@),
            iv == images_view(images@),
            lines@.len() == big.len(),
            forall|j: int| 0 <= j < lines@.len() ==> #[trigger] lines@[j]@ == big[j],
            kwm@ == kw_mtllib(),
            kwv@ == kw_v(),
            kwvn@ == kw_vn(),
            kwvt@ == kw_vt(),
            kwf@ == kw_f(),
            next_image <= iv.len(),
            spec_run(init_state(), big, 0, iv) == spec_run(
                MeshState {
                    positions: positions@.map_values(|x: Vec3| x@),
                    normals: normals@.map_values(|x: Vec3| x@),
                    colors: colors@,
                    img: cur_img@,
                    next_image: next_image as int,
                    faces: faces@.map_values(|x: Face| x@),
                },
                big,
                i as int,
                iv,
            ),
        decreases lines@.len() - i,
    {
        let ghost cur: MeshState = MeshState {
            positions: positions@.map_values(|x: Vec3| x@),
            normals: normals@.map_values(|x: Vec3| x@),
            colors: colors@,
            img: cur_img@,
            next_image: next_image as int,
            faces: faces@.map_values(|x: Face| x@),
        };
        let toks: Vec<Vec<u8>> = tokens_of(lines[i].as_slice());
        let ghost tseq: Seq<Seq<u8>> = spec_tokens(big[i as int]);
        let ln: usize = i + 1;
        proof {
            assert(lines@[i as int]@ == big[i as int]);
            assert(toks@.map_values(|x: Vec<u8>| x@) =~= tseq);
        }
        let ghost stepped: StepOut = spec_step(cur, tseq, ln, iv);
        if toks.len() == 0 {
            proof {
                assert(stepped == StepOut::Next(cur));
            }
        } else if bytes_eq(toks[0].as_slice(), kwm.as_slice()) {
            proof {
                assert(tseq[0] == toks@[0]@);
            }
            if toks.len() < 2 {
                proof {
                    assert(stepped == StepOut::Fail(ParseError::FormatError { line: ln }));
                }
                return Outcome::Fail(ParseError::FormatError { line: ln });
            }
            if next_image >= images.len() {
                proof {
                    assert(stepped == StepOut::NeedMaterial(tseq[1]));
                    assert(toks@[1]@ == tseq[1]);
                }
                let filename: Vec<u8> = toks[1].clone();
                return Outcome::NeedMaterial { line: ln, filename };
            }
            match &images[next_image] {
                Some(im) => {
                    cur_img = im;
                },
                None => {},
            }
            next_image = next_image + 1;
            proof {
                assert(iv[cur.next_image] == match images@[cur.next_image] {
                    Some(im) => Some(im@),
                    None => None::<ImageView>,
                });
                assert(stepped == StepOut::Next(
                    MeshState {
                        img: cur_img@,
                        next_image: next_image as int,
                        ..cur
                    },
                ));
            }
        } else if bytes_eq(toks[0].as_slice(), kwv.as_slice()) {
            proof {
                assert(tseq[0] == toks@[0]@);
            }
            match parse_triple(&toks) {
                Some(t) => {
                    proof {
                        assert(spec_triple(tseq) == Some(t@));
                        assert((positions@.push(t)).map_values(|x: Vec3| x@)
                            =~= positions@.map_values(|x: Vec3| x@).push(t@));
                    }
                    positions.push(t);
                },
                None => {
                    proof {
                        assert(stepped == StepOut::Fail(ParseError::FormatError { line: ln }));
                    }
                    return Outcome::Fail(ParseError::FormatError { line: ln });
                },
            }
        } else if bytes_eq(toks[0].as_slice(), kwvn.as_slice()) {
            proof {
                assert(tseq[0] == toks@[0]@);
            }
            match parse_triple(&toks) {
                Some(t) => {
                    proof {
                        assert(spec_triple(tseq) == Some(t@));
                        assert((normals@.push(t)).map_values(|x: Vec3| x@)
                            =~= normals@.map_values(|x: Vec3| x@).push(t@));
                    }
                    normals.push(t);
                },
                None => {
                    proof {
                        assert(stepped == StepOut::Fail(ParseError::FormatError { line: ln }));
                    }
                    return Outcome::Fail(ParseError::FormatError { line: ln });
                },
            }
        } else if bytes_eq(toks[0].as_slice(), kwvt.as_slice()) {
            proof {
                assert(tseq[0] == toks@[0]@);
            }
            if toks.len() < 3 {
                proof {
                    assert(stepped == StepOut::Fail(ParseError::FormatError { line: ln }));
                }
                return Outcome::Fail(ParseError::FormatError { line: ln });
            }
            proof {
                assert(toks@[1]@ == tseq[1]);
                assert(toks@[2]@ == tseq[2]);
            }
            let su = Scalar::parse(toks[1].as_slice());
            let sv = Scalar::parse(toks[2].as_slice());
            match (su, sv) {
                (Some(su), Some(sv)) => {
                    match cur_img.sample(&su, &sv) {
                        Some(c) => {
                            colors.push(c);
                        },
                        None => {
                            proof {
                                assert(stepped == StepOut::Fail(
                                    ParseError::SampleOutOfRange { line: ln },
                                ));
                            }
                            return Outcome::Fail(ParseError::SampleOutOfRange { line: ln });
                        },
                    }
                },
                _ => {
                    proof {
                        assert(stepped == StepOut::Fail(ParseError::FormatError { line: ln }));
                    }
                    return Outcome::Fail(ParseError::FormatError { line: ln });
                },
            }
        } else if bytes_eq(toks[0].as_slice(), kwf.as_slice()) {
            proof {
                assert(tseq[0] == toks@[0]@);
                assert(toks@.map_values(|x: Vec<u8>| x@).skip(1) =~= tseq.skip(1));
            }
            match assemble_face(&toks, 1, &positions, &colors, &normals) {
                Ok(fc) => {
                    proof {
                        assert((faces@.push(fc)).map_values(|x: Face| x@)
                            =~= faces@.map_values(|x: Face| x@).push(fc@));
                    }
                    faces.push(fc);
                },
                Err(FaceErr::Format) => {
                    proof {
                        assert(stepped == StepOut::Fail(ParseError::FormatError { line: ln }));
                    }
                    return Outcome::Fail(ParseError::FormatError { line: ln });
                },
                Err(FaceErr::Index) => {
                    proof {
                        assert(stepped == StepOut::Fail(
                            ParseError::IndexOutOfRange { line: ln },
                        ));
                    }
                    return Outcome::Fail(ParseError::IndexOutOfRange { line: ln });
                },
            }
        } else {
            proof {
                assert(tseq[0] == toks@[0]@);
                assert(stepped == StepOut::Next(cur));
            }
        }
        proof {
            let post: MeshState = MeshState {
                positions: positions@.map_values(|x: Vec3| x@),
                normals: normals@.map_values(|x: Vec3| x@),
                colors: colors@,
                img: cur_img@,
                next_image: next_image as int,
                faces: faces@.map_values(|x: Face| x@),
            };
            assert(stepped == StepOut::Next(post));
            assert(spec_run(cur, big, i as int, iv) == spec_run(post, big, i as int + 1, iv));
        }
        i = i + 1;
    }
    proof {
        assert(spec_run(init_state(), big, 0, iv) == RunOut::Done(
            faces@.map_values(|x: Face| x@),
        ));
    }
    Outcome::Faces(faces)
}

} // verus!
