//! Meshes: ordered collections of triangles, scanned linearly.

use vstd::prelude::*;
use crate::numtext::{parse_dec_capped, parse_fixed_spec, spec_lines, spec_tokens, split_lines,
    tokenize, parse_fixed, parse_dec_u32};
use crate::ray::{ray_wf, Ray, RayV};
use crate::triangle::{tri_dist, tri_hit, tri_normal, tri_wf, Triangle, TriV};
use crate::fx::SCALE;
use crate::vec3::{bounded, norm_sq_raw, vsub, Vec3, V3, COORD_MAX};

verus! {

/// A mesh of triangles.
#[derive(Debug)]
pub struct Mesh {
    triangles: Vec<Triangle>,
}

impl View for Mesh {
    type V = Seq<Triangle>;

    closed spec fn view(&self) -> Seq<Triangle> {
        self.triangles@
    }
}

/// Every member triangle is well formed.
pub open spec fn mesh_wf(tris: Seq<Triangle>) -> bool {
    forall|i: int| 0 <= i < tris.len() ==> tri_wf(#[trigger] tris[i]@)
}

/// Where a ray meets a mesh: the member hit nearest to the ray origin
/// (squared distance; the earlier triangle wins ties).
pub open spec fn mesh_hit(tris: Seq<Triangle>, pos: V3, r: RayV, tol: int) -> Option<V3>
    decreases tris.len(),
{
    if tris.len() == 0 {
        None
    } else {
        let prev = mesh_hit(tris.drop_last(), pos, r, tol);
        let cur = tri_hit(tris.last()@, pos, r, tol);
        match cur {
            None => prev,
            Some(p) => match prev {
                None => Some(p),
                Some(q) => if norm_sq_raw(vsub(r.pt, p)) < norm_sq_raw(vsub(r.pt, q)) {
                    Some(p)
                } else {
                    Some(q)
                },
            },
        }
    }
}

/// Index of the member triangle nearest to `pt` (by `tri_dist`; the
/// earliest wins ties).
pub open spec fn mesh_min_idx(tris: Seq<Triangle>, pos: V3, pt: V3) -> int
    decreases tris.len(),
{
    if tris.len() <= 1 {
        0
    } else {
        let p = mesh_min_idx(tris.drop_last(), pos, pt);
        if tri_dist(tris.last()@, pos, pt) < tri_dist(tris[p]@, pos, pt) {
            tris.len() - 1
        } else {
            p
        }
    }
}

/// The normal reported by a mesh: the face normal of its nearest member.
pub open spec fn mesh_normal(tris: Seq<Triangle>, pos: V3, pt: V3) -> V3 {
    tris[mesh_min_idx(tris, pos, pt)]@.snorm
}

/// The minimizing index is a valid index.
pub proof fn lemma_mesh_min_idx_in_range(tris: Seq<Triangle>, pos: V3, pt: V3)
    requires
        tris.len() > 0,
    ensures
        0 <= mesh_min_idx(tris, pos, pt) < tris.len(),
    decreases tris.len(),
{
    if tris.len() > 1 {
        lemma_mesh_min_idx_in_range(tris.drop_last(), pos, pt);
    }
}

/// Parse errors of the mesh loader.
#[derive(Clone, Copy, Debug, PartialEq, Eq, Structural)]
pub enum MeshParseError {
    /// A vertex or face line holds too few entries or an entry that is
    /// not a number of the expected shape.
    MalformedNumber,
    /// A face refers to a vertex that was not defined.
    IndexOutOfRange,
}

/// The loader's state: the vertices seen so far and the faces built
/// from them.
pub struct ObjSt {
    pub verts: Seq<V3>,
    pub tris: Seq<TriV>,
}

/// The state before any line.
pub open spec fn obj_init() -> ObjSt {
    ObjSt { verts: Seq::empty(), tris: Seq::empty() }
}

/// One line of a mesh file: comments and unknown keywords are ignored;
/// a line starting with the vertex keyword defines a vertex from its
/// next three fixed-point fields; a line starting with the face keyword
/// builds a triangle from three one-based vertex indices.
pub open spec fn obj_line_step(st: ObjSt, line: Seq<u8>) -> Result<ObjSt, MeshParseError> {
    if line.len() == 0 {
        Ok(st)
    } else if line[0] == 35 {
        Ok(st)
    } else if line[0] == 118 {
        let toks = spec_tokens(line);
        if toks.len() < 4 {
            Err(MeshParseError::MalformedNumber)
        } else {
            match (parse_fixed_spec(toks[1]), parse_fixed_spec(toks[2]), parse_fixed_spec(
                toks[3],
            )) {
                (Some(x), Some(y), Some(z)) => Ok(
                    ObjSt { verts: st.verts.push(V3 { x, y, z }), ..st },
                ),
                _ => Err(MeshParseError::MalformedNumber),
            }
        }
    } else if line[0] == 102 {
        let toks = spec_tokens(line);
        if toks.len() < 4 {
            Err(MeshParseError::MalformedNumber)
        } else {
            match (parse_dec_capped(toks[1]), parse_dec_capped(toks[2]), parse_dec_capped(
                toks[3],
            )) {
                (Some(a), Some(b), Some(c)) => {
                    if 1 <= a <= st.verts.len() && 1 <= b <= st.verts.len() && 1 <= c
                        <= st.verts.len() {
                        let v1 = st.verts[a - 1];
                        let v2 = st.verts[b - 1];
                        let v3 = st.verts[c - 1];
                        Ok(
                            ObjSt {
                                tris: st.tris.push(
                                    TriV { v1, v2, v3, snorm: tri_normal(v1, v2, v3) },
                                ),
                                ..st
                            },
                        )
                    } else {
                        Err(MeshParseError::IndexOutOfRange)
                    }
                },
                _ => Err(MeshParseError::MalformedNumber),
            }
        }
    } else {
        Ok(st)
    }
}

/// Run the loader over the lines of the input.
pub open spec fn obj_run_lines(st: ObjSt, lines: Seq<Seq<u8>>) -> Result<ObjSt, MeshParseError>
    decreases lines.len(),
{
    if lines.len() == 0 {
        Ok(st)
    } else {
        match obj_line_step(st, lines[0]) {
            Ok(m) => obj_run_lines(m, lines.drop_first()),
            Err(e) => Err(e),
        }
    }
}

/// The loader over a whole input.
pub open spec fn obj_parse(data: Seq<u8>) -> Result<ObjSt, MeshParseError> {
    obj_run_lines(obj_init(), spec_lines(data))
}

/// Every vertex of the state is a representable coordinate triple.
pub open spec fn obj_st_inv(st: ObjSt) -> bool {
    forall|i: int| 0 <= i < st.verts.len() ==> bounded(#[trigger] st.verts[i], COORD_MAX as int)
}

/// Splitting a line run at any point composes.
pub proof fn lemma_obj_run_append(st: ObjSt, a: Seq<Seq<u8>>, b: Seq<Seq<u8>>)
    ensures
        obj_run_lines(st, a + b) == (match obj_run_lines(st, a) {
            Ok(m) => obj_run_lines(m, b),
            Err(e) => Err::<ObjSt, MeshParseError>(e),
        }),
    decreases a.len(),
{
    if a.len() == 0 {
        assert(a + b =~~= b);
    } else {
        assert((a + b)[0] == a[0]);
        assert((a + b).drop_first() =~~= a.drop_first() + b);
        match obj_line_step(st, a[0]) {
            Ok(m) => {
                lemma_obj_run_append(m, a.drop_first(), b);
            },
            Err(_) => {},
        }
    }
}

/// Running one more line runs it on the result.
pub proof fn lemma_obj_run_snoc(st: ObjSt, lines: Seq<Seq<u8>>, l: Seq<u8>)
    ensures
        obj_run_lines(st, lines.push(l)) == (match obj_run_lines(st, lines) {
            Ok(m) => obj_line_step(m, l),
            Err(e) => Err(e),
        }),
{
    assert(lines.push(l) =~~= lines + seq![l]);
    lemma_obj_run_append(st, lines, seq![l]);
    match obj_run_lines(st, lines) {
        Ok(m) => {
            assert(seq![l][0] == l);
            assert(seq![l].drop_first() =~~= Seq::<Seq<u8>>::empty());
            match obj_line_step(m, l) {
                Ok(m2) => {
                    assert(obj_run_lines(m2, Seq::<Seq<u8>>::empty()) == Ok::<
                        ObjSt,
                        MeshParseError,
                    >(m2));
                },
                Err(_) => {},
            }
        },
        Err(_) => {},
    }
}

/// The loader's steps preserve the vertex bound.
pub proof fn lemma_obj_step_inv(st: ObjSt, line: Seq<u8>)
    requires
        obj_st_inv(st),
    ensures
        obj_line_step(st, line) matches Ok(st2) ==> obj_st_inv(st2),
{
    if line.len() > 0 && line[0] == 118 {
        let toks = spec_tokens(line);
        if toks.len() >= 4 {
            match (parse_fixed_spec(toks[1]), parse_fixed_spec(toks[2]), parse_fixed_spec(
                toks[3],
            )) {
                (Some(x), Some(y), Some(z)) => {
                    crate::numtext::lemma_parse_fixed_bounded(toks[1]);
                    crate::numtext::lemma_parse_fixed_bounded(toks[2]);
                    crate::numtext::lemma_parse_fixed_bounded(toks[3]);
                },
                _ => {},
            }
        }
    }
}

/// The exec loader state as the spec sees it.
pub open spec fn obj_st_of(vs: Seq<Vec3>, ts: Seq<Triangle>) -> ObjSt {
    ObjSt {
        verts: vs.map_values(|v: Vec3| v@),
        tris: ts.map_values(|t: Triangle| t@),
    }
}

impl Mesh {
    /// Load a mesh from the text of a mesh file (see `obj_parse`).
    pub fn from_obj(data: &[u8]) -> (r: Result<Mesh, MeshParseError>)
        requires
            data@.len() < 0x10000000000000000,
        ensures
            match r {
                Ok(m) => obj_parse(data@) matches Ok(st) && m@.map_values(|t: Triangle| t@)
                    == st.tris && mesh_wf(m@),
                Err(e) => obj_parse(data@) == Err::<ObjSt, MeshParseError>(e),
            },
    {
        let lines: Vec<Vec<u8>> = split_lines(data);
        let ghost linesv = spec_lines(data@);
        let mut vertices: Vec<Vec3> = Vec::new();
        let mut triangles: Vec<Triangle> = Vec::new();
        let nl: usize = lines.len();
        proof {
            assert(linesv.subrange(0, 0) =~~= Seq::<Seq<u8>>::empty());
            assert(obj_st_of(vertices@, triangles@).verts =~~= Seq::<V3>::empty());
            assert(obj_st_of(vertices@, triangles@).tris =~~= Seq::<TriV>::empty());
        }
        let mut li: usize = 0;
        while li < nl
            invariant
                data@.len() < 0x10000000000000000,
                linesv == spec_lines(data@),
                lines@.map_values(|l: Vec<u8>| l@) =~~= linesv,
                nl == lines@.len(),
                li <= nl,
                obj_run_lines(obj_init(), linesv.subrange(0, li as int)) == Ok::<
                    ObjSt,
                    MeshParseError,
                >(obj_st_of(vertices@, triangles@)),
                obj_st_inv(obj_st_of(vertices@, triangles@)),
                forall|j: int| 0 <= j < triangles@.len() ==> tri_wf(#[trigger] triangles@[j]@),
            decreases nl - li,
        {
            let line: &Vec<u8> = &lines[li];
            let ghost linev = linesv[li as int];
            proof {
                assert(lines@.map_values(|l: Vec<u8>| l@)[li as int] == line@);
                assert(linesv.subrange(0, li as int).push(linev) =~~= linesv.subrange(
                    0,
                    li as int + 1,
                ));
                lemma_obj_run_snoc(obj_init(), linesv.subrange(0, li as int), linev);
                lemma_obj_step_inv(obj_st_of(vertices@, triangles@), linev);
            }
            match Self::read_line(line, &mut vertices, &mut triangles) {
                Ok(()) => {},
                Err(e) => {
                    proof {
                        assert(linesv =~~= linesv.subrange(0, li as int + 1) + linesv.subrange(
                            li as int + 1,
                            linesv.len() as int,
                        ));
                        lemma_obj_run_append(
                            obj_init(),
                            linesv.subrange(0, li as int + 1),
                            linesv.subrange(li as int + 1, linesv.len() as int),
                        );
                    }
                    return Err(e);
                },
            }
            li = li + 1;
        }
        proof {
            assert(linesv.subrange(0, nl as int) =~~= linesv);
        }
        Ok(Mesh { triangles })
    }

    /// Apply one line of a mesh file to the vertex and face lists (see
    /// `obj_line_step`).
    fn read_line(
        line: &Vec<u8>,
        vertices: &mut Vec<Vec3>,
        triangles: &mut Vec<Triangle>,
    ) -> (r: Result<(), MeshParseError>)
        requires
            obj_st_inv(obj_st_of(old(vertices)@, old(triangles)@)),
            forall|j: int|
                0 <= j < old(triangles)@.len() ==> tri_wf(#[trigger] old(triangles)@[j]@),
        ensures
            match r {
                Ok(()) => obj_line_step(obj_st_of(old(vertices)@, old(triangles)@), line@) == Ok::<
                    ObjSt,
                    MeshParseError,
                >(obj_st_of(final(vertices)@, final(triangles)@)),
                Err(e) => obj_line_step(obj_st_of(old(vertices)@, old(triangles)@), line@) == Err::<
                    ObjSt,
                    MeshParseError,
                >(e) && final(vertices)@ == old(vertices)@ && final(triangles)@ == old(
                    triangles,
                )@,
            },
            forall|j: int|
                0 <= j < final(triangles)@.len() ==> tri_wf(#[trigger] final(triangles)@[j]@),
    {
        let ghost st = obj_st_of(vertices@, triangles@);
        if line.len() == 0 {
            return Ok(());
        }
        let first: u8 = line[0];
        if first == 35 {
            return Ok(());
        }
        if first == 118 {
            let toks: Vec<Vec<u8>> = tokenize(line.as_slice());
            let ghost toksv = spec_tokens(line@);
            if toks.len() < 4 {
                return Err(MeshParseError::MalformedNumber);
            }
            proof {
                assert(toks@.map_values(|t: Vec<u8>| t@)[1] == toks@[1]@);
                assert(toks@.map_values(|t: Vec<u8>| t@)[2] == toks@[2]@);
                assert(toks@.map_values(|t: Vec<u8>| t@)[3] == toks@[3]@);
            }
            let x: i64 = match parse_fixed(toks[1].as_slice()) {
                Some(v) => v,
                None => {
                    return Err(MeshParseError::MalformedNumber);
                },
            };
            let y: i64 = match parse_fixed(toks[2].as_slice()) {
                Some(v) => v,
                None => {
                    return Err(MeshParseError::MalformedNumber);
                },
            };
            let z: i64 = match parse_fixed(toks[3].as_slice()) {
                Some(v) => v,
                None => {
                    return Err(MeshParseError::MalformedNumber);
                },
            };
            vertices.push(Vec3::new(x, y, z));
            proof {
                assert(obj_st_of(vertices@, triangles@).verts =~~= st.verts.push(
                    V3 { x: x as int, y: y as int, z: z as int },
                ));
                assert(obj_st_of(vertices@, triangles@).tris =~~= st.tris);
            }
            return Ok(());
        }
        if first == 102 {
            let toks: Vec<Vec<u8>> = tokenize(line.as_slice());
            let ghost toksv = spec_tokens(line@);
            if toks.len() < 4 {
                return Err(MeshParseError::MalformedNumber);
            }
            proof {
                assert(toks@.map_values(|t: Vec<u8>| t@)[1] == toks@[1]@);
                assert(toks@.map_values(|t: Vec<u8>| t@)[2] == toks@[2]@);
                assert(toks@.map_values(|t: Vec<u8>| t@)[3] == toks@[3]@);
            }
            let a: u64 = match parse_dec_u32(toks[1].as_slice()) {
                Some(v) => v,
                None => {
                    return Err(MeshParseError::MalformedNumber);
                },
            };
            let b: u64 = match parse_dec_u32(toks[2].as_slice()) {
                Some(v) => v,
                None => {
                    return Err(MeshParseError::MalformedNumber);
                },
            };
            let c: u64 = match parse_dec_u32(toks[3].as_slice()) {
                Some(v) => v,
                None => {
                    return Err(MeshParseError::MalformedNumber);
                },
            };
            let n: u64 = vertices.len() as u64;
            if !(1 <= a && a <= n && 1 <= b && b <= n && 1 <= c && c <= n) {
                return Err(MeshParseError::IndexOutOfRange);
            }
            let v1: Vec3 = vertices[(a - 1) as usize];
            let v2: Vec3 = vertices[(b - 1) as usize];
            let v3: Vec3 = vertices[(c - 1) as usize];
            proof {
                assert(v1@ == st.verts[a as int - 1]);
                assert(v2@ == st.verts[b as int - 1]);
                assert(v3@ == st.verts[c as int - 1]);
            }
            let tri: Triangle = Triangle::new(v1, v2, v3);
            triangles.push(tri);
            proof {
                assert(obj_st_of(vertices@, triangles@).tris =~~= st.tris.push(tri@));
                assert(obj_st_of(vertices@, triangles@).verts =~~= st.verts);
            }
            return Ok(());
        }
        Ok(())
    }

    /// Build a mesh from its member triangles.
    pub fn new(triangles: Vec<Triangle>) -> (r: Mesh)
        ensures
            r@ == triangles@,
    {
        Mesh { triangles }
    }

    /// The member triangles, in order.
    pub fn triangles(&self) -> (r: &Vec<Triangle>)
        ensures
            r@ == self@,
    {
        &self.triangles
    }

    /// Number of member triangles.
    pub fn len(&self) -> (r: usize)
        ensures
            r == self@.len(),
    {
        self.triangles.len()
    }

    /// Closest intersection of `ray` with any member triangle.
    pub fn intersection_point(&self, pos: &Vec3, ray: &Ray, tolerance: i64) -> (r: Option<Vec3>)
        requires
            mesh_wf(self@),
            bounded(pos@, COORD_MAX as int),
            ray_wf(ray@),
            0 <= tolerance,
        ensures
            match r {
                Some(p) => mesh_hit(self@, pos@, ray@, tolerance as int) == Some(p@)
                    && bounded(p@, COORD_MAX as int),
                None => mesh_hit(self@, pos@, ray@, tolerance as int) is None,
            },
    {
        let mut closest: Option<Vec3> = None;
        let n: usize = self.triangles.len();
        proof {
            assert(self@.subrange(0, 0) =~= Seq::<Triangle>::empty());
        }
        for i in 0..n
            invariant
                n == self@.len(),
                mesh_wf(self@),
                bounded(pos@, COORD_MAX as int),
                ray_wf(ray@),
                0 <= tolerance,
                match closest {
                    Some(q) => mesh_hit(self@.subrange(0, i as int), pos@, ray@, tolerance as int)
                        == Some(q@) && bounded(q@, COORD_MAX as int),
                    None => mesh_hit(self@.subrange(0, i as int), pos@, ray@, tolerance as int)
                        is None,
                },
        {
            let hit: Option<Vec3> = self.triangles[i].intersection_point(pos, ray, tolerance);
            match hit {
                Some(p) => {
                    match closest {
                        Some(q) => {
                            if ray.pos().dist_sq(&p) < ray.pos().dist_sq(&q) {
                                closest = Some(p);
                            }
                        },
                        None => {
                            closest = Some(p);
                        },
                    }
                },
                None => {},
            }
            proof {
                let pre = self@.subrange(0, i as int + 1);
                assert(pre.drop_last() =~= self@.subrange(0, i as int));
                assert(pre.last() == self@[i as int]);
            }
        }
        proof {
            assert(self@.subrange(0, n as int) =~= self@);
        }
        closest
    }

    /// The normal of the member triangle nearest to `pt`.
    pub fn surface_normal(&self, pos: &Vec3, pt: &Vec3) -> (r: Vec3)
        requires
            mesh_wf(self@),
            self@.len() > 0,
            bounded(pos@, COORD_MAX as int),
            bounded(pt@, COORD_MAX as int),
        ensures
            r@ == mesh_normal(self@, pos@, pt@),
            bounded(r@, SCALE as int),
    {
        let n: usize = self.triangles.len();
        let mut best: usize = 0;
        let mut best_d: i64 = self.triangles[0].distance_to_point(pos, pt);
        proof {
            assert(self@.subrange(0, 1).len() == 1);
            assert(self@.subrange(0, 1)[0] == self@[0]);
        }
        for i in 1..n
            invariant
                n == self@.len(),
                n > 0,
                mesh_wf(self@),
                bounded(pos@, COORD_MAX as int),
                bounded(pt@, COORD_MAX as int),
                best < i,
                1 <= i <= n,
                best == mesh_min_idx(self@.subrange(0, i as int), pos@, pt@),
                best_d == tri_dist(self@[best as int]@, pos@, pt@),
        {
            let d: i64 = self.triangles[i].distance_to_point(pos, pt);
            proof {
                let pre = self@.subrange(0, i as int + 1);
                assert(pre.drop_last() =~= self@.subrange(0, i as int));
                assert(pre.last() == self@[i as int]);
                lemma_mesh_min_idx_in_range(self@.subrange(0, i as int), pos@, pt@);
                assert(self@.subrange(0, i as int)[best as int] == self@[best as int]);
            }
            if d < best_d {
                best = i;
                best_d = d;
            }
        }
        proof {
            assert(self@.subrange(0, n as int) =~= self@);
            lemma_mesh_min_idx_in_range(self@, pos@, pt@);
        }
        self.triangles[best].surface_normal(pos, pt)
    }
}

} // verus!
