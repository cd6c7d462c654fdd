//! Triangle meshes: faces of the map and hulls of the UAVs.
//!
//! A face keeps its three vertices, the two edge vectors, the base vertex
//! and one outward unit normal (flipped when the mean of the vertex normals
//! opposes the geometric normal).  Point projection and ray intersection
//! are solved with integer determinants: instead of inverting the matrix
//! `[s t n]`, the same ratios appear by Cramer's rule, so every test is an
//! exact comparison of triple products.

use vstd::prelude::*;

use crate::fixed::SCALE;
use crate::geom::{
    cross, det_raw, dot, norm, normalize, spec_det_raw, tdiv, tdiv128, vec3_pos_range, vec3_sub,
    Vec3,
};

verus! {

/// Determinant threshold below which a ray test calls the triangle
/// degenerate: one thousandth, in the raw determinant scale.
pub const DET_EPS_RAW: i128 = 1_000_000_000_000_000;

/// Ray-parameter threshold: hits closer than this are ignored.
pub const RAY_T_EPS: i64 = 1_000;

/// One triangular face.
#[derive(Clone, Copy, Debug, PartialEq, Eq, Structural)]
pub struct Face {
    /// Index of the face in its mesh; identity for deduplication.
    pub id: usize,
    /// The three vertices.
    pub v0: Vec3,
    pub v1: Vec3,
    pub v2: Vec3,
    /// First edge, `v1 - v0`.
    pub s: Vec3,
    /// Second edge, `v2 - v0`.
    pub t: Vec3,
    /// Outward unit normal.
    pub normal: Vec3,
    /// Base vertex, `v0`.
    pub base: Vec3,
}

/// Face invariant: vertices in the world range, edges and base consistent
/// with them, the normal of unit size, and the frame `[s t n]` invertible.
pub open spec fn face_wf(f: Face) -> bool {
    &&& vec3_pos_range(f.v0)
    &&& vec3_pos_range(f.v1)
    &&& vec3_pos_range(f.v2)
    &&& f.s.x == f.v1.x - f.v0.x && f.s.y == f.v1.y - f.v0.y && f.s.z == f.v1.z - f.v0.z
    &&& f.t.x == f.v2.x - f.v0.x && f.t.y == f.v2.y - f.v0.y && f.t.z == f.v2.z - f.v0.z
    &&& f.base == f.v0
    &&& -SCALE <= f.normal.x <= SCALE
    &&& -SCALE <= f.normal.y <= SCALE
    &&& -SCALE <= f.normal.z <= SCALE
    &&& spec_det_raw(f.s, f.t, f.normal) != 0
}

/// A vector scaled down for the cross product: each component divided by
/// 1024, which keeps the product of two edges inside the fixed-point range
/// without moving the direction.
pub open spec fn spec_scaled(v: Vec3) -> Vec3 {
    Vec3 {
        x: tdiv(v.x as int, 1024) as i64,
        y: tdiv(v.y as int, 1024) as i64,
        z: tdiv(v.z as int, 1024) as i64,
    }
}

/// The mean of the three vertex normals.
pub open spec fn spec_mean_normal(n0: Vec3, n1: Vec3, n2: Vec3) -> Vec3 {
    Vec3 {
        x: tdiv(n0.x + n1.x + n2.x, 3) as i64,
        y: tdiv(n0.y + n1.y + n2.y, 3) as i64,
        z: tdiv(n0.z + n1.z + n2.z, 3) as i64,
    }
}

/// The geometric normal direction of a triangle: the cross product of its
/// scaled edges.
pub open spec fn spec_face_cross(v0: Vec3, v1: Vec3, v2: Vec3) -> Vec3 {
    let es = spec_scaled(Vec3 { x: (v1.x - v0.x) as i64, y: (v1.y - v0.y) as i64, z: (v1.z
        - v0.z) as i64 });
    let et = spec_scaled(Vec3 { x: (v2.x - v0.x) as i64, y: (v2.y - v0.y) as i64, z: (v2.z
        - v0.z) as i64 });
    let c = crate::geom::spec_cross(es, et);
    Vec3 { x: c.0 as i64, y: c.1 as i64, z: c.2 as i64 }
}

/// The oriented normal direction: the geometric normal, flipped when the
/// mean vertex normal opposes it.
pub open spec fn spec_face_oriented(v0: Vec3, v1: Vec3, v2: Vec3, n0: Vec3, n1: Vec3, n2: Vec3)
    -> Vec3 {
    let c = spec_face_cross(v0, v1, v2);
    if crate::geom::spec_dot(c, spec_mean_normal(n0, n1, n2)) < 0 {
        Vec3 { x: (-c.x) as i64, y: (-c.y) as i64, z: (-c.z) as i64 }
    } else {
        c
    }
}

/// The unit normal of a face: the oriented direction normalized by its
/// integer length.
pub open spec fn spec_face_normal(v0: Vec3, v1: Vec3, v2: Vec3, n0: Vec3, n1: Vec3, n2: Vec3)
    -> Vec3 {
    let o = spec_face_oriented(v0, v1, v2, n0, n1, n2);
    let n = crate::geom::spec_normalize(o, crate::geom::spec_sqrt(crate::geom::spec_dot_raw(o, o)));
    Vec3 { x: n.0 as i64, y: n.1 as i64, z: n.2 as i64 }
}

/// A triangle too degenerate to carry a frame: its oriented cross product
/// vanishes, or the frame of edges and unit normal is singular.
pub open spec fn spec_face_degenerate(v0: Vec3, v1: Vec3, v2: Vec3, n0: Vec3, n1: Vec3, n2: Vec3)
    -> bool {
    let o = spec_face_oriented(v0, v1, v2, n0, n1, n2);
    ||| crate::geom::spec_sqrt(crate::geom::spec_dot_raw(o, o)) == 0
    ||| spec_det_raw(
        Vec3 { x: (v1.x - v0.x) as i64, y: (v1.y - v0.y) as i64, z: (v1.z - v0.z) as i64 },
        Vec3 { x: (v2.x - v0.x) as i64, y: (v2.y - v0.y) as i64, z: (v2.z - v0.z) as i64 },
        spec_face_normal(v0, v1, v2, n0, n1, n2),
    ) == 0
}

impl Face {
    /// Builds a face: edges from the vertices, the geometric normal from
    /// their cross product, flipped if the mean vertex normal opposes it,
    /// then normalized.  Returns `None` when the triangle is too degenerate
    /// to carry a frame.
    pub fn new(id: usize, v0: Vec3, v1: Vec3, v2: Vec3, n0: Vec3, n1: Vec3, n2: Vec3) -> (r:
        Option<Face>)
        requires
            vec3_pos_range(v0),
            vec3_pos_range(v1),
            vec3_pos_range(v2),
            vec3_pos_range(n0),
            vec3_pos_range(n1),
            vec3_pos_range(n2),
        ensures
            r is None <==> spec_face_degenerate(v0, v1, v2, n0, n1, n2),
            match r {
                Some(f) => {
                    &&& face_wf(f)
                    &&& f.id == id
                    &&& f.v0 == v0 && f.v1 == v1 && f.v2 == v2
                    &&& f.normal == spec_face_normal(v0, v1, v2, n0, n1, n2)
                },
                None => true,
            },
    {
        let s = vec3_sub(v1, v0);
        let t = vec3_sub(v2, v0);
        let es = Vec3 {
            x: tdiv128(s.x as i128, 1024) as i64,
            y: tdiv128(s.y as i128, 1024) as i64,
            z: tdiv128(s.z as i128, 1024) as i64,
        };
        let et = Vec3 {
            x: tdiv128(t.x as i128, 1024) as i64,
            y: tdiv128(t.y as i128, 1024) as i64,
            z: tdiv128(t.z as i128, 1024) as i64,
        };
        proof {
            crate::geom::lemma_tdiv_mag(s.x as int, 1024, 20_000_000_000);
            crate::geom::lemma_tdiv_mag(s.y as int, 1024, 20_000_000_000);
            crate::geom::lemma_tdiv_mag(s.z as int, 1024, 20_000_000_000);
            crate::geom::lemma_tdiv_mag(t.x as int, 1024, 20_000_000_000);
            crate::geom::lemma_tdiv_mag(t.y as int, 1024, 20_000_000_000);
            crate::geom::lemma_tdiv_mag(t.z as int, 1024, 20_000_000_000);
        }
        let c = cross(es, et);
        let mx = tdiv128((n0.x as i128) + (n1.x as i128) + (n2.x as i128), 3);
        let my = tdiv128((n0.y as i128) + (n1.y as i128) + (n2.y as i128), 3);
        let mz = tdiv128((n0.z as i128) + (n1.z as i128) + (n2.z as i128), 3);
        let vm = Vec3 { x: mx as i64, y: my as i64, z: mz as i64 };
        proof {
            crate::geom::lemma_abs_mul_le(es.y as int, et.z as int, 19_531_250, 19_531_250);
            crate::geom::lemma_abs_mul_le(es.z as int, et.y as int, 19_531_250, 19_531_250);
            crate::geom::lemma_abs_mul_le(es.z as int, et.x as int, 19_531_250, 19_531_250);
            crate::geom::lemma_abs_mul_le(es.x as int, et.z as int, 19_531_250, 19_531_250);
            crate::geom::lemma_abs_mul_le(es.x as int, et.y as int, 19_531_250, 19_531_250);
            crate::geom::lemma_abs_mul_le(es.y as int, et.x as int, 19_531_250, 19_531_250);
            crate::geom::lemma_tdiv_mag(es.y as int * et.z as int - es.z as int * et.y as int,
                SCALE as int, 800_000_000_000_000_000);
            crate::geom::lemma_tdiv_mag(es.z as int * et.x as int - es.x as int * et.z as int,
                SCALE as int, 800_000_000_000_000_000);
            crate::geom::lemma_tdiv_mag(es.x as int * et.y as int - es.y as int * et.x as int,
                SCALE as int, 800_000_000_000_000_000);
        }
        let oriented = if dot(c, vm) < 0 {
            crate::geom::vec3_neg(c)
        } else {
            c
        };
        proof {
            assert(es == spec_scaled(s));
            assert(et == spec_scaled(t));
            assert(c == spec_face_cross(v0, v1, v2));
            assert(vm == spec_mean_normal(n0, n1, n2));
            assert(oriented == spec_face_oriented(v0, v1, v2, n0, n1, n2));
        }
        let len = norm(oriented);
        if len == 0 {
            return None;
        }
        let n = normalize(oriented, len);
        proof {
            assert(n == spec_face_normal(v0, v1, v2, n0, n1, n2));
        }
        let f = Face { id, v0, v1, v2, s, t, normal: n, base: v0 };
        let d = det_raw(s, t, n);
        if d == 0 {
            return None;
        }
        Some(f)
    }

    /// Projects a point onto the face frame.  The projection is inside the
    /// triangle exactly when both barycentric ratios and their sum lie in
    /// the unit interval; the second result is then the signed distance
    /// along the normal, and zero otherwise.
    pub fn projectPoint(&self, point: Vec3) -> (r: (bool, i64))
        requires
            face_wf(*self),
            vec3_pos_range(point),
        ensures
            r.0 == spec_project_inside(*self, point),
            r.0 ==> r.1 == spec_project_depth(*self, point),
            !r.0 ==> r.1 == 0,
    {
        let d = vec3_sub(point, self.base);
        let dr = det_raw(self.s, self.t, self.normal);
        let a0 = det_raw(d, self.t, self.normal);
        let a1 = det_raw(self.s, d, self.normal);
        let inside: bool = if dr > 0 {
            0 <= a0 && a0 <= dr && 0 <= a1 && a1 <= dr && a0 + a1 <= dr
        } else {
            dr <= a0 && a0 <= 0 && dr <= a1 && a1 <= 0 && dr <= a0 + a1
        };
        if inside {
            let dep = det_raw(self.s, self.t, d);
            proof {
                crate::geom::lemma_det_bound(
                    self.s,
                    self.t,
                    d,
                    20_000_000_000,
                    20_000_000_000,
                    20_000_000_000,
                );
            }
            let num = dep * (SCALE as i128);
            let q = if dr > 0 {
                tdiv128(num, dr)
            } else {
                tdiv128(-num, -dr)
            };
            proof {
                lemma_quot_mag(dep as int * (SCALE as int), dr as int);
            }
            let depth = clamp128(q);
            (true, depth)
        } else {
            (false, 0)
        }
    }

    /// Casts a ray from `point` along the unit direction `dir`
    /// (Moeller-Trumbore).  A hit needs a non-degenerate determinant, both
    /// barycentric ratios in the unit interval, and a parameter beyond the
    /// near threshold; the second result is then that parameter.
    pub fn rayIntersection(&self, point: Vec3, dir: Vec3) -> (r: (bool, i64))
        requires
            face_wf(*self),
            vec3_pos_range(point),
            -2_000_000 <= dir.x <= 2_000_000,
            -2_000_000 <= dir.y <= 2_000_000,
            -2_000_000 <= dir.z <= 2_000_000,
        ensures
            r.0 == spec_ray_hits(*self, point, dir),
            r.0 ==> r.1 == spec_ray_t(*self, point, dir) && r.1 > RAY_T_EPS,
            !r.0 ==> r.1 == 0,
    {
        let det = det_raw(self.s, dir, self.t);
        if det < DET_EPS_RAW && -det < DET_EPS_RAW {
            return (false, 0);
        }
        let p = vec3_sub(point, self.base);
        let u_num = det_raw(p, dir, self.t);
        let v_num = det_raw(dir, p, self.s);
        let pos = det > 0;
        let u_ok: bool = if pos {
            0 <= u_num && u_num <= det
        } else {
            det <= u_num && u_num <= 0
        };
        if !u_ok {
            return (false, 0);
        }
        let v_ok: bool = if pos {
            0 <= v_num && u_num + v_num <= det
        } else {
            v_num <= 0 && det <= u_num + v_num
        };
        if !v_ok {
            return (false, 0);
        }
        let t_num = det_raw(self.t, p, self.s);
        proof {
            crate::geom::lemma_det_bound(
                self.t,
                p,
                self.s,
                20_000_000_000,
                20_000_000_000,
                20_000_000_000,
            );
        }
        let tv = if pos {
            tdiv128(t_num * (SCALE as i128), det)
        } else {
            tdiv128(-(t_num * (SCALE as i128)), -det)
        };
        proof {
            lemma_quot_mag(t_num as int * (SCALE as int), det as int);
        }
        let tval = clamp128(tv);
        if tval > RAY_T_EPS {
            (true, tval)
        } else {
            (false, 0)
        }
    }
}

/// A parsed mesh: vertices, vertex normals and triangular faces.
pub struct Obj {
    /// Vertex positions, all within the world range.
    pub vertices: Vec<Vec3>,
    /// Vertex normals, in the order of the file.
    pub normals: Vec<Vec3>,
    /// The triangular faces, `faces[k].id == k`.
    pub faces: Vec<Face>,
}

/// Mesh invariant: vertices in the world range and faces well-formed and
/// indexed by their position.
pub open spec fn obj_wf(o: Obj) -> bool {
    &&& forall|k: int| 0 <= k < o.vertices@.len() ==> vec3_pos_range(#[trigger] o.vertices@[k])
    &&& forall|k: int|
        0 <= k < o.faces@.len() ==> face_wf(#[trigger] o.faces@[k]) && o.faces@[k].id == k
}

impl Obj {
    /// Parses mesh text, line by line: `v` lines add a vertex, `vn` lines a
    /// normal, `f` lines a triangle over earlier vertices and normals.  A
    /// line that does not fit — a malformed number, a coordinate out of the
    /// world range, a face over missing indices or too degenerate to carry
    /// a frame — is skipped, and with `vertices_only` set, only vertices
    /// are read.
    pub fn load_from_text(text: &[u8], vertices_only: bool) -> (r: Obj)
        ensures
            obj_wf(r),
            vertices_only ==> r.faces@.len() == 0 && r.normals@.len() == 0,
    {
        let mut vertices: Vec<Vec3> = Vec::new();
        let mut normals: Vec<Vec3> = Vec::new();
        let mut faces: Vec<Face> = Vec::new();
        let lines = crate::text::split_bytes(text, 10);
        let mut li: usize = 0;
        while li < lines.len()
            invariant
                forall|k: int|
                    0 <= k < vertices@.len() ==> vec3_pos_range(#[trigger] vertices@[k]),
                forall|k: int|
                    0 <= k < normals@.len() ==> vec3_pos_range(#[trigger] normals@[k]),
                forall|k: int|
                    0 <= k < faces@.len() ==> face_wf(#[trigger] faces@[k]) && faces@[k].id == k,
                vertices_only ==> faces@.len() == 0 && normals@.len() == 0,
            decreases lines@.len() - li,
        {
            let toks = tokens(lines[li].as_slice());
            if toks.len() == 4 {
                let head = toks[0].as_slice();
                if head.len() == 1 && head[0] == 118 {
                    // a vertex line, `v x y z`
                    match coords(&toks) {
                        Some(v) => {
                            vertices.push(v);
                        },
                        None => {},
                    }
                } else if head.len() == 2 && head[0] == 118 && head[1] == 110 && !vertices_only {
                    // a normal line, `vn x y z`
                    match coords(&toks) {
                        Some(v) => {
                            normals.push(v);
                        },
                        None => {},
                    }
                } else if head.len() == 1 && head[0] == 102 && !vertices_only {
                    // a face line, `f v/t/n v/t/n v/t/n`
                    let c0 = corner(toks[1].as_slice(), &vertices, &normals);
                    let c1 = corner(toks[2].as_slice(), &vertices, &normals);
                    let c2 = corner(toks[3].as_slice(), &vertices, &normals);
                    match (c0, c1, c2) {
                        (Some((v0, n0)), Some((v1, n1)), Some((v2, n2))) => {
                            let built = Face::new(faces.len(), v0, v1, v2, n0, n1, n2);
                            match built {
                                Some(f) => {
                                    faces.push(f);
                                },
                                None => {},
                            }
                        },
                        _ => {},
                    }
                }
            }
            li = li + 1;
        }
        Obj { vertices, normals, faces }
    }

    /// Componentwise corners of the smallest box holding every vertex:
    /// every vertex is contained, and each bound is attained by some
    /// vertex.  An empty mesh gives the inverted full-range box.
    pub fn boundingBox(&self) -> (r: (Vec3, Vec3))
        requires
            obj_wf(*self),
        ensures
            forall|k: int|
                0 <= k < self.vertices@.len() ==> {
                    let v = #[trigger] self.vertices@[k];
                    &&& r.0.x <= v.x && r.0.y <= v.y && r.0.z <= v.z
                    &&& v.x <= r.1.x && v.y <= r.1.y && v.z <= r.1.z
                },
            self.vertices@.len() == 0 ==> r.0 == (Vec3 {
                x: crate::geom::POS_LIMIT,
                y: crate::geom::POS_LIMIT,
                z: crate::geom::POS_LIMIT,
            }) && r.1 == (Vec3 {
                x: (-crate::geom::POS_LIMIT) as i64,
                y: (-crate::geom::POS_LIMIT) as i64,
                z: (-crate::geom::POS_LIMIT) as i64,
            }),
            self.vertices@.len() > 0 ==> {
                &&& exists|k: int|
                    0 <= k < self.vertices@.len() && r.0.x == (#[trigger] self.vertices@[k]).x
                &&& exists|k: int|
                    0 <= k < self.vertices@.len() && r.0.y == (#[trigger] self.vertices@[k]).y
                &&& exists|k: int|
                    0 <= k < self.vertices@.len() && r.0.z == (#[trigger] self.vertices@[k]).z
                &&& exists|k: int|
                    0 <= k < self.vertices@.len() && r.1.x == (#[trigger] self.vertices@[k]).x
                &&& exists|k: int|
                    0 <= k < self.vertices@.len() && r.1.y == (#[trigger] self.vertices@[k]).y
                &&& exists|k: int|
                    0 <= k < self.vertices@.len() && r.1.z == (#[trigger] self.vertices@[k]).z
            },
    {
        let lim = crate::geom::POS_LIMIT;
        let mut lo = Vec3 { x: lim, y: lim, z: lim };
        let mut hi = Vec3 { x: -lim, y: -lim, z: -lim };
        let ghost mut wit: (int, int, int, int, int, int) = (0, 0, 0, 0, 0, 0);
        let mut k: usize = 0;
        while k < self.vertices.len()
            invariant
                obj_wf(*self),
                k <= self.vertices@.len(),
                forall|j: int|
                    0 <= j < k ==> {
                        let v = #[trigger] self.vertices@[j];
                        &&& lo.x <= v.x && lo.y <= v.y && lo.z <= v.z
                        &&& v.x <= hi.x && v.y <= hi.y && v.z <= hi.z
                    },
                k == 0 ==> lo == (Vec3 { x: lim, y: lim, z: lim }) && hi == (Vec3 {
                    x: (-lim) as i64,
                    y: (-lim) as i64,
                    z: (-lim) as i64,
                }),
                k > 0 ==> {
                    &&& 0 <= wit.0 < k && lo.x == self.vertices@[wit.0].x
                    &&& 0 <= wit.1 < k && lo.y == self.vertices@[wit.1].y
                    &&& 0 <= wit.2 < k && lo.z == self.vertices@[wit.2].z
                    &&& 0 <= wit.3 < k && hi.x == self.vertices@[wit.3].x
                    &&& 0 <= wit.4 < k && hi.y == self.vertices@[wit.4].y
                    &&& 0 <= wit.5 < k && hi.z == self.vertices@[wit.5].z
                },
            decreases self.vertices@.len() - k,
        {
            let v = self.vertices[k];
            if k == 0 || v.x < lo.x {
                lo.x = v.x;
                proof {
                    wit.0 = k as int;
                }
            }
            if k == 0 || v.y < lo.y {
                lo.y = v.y;
                proof {
                    wit.1 = k as int;
                }
            }
            if k == 0 || v.z < lo.z {
                lo.z = v.z;
                proof {
                    wit.2 = k as int;
                }
            }
            if k == 0 || v.x > hi.x {
                hi.x = v.x;
                proof {
                    wit.3 = k as int;
                }
            }
            if k == 0 || v.y > hi.y {
                hi.y = v.y;
                proof {
                    wit.4 = k as int;
                }
            }
            if k == 0 || v.z > hi.z {
                hi.z = v.z;
                proof {
                    wit.5 = k as int;
                }
            }
            k = k + 1;
        }
        proof {
            if self.vertices@.len() > 0 {
                assert(lo.x == self.vertices@[wit.0].x);
                assert(lo.y == self.vertices@[wit.1].y);
                assert(lo.z == self.vertices@[wit.2].z);
                assert(hi.x == self.vertices@[wit.3].x);
                assert(hi.y == self.vertices@[wit.4].y);
                assert(hi.z == self.vertices@[wit.5].z);
            }
        }
        (lo, hi)
    }

    /// The hull mesh: the vertex columns, one entry per vertex.
    pub fn getMesh(&self) -> (r: Vec<Vec3>)
        ensures
            r@ == self.vertices@,
    {
        let mut out: Vec<Vec3> = Vec::new();
        let mut k: usize = 0;
        while k < self.vertices.len()
            invariant
                k <= self.vertices@.len(),
                out@ == self.vertices@.take(k as int),
            decreases self.vertices@.len() - k,
        {
            out.push(self.vertices[k]);
            proof {
                assert(out@ =~= self.vertices@.take(k + 1));
            }
            k = k + 1;
        }
        proof {
            assert(self.vertices@.take(self.vertices@.len() as int) =~= self.vertices@);
        }
        out
    }
}

/// The whitespace-separated tokens of a line; tabs and carriage returns
/// count as whitespace.
fn tokens(line: &[u8]) -> (r: Vec<Vec<u8>>)
    ensures
        forall|k: int| 0 <= k < r@.len() ==> (#[trigger] r@[k])@.len() > 0,
{
    let mut out: Vec<Vec<u8>> = Vec::new();
    let mut cur: Vec<u8> = Vec::new();
    let mut i: usize = 0;
    while i < line.len()
        invariant
            i <= line@.len(),
            forall|k: int| 0 <= k < out@.len() ==> (#[trigger] out@[k])@.len() > 0,
        decreases line@.len() - i,
    {
        let b = line[i];
        if b == 32 || b == 9 || b == 13 {
            if cur.len() > 0 {
                out.push(cur);
                cur = Vec::new();
            }
        } else {
            cur.push(b);
        }
        i = i + 1;
    }
    if cur.len() > 0 {
        out.push(cur);
    }
    out
}

/// Three coordinates from the tail of a four-token line, all in the world
/// range.
fn coords(toks: &Vec<Vec<u8>>) -> (r: Option<Vec3>)
    requires
        toks@.len() == 4,
    ensures
        match r {
            Some(v) => vec3_pos_range(v),
            None => true,
        },
{
    let x = crate::text::parse_fix(toks[1].as_slice());
    let y = crate::text::parse_fix(toks[2].as_slice());
    let z = crate::text::parse_fix(toks[3].as_slice());
    match (x, y, z) {
        (Some(a), Some(b), Some(c)) => {
            let lim = crate::geom::POS_LIMIT;
            if -lim <= a && a <= lim && -lim <= b && b <= lim && -lim <= c && c <= lim {
                Some(Vec3 { x: a, y: b, z: c })
            } else {
                None
            }
        },
        _ => None,
    }
}

/// One face corner `v/t/n`: the vertex and normal it names, one-based.
fn corner(tok: &[u8], vertices: &Vec<Vec3>, normals: &Vec<Vec3>) -> (r: Option<(Vec3, Vec3)>)
    requires
        forall|k: int| 0 <= k < vertices@.len() ==> vec3_pos_range(#[trigger] vertices@[k]),
        forall|k: int| 0 <= k < normals@.len() ==> vec3_pos_range(#[trigger] normals@[k]),
    ensures
        match r {
            Some((v, n)) => vec3_pos_range(v) && vec3_pos_range(n),
            None => true,
        },
{
    let items = crate::text::split_bytes(tok, 47);
    if items.len() < 3 {
        return None;
    }
    let vi = crate::text::parse_u64(items[0].as_slice());
    let ni = crate::text::parse_u64(items[2].as_slice());
    match (vi, ni) {
        (Some(v1), Some(n1)) => {
            if v1 >= 1 && n1 >= 1 && v1 <= vertices.len() as u64 && n1 <= normals.len() as u64 {
                let v = vertices[(v1 - 1) as usize];
                let n = normals[(n1 - 1) as usize];
                Some((v, n))
            } else {
                None
            }
        },
        _ => None,
    }
}

/// Barycentric inside test, sign-aware in the frame determinant.
pub open spec fn spec_project_inside(f: Face, point: Vec3) -> bool {
    let d = Vec3 {
        x: (point.x - f.base.x) as i64,
        y: (point.y - f.base.y) as i64,
        z: (point.z - f.base.z) as i64,
    };
    let dr = spec_det_raw(f.s, f.t, f.normal);
    let a0 = spec_det_raw(d, f.t, f.normal);
    let a1 = spec_det_raw(f.s, d, f.normal);
    if dr > 0 {
        0 <= a0 && a0 <= dr && 0 <= a1 && a1 <= dr && a0 + a1 <= dr
    } else {
        dr <= a0 && a0 <= 0 && dr <= a1 && a1 <= 0 && dr <= a0 + a1
    }
}

/// Signed distance of the point along the face normal.
pub open spec fn spec_project_depth(f: Face, point: Vec3) -> int {
    let d = Vec3 {
        x: (point.x - f.base.x) as i64,
        y: (point.y - f.base.y) as i64,
        z: (point.z - f.base.z) as i64,
    };
    let dr = spec_det_raw(f.s, f.t, f.normal);
    let dep = spec_det_raw(f.s, f.t, d);
    crate::fixed::spec_clamp(
        if dr > 0 {
            tdiv(dep * (SCALE as int), dr)
        } else {
            tdiv(-(dep * (SCALE as int)), -dr)
        },
        -(crate::fixed::FIX_LIMIT as int),
        crate::fixed::FIX_LIMIT as int,
    )
}

/// Whether the ray hits the face within the triangle and beyond the near
/// threshold.
pub open spec fn spec_ray_hits(f: Face, point: Vec3, dir: Vec3) -> bool {
    let p = Vec3 {
        x: (point.x - f.base.x) as i64,
        y: (point.y - f.base.y) as i64,
        z: (point.z - f.base.z) as i64,
    };
    let det = spec_det_raw(f.s, dir, f.t);
    let u_num = spec_det_raw(p, dir, f.t);
    let v_num = spec_det_raw(dir, p, f.s);
    &&& (det >= DET_EPS_RAW || -det >= DET_EPS_RAW)
    &&& (if det > 0 {
        0 <= u_num && u_num <= det && 0 <= v_num && u_num + v_num <= det
    } else {
        det <= u_num && u_num <= 0 && v_num <= 0 && det <= u_num + v_num
    })
    &&& spec_ray_t(f, point, dir) > RAY_T_EPS
}

/// The ray parameter at the face plane, in fixed point.
pub open spec fn spec_ray_t(f: Face, point: Vec3, dir: Vec3) -> int {
    let p = Vec3 {
        x: (point.x - f.base.x) as i64,
        y: (point.y - f.base.y) as i64,
        z: (point.z - f.base.z) as i64,
    };
    let det = spec_det_raw(f.s, dir, f.t);
    let t_num = spec_det_raw(f.t, p, f.s);
    crate::fixed::spec_clamp(
        if det > 0 {
            tdiv(t_num * (SCALE as int), det)
        } else {
            tdiv(-(t_num * (SCALE as int)), -det)
        },
        -(crate::fixed::FIX_LIMIT as int),
        crate::fixed::FIX_LIMIT as int,
    )
}

/// Magnitude of a sign-normalized truncating quotient is at most the
/// magnitude of the numerator.
proof fn lemma_quot_mag(num: int, dr: int)
    requires
        dr != 0,
        -48_000_000_000_000_000_000_000_000_000_000_000_000 <= num
            <= 48_000_000_000_000_000_000_000_000_000_000_000_000,
    ensures
        ({
            let q = if dr > 0 {
                tdiv(num, dr)
            } else {
                tdiv(-num, -dr)
            };
            -48_000_000_000_000_000_000_000_000_000_000_000_000 <= q
                <= 48_000_000_000_000_000_000_000_000_000_000_000_000
        }),
{
    let cap = 48_000_000_000_000_000_000_000_000_000_000_000_000;
    if dr > 0 {
        crate::geom::lemma_tdiv_mag(num, dr, cap);
        vstd::arithmetic::div_mod::lemma_div_is_ordered_by_denominator(cap, 1, dr);
    } else {
        crate::geom::lemma_tdiv_mag(-num, -dr, cap);
        vstd::arithmetic::div_mod::lemma_div_is_ordered_by_denominator(cap, 1, -dr);
    }
}

/// Clamps a wide quotient into the coordinate range.
fn clamp128(q: i128) -> (r: i64)
    requires
        -48_000_000_000_000_000_000_000_000_000_000_000_000 <= q
            <= 48_000_000_000_000_000_000_000_000_000_000_000_000,
    ensures
        r == crate::fixed::spec_clamp(
            q as int,
            -(crate::fixed::FIX_LIMIT as int),
            crate::fixed::FIX_LIMIT as int,
        ),
{
    let lim = crate::fixed::FIX_LIMIT as i128;
    if q < -lim {
        -crate::fixed::FIX_LIMIT
    } else if q > lim {
        crate::fixed::FIX_LIMIT
    } else {
        q as i64
    }
}

} // verus!
