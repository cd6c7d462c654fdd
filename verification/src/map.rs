//! The collision map: a triangle mesh hashed into a regular grid of chunks.
//!
//! The map's bounding box is divided into `gx * gy * gz` chunks; each face
//! is filed under every chunk its vertices' bounding box overlaps, and a
//! point query visits only the chunk containing the point.  The chunk of a
//! coordinate is the floor of `(p - min) * g / (max - min)`, clamped to the
//! grid at the far edge, which makes the assignment deterministic even on
//! cell boundaries.

use vstd::prelude::*;

use crate::fixed::{fix_in_range, FIX_LIMIT};
use crate::geom::{vec3_pos_range, Vec3, POS_LIMIT};
use crate::obj::{face_wf, spec_project_depth, spec_project_inside, spec_ray_hits, spec_ray_t, Face};

verus! {

/// Chunk index of one coordinate: zero below the box, else the floor of the
/// scaled offset; grows past the grid above the box.
pub open spec fn spec_chunk_axis(p: int, lo: int, hi: int, g: int) -> int
    recommends
        lo < hi,
        g >= 1,
{
    if p < lo {
        0
    } else if ((p - lo) * g) / (hi - lo) >= g {
        g
    } else {
        ((p - lo) * g) / (hi - lo)
    }
}

/// Chunk index of one coordinate.
pub fn chunk_axis(p: i64, lo: i64, hi: i64, g: usize) -> (r: usize)
    requires
        -POS_LIMIT <= p <= POS_LIMIT,
        -POS_LIMIT <= lo < hi <= POS_LIMIT,
        1 <= g <= 1024,
    ensures
        r == spec_chunk_axis(p as int, lo as int, hi as int, g as int),
{
    if p < lo {
        0
    } else {
        proof {
            crate::geom::lemma_abs_mul_le(p as int - lo as int, g as int, 2 * POS_LIMIT as int,
                1024);
            vstd::arithmetic::mul::lemma_mul_nonnegative(p as int - lo as int, g as int);
        }
        let num = ((p - lo) as i128) * (g as i128);
        let q = crate::geom::tdiv128(num, (hi - lo) as i128);
        if q >= g as i128 {
            return g;
        }
        proof {
            vstd::arithmetic::div_mod::lemma_div_pos_is_pos(num as int, hi as int - lo as int);
            vstd::arithmetic::div_mod::lemma_div_is_ordered_by_denominator(
                num as int,
                1,
                hi as int - lo as int,
            );
        }
        q as usize
    }
}

/// The chunk index points at the unique half-open cell containing the
/// coordinate: in cross-multiplied form, `idx * (hi - lo) <= (p - lo) * g <
/// (idx + 1) * (hi - lo)`, and the index is inside the grid whenever the
/// coordinate is inside the box.
pub proof fn lemma_chunk_contains(p: int, lo: int, hi: int, g: int)
    requires
        lo <= p,
        p < hi,
        lo < hi,
        1 <= g,
    ensures
        ({
            let idx = spec_chunk_axis(p, lo, hi, g);
            &&& 0 <= idx < g
            &&& idx * (hi - lo) <= (p - lo) * g
            &&& (p - lo) * g < (idx + 1) * (hi - lo)
        }),
{
    let d = hi - lo;
    let n = (p - lo) * g;
    let idx = n / d;
    vstd::arithmetic::mul::lemma_mul_nonnegative(p - lo, g);
    vstd::arithmetic::div_mod::lemma_fundamental_div_mod(n, d);
    vstd::arithmetic::div_mod::lemma_mod_bound(n, d);
    vstd::arithmetic::div_mod::lemma_div_pos_is_pos(n, d);
    assert(idx * d == d * idx) by (nonlinear_arith);
    assert((idx + 1) * d == d * idx + d) by (nonlinear_arith);
    assert(n < d * g) by (nonlinear_arith)
        requires
            p - lo < d,
            1 <= g,
            n == (p - lo) * g,
    ;
    if idx >= g {
        vstd::arithmetic::mul::lemma_mul_inequality(g, idx, d);
        assert(g * d == d * g) by (nonlinear_arith);
        assert(idx * d == d * idx) by (nonlinear_arith);
    }
}

/// No other index satisfies the containment bounds: the cell of a
/// coordinate is unique.
pub proof fn lemma_chunk_unique(p: int, lo: int, hi: int, g: int, j: int)
    requires
        lo <= p,
        p < hi,
        lo < hi,
        1 <= g,
        j * (hi - lo) <= (p - lo) * g,
        (p - lo) * g < (j + 1) * (hi - lo),
    ensures
        j == spec_chunk_axis(p, lo, hi, g),
{
    let d = hi - lo;
    let n = (p - lo) * g;
    vstd::arithmetic::mul::lemma_mul_nonnegative(p - lo, g);
    assert(j * d == d * j) by (nonlinear_arith);
    assert((j + 1) * d == d * j + d) by (nonlinear_arith);
    vstd::arithmetic::div_mod::lemma_fundamental_div_mod_converse(n, d, j, n - d * j);
    lemma_chunk_contains(p, lo, hi, g);
}

/// The parsed map and its spatial hash.
pub struct WorldMap {
    /// The triangle faces, `faces[i].id == i`.
    pub faces: Vec<Face>,
    /// Bounding-box corner with the smallest coordinates.
    pub box_min: Vec3,
    /// Bounding-box corner with the largest coordinates.
    pub box_max: Vec3,
    /// Grid resolution per axis.
    pub gx: usize,
    pub gy: usize,
    pub gz: usize,
    /// Face indices per chunk, flattened as `cx + gx * (cy + gy * cz)`.
    pub cells: Vec<Vec<usize>>,
    /// Contact band and impulse parameters, straight from the configuration.
    pub collisionPlusEps: i64,
    pub collisionMinusEps: i64,
    pub COR: i64,
    pub mi_s: i64,
    pub mi_d: i64,
    pub minimalDist: i64,
}

/// Map invariant: a proper box, a small grid, cells of valid face indices,
/// and well-formed faces indexed by their position.
pub open spec fn map_wf(m: WorldMap) -> bool {
    &&& -POS_LIMIT <= m.box_min.x < m.box_max.x <= POS_LIMIT
    &&& -POS_LIMIT <= m.box_min.y < m.box_max.y <= POS_LIMIT
    &&& -POS_LIMIT <= m.box_min.z < m.box_max.z <= POS_LIMIT
    &&& 1 <= m.gx <= 1024 && 1 <= m.gy <= 1024 && 1 <= m.gz <= 1024
    &&& m.cells@.len() == m.gx * m.gy * m.gz
    &&& forall|c: int, j: int|
        0 <= c < m.cells@.len() && 0 <= j < m.cells@[c]@.len() ==> #[trigger] m.cells@[c]@[j]
            < m.faces@.len()
    &&& forall|k: int|
        0 <= k < m.faces@.len() ==> face_wf(#[trigger] m.faces@[k]) && m.faces@[k].id == k
    &&& fix_in_range(m.collisionPlusEps as int)
    &&& fix_in_range(m.collisionMinusEps as int)
}

/// The flattened cell index of a chunk triple, or nothing when the triple
/// leaves the grid.
pub open spec fn spec_cell_of(m: WorldMap, p: Vec3) -> Option<int> {
    let cx = spec_chunk_axis(p.x as int, m.box_min.x as int, m.box_max.x as int, m.gx as int);
    let cy = spec_chunk_axis(p.y as int, m.box_min.y as int, m.box_max.y as int, m.gy as int);
    let cz = spec_chunk_axis(p.z as int, m.box_min.z as int, m.box_max.z as int, m.gz as int);
    if cx < m.gx && cy < m.gy && cz < m.gz {
        Some(cx + (m.gx as int) * (cy + (m.gy as int) * cz))
    } else {
        None
    }
}

/// Completeness of a contact list at one sample point: every face of the
/// sample's chunk whose banded projection holds is listed.
pub open spec fn spec_sample_complete(m: WorldMap, start: Vec3, velocity: Vec3, dt: int, s: int,
    radius: int, out: Seq<(usize, Vec3, i64)>) -> bool {
    let p = WorldMap::spec_sample_point(start, velocity, dt, s);
    match spec_cell_of(m, p) {
        Some(c) => forall|j: int|
            0 <= j < m.cells@[c]@.len() ==> {
                let fid = #[trigger] m.cells@[c]@[j];
                let f = m.faces@[fid as int];
                spec_project_inside(f, p) && m.collisionMinusEps <= spec_project_depth(f, p)
                    - radius <= m.collisionPlusEps ==> out.contains(
                    (fid, f.normal, (spec_project_depth(f, p) - radius) as i64),
                )
            },
        None => true,
    }
}

/// Sample completeness survives appending contacts: the old entries keep
/// their places.
pub proof fn lemma_sample_complete_grows(m: WorldMap, start: Vec3, velocity: Vec3, dt: int,
    s: int, radius: int, pre: Seq<(usize, Vec3, i64)>, post: Seq<(usize, Vec3, i64)>)
    requires
        spec_sample_complete(m, start, velocity, dt, s, radius, pre),
        post.len() >= pre.len(),
        forall|i: int| 0 <= i < pre.len() ==> #[trigger] post[i] == pre[i],
    ensures
        spec_sample_complete(m, start, velocity, dt, s, radius, post),
{
    let p = WorldMap::spec_sample_point(start, velocity, dt, s);
    match spec_cell_of(m, p) {
        Some(c) => {
            assert forall|j: int| 0 <= j < m.cells@[c]@.len() implies {
                let fid = #[trigger] m.cells@[c]@[j];
                let f = m.faces@[fid as int];
                spec_project_inside(f, p) && m.collisionMinusEps <= spec_project_depth(f, p)
                    - radius <= m.collisionPlusEps ==> post.contains(
                    (fid, f.normal, (spec_project_depth(f, p) - radius) as i64),
                )
            } by {
                let fid = m.cells@[c]@[j];
                let f = m.faces@[fid as int];
                if spec_project_inside(f, p) && m.collisionMinusEps <= spec_project_depth(f, p)
                    - radius <= m.collisionPlusEps {
                    let entry = (fid, f.normal, (spec_project_depth(f, p) - radius) as i64);
                    assert(pre.contains(entry));
                    let m0 = choose|i: int| 0 <= i < pre.len() && pre[i] == entry;
                    assert(post[m0] == entry);
                }
            }
        },
        None => {},
    }
}

/// Smallest of three values.
pub open spec fn spec_min3(a: int, b: int, c: int) -> int {
    if a <= b && a <= c {
        a
    } else if b <= c {
        b
    } else {
        c
    }
}

/// Largest of three values.
pub open spec fn spec_max3(a: int, b: int, c: int) -> int {
    if a >= b && a >= c {
        a
    } else if b >= c {
        b
    } else {
        c
    }
}

/// The flattened cell index of a chunk triple.
pub open spec fn spec_flat(m: WorldMap, cx: int, cy: int, cz: int) -> int {
    cx + (m.gx as int) * (cy + (m.gy as int) * cz)
}

/// The clamped chunk range of a face, per axis: the componentwise span of
/// its three vertices' chunk indices, capped at the grid's far edge.
pub open spec fn spec_face_range(m: WorldMap, k: int) -> (int, int, int, int, int, int) {
    let f = m.faces@[k];
    let cx0 = spec_chunk_axis(f.v0.x as int, m.box_min.x as int, m.box_max.x as int, m.gx as int);
    let cx1 = spec_chunk_axis(f.v1.x as int, m.box_min.x as int, m.box_max.x as int, m.gx as int);
    let cx2 = spec_chunk_axis(f.v2.x as int, m.box_min.x as int, m.box_max.x as int, m.gx as int);
    let cy0 = spec_chunk_axis(f.v0.y as int, m.box_min.y as int, m.box_max.y as int, m.gy as int);
    let cy1 = spec_chunk_axis(f.v1.y as int, m.box_min.y as int, m.box_max.y as int, m.gy as int);
    let cy2 = spec_chunk_axis(f.v2.y as int, m.box_min.y as int, m.box_max.y as int, m.gy as int);
    let cz0 = spec_chunk_axis(f.v0.z as int, m.box_min.z as int, m.box_max.z as int, m.gz as int);
    let cz1 = spec_chunk_axis(f.v1.z as int, m.box_min.z as int, m.box_max.z as int, m.gz as int);
    let cz2 = spec_chunk_axis(f.v2.z as int, m.box_min.z as int, m.box_max.z as int, m.gz as int);
    (
        spec_min3(cx0, cx1, cx2),
        if spec_max3(cx0, cx1, cx2) <= m.gx - 1 {
            spec_max3(cx0, cx1, cx2)
        } else {
            m.gx - 1
        },
        spec_min3(cy0, cy1, cy2),
        if spec_max3(cy0, cy1, cy2) <= m.gy - 1 {
            spec_max3(cy0, cy1, cy2)
        } else {
            m.gy - 1
        },
        spec_min3(cz0, cz1, cz2),
        if spec_max3(cz0, cz1, cz2) <= m.gz - 1 {
            spec_max3(cz0, cz1, cz2)
        } else {
            m.gz - 1
        },
    )
}

/// Whether cell `c` lies in the clamped chunk range of face `k`: the cell's
/// chunk triple, read back out of the flat index, sits in the face's span.
pub open spec fn spec_face_covers(m: WorldMap, k: int, c: int) -> bool {
    let r = spec_face_range(m, k);
    let cx = c % (m.gx as int);
    let rest = c / (m.gx as int);
    let cy = rest % (m.gy as int);
    let cz = rest / (m.gy as int);
    &&& r.0 <= cx <= r.1
    &&& r.2 <= cy <= r.3
    &&& r.4 <= cz <= r.5
}

/// Flattening a chunk triple and reading it back are inverse.
pub proof fn lemma_flat_decompose(m: WorldMap, cx: int, cy: int, cz: int)
    requires
        1 <= m.gx,
        1 <= m.gy,
        0 <= cx < m.gx,
        0 <= cy < m.gy,
        0 <= cz,
    ensures
        ({
            let c = spec_flat(m, cx, cy, cz);
            &&& c % (m.gx as int) == cx
            &&& (c / (m.gx as int)) % (m.gy as int) == cy
            &&& (c / (m.gx as int)) / (m.gy as int) == cz
        }),
{
    let gx = m.gx as int;
    let gy = m.gy as int;
    let c = spec_flat(m, cx, cy, cz);
    vstd::arithmetic::mul::lemma_mul_nonnegative(gy, cz);
    vstd::arithmetic::div_mod::lemma_fundamental_div_mod_converse(c, gx, cy + gy * cz, cx);
    vstd::arithmetic::div_mod::lemma_fundamental_div_mod_converse(cy + gy * cz, gy, cz, cy);
}

/// Any in-range flat index is the flattening of its read-back triple.
pub proof fn lemma_flat_recompose(m: WorldMap, c: int)
    requires
        1 <= m.gx,
        1 <= m.gy,
        1 <= m.gz,
        0 <= c < (m.gx as int) * (m.gy as int) * (m.gz as int),
    ensures
        ({
            let cx = c % (m.gx as int);
            let rest = c / (m.gx as int);
            let cy = rest % (m.gy as int);
            let cz = rest / (m.gy as int);
            &&& 0 <= cx < m.gx
            &&& 0 <= cy < m.gy
            &&& 0 <= cz < m.gz
            &&& spec_flat(m, cx, cy, cz) == c
        }),
{
    let gx = m.gx as int;
    let gy = m.gy as int;
    let gz = m.gz as int;
    let cx = c % gx;
    let rest = c / gx;
    let cy = rest % gy;
    let cz = rest / gy;
    vstd::arithmetic::div_mod::lemma_fundamental_div_mod(c, gx);
    vstd::arithmetic::div_mod::lemma_mod_bound(c, gx);
    vstd::arithmetic::div_mod::lemma_div_pos_is_pos(c, gx);
    vstd::arithmetic::div_mod::lemma_fundamental_div_mod(rest, gy);
    vstd::arithmetic::div_mod::lemma_mod_bound(rest, gy);
    vstd::arithmetic::div_mod::lemma_div_pos_is_pos(rest, gy);
    assert(rest < gy * gz) by (nonlinear_arith)
        requires
            c < gx * gy * gz,
            rest == c / gx,
            1 <= gx,
            0 <= c,
        {
        vstd::arithmetic::div_mod::lemma_fundamental_div_mod(c, gx);
        vstd::arithmetic::div_mod::lemma_mod_bound(c, gx);
    }
    assert(cz < gz) by (nonlinear_arith)
        requires
            rest < gy * gz,
            cz == rest / gy,
            1 <= gy,
            0 <= rest,
        {
        vstd::arithmetic::div_mod::lemma_fundamental_div_mod(rest, gy);
        vstd::arithmetic::div_mod::lemma_mod_bound(rest, gy);
    }
}

/// The cells after only grew: same count, and every old entry keeps its
/// place.
pub open spec fn cells_extend(pre: Seq<Vec<usize>>, post: Seq<Vec<usize>>) -> bool {
    &&& post.len() == pre.len()
    &&& forall|c: int| 0 <= c < pre.len() ==> (#[trigger] post[c])@.len() >= pre[c]@.len()
    &&& forall|c: int, j: int|
        0 <= c < pre.len() && 0 <= j < pre[c]@.len() ==> (#[trigger] post[c]@[j]) == pre[c]@[j]
}

/// Every filed index names a face whose clamped chunk range covers its
/// cell.
pub open spec fn cells_sound(m: WorldMap) -> bool {
    forall|c: int, j: int|
        0 <= c < m.cells@.len() && 0 <= j < m.cells@[c]@.len() ==> spec_face_covers(
            m,
            (#[trigger] m.cells@[c]@[j]) as int,
            c,
        )
}

/// Every face below `k` is filed under every cell its range covers.
pub open spec fn cells_complete_upto(m: WorldMap, cells: Seq<Vec<usize>>, k: int) -> bool {
    forall|k2: int, c: int|
        0 <= k2 < k && 0 <= c < cells.len() && #[trigger] spec_face_covers(m, k2, c)
            ==> cells[c]@.contains(k2 as usize)
}

/// Face `k` is filed under every covered cell whose triple precedes
/// `(cx, cy, cz)` in scan order.
pub open spec fn spec_filed_upto(m: WorldMap, cells: Seq<Vec<usize>>, k: int, cx: int, cy: int,
    cz: int) -> bool {
    let r = spec_face_range(m, k);
    forall|ax: int, ay: int, az: int|
        #![trigger spec_flat(m, ax, ay, az)]
        r.0 <= ax <= r.1 && r.2 <= ay <= r.3 && r.4 <= az <= r.5 && (ax < cx || (ax == cx && (ay
            < cy || (ay == cy && az < cz)))) && 0 <= spec_flat(m, ax, ay, az) < cells.len()
            ==> cells[spec_flat(m, ax, ay, az)]@.contains(k as usize)
}

/// Membership in a cell survives growth.
pub proof fn lemma_contains_in_extended(pre: Seq<Vec<usize>>, post: Seq<Vec<usize>>, c: int,
    v: usize)
    requires
        cells_extend(pre, post),
        0 <= c < pre.len(),
        pre[c]@.contains(v),
    ensures
        post[c]@.contains(v),
{
    let j0 = choose|j: int| 0 <= j < pre[c]@.len() && pre[c]@[j] == v;
    assert(post[c]@[j0] == v);
}

/// Completeness below `k` survives growth.
pub proof fn lemma_complete_grows(m: WorldMap, pre: Seq<Vec<usize>>, post: Seq<Vec<usize>>,
    k: int)
    requires
        cells_extend(pre, post),
        cells_complete_upto(m, pre, k),
    ensures
        cells_complete_upto(m, post, k),
{
    assert forall|k2: int, c: int|
        0 <= k2 < k && 0 <= c < post.len() && #[trigger] spec_face_covers(m, k2, c) implies
        post[c]@.contains(k2 as usize) by {
        lemma_contains_in_extended(pre, post, c, k2 as usize);
    }
}

/// Scan-order filing reads only the faces and the grid, so it carries to
/// any map that agrees there.
pub proof fn lemma_filed_same_map(m1: WorldMap, m2: WorldMap, cells: Seq<Vec<usize>>, k: int,
    cx: int, cy: int, cz: int)
    requires
        m1.faces == m2.faces,
        m1.box_min == m2.box_min,
        m1.box_max == m2.box_max,
        m1.gx == m2.gx,
        m1.gy == m2.gy,
        m1.gz == m2.gz,
        spec_filed_upto(m1, cells, k, cx, cy, cz),
    ensures
        spec_filed_upto(m2, cells, k, cx, cy, cz),
{
    assert(spec_face_range(m1, k) == spec_face_range(m2, k));
    let r = spec_face_range(m2, k);
    assert forall|ax: int, ay: int, az: int|
        #![trigger spec_flat(m2, ax, ay, az)]
        r.0 <= ax <= r.1 && r.2 <= ay <= r.3 && r.4 <= az <= r.5 && (ax < cx || (ax == cx && (ay
            < cy || (ay == cy && az < cz)))) && 0 <= spec_flat(m2, ax, ay, az) < cells.len()
        implies cells[spec_flat(m2, ax, ay, az)]@.contains(k as usize) by {
        assert(spec_flat(m1, ax, ay, az) == spec_flat(m2, ax, ay, az));
    }
}

/// Scan-order filing survives growth.
pub proof fn lemma_filed_grows(m: WorldMap, pre: Seq<Vec<usize>>, post: Seq<Vec<usize>>, k: int,
    cx: int, cy: int, cz: int)
    requires
        cells_extend(pre, post),
        spec_filed_upto(m, pre, k, cx, cy, cz),
    ensures
        spec_filed_upto(m, post, k, cx, cy, cz),
{
    let r = spec_face_range(m, k);
    assert forall|ax: int, ay: int, az: int|
        #![trigger spec_flat(m, ax, ay, az)]
        r.0 <= ax <= r.1 && r.2 <= ay <= r.3 && r.4 <= az <= r.5 && (ax < cx || (ax == cx && (ay
            < cy || (ay == cy && az < cz)))) && 0 <= spec_flat(m, ax, ay, az) < post.len()
        implies post[spec_flat(m, ax, ay, az)]@.contains(k as usize) by {
        lemma_contains_in_extended(pre, post, spec_flat(m, ax, ay, az), k as usize);
    }
}

/// The clamped-range test reads only the faces, the box and the grid, so
/// any two maps that agree there agree on it.
pub proof fn lemma_covers_same(m1: WorldMap, m2: WorldMap)
    requires
        m1.faces == m2.faces,
        m1.box_min == m2.box_min,
        m1.box_max == m2.box_max,
        m1.gx == m2.gx,
        m1.gy == m2.gy,
        m1.gz == m2.gz,
    ensures
        forall|k: int, c: int|
            #[trigger] spec_face_covers(m1, k, c) == #[trigger] spec_face_covers(m2, k, c),
{
    assert forall|k: int, c: int|
        #[trigger] spec_face_covers(m1, k, c) == #[trigger] spec_face_covers(m2, k, c) by {
        assert(spec_face_range(m1, k) == spec_face_range(m2, k));
    }
}

impl WorldMap {
    /// The flattened cell holding `p`, or `None` outside the grid.
    pub fn calcChunk(&self, p: Vec3) -> (r: Option<usize>)
        requires
            map_wf(*self),
            vec3_pos_range(p),
        ensures
            match r {
                Some(c) => Some(c as int) == spec_cell_of(*self, p) && c < self.cells@.len(),
                None => spec_cell_of(*self, p) is None,
            },
    {
        let cx = chunk_axis(p.x, self.box_min.x, self.box_max.x, self.gx);
        let cy = chunk_axis(p.y, self.box_min.y, self.box_max.y, self.gy);
        let cz = chunk_axis(p.z, self.box_min.z, self.box_max.z, self.gz);
        if cx < self.gx && cy < self.gy && cz < self.gz {
            proof {
                crate::geom::lemma_abs_mul_le(self.gy as int, cz as int, 1024, 1024);
                crate::geom::lemma_abs_mul_le(self.gx as int, cy as int + self.gy as int * (cz as int), 1024, 1_049_600);
                assert(cx as int + (self.gx as int) * (cy as int + (self.gy as int) * (cz as int))
                    < (self.gx as int) * (self.gy as int) * (self.gz as int))
                    by (nonlinear_arith)
                    requires
                        0 <= cx as int && (cx as int) < self.gx as int,
                        0 <= cy as int && (cy as int) < self.gy as int,
                        0 <= cz as int && (cz as int) < self.gz as int,
                ;
                assert((self.gx as int) * (self.gy as int) * (self.gz as int) <= 1024 * 1024
                    * 1024) by (nonlinear_arith)
                    requires
                        1 <= self.gx as int && self.gx as int <= 1024,
                        1 <= self.gy as int && self.gy as int <= 1024,
                        1 <= self.gz as int && self.gz as int <= 1024,
                ;
            }
            let flat = cx + self.gx * (cy + self.gy * cz);
            Some(flat)
        } else {
            None
        }
    }

    /// The smallest and largest corner of the map box.
    pub fn getMinMax(&self) -> (r: (Vec3, Vec3))
        ensures
            r.0 == self.box_min,
            r.1 == self.box_max,
    {
        (self.box_min, self.box_max)
    }

    /// All contacts in the chunk of `point`: every face there whose
    /// projection contains the point with a radius-adjusted depth inside
    /// the contact band.  Soundness is exact per element; every reported
    /// face sits in the visited cell.
    pub fn checkWalls(&self, point: Vec3, radius: i64) -> (r: Vec<(usize, Vec3, i64)>)
        requires
            map_wf(*self),
            vec3_pos_range(point),
            0 <= radius <= FIX_LIMIT,
        ensures
            forall|i: int|
                0 <= i < r@.len() ==> {
                    let (fid, n, dep) = #[trigger] r@[i];
                    &&& fid < self.faces@.len()
                    &&& spec_project_inside(self.faces@[fid as int], point)
                    &&& dep == spec_project_depth(self.faces@[fid as int], point) - radius
                    &&& self.collisionMinusEps <= dep <= self.collisionPlusEps
                    &&& n == self.faces@[fid as int].normal
                },
            spec_cell_of(*self, point) is None ==> r@.len() == 0,
            match spec_cell_of(*self, point) {
                Some(c) => forall|j: int|
                    0 <= j < self.cells@[c]@.len() ==> {
                        let fid = #[trigger] self.cells@[c]@[j];
                        let f = self.faces@[fid as int];
                        spec_project_inside(f, point) && self.collisionMinusEps
                            <= spec_project_depth(f, point) - radius <= self.collisionPlusEps
                            ==> r@.contains(
                            (
                                fid,
                                f.normal,
                                (spec_project_depth(f, point) - radius) as i64,
                            ),
                        )
                    },
                None => true,
            },
    {
        let mut out: Vec<(usize, Vec3, i64)> = Vec::new();
        let cell = self.calcChunk(point);
        match cell {
            None => out,
            Some(c) => {
                let n_faces = self.cells[c].len();
                let mut j: usize = 0;
                while j < n_faces
                    invariant
                        map_wf(*self),
                        vec3_pos_range(point),
                        0 <= radius <= FIX_LIMIT,
                        c < self.cells@.len(),
                        Some(c as int) == spec_cell_of(*self, point),
                        n_faces == self.cells@[c as int]@.len(),
                        j <= n_faces,
                        forall|i: int|
                            0 <= i < out@.len() ==> {
                                let (fid, n, dep) = #[trigger] out@[i];
                                &&& fid < self.faces@.len()
                                &&& spec_project_inside(self.faces@[fid as int], point)
                                &&& dep == spec_project_depth(self.faces@[fid as int], point)
                                    - radius
                                &&& self.collisionMinusEps <= dep <= self.collisionPlusEps
                                &&& n == self.faces@[fid as int].normal
                            },
                        forall|j2: int|
                            0 <= j2 < j ==> {
                                let fid = #[trigger] self.cells@[c as int]@[j2];
                                let f = self.faces@[fid as int];
                                spec_project_inside(f, point) && self.collisionMinusEps
                                    <= spec_project_depth(f, point) - radius
                                    <= self.collisionPlusEps ==> out@.contains(
                                    (
                                        fid,
                                        f.normal,
                                        (spec_project_depth(f, point) - radius) as i64,
                                    ),
                                )
                            },
                    decreases n_faces - j,
                {
                    let fid = self.cells[c][j];
                    let face = &self.faces[fid];
                    let (inside, depth) = face.projectPoint(point);
                    let ghost pre = out@;
                    let mut pushed = false;
                    if inside {
                        let adj = depth - radius;
                        if adj <= self.collisionPlusEps && adj >= self.collisionMinusEps {
                            out.push((fid, face.normal, adj));
                            pushed = true;
                        }
                    }
                    proof {
                        if pushed {
                            assert(out@[out@.len() - 1] == (
                                fid,
                                self.faces@[fid as int].normal,
                                (spec_project_depth(self.faces@[fid as int], point)
                                    - radius) as i64,
                            ));
                            assert(out@.contains(out@[out@.len() - 1]));
                        }
                        assert forall|j2: int| 0 <= j2 < j + 1 implies {
                            let fid2 = #[trigger] self.cells@[c as int]@[j2];
                            let f = self.faces@[fid2 as int];
                            spec_project_inside(f, point) && self.collisionMinusEps
                                <= spec_project_depth(f, point) - radius <= self.collisionPlusEps
                                ==> out@.contains(
                                (
                                    fid2,
                                    f.normal,
                                    (spec_project_depth(f, point) - radius) as i64,
                                ),
                            )
                        } by {
                            let fid2 = self.cells@[c as int]@[j2];
                            let f = self.faces@[fid2 as int];
                            if j2 < j && spec_project_inside(f, point) && self.collisionMinusEps
                                <= spec_project_depth(f, point) - radius
                                <= self.collisionPlusEps {
                                let entry = (
                                    fid2,
                                    f.normal,
                                    (spec_project_depth(f, point) - radius) as i64,
                                );
                                assert(pre.contains(entry));
                                let m0 = choose|m: int| 0 <= m < pre.len() && pre[m] == entry;
                                assert(out@[m0] == entry);
                            }
                        }
                    }
                    j = j + 1;
                }
                out
            },
        }
    }

    /// A sample point along the step: the start plus the fraction `s` of
    /// the tick's travel.
    pub open spec fn spec_sample_point(start: Vec3, velocity: Vec3, dt: int, s: int) -> Vec3 {
        let f = crate::geom::spec_scale_mul(s, dt);
        Vec3 {
            x: (start.x + crate::geom::spec_scale_mul(f, velocity.x as int)) as i64,
            y: (start.y + crate::geom::spec_scale_mul(f, velocity.y as int)) as i64,
            z: (start.z + crate::geom::spec_scale_mul(f, velocity.z as int)) as i64,
        }
    }

    /// Contacts along the predicted step of a moving sphere: the contact
    /// band is checked at four sample points along `start + s dt velocity`,
    /// for `s` in zero, a third, two thirds and one.  Every reported
    /// contact satisfies the band condition at one of the samples, and
    /// every banded face of every sample's chunk is reported.
    pub fn checkWalls2(&self, start: Vec3, velocity: Vec3, dt: i64, radius: i64) -> (r: Vec<(
        usize,
        Vec3,
        i64,
    )>)
        requires
            map_wf(*self),
            -5_000_000_000 <= start.x <= 5_000_000_000,
            -5_000_000_000 <= start.y <= 5_000_000_000,
            -5_000_000_000 <= start.z <= 5_000_000_000,
            -100_000_000 <= velocity.x <= 100_000_000,
            -100_000_000 <= velocity.y <= 100_000_000,
            -100_000_000 <= velocity.z <= 100_000_000,
            0 <= dt <= 50_000_000,
            0 <= radius <= FIX_LIMIT,
        ensures
            forall|i: int|
                0 <= i < r@.len() ==> {
                    let (fid, n, dep) = #[trigger] r@[i];
                    &&& fid < self.faces@.len()
                    &&& n == self.faces@[fid as int].normal
                    &&& self.collisionMinusEps <= dep <= self.collisionPlusEps
                    &&& exists|s: int|
                        (s == 0 || s == 330_000 || s == 660_000 || s == 1_000_000) && {
                            let p = #[trigger] Self::spec_sample_point(start, velocity, dt as int, s);
                            &&& spec_project_inside(self.faces@[fid as int], p)
                            &&& dep == spec_project_depth(self.faces@[fid as int], p) - radius
                        }
                },
            forall|s: int|
                #![trigger Self::spec_sample_point(start, velocity, dt as int, s)]
                (s == 0 || s == 330_000 || s == 660_000 || s == 1_000_000) ==> {
                    let p = Self::spec_sample_point(start, velocity, dt as int, s);
                    match spec_cell_of(*self, p) {
                        Some(c) => forall|j: int|
                            0 <= j < self.cells@[c]@.len() ==> {
                                let fid = #[trigger] self.cells@[c]@[j];
                                let f = self.faces@[fid as int];
                                spec_project_inside(f, p) && self.collisionMinusEps
                                    <= spec_project_depth(f, p) - radius
                                    <= self.collisionPlusEps ==> r@.contains(
                                    (
                                        fid,
                                        f.normal,
                                        (spec_project_depth(f, p) - radius) as i64,
                                    ),
                                )
                            },
                        None => true,
                    }
                },
    {
        let mut out: Vec<(usize, Vec3, i64)> = Vec::new();
        let samples: [i64; 4] = [0, 330_000, 660_000, 1_000_000];
        let mut si: usize = 0;
        while si < 4
            invariant
                map_wf(*self),
                -5_000_000_000 <= start.x <= 5_000_000_000,
                -5_000_000_000 <= start.y <= 5_000_000_000,
                -5_000_000_000 <= start.z <= 5_000_000_000,
                -100_000_000 <= velocity.x <= 100_000_000,
                -100_000_000 <= velocity.y <= 100_000_000,
                -100_000_000 <= velocity.z <= 100_000_000,
                0 <= dt <= 50_000_000,
                0 <= radius <= FIX_LIMIT,
                samples@ =~= seq![0i64, 330_000i64, 660_000i64, 1_000_000i64],
                si <= 4,
                forall|i: int|
                    0 <= i < out@.len() ==> {
                        let (fid, n, dep) = #[trigger] out@[i];
                        &&& fid < self.faces@.len()
                        &&& n == self.faces@[fid as int].normal
                        &&& self.collisionMinusEps <= dep <= self.collisionPlusEps
                        &&& exists|s: int|
                            (s == 0 || s == 330_000 || s == 660_000 || s == 1_000_000) && {
                                let p = #[trigger] Self::spec_sample_point(start, velocity,
                                    dt as int, s);
                                &&& spec_project_inside(self.faces@[fid as int], p)
                                &&& dep == spec_project_depth(self.faces@[fid as int], p) - radius
                            }
                    },
                forall|s2: int|
                    0 <= s2 < si ==> spec_sample_complete(
                        *self,
                        start,
                        velocity,
                        dt as int,
                        (#[trigger] samples@[s2]) as int,
                        radius as int,
                        out@,
                    ),
            decreases 4 - si,
        {
            let s = samples[si];
            let f = crate::geom::scale_mul(s, dt);
            proof {
                crate::geom::lemma_abs_mul_le(s as int, dt as int, 1_000_000, 50_000_000);
                crate::geom::lemma_tdiv_mag(
                    s as int * dt as int,
                    crate::fixed::SCALE as int,
                    50_000_000_000_000int,
                );
                crate::geom::lemma_abs_mul_le(f as int, velocity.x as int, 50_000_000,
                    100_000_000);
                crate::geom::lemma_abs_mul_le(f as int, velocity.y as int, 50_000_000,
                    100_000_000);
                crate::geom::lemma_abs_mul_le(f as int, velocity.z as int, 50_000_000,
                    100_000_000);
                crate::geom::lemma_tdiv_mag(
                    f as int * velocity.x as int,
                    crate::fixed::SCALE as int,
                    5_000_000_000_000_000int,
                );
                crate::geom::lemma_tdiv_mag(
                    f as int * velocity.y as int,
                    crate::fixed::SCALE as int,
                    5_000_000_000_000_000int,
                );
                crate::geom::lemma_tdiv_mag(
                    f as int * velocity.z as int,
                    crate::fixed::SCALE as int,
                    5_000_000_000_000_000int,
                );
            }
            let point = Vec3 {
                x: start.x + crate::geom::scale_mul(f, velocity.x),
                y: start.y + crate::geom::scale_mul(f, velocity.y),
                z: start.z + crate::geom::scale_mul(f, velocity.z),
            };
            let ghost gs = s as int;
            let ghost pre_outer = out@;
            let hits = self.checkWalls(point, radius);
            let mut h: usize = 0;
            while h < hits.len()
                invariant
                    map_wf(*self),
                    point == Self::spec_sample_point(start, velocity, dt as int, gs),
                    gs == 0 || gs == 330_000 || gs == 660_000 || gs == 1_000_000,
                    h <= hits@.len(),
                    out@.len() >= pre_outer.len(),
                    forall|m: int| 0 <= m < pre_outer.len() ==> #[trigger] out@[m] == pre_outer[m],
                    forall|i: int|
                        0 <= i < hits@.len() ==> {
                            let (fid, n, dep) = #[trigger] hits@[i];
                            &&& fid < self.faces@.len()
                            &&& spec_project_inside(self.faces@[fid as int], point)
                            &&& dep == spec_project_depth(self.faces@[fid as int], point) - radius
                            &&& self.collisionMinusEps <= dep <= self.collisionPlusEps
                            &&& n == self.faces@[fid as int].normal
                        },
                    forall|i: int|
                        0 <= i < h ==> out@.contains(#[trigger] hits@[i]),
                    forall|i: int|
                        0 <= i < out@.len() ==> {
                            let (fid, n, dep) = #[trigger] out@[i];
                            &&& fid < self.faces@.len()
                            &&& n == self.faces@[fid as int].normal
                            &&& self.collisionMinusEps <= dep <= self.collisionPlusEps
                            &&& exists|s2: int|
                                (s2 == 0 || s2 == 330_000 || s2 == 660_000 || s2 == 1_000_000)
                                    && {
                                    let p = #[trigger] Self::spec_sample_point(start, velocity,
                                        dt as int, s2);
                                    &&& spec_project_inside(self.faces@[fid as int], p)
                                    &&& dep == spec_project_depth(self.faces@[fid as int], p)
                                        - radius
                                }
                        },
                decreases hits@.len() - h,
            {
                let entry = hits[h];
                let ghost pre = out@;
                out.push(entry);
                proof {
                    let (fid, n, dep) = hits@[h as int];
                    assert(out@[out@.len() - 1] == hits@[h as int]);
                    assert(out@.contains(hits@[h as int]));
                    assert forall|i: int| 0 <= i < h + 1 implies out@.contains(
                        #[trigger] hits@[i],
                    ) by {
                        if i < h {
                            assert(pre.contains(hits@[i]));
                            let m0 = choose|m: int| 0 <= m < pre.len() && pre[m] == hits@[i];
                            assert(out@[m0] == hits@[i]);
                        }
                    }
                    assert((gs == 0 || gs == 330_000 || gs == 660_000 || gs == 1_000_000) && {
                        let p = #[trigger] Self::spec_sample_point(start, velocity, dt as int,
                            gs);
                        spec_project_inside(self.faces@[fid as int], p) && dep
                            == spec_project_depth(self.faces@[fid as int], p) - radius
                    });
                }
                h = h + 1;
            }
            proof {
                assert(spec_sample_complete(
                    *self,
                    start,
                    velocity,
                    dt as int,
                    gs,
                    radius as int,
                    out@,
                )) by {
                    let p = Self::spec_sample_point(start, velocity, dt as int, gs);
                    match spec_cell_of(*self, p) {
                        Some(c) => {
                            assert forall|j: int| 0 <= j < self.cells@[c]@.len() implies {
                                let fid = #[trigger] self.cells@[c]@[j];
                                let fa = self.faces@[fid as int];
                                spec_project_inside(fa, p) && self.collisionMinusEps
                                    <= spec_project_depth(fa, p) - radius
                                    <= self.collisionPlusEps ==> out@.contains(
                                    (
                                        fid,
                                        fa.normal,
                                        (spec_project_depth(fa, p) - radius) as i64,
                                    ),
                                )
                            } by {
                                let fid = self.cells@[c]@[j];
                                let fa = self.faces@[fid as int];
                                if spec_project_inside(fa, p) && self.collisionMinusEps
                                    <= spec_project_depth(fa, p) - radius
                                    <= self.collisionPlusEps {
                                    let entry = (
                                        fid,
                                        fa.normal,
                                        (spec_project_depth(fa, p) - radius) as i64,
                                    );
                                    assert(hits@.contains(entry));
                                    let h0 = choose|m: int|
                                        0 <= m < hits@.len() && hits@[m] == entry;
                                    assert(out@.contains(hits@[h0]));
                                }
                            }
                        },
                        None => {},
                    }
                }
                assert forall|s2: int|
                    0 <= s2 < si + 1 implies spec_sample_complete(
                    *self,
                    start,
                    velocity,
                    dt as int,
                    (#[trigger] samples@[s2]) as int,
                    radius as int,
                    out@,
                ) by {
                    if s2 < si {
                        lemma_sample_complete_grows(
                            *self,
                            start,
                            velocity,
                            dt as int,
                            samples@[s2] as int,
                            radius as int,
                            pre_outer,
                            out@,
                        );
                    }
                }
            }
            si = si + 1;
        }
        proof {
            assert forall|s: int|
                #![trigger Self::spec_sample_point(start, velocity, dt as int, s)]
                (s == 0 || s == 330_000 || s == 660_000 || s == 1_000_000) implies {
                let p = Self::spec_sample_point(start, velocity, dt as int, s);
                match spec_cell_of(*self, p) {
                    Some(c) => forall|j: int|
                        0 <= j < self.cells@[c]@.len() ==> {
                            let fid = #[trigger] self.cells@[c]@[j];
                            let fa = self.faces@[fid as int];
                            spec_project_inside(fa, p) && self.collisionMinusEps
                                <= spec_project_depth(fa, p) - radius <= self.collisionPlusEps
                                ==> out@.contains(
                                (
                                    fid,
                                    fa.normal,
                                    (spec_project_depth(fa, p) - radius) as i64,
                                ),
                            )
                        },
                    None => true,
                }
            } by {
                if s == 0 {
                    assert(spec_sample_complete(*self, start, velocity, dt as int, samples@[0] as int,
                        radius as int, out@));
                } else if s == 330_000 {
                    assert(spec_sample_complete(*self, start, velocity, dt as int, samples@[1] as int,
                        radius as int, out@));
                } else if s == 660_000 {
                    assert(spec_sample_complete(*self, start, velocity, dt as int, samples@[2] as int,
                        radius as int, out@));
                } else {
                    assert(spec_sample_complete(*self, start, velocity, dt as int, samples@[3] as int,
                        radius as int, out@));
                }
            }
        }
        out
    }

    /// The deepest contact in the chunk of `point`: among the faces there
    /// whose projection contains the point with depth inside the band, the
    /// one of minimum depth, taking the first on ties.
    pub fn checkWallsBest(&self, point: Vec3) -> (r: Option<(i64, Vec3, usize)>)
        requires
            map_wf(*self),
            vec3_pos_range(point),
        ensures
            match r {
                Some((dep, n, fid)) => {
                    &&& fid < self.faces@.len()
                    &&& spec_project_inside(self.faces@[fid as int], point)
                    &&& dep == spec_project_depth(self.faces@[fid as int], point)
                    &&& self.collisionMinusEps <= dep < self.collisionPlusEps
                    &&& n == self.faces@[fid as int].normal
                    &&& ({
                        match spec_cell_of(*self, point) {
                            Some(c) => forall|j: int|
                                0 <= j < self.cells@[c]@.len() ==> {
                                    let f = self.faces@[#[trigger] self.cells@[c]@[j] as int];
                                    spec_project_inside(f, point) && self.collisionMinusEps
                                        <= spec_project_depth(f, point) < self.collisionPlusEps
                                        ==> spec_project_depth(f, point) >= dep
                                },
                            None => false,
                        }
                    })
                },
                None => {
                    match spec_cell_of(*self, point) {
                        Some(c) => forall|j: int|
                            0 <= j < self.cells@[c]@.len() ==> {
                                let f = self.faces@[#[trigger] self.cells@[c]@[j] as int];
                                !(spec_project_inside(f, point) && self.collisionMinusEps
                                    <= spec_project_depth(f, point) < self.collisionPlusEps)
                            },
                        None => true,
                    }
                },
            },
    {
        let mut best: Option<(i64, Vec3, usize)> = None;
        let cell = self.calcChunk(point);
        match cell {
            None => best,
            Some(c) => {
                let n_faces = self.cells[c].len();
                let mut j: usize = 0;
                while j < n_faces
                    invariant
                        map_wf(*self),
                        vec3_pos_range(point),
                        c < self.cells@.len(),
                        Some(c as int) == spec_cell_of(*self, point),
                        n_faces == self.cells@[c as int]@.len(),
                        j <= n_faces,
                        match best {
                            Some((dep, n, fid)) => {
                                &&& fid < self.faces@.len()
                                &&& spec_project_inside(self.faces@[fid as int], point)
                                &&& dep == spec_project_depth(self.faces@[fid as int], point)
                                &&& self.collisionMinusEps <= dep < self.collisionPlusEps
                                &&& n == self.faces@[fid as int].normal
                                &&& forall|i: int|
                                    0 <= i < j ==> {
                                        let f = self.faces@[#[trigger] self.cells@[c as int]@[i] as int];
                                        spec_project_inside(f, point) && self.collisionMinusEps
                                            <= spec_project_depth(f, point)
                                            < self.collisionPlusEps ==> spec_project_depth(
                                            f,
                                            point,
                                        ) >= dep
                                    }
                            },
                            None => forall|i: int|
                                0 <= i < j ==> {
                                    let f = self.faces@[#[trigger] self.cells@[c as int]@[i] as int];
                                    !(spec_project_inside(f, point) && self.collisionMinusEps
                                        <= spec_project_depth(f, point) < self.collisionPlusEps)
                                },
                        },
                    decreases n_faces - j,
                {
                    let fid = self.cells[c][j];
                    let face = &self.faces[fid];
                    let (inside, depth) = face.projectPoint(point);
                    if inside && depth < self.collisionPlusEps && depth >= self.collisionMinusEps {
                        match best {
                            None => {
                                best = Some((depth, face.normal, fid));
                            },
                            Some((bd, _, _)) => {
                                if depth < bd {
                                    best = Some((depth, face.normal, fid));
                                }
                            },
                        }
                    }
                    j = j + 1;
                }
                best
            },
        }
    }

    /// The nearest predicted wall crossing from `point` along the unit
    /// direction `dir` within `in_range`: among the faces of the chunk of
    /// `point` that the ray hits closer than `in_range`, the smallest hit
    /// parameter, taking the first on ties.
    pub fn checkWallsBest2(&self, point: Vec3, dir: Vec3, in_range: i64) -> (r: Option<(
        i64,
        Vec3,
        usize,
    )>)
        requires
            map_wf(*self),
            vec3_pos_range(point),
            -2_000_000 <= dir.x <= 2_000_000,
            -2_000_000 <= dir.y <= 2_000_000,
            -2_000_000 <= dir.z <= 2_000_000,
            0 <= in_range <= FIX_LIMIT,
        ensures
            match r {
                Some((t, n, fid)) => {
                    &&& fid < self.faces@.len()
                    &&& spec_ray_hits(self.faces@[fid as int], point, dir)
                    &&& t == spec_ray_t(self.faces@[fid as int], point, dir)
                    &&& t < in_range
                    &&& n == self.faces@[fid as int].normal
                    &&& ({
                        match spec_cell_of(*self, point) {
                            Some(c) => forall|j: int|
                                0 <= j < self.cells@[c]@.len() ==> {
                                    let f = self.faces@[#[trigger] self.cells@[c]@[j] as int];
                                    spec_ray_hits(f, point, dir) && spec_ray_t(f, point, dir)
                                        < in_range ==> spec_ray_t(f, point, dir) >= t
                                },
                            None => false,
                        }
                    })
                },
                None => {
                    match spec_cell_of(*self, point) {
                        Some(c) => forall|j: int|
                            0 <= j < self.cells@[c]@.len() ==> {
                                let f = self.faces@[#[trigger] self.cells@[c]@[j] as int];
                                !(spec_ray_hits(f, point, dir) && spec_ray_t(f, point, dir)
                                    < in_range)
                            },
                        None => true,
                    }
                },
            },
    {
        let mut best: Option<(i64, Vec3, usize)> = None;
        let cell = self.calcChunk(point);
        match cell {
            None => best,
            Some(c) => {
                let n_faces = self.cells[c].len();
                let mut j: usize = 0;
                while j < n_faces
                    invariant
                        map_wf(*self),
                        vec3_pos_range(point),
                        -2_000_000 <= dir.x <= 2_000_000,
                        -2_000_000 <= dir.y <= 2_000_000,
                        -2_000_000 <= dir.z <= 2_000_000,
                        0 <= in_range <= FIX_LIMIT,
                        c < self.cells@.len(),
                        Some(c as int) == spec_cell_of(*self, point),
                        n_faces == self.cells@[c as int]@.len(),
                        j <= n_faces,
                        match best {
                            Some((t, n, fid)) => {
                                &&& fid < self.faces@.len()
                                &&& spec_ray_hits(self.faces@[fid as int], point, dir)
                                &&& t == spec_ray_t(self.faces@[fid as int], point, dir)
                                &&& t < in_range
                                &&& n == self.faces@[fid as int].normal
                                &&& forall|i: int|
                                    0 <= i < j ==> {
                                        let f = self.faces@[#[trigger] self.cells@[c as int]@[i] as int];
                                        spec_ray_hits(f, point, dir) && spec_ray_t(f, point, dir)
                                            < in_range ==> spec_ray_t(f, point, dir) >= t
                                    }
                            },
                            None => forall|i: int|
                                0 <= i < j ==> {
                                    let f = self.faces@[#[trigger] self.cells@[c as int]@[i] as int];
                                    !(spec_ray_hits(f, point, dir) && spec_ray_t(f, point, dir)
                                        < in_range)
                                },
                        },
                    decreases n_faces - j,
                {
                    let fid = self.cells[c][j];
                    let face = &self.faces[fid];
                    let (hit, t) = face.rayIntersection(point, dir);
                    if hit && t < in_range {
                        match best {
                            None => {
                                best = Some((t, face.normal, fid));
                            },
                            Some((bt, _, _)) => {
                                if t < bt {
                                    best = Some((t, face.normal, fid));
                                }
                            },
                        }
                    }
                    j = j + 1;
                }
                best
            },
        }
    }

    /// Files every face under each chunk its vertex bounding box overlaps,
    /// clamping ranges to the grid.  Called on the freshly built, still
    /// empty index: afterwards a cell holds exactly the faces whose clamped
    /// chunk range covers it.
    #[verifier::rlimit(100)]
    pub fn insertFace(&mut self)
        requires
            map_wf(*old(self)),
            forall|c: int|
                0 <= c < old(self).cells@.len() ==> (#[trigger] old(self).cells@[c])@.len() == 0,
        ensures
            map_wf(*final(self)),
            final(self).faces == old(self).faces,
            final(self).box_min == old(self).box_min,
            final(self).box_max == old(self).box_max,
            final(self).gx == old(self).gx && final(self).gy == old(self).gy && final(self).gz
                == old(self).gz,
            final(self).cells@.len() == old(self).cells@.len(),
            cells_sound(*final(self)),
            cells_complete_upto(
                *final(self),
                final(self).cells@,
                final(self).faces@.len() as int,
            ),
    {
        let n = self.faces.len();
        let mut k: usize = 0;
        while k < n
            invariant
                map_wf(*self),
                n == self.faces@.len(),
                k <= n,
                self.faces == old(self).faces,
                self.box_min == old(self).box_min,
                self.box_max == old(self).box_max,
                self.gx == old(self).gx && self.gy == old(self).gy && self.gz == old(self).gz,
                self.cells@.len() == old(self).cells@.len(),
                cells_sound(*self),
                cells_complete_upto(*self, self.cells@, k as int),
            decreases n - k,
        {
            let f = self.faces[k];
            let cx0 = chunk_axis(f.v0.x, self.box_min.x, self.box_max.x, self.gx);
            let cx1 = chunk_axis(f.v1.x, self.box_min.x, self.box_max.x, self.gx);
            let cx2 = chunk_axis(f.v2.x, self.box_min.x, self.box_max.x, self.gx);
            let cy0 = chunk_axis(f.v0.y, self.box_min.y, self.box_max.y, self.gy);
            let cy1 = chunk_axis(f.v1.y, self.box_min.y, self.box_max.y, self.gy);
            let cy2 = chunk_axis(f.v2.y, self.box_min.y, self.box_max.y, self.gy);
            let cz0 = chunk_axis(f.v0.z, self.box_min.z, self.box_max.z, self.gz);
            let cz1 = chunk_axis(f.v1.z, self.box_min.z, self.box_max.z, self.gz);
            let cz2 = chunk_axis(f.v2.z, self.box_min.z, self.box_max.z, self.gz);
            let x_lo = min3(cx0, cx1, cx2);
            let x_hi = cap_at(max3(cx0, cx1, cx2), self.gx - 1);
            let y_lo = min3(cy0, cy1, cy2);
            let y_hi = cap_at(max3(cy0, cy1, cy2), self.gy - 1);
            let z_lo = min3(cz0, cz1, cz2);
            let z_hi = cap_at(max3(cz0, cz1, cz2), self.gz - 1);
            let ghost r = spec_face_range(*self, k as int);
            proof {
                assert(x_lo == r.0 && x_hi == r.1 && y_lo == r.2 && y_hi == r.3 && z_lo == r.4
                    && z_hi == r.5);
            }
            let mut cx = x_lo;
            while cx <= x_hi
                invariant
                    map_wf(*self),
                    k < self.faces@.len(),
                    x_lo <= cx,
                    x_hi < self.gx,
                    y_hi < self.gy,
                    z_hi < self.gz,
                    self.faces == old(self).faces,
                    self.box_min == old(self).box_min,
                    self.box_max == old(self).box_max,
                    self.gx == old(self).gx && self.gy == old(self).gy && self.gz == old(
                        self,
                    ).gz,
                    self.cells@.len() == old(self).cells@.len(),
                    r == spec_face_range(*self, k as int),
                    x_lo == r.0 && x_hi == r.1 && y_lo == r.2 && y_hi == r.3 && z_lo == r.4
                        && z_hi == r.5,
                    cells_sound(*self),
                    cells_complete_upto(*self, self.cells@, k as int),
                    spec_filed_upto(*self, self.cells@, k as int, cx as int, r.2, r.4),
                decreases x_hi + 1 - cx,
            {
                let mut cy = y_lo;
                while cy <= y_hi
                    invariant
                        map_wf(*self),
                        k < self.faces@.len(),
                        x_lo <= cx <= x_hi,
                        y_lo <= cy,
                        x_hi < self.gx,
                        y_hi < self.gy,
                        z_hi < self.gz,
                        self.faces == old(self).faces,
                        self.box_min == old(self).box_min,
                        self.box_max == old(self).box_max,
                        self.gx == old(self).gx && self.gy == old(self).gy && self.gz == old(
                            self,
                        ).gz,
                        self.cells@.len() == old(self).cells@.len(),
                        r == spec_face_range(*self, k as int),
                        x_lo == r.0 && x_hi == r.1 && y_lo == r.2 && y_hi == r.3 && z_lo == r.4
                            && z_hi == r.5,
                        cells_sound(*self),
                        cells_complete_upto(*self, self.cells@, k as int),
                        spec_filed_upto(*self, self.cells@, k as int, cx as int, cy as int, r.4),
                    decreases y_hi + 1 - cy,
                {
                    let mut cz = z_lo;
                    while cz <= z_hi
                        invariant
                            map_wf(*self),
                            k < self.faces@.len(),
                            x_lo <= cx <= x_hi,
                            y_lo <= cy <= y_hi,
                            z_lo <= cz,
                            x_hi < self.gx,
                            y_hi < self.gy,
                            z_hi < self.gz,
                            self.faces == old(self).faces,
                            self.box_min == old(self).box_min,
                            self.box_max == old(self).box_max,
                            self.gx == old(self).gx && self.gy == old(self).gy && self.gz == old(
                                self,
                            ).gz,
                            self.cells@.len() == old(self).cells@.len(),
                            r == spec_face_range(*self, k as int),
                            x_lo == r.0 && x_hi == r.1 && y_lo == r.2 && y_hi == r.3 && z_lo
                                == r.4 && z_hi == r.5,
                            cells_sound(*self),
                            cells_complete_upto(*self, self.cells@, k as int),
                            spec_filed_upto(*self, self.cells@, k as int, cx as int, cy as int,
                                cz as int),
                        decreases z_hi + 1 - cz,
                    {
                        proof {
                            crate::geom::lemma_abs_mul_le(self.gy as int, cz as int, 1024, 1024);
                            crate::geom::lemma_abs_mul_le(self.gx as int,
                                cy as int + self.gy as int * (cz as int), 1024, 1_049_600);
                            assert(cx as int + (self.gx as int) * (cy as int + (self.gy as int)
                                * (cz as int)) < (self.gx as int) * (self.gy as int) * (
                            self.gz as int)) by (nonlinear_arith)
                                requires
                                    0 <= cx as int && (cx as int) < self.gx as int,
                                    0 <= cy as int && (cy as int) < self.gy as int,
                                    0 <= cz as int && (cz as int) < self.gz as int,
                            ;
                            assert((self.gx as int) * (self.gy as int) * (self.gz as int) <= 1024
                                * 1024 * 1024) by (nonlinear_arith)
                                requires
                                    1 <= self.gx as int && self.gx as int <= 1024,
                                    1 <= self.gy as int && self.gy as int <= 1024,
                                    1 <= self.gz as int && self.gz as int <= 1024,
                            ;
                        }
                        let flat = cx + self.gx * (cy + self.gy * cz);
                        let ghost mpre = *self;
                        let ghost pre = self.cells@;
                        let bucket = vstd::std_specs::vec::vec_index_mut(&mut self.cells, flat);
                        bucket.push(k);
                        proof {
                            assert(cells_extend(pre, self.cells@)) by {
                                assert forall|c2: int, j2: int|
                                    0 <= c2 < pre.len() && 0 <= j2 < pre[c2]@.len() implies (
                                #[trigger] self.cells@[c2]@[j2]) == pre[c2]@[j2] by {
                                    if c2 != flat {
                                        assert(self.cells@[c2] == pre[c2]);
                                    }
                                }
                            }
                            lemma_covers_same(mpre, *self);
                            assert(spec_face_range(mpre, k as int) == spec_face_range(
                                *self,
                                k as int,
                            ));
                            // the freshly filed entry covers its cell
                            lemma_flat_decompose(*self, cx as int, cy as int, cz as int);
                            assert(spec_face_covers(*self, k as int, flat as int));
                            // well-formedness of the filed indices
                            assert forall|c2: int, j2: int|
                                0 <= c2 < self.cells@.len() && 0 <= j2 < self.cells@[c2]@.len()
                                implies #[trigger] self.cells@[c2]@[j2] < self.faces@.len() by {
                                if c2 == flat {
                                    if j2 < pre[c2]@.len() {
                                        assert(self.cells@[c2]@[j2] == pre[c2]@[j2]);
                                    } else {
                                        assert(self.cells@[c2]@[j2] == k);
                                    }
                                } else {
                                    assert(self.cells@[c2] == pre[c2]);
                                }
                            }
                            // soundness: old entries keep their covers, the new one has it
                            assert forall|c2: int, j2: int|
                                0 <= c2 < self.cells@.len() && 0 <= j2 < self.cells@[c2]@.len()
                                implies spec_face_covers(
                                *self,
                                (#[trigger] self.cells@[c2]@[j2]) as int,
                                c2,
                            ) by {
                                if c2 == flat && j2 == pre[c2 as int]@.len() {
                                } else {
                                    if c2 != flat {
                                        assert(self.cells@[c2] == pre[c2]);
                                    } else {
                                        assert(self.cells@[c2]@[j2] == pre[c2]@[j2]);
                                    }
                                    assert(spec_face_covers(
                                        mpre,
                                        self.cells@[c2]@[j2] as int,
                                        c2,
                                    ));
                                }
                            }
                            // completeness below k survives the push
                            assert(cells_complete_upto(*self, pre, k as int)) by {
                                assert forall|k2: int, c2: int|
                                    0 <= k2 < k && 0 <= c2 < pre.len()
                                        && #[trigger] spec_face_covers(*self, k2, c2) implies
                                    pre[c2]@.contains(k2 as usize) by {
                                    assert(spec_face_covers(mpre, k2, c2));
                                }
                            }
                            lemma_complete_grows(*self, pre, self.cells@, k as int);
                            // the scan front advances by one cell
                            assert(spec_filed_upto(*self, pre, k as int, cx as int, cy as int,
                                cz as int)) by {
                                lemma_filed_same_map(mpre, *self, pre, k as int, cx as int,
                                    cy as int, cz as int);
                            }
                            lemma_filed_grows(*self, pre, self.cells@, k as int, cx as int,
                                cy as int, cz as int);
                            assert(self.cells@[flat as int]@[self.cells@[flat as int]@.len() - 1]
                                == k);
                            assert(self.cells@[flat as int]@.contains(k));
                            assert(spec_filed_upto(*self, self.cells@, k as int, cx as int,
                                cy as int, cz as int + 1)) by {
                                let m = *self;
                                assert forall|ax: int, ay: int, az: int|
                                    #![trigger spec_flat(m, ax, ay, az)]
                                    r.0 <= ax <= r.1 && r.2 <= ay <= r.3 && r.4 <= az <= r.5 && (
                                ax < cx || (ax == cx && (ay < cy || (ay == cy && az < cz + 1))))
                                        && 0 <= spec_flat(m, ax, ay, az) < self.cells@.len()
                                    implies self.cells@[spec_flat(m, ax, ay, az)]@.contains(
                                    k as usize,
                                ) by {
                                    if ax == cx && ay == cy && az == cz {
                                        assert(spec_flat(m, ax, ay, az) == flat as int);
                                    }
                                }
                            }
                        }
                        cz = cz + 1;
                    }
                    proof {
                        // a finished row of the scan covers the next row's front
                        assert(spec_filed_upto(*self, self.cells@, k as int, cx as int,
                            cy as int + 1, r.4));
                    }
                    cy = cy + 1;
                }
                proof {
                    assert(spec_filed_upto(*self, self.cells@, k as int, cx as int + 1, r.2,
                        r.4));
                }
                cx = cx + 1;
            }
            proof {
                // every cell the face covers is now filed, so completeness
                // extends to this face
                let m = *self;
                assert forall|k2: int, c2: int|
                    0 <= k2 < k + 1 && 0 <= c2 < self.cells@.len()
                        && #[trigger] spec_face_covers(m, k2, c2) implies
                    self.cells@[c2]@.contains(k2 as usize) by {
                    if k2 == k {
                        lemma_flat_recompose(m, c2);
                        let ax = c2 % (m.gx as int);
                        let rest = c2 / (m.gx as int);
                        let ay = rest % (m.gy as int);
                        let az = rest / (m.gy as int);
                        assert(spec_flat(m, ax, ay, az) == c2);
                        assert(ax <= r.1 < cx as int + 1);
                    }
                }
            }
            k = k + 1;
        }
    }
}

/// Smallest of three indices.
fn min3(a: usize, b: usize, c: usize) -> (r: usize)
    ensures
        r == spec_min3(a as int, b as int, c as int),
        r <= a && r <= b && r <= c,
        r == a || r == b || r == c,
{
    let ab = if a <= b {
        a
    } else {
        b
    };
    if ab <= c {
        ab
    } else {
        c
    }
}

/// Largest of three indices.
fn max3(a: usize, b: usize, c: usize) -> (r: usize)
    ensures
        r == spec_max3(a as int, b as int, c as int),
        r >= a && r >= b && r >= c,
        r == a || r == b || r == c,
{
    let ab = if a >= b {
        a
    } else {
        b
    };
    if ab >= c {
        ab
    } else {
        c
    }
}

/// Caps an index at a bound.
fn cap_at(a: usize, cap: usize) -> (r: usize)
    ensures
        r == if a <= cap {
            a as int
        } else {
            cap as int
        },
{
    if a <= cap {
        a
    } else {
        cap
    }
}

} // verus!
