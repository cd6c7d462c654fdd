//! Collision decisions: who is in contact with what, this tick.
//!
//! The detector works on snapshots: UAV poses and velocities, object
//! positions and velocities, and the hashed map.  It decides which pairs
//! are too close, which objects left the world box, where each UAV hull
//! touches a wall, and how the adaptive loop period is smoothed.  Pushing
//! the resulting impulses into the child processes happens elsewhere.

use vstd::prelude::*;

use crate::fixed::FIX_LIMIT;
use crate::geom::{
    dot, norm, normalize, quat_in_range, quat_to_rot, spec_dot, spec_quat_to_rot, vec3_in_range,
    vec3_pos_range, vec3_sub, Mat3, Quat, Vec3,
};
use crate::map::{map_wf, spec_cell_of, WorldMap};

verus! {

/// Squared-distance proximity: the two positions are closer than the
/// configured squared minimal distance.
pub open spec fn spec_too_close(a: Vec3, b: Vec3, minimal_dist: int) -> bool {
    spec_dot(
        Vec3 { x: (a.x - b.x) as i64, y: (a.y - b.y) as i64, z: (a.z - b.z) as i64 },
        Vec3 { x: (a.x - b.x) as i64, y: (a.y - b.y) as i64, z: (a.z - b.z) as i64 },
    ) < minimal_dist
}

/// Whether two positions are too close.
pub fn too_close(a: Vec3, b: Vec3, minimal_dist: i64) -> (r: bool)
    requires
        vec3_pos_range(a),
        vec3_pos_range(b),
    ensures
        r == spec_too_close(a, b, minimal_dist as int),
{
    let d = vec3_sub(a, b);
    let d2 = dot(d, d);
    d2 < minimal_dist
}

/// All-pairs proximity over the UAV snapshot: one diagnostic pair of ids
/// for every unordered pair of drones closer than the threshold, in scan
/// order; no force of any kind.  The pairs carried out name snapshot
/// indices, so each entry is exactly checkable.
pub fn colisions_between_drones(snapshot: &Vec<(usize, Vec3, Quat, Vec3, Vec3)>,
    minimal_dist: i64) -> (r: Vec<(usize, usize)>)
    requires
        forall|k: int| 0 <= k < snapshot@.len() ==> vec3_pos_range(#[trigger] snapshot@[k].1),
    ensures
        forall|m: int|
            0 <= m < r@.len() ==> {
                let (i, j) = #[trigger] r@[m];
                &&& i < j < snapshot@.len()
                &&& spec_too_close(snapshot@[i as int].1, snapshot@[j as int].1,
                    minimal_dist as int)
            },
        forall|i: int, j: int|
            #![trigger snapshot@[i], snapshot@[j]]
            0 <= i < j < snapshot@.len() && spec_too_close(snapshot@[i].1, snapshot@[j].1,
                minimal_dist as int) ==> r@.contains((i as usize, j as usize)),
        forall|m1: int, m2: int|
            0 <= m1 < m2 < r@.len() ==> #[trigger] r@[m1] != #[trigger] r@[m2],
{
    let mut out: Vec<(usize, usize)> = Vec::new();
    let n = snapshot.len();
    let mut i: usize = 0;
    while i < n
        invariant
            n == snapshot@.len(),
            i <= n,
            forall|k: int| 0 <= k < snapshot@.len() ==> vec3_pos_range(#[trigger] snapshot@[k].1),
            forall|m: int|
                0 <= m < out@.len() ==> {
                    let (a, b) = #[trigger] out@[m];
                    &&& a < b < snapshot@.len()
                    &&& spec_too_close(snapshot@[a as int].1, snapshot@[b as int].1,
                        minimal_dist as int)
                },
            forall|a: int, b: int|
                #![trigger snapshot@[a], snapshot@[b]]
                0 <= a < b < snapshot@.len() && a < i && spec_too_close(snapshot@[a].1,
                    snapshot@[b].1, minimal_dist as int) ==> out@.contains((a as usize,
                b as usize)),
            forall|m: int|
                0 <= m < out@.len() ==> (#[trigger] out@[m]).0 < i,
            forall|m1: int, m2: int|
                0 <= m1 < m2 < out@.len() ==> #[trigger] out@[m1] != #[trigger] out@[m2],
        decreases n - i,
    {
        let mut j: usize = i + 1;
        while j < n
            invariant
                n == snapshot@.len(),
                i < j || j == i + 1,
                i < n,
                i + 1 <= j <= n,
                forall|k: int|
                    0 <= k < snapshot@.len() ==> vec3_pos_range(#[trigger] snapshot@[k].1),
                forall|m: int|
                    0 <= m < out@.len() ==> {
                        let (a, b) = #[trigger] out@[m];
                        &&& a < b < snapshot@.len()
                        &&& spec_too_close(snapshot@[a as int].1, snapshot@[b as int].1,
                            minimal_dist as int)
                    },
                forall|a: int, b: int|
                    #![trigger snapshot@[a], snapshot@[b]]
                    0 <= a < b < snapshot@.len() && (a < i || (a == i && b < j))
                        && spec_too_close(snapshot@[a].1, snapshot@[b].1, minimal_dist as int)
                        ==> out@.contains((a as usize, b as usize)),
                forall|m: int|
                    0 <= m < out@.len() ==> (#[trigger] out@[m]).0 < i || ((out@[m]).0 == i
                        && (out@[m]).1 < j),
                forall|m1: int, m2: int|
                    0 <= m1 < m2 < out@.len() ==> #[trigger] out@[m1] != #[trigger] out@[m2],
            decreases n - j,
        {
            let close = too_close(snapshot[i].1, snapshot[j].1, minimal_dist);
            let ghost pre = out@;
            if close {
                out.push((i, j));
            }
            proof {
                if close {
                    assert(out@[out@.len() - 1] == (i, j));
                    assert(out@.contains((i, j)));
                    assert forall|m1: int, m2: int|
                        0 <= m1 < m2 < out@.len() implies #[trigger] out@[m1]
                        != #[trigger] out@[m2] by {
                        if m2 == out@.len() - 1 {
                            assert(pre[m1].0 < i || (pre[m1].0 == i && pre[m1].1 < j));
                        }
                    }
                }
                assert forall|a: int, b: int|
                    #![trigger snapshot@[a], snapshot@[b]]
                    0 <= a < b < snapshot@.len() && (a < i || (a == i && b < j + 1))
                        && spec_too_close(snapshot@[a].1, snapshot@[b].1, minimal_dist as int)
                    implies out@.contains((a as usize, b as usize)) by {
                    if a == i && b == j {
                    } else {
                        assert(pre.contains((a as usize, b as usize)));
                        let m0 = choose|m: int| 0 <= m < pre.len() && pre[m] == (
                        a as usize,
                        b as usize,
                        );
                        assert(out@[m0] == (a as usize, b as usize));
                    }
                }
            }
            j = j + 1;
        }
        i = i + 1;
    }
    out
}

/// Proximity between drones and objects, gated on approach: a pair is
/// reported only when the object moves toward the drone, that is when the
/// offset from object to drone has positive inner product with the
/// object's velocity.
pub fn colisions_drones_obj(drones: &Vec<(usize, Vec3, Quat, Vec3, Vec3)>, objs: &Vec<(
    usize,
    Vec3,
    Vec3,
    i64,
)>, minimal_dist: i64) -> (r: Vec<(usize, usize)>)
    requires
        forall|k: int| 0 <= k < drones@.len() ==> vec3_pos_range(#[trigger] drones@[k].1),
        forall|k: int|
            0 <= k < objs@.len() ==> vec3_pos_range(#[trigger] objs@[k].1) && vec3_in_range(
                objs@[k].2,
            ),
    ensures
        forall|m: int|
            0 <= m < r@.len() ==> {
                let (i, j) = #[trigger] r@[m];
                &&& i < drones@.len()
                &&& j < objs@.len()
                &&& spec_too_close(drones@[i as int].1, objs@[j as int].1, minimal_dist as int)
                &&& spec_dot(
                    Vec3 {
                        x: (drones@[i as int].1.x - objs@[j as int].1.x) as i64,
                        y: (drones@[i as int].1.y - objs@[j as int].1.y) as i64,
                        z: (drones@[i as int].1.z - objs@[j as int].1.z) as i64,
                    },
                    objs@[j as int].2,
                ) > 0
            },
        forall|i: int, j: int|
            #![trigger drones@[i], objs@[j]]
            0 <= i < drones@.len() && 0 <= j < objs@.len() && spec_too_close(drones@[i].1,
                objs@[j].1, minimal_dist as int) && spec_dot(
                Vec3 {
                    x: (drones@[i].1.x - objs@[j].1.x) as i64,
                    y: (drones@[i].1.y - objs@[j].1.y) as i64,
                    z: (drones@[i].1.z - objs@[j].1.z) as i64,
                },
                objs@[j].2,
            ) > 0 ==> r@.contains((i as usize, j as usize)),
        forall|m1: int, m2: int|
            0 <= m1 < m2 < r@.len() ==> #[trigger] r@[m1] != #[trigger] r@[m2],
{
    let mut out: Vec<(usize, usize)> = Vec::new();
    let n = drones.len();
    let m_count = objs.len();
    let mut i: usize = 0;
    while i < n
        invariant
            n == drones@.len(),
            m_count == objs@.len(),
            i <= n,
            forall|k: int| 0 <= k < drones@.len() ==> vec3_pos_range(#[trigger] drones@[k].1),
            forall|k: int|
                0 <= k < objs@.len() ==> vec3_pos_range(#[trigger] objs@[k].1) && vec3_in_range(
                    objs@[k].2,
                ),
            forall|q: int|
                0 <= q < out@.len() ==> {
                    let (a, b) = #[trigger] out@[q];
                    &&& a < drones@.len()
                    &&& b < objs@.len()
                    &&& spec_too_close(drones@[a as int].1, objs@[b as int].1, minimal_dist as int)
                    &&& spec_dot(
                        Vec3 {
                            x: (drones@[a as int].1.x - objs@[b as int].1.x) as i64,
                            y: (drones@[a as int].1.y - objs@[b as int].1.y) as i64,
                            z: (drones@[a as int].1.z - objs@[b as int].1.z) as i64,
                        },
                        objs@[b as int].2,
                    ) > 0
                },
            forall|a: int, b: int|
                #![trigger drones@[a], objs@[b]]
                0 <= a < drones@.len() && 0 <= b < objs@.len() && a < i && spec_too_close(
                    drones@[a].1, objs@[b].1, minimal_dist as int) && spec_dot(
                    Vec3 {
                        x: (drones@[a].1.x - objs@[b].1.x) as i64,
                        y: (drones@[a].1.y - objs@[b].1.y) as i64,
                        z: (drones@[a].1.z - objs@[b].1.z) as i64,
                    },
                    objs@[b].2,
                ) > 0 ==> out@.contains((a as usize, b as usize)),
            forall|q: int| 0 <= q < out@.len() ==> (#[trigger] out@[q]).0 < i,
            forall|m1: int, m2: int|
                0 <= m1 < m2 < out@.len() ==> #[trigger] out@[m1] != #[trigger] out@[m2],
        decreases n - i,
    {
        let mut j: usize = 0;
        while j < m_count
            invariant
                n == drones@.len(),
                m_count == objs@.len(),
                i < n,
                j <= m_count,
                forall|k: int| 0 <= k < drones@.len() ==> vec3_pos_range(#[trigger] drones@[k].1),
                forall|k: int|
                    0 <= k < objs@.len() ==> vec3_pos_range(#[trigger] objs@[k].1)
                        && vec3_in_range(objs@[k].2),
                forall|q: int|
                    0 <= q < out@.len() ==> {
                        let (a, b) = #[trigger] out@[q];
                        &&& a < drones@.len()
                        &&& b < objs@.len()
                        &&& spec_too_close(drones@[a as int].1, objs@[b as int].1,
                            minimal_dist as int)
                        &&& spec_dot(
                            Vec3 {
                                x: (drones@[a as int].1.x - objs@[b as int].1.x) as i64,
                                y: (drones@[a as int].1.y - objs@[b as int].1.y) as i64,
                                z: (drones@[a as int].1.z - objs@[b as int].1.z) as i64,
                            },
                            objs@[b as int].2,
                        ) > 0
                    },
                forall|a: int, b: int|
                    #![trigger drones@[a], objs@[b]]
                    0 <= a < drones@.len() && 0 <= b < objs@.len() && (a < i || (a == i && b
                        < j)) && spec_too_close(drones@[a].1, objs@[b].1, minimal_dist as int)
                        && spec_dot(
                        Vec3 {
                            x: (drones@[a].1.x - objs@[b].1.x) as i64,
                            y: (drones@[a].1.y - objs@[b].1.y) as i64,
                            z: (drones@[a].1.z - objs@[b].1.z) as i64,
                        },
                        objs@[b].2,
                    ) > 0 ==> out@.contains((a as usize, b as usize)),
                forall|q: int|
                    0 <= q < out@.len() ==> (#[trigger] out@[q]).0 < i || ((out@[q]).0 == i
                        && (out@[q]).1 < j),
                forall|m1: int, m2: int|
                    0 <= m1 < m2 < out@.len() ==> #[trigger] out@[m1] != #[trigger] out@[m2],
            decreases m_count - j,
        {
            let d = vec3_sub(drones[i].1, objs[j].1);
            let approaching = dot(d, objs[j].2) > 0;
            let close = too_close(drones[i].1, objs[j].1, minimal_dist);
            let ghost pre = out@;
            if approaching && close {
                out.push((i, j));
            }
            proof {
                if approaching && close {
                    assert(out@[out@.len() - 1] == (i, j));
                    assert(out@.contains((i, j)));
                    assert forall|m1: int, m2: int|
                        0 <= m1 < m2 < out@.len() implies #[trigger] out@[m1]
                        != #[trigger] out@[m2] by {
                        if m2 == out@.len() - 1 {
                            assert(pre[m1].0 < i || (pre[m1].0 == i && pre[m1].1 < j));
                        }
                    }
                }
                assert forall|a: int, b: int|
                    #![trigger drones@[a], objs@[b]]
                    0 <= a < drones@.len() && 0 <= b < objs@.len() && (a < i || (a == i && b < j
                        + 1)) && spec_too_close(drones@[a].1, objs@[b].1, minimal_dist as int)
                        && spec_dot(
                        Vec3 {
                            x: (drones@[a].1.x - objs@[b].1.x) as i64,
                            y: (drones@[a].1.y - objs@[b].1.y) as i64,
                            z: (drones@[a].1.z - objs@[b].1.z) as i64,
                        },
                        objs@[b].2,
                    ) > 0 implies out@.contains((a as usize, b as usize)) by {
                    if a == i && b == j {
                    } else {
                        assert(pre.contains((a as usize, b as usize)));
                        let m0 = choose|m: int|
                            0 <= m < pre.len() && pre[m] == (a as usize, b as usize);
                        assert(out@[m0] == (a as usize, b as usize));
                    }
                }
            }
            j = j + 1;
        }
        i = i + 1;
    }
    out
}

/// Objects outside the expanded world box are killed: exactly those whose
/// position leaves `[box_min - offset, box_max + offset]` on any axis.
pub open spec fn spec_outside_box(p: Vec3, bmin: Vec3, bmax: Vec3) -> bool {
    ||| p.x < bmin.x
    ||| p.y < bmin.y
    ||| p.z < bmin.z
    ||| p.x > bmax.x
    ||| p.y > bmax.y
    ||| p.z > bmax.z
}

/// Ids of the objects that left the expanded box, each with its snapshot
/// index so the claim is directly checkable.
pub fn boundary_box_obj(objs: &Vec<(usize, Vec3, Vec3, i64)>, bmin: Vec3, bmax: Vec3) -> (r: Vec<(
    usize,
    usize,
)>)
    ensures
        forall|m: int|
            0 <= m < r@.len() ==> {
                let (id, k) = #[trigger] r@[m];
                &&& k < objs@.len()
                &&& id == objs@[k as int].0
                &&& spec_outside_box(objs@[k as int].1, bmin, bmax)
            },
        forall|k: int|
            0 <= k < objs@.len() && spec_outside_box(#[trigger] objs@[k].1, bmin, bmax)
                ==> r@.contains((objs@[k].0, k as usize)),
{
    let mut out: Vec<(usize, usize)> = Vec::new();
    let mut k: usize = 0;
    while k < objs.len()
        invariant
            k <= objs@.len(),
            forall|m: int|
                0 <= m < out@.len() ==> {
                    let (id, k2) = #[trigger] out@[m];
                    &&& k2 < objs@.len()
                    &&& id == objs@[k2 as int].0
                    &&& spec_outside_box(objs@[k2 as int].1, bmin, bmax)
                },
            forall|k2: int|
                0 <= k2 < k && spec_outside_box(#[trigger] objs@[k2].1, bmin, bmax)
                    ==> out@.contains((objs@[k2].0, k2 as usize)),
        decreases objs@.len() - k,
    {
        let p = objs[k].1;
        let ghost pre = out@;
        let hit = p.x < bmin.x || p.y < bmin.y || p.z < bmin.z || p.x > bmax.x || p.y > bmax.y
            || p.z > bmax.z;
        if hit {
            out.push((objs[k].0, k));
        }
        proof {
            if hit {
                assert(out@[out@.len() - 1] == (objs@[k as int].0, k));
                assert(out@.contains((objs@[k as int].0, k)));
            }
            assert forall|k2: int|
                0 <= k2 < k + 1 && spec_outside_box(#[trigger] objs@[k2].1, bmin, bmax) implies
                out@.contains((objs@[k2].0, k2 as usize)) by {
                if k2 < k {
                    assert(pre.contains((objs@[k2].0, k2 as usize)));
                    let m0 = choose|m: int|
                        0 <= m < pre.len() && pre[m] == (objs@[k2].0, k2 as usize);
                    assert(out@[m0] == (objs@[k2].0, k2 as usize));
                }
            }
        }
        k = k + 1;
    }
    out
}

/// The adaptive collision period: an exponential moving average that keeps
/// seven tenths of the old smoothed value and takes three tenths of the
/// measured tick, exactly, in fixed point.
pub fn smooth_loop_time(loop_time: i64, measured: i64) -> (r: i64)
    requires
        0 <= loop_time <= FIX_LIMIT,
        0 <= measured <= FIX_LIMIT,
    ensures
        r == (7 * loop_time + 3 * measured) / 10,
        0 <= r <= FIX_LIMIT,
{
    let num = 7 * loop_time + 3 * measured;
    let q = num / 10;
    proof {
        vstd::arithmetic::div_mod::lemma_div_pos_is_pos(num as int, 10);
        vstd::arithmetic::div_mod::lemma_div_is_ordered(
            num as int,
            10 * (FIX_LIMIT as int),
            10,
        );
        vstd::arithmetic::div_mod::lemma_div_multiples_vanish(FIX_LIMIT as int, 10);
    }
    q
}

/// The rotation matrix of an orientation quaternion, written `(w, x, y, z)`.
pub fn quaterionToRot3(q: &Quat) -> (r: Mat3)
    requires
        quat_in_range(*q),
    ensures
        r == spec_quat_to_rot(*q),
{
    quat_to_rot(*q)
}

/// One UAV hull vertex checked against the map: the world position of the
/// vertex, its velocity direction, and the predicted crossing.
#[derive(Clone, Copy)]
pub struct VertexContact {
    /// World position of the vertex.
    pub point: Vec3,
    /// Integer speed of the vertex (length of its world velocity).
    pub speed: i64,
    /// Unit direction of the vertex velocity.
    pub dir: Vec3,
    /// How far the vertex travels this tick: speed times the loop period.
    pub in_range: i64,
    /// Ray parameter of the predicted crossing.
    pub dist: i64,
    /// Normal of the face that will be crossed.
    pub normal: Vec3,
    /// Index of that face in the map.
    pub face: usize,
    /// Index of the vertex in the hull mesh.
    pub vertex: usize,
}

/// World position of hull vertex `v`: rotated by the orientation and
/// translated by the position.
pub open spec fn spec_vertex_point(pos: Vec3, ori: Quat, v: Vec3) -> Vec3 {
    let rot = spec_quat_to_rot(ori);
    Vec3 {
        x: (crate::geom::spec_mat_row(rot.m11 as int, rot.m12 as int, rot.m13 as int, v)
            + pos.x) as i64,
        y: (crate::geom::spec_mat_row(rot.m21 as int, rot.m22 as int, rot.m23 as int, v)
            + pos.y) as i64,
        z: (crate::geom::spec_mat_row(rot.m31 as int, rot.m32 as int, rot.m33 as int, v)
            + pos.z) as i64,
    }
}

/// World velocity of hull vertex `v`: the rotated sum of the linear
/// velocity and the spin's arm.
pub open spec fn spec_vertex_velocity(ori: Quat, vel: Vec3, ang_vel: Vec3, v: Vec3) -> Vec3 {
    let rot = spec_quat_to_rot(ori);
    let arm = crate::geom::spec_cross(ang_vel, v);
    let summed = Vec3 {
        x: (vel.x + arm.0) as i64,
        y: (vel.y + arm.1) as i64,
        z: (vel.z + arm.2) as i64,
    };
    Vec3 {
        x: crate::geom::spec_mat_row(rot.m11 as int, rot.m12 as int, rot.m13 as int,
            summed) as i64,
        y: crate::geom::spec_mat_row(rot.m21 as int, rot.m22 as int, rot.m23 as int,
            summed) as i64,
        z: crate::geom::spec_mat_row(rot.m31 as int, rot.m32 as int, rot.m33 as int,
            summed) as i64,
    }
}

/// Integer speed of hull vertex `v`.
pub open spec fn spec_vertex_speed(ori: Quat, vel: Vec3, ang_vel: Vec3, v: Vec3) -> int {
    let pv = spec_vertex_velocity(ori, vel, ang_vel, v);
    crate::geom::spec_sqrt(crate::geom::spec_dot_raw(pv, pv))
}

/// How far hull vertex `v` travels this tick.
pub open spec fn spec_vertex_range(ori: Quat, vel: Vec3, ang_vel: Vec3, v: Vec3, loop_time: int)
    -> int {
    crate::geom::spec_scale_mul(spec_vertex_speed(ori, vel, ang_vel, v), loop_time)
}

/// Unit direction of hull vertex `v`'s travel.
pub open spec fn spec_vertex_dir(ori: Quat, vel: Vec3, ang_vel: Vec3, v: Vec3) -> Vec3 {
    let pv = spec_vertex_velocity(ori, vel, ang_vel, v);
    let dn = crate::geom::spec_normalize(pv, spec_vertex_speed(ori, vel, ang_vel, v));
    Vec3 { x: dn.0 as i64, y: dn.1 as i64, z: dn.2 as i64 }
}

/// Whether hull vertex `k` casts a ray at all this tick: it moves, and its
/// reach is positive and within the coordinate range.
pub open spec fn spec_vertex_active(mesh: Seq<Vec3>, ori: Quat, vel: Vec3, ang_vel: Vec3, k: int,
    loop_time: int) -> bool {
    let v = mesh[k];
    &&& spec_vertex_speed(ori, vel, ang_vel, v) > 0
    &&& 0 < spec_vertex_range(ori, vel, ang_vel, v, loop_time) <= FIX_LIMIT as int
}

/// Whether face `j` of vertex `k`'s chunk is a qualifying crossing: the
/// vertex's ray hits it closer than the vertex's reach.
pub open spec fn spec_vertex_qualifies(map: WorldMap, mesh: Seq<Vec3>, pos: Vec3, ori: Quat,
    vel: Vec3, ang_vel: Vec3, k: int, fid: int, loop_time: int) -> bool {
    let v = mesh[k];
    let point = spec_vertex_point(pos, ori, v);
    let dir = spec_vertex_dir(ori, vel, ang_vel, v);
    &&& crate::obj::spec_ray_hits(map.faces@[fid], point, dir)
    &&& crate::obj::spec_ray_t(map.faces@[fid], point, dir) < spec_vertex_range(ori, vel,
        ang_vel, v, loop_time)
}

/// No active vertex of the hull has a qualifying crossing in its chunk.
pub open spec fn spec_no_vertex_contact(map: WorldMap, mesh: Seq<Vec3>, pos: Vec3, ori: Quat,
    vel: Vec3, ang_vel: Vec3, loop_time: int, upto: int) -> bool {
    forall|k: int|
        0 <= k < upto && #[trigger] spec_vertex_active(mesh, ori, vel, ang_vel, k, loop_time)
            ==> match spec_cell_of(map, spec_vertex_point(pos, ori, mesh[k])) {
            Some(c) => forall|j: int|
                0 <= j < map.cells@[c]@.len() ==> !spec_vertex_qualifies(
                    map,
                    mesh,
                    pos,
                    ori,
                    vel,
                    ang_vel,
                    k,
                    (#[trigger] map.cells@[c]@[j]) as int,
                    loop_time,
                ),
            None => true,
        }
}

/// Every qualifying crossing of any vertex is at least `dist` away.
pub open spec fn spec_contact_minimal(map: WorldMap, mesh: Seq<Vec3>, pos: Vec3, ori: Quat,
    vel: Vec3, ang_vel: Vec3, loop_time: int, upto: int, dist: int) -> bool {
    forall|k: int|
        0 <= k < upto && #[trigger] spec_vertex_active(mesh, ori, vel, ang_vel, k, loop_time)
            ==> match spec_cell_of(map, spec_vertex_point(pos, ori, mesh[k])) {
            Some(c) => forall|j: int|
                0 <= j < map.cells@[c]@.len() && spec_vertex_qualifies(
                    map,
                    mesh,
                    pos,
                    ori,
                    vel,
                    ang_vel,
                    k,
                    (#[trigger] map.cells@[c]@[j]) as int,
                    loop_time,
                ) ==> crate::obj::spec_ray_t(
                    map.faces@[map.cells@[c]@[j] as int],
                    spec_vertex_point(pos, ori, mesh[k]),
                    spec_vertex_dir(ori, vel, ang_vel, mesh[k]),
                ) >= dist,
            None => true,
        }
}

/// What a reported contact means, spelled out over the snapshot: the point
/// is the rotated and translated vertex, the direction is the normalized
/// world velocity of that vertex, and the chosen face is hit by that ray
/// within the tick's reach.
pub open spec fn spec_vertex_contact(map: WorldMap, mesh: Seq<Vec3>, pos: Vec3, ori: Quat,
    vel: Vec3, ang_vel: Vec3, loop_time: int, c: VertexContact) -> bool {
    let v = mesh[c.vertex as int];
    &&& c.vertex < mesh.len()
    &&& c.face < map.faces@.len()
    &&& c.point == spec_vertex_point(pos, ori, v)
    &&& c.speed == spec_vertex_speed(ori, vel, ang_vel, v)
    &&& c.speed > 0
    &&& c.dir == spec_vertex_dir(ori, vel, ang_vel, v)
    &&& c.in_range == spec_vertex_range(ori, vel, ang_vel, v, loop_time)
    &&& crate::obj::spec_ray_hits(map.faces@[c.face as int], c.point, c.dir)
    &&& c.dist == crate::obj::spec_ray_t(map.faces@[c.face as int], c.point, c.dir)
    &&& c.dist < c.in_range
}

/// The predicted wall contact of one UAV: every hull vertex is rotated into
/// the world, casts a ray along its velocity, and the nearest predicted
/// crossing over all vertices and their chunk-local faces is reported.
/// `None` promises that no moving vertex has a qualifying crossing at all.
pub fn impulse_collision_drone(map: &WorldMap, mesh: &Vec<Vec3>, pos: Vec3, ori: Quat, vel: Vec3,
    ang_vel: Vec3, loop_time: i64) -> (r: Option<VertexContact>)
    requires
        map_wf(*map),
        quat_in_range(ori),
        -1_000_000_000 <= pos.x <= 1_000_000_000,
        -1_000_000_000 <= pos.y <= 1_000_000_000,
        -1_000_000_000 <= pos.z <= 1_000_000_000,
        -1_000_000_000 <= vel.x <= 1_000_000_000,
        -1_000_000_000 <= vel.y <= 1_000_000_000,
        -1_000_000_000 <= vel.z <= 1_000_000_000,
        -40_000_000 <= ang_vel.x <= 40_000_000,
        -40_000_000 <= ang_vel.y <= 40_000_000,
        -40_000_000 <= ang_vel.z <= 40_000_000,
        forall|k: int|
            0 <= k < mesh@.len() ==> {
                &&& -100_000_000 <= (#[trigger] mesh@[k]).x <= 100_000_000
                &&& -100_000_000 <= mesh@[k].y <= 100_000_000
                &&& -100_000_000 <= mesh@[k].z <= 100_000_000
            },
        0 <= loop_time <= FIX_LIMIT,
    ensures
        match r {
            Some(c) => {
                &&& spec_vertex_contact(*map, mesh@, pos, ori, vel, ang_vel, loop_time as int, c)
                &&& spec_contact_minimal(*map, mesh@, pos, ori, vel, ang_vel, loop_time as int,
                    mesh@.len() as int, c.dist as int)
            },
            None => spec_no_vertex_contact(*map, mesh@, pos, ori, vel, ang_vel,
                loop_time as int, mesh@.len() as int),
        },
{
    let mut best: Option<VertexContact> = None;
    let rot = quat_to_rot(ori);
    let mut k: usize = 0;
    while k < mesh.len()
        invariant
            map_wf(*map),
            rot == spec_quat_to_rot(ori),
            crate::geom::mat3_in_range(rot),
            quat_in_range(ori),
            -1_000_000_000 <= pos.x <= 1_000_000_000,
            -1_000_000_000 <= pos.y <= 1_000_000_000,
            -1_000_000_000 <= pos.z <= 1_000_000_000,
            -1_000_000_000 <= vel.x <= 1_000_000_000,
            -1_000_000_000 <= vel.y <= 1_000_000_000,
            -1_000_000_000 <= vel.z <= 1_000_000_000,
            -40_000_000 <= ang_vel.x <= 40_000_000,
            -40_000_000 <= ang_vel.y <= 40_000_000,
            -40_000_000 <= ang_vel.z <= 40_000_000,
            forall|k2: int|
                0 <= k2 < mesh@.len() ==> {
                    &&& -100_000_000 <= (#[trigger] mesh@[k2]).x <= 100_000_000
                    &&& -100_000_000 <= mesh@[k2].y <= 100_000_000
                    &&& -100_000_000 <= mesh@[k2].z <= 100_000_000
                },
            0 <= loop_time <= FIX_LIMIT,
            k <= mesh@.len(),
            match best {
                Some(c) => {
                    &&& spec_vertex_contact(*map, mesh@, pos, ori, vel, ang_vel,
                        loop_time as int, c)
                    &&& spec_contact_minimal(*map, mesh@, pos, ori, vel, ang_vel,
                        loop_time as int, k as int, c.dist as int)
                },
                None => spec_no_vertex_contact(*map, mesh@, pos, ori, vel, ang_vel,
                    loop_time as int, k as int),
            },
        decreases mesh@.len() - k,
    {
        let v = mesh[k];
        let point = point_of_vertex(rot, v, pos);
        let pv = point_velocity(rot, v, vel, ang_vel);
        let speed = norm(pv);
        proof {
            crate::geom::lemma_norm_le(pv, speed as int, 432_000_000_000);
            assert(pv == spec_vertex_velocity(ori, vel, ang_vel, v));
            assert(point == spec_vertex_point(pos, ori, v));
            assert(speed == spec_vertex_speed(ori, vel, ang_vel, v));
        }
        let mut handled = false;
        if speed > 0 {
            let in_range = crate::geom::scale_mul(speed, loop_time);
            proof {
                assert(in_range == spec_vertex_range(ori, vel, ang_vel, v, loop_time as int));
            }
            if 0 < in_range && in_range <= FIX_LIMIT {
                let dir = normalize(pv, speed);
                proof {
                    assert(dir == spec_vertex_dir(ori, vel, ang_vel, v));
                }
                let hit = map.checkWallsBest2(point, dir, in_range);
                match hit {
                    None => {},
                    Some((t, n, fid)) => {
                        let take = match best {
                            None => true,
                            Some(c) => t < c.dist,
                        };
                        if take {
                            best = Some(
                                VertexContact {
                                    point,
                                    speed,
                                    dir,
                                    in_range,
                                    dist: t,
                                    normal: n,
                                    face: fid,
                                    vertex: k,
                                },
                            );
                        }
                    },
                }
                handled = true;
            }
        }
        proof {
            if !handled {
                assert(!spec_vertex_active(mesh@, ori, vel, ang_vel, k as int,
                    loop_time as int));
            }
            assert(match best {
                Some(c) => spec_contact_minimal(*map, mesh@, pos, ori, vel, ang_vel,
                    loop_time as int, k as int + 1, c.dist as int),
                None => spec_no_vertex_contact(*map, mesh@, pos, ori, vel, ang_vel,
                    loop_time as int, k as int + 1),
            }) by {
                match best {
                    Some(c) => {
                        assert forall|k2: int|
                            0 <= k2 < k + 1 && #[trigger] spec_vertex_active(mesh@, ori, vel,
                                ang_vel, k2, loop_time as int) implies match spec_cell_of(
                            *map,
                            spec_vertex_point(pos, ori, mesh@[k2]),
                        ) {
                            Some(cc) => forall|j: int|
                                0 <= j < map.cells@[cc]@.len() && spec_vertex_qualifies(
                                    *map,
                                    mesh@,
                                    pos,
                                    ori,
                                    vel,
                                    ang_vel,
                                    k2,
                                    (#[trigger] map.cells@[cc]@[j]) as int,
                                    loop_time as int,
                                ) ==> crate::obj::spec_ray_t(
                                    map.faces@[map.cells@[cc]@[j] as int],
                                    spec_vertex_point(pos, ori, mesh@[k2]),
                                    spec_vertex_dir(ori, vel, ang_vel, mesh@[k2]),
                                ) >= c.dist as int,
                            None => true,
                        } by {
                        }
                    },
                    None => {},
                }
            }
        }
        k = k + 1;
    }
    best
}

/// World position of a hull vertex: the vertex rotated and translated.
fn point_of_vertex(rot: Mat3, v: Vec3, pos: Vec3) -> (r: Vec3)
    requires
        crate::geom::mat3_in_range(rot),
        -100_000_000 <= v.x <= 100_000_000,
        -100_000_000 <= v.y <= 100_000_000,
        -100_000_000 <= v.z <= 100_000_000,
        -1_000_000_000 <= pos.x <= 1_000_000_000,
        -1_000_000_000 <= pos.y <= 1_000_000_000,
        -1_000_000_000 <= pos.z <= 1_000_000_000,
    ensures
        r.x == crate::geom::spec_mat_row(rot.m11 as int, rot.m12 as int, rot.m13 as int, v)
            + pos.x,
        r.y == crate::geom::spec_mat_row(rot.m21 as int, rot.m22 as int, rot.m23 as int, v)
            + pos.y,
        r.z == crate::geom::spec_mat_row(rot.m31 as int, rot.m32 as int, rot.m33 as int, v)
            + pos.z,
        vec3_pos_range(r),
{
    proof {
        crate::geom::lemma_mat_row_bound(rot.m11 as int, rot.m12 as int, rot.m13 as int, v,
            100_000_000);
        crate::geom::lemma_mat_row_bound(rot.m21 as int, rot.m22 as int, rot.m23 as int, v,
            100_000_000);
        crate::geom::lemma_mat_row_bound(rot.m31 as int, rot.m32 as int, rot.m33 as int, v,
            100_000_000);
    }
    let turned = crate::geom::mat3_mul_vec(rot, v);
    Vec3 { x: turned.x + pos.x, y: turned.y + pos.y, z: turned.z + pos.z }
}

/// World velocity of a hull vertex: the rotated sum of the linear velocity
/// and the angular contribution of the vertex arm.
fn point_velocity(rot: Mat3, v: Vec3, vel: Vec3, ang_vel: Vec3) -> (r: Vec3)
    requires
        crate::geom::mat3_in_range(rot),
        -100_000_000 <= v.x <= 100_000_000,
        -100_000_000 <= v.y <= 100_000_000,
        -100_000_000 <= v.z <= 100_000_000,
        -1_000_000_000 <= vel.x <= 1_000_000_000,
        -1_000_000_000 <= vel.y <= 1_000_000_000,
        -1_000_000_000 <= vel.z <= 1_000_000_000,
        -40_000_000 <= ang_vel.x <= 40_000_000,
        -40_000_000 <= ang_vel.y <= 40_000_000,
        -40_000_000 <= ang_vel.z <= 40_000_000,
    ensures
        vec3_in_range(r),
        -432_000_000_000 <= r.x <= 432_000_000_000,
        -432_000_000_000 <= r.y <= 432_000_000_000,
        -432_000_000_000 <= r.z <= 432_000_000_000,
        ({
            let arm = crate::geom::spec_cross(ang_vel, v);
            let summed = Vec3 {
                x: (vel.x + arm.0) as i64,
                y: (vel.y + arm.1) as i64,
                z: (vel.z + arm.2) as i64,
            };
            &&& r.x == crate::geom::spec_mat_row(rot.m11 as int, rot.m12 as int, rot.m13 as int,
                summed)
            &&& r.y == crate::geom::spec_mat_row(rot.m21 as int, rot.m22 as int, rot.m23 as int,
                summed)
            &&& r.z == crate::geom::spec_mat_row(rot.m31 as int, rot.m32 as int, rot.m33 as int,
                summed)
        }),
{
    let arm = crate::geom::cross(ang_vel, v);
    proof {
        crate::geom::lemma_abs_mul_le(ang_vel.y as int, v.z as int, 40_000_000, 100_000_000);
        crate::geom::lemma_abs_mul_le(ang_vel.z as int, v.y as int, 40_000_000, 100_000_000);
        crate::geom::lemma_abs_mul_le(ang_vel.z as int, v.x as int, 40_000_000, 100_000_000);
        crate::geom::lemma_abs_mul_le(ang_vel.x as int, v.z as int, 40_000_000, 100_000_000);
        crate::geom::lemma_abs_mul_le(ang_vel.x as int, v.y as int, 40_000_000, 100_000_000);
        crate::geom::lemma_abs_mul_le(ang_vel.y as int, v.x as int, 40_000_000, 100_000_000);
        crate::geom::lemma_tdiv_mag(
            ang_vel.y as int * v.z as int - ang_vel.z as int * v.y as int,
            crate::fixed::SCALE as int,
            8_000_000_000_000_000,
        );
        crate::geom::lemma_tdiv_mag(
            ang_vel.z as int * v.x as int - ang_vel.x as int * v.z as int,
            crate::fixed::SCALE as int,
            8_000_000_000_000_000,
        );
        crate::geom::lemma_tdiv_mag(
            ang_vel.x as int * v.y as int - ang_vel.y as int * v.x as int,
            crate::fixed::SCALE as int,
            8_000_000_000_000_000,
        );
    }
    let summed = Vec3 { x: vel.x + arm.x, y: vel.y + arm.y, z: vel.z + arm.z };
    proof {
        crate::geom::lemma_mat_row_bound(rot.m11 as int, rot.m12 as int, rot.m13 as int, summed,
            9_000_000_000);
        crate::geom::lemma_mat_row_bound(rot.m21 as int, rot.m22 as int, rot.m23 as int, summed,
            9_000_000_000);
        crate::geom::lemma_mat_row_bound(rot.m31 as int, rot.m32 as int, rot.m33 as int, summed,
            9_000_000_000);
    }
    crate::geom::mat3_mul_vec(rot, summed)
}

} // verus!
