//! Cargo tethers: spring-damper ropes between UAV hooks and objects.
//!
//! A link is keyed by the ordered pair `(drone_id, obj_id)` and carries the
//! rope's natural length, elasticity, damping and hook offset, plus a
//! timeout counter.  The counter grows in every world tick in which either
//! endpoint is missing, and a link whose counter reaches the configured
//! limit is dropped; while both endpoints live the rope pulls them together
//! whenever it is stretched.

use vstd::prelude::*;

use crate::fixed::{spec_clamp, FIX_LIMIT, SCALE};
use crate::geom::{
    cross, dot, norm, normalize, quat_in_range, scale_mul, spec_cross, spec_dot, spec_dot_raw,
    spec_mat_row, spec_normalize, spec_quat_to_rot, spec_scale_mul, vec3_in_range, Quat, Vec3,
};

verus! {

/// One rope between a UAV hook and an object.
#[derive(Clone, Copy, Debug, PartialEq, Eq, Structural)]
pub struct Link {
    /// UAV endpoint.
    pub drone_id: usize,
    /// Object endpoint.
    pub obj_id: usize,
    /// Ticks in which an endpoint has been missing.
    pub timeout: usize,
    /// Natural rope length.
    pub length: i64,
    /// Elasticity coefficient.
    pub k: i64,
    /// Damping coefficient.
    pub b: i64,
    /// Hook offset in the UAV body frame.
    pub hook: Vec3,
}

/// Bound on a hook offset: hooks sit on the airframe, well under this.
pub const HOOK_LIMIT: i64 = 10_000_000_000;

/// Rope parameters in range: non-negative, with room for every product.
pub open spec fn link_params_wf(l: Link) -> bool {
    &&& 0 <= l.length <= FIX_LIMIT
    &&& 0 <= l.k <= FIX_LIMIT
    &&& 0 <= l.b <= FIX_LIMIT
    &&& -HOOK_LIMIT <= l.hook.x <= HOOK_LIMIT
    &&& -HOOK_LIMIT <= l.hook.y <= HOOK_LIMIT
    &&& -HOOK_LIMIT <= l.hook.z <= HOOK_LIMIT
}

/// The cargo engine: the live links and the orphan limit.
pub struct Cargo {
    /// Live links.
    pub links: Vec<Link>,
    /// Ticks an orphaned link survives.
    pub timeout_limit: usize,
}

/// Engine invariant: keys are unique, every counter is below the limit, and
/// every rope's parameters are in range.  The counter bound is the absence
/// invariant: a link whose endpoints have been gone `timeout_limit` ticks is
/// no longer here.
pub open spec fn cargo_wf(c: Cargo) -> bool {
    &&& 1 <= c.timeout_limit
    &&& forall|m1: int, m2: int|
        #![trigger c.links@[m1], c.links@[m2]]
        0 <= m1 < m2 < c.links@.len() ==> !(c.links@[m1].drone_id == c.links@[m2].drone_id
            && c.links@[m1].obj_id == c.links@[m2].obj_id)
    &&& forall|m: int| 0 <= m < c.links@.len() ==> #[trigger] c.links@[m].timeout < c.timeout_limit
    &&& forall|m: int| 0 <= m < c.links@.len() ==> link_params_wf(#[trigger] c.links@[m])
}

impl Cargo {
    /// An empty link set.
    pub fn new(timeout_limit: usize) -> (r: Cargo)
        requires
            timeout_limit >= 1,
        ensures
            cargo_wf(r),
            r.links@.len() == 0,
            r.timeout_limit == timeout_limit,
    {
        Cargo { links: Vec::new(), timeout_limit }
    }

    /// Index of the link keyed `(drone_id, obj_id)`, if present.
    pub fn findLink(&self, drone_id: usize, obj_id: usize) -> (r: Option<usize>)
        ensures
            match r {
                Some(m) => m < self.links@.len() && self.links@[m as int].drone_id == drone_id
                    && self.links@[m as int].obj_id == obj_id,
                None => forall|m: int|
                    #![trigger self.links@[m]]
                    0 <= m < self.links@.len() ==> !(self.links@[m].drone_id == drone_id
                        && self.links@[m].obj_id == obj_id),
            },
    {
        let mut m: usize = 0;
        while m < self.links.len()
            invariant
                m <= self.links@.len(),
                forall|j: int|
                    #![trigger self.links@[j]]
                    0 <= j < m ==> !(self.links@[j].drone_id == drone_id && self.links@[j].obj_id
                        == obj_id),
            decreases self.links@.len() - m,
        {
            let l = self.links[m];
            if l.drone_id == drone_id && l.obj_id == obj_id {
                return Some(m);
            }
            m = m + 1;
        }
        None
    }

    /// Creates or replaces the link `(drone_id, obj_id)` with fresh
    /// parameters and a zero counter.
    pub fn addLink(&mut self, drone_id: usize, obj_id: usize, length: i64, k: i64, b: i64,
        hook: Vec3)
        requires
            cargo_wf(*old(self)),
            0 <= length <= FIX_LIMIT,
            0 <= k <= FIX_LIMIT,
            0 <= b <= FIX_LIMIT,
            -HOOK_LIMIT <= hook.x <= HOOK_LIMIT,
            -HOOK_LIMIT <= hook.y <= HOOK_LIMIT,
            -HOOK_LIMIT <= hook.z <= HOOK_LIMIT,
        ensures
            cargo_wf(*final(self)),
            final(self).timeout_limit == old(self).timeout_limit,
            exists|m: int|
                0 <= m < final(self).links@.len() && #[trigger] final(self).links@[m] == (Link {
                    drone_id,
                    obj_id,
                    timeout: 0,
                    length,
                    k,
                    b,
                    hook,
                }),
            forall|m: int|
                #![trigger old(self).links@[m]]
                0 <= m < old(self).links@.len() && !(old(self).links@[m].drone_id == drone_id
                    && old(self).links@[m].obj_id == obj_id) ==> exists|j: int|
                    0 <= j < final(self).links@.len() && #[trigger] final(self).links@[j] == old(
                        self,
                    ).links@[m],
    {
        let fresh = Link { drone_id, obj_id, timeout: 0, length, k, b, hook };
        let found = self.findLink(drone_id, obj_id);
        match found {
            Some(m) => {
                self.links.set(m, fresh);
                proof {
                    assert(final(self).links@[m as int] == fresh);
                    assert forall|m0: int|
                        #![trigger old(self).links@[m0]]
                        0 <= m0 < old(self).links@.len() && !(old(self).links@[m0].drone_id
                            == drone_id && old(self).links@[m0].obj_id == obj_id) implies exists|
                        j: int,
                    |
                        0 <= j < self.links@.len() && #[trigger] self.links@[j] == old(
                            self,
                        ).links@[m0] by {
                        assert(self.links@[m0] == old(self).links@[m0]);
                    }
                }
            },
            None => {
                self.links.push(fresh);
                proof {
                    assert(final(self).links@[final(self).links@.len() - 1] == fresh);
                    assert forall|m0: int|
                        #![trigger old(self).links@[m0]]
                        0 <= m0 < old(self).links@.len() && !(old(self).links@[m0].drone_id
                            == drone_id && old(self).links@[m0].obj_id == obj_id) implies exists|
                        j: int,
                    |
                        0 <= j < self.links@.len() && #[trigger] self.links@[j] == old(
                            self,
                        ).links@[m0] by {
                        assert(self.links@[m0] == old(self).links@[m0]);
                    }
                }
            },
        }
    }

    /// Index of any link whose UAV endpoint is `drone_id`.
    fn find_by_drone(&self, drone_id: usize) -> (r: Option<usize>)
        ensures
            match r {
                Some(m) => m < self.links@.len() && self.links@[m as int].drone_id == drone_id,
                None => forall|m: int|
                    0 <= m < self.links@.len() ==> #[trigger] self.links@[m].drone_id != drone_id,
            },
    {
        let mut m: usize = 0;
        while m < self.links.len()
            invariant
                m <= self.links@.len(),
                forall|j: int| 0 <= j < m ==> #[trigger] self.links@[j].drone_id != drone_id,
            decreases self.links@.len() - m,
        {
            if self.links[m].drone_id == drone_id {
                return Some(m);
            }
            m = m + 1;
        }
        None
    }

    /// Removes every link whose UAV endpoint is `drone_id`.  Links of other
    /// UAVs ride along unchanged: any surviving link with a key an old link
    /// had is that old link.
    #[verifier::rlimit(100)]
    pub fn removeLink(&mut self, drone_id: usize)
        requires
            cargo_wf(*old(self)),
        ensures
            cargo_wf(*final(self)),
            final(self).timeout_limit == old(self).timeout_limit,
            forall|m: int|
                0 <= m < final(self).links@.len() ==> #[trigger] final(self).links@[m].drone_id
                    != drone_id,
            forall|m: int, j: int|
                #![trigger old(self).links@[m], final(self).links@[j]]
                0 <= m < old(self).links@.len() && 0 <= j < final(self).links@.len() && old(
                    self,
                ).links@[m].drone_id == final(self).links@[j].drone_id && old(
                    self,
                ).links@[m].obj_id == final(self).links@[j].obj_id ==> final(self).links@[j]
                    == old(self).links@[m],
            forall|m: int|
                0 <= m < old(self).links@.len() && (#[trigger] old(self).links@[m]).drone_id
                    != drone_id ==> final(self).links@.contains(old(self).links@[m]),
    {
        let ghost o = *old(self);
        proof {
            assert forall|m: int|
                0 <= m < o.links@.len() && (#[trigger] o.links@[m]).drone_id != drone_id implies
                self.links@.contains(o.links@[m]) by {
                assert(self.links@[m] == o.links@[m]);
            }
        }
        loop
            invariant
                o == *old(self),
                cargo_wf(*self),
                self.timeout_limit == o.timeout_limit,
                forall|m: int, j: int|
                    #![trigger o.links@[m], self.links@[j]]
                    0 <= m < o.links@.len() && 0 <= j < self.links@.len() && o.links@[m].drone_id
                        == self.links@[j].drone_id && o.links@[m].obj_id == self.links@[j].obj_id
                        ==> self.links@[j] == o.links@[m],
                forall|m: int|
                    0 <= m < o.links@.len() && (#[trigger] o.links@[m]).drone_id != drone_id
                        ==> self.links@.contains(o.links@[m]),
            decreases self.links@.len(),
        {
            let found = self.find_by_drone(drone_id);
            match found {
                None => {
                    return ;
                },
                Some(m) => {
                    let ghost pre = self.links@;
                    let _ = self.links.remove(m);
                    proof {
                        assert forall|m0: int|
                            0 <= m0 < o.links@.len() && (#[trigger] o.links@[m0]).drone_id
                                != drone_id implies self.links@.contains(o.links@[m0]) by {
                            assert(pre.contains(o.links@[m0]));
                            let j0 = choose|j: int| 0 <= j < pre.len() && pre[j] == o.links@[m0];
                            assert(j0 != m);
                            if j0 < m {
                                assert(self.links@[j0] == o.links@[m0]);
                            } else {
                                assert(self.links@[j0 - 1] == o.links@[m0]);
                            }
                        }
                        assert forall|j: int| 0 <= j < self.links@.len() implies exists|j0: int|
                            0 <= j0 < pre.len() && #[trigger] self.links@[j] == pre[j0] by {
                            if j < m {
                                assert(self.links@[j] == pre[j]);
                            } else {
                                assert(self.links@[j] == pre[j + 1]);
                            }
                        }
                        assert forall|j1: int, j2: int|
                            #![trigger self.links@[j1], self.links@[j2]]
                            0 <= j1 < j2 < self.links@.len() implies !(self.links@[j1].drone_id
                            == self.links@[j2].drone_id && self.links@[j1].obj_id
                            == self.links@[j2].obj_id) by {
                            if j2 < m {
                            } else if j1 < m {
                                assert(self.links@[j1] == pre[j1]);
                                assert(self.links@[j2] == pre[j2 + 1]);
                            } else {
                                assert(self.links@[j1] == pre[j1 + 1]);
                                assert(self.links@[j2] == pre[j2 + 1]);
                            }
                        }
                    }
                },
            }
        }
    }

    /// One aging pass: a link whose endpoints are both present keeps its
    /// counter; any other link's counter grows by one, saturating at the
    /// limit.  No link is added or removed here; [`Cargo::prune`] drops the
    /// expired ones.
    pub fn age(&mut self, drones_present: &Vec<usize>, objs_present: &Vec<usize>) -> (expired:
        bool)
        requires
            cargo_wf(*old(self)),
        ensures
            final(self).timeout_limit == old(self).timeout_limit,
            final(self).links@.len() == old(self).links@.len(),
            forall|m: int|
                #![trigger final(self).links@[m]]
                0 <= m < old(self).links@.len() ==> {
                    let l = old(self).links@[m];
                    let n = final(self).links@[m];
                    &&& n.drone_id == l.drone_id
                    &&& n.obj_id == l.obj_id
                    &&& n.length == l.length
                    &&& n.k == l.k
                    &&& n.b == l.b
                    &&& n.hook == l.hook
                    &&& n.timeout == (if drones_present@.contains(l.drone_id)
                        && objs_present@.contains(l.obj_id) {
                        l.timeout as int
                    } else {
                        l.timeout + 1
                    })
                },
    {
        let mut expired = false;
        let mut m: usize = 0;
        while m < self.links.len()
            invariant
                cargo_wf(*old(self)),
                self.timeout_limit == old(self).timeout_limit,
                self.links@.len() == old(self).links@.len(),
                m <= self.links@.len(),
                forall|j: int| m <= j < self.links@.len() ==> #[trigger] self.links@[j] == old(
                    self,
                ).links@[j],
                forall|j: int|
                    #![trigger self.links@[j]]
                    0 <= j < m ==> {
                        let l = old(self).links@[j];
                        let n = self.links@[j];
                        &&& n.drone_id == l.drone_id
                        &&& n.obj_id == l.obj_id
                        &&& n.length == l.length
                        &&& n.k == l.k
                        &&& n.b == l.b
                        &&& n.hook == l.hook
                        &&& n.timeout == (if drones_present@.contains(l.drone_id)
                            && objs_present@.contains(l.obj_id) {
                            l.timeout as int
                        } else {
                            l.timeout + 1
                        })
                    },
            decreases self.links@.len() - m,
        {
            let l = self.links[m];
            let d_here = contains_id(drones_present, l.drone_id);
            let o_here = contains_id(objs_present, l.obj_id);
            if !(d_here && o_here) {
                let bumped = Link { timeout: l.timeout + 1, ..l };
                self.links.set(m, bumped);
                expired = true;
            }
            m = m + 1;
        }
        expired
    }

    /// Drops every link whose counter has reached the limit.  Survivors are
    /// untouched: any remaining link with a key an old link had is that old
    /// link.
    #[verifier::rlimit(100)]
    pub fn prune(&mut self)
        requires
            1 <= old(self).timeout_limit,
            forall|m1: int, m2: int|
                #![trigger old(self).links@[m1], old(self).links@[m2]]
                0 <= m1 < m2 < old(self).links@.len() ==> !(old(self).links@[m1].drone_id == old(
                    self,
                ).links@[m2].drone_id && old(self).links@[m1].obj_id == old(
                    self,
                ).links@[m2].obj_id),
            forall|m: int|
                0 <= m < old(self).links@.len() ==> link_params_wf(#[trigger] old(self).links@[m]),
        ensures
            cargo_wf(*final(self)),
            final(self).timeout_limit == old(self).timeout_limit,
            forall|m: int, j: int|
                #![trigger old(self).links@[m], final(self).links@[j]]
                0 <= m < old(self).links@.len() && 0 <= j < final(self).links@.len() && old(
                    self,
                ).links@[m].drone_id == final(self).links@[j].drone_id && old(
                    self,
                ).links@[m].obj_id == final(self).links@[j].obj_id ==> final(self).links@[j]
                    == old(self).links@[m],
            forall|m: int|
                0 <= m < old(self).links@.len() && (#[trigger] old(self).links@[m]).timeout < old(
                    self,
                ).timeout_limit ==> final(self).links@.contains(old(self).links@[m]),
    {
        let ghost o = *old(self);
        proof {
            assert forall|m: int|
                0 <= m < o.links@.len() && (#[trigger] o.links@[m]).timeout < o.timeout_limit
                implies self.links@.contains(o.links@[m]) by {
                assert(self.links@[m] == o.links@[m]);
            }
        }
        loop
            invariant
                o == *old(self),
                self.timeout_limit == o.timeout_limit,
                1 <= self.timeout_limit,
                forall|m: int|
                    0 <= m < o.links@.len() && (#[trigger] o.links@[m]).timeout
                        < o.timeout_limit ==> self.links@.contains(o.links@[m]),
                forall|m1: int, m2: int|
                    #![trigger self.links@[m1], self.links@[m2]]
                    0 <= m1 < m2 < self.links@.len() ==> !(self.links@[m1].drone_id
                        == self.links@[m2].drone_id && self.links@[m1].obj_id
                        == self.links@[m2].obj_id),
                forall|m: int|
                    0 <= m < self.links@.len() ==> link_params_wf(#[trigger] self.links@[m]),
                forall|m: int, j: int|
                    #![trigger o.links@[m], self.links@[j]]
                    0 <= m < o.links@.len() && 0 <= j < self.links@.len() && o.links@[m].drone_id
                        == self.links@[j].drone_id && o.links@[m].obj_id == self.links@[j].obj_id
                        ==> self.links@[j] == o.links@[m],
            decreases self.links@.len(),
        {
            let found = self.find_timed_out();
            match found {
                None => {
                    return ;
                },
                Some(m) => {
                    let ghost pre = self.links@;
                    let _ = self.links.remove(m);
                    proof {
                        assert forall|m0: int|
                            0 <= m0 < o.links@.len() && (#[trigger] o.links@[m0]).timeout
                                < o.timeout_limit implies self.links@.contains(o.links@[m0]) by {
                            assert(pre.contains(o.links@[m0]));
                            let j0 = choose|j: int| 0 <= j < pre.len() && pre[j] == o.links@[m0];
                            assert(j0 != m);
                            if j0 < m {
                                assert(self.links@[j0] == o.links@[m0]);
                            } else {
                                assert(self.links@[j0 - 1] == o.links@[m0]);
                            }
                        }
                        assert forall|j: int| 0 <= j < self.links@.len() implies exists|j0: int|
                            0 <= j0 < pre.len() && #[trigger] self.links@[j] == pre[j0] by {
                            if j < m {
                                assert(self.links@[j] == pre[j]);
                            } else {
                                assert(self.links@[j] == pre[j + 1]);
                            }
                        }
                        assert forall|j1: int, j2: int|
                            #![trigger self.links@[j1], self.links@[j2]]
                            0 <= j1 < j2 < self.links@.len() implies !(self.links@[j1].drone_id
                            == self.links@[j2].drone_id && self.links@[j1].obj_id
                            == self.links@[j2].obj_id) by {
                            if j2 < m {
                            } else if j1 < m {
                                assert(self.links@[j1] == pre[j1]);
                                assert(self.links@[j2] == pre[j2 + 1]);
                            } else {
                                assert(self.links@[j1] == pre[j1 + 1]);
                                assert(self.links@[j2] == pre[j2 + 1]);
                            }
                        }
                    }
                },
            }
        }
    }

    /// Index of any link whose counter has reached the limit.
    fn find_timed_out(&self) -> (r: Option<usize>)
        ensures
            match r {
                Some(m) => m < self.links@.len() && self.links@[m as int].timeout
                    >= self.timeout_limit,
                None => forall|m: int|
                    0 <= m < self.links@.len() ==> #[trigger] self.links@[m].timeout
                        < self.timeout_limit,
            },
    {
        let mut m: usize = 0;
        while m < self.links.len()
            invariant
                m <= self.links@.len(),
                forall|j: int|
                    0 <= j < m ==> #[trigger] self.links@[j].timeout < self.timeout_limit,
            decreases self.links@.len() - m,
        {
            if self.links[m].timeout >= self.timeout_limit {
                return Some(m);
            }
            m = m + 1;
        }
        None
    }
}

/// Linear scan for an id.
pub fn contains_id(ids: &Vec<usize>, id: usize) -> (r: bool)
    ensures
        r == ids@.contains(id),
{
    let mut i: usize = 0;
    while i < ids.len()
        invariant
            i <= ids@.len(),
            forall|j: int| 0 <= j < i ==> #[trigger] ids@[j] != id,
        decreases ids@.len() - i,
    {
        if ids[i] == id {
            proof {
                assert(ids@[i as int] == id);
            }
            return true;
        }
        i = i + 1;
    }
    proof {
        assert(!ids@.contains(id)) by {
            if ids@.contains(id) {
                let j = choose|j: int| 0 <= j < ids@.len() && ids@[j] == id;
                assert(ids@[j] != id);
            }
        }
    }
    false
}

/// One link's record in the notification frame: the two endpoint ids, the
/// rope length, and the three hook coordinates, comma separated and closed
/// by a semicolon.
pub open spec fn spec_link_record(l: Link) -> Seq<u8> {
    crate::text::dec_digits(l.drone_id as nat) + seq![44u8] + crate::text::dec_digits(
        l.obj_id as nat,
    ) + seq![44u8] + crate::text::fix_text(l.length as int) + seq![44u8] + crate::text::fix_text(
        l.hook.x as int,
    ) + seq![44u8] + crate::text::fix_text(l.hook.y as int) + seq![44u8] + crate::text::fix_text(
        l.hook.z as int,
    ) + seq![59u8]
}

/// The link notification frame body: one record per link, in order.
pub open spec fn spec_link_frame(links: Seq<Link>) -> Seq<u8>
    decreases links.len(),
{
    if links.len() == 0 {
        Seq::empty()
    } else {
        spec_link_record(links[0]) + spec_link_frame(links.drop_first())
    }
}

impl Cargo {
    /// Builds the periodic link notification for the visualizations.
    #[verifier::rlimit(100)]
    pub fn notifyAboutLinks(&self) -> (r: Vec<u8>)
        requires
            cargo_wf(*self),
        ensures
            r@ == seq![108u8, 58u8] + spec_link_frame(self.links@),
    {
        let mut out: Vec<u8> = Vec::new();
        out.push(108);
        out.push(58);
        let ghost head = out@;
        proof {
            assert(head =~= seq![108u8, 58u8]);
            assert(self.links@.skip(0) =~= self.links@);
        }
        let mut k: usize = 0;
        while k < self.links.len()
            invariant
                cargo_wf(*self),
                k <= self.links@.len(),
                head == seq![108u8, 58u8],
                head + spec_link_frame(self.links@) == out@ + spec_link_frame(
                    self.links@.skip(k as int),
                ),
            decreases self.links@.len() - k,
        {
            proof {
                assert(self.links@.skip(k as int)[0] == self.links@[k as int]);
                assert(self.links@.skip(k as int).drop_first() =~= self.links@.skip(
                    k as int + 1,
                ));
            }
            let ghost pre = out@;
            let l = self.links[k];
            let mut d = crate::text::fmt_u64(l.drone_id as u64);
            out.append(&mut d);
            out.push(44);
            let mut o = crate::text::fmt_u64(l.obj_id as u64);
            out.append(&mut o);
            out.push(44);
            let mut len_text = crate::text::fmt_fix(l.length);
            out.append(&mut len_text);
            out.push(44);
            let mut hx = crate::text::fmt_fix(l.hook.x);
            out.append(&mut hx);
            out.push(44);
            let mut hy = crate::text::fmt_fix(l.hook.y);
            out.append(&mut hy);
            out.push(44);
            let mut hz = crate::text::fmt_fix(l.hook.z);
            out.append(&mut hz);
            out.push(59);
            proof {
                let ll = self.links@[k as int];
                assert(out@ =~= pre + spec_link_record(ll));
                assert(out@ + spec_link_frame(self.links@.skip(k as int + 1)) =~= pre
                    + spec_link_frame(self.links@.skip(k as int)));
            }
            k = k + 1;
        }
        proof {
            assert(self.links@.skip(self.links@.len() as int) =~= Seq::<Link>::empty());
            assert(out@ + Seq::<u8>::empty() =~= out@);
        }
        out
    }
}

/// Absence invariant, read off the engine state: every live link's counter
/// is strictly below the orphan limit, so a link whose endpoints have been
/// missing for `timeout_limit` aging passes cannot be present.
pub proof fn lemma_links_within_limit(c: Cargo)
    requires
        cargo_wf(c),
    ensures
        forall|m: int| 0 <= m < c.links@.len() ==> #[trigger] c.links@[m].timeout < c.timeout_limit,
{
}

/// A link whose endpoints are missing is gone once its counter would reach
/// the limit: after one aging pass counts it up and the prune pass runs, no
/// link with its key remains.
pub proof fn lemma_orphan_link_dropped(before: Cargo, aged: Cargo, after: Cargo, m: int,
    drones_present: Seq<usize>, objs_present: Seq<usize>)
    requires
        cargo_wf(before),
        0 <= m < before.links@.len(),
        !(drones_present.contains(before.links@[m].drone_id) && objs_present.contains(
            before.links@[m].obj_id,
        )),
        before.links@[m].timeout + 1 >= before.timeout_limit,
        // the aging pass
        aged.links@.len() == before.links@.len(),
        forall|j: int|
            #![trigger aged.links@[j]]
            0 <= j < before.links@.len() ==> {
                let l = before.links@[j];
                let n = aged.links@[j];
                &&& n.drone_id == l.drone_id
                &&& n.obj_id == l.obj_id
                &&& n.timeout == (if drones_present.contains(l.drone_id) && objs_present.contains(
                    l.obj_id,
                ) {
                    l.timeout as int
                } else {
                    l.timeout + 1
                })
            },
        // the prune pass
        after.timeout_limit == before.timeout_limit,
        forall|j: int| 0 <= j < after.links@.len() ==> #[trigger] after.links@[j].timeout
            < after.timeout_limit,
        forall|j0: int, j: int|
            #![trigger aged.links@[j0], after.links@[j]]
            0 <= j0 < aged.links@.len() && 0 <= j < after.links@.len() && aged.links@[j0].drone_id
                == after.links@[j].drone_id && aged.links@[j0].obj_id == after.links@[j].obj_id
                ==> after.links@[j] == aged.links@[j0],
    ensures
        forall|j: int|
            #![trigger after.links@[j]]
            0 <= j < after.links@.len() ==> !(after.links@[j].drone_id
                == before.links@[m].drone_id && after.links@[j].obj_id
                == before.links@[m].obj_id),
{
    let key_d = before.links@[m].drone_id;
    let key_o = before.links@[m].obj_id;
    assert forall|j: int|
        0 <= j < after.links@.len() implies !(#[trigger] after.links@[j].drone_id == key_d
        && after.links@[j].obj_id == key_o) by {
        if after.links@[j].drone_id == key_d && after.links@[j].obj_id == key_o {
            assert(aged.links@[m].drone_id == key_d);
            assert(aged.links@[m].obj_id == key_o);
            assert(after.links@[j] == aged.links@[m]);
            assert(aged.links@[m].timeout >= after.timeout_limit);
        }
    }
}

/// What one rope applies: nothing while slack; when stretched past its
/// natural length, a pull of magnitude `k (len - L) + b rdot` on the object
/// toward the UAV hook, the opposite pull on the UAV, and the torque of the
/// hook arm.  The magnitude saturates at the coordinate limit.
pub struct RopePull {
    /// Whether the rope is taut and pulling at all.
    pub taut: bool,
    /// Force to add to the UAV (the object receives its negation).
    pub force: Vec3,
    /// Torque to add to the UAV.
    pub torque: Vec3,
}

/// The world-frame hook offset: the body-frame hook rotated by the UAV's
/// orientation.
pub open spec fn spec_hook_world(hook: Vec3, ori: Quat) -> Vec3 {
    let rot = spec_quat_to_rot(ori);
    Vec3 {
        x: spec_mat_row(rot.m11 as int, rot.m12 as int, rot.m13 as int, hook) as i64,
        y: spec_mat_row(rot.m21 as int, rot.m22 as int, rot.m23 as int, hook) as i64,
        z: spec_mat_row(rot.m31 as int, rot.m32 as int, rot.m33 as int, hook) as i64,
    }
}

/// The rope vector: from the world hook point to the object.
pub open spec fn spec_rope_delta(link: Link, drone_pos: Vec3, drone_ori: Quat, obj_pos: Vec3)
    -> Vec3 {
    let h = spec_hook_world(link.hook, drone_ori);
    Vec3 {
        x: (obj_pos.x - (drone_pos.x + h.x)) as i64,
        y: (obj_pos.y - (drone_pos.y + h.y)) as i64,
        z: (obj_pos.z - (drone_pos.z + h.z)) as i64,
    }
}

/// Spring-damper law: what [`Cargo::ropeForce`] returns, component by
/// component.
pub open spec fn rope_spec(link: Link, drone_pos: Vec3, drone_ori: Quat, drone_vel: Vec3,
    obj_pos: Vec3, obj_vel: Vec3, r: RopeResult) -> bool {
    let delta = spec_rope_delta(link, drone_pos, drone_ori, obj_pos);
    let len = r.rope_len as int;
    let dn = spec_normalize(delta, len);
    let dnv = Vec3 { x: dn.0 as i64, y: dn.1 as i64, z: dn.2 as i64 };
    let rel = spec_dot(obj_vel, dnv) - spec_dot(drone_vel, dnv);
    let mag = spec_clamp(
        spec_scale_mul(link.k as int, len - link.length) + spec_scale_mul(link.b as int, rel),
        -(FIX_LIMIT as int),
        FIX_LIMIT as int,
    );
    let hooked = spec_hook_world(link.hook, drone_ori);
    &&& crate::geom::is_isqrt(spec_dot_raw(delta, delta), len)
    &&& r.pull.taut == (len > link.length)
    &&& (!r.pull.taut ==> r.pull.force == (Vec3 { x: 0i64, y: 0i64, z: 0i64 }) && r.pull.torque
        == (Vec3 { x: 0i64, y: 0i64, z: 0i64 }))
    &&& (r.pull.taut ==> r.pull.force.x == spec_scale_mul(mag, dnv.x as int)
        && r.pull.force.y == spec_scale_mul(mag, dnv.y as int) && r.pull.force.z == spec_scale_mul(
        mag,
        dnv.z as int,
    ) && (r.pull.torque.x as int, r.pull.torque.y as int, r.pull.torque.z as int) == spec_cross(
        hooked,
        r.pull.force,
    ))
}

impl Cargo {
    /// Computes one rope's pull from a snapshot of its endpoints.
    ///
    /// `drone_pos`/`drone_ori`/`drone_vel` and `obj_pos`/`obj_vel` are the
    /// snapshot; the contract pins every component: the hook offset is the
    /// hook rotated by the orientation, the rope vector runs from the world
    /// hook to the object, and the pull follows the spring-damper law
    /// exactly, in fixed-point arithmetic.
    pub fn ropeForce(link: &Link, drone_pos: Vec3, drone_ori: Quat, drone_vel: Vec3, obj_pos: Vec3,
        obj_vel: Vec3) -> (r: RopeResult)
        requires
            link_params_wf(*link),
            quat_in_range(drone_ori),
            -10_000_000_000 <= drone_pos.x <= 10_000_000_000,
            -10_000_000_000 <= drone_pos.y <= 10_000_000_000,
            -10_000_000_000 <= drone_pos.z <= 10_000_000_000,
            -10_000_000_000 <= obj_pos.x <= 10_000_000_000,
            -10_000_000_000 <= obj_pos.y <= 10_000_000_000,
            -10_000_000_000 <= obj_pos.z <= 10_000_000_000,
            -100_000_000_000 <= drone_vel.x <= 100_000_000_000,
            -100_000_000_000 <= drone_vel.y <= 100_000_000_000,
            -100_000_000_000 <= drone_vel.z <= 100_000_000_000,
            -100_000_000_000 <= obj_vel.x <= 100_000_000_000,
            -100_000_000_000 <= obj_vel.y <= 100_000_000_000,
            -100_000_000_000 <= obj_vel.z <= 100_000_000_000,
        ensures
            rope_spec(*link, drone_pos, drone_ori, drone_vel, obj_pos, obj_vel, r),
    {
        let rot = crate::geom::quat_to_rot(drone_ori);
        let hooked = crate::geom::mat3_mul_vec(rot, link.hook);
        proof {
            crate::geom::lemma_mat_row_bound(
                rot.m11 as int,
                rot.m12 as int,
                rot.m13 as int,
                link.hook,
                HOOK_LIMIT as int,
            );
            crate::geom::lemma_mat_row_bound(
                rot.m21 as int,
                rot.m22 as int,
                rot.m23 as int,
                link.hook,
                HOOK_LIMIT as int,
            );
            crate::geom::lemma_mat_row_bound(
                rot.m31 as int,
                rot.m32 as int,
                rot.m33 as int,
                link.hook,
                HOOK_LIMIT as int,
            );
        }
        let delta = Vec3 {
            x: obj_pos.x - (drone_pos.x + hooked.x),
            y: obj_pos.y - (drone_pos.y + hooked.y),
            z: obj_pos.z - (drone_pos.z + hooked.z),
        };
        let len = norm(delta);
        proof {
            crate::geom::lemma_norm_le(delta, len as int, 500_000_000_000);
        }
        if len > link.length {
            let dn = normalize(delta, len);
            proof {
                crate::geom::lemma_dot_bound(obj_vel, dn, 100_000_000_000, SCALE as int);
                crate::geom::lemma_dot_bound(drone_vel, dn, 100_000_000_000, SCALE as int);
            }
            let rel = dot(obj_vel, dn) - dot(drone_vel, dn);
            let spring = scale_mul(link.k, len - link.length);
            let damp = scale_mul(link.b, rel);
            let mag = crate::fixed::clamp_fix(spring + damp, -FIX_LIMIT, FIX_LIMIT);
            proof {
                crate::geom::lemma_abs_mul_le(mag as int, dn.x as int, FIX_LIMIT as int,
                    SCALE as int);
                crate::geom::lemma_abs_mul_le(mag as int, dn.y as int, FIX_LIMIT as int,
                    SCALE as int);
                crate::geom::lemma_abs_mul_le(mag as int, dn.z as int, FIX_LIMIT as int,
                    SCALE as int);
                crate::geom::lemma_tdiv_mag(mag as int * dn.x as int, SCALE as int, (
                FIX_LIMIT as int) * (SCALE as int));
                crate::geom::lemma_tdiv_mag(mag as int * dn.y as int, SCALE as int, (
                FIX_LIMIT as int) * (SCALE as int));
                crate::geom::lemma_tdiv_mag(mag as int * dn.z as int, SCALE as int, (
                FIX_LIMIT as int) * (SCALE as int));
            }
            let force = Vec3 {
                x: scale_mul(mag, dn.x),
                y: scale_mul(mag, dn.y),
                z: scale_mul(mag, dn.z),
            };
            let torque = cross(hooked, force);
            RopeResult { rope_len: len, pull: RopePull { taut: true, force, torque } }
        } else {
            let zero = Vec3 { x: 0, y: 0, z: 0 };
            RopeResult {
                rope_len: len,
                pull: RopePull { taut: false, force: zero, torque: zero },
            }
        }
    }
}

/// Componentwise total of the forces and torques that the listed ropes
/// apply to one UAV.
pub open spec fn spec_sum_for(list: Seq<(usize, Vec3, Vec3)>, id: usize) -> (
    int,
    int,
    int,
    int,
    int,
    int,
)
    decreases list.len(),
{
    if list.len() == 0 {
        (0int, 0int, 0int, 0int, 0int, 0int)
    } else {
        let rest = spec_sum_for(list.drop_first(), id);
        let h = list[0];
        if h.0 == id {
            (
                h.1.x + rest.0,
                h.1.y + rest.1,
                h.1.z + rest.2,
                h.2.x + rest.3,
                h.2.y + rest.4,
                h.2.z + rest.5,
            )
        } else {
            rest
        }
    }
}

/// Each component of the rope total is bounded by the coordinate limit
/// times the number of ropes.
pub proof fn lemma_sum_bounded(list: Seq<(usize, Vec3, Vec3)>, id: usize)
    requires
        forall|k: int|
            0 <= k < list.len() ==> vec3_in_range((#[trigger] list[k]).1) && vec3_in_range(
                list[k].2,
            ),
    ensures
        ({
            let s = spec_sum_for(list, id);
            let cap = (FIX_LIMIT as int) * list.len();
            &&& -cap <= s.0 <= cap
            &&& -cap <= s.1 <= cap
            &&& -cap <= s.2 <= cap
            &&& -cap <= s.3 <= cap
            &&& -cap <= s.4 <= cap
            &&& -cap <= s.5 <= cap
        }),
    decreases list.len(),
{
    let fl = FIX_LIMIT as int;
    if list.len() == 0 {
        assert(fl * 0 == 0) by (nonlinear_arith);
    } else {
        let rest = list.drop_first();
        assert forall|k: int|
            0 <= k < rest.len() implies vec3_in_range((#[trigger] rest[k]).1) && vec3_in_range(
            rest[k].2,
        ) by {
            assert(rest[k] == list[k + 1]);
        }
        lemma_sum_bounded(rest, id);
        vstd::arithmetic::mul::lemma_mul_is_distributive_add(fl, rest.len() as int, 1);
        vstd::arithmetic::mul::lemma_mul_basics(fl);
        vstd::arithmetic::mul::lemma_mul_nonnegative(fl, rest.len() as int);
        assert(vec3_in_range(list[0].1) && vec3_in_range(list[0].2));
    }
}

/// With the client limit of a thousand ropes, the total fits comfortably.
pub proof fn lemma_sum_bounded_numeric(list: Seq<(usize, Vec3, Vec3)>, id: usize)
    requires
        list.len() <= 1000,
        forall|k: int|
            0 <= k < list.len() ==> vec3_in_range((#[trigger] list[k]).1) && vec3_in_range(
                list[k].2,
            ),
    ensures
        ({
            let s = spec_sum_for(list, id);
            &&& -1_000_000_000_000_000 <= s.0 <= 1_000_000_000_000_000
            &&& -1_000_000_000_000_000 <= s.1 <= 1_000_000_000_000_000
            &&& -1_000_000_000_000_000 <= s.2 <= 1_000_000_000_000_000
            &&& -1_000_000_000_000_000 <= s.3 <= 1_000_000_000_000_000
            &&& -1_000_000_000_000_000 <= s.4 <= 1_000_000_000_000_000
            &&& -1_000_000_000_000_000 <= s.5 <= 1_000_000_000_000_000
        }),
{
    let fl = FIX_LIMIT as int;
    lemma_sum_bounded(list, id);
    vstd::arithmetic::mul::lemma_mul_inequality(list.len() as int, 1000, fl);
    vstd::arithmetic::mul::lemma_mul_is_commutative(fl, list.len() as int);
    vstd::arithmetic::mul::lemma_mul_is_commutative(fl, 1000);
}

/// Sums the per-rope forces and torques addressed to one UAV, so a single
/// update message carries the whole pull.
pub fn sum_for_drone(list: &Vec<(usize, Vec3, Vec3)>, id: usize) -> (r: (Vec3, Vec3))
    requires
        list@.len() <= 1000,
        forall|k: int|
            0 <= k < list@.len() ==> vec3_in_range((#[trigger] list@[k]).1) && vec3_in_range(
                list@[k].2,
            ),
    ensures
        (
            r.0.x as int,
            r.0.y as int,
            r.0.z as int,
            r.1.x as int,
            r.1.y as int,
            r.1.z as int,
        ) == spec_sum_for(list@, id),
{
    let n = list.len();
    let mut fx: i64 = 0;
    let mut fy: i64 = 0;
    let mut fz: i64 = 0;
    let mut tx: i64 = 0;
    let mut ty: i64 = 0;
    let mut tz: i64 = 0;
    let mut k: usize = n;
    proof {
        assert(list@.skip(n as int) =~= Seq::<(usize, Vec3, Vec3)>::empty());
    }
    while k > 0
        invariant
            n == list@.len(),
            n <= 1000,
            k <= n,
            forall|k2: int|
                0 <= k2 < list@.len() ==> vec3_in_range((#[trigger] list@[k2]).1) && vec3_in_range(
                    list@[k2].2,
                ),
            (fx as int, fy as int, fz as int, tx as int, ty as int, tz as int) == spec_sum_for(
                list@.skip(k as int),
                id,
            ),
        decreases k,
    {
        k = k - 1;
        proof {
            assert(list@.skip(k as int)[0] == list@[k as int]);
            assert(list@.skip(k as int).drop_first() =~= list@.skip(k as int + 1));
            assert forall|k2: int|
                0 <= k2 < list@.skip(k as int + 1).len() implies vec3_in_range(
                (#[trigger] list@.skip(k as int + 1)[k2]).1,
            ) && vec3_in_range(list@.skip(k as int + 1)[k2].2) by {
                assert(list@.skip(k as int + 1)[k2] == list@[k2 + k + 1]);
            }
            lemma_sum_bounded_numeric(list@.skip(k as int + 1), id);
        }
        let e = list[k];
        if e.0 == id {
            fx = fx + e.1.x;
            fy = fy + e.1.y;
            fz = fz + e.1.z;
            tx = tx + e.2.x;
            ty = ty + e.2.y;
            tz = tz + e.2.z;
        }
    }
    proof {
        assert(list@.skip(0) =~= list@);
    }
    (Vec3 { x: fx, y: fy, z: fz }, Vec3 { x: tx, y: ty, z: tz })
}

/// Two ropes pulling one UAV with the same force and torque add up to
/// twice that force in the single message the UAV receives.
pub proof fn lemma_two_equal_ropes(id: usize, f: Vec3, t: Vec3)
    ensures
        spec_sum_for(seq![(id, f, t), (id, f, t)], id) == (
            2 * f.x as int,
            2 * f.y as int,
            2 * f.z as int,
            2 * t.x as int,
            2 * t.y as int,
            2 * t.z as int,
        ),
{
    let l = seq![(id, f, t), (id, f, t)];
    let l1 = l.drop_first();
    assert(l1 =~= seq![(id, f, t)]);
    assert(l1.drop_first() =~= Seq::<(usize, Vec3, Vec3)>::empty());
    assert(spec_sum_for(l1.drop_first(), id) == (0int, 0int, 0int, 0int, 0int, 0int));
    assert(l1[0] == (id, f, t));
    assert(spec_sum_for(l1, id) == (
        f.x as int,
        f.y as int,
        f.z as int,
        t.x as int,
        t.y as int,
        t.z as int,
    ));
    assert(l[0] == (id, f, t));
}

/// A rope computation: the measured rope length and the resulting pull.
pub struct RopeResult {
    /// Integer length of the rope vector.
    pub rope_len: i64,
    /// The pull to apply.
    pub pull: RopePull,
}

} // verus!
