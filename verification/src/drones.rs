//! UAV supervisor and world registry.
//!
//! Owns the list of live UAVs and the slot table.  Ids are dense integers
//! handed out from one, never reused in a session; a slot is a fixed index
//! that determines the TCP ports of the UAV's sockets and is reused across
//! UAV generations.  The registry keeps the slot table and the UAV list
//! consistent: every non-zero slot names exactly one live UAV and every live
//! UAV sits in exactly one slot.

use vstd::prelude::*;

use crate::geom::{Quat, Vec3};
use crate::uav::{state_wf, DroneState};

verus! {

/// One live UAV: identity, configuration tag and the latest kinematic state.
pub struct UavEntry {
    /// Dense id, one-based, never reused.
    pub id: usize,
    /// Unique client-visible name.
    pub name: String,
    /// Drone type tag from the configuration, named for the visualizations.
    pub drone_type: String,
    /// The slot this UAV occupies.
    pub slot: usize,
    /// Latest state pushed by the state listener.
    pub state: DroneState,
}

/// The supervisor: slot table, UAV list, and the next id to hand out.
pub struct Drones {
    /// Fixed-size slot table; an entry is the occupying UAV's id, or zero.
    pub slots: Vec<usize>,
    /// The live UAVs.
    pub uavs: Vec<UavEntry>,
    /// Next id to assign; starts at one and only grows.
    pub next_id: usize,
}

/// Registry invariant: ids are unique, positive and below `next_id`; every
/// UAV's slot holds its id; non-zero slots are pairwise distinct and name a
/// live UAV; and every cached state is well-formed.
pub open spec fn drones_wf(d: Drones) -> bool {
    &&& 1 <= d.next_id
    &&& forall|k1: int, k2: int|
        0 <= k1 < k2 < d.uavs@.len() ==> #[trigger] d.uavs@[k1].id != #[trigger] d.uavs@[k2].id
    &&& forall|k: int| 0 <= k < d.uavs@.len() ==> 0 < #[trigger] d.uavs@[k].id < d.next_id
    &&& forall|k: int|
        0 <= k < d.uavs@.len() ==> #[trigger] d.uavs@[k].slot < d.slots@.len()
            && d.slots@[d.uavs@[k].slot as int] == d.uavs@[k].id
    &&& forall|i1: int, i2: int|
        0 <= i1 < i2 < d.slots@.len() && #[trigger] d.slots@[i1] != 0 ==> d.slots@[i1]
            != #[trigger] d.slots@[i2]
    &&& forall|i: int|
        0 <= i < d.slots@.len() && #[trigger] d.slots@[i] != 0 ==> exists|k: int|
            0 <= k < d.uavs@.len() && #[trigger] d.uavs@[k].id == d.slots@[i]
    &&& forall|k: int| 0 <= k < d.uavs@.len() ==> state_wf(#[trigger] d.uavs@[k].state)
}

impl Drones {
    /// An empty registry with `client_limit` slots.
    pub fn new(client_limit: usize) -> (r: Drones)
        ensures
            drones_wf(r),
            r.slots@.len() == client_limit,
            r.uavs@.len() == 0,
            r.next_id == 1,
            forall|i: int| 0 <= i < client_limit ==> #[trigger] r.slots@[i] == 0,
    {
        let mut slots: Vec<usize> = Vec::new();
        let mut i: usize = 0;
        while i < client_limit
            invariant
                i <= client_limit,
                slots@.len() == i,
                forall|j: int| 0 <= j < i ==> #[trigger] slots@[j] == 0,
            decreases client_limit - i,
        {
            slots.push(0);
            i = i + 1;
        }
        Drones { slots, uavs: Vec::new(), next_id: 1 }
    }

    /// Binds `id` to the lowest free slot and returns its index, or `None`
    /// when the table is full.
    fn getSlot(&mut self, id: usize) -> (r: Option<usize>)
        requires
            id != 0,
        ensures
            final(self).uavs == old(self).uavs,
            final(self).next_id == old(self).next_id,
            match r {
                Some(s) => {
                    &&& s < old(self).slots@.len()
                    &&& old(self).slots@[s as int] == 0
                    &&& forall|j: int| 0 <= j < s ==> #[trigger] old(self).slots@[j] != 0
                    &&& final(self).slots@ == old(self).slots@.update(s as int, id)
                },
                None => {
                    &&& final(self).slots == old(self).slots
                    &&& forall|j: int|
                        0 <= j < old(self).slots@.len() ==> #[trigger] old(self).slots@[j] != 0
                },
            },
    {
        let mut i: usize = 0;
        while i < self.slots.len()
            invariant
                i <= self.slots@.len(),
                *self == *old(self),
                forall|j: int| 0 <= j < i ==> #[trigger] self.slots@[j] != 0,
            decreases self.slots@.len() - i,
        {
            if self.slots[i] == 0 {
                self.slots.set(i, id);
                return Some(i);
            }
            i = i + 1;
        }
        None
    }

    /// Zeroes every slot that holds `id` and reports the freed indices.
    fn freeSlot(&mut self, id: usize) -> (freed: Vec<usize>)
        requires
            id != 0,
        ensures
            final(self).uavs == old(self).uavs,
            final(self).next_id == old(self).next_id,
            final(self).slots@.len() == old(self).slots@.len(),
            forall|i: int|
                0 <= i < old(self).slots@.len() ==> #[trigger] final(self).slots@[i] == (if old(
                    self,
                ).slots@[i] == id {
                    0usize
                } else {
                    old(self).slots@[i]
                }),
            forall|k: int|
                0 <= k < freed@.len() ==> old(self).slots@[#[trigger] freed@[k] as int] == id,
            forall|i: int|
                0 <= i < old(self).slots@.len() && #[trigger] old(self).slots@[i] == id
                    ==> freed@.contains(i as usize),
    {
        let mut freed: Vec<usize> = Vec::new();
        let mut i: usize = 0;
        while i < self.slots.len()
            invariant
                i <= self.slots@.len(),
                id != 0,
                self.uavs == old(self).uavs,
                self.next_id == old(self).next_id,
                self.slots@.len() == old(self).slots@.len(),
                forall|j: int|
                    i <= j < old(self).slots@.len() ==> #[trigger] self.slots@[j] == old(
                        self,
                    ).slots@[j],
                forall|j: int|
                    0 <= j < i ==> #[trigger] self.slots@[j] == (if old(self).slots@[j] == id {
                        0usize
                    } else {
                        old(self).slots@[j]
                    }),
                forall|k: int|
                    0 <= k < freed@.len() ==> old(self).slots@[#[trigger] freed@[k] as int] == id,
                forall|j: int|
                    0 <= j < i && #[trigger] old(self).slots@[j] == id ==> freed@.contains(
                        j as usize,
                    ),
            decreases self.slots@.len() - i,
        {
            let ghost pre = freed@;
            let hit = self.slots[i] == id;
            if hit {
                self.slots.set(i, 0);
                freed.push(i);
            }
            proof {
                if hit {
                    assert(freed@[freed@.len() - 1] == i);
                    assert(freed@.contains(i));
                }
                assert forall|j: int|
                    0 <= j < i + 1 && #[trigger] old(self).slots@[j] == id implies freed@.contains(
                    j as usize,
                ) by {
                    if j < i {
                        assert(pre.contains(j as usize));
                        let m0 = choose|m: int| 0 <= m < pre.len() && pre[m] == j as usize;
                        assert(freed@[m0] == j as usize);
                    }
                }
            }
            i = i + 1;
        }
        freed
    }

    /// Starts a UAV: allocates the lowest free slot, assigns the next id,
    /// and records the entry.  Returns id zero, slot zero and an empty
    /// address when the table is full; a real id is never zero.
    pub fn startUAV(&mut self, name: String, drone_type: String) -> (r: (usize, usize))
        requires
            drones_wf(*old(self)),
            old(self).next_id < usize::MAX,
        ensures
            drones_wf(*final(self)),
            r.0 == 0 ==> {
                &&& *final(self) == *old(self)
                &&& forall|j: int|
                    0 <= j < old(self).slots@.len() ==> #[trigger] old(self).slots@[j] != 0
            },
            r.0 != 0 ==> {
                &&& r.0 == old(self).next_id
                &&& final(self).next_id == old(self).next_id + 1
                &&& r.1 < old(self).slots@.len()
                &&& old(self).slots@[r.1 as int] == 0
                &&& forall|j: int| 0 <= j < r.1 ==> #[trigger] old(self).slots@[j] != 0
                &&& final(self).slots@ == old(self).slots@.update(r.1 as int, r.0)
                &&& final(self).uavs@.len() == old(self).uavs@.len() + 1
                &&& final(self).uavs@.drop_last() == old(self).uavs@
                &&& final(self).uavs@.last().id == r.0
                &&& final(self).uavs@.last().name == name
                &&& final(self).uavs@.last().drone_type == drone_type
                &&& final(self).uavs@.last().slot == r.1
            },
    {
        let id = self.next_id;
        let slot = self.getSlot(id);
        match slot {
            None => (0, 0),
            Some(s) => {
                self.next_id = self.next_id + 1;
                let entry = UavEntry { id, name, drone_type, slot: s, state: DroneState::new() };
                self.uavs.push(entry);
                proof {
                    let d = *self;
                    let o = *old(self);
                    assert forall|i: int|
                        0 <= i < d.slots@.len() && #[trigger] d.slots@[i] != 0 implies exists|k: int|
                        0 <= k < d.uavs@.len() && #[trigger] d.uavs@[k].id == d.slots@[i] by {
                        if i == s {
                            assert(d.uavs@[d.uavs@.len() - 1].id == d.slots@[i]);
                        } else {
                            assert(o.slots@[i] == d.slots@[i]);
                            let k0 = choose|k: int|
                                0 <= k < o.uavs@.len() && #[trigger] o.uavs@[k].id == o.slots@[i];
                            assert(d.uavs@[k0].id == d.slots@[i]);
                        }
                    }
                    assert(d.uavs@.drop_last() =~= o.uavs@);
                }
                (id, s)
            },
        }
    }

    /// Removes the UAV with `id`: frees its slots and drops it from the
    /// list.  Ids are unique, so at most one entry goes; removing an absent
    /// id changes nothing.
    #[verifier::rlimit(100)]
    pub fn removeUAV(&mut self, id: usize) -> (freed: Vec<usize>)
        requires
            drones_wf(*old(self)),
            id != 0,
        ensures
            drones_wf(*final(self)),
            final(self).next_id == old(self).next_id,
            final(self).uavs@.len() <= old(self).uavs@.len(),
            forall|m: int|
                0 <= m < final(self).uavs@.len() ==> #[trigger] final(self).uavs@[m].id != id,
            final(self).slots@.len() == old(self).slots@.len(),
            forall|i: int|
                0 <= i < old(self).slots@.len() ==> #[trigger] final(self).slots@[i] == (if old(
                    self,
                ).slots@[i] == id {
                    0usize
                } else {
                    old(self).slots@[i]
                }),
            forall|k: int|
                0 <= k < freed@.len() ==> old(self).slots@[#[trigger] freed@[k] as int] == id,
            forall|i: int|
                0 <= i < old(self).slots@.len() && #[trigger] old(self).slots@[i] == id
                    ==> freed@.contains(i as usize),
    {
        let ghost o = *old(self);
        let found = self.find(id);
        let freed = self.freeSlot(id);
        match found {
            None => {
                proof {
                    assert forall|i: int|
                        0 <= i < self.slots@.len() && #[trigger] self.slots@[i] != 0 implies exists|
                        k: int,
                    |
                        0 <= k < self.uavs@.len() && #[trigger] self.uavs@[k].id
                            == self.slots@[i] by {
                        let k0 = choose|k: int|
                            0 <= k < o.uavs@.len() && #[trigger] o.uavs@[k].id == o.slots@[i];
                        assert(self.uavs@[k0].id == self.slots@[i]);
                    }
                }
                freed
            },
            Some(k) => {
                let _ = self.uavs.remove(k);
                proof {
                    let d = *self;
                    assert forall|m: int| 0 <= m < d.uavs@.len() implies #[trigger] d.uavs@[m].id
                        != id by {
                        if m < k {
                            assert(d.uavs@[m] == o.uavs@[m]);
                            assert(o.uavs@[m].id != o.uavs@[k as int].id);
                        } else {
                            assert(d.uavs@[m] == o.uavs@[m + 1]);
                            assert(o.uavs@[k as int].id != o.uavs@[m + 1].id);
                        }
                    }
                    assert forall|i: int|
                        0 <= i < d.slots@.len() && #[trigger] d.slots@[i] != 0 implies exists|
                        k2: int,
                    |
                        0 <= k2 < d.uavs@.len() && #[trigger] d.uavs@[k2].id == d.slots@[i] by {
                        let k0 = choose|k2: int|
                            0 <= k2 < o.uavs@.len() && #[trigger] o.uavs@[k2].id == o.slots@[i];
                        assert(o.uavs@[k0].id != id);
                        if k0 < k {
                            assert(d.uavs@[k0].id == d.slots@[i]);
                        } else {
                            assert(k0 != k);
                            assert(d.uavs@[k0 - 1].id == d.slots@[i]);
                        }
                    }
                }
                freed
            },
        }
    }

    /// Moves the entry at `k` out of the list by swapping a placeholder in;
    /// only used while rebuilding the list.
    fn take_entry(&mut self, k: usize) -> (e: UavEntry)
        requires
            k < old(self).uavs@.len(),
        ensures
            e == old(self).uavs@[k as int],
            final(self).slots == old(self).slots,
            final(self).next_id == old(self).next_id,
            final(self).uavs@.len() == old(self).uavs@.len(),
            forall|j: int|
                0 <= j < old(self).uavs@.len() && j != k ==> #[trigger] final(self).uavs@[j] == old(
                    self,
                ).uavs@[j],
    {
        let placeholder = UavEntry {
            id: 0,
            name: String::new(),
            drone_type: String::new(),
            slot: 0,
            state: DroneState::new(),
        };
        let ghost ph = placeholder;
        let e = self.uavs.remove(k);
        self.uavs.insert(k, placeholder);
        proof {
            assert(self.uavs@ =~= old(self).uavs@.update(k as int, ph));
        }
        e
    }

    /// Removes every UAV and clears the slot table.
    pub fn removeAllUAV(&mut self)
        requires
            drones_wf(*old(self)),
        ensures
            drones_wf(*final(self)),
            final(self).uavs@.len() == 0,
            final(self).next_id == old(self).next_id,
            final(self).slots@.len() == old(self).slots@.len(),
            forall|i: int|
                0 <= i < final(self).slots@.len() ==> #[trigger] final(self).slots@[i] == 0,
    {
        self.uavs = Vec::new();
        let n = self.slots.len();
        let mut i: usize = 0;
        while i < n
            invariant
                i <= n,
                n == self.slots@.len(),
                self.uavs@.len() == 0,
                self.next_id == old(self).next_id,
                drones_wf(*old(self)),
                1 <= self.next_id,
                forall|j: int| 0 <= j < i ==> #[trigger] self.slots@[j] == 0,
            decreases n - i,
        {
            self.slots.set(i, 0);
            i = i + 1;
        }
    }

    /// Index of the UAV with `id`, if it is live.
    pub fn find(&self, id: usize) -> (r: Option<usize>)
        requires
            drones_wf(*self),
        ensures
            match r {
                Some(k) => k < self.uavs@.len() && self.uavs@[k as int].id == id,
                None => forall|k: int|
                    0 <= k < self.uavs@.len() ==> #[trigger] self.uavs@[k].id != id,
            },
    {
        let mut k: usize = 0;
        while k < self.uavs.len()
            invariant
                k <= self.uavs@.len(),
                forall|j: int| 0 <= j < k ==> #[trigger] self.uavs@[j].id != id,
            decreases self.uavs@.len() - k,
        {
            if self.uavs[k].id == id {
                return Some(k);
            }
            k = k + 1;
        }
        None
    }

    /// Replaces the cached state of the UAV with `id`; no effect when the
    /// UAV is gone.
    pub fn updateState(&mut self, id: usize, st: DroneState)
        requires
            drones_wf(*old(self)),
            state_wf(st),
        ensures
            drones_wf(*final(self)),
            final(self).slots == old(self).slots,
            final(self).next_id == old(self).next_id,
            final(self).uavs@.len() == old(self).uavs@.len(),
            forall|k: int|
                0 <= k < old(self).uavs@.len() ==> {
                    let o = #[trigger] old(self).uavs@[k];
                    let n = final(self).uavs@[k];
                    &&& n.id == o.id
                    &&& n.name == o.name
                    &&& n.drone_type == o.drone_type
                    &&& n.slot == o.slot
                    &&& n.state == (if o.id == id {
                        st
                    } else {
                        o.state
                    })
                },
    {
        let r = self.find(id);
        match r {
            None => {
                proof {
                    assert(final(self).uavs@ =~= old(self).uavs@);
                }
            },
            Some(k) => {
                let e = self.take_entry(k);
                let e2 = UavEntry {
                    id: e.id,
                    name: e.name,
                    drone_type: e.drone_type,
                    slot: e.slot,
                    state: st,
                };
                let _ = self.uavs.remove(k);
                self.uavs.insert(k, e2);
                proof {
                    let d = *self;
                    let o = *old(self);
                    assert forall|i: int|
                        0 <= i < d.slots@.len() && #[trigger] d.slots@[i] != 0 implies exists|
                        j: int,
                    |
                        0 <= j < d.uavs@.len() && #[trigger] d.uavs@[j].id == d.slots@[i] by {
                        let k0 = choose|j: int|
                            0 <= j < o.uavs@.len() && #[trigger] o.uavs@[j].id == o.slots@[i];
                        assert(d.uavs@[k0].id == d.slots@[i]);
                    }
                }
            },
        }
    }

    /// Snapshot of `(id, position)` for every live UAV.
    pub fn getPositions(&self) -> (r: Vec<(usize, Vec3)>)
        requires
            drones_wf(*self),
        ensures
            r@.len() == self.uavs@.len(),
            forall|k: int|
                0 <= k < r@.len() ==> {
                    let u = #[trigger] self.uavs@[k];
                    let p = r@[k];
                    &&& p.0 == u.id
                    &&& p.1.x == u.state.pos@[0]
                    &&& p.1.y == u.state.pos@[1]
                    &&& p.1.z == u.state.pos@[2]
                },
    {
        let mut out: Vec<(usize, Vec3)> = Vec::new();
        let mut k: usize = 0;
        while k < self.uavs.len()
            invariant
                k <= self.uavs@.len(),
                drones_wf(*self),
                out@.len() == k,
                forall|j: int|
                    0 <= j < k ==> {
                        let u = #[trigger] self.uavs@[j];
                        let p = out@[j];
                        &&& p.0 == u.id
                        &&& p.1.x == u.state.pos@[0]
                        &&& p.1.y == u.state.pos@[1]
                        &&& p.1.z == u.state.pos@[2]
                    },
            decreases self.uavs@.len() - k,
        {
            let u = &self.uavs[k];
            let p = u.state.getPos3();
            out.push((u.id, p));
            k = k + 1;
        }
        out
    }

    /// Snapshot of `(id, position, orientation, velocity, angular velocity)`
    /// for every live UAV.
    pub fn getPosOriVels(&self) -> (r: Vec<(usize, Vec3, Quat, Vec3, Vec3)>)
        requires
            drones_wf(*self),
        ensures
            r@.len() == self.uavs@.len(),
            forall|k: int|
                0 <= k < r@.len() ==> {
                    let u = #[trigger] self.uavs@[k];
                    let p = r@[k];
                    &&& p.0 == u.id
                    &&& p.1.x == u.state.pos@[0]
                    &&& p.1.y == u.state.pos@[1]
                    &&& p.1.z == u.state.pos@[2]
                    &&& p.2.w == u.state.pos@[3]
                    &&& p.2.x == u.state.pos@[4]
                    &&& p.2.y == u.state.pos@[5]
                    &&& p.2.z == u.state.pos@[6]
                    &&& p.3.x == u.state.vel@[0]
                    &&& p.3.y == u.state.vel@[1]
                    &&& p.3.z == u.state.vel@[2]
                    &&& p.4.x == u.state.vel@[3]
                    &&& p.4.y == u.state.vel@[4]
                    &&& p.4.z == u.state.vel@[5]
                },
    {
        let mut out: Vec<(usize, Vec3, Quat, Vec3, Vec3)> = Vec::new();
        let mut k: usize = 0;
        while k < self.uavs.len()
            invariant
                k <= self.uavs@.len(),
                drones_wf(*self),
                out@.len() == k,
                forall|j: int|
                    0 <= j < k ==> {
                        let u = #[trigger] self.uavs@[j];
                        let p = out@[j];
                        &&& p.0 == u.id
                        &&& p.1.x == u.state.pos@[0]
                        &&& p.1.y == u.state.pos@[1]
                        &&& p.1.z == u.state.pos@[2]
                        &&& p.2.w == u.state.pos@[3]
                        &&& p.2.x == u.state.pos@[4]
                        &&& p.2.y == u.state.pos@[5]
                        &&& p.2.z == u.state.pos@[6]
                        &&& p.3.x == u.state.vel@[0]
                        &&& p.3.y == u.state.vel@[1]
                        &&& p.3.z == u.state.vel@[2]
                        &&& p.4.x == u.state.vel@[3]
                        &&& p.4.y == u.state.vel@[4]
                        &&& p.4.z == u.state.vel@[5]
                    },
            decreases self.uavs@.len() - k,
        {
            let u = &self.uavs[k];
            let p = u.state.getPos3();
            let q = u.state.getOri();
            let v = u.state.getVel();
            let w = u.state.getAngVel();
            out.push((u.id, p, q, v, w));
            k = k + 1;
        }
        out
    }

    /// Serializes every live UAV for the state publisher: one frame of
    /// `id,<state>;` records, or a single semicolon when no UAV lives.
    pub fn stateFrame(&self) -> (r: Vec<u8>)
        requires
            drones_wf(*self),
        ensures
            self.uavs@.len() == 0 ==> r@ == seq![59u8],
            self.uavs@.len() > 0 ==> r@ == spec_state_frame(self.uavs@),
    {
        if self.uavs.len() == 0 {
            let mut out: Vec<u8> = Vec::new();
            out.push(59);
            proof {
                assert(out@ =~= seq![59u8]);
            }
            return out;
        }
        let mut out: Vec<u8> = Vec::new();
        let mut k: usize = 0;
        proof {
            assert(self.uavs@.skip(0) =~= self.uavs@);
        }
        while k < self.uavs.len()
            invariant
                drones_wf(*self),
                k <= self.uavs@.len(),
                spec_state_frame(self.uavs@) == out@ + spec_state_frame(
                    self.uavs@.skip(k as int),
                ),
            decreases self.uavs@.len() - k,
        {
            proof {
                assert(self.uavs@.skip(k as int)[0] == self.uavs@[k as int]);
                assert(self.uavs@.skip(k as int).drop_first() =~= self.uavs@.skip(k as int + 1));
            }
            let ghost pre = out@;
            let u = &self.uavs[k];
            let mut id_text = crate::text::fmt_u64(u.id as u64);
            out.append(&mut id_text);
            out.push(44);
            let mut record = u.state.to_wire();
            out.append(&mut record);
            out.push(59);
            proof {
                assert(out@ =~= pre + crate::text::dec_digits(self.uavs@[k as int].id as nat)
                    + seq![44u8] + crate::uav::spec_state_wire(self.uavs@[k as int].state)
                    + seq![59u8]);
                assert(out@ + spec_state_frame(self.uavs@.skip(k as int + 1)) =~= pre
                    + spec_state_frame(self.uavs@.skip(k as int)));
            }
            k = k + 1;
        }
        proof {
            assert(self.uavs@.skip(self.uavs@.len() as int) =~= Seq::<UavEntry>::empty());
            assert(out@ + Seq::<u8>::empty() =~= out@);
        }
        out
    }

    /// Types of the live UAVs, in registry order.
    pub fn getTypes(&self) -> (r: Vec<String>)
        ensures
            r@.len() == self.uavs@.len(),
            forall|k: int| 0 <= k < r@.len() ==> #[trigger] r@[k]@ == self.uavs@[k].drone_type@,
    {
        let mut out: Vec<String> = Vec::new();
        let mut k: usize = 0;
        while k < self.uavs.len()
            invariant
                k <= self.uavs@.len(),
                out@.len() == k,
                forall|j: int| 0 <= j < k ==> #[trigger] out@[j]@ == self.uavs@[j].drone_type@,
            decreases self.uavs@.len() - k,
        {
            out.push(self.uavs[k].drone_type.clone());
            k = k + 1;
        }
        out
    }
}

/// One entry of the type-summary frame.
pub open spec fn spec_type_entry(id: int, t: Seq<u8>) -> Seq<u8> {
    crate::text::dec_digits(id as nat) + seq![44u8] + t + seq![59u8]
}

/// The type-summary body: one entry per UAV.
pub open spec fn spec_type_entries(pairs: Seq<(usize, Seq<u8>)>) -> Seq<u8>
    decreases pairs.len(),
{
    if pairs.len() == 0 {
        Seq::empty()
    } else {
        spec_type_entry(pairs[0].0 as int, pairs[0].1) + spec_type_entries(pairs.drop_first())
    }
}

/// Builds the periodic `t:` type summary from id and type-text pairs.
pub fn typesFrame(pairs: &Vec<(usize, Vec<u8>)>) -> (r: Vec<u8>)
    ensures
        r@ == seq![116u8, 58u8] + spec_type_entries(
            pairs@.map_values(|p: (usize, Vec<u8>)| (p.0, p.1@)),
        ),
{
    let ghost gp = pairs@.map_values(|p: (usize, Vec<u8>)| (p.0, p.1@));
    let mut out: Vec<u8> = Vec::new();
    out.push(116);
    out.push(58);
    let ghost head = out@;
    proof {
        assert(head =~= seq![116u8, 58u8]);
        assert(gp.skip(0) =~= gp);
    }
    let mut k: usize = 0;
    while k < pairs.len()
        invariant
            k <= pairs@.len(),
            gp == pairs@.map_values(|p: (usize, Vec<u8>)| (p.0, p.1@)),
            head == seq![116u8, 58u8],
            head + spec_type_entries(gp) == out@ + spec_type_entries(gp.skip(k as int)),
        decreases pairs@.len() - k,
    {
        proof {
            assert(gp[k as int] == (pairs@[k as int].0, pairs@[k as int].1@));
            assert(gp.skip(k as int)[0] == gp[k as int]);
            assert(gp.skip(k as int).drop_first() =~= gp.skip(k as int + 1));
        }
        let ghost pre = out@;
        let mut idt = crate::text::fmt_u64(pairs[k].0 as u64);
        out.append(&mut idt);
        out.push(44);
        let mut t = crate::clients::copy_bytes(&pairs[k].1);
        out.append(&mut t);
        out.push(59);
        proof {
            assert(out@ =~= pre + spec_type_entry(gp[k as int].0 as int, gp[k as int].1));
            assert(out@ + spec_type_entries(gp.skip(k as int + 1)) =~= pre + spec_type_entries(
                gp.skip(k as int),
            ));
        }
        k = k + 1;
    }
    proof {
        assert(gp.skip(gp.len() as int) =~= Seq::<(usize, Seq<u8>)>::empty());
        assert(out@ + Seq::<u8>::empty() =~= out@);
    }
    out
}

/// The publisher frame of a UAV list: for each UAV in order, its id, a
/// comma, its state record, and a semicolon.
pub open spec fn spec_state_frame(uavs: Seq<UavEntry>) -> Seq<u8>
    decreases uavs.len(),
{
    if uavs.len() == 0 {
        Seq::empty()
    } else {
        crate::text::dec_digits(uavs[0].id as nat) + seq![44u8] + crate::uav::spec_state_wire(
            uavs[0].state,
        ) + seq![59u8] + spec_state_frame(uavs.drop_first())
    }
}

/// The slot table and the UAV list name each other exactly: every non-zero
/// slot holds the id of exactly one live UAV, and every live UAV sits in
/// exactly one slot that holds its id.
pub proof fn lemma_slot_uav_bijection(d: Drones)
    requires
        drones_wf(d),
    ensures
        forall|i: int|
            0 <= i < d.slots@.len() && #[trigger] d.slots@[i] != 0 ==> exists|k: int|
                0 <= k < d.uavs@.len() && #[trigger] d.uavs@[k].id == d.slots@[i],
        forall|k1: int, k2: int|
            0 <= k1 < d.uavs@.len() && 0 <= k2 < d.uavs@.len() && #[trigger] d.uavs@[k1].id
                == #[trigger] d.uavs@[k2].id ==> k1 == k2,
        forall|k: int|
            0 <= k < d.uavs@.len() ==> #[trigger] d.uavs@[k].slot < d.slots@.len()
                && d.slots@[d.uavs@[k].slot as int] == d.uavs@[k].id,
        forall|k: int, i1: int, i2: int|
            #![trigger d.uavs@[k], d.slots@[i1], d.slots@[i2]]
            0 <= k < d.uavs@.len() && 0 <= i1 < d.slots@.len() && 0 <= i2 < d.slots@.len()
                && d.slots@[i1] == d.uavs@[k].id && d.slots@[i2] == d.uavs@[k].id ==> i1 == i2,
{
    assert forall|k1: int, k2: int|
        0 <= k1 < d.uavs@.len() && 0 <= k2 < d.uavs@.len() && d.uavs@[k1].id == d.uavs@[k2].id
        implies k1 == k2 by {
        if k1 < k2 {
            assert(d.uavs@[k1].id != d.uavs@[k2].id);
        } else if k2 < k1 {
            assert(d.uavs@[k2].id != d.uavs@[k1].id);
        }
    }
    assert forall|k: int, i1: int, i2: int|
        #![trigger d.uavs@[k], d.slots@[i1], d.slots@[i2]]
        0 <= k < d.uavs@.len() && 0 <= i1 < d.slots@.len() && 0 <= i2 < d.slots@.len()
            && d.slots@[i1] == d.uavs@[k].id && d.slots@[i2] == d.uavs@[k].id implies i1 == i2 by {
        assert(d.uavs@[k].id != 0);
        if i1 < i2 {
            assert(d.slots@[i1] != d.slots@[i2]);
        } else if i2 < i1 {
            assert(d.slots@[i2] != d.slots@[i1]);
        }
    }
}

} // verus!
