//! Cached kinematic state of one UAV and its wire form.
//!
//! The physics child publishes time, pose, velocities and rotor speeds; the
//! aggregator caches them here and serializes every UAV as one
//! comma-separated record for the state publisher.  Parsing follows the same
//! grammar the per-topic state listener uses, so a serialized record reads
//! back field for field.

use vstd::prelude::*;

use crate::fixed::fix_in_range;
use crate::geom::{Quat, Vec3};
use crate::text::{
    fix_text, fmt_fix, join_bytes, lemma_fix_text_bytes, lemma_parse_of_fmt_fix,
    lemma_split_of_join, parse_fix, spec_join, spec_parse_fix, spec_split, split_bytes,
};

verus! {

/// Field separator of a state record.
pub const COMMA: u8 = 44;

/// Time, pose (position and orientation quaternion), linear and angular
/// velocity, and rotor speeds, all in fixed point.
#[derive(Clone, Debug)]
pub struct DroneState {
    /// Simulation time in seconds.
    pub time: i64,
    /// Seven pose entries: position `x y z`, then quaternion `w x y z`.
    pub pos: Vec<i64>,
    /// Six velocity entries: linear `x y z`, then angular `x y z`.
    pub vel: Vec<i64>,
    /// Rotor speeds, one per rotor; the count varies with the drone type.
    pub om: Vec<i64>,
}

/// Well-formed state: the fixed layout and every scalar in range.
pub open spec fn state_wf(s: DroneState) -> bool {
    &&& s.pos@.len() == 7
    &&& s.vel@.len() == 6
    &&& fix_in_range(s.time as int)
    &&& forall|i: int| 0 <= i < 7 ==> fix_in_range(#[trigger] s.pos@[i] as int)
    &&& forall|i: int| 0 <= i < 6 ==> fix_in_range(#[trigger] s.vel@[i] as int)
    &&& forall|i: int| 0 <= i < s.om@.len() ==> fix_in_range(#[trigger] s.om@[i] as int)
}

/// The record's scalar fields in wire order.
pub open spec fn state_fields(s: DroneState) -> Seq<int> {
    seq![s.time as int] + s.pos@.map_values(|v: i64| v as int) + s.vel@.map_values(
        |v: i64| v as int,
    ) + s.om@.map_values(|v: i64| v as int)
}

/// The wire record: the fields formatted and joined with commas.
pub open spec fn spec_state_wire(s: DroneState) -> Seq<u8> {
    spec_join(state_fields(s).map_values(|v: int| fix_text(v)), COMMA)
}

impl DroneState {
    /// A fresh state: everything zero, no rotor speeds yet.
    pub fn new() -> (r: DroneState)
        ensures
            state_wf(r),
            r.time == 0,
            forall|i: int| 0 <= i < 7 ==> #[trigger] r.pos@[i] == 0,
            forall|i: int| 0 <= i < 6 ==> #[trigger] r.vel@[i] == 0,
            r.om@.len() == 0,
    {
        let mut pos: Vec<i64> = Vec::new();
        let mut k: usize = 0;
        while k < 7
            invariant
                pos@.len() == k,
                k <= 7,
                forall|i: int| 0 <= i < k ==> #[trigger] pos@[i] == 0,
            decreases 7 - k,
        {
            pos.push(0);
            k = k + 1;
        }
        let mut vel: Vec<i64> = Vec::new();
        let mut k2: usize = 0;
        while k2 < 6
            invariant
                vel@.len() == k2,
                k2 <= 6,
                forall|i: int| 0 <= i < k2 ==> #[trigger] vel@[i] == 0,
            decreases 6 - k2,
        {
            vel.push(0);
            k2 = k2 + 1;
        }
        DroneState { time: 0, pos, vel, om: Vec::new() }
    }

    /// Position: the first three pose entries.
    pub fn getPos3(&self) -> (r: Vec3)
        requires
            state_wf(*self),
        ensures
            r.x == self.pos@[0],
            r.y == self.pos@[1],
            r.z == self.pos@[2],
            crate::geom::vec3_in_range(r),
    {
        Vec3 { x: self.pos[0], y: self.pos[1], z: self.pos[2] }
    }

    /// Orientation: the last four pose entries as `(w, x, y, z)`.
    pub fn getOri(&self) -> (r: Quat)
        requires
            state_wf(*self),
        ensures
            r.w == self.pos@[3],
            r.x == self.pos@[4],
            r.y == self.pos@[5],
            r.z == self.pos@[6],
    {
        Quat { w: self.pos[3], x: self.pos[4], y: self.pos[5], z: self.pos[6] }
    }

    /// Linear velocity: the first three velocity entries.
    pub fn getVel(&self) -> (r: Vec3)
        requires
            state_wf(*self),
        ensures
            r.x == self.vel@[0],
            r.y == self.vel@[1],
            r.z == self.vel@[2],
            crate::geom::vec3_in_range(r),
    {
        Vec3 { x: self.vel[0], y: self.vel[1], z: self.vel[2] }
    }

    /// Angular velocity: the last three velocity entries.
    pub fn getAngVel(&self) -> (r: Vec3)
        requires
            state_wf(*self),
        ensures
            r.x == self.vel@[3],
            r.y == self.vel@[4],
            r.z == self.vel@[5],
            crate::geom::vec3_in_range(r),
    {
        Vec3 { x: self.vel[3], y: self.vel[4], z: self.vel[5] }
    }

    /// All scalar fields in wire order.
    pub fn field_vec(&self) -> (r: Vec<i64>)
        ensures
            r@.map_values(|v: i64| v as int) == state_fields(*self),
    {
        let mut out: Vec<i64> = Vec::new();
        out.push(self.time);
        let mut i: usize = 0;
        while i < self.pos.len()
            invariant
                i <= self.pos@.len(),
                out@ == seq![self.time] + self.pos@.take(i as int),
            decreases self.pos@.len() - i,
        {
            out.push(self.pos[i]);
            proof {
                assert(out@ =~= seq![self.time] + self.pos@.take(i + 1));
            }
            i = i + 1;
        }
        let mut j: usize = 0;
        while j < self.vel.len()
            invariant
                j <= self.vel@.len(),
                out@ == seq![self.time] + self.pos@ + self.vel@.take(j as int),
            decreases self.vel@.len() - j,
        {
            proof {
                assert(self.pos@.take(self.pos@.len() as int) =~= self.pos@);
            }
            out.push(self.vel[j]);
            proof {
                assert(out@ =~= seq![self.time] + self.pos@ + self.vel@.take(j + 1));
            }
            j = j + 1;
        }
        let mut k: usize = 0;
        while k < self.om.len()
            invariant
                k <= self.om@.len(),
                out@ == seq![self.time] + self.pos@ + self.vel@ + self.om@.take(k as int),
            decreases self.om@.len() - k,
        {
            out.push(self.om[k]);
            proof {
                assert(out@ =~= seq![self.time] + self.pos@ + self.vel@ + self.om@.take(k + 1));
            }
            k = k + 1;
        }
        proof {
            assert(out@ =~= seq![self.time] + self.pos@ + self.vel@ + self.om@);
            assert(out@.map_values(|v: i64| v as int) =~= state_fields(*self));
        }
        out
    }

    /// Every field of a well-formed state is in range.
    pub proof fn lemma_fields_in_range(s: DroneState)
        requires
            state_wf(s),
        ensures
            forall|i: int|
                0 <= i < state_fields(s).len() ==> fix_in_range(#[trigger] state_fields(s)[i]),
    {
        let gf = state_fields(s);
        assert forall|i: int| 0 <= i < gf.len() implies fix_in_range(#[trigger] gf[i]) by {
            if i == 0 {
            } else if i < 8 {
                assert(gf[i] == s.pos@[i - 1] as int);
            } else if i < 14 {
                assert(gf[i] == s.vel@[i - 8] as int);
            } else {
                assert(gf[i] == s.om@[i - 14] as int);
            }
        }
    }

    /// Serializes the record for the state publisher.
    pub fn to_wire(&self) -> (r: Vec<u8>)
        requires
            state_wf(*self),
        ensures
            r@ == spec_state_wire(*self),
    {
        let fields = self.field_vec();
        let ghost gf = state_fields(*self);
        let mut parts: Vec<Vec<u8>> = Vec::new();
        let mut i: usize = 0;
        while i < fields.len()
            invariant
                i <= fields@.len(),
                fields@.map_values(|v: i64| v as int) == gf,
                gf == state_fields(*self),
                state_wf(*self),
                parts@.len() == i,
                forall|j: int| 0 <= j < i ==> #[trigger] parts@[j]@ == fix_text(gf[j]),
            decreases fields@.len() - i,
        {
            proof {
                DroneState::lemma_fields_in_range(*self);
                assert(fields@.map_values(|v: i64| v as int)[i as int] == gf[i as int]);
            }
            let t = fmt_fix(fields[i]);
            parts.push(t);
            i = i + 1;
        }
        proof {
            assert(fields@.map_values(|v: i64| v as int).len() == gf.len());
            assert(parts@.map_values(|v: Vec<u8>| v@) =~= gf.map_values(|v: int| fix_text(v)));
        }
        join_bytes(&parts, COMMA)
    }

    /// Parses a record back into a state.  The record must hold at least the
    /// fourteen fixed fields; everything beyond them is a rotor speed.
    pub fn from_wire(s: &[u8]) -> (r: Option<DroneState>)
        ensures
            match r {
                Some(st) => {
                    let parts = spec_split(s@, COMMA);
                    &&& parts.len() >= 14
                    &&& st.pos@.len() == 7
                    &&& st.vel@.len() == 6
                    &&& state_fields(st).len() == parts.len()
                    &&& forall|i: int|
                        0 <= i < parts.len() ==> spec_parse_fix(#[trigger] parts[i]) == Some(
                            state_fields(st)[i],
                        )
                    &&& state_wf(st)
                },
                None => {
                    let parts = spec_split(s@, COMMA);
                    parts.len() < 14 || exists|i: int|
                        0 <= i < parts.len() && match spec_parse_fix(#[trigger] parts[i]) {
                            Some(v) => !fix_in_range(v),
                            None => true,
                        }
                },
            },
    {
        let parts = split_bytes(s, COMMA);
        let ghost gp = spec_split(s@, COMMA);
        if parts.len() < 14 {
            return None;
        }
        let mut vals: Vec<i64> = Vec::new();
        let mut i: usize = 0;
        while i < parts.len()
            invariant
                i <= parts@.len(),
                parts@.map_values(|v: Vec<u8>| v@) == gp,
                gp == spec_split(s@, COMMA),
                gp.len() >= 14,
                vals@.len() == i,
                forall|k: int|
                    0 <= k < i ==> spec_parse_fix(#[trigger] gp[k]) == Some(vals@[k] as int),
                forall|k: int| 0 <= k < i ==> fix_in_range(#[trigger] vals@[k] as int),
            decreases parts@.len() - i,
        {
            proof {
                assert(parts@[i as int]@ == gp[i as int]);
            }
            match parse_fix(parts[i].as_slice()) {
                Some(v) => {
                    vals.push(v);
                },
                None => {
                    proof {
                        assert(match spec_parse_fix(gp[i as int]) {
                            Some(v) => !fix_in_range(v),
                            None => true,
                        });
                    }
                    return None;
                },
            }
            i = i + 1;
        }
        let time = vals[0];
        let mut pos: Vec<i64> = Vec::new();
        let mut k: usize = 1;
        while k < 8
            invariant
                1 <= k <= 8,
                vals@.len() >= 14,
                pos@ == vals@.subrange(1, k as int),
            decreases 8 - k,
        {
            pos.push(vals[k]);
            proof {
                assert(pos@ =~= vals@.subrange(1, k + 1));
            }
            k = k + 1;
        }
        let mut vel: Vec<i64> = Vec::new();
        let mut k2: usize = 8;
        while k2 < 14
            invariant
                8 <= k2 <= 14,
                vals@.len() >= 14,
                vel@ == vals@.subrange(8, k2 as int),
            decreases 14 - k2,
        {
            vel.push(vals[k2]);
            proof {
                assert(vel@ =~= vals@.subrange(8, k2 + 1));
            }
            k2 = k2 + 1;
        }
        let mut om: Vec<i64> = Vec::new();
        let mut k3: usize = 14;
        while k3 < vals.len()
            invariant
                14 <= k3 <= vals@.len(),
                om@ == vals@.subrange(14, k3 as int),
            decreases vals@.len() - k3,
        {
            om.push(vals[k3]);
            proof {
                assert(om@ =~= vals@.subrange(14, k3 + 1));
            }
            k3 = k3 + 1;
        }
        let st = DroneState { time, pos, vel, om };
        proof {
            assert(om@ =~= vals@.subrange(14, vals@.len() as int));
            assert(state_fields(st) =~= vals@.map_values(|v: i64| v as int));
            assert(state_wf(st)) by {
                assert forall|i: int| 0 <= i < 7 implies fix_in_range(
                    #[trigger] st.pos@[i] as int,
                ) by {
                    assert(st.pos@[i] == vals@[i + 1]);
                }
                assert forall|i: int| 0 <= i < 6 implies fix_in_range(
                    #[trigger] st.vel@[i] as int,
                ) by {
                    assert(st.vel@[i] == vals@[i + 8]);
                }
                assert forall|i: int| 0 <= i < st.om@.len() implies fix_in_range(
                    #[trigger] st.om@[i] as int,
                ) by {
                    assert(st.om@[i] == vals@[i + 14]);
                }
            }
            assert forall|i: int| 0 <= i < gp.len() implies spec_parse_fix(#[trigger] gp[i])
                == Some(state_fields(st)[i]) by {
                assert(state_fields(st)[i] == vals@[i] as int);
            }
        }
        Some(st)
    }
}

/// The comma-separated parts of a topic message after its prefix; a
/// message shorter than the prefix has the parts of the empty string.
pub open spec fn spec_topic_parts(msg: Seq<u8>, start: int) -> Seq<Seq<u8>> {
    spec_split(
        if start <= msg.len() {
            msg.skip(start)
        } else {
            Seq::<u8>::empty()
        },
        COMMA,
    )
}

/// One field of a topic message: the parsed scalar, or minus one whole
/// unit when the field is missing or malformed, the placeholder the state
/// listener leaves in place.
pub open spec fn spec_topic_field(parts: Seq<Seq<u8>>, i: int) -> i64 {
    if 0 <= i < parts.len() {
        match spec_parse_fix(parts[i]) {
            Some(v) => if crate::fixed::fix_in_range(v) {
                v as i64
            } else {
                (-1_000_000) as i64
            },
            None => (-1_000_000) as i64,
        }
    } else {
        (-1_000_000) as i64
    }
}

/// Parses `count` comma-separated scalars of a topic message, skipping the
/// topic prefix of `start` bytes.  Every slot that cannot be read stays at
/// minus one whole unit.
pub fn parse_topic_fields(msg: &[u8], start: usize, count: usize) -> (r: Vec<i64>)
    requires
        count <= 64,
    ensures
        r@.len() == count,
        forall|i: int|
            0 <= i < count ==> #[trigger] r@[i] == spec_topic_field(
                spec_topic_parts(msg@, start as int),
                i,
            ),
        forall|i: int| 0 <= i < count ==> crate::fixed::fix_in_range(#[trigger] r@[i] as int),
{
    let body: &[u8] = if start <= msg.len() {
        vstd::slice::slice_subrange(msg, start, msg.len())
    } else {
        vstd::slice::slice_subrange(msg, 0, 0)
    };
    proof {
        if start <= msg@.len() {
            assert(msg@.subrange(start as int, msg@.len() as int) =~= msg@.skip(start as int));
        } else {
            assert(msg@.subrange(0, 0) =~= Seq::<u8>::empty());
        }
    }
    let parts = split_bytes(body, COMMA);
    let ghost gp = spec_split(body@, COMMA);
    let mut out: Vec<i64> = Vec::new();
    let mut i: usize = 0;
    while i < count
        invariant
            count <= 64,
            i <= count,
            parts@.map_values(|v: Vec<u8>| v@) == gp,
            out@.len() == i,
            forall|j: int| 0 <= j < i ==> #[trigger] out@[j] == spec_topic_field(gp, j),
            forall|j: int| 0 <= j < i ==> crate::fixed::fix_in_range(#[trigger] out@[j] as int),
        decreases count - i,
    {
        if i < parts.len() {
            proof {
                assert(parts@.map_values(|v: Vec<u8>| v@)[i as int] == parts@[i as int]@);
            }
            let parsed = parse_fix(parts[i].as_slice());
            match parsed {
                Some(v) => {
                    out.push(v);
                },
                None => {
                    out.push(-1_000_000);
                },
            }
        } else {
            out.push(-1_000_000);
        }
        i = i + 1;
    }
    out
}

/// The rotor speeds in a rotor topic: every comma field that reads as an
/// in-range scalar, in order; unreadable fields are skipped.
pub open spec fn spec_rotors(parts: Seq<Seq<u8>>) -> Seq<i64>
    decreases parts.len(),
{
    if parts.len() == 0 {
        Seq::empty()
    } else {
        (match spec_parse_fix(parts[0]) {
            Some(v) => if crate::fixed::fix_in_range(v) {
                seq![v as i64]
            } else {
                Seq::<i64>::empty()
            },
            None => Seq::<i64>::empty(),
        }) + spec_rotors(parts.drop_first())
    }
}

/// Parses a rotor topic: the fields after the `start`-byte prefix that
/// read as scalars, in order.
pub fn parse_rotor_fields(msg: &[u8], start: usize) -> (r: Vec<i64>)
    ensures
        r@ == spec_rotors(spec_topic_parts(msg@, start as int)),
        forall|i: int|
            0 <= i < r@.len() ==> crate::fixed::fix_in_range(#[trigger] r@[i] as int),
{
    let body: &[u8] = if start <= msg.len() {
        vstd::slice::slice_subrange(msg, start, msg.len())
    } else {
        vstd::slice::slice_subrange(msg, 0, 0)
    };
    proof {
        if start <= msg@.len() {
            assert(msg@.subrange(start as int, msg@.len() as int) =~= msg@.skip(start as int));
        } else {
            assert(msg@.subrange(0, 0) =~= Seq::<u8>::empty());
        }
    }
    let parts = split_bytes(body, COMMA);
    let ghost gp = spec_split(body@, COMMA);
    let mut out: Vec<i64> = Vec::new();
    let mut i: usize = 0;
    proof {
        assert(gp.skip(0) =~= gp);
    }
    while i < parts.len()
        invariant
            i <= parts@.len(),
            parts@.map_values(|v: Vec<u8>| v@) == gp,
            gp.len() == parts@.len(),
            spec_rotors(gp) == out@ + spec_rotors(gp.skip(i as int)),
            forall|j: int|
                0 <= j < out@.len() ==> crate::fixed::fix_in_range(#[trigger] out@[j] as int),
        decreases parts@.len() - i,
    {
        proof {
            assert(parts@.map_values(|v: Vec<u8>| v@)[i as int] == parts@[i as int]@);
            assert(gp.skip(i as int)[0] == gp[i as int]);
            assert(gp.skip(i as int).drop_first() =~= gp.skip(i as int + 1));
        }
        let parsed = parse_fix(parts[i].as_slice());
        match parsed {
            Some(v) => {
                out.push(v);
                proof {
                    assert(out@ + spec_rotors(gp.skip(i as int + 1)) =~= out@.drop_last() + (seq![
                        v,
                    ] + spec_rotors(gp.skip(i as int + 1))));
                }
            },
            None => {
                proof {
                    assert(out@ + spec_rotors(gp.skip(i as int + 1)) =~= out@ + (
                    Seq::<i64>::empty() + spec_rotors(gp.skip(i as int + 1))));
                }
            },
        }
        i = i + 1;
    }
    proof {
        assert(gp.skip(gp.len() as int) =~= Seq::<Seq<u8>>::empty());
        assert(out@ + Seq::<i64>::empty() =~= out@);
    }
    out
}

/// The four state topics the physics child publishes.
pub enum StateTopic {
    /// Simulation time, one scalar after `t:`.
    Time,
    /// Pose, seven scalars after `pos:`.
    Pose,
    /// Velocities, six scalars after `vn:`.
    Velocity,
    /// Rotor speeds, all scalars after `om:`.
    Rotors,
}

impl DroneState {
    /// Folds one topic message into the cached state, with the listener's
    /// rules: time replaces the time, pose and velocity messages replace
    /// their seven and six fields, and a rotor message replaces the whole
    /// rotor list with every field that parses.
    pub fn applyTopic(&mut self, topic: StateTopic, msg: &[u8])
        requires
            state_wf(*old(self)),
        ensures
            state_wf(*final(self)),
            match topic {
                StateTopic::Time => {
                    let parts = spec_topic_parts(msg@, 2);
                    &&& final(self).pos == old(self).pos
                    &&& final(self).vel == old(self).vel
                    &&& final(self).om == old(self).om
                    &&& final(self).time == spec_topic_field(parts, 0)
                },
                StateTopic::Pose => {
                    let parts = spec_topic_parts(msg@, 4);
                    &&& final(self).time == old(self).time
                    &&& final(self).vel == old(self).vel
                    &&& final(self).om == old(self).om
                    &&& final(self).pos@.len() == 7
                    &&& forall|i: int|
                        0 <= i < 7 ==> #[trigger] final(self).pos@[i] == spec_topic_field(
                            parts,
                            i,
                        )
                },
                StateTopic::Velocity => {
                    let parts = spec_topic_parts(msg@, 3);
                    &&& final(self).time == old(self).time
                    &&& final(self).pos == old(self).pos
                    &&& final(self).om == old(self).om
                    &&& final(self).vel@.len() == 6
                    &&& forall|i: int|
                        0 <= i < 6 ==> #[trigger] final(self).vel@[i] == spec_topic_field(
                            parts,
                            i,
                        )
                },
                StateTopic::Rotors => {
                    let parts = spec_topic_parts(msg@, 3);
                    &&& final(self).time == old(self).time
                    &&& final(self).pos == old(self).pos
                    &&& final(self).vel == old(self).vel
                    &&& final(self).om@ == spec_rotors(parts)
                },
            },
    {
        match topic {
            StateTopic::Time => {
                let fields = parse_topic_fields(msg, 2, 1);
                self.time = fields[0];
            },
            StateTopic::Pose => {
                let fields = parse_topic_fields(msg, 4, 7);
                self.pos = fields;
            },
            StateTopic::Velocity => {
                let fields = parse_topic_fields(msg, 3, 6);
                self.vel = fields;
            },
            StateTopic::Rotors => {
                let fields = parse_rotor_fields(msg, 3);
                self.om = fields;
            },
        }
    }
}

/// Configured parameters of one cargo or ammunition slot, as far as the
/// launch decision needs them; the model name stays with the caller.
#[derive(Clone, Copy, Debug, PartialEq, Eq, Structural)]
pub struct LaunchSpec {
    /// Rope natural length (cargo only; zero for ammunition).
    pub length: i64,
    /// Rope elasticity.
    pub k: i64,
    /// Rope damping.
    pub b: i64,
    /// Hook or muzzle offset in the body frame.
    pub offset: Vec3,
    /// Body mass.
    pub mass: i64,
    /// Aerodynamic reference area.
    pub cs: i64,
    /// Collision radius.
    pub radius: i64,
}

/// Parameter ranges a launch slot respects.
pub open spec fn launch_spec_wf(p: LaunchSpec) -> bool {
    &&& 0 <= p.length <= crate::fixed::FIX_LIMIT
    &&& 0 <= p.k <= crate::fixed::FIX_LIMIT
    &&& 0 <= p.b <= crate::fixed::FIX_LIMIT
    &&& -crate::cargo::HOOK_LIMIT <= p.offset.x <= crate::cargo::HOOK_LIMIT
    &&& -crate::cargo::HOOK_LIMIT <= p.offset.y <= crate::cargo::HOOK_LIMIT
    &&& -crate::cargo::HOOK_LIMIT <= p.offset.z <= crate::cargo::HOOK_LIMIT
    &&& 0 <= p.mass <= crate::fixed::FIX_LIMIT
    &&& 0 <= p.cs <= crate::fixed::FIX_LIMIT
    &&& 0 <= p.radius <= crate::fixed::FIX_LIMIT
}

/// The world spawn point of a launch: the slot's offset rotated into the
/// world and added to the UAV position.
pub open spec fn spec_spawn_point(pos: Vec3, ori: Quat, offset: Vec3) -> Vec3 {
    let rot = crate::geom::spec_quat_to_rot(ori);
    Vec3 {
        x: (pos.x + crate::geom::spec_mat_row(rot.m11 as int, rot.m12 as int, rot.m13 as int,
            offset)) as i64,
        y: (pos.y + crate::geom::spec_mat_row(rot.m21 as int, rot.m22 as int, rot.m23 as int,
            offset)) as i64,
        z: (pos.z + crate::geom::spec_mat_row(rot.m31 as int, rot.m32 as int, rot.m33 as int,
            offset)) as i64,
    }
}

/// Decides a shoot or drop: an index past the configured slots is refused
/// (the caller replies with the distinguished bounds error); otherwise the
/// slot's parameters come back with the world spawn point.
pub fn launch_decision(params: &Vec<LaunchSpec>, index: usize, pos: Vec3, ori: Quat) -> (r:
    Option<(LaunchSpec, Vec3)>)
    requires
        crate::geom::quat_in_range(ori),
        -10_000_000_000 <= pos.x <= 10_000_000_000,
        -10_000_000_000 <= pos.y <= 10_000_000_000,
        -10_000_000_000 <= pos.z <= 10_000_000_000,
        forall|k: int| 0 <= k < params@.len() ==> launch_spec_wf(#[trigger] params@[k]),
    ensures
        r is None <==> index >= params@.len(),
        match r {
            Some((p, spawn)) => {
                &&& p == params@[index as int]
                &&& spawn == spec_spawn_point(pos, ori, p.offset)
            },
            None => true,
        },
{
    if index >= params.len() {
        return None;
    }
    let p = params[index];
    let rot = crate::geom::quat_to_rot(ori);
    proof {
        crate::geom::lemma_mat_row_bound(rot.m11 as int, rot.m12 as int, rot.m13 as int,
            p.offset, crate::cargo::HOOK_LIMIT as int);
        crate::geom::lemma_mat_row_bound(rot.m21 as int, rot.m22 as int, rot.m23 as int,
            p.offset, crate::cargo::HOOK_LIMIT as int);
        crate::geom::lemma_mat_row_bound(rot.m31 as int, rot.m32 as int, rot.m33 as int,
            p.offset, crate::cargo::HOOK_LIMIT as int);
    }
    let turned = crate::geom::mat3_mul_vec(rot, p.offset);
    let spawn = Vec3 { x: pos.x + turned.x, y: pos.y + turned.y, z: pos.z + turned.z };
    Some((p, spawn))
}

/// A signed integer field: an optional minus sign before digits.
pub open spec fn spec_parse_int(s: Seq<u8>) -> Option<int> {
    if s.len() >= 2 && s[0] == 45 && crate::text::is_digits(s.drop_first()) {
        Some(-crate::text::dec_value(s.drop_first()))
    } else if s.len() >= 1 && crate::text::is_digits(s) {
        Some(crate::text::dec_value(s))
    } else {
        None
    }
}

/// Parses a signed integer field; values beyond the fixed range give
/// nothing.
pub fn parse_int_field(s: &[u8]) -> (r: Option<i64>)
    ensures
        match spec_parse_int(s@) {
            Some(v) => {
                if crate::fixed::fix_in_range(v) {
                    r == Some(v as i64)
                } else {
                    r == None::<i64>
                }
            },
            None => r == None::<i64>,
        },
{
    if s.len() >= 2 && s[0] == 45 {
        proof {
            assert(s@.subrange(1, s@.len() as int) =~= s@.drop_first());
        }
        let digits = vstd::slice::slice_subrange(s, 1, s.len());
        match crate::text::parse_u64(digits) {
            Some(n) => {
                if n <= 1_000_000_000_000u64 {
                    Some(-(n as i64))
                } else {
                    None
                }
            },
            None => {
                proof {
                    if crate::text::is_digits(s@) {
                        assert(crate::text::is_digit(s@[0]));
                    }
                }
                None
            },
        }
    } else {
        match crate::text::parse_u64(s) {
            Some(n) => {
                if n <= 1_000_000_000_000u64 {
                    Some(n as i64)
                } else {
                    None
                }
            },
            None => {
                proof {
                    if s@.len() >= 2 && s@[0] == 45 {
                    }
                }
                None
            },
        }
    }
}

/// Parses the reply to a launch command, `ok;res,vx,vy,vz`: the launcher's
/// integer result and the ejection velocity.  A reply without that shape
/// gives nothing and the caller answers with an error.
pub fn parse_launch_reply(rep: &[u8]) -> (r: Option<(i64, Vec3)>)
    ensures
        ({
            let parts = spec_split(rep@, 59);
            match r {
                Some((res, vel)) => {
                    let fields = spec_split(parts[1], 44);
                    &&& parts.len() >= 2
                    &&& fields.len() >= 4
                    &&& spec_parse_int(fields[0]) == Some(res as int)
                    &&& spec_parse_fix(fields[1]) == Some(vel.x as int)
                    &&& spec_parse_fix(fields[2]) == Some(vel.y as int)
                    &&& spec_parse_fix(fields[3]) == Some(vel.z as int)
                },
                None => true,
            }
        }),
{
    let parts = split_bytes(rep, 59);
    if parts.len() < 2 {
        return None;
    }
    proof {
        assert(parts@.map_values(|v: Vec<u8>| v@)[1] == parts@[1]@);
    }
    let fields = split_bytes(parts[1].as_slice(), 44);
    if fields.len() < 4 {
        return None;
    }
    proof {
        assert(fields@.map_values(|v: Vec<u8>| v@)[0] == fields@[0]@);
        assert(fields@.map_values(|v: Vec<u8>| v@)[1] == fields@[1]@);
        assert(fields@.map_values(|v: Vec<u8>| v@)[2] == fields@[2]@);
        assert(fields@.map_values(|v: Vec<u8>| v@)[3] == fields@[3]@);
    }
    let res = parse_int_field(fields[0].as_slice());
    let vx = parse_fix(fields[1].as_slice());
    let vy = parse_fix(fields[2].as_slice());
    let vz = parse_fix(fields[3].as_slice());
    match (res, vx, vy, vz) {
        (Some(a), Some(x), Some(y), Some(z)) => Some((a, Vec3 { x, y, z })),
        _ => None,
    }
}

/// The force-update command to a UAV child: `f:` and six scalars.
#[verifier::rlimit(100)]
pub fn force_command(force: Vec3, torque: Vec3) -> (r: Vec<u8>)
    requires
        crate::geom::vec3_in_range(force),
        crate::geom::vec3_in_range(torque),
    ensures
        r@ == seq![102u8, 58u8] + fix_text(force.x as int) + seq![44u8] + fix_text(
            force.y as int,
        ) + seq![44u8] + fix_text(force.z as int) + seq![44u8] + fix_text(torque.x as int)
            + seq![44u8] + fix_text(torque.y as int) + seq![44u8] + fix_text(torque.z as int),
{
    let mut out: Vec<u8> = Vec::new();
    out.push(102);
    out.push(58);
    let mut t = fmt_fix(force.x);
    out.append(&mut t);
    out.push(44);
    let mut t = fmt_fix(force.y);
    out.append(&mut t);
    out.push(44);
    let mut t = fmt_fix(force.z);
    out.append(&mut t);
    out.push(44);
    let mut t = fmt_fix(torque.x);
    out.append(&mut t);
    out.push(44);
    let mut t = fmt_fix(torque.y);
    out.append(&mut t);
    out.push(44);
    let mut t = fmt_fix(torque.z);
    out.append(&mut t);
    proof {
        assert(out@ =~= seq![102u8, 58u8] + fix_text(force.x as int) + seq![44u8] + fix_text(
            force.y as int,
        ) + seq![44u8] + fix_text(force.z as int) + seq![44u8] + fix_text(torque.x as int)
            + seq![44u8] + fix_text(torque.y as int) + seq![44u8] + fix_text(torque.z as int));
    }
    out
}

/// The atmosphere command to a UAV child: the wind, then temperature, the
/// caller-formatted pressure text (its computation is floating point and
/// happens outside), and density.
#[verifier::rlimit(100)]
pub fn atmosphere_command(wind: Vec3, temp: i64, pressure_text: &[u8], density: i64) -> (r: Vec<
    u8,
>)
    requires
        crate::geom::vec3_in_range(wind),
        fix_in_range(temp as int),
        fix_in_range(density as int),
    ensures
        r@ == seq![97u8, 58u8] + fix_text(wind.x as int) + seq![44u8] + fix_text(wind.y as int)
            + seq![44u8] + fix_text(wind.z as int) + seq![44u8] + fix_text(temp as int) + seq![
            44u8,
        ] + pressure_text@ + seq![44u8] + fix_text(density as int),
{
    let mut out: Vec<u8> = Vec::new();
    out.push(97);
    out.push(58);
    let mut t = fmt_fix(wind.x);
    out.append(&mut t);
    out.push(44);
    let mut t = fmt_fix(wind.y);
    out.append(&mut t);
    out.push(44);
    let mut t = fmt_fix(wind.z);
    out.append(&mut t);
    out.push(44);
    let mut t = fmt_fix(temp);
    out.append(&mut t);
    out.push(44);
    let mut t = vstd::slice::slice_to_vec(pressure_text);
    out.append(&mut t);
    out.push(44);
    let mut t = fmt_fix(density);
    out.append(&mut t);
    proof {
        assert(out@ =~= seq![97u8, 58u8] + fix_text(wind.x as int) + seq![44u8] + fix_text(
            wind.y as int,
        ) + seq![44u8] + fix_text(wind.z as int) + seq![44u8] + fix_text(temp as int) + seq![
            44u8,
        ] + pressure_text@ + seq![44u8] + fix_text(density as int));
    }
    out
}

/// The surface-collision command to a UAV child: restitution, the two
/// frictions, the contact point and the normal.
#[verifier::rlimit(100)]
pub fn surface_command(cor: i64, mi_s: i64, mi_d: i64, point: Vec3, normal: Vec3) -> (r: Vec<u8>)
    requires
        fix_in_range(cor as int),
        fix_in_range(mi_s as int),
        fix_in_range(mi_d as int),
        crate::geom::vec3_in_range(point),
        crate::geom::vec3_in_range(normal),
    ensures
        r@ == seq![106u8, 58u8] + fix_text(cor as int) + seq![44u8] + fix_text(mi_s as int)
            + seq![44u8] + fix_text(mi_d as int) + seq![44u8] + fix_text(point.x as int) + seq![
            44u8,
        ] + fix_text(point.y as int) + seq![44u8] + fix_text(point.z as int) + seq![44u8]
            + fix_text(normal.x as int) + seq![44u8] + fix_text(normal.y as int) + seq![44u8]
            + fix_text(normal.z as int),
{
    let mut out: Vec<u8> = Vec::new();
    out.push(106);
    out.push(58);
    let mut t = fmt_fix(cor);
    out.append(&mut t);
    out.push(44);
    let mut t = fmt_fix(mi_s);
    out.append(&mut t);
    out.push(44);
    let mut t = fmt_fix(mi_d);
    out.append(&mut t);
    out.push(44);
    let mut t = fmt_fix(point.x);
    out.append(&mut t);
    out.push(44);
    let mut t = fmt_fix(point.y);
    out.append(&mut t);
    out.push(44);
    let mut t = fmt_fix(point.z);
    out.append(&mut t);
    out.push(44);
    let mut t = fmt_fix(normal.x);
    out.append(&mut t);
    out.push(44);
    let mut t = fmt_fix(normal.y);
    out.append(&mut t);
    out.push(44);
    let mut t = fmt_fix(normal.z);
    out.append(&mut t);
    proof {
        assert(out@ =~= seq![106u8, 58u8] + fix_text(cor as int) + seq![44u8] + fix_text(
            mi_s as int,
        ) + seq![44u8] + fix_text(mi_d as int) + seq![44u8] + fix_text(point.x as int) + seq![
            44u8,
        ] + fix_text(point.y as int) + seq![44u8] + fix_text(point.z as int) + seq![44u8]
            + fix_text(normal.x as int) + seq![44u8] + fix_text(normal.y as int) + seq![44u8]
            + fix_text(normal.z as int));
    }
    out
}

/// A launch command to a UAV child: the tag (`d` shoots, `g` drops, `t`
/// starts a jet) and the slot index.
pub fn slot_command(tag: u8, index: usize) -> (r: Vec<u8>)
    ensures
        r@ == seq![tag, 58u8] + crate::text::dec_digits(index as nat),
{
    let mut out: Vec<u8> = Vec::new();
    out.push(tag);
    out.push(58);
    let mut t = crate::text::fmt_u64(index as u64);
    out.append(&mut t);
    proof {
        assert(out@ =~= seq![tag, 58u8] + crate::text::dec_digits(index as nat));
    }
    out
}

/// A serialized well-formed state parses back to the same fields: the wire
/// record splits into one formatted part per field, and each part reads back
/// as exactly the field it came from.
pub proof fn lemma_state_round_trip(s: DroneState)
    requires
        state_wf(s),
    ensures
        ({
            let parts = spec_split(spec_state_wire(s), COMMA);
            &&& parts.len() == state_fields(s).len()
            &&& parts.len() >= 14
            &&& forall|i: int|
                0 <= i < parts.len() ==> spec_parse_fix(#[trigger] parts[i]) == Some(
                    state_fields(s)[i],
                )
        }),
{
    let gf = state_fields(s);
    let texts = gf.map_values(|v: int| fix_text(v));
    assert forall|i: int, j: int|
        0 <= i < texts.len() && 0 <= j < texts[i].len() implies #[trigger] texts[i][j]
        != COMMA by {
        lemma_fix_text_bytes(gf[i], j);
    }
    lemma_split_of_join(texts, COMMA);
    assert forall|i: int| 0 <= i < texts.len() implies spec_parse_fix(#[trigger] texts[i]) == Some(
        gf[i],
    ) by {
        assert(fix_in_range(gf[i])) by {
            if i == 0 {
            } else if i < 8 {
                assert(gf[i] == s.pos@[i - 1] as int);
            } else if i < 14 {
                assert(gf[i] == s.vel@[i - 8] as int);
            } else {
                assert(gf[i] == s.om@[i - 14] as int);
            }
        }
        lemma_parse_of_fmt_fix(gf[i]);
    }
}

} // verus!
