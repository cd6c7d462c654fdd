//! The free-body bridge: request texts for the object-physics child and
//! the parser of its state frames.
//!
//! The child simulates projectiles and cargo bodies.  The aggregator sends
//! it one-letter requests over a request socket and captures its state
//! frames, `t;id,px,py,pz,vx,vy,vz;...`, into the object cache.

use vstd::prelude::*;

use crate::fixed::fix_in_range;
use crate::geom::Vec3;
use crate::text::{
    dec_digits, fix_text, fmt_fix, fmt_u64, parse_fix, parse_u64, spec_parse_fix, spec_split,
    split_bytes,
};

verus! {

/// One cached object state: id, position, velocity.
pub type ObjectRecord = (usize, Vec3, Vec3);

/// Whether one frame record parses fully: an id and six in-range scalars.
pub open spec fn spec_record_ok(fields: Seq<Seq<u8>>) -> bool {
    &&& fields.len() >= 7
    &&& fields[0].len() > 0
    &&& crate::text::is_digits(fields[0])
    &&& crate::text::dec_value(fields[0]) <= usize::MAX
    &&& forall|i: int|
        1 <= i < 7 ==> match spec_parse_fix(#[trigger] fields[i]) {
            Some(v) => fix_in_range(v),
            None => false,
        }
}

/// The parsed record.
pub open spec fn spec_record_val(fields: Seq<Seq<u8>>) -> ObjectRecord {
    let f = |i: int|
        match spec_parse_fix(fields[i]) {
            Some(v) => v as i64,
            None => 0,
        };
    (
        crate::text::dec_value(fields[0]) as usize,
        Vec3 { x: f(1), y: f(2), z: f(3) },
        Vec3 { x: f(4), y: f(5), z: f(6) },
    )
}

/// The records of a state frame, in order: every `;`-separated part after
/// the leading time that parses fully; the rest are skipped.
pub open spec fn spec_object_records(parts: Seq<Seq<u8>>) -> Seq<ObjectRecord>
    decreases parts.len(),
{
    if parts.len() == 0 {
        Seq::empty()
    } else {
        let fields = spec_split(parts[0], 44);
        (if spec_record_ok(fields) {
            seq![spec_record_val(fields)]
        } else {
            Seq::<ObjectRecord>::empty()
        }) + spec_object_records(parts.drop_first())
    }
}

/// Parses a state frame of the object-physics child: the simulated time
/// from the leading part, and one record per fully parseable body part.
pub fn object_state_records(frame: &[u8]) -> (r: (Option<i64>, Vec<ObjectRecord>))
    ensures
        ({
            let parts = spec_split(frame@, 59);
            &&& r.0 == (match spec_parse_fix(parts[0]) {
                Some(v) => if fix_in_range(v) {
                    Some(v as i64)
                } else {
                    None::<i64>
                },
                None => None::<i64>,
            })
            &&& r.1@ == spec_object_records(parts.drop_first())
        }),
{
    let parts = split_bytes(frame, 59);
    let ghost gp = spec_split(frame@, 59);
    proof {
        assert(parts@.map_values(|v: Vec<u8>| v@)[0] == parts@[0]@);
    }
    let time = parse_fix(parts[0].as_slice());
    let mut out: Vec<ObjectRecord> = Vec::new();
    let mut i: usize = 1;
    proof {
        assert(gp.skip(1) =~= gp.drop_first());
    }
    while i < parts.len()
        invariant
            1 <= i <= parts@.len(),
            parts@.map_values(|v: Vec<u8>| v@) == gp,
            gp.len() == parts@.len(),
            spec_object_records(gp.drop_first()) == out@ + spec_object_records(
                gp.skip(i as int),
            ),
        decreases parts@.len() - i,
    {
        proof {
            assert(parts@.map_values(|v: Vec<u8>| v@)[i as int] == parts@[i as int]@);
            assert(gp.skip(i as int)[0] == gp[i as int]);
            assert(gp.skip(i as int).drop_first() =~= gp.skip(i as int + 1));
        }
        let fields = split_bytes(parts[i].as_slice(), 44);
        let ghost gf = spec_split(gp[i as int], 44);
        let parsed = parse_record(&fields);
        proof {
            assert(fields@.map_values(|v: Vec<u8>| v@) == gf);
        }
        match parsed {
            Some(rec) => {
                out.push(rec);
                proof {
                    assert(out@ + spec_object_records(gp.skip(i as int + 1)) =~= out@.drop_last()
                        + (seq![rec] + spec_object_records(gp.skip(i as int + 1))));
                }
            },
            None => {
                proof {
                    assert(out@ + spec_object_records(gp.skip(i as int + 1)) =~= out@ + (
                    Seq::<ObjectRecord>::empty() + spec_object_records(gp.skip(i as int + 1))));
                }
            },
        }
        i = i + 1;
    }
    proof {
        assert(gp.skip(gp.len() as int) =~= Seq::<Seq<u8>>::empty());
        assert(out@ + Seq::<ObjectRecord>::empty() =~= out@);
    }
    (time, out)
}

/// Parses one record's fields; `None` exactly when the record is not fully
/// well-formed.
fn parse_record(fields: &Vec<Vec<u8>>) -> (r: Option<ObjectRecord>)
    ensures
        ({
            let gf = fields@.map_values(|v: Vec<u8>| v@);
            &&& (r is Some <==> spec_record_ok(gf))
            &&& (r is Some ==> r == Some(spec_record_val(gf)))
        }),
{
    let ghost gf = fields@.map_values(|v: Vec<u8>| v@);
    if fields.len() < 7 {
        return None;
    }
    proof {
        assert(gf[0] == fields@[0]@);
    }
    let id = parse_u64(fields[0].as_slice());
    let id = match id {
        Some(n) => {
            if n <= usize::MAX as u64 {
                n as usize
            } else {
                return None;
            }
        },
        None => {
            return None;
        },
    };
    let mut vals: [i64; 6] = [0, 0, 0, 0, 0, 0];
    let mut k: usize = 1;
    while k < 7
        invariant
            1 <= k <= 7,
            fields@.len() >= 7,
            gf == fields@.map_values(|v: Vec<u8>| v@),
            forall|i: int|
                1 <= i < k ==> match spec_parse_fix(#[trigger] gf[i]) {
                    Some(v) => fix_in_range(v) && vals@[i - 1] == v,
                    None => false,
                },
        decreases 7 - k,
    {
        proof {
            assert(gf[k as int] == fields@[k as int]@);
        }
        let parsed = parse_fix(fields[k].as_slice());
        match parsed {
            Some(v) => {
                vals[k - 1] = v;
                proof {
                    assert(vals@[k as int - 1] == v);
                }
            },
            None => {
                return None;
            },
        }
        k = k + 1;
    }
    Some(
        (
            id,
            Vec3 { x: vals[0], y: vals[1], z: vals[2] },
            Vec3 { x: vals[3], y: vals[4], z: vals[5] },
        ),
    )
}

/// The `add` request: mass, reference area, position and velocity, all
/// comma-joined after the one-letter tag.
#[verifier::rlimit(100)]
pub fn add_request(mass: i64, cs: i64, pos: Vec3, vel: Vec3) -> (r: Vec<u8>)
    requires
        fix_in_range(mass as int),
        fix_in_range(cs as int),
        crate::geom::vec3_in_range(pos),
        crate::geom::vec3_in_range(vel),
    ensures
        r@ == seq![97u8, 58u8] + fix_text(mass as int) + seq![44u8] + fix_text(cs as int) + seq![
            44u8,
        ] + fix_text(pos.x as int) + seq![44u8] + fix_text(pos.y as int) + seq![44u8] + fix_text(
            pos.z as int,
        ) + seq![44u8] + fix_text(vel.x as int) + seq![44u8] + fix_text(vel.y as int) + seq![
            44u8,
        ] + fix_text(vel.z as int),
{
    let mut out: Vec<u8> = Vec::new();
    out.push(97);
    out.push(58);
    let mut t = fmt_fix(mass);
    out.append(&mut t);
    out.push(44);
    let mut t = fmt_fix(cs);
    out.append(&mut t);
    out.push(44);
    let mut t = fmt_fix(pos.x);
    out.append(&mut t);
    out.push(44);
    let mut t = fmt_fix(pos.y);
    out.append(&mut t);
    out.push(44);
    let mut t = fmt_fix(pos.z);
    out.append(&mut t);
    out.push(44);
    let mut t = fmt_fix(vel.x);
    out.append(&mut t);
    out.push(44);
    let mut t = fmt_fix(vel.y);
    out.append(&mut t);
    out.push(44);
    let mut t = fmt_fix(vel.z);
    out.append(&mut t);
    proof {
        assert(out@ =~= seq![97u8, 58u8] + fix_text(mass as int) + seq![44u8] + fix_text(
            cs as int,
        ) + seq![44u8] + fix_text(pos.x as int) + seq![44u8] + fix_text(pos.y as int) + seq![
            44u8,
        ] + fix_text(pos.z as int) + seq![44u8] + fix_text(vel.x as int) + seq![44u8] + fix_text(
            vel.y as int,
        ) + seq![44u8] + fix_text(vel.z as int));
    }
    out
}

/// The `remove` request for one object.
pub fn remove_request(id: usize) -> (r: Vec<u8>)
    ensures
        r@ == seq![114u8, 58u8] + dec_digits(id as nat),
{
    let mut out: Vec<u8> = Vec::new();
    out.push(114);
    out.push(58);
    let mut t = fmt_u64(id as u64);
    out.append(&mut t);
    proof {
        assert(out@ =~= seq![114u8, 58u8] + dec_digits(id as nat));
    }
    out
}

/// The `set_force` request: the object and the force on it.
pub fn set_force_request(id: usize, force: Vec3) -> (r: Vec<u8>)
    requires
        crate::geom::vec3_in_range(force),
    ensures
        r@ == seq![102u8, 58u8] + dec_digits(id as nat) + seq![44u8] + fix_text(force.x as int)
            + seq![44u8] + fix_text(force.y as int) + seq![44u8] + fix_text(force.z as int),
{
    let mut out: Vec<u8> = Vec::new();
    out.push(102);
    out.push(58);
    let mut t = fmt_u64(id as u64);
    out.append(&mut t);
    out.push(44);
    let mut t = fmt_fix(force.x);
    out.append(&mut t);
    out.push(44);
    let mut t = fmt_fix(force.y);
    out.append(&mut t);
    out.push(44);
    let mut t = fmt_fix(force.z);
    out.append(&mut t);
    proof {
        assert(out@ =~= seq![102u8, 58u8] + dec_digits(id as nat) + seq![44u8] + fix_text(
            force.x as int,
        ) + seq![44u8] + fix_text(force.y as int) + seq![44u8] + fix_text(force.z as int));
    }
    out
}

/// One entry of the wind-update request.
pub open spec fn spec_wind_entry(id: int, w: Vec3) -> Seq<u8> {
    dec_digits(id as nat) + seq![44u8] + fix_text(w.x as int) + seq![44u8] + fix_text(w.y as int)
        + seq![44u8] + fix_text(w.z as int) + seq![59u8]
}

/// The wind-update request body: one entry per object.
pub open spec fn spec_wind_entries(winds: Seq<(usize, Vec3)>) -> Seq<u8>
    decreases winds.len(),
{
    if winds.len() == 0 {
        Seq::empty()
    } else {
        spec_wind_entry(winds[0].0 as int, winds[0].1) + spec_wind_entries(winds.drop_first())
    }
}

/// The `update_winds` request: the whole set in one frame.
pub fn update_winds_request(winds: &Vec<(usize, Vec3)>) -> (r: Vec<u8>)
    requires
        forall|k: int| 0 <= k < winds@.len() ==> crate::geom::vec3_in_range((#[trigger] winds@[k]).1),
    ensures
        r@ == seq![119u8, 58u8] + spec_wind_entries(winds@),
{
    let mut out: Vec<u8> = Vec::new();
    out.push(119);
    out.push(58);
    let ghost head = out@;
    proof {
        assert(head =~= seq![119u8, 58u8]);
        assert(winds@.skip(0) =~= winds@);
    }
    let mut k: usize = 0;
    while k < winds.len()
        invariant
            k <= winds@.len(),
            head == seq![119u8, 58u8],
            forall|k2: int|
                0 <= k2 < winds@.len() ==> crate::geom::vec3_in_range(
                    (#[trigger] winds@[k2]).1,
                ),
            head + spec_wind_entries(winds@) == out@ + spec_wind_entries(winds@.skip(k as int)),
        decreases winds@.len() - k,
    {
        proof {
            assert(winds@.skip(k as int)[0] == winds@[k as int]);
            assert(winds@.skip(k as int).drop_first() =~= winds@.skip(k as int + 1));
        }
        let ghost pre = out@;
        let (id, w) = winds[k];
        let mut t = fmt_u64(id as u64);
        out.append(&mut t);
        out.push(44);
        let mut t = fmt_fix(w.x);
        out.append(&mut t);
        out.push(44);
        let mut t = fmt_fix(w.y);
        out.append(&mut t);
        out.push(44);
        let mut t = fmt_fix(w.z);
        out.append(&mut t);
        out.push(59);
        proof {
            assert(out@ =~= pre + spec_wind_entry(winds@[k as int].0 as int, winds@[k as int].1));
            assert(out@ + spec_wind_entries(winds@.skip(k as int + 1)) =~= pre
                + spec_wind_entries(winds@.skip(k as int)));
        }
        k = k + 1;
    }
    proof {
        assert(winds@.skip(winds@.len() as int) =~= Seq::<(usize, Vec3)>::empty());
        assert(out@ + Seq::<u8>::empty() =~= out@);
    }
    out
}

/// The `apply_surface_collision` request for one object.
#[verifier::rlimit(100)]
pub fn surface_collision_request(id: usize, cor: i64, mi_s: i64, mi_d: i64, normal: Vec3) -> (r:
    Vec<u8>)
    requires
        fix_in_range(cor as int),
        fix_in_range(mi_s as int),
        fix_in_range(mi_d as int),
        crate::geom::vec3_in_range(normal),
    ensures
        r@ == seq![106u8, 58u8] + dec_digits(id as nat) + seq![44u8] + fix_text(cor as int)
            + seq![44u8] + fix_text(mi_s as int) + seq![44u8] + fix_text(mi_d as int) + seq![
            44u8,
        ] + fix_text(normal.x as int) + seq![44u8] + fix_text(normal.y as int) + seq![44u8]
            + fix_text(normal.z as int),
{
    let mut out: Vec<u8> = Vec::new();
    out.push(106);
    out.push(58);
    let mut t = fmt_u64(id as u64);
    out.append(&mut t);
    out.push(44);
    let mut t = fmt_fix(cor);
    out.append(&mut t);
    out.push(44);
    let mut t = fmt_fix(mi_s);
    out.append(&mut t);
    out.push(44);
    let mut t = fmt_fix(mi_d);
    out.append(&mut t);
    out.push(44);
    let mut t = fmt_fix(normal.x);
    out.append(&mut t);
    out.push(44);
    let mut t = fmt_fix(normal.y);
    out.append(&mut t);
    out.push(44);
    let mut t = fmt_fix(normal.z);
    out.append(&mut t);
    proof {
        assert(out@ =~= seq![106u8, 58u8] + dec_digits(id as nat) + seq![44u8] + fix_text(
            cor as int,
        ) + seq![44u8] + fix_text(mi_s as int) + seq![44u8] + fix_text(mi_d as int) + seq![44u8]
            + fix_text(normal.x as int) + seq![44u8] + fix_text(normal.y as int) + seq![44u8]
            + fix_text(normal.z as int));
    }
    out
}

} // verus!
