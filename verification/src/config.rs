//! Server configuration: typed reads over parsed key-value pairs.
//!
//! The YAML file is read and flattened outside; this module owns the typed
//! access: integers, strings, booleans, and the composite wind and grid
//! values, each parsed exactly.

use vstd::prelude::*;

use crate::geom::{Mat3, Vec3};
use crate::strings::chars_as_bytes;
use crate::text::{
    dec_value, is_digits, parse_fix, parse_u64, spec_parse_fix, spec_split, split_bytes,
};

verus! {

/// The configuration: the file's scalar options, flattened to text pairs.
pub struct ServerConfig {
    /// Key-value pairs in file order.
    pub entries: Vec<(String, String)>,
}

/// First value stored under a key.
pub open spec fn spec_lookup(entries: Seq<(String, String)>, key: Seq<char>) -> Option<Seq<char>>
    decreases entries.len(),
{
    if entries.len() == 0 {
        None
    } else if entries[0].0@ == key {
        Some(entries[0].1@)
    } else {
        spec_lookup(entries.drop_first(), key)
    }
}

impl ServerConfig {
    /// An empty configuration.
    pub fn new() -> (r: ServerConfig)
        ensures
            r.entries@.len() == 0,
    {
        ServerConfig { entries: Vec::new() }
    }

    /// Records one option; reads see the first value of a repeated key.
    pub fn push_entry(&mut self, key: String, value: String)
        ensures
            final(self).entries@ == old(self).entries@.push((key, value)),
    {
        self.entries.push((key, value));
    }

    /// The raw string under `key`.
    pub fn get_str(&self, key: &str) -> (r: Option<String>)
        ensures
            match (r, spec_lookup(self.entries@, key@)) {
                (Some(v), Some(s)) => v@ == s,
                (None, None) => true,
                _ => false,
            },
    {
        let key_s = key.to_owned();
        proof {
            assert(self.entries@.skip(0) =~= self.entries@);
        }
        let mut k: usize = 0;
        while k < self.entries.len()
            invariant
                key_s@ == key@,
                k <= self.entries@.len(),
                spec_lookup(self.entries@, key@) == spec_lookup(
                    self.entries@.skip(k as int),
                    key@,
                ),
            decreases self.entries@.len() - k,
        {
            proof {
                assert(self.entries@.skip(k as int).drop_first() =~= self.entries@.skip(
                    k as int + 1,
                ));
                assert(self.entries@.skip(k as int)[0] == self.entries@[k as int]);
            }
            let hit = self.entries[k].0 == key_s;
            if hit {
                return Some(self.entries[k].1.clone());
            }
            k = k + 1;
        }
        proof {
            assert(self.entries@.skip(self.entries@.len() as int) =~= Seq::<(
                String,
                String,
            )>::empty());
        }
        None
    }

    /// The unsigned integer under `key`: present exactly when the key is
    /// set to a non-empty ASCII digit string whose value fits.
    pub fn get_usize(&self, key: &str) -> (r: Option<usize>)
        ensures
            match r {
                Some(n) => {
                    match spec_lookup(self.entries@, key@) {
                        Some(s) => {
                            let b = chars_as_bytes(s);
                            b.len() > 0 && is_digits(b) && n == dec_value(b)
                        },
                        None => false,
                    }
                },
                None => {
                    match spec_lookup(self.entries@, key@) {
                        Some(s) => {
                            let b = chars_as_bytes(s);
                            !(vstd::utf8::is_ascii_chars(s) && b.len() > 0 && is_digits(b)
                                && dec_value(b) <= usize::MAX)
                        },
                        None => true,
                    }
                },
            },
    {
        let v = self.get_str(key);
        match v {
            None => None,
            Some(s) => {
                if !s.as_str().is_ascii() {
                    return None;
                }
                let bytes = crate::strings::str_bytes(s.as_str());
                let parsed = parse_u64(bytes.as_slice());
                match parsed {
                    None => None,
                    Some(n) => {
                        if n <= usize::MAX as u64 {
                            Some(n as usize)
                        } else {
                            None
                        }
                    },
                }
            },
        }
    }

    /// The boolean under `key`: `true` or `false`, exactly.
    pub fn get_bool(&self, key: &str) -> (r: Option<bool>)
        ensures
            match r {
                Some(b) => {
                    match spec_lookup(self.entries@, key@) {
                        Some(s) => (b && s == seq!['t', 'r', 'u', 'e']) || (!b && s == seq![
                            'f',
                            'a',
                            'l',
                            's',
                            'e',
                        ]),
                        None => false,
                    }
                },
                None => {
                    match spec_lookup(self.entries@, key@) {
                        Some(s) => s != seq!['t', 'r', 'u', 'e'] && s != seq![
                            'f',
                            'a',
                            'l',
                            's',
                            'e',
                        ],
                        None => true,
                    }
                },
            },
    {
        let v = self.get_str(key);
        match v {
            None => None,
            Some(s) => {
                proof {
                    reveal_strlit("true");
                    reveal_strlit("false");
                    assert(("true")@ =~= seq!['t', 'r', 'u', 'e']);
                    assert(("false")@ =~= seq!['f', 'a', 'l', 's', 'e']);
                }
                let t_lit: &str = "true";
                let f_lit: &str = "false";
                let is_true = s == t_lit.to_owned();
                let is_false = s == f_lit.to_owned();
                if is_true {
                    Some(true)
                } else if is_false {
                    Some(false)
                } else {
                    None
                }
            },
        }
    }
}

/// One comma-separated field of a vector text reads as an in-range
/// scalar.
pub open spec fn spec_field_ok(parts: Seq<Seq<u8>>, i: int) -> bool {
    match spec_parse_fix(parts[i]) {
        Some(v) => crate::fixed::fix_in_range(v),
        None => false,
    }
}

/// The value of one field.
pub open spec fn spec_field_val(parts: Seq<Seq<u8>>, i: int) -> int {
    match spec_parse_fix(parts[i]) {
        Some(v) => v,
        None => 0,
    }
}

/// A well-formed vector text: exactly three fields, each an in-range
/// scalar.
pub open spec fn spec_vec3_ok(s: Seq<u8>) -> bool {
    let parts = spec_split(s, 44);
    &&& parts.len() == 3
    &&& spec_field_ok(parts, 0)
    &&& spec_field_ok(parts, 1)
    &&& spec_field_ok(parts, 2)
}

/// Three comma-separated fixed-point scalars: the parse succeeds exactly on
/// well-formed vector text, and then gives the three field values.
pub fn parse_vec3_fix(s: &[u8]) -> (r: Option<Vec3>)
    ensures
        r is Some <==> spec_vec3_ok(s@),
        match r {
            Some(v) => {
                let parts = spec_split(s@, 44);
                &&& v.x == spec_field_val(parts, 0)
                &&& v.y == spec_field_val(parts, 1)
                &&& v.z == spec_field_val(parts, 2)
                &&& crate::geom::vec3_in_range(v)
            },
            None => true,
        },
{
    let parts = split_bytes(s, 44);
    if parts.len() != 3 {
        return None;
    }
    let x = parse_fix(parts[0].as_slice());
    let y = parse_fix(parts[1].as_slice());
    let z = parse_fix(parts[2].as_slice());
    proof {
        assert(parts@.map_values(|v: Vec<u8>| v@)[0] == parts@[0]@);
        assert(parts@.map_values(|v: Vec<u8>| v@)[1] == parts@[1]@);
        assert(parts@.map_values(|v: Vec<u8>| v@)[2] == parts@[2]@);
    }
    match (x, y, z) {
        (Some(a), Some(b), Some(c)) => Some(Vec3 { x: a, y: b, z: c }),
        _ => None,
    }
}

/// A well-formed wind configuration: three semicolon-separated matrix rows,
/// each a vector text, and a vector text for the bias.
pub open spec fn spec_wind_ok(wind_matrix: Seq<u8>, wind_bias: Seq<u8>) -> bool {
    let rows = spec_split(wind_matrix, 59);
    &&& rows.len() == 3
    &&& spec_vec3_ok(rows[0])
    &&& spec_vec3_ok(rows[1])
    &&& spec_vec3_ok(rows[2])
    &&& spec_vec3_ok(wind_bias)
}

/// The wind function from its two configuration strings: a matrix of three
/// semicolon-separated rows of three scalars, and a bias of three scalars.
/// The parse succeeds exactly on well-formed text, and then every entry is
/// the corresponding field value.
pub fn parseWindFunction(wind_matrix: &[u8], wind_bias: &[u8]) -> (r: Option<(Mat3, Vec3)>)
    ensures
        r is Some <==> spec_wind_ok(wind_matrix@, wind_bias@),
        match r {
            Some((m, b)) => {
                let rows = spec_split(wind_matrix@, 59);
                let r0 = spec_split(rows[0], 44);
                let r1 = spec_split(rows[1], 44);
                let r2 = spec_split(rows[2], 44);
                let bs = spec_split(wind_bias@, 44);
                &&& m.m11 == spec_field_val(r0, 0) && m.m12 == spec_field_val(r0, 1) && m.m13
                    == spec_field_val(r0, 2)
                &&& m.m21 == spec_field_val(r1, 0) && m.m22 == spec_field_val(r1, 1) && m.m23
                    == spec_field_val(r1, 2)
                &&& m.m31 == spec_field_val(r2, 0) && m.m32 == spec_field_val(r2, 1) && m.m33
                    == spec_field_val(r2, 2)
                &&& b.x == spec_field_val(bs, 0) && b.y == spec_field_val(bs, 1) && b.z
                    == spec_field_val(bs, 2)
            },
            None => true,
        },
{
    let rows = split_bytes(wind_matrix, 59);
    if rows.len() != 3 {
        return None;
    }
    proof {
        assert(rows@.map_values(|v: Vec<u8>| v@)[0] == rows@[0]@);
        assert(rows@.map_values(|v: Vec<u8>| v@)[1] == rows@[1]@);
        assert(rows@.map_values(|v: Vec<u8>| v@)[2] == rows@[2]@);
    }
    let r0 = parse_vec3_fix(rows[0].as_slice());
    let r1 = parse_vec3_fix(rows[1].as_slice());
    let r2 = parse_vec3_fix(rows[2].as_slice());
    let bias = parse_vec3_fix(wind_bias);
    match (r0, r1, r2, bias) {
        (Some(a), Some(b), Some(c), Some(bv)) => {
            let m = Mat3 {
                m11: a.x,
                m12: a.y,
                m13: a.z,
                m21: b.x,
                m22: b.y,
                m23: b.z,
                m31: c.x,
                m32: c.y,
                m33: c.z,
            };
            Some((m, bv))
        },
        _ => None,
    }
}

} // verus!
