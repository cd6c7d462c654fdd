//! Client sessions: the reply server's decisions and the per-UAV control
//! protocol.
//!
//! The session reply socket takes three framed text requests: a session
//! start, a configuration upload, and an info query.  The per-UAV control
//! socket takes heartbeat and weapon commands with a one-second receive
//! timeout; missed receives are counted and the UAV is despawned when the
//! count reaches the disconnect limit.  Everything here is the decision
//! half: sockets, files and child processes stay outside and hand in plain
//! values.

use vstd::prelude::*;

use crate::drones::{drones_wf, Drones};
use crate::hashes::{sha1_hex8, sha1_of, spec_hex};
use crate::strings::{all_ascii, ascii_to_string, bytes_as_chars};
use crate::text::{
    dec_digits, fmt_u64, lemma_dec_digits_ok, parse_u64, spec_split, split_bytes,
};

verus! {

/// Heartbeat accounting for one UAV's control listener.
pub struct ControlSession {
    /// Missed receives since the last message.
    pub skipped_heartbeats: usize,
    /// Consecutive misses that despawn the UAV.
    pub hb_disconnect: usize,
    /// Whether the listener still runs.
    pub alive: bool,
}

/// Listener invariant: a live listener is strictly below the disconnect
/// limit.
pub open spec fn session_wf(s: ControlSession) -> bool {
    &&& 1 <= s.hb_disconnect
    &&& s.alive ==> s.skipped_heartbeats < s.hb_disconnect
}

/// One receive outcome folded into the counter: a timeout raises it by one
/// and kills the session when it reaches the limit; a received message
/// resets it.  The counter is monotone between resets, and only a real
/// message resets it.
pub open spec fn spec_session_step(s: ControlSession, got_message: bool) -> ControlSession {
    if got_message {
        ControlSession { skipped_heartbeats: 0, ..s }
    } else {
        ControlSession {
            skipped_heartbeats: (s.skipped_heartbeats + 1) as usize,
            alive: s.alive && s.skipped_heartbeats + 1 < s.hb_disconnect,
            ..s
        }
    }
}

impl ControlSession {
    /// A fresh listener.
    pub fn new(hb_disconnect: usize) -> (r: ControlSession)
        requires
            hb_disconnect >= 1,
        ensures
            session_wf(r),
            r.skipped_heartbeats == 0,
            r.hb_disconnect == hb_disconnect,
            r.alive,
    {
        ControlSession { skipped_heartbeats: 0, hb_disconnect, alive: true }
    }

    /// Folds one receive outcome in; the result says whether the UAV must
    /// be despawned now.
    pub fn handle_recv(&mut self, got_message: bool) -> (kill: bool)
        requires
            session_wf(*old(self)),
            old(self).alive,
        ensures
            session_wf(*final(self)),
            *final(self) == spec_session_step(*old(self), got_message),
            kill == !final(self).alive,
    {
        if got_message {
            self.skipped_heartbeats = 0;
            false
        } else {
            self.skipped_heartbeats = self.skipped_heartbeats + 1;
            if self.skipped_heartbeats >= self.hb_disconnect {
                self.alive = false;
                true
            } else {
                false
            }
        }
    }
}

/// The heartbeat counter is monotone between resets: a timeout only raises
/// it, and it returns to zero exactly on a received message.
pub proof fn lemma_heartbeat_monotone(s: ControlSession, got_message: bool)
    requires
        session_wf(s),
        s.alive,
    ensures
        !got_message ==> spec_session_step(s, got_message).skipped_heartbeats
            == s.skipped_heartbeats + 1 && spec_session_step(s, got_message).skipped_heartbeats
            > s.skipped_heartbeats,
        got_message ==> spec_session_step(s, got_message).skipped_heartbeats == 0,
{
}

/// Whether `name` is a prefix of `candidate`.
pub open spec fn spec_is_prefix(name: Seq<u8>, candidate: Seq<u8>) -> bool {
    name.len() <= candidate.len() && candidate.take(name.len() as int) == name
}

/// How many taken names the new name prefixes.
pub open spec fn spec_prefix_count(taken: Seq<Seq<u8>>, name: Seq<u8>) -> int
    decreases taken.len(),
{
    if taken.len() == 0 {
        0
    } else {
        (if spec_is_prefix(name, taken[0]) {
            1int
        } else {
            0int
        }) + spec_prefix_count(taken.drop_first(), name)
    }
}

/// Prefix test on byte strings.
pub fn is_prefix(name: &[u8], candidate: &[u8]) -> (r: bool)
    ensures
        r == spec_is_prefix(name@, candidate@),
{
    if name.len() > candidate.len() {
        return false;
    }
    let mut i: usize = 0;
    while i < name.len()
        invariant
            name@.len() <= candidate@.len(),
            i <= name@.len(),
            forall|j: int| 0 <= j < i ==> #[trigger] candidate@[j] == name@[j],
        decreases name@.len() - i,
    {
        if candidate[i] != name[i] {
            proof {
                assert(candidate@.take(name@.len() as int)[i as int] != name@[i as int]);
            }
            return false;
        }
        i = i + 1;
    }
    proof {
        assert(candidate@.take(name@.len() as int) =~= name@);
    }
    true
}

/// Counts the taken names that the new name prefixes.
pub fn count_prefixed(taken: &Vec<Vec<u8>>, name: &[u8]) -> (r: usize)
    requires
        taken@.len() < 1_000_000,
    ensures
        r == spec_prefix_count(taken@.map_values(|v: Vec<u8>| v@), name@),
{
    let ghost gt = taken@.map_values(|v: Vec<u8>| v@);
    let mut count: usize = 0;
    let mut k: usize = 0;
    while k < taken.len()
        invariant
            gt == taken@.map_values(|v: Vec<u8>| v@),
            taken@.len() < 1_000_000,
            k <= taken@.len(),
            count <= k,
            count == spec_prefix_count(gt.take(k as int), name@),
        decreases taken@.len() - k,
    {
        proof {
            lemma_prefix_count_step(gt, name@, k as int);
        }
        if is_prefix(name, taken[k].as_slice()) {
            count = count + 1;
        }
        k = k + 1;
    }
    proof {
        assert(gt.take(gt.len() as int) =~= gt);
    }
    count
}

/// Counting one more name adds one exactly when it is prefixed.
proof fn lemma_prefix_count_step(taken: Seq<Seq<u8>>, name: Seq<u8>, k: int)
    requires
        0 <= k < taken.len(),
    ensures
        spec_prefix_count(taken.take(k + 1), name) == spec_prefix_count(taken.take(k), name) + (
        if spec_is_prefix(name, taken[k]) {
            1int
        } else {
            0int
        }),
    decreases k,
{
    if k == 0 {
        assert(taken.take(1)[0] == taken[0]);
        assert(taken.take(1).drop_first() =~= taken.take(0));
        assert(spec_prefix_count(taken.take(0), name) == 0);
    } else {
        assert(taken.take(k + 1).drop_first() =~= taken.drop_first().take(k));
        assert(taken.take(k).drop_first() =~= taken.drop_first().take(k - 1));
        lemma_prefix_count_step(taken.drop_first(), name, k - 1);
        assert(taken.take(k + 1)[0] == taken[0]);
        assert(taken.take(k)[0] == taken[0]);
    }
}

/// The mangled form of a requested name: unchanged when it prefixes no
/// taken name, otherwise suffixed with an underscore and the count of
/// matches.
pub open spec fn spec_mangle(taken: Seq<Seq<u8>>, name: Seq<u8>) -> Seq<u8> {
    let c = spec_prefix_count(taken, name);
    if c == 0 {
        name
    } else {
        name + seq![95u8] + dec_digits(c as nat)
    }
}

/// Applies the name-clash rule.
pub fn mangle_name(taken: &Vec<Vec<u8>>, name: &[u8]) -> (r: Vec<u8>)
    requires
        taken@.len() < 1_000_000,
    ensures
        r@ == spec_mangle(taken@.map_values(|v: Vec<u8>| v@), name@),
{
    let c = count_prefixed(taken, name);
    let mut out = vstd::slice::slice_to_vec(name);
    if c == 0 {
        out
    } else {
        proof {
            lemma_count_nonneg_prefix(taken@.map_values(|v: Vec<u8>| v@), name@);
        }
        out.push(95);
        let mut digits = fmt_u64(c as u64);
        out.append(&mut digits);
        proof {
            assert(out@ =~= name@ + seq![95u8] + dec_digits(c as nat));
        }
        out
    }
}

/// The prefix count is never negative.
pub proof fn lemma_count_nonneg_prefix(taken: Seq<Seq<u8>>, name: Seq<u8>)
    ensures
        spec_prefix_count(taken, name) >= 0,
    decreases taken.len(),
{
    if taken.len() > 0 {
        lemma_count_nonneg_prefix(taken.drop_first(), name);
    }
}

/// The session manager's own state: the names already taken and the ports.
pub struct Clients {
    /// Names taken by live or past UAVs this session.
    pub taken_names: Vec<Vec<u8>>,
    /// Consecutive missed heartbeats that despawn a UAV.
    pub hb_disconnect: usize,
    /// Base TCP port; a UAV in slot `s` steers on `first_port + s` and is
    /// controlled on `first_port + s + 1000`.
    pub first_port: usize,
}

/// The reply to a session-start request, together with what was started.
pub struct StartOutcome {
    /// The single text frame to send back.
    pub reply: Vec<u8>,
    /// The new UAV's id and slot when one was started.
    pub started: Option<(usize, usize)>,
}

impl Clients {
    /// A fresh session manager.
    pub fn new(hb_disconnect: usize, first_port: usize) -> (r: Clients)
        requires
            hb_disconnect >= 1,
            first_port <= 100_000,
        ensures
            r.taken_names@.len() == 0,
            r.hb_disconnect == hb_disconnect,
            r.first_port == first_port,
    {
        Clients { taken_names: Vec::new(), hb_disconnect, first_port }
    }

    /// Decides a session-start request.  An empty name is refused with
    /// `-1`; a missing configuration with `-2`; a full slot table with
    /// `-3`.  Otherwise the name is mangled by the clash rule, recorded,
    /// the UAV is started, and the reply is
    /// `<id>,<first_port+slot>,<first_port+slot+1000>`.
    pub fn startReply(&mut self, drones: &mut Drones, name: &[u8], config_exists: bool) -> (r:
        StartOutcome)
        requires
            drones_wf(*old(drones)),
            old(drones).next_id < usize::MAX,
            old(drones).slots@.len() <= 10_000,
            old(self).first_port <= 100_000,
            old(self).taken_names@.len() < 1_000_000,
            all_ascii(name@),
        ensures
            drones_wf(*final(drones)),
            final(self).hb_disconnect == old(self).hb_disconnect,
            final(self).first_port == old(self).first_port,
            name@.len() == 0 ==> r.reply@ == seq![45u8, 49u8] && r.started is None && *final(drones) == *old(drones) && *final(self) == *old(self),
            name@.len() > 0 && !config_exists ==> r.reply@ == seq![45u8, 50u8] && r.started is None
                && *final(drones) == *old(drones) && *final(self) == *old(self),
            name@.len() > 0 && config_exists ==> {
                let mangled = spec_mangle(
                    old(self).taken_names@.map_values(|v: Vec<u8>| v@),
                    name@,
                );
                &&& final(self).taken_names@.len() == old(self).taken_names@.len() + 1
                &&& final(self).taken_names@.last()@ == mangled
                &&& match r.started {
                    None => r.reply@ == seq![45u8, 51u8] && *final(drones) == *old(drones)
                        && (forall|j: int|
                        0 <= j < old(drones).slots@.len() ==> #[trigger] old(drones).slots@[j]
                            != 0),
                    Some((id, slot)) => {
                        &&& id == old(drones).next_id
                        &&& slot < old(drones).slots@.len()
                        &&& old(drones).slots@[slot as int] == 0
                        &&& (forall|j: int|
                            0 <= j < slot ==> #[trigger] old(drones).slots@[j] != 0)
                        &&& final(drones).uavs@.len() == old(drones).uavs@.len() + 1
                        &&& final(drones).uavs@.last().id == id
                        &&& final(drones).uavs@.last().name@ == bytes_as_chars(mangled)
                        &&& r.reply@ == dec_digits(id as nat) + seq![44u8] + dec_digits(
                            (old(self).first_port + slot) as nat,
                        ) + seq![44u8] + dec_digits((old(self).first_port + slot + 1000) as nat)
                    },
                }
            },
    {
        if name.len() == 0 {
            let mut reply: Vec<u8> = Vec::new();
            reply.push(45);
            reply.push(49);
            proof {
                assert(reply@ =~= seq![45u8, 49u8]);
            }
            return StartOutcome { reply, started: None };
        }
        if !config_exists {
            let mut reply: Vec<u8> = Vec::new();
            reply.push(45);
            reply.push(50);
            proof {
                assert(reply@ =~= seq![45u8, 50u8]);
            }
            return StartOutcome { reply, started: None };
        }
        let mangled = mangle_name(&self.taken_names, name);
        proof {
            lemma_mangle_ascii(
                old(self).taken_names@.map_values(|v: Vec<u8>| v@),
                name@,
            );
        }
        let mangled_str = ascii_to_string(copy_bytes(&mangled));
        self.taken_names.push(mangled);
        let (id, slot) = drones.startUAV(mangled_str, String::new());
        if id == 0 {
            let mut reply: Vec<u8> = Vec::new();
            reply.push(45);
            reply.push(51);
            proof {
                assert(reply@ =~= seq![45u8, 51u8]);
            }
            StartOutcome { reply, started: None }
        } else {
            let mut reply = fmt_u64(id as u64);
            reply.push(44);
            let mut p1 = fmt_u64((self.first_port + slot) as u64);
            reply.append(&mut p1);
            reply.push(44);
            let mut p2 = fmt_u64((self.first_port + slot + 1000) as u64);
            reply.append(&mut p2);
            proof {
                assert(reply@ =~= dec_digits(id as nat) + seq![44u8] + dec_digits(
                    (old(self).first_port + slot) as nat,
                ) + seq![44u8] + dec_digits((old(self).first_port + slot + 1000) as nat));
            }
            StartOutcome { reply, started: Some((id, slot)) }
        }
    }

    /// Decides a configuration upload: the reply is `ok;` followed by the
    /// first eight hex digits of the SHA-1 of the payload, which is also
    /// the stem under which the cleaned payload is stored.
    pub fn uploadReply(payload: &[u8]) -> (r: (Vec<u8>, Vec<u8>))
        ensures
            r.0@ == seq![111u8, 107u8, 59u8] + spec_hex(sha1_of(payload@)).take(8),
            r.1@ == spec_hex(sha1_of(payload@)).take(8),
            r.0@.len() == 11,
            forall|i: int|
                3 <= i < 11 ==> (48 <= #[trigger] r.0@[i] <= 57 || 97 <= r.0@[i] <= 102),
    {
        let stem = sha1_hex8(payload);
        let mut reply: Vec<u8> = Vec::new();
        reply.push(111);
        reply.push(107);
        reply.push(59);
        let mut h = copy_bytes(&stem);
        reply.append(&mut h);
        proof {
            assert(reply@ =~= seq![111u8, 107u8, 59u8] + spec_hex(sha1_of(payload@)).take(8));
        }
        (reply, stem)
    }
}

/// A control command from a client, one per frame.
#[derive(Clone, Copy, Debug, PartialEq, Eq, Structural)]
pub enum ControlCommand {
    /// Heartbeat.
    Beep,
    /// Fire the ammunition with this index.
    Shoot(usize),
    /// Drop the cargo with this index.
    Drop(usize),
    /// Remove every tether of this UAV.
    Release,
    /// Remove the UAV.
    Kill,
    /// Anything else, including a weapon command with a malformed index.
    Unknown,
}

/// The grammar of a control frame: the action up to the first semicolon,
/// then for the weapon commands a comma-separated parameter list whose
/// first entry is the index, missing meaning zero.
pub open spec fn spec_parse_control(s: Seq<u8>) -> ControlCommand {
    let parts = spec_split(s, 59);
    let action = parts[0];
    if action == seq![98u8, 101u8, 101u8, 112u8] {
        ControlCommand::Beep
    } else if action == seq![114u8, 101u8, 108u8, 101u8, 97u8, 115u8, 101u8] {
        ControlCommand::Release
    } else if action == seq![107u8, 105u8, 108u8, 108u8] {
        ControlCommand::Kill
    } else if action == seq![115u8, 104u8, 111u8, 111u8, 116u8] {
        match spec_control_index(parts) {
            Some(i) => ControlCommand::Shoot(i),
            None => ControlCommand::Unknown,
        }
    } else if action == seq![100u8, 114u8, 111u8, 112u8] {
        match spec_control_index(parts) {
            Some(i) => ControlCommand::Drop(i),
            None => ControlCommand::Unknown,
        }
    } else {
        ControlCommand::Unknown
    }
}

/// The weapon index of a control frame: zero when there is no parameter
/// part, else the first comma-separated entry, which must be a numeral.
pub open spec fn spec_control_index(parts: Seq<Seq<u8>>) -> Option<usize> {
    if parts.len() == 1 {
        Some(0)
    } else {
        let first = spec_split(parts[1], 44)[0];
        if first.len() > 0 && crate::text::is_digits(first) && crate::text::dec_value(first)
            <= usize::MAX {
            Some(crate::text::dec_value(first) as usize)
        } else {
            None
        }
    }
}

/// Parses one control frame.  A weapon command with an index that is not a
/// numeral is unknown rather than a panic; the caller answers `error`.
pub fn parse_control_msg(msg: &[u8]) -> (r: ControlCommand)
    ensures
        r == spec_parse_control(msg@),
{
    let parts = split_bytes(msg, 59);
    let action = parts[0].as_slice();
    proof {
        assert(parts@.map_values(|v: Vec<u8>| v@)[0] == parts@[0]@);
    }
    let beep = word(&[98, 101, 101, 112]);
    let release = word(&[114, 101, 108, 101, 97, 115, 101]);
    let kill = word(&[107, 105, 108, 108]);
    let shoot = word(&[115, 104, 111, 111, 116]);
    let dropw = word(&[100, 114, 111, 112]);
    if bytes_eq(action, beep.as_slice()) {
        ControlCommand::Beep
    } else if bytes_eq(action, release.as_slice()) {
        ControlCommand::Release
    } else if bytes_eq(action, kill.as_slice()) {
        ControlCommand::Kill
    } else if bytes_eq(action, shoot.as_slice()) {
        match control_index(&parts) {
            Some(i) => ControlCommand::Shoot(i),
            None => ControlCommand::Unknown,
        }
    } else if bytes_eq(action, dropw.as_slice()) {
        match control_index(&parts) {
            Some(i) => ControlCommand::Drop(i),
            None => ControlCommand::Unknown,
        }
    } else {
        ControlCommand::Unknown
    }
}

/// Copies a protocol word out of a static table.
fn word(bytes: &[u8]) -> (r: Vec<u8>)
    ensures
        r@ == bytes@,
{
    vstd::slice::slice_to_vec(bytes)
}

/// Reads the weapon index out of the split frame.
fn control_index(parts: &Vec<Vec<u8>>) -> (r: Option<usize>)
    requires
        parts@.len() >= 1,
    ensures
        r == spec_control_index(parts@.map_values(|v: Vec<u8>| v@)),
{
    if parts.len() == 1 {
        Some(0)
    } else {
        proof {
            assert(parts@.map_values(|v: Vec<u8>| v@)[1] == parts@[1]@);
        }
        let fields = split_bytes(parts[1].as_slice(), 44);
        proof {
            assert(fields@.map_values(|v: Vec<u8>| v@)[0] == fields@[0]@);
        }
        let parsed = parse_u64(fields[0].as_slice());
        match parsed {
            Some(n) => {
                if n <= usize::MAX as u64 {
                    Some(n as usize)
                } else {
                    None
                }
            },
            None => None,
        }
    }
}

/// Byte-string equality.
pub fn bytes_eq(a: &[u8], b: &[u8]) -> (r: bool)
    ensures
        r == (a@ == b@),
{
    if a.len() != b.len() {
        proof {
            assert(a@.len() != b@.len());
        }
        return false;
    }
    let mut i: usize = 0;
    while i < a.len()
        invariant
            a@.len() == b@.len(),
            i <= a@.len(),
            forall|j: int| 0 <= j < i ==> #[trigger] a@[j] == b@[j],
        decreases a@.len() - i,
    {
        if a[i] != b[i] {
            return false;
        }
        i = i + 1;
    }
    proof {
        assert(a@ =~= b@);
    }
    true
}

/// The reply to a weapon command: `ok` or, for a failed launch, `error`,
/// then the launcher's result and the new object id.
pub open spec fn spec_weapon_reply(res: int, obj_id: int) -> Seq<u8> {
    (if obj_id < 0 {
        seq![101u8, 114u8, 114u8, 111u8, 114u8]
    } else {
        seq![111u8, 107u8]
    }) + seq![59u8] + crate::text::int_text(res) + seq![44u8] + crate::text::int_text(obj_id)
}

/// Builds the weapon reply.
pub fn weapon_reply(res: i64, obj_id: i64) -> (r: Vec<u8>)
    requires
        res > i64::MIN,
        obj_id > i64::MIN,
    ensures
        r@ == spec_weapon_reply(res as int, obj_id as int),
{
    let mut out: Vec<u8> = Vec::new();
    if obj_id < 0 {
        out.push(101);
        out.push(114);
        out.push(114);
        out.push(111);
        out.push(114);
    } else {
        out.push(111);
        out.push(107);
    }
    out.push(59);
    let mut a = crate::text::fmt_i64(res);
    out.append(&mut a);
    out.push(44);
    let mut b = crate::text::fmt_i64(obj_id);
    out.append(&mut b);
    proof {
        assert(out@ =~= spec_weapon_reply(res as int, obj_id as int));
    }
    out
}

/// Bytes that may sit in a JSON string without escaping: printable ASCII
/// except the quote and the backslash.
pub open spec fn json_plain(s: Seq<u8>) -> bool {
    forall|i: int| 0 <= i < s.len() ==> 32 <= #[trigger] s[i] < 127 && s[i] != 34 && s[i] != 92
}

/// The info reply: a JSON object with the assets checksum, the map name,
/// and the configuration stems, all given as plain text.
pub open spec fn spec_info_json(checksum: Seq<u8>, map_name: Seq<u8>, configs: Seq<Seq<u8>>)
    -> Seq<u8> {
    seq![123u8, 34u8, 99u8, 104u8, 101u8, 99u8, 107u8, 115u8, 117u8, 109u8, 34u8, 58u8, 34u8]
        + checksum + seq![34u8, 44u8, 34u8, 109u8, 97u8, 112u8, 34u8, 58u8, 34u8] + map_name
        + seq![34u8, 44u8, 34u8, 99u8, 111u8, 110u8, 102u8, 105u8, 103u8, 115u8, 34u8, 58u8, 91u8]
        + spec_json_list(configs) + seq![93u8, 125u8]
}

/// The quoted, comma-separated configuration stems.
pub open spec fn spec_json_list(configs: Seq<Seq<u8>>) -> Seq<u8>
    decreases configs.len(),
{
    if configs.len() == 0 {
        Seq::empty()
    } else if configs.len() == 1 {
        seq![34u8] + configs[0] + seq![34u8]
    } else {
        seq![34u8] + configs[0] + seq![34u8, 44u8] + spec_json_list(configs.drop_first())
    }
}

/// Builds the info reply.  The inputs must be plain JSON text: the checksum
/// is hex, the map and the stems are file names; the caller drops anything
/// else before asking.
pub fn getServerInfo(checksum: &[u8], map_name: &[u8], configs: &Vec<Vec<u8>>) -> (r: Vec<u8>)
    requires
        json_plain(checksum@),
        json_plain(map_name@),
        forall|k: int| 0 <= k < configs@.len() ==> json_plain(#[trigger] configs@[k]@),
    ensures
        r@ == spec_info_json(checksum@, map_name@, configs@.map_values(|v: Vec<u8>| v@)),
{
    let ghost gc = configs@.map_values(|v: Vec<u8>| v@);
    let mut out: Vec<u8> = Vec::new();
    out.push(123);
    out.push(34);
    out.push(99);
    out.push(104);
    out.push(101);
    out.push(99);
    out.push(107);
    out.push(115);
    out.push(117);
    out.push(109);
    out.push(34);
    out.push(58);
    out.push(34);
    let mut c = vstd::slice::slice_to_vec(checksum);
    out.append(&mut c);
    out.push(34);
    out.push(44);
    out.push(34);
    out.push(109);
    out.push(97);
    out.push(112);
    out.push(34);
    out.push(58);
    out.push(34);
    let mut m = vstd::slice::slice_to_vec(map_name);
    out.append(&mut m);
    out.push(34);
    out.push(44);
    out.push(34);
    out.push(99);
    out.push(111);
    out.push(110);
    out.push(102);
    out.push(105);
    out.push(103);
    out.push(115);
    out.push(34);
    out.push(58);
    out.push(91);
    let ghost head = out@;
    proof {
        assert(head =~= seq![
            123u8, 34u8, 99u8, 104u8, 101u8, 99u8, 107u8, 115u8, 117u8, 109u8, 34u8, 58u8, 34u8,
        ] + checksum@ + seq![34u8, 44u8, 34u8, 109u8, 97u8, 112u8, 34u8, 58u8, 34u8] + map_name@
            + seq![
            34u8, 44u8, 34u8, 99u8, 111u8, 110u8, 102u8, 105u8, 103u8, 115u8, 34u8, 58u8, 91u8,
        ]);
    }
    let n = configs.len();
    let mut k: usize = 0;
    while k < n
        invariant
            n == configs@.len(),
            k <= n,
            gc == configs@.map_values(|v: Vec<u8>| v@),
            out@ == head + spec_json_list_prefix(gc, k as int),
        decreases n - k,
    {
        if k > 0 {
            out.push(44);
        }
        out.push(34);
        let mut s = copy_bytes(&configs[k]);
        out.append(&mut s);
        out.push(34);
        proof {
            assert(gc[k as int] == configs@[k as int]@);
            lemma_json_list_prefix_step(gc, k as int);
            assert(out@ =~= head + spec_json_list_prefix(gc, k as int + 1));
        }
        k = k + 1;
    }
    out.push(93);
    out.push(125);
    proof {
        lemma_json_list_prefix_full(gc);
        assert(out@ =~= spec_info_json(checksum@, map_name@, gc));
    }
    out
}

/// The list text of the first `k` stems.
pub open spec fn spec_json_list_prefix(configs: Seq<Seq<u8>>, k: int) -> Seq<u8>
    decreases k,
{
    if k <= 0 {
        Seq::empty()
    } else if k == 1 {
        seq![34u8] + configs[0] + seq![34u8]
    } else {
        spec_json_list_prefix(configs, k - 1) + seq![44u8, 34u8] + configs[k - 1] + seq![34u8]
    }
}

/// Appending the next stem extends the prefix text.
proof fn lemma_json_list_prefix_step(configs: Seq<Seq<u8>>, k: int)
    requires
        0 <= k,
    ensures
        spec_json_list_prefix(configs, k + 1) == if k == 0 {
            seq![34u8] + configs[0] + seq![34u8]
        } else {
            spec_json_list_prefix(configs, k) + seq![44u8, 34u8] + configs[k] + seq![34u8]
        },
{
}

/// The full prefix is the whole list.
proof fn lemma_json_list_prefix_full(configs: Seq<Seq<u8>>)
    ensures
        spec_json_list_prefix(configs, configs.len() as int) == spec_json_list(configs),
    decreases configs.len(),
{
    if configs.len() == 0 {
    } else if configs.len() == 1 {
        assert(spec_json_list_prefix(configs, 1) =~= spec_json_list(configs));
    } else {
        let rest = configs.drop_first();
        lemma_json_list_prefix_full(rest);
        lemma_json_prefix_shift(configs, configs.len() as int);
        assert(spec_json_list(configs) =~= seq![34u8] + configs[0] + seq![34u8, 44u8]
            + spec_json_list(rest));
        assert(spec_json_list_prefix(configs, configs.len() as int) =~= seq![34u8] + configs[0]
            + seq![34u8, 44u8] + spec_json_list_prefix(rest, rest.len() as int));
    }
}

/// A prefix of the tail relates to the prefix of the whole list.
proof fn lemma_json_prefix_shift(configs: Seq<Seq<u8>>, k: int)
    requires
        2 <= k <= configs.len(),
    ensures
        spec_json_list_prefix(configs, k) == seq![34u8] + configs[0] + seq![34u8, 44u8]
            + spec_json_list_prefix(configs.drop_first(), k - 1),
    decreases k,
{
    let rest = configs.drop_first();
    if k == 2 {
        assert(rest[0] == configs[1]);
        assert(spec_json_list_prefix(configs, 1) =~= seq![34u8] + configs[0] + seq![34u8]);
        assert(spec_json_list_prefix(rest, 1) =~= seq![34u8] + configs[1] + seq![34u8]);
        assert(spec_json_list_prefix(configs, 2) =~= seq![34u8] + configs[0] + seq![34u8, 44u8]
            + spec_json_list_prefix(rest, 1));
    } else {
        lemma_json_prefix_shift(configs, k - 1);
        assert(rest[k - 2] == configs[k - 1]);
        assert(spec_json_list_prefix(configs, k) =~= seq![34u8] + configs[0] + seq![34u8, 44u8]
            + spec_json_list_prefix(rest, k - 1));
    }
}

/// The bytes open an XML comment, `<!--`.
pub open spec fn starts_open(s: Seq<u8>) -> bool {
    s.len() >= 4 && s[0] == 60 && s[1] == 33 && s[2] == 45 && s[3] == 45
}

/// The bytes close an XML comment, `-->`.
pub open spec fn starts_close(s: Seq<u8>) -> bool {
    s.len() >= 3 && s[0] == 45 && s[1] == 45 && s[2] == 62
}

/// One pass over the text that drops comments: outside a comment every
/// byte is kept until `<!--`; inside, everything is dropped up to and
/// including `-->`.  A comment left open runs to the end of the text.
pub open spec fn spec_strip_comments(s: Seq<u8>, in_comment: bool) -> Seq<u8>
    decreases s.len(),
{
    if s.len() == 0 {
        Seq::empty()
    } else if in_comment {
        if starts_close(s) {
            spec_strip_comments(s.skip(3), false)
        } else {
            spec_strip_comments(s.skip(1), true)
        }
    } else if starts_open(s) {
        spec_strip_comments(s.skip(4), true)
    } else {
        seq![s[0]] + spec_strip_comments(s.skip(1), false)
    }
}

/// Only spaces, tabs and carriage returns: a line that the cleaner drops.
pub open spec fn spec_blank(line: Seq<u8>) -> bool {
    forall|i: int| 0 <= i < line.len() ==> (#[trigger] line[i] == 32 || line[i] == 9 || line[i]
        == 13)
}

/// What an uploaded configuration looks like after cleaning: comments
/// stripped, then the blank lines dropped and the rest rejoined.
pub open spec fn spec_clean_xml(s: Seq<u8>) -> Seq<u8> {
    crate::text::spec_join(
        spec_split(spec_strip_comments(s, false), 10).filter(|l: Seq<u8>| !spec_blank(l)),
        10,
    )
}

/// Strips XML comments and blank lines from an uploaded configuration
/// before it is persisted.
pub fn remove_xml_comments(xml: &[u8]) -> (r: Vec<u8>)
    ensures
        r@ == spec_clean_xml(xml@),
{
    let mut stripped: Vec<u8> = Vec::new();
    let mut i: usize = 0;
    let mut in_comment = false;
    proof {
        assert(xml@.skip(0) =~= xml@);
    }
    while i < xml.len()
        invariant
            i <= xml@.len(),
            spec_strip_comments(xml@, false) == stripped@ + spec_strip_comments(
                xml@.skip(i as int),
                in_comment,
            ),
        decreases xml@.len() - i,
    {
        let ghost rest = xml@.skip(i as int);
        if in_comment {
            if xml.len() - i >= 3 && xml[i] == 45 && xml[i + 1] == 45 && xml[i + 2] == 62 {
                proof {
                    assert(rest[0] == xml@[i as int]);
                    assert(rest[1] == xml@[i as int + 1]);
                    assert(rest[2] == xml@[i as int + 2]);
                    assert(starts_close(rest));
                    assert(rest.skip(3) =~= xml@.skip(i as int + 3));
                }
                i = i + 3;
                in_comment = false;
            } else {
                proof {
                    assert(rest[0] == xml@[i as int]);
                    if rest.len() >= 3 {
                        assert(rest[1] == xml@[i as int + 1]);
                        assert(rest[2] == xml@[i as int + 2]);
                    }
                    assert(!starts_close(rest));
                    assert(rest.skip(1) =~= xml@.skip(i as int + 1));
                }
                i = i + 1;
            }
        } else {
            if xml.len() - i >= 4 && xml[i] == 60 && xml[i + 1] == 33 && xml[i + 2] == 45 && xml[i
                + 3] == 45 {
                proof {
                    assert(rest[0] == xml@[i as int]);
                    assert(rest[1] == xml@[i as int + 1]);
                    assert(rest[2] == xml@[i as int + 2]);
                    assert(rest[3] == xml@[i as int + 3]);
                    assert(starts_open(rest));
                    assert(rest.skip(4) =~= xml@.skip(i as int + 4));
                }
                i = i + 4;
                in_comment = true;
            } else {
                proof {
                    assert(rest[0] == xml@[i as int]);
                    if rest.len() >= 4 {
                        assert(rest[1] == xml@[i as int + 1]);
                        assert(rest[2] == xml@[i as int + 2]);
                        assert(rest[3] == xml@[i as int + 3]);
                    }
                    assert(!starts_open(rest));
                    assert(rest.skip(1) =~= xml@.skip(i as int + 1));
                    assert(stripped@.push(xml@[i as int]) + spec_strip_comments(
                        xml@.skip(i as int + 1),
                        false,
                    ) =~= stripped@ + spec_strip_comments(rest, false));
                }
                let b = xml[i];
                stripped.push(b);
                i = i + 1;
            }
        }
    }
    proof {
        assert(xml@.skip(xml@.len() as int) =~= Seq::<u8>::empty());
        assert(stripped@ + Seq::<u8>::empty() =~= stripped@);
    }
    let lines = split_bytes(stripped.as_slice(), 10);
    let ghost glines = spec_split(stripped@, 10);
    let mut kept: Vec<Vec<u8>> = Vec::new();
    let mut k: usize = 0;
    proof {
        reveal(Seq::filter);
        assert(glines.take(0).filter(|l: Seq<u8>| !spec_blank(l)) =~= Seq::<Seq<u8>>::empty());
    }
    while k < lines.len()
        invariant
            k <= lines@.len(),
            lines@.map_values(|v: Vec<u8>| v@) == glines,
            kept@.map_values(|v: Vec<u8>| v@) == glines.take(k as int).filter(
                |l: Seq<u8>| !spec_blank(l),
            ),
        decreases lines@.len() - k,
    {
        proof {
            reveal(Seq::filter);
            assert(glines.take(k + 1).drop_last() =~= glines.take(k as int));
            assert(glines.take(k + 1).last() == glines[k as int]);
            assert(lines@.map_values(|v: Vec<u8>| v@)[k as int] == lines@[k as int]@);
        }
        let blank = line_blank(lines[k].as_slice());
        if !blank {
            let ghost pre = kept@;
            let line = copy_bytes(&lines[k]);
            kept.push(line);
            proof {
                assert(kept@.map_values(|v: Vec<u8>| v@) =~= pre.map_values(
                    |v: Vec<u8>| v@,
                ).push(glines[k as int]));
            }
        }
        k = k + 1;
    }
    proof {
        assert(glines.take(glines.len() as int) =~= glines);
    }
    crate::text::join_bytes(&kept, 10)
}

/// Whether a line holds only whitespace.
fn line_blank(line: &[u8]) -> (r: bool)
    ensures
        r == spec_blank(line@),
{
    let mut i: usize = 0;
    while i < line.len()
        invariant
            i <= line@.len(),
            forall|j: int|
                0 <= j < i ==> (#[trigger] line@[j] == 32 || line@[j] == 9 || line@[j] == 13),
        decreases line@.len() - i,
    {
        let b = line[i];
        if !(b == 32 || b == 9 || b == 13) {
            return false;
        }
        i = i + 1;
    }
    true
}

/// A mangled ASCII name stays ASCII: the suffix is an underscore and
/// digits.
pub proof fn lemma_mangle_ascii(taken: Seq<Seq<u8>>, name: Seq<u8>)
    requires
        all_ascii(name),
    ensures
        all_ascii(spec_mangle(taken, name)),
{
    let c = spec_prefix_count(taken, name);
    lemma_count_nonneg_prefix(taken, name);
    if c != 0 {
        lemma_dec_digits_ok(c as nat);
        let m = name + seq![95u8] + dec_digits(c as nat);
        assert forall|i: int| 0 <= i < m.len() implies #[trigger] m[i] < 128 by {
            if i < name.len() {
                assert(m[i] == name[i]);
            } else if i == name.len() {
            } else {
                assert(m[i] == dec_digits(c as nat)[i - name.len() - 1]);
                assert(crate::text::is_digit(dec_digits(c as nat)[i - name.len() - 1]));
            }
        }
    }
}

/// Plain copy of a byte vector.
pub fn copy_bytes(v: &Vec<u8>) -> (r: Vec<u8>)
    ensures
        r@ == v@,
{
    vstd::slice::slice_to_vec(v.as_slice())
}

} // verus!
