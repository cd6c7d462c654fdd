//! Wire-protocol behaviour: state records, session replies and uploads.

use uav_aggregator::clients::{
    parse_control_msg, remove_xml_comments, weapon_reply, Clients, ControlCommand, ControlSession,
};
use uav_aggregator::drones::Drones;
use uav_aggregator::geom::{Quat, Vec3};
use uav_aggregator::objects::object_state_records;
use uav_aggregator::text::{fmt_fix, parse_fix, parse_u64, split_bytes};
use uav_aggregator::uav::{launch_decision, parse_launch_reply, DroneState, LaunchSpec, StateTopic};

fn state_of(time: i64, pos: [i64; 7], vel: [i64; 6], om: Vec<i64>) -> DroneState {
    DroneState { time, pos: pos.to_vec(), vel: vel.to_vec(), om }
}

#[test]
fn drone_state_round_trips_through_wire() {
    let st = state_of(
        1_500_000,
        [2_000_000, -3_250_000, 0, 1_000_000, 0, 0, 0],
        [10_000, -20_000, 30_000, 0, 0, 0],
        vec![5_000_000, 5_500_000],
    );
    let wire = st.to_wire();
    let text = String::from_utf8(wire.clone()).unwrap();
    assert_eq!(
        text,
        "1.500000,2.000000,-3.250000,0.000000,1.000000,0.000000,0.000000,0.000000,\
         0.010000,-0.020000,0.030000,0.000000,0.000000,0.000000,5.000000,5.500000"
            .replace(" ", "")
    );
    let back = DroneState::from_wire(&wire).expect("parse back");
    assert_eq!(back.time, st.time);
    assert_eq!(back.pos, st.pos);
    assert_eq!(back.vel, st.vel);
    assert_eq!(back.om, st.om);
}

#[test]
fn wire_record_with_too_few_fields_is_rejected() {
    assert!(DroneState::from_wire(b"1.0,2.0,3.0").is_none());
    assert!(DroneState::from_wire(b"").is_none());
}

#[test]
fn fixed_point_text_round_trips() {
    for v in [
        0i64,
        1,
        -1,
        1_000_000,
        -1_500_000,
        123_456_789,
        -987_654_321,
        1_000_000_000_000,
        -1_000_000_000_000,
    ] {
        let text = fmt_fix(v);
        assert_eq!(parse_fix(&text), Some(v), "value {v}");
    }
}

#[test]
fn malformed_numbers_are_rejected() {
    assert_eq!(parse_fix(b"abc"), None);
    assert_eq!(parse_fix(b""), None);
    assert_eq!(
        parse_fix(b"1.2345678"),
        Some(1_234_567),
        "digits beyond the sixth are truncated"
    );
    assert_eq!(parse_fix(b"1..2"), None);
    assert_eq!(parse_fix(b"--1"), None);
    assert_eq!(parse_u64(b""), None);
    assert_eq!(parse_u64(b"12a"), None);
    assert_eq!(parse_u64(b"42"), Some(42));
    assert_eq!(parse_fix(b"2000000000000.0"), None, "beyond the coordinate range");
}

#[test]
fn split_preserves_empty_fields() {
    let parts = split_bytes(b"a,,b", 44);
    let views: Vec<&[u8]> = parts.iter().map(|p| p.as_slice()).collect();
    assert_eq!(views, vec![b"a" as &[u8], b"", b"b"]);
}

#[test]
fn heartbeat_counter_counts_up_and_resets() {
    let mut s = ControlSession::new(5);
    for expected in 1..=4usize {
        let kill = s.handle_recv(false);
        assert!(!kill);
        assert_eq!(s.skipped_heartbeats, expected);
    }
    let kill = s.handle_recv(true);
    assert!(!kill);
    assert_eq!(s.skipped_heartbeats, 0, "a received message resets the counter");
    let mut gone = ControlSession::new(2);
    assert!(!gone.handle_recv(false));
    assert!(gone.handle_recv(false), "reaching the limit kills the session");
}

#[test]
fn spawn_kill_respawn_reuses_slot_zero() {
    let mut drones = Drones::new(2);
    let mut clients = Clients::new(5, 9000);
    let first = clients.startReply(&mut drones, b"m", true);
    assert_eq!(String::from_utf8(first.reply).unwrap(), "1,9000,10000");
    let (id, slot) = first.started.unwrap();
    assert_eq!((id, slot), (1, 0));
    drones.removeUAV(id);
    let second = clients.startReply(&mut drones, b"x", true);
    let (id2, slot2) = second.started.unwrap();
    assert_eq!(slot2, 0, "slot zero is reused");
    assert_eq!(id2, 2, "ids are never reused");
}

#[test]
fn second_spawn_of_same_name_becomes_m_1() {
    let mut drones = Drones::new(4);
    let mut clients = Clients::new(5, 9000);
    let first = clients.startReply(&mut drones, b"m", true);
    assert!(first.started.is_some());
    let second = clients.startReply(&mut drones, b"m", true);
    assert!(second.started.is_some());
    let names: Vec<String> = drones
        .uavs
        .iter()
        .map(|u| u.name.clone())
        .collect();
    assert_eq!(names, vec!["m".to_string(), "m_1".to_string()]);
}

#[test]
fn spawn_past_client_limit_replies_minus_three() {
    let mut drones = Drones::new(1);
    let mut clients = Clients::new(5, 9000);
    let first = clients.startReply(&mut drones, b"a", true);
    assert!(first.started.is_some());
    let second = clients.startReply(&mut drones, b"b", true);
    assert_eq!(String::from_utf8(second.reply).unwrap(), "-3");
    assert!(second.started.is_none());
}

#[test]
fn empty_name_and_missing_config_are_rejected() {
    let mut drones = Drones::new(1);
    let mut clients = Clients::new(5, 9000);
    let r1 = clients.startReply(&mut drones, b"", true);
    assert_eq!(String::from_utf8(r1.reply).unwrap(), "-1");
    let r2 = clients.startReply(&mut drones, b"a", false);
    assert_eq!(String::from_utf8(r2.reply).unwrap(), "-2");
    assert_eq!(drones.uavs.len(), 0);
}

#[test]
fn server_reply_on_config_send_correctly() {
    let (reply, stem) = Clients::uploadReply(b"abc");
    let text = String::from_utf8(reply).unwrap();
    let pattern = r"^ok;[A-Za-z0-9]{8}$";
    let regex = regex::Regex::new(pattern).unwrap();
    assert!(regex.is_match(&text));
    assert_eq!(text, "ok;a9993e36", "first eight hex digits of SHA-1(abc)");
    assert_eq!(String::from_utf8(stem).unwrap(), "a9993e36");
}

#[test]
fn server_reply_info_correctly() {
    let configs = vec![b"config".to_vec(), b"a9993e36".to_vec()];
    let reply = uav_aggregator::clients::getServerInfo(b"deadbeef", b"city", &configs);
    let text = String::from_utf8(reply).unwrap();
    let parsed: serde_json::Value = serde_json::from_str(&text).expect("Can not parse json");
    let obj = parsed.as_object().expect("Response should be object");
    assert!(obj.contains_key("checksum") && obj.get("checksum").unwrap().is_string());
    assert!(obj.contains_key("map") && obj.get("map").unwrap().is_string());
    assert!(obj.contains_key("configs") && obj.get("configs").unwrap().is_array());
    assert_eq!(obj.get("checksum").unwrap().as_str().unwrap(), "deadbeef");
    assert_eq!(
        obj.get("configs").unwrap().as_array().unwrap().len(),
        2,
        "both configuration stems are listed"
    );
}

#[test]
fn log_session_name_is_fixed_once() {
    let mut logger = uav_aggregator::logger::Logger::new();
    logger.startSession(1700000000);
    assert_eq!(logger.session, b"1700000000".to_vec());
    logger.startSession(1800000000);
    assert_eq!(logger.session, b"1700000000".to_vec(), "later starts keep the name");
    let name = uav_aggregator::logger::Logger::determinateSessionName(42);
    assert_eq!(name, "42");
}

#[test]
fn config_reads_are_typed_exactly() {
    let mut cfg = uav_aggregator::config::ServerConfig::new();
    cfg.push_entry("client_limit".to_string(), "8".to_string());
    cfg.push_entry("map".to_string(), "city".to_string());
    cfg.push_entry("q_exit".to_string(), "true".to_string());
    cfg.push_entry("broken".to_string(), "8x".to_string());
    assert_eq!(cfg.get_usize("client_limit"), Some(8));
    assert_eq!(cfg.get_usize("missing"), None);
    assert_eq!(cfg.get_usize("broken"), None);
    assert_eq!(cfg.get_str("map").unwrap(), "city");
    assert_eq!(cfg.get_bool("q_exit"), Some(true));
    assert_eq!(cfg.get_bool("map"), None);
}

#[test]
fn wind_function_parses_matrix_and_bias() {
    let parsed = uav_aggregator::config::parseWindFunction(
        b"1.0,0.0,0.0;0.0,1.0,0.0;0.0,0.0,2.5",
        b"0.5,0.0,-1.0",
    )
    .expect("well-formed wind configuration");
    let (m, b) = parsed;
    assert_eq!(m.m11, 1_000_000);
    assert_eq!(m.m33, 2_500_000);
    assert_eq!(m.m12, 0);
    assert_eq!(b.x, 500_000);
    assert_eq!(b.z, -1_000_000);
    assert!(uav_aggregator::config::parseWindFunction(b"1.0,2.0", b"0,0,0").is_none());
}

#[test]
fn control_commands_parse_exactly() {
    assert_eq!(parse_control_msg(b"beep"), ControlCommand::Beep);
    assert_eq!(parse_control_msg(b"release"), ControlCommand::Release);
    assert_eq!(parse_control_msg(b"kill"), ControlCommand::Kill);
    assert_eq!(parse_control_msg(b"shoot;2"), ControlCommand::Shoot(2));
    assert_eq!(parse_control_msg(b"shoot"), ControlCommand::Shoot(0), "missing index means zero");
    assert_eq!(parse_control_msg(b"drop;1,extra"), ControlCommand::Drop(1));
    assert_eq!(parse_control_msg(b"drop;x"), ControlCommand::Unknown, "a bad index is refused");
    assert_eq!(parse_control_msg(b"warp"), ControlCommand::Unknown);
    assert_eq!(String::from_utf8(weapon_reply(0, 17)).unwrap(), "ok;0,17");
    assert_eq!(String::from_utf8(weapon_reply(-10, -1)).unwrap(), "error;-10,-1");
}

#[test]
fn xml_comments_and_blank_lines_are_stripped() {
    let cleaned = remove_xml_comments(b"<a>1</a>\n<!-- note -->\n<b>2</b>");
    assert_eq!(String::from_utf8(cleaned).unwrap(), "<a>1</a>\n<b>2</b>");
    let multi = remove_xml_comments(b"<a><!-- one --><b><!-- two --></b></a>");
    assert_eq!(String::from_utf8(multi).unwrap(), "<a><b></b></a>");
    let blank = remove_xml_comments(b"x\n   \n\t\ny");
    assert_eq!(String::from_utf8(blank).unwrap(), "x\ny");
}

#[test]
fn topic_messages_fold_into_the_state() {
    let mut st = DroneState::new();
    st.applyTopic(StateTopic::Time, b"t:2.500000");
    assert_eq!(st.time, 2_500_000);
    st.applyTopic(StateTopic::Pose, b"pos:1.0,2.0,3.0,1.0,0.0,0.0,0.0");
    assert_eq!(st.pos, vec![1_000_000, 2_000_000, 3_000_000, 1_000_000, 0, 0, 0]);
    st.applyTopic(StateTopic::Velocity, b"vn:0.5,0.0,0.0,0.0,0.0,bad");
    assert_eq!(
        st.vel,
        vec![500_000, 0, 0, 0, 0, -1_000_000],
        "an unreadable field stays at minus one"
    );
    st.applyTopic(StateTopic::Rotors, b"om:100.0,bad,200.0");
    assert_eq!(st.om, vec![100_000_000, 200_000_000], "unreadable rotor fields are skipped");
    st.applyTopic(StateTopic::Pose, b"pos:9.0");
    assert_eq!(st.pos[0], 9_000_000);
    assert_eq!(st.pos[1], -1_000_000, "short pose messages pad with minus one");
}

#[test]
fn publisher_frame_lists_every_live_uav() {
    let mut drones = Drones::new(2);
    assert_eq!(drones.stateFrame(), b";".to_vec(), "an empty world publishes one semicolon");
    let (id, _) = drones.startUAV("a".to_string(), "quad".to_string());
    let mut st = DroneState::new();
    st.time = 1_500_000;
    drones.updateState(id, st);
    let frame = String::from_utf8(drones.stateFrame()).unwrap();
    assert!(frame.starts_with("1,1.500000,"), "id, then the state record: {frame}");
    assert!(frame.ends_with(";"));
}

#[test]
fn launch_decision_checks_bounds_and_rotates_the_offset() {
    let spec = LaunchSpec {
        length: 1_000_000,
        k: 10_000_000,
        b: 500_000,
        offset: Vec3 { x: 0, y: 0, z: 500_000 },
        mass: 2_000_000,
        cs: 300_000,
        radius: 100_000,
    };
    let params = vec![spec];
    let identity = Quat { w: 1_000_000, x: 0, y: 0, z: 0 };
    let pos = Vec3 { x: 1_000_000, y: 0, z: 0 };
    let hit = launch_decision(&params, 0, pos, identity).expect("index in bounds");
    assert_eq!(hit.0, spec);
    assert_eq!(hit.1, Vec3 { x: 1_000_000, y: 0, z: 500_000 }, "spawn at pos + R(ori) offset");
    assert!(launch_decision(&params, 1, pos, identity).is_none(), "index past the slots");
}

#[test]
fn launch_reply_parses_result_and_velocity() {
    let (res, vel) = parse_launch_reply(b"ok;2,0.5,0.0,-1.0").expect("well-formed reply");
    assert_eq!(res, 2);
    assert_eq!((vel.x, vel.y, vel.z), (500_000, 0, -1_000_000));
    let (res2, _) = parse_launch_reply(b"ok;-3,0.0,0.0,0.0").expect("negative result");
    assert_eq!(res2, -3);
    assert!(parse_launch_reply(b"ok").is_none(), "no payload part");
    assert!(parse_launch_reply(b"ok;1,0.5").is_none(), "too few fields");
    assert!(parse_launch_reply(b"ok;x,0.0,0.0,0.0").is_none(), "bad result field");
}

#[test]
fn object_state_frame_parses_records_and_time() {
    let (time, records) =
        object_state_records(b"2.5;7,1.0,0.0,0.0,0.0,0.0,-1.0;bad;8,0.0,2.0,0.0,0.0,0.0,0.0");
    assert_eq!(time, Some(2_500_000));
    assert_eq!(records.len(), 2, "the malformed record is skipped");
    assert_eq!(records[0].0, 7);
    assert_eq!(records[0].1.x, 1_000_000);
    assert_eq!(records[0].2.z, -1_000_000);
    assert_eq!(records[1].0, 8);
}

#[test]
fn child_command_texts_are_exact() {
    let v = |x: i64, y: i64, z: i64| Vec3 { x, y, z };
    let add = uav_aggregator::objects::add_request(
        2_000_000,
        300_000,
        v(1_000_000, 0, 0),
        v(0, 0, -500_000),
    );
    assert_eq!(
        String::from_utf8(add).unwrap(),
        "a:2.000000,0.300000,1.000000,0.000000,0.000000,0.000000,0.000000,-0.500000"
    );
    let force = uav_aggregator::uav::force_command(v(0, 0, 5_000_000), v(0, 0, 0));
    assert_eq!(
        String::from_utf8(force).unwrap(),
        "f:0.000000,0.000000,5.000000,0.000000,0.000000,0.000000"
    );
    let atmo = uav_aggregator::uav::atmosphere_command(
        v(1_000_000, 0, 0),
        288_150_000,
        b"101325",
        1_225_000,
    );
    assert_eq!(
        String::from_utf8(atmo).unwrap(),
        "a:1.000000,0.000000,0.000000,288.150000,101325,1.225000"
    );
    assert_eq!(
        String::from_utf8(uav_aggregator::objects::remove_request(9)).unwrap(),
        "r:9"
    );
    assert_eq!(
        String::from_utf8(uav_aggregator::uav::slot_command(b'd', 2)).unwrap(),
        "d:2"
    );
}

#[test]
fn types_frame_is_exact() {
    let pairs = vec![(1usize, b"quad".to_vec()), (2usize, b"heli".to_vec())];
    let frame = uav_aggregator::drones::typesFrame(&pairs);
    assert_eq!(String::from_utf8(frame).unwrap(), "t:1,quad;2,heli;");
}
