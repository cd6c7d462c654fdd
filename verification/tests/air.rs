//! Atmosphere, rotation and notification behaviour.

use uav_aggregator::atmosphere::{calcDensity, calcTemperature, calcWind, calcWindTurbulance};
use uav_aggregator::collision::quaterionToRot3;
use uav_aggregator::drones::Drones;
use uav_aggregator::geom::{Mat3, Quat, Vec3};
use uav_aggregator::notification::{check_acceleration, Notification, PromptCategory, PromptColor};

fn v(x: i64, y: i64, z: i64) -> Vec3 {
    Vec3 { x, y, z }
}

const EPS: i64 = 10_000;  // a hundredth of a unit, in fixed point

fn close(a: i64, b: i64) -> bool {
    (a - b).abs() < EPS
}

#[test]
fn calc_temp_test() {
    assert!(close(calcTemperature(0, 0), 0));
    assert!(close(calcTemperature(0, 50_000_000), 50_000_000));
    assert!(close(calcTemperature(0, -50_000_000), -50_000_000));
    assert!(close(calcTemperature(1_000_000_000, 0), -6_500_000));
    assert!(close(calcTemperature(2_000_000_000, 0), -13_000_000));
}

#[test]
fn temperature_follows_the_isa_lapse() {
    // T(1000 m, 288.15 K) = 281.65 K and T(2000 m, 288.15 K) = 275.15 K
    assert!(close(calcTemperature(1_000_000_000, 288_150_000), 281_650_000));
    assert!(close(calcTemperature(2_000_000_000, 288_150_000), 275_150_000));
}

#[test]
fn calc_density_test() {
    assert!(close(calcDensity(273_150_000, 0), 0));
    assert!(close(calcDensity(273_150_000 + 20_000_000, 101_325_000_000), 1_204_000));
    assert!(close(calcDensity(273_150_000 + 15_000_000, 101_325_000_000), 1_225_000));
}

#[test]
fn wind_is_affine_in_position() {
    let m = Mat3 {
        m11: 1_000_000,
        m12: 0,
        m13: 0,
        m21: 0,
        m22: 1_000_000,
        m23: 0,
        m31: 0,
        m32: 0,
        m33: 2_000_000,
    };
    let bias = v(500_000, 0, -1_000_000);
    let w = calcWind(v(1_000_000, 2_000_000, 3_000_000), m, bias);
    assert_eq!(w, v(1_500_000, 2_000_000, 5_000_000));
}

#[test]
fn turbulence_walks_within_three_sigma() {
    let sigma = 1_000_000i64;
    let mut t = 0i64;
    for _ in 0..200 {
        let next = calcWindTurbulance(t, sigma);
        assert!((next - t).abs() <= sigma, "one step moves at most sigma");
        assert!(next.abs() <= 3 * sigma, "the walk stays clamped");
        t = next;
    }
    assert_eq!(calcWindTurbulance(123, 0), 123, "zero scale disables turbulence");
}

#[test]
fn create_rot_matrix_from_quaterion() {
    // Example from MATLAB docs
    // https://www.mathworks.com/help/nav/ref/quaternion.rotmat.html
    let q = Quat { w: 892_400, x: 239_120, y: 369_640, z: -99_046 };
    let rot = quaterionToRot3(&q);
    let eps = 1_000i64;  // one thousandth, in fixed point
    assert!((rot.m23 + 500_000).abs() < eps);
    assert!((rot.m32 - 353_600).abs() < eps);
    assert!((rot.m21 - 0).abs() < eps);
}

#[test]
fn rotation_of_identity_quaternion_is_identity() {
    let q = Quat { w: 1_000_000, x: 0, y: 0, z: 0 };
    let rot = quaterionToRot3(&q);
    assert_eq!(rot.m11, 1_000_000);
    assert_eq!(rot.m22, 1_000_000);
    assert_eq!(rot.m33, 1_000_000);
    assert_eq!(rot.m12, 0);
    assert_eq!(rot.m21, 0);
}

#[test]
fn prompt_frame_is_exact() {
    let frame = Notification::sendPrompt(
        -1,
        PromptCategory::OVERLOAD,
        PromptColor::ORANGE,
        2000,
        b"OVERLOAD 4.5G",
    );
    assert_eq!(String::from_utf8(frame).unwrap(), "p:-1,1,FF8000,2000,OVERLOAD 4.5G;");
    assert_eq!(PromptCategory::TEST.to_usize(), 0);
    assert_eq!(PromptCategory::OVERLOAD.to_usize(), 1);
    assert_eq!(PromptCategory::COLLISION.to_usize(), 2);
    assert_eq!(
        String::from_utf8(PromptColor::RED.to_hex().unwrap()).unwrap(),
        "FF0000"
    );
}

#[test]
fn overload_detection_thresholds() {
    let g = 9_806_700i64;
    assert!(check_acceleration(v(0, 0, 3 * g)).is_none(), "three gravities is fine");
    let (red, _) = check_acceleration(v(0, 0, 5 * g)).expect("five gravities alerts");
    assert!(!red, "five gravities is orange");
    let (red6, _) = check_acceleration(v(0, 0, 7 * g)).expect("seven gravities alerts");
    assert!(red6, "seven gravities is red");
}

#[test]
fn slot_table_and_registry_name_each_other() {
    let mut drones = Drones::new(3);
    let (id_a, slot_a) = drones.startUAV("a".to_string(), "quad".to_string());
    let (id_b, slot_b) = drones.startUAV("b".to_string(), "quad".to_string());
    assert_eq!((id_a, slot_a), (1, 0));
    assert_eq!((id_b, slot_b), (2, 1));
    // every non-zero slot holds the id of exactly one live UAV, and back
    for (i, &slot) in drones.slots.iter().enumerate() {
        if slot != 0 {
            assert_eq!(drones.uavs.iter().filter(|u| u.id == slot).count(), 1, "slot {i}");
        }
    }
    for u in drones.uavs.iter() {
        assert_eq!(drones.slots[u.slot], u.id);
        assert_eq!(
            drones.slots.iter().filter(|&&s| s == u.id).count(),
            1,
            "one slot per UAV"
        );
    }
    drones.removeUAV(id_a);
    assert_eq!(drones.slots[0], 0, "the freed slot is empty");
    assert_eq!(drones.uavs.len(), 1);
    let (id_c, slot_c) = drones.startUAV("c".to_string(), "quad".to_string());
    assert_eq!((id_c, slot_c), (3, 0));
}

#[test]
fn positions_snapshot_matches_states() {
    let mut drones = Drones::new(2);
    let (id, _) = drones.startUAV("a".to_string(), "quad".to_string());
    let mut st = uav_aggregator::uav::DroneState::new();
    st.pos[0] = 7_000_000;
    st.pos[1] = -1_000_000;
    st.pos[2] = 2_000_000;
    drones.updateState(id, st);
    let positions = drones.getPositions();
    assert_eq!(positions.len(), 1);
    assert_eq!(positions[0].0, id);
    assert_eq!(positions[0].1, v(7_000_000, -1_000_000, 2_000_000));
}
