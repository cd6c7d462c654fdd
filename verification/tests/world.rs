//! World behaviour: tethers, proximity, the map grid and wall contacts.

use uav_aggregator::cargo::{Cargo, Link, RopeResult};
use uav_aggregator::collision;
use uav_aggregator::geom::{Quat, Vec3};
use uav_aggregator::map::{chunk_axis, WorldMap};
use uav_aggregator::obj::Face;

fn v(x: i64, y: i64, z: i64) -> Vec3 {
    Vec3 { x, y, z }
}

fn test_link() -> Link {
    Link {
        drone_id: 1,
        obj_id: 7,
        timeout: 0,
        length: 1_000_000,
        k: 10_000_000,
        b: 500_000,
        hook: v(0, 0, 0),
    }
}

#[test]
fn stretched_rope_pulls_with_five_newtons() {
    let link = test_link();
    let identity = Quat { w: 1_000_000, x: 0, y: 0, z: 0 };
    let r: RopeResult = Cargo::ropeForce(
        &link,
        v(0, 0, 0),
        identity,
        v(0, 0, 0),
        v(0, 0, -1_500_000),
        v(0, 0, 0),
    );
    assert_eq!(r.rope_len, 1_500_000);
    assert!(r.pull.taut);
    // k (len - L) = 10 * 0.5 = 5; the rope direction is -z, so the object
    // (which receives the negated force) is pulled toward the UAV at +z.
    assert_eq!(r.pull.force, v(0, 0, -5_000_000));
    assert_eq!(r.pull.torque, v(0, 0, 0));
}

#[test]
fn slack_rope_applies_nothing() {
    let link = test_link();
    let identity = Quat { w: 1_000_000, x: 0, y: 0, z: 0 };
    let r = Cargo::ropeForce(
        &link,
        v(0, 0, 0),
        identity,
        v(0, 0, 0),
        v(0, 0, -500_000),
        v(0, 0, 0),
    );
    assert!(!r.pull.taut);
    assert_eq!(r.pull.force, v(0, 0, 0));
}

#[test]
fn forces_of_two_equal_ropes_sum_to_double() {
    let f = v(0, 0, 5_000_000);
    let t = v(1_000, 0, 0);
    let list = vec![(3usize, f, t), (3usize, f, t), (9usize, v(1, 1, 1), v(0, 0, 0))];
    let (force, torque) = uav_aggregator::cargo::sum_for_drone(&list, 3);
    assert_eq!(force, v(0, 0, 10_000_000));
    assert_eq!(torque, v(2_000, 0, 0));
    let (other, _) = uav_aggregator::cargo::sum_for_drone(&list, 9);
    assert_eq!(other, v(1, 1, 1));
}

#[test]
fn orphaned_link_is_gone_after_timeout_limit_ticks() {
    let mut cargo = Cargo::new(3);
    cargo.addLink(1, 7, 1_000_000, 10_000_000, 500_000, v(0, 0, 0));
    assert!(cargo.findLink(1, 7).is_some());
    let drones_present = vec![1usize];
    let objs_present: Vec<usize> = Vec::new();
    for _ in 0..3 {
        cargo.age(&drones_present, &objs_present);
        cargo.prune();
    }
    assert!(cargo.findLink(1, 7).is_none(), "link dropped after the orphan limit");
}

#[test]
fn link_with_both_endpoints_survives() {
    let mut cargo = Cargo::new(3);
    cargo.addLink(1, 7, 1_000_000, 10_000_000, 500_000, v(0, 0, 0));
    let drones_present = vec![1usize];
    let objs_present = vec![7usize];
    for _ in 0..10 {
        cargo.age(&drones_present, &objs_present);
        cargo.prune();
    }
    assert!(cargo.findLink(1, 7).is_some());
    assert_eq!(cargo.links[0].timeout, 0);
}

#[test]
fn release_removes_only_that_drones_links() {
    let mut cargo = Cargo::new(3);
    cargo.addLink(1, 7, 1_000_000, 10_000_000, 500_000, v(0, 0, 0));
    cargo.addLink(1, 8, 1_000_000, 10_000_000, 500_000, v(0, 0, 0));
    cargo.addLink(2, 9, 1_000_000, 10_000_000, 500_000, v(0, 0, 0));
    cargo.removeLink(1);
    assert!(cargo.findLink(1, 7).is_none());
    assert!(cargo.findLink(1, 8).is_none());
    assert!(cargo.findLink(2, 9).is_some());
}

#[test]
fn close_drone_pair_is_reported_without_force() {
    let identity = Quat { w: 1_000_000, x: 0, y: 0, z: 0 };
    let zero = v(0, 0, 0);
    let snapshot = vec![
        (1usize, v(0, 0, 0), identity, zero, zero),
        (2usize, v(1_000_000, 0, 0), identity, zero, zero),
        (3usize, v(10_000_000, 0, 0), identity, zero, zero),
    ];
    // minimal distance of two square units; the first pair is one unit apart
    let pairs = collision::colisions_between_drones(&snapshot, 2_000_000);
    assert_eq!(pairs, vec![(0usize, 1usize)], "exactly the close pair, as indices");
}

#[test]
fn objects_outside_expanded_box_are_killed() {
    let objs = vec![
        (11usize, v(0, 0, 0), v(0, 0, 0), 100_000i64),
        (12usize, v(30_000_000, 0, 0), v(0, 0, 0), 100_000i64),
    ];
    let killed = collision::boundary_box_obj(
        &objs,
        v(-20_000_000, -20_000_000, -20_000_000),
        v(20_000_000, 20_000_000, 20_000_000),
    );
    assert_eq!(killed.len(), 1);
    assert_eq!(killed[0].0, 12);
}

#[test]
fn adaptive_period_keeps_seven_tenths() {
    let smoothed = collision::smooth_loop_time(20_000, 30_000);
    assert_eq!(smoothed, (7 * 20_000 + 3 * 30_000) / 10);
}

#[test]
fn chunk_index_is_the_containing_cell() {
    // ten-metre box split in four: each cell spans 2.5 metres
    let lo = 0i64;
    let hi = 10_000_000i64;
    assert_eq!(chunk_axis(0, lo, hi, 4), 0);
    assert_eq!(chunk_axis(2_499_999, lo, hi, 4), 0);
    assert_eq!(chunk_axis(2_500_000, lo, hi, 4), 1, "boundaries go to the upper cell");
    assert_eq!(chunk_axis(9_999_999, lo, hi, 4), 3);
    assert_eq!(chunk_axis(-5, lo, hi, 4), 0, "below the box clamps to zero");
    assert_eq!(chunk_axis(10_000_000, lo, hi, 4), 4, "the far edge caps at the grid");
}

fn one_face_map(plus_eps: i64, minus_eps: i64) -> WorldMap {
    let face = Face::new(
        0,
        v(0, 0, 0),
        v(10_000_000, 0, 0),
        v(0, 10_000_000, 0),
        v(0, 0, 1_000_000),
        v(0, 0, 1_000_000),
        v(0, 0, 1_000_000),
    )
    .expect("non-degenerate triangle");
    WorldMap {
        faces: vec![face],
        box_min: v(-20_000_000, -20_000_000, -20_000_000),
        box_max: v(20_000_000, 20_000_000, 20_000_000),
        gx: 1,
        gy: 1,
        gz: 1,
        cells: vec![vec![0]],
        collisionPlusEps: plus_eps,
        collisionMinusEps: minus_eps,
        COR: 500_000,
        mi_s: 300_000,
        mi_d: 200_000,
        minimalDist: 2_000_000,
    }
}

#[test]
fn vertex_on_face_yields_one_contact_with_its_normal() {
    let map = one_face_map(10_000, -10_000);
    let hit = map.checkWallsBest(v(1_000_000, 1_000_000, 1_000));
    let (depth, normal, fid) = hit.expect("the vertex touches the face");
    assert_eq!(fid, 0);
    assert_eq!(normal, v(0, 0, 1_000_000), "the face's outward normal");
    assert_eq!(depth, 1_000, "signed depth along the normal");
    let miss = map.checkWallsBest(v(1_000_000, 1_000_000, 5_000_000));
    assert!(miss.is_none(), "far above the band there is no contact");
}

#[test]
fn ballistic_path_crossing_a_face_reports_the_distance() {
    let map = one_face_map(10_000, -10_000);
    // an object five metres above the face, falling straight down
    let hit = map.checkWallsBest2(
        v(1_000_000, 1_000_000, 5_000_000),
        v(0, 0, -1_000_000),
        10_000_000,
    );
    let (t, normal, fid) = hit.expect("the predicted path crosses the face");
    assert_eq!(fid, 0);
    assert_eq!(normal, v(0, 0, 1_000_000));
    assert_eq!(t, 5_000_000, "the crossing distance");
    assert!(t <= 10_000_000, "within the step's reach");
    let slow = map.checkWallsBest2(
        v(1_000_000, 1_000_000, 5_000_000),
        v(0, 0, -1_000_000),
        4_000_000,
    );
    assert!(slow.is_none(), "a shorter step does not reach the face");
}

#[test]
fn projection_outside_triangle_is_no_contact() {
    let map = one_face_map(10_000, -10_000);
    let outside = map.checkWallsBest(v(9_000_000, 9_000_000, 0));
    assert!(outside.is_none(), "beyond the hypotenuse");
}

#[test]
fn obj_text_parses_vertices_and_faces() {
    let text = b"v 0.0 0.0 0.0\nv 10.0 0.0 0.0\nv 0.0 10.0 0.0\n\
vn 0.0 0.0 1.0\nf 1//1 2//1 3//1\nf 1//9 2//1 3//1\nnot an element\n";
    let obj = uav_aggregator::obj::Obj::load_from_text(text, false);
    assert_eq!(obj.vertices.len(), 3);
    assert_eq!(obj.vertices[1], v(10_000_000, 0, 0));
    assert_eq!(obj.normals.len(), 1);
    assert_eq!(obj.faces.len(), 1, "the face with a missing normal index is skipped");
    assert_eq!(obj.faces[0].normal, v(0, 0, 1_000_000));
    let (lo, hi) = obj.boundingBox();
    assert_eq!(lo, v(0, 0, 0));
    assert_eq!(hi, v(10_000_000, 10_000_000, 0));
    let only = uav_aggregator::obj::Obj::load_from_text(text, true);
    assert_eq!(only.vertices.len(), 3);
    assert_eq!(only.faces.len(), 0);
}

#[test]
fn moving_sphere_samples_the_step_for_contacts() {
    let map = one_face_map(10_000, -10_000);
    // a sphere whose last sample point lands on the face: the step covers
    // one third of a metre per sample at this speed and period
    let hits = map.checkWalls2(v(1_000_000, 1_000_000, 1_000_000), v(0, 0, -50_000_000), 20_000, 0);
    assert_eq!(hits.len(), 1, "exactly the sample that reaches the band");
    assert_eq!(hits[0].1, v(0, 0, 1_000_000));
    assert_eq!(hits[0].2, 0, "the final sample sits on the face");
    let none = map.checkWalls2(v(1_000_000, 1_000_000, 1_000_000), v(0, 0, 0), 20_000, 0);
    assert!(none.is_empty(), "a resting sphere above the band reports nothing");
}

#[test]
fn link_notification_frame_is_exact() {
    let mut cargo = Cargo::new(5);
    assert_eq!(cargo.notifyAboutLinks(), b"l:".to_vec());
    cargo.addLink(1, 7, 1_500_000, 10_000_000, 500_000, v(250_000, 0, -1_000_000));
    let frame = String::from_utf8(cargo.notifyAboutLinks()).unwrap();
    assert_eq!(frame, "l:1,7,1.500000,0.250000,0.000000,-1.000000;");
}

#[test]
fn insert_face_files_each_face_in_its_chunks_only() {
    // two cells along x; the face sits entirely in the lower one
    let face = Face::new(
        0,
        v(-15_000_000, 0, 0),
        v(-10_000_000, 0, 0),
        v(-15_000_000, 5_000_000, 0),
        v(0, 0, 1_000_000),
        v(0, 0, 1_000_000),
        v(0, 0, 1_000_000),
    )
    .expect("non-degenerate triangle");
    let mut map = WorldMap {
        faces: vec![face],
        box_min: v(-20_000_000, -20_000_000, -20_000_000),
        box_max: v(20_000_000, 20_000_000, 20_000_000),
        gx: 2,
        gy: 1,
        gz: 1,
        cells: vec![Vec::new(), Vec::new()],
        collisionPlusEps: 10_000,
        collisionMinusEps: -10_000,
        COR: 500_000,
        mi_s: 300_000,
        mi_d: 200_000,
        minimalDist: 2_000_000,
    };
    map.insertFace();
    assert_eq!(map.cells[0], vec![0usize], "the covering chunk holds the face");
    assert!(map.cells[1].is_empty(), "no other chunk gains an entry");
    let hit = map.checkWallsBest(v(-14_000_000, 1_000_000, 0));
    assert!(hit.is_some(), "the filed face is found through the index");
}

#[test]
fn hull_vertex_crossing_is_detected_and_minimal() {
    let map = one_face_map(10_000, -10_000);
    // a one-vertex hull half a metre above the face, descending
    let mesh = vec![v(0, 0, 500_000)];
    let identity = Quat { w: 1_000_000, x: 0, y: 0, z: 0 };
    let contact = uav_aggregator::collision::impulse_collision_drone(
        &map,
        &mesh,
        v(1_000_000, 1_000_000, 0),
        identity,
        v(0, 0, -1_000_000),
        v(0, 0, 0),
        1_000_000,
    )
    .expect("the descending vertex crosses the face");
    assert_eq!(contact.vertex, 0);
    assert_eq!(contact.face, 0);
    assert_eq!(contact.normal, v(0, 0, 1_000_000));
    assert_eq!(contact.dist, 500_000, "the crossing is half a metre away");
    assert!(contact.dist < contact.in_range);
    let none = uav_aggregator::collision::impulse_collision_drone(
        &map,
        &mesh,
        v(1_000_000, 1_000_000, 0),
        identity,
        v(0, 0, 1_000_000),
        v(0, 0, 0),
        1_000_000,
    );
    assert!(none.is_none(), "an ascending vertex reports nothing");
}

#[test]
fn pair_diagnostics_have_no_duplicates() {
    let identity = Quat { w: 1_000_000, x: 0, y: 0, z: 0 };
    let zero = v(0, 0, 0);
    let snapshot = vec![
        (1usize, v(0, 0, 0), identity, zero, zero),
        (2usize, v(500_000, 0, 0), identity, zero, zero),
        (3usize, v(1_000_000, 0, 0), identity, zero, zero),
    ];
    let pairs = collision::colisions_between_drones(&snapshot, 2_000_000);
    assert_eq!(pairs, vec![(0usize, 1usize), (0, 2), (1, 2)], "each close pair exactly once");
}

#[test]
fn drone_object_pairs_need_approach() {
    let identity = Quat { w: 1_000_000, x: 0, y: 0, z: 0 };
    let zero = v(0, 0, 0);
    let drones_snapshot = vec![(1usize, v(0, 0, 0), identity, zero, zero)];
    let objs = vec![
        (7usize, v(500_000, 0, 0), v(-1_000_000, 0, 0), 100_000i64),
        (8usize, v(500_000, 0, 0), v(1_000_000, 0, 0), 100_000i64),
    ];
    let pairs = collision::colisions_drones_obj(&drones_snapshot, &objs, 2_000_000);
    assert_eq!(pairs, vec![(0usize, 0usize)], "only the approaching object is reported");
}
