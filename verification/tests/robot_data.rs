use log2gfx::pose::{Pose, Rot, TRIG_ONE};
use log2gfx::robot_data::{DataPacket, LaserParameters, RobotLaser, Type};

fn params_with(first: i64, step: i64, rots: Vec<Rot>) -> LaserParameters {
    LaserParameters::new(Pose::identity(), 0, first, step, 10_000, 10, 0, rots)
}

#[test]
fn beam_angle_is_affine_in_the_index() {
    let p = params_with(-1_570_796, 4_363, vec![Rot { c: TRIG_ONE, s: 0 }]);
    assert_eq!(p.beam_angle(0), -1_570_796);
    assert_eq!(p.beam_angle(1), -1_566_433);
    assert_eq!(p.beam_angle(100), -1_570_796 + 100 * 4_363);
}

#[test]
fn beam_isometry_is_the_stored_rotation() {
    let rots = vec![Rot { c: TRIG_ONE, s: 0 }, Rot { c: 0, s: TRIG_ONE }];
    let p = params_with(0, 1_570_796, rots);
    let iso = p.beam_isometry(1);
    assert_eq!(iso, Pose { x: 0, y: 0, c: 0, s: TRIG_ONE });
}

#[test]
fn laser_pose_composes_robot_and_sensor_offset() {
    let packet = DataPacket::new(String::from("L"), Type::RobotLaser, 0, 0, String::from("h"));
    let sensor = Pose { x: 100, y: 0, c: TRIG_ONE, s: 0 };
    let params = LaserParameters::new(sensor, 0, 0, 0, 10_000, 10, 0, vec![
        Rot { c: TRIG_ONE, s: 0 },
    ]);
    // robot turned a quarter: the forward-mounted sensor points along +y
    let robot = Pose { x: 1_000, y: 2_000, c: 0, s: TRIG_ONE };
    let scan = RobotLaser::new(packet, params, robot, vec![5_000]);
    let lp = scan.laser_pose();
    assert_eq!(lp, Pose { x: 1_000, y: 2_100, c: 0, s: TRIG_ONE });
}
