use log2gfx::boundaries::boundaries;
use log2gfx::pose::{Point, Pose, Rot, TRIG_ONE};
use log2gfx::robot_data::{DataPacket, LaserParameters, RobotLaser, Type};

fn scan_with(ranges: Vec<i64>, rots: Vec<Rot>, odom: Pose) -> RobotLaser {
    let packet = DataPacket::new(String::from("L"), Type::RobotLaser, 0, 0, String::from("h"));
    let params = LaserParameters::new(Pose::identity(), 0, 0, 0, 10_000, 10, 0, rots);
    RobotLaser::new(packet, params, odom, ranges)
}

#[test]
fn boundaries_cover_sensor_and_endpoints() {
    // two beams: one along +x, one along +y
    let scan = scan_with(
        vec![4_000, 2_500],
        vec![Rot { c: TRIG_ONE, s: 0 }, Rot { c: 0, s: TRIG_ONE }],
        Pose { x: 1_000, y: -500, c: TRIG_ONE, s: 0 },
    );
    let mut min = Point { x: i64::MAX, y: i64::MAX };
    let mut max = Point { x: i64::MIN, y: i64::MIN };
    boundaries(&mut min, &mut max, &Pose::identity(), &scan, None, None);
    // sensor at (1000, -500); endpoints at (5000, -500) and (1000, 2000)
    assert_eq!(min, Point { x: 1_000, y: -500 });
    assert_eq!(max, Point { x: 5_000, y: 2_000 });
}

#[test]
fn boundaries_skip_invalid_beams_and_clip_to_usable() {
    let scan = scan_with(
        vec![10_000, 4_000],
        vec![Rot { c: TRIG_ONE, s: 0 }, Rot { c: -TRIG_ONE, s: 0 }],
        Pose::identity(),
    );
    let mut min = Point { x: i64::MAX, y: i64::MAX };
    let mut max = Point { x: i64::MIN, y: i64::MIN };
    // the first beam reads the full max range: discarded entirely; the
    // second, along -x, is clipped from 4 to 3 units
    boundaries(&mut min, &mut max, &Pose::identity(), &scan, None, Some(3_000));
    assert_eq!(min, Point { x: -3_000, y: 0 });
    assert_eq!(max, Point { x: 0, y: 0 });
}

#[test]
fn boundaries_accumulate_across_scans() {
    let a = scan_with(vec![1_000], vec![Rot { c: TRIG_ONE, s: 0 }], Pose::identity());
    let b = scan_with(
        vec![1_000],
        vec![Rot { c: TRIG_ONE, s: 0 }],
        Pose { x: -2_000, y: 4_000, c: TRIG_ONE, s: 0 },
    );
    let mut min = Point { x: i64::MAX, y: i64::MAX };
    let mut max = Point { x: i64::MIN, y: i64::MIN };
    boundaries(&mut min, &mut max, &Pose::identity(), &a, None, None);
    boundaries(&mut min, &mut max, &Pose::identity(), &b, None, None);
    assert_eq!(min, Point { x: -2_000, y: 0 });
    assert_eq!(max, Point { x: 1_000, y: 4_000 });
}
