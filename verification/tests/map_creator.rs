use log2gfx::map_creator::MapCreator;
use log2gfx::map_creator_parameter::MapCreatorParameter;
use log2gfx::occupancy::Occupancy;
use log2gfx::pose::{Pose, Rot, TRIG_ONE};
use log2gfx::robot_data::{DataPacket, LaserParameters, RobotLaser, Type};

fn single_scan() -> RobotLaser {
    let packet = DataPacket::new(
        String::from("ROBOTLASER1"),
        Type::RobotLaser,
        0,
        0,
        String::from("localhost"),
    );
    // sensor offset identity, one beam at angle 0 with a 5-unit reading
    let params = LaserParameters::new(
        Pose::identity(),
        0,
        0,
        0,
        10_000,
        10,
        0,
        vec![Rot { c: TRIG_ONE, s: 0 }],
    );
    RobotLaser::new(packet, params, Pose::identity(), vec![5_000])
}

#[test]
fn end_to_end_single_scan() {
    // robot at the origin, 0.1-unit resolution, 1-unit border,
    // 10-unit max and usable range (a millimeter subunit)
    let parameter = MapCreatorParameter {
        max_range: 10_000,
        max_usable_range: 10_000,
        resolution: 100,
        offset: Pose::identity(),
        border: 1_000,
        zero_first_pose: false,
        verbose: false,
    };
    let scans = vec![single_scan()];
    let mut creator = MapCreator::new(parameter);

    creator.update_boundaries(&scans);
    // the box covers the sensor position and the beam endpoint
    assert_eq!(creator.boundaries_min.x, 0);
    assert_eq!(creator.boundaries_min.y, 0);
    assert_eq!(creator.boundaries_max.x, 5_000);
    assert_eq!(creator.boundaries_max.y, 0);

    creator.allocate_map();
    let fmap = creator.fmap.as_ref().unwrap();
    // padded extent: 7 units wide along the beam, rounded up to cells
    assert_eq!(fmap.map.width(), 70);
    assert_eq!(fmap.map.height(), 20);
    assert_eq!(fmap.map.offset_x(), -1_000);
    assert_eq!(fmap.map.offset_y(), -1_000);

    creator.integrate_scans(&scans);
    let fmap = creator.fmap.as_ref().unwrap();
    // the sensor sits in cell (10, 10); the obstacle at world (5000, 0)
    // in cell (60, 10)
    let end = fmap.map.cell(60, 10).unwrap();
    assert_eq!(end.hits, 1);
    assert_eq!(end.misses, 1);
    for x in 10..60i64 {
        let c = fmap.map.cell(x, 10).unwrap();
        assert_eq!(c.misses, 1);
        assert_eq!(c.hits, 0);
    }

    let occ = fmap.compute_occupancy_map();
    // one hit of two observations at the obstacle cell
    assert_eq!(occ.map.cell(60, 10).unwrap(), &Occupancy::Known { hits: 1, observations: 2 });
    assert_eq!(occ.map.cell(30, 10).unwrap(), &Occupancy::Known { hits: 0, observations: 1 });
    assert_eq!(occ.map.cell(0, 0).unwrap(), &Occupancy::Unknown);
}

#[test]
fn zero_first_pose_consumes_the_flag_and_inverts_the_first_pose() {
    let parameter = MapCreatorParameter {
        zero_first_pose: true,
        ..Default::default()
    };
    let packet = DataPacket::new(String::from("L"), Type::RobotLaser, 0, 0, String::from("h"));
    let params = LaserParameters::new(
        Pose::identity(),
        0,
        0,
        0,
        10_000,
        10,
        0,
        vec![Rot { c: TRIG_ONE, s: 0 }],
    );
    let pose = Pose { x: 2_000, y: -3_000, c: TRIG_ONE, s: 0 };
    let scans = vec![RobotLaser::new(packet, params, pose, vec![5_000])];
    let mut creator = MapCreator::new(parameter);
    creator.update_boundaries(&scans);
    assert!(!creator.parameter.zero_first_pose);
    assert_eq!(creator.parameter.offset.x, -2_000);
    assert_eq!(creator.parameter.offset.y, 3_000);
    // with the offset applied, the trajectory starts at the world origin
    assert_eq!(creator.boundaries_min.x, 0);
    assert_eq!(creator.boundaries_min.y, 0);
    assert_eq!(creator.boundaries_max.x, 5_000);
}

#[test]
fn integration_respects_the_configured_usable_range() {
    let parameter = MapCreatorParameter {
        max_range: 10_000,
        max_usable_range: 300,
        resolution: 100,
        offset: Pose::identity(),
        border: 1_000,
        zero_first_pose: false,
        verbose: false,
    };
    let scans = vec![single_scan()];
    let mut creator = MapCreator::new(parameter);
    creator.update_boundaries(&scans);
    creator.allocate_map();
    creator.integrate_scans(&scans);
    let fmap = creator.fmap.as_ref().unwrap();
    // the beam is clipped at 0.3 units: misses up to cell (13, 10), and
    // no hit anywhere
    assert_eq!(fmap.map.cell(13, 10).unwrap().misses, 1);
    assert_eq!(fmap.map.cell(13, 10).unwrap().hits, 0);
    assert_eq!(fmap.map.cell(14, 10).unwrap().misses, 0);
    for x in 0..fmap.map.width() as i64 {
        assert_eq!(fmap.map.cell(x, 10).unwrap().hits, 0);
    }
}
