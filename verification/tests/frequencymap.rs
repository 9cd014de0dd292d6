use log2gfx::frequencymap::{FrequencyMap, FrequencyMapCell};
use log2gfx::occupancy::Occupancy;
use log2gfx::pose::{Pose, Rot, TRIG_ONE};
use log2gfx::robot_data::{DataPacket, LaserParameters, RobotLaser, Type};

fn one_beam_scan(range: i64, max_range: i64) -> RobotLaser {
    let packet = DataPacket::new(
        String::from("ROBOTLASER1"),
        Type::RobotLaser,
        0,
        0,
        String::from("localhost"),
    );
    let params = LaserParameters::new(
        Pose::identity(),
        0,
        0,
        0,
        max_range,
        10,
        0,
        vec![Rot { c: TRIG_ONE, s: 0 }],
    );
    RobotLaser::new(packet, params, Pose::identity(), vec![range])
}

#[test]
fn single_beam_marks_misses_along_and_one_hit() {
    // a 20 x 20 grid of 100-subunit cells with its corner at the origin
    let mut fm = FrequencyMap::new(20, 20, 100, 0, 0);
    let scan = one_beam_scan(500, 10_000);
    fm.integrate_scan(&scan, Pose::identity(), None, None, None);

    // the beam runs from cell (0,0) to cell (5,0): misses everywhere on it
    for x in 0..=5i64 {
        let c = fm.map.cell(x, 0).unwrap();
        assert_eq!(c.misses, 1, "miss missing at {}", x);
    }
    // a hit only at the endpoint cell
    assert_eq!(fm.map.cell(5, 0).unwrap().hits, 1);
    for x in 0..5i64 {
        assert_eq!(fm.map.cell(x, 0).unwrap().hits, 0);
    }
    // nothing off the beam
    assert_eq!(fm.map.cell(6, 0).unwrap(), &FrequencyMapCell { hits: 0, misses: 0 });
    assert_eq!(fm.map.cell(3, 1).unwrap(), &FrequencyMapCell { hits: 0, misses: 0 });
}

#[test]
fn beam_at_max_range_is_discarded() {
    let mut fm = FrequencyMap::new(20, 20, 100, 0, 0);
    let scan = one_beam_scan(10_000, 10_000);
    fm.integrate_scan(&scan, Pose::identity(), None, None, None);
    for x in 0..20i64 {
        assert_eq!(fm.map.cell(x, 0).unwrap(), &FrequencyMapCell { hits: 0, misses: 0 });
    }
}

#[test]
fn clipped_beam_adds_misses_but_never_a_hit() {
    let mut fm = FrequencyMap::new(20, 20, 100, 0, 0);
    // the true obstacle sits at 500 subunits, the usable range at 300
    let scan = one_beam_scan(500, 10_000);
    fm.integrate_scan(&scan, Pose::identity(), None, Some(300), None);
    for x in 0..=3i64 {
        assert_eq!(fm.map.cell(x, 0).unwrap().misses, 1);
    }
    for x in 0..20i64 {
        for y in 0..20i64 {
            assert_eq!(fm.map.cell(x, y).unwrap().hits, 0, "hit at ({}, {})", x, y);
        }
    }
}

#[test]
fn gain_scales_both_counters() {
    let mut fm = FrequencyMap::new(20, 20, 100, 0, 0);
    let scan = one_beam_scan(500, 10_000);
    fm.integrate_scan(&scan, Pose::identity(), None, None, Some(3));
    assert_eq!(fm.map.cell(2, 0).unwrap(), &FrequencyMapCell { hits: 0, misses: 3 });
    assert_eq!(fm.map.cell(5, 0).unwrap(), &FrequencyMapCell { hits: 3, misses: 3 });
}

#[test]
fn occupancy_resolves_exact_fractions() {
    let mut fm = FrequencyMap::new(4, 4, 100, 0, 0);
    // hit once, missed twice: occupancy 1/3
    assert!(fm.map.set_cell(1, 1, FrequencyMapCell { hits: 1, misses: 2 }));
    // missed only: occupancy 0 of 4
    assert!(fm.map.set_cell(2, 1, FrequencyMapCell { hits: 0, misses: 4 }));
    // hits but no misses recorded: unknown, not a division by zero
    assert!(fm.map.set_cell(3, 1, FrequencyMapCell { hits: 5, misses: 0 }));
    let occ = fm.compute_occupancy_map();
    assert_eq!(occ.map.cell(1, 1).unwrap(), &Occupancy::Known { hits: 1, observations: 3 });
    assert_eq!(occ.map.cell(2, 1).unwrap(), &Occupancy::Known { hits: 0, observations: 4 });
    assert_eq!(occ.map.cell(3, 1).unwrap(), &Occupancy::Unknown);
    assert_eq!(occ.map.cell(0, 0).unwrap(), &Occupancy::Unknown);
    // the geometry carries over unchanged
    assert_eq!(occ.map.width(), 4);
    assert_eq!(occ.map.height(), 4);
    assert_eq!(occ.map.resolution(), 100);
}

#[test]
fn rotated_beam_traces_the_other_axis() {
    let mut fm = FrequencyMap::new(20, 20, 100, 0, 0);
    let packet = DataPacket::new(String::from("L"), Type::RobotLaser, 0, 0, String::from("h"));
    // one beam pointing along +y
    let params = LaserParameters::new(Pose::identity(), 0, 1_570_796, 0, 10_000, 10, 0, vec![
        Rot { c: 0, s: TRIG_ONE },
    ]);
    let scan = RobotLaser::new(packet, params, Pose::identity(), vec![400]);
    fm.integrate_scan(&scan, Pose::identity(), None, None, None);
    for y in 0..=4i64 {
        assert_eq!(fm.map.cell(0, y).unwrap().misses, 1);
    }
    assert_eq!(fm.map.cell(0, 4).unwrap().hits, 1);
    assert_eq!(fm.map.cell(1, 0).unwrap().misses, 0);
}

#[test]
fn occupancy_accumulates_across_scans() {
    let mut fm = FrequencyMap::new(20, 20, 100, 0, 0);
    let scan = one_beam_scan(500, 10_000);
    fm.integrate_scan(&scan, Pose::identity(), None, None, None);
    fm.integrate_scan(&scan, Pose::identity(), None, None, None);
    // endpoint: two hits, two misses -> occupancy 2/4
    assert_eq!(fm.map.cell(5, 0).unwrap(), &FrequencyMapCell { hits: 2, misses: 2 });
    let occ = fm.compute_occupancy_map();
    assert_eq!(occ.map.cell(5, 0).unwrap(), &Occupancy::Known { hits: 2, observations: 4 });
}
