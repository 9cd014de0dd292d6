use log2gfx::pose::{Pose, Rot, TRIG_ONE};

#[test]
fn rot_new_checks_the_circle() {
    assert!(Rot::new(TRIG_ONE, 0).is_some());
    assert!(Rot::new(0, -TRIG_ONE).is_some());
    assert!(Rot::new(707_106, 707_106).is_some());
    assert!(Rot::new(TRIG_ONE, 1).is_none());
    assert!(Rot::new(800_000, 800_000).is_none());
}

#[test]
fn pose_identity_is_neutral() {
    let id = Pose::identity();
    let p = Pose { x: 1_000, y: -2_000, c: 0, s: TRIG_ONE };
    let left = id.compose(&p);
    let right = p.compose(&id);
    assert_eq!(left, p);
    assert_eq!(right, p);
}

#[test]
fn pose_apply_rotates_and_translates() {
    // a quarter turn: (1000, 0) maps to (0, 1000)
    let quarter = Pose { x: 0, y: 0, c: 0, s: TRIG_ONE };
    assert_eq!(quarter.apply(1_000, 0), (0, 1_000));
    assert_eq!(quarter.apply(0, 1_000), (-1_000, 0));

    let shifted = Pose { x: 50, y: -70, c: TRIG_ONE, s: 0 };
    assert_eq!(shifted.apply(3, 4), (53, -66));
}

#[test]
fn pose_compose_adds_angles() {
    let quarter = Pose { x: 0, y: 0, c: 0, s: TRIG_ONE };
    let half = quarter.compose(&quarter);
    assert_eq!(half.c, -TRIG_ONE);
    assert_eq!(half.s, 0);
}

#[test]
fn pose_inverse_undoes_translation() {
    let p = Pose { x: 1_000, y: 2_000, c: TRIG_ONE, s: 0 };
    let inv = p.inverse();
    assert_eq!(inv.x, -1_000);
    assert_eq!(inv.y, -2_000);
    let both = inv.compose(&p);
    assert_eq!(both.x, 0);
    assert_eq!(both.y, 0);
    assert_eq!(both.c, TRIG_ONE);
    assert_eq!(both.s, 0);
}

#[test]
fn pose_inverse_of_rotation() {
    let quarter = Pose { x: 300, y: 0, c: 0, s: TRIG_ONE };
    let inv = quarter.inverse();
    assert_eq!(inv.s, -TRIG_ONE);
    let both = inv.compose(&quarter);
    // identity up to fixed-point rounding; exact here
    assert_eq!(both.x, 0);
    assert_eq!(both.y, 0);
    assert_eq!(both.c, TRIG_ONE);
    assert_eq!(both.s, 0);
}
