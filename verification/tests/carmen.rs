use log2gfx::parser_carmen::{number_at, parse_robotlaser_line, CarmenFile};

fn bytes(s: &str) -> Vec<u8> {
    s.as_bytes().to_vec()
}

#[test]
fn number_at_scales_and_truncates() {
    let line = bytes("  42 -12.3456 0.5 7.");
    // integer token, scaled to subunits
    assert_eq!(number_at(&line, 0, 3), Some((42_000, 4)));
    // fraction truncated toward zero after three digits
    assert_eq!(number_at(&line, 4, 3), Some((-12_345, 13)));
    // fraction shorter than the scale is padded
    assert_eq!(number_at(&line, 13, 3), Some((500, 17)));
    // microradian scale
    assert_eq!(number_at(&line, 4, 6), Some((-12_345_600, 13)));
    // a bare trailing point is not a number
    assert_eq!(number_at(&line, 17, 3), None);
}

#[test]
fn number_at_rejects_garbage() {
    assert_eq!(number_at(&bytes("abc"), 0, 3), None);
    assert_eq!(number_at(&bytes("12x"), 0, 3), None);
    assert_eq!(number_at(&bytes("1.2.3"), 0, 3), None);
    assert_eq!(number_at(&bytes("-"), 0, 3), None);
    assert_eq!(number_at(&bytes("   "), 0, 3), None);
    // more than twelve integer digits would not be exact
    assert_eq!(number_at(&bytes("1234567890123"), 0, 0), None);
    assert_eq!(number_at(&bytes("999999999999"), 0, 0), Some((999_999_999_999, 12)));
}

#[test]
fn parse_robotlaser_line_full_record() {
    let line = bytes(
        "ROBOTLASER1 0 -1.5708 3.14159 0.0174 30.0 0.01 0 3 5.0 2.25 30.0 0 \
         1.0 2.0 0.5 1.5 2.5 0.25 0.1 0.2 0.3",
    );
    let rec = parse_robotlaser_line(&line).expect("well-formed record");
    assert_eq!(rec.laser_type, 0);
    assert_eq!(rec.first_beam_theta, -1_570_800);
    assert_eq!(rec.fov, 3_141_590);
    assert_eq!(rec.angular_step, 17_400);
    assert_eq!(rec.max_range, 30_000);
    assert_eq!(rec.accuracy, 10);
    assert_eq!(rec.remission_mode, 0);
    assert_eq!(rec.ranges, vec![5_000, 2_250, 30_000]);
    assert_eq!(
        (rec.laser_x, rec.laser_y, rec.laser_theta),
        (1_000, 2_000, 500_000)
    );
    assert_eq!(
        (rec.robot_x, rec.robot_y, rec.robot_theta),
        (1_500, 2_500, 250_000)
    );
}

#[test]
fn parse_robotlaser_line_skips_remissions() {
    let line = bytes("ROBOTLASER1 0 0 0 0 30.0 0.01 0 1 5.0 2 9.75 what -3.0 -4.0 0 0 0 0");
    let rec = parse_robotlaser_line(&line).expect("well-formed record");
    assert_eq!(rec.ranges, vec![5_000]);
    // the two remission tokens, numeric or not, are skipped
    assert_eq!((rec.laser_x, rec.laser_y), (-3_000, -4_000));
}

#[test]
fn parse_robotlaser_line_rejects_malformed() {
    // wrong tag
    assert!(parse_robotlaser_line(&bytes("ODOM 1 2 3")).is_none());
    // truncated record
    assert!(parse_robotlaser_line(&bytes("ROBOTLASER1 0 0 0 0 30.0")).is_none());
    // beam count not matching the beams
    assert!(parse_robotlaser_line(&bytes("ROBOTLASER1 0 0 0 0 30.0 0.01 0 3 5.0")).is_none());
    // a non-numeric reading
    assert!(
        parse_robotlaser_line(&bytes("ROBOTLASER1 0 0 0 0 30.0 0.01 0 1 oops 0 1 2 3 4 5 6"))
            .is_none()
    );
    // a negative beam count
    assert!(parse_robotlaser_line(&bytes("ROBOTLASER1 0 0 0 0 30.0 0.01 0 -1 0 1 2 3 4 5 6"))
        .is_none());
}

#[test]
fn carmen_file_keeps_matching_lines_in_order() {
    let lines: Vec<Vec<u8>> = vec![
        b"# a comment".to_vec(),
        b"ROBOTLASER1 0 0 0 0 30.0 0.01 0 1 5.0 0 1.0 2.0 0 3.0 4.0 0".to_vec(),
        b"ODOM 1 2 3".to_vec(),
        b"ROBOTLASER1 0 0 0 0 30.0 0.01 0 1 7.5 0 0 0 0 0 0 0".to_vec(),
    ];
    let file = CarmenFile { lines };
    let records = file.parse_records();
    assert_eq!(records.len(), 2);
    assert_eq!(records[0].ranges, vec![5_000]);
    assert_eq!((records[0].robot_x, records[0].robot_y), (3_000, 4_000));
    assert_eq!(records[1].ranges, vec![7_500]);
}
