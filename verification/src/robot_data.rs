//! Laser scan records: per-scan sensor parameters, the robot pose the
//! scan was taken at, and the per-beam range readings.
//!
//! Angles are integer microradians; ranges and translations are integer
//! world subunits.  The direction of beam `i` is the angle
//! `first_beam_theta + i * angular_step`; its rotation is carried as a
//! precomputed cosine/sine pair in `beam_rots`, one per beam, so that all
//! beam geometry stays in fixed-point integer arithmetic.

use vstd::prelude::*;

use crate::pose::{absi, Pose, Rot, COORD_LIMIT};

verus! {

/// Largest accepted number of beams in one scan.
pub const BEAM_LIMIT: usize = 1_000_000;

/// Largest accepted angle magnitude, in microradians.
pub const ANGLE_LIMIT: i64 = 10_000_000;

/// The kind of a data packet.
#[derive(Clone, Copy, Debug, PartialEq, Eq, Structural)]
pub enum Type {
    RobotLaser,
}

/// Metadata common to every packet of a log.
pub struct DataPacket {
    pub tag: String,
    pub data_type: Type,
    pub timestamp_us: i64,
    pub logger_timestamp_us: i64,
    pub hostname: String,
}

impl DataPacket {
    /// Bundles packet metadata.
    pub fn new(
        tag: String,
        data_type: Type,
        timestamp_us: i64,
        logger_timestamp_us: i64,
        hostname: String,
    ) -> (r: DataPacket)
        ensures
            r.tag == tag,
            r.data_type == data_type,
            r.timestamp_us == timestamp_us,
            r.logger_timestamp_us == logger_timestamp_us,
            r.hostname == hostname,
    {
        DataPacket { tag, data_type, timestamp_us, logger_timestamp_us, hostname }
    }
}

/// Per-scanner parameters: the sensor-to-robot pose offset, the beam
/// geometry, and the sensor's own maximum range.
pub struct LaserParameters {
    /// Pose of the sensor in the robot frame.
    pub laser_pose: Pose,
    pub laser_type: i32,
    /// Angle of beam 0 in the sensor frame, microradians.
    pub first_beam_theta: i64,
    /// Angle between consecutive beams, microradians.
    pub angular_step: i64,
    /// Maximum range of the sensor, world subunits.
    pub max_range: i64,
    /// Range accuracy of the sensor, world subunits.
    pub accuracy: i64,
    pub remission_mode: i32,
    /// Rotation of the direction of each beam in the sensor frame: the
    /// cosine/sine pair of `first_beam_theta + i * angular_step`.
    pub beam_rots: Vec<Rot>,
}

impl LaserParameters {
    /// The pose offset and every beam rotation are well-formed, and the
    /// magnitudes stay within what the fixed-point arithmetic supports.
    pub open spec fn wf(self) -> bool {
        &&& self.laser_pose.rot_wf()
        &&& self.laser_pose.pos_bounded(COORD_LIMIT as int)
        &&& absi(self.first_beam_theta as int) <= ANGLE_LIMIT as int
        &&& absi(self.angular_step as int) <= ANGLE_LIMIT as int
        &&& 0 <= self.max_range <= COORD_LIMIT
        &&& self.beam_rots@.len() <= BEAM_LIMIT
        &&& forall|i: int| 0 <= i < self.beam_rots@.len() ==> (#[trigger] self.beam_rots@[i]).wf()
    }

    /// Bundles scanner parameters.
    pub fn new(
        laser_pose: Pose,
        laser_type: i32,
        first_beam_theta: i64,
        angular_step: i64,
        max_range: i64,
        accuracy: i64,
        remission_mode: i32,
        beam_rots: Vec<Rot>,
    ) -> (r: LaserParameters)
        ensures
            r == (LaserParameters {
                laser_pose,
                laser_type,
                first_beam_theta,
                angular_step,
                max_range,
                accuracy,
                remission_mode,
                beam_rots,
            }),
    {
        LaserParameters {
            laser_pose,
            laser_type,
            first_beam_theta,
            angular_step,
            max_range,
            accuracy,
            remission_mode,
            beam_rots,
        }
    }

    /// The angle of beam `index` in the sensor frame:
    /// `first_beam_theta + index * angular_step` microradians.
    pub fn beam_angle(&self, index: usize) -> (r: i64)
        requires
            self.wf(),
            index <= BEAM_LIMIT,
        ensures
            r == self.first_beam_theta + index * self.angular_step,
    {
        proof {
            assert((index as int) * self.angular_step <= (BEAM_LIMIT as int) * (
            ANGLE_LIMIT as int) && (index as int) * self.angular_step >= -((BEAM_LIMIT as int) * (
            ANGLE_LIMIT as int))) by (nonlinear_arith)
                requires
                    0 <= index as int <= BEAM_LIMIT as int,
                    -(ANGLE_LIMIT as int) <= self.angular_step as int <= ANGLE_LIMIT as int,
            ;
        }
        self.first_beam_theta + (index as i64) * self.angular_step
    }

    /// The rotation-only transform of the direction of beam `index`.
    pub fn beam_isometry(&self, index: usize) -> (r: Pose)
        requires
            self.wf(),
            index < self.beam_rots@.len(),
        ensures
            r == (Pose {
                x: 0,
                y: 0,
                c: self.beam_rots@[index as int].c,
                s: self.beam_rots@[index as int].s,
            }),
            r.rot_wf(),
            r.pos_bounded(0),
    {
        let rot = self.beam_rots[index];
        Pose { x: 0, y: 0, c: rot.c, s: rot.s }
    }
}

/// One laser scan: packet metadata, scanner parameters, the robot pose
/// the scan was taken at, and the range reading of each beam.
pub struct RobotLaser {
    pub data_packet: DataPacket,
    pub laser_params: LaserParameters,
    /// Pose of the robot in the world frame when the scan was taken.
    pub odom_pose: Pose,
    /// Range reading of each beam, world subunits; a reading at or above
    /// the maximum range marks an invalid beam.
    pub ranges: Vec<i64>,
}

impl RobotLaser {
    /// The parameters and pose are well-formed, there is one beam
    /// rotation per reading, and readings stay within what the
    /// fixed-point arithmetic supports.
    pub open spec fn wf(self) -> bool {
        &&& self.laser_params.wf()
        &&& self.odom_pose.rot_wf()
        &&& self.odom_pose.pos_bounded(COORD_LIMIT as int)
        &&& self.ranges@.len() == self.laser_params.beam_rots@.len()
        &&& forall|i: int|
            0 <= i < self.ranges@.len() ==> absi(#[trigger] self.ranges@[i] as int)
                <= COORD_LIMIT as int
    }

    /// Bundles one scan.
    pub fn new(
        data_packet: DataPacket,
        laser_params: LaserParameters,
        odom_pose: Pose,
        ranges: Vec<i64>,
    ) -> (r: RobotLaser)
        ensures
            r.data_packet == data_packet,
            r.laser_params == laser_params,
            r.odom_pose == odom_pose,
            r.ranges == ranges,
    {
        RobotLaser { data_packet, laser_params, odom_pose, ranges }
    }

    /// The pose of the sensor in the world frame: the robot pose composed
    /// with the sensor-to-robot offset.
    pub fn laser_pose(&self) -> (r: Pose)
        requires
            self.wf(),
        ensures
            r == crate::pose::spec_compose(self.odom_pose, self.laser_params.laser_pose),
            r.rot_wf(),
            r.pos_bounded(3 * (COORD_LIMIT as int)),
    {
        self.odom_pose.compose(&self.laser_params.laser_pose)
    }
}

} // verus!
