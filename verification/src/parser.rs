//! The capability a scan source offers.

use vstd::prelude::*;

use crate::robot_data::RobotLaser;

verus! {

/// Produces a finite, ordered sequence of laser scans.  Each concrete
/// log format is one implementation; reading and decoding the data is
/// the implementation's business, the map construction only consumes the
/// records.
pub trait Parser {
    fn parse(&self) -> Vec<RobotLaser>;
}

} // verus!
