//! Sensors and the ports they sit at.

use vstd::prelude::*;

pub mod color_sensor;

pub use self::color_sensor::ColorSensor;

verus! {

/// The input ports that a sensor can sit at.
#[derive(Debug, Copy, Clone, PartialEq, Eq, Structural)]
pub enum SensorPort {
    In1,
    In2,
    In3,
    In4,
}

impl SensorPort {
    /// The address under which the port appears in a device's `address` attribute.
    pub open spec fn address_text(&self) -> Seq<char> {
        match *self {
            SensorPort::In1 => "in1"@,
            SensorPort::In2 => "in2"@,
            SensorPort::In3 => "in3"@,
            SensorPort::In4 => "in4"@,
        }
    }

    /// The address under which the port appears in a device's `address` attribute.
    pub fn address(&self) -> (address: String)
        ensures
            address@ == self.address_text(),
    {
        match self {
            SensorPort::In1 => "in1".to_owned(),
            SensorPort::In2 => "in2".to_owned(),
            SensorPort::In3 => "in3".to_owned(),
            SensorPort::In4 => "in4".to_owned(),
        }
    }
}

} // verus!
