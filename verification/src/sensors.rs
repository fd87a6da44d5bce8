//! The interfaces that sensor backends implement, and the backends used
//! where a platform has nothing to report.
use vstd::prelude::*;
use crate::fan::FanReading;
use crate::disk::DiskReading;

verus! {

/// A backend failed; the message says why.
#[derive(Debug, Clone)]
pub struct SensorError {
    pub message: String,
}

/// Reads fans and sets their duty cycle.
pub trait FanController: Send + Sync {
    /// Every fan's current reading.
    fn read_all(&self) -> Result<Vec<FanReading>, SensorError>;

    /// Sets the duty cycle (0-100 %, larger values clamped) of the fan
    /// carrying `fan_label`.
    fn set_percent(&self, fan_label: &str, percent: u8) -> Result<(), SensorError>;
}

/// Reads the usage of mounted disks.
pub trait DiskSensor: Send + Sync {
    /// Every mounted disk's current reading.
    fn read_all(&self) -> Result<Vec<DiskReading>, SensorError>;
}

/// Fan controller for platforms without fan access: no fans, and setting a
/// duty cycle does nothing.
#[derive(Debug, Clone, Copy)]
pub struct NoopFanController;

impl FanController for NoopFanController {
    fn read_all(&self) -> (r: Result<Vec<FanReading>, SensorError>)
        ensures
            r matches Ok(v) && v@.len() == 0,
    {
        Ok(Vec::new())
    }

    fn set_percent(&self, fan_label: &str, percent: u8) -> (r: Result<(), SensorError>)
        ensures
            r is Ok,
    {
        Ok(())
    }
}

/// Disk sensor for platforms without disk access: no disks.
#[derive(Debug, Clone, Copy)]
pub struct NoopDiskSensor;

impl DiskSensor for NoopDiskSensor {
    fn read_all(&self) -> (r: Result<Vec<DiskReading>, SensorError>)
        ensures
            r matches Ok(v) && v@.len() == 0,
    {
        Ok(Vec::new())
    }
}

} // verus!
