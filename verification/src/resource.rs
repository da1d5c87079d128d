use vstd::prelude::*;

use crate::text::{append_decimal, decimal};

verus! {

/// Sets up and cleans up resource controls for the processes that jobs run.
pub trait ResourceController: Send + Sync {
    /// Sets up resource controls for the command about to run.
    fn setup(&self) -> Result<(), std::io::Error>;

    /// Cleans up the resource controls of a child process.
    fn cleanup(&self, pid: u32) -> Result<(), std::io::Error>;
}

/// A resource controller that does nothing.
pub struct NoOpController {}

impl ResourceController for NoOpController {
    fn setup(&self) -> (result: Result<(), std::io::Error>)
        ensures
            result is Ok,
    {
        Ok(())
    }

    fn cleanup(&self, _pid: u32) -> (result: Result<(), std::io::Error>)
        ensures
            result is Ok,
    {
        Ok(())
    }
}

/// Memory limit, in bytes, of the control group of a job's process.
pub const MEMORY_LIMIT: i64 = 10485760;

/// CPU shares of the control group of a job's process.
pub const CPU_SHARES: u64 = 100;

/// Length, in microseconds, of the period over which the CPU quota applies (100 ms).
pub const CFS_PERIOD_MICROS: u64 = 100000;

/// CPU time, in microseconds, that the process may use in each period (10 ms).
pub const CFS_QUOTA_MICROS: i64 = 10000;

/// Name of the control group of the process with the given PID.
pub fn pid_to_name(pid: u32) -> (name: String)
    ensures
        name@ == "worker-"@ + decimal(pid as nat),
{
    let mut name = String::from_str("worker-");
    append_decimal(&mut name, pid);
    name
}

} // verus!
