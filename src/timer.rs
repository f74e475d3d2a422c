//! Clock sources for the timed window of a measurement round.
use vstd::prelude::*;

verus! {

/// Which clock a pack measures with.
#[derive(Debug, Clone, Copy, PartialEq, Eq, Structural)]
pub enum TimerType {
    /// CPU time of the whole process.
    ProcessTimer,
    /// CPU time of the current thread.
    ThreadTimer,
    /// Wall-clock time.
    SystemTimer,
}

/// A clock: a reading taken now, and the nanoseconds passed since a reading.
pub trait Timer: Sized {
    fn now() -> Self;

    fn elapsed(&self) -> u128;
}

#[verifier::external_type_specification]
#[verifier::external_body]
pub struct ExProcessTime(cpu_time::ProcessTime);

#[verifier::external_type_specification]
#[verifier::external_body]
pub struct ExThreadTime(cpu_time::ThreadTime);

#[verifier::external_type_specification]
#[verifier::external_body]
pub struct ExSystemTime(std::time::SystemTime);

/// Relies on `cpu_time::ProcessTime::now`: the CPU time the process has used so far.
#[verifier::external_body]
fn process_time_now() -> cpu_time::ProcessTime {
    cpu_time::ProcessTime::now()
}

/// Relies on `cpu_time::ProcessTime::elapsed`: the process's CPU time since the reading,
/// in nanoseconds.
#[verifier::external_body]
fn process_time_elapsed(t: &cpu_time::ProcessTime) -> u128 {
    t.elapsed().as_nanos()
}

/// Relies on `cpu_time::ThreadTime::now`: the CPU time the thread has used so far.
#[verifier::external_body]
fn thread_time_now() -> cpu_time::ThreadTime {
    cpu_time::ThreadTime::now()
}

/// Relies on `cpu_time::ThreadTime::elapsed`: the thread's CPU time since the reading, in
/// nanoseconds.
#[verifier::external_body]
fn thread_time_elapsed(t: &cpu_time::ThreadTime) -> u128 {
    t.elapsed().as_nanos()
}

/// Relies on `SystemTime::now`: the current wall-clock time.
#[verifier::external_body]
fn system_time_now() -> std::time::SystemTime {
    std::time::SystemTime::now()
}

/// Relies on `SystemTime::elapsed`: the wall-clock time since the reading, in nanoseconds;
/// a clock that went backwards counts as no time at all.
#[verifier::external_body]
fn system_time_elapsed(t: &std::time::SystemTime) -> u128 {
    t.elapsed().map(|d| d.as_nanos()).unwrap_or(0)
}

impl Timer for cpu_time::ProcessTime {
    fn now() -> Self {
        process_time_now()
    }

    fn elapsed(&self) -> u128 {
        process_time_elapsed(self)
    }
}

impl Timer for cpu_time::ThreadTime {
    fn now() -> Self {
        thread_time_now()
    }

    fn elapsed(&self) -> u128 {
        thread_time_elapsed(self)
    }
}

impl Timer for std::time::SystemTime {
    fn now() -> Self {
        system_time_now()
    }

    fn elapsed(&self) -> u128 {
        system_time_elapsed(self)
    }
}

} // verus!
