//! What every scan module produces: a report buffer tagged with the module
//! id and an error status.
use vstd::prelude::*;
use crate::buffer::{DataBuffer, DATA_BUFFER_DWORDS};

verus! {

/// Outcome of a module scan.
#[derive(Debug, Clone, Copy, PartialEq, Eq, Structural)]
pub enum ScanError {
    NoError,
    PermissionDenied,
    SystemCallFailed,
    InvalidState,
    NotSupportedOnPlatform,
}

/// A module's scan output.
#[derive(Debug)]
pub struct ScanReport {
    pub data: DataBuffer,
    pub module_id: u32,
    pub error: ScanError,
}

impl ScanReport {
    /// An empty report for `module_id`: zeroed buffer, cursor at 0, no error.
    pub fn new(module_id: u32) -> (r: Self)
        ensures
            r.data.wf(),
            r.data.words() == Seq::new(DATA_BUFFER_DWORDS as nat, |i: int| 0u32),
            r.data.pos() == 0,
            r.module_id == module_id,
            r.error == ScanError::NoError,
    {
        ScanReport { data: DataBuffer::new(), module_id, error: ScanError::NoError }
    }
}


/// A scan module: its name, its id, and a scan that fills a report with
/// what it finds on the machine.
pub trait Module {
    fn name(&self) -> &'static str;

    fn module_id(&self) -> u32;

    fn scan(&mut self, report: &mut ScanReport);
}

} // verus!
