use vstd::prelude::*;

verus! {

/// Error returned by the storage driver.
///
/// `Conflict` reports a violated uniqueness rule (duplicate identifier,
/// key value, service name, or user email); `NotFound` reports that the
/// target row of an update is absent under the current service mask.
#[derive(Clone, Copy, Debug, PartialEq, Eq, Structural)]
pub enum DriverError {
    Conflict,
    NotFound,
}

/// Error returned by core operations.
///
/// Authentication failures always map to `Forbidden`; which of the
/// possible causes occurred is recorded only in the audit trail.
/// Storage errors propagate verbatim under `Driver`.
#[derive(Clone, Copy, Debug, PartialEq, Eq, Structural)]
pub enum CoreError {
    BadRequest,
    Forbidden,
    NotFound,
    Conflict,
    Driver(DriverError),
    Metrics,
}

impl CoreError {
    /// HTTP-style numeric status for this error kind.
    pub fn status_code(&self) -> (r: u16)
        ensures
            r == self.spec_status_code(),
    {
        match self {
            CoreError::BadRequest => 400,
            CoreError::Forbidden => 403,
            CoreError::NotFound => 404,
            CoreError::Conflict => 409,
            CoreError::Driver(_) => 500,
            CoreError::Metrics => 500,
        }
    }

    pub open spec fn spec_status_code(&self) -> u16 {
        match self {
            CoreError::BadRequest => 400,
            CoreError::Forbidden => 403,
            CoreError::NotFound => 404,
            CoreError::Conflict => 409,
            CoreError::Driver(_) => 500,
            CoreError::Metrics => 500,
        }
    }
}

} // verus!
