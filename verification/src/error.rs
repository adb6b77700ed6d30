use vstd::prelude::*;

verus! {

/// Error taxonomy of a processing run.
///
/// `ServiceError` and `MalformedOutput` are per-document failures: they are
/// recorded in the failure set and never abort the run. `NotFoundError` (a
/// required tag or custom-field id could not be resolved at startup) and
/// `UserAborted` (the apply confirmation was declined) are fatal and stop a
/// run before any document is touched.
#[derive(Debug, Clone, PartialEq, Eq)]
pub enum Error {
    /// A collaborator call failed or returned an error status.
    ServiceError(String),
    /// A startup lookup of a required tag or custom-field id failed.
    NotFoundError(String),
    /// The model reply violated the two-line/decimal contract.
    MalformedOutput(String),
    /// The user declined the apply confirmation.
    UserAborted,
}

impl Error {
    /// True for the per-document errors, false for the fatal ones.
    pub open spec fn is_per_document(&self) -> bool {
        match *self {
            Error::ServiceError(_) => true,
            Error::MalformedOutput(_) => true,
            Error::NotFoundError(_) => false,
            Error::UserAborted => false,
        }
    }

    /// A short human-readable description, for log lines.
    pub fn describe(&self) -> (r: String)
        ensures
            r@ == match *self {
                Error::ServiceError(ref m) => "service error: "@ + m@,
                Error::NotFoundError(ref m) => "not found: "@ + m@,
                Error::MalformedOutput(ref m) => "malformed model output: "@ + m@,
                Error::UserAborted => "user aborted"@,
            },
    {
        match self {
            Error::ServiceError(m) => "service error: ".to_owned().concat(m.as_str()),
            Error::NotFoundError(m) => "not found: ".to_owned().concat(m.as_str()),
            Error::MalformedOutput(m) => "malformed model output: ".to_owned().concat(m.as_str()),
            Error::UserAborted => "user aborted".to_owned(),
        }
    }
}

} // verus!
