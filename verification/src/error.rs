//! Typed application errors and their documented process exit codes.

use vstd::prelude::*;

use crate::context::{scheduler_error_text, SchedulerError};
use crate::model::{field_error_text, plan_error_text, BlockId, FieldParseError, PlanError};
use crate::store::{store_error_text, StoreError};
use crate::text::{concat2, concat3};
use crate::time::TimeError;

verus! {

/// Why a command failed.
#[derive(Debug, Clone, PartialEq, Eq)]
pub enum Error {
    Store(StoreError),
    Plan(PlanError),
    Field(FieldParseError),
    Time(TimeError),
    Scheduler(SchedulerError),
    NotFound(String),
    Usage(String),
    HistoryConflict { id: BlockId },
    AutomationRefused(String),
    Io(String),
    Json(String),
}

/// An exit code as a process status byte: 0, 2 to 6 pass through, anything else is 1.
pub open spec fn status_byte(code: int) -> u8 {
    if code == 0 || (2 <= code <= 6) {
        code as u8
    } else {
        1
    }
}

pub fn code_to_u8(code: i32) -> (r: u8)
    ensures
        r == status_byte(code as int),
{
    match code {
        0 => 0,
        2 => 2,
        3 => 3,
        4 => 4,
        5 => 5,
        6 => 6,
        _ => 1,
    }
}

pub open spec fn error_exit_code(e: Error) -> u8 {
    match e {
        Error::Store(StoreError::Plan(_)) => 2,
        Error::Store(StoreError::TerminalHistory { .. }) => 6,
        Error::Store(_) => 1,
        Error::Plan(_) | Error::Field(_) | Error::Time(_) | Error::Usage(_) => 2,
        Error::NotFound(_) => 3,
        Error::Scheduler(_) => 4,
        Error::AutomationRefused(_) => 5,
        Error::HistoryConflict { .. } => 6,
        Error::Io(_) | Error::Json(_) => 1,
    }
}

/// The message an error is reported with.
pub open spec fn error_text(e: Error) -> Seq<char> {
    match e {
        Error::Store(s) => store_error_text(s),
        Error::Plan(p) => plan_error_text(p),
        Error::Field(f) => field_error_text(f),
        Error::Time(TimeError::TimeZone(f)) => field_error_text(f),
        Error::Time(TimeError::Resolve(m)) => "failed to resolve local time: "@ + m@,
        Error::Scheduler(s) => scheduler_error_text(s),
        Error::NotFound(what) => "not found: "@ + what@,
        Error::Usage(m) => "usage error: "@ + m@,
        Error::HistoryConflict { id } =>
            "history conflict for terminal block `"@ + id@ + "`; use --override-history to replace it"@,
        Error::AutomationRefused(reason) => "automation refused: "@ + reason@,
        Error::Io(m) => "I/O error: "@ + m@,
        Error::Json(m) => "JSON error: "@ + m@,
    }
}

impl Error {
    /// The message the error is reported with, e.g. `not found: block focus`.
    pub fn message(&self) -> (r: String)
        ensures
            r@ == error_text(*self),
    {
        match self {
            Error::Store(e) => e.message(),
            Error::Plan(e) => e.message(),
            Error::Field(e) => e.message(),
            Error::Time(TimeError::TimeZone(e)) => e.message(),
            Error::Time(TimeError::Resolve(m)) => concat2("failed to resolve local time: ", m.as_str()),
            Error::Scheduler(e) => e.message(),
            Error::NotFound(what) => concat2("not found: ", what.as_str()),
            Error::Usage(m) => concat2("usage error: ", m.as_str()),
            Error::HistoryConflict { id } => concat3(
                "history conflict for terminal block `",
                id.as_str(),
                "`; use --override-history to replace it",
            ),
            Error::AutomationRefused(reason) => concat2("automation refused: ", reason.as_str()),
            Error::Io(m) => concat2("I/O error: ", m.as_str()),
            Error::Json(m) => concat2("JSON error: ", m.as_str()),
        }
    }

    /// The documented process exit code: 1 for I/O and generic failures, 2 for invalid input,
    /// 3 for something missing, 4 for the scheduler, 5 for refused automation, 6 for history.
    pub fn exit_code(&self) -> (r: u8)
        ensures
            r == error_exit_code(*self),
    {
        match self {
            Error::Store(error) => code_to_u8(error.exit_code()),
            Error::Plan(error) => code_to_u8(error.exit_code()),
            Error::Field(_) | Error::Time(_) | Error::Usage(_) => 2,
            Error::NotFound(_) => 3,
            Error::Scheduler(_) => 4,
            Error::AutomationRefused(_) => 5,
            Error::HistoryConflict { .. } => 6,
            Error::Io(_) | Error::Json(_) => 1,
        }
    }
}

} // verus!
