//! The statuses with which a scheduler answers.
use crate::text::opt_text;
use vstd::prelude::*;

verus! {

/// The codes of gRPC.
#[derive(Clone, Copy, PartialEq, Eq, Structural, Debug)]
pub enum Code {
    Success,
    Cancelled,
    Unknown,
    InvalidArgument,
    DeadlineExceeded,
    NotFound,
    AlreadyExists,
    PermissionDenied,
    ResourceExhausted,
    FailedPrecondition,
    Aborted,
    OutOfRange,
    Unimplemented,
    Internal,
    Unavailable,
    DataLoss,
    Unauthenticated,
}

/// A status: its code and message, and the two entries of its metadata that tell
/// the cause and whether to try again.
#[derive(Debug)]
pub struct Status {
    pub code: Code,
    pub message: String,
    pub vmon_code: Option<String>,
    pub retryable: Option<bool>,
}

pub ghost struct StatusView {
    pub code: Code,
    pub message: Seq<char>,
    pub vmon_code: Option<Seq<char>>,
    pub retryable: Option<bool>,
}

impl View for Status {
    type V = StatusView;

    open spec fn view(&self) -> StatusView {
        StatusView {
            code: self.code,
            message: self.message@,
            vmon_code: opt_text(self.vmon_code),
            retryable: self.retryable,
        }
    }
}

impl Clone for Status {
    fn clone(&self) -> (r: Status)
        ensures
            r@ == self@,
    {
        Status {
            code: self.code,
            message: self.message.clone(),
            vmon_code: match &self.vmon_code {
                Some(c) => Some(c.clone()),
                None => None,
            },
            retryable: self.retryable,
        }
    }
}

/// A status of the scheduler's own.
pub open spec fn coded_status(code: Code, vmon_code: Seq<char>, retryable: bool, message: Seq<char>) -> StatusView {
    StatusView { code, message, vmon_code: Some(vmon_code), retryable: Some(retryable) }
}

/// A status of the scheduler's own.
pub fn coded(code: Code, vmon_code: &str, retryable: bool, message: String) -> (r: Status)
    ensures
        r@ == coded_status(code, vmon_code@, retryable, message@),
{
    Status { code, message, vmon_code: Some(vmon_code.to_owned()), retryable: Some(retryable) }
}

/// The cause that a code stands for where none is told.
pub open spec fn default_cause(code: Code) -> Seq<char> {
    match code {
        Code::Aborted => "busy"@,
        Code::InvalidArgument => "invalid"@,
        Code::NotFound => "not_found"@,
        Code::DeadlineExceeded => "deadline"@,
        _ => "engine_error"@,
    }
}

/// The error of one item of a batch.
#[derive(Debug)]
pub struct BatchCreateError {
    pub code: String,
    pub message: String,
}

/// The error of one item of a batch: the cause that the status tells, else the one
/// that its code stands for.
pub fn batch_error(status: &Status) -> (r: BatchCreateError)
    ensures
        r.code@ == match status@.vmon_code {
            Some(c) => c,
            None => default_cause(status@.code),
        },
        r.message@ == status@.message,
{
    let code = match &status.vmon_code {
        Some(c) => c.clone(),
        None => match status.code {
            Code::Aborted => "busy".to_owned(),
            Code::InvalidArgument => "invalid".to_owned(),
            Code::NotFound => "not_found".to_owned(),
            Code::DeadlineExceeded => "deadline".to_owned(),
            _ => "engine_error".to_owned(),
        },
    };
    BatchCreateError { code, message: status.message.clone() }
}

/// The error of an item of a batch without anything to create.
pub fn empty_item_error() -> (r: BatchCreateError)
    ensures
        r.code@ == "invalid"@,
        r.message@ == "batch item carries no create payload"@,
{
    BatchCreateError { code: "invalid".to_owned(), message: "batch item carries no create payload".to_owned() }
}

/// Whether a create that failed may be tried on another worker: the worker was
/// busy, or was not reached.
pub open spec fn is_create_retryable(code: Code) -> bool {
    code == Code::Aborted || code == Code::Unavailable || code == Code::DeadlineExceeded || code == Code::Cancelled
}

/// Whether a create that failed may be tried on another worker.
pub fn create_retryable(code: Code) -> (r: bool)
    ensures
        r == is_create_retryable(code),
{
    match code {
        Code::Aborted | Code::Unavailable | Code::DeadlineExceeded | Code::Cancelled => true,
        _ => false,
    }
}

/// A create is tried on another worker after what can pass there: a busy, vanished,
/// late or broken-off one. What is wrong with the request itself is not tried again.
pub proof fn law_bad_requests_are_not_retried()
    ensures
        !is_create_retryable(Code::InvalidArgument),
        !is_create_retryable(Code::NotFound),
        !is_create_retryable(Code::AlreadyExists),
        !is_create_retryable(Code::FailedPrecondition),
        !is_create_retryable(Code::PermissionDenied),
        !is_create_retryable(Code::Unauthenticated),
        !is_create_retryable(Code::Unimplemented),
        !is_create_retryable(Code::Internal),
        !is_create_retryable(Code::OutOfRange),
        !is_create_retryable(Code::DataLoss),
        !is_create_retryable(Code::Unknown),
        !is_create_retryable(Code::ResourceExhausted),
        !is_create_retryable(Code::Success),
        is_create_retryable(Code::Aborted),
        is_create_retryable(Code::Unavailable),
        is_create_retryable(Code::DeadlineExceeded),
        is_create_retryable(Code::Cancelled),
{
}

} // verus!
