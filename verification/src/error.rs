//! Error values shared by the engine-facing and the peer-facing halves.
use crate::text::text_eq;
use vstd::prelude::*;

verus! {

/// The machine-readable class of an [`EngineError`].
#[derive(Clone, Copy, Debug, PartialEq, Eq, Structural)]
pub enum ErrorCode {
    NotFound,
    NotRunning,
    Busy,
    Unsupported,
    Unauthorized,
    Forbidden,
    Invalid,
    Engine,
}

/// The wire spelling of a code.
pub open spec fn code_text(code: ErrorCode) -> Seq<char> {
    match code {
        ErrorCode::NotFound => "not_found"@,
        ErrorCode::NotRunning => "not_running"@,
        ErrorCode::Busy => "busy"@,
        ErrorCode::Unsupported => "unsupported"@,
        ErrorCode::Unauthorized => "unauthorized"@,
        ErrorCode::Forbidden => "forbidden"@,
        ErrorCode::Invalid => "invalid"@,
        ErrorCode::Engine => "engine_error"@,
    }
}

impl ErrorCode {
    /// The wire spelling of the code.
    pub fn as_str(self) -> (r: &'static str)
        ensures
            r@ == code_text(self),
    {
        match self {
            ErrorCode::NotFound => "not_found",
            ErrorCode::NotRunning => "not_running",
            ErrorCode::Busy => "busy",
            ErrorCode::Unsupported => "unsupported",
            ErrorCode::Unauthorized => "unauthorized",
            ErrorCode::Forbidden => "forbidden",
            ErrorCode::Invalid => "invalid",
            ErrorCode::Engine => "engine_error",
        }
    }
}

/// An engine failure: its class and a message for people.
#[derive(Debug)]
pub struct EngineError {
    pub code: ErrorCode,
    pub message: String,
}

/// The value of an [`EngineError`].
pub struct ErrorView {
    pub code: ErrorCode,
    pub message: Seq<char>,
}

impl View for EngineError {
    type V = ErrorView;

    open spec fn view(&self) -> ErrorView {
        ErrorView { code: self.code, message: self.message@ }
    }
}

/// The error of class `code` with the message `message`.
pub open spec fn failure(code: ErrorCode, message: Seq<char>) -> ErrorView {
    ErrorView { code, message }
}

impl EngineError {
    pub fn new(code: ErrorCode, message: String) -> (r: EngineError)
        ensures
            r@ == failure(code, message@),
    {
        EngineError { code, message }
    }

    pub fn invalid(message: String) -> (r: EngineError)
        ensures
            r@ == failure(ErrorCode::Invalid, message@),
    {
        EngineError { code: ErrorCode::Invalid, message }
    }

    pub fn not_found(message: String) -> (r: EngineError)
        ensures
            r@ == failure(ErrorCode::NotFound, message@),
    {
        EngineError { code: ErrorCode::NotFound, message }
    }

    pub fn busy(message: String) -> (r: EngineError)
        ensures
            r@ == failure(ErrorCode::Busy, message@),
    {
        EngineError { code: ErrorCode::Busy, message }
    }

    pub fn engine(message: String) -> (r: EngineError)
        ensures
            r@ == failure(ErrorCode::Engine, message@),
    {
        EngineError { code: ErrorCode::Engine, message }
    }

    pub fn unsupported(message: String) -> (r: EngineError)
        ensures
            r@ == failure(ErrorCode::Unsupported, message@),
    {
        EngineError { code: ErrorCode::Unsupported, message }
    }
}

/// A failure as peers exchange it: a code that may be any text, and a message.
#[derive(Debug)]
pub struct MeshError {
    pub code: String,
    pub message: String,
}

impl MeshError {
    pub fn with_code(message: String, code: &str) -> (r: MeshError)
        ensures
            r.code@ == code@,
            r.message@ == message@,
    {
        MeshError { code: code.to_owned(), message }
    }

    pub fn invalid(message: &str) -> (r: MeshError)
        ensures
            r.code@ == "invalid"@,
            r.message@ == message@,
    {
        MeshError { code: "invalid".to_owned(), message: message.to_owned() }
    }
}

/// The class that a peer's code stands for; a code of no known meaning is an
/// engine failure.
pub open spec fn code_of_text(code: Seq<char>) -> ErrorCode {
    if code == "not_found"@ {
        ErrorCode::NotFound
    } else if code == "not_running"@ {
        ErrorCode::NotRunning
    } else if code == "busy"@ || code == "conflict"@ {
        ErrorCode::Busy
    } else if code == "unsupported"@ {
        ErrorCode::Unsupported
    } else if code == "unauthorized"@ {
        ErrorCode::Unauthorized
    } else if code == "forbidden"@ {
        ErrorCode::Forbidden
    } else if code == "invalid"@ || code == "arch_required"@ {
        ErrorCode::Invalid
    } else {
        ErrorCode::Engine
    }
}

/// A peer's failure as an engine failure.
pub fn mesh_to_engine(error: MeshError) -> (r: EngineError)
    ensures
        r@ == failure(code_of_text(error.code@), error.message@),
{
    let text = error.code.as_str();
    let code = if text_eq(text, "not_found") {
        ErrorCode::NotFound
    } else if text_eq(text, "not_running") {
        ErrorCode::NotRunning
    } else if text_eq(text, "busy") || text_eq(text, "conflict") {
        ErrorCode::Busy
    } else if text_eq(text, "unsupported") {
        ErrorCode::Unsupported
    } else if text_eq(text, "unauthorized") {
        ErrorCode::Unauthorized
    } else if text_eq(text, "forbidden") {
        ErrorCode::Forbidden
    } else if text_eq(text, "invalid") || text_eq(text, "arch_required") {
        ErrorCode::Invalid
    } else {
        ErrorCode::Engine
    };
    EngineError::new(code, error.message)
}

/// An engine failure as peers exchange it.
pub fn engine_to_mesh(error: EngineError) -> (r: MeshError)
    ensures
        r.code@ == code_text(error.code),
        r.message@ == error.message@,
{
    MeshError::with_code(error.message, error.code.as_str())
}

/// A failure that goes to a peer and comes back keeps its class.
pub proof fn law_code_round_trip(code: ErrorCode)
    ensures
        code_of_text(code_text(code)) == code,
{
    reveal_strlit("not_found");
    reveal_strlit("not_running");
    reveal_strlit("busy");
    reveal_strlit("conflict");
    reveal_strlit("unsupported");
    reveal_strlit("unauthorized");
    reveal_strlit("forbidden");
    reveal_strlit("invalid");
    reveal_strlit("arch_required");
    reveal_strlit("engine_error");
    assert("not_found"@.len() == 9 && "forbidden"@.len() == 9);
    assert("not_running"@.len() == 11 && "unsupported"@.len() == 11);
    assert("unauthorized"@.len() == 12 && "engine_error"@.len() == 12);
    assert("busy"@.len() == 4 && "conflict"@.len() == 8 && "invalid"@.len() == 7);
    assert("arch_required"@.len() == 13);
    assert("not_found"@[0] == 'n' && "forbidden"@[0] == 'f');
    assert("not_running"@[0] == 'n' && "unsupported"@[0] == 'u');
    assert("unauthorized"@[0] == 'u' && "engine_error"@[0] == 'e');
}

} // verus!
