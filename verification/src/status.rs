use vstd::prelude::*;

verus! {

// The error taxonomy of one invocation and its fixed translation to HTTP
// statuses. Backend status codes follow the usual RPC numbering: 3 is
// invalid-argument, 5 is not-found, 14 is unavailable.

/// Why an invocation failed.
#[derive(PartialEq, Eq, Debug)]
pub enum CallFailure {
    /// The path names no method of the client.
    MethodNotFound,
    /// The named argument cannot be coerced to its field's kind.
    FieldTypeMismatch(String),
    /// The backend answered with a non-success status.
    Invoke { code: u32, message: String },
    /// The connection failed mid-call; terminal for the client instance.
    Transport,
}

/// The backend status code for invalid-argument.
pub const CODE_INVALID_ARGUMENT: u32 = 3;

/// The backend status code for not-found.
pub const CODE_NOT_FOUND: u32 = 5;

/// The backend status code for unavailable.
pub const CODE_UNAVAILABLE: u32 = 14;

/// The HTTP status a backend-reported status code translates to.
pub open spec fn status_of_code(code: u32) -> u16 {
    if code == CODE_NOT_FOUND {
        404
    } else if code == CODE_INVALID_ARGUMENT {
        400
    } else if code == CODE_UNAVAILABLE {
        503
    } else {
        500
    }
}

/// The HTTP status of a failed invocation: method and route misses are 404,
/// a bad argument is 400, a backend status goes through `status_of_code`,
/// and a transport failure is 502.
pub open spec fn spec_status_of_failure(f: CallFailure) -> u16 {
    match f {
        CallFailure::MethodNotFound => 404,
        CallFailure::FieldTypeMismatch(_) => 400,
        CallFailure::Invoke { code, message: _ } => status_of_code(code),
        CallFailure::Transport => 502,
    }
}

/// Translates one failure to its HTTP status, exactly as
/// `spec_status_of_failure` states.
pub fn status_of_failure(f: &CallFailure) -> (s: u16)
    ensures
        s == spec_status_of_failure(*f),
{
    match f {
        CallFailure::MethodNotFound => 404,
        CallFailure::FieldTypeMismatch(_) => 400,
        CallFailure::Invoke { code, message: _ } => {
            if *code == CODE_NOT_FOUND {
                404
            } else if *code == CODE_INVALID_ARGUMENT {
                400
            } else if *code == CODE_UNAVAILABLE {
                503
            } else {
                500
            }
        },
        CallFailure::Transport => 502,
    }
}

} // verus!
