use vstd::prelude::*;

use crate::render::spec_decimal;
use crate::render::decimal_u64;

verus! {

/// Model of an [`Error`]: the failure kind plus the message characters.
pub enum ErrorModel {
    Abort(Seq<char>),
    Runtime(Seq<char>),
    OutOfBound(Seq<char>),
    OutOfGas(Seq<char>),
    ArithmeticError(Seq<char>),
    MemoryLimitExceeded(Seq<char>),
    Unknown(Seq<char>),
}

/// The closed set of VM failure kinds, each carrying a human-readable
/// message. Two errors are the same crash fingerprint component exactly when
/// their kind and message agree.
#[derive(Debug, PartialEq, Eq)]
pub enum Error {
    Abort { message: String },
    Runtime { message: String },
    OutOfBound { message: String },
    OutOfGas { message: String },
    ArithmeticError { message: String },
    MemoryLimitExceeded { message: String },
    Unknown { message: String },
}

impl View for Error {
    type V = ErrorModel;

    open spec fn view(&self) -> ErrorModel {
        match self {
            Error::Abort { message } => ErrorModel::Abort(message@),
            Error::Runtime { message } => ErrorModel::Runtime(message@),
            Error::OutOfBound { message } => ErrorModel::OutOfBound(message@),
            Error::OutOfGas { message } => ErrorModel::OutOfGas(message@),
            Error::ArithmeticError { message } => ErrorModel::ArithmeticError(message@),
            Error::MemoryLimitExceeded { message } => ErrorModel::MemoryLimitExceeded(message@),
            Error::Unknown { message } => ErrorModel::Unknown(message@),
        }
    }
}

impl Clone for Error {
    /// A clone has the same kind and message as the original.
    fn clone(&self) -> (r: Error)
        ensures
            r@ == self@,
    {
        match self {
            Error::Abort { message } => Error::Abort { message: message.clone() },
            Error::Runtime { message } => Error::Runtime { message: message.clone() },
            Error::OutOfBound { message } => Error::OutOfBound { message: message.clone() },
            Error::OutOfGas { message } => Error::OutOfGas { message: message.clone() },
            Error::ArithmeticError { message } => Error::ArithmeticError {
                message: message.clone(),
            },
            Error::MemoryLimitExceeded { message } => Error::MemoryLimitExceeded {
                message: message.clone(),
            },
            Error::Unknown { message } => Error::Unknown { message: message.clone() },
        }
    }
}

/// Whether two errors agree on kind and message.
pub fn error_eq(a: &Error, b: &Error) -> (r: bool)
    ensures
        r == (a@ == b@),
{
    match a {
        Error::Abort { message } => match b {
            Error::Abort { message: other } => *message == *other,
            _ => false,
        },
        Error::Runtime { message } => match b {
            Error::Runtime { message: other } => *message == *other,
            _ => false,
        },
        Error::OutOfBound { message } => match b {
            Error::OutOfBound { message: other } => *message == *other,
            _ => false,
        },
        Error::OutOfGas { message } => match b {
            Error::OutOfGas { message: other } => *message == *other,
            _ => false,
        },
        Error::ArithmeticError { message } => match b {
            Error::ArithmeticError { message: other } => *message == *other,
            _ => false,
        },
        Error::MemoryLimitExceeded { message } => match b {
            Error::MemoryLimitExceeded { message: other } => *message == *other,
            _ => false,
        },
        Error::Unknown { message } => match b {
            Error::Unknown { message: other } => *message == *other,
            _ => false,
        },
    }
}

/// The printable form of an error: `Abort`, `Unknown` and `Runtime` include
/// their message; the other kinds elide it.
pub open spec fn error_display(e: ErrorModel) -> Seq<char> {
    match e {
        ErrorModel::Abort(message) => "Abort - "@ + message,
        ErrorModel::OutOfBound(_) => "OutOfBound"@,
        ErrorModel::OutOfGas(_) => "OutOfGas"@,
        ErrorModel::ArithmeticError(_) => "ArithmeticError"@,
        ErrorModel::MemoryLimitExceeded(_) => "MemoryLimitExceeded"@,
        ErrorModel::Unknown(message) => "Unknown - "@ + message,
        ErrorModel::Runtime(message) => "Runtime - "@ + message,
    }
}

impl Error {
    /// Renders this error for reporting.
    pub fn display_string(&self) -> (r: String)
        ensures
            r@ == error_display(self@),
    {
        match self {
            Error::Abort { message } => {
                let mut s = String::from_str("Abort - ");
                s.append(message.as_str());
                s
            },
            Error::OutOfBound { message: _ } => String::from_str("OutOfBound"),
            Error::OutOfGas { message: _ } => String::from_str("OutOfGas"),
            Error::ArithmeticError { message: _ } => String::from_str("ArithmeticError"),
            Error::MemoryLimitExceeded { message: _ } => String::from_str("MemoryLimitExceeded"),
            Error::Unknown { message } => {
                let mut s = String::from_str("Unknown - ");
                s.append(message.as_str());
                s
            },
            Error::Runtime { message } => {
                let mut s = String::from_str("Runtime - ");
                s.append(message.as_str());
                s
            },
        }
    }
}

/// The VM completion statuses that the failure classifier distinguishes.
/// Every status outside the four mapped codes is handed in as `Other`.
#[derive(Debug, Clone, Copy, PartialEq, Eq, Structural)]
pub enum VmStatus {
    Aborted,
    ArithmeticError,
    MemoryLimitExceeded,
    OutOfGas,
    Other,
}

/// The fixed mapping from a VM completion status to a failure kind.
pub open spec fn spec_classify(status: VmStatus, message: Seq<char>) -> ErrorModel {
    match status {
        VmStatus::Aborted => ErrorModel::Abort(message),
        VmStatus::ArithmeticError => ErrorModel::ArithmeticError(message),
        VmStatus::MemoryLimitExceeded => ErrorModel::MemoryLimitExceeded(message),
        VmStatus::OutOfGas => ErrorModel::OutOfGas(message),
        VmStatus::Other => ErrorModel::Unknown(message),
    }
}

/// Classifies a VM failure into the closed error taxonomy.
pub fn classify_vm_status(status: VmStatus, message: String) -> (r: Error)
    ensures
        r@ == spec_classify(status, message@),
{
    match status {
        VmStatus::Aborted => Error::Abort { message },
        VmStatus::ArithmeticError => Error::ArithmeticError { message },
        VmStatus::MemoryLimitExceeded => Error::MemoryLimitExceeded { message },
        VmStatus::OutOfGas => Error::OutOfGas { message },
        VmStatus::Other => Error::Unknown { message },
    }
}

/// Classification is total over the closed status set, and the four mapped
/// codes never classify as `Unknown`: only an unmapped status does.
pub proof fn lemma_classification_totality(status: VmStatus, message: Seq<char>)
    ensures
        (spec_classify(status, message) matches ErrorModel::Unknown(_)) == (status
            == VmStatus::Other),
        status == VmStatus::Aborted ==> spec_classify(status, message) == ErrorModel::Abort(
            message,
        ),
{
}

/// The location part of a runtime-failure message; a missing function name
/// defaults to "Unknown function".
pub open spec fn spec_location_name(name: Option<Seq<char>>) -> Seq<char> {
    match name {
        Some(s) => s,
        None => "Unknown function"@,
    }
}

/// Builds the message reported for a runtime failure located in a function.
pub fn runtime_location_message(function_name: Option<&str>) -> (r: String)
    ensures
        r@ == "in function: "@ + spec_location_name(match function_name {
            Some(s) => Some(s@),
            None => None,
        }),
{
    let mut s = String::from_str("in function: ");
    match function_name {
        Some(name) => s.append(name),
        None => s.append("Unknown function"),
    }
    s
}

/// Builds the message reported for an abort, naming the function and the
/// abort code.
pub fn abort_location_message(function_name: Option<&str>, abort_code: u64) -> (r: String)
    ensures
        r@ == "in function: "@ + spec_location_name(match function_name {
            Some(s) => Some(s@),
            None => None,
        }) + " with error code: "@ + spec_decimal(abort_code as int),
{
    let mut s = runtime_location_message(function_name);
    s.append(" with error code: ");
    let code = decimal_u64(abort_code);
    s.append(code.as_str());
    proof {
        assert(s@ =~= "in function: "@ + spec_location_name(match function_name {
            Some(s) => Some(s@),
            None => None,
        }) + " with error code: "@ + spec_decimal(abort_code as int));
    }
    s
}

} // verus!
