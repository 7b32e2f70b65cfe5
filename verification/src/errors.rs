use vstd::prelude::*;
use vstd::string::*;

verus! {

/// Errors met while loading or checking a configuration.
///
/// The `Yaml` and `Io` variants carry the rendered message of the error that
/// the YAML reader or the operating system reported.
#[derive(Debug, PartialEq, Eq)]
pub enum TaskmasterError {
    /// error in the configuration file
    ParsingError(String),
    /// invalid parameter in the configuration
    InvalidParam(String),
    /// wrong command line
    Argument(String),
    Yaml(String),
    /// missing file, wrong permissions...
    Io(String),
}

/// The prefix that the description of each kind of error starts with.
pub open spec fn error_prefix(e: TaskmasterError) -> Seq<char> {
    match e {
        TaskmasterError::ParsingError(_) => "Parsing error : "@,
        TaskmasterError::InvalidParam(_) => "Invalid param : "@,
        TaskmasterError::Argument(_) => "Argument error : "@,
        TaskmasterError::Yaml(_) => "Error YAML : "@,
        TaskmasterError::Io(_) => "Erreur système I/O : "@,
    }
}

/// The message that an error carries.
pub open spec fn error_message(e: TaskmasterError) -> Seq<char> {
    match e {
        TaskmasterError::ParsingError(m) => m@,
        TaskmasterError::InvalidParam(m) => m@,
        TaskmasterError::Argument(m) => m@,
        TaskmasterError::Yaml(m) => m@,
        TaskmasterError::Io(m) => m@,
    }
}

/// `e` reports an invalid parameter with message `msg`.
pub open spec fn is_invalid_param(e: TaskmasterError, msg: Seq<char>) -> bool {
    match e {
        TaskmasterError::InvalidParam(m) => m@ == msg,
        _ => false,
    }
}

/// `e` reports a wrong command line with message `msg`.
pub open spec fn is_argument_error(e: TaskmasterError, msg: Seq<char>) -> bool {
    match e {
        TaskmasterError::Argument(m) => m@ == msg,
        _ => false,
    }
}

impl TaskmasterError {
    /// The text shown to the user for this error: its kind, then its message.
    pub fn describe(&self) -> (r: String)
        ensures
            r@ == error_prefix(*self) + error_message(*self),
    {
        match self {
            TaskmasterError::ParsingError(m) => {
                proof { reveal_strlit("Parsing error : "); }
                String::from_str("Parsing error : ").concat(m.as_str())
            },
            TaskmasterError::InvalidParam(m) => {
                proof { reveal_strlit("Invalid param : "); }
                String::from_str("Invalid param : ").concat(m.as_str())
            },
            TaskmasterError::Argument(m) => {
                proof { reveal_strlit("Argument error : "); }
                String::from_str("Argument error : ").concat(m.as_str())
            },
            TaskmasterError::Yaml(m) => {
                proof { reveal_strlit("Error YAML : "); }
                String::from_str("Error YAML : ").concat(m.as_str())
            },
            TaskmasterError::Io(m) => {
                proof { reveal_strlit("Erreur système I/O : "); }
                String::from_str("Erreur système I/O : ").concat(m.as_str())
            },
        }
    }
}

} // verus!
