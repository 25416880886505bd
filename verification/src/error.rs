//! The error taxonomy of the preprocessor.

use vstd::prelude::*;

verus! {

/// The errors the preprocessor reports. Every variant carries its
/// message text.
#[derive(Debug)]
pub enum ShinkansenError {
    /// Input/output related errors
    IoError(String),
    /// Template rendering errors
    TemplateError(String),
    /// Configuration file parsing errors
    ConfigParseError(String),
    /// Variable parsing errors
    VariableParseError(String),
    /// Validation errors (input/output combinations)
    ValidationError(String),
    /// File system errors
    FileSystemError(String),
    /// Security-related errors
    SecurityError(String),
    /// Template context creation errors
    ContextError(String),
}

impl ShinkansenError {
    /// The message carried by the error.
    pub open spec fn message_spec(&self) -> Seq<char> {
        match self {
            ShinkansenError::IoError(m) => m@,
            ShinkansenError::TemplateError(m) => m@,
            ShinkansenError::ConfigParseError(m) => m@,
            ShinkansenError::VariableParseError(m) => m@,
            ShinkansenError::ValidationError(m) => m@,
            ShinkansenError::SecurityError(m) => m@,
            ShinkansenError::FileSystemError(m) => m@,
            ShinkansenError::ContextError(m) => m@,
        }
    }

    /// Read the message out.
    pub fn message(&self) -> (r: &str)
        ensures
            r@ == self.message_spec(),
    {
        match self {
            ShinkansenError::IoError(m) => m.as_str(),
            ShinkansenError::TemplateError(m) => m.as_str(),
            ShinkansenError::ConfigParseError(m) => m.as_str(),
            ShinkansenError::VariableParseError(m) => m.as_str(),
            ShinkansenError::ValidationError(m) => m.as_str(),
            ShinkansenError::SecurityError(m) => m.as_str(),
            ShinkansenError::FileSystemError(m) => m.as_str(),
            ShinkansenError::ContextError(m) => m.as_str(),
        }
    }
}

} // verus!
