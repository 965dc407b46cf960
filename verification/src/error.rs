//! The coordinator's error taxonomy.  Every failure surfaces to callers as a
//! single human-readable line; the variants keep the cause distinguishable
//! inside the library.

use vstd::prelude::*;

verus! {

use vstd::string::StringExecFns;

/// Why a command, or one step of a command, failed.
#[derive(Debug, PartialEq, Eq, Clone)]
pub enum AppError {
    /// A variable update named a variable no open window references.
    VarNotReferenced(String),
    /// A window name that the current configuration does not define.
    WindowNotInConfig(String),
    /// A close was asked of a window that is not open.
    NotOpen(String),
    /// The widget tree or the native window could not be built.
    BuildFailure(String),
    /// The configuration file could not be parsed.
    ConfigParse(String),
    /// The stylesheet could not be parsed.
    CssParse(String),
}

impl AppError {
    /// The message a failure prints as.
    pub open spec fn message_spec(&self) -> Seq<char> {
        match self {
            AppError::VarNotReferenced(n) => "Unknown variable '"@ + n@
                + "' is not referenced by any open window"@,
            AppError::WindowNotInConfig(n) => "No window named '"@ + n@
                + "' exists in the configuration"@,
            AppError::NotOpen(n) => "No window with name '"@ + n@ + "' is running."@,
            AppError::BuildFailure(m) => "Failed to build window: "@ + m@,
            AppError::ConfigParse(m) => "Failed to load config: "@ + m@,
            AppError::CssParse(m) => "Failed to load css: "@ + m@,
        }
    }

    /// Render the failure as text.
    pub fn message(&self) -> (r: String)
        ensures
            r@ == self.message_spec(),
    {
        match self {
            AppError::VarNotReferenced(n) => String::from_str("Unknown variable '").concat(
                n.as_str(),
            ).concat("' is not referenced by any open window"),
            AppError::WindowNotInConfig(n) => String::from_str("No window named '").concat(
                n.as_str(),
            ).concat("' exists in the configuration"),
            AppError::NotOpen(n) => String::from_str("No window with name '").concat(
                n.as_str(),
            ).concat("' is running."),
            AppError::BuildFailure(m) => String::from_str("Failed to build window: ").concat(
                m.as_str(),
            ),
            AppError::ConfigParse(m) => String::from_str("Failed to load config: ").concat(
                m.as_str(),
            ),
            AppError::CssParse(m) => String::from_str("Failed to load css: ").concat(m.as_str()),
        }
    }
}

} // verus!
