//! The failures that the library reports.
use vstd::prelude::*;
use vstd::string::*;

verus! {

/// A failure of a store, configuration, validation or generation step.
#[derive(Debug, Clone)]
pub enum ScaffError {
    /// No snapshot of this name exists.
    NotFound { name: String },
    /// No snapshot was named and no default snapshot is set.
    NoDefault,
    /// The language has no mapping for the requested step.
    UnsupportedLanguage { language: String },
    /// A directory or file could not be created, read or written.
    IoFailure { context: String },
}

pub open spec fn error_message(e: ScaffError) -> Seq<char> {
    match e {
        ScaffError::NotFound { name } => "Scaff '"@ + name@
            + "' not found. Use 'scaff list' to see available scaffs."@,
        ScaffError::NoDefault => "No scaff specified and no default scaff set. Use 'scaff default set <scaff-name>' to set a default, or specify a scaff name explicitly."@,
        ScaffError::UnsupportedLanguage { language } => "Unsupported language: "@ + language@,
        ScaffError::IoFailure { context } => "I/O failure: "@ + context@,
    }
}

impl ScaffError {
    /// A one-line description of the failure.
    pub fn message(&self) -> (r: String)
        ensures
            r@ == error_message(*self),
    {
        match self {
            ScaffError::NotFound { name } => {
                let mut s = String::from_str("Scaff '");
                s.append(name.as_str());
                s.append("' not found. Use 'scaff list' to see available scaffs.");
                s
            },
            ScaffError::NoDefault => String::from_str(
                "No scaff specified and no default scaff set. Use 'scaff default set <scaff-name>' to set a default, or specify a scaff name explicitly.",
            ),
            ScaffError::UnsupportedLanguage { language } => {
                let mut s = String::from_str("Unsupported language: ");
                s.append(language.as_str());
                s
            },
            ScaffError::IoFailure { context } => {
                let mut s = String::from_str("I/O failure: ");
                s.append(context.as_str());
                s
            },
        }
    }
}

} // verus!
