//! The error taxonomy: attribute errors and shape-capability errors are fatal
//! to the single item being compiled; path errors are reported before any
//! write; I/O and formatting failures are propagated by the caller that
//! performs them.

use vstd::prelude::*;

verus! {

/// Everything that can go wrong while compiling or exporting declarations.
#[derive(Debug, Clone, PartialEq, Eq)]
pub enum Error {
    /// The type named here has no output path, so it cannot be exported on
    /// its own.
    CannotBeExported(String),
    /// The shape named here has no standalone declaration (tuples, wrappers
    /// and other structural forms cannot be declared).
    CannotBeDeclared(String),
    /// The shape named here cannot appear inline.
    CannotBeInlined(String),
    /// The shape named here cannot be flattened into a parent object.
    CannotBeFlattened(String),
    /// An attribute key that the dialect does not know; holds the key and
    /// the list of accepted keys.
    UnknownAttribute(String, String),
    /// A malformed value or a conflicting attribute combination; holds a
    /// description naming the offending attribute.
    InvalidAttribute(String),
    /// An output path that escapes the output base directory.
    InvalidPath(String),
    /// A schema whose references do not fit the registry: a dangling index
    /// or a wrong number of generic arguments.
    InvalidSchema(String),
    /// A failure of the external formatting step; the unformatted file was
    /// already written.
    Formatting(String),
    /// An I/O failure, with the underlying description.
    Io(String),
    /// The manifest directory environment value was not provided.
    ManifestDirNotSet,
}

/// The message text for each error.
pub open spec fn message_spec(e: Error) -> Seq<char> {
    match e {
        Error::CannotBeExported(n) => "this type cannot be exported ("@ + n@ + ")"@,
        Error::CannotBeDeclared(n) => n@ + " cannot be declared"@,
        Error::CannotBeInlined(n) => n@ + " cannot be inlined"@,
        Error::CannotBeFlattened(n) => n@ + " cannot be flattened"@,
        Error::UnknownAttribute(k, allowed) => "unknown attribute \""@ + k@
            + "\". Allowed attributes are: "@ + allowed@,
        Error::InvalidAttribute(m) => m@,
        Error::InvalidPath(p) => "invalid output path: "@ + p@,
        Error::InvalidSchema(m) => "invalid schema ("@ + m@ + ")"@,
        Error::Formatting(m) => "an error occurred while formatting the generated typescript output: "@
            + m@,
        Error::Io(m) => "an error occurred while performing IO ("@ + m@ + ")"@,
        Error::ManifestDirNotSet => "the environment variable CARGO_MANIFEST_DIR is not set"@,
    }
}

impl Error {
    /// A human-readable description of the error.
    pub fn message(&self) -> (r: String)
        ensures
            r@ == message_spec(*self),
    {
        match self {
            Error::CannotBeExported(n) => {
                let mut r = String::new();
                r.append("this type cannot be exported (");
                r.append(n.as_str());
                r.append(")");
                r
            },
            Error::CannotBeDeclared(n) => {
                let mut r = String::new();
                r.append(n.as_str());
                r.append(" cannot be declared");
                r
            },
            Error::CannotBeInlined(n) => {
                let mut r = String::new();
                r.append(n.as_str());
                r.append(" cannot be inlined");
                r
            },
            Error::CannotBeFlattened(n) => {
                let mut r = String::new();
                r.append(n.as_str());
                r.append(" cannot be flattened");
                r
            },
            Error::UnknownAttribute(k, allowed) => {
                let mut r = String::new();
                r.append("unknown attribute \"");
                r.append(k.as_str());
                r.append("\". Allowed attributes are: ");
                r.append(allowed.as_str());
                r
            },
            Error::InvalidAttribute(m) => {
                let mut r = String::new();
                r.append(m.as_str());
                r
            },
            Error::InvalidPath(p) => {
                let mut r = String::new();
                r.append("invalid output path: ");
                r.append(p.as_str());
                r
            },
            Error::InvalidSchema(m) => {
                let mut r = String::new();
                r.append("invalid schema (");
                r.append(m.as_str());
                r.append(")");
                r
            },
            Error::Formatting(m) => {
                let mut r = String::new();
                r.append("an error occurred while formatting the generated typescript output: ");
                r.append(m.as_str());
                r
            },
            Error::Io(m) => {
                let mut r = String::new();
                r.append("an error occurred while performing IO (");
                r.append(m.as_str());
                r.append(")");
                r
            },
            Error::ManifestDirNotSet => {
                let mut r = String::new();
                r.append("the environment variable CARGO_MANIFEST_DIR is not set");
                r
            },
        }
    }
}

} // verus!
