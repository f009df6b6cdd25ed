//! The error taxonomy of the build pipeline.
//!
//! Every fallible step of the pipeline reports a [`FerrumError`]: a kind
//! carrying structured data (such as the offending filename), a short static
//! description, and an optional free-form detail. Diagnostic text is derived
//! from the kind rather than duplicated at each construction site.

use vstd::prelude::*;

verus! {

/// Application generic result type.
pub type FerrumResult<T> = Result<T, FerrumError>;

/// An enum of all error kinds.
#[derive(Debug, Clone, PartialEq, Eq)]
pub enum ErrorKind {
    /// Failed to decode a file; carries the offending file's name.
    DecodingError(Vec<u8>),
    /// An I/O error was encountered; carries the underlying error's message.
    IoError(Vec<u8>),
    /// The configuration file is improperly formatted.
    InvalidConfigError,
    /// A document named, or defaulted to, a template that the store lacks;
    /// carries the unresolved template name.
    MissingTemplateError(Vec<u8>),
    /// Two documents or two templates resolved to the same key;
    /// carries the colliding key.
    DuplicateKeyError(Vec<u8>),
}

/// Represents a Ferrum error: an [`ErrorKind`] together with a static
/// description and an optional detail string.
#[derive(Debug, Clone, PartialEq, Eq)]
pub struct FerrumError {
    /// The kind of the error, carrying its structured data.
    pub kind: ErrorKind,
    /// A short static description of the error.
    pub desc: &'static str,
    /// Optional free-form detail, as UTF-8 bytes.
    pub detail: Option<Vec<u8>>,
}

/// `Filename was `, the prefix of a decoding error's diagnostic detail.
pub open spec fn spec_detail_prefix() -> Seq<u8> {
    seq![70u8, 105u8, 108u8, 101u8, 110u8, 97u8, 109u8, 101u8, 32u8, 119u8, 97u8, 115u8, 32u8]
}

/// Holds when `e` reports that the file named `f` could not be decoded.
pub open spec fn is_decoding_error(e: FerrumError, f: Seq<u8>) -> bool {
    &&& e.kind matches ErrorKind::DecodingError(g) && g@ == f
}

/// Holds when `e` reports that the template named `n` is missing.
pub open spec fn is_missing_template_error(e: FerrumError, n: Seq<u8>) -> bool {
    &&& e.kind matches ErrorKind::MissingTemplateError(m) && m@ == n
}

/// Holds when `e` reports a key collision on `k`.
pub open spec fn is_duplicate_key_error(e: FerrumError, k: Seq<u8>) -> bool {
    &&& e.kind matches ErrorKind::DuplicateKeyError(j) && j@ == k
}

impl FerrumError {
    /// Builds an error from a kind and a static description, with no detail.
    pub fn from_error(kind: ErrorKind, desc: &'static str) -> (r: FerrumError)
        ensures
            r.kind == kind,
            r.desc == desc,
            r.detail is None,
    {
        FerrumError { kind, desc, detail: None }
    }

    /// A static description of the error, derived from its kind.
    pub fn description(&self) -> (r: &'static str)
        ensures
            self.kind is DecodingError ==> r@ == "Error decoding file"@,
            self.kind is IoError ==> r@ == "Encountered an I/O error"@,
            self.kind is InvalidConfigError ==> r@ == "Invalid configuration file"@,
            self.kind is MissingTemplateError ==> r@ == "Template not found"@,
            self.kind is DuplicateKeyError ==> r@ == "Duplicate output key"@,
    {
        match self.kind {
            ErrorKind::DecodingError(_) => "Error decoding file",
            ErrorKind::IoError(_) => "Encountered an I/O error",
            ErrorKind::InvalidConfigError => "Invalid configuration file",
            ErrorKind::MissingTemplateError(_) => "Template not found",
            ErrorKind::DuplicateKeyError(_) => "Duplicate output key",
        }
    }

    /// The diagnostic detail: `Filename was <f>` for a decoding error on
    /// file `f`, nothing for the other kinds.
    pub fn detail(&self) -> (r: Option<Vec<u8>>)
        ensures
            match self.kind {
                ErrorKind::DecodingError(f) => r matches Some(g) && g@ == spec_detail_prefix()
                    + f@,
                _ => r is None,
            },
    {
        match &self.kind {
            ErrorKind::DecodingError(filename) => {
                let mut text: Vec<u8> = Vec::new();
                text.push(70);
                text.push(105);
                text.push(108);
                text.push(101);
                text.push(110);
                text.push(97);
                text.push(109);
                text.push(101);
                text.push(32);
                text.push(119);
                text.push(97);
                text.push(115);
                text.push(32);
                proof {
                    assert(text@ =~= spec_detail_prefix());
                }
                crate::bytes::push_all(&mut text, filename.as_slice());
                Some(text)
            },
            _ => None,
        }
    }

    /// The message of the underlying I/O error, if this wraps one.
    pub fn cause(&self) -> (r: Option<Vec<u8>>)
        ensures
            match self.kind {
                ErrorKind::IoError(m) => r matches Some(g) && g@ == m@,
                _ => r is None,
            },
    {
        match &self.kind {
            ErrorKind::IoError(message) => Some(message.clone()),
            _ => None,
        }
    }
}

} // verus!
