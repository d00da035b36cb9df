//! Errors raised while decoding the descriptor format.
use vstd::prelude::*;

verus! {

/// Errors that can occur during decoding.
#[derive(Debug, Clone, PartialEq, Eq, Hash)]
pub enum ErrorKind {
    /// The target shape is not supported by this format.
    Unsupported(String),
    /// Expected a bool (`true` or `false`).
    ExpectedBool,
    /// Expected a byte written as exactly two hex digits.
    ExpectedByte,
    /// Expected an unsigned integer.
    ExpectedUnsigned,
    /// Expected a signed integer.
    ExpectedSigned,
    /// Expected a floating-point number.
    ExpectedFloat,
    /// Expected a single character.
    ExpectedChar,
    /// Expected a key line (`%NAME%`).
    ExpectedKey,
    /// Expected no content.
    ExpectedEmpty,
    /// The target record rejected a structurally valid value.
    Custom(String),
}

/// The model of an `ErrorKind`, with messages as character sequences.
pub enum KindModel {
    Unsupported(Seq<char>),
    ExpectedBool,
    ExpectedByte,
    ExpectedUnsigned,
    ExpectedSigned,
    ExpectedFloat,
    ExpectedChar,
    ExpectedKey,
    ExpectedEmpty,
    Custom(Seq<char>),
}

impl View for ErrorKind {
    type V = KindModel;

    open spec fn view(&self) -> KindModel {
        match self {
            ErrorKind::Unsupported(s) => KindModel::Unsupported(s@),
            ErrorKind::ExpectedBool => KindModel::ExpectedBool,
            ErrorKind::ExpectedByte => KindModel::ExpectedByte,
            ErrorKind::ExpectedUnsigned => KindModel::ExpectedUnsigned,
            ErrorKind::ExpectedSigned => KindModel::ExpectedSigned,
            ErrorKind::ExpectedFloat => KindModel::ExpectedFloat,
            ErrorKind::ExpectedChar => KindModel::ExpectedChar,
            ErrorKind::ExpectedKey => KindModel::ExpectedKey,
            ErrorKind::ExpectedEmpty => KindModel::ExpectedEmpty,
            ErrorKind::Custom(s) => KindModel::Custom(s@),
        }
    }
}

/// A decoding error: its kind, and an optional description of its cause.
#[derive(Debug, Clone)]
pub struct Error {
    kind: ErrorKind,
    cause: Option<String>,
}

impl Error {
    pub closed spec fn spec_kind(&self) -> KindModel {
        self.kind@
    }

    pub closed spec fn spec_cause(&self) -> Option<Seq<char>> {
        match self.cause {
            Some(c) => Some(c@),
            None => None,
        }
    }

    /// An error of the given kind, with no cause.
    pub fn new(kind: ErrorKind) -> (r: Error)
        ensures
            r.spec_kind() == kind@,
            r.spec_cause() is None,
    {
        Error { kind, cause: None }
    }

    /// An error raised by the target record itself.
    pub fn custom(msg: String) -> (r: Error)
        ensures
            r.spec_kind() == KindModel::Custom(msg@),
            r.spec_cause() is None,
    {
        Error { kind: ErrorKind::Custom(msg), cause: None }
    }

    /// This error, with `cause` recorded as what led to it.
    pub fn with_cause(self, cause: String) -> (r: Error)
        ensures
            r.spec_kind() == self.spec_kind(),
            r.spec_cause() == Some(cause@),
    {
        Error { kind: self.kind, cause: Some(cause) }
    }

    /// The kind of this error.
    pub fn kind(&self) -> (r: &ErrorKind)
        ensures
            r@ == self.spec_kind(),
    {
        &self.kind
    }

    /// The recorded cause of this error, if any.
    pub fn cause(&self) -> (r: Option<&String>)
        ensures
            match r {
                Some(c) => self.spec_cause() == Some(c@),
                None => self.spec_cause() is None,
            },
    {
        match &self.cause {
            Some(c) => Some(c),
            None => None,
        }
    }
}

} // verus!
