//! The error taxonomy of the extraction pipeline.
//!
//! Parsing is fail-fast and whole-document: the first failing selector,
//! attribute, URL resolution or field parse aborts the call with one
//! descriptive error.  Pagination failures are wrapped so the caller can
//! tell them apart from row failures.

use vstd::prelude::*;

verus! {

/// Why a parse call failed.
#[derive(Debug, PartialEq)]
pub enum ParseError {
    /// The caller-supplied base URL does not parse.
    InvalidBaseUrl,
    /// The results-table marker is missing, or the ancestor walk from it
    /// fell off the document root.
    TableNotFound,
    /// A required selector had no match under the node at `path`.
    SelectorNotFound { selector: String, path: String },
    /// A required attribute is missing on the node at `path`.
    AttributeMissing { name: String, path: String },
    /// An href could not be resolved against the base URL.
    UrlJoinError { raw: String, cause: String },
    /// A field's text could not be parsed into its typed form.
    FieldParseError { field: String, raw: String, cause: String },
    /// Pagination was present but could not be extracted.
    PaginationError { cause: Box<ParseError> },
}

/// Mathematical model of a [`ParseError`].
#[verifier::ext_equal]
pub enum ErrM {
    InvalidBaseUrl,
    TableNotFound,
    SelectorNotFound { selector: Seq<char>, path: Seq<char> },
    AttributeMissing { name: Seq<char>, path: Seq<char> },
    UrlJoinError { raw: Seq<char>, cause: Seq<char> },
    FieldParseError { field: Seq<char>, raw: Seq<char>, cause: Seq<char> },
    PaginationError { cause: Box<ErrM> },
}

/// The model of a [`ParseError`] value.
pub open spec fn err_view(e: ParseError) -> ErrM
    decreases e,
{
    match e {
        ParseError::InvalidBaseUrl => ErrM::InvalidBaseUrl,
        ParseError::TableNotFound => ErrM::TableNotFound,
        ParseError::SelectorNotFound { selector, path } => ErrM::SelectorNotFound {
            selector: selector@,
            path: path@,
        },
        ParseError::AttributeMissing { name, path } => ErrM::AttributeMissing {
            name: name@,
            path: path@,
        },
        ParseError::UrlJoinError { raw, cause } => ErrM::UrlJoinError {
            raw: raw@,
            cause: cause@,
        },
        ParseError::FieldParseError { field, raw, cause } => ErrM::FieldParseError {
            field: field@,
            raw: raw@,
            cause: cause@,
        },
        ParseError::PaginationError { cause } => ErrM::PaginationError {
            cause: Box::new(err_view(*cause)),
        },
    }
}

impl View for ParseError {
    type V = ErrM;

    open spec fn view(&self) -> ErrM {
        err_view(*self)
    }
}

impl ParseError {
    pub open spec fn spec_message(self) -> Seq<char>
        decreases self,
    {
        match self {
            ParseError::InvalidBaseUrl => "Unable to parse base url"@,
            ParseError::TableNotFound => "Unable to find results table"@,
            ParseError::SelectorNotFound { selector, path } => "Unable to find element with "@
                + selector@ + " under "@ + path@,
            ParseError::AttributeMissing { name, path } => "Unable to find attribute "@ + name@
                + " in "@ + path@,
            ParseError::UrlJoinError { raw, cause } => "Unable to join href url "@ + raw@
                + " with page url: "@ + cause@,
            ParseError::FieldParseError { field, raw, cause } => "Unable to parse "@ + field@
                + " from "@ + raw@ + ": "@ + cause@,
            ParseError::PaginationError { cause } => "Unable to extract pagination: "@
                + cause.spec_message(),
        }
    }

    /// Human-readable description of the failure.
    pub fn message(&self) -> (r: String)
        ensures
            r@ == self.spec_message(),
        decreases self,
    {
        match self {
            ParseError::InvalidBaseUrl => "Unable to parse base url".to_owned(),
            ParseError::TableNotFound => "Unable to find results table".to_owned(),
            ParseError::SelectorNotFound { selector, path } => {
                let mut s = "Unable to find element with ".to_owned();
                s.append(selector.as_str());
                s.append(" under ");
                s.append(path.as_str());
                s
            },
            ParseError::AttributeMissing { name, path } => {
                let mut s = "Unable to find attribute ".to_owned();
                s.append(name.as_str());
                s.append(" in ");
                s.append(path.as_str());
                s
            },
            ParseError::UrlJoinError { raw, cause } => {
                let mut s = "Unable to join href url ".to_owned();
                s.append(raw.as_str());
                s.append(" with page url: ");
                s.append(cause.as_str());
                s
            },
            ParseError::FieldParseError { field, raw, cause } => {
                let mut s = "Unable to parse ".to_owned();
                s.append(field.as_str());
                s.append(" from ");
                s.append(raw.as_str());
                s.append(": ");
                s.append(cause.as_str());
                s
            },
            ParseError::PaginationError { cause } => {
                let mut s = "Unable to extract pagination: ".to_owned();
                let inner = cause.message();
                s.append(inner.as_str());
                s
            },
        }
    }
}

} // verus!
