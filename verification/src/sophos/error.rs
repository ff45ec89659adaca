//! Failures shared by the Sophos formats.
//!
//! No variant carries a value read out of a secret field. Errors are shown and logged, so
//! that only field names, algorithm tokens and section names appear here.

use crate::ini::ParseError;
use crate::text::{debug_quoted, decimal, format_u64, quote_debug};
use vstd::prelude::*;

verus! {

/// Why a profile was not imported.
#[derive(Debug)]
#[allow(inconsistent_fields)]
pub enum ImportError {
    Json(String),
    Plist(String),
    Ini(ParseError),
    TooLarge(usize),
    MissingField(&'static str),
    EmptyField(&'static str),
    BadValue { field: &'static str, value: String, why: &'static str },
    SectionNotFound(String),
    UnknownAlgorithm { context: &'static str, token: String },
    Unsupported(String),
    IsProvisioning,
    Unrecognised,
}

/// The content of an [`ImportError`].
pub enum ErrorView {
    Json(Seq<char>),
    Plist(Seq<char>),
    Ini(ParseError),
    TooLarge(int),
    MissingField(Seq<char>),
    EmptyField(Seq<char>),
    BadValue { field: Seq<char>, value: Seq<char>, why: Seq<char> },
    SectionNotFound(Seq<char>),
    UnknownAlgorithm { context: Seq<char>, token: Seq<char> },
    Unsupported(Seq<char>),
    IsProvisioning,
    Unrecognised,
}

impl View for ImportError {
    type V = ErrorView;

    open spec fn view(&self) -> ErrorView {
        match self {
            ImportError::Json(s) => ErrorView::Json(s@),
            ImportError::Plist(s) => ErrorView::Plist(s@),
            ImportError::Ini(e) => ErrorView::Ini(*e),
            ImportError::TooLarge(n) => ErrorView::TooLarge(*n as int),
            ImportError::MissingField(f) => ErrorView::MissingField(f@),
            ImportError::EmptyField(f) => ErrorView::EmptyField(f@),
            ImportError::BadValue { field, value, why } => ErrorView::BadValue {
                field: field@,
                value: value@,
                why: why@,
            },
            ImportError::SectionNotFound(s) => ErrorView::SectionNotFound(s@),
            ImportError::UnknownAlgorithm { context, token } => ErrorView::UnknownAlgorithm {
                context: context@,
                token: token@,
            },
            ImportError::Unsupported(s) => ErrorView::Unsupported(s@),
            ImportError::IsProvisioning => ErrorView::IsProvisioning,
            ImportError::Unrecognised => ErrorView::Unrecognised,
        }
    }
}

impl ErrorView {
    /// The text of the error.
    pub open spec fn text(self) -> Seq<char> {
        match self {
            ErrorView::Json(s) => "not valid JSON: "@ + s,
            ErrorView::Plist(s) => "not a valid Apple property list: "@ + s,
            ErrorView::Ini(e) => e.text(),
            ErrorView::TooLarge(n) => "input exceeds "@ + decimal(n as nat) + " bytes"@,
            ErrorView::MissingField(f) => "missing required field "@ + f,
            ErrorView::EmptyField(f) => f + " is empty"@,
            ErrorView::BadValue { field, value, why } => field + "="@ + debug_quoted(value)
                + " is not valid: "@ + why,
            ErrorView::SectionNotFound(s) => "section ["@ + s + "] referenced but not found"@,
            ErrorView::UnknownAlgorithm { context, token } => context + ": unknown algorithm "@
                + debug_quoted(token) + " — refusing to guess what to negotiate"@,
            ErrorView::Unsupported(s) => s + " is not supported yet"@,
            ErrorView::IsProvisioning =>
                "this is a provisioning file (.pro), not a connection profile — it names a user portal to sign in to, and the profile is downloaded from there"@,
            ErrorView::Unrecognised =>
                "file is not a recognisable Sophos profile (.scx, .tgb or .pro)"@,
        }
    }
}

impl ImportError {
    /// What to tell the user.
    pub fn message(&self) -> (r: String)
        ensures
            r@ == self@.text(),
    {
        match self {
            ImportError::Json(e) => {
                let mut s = "not valid JSON: ".to_owned();
                s.append(e.as_str());
                s
            },
            ImportError::Plist(e) => {
                let mut s = "not a valid Apple property list: ".to_owned();
                s.append(e.as_str());
                s
            },
            ImportError::Ini(e) => e.message(),
            ImportError::TooLarge(n) => {
                let mut s = "input exceeds ".to_owned();
                s.append(format_u64(*n as u64).as_str());
                s.append(" bytes");
                s
            },
            ImportError::MissingField(f) => {
                let mut s = "missing required field ".to_owned();
                s.append(f);
                s
            },
            ImportError::EmptyField(f) => {
                let mut s = (*f).to_owned();
                s.append(" is empty");
                s
            },
            ImportError::BadValue { field, value, why } => {
                let mut s = (*field).to_owned();
                s.append("=");
                s.append(quote_debug(value.as_str()).as_str());
                s.append(" is not valid: ");
                s.append(why);
                s
            },
            ImportError::SectionNotFound(n) => {
                let mut s = "section [".to_owned();
                s.append(n.as_str());
                s.append("] referenced but not found");
                s
            },
            ImportError::UnknownAlgorithm { context, token } => {
                let mut s = (*context).to_owned();
                s.append(": unknown algorithm ");
                s.append(quote_debug(token.as_str()).as_str());
                s.append(" — refusing to guess what to negotiate");
                s
            },
            ImportError::Unsupported(what) => {
                let mut s = what.clone();
                s.append(" is not supported yet");
                s
            },
            ImportError::IsProvisioning => {
                "this is a provisioning file (.pro), not a connection profile — it names a user portal to sign in to, and the profile is downloaded from there".to_owned()
            },
            ImportError::Unrecognised => {
                "file is not a recognisable Sophos profile (.scx, .tgb or .pro)".to_owned()
            },
        }
    }
}

/// Every error is told in its own words, with the field, the value or the algorithm that it is
/// about.
pub proof fn law_error_says_what_it_is_about(
    s: Seq<char>,
    value: Seq<char>,
    why: Seq<char>,
    n: int,
)
    ensures
        ErrorView::Json(s).text() == "not valid JSON: "@ + s,
        ErrorView::Plist(s).text() == "not a valid Apple property list: "@ + s,
        ErrorView::TooLarge(n).text() == "input exceeds "@ + decimal(n as nat) + " bytes"@,
        ErrorView::MissingField(s).text() == "missing required field "@ + s,
        ErrorView::EmptyField(s).text() == s + " is empty"@,
        (ErrorView::BadValue { field: s, value, why }).text() == s + "="@ + debug_quoted(value)
            + " is not valid: "@ + why,
        ErrorView::SectionNotFound(s).text() == "section ["@ + s + "] referenced but not found"@,
        (ErrorView::UnknownAlgorithm { context: s, token: value }).text() == s
            + ": unknown algorithm "@ + debug_quoted(value)
            + " — refusing to guess what to negotiate"@,
        ErrorView::Unsupported(s).text() == s + " is not supported yet"@,
        ErrorView::IsProvisioning.text()
            == "this is a provisioning file (.pro), not a connection profile — it names a user portal to sign in to, and the profile is downloaded from there"@,
        ErrorView::Unrecognised.text()
            == "file is not a recognisable Sophos profile (.scx, .tgb or .pro)"@,
{
}

} // verus!
