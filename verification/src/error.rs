//! The ways in which parsing a request can fail.

use vstd::prelude::*;

verus! {

/// Why a request could not be parsed. Every failure ends the parse; no
/// partial request is handed out.
#[derive(Debug, Clone, PartialEq, Eq)]
pub enum ParseError {
    /// The input could not be read as text.
    IoFailure,
    /// The first line does not consist of two or three tokens. Holds the line.
    MalformedRequestLine(String),
    /// A header line has no colon. Holds the line.
    MalformedHeaderLine(String),
    /// The target names a scheme that is not supported. Holds the scheme.
    UnsupportedScheme(String),
    /// The target is a bare path and there is no `Host` header.
    MissingHostInformation,
    /// The port of a host specifier is not a number. Holds the port text.
    InvalidPort(String),
}

/// The mathematical value of a `ParseError`.
pub ghost enum ParseErrorView {
    IoFailure,
    MalformedRequestLine(Seq<char>),
    MalformedHeaderLine(Seq<char>),
    UnsupportedScheme(Seq<char>),
    MissingHostInformation,
    InvalidPort(Seq<char>),
}

impl View for ParseError {
    type V = ParseErrorView;

    open spec fn view(&self) -> ParseErrorView {
        match self {
            ParseError::IoFailure => ParseErrorView::IoFailure,
            ParseError::MalformedRequestLine(l) => ParseErrorView::MalformedRequestLine(l@),
            ParseError::MalformedHeaderLine(l) => ParseErrorView::MalformedHeaderLine(l@),
            ParseError::UnsupportedScheme(s) => ParseErrorView::UnsupportedScheme(s@),
            ParseError::MissingHostInformation => ParseErrorView::MissingHostInformation,
            ParseError::InvalidPort(p) => ParseErrorView::InvalidPort(p@),
        }
    }
}

} // verus!
