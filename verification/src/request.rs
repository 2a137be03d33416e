//! The parsed request and its parts, with their mathematical values.

use crate::error::{ParseError, ParseErrorView};
use crate::headers::HeaderMap;
use vstd::prelude::*;

verus! {

/// The first line of a request: method, target and protocol version.
#[derive(Debug, Clone, PartialEq, Eq)]
pub struct MethodLine {
    pub method: String,
    pub path: String,
    pub http_version: String,
}

/// The mathematical value of a `MethodLine`.
pub ghost struct MethodLineView {
    pub method: Seq<char>,
    pub path: Seq<char>,
    pub http_version: Seq<char>,
}

impl View for MethodLine {
    type V = MethodLineView;

    open spec fn view(&self) -> MethodLineView {
        MethodLineView {
            method: self.method@,
            path: self.path@,
            http_version: self.http_version@,
        }
    }
}

/// The host and port that a request is addressed to.
#[derive(Debug, Clone, PartialEq, Eq)]
pub struct HttpRequestMeta {
    pub host: String,
    pub port: u32,
}

/// The mathematical value of an `HttpRequestMeta`.
pub ghost struct HttpRequestMetaView {
    pub host: Seq<char>,
    pub port: u32,
}

impl View for HttpRequestMeta {
    type V = HttpRequestMetaView;

    open spec fn view(&self) -> HttpRequestMetaView {
        HttpRequestMetaView { host: self.host@, port: self.port }
    }
}

/// A parsed request. `meta` is filled in once the target has been resolved.
#[derive(Debug, Clone)]
pub struct HttpRequest {
    pub method_line: MethodLine,
    pub headers: HeaderMap,
    pub body: Vec<u8>,
    pub meta: Option<HttpRequestMeta>,
}

/// The mathematical value of an `HttpRequest`.
pub ghost struct HttpRequestView {
    pub method_line: MethodLineView,
    pub headers: Map<Seq<char>, Seq<char>>,
    pub body: Seq<u8>,
    pub meta: Option<HttpRequestMetaView>,
}

impl View for HttpRequest {
    type V = HttpRequestView;

    open spec fn view(&self) -> HttpRequestView {
        HttpRequestView {
            method_line: self.method_line@,
            headers: self.headers@,
            body: self.body@,
            meta: match self.meta {
                Some(m) => Some(m@),
                None => None,
            },
        }
    }
}

/// The mathematical value of the outcome of a parsing step.
pub open spec fn view_of<T: View>(r: Result<T, ParseError>) -> Result<T::V, ParseErrorView> {
    match r {
        Ok(v) => Ok(v@),
        Err(e) => Err(e@),
    }
}

} // verus!
