//! Resolving the host and port that a request is addressed to, from its
//! target or from its `Host` header.

use crate::error::{ParseError, ParseErrorView};
use crate::headers::HeaderMap;
use crate::port::{parse_port, port_from_text};
use crate::request::{
    view_of,
    HttpRequest,
    HttpRequestMeta,
    HttpRequestMetaView,
    HttpRequestView,
    MethodLine,
    MethodLineView,
};
use crate::text::{chars_of, find_char, first_index_of, lemma_first_index_of, starts_with, substring};
use vstd::prelude::*;

verus! {

/// The port of a host specifier that names none.
pub const DEFAULT_PORT: u32 = 80;

/// What an absolute target of the supported scheme begins with.
pub open spec fn http_prefix() -> Seq<char> {
    "http://"@
}

/// What an absolute target of the unsupported secure scheme begins with.
pub open spec fn https_prefix() -> Seq<char> {
    "https://"@
}

/// The name of the unsupported secure scheme.
pub open spec fn https_scheme() -> Seq<char> {
    "https"@
}

/// The name of the header that carries the host.
pub open spec fn host_header() -> Seq<char> {
    "Host"@
}

/// The path of an absolute target that names none.
pub open spec fn root_path() -> Seq<char> {
    "/"@
}

/// Where a request says which host it is for: the host specifier as found,
/// and the path that the request line is to carry.
#[derive(Debug, Clone, PartialEq, Eq)]
pub struct HostSource {
    pub raw_host: String,
    pub path: String,
}

/// The mathematical value of a `HostSource`.
pub ghost struct HostSourceView {
    pub raw_host: Seq<char>,
    pub path: Seq<char>,
}

impl View for HostSource {
    type V = HostSourceView;

    open spec fn view(&self) -> HostSourceView {
        HostSourceView { raw_host: self.raw_host@, path: self.path@ }
    }
}

/// The host specifier and path of a request with the given target and
/// headers. An absolute `http://` target holds both: the host specifier runs
/// up to the first slash, the path from that slash on, and is `/` where there
/// is no slash. An `https://` target is refused. Any other target is the
/// path, and the `Host` header holds the host specifier.
pub open spec fn host_source(target: Seq<char>, headers: Map<Seq<char>, Seq<char>>) -> Result<
    HostSourceView,
    ParseErrorView,
> {
    if http_prefix().is_prefix_of(target) {
        let rest = target.skip(http_prefix().len() as int);
        let i = first_index_of(rest, '/');
        if 0 <= i < rest.len() {
            Ok(HostSourceView { raw_host: rest.take(i), path: rest.skip(i) })
        } else {
            Ok(HostSourceView { raw_host: rest, path: root_path() })
        }
    } else if https_prefix().is_prefix_of(target) {
        Err(ParseErrorView::UnsupportedScheme(https_scheme()))
    } else if headers.dom().contains(host_header()) {
        Ok(HostSourceView { raw_host: headers[host_header()], path: target })
    } else {
        Err(ParseErrorView::MissingHostInformation)
    }
}

/// The host and port that a host specifier stands for. Without a colon the
/// specifier is the host, and the port is the default. Otherwise the host is
/// what precedes the first colon, and what follows it must be a port.
pub open spec fn host_and_port(raw: Seq<char>) -> Result<HttpRequestMetaView, ParseErrorView> {
    let i = first_index_of(raw, ':');
    if 0 <= i < raw.len() {
        match parse_port(raw.skip(i + 1)) {
            Some(port) => Ok(HttpRequestMetaView { host: raw.take(i), port }),
            None => Err(ParseErrorView::InvalidPort(raw.skip(i + 1))),
        }
    } else {
        Ok(HttpRequestMetaView { host: raw, port: DEFAULT_PORT })
    }
}

/// The host and port that a request with the given target and headers is
/// addressed to.
pub open spec fn connection_target(
    target: Seq<char>,
    headers: Map<Seq<char>, Seq<char>>,
) -> Result<HttpRequestMetaView, ParseErrorView> {
    match host_source(target, headers) {
        Ok(source) => host_and_port(source.raw_host),
        Err(e) => Err(e),
    }
}

/// The request once its target is resolved: the request line carries the
/// path alone, the `Host` header carries the host without its port, and
/// `meta` holds host and port. Body, method and version stay as they are, and
/// so do the other headers.
pub open spec fn resolved(req: HttpRequestView) -> Result<HttpRequestView, ParseErrorView> {
    match host_source(req.method_line.path, req.headers) {
        Ok(source) => match host_and_port(source.raw_host) {
            Ok(meta) => Ok(
                HttpRequestView {
                    method_line: MethodLineView {
                        method: req.method_line.method,
                        path: source.path,
                        http_version: req.method_line.http_version,
                    },
                    headers: req.headers.insert(host_header(), meta.host),
                    body: req.body,
                    meta: Some(meta),
                },
            ),
            Err(e) => Err(e),
        },
        Err(e) => Err(e),
    }
}

/// Whether a target is a plain path: one that begins with neither scheme
/// prefix.
pub open spec fn is_origin_form(target: Seq<char>) -> bool {
    !http_prefix().is_prefix_of(target) && !https_prefix().is_prefix_of(target)
}

/// Resolution leaves the request line of a request with an origin-form
/// target as it is.
pub proof fn law_origin_form_target_is_kept(req: HttpRequestView)
    requires
        is_origin_form(req.method_line.path),
        resolved(req) is Ok,
    ensures
        resolved(req)->Ok_0.method_line == req.method_line,
{
}

/// A request with an origin-form target and without a `Host` header cannot
/// be resolved: the host information is missing.
pub proof fn law_origin_form_needs_host_header(req: HttpRequestView)
    requires
        is_origin_form(req.method_line.path),
        !req.headers.dom().contains(host_header()),
    ensures
        resolved(req) == Err::<HttpRequestView, ParseErrorView>(
            ParseErrorView::MissingHostInformation,
        ),
{
}

/// A request with an `https://` target cannot be resolved, whatever its
/// headers hold: the scheme is not supported.
pub proof fn law_https_is_unsupported(req: HttpRequestView)
    requires
        https_prefix().is_prefix_of(req.method_line.path),
    ensures
        resolved(req) == Err::<HttpRequestView, ParseErrorView>(
            ParseErrorView::UnsupportedScheme(https_scheme()),
        ),
{
    reveal_strlit("http://");
    reveal_strlit("https://");
    let target = req.method_line.path;
    if http_prefix().is_prefix_of(target) {
        assert(target.subrange(0, 7)[4] == ':');
        assert(target.subrange(0, 8)[4] == 's');
    }
}

/// A host specifier whose first colon is followed by anything but a port is
/// refused, and the error holds what follows the colon.
pub proof fn law_port_must_be_a_number(host: Seq<char>, port_text: Seq<char>)
    requires
        !host.contains(':'),
        parse_port(port_text) is None,
    ensures
        host_and_port(host + seq![':'] + port_text) == Err::<HttpRequestMetaView, ParseErrorView>(
            ParseErrorView::InvalidPort(port_text),
        ),
{
    lemma_split_at_colon(host, port_text);
}

/// A host specifier of a host, a colon and a port stands for that host and
/// that port; a host alone stands for that host and the default port.
pub proof fn law_host_and_port(host: Seq<char>, port_text: Seq<char>)
    requires
        !host.contains(':'),
    ensures
        host_and_port(host) == Ok::<HttpRequestMetaView, ParseErrorView>(
            HttpRequestMetaView { host, port: DEFAULT_PORT },
        ),
        parse_port(port_text) is Some ==> host_and_port(host + seq![':'] + port_text) == Ok::<
            HttpRequestMetaView,
            ParseErrorView,
        >(HttpRequestMetaView { host, port: parse_port(port_text)->Some_0 }),
{
    lemma_first_index_of(host, ':');
    lemma_split_at_colon(host, port_text);
}

proof fn lemma_split_at_colon(host: Seq<char>, tail: Seq<char>)
    requires
        !host.contains(':'),
    ensures
        ({
            let raw = host + seq![':'] + tail;
            &&& first_index_of(raw, ':') == host.len()
            &&& raw.take(host.len() as int) == host
            &&& raw.skip(host.len() as int + 1) == tail
        }),
{
    let raw = host + seq![':'] + tail;
    assert forall|j: int| 0 <= j < host.len() implies raw[j] != ':' by {
        assert(raw[j] == host[j]);
        if host[j] == ':' {
            assert(host.contains(':'));
        }
    }
    assert(raw[host.len() as int] == ':');
    crate::text::lemma_first_index_of_unique(raw, ':', host.len() as int);
    assert(raw.take(host.len() as int) =~= host);
    assert(raw.skip(host.len() as int + 1) =~= tail);
}

/// Once a request is resolved, the host stands in one place: `meta` is
/// there, the `Host` header holds its host, and that host holds no colon.
/// The target of the request line is a path: it is in origin form. The body,
/// the method, the version and every other header are as before.
pub proof fn law_resolved_is_canonical(req: HttpRequestView)
    requires
        resolved(req) is Ok,
    ensures
        ({
            let out = resolved(req)->Ok_0;
            &&& out.meta is Some
            &&& out.meta == Some(connection_target(req.method_line.path, req.headers)->Ok_0)
            &&& out.headers.dom().contains(host_header())
            &&& out.headers[host_header()] == out.meta->Some_0.host
            &&& !out.meta->Some_0.host.contains(':')
            &&& is_origin_form(req.method_line.path) || out.method_line.path.first() == '/'
            &&& out.method_line.method == req.method_line.method
            &&& out.method_line.http_version == req.method_line.http_version
            &&& out.body == req.body
            &&& forall|name: Seq<char>|
                name != host_header() ==> (out.headers.dom().contains(name)
                    <==> req.headers.dom().contains(name)) && (req.headers.dom().contains(name)
                    ==> out.headers[name] == req.headers[name])
        }),
{
    let target = req.method_line.path;
    let source = host_source(target, req.headers)->Ok_0;
    let raw = source.raw_host;
    lemma_first_index_of(raw, ':');
    let i = first_index_of(raw, ':');
    let host = resolved(req)->Ok_0.meta->Some_0.host;
    if host.contains(':') {
        let k = choose|k: int| 0 <= k < host.len() && host[k] == ':';
        assert(raw[k] == ':');
    }
    if http_prefix().is_prefix_of(target) {
        reveal_strlit("/");
        let rest = target.skip(http_prefix().len() as int);
        lemma_first_index_of(rest, '/');
    }
}

/// Finds the host specifier and the path of a request.
pub fn find_host_source(target: &str, headers: &HeaderMap) -> (r: Result<HostSource, ParseError>)
    ensures
        view_of(r) == host_source(target@, headers@),
{
    let cs = chars_of(target);
    let n: usize = cs.len();
    if starts_with(&cs, "http://") {
        let k: usize = "http://".unicode_len();
        let i: usize = find_char(&cs, k, '/');
        if i < n {
            proof {
                let rest = target@.skip(k as int);
                assert(rest.take(i - k) =~= target@.subrange(k as int, i as int));
                assert(rest.skip(i - k) =~= target@.subrange(i as int, n as int));
            }
            Ok(HostSource { raw_host: substring(target, k, i), path: substring(target, i, n) })
        } else {
            Ok(HostSource { raw_host: substring(target, k, n), path: "/".to_owned() })
        }
    } else if starts_with(&cs, "https://") {
        Err(ParseError::UnsupportedScheme("https".to_owned()))
    } else {
        match headers.get("Host") {
            Some(value) => Ok(HostSource { raw_host: value.clone(), path: target.to_owned() }),
            None => Err(ParseError::MissingHostInformation),
        }
    }
}

/// Splits a host specifier into host and port.
pub fn split_host_port(raw: &str) -> (r: Result<HttpRequestMeta, ParseError>)
    ensures
        view_of(r) == host_and_port(raw@),
{
    let cs = chars_of(raw);
    let n: usize = cs.len();
    let i: usize = find_char(&cs, 0, ':');
    proof {
        assert(cs@.skip(0) =~= raw@);
    }
    if i < n {
        let port_text = substring(raw, i + 1, n);
        match port_from_text(port_text.as_str()) {
            Some(port) => Ok(HttpRequestMeta { host: substring(raw, 0, i), port }),
            None => Err(ParseError::InvalidPort(port_text)),
        }
    } else {
        Ok(HttpRequestMeta { host: raw.to_owned(), port: DEFAULT_PORT })
    }
}

/// Computes the host and port that a request is addressed to, and changes
/// nothing.
pub fn resolve_target(method_line: &MethodLine, headers: &HeaderMap) -> (r: Result<
    HttpRequestMeta,
    ParseError,
>)
    ensures
        view_of(r) == connection_target(method_line@.path, headers@),
{
    match find_host_source(method_line.path.as_str(), headers) {
        Ok(source) => split_host_port(source.raw_host.as_str()),
        Err(e) => Err(e),
    }
}

/// Resolves the target of `req`: fills in `meta`, reduces the target of the
/// request line to a path, and sets the `Host` header to the host.
pub fn with_meta(req: HttpRequest) -> (r: Result<HttpRequest, ParseError>)
    ensures
        view_of(r) == resolved(req@),
{
    let HttpRequest { method_line, headers, body, meta: _ } = req;
    let MethodLine { method, path, http_version } = method_line;
    let source = match find_host_source(path.as_str(), &headers) {
        Ok(source) => source,
        Err(e) => {
            return Err(e);
        },
    };
    let meta = match split_host_port(source.raw_host.as_str()) {
        Ok(meta) => meta,
        Err(e) => {
            return Err(e);
        },
    };
    let mut headers = headers;
    headers.insert("Host".to_owned(), meta.host.clone());
    Ok(
        HttpRequest {
            method_line: MethodLine { method, path: source.path, http_version },
            headers,
            body,
            meta: Some(meta),
        },
    )
}

} // verus!
