use httpreq::error::ParseError;
use httpreq::headers::HeaderMap;
use httpreq::request::{HttpRequest, HttpRequestMeta, MethodLine};
use httpreq::target::{
    find_host_source, resolve_target, split_host_port, with_meta, HostSource, DEFAULT_PORT,
};

fn request(target: &str, headers: &[(&str, &str)]) -> HttpRequest {
    let mut map = HeaderMap::new();
    for (name, value) in headers {
        map.insert(name.to_string(), value.to_string());
    }
    HttpRequest {
        method_line: MethodLine {
            method: "GET".to_string(),
            path: target.to_string(),
            http_version: "HTTP/1.1".to_string(),
        },
        headers: map,
        body: vec![1, 2, 3],
        meta: None,
    }
}

#[test]
fn absolute_target_with_port_and_path() {
    let req = with_meta(request("http://example.com:8080/a/b", &[])).unwrap();
    assert_eq!(req.method_line.path, "/a/b");
    assert_eq!(req.meta, Some(HttpRequestMeta { host: "example.com".to_string(), port: 8080 }));
    assert_eq!(req.headers.get("Host"), Some(&"example.com".to_string()));
}

#[test]
fn absolute_target_without_path() {
    let req = with_meta(request("http://example.com", &[])).unwrap();
    assert_eq!(req.method_line.path, "/");
    assert_eq!(req.meta, Some(HttpRequestMeta { host: "example.com".to_string(), port: 80 }));
    assert_eq!(req.headers.get("Host"), Some(&"example.com".to_string()));
}

#[test]
fn origin_form_target_takes_the_host_header() {
    let req = with_meta(request("/index.html", &[("Host", "api.test:9090")])).unwrap();
    assert_eq!(req.method_line.path, "/index.html");
    assert_eq!(req.meta, Some(HttpRequestMeta { host: "api.test".to_string(), port: 9090 }));
    assert_eq!(req.headers.get("Host"), Some(&"api.test".to_string()));
}

#[test]
fn origin_form_target_without_host_header_fails() {
    assert_eq!(
        with_meta(request("/index.html", &[("Accept", "*/*")])).err(),
        Some(ParseError::MissingHostInformation)
    );
}

#[test]
fn host_header_name_is_matched_as_written() {
    assert_eq!(
        with_meta(request("/", &[("host", "example.com")])).err(),
        Some(ParseError::MissingHostInformation)
    );
}

#[test]
fn https_target_fails() {
    assert_eq!(
        with_meta(request("https://secure.example.com/", &[("Host", "secure.example.com")])).err(),
        Some(ParseError::UnsupportedScheme("https".to_string()))
    );
}

#[test]
fn invalid_port_fails() {
    assert_eq!(
        with_meta(request("/", &[("Host", "host:notanumber")])).err(),
        Some(ParseError::InvalidPort("notanumber".to_string()))
    );
    assert_eq!(
        with_meta(request("http://host:80x/", &[])).err(),
        Some(ParseError::InvalidPort("80x".to_string()))
    );
}

#[test]
fn absolute_target_overrides_the_host_header() {
    let req = with_meta(request("http://real.test:81/x?y=1", &[("Host", "other.test:82")])).unwrap();
    assert_eq!(req.method_line.path, "/x?y=1");
    assert_eq!(req.meta, Some(HttpRequestMeta { host: "real.test".to_string(), port: 81 }));
    assert_eq!(req.headers.get("Host"), Some(&"real.test".to_string()));
}

#[test]
fn resolution_keeps_everything_else() {
    let req = with_meta(request("http://h/p", &[("Accept", "*/*"), ("X", "y")])).unwrap();
    assert_eq!(req.method_line.method, "GET");
    assert_eq!(req.method_line.http_version, "HTTP/1.1");
    assert_eq!(req.body, vec![1, 2, 3]);
    assert_eq!(req.headers.get("Accept"), Some(&"*/*".to_string()));
    assert_eq!(req.headers.get("X"), Some(&"y".to_string()));
}

#[test]
fn resolving_twice_changes_nothing_more() {
    let once = with_meta(request("http://example.com:8080/a", &[])).unwrap();
    let twice = with_meta(once.clone()).unwrap();
    assert_eq!(twice.method_line, once.method_line);
    assert_eq!(twice.headers.get("Host"), Some(&"example.com".to_string()));
    assert_eq!(twice.meta, Some(HttpRequestMeta { host: "example.com".to_string(), port: 80 }));
}

#[test]
fn scheme_prefix_is_case_sensitive() {
    assert_eq!(
        with_meta(request("HTTP://example.com/", &[])).err(),
        Some(ParseError::MissingHostInformation)
    );
    let req = with_meta(request("HTTPS://example.com/", &[("Host", "h")])).unwrap();
    assert_eq!(req.method_line.path, "HTTPS://example.com/");
}

#[test]
fn host_source_of_absolute_target() {
    let headers = HeaderMap::new();
    assert_eq!(
        find_host_source("http://a.b:1/c/d", &headers),
        Ok(HostSource { raw_host: "a.b:1".to_string(), path: "/c/d".to_string() })
    );
    assert_eq!(
        find_host_source("http://a.b:1", &headers),
        Ok(HostSource { raw_host: "a.b:1".to_string(), path: "/".to_string() })
    );
    assert_eq!(
        find_host_source("http://", &headers),
        Ok(HostSource { raw_host: String::new(), path: "/".to_string() })
    );
    assert_eq!(
        find_host_source("http:///x", &headers),
        Ok(HostSource { raw_host: String::new(), path: "/x".to_string() })
    );
}

#[test]
fn host_source_with_non_ascii_host() {
    let headers = HeaderMap::new();
    assert_eq!(
        find_host_source("http://b\u{fc}cher.example/\u{e4}", &headers),
        Ok(HostSource { raw_host: "b\u{fc}cher.example".to_string(), path: "/\u{e4}".to_string() })
    );
}

#[test]
fn host_and_port_are_split_at_the_first_colon() {
    assert_eq!(
        split_host_port("example.com"),
        Ok(HttpRequestMeta { host: "example.com".to_string(), port: DEFAULT_PORT })
    );
    assert_eq!(DEFAULT_PORT, 80);
    assert_eq!(
        split_host_port("example.com:443"),
        Ok(HttpRequestMeta { host: "example.com".to_string(), port: 443 })
    );
    assert_eq!(split_host_port(":8080"), Ok(HttpRequestMeta { host: String::new(), port: 8080 }));
    assert_eq!(split_host_port("a:1:2"), Err(ParseError::InvalidPort("1:2".to_string())));
    assert_eq!(split_host_port("a:"), Err(ParseError::InvalidPort(String::new())));
    assert_eq!(split_host_port("a:-1"), Err(ParseError::InvalidPort("-1".to_string())));
    assert_eq!(split_host_port("a: 80"), Err(ParseError::InvalidPort(" 80".to_string())));
}

#[test]
fn resolve_target_changes_nothing() {
    let req = request("http://example.com:8080/a/b", &[("Host", "other")]);
    assert_eq!(
        resolve_target(&req.method_line, &req.headers),
        Ok(HttpRequestMeta { host: "example.com".to_string(), port: 8080 })
    );
    assert_eq!(req.method_line.path, "http://example.com:8080/a/b");
    assert_eq!(req.headers.get("Host"), Some(&"other".to_string()));
    let bare = request("/x", &[]);
    assert_eq!(
        resolve_target(&bare.method_line, &bare.headers),
        Err(ParseError::MissingHostInformation)
    );
}
