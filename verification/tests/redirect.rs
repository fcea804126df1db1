use ureq::body::BodySize;
use ureq::redirect::{redirect_method, resolve, Next, Redirects, DEFAULT_MAX_REDIRECTS};
use ureq::url::Scheme;
use ureq::{Error, ErrorKind, Method, Request, Url};

fn request(method: Method, url: &str) -> Request {
    Request::new(method, Url::parse(url).unwrap())
}

fn follow(next: Next) -> Request {
    match next {
        Next::Follow(r) => r,
        Next::Done => panic!("done"),
        Next::Status => panic!("status"),
        Next::Fail(e) => panic!("failed: {}", e.to_text()),
    }
}

fn fail(next: Next) -> Error {
    match next {
        Next::Fail(e) => e,
        _ => panic!("no failure"),
    }
}

#[test]
fn resolve_absolute_path() {
    let base = Url::parse("http://host/old").unwrap();
    let url = resolve(&base, "/new").unwrap();
    assert_eq!(url.serialization(), "http://host/new");
    assert_eq!(url.host_str(), "host");
    assert_eq!(url.path(), "/new");
    assert_eq!(url.port(), 80);
}

#[test]
fn resolve_keeps_the_port() {
    let base = Url::parse("https://host:8443/a/b?c=d").unwrap();
    let url = resolve(&base, "/new?x=y").unwrap();
    assert_eq!(url.serialization(), "https://host:8443/new?x=y");
    assert_eq!(url.port(), 8443);
    assert_eq!(url.scheme(), Scheme::Https);
}

#[test]
fn resolve_whole_url() {
    let base = Url::parse("http://host/old").unwrap();
    let url = resolve(&base, "https://other.example/x").unwrap();
    assert_eq!(url.serialization(), "https://other.example/x");
    assert_eq!(url.port(), 443);
}

#[test]
fn resolve_without_scheme() {
    let base = Url::parse("https://host/old").unwrap();
    let url = resolve(&base, "//other.example/x").unwrap();
    assert_eq!(url.serialization(), "https://other.example/x");
    let base = Url::parse("http://host/old").unwrap();
    assert_eq!(resolve(&base, "//o/").unwrap().serialization(), "http://o/");
}

#[test]
fn resolve_relative_path() {
    let base = Url::parse("http://host/a/b/c").unwrap();
    assert_eq!(resolve(&base, "d").unwrap().serialization(), "http://host/a/b/d");
    assert_eq!(resolve(&base, "d/e?f").unwrap().serialization(), "http://host/a/b/d/e?f");
    assert_eq!(resolve(&base, "").unwrap().serialization(), "http://host/a/b/");
    assert_eq!(resolve(&base, "../d").unwrap().serialization(), "http://host/a/b/../d");
    let base = Url::parse("http://host/old").unwrap();
    assert_eq!(resolve(&base, "new").unwrap().serialization(), "http://host/new");
    let base = Url::parse("http://host/a/b?q=x/y").unwrap();
    assert_eq!(resolve(&base, "c").unwrap().serialization(), "http://host/a/c");
    let base = Url::parse("http://host/?q=/x/").unwrap();
    assert_eq!(resolve(&base, "c").unwrap().serialization(), "http://host/c");
}

#[test]
fn resolve_refuses_what_is_no_url() {
    let base = Url::parse("http://host/old").unwrap();
    let e = resolve(&base, "ftp://other/").err().unwrap();
    assert_eq!(e.to_text(), "Bad URL: Failed to parse URL: Scheme");
    let e = resolve(&base, "/caf\u{e9}").err().unwrap();
    assert_eq!(e.to_text(), "Bad URL: Failed to parse URL: Ascii");
    let e = resolve(&base, "//").err().unwrap();
    assert_eq!(e.to_text(), "Bad URL: Failed to parse URL: Host");
    let long = "a".repeat(300);
    let url = resolve(&base, &long).unwrap();
    assert_eq!(url.path().len(), 301);
}

#[test]
fn method_after_redirect() {
    for code in [301u16, 302, 303] {
        assert_eq!(redirect_method(code, Method::Post), Method::Get);
        assert_eq!(redirect_method(code, Method::Put), Method::Get);
        assert_eq!(redirect_method(code, Method::Delete), Method::Get);
        assert_eq!(redirect_method(code, Method::Get), Method::Get);
        assert_eq!(redirect_method(code, Method::Head), Method::Head);
    }
    for code in [307u16, 308] {
        assert_eq!(redirect_method(code, Method::Post), Method::Post);
        assert_eq!(redirect_method(code, Method::Put), Method::Put);
        assert_eq!(redirect_method(code, Method::Get), Method::Get);
        assert_eq!(redirect_method(code, Method::Head), Method::Head);
    }
}

#[test]
fn redirect_302_is_followed_as_get() {
    let mut redirects = Redirects::new(DEFAULT_MAX_REDIRECTS);
    let mut r = request(Method::Post, "http://host/old");
    r.body = BodySize::Known(3);
    r.set("Authorization", "Basic abc");
    r.set("X-Keep", "yes");
    r.set("AUTHORIZATION", "again");
    let next = follow(redirects.after_response(r, 302, Some("/new")));
    assert_eq!(next.method, Method::Get);
    assert_eq!(next.url.serialization(), "http://host/new");
    assert_eq!(next.body, BodySize::Empty);
    assert_eq!(next.headers.len(), 1);
    assert_eq!(next.headers.header("x-keep"), Some(&b"yes"[..]));
    assert_eq!(next.headers.header("authorization"), None);
    assert_eq!(redirects.count(), 1);
    assert_eq!(redirects.visited(0), Some("http://host/old"));
    assert_eq!(redirects.visited(1), None);
}

#[test]
fn redirect_307_keeps_method_and_body() {
    let mut redirects = Redirects::new(5);
    let mut r = request(Method::Post, "http://host/old");
    r.body = BodySize::Known(3);
    let next = follow(redirects.after_response(r, 307, Some("http://other/x")));
    assert_eq!(next.method, Method::Post);
    assert_eq!(next.body, BodySize::Known(3));
    assert_eq!(next.url.serialization(), "http://other/x");
    let next = follow(redirects.after_response(next, 308, Some("y")));
    assert_eq!(next.method, Method::Post);
    assert_eq!(next.url.serialization(), "http://other/y");
    assert_eq!(redirects.count(), 2);
}

#[test]
fn redirect_with_streamed_body() {
    let mut redirects = Redirects::new(5);
    let mut r = request(Method::Post, "http://host/old");
    r.body = BodySize::Unknown;
    let e = fail(redirects.after_response(r, 307, Some("/new")));
    assert_eq!(e.kind(), ErrorKind::Io);
    assert_eq!(e.message(), Some("Body of the request cannot be sent again"));
    assert_eq!(redirects.count(), 0);

    let mut r = request(Method::Post, "http://host/old");
    r.body = BodySize::Unknown;
    let next = follow(redirects.after_response(r, 303, Some("/new")));
    assert_eq!(next.method, Method::Get);
    assert_eq!(next.body, BodySize::Empty);
}

#[test]
fn too_many_redirects() {
    let mut redirects = Redirects::new(5);
    assert_eq!(redirects.max(), 5);
    let mut r = request(Method::Get, "http://host/0");
    for i in 1..=5u32 {
        let location = format!("/{}", i);
        r = follow(redirects.after_response(r, 302, Some(&location)));
        assert_eq!(redirects.count(), i);
    }
    assert_eq!(r.url.serialization(), "http://host/5");
    let e = fail(redirects.after_response(r, 302, Some("/6")));
    assert_eq!(e.kind(), ErrorKind::TooManyRedirects);
    assert_eq!(e.message(), None);
    assert_eq!(e.to_text(), "Too Many Redirects");
    assert_eq!(redirects.count(), 5);
    assert_eq!(redirects.visited(4), Some("http://host/4"));
    assert_eq!(redirects.visited(5), None);

    let r = request(Method::Get, "http://host/5");
    let e = fail(redirects.after_response(r, 301, Some("not a url://")));
    assert_eq!(e.kind(), ErrorKind::TooManyRedirects);
    assert_eq!(redirects.count(), 5);
}

#[test]
fn responses_that_are_no_redirect() {
    let mut redirects = Redirects::new(5);
    for code in [200u16, 204, 300, 304, 305, 306, 399] {
        assert!(matches!(redirects.after_response(request(Method::Get, "http://h/"), code, Some("/x")), Next::Done));
    }
    for code in [400u16, 404, 500, 599, 999] {
        assert!(matches!(redirects.after_response(request(Method::Get, "http://h/"), code, Some("/x")), Next::Status));
        assert!(matches!(redirects.after_response(request(Method::Get, "http://h/"), code, None), Next::Status));
    }
    assert!(matches!(redirects.after_response(request(Method::Get, "http://h/"), 302, None), Next::Done));
    assert_eq!(redirects.count(), 0);
}

#[test]
fn redirects_switched_off() {
    let mut redirects = Redirects::new(0);
    assert!(matches!(redirects.after_response(request(Method::Get, "http://h/"), 302, Some("/x")), Next::Done));
    assert_eq!(redirects.count(), 0);
}

#[test]
fn redirect_to_what_is_no_url() {
    let mut redirects = Redirects::new(5);
    let e = fail(redirects.after_response(request(Method::Get, "http://h/"), 302, Some("gopher://x/")));
    assert_eq!(e.kind(), ErrorKind::InvalidUrl);
    assert_eq!(redirects.count(), 0);
}
