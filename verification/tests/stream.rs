use ureq::agent::{Config, USER_AGENT};
use ureq::stream::{
    check_labels, dns_request, dns_response, io_error, is_close_notify, next_attempt, remaining,
    tls_error, Action, HostAddr, TlsFailure, DNS_QUERY_ID,
};
use ureq::{Cause, Error, ErrorKind, Url};

fn failure(a: Action) -> Error {
    match a {
        Action::Fail(e) => e,
        Action::Connect { .. } => panic!("an attempt"),
    }
}

#[test]
fn close_notify() {
    assert!(is_close_notify(true, Some("CloseNotify alert received")));
    assert!(is_close_notify(true, Some("peer sent CloseNotify")));
    assert!(is_close_notify(true, Some("CloseNotify")));
    assert!(!is_close_notify(false, Some("CloseNotify alert received")));
    assert!(!is_close_notify(true, Some("closenotify")));
    assert!(!is_close_notify(true, Some("CloseNotif")));
    assert!(!is_close_notify(true, Some("")));
    assert!(!is_close_notify(true, None));
    assert!(!is_close_notify(false, None));
}

#[test]
fn labels_of_a_name() {
    assert!(check_labels(b"example.com"));
    assert!(check_labels(b""));
    assert!(check_labels(b"..."));
    let label62 = "a".repeat(62);
    let label63 = "a".repeat(63);
    assert!(check_labels(label62.as_bytes()));
    assert!(!check_labels(label63.as_bytes()));
    assert!(check_labels(format!("{}.{}.{}", label62, label62, label62).as_bytes()));
    assert!(!check_labels(format!("{}.{}.com", label62, label63).as_bytes()));
    assert!(!check_labels(format!("www.{}", label63).as_bytes()));
    assert!(check_labels(format!("www.{}.", label62).as_bytes()));
}

#[test]
fn dns_question() {
    let q = dns_request("example.com").unwrap();
    assert_eq!(DNS_QUERY_ID, 13);
    assert_eq!(
        q,
        b"\x00\x0d\x01\x00\x00\x01\x00\x00\x00\x00\x00\x00\x07example\x03com\x00\x00\x01\x00\x01".to_vec()
    );
}

#[test]
fn dns_question_that_cannot_be_asked() {
    let e = dns_request(&"a".repeat(63)).err().unwrap();
    assert_eq!(e.kind(), ErrorKind::Dns);
    assert_eq!(e.message(), Some("Bad DNS Query"));
    let mut name = String::new();
    while name.len() < 500 {
        name.push_str("abcdefghi.");
    }
    let e = dns_request(&name).err().unwrap();
    assert_eq!(e.kind(), ErrorKind::Dns);
    assert_eq!(e.message(), Some("Bad DNS Query"));
    assert!(dns_request(&name[..490]).is_ok());
}

#[test]
fn dns_answer() {
    let packet = b"\x06%\x81\x80\x00\x01\x00\x01\x00\x00\x00\x00\
                   \x07example\x03com\x00\x00\x01\x00\x01\
                   \xc0\x0c\x00\x01\x00\x01\x00\x00\x04\xf8\
                   \x00\x04]\xb8\xd8\"";
    let (name, ips) = dns_response(packet).unwrap();
    assert_eq!(name, "example.com");
    assert_eq!(ips, vec![u32::from_be_bytes([93, 184, 216, 34])]);
}

#[test]
fn dns_answer_skips_other_records() {
    let mut packet = b"\x00\x0d\x81\x80\x00\x01\x00\x03\x00\x00\x00\x00\x01h\x00\x00\x01\x00\x01".to_vec();
    packet.extend_from_slice(b"\xc0\x0c\x00\x01\x00\x01\x00\x00\x00\x3c\x00\x04\x0a\x00\x00\x01");
    packet.extend_from_slice(b"\xc0\x0c\x00\x10\x00\x01\x00\x00\x00\x3c\x00\x03\x02hi");
    packet.extend_from_slice(b"\xc0\x0c\x00\x01\x00\x01\x00\x00\x00\x3c\x00\x04\x0a\x00\x00\x02");
    let (name, ips) = dns_response(&packet).unwrap();
    assert_eq!(name, "h");
    assert_eq!(ips, vec![0x0a000001, 0x0a000002]);
}

#[test]
fn dns_answer_without_addresses() {
    let q = dns_request("example.com").unwrap();
    let (name, ips) = dns_response(&q).unwrap();
    assert_eq!(name, "example.com");
    assert!(ips.is_empty());
}

#[test]
fn dns_answer_that_is_no_packet() {
    let e = dns_response(b"short").err().unwrap();
    assert_eq!(e.kind(), ErrorKind::Dns);
    assert_eq!(e.message(), Some("Failed to parse dns packet"));
}

#[test]
fn dns_answer_without_question() {
    let e = dns_response(b"\x00\x0d\x81\x80\x00\x00\x00\x00\x00\x00\x00\x00").err().unwrap();
    assert_eq!(e.kind(), ErrorKind::Dns);
    assert_eq!(e.message(), Some("Question should never be empty"));
}

#[test]
fn host_addr_of_a_url() {
    let url = Url::parse("https://example.com:8443/x").unwrap();
    let h = HostAddr::new(&url);
    assert_eq!(h.host, "example.com");
    assert_eq!(h.port, 8443);
}

#[test]
fn time_that_is_left() {
    assert_eq!(remaining(None, 5).unwrap(), None);
    assert_eq!(remaining(Some(100), 40).unwrap(), Some(60));
    assert_eq!(remaining(Some(100), 99).unwrap(), Some(1));
    for now in [100u64, 101, u64::MAX] {
        let e = remaining(Some(100), now).err().unwrap();
        assert_eq!(e.kind(), ErrorKind::Io);
        assert_eq!(e.message(), Some("timed out"));
    }
}

#[test]
fn attempts_in_order() {
    let addrs = [1u32, 2, 3];
    for (tried, addr) in [(0usize, 1u32), (1, 2), (2, 3)] {
        match next_attempt("h", &addrs, 8080, tried, None, Some(1000), 400) {
            Action::Connect { addr: a, port, timeout_ms } => {
                assert_eq!(a, addr);
                assert_eq!(port, 8080);
                assert_eq!(timeout_ms, Some(600));
            }
            Action::Fail(e) => panic!("{}", e.to_text()),
        }
    }
    match next_attempt("h", &addrs, 80, 0, None, None, 400) {
        Action::Connect { timeout_ms, .. } => assert_eq!(timeout_ms, None),
        Action::Fail(e) => panic!("{}", e.to_text()),
    }
}

#[test]
fn attempts_without_address() {
    let e = failure(next_attempt("example.com", &[], 80, 0, None, None, 0));
    assert_eq!(e.kind(), ErrorKind::Dns);
    assert_eq!(e.to_text(), "Dns Failed: No ip address for example.com");
    let e = failure(next_attempt("example.com", &[], 80, 0, None, Some(1), 5));
    assert_eq!(e.kind(), ErrorKind::Dns);
}

#[test]
fn attempts_all_failed() {
    let last = Cause::Io("connection refused".to_string());
    let e = failure(next_attempt("h", &[1, 2], 80, 2, Some(last), None, 0));
    assert_eq!(e.kind(), ErrorKind::ConnectionFailed);
    assert_eq!(e.to_text(), "Connection Failed: connection refused");
    let e = failure(next_attempt("h", &[1, 2], 80, 7, None, Some(1), 5));
    assert_eq!(e.kind(), ErrorKind::ConnectionFailed);
    assert_eq!(e.to_text(), "Connection Failed");
}

#[test]
fn attempts_out_of_time() {
    let last = Cause::Io("connection refused".to_string());
    let e = failure(next_attempt("h", &[1, 2], 80, 1, Some(last), Some(500), 500));
    assert_eq!(e.kind(), ErrorKind::Io);
    assert_eq!(e.message(), Some("timed out"));
    assert_eq!(e.to_text(), "Network Error: timed out");
}

#[test]
fn tls_failures() {
    let e = tls_error(TlsFailure::ServerName);
    assert_eq!(e.kind(), ErrorKind::Dns);
    assert_eq!(e.to_text(), "Dns Failed");
    let e = tls_error(TlsFailure::Session(Cause::Io("no config".to_string())));
    assert_eq!(e.kind(), ErrorKind::Io);
    assert_eq!(e.to_text(), "Network Error: no config");
    let e = tls_error(TlsFailure::Handshake(Cause::Io("bad certificate".to_string())));
    assert_eq!(e.kind(), ErrorKind::ConnectionFailed);
    assert_eq!(e.to_text(), "Connection Failed: bad certificate");
    let e = io_error(Cause::Io("broken pipe".to_string()));
    assert_eq!(e.kind(), ErrorKind::Io);
    assert_eq!(e.to_text(), "Network Error: broken pipe");
}

#[test]
fn config_defaults_and_deadlines() {
    let c = Config::new();
    assert_eq!(c.user_agent, "ureq/2.3.1");
    assert_eq!(USER_AGENT, "ureq/2.3.1");
    assert_eq!(c.max_redirects, 5);
    assert_eq!(c.connect_timeout, None);
    assert_eq!(c.timeout, None);
    assert_eq!(c.deadline(10), None);
    assert_eq!(c.connect_deadline(None, 10), None);
    assert_eq!(c.connect_deadline(Some(70), 10), Some(70));

    let c = Config { timeout: Some(500), connect_timeout: Some(100), ..Config::new() };
    assert_eq!(c.deadline(10), Some(510));
    assert_eq!(c.deadline(u64::MAX - 3), Some(u64::MAX));
    assert_eq!(c.connect_deadline(Some(510), 10), Some(110));
    assert_eq!(c.connect_deadline(Some(510), 450), Some(510));
    assert_eq!(c.connect_deadline(None, 450), Some(550));
    assert_eq!(c.connect_deadline(None, u64::MAX), Some(u64::MAX));
}
