//! Finding and reaching a server: the DNS question and its answer, and the
//! order of connection attempts. The sockets themselves are the caller's.

use crate::bytes::{contains_seq, find, lemma_first_occurrence_none};
use crate::error::{Cause, Error, ErrorKind, Transport};
use crate::url::Url;
use vstd::prelude::*;
use vstd::string::StringSliceAdditionalSpecFns;

verus! {

pub const DOT: u8 = 46;

/// A label of a host name has fewer bytes than this.
pub const LABEL_LIMIT: usize = 63;

/// The identifier that every DNS question carries.
pub const DNS_QUERY_ID: u16 = 13;

/// A host and the port to reach it at.
#[derive(Debug)]
pub struct HostAddr<'a> {
    pub host: &'a str,
    pub port: u16,
}

/// Whether a failed read is the orderly end of a TLS session: the
/// connection was aborted, and the failure describes itself with
/// `CloseNotify`. Such a read counts as the end of the stream.
pub fn is_close_notify(connection_aborted: bool, description: Option<&str>) -> (r: bool)
    ensures
        r == (connection_aborted && description is Some && contains_seq(
            description->0.spec_bytes(),
            "CloseNotify".spec_bytes(),
        )),
{
    if !connection_aborted {
        return false;
    }
    match description {
        Some(msg) => {
            proof {
                lemma_first_occurrence_none(msg.spec_bytes(), "CloseNotify".spec_bytes());
            }
            find(msg.as_bytes(), "CloseNotify".as_bytes()).is_some()
        },
        None => false,
    }
}

/// There is a dot among the `LABEL_LIMIT` bytes from index `i` on.
pub open spec fn window_has_dot(name: Seq<u8>, i: int) -> bool {
    exists|k: int| i <= k < i + LABEL_LIMIT && name[k] == DOT
}

/// Every label of the name, which is what stands between two dots, is
/// shorter than `LABEL_LIMIT`: no `LABEL_LIMIT` bytes in a row are without a dot.
pub open spec fn labels_fit(name: Seq<u8>) -> bool {
    forall|i: int| 0 <= i && i + LABEL_LIMIT <= name.len() ==> #[trigger] window_has_dot(name, i)
}

/// Checks that every label of a host name is short enough to be asked for.
pub fn check_labels(name: &[u8]) -> (r: bool)
    ensures
        r == labels_fit(name@),
{
    let mut i: usize = 0;
    let mut run: usize = 0;
    while i < name.len()
        invariant
            i <= name@.len(),
            name@.len() == name.len(),
            run <= i,
            run < LABEL_LIMIT,
            forall|k: int| i - run <= k < i ==> name@[k] != DOT,
            i - run == 0 || name@[i - run - 1] == DOT,
            forall|w: int| 0 <= w && w + LABEL_LIMIT <= i ==> #[trigger] window_has_dot(name@, w),
        decreases name@.len() - i,
    {
        if name[i] == DOT {
            run = 0;
            proof {
                assert forall|w: int| 0 <= w && w + LABEL_LIMIT <= i + 1 implies #[trigger] window_has_dot(
                    name@,
                    w,
                ) by {
                    if w + LABEL_LIMIT == i + 1 {
                        assert(w <= i < w + LABEL_LIMIT && name@[i as int] == DOT);
                    }
                }
            }
        } else {
            run += 1;
            if run >= LABEL_LIMIT {
                proof {
                    let w = i + 1 - LABEL_LIMIT;
                    assert(!window_has_dot(name@, w));
                }
                return false;
            }
            proof {
                assert forall|w: int| 0 <= w && w + LABEL_LIMIT <= i + 1 implies #[trigger] window_has_dot(
                    name@,
                    w,
                ) by {
                    if w + LABEL_LIMIT == i + 1 {
                        let k = i + 1 - run - 1;
                        assert(w <= k < w + LABEL_LIMIT && name@[k] == DOT);
                    }
                }
            }
        }
        i += 1;
    }
    true
}

/// The DNS packet that asks for the IPv4 addresses of `name`, with the
/// identifier `id`; `None` where the question does not fit a packet.
pub uninterp spec fn dns_query(id: u16, recursion: bool, name: Seq<char>) -> Option<Seq<u8>>;

/// What a DNS packet holds: the names that were asked for, and for each
/// answer its IPv4 address or `None`. `None` where the bytes are no packet.
pub uninterp spec fn dns_reply(packet: Seq<u8>) -> Option<(Seq<Seq<char>>, Seq<Option<u32>>)>;

/// `dns_parser::Builder`: `new_query`, then `add_question` for the records of
/// type A and class IN of `name`, then `build`. `None` stands for a packet
/// that `build` reports as truncated. The labels of the name are short
/// enough for `add_question`. Nothing is claimed of the bytes but that they
/// depend on the arguments alone.
#[verifier::external_body]
fn build_query(id: u16, recursion: bool, name: &str) -> (r: Option<Vec<u8>>)
    requires
        labels_fit(name.spec_bytes()),
    ensures
        match r {
            Some(b) => dns_query(id, recursion, name@) == Some(b@),
            None => dns_query(id, recursion, name@) is None,
        },
{
    let mut builder = dns_parser::Builder::new_query(id, recursion);
    builder.add_question(name, false, dns_parser::QueryType::A, dns_parser::QueryClass::IN);
    builder.build().ok()
}

/// A DNS packet as far as this client reads it.
pub struct DnsReply {
    /// The names of the questions, in order.
    pub questions: Vec<String>,
    /// For each answer, in order, its address if it is a record of type A.
    pub answers: Vec<Option<u32>>,
}

impl DnsReply {
    pub open spec fn names(self) -> Seq<Seq<char>> {
        Seq::new(self.questions@.len(), |i: int| self.questions@[i]@)
    }
}

/// `dns_parser::Packet::parse`. The names of the questions are handed out
/// as text, the answers of type A as the 32 bits of their address, any
/// other answer as `None`. Nothing is claimed of them but that they depend
/// on the packet alone.
#[verifier::external_body]
fn parse_packet(packet: &[u8]) -> (r: Option<DnsReply>)
    ensures
        match r {
            Some(reply) => dns_reply(packet@) == Some((reply.names(), reply.answers@)),
            None => dns_reply(packet@) is None,
        },
{
    match dns_parser::Packet::parse(packet) {
        Ok(p) => Some(
            DnsReply {
                questions: p.questions.iter().map(|q| q.qname.to_string()).collect(),
                answers: p.answers.iter().map(
                    |a| match a.data {
                        dns_parser::RData::A(ip) => Some(u32::from(ip.0)),
                        _ => None,
                    },
                ).collect(),
            },
        ),
        Err(_) => None,
    }
}

/// The error of kind `Dns` with the message `message`.
pub open spec fn dns_error(message: &'static str) -> Error {
    Error::plain(ErrorKind::Dns, Some(message))
}

/// The question to send for `name`: refused where a label is too long or
/// the packet does not hold the name.
pub open spec fn dns_request_spec(name: &str) -> Result<Seq<u8>, Error> {
    if !labels_fit(name.spec_bytes()) {
        Err(dns_error("Bad DNS Query"))
    } else {
        match dns_query(DNS_QUERY_ID, true, name@) {
            Some(b) => Ok(b),
            None => Err(dns_error("Bad DNS Query")),
        }
    }
}

/// The DNS packet that asks for the addresses of `name`.
pub fn dns_request(name: &str) -> (r: Result<Vec<u8>, Error>)
    ensures
        match dns_request_spec(name) {
            Ok(b) => r matches Ok(v) && v@ == b,
            Err(e) => r matches Err(err) && err == e,
        },
{
    if !check_labels(name.as_bytes()) {
        return Err(ErrorKind::Dns.msg("Bad DNS Query"));
    }
    match build_query(DNS_QUERY_ID, true, name) {
        Some(b) => Ok(b),
        None => Err(ErrorKind::Dns.msg("Bad DNS Query")),
    }
}

/// The addresses among the answers, in their order.
pub open spec fn addresses(answers: Seq<Option<u32>>) -> Seq<u32>
    decreases answers.len(),
{
    if answers.len() == 0 {
        Seq::empty()
    } else {
        match answers.last() {
            Some(a) => addresses(answers.drop_last()).push(a),
            None => addresses(answers.drop_last()),
        }
    }
}

/// What a reply says: the name of its first question and the addresses
/// among its answers. A reply without a question is refused.
pub open spec fn reply_spec(names: Seq<Seq<char>>, answers: Seq<Option<u32>>) -> Result<
    (Seq<char>, Seq<u32>),
    Error,
> {
    if names.len() == 0 {
        Err(dns_error("Question should never be empty"))
    } else {
        Ok((names[0], addresses(answers)))
    }
}

/// Reads name and addresses out of a reply.
pub fn read_reply(reply: DnsReply) -> (r: Result<(String, Vec<u32>), Error>)
    ensures
        match reply_spec(reply.names(), reply.answers@) {
            Ok((name, ips)) => r matches Ok(pair) && pair.0@ == name && pair.1@ == ips,
            Err(e) => r matches Err(err) && err == e,
        },
{
    if reply.questions.len() == 0 {
        return Err(ErrorKind::Dns.msg("Question should never be empty"));
    }
    let mut ips: Vec<u32> = Vec::new();
    let mut i: usize = 0;
    assert(reply.answers@.take(0) =~= Seq::<Option<u32>>::empty());
    while i < reply.answers.len()
        invariant
            i <= reply.answers@.len(),
            ips@ == addresses(reply.answers@.take(i as int)),
        decreases reply.answers@.len() - i,
    {
        proof {
            let next = reply.answers@.take(i + 1);
            assert(next.drop_last() =~= reply.answers@.take(i as int));
            assert(next.last() == reply.answers@[i as int]);
        }
        if let Some(a) = reply.answers[i] {
            ips.push(a);
        }
        i += 1;
    }
    assert(reply.answers@.take(i as int) =~= reply.answers@);
    let name = reply.questions[0].clone();
    assert(reply.names()[0] == reply.questions@[0]@);
    Ok((name, ips))
}

/// What the bytes of a reply say, or why they say nothing.
pub open spec fn dns_response_spec(packet: Seq<u8>) -> Result<(Seq<char>, Seq<u32>), Error> {
    match dns_reply(packet) {
        None => Err(dns_error("Failed to parse dns packet")),
        Some((names, answers)) => reply_spec(names, answers),
    }
}

/// Reads the reply to a DNS question: the name that was asked for, as the
/// server repeats it, and the IPv4 addresses that it answers with, in the
/// server's order.
pub fn dns_response(packet: &[u8]) -> (r: Result<(String, Vec<u32>), Error>)
    ensures
        match dns_response_spec(packet@) {
            Ok((name, ips)) => r matches Ok(pair) && pair.0@ == name && pair.1@ == ips,
            Err(e) => r matches Err(err) && err == e,
        },
{
    match parse_packet(packet) {
        Some(reply) => read_reply(reply),
        None => Err(ErrorKind::Dns.msg("Failed to parse dns packet")),
    }
}

impl<'a> HostAddr<'a> {
    /// Where the server of a URL is to be reached.
    pub fn new(url: &'a Url) -> (r: HostAddr<'a>)
        ensures
            r.host@ == url.host_spec(),
            r.port == url.parts().port,
    {
        HostAddr { host: url.host_str(), port: url.port() }
    }
}

/// The error for a deadline that has passed.
pub open spec fn timeout_error() -> Error {
    Error::plain(ErrorKind::Io, Some("timed out"))
}

/// The time that is left until `deadline_ms`, on the clock that gives
/// `now_ms`: no limit where there is no deadline, an error once the deadline
/// has come, and else a time that is not zero.
pub open spec fn remaining_spec(deadline_ms: Option<u64>, now_ms: u64) -> Result<Option<u64>, Error> {
    match deadline_ms {
        None => Ok(None),
        Some(d) => if now_ms >= d {
            Err(timeout_error())
        } else {
            Ok(Some((d - now_ms) as u64))
        },
    }
}

/// The timeout to give to the next blocking call.
pub fn remaining(deadline_ms: Option<u64>, now_ms: u64) -> (r: Result<Option<u64>, Error>)
    ensures
        r == remaining_spec(deadline_ms, now_ms),
        r matches Ok(Some(t)) ==> t > 0,
{
    match deadline_ms {
        None => Ok(None),
        Some(d) => {
            if now_ms >= d {
                Err(ErrorKind::Io.msg("timed out"))
            } else {
                Ok(Some(d - now_ms))
            }
        },
    }
}

/// What to do next to reach a server.
pub enum Action {
    /// Connect to this address, and give up after `timeout_ms` milliseconds
    /// if that is a number.
    Connect { addr: u32, port: u16, timeout_ms: Option<u64> },
    /// Give up with this error.
    Fail(Error),
}

/// The cases of `next_attempt`.
pub enum Plan {
    /// The name has no address.
    NoAddress,
    /// Every address has been tried.
    Exhausted,
    /// No time is left.
    TimedOut,
    /// The address at this place is next, with this much time.
    Try(int, Option<u64>),
}

/// The addresses of a host are tried in their order, one after each
/// failure, as long as time is left.
pub open spec fn plan(count: nat, tried: nat, deadline_ms: Option<u64>, now_ms: u64) -> Plan {
    if count == 0 {
        Plan::NoAddress
    } else if tried >= count {
        Plan::Exhausted
    } else {
        match remaining_spec(deadline_ms, now_ms) {
            Err(_) => Plan::TimedOut,
            Ok(t) => Plan::Try(tried as int, t),
        }
    }
}

/// Decides the next step towards a connection. `addrs` are the addresses of
/// `host` in order of preference, `tried` says how many of them have failed,
/// and `last` is the failure of the last of these. A host without an address
/// is a DNS error that names the host; when every address has failed, the
/// error is `ConnectionFailed` with the last failure underneath; when the
/// deadline has come, no attempt is made.
pub fn next_attempt(
    host: &str,
    addrs: &[u32],
    port: u16,
    tried: usize,
    last: Option<Cause>,
    deadline_ms: Option<u64>,
    now_ms: u64,
) -> (r: Action)
    ensures
        match plan(addrs@.len(), tried as nat, deadline_ms, now_ms) {
            Plan::NoAddress => r matches Action::Fail(Error::Transport(t)) && t.kind
                == ErrorKind::Dns && t.message is None && (t.source matches Some(Cause::Io(s))
                && s@ == "No ip address for "@ + host@),
            Plan::Exhausted => r matches Action::Fail(Error::Transport(t)) && t.kind
                == ErrorKind::ConnectionFailed && t.message is None && t.source == last,
            Plan::TimedOut => r matches Action::Fail(e) && e == timeout_error(),
            Plan::Try(i, t) => r matches Action::Connect { addr, port: p, timeout_ms }
                && addr == addrs@[i] && p == port && timeout_ms == t,
        },
{
    if addrs.len() == 0 {
        let mut text = String::from_str("No ip address for ");
        text.append(host);
        return Action::Fail(
            Error::Transport(
                Transport { kind: ErrorKind::Dns, message: None, source: Some(Cause::Io(text)) },
            ),
        );
    }
    if tried >= addrs.len() {
        return Action::Fail(
            Error::Transport(
                Transport { kind: ErrorKind::ConnectionFailed, message: None, source: last },
            ),
        );
    }
    match remaining(deadline_ms, now_ms) {
        Err(e) => Action::Fail(e),
        Ok(timeout_ms) => Action::Connect { addr: addrs[tried], port, timeout_ms },
    }
}

/// Why no TLS session came about on a connection.
pub enum TlsFailure {
    /// The host is no name that a certificate can be checked against.
    ServerName,
    /// No session could be set up.
    Session(Cause),
    /// The handshake failed, the check of the server's name included.
    Handshake(Cause),
}

/// The error that a TLS failure is reported as.
pub fn tls_error(failure: TlsFailure) -> (r: Error)
    ensures
        r == match failure {
            TlsFailure::ServerName => Error::plain(ErrorKind::Dns, None),
            TlsFailure::Session(c) => Error::Transport(
                Transport { kind: ErrorKind::Io, message: None, source: Some(c) },
            ),
            TlsFailure::Handshake(c) => Error::Transport(
                Transport { kind: ErrorKind::ConnectionFailed, message: None, source: Some(c) },
            ),
        },
{
    match failure {
        TlsFailure::ServerName => ErrorKind::Dns.new(),
        TlsFailure::Session(c) => ErrorKind::Io.new().src(c),
        TlsFailure::Handshake(c) => ErrorKind::ConnectionFailed.new().src(c),
    }
}

/// The error that a failure of the operating system is reported as.
pub fn io_error(cause: Cause) -> (r: Error)
    ensures
        r == Error::Transport(Transport { kind: ErrorKind::Io, message: None, source: Some(cause) }),
{
    ErrorKind::Io.new().src(cause)
}

} // verus!
