//! Requests, and the bytes that open one on the wire.

use crate::body::BodySize;
use crate::bytes::{
    ascii, ascii_bytes, decimal_digits, first_index, is_first_index, is_space,
    lemma_first_index_is, push_decimal, trim, trim_end, trim_start, COLON, CR, LF, SPACE,
};
use crate::header::{
    check_line, entries_of, entry_of, lookup, name_key, parse_spec, split_lines, strip_cr,
    Headers, Limits,
};
use crate::url::{lemma_parts_in_order, Scheme, Url};
use vstd::prelude::*;
use vstd::string::StringSliceAdditionalSpecFns;

verus! {

/// The request methods.
#[derive(Clone, Copy, Debug, PartialEq, Eq, Structural)]
pub enum Method {
    Get,
    Head,
    Post,
    Put,
    Delete,
    Options,
    Patch,
    Connect,
    Trace,
}

impl Method {
    /// The method's name as it stands on the request line.
    pub open spec fn bytes_spec(self) -> Seq<u8> {
        match self {
            Method::Get => "GET".spec_bytes(),
            Method::Head => "HEAD".spec_bytes(),
            Method::Post => "POST".spec_bytes(),
            Method::Put => "PUT".spec_bytes(),
            Method::Delete => "DELETE".spec_bytes(),
            Method::Options => "OPTIONS".spec_bytes(),
            Method::Patch => "PATCH".spec_bytes(),
            Method::Connect => "CONNECT".spec_bytes(),
            Method::Trace => "TRACE".spec_bytes(),
        }
    }

    pub fn to_str(self) -> (r: &'static str)
        ensures
            r.spec_bytes() == self.bytes_spec(),
    {
        match self {
            Method::Get => "GET",
            Method::Head => "HEAD",
            Method::Post => "POST",
            Method::Put => "PUT",
            Method::Delete => "DELETE",
            Method::Options => "OPTIONS",
            Method::Patch => "PATCH",
            Method::Connect => "CONNECT",
            Method::Trace => "TRACE",
        }
    }
}

/// One header on the wire: name, colon, space, value, line break.
pub open spec fn header_line(name: Seq<u8>, value: Seq<u8>) -> Seq<u8> {
    name + seq![COLON, SPACE] + value + seq![CR, LF]
}

/// The lines of a list of headers, one after the other.
pub open spec fn header_lines(entries: Seq<(Seq<u8>, Seq<u8>)>) -> Seq<u8>
    decreases entries.len(),
{
    if entries.len() == 0 {
        Seq::empty()
    } else {
        header_lines(entries.drop_last()) + header_line(entries.last().0, entries.last().1)
    }
}

/// Whether the caller has set a header of this name.
pub open spec fn has_header(entries: Seq<(Seq<u8>, Seq<u8>)>, name: Seq<char>) -> bool {
    lookup(entries, name_key(name)) is Some
}

/// `line` unless the caller has set a header of the name `name`.
pub open spec fn unless_set(entries: Seq<(Seq<u8>, Seq<u8>)>, name: Seq<char>, line: Seq<u8>) -> Seq<
    u8,
> {
    if has_header(entries, name) {
        Seq::empty()
    } else {
        line
    }
}

/// The value of the `Host` header: the host, and the port behind a colon
/// where it is not the default of the scheme.
pub open spec fn host_value(host: Seq<u8>, port: u16, scheme: Scheme) -> Seq<u8> {
    if port == scheme.default_port_spec() {
        host
    } else {
        host + seq![COLON] + decimal_digits(port as nat)
    }
}

/// The header that announces the body: its length where that is known,
/// chunked transfer where it is not, nothing where there is no body.
pub open spec fn body_line(entries: Seq<(Seq<u8>, Seq<u8>)>, body: BodySize) -> Seq<u8> {
    match body {
        BodySize::Empty => Seq::empty(),
        BodySize::Known(n) => unless_set(
            entries,
            "content-length"@,
            header_line("Content-Length".spec_bytes(), decimal_digits(n as nat)),
        ),
        BodySize::Unknown => unless_set(
            entries,
            "transfer-encoding"@,
            header_line("Transfer-Encoding".spec_bytes(), "chunked".spec_bytes()),
        ),
    }
}

/// Everything that goes out before the body: the request line; `Host`,
/// `User-Agent` and `Accept`, each unless the caller has set it; the
/// caller's headers in their order; the header that announces the body; and
/// the empty line.
pub open spec fn prelude_spec(
    method: Method,
    scheme: Scheme,
    host: Seq<u8>,
    port: u16,
    path: Seq<u8>,
    entries: Seq<(Seq<u8>, Seq<u8>)>,
    body: BodySize,
    user_agent: Seq<u8>,
) -> Seq<u8> {
    method.bytes_spec() + seq![SPACE] + path + " HTTP/1.1\r\n".spec_bytes() + unless_set(
        entries,
        "host"@,
        header_line("Host".spec_bytes(), host_value(host, port, scheme)),
    ) + unless_set(
        entries,
        "user-agent"@,
        header_line("User-Agent".spec_bytes(), user_agent),
    ) + unless_set(
        entries,
        "accept"@,
        header_line("Accept".spec_bytes(), "*/*".spec_bytes()),
    ) + header_lines(entries) + body_line(entries, body) + seq![CR, LF]
}

fn push_header_line(dest: &mut Vec<u8>, name: &[u8], value: &[u8])
    ensures
        final(dest)@ == old(dest)@ + header_line(name@, value@),
{
    dest.extend_from_slice(name);
    dest.push(COLON);
    dest.push(SPACE);
    dest.extend_from_slice(value);
    dest.push(CR);
    dest.push(LF);
    assert(dest@ =~= old(dest)@ + header_line(name@, value@));
}

fn push_header_lines(dest: &mut Vec<u8>, headers: &Headers)
    ensures
        final(dest)@ == old(dest)@ + header_lines(headers@),
{
    let mut i: usize = 0;
    assert(headers@.take(0) =~= Seq::<(Seq<u8>, Seq<u8>)>::empty());
    assert(dest@ =~= old(dest)@ + header_lines(headers@.take(0)));
    while i < headers.len()
        invariant
            i <= headers@.len(),
            dest@ == old(dest)@ + header_lines(headers@.take(i as int)),
        decreases headers@.len() - i,
    {
        let ghost before = dest@;
        push_header_line(dest, headers.name_at(i), headers.value_at(i));
        proof {
            let next = headers@.take(i + 1);
            assert(next.drop_last() =~= headers@.take(i as int));
            assert(next.last() == headers@[i as int]);
            assert(dest@ =~= old(dest)@ + header_lines(next));
        }
        i += 1;
    }
    assert(headers@.take(i as int) =~= headers@);
}

/// A request: what is asked of which URL, with which headers and what body.
pub struct Request {
    pub method: Method,
    pub url: Url,
    pub headers: Headers,
    pub body: BodySize,
}

impl Request {
    /// A request without headers and without a body.
    pub fn new(method: Method, url: Url) -> (r: Request)
        ensures
            r.method == method,
            r.url == url,
            r.headers@ == Seq::<(Seq<u8>, Seq<u8>)>::empty(),
            r.body == BodySize::Empty,
    {
        Request { method, url, headers: Headers::new(), body: BodySize::Empty }
    }

    /// Sets a header. A header that is set twice goes out twice.
    pub fn set(&mut self, name: &str, value: &str)
        ensures
            final(self).method == old(self).method,
            final(self).url == old(self).url,
            final(self).body == old(self).body,
            final(self).headers@ == old(self).headers@.push(
                (name.spec_bytes(), trim(value.spec_bytes())),
            ),
    {
        self.headers.push(name.as_bytes(), value.as_bytes());
    }

    /// The bytes that this request puts on the wire before its body.
    pub open spec fn prelude_spec(self, user_agent: Seq<u8>) -> Seq<u8> {
        prelude_spec(
            self.method,
            self.url.parts().scheme,
            ascii_bytes(self.url.host_spec()),
            self.url.parts().port,
            ascii_bytes(self.url.path_spec()),
            self.headers@,
            self.body,
            user_agent,
        )
    }
}

/// Writes request line and headers, all up until the body, into one buffer
/// that goes out in a single write.
pub fn send_request(request: &Request, user_agent: &str) -> (r: Vec<u8>)
    ensures
        r@ == request.prelude_spec(user_agent.spec_bytes()),
{
    let url = &request.url;
    let text = url.serialization();
    proof {
        lemma_parts_in_order(url.text());
        lemma_ascii_part(url.text(), url.parts().host_start, url.parts().host_end);
        lemma_ascii_part(url.text(), url.parts().path_start, url.text().len() as int);
    }
    let host = ascii(url.host_str());
    let path = ascii(url.path());
    let scheme = url.scheme();
    let port = url.port();
    let headers = &request.headers;
    let ghost entries = headers@;

    let mut out: Vec<u8> = Vec::new();
    out.extend_from_slice(request.method.to_str().as_bytes());
    out.push(SPACE);
    out.extend_from_slice(path);
    out.extend_from_slice(" HTTP/1.1\r\n".as_bytes());
    let ghost s0 = out@;
    assert(s0 =~= request.method.bytes_spec() + seq![SPACE] + path@ + " HTTP/1.1\r\n".spec_bytes());

    if !headers.has("host") {
        let mut value: Vec<u8> = Vec::new();
        value.extend_from_slice(host);
        if port != scheme.default_port() {
            value.push(COLON);
            push_decimal(&mut value, port as u64);
        }
        assert(value@ =~= host_value(host@, port, scheme));
        push_header_line(&mut out, "Host".as_bytes(), value.as_slice());
    }
    let ghost s1 = out@;
    assert(s1 =~= s0 + unless_set(
        entries,
        "host"@,
        header_line("Host".spec_bytes(), host_value(host@, port, scheme)),
    ));

    if !headers.has("user-agent") {
        push_header_line(&mut out, "User-Agent".as_bytes(), user_agent.as_bytes());
    }
    let ghost s2 = out@;
    assert(s2 =~= s1 + unless_set(
        entries,
        "user-agent"@,
        header_line("User-Agent".spec_bytes(), user_agent.spec_bytes()),
    ));

    if !headers.has("accept") {
        push_header_line(&mut out, "Accept".as_bytes(), "*/*".as_bytes());
    }
    let ghost s3 = out@;
    assert(s3 =~= s2 + unless_set(
        entries,
        "accept"@,
        header_line("Accept".spec_bytes(), "*/*".spec_bytes()),
    ));

    push_header_lines(&mut out, headers);
    let ghost s4 = out@;

    match request.body {
        BodySize::Empty => {},
        BodySize::Known(n) => {
            if !headers.has("content-length") {
                let mut value: Vec<u8> = Vec::new();
                push_decimal(&mut value, n);
                assert(value@ =~= decimal_digits(n as nat));
                push_header_line(&mut out, "Content-Length".as_bytes(), value.as_slice());
            }
        },
        BodySize::Unknown => {
            if !headers.has("transfer-encoding") {
                push_header_line(&mut out, "Transfer-Encoding".as_bytes(), "chunked".as_bytes());
            }
        },
    }
    let ghost s5 = out@;
    assert(s5 =~= s4 + body_line(entries, request.body));
    out.push(CR);
    out.push(LF);
    assert(out@ =~= s5 + seq![CR, LF]);
    out
}

/// A part of an ASCII text is ASCII.
pub proof fn lemma_ascii_part(text: Seq<char>, from: int, to: int)
    requires
        vstd::utf8::is_ascii_chars(text),
        0 <= from <= to <= text.len(),
    ensures
        vstd::utf8::is_ascii_chars(text.subrange(from, to)),
{
    assert forall|i: int| 0 <= i < to - from implies '\0' <= #[trigger] text.subrange(from, to)[i]
        <= '\u{7f}' by {
        assert(text.subrange(from, to)[i] == text[from + i]);
    }
}

/// The line of a header without its line break.
pub open spec fn bare_line(name: Seq<u8>, value: Seq<u8>) -> Seq<u8> {
    name + seq![COLON, SPACE] + value
}

/// A header that comes back from the wire as it went out: no colon and no
/// line feed in its name, no line feed in its value and no white space at
/// either end of it.
pub open spec fn is_plain(name: Seq<u8>, value: Seq<u8>) -> bool {
    &&& !name.contains(COLON)
    &&& !name.contains(LF)
    &&& !value.contains(LF)
    &&& value.len() > 0 ==> !is_space(value[0]) && !is_space(value.last())
}

/// Lines that are put together come apart again: where a block ends with a
/// line feed, what follows it starts a new line.
pub proof fn lemma_split_concat(a: Seq<u8>, b: Seq<u8>)
    requires
        a.len() == 0 || a.last() == LF,
    ensures
        split_lines(a + b) == split_lines(a) + split_lines(b),
    decreases a.len(),
{
    if a.len() == 0 {
        assert(a + b =~= b);
        assert(split_lines(a) + split_lines(b) =~= split_lines(b));
    } else {
        assert(a.contains(LF)) by {
            assert(a[a.len() - 1] == LF);
        }
        crate::bytes::lemma_first_index_none(a, LF);
        let i = first_index(a, LF)->0;
        assert(is_first_index(a, LF, i));
        assert(is_first_index(a + b, LF, i)) by {
            assert forall|j: int| 0 <= j <= i implies (a + b)[j] == a[j] by {}
        }
        lemma_first_index_is(a + b, LF, i);
        assert((a + b).take(i) =~= a.take(i));
        assert((a + b).skip(i + 1) =~= a.skip(i + 1) + b);
        let rest = a.skip(i + 1);
        if rest.len() > 0 {
            assert(rest.last() == a.last());
        }
        lemma_split_concat(rest, b);
        assert(split_lines(a + b) =~= split_lines(a) + split_lines(b));
    }
}

/// One header on the wire is one line.
pub proof fn lemma_split_header_line(name: Seq<u8>, value: Seq<u8>)
    requires
        !name.contains(LF),
        !value.contains(LF),
    ensures
        split_lines(header_line(name, value)) == seq![bare_line(name, value)],
{
    let line = bare_line(name, value);
    let buf = header_line(name, value);
    let i = (line.len() + 1) as int;
    assert(buf =~= line + seq![CR, LF]);
    assert(is_first_index(buf, LF, i)) by {
        assert forall|j: int| 0 <= j < i implies buf[j] != LF by {
            if j < name.len() {
                assert(buf[j] == name[j]);
                assert(name.contains(name[j]));
            } else if j >= name.len() + 2 && j < line.len() {
                assert(buf[j] == value[j - name.len() - 2]);
                assert(value.contains(value[j - name.len() - 2]));
            }
        }
    }
    lemma_first_index_is(buf, LF, i);
    assert(buf.take(i) =~= line.push(CR));
    assert(strip_cr(buf.take(i)) =~= line);
    assert(buf.skip(i + 1) =~= Seq::<u8>::empty());
    assert(split_lines(buf.skip(i + 1)) =~= Seq::<Seq<u8>>::empty());
    assert(split_lines(buf) =~= seq![line]);
}

/// The line of a plain header is read as that header.
pub proof fn lemma_entry_of_bare_line(name: Seq<u8>, value: Seq<u8>)
    requires
        is_plain(name, value),
    ensures
        entry_of(bare_line(name, value)) == Some((name, value)),
{
    let line = bare_line(name, value);
    let c = name.len() as int;
    assert(is_first_index(line, COLON, c)) by {
        assert forall|j: int| 0 <= j < c implies line[j] != COLON by {
            assert(line[j] == name[j]);
            assert(name.contains(name[j]));
        }
    }
    lemma_first_index_is(line, COLON, c);
    assert(line.take(c) =~= name);
    let after = line.skip(c + 1);
    assert(after =~= seq![SPACE] + value);
    assert(after.drop_first() =~= value);
    assert(trim_start(after) == trim_start(value));
    assert(trim_start(value) == value);
    assert(trim_end(value) == value);
}

/// The lines of a list of headers, each without its line break.
pub open spec fn bare_lines(entries: Seq<(Seq<u8>, Seq<u8>)>) -> Seq<Seq<u8>> {
    Seq::new(entries.len(), |i: int| bare_line(entries[i].0, entries[i].1))
}

/// The headers that go out on the wire are, line by line, what was put in.
pub proof fn lemma_split_header_lines(entries: Seq<(Seq<u8>, Seq<u8>)>)
    requires
        forall|i: int|
            0 <= i < entries.len() ==> !(#[trigger] entries[i]).0.contains(LF)
                && !entries[i].1.contains(LF),
    ensures
        split_lines(header_lines(entries)) == bare_lines(entries),
        header_lines(entries).len() == 0 || header_lines(entries).last() == LF,
    decreases entries.len(),
{
    if entries.len() == 0 {
        assert(split_lines(header_lines(entries)) =~= bare_lines(entries));
    } else {
        let init = entries.drop_last();
        let last = entries.last();
        assert forall|i: int| 0 <= i < init.len() implies !(#[trigger] init[i]).0.contains(LF)
            && !init[i].1.contains(LF) by {
            assert(init[i] == entries[i]);
        }
        lemma_split_header_lines(init);
        lemma_split_header_line(last.0, last.1);
        lemma_split_concat(header_lines(init), header_line(last.0, last.1));
        assert(bare_lines(init).push(bare_line(last.0, last.1)) =~= bare_lines(entries));
        assert(split_lines(header_lines(init)) + seq![bare_line(last.0, last.1)] =~= bare_lines(
            init,
        ).push(bare_line(last.0, last.1)));
        assert(header_line(last.0, last.1).last() == LF);
    }
}

/// What the writer puts on the wire, the reader reads back: a list of plain
/// headers that is within the limits, written out line by line, is read as
/// the same list.
pub proof fn lemma_headers_round_trip(entries: Seq<(Seq<u8>, Seq<u8>)>, limits: Limits)
    requires
        entries.len() <= limits.max_count,
        forall|i: int|
            0 <= i < entries.len() ==> is_plain((#[trigger] entries[i]).0, entries[i].1)
                && bare_line(entries[i].0, entries[i].1).len() <= limits.max_line,
    ensures
        parse_spec(header_lines(entries), limits) == Ok::<Seq<(Seq<u8>, Seq<u8>)>, crate::header::Fault>(
            entries,
        ),
{
    lemma_split_header_lines(entries);
    lemma_bare_lines_read_back(entries, limits);
}

proof fn lemma_bare_lines_read_back(entries: Seq<(Seq<u8>, Seq<u8>)>, limits: Limits)
    requires
        entries.len() <= limits.max_count,
        forall|i: int|
            0 <= i < entries.len() ==> is_plain((#[trigger] entries[i]).0, entries[i].1)
                && bare_line(entries[i].0, entries[i].1).len() <= limits.max_line,
    ensures
        entries_of(bare_lines(entries), limits) == Ok::<Seq<(Seq<u8>, Seq<u8>)>, crate::header::Fault>(
            entries,
        ),
    decreases entries.len(),
{
    let lines = bare_lines(entries);
    if entries.len() == 0 {
        assert(entries =~= Seq::<(Seq<u8>, Seq<u8>)>::empty());
    } else {
        let init = entries.drop_last();
        let last = entries.last();
        assert forall|i: int| 0 <= i < init.len() implies is_plain((#[trigger] init[i]).0, init[i].1)
            && bare_line(init[i].0, init[i].1).len() <= limits.max_line by {
            assert(init[i] == entries[i]);
        }
        lemma_bare_lines_read_back(init, limits);
        assert(lines.drop_last() =~= bare_lines(init));
        assert(lines.last() == bare_line(last.0, last.1));
        lemma_entry_of_bare_line(last.0, last.1);
        assert(check_line(lines.last(), lines.len() - 1, limits) == Ok::<
            (Seq<u8>, Seq<u8>),
            crate::header::Fault,
        >(last));
        assert(init.push(last) =~= entries);
    }
}

} // verus!
