//! Responses: the status line, the head of a response, and how its body is framed.

use crate::bytes::{
    all_ascii, decimal, eq, eq_ignore_case, find, first_index, first_occurrence, is_all_ascii,
    is_digit, is_first_index, is_first_occurrence, parse_decimal, position, trim_chars,
    trim_text, CR, LF, NINE, SPACE, ZERO,
};
use crate::error::{Cause, Error, ErrorKind, Transport};
use crate::header::{lookup, name_key, Headers};
use crate::readers::{ComboReader, ReadToEndIterator};
use std::io::Read;
use vstd::prelude::*;
use vstd::slice::{slice_subrange, slice_to_vec};
use vstd::string::StringSliceAdditionalSpecFns;
use vstd::utf8::{decode_utf8, encode_utf8, encode_utf8_decode_utf8, valid_utf8};

verus! {

/// The status codes that have a name here; the others are `Unsupported`.
#[derive(Clone, Copy, Debug, PartialEq, Eq, Structural)]
pub enum Status {
    Success,
    BadRequest,
    NotFound,
    InternalServerError,
    Unsupported,
}

impl Status {
    pub open spec fn of(n: u16) -> Status {
        if n == 200 {
            Status::Success
        } else if n == 400 {
            Status::BadRequest
        } else if n == 404 {
            Status::NotFound
        } else if n == 500 {
            Status::InternalServerError
        } else {
            Status::Unsupported
        }
    }

    pub open spec fn text_spec(self) -> Seq<char> {
        match self {
            Status::Success => "200 Ok"@,
            Status::BadRequest => "400 Bad Request"@,
            Status::NotFound => "404 Not Found"@,
            Status::InternalServerError => "500 Internal Server Error"@,
            Status::Unsupported => "Unknown"@,
        }
    }

    pub fn to_str(self) -> (r: &'static str)
        ensures
            r@ == self.text_spec(),
    {
        match self {
            Status::Success => "200 Ok",
            Status::BadRequest => "400 Bad Request",
            Status::NotFound => "404 Not Found",
            Status::InternalServerError => "500 Internal Server Error",
            Status::Unsupported => "Unknown",
        }
    }
}

impl From<u16> for Status {
    fn from(n: u16) -> (r: Status) {
        match n {
            200 => Status::Success,
            400 => Status::BadRequest,
            404 => Status::NotFound,
            500 => Status::InternalServerError,
            _ => Status::Unsupported,
        }
    }
}

impl vstd::std_specs::convert::FromSpecImpl<u16> for Status {
    open spec fn obeys_from_spec() -> bool {
        true
    }

    open spec fn from_spec(n: u16) -> Status {
        Status::of(n)
    }
}

/// The versions of HTTP that a status line may name.
#[derive(Clone, Copy, Debug, PartialEq, Eq, Structural)]
pub enum Version {
    Http10,
    Http11,
}

impl Version {
    /// The nine bytes that open a status line of this version: the
    /// version's name and a space.
    pub open spec fn prefix(self) -> Seq<u8> {
        match self {
            Version::Http10 => seq![72u8, 84u8, 84u8, 80u8, 47u8, 49u8, 46u8, 48u8, 32u8],
            Version::Http11 => seq![72u8, 84u8, 84u8, 80u8, 47u8, 49u8, 46u8, 49u8, 32u8],
        }
    }

    pub open spec fn text_spec(self) -> Seq<char> {
        match self {
            Version::Http10 => "HTTP/1.0"@,
            Version::Http11 => "HTTP/1.1"@,
        }
    }

    pub fn to_str(self) -> (r: &'static str)
        ensures
            r@ == self.text_spec(),
    {
        match self {
            Version::Http10 => "HTTP/1.0",
            Version::Http11 => "HTTP/1.1",
        }
    }
}

/// The version whose prefix `s` is.
pub open spec fn version_of(s: Seq<u8>) -> Option<Version> {
    if s == Version::Http11.prefix() {
        Some(Version::Http11)
    } else if s == Version::Http10.prefix() {
        Some(Version::Http10)
    } else {
        None
    }
}

/// What is wrong with a status line.
#[derive(Clone, Copy, Debug, PartialEq, Eq, Structural)]
pub enum StatusFault {
    /// Shorter than version, code and the two spaces.
    Length,
    Version,
    Code,
    /// A byte of the reason is not ASCII.
    Reason,
}

impl StatusFault {
    pub open spec fn error_spec(self) -> Error {
        Error::plain(
            ErrorKind::BadStatus,
            match self {
                StatusFault::Length => Some("Status line isn't formatted correctly"),
                StatusFault::Version => Some("HTTP version not formatted correctly"),
                StatusFault::Code => Some("HTTP status code must be a 3 digit number"),
                StatusFault::Reason => None,
            },
        )
    }

    pub fn error(self) -> (r: Error)
        ensures
            r == self.error_spec(),
    {
        match self {
            StatusFault::Length => ErrorKind::BadStatus.msg("Status line isn't formatted correctly"),
            StatusFault::Version => ErrorKind::BadStatus.msg("HTTP version not formatted correctly"),
            StatusFault::Code => ErrorKind::BadStatus.msg(
                "HTTP status code must be a 3 digit number",
            ),
            StatusFault::Reason => ErrorKind::BadStatus.new(),
        }
    }
}

/// A status line that was understood.
#[derive(Clone, Copy, Debug, PartialEq, Eq, Structural)]
pub struct StatusLine {
    pub version: Version,
    pub code: u16,
}

impl StatusLine {
    pub fn status(&self) -> (r: Status)
        ensures
            r == Status::of(self.code),
    {
        Status::from(self.code)
    }
}

/// The length of version, code and the two spaces: `HTTP/1.1 200 `.
pub const STATUS_LINE_MIN: usize = 13;

/// What a line of bytes is as a status line: `HTTP/1.1 ` or `HTTP/1.0 `,
/// three decimal digits, a space, and a reason of ASCII bytes, which may be
/// empty and may end in a line break.
pub open spec fn status_line_spec(s: Seq<u8>) -> Result<StatusLine, StatusFault> {
    if s.len() < STATUS_LINE_MIN {
        Err(StatusFault::Length)
    } else {
        match version_of(s.take(9)) {
            None => Err(StatusFault::Version),
            Some(version) => if !is_digit(s[9]) || !is_digit(s[10]) || !is_digit(s[11]) || s[12]
                != SPACE {
                Err(StatusFault::Code)
            } else if !all_ascii(s.skip(13)) {
                Err(StatusFault::Reason)
            } else {
                Ok(
                    StatusLine {
                        version,
                        code: ((s[9] - ZERO) * 100 + (s[10] - ZERO) * 10 + (s[11] - ZERO)) as u16,
                    },
                )
            },
        }
    }
}

fn version_at(s: &[u8]) -> (r: Option<Version>)
    requires
        s@.len() >= 9,
    ensures
        r == version_of(s@.take(9)),
{
    let ghost p = s@.take(9);
    let ghost v0 = Version::Http10.prefix();
    let ghost v1 = Version::Http11.prefix();
    if s[0] == 72 && s[1] == 84 && s[2] == 84 && s[3] == 80 && s[4] == 47 && s[5] == 49 && s[6]
        == 46 && s[8] == 32 {
        if s[7] == 49 {
            assert(p =~= v1);
            Some(Version::Http11)
        } else if s[7] == 48 {
            assert(p =~= v0);
            assert(v1[7] != p[7]);
            Some(Version::Http10)
        } else {
            assert(v1[7] != p[7] && v0[7] != p[7]);
            None
        }
    } else {
        proof {
            assert(p[0] == s@[0] && p[1] == s@[1] && p[2] == s@[2] && p[3] == s@[3] && p[4]
                == s@[4] && p[5] == s@[5] && p[6] == s@[6] && p[8] == s@[8]);
            assert(v0[0] == 72 && v0[1] == 84 && v0[2] == 84 && v0[3] == 80 && v0[4] == 47
                && v0[5] == 49 && v0[6] == 46 && v0[8] == 32);
            assert(v1[0] == 72 && v1[1] == 84 && v1[2] == 84 && v1[3] == 80 && v1[4] == 47
                && v1[5] == 49 && v1[6] == 46 && v1[8] == 32);
        }
        None
    }
}

fn digit_at(s: &[u8], i: usize) -> (r: Option<u16>)
    requires
        i < s@.len(),
    ensures
        r is Some <==> is_digit(s@[i as int]),
        r matches Some(d) ==> d == s@[i as int] - ZERO,
{
    let b = s[i];
    if ZERO <= b && b <= NINE {
        Some((b - ZERO) as u16)
    } else {
        None
    }
}

/// Reads a status line such as `HTTP/1.1 200 OK\r\n`.
pub fn parse_status_line_from_header(s: &[u8]) -> (r: Result<StatusLine, Error>)
    ensures
        match status_line_spec(s@) {
            Ok(line) => r matches Ok(l) && l == line,
            Err(f) => r matches Err(e) && e == f.error_spec(),
        },
{
    if s.len() < STATUS_LINE_MIN {
        return Err(StatusFault::Length.error());
    }
    let version = match version_at(s) {
        Some(v) => v,
        None => {
            return Err(StatusFault::Version.error());
        },
    };
    let code = match (digit_at(s, 9), digit_at(s, 10), digit_at(s, 11)) {
        (Some(a), Some(b), Some(c)) => a * 100 + b * 10 + c,
        _ => {
            return Err(StatusFault::Code.error());
        },
    };
    if s[12] != SPACE {
        return Err(StatusFault::Code.error());
    }
    let reason = slice_subrange(s, 13, s.len());
    assert(reason@ =~= s@.skip(13));
    if !is_all_ascii(reason) {
        return Err(StatusFault::Reason.error());
    }
    Ok(StatusLine { version, code })
}

/// The most bytes that the head of a response may take, its end included.
pub const HEAD_CAPACITY: usize = 16_384;

/// The empty line that ends the head: CR LF CR LF.
pub open spec fn head_end() -> Seq<u8> {
    seq![CR, LF, CR, LF]
}

/// The head of a response and what was read beyond it.
pub struct Buffer {
    buf: Vec<u8>,
    head_len: usize,
    carry_len: usize,
}

impl Buffer {
    #[verifier::type_invariant]
    closed spec fn inv(self) -> bool {
        self.head_len + 2 + self.carry_len == self.buf@.len()
    }

    /// Status line and header lines, each with its line break.
    pub closed spec fn head(self) -> Seq<u8> {
        self.buf@.take(self.head_len as int)
    }

    /// The bytes that came in behind the head: the carry-over.
    pub closed spec fn carry(self) -> Seq<u8> {
        self.buf@.skip(self.head_len + 2)
    }

    /// A buffer whose first `head_len` bytes are the head and whose last
    /// `carry_len` bytes are the carry-over, with the two bytes of the empty
    /// line between them. `None` where the three do not add up to `buf`.
    pub fn new(buf: Vec<u8>, head_len: usize, carry_len: usize) -> (r: Option<Buffer>)
        ensures
            match r {
                Some(b) => head_len + 2 + carry_len == buf@.len() && b.head() == buf@.take(
                    head_len as int,
                ) && b.carry() == buf@.skip(head_len + 2),
                None => head_len + 2 + carry_len != buf@.len(),
            },
    {
        let n = buf.len();
        if head_len <= n && n - head_len >= 2 && n - head_len - 2 == carry_len {
            Some(Buffer { buf, head_len, carry_len })
        } else {
            None
        }
    }

    pub fn head_bytes(&self) -> (r: &[u8])
        ensures
            r@ == self.head(),
    {
        proof {
            use_type_invariant(self);
        }
        slice_subrange(self.buf.as_slice(), 0, self.head_len)
    }

    pub fn carry_bytes(&self) -> (r: &[u8])
        ensures
            r@ == self.carry(),
    {
        proof {
            use_type_invariant(self);
        }
        let n = self.buf.len();
        slice_subrange(self.buf.as_slice(), self.head_len + 2, n)
    }
}

/// Why no head could be read.
#[derive(Clone, Copy, Debug, PartialEq, Eq, Structural)]
pub enum HeadFault {
    /// No end of the head within `HEAD_CAPACITY` bytes.
    TooLarge,
    /// The stream ended before the head did.
    Eof,
}

impl HeadFault {
    pub open spec fn error_spec(self) -> Error {
        Error::plain(
            ErrorKind::Io,
            Some(
                match self {
                    HeadFault::TooLarge => "Failed to fetch HTTP headers in given buffer",
                    HeadFault::Eof => "Unexpected end of stream in HTTP headers",
                },
            ),
        )
    }

    pub fn error(self) -> (r: Error)
        ensures
            r == self.error_spec(),
    {
        match self {
            HeadFault::TooLarge => ErrorKind::Io.msg("Failed to fetch HTTP headers in given buffer"),
            HeadFault::Eof => ErrorKind::Io.msg("Unexpected end of stream in HTTP headers"),
        }
    }
}

/// Where the head ends in what has been read so far: the place of the first
/// empty line, if it lies within `HEAD_CAPACITY`. Without one, the head is
/// too large once that many bytes are there, the stream has failed if it has
/// ended, and otherwise more has to be read (`Ok(None)`).
pub open spec fn head_spec(data: Seq<u8>, eof: bool) -> Result<Option<int>, HeadFault> {
    match first_occurrence(data, head_end()) {
        Some(i) if i + 4 <= HEAD_CAPACITY => Ok(Some(i)),
        _ => if data.len() >= HEAD_CAPACITY {
            Err(HeadFault::TooLarge)
        } else if eof {
            Err(HeadFault::Eof)
        } else {
            Ok(None)
        },
    }
}

/// Looks for the end of the head in the bytes read so far. `eof` says that
/// the stream has ended behind them. The head that is handed out holds the
/// status line and the header lines; the carry-over holds every byte behind
/// the empty line, in order.
pub fn read_status_and_headers(data: &[u8], eof: bool) -> (r: Result<Option<Buffer>, Error>)
    ensures
        match head_spec(data@, eof) {
            Ok(Some(i)) => r matches Ok(Some(b)) && b.head() == data@.take(i + 2) && b.carry()
                == data@.skip(i + 4),
            Ok(None) => r matches Ok(None),
            Err(f) => r matches Err(e) && e == f.error_spec(),
        },
{
    let end: Vec<u8> = vec![CR, LF, CR, LF];
    assert(end@ =~= head_end());
    match find(data, end.as_slice()) {
        Some(i) if i <= HEAD_CAPACITY - 4 => {
            assert(is_first_occurrence(data@, head_end(), i as int));
            let b = Buffer {
                buf: slice_to_vec(data),
                head_len: i + 2,
                carry_len: data.len() - (i + 4),
            };
            Ok(Some(b))
        },
        _ => {
            if data.len() >= HEAD_CAPACITY {
                Err(HeadFault::TooLarge.error())
            } else if eof {
                Err(HeadFault::Eof.error())
            } else {
                Ok(None)
            }
        },
    }
}

/// The reads that fetch the head of a response: they fill a buffer of
/// `HEAD_CAPACITY` bytes until the empty line is in it.
pub struct HeadReader {
    it: ReadToEndIterator,
}

impl HeadReader {
    /// What the reads have given so far.
    pub closed spec fn data(self) -> Seq<u8> {
        self.it.data()
    }

    /// No more has been taken in than the buffer holds.
    pub closed spec fn wf(self) -> bool {
        self.it.wf() && self.it.capacity() == HEAD_CAPACITY
    }

    pub fn new() -> (r: Self)
        ensures
            r.wf(),
            r.data() == Seq::<u8>::empty(),
    {
        HeadReader { it: ReadToEndIterator::new(HEAD_CAPACITY) }
    }

    /// How many bytes to ask the stream for.
    pub fn room(&self) -> (r: usize)
        requires
            self.wf(),
        ensures
            r == HEAD_CAPACITY - self.data().len(),
    {
        self.it.room()
    }

    /// Takes in what one read gave and looks for the end of the head. A
    /// read that gave nothing is the end of the stream. `Ok(None)` asks for
    /// another read.
    pub fn feed(&mut self, read: Result<&[u8], Cause>) -> (r: Result<Option<Buffer>, Error>)
        requires
            old(self).wf(),
            read matches Ok(b) ==> b@.len() <= HEAD_CAPACITY - old(self).data().len(),
        ensures
            final(self).wf(),
            match read {
                Err(c) => final(self).data() == old(self).data() && (r matches Err(e) && e
                    == Error::Transport(
                    Transport { kind: ErrorKind::Io, message: None, source: Some(c) },
                )),
                Ok(b) => final(self).data() == old(self).data() + b@ && match head_spec(
                    final(self).data(),
                    b@.len() == 0,
                ) {
                    Ok(Some(i)) => r matches Ok(Some(buf)) && buf.head() == final(self).data().take(
                        i + 2,
                    ) && buf.carry() == final(self).data().skip(i + 4),
                    Ok(None) => r matches Ok(None),
                    Err(f) => r matches Err(e) && e == f.error_spec(),
                },
            },
    {
        match self.it.next(read) {
            Some(Err(c)) => Err(ErrorKind::Io.new().src(c)),
            Some(Ok(_)) => read_status_and_headers(self.it.bytes(), false),
            None => read_status_and_headers(self.it.bytes(), true),
        }
    }
}

/// `std::str::from_utf8`: the bytes as text, where they are valid UTF-8, and
/// `None` where they are not.
#[verifier::external_body]
fn text_of(bytes: &[u8]) -> (r: Option<&str>)
    ensures
        r is Some <==> valid_utf8(bytes@),
        r matches Some(s) ==> s.spec_bytes() == bytes@,
{
    std::str::from_utf8(bytes).ok()
}

/// The value of the first header named `name` as text, if that value is
/// valid UTF-8: its characters without the white space at either end.
pub open spec fn header_text(entries: Seq<(Seq<u8>, Seq<u8>)>, name: Seq<char>) -> Option<
    Seq<char>,
> {
    match lookup(entries, name_key(name)) {
        Some(v) if valid_utf8(v) => Some(trim_chars(decode_utf8(v))),
        _ => None,
    }
}

/// How the body of a response is delimited.
#[derive(Clone, Copy, Debug, PartialEq, Eq, Structural)]
pub enum BodyFraming {
    Chunked,
    FixedLength(u64),
    UntilClose,
}

/// Whether a header's value is the word `token`, whatever the case.
pub open spec fn is_token(value: Option<Seq<char>>, token: Seq<u8>) -> bool {
    match value {
        Some(v) => eq_ignore_case(encode_utf8(v), token),
        None => false,
    }
}

/// The number that a header's value writes, if it writes one.
pub open spec fn length_of(value: Option<Seq<char>>) -> Option<u64> {
    match value {
        Some(l) => match decimal(encode_utf8(l), u64::MAX as nat) {
            Some(n) => Some(n as u64),
            None => None,
        },
        None => None,
    }
}

/// How the body of a response is framed, decided in this order. A response
/// to `HEAD`, and one with status 204 or 304, has no body. A response of
/// HTTP/1.0 that does not say `Connection: keep-alive`, and any response that
/// says `Connection: close`, runs until the stream ends. A response with a
/// `Transfer-Encoding` that is not empty is chunked. A response with a
/// `Content-Length` that is a number has that many bytes. Any other runs
/// until the stream ends.
pub open spec fn framing_spec(
    version: Version,
    code: u16,
    to_head: bool,
    entries: Seq<(Seq<u8>, Seq<u8>)>,
) -> BodyFraming {
    let connection = header_text(entries, "connection"@);
    let encoding = header_text(entries, "transfer-encoding"@);
    let length = length_of(header_text(entries, "content-length"@));
    if to_head || code == 204 || code == 304 {
        BodyFraming::FixedLength(0)
    } else if version == Version::Http10 && !is_token(connection, "keep-alive".spec_bytes()) {
        BodyFraming::UntilClose
    } else if is_token(connection, "close".spec_bytes()) {
        BodyFraming::UntilClose
    } else if encoding is Some && encoding->0.len() > 0 {
        BodyFraming::Chunked
    } else {
        match length {
            Some(n) => BodyFraming::FixedLength(n),
            None => BodyFraming::UntilClose,
        }
    }
}

/// What a head of bytes is as a response: the status line up to the first
/// line feed, then the header block.
pub open spec fn response_spec(head: Seq<u8>) -> Result<
    (StatusLine, Seq<(Seq<u8>, Seq<u8>)>),
    Error,
> {
    match first_index(head, LF) {
        None => Err(Error::plain(ErrorKind::BadStatus, Some("Missing Status Line"))),
        Some(i) => match status_line_spec(head.take(i + 1)) {
            Err(f) => Err(f.error_spec()),
            Ok(line) => match crate::header::parse_spec(
                head.skip(i + 1),
                Headers::default_limits(),
            ) {
                Err(f) => Err(f.error_spec()),
                Ok(entries) => Ok((line, entries)),
            },
        },
    }
}

/// A response whose head has been read. The body has not: what came in
/// behind the head waits in the reader.
pub struct Response {
    line: StatusLine,
    headers: Headers,
    reader: ComboReader,
    to_head: bool,
}

impl Response {
    pub closed spec fn line(self) -> StatusLine {
        self.line
    }

    pub closed spec fn entries(self) -> Seq<(Seq<u8>, Seq<u8>)> {
        self.headers@
    }

    /// The bytes that came in behind the head and have not been handed on.
    pub closed spec fn carry(self) -> Seq<u8> {
        self.reader.remaining()
    }

    /// Whether this answers a `HEAD` request.
    pub closed spec fn to_head(self) -> bool {
        self.to_head
    }

    pub open spec fn framing_spec(self) -> BodyFraming {
        framing_spec(self.line().version, self.line().code, self.to_head(), self.entries())
    }

    /// Reads status line and headers out of a head. `to_head` says that the
    /// request was a `HEAD`.
    pub fn do_from_stream(b: Buffer, to_head: bool) -> (r: Result<Response, Error>)
        ensures
            match response_spec(b.head()) {
                Ok((line, entries)) => r matches Ok(resp) && resp.line() == line && resp.entries()
                    == entries && resp.carry() == b.carry() && resp.to_head() == to_head,
                Err(e) => r matches Err(err) && err == e,
            },
    {
        let head = b.head_bytes();
        let i = match position(head, LF) {
            Some(i) => i,
            None => {
                return Err(ErrorKind::BadStatus.msg("Missing Status Line"));
            },
        };
        assert(is_first_index(head@, LF, i as int));
        assert(i < head.len());
        let status_line = slice_subrange(head, 0, i + 1);
        let line = match parse_status_line_from_header(status_line) {
            Ok(line) => line,
            Err(e) => {
                return Err(e);
            },
        };
        let rest = slice_subrange(head, i + 1, head.len());
        assert(rest@ =~= head@.skip(i + 1));
        let headers = match Headers::parse(rest) {
            Ok(h) => h,
            Err(e) => {
                return Err(e);
            },
        };
        let reader = ComboReader::new(slice_to_vec(b.carry_bytes()));
        Ok(Response { line, headers, reader, to_head })
    }

    pub fn status(&self) -> (r: Status)
        ensures
            r == Status::of(self.line().code),
    {
        self.line.status()
    }

    /// The three digits of the status line as a number.
    pub fn code(&self) -> (r: u16)
        ensures
            r == self.line().code,
    {
        self.line.code
    }

    pub fn version(&self) -> (r: Version)
        ensures
            r == self.line().version,
    {
        self.line.version
    }

    /// The value of the first header named `name`, as text and without the
    /// white space at either end. A value that is not valid UTF-8 is kept
    /// among the headers but is not handed out here.
    pub fn header(&self, name: &str) -> (r: Option<&str>)
        ensures
            match header_text(self.entries(), name@) {
                Some(v) => r matches Some(s) && s@ == v,
                None => r is None,
            },
    {
        match self.headers.header(name) {
            Some(b) => match text_of(b) {
                Some(s) => {
                    proof {
                        encode_utf8_decode_utf8(s@);
                    }
                    Some(trim_text(s))
                },
                None => None,
            },
            None => None,
        }
    }

    /// How the body is framed.
    pub fn framing(&self) -> (r: BodyFraming)
        ensures
            r == self.framing_spec(),
    {
        if self.to_head || self.line.code == 204 || self.line.code == 304 {
            return BodyFraming::FixedLength(0);
        }
        let connection = self.header("connection");
        let keep_alive = match connection {
            Some(c) => eq(c.as_bytes(), "keep-alive".as_bytes()),
            None => false,
        };
        if self.line.version == Version::Http10 && !keep_alive {
            return BodyFraming::UntilClose;
        }
        let is_close = match connection {
            Some(c) => eq(c.as_bytes(), "close".as_bytes()),
            None => false,
        };
        if is_close {
            return BodyFraming::UntilClose;
        }
        let use_chunked = match self.header("transfer-encoding") {
            Some(e) => !e.is_empty(),
            None => false,
        };
        if use_chunked {
            return BodyFraming::Chunked;
        }
        let limit_bytes = match self.header("content-length") {
            Some(l) => parse_decimal(l.as_bytes(), u64::MAX),
            None => None,
        };
        match limit_bytes {
            Some(n) => BodyFraming::FixedLength(n),
            None => BodyFraming::UntilClose,
        }
    }

    /// Turns this response into the reader of its body.
    pub fn into_reader(self) -> (r: ResponseReader)
        ensures
            r.framing_view() == self.framing_spec(),
            r.carry() == self.carry(),
    {
        let framing = self.framing();
        ResponseReader { framing, carry: self.reader.into_remaining() }
    }
}

/// What the chunk decoder made of a string of bytes that it read to its end.
pub struct Dechunked {
    /// The payload of the chunks.
    pub body: Vec<u8>,
    /// How much of a chunk was still missing when the bytes ran out; `None`
    /// where the decoder stopped between chunks.
    pub pending: Option<usize>,
    /// How many bytes at the end of the input the decoder did not touch.
    pub rest: usize,
}

impl Dechunked {
    pub open spec fn as_tuple(self) -> (Seq<u8>, Option<usize>, nat) {
        (self.body@, self.pending, self.rest as nat)
    }
}

/// What the chunk decoder makes of `input`: payload, missing part of a
/// chunk, untouched bytes. Where it reports an error: how many bytes at the
/// end of the input it had not touched when it did.
pub uninterp spec fn chunk_decoding(input: Seq<u8>) -> Result<
    (Seq<u8>, Option<usize>, nat),
    nat,
>;

/// `chunked_transfer::Decoder` over the bytes of `input`, read to the end
/// with `read_to_end`, then asked for `remaining_chunks_size` and, through
/// `into_inner`, for what it left of the input; after an error only for what
/// it left. Claimed: the outcome depends on the input alone, and what is
/// left is no longer than the input.
#[verifier::external_body]
fn decode_chunks(input: &[u8]) -> (r: Result<Dechunked, usize>)
    ensures
        match r {
            Ok(d) => chunk_decoding(input@) == Ok::<(Seq<u8>, Option<usize>, nat), nat>(
                d.as_tuple(),
            ) && d.rest <= input@.len(),
            Err(left) => chunk_decoding(input@) == Err::<(Seq<u8>, Option<usize>, nat), nat>(
                left as nat,
            ) && left <= input@.len(),
        },
{
    let mut decoder = chunked_transfer::Decoder::new(input);
    let mut body = Vec::new();
    match decoder.read_to_end(&mut body) {
        Ok(_) => {
            let pending = decoder.remaining_chunks_size();
            Ok(Dechunked { body, pending, rest: decoder.into_inner().len() })
        },
        Err(_) => Err(decoder.into_inner().len()),
    }
}

/// Why a body could not be read.
#[derive(Clone, Copy, Debug, PartialEq, Eq, Structural)]
pub enum BodyFault {
    /// The stream ended before the body did.
    UnexpectedEof,
    /// The bytes are no chunks.
    Chunks,
    /// The body is longer than the buffer that it is meant for.
    TooLarge,
}

impl BodyFault {
    pub open spec fn error_spec(self) -> Error {
        Error::plain(
            ErrorKind::Io,
            Some(
                match self {
                    BodyFault::UnexpectedEof => "Unexpected end of stream in body",
                    BodyFault::Chunks => "Error while decoding chunks",
                    BodyFault::TooLarge => "Body larger than the buffer",
                },
            ),
        )
    }

    pub fn error(self) -> (r: Error)
        ensures
            r == self.error_spec(),
    {
        match self {
            BodyFault::UnexpectedEof => ErrorKind::Io.msg("Unexpected end of stream in body"),
            BodyFault::Chunks => ErrorKind::Io.msg("Error while decoding chunks"),
            BodyFault::TooLarge => ErrorKind::Io.msg("Body larger than the buffer"),
        }
    }
}

/// A body, and the bytes that came in behind it.
pub struct Body {
    pub bytes: Vec<u8>,
    pub rest: Vec<u8>,
}

/// The body in `bytes`, which is everything that has come in behind the
/// head, and what follows the body. `eof` says that the stream has ended;
/// `decoding` is what the chunk decoder makes of `bytes`. `Ok(None)` stands
/// for a body that is not complete yet.
///
/// A body of fixed length is the first so many bytes, and an error if the
/// stream ends before they are there. A body until close is everything, once
/// the stream has ended. A chunked body is what the decoder hands out when it
/// has seen the last chunk. Chunked bytes that the decoder refuses before it
/// has come to their end are refused at once; where it has come to their
/// end, more may follow, and they are refused when the stream ends.
pub open spec fn body_spec(
    framing: BodyFraming,
    bytes: Seq<u8>,
    eof: bool,
    decoding: Result<(Seq<u8>, Option<usize>, nat), nat>,
) -> Result<Option<(Seq<u8>, Seq<u8>)>, BodyFault> {
    match framing {
        BodyFraming::FixedLength(n) => if bytes.len() >= n {
            Ok(Some((bytes.take(n as int), bytes.skip(n as int))))
        } else if eof {
            Err(BodyFault::UnexpectedEof)
        } else {
            Ok(None)
        },
        BodyFraming::UntilClose => if eof {
            Ok(Some((bytes, Seq::<u8>::empty())))
        } else {
            Ok(None)
        },
        BodyFraming::Chunked => match decoding {
            Ok((body, None, rest)) if rest <= bytes.len() => Ok(
                Some((body, bytes.skip(bytes.len() - rest))),
            ),
            Ok((_, Some(_), _)) => if eof {
                Err(BodyFault::UnexpectedEof)
            } else {
                Ok(None)
            },
            Err(left) if left > 0 => Err(BodyFault::Chunks),
            _ => if eof {
                Err(BodyFault::Chunks)
            } else {
                Ok(None)
            },
        },
    }
}

/// A body of fixed length is its first bytes and no more: what follows is
/// left as it is, so that body and rest together are the bytes that came in.
pub proof fn lemma_fixed_length_keeps_rest(
    bytes: Seq<u8>,
    n: u64,
    eof: bool,
    decoding: Result<(Seq<u8>, Option<usize>, nat), nat>,
)
    requires
        n <= bytes.len(),
    ensures
        body_spec(BodyFraming::FixedLength(n), bytes, eof, decoding) matches Ok(Some((body, rest)))
            && body.len() == n && body + rest == bytes,
{
    assert(bytes.take(n as int) + bytes.skip(n as int) =~= bytes);
}

/// The rest behind a body, where the body is complete.
pub open spec fn rest_spec(
    framing: BodyFraming,
    bytes: Seq<u8>,
    eof: bool,
    decoding: Result<(Seq<u8>, Option<usize>, nat), nat>,
) -> Option<Seq<u8>> {
    match body_spec(framing, bytes, eof, decoding) {
        Ok(Some(pair)) => Some(pair.1),
        _ => None,
    }
}

/// Whatever the framing, the rest behind a body is the end of the bytes
/// that came in: nothing is made up, and nothing of it is lost.
pub proof fn lemma_rest_is_suffix(
    framing: BodyFraming,
    bytes: Seq<u8>,
    eof: bool,
    decoding: Result<(Seq<u8>, Option<usize>, nat), nat>,
)
    requires
        rest_spec(framing, bytes, eof, decoding) is Some,
    ensures
        rest_spec(framing, bytes, eof, decoding) matches Some(rest) && rest.len() <= bytes.len()
            && rest == bytes.skip(bytes.len() - rest.len()),
{
    match framing {
        BodyFraming::UntilClose => {
            assert(bytes.skip(bytes.len() as int) =~= Seq::<u8>::empty());
        },
        _ => {},
    }
}

/// Cuts the body out of `bytes`, given what the chunk decoder made of them.
pub fn frame_body(
    framing: BodyFraming,
    bytes: &[u8],
    eof: bool,
    decoded: Result<Dechunked, usize>,
) -> (r: Result<Option<Body>, Error>)
    ensures
        match body_spec(
            framing,
            bytes@,
            eof,
            match decoded {
                Ok(d) => Ok(d.as_tuple()),
                Err(left) => Err(left as nat),
            },
        ) {
            Ok(Some((body, rest))) => r matches Ok(Some(b)) && b.bytes@ == body && b.rest@ == rest,
            Ok(None) => r matches Ok(None),
            Err(f) => r matches Err(e) && e == f.error_spec(),
        },
{
    let len = bytes.len();
    match framing {
        BodyFraming::FixedLength(n) => {
            if len as u64 >= n {
                let cut = n as usize;
                let body = slice_to_vec(slice_subrange(bytes, 0, cut));
                let rest = slice_to_vec(slice_subrange(bytes, cut, len));
                Ok(Some(Body { bytes: body, rest }))
            } else if eof {
                Err(BodyFault::UnexpectedEof.error())
            } else {
                Ok(None)
            }
        },
        BodyFraming::UntilClose => {
            if eof {
                let body = slice_to_vec(bytes);
                Ok(Some(Body { bytes: body, rest: Vec::new() }))
            } else {
                Ok(None)
            }
        },
        BodyFraming::Chunked => {
            match decoded {
                Ok(d) => {
                    match d.pending {
                        None => {
                            if d.rest <= len {
                                let rest = slice_to_vec(slice_subrange(bytes, len - d.rest, len));
                                Ok(Some(Body { bytes: d.body, rest }))
                            } else if eof {
                                Err(BodyFault::Chunks.error())
                            } else {
                                Ok(None)
                            }
                        },
                        Some(_) => {
                            if eof {
                                Err(BodyFault::UnexpectedEof.error())
                            } else {
                                Ok(None)
                            }
                        },
                    }
                },
                Err(left) => {
                    if left > 0 || eof {
                        Err(BodyFault::Chunks.error())
                    } else {
                        Ok(None)
                    }
                },
            }
        },
    }
}

/// Cuts the body out of `bytes`, which is everything that has come in behind
/// the head. Chunked bytes go through the chunk decoder first.
pub fn read_body(framing: BodyFraming, bytes: &[u8], eof: bool) -> (r: Result<Option<Body>, Error>)
    ensures
        match body_spec(framing, bytes@, eof, chunk_decoding(bytes@)) {
            Ok(Some((body, rest))) => r matches Ok(Some(b)) && b.bytes@ == body && b.rest@ == rest,
            Ok(None) => r matches Ok(None),
            Err(f) => r matches Err(e) && e == f.error_spec(),
        },
{
    match framing {
        BodyFraming::Chunked => frame_body(framing, bytes, eof, decode_chunks(bytes)),
        _ => frame_body(framing, bytes, eof, Err(0)),
    }
}

/// It is certain that the body is longer than `room` bytes: its length is
/// announced as more, or it runs until the stream ends and more is there.
pub open spec fn outgrows(framing: BodyFraming, bytes: Seq<u8>, room: nat) -> bool {
    match framing {
        BodyFraming::FixedLength(n) => n > room,
        BodyFraming::UntilClose => bytes.len() > room,
        BodyFraming::Chunked => false,
    }
}

/// The body in `bytes` for a buffer of `room` bytes: as `body_spec` has it,
/// but a body that is longer than the buffer is an error, as soon as that
/// is certain and at the latest when the body is complete. Nothing is cut.
pub open spec fn fitted_spec(
    framing: BodyFraming,
    bytes: Seq<u8>,
    eof: bool,
    decoding: Result<(Seq<u8>, Option<usize>, nat), nat>,
    room: nat,
) -> Result<Option<(Seq<u8>, Seq<u8>)>, BodyFault> {
    if outgrows(framing, bytes, room) {
        Err(BodyFault::TooLarge)
    } else {
        match body_spec(framing, bytes, eof, decoding) {
            Ok(Some((body, rest))) => if body.len() > room {
                Err(BodyFault::TooLarge)
            } else {
                Ok(Some((body, rest)))
            },
            Ok(None) => Ok(None),
            Err(f) => Err(f),
        }
    }
}

/// A body that is handed out for a buffer fits it; one that is longer is
/// an error. No body is handed out in part.
pub proof fn lemma_fitted_body_fits(
    framing: BodyFraming,
    bytes: Seq<u8>,
    eof: bool,
    decoding: Result<(Seq<u8>, Option<usize>, nat), nat>,
    room: nat,
)
    ensures
        match body_spec(framing, bytes, eof, decoding) {
            Ok(Some((body, rest))) => if body.len() <= room {
                fitted_spec(framing, bytes, eof, decoding, room) == Ok::<
                    Option<(Seq<u8>, Seq<u8>)>,
                    BodyFault,
                >(Some((body, rest)))
            } else {
                fitted_spec(framing, bytes, eof, decoding, room) == Err::<
                    Option<(Seq<u8>, Seq<u8>)>,
                    BodyFault,
                >(BodyFault::TooLarge)
            },
            _ => true,
        },
{
}

/// Cuts the body out of `bytes` for a buffer that holds `room` bytes. A
/// body that does not fit is an error; it is never cut short.
pub fn read_body_into(framing: BodyFraming, bytes: &[u8], eof: bool, room: usize) -> (r: Result<
    Option<Body>,
    Error,
>)
    ensures
        match fitted_spec(framing, bytes@, eof, chunk_decoding(bytes@), room as nat) {
            Ok(Some((body, rest))) => r matches Ok(Some(b)) && b.bytes@ == body && b.rest@ == rest,
            Ok(None) => r matches Ok(None),
            Err(f) => r matches Err(e) && e == f.error_spec(),
        },
{
    let certain = match framing {
        BodyFraming::FixedLength(n) => n > room as u64,
        BodyFraming::UntilClose => bytes.len() > room,
        BodyFraming::Chunked => false,
    };
    if certain {
        return Err(BodyFault::TooLarge.error());
    }
    match read_body(framing, bytes, eof) {
        Ok(Some(b)) => {
            if b.bytes.len() > room {
                Err(BodyFault::TooLarge.error())
            } else {
                Ok(Some(b))
            }
        },
        Ok(None) => Ok(None),
        Err(e) => Err(e),
    }
}

/// The reader of a response's body: the framing that was decided for it,
/// and the bytes that had already come in behind the head.
pub struct ResponseReader {
    framing: BodyFraming,
    carry: Vec<u8>,
}

impl ResponseReader {
    pub closed spec fn framing_view(self) -> BodyFraming {
        self.framing
    }

    pub closed spec fn carry(self) -> Seq<u8> {
        self.carry@
    }

    pub fn framing(&self) -> (r: BodyFraming)
        ensures
            r == self.framing_view(),
    {
        self.framing
    }

    /// Reads the body into a buffer that holds `room` bytes. `received` is
    /// everything that the stream has given since the head was read, `eof`
    /// says that the stream has ended. The body is cut out of the carry-over
    /// followed by `received`. A body that is longer than the buffer is an
    /// error; it is never cut short.
    pub fn read_to_end(&self, received: &[u8], eof: bool, room: usize) -> (r: Result<
        Option<Body>,
        Error,
    >)
        ensures
            match fitted_spec(
                self.framing_view(),
                self.carry() + received@,
                eof,
                chunk_decoding(self.carry() + received@),
                room as nat,
            ) {
                Ok(Some((body, rest))) => r matches Ok(Some(b)) && b.bytes@ == body && b.rest@
                    == rest,
                Ok(None) => r matches Ok(None),
                Err(f) => r matches Err(e) && e == f.error_spec(),
            },
    {
        let mut all: Vec<u8> = Vec::new();
        all.extend_from_slice(self.carry.as_slice());
        all.extend_from_slice(received);
        assert(all@ =~= self.carry@ + received@);
        read_body_into(self.framing, all.as_slice(), eof, room)
    }
}

} // verus!
