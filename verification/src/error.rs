//! The errors that a request can end in.

use crate::url::Error as ParseError;
use vstd::prelude::*;

verus! {

/// One of the kinds of error that can occur while a request is processed.
#[derive(Debug, PartialEq, Eq, Clone, Copy, Structural)]
pub enum ErrorKind {
    /// The url could not be understood.
    InvalidUrl,
    /// The url scheme could not be understood.
    UnknownScheme,
    /// DNS lookup failed.
    Dns,
    /// Connection to server failed.
    ConnectionFailed,
    /// Too many redirects.
    TooManyRedirects,
    /// A status line we don't understand `HTTP/1.1 200 OK`.
    BadStatus,
    /// A header line that couldn't be parsed.
    BadHeader,
    /// Some unspecified I/O failure, a timeout among them.
    Io,
    /// Proxy information was not properly formatted.
    InvalidProxyUrl,
    /// Proxy could not connect.
    ProxyConnect,
    /// Incorrect credentials for proxy.
    ProxyUnauthorized,
    /// HTTP status code indicating an error (4xx, 5xx).
    HTTP,
}

/// What lies underneath a transport error.
#[derive(Debug, Clone)]
pub enum Cause {
    /// The URL parser's verdict.
    Url(ParseError),
    /// The text of a failure reported by the operating system or the TLS layer.
    Io(String),
}

/// Any error that is not a status code error: a name that does not resolve,
/// a refused connection, a malformed response.
#[derive(Debug, Clone)]
pub struct Transport {
    pub kind: ErrorKind,
    pub message: Option<&'static str>,
    pub source: Option<Cause>,
}

#[derive(Debug, Clone)]
pub enum Error {
    /// There was an error making the request or receiving the response.
    Transport(Transport),
    /// Url Error
    ParseError(ParseError),
}

impl ErrorKind {
    /// The words that stand for this kind in a message.
    pub open spec fn text_spec(self) -> Seq<char> {
        match self {
            ErrorKind::InvalidUrl => "Bad URL"@,
            ErrorKind::UnknownScheme => "Unknown Scheme"@,
            ErrorKind::Dns => "Dns Failed"@,
            ErrorKind::ConnectionFailed => "Connection Failed"@,
            ErrorKind::TooManyRedirects => "Too Many Redirects"@,
            ErrorKind::BadStatus => "Bad Status"@,
            ErrorKind::BadHeader => "Bad Header"@,
            ErrorKind::Io => "Network Error"@,
            ErrorKind::InvalidProxyUrl => "Malformed proxy"@,
            ErrorKind::ProxyConnect => "Proxy failed to connect"@,
            ErrorKind::ProxyUnauthorized => "Provided proxy credentials are incorrect"@,
            ErrorKind::HTTP => "HTTP status error"@,
        }
    }

    pub fn text(self) -> (r: &'static str)
        ensures
            r@ == self.text_spec(),
    {
        match self {
            ErrorKind::InvalidUrl => "Bad URL",
            ErrorKind::UnknownScheme => "Unknown Scheme",
            ErrorKind::Dns => "Dns Failed",
            ErrorKind::ConnectionFailed => "Connection Failed",
            ErrorKind::TooManyRedirects => "Too Many Redirects",
            ErrorKind::BadStatus => "Bad Status",
            ErrorKind::BadHeader => "Bad Header",
            ErrorKind::Io => "Network Error",
            ErrorKind::InvalidProxyUrl => "Malformed proxy",
            ErrorKind::ProxyConnect => "Proxy failed to connect",
            ErrorKind::ProxyUnauthorized => "Provided proxy credentials are incorrect",
            ErrorKind::HTTP => "HTTP status error",
        }
    }

    /// An error of this kind with neither message nor source.
    #[allow(clippy::wrong_self_convention)]
    #[allow(clippy::new_ret_no_self)]
    pub fn new(self) -> (r: Error)
        ensures
            r == Error::plain(self, None),
    {
        Error::new(self, None)
    }

    /// An error of this kind with the message `s`.
    pub fn msg(self, s: &'static str) -> (r: Error)
        ensures
            r == Error::plain(self, Some(s)),
    {
        Error::new(self, Some(s))
    }
}

impl Cause {
    pub open spec fn text_spec(self) -> Seq<char> {
        match self {
            Cause::Url(e) => e.name_spec(),
            Cause::Io(s) => s@,
        }
    }

    pub fn to_text(&self) -> (r: String)
        ensures
            r@ == self.text_spec(),
    {
        match self {
            Cause::Url(e) => String::from_str(e.name()),
            Cause::Io(s) => s.clone(),
        }
    }
}

impl Transport {
    /// Kind, then message, then source, each after the first behind `": "`.
    pub open spec fn text_spec(self) -> Seq<char> {
        self.kind.text_spec() + (match self.message {
            Some(m) => ": "@ + m@,
            None => Seq::<char>::empty(),
        }) + (match self.source {
            Some(c) => ": "@ + c.text_spec(),
            None => Seq::<char>::empty(),
        })
    }

    pub fn to_text(&self) -> (r: String)
        ensures
            r@ == self.text_spec(),
    {
        let mut out = String::from_str(self.kind.text());
        if let Some(m) = self.message {
            out.append(": ");
            out.append(m);
        }
        if let Some(c) = &self.source {
            let t = c.to_text();
            out.append(": ");
            out.append(t.as_str());
        }
        proof {
            assert(out@ =~= self.text_spec());
        }
        out
    }
}

impl Error {
    /// The transport error of kind `kind` with `message` and no source.
    pub open spec fn plain(kind: ErrorKind, message: Option<&'static str>) -> Error {
        Error::Transport(Transport { kind, message, source: None })
    }

    /// What the URL parser's verdict `e` becomes for the caller of a request.
    pub open spec fn invalid_url(e: ParseError) -> Error {
        Error::Transport(
            Transport {
                kind: ErrorKind::InvalidUrl,
                message: Some("Failed to parse URL"),
                source: Some(Cause::Url(e)),
            },
        )
    }

    pub open spec fn kind_spec(self) -> ErrorKind {
        match self {
            Error::Transport(t) => t.kind,
            Error::ParseError(_) => ErrorKind::InvalidUrl,
        }
    }

    pub open spec fn text_spec(self) -> Seq<char> {
        match self {
            Error::Transport(t) => t.text_spec(),
            Error::ParseError(e) => e.name_spec(),
        }
    }

    pub fn new(kind: ErrorKind, message: Option<&'static str>) -> (r: Error)
        ensures
            r == Error::plain(kind, message),
    {
        Error::Transport(Transport { kind, message, source: None })
    }

    /// Puts `cause` underneath a transport error; any other error stays as it is.
    pub fn src(self, cause: Cause) -> (r: Error)
        ensures
            r == match self {
                Error::Transport(t) => Error::Transport(
                    Transport { kind: t.kind, message: t.message, source: Some(cause) },
                ),
                Error::ParseError(e) => Error::ParseError(e),
            },
    {
        match self {
            Error::Transport(t) => Error::Transport(
                Transport { kind: t.kind, message: t.message, source: Some(cause) },
            ),
            Error::ParseError(e) => Error::ParseError(e),
        }
    }

    /// The type of this error.
    pub fn kind(&self) -> (r: ErrorKind)
        ensures
            r == self.kind_spec(),
    {
        match self {
            Error::Transport(t) => t.kind,
            Error::ParseError(_) => ErrorKind::InvalidUrl,
        }
    }

    /// The message of a transport error, if it has one.
    pub fn message(&self) -> (r: Option<&'static str>)
        ensures
            r == match *self {
                Error::Transport(t) => t.message,
                Error::ParseError(_) => None,
            },
    {
        match self {
            Error::Transport(t) => t.message,
            Error::ParseError(_) => None,
        }
    }

    /// The whole error as one line of text.
    pub fn to_text(&self) -> (r: String)
        ensures
            r@ == self.text_spec(),
    {
        match self {
            Error::Transport(t) => t.to_text(),
            Error::ParseError(e) => String::from_str(e.name()),
        }
    }
}

impl From<Transport> for Error {
    fn from(err: Transport) -> (r: Error) {
        Error::Transport(err)
    }
}

impl vstd::std_specs::convert::FromSpecImpl<Transport> for Error {
    open spec fn obeys_from_spec() -> bool {
        true
    }

    open spec fn from_spec(err: Transport) -> Error {
        Error::Transport(err)
    }
}

impl From<ParseError> for Error {
    fn from(err: ParseError) -> (r: Error) {
        ErrorKind::InvalidUrl.msg("Failed to parse URL").src(Cause::Url(err))
    }
}

impl vstd::std_specs::convert::FromSpecImpl<ParseError> for Error {
    open spec fn obeys_from_spec() -> bool {
        true
    }

    open spec fn from_spec(err: ParseError) -> Error {
        Error::invalid_url(err)
    }
}

} // verus!
