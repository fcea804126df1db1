//! URLs as connection coordinates: scheme, host, port and path.

use crate::bytes::{
    ascii_bytes, contains_seq, decimal, find, first_index, first_occurrence, is_first_index,
    is_first_occurrence, lemma_first_index_none, lemma_first_occurrence_none,
    parse_decimal, position, COLON, SLASH,
};
use crate::error::Error as UreqError;
use vstd::prelude::*;
use vstd::slice::slice_subrange;
use vstd::string::is_ascii_spec_bytes;
use vstd::utf8::is_ascii_chars;

verus! {

/// Why a string is not a URL that this client can fetch.
#[derive(Debug, Clone, Copy, PartialEq, Eq, Structural)]
pub enum Error {
    /// Kept for callers that tell the variants apart. The parser does not
    /// report it: a URL may be of any length.
    UnsupportedLength,
    /// The string holds a character that is not ASCII.
    Ascii,
    /// There is no `://`, or what stands before it is neither `http` nor `https`.
    Scheme,
    /// Kept for callers that tell the variants apart. The parser does not
    /// report it: whatever follows the authority is the path.
    Path,
    /// No `/` follows the authority, or the host is empty.
    Host,
}

impl Error {
    pub open spec fn name_spec(self) -> Seq<char> {
        match self {
            Error::UnsupportedLength => "UnsupportedLength"@,
            Error::Ascii => "Ascii"@,
            Error::Scheme => "Scheme"@,
            Error::Path => "Path"@,
            Error::Host => "Host"@,
        }
    }

    /// The variant's name, which is how a URL error reads in a message.
    pub fn name(self) -> (r: &'static str)
        ensures
            r@ == self.name_spec(),
    {
        match self {
            Error::UnsupportedLength => "UnsupportedLength",
            Error::Ascii => "Ascii",
            Error::Scheme => "Scheme",
            Error::Path => "Path",
            Error::Host => "Host",
        }
    }
}

/// The largest port number.
pub const MAX_PORT: u64 = 65535;

#[derive(Copy, Clone, Debug, PartialEq, Eq, Structural)]
pub enum Scheme {
    Http,
    Https,
}

impl Scheme {
    /// The scheme's name as it stands before `"://"`.
    pub open spec fn name_bytes(self) -> Seq<u8> {
        match self {
            Scheme::Http => seq![104u8, 116u8, 116u8, 112u8],
            Scheme::Https => seq![104u8, 116u8, 116u8, 112u8, 115u8],
        }
    }

    pub open spec fn name_spec(self) -> Seq<char> {
        match self {
            Scheme::Http => "http"@,
            Scheme::Https => "https"@,
        }
    }

    /// The port that a URL of this scheme means when it names none.
    pub open spec fn default_port_spec(self) -> u16 {
        match self {
            Scheme::Http => 80,
            Scheme::Https => 443,
        }
    }

    pub fn to_str(self) -> (r: &'static str)
        ensures
            r@ == self.name_spec(),
    {
        match self {
            Scheme::Http => "http",
            Scheme::Https => "https",
        }
    }

    pub fn default_port(self) -> (r: u16)
        ensures
            r == self.default_port_spec(),
    {
        match self {
            Scheme::Http => 80,
            Scheme::Https => 443,
        }
    }
}

/// The scheme that `name` spells, if it is one that this client speaks.
pub open spec fn scheme_named(name: Seq<u8>) -> Option<Scheme> {
    if name == Scheme::Http.name_bytes() {
        Some(Scheme::Http)
    } else if name == Scheme::Https.name_bytes() {
        Some(Scheme::Https)
    } else {
        None
    }
}

/// The three bytes `://` between scheme and authority.
pub open spec fn separator() -> Seq<u8> {
    seq![COLON, SLASH, SLASH]
}

/// Where the parts of a URL lie in its text, as byte offsets.
pub struct Parts {
    pub scheme: Scheme,
    pub host_start: int,
    pub host_end: int,
    pub port: u16,
    pub path_start: int,
}

/// The port that the authority `authority` names after its first colon, or
/// `default` where it has no colon or what follows is no port number.
pub open spec fn port_of(authority: Seq<u8>, default: u16) -> u16 {
    match first_index(authority, COLON) {
        None => default,
        Some(k) => match decimal(
            authority.subrange(k + 1, authority.len() as int),
            MAX_PORT as nat,
        ) {
            Some(p) => p as u16,
            None => default,
        },
    }
}

/// What a string of bytes is as a URL: the scheme up to the first `://`,
/// the authority up to the next `/`, the host up to the authority's first
/// colon, and the path from that `/` to the end.
pub open spec fn parse_bytes(b: Seq<u8>) -> Result<Parts, Error> {
    match first_occurrence(b, separator()) {
        None => Err(Error::Scheme),
        Some(si) => match scheme_named(b.subrange(0, si)) {
            None => Err(Error::Scheme),
            Some(scheme) => {
                let hi = si + 3;
                match first_index(b.subrange(hi, b.len() as int), SLASH) {
                    None => Err(Error::Host),
                    Some(off) => {
                        let hj = hi + off;
                        let authority = b.subrange(hi, hj);
                        let host_end = match first_index(authority, COLON) {
                            None => hj,
                            Some(k) => hi + k,
                        };
                        if host_end == hi {
                            Err(Error::Host)
                        } else {
                            Ok(
                                Parts {
                                    scheme,
                                    host_start: hi,
                                    host_end,
                                    port: port_of(authority, scheme.default_port_spec()),
                                    path_start: hj,
                                },
                            )
                        }
                    },
                }
            },
        },
    }
}

/// What a string is as a URL. Anything but ASCII is refused first.
pub open spec fn parse_spec(text: Seq<char>) -> Result<Parts, Error> {
    if !is_ascii_chars(text) {
        Err(Error::Ascii)
    } else {
        parse_bytes(ascii_bytes(text))
    }
}

/// The parts of a URL lie in its text in order, and the host is not empty.
pub proof fn lemma_parts_in_order(text: Seq<char>)
    requires
        parse_spec(text) is Ok,
    ensures
        is_ascii_chars(text),
        ({
            let p = parse_spec(text)->Ok_0;
            0 < p.host_start < p.host_end <= p.path_start < text.len()
        }),
{
    let b = ascii_bytes(text);
    let si = first_occurrence(b, separator())->0;
    assert(is_first_occurrence(b, separator(), si));
    let hi = si + 3;
    let rest = b.subrange(hi, b.len() as int);
    let off = first_index(rest, SLASH)->0;
    assert(is_first_index(rest, SLASH, off));
    let authority = b.subrange(hi, hi + off);
    if first_index(authority, COLON) is Some {
        let k = first_index(authority, COLON)->0;
        assert(is_first_index(authority, COLON, k));
    }
}

/// The strings that are URLs, of whatever length: ASCII, `http` or `https`
/// before the first `://`, and behind it a host that is not empty and is
/// followed, perhaps after a port, by a `/`.
pub proof fn lemma_accepted(text: Seq<char>)
    ensures
        parse_spec(text) is Ok <==> is_ascii_chars(text) && ({
            let b = ascii_bytes(text);
            &&& first_occurrence(b, separator()) matches Some(si)
            &&& scheme_named(b.subrange(0, si)) is Some
            &&& b.subrange(si + 3, b.len() as int).contains(SLASH)
            &&& b[si + 3] != SLASH
            &&& b[si + 3] != COLON
        }),
{
    let b = ascii_bytes(text);
    if is_ascii_chars(text) && first_occurrence(b, separator()) is Some {
        let si = first_occurrence(b, separator())->0;
        let hi = si + 3;
        assert(is_first_occurrence(b, separator(), si));
        let rest = b.subrange(hi, b.len() as int);
        lemma_first_index_none(rest, SLASH);
        if first_index(rest, SLASH) is Some {
            let off = first_index(rest, SLASH)->0;
            assert(is_first_index(rest, SLASH, off));
            let authority = b.subrange(hi, hi + off);
            lemma_first_index_none(authority, COLON);
            if first_index(authority, COLON) is Some {
                let k = first_index(authority, COLON)->0;
                assert(is_first_index(authority, COLON, k));
                if k > 0 {
                    assert(authority[0] != COLON);
                }
            } else if off > 0 {
                assert(authority.contains(authority[0]));
            }
            if off > 0 {
                assert(authority[0] == b[hi]);
                assert(rest[0] == b[hi]);
            } else {
                assert(rest[0] == b[hi]);
            }
        }
    }
}

/// A string without `://` is refused for its scheme.
pub proof fn lemma_missing_separator(text: Seq<char>)
    requires
        is_ascii_chars(text),
        !contains_seq(ascii_bytes(text), separator()),
    ensures
        parse_spec(text) == Err::<Parts, Error>(Error::Scheme),
{
    lemma_first_occurrence_none(ascii_bytes(text), separator());
}

/// A string with a scheme that this client speaks, but with no `/` behind
/// its authority, is refused for its host.
pub proof fn lemma_missing_path(text: Seq<char>, si: int)
    requires
        is_ascii_chars(text),
        first_occurrence(ascii_bytes(text), separator()) == Some(si),
        scheme_named(ascii_bytes(text).subrange(0, si)) is Some,
        !ascii_bytes(text).subrange(si + 3, text.len() as int).contains(SLASH),
    ensures
        parse_spec(text) == Err::<Parts, Error>(Error::Host),
{
    let b = ascii_bytes(text);
    lemma_first_index_none(b.subrange(si + 3, b.len() as int), SLASH);
}

/// A URL: the string it was read from, and where scheme, host, port and
/// path lie in it. The string is kept whole; the parts are offsets into it.
#[derive(Debug)]
pub struct Url {
    serialization: String,
    scheme: Scheme,
    host_start: usize,
    host_end: usize,
    path_start: usize,
    port: u16,
}

fn scheme_of(name: &[u8]) -> (r: Option<Scheme>)
    ensures
        r == scheme_named(name@),
{
    let n = name.len();
    if n >= 4 && n <= 5 && name[0] == 104 && name[1] == 116 && name[2] == 116 && name[3] == 112 {
        if n == 4 {
            assert(name@ =~= Scheme::Http.name_bytes());
            Some(Scheme::Http)
        } else if name[4] == 115 {
            assert(name@ =~= Scheme::Https.name_bytes());
            Some(Scheme::Https)
        } else {
            assert(name@[4] != Scheme::Https.name_bytes()[4]);
            None
        }
    } else {
        proof {
            if n == 4 || n == 5 {
                assert(name@[0] != 104 || name@[1] != 116 || name@[2] != 116 || name@[3] != 112);
                assert(Scheme::Http.name_bytes()[0] == 104 && Scheme::Https.name_bytes()[0] == 104);
                assert(Scheme::Http.name_bytes()[1] == 116 && Scheme::Https.name_bytes()[1] == 116);
                assert(Scheme::Http.name_bytes()[2] == 116 && Scheme::Https.name_bytes()[2] == 116);
                assert(Scheme::Http.name_bytes()[3] == 112 && Scheme::Https.name_bytes()[3] == 112);
            }
        }
        None
    }
}

impl Url {
    #[verifier::type_invariant]
    closed spec fn inv(self) -> bool {
        parse_spec(self.serialization@) == Ok::<Parts, Error>(self.parts())
    }

    /// The string that this URL was read from.
    pub closed spec fn text(self) -> Seq<char> {
        self.serialization@
    }

    /// Where the parts lie in `text()`.
    pub closed spec fn parts(self) -> Parts {
        Parts {
            scheme: self.scheme,
            host_start: self.host_start as int,
            host_end: self.host_end as int,
            port: self.port,
            path_start: self.path_start as int,
        }
    }

    pub open spec fn host_spec(self) -> Seq<char> {
        self.text().subrange(self.parts().host_start, self.parts().host_end)
    }

    pub open spec fn path_spec(self) -> Seq<char> {
        self.text().subrange(self.parts().path_start, self.text().len() as int)
    }

    /// Scheme, `://` and authority: the text before the path.
    pub open spec fn origin_spec(self) -> Seq<char> {
        self.text().subrange(0, self.parts().path_start)
    }

    /// Reads a URL. The checks come in this order: the string is ASCII
    /// (`Ascii`); it holds `://` and what stands before is `http` or `https`
    /// (`Scheme`); a `/` follows the authority and the host is not empty
    /// (`Host`). A port that is no number up to 65535 counts as
    /// no port: the scheme's default stands in.
    pub fn parse(s: &str) -> (r: Result<Url, UreqError>)
        ensures
            match parse_spec(s@) {
                Ok(p) => r matches Ok(u) && u.text() == s@ && u.parts() == p,
                Err(e) => r matches Err(err) && err == UreqError::invalid_url(e),
            },
    {
        if !s.is_ascii() {
            return Err(UreqError::from(Error::Ascii));
        }
        let bs = s.as_bytes();
        proof {
            is_ascii_spec_bytes(s);
            assert(bs@ =~= ascii_bytes(s@));
        }
        let sep: Vec<u8> = vec![COLON, SLASH, SLASH];
        assert(sep@ =~= separator());
        let si = match find(bs, sep.as_slice()) {
            Some(i) => i,
            None => {
                return Err(UreqError::from(Error::Scheme));
            },
        };
        assert(is_first_occurrence(bs@, separator(), si as int));
        assert(separator().len() == 3 && si + 3 <= bs.len());
        let scheme = match scheme_of(slice_subrange(bs, 0, si)) {
            Some(scheme) => scheme,
            None => {
                return Err(UreqError::from(Error::Scheme));
            },
        };
        let hi = si + 3;
        let off = match position(slice_subrange(bs, hi, bs.len()), SLASH) {
            Some(off) => off,
            None => {
                return Err(UreqError::from(Error::Host));
            },
        };
        assert(is_first_index(bs@.subrange(hi as int, bs@.len() as int), SLASH, off as int));
        let hj = hi + off;
        let authority = slice_subrange(bs, hi, hj);
        let default = scheme.default_port();
        let (host_end, port) = match position(authority, COLON) {
            None => (hj, default),
            Some(k) => {
                assert(is_first_index(authority@, COLON, k as int));
                let digits = slice_subrange(authority, k + 1, authority.len());
                let port = match parse_decimal(digits, MAX_PORT) {
                    Some(p) => p as u16,
                    None => default,
                };
                (hi + k, port)
            },
        };
        if host_end == hi {
            return Err(UreqError::from(Error::Host));
        }
        Ok(
            Url {
                serialization: s.to_owned(),
                scheme,
                host_start: hi,
                host_end,
                path_start: hj,
                port,
            },
        )
    }

    /// The whole URL as it was given.
    pub fn serialization(&self) -> (r: &str)
        ensures
            r@ == self.text(),
            parse_spec(self.text()) == Ok::<Parts, Error>(self.parts()),
    {
        proof {
            use_type_invariant(self);
        }
        self.serialization.as_str()
    }

    /// The host: what stands between `://` and the first `:` or `/` that follows.
    pub fn host_str(&self) -> (r: &str)
        ensures
            r@ == self.host_spec(),
    {
        proof {
            use_type_invariant(self);
            lemma_parts_in_order(self.serialization@);
        }
        self.serialization.as_str().substring_ascii(self.host_start, self.host_end)
    }

    pub fn scheme(&self) -> (r: Scheme)
        ensures
            r == self.parts().scheme,
    {
        self.scheme
    }

    /// The path: everything from the `/` that ends the authority to the end.
    pub fn path(&self) -> (r: &str)
        ensures
            r@ == self.path_spec(),
    {
        proof {
            use_type_invariant(self);
            lemma_parts_in_order(self.serialization@);
        }
        let s = self.serialization.as_str();
        s.substring_ascii(self.path_start, s.unicode_len())
    }

    /// Scheme, `://` and authority: everything before the path.
    pub fn origin(&self) -> (r: &str)
        ensures
            r@ == self.origin_spec(),
    {
        proof {
            use_type_invariant(self);
            lemma_parts_in_order(self.serialization@);
        }
        self.serialization.as_str().substring_ascii(0, self.path_start)
    }

    /// The port that the URL names, or else the default of its scheme.
    pub fn port(&self) -> (r: u16)
        ensures
            r == self.parts().port,
    {
        self.port
    }
}

} // verus!
