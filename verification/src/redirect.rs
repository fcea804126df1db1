//! What to do with the answer to a request: hand it on, or follow a redirect.

use crate::body::BodySize;
use crate::bytes::{
    ascii, ascii_bytes, contains_seq, find, first_index, is_first_index, last_index,
    lemma_first_occurrence_none, position, rposition, COLON, SLASH,
};
use crate::error::{Error, ErrorKind};
use crate::header::{name_key, other_than};
use crate::request::{lemma_ascii_part, Method, Request};
use crate::url::{lemma_parts_in_order, parse_spec, separator, Error as UrlError, Parts, Url};
use vstd::prelude::*;
use vstd::slice::slice_subrange;
use vstd::string::StringSliceAdditionalSpecFns;
use vstd::utf8::is_ascii_chars;

verus! {

/// How many redirects are followed unless the caller says otherwise.
pub const DEFAULT_MAX_REDIRECTS: u32 = 5;

pub const QUESTION: u8 = 63;

/// The status codes that send the client to another URL.
pub open spec fn is_redirect(code: u16) -> bool {
    code == 301 || code == 302 || code == 303 || code == 307 || code == 308
}

/// The method of the request that follows a redirect: 301, 302 and 303 turn
/// anything but `GET` and `HEAD` into `GET`; 307 and 308 keep the method.
pub open spec fn redirect_method_spec(code: u16, method: Method) -> Method {
    if (code == 301 || code == 302 || code == 303) && method != Method::Get && method
        != Method::Head {
        Method::Get
    } else {
        method
    }
}

pub fn redirect_method(code: u16, method: Method) -> (r: Method)
    ensures
        r == redirect_method_spec(code, method),
{
    if (code == 301 || code == 302 || code == 303) && method != Method::Get && method
        != Method::Head {
        Method::Get
    } else {
        method
    }
}

/// How much of a path is its directory: up to its last `/`, a query not
/// counted.
pub open spec fn directory_len(path: Seq<u8>) -> int {
    let plain = match first_index(path, QUESTION) {
        Some(q) => path.take(q),
        None => path,
    };
    match last_index(plain, SLASH) {
        Some(k) => k + 1,
        None => 0,
    }
}

/// The text of the URL that `location` means when it is found at `base`.
/// A location with `://` stands for itself. One that starts with `//` takes
/// the scheme of `base`, one that starts with `/` takes scheme and
/// authority, and any other is put behind the directory of the path of
/// `base`. Dots in the path are left as they are.
pub open spec fn resolve_text(base: Url, location: Seq<char>) -> Seq<char> {
    let lb = ascii_bytes(location);
    if contains_seq(lb, separator()) {
        location
    } else if lb.len() >= 2 && lb[0] == SLASH && lb[1] == SLASH {
        base.parts().scheme.name_spec() + ":"@ + location
    } else if lb.len() >= 1 && lb[0] == SLASH {
        base.origin_spec() + location
    } else {
        base.origin_spec() + base.path_spec().take(
            directory_len(ascii_bytes(base.path_spec())),
        ) + location
    }
}

/// The URL that `location` means when it is found at `base`.
pub open spec fn resolve_spec(base: Url, location: Seq<char>) -> Result<Parts, UrlError> {
    if !is_ascii_chars(location) {
        Err(UrlError::Ascii)
    } else {
        parse_spec(resolve_text(base, location))
    }
}

fn directory_of(path: &[u8]) -> (r: usize)
    ensures
        r == directory_len(path@),
        r <= path@.len(),
{
    let plain = match position(path, QUESTION) {
        Some(q) => {
            assert(is_first_index(path@, QUESTION, q as int));
            slice_subrange(path, 0, q)
        },
        None => path,
    };
    match rposition(plain, SLASH) {
        Some(k) => {
            assert(k < plain.len());
            k + 1
        },
        None => 0,
    }
}

/// Resolves the `Location` of a redirect against the URL that was asked.
pub fn resolve(base: &Url, location: &str) -> (r: Result<Url, Error>)
    ensures
        match resolve_spec(*base, location@) {
            Ok(p) => r matches Ok(u) && u.text() == resolve_text(*base, location@) && u.parts()
                == p,
            Err(e) => r matches Err(err) && err == Error::invalid_url(e),
        },
{
    if !location.is_ascii() {
        return Err(Error::from(UrlError::Ascii));
    }
    let _whole = base.serialization();
    let lb = ascii(location);
    let sep: Vec<u8> = vec![COLON, SLASH, SLASH];
    assert(sep@ =~= separator());
    proof {
        lemma_first_occurrence_none(lb@, separator());
    }
    if find(lb, sep.as_slice()).is_some() {
        return Url::parse(location);
    }
    let mut text = if lb.len() >= 2 && lb[0] == SLASH && lb[1] == SLASH {
        let mut t = String::from_str(base.scheme().to_str());
        t.append(":");
        t
    } else if lb.len() >= 1 && lb[0] == SLASH {
        String::from_str(base.origin())
    } else {
        let path = base.path();
        proof {
            lemma_parts_in_order(base.text());
            lemma_ascii_part(base.text(), base.parts().path_start, base.text().len() as int);
        }
        let n = directory_of(ascii(path));
        let mut t = String::from_str(base.origin());
        t.append(path.substring_ascii(0, n));
        proof {
            assert(path@.subrange(0, n as int) =~= path@.take(n as int));
        }
        t
    };
    text.append(location);
    assert(text@ =~= resolve_text(*base, location@));
    Url::parse(text.as_str())
}

/// What the answer to a request calls for.
pub enum Next {
    /// The response goes to the caller.
    Done,
    /// The response goes to the caller as an error of kind `HTTP`: its
    /// status is 400 or above.
    Status,
    /// The response sends the client on: this request is to be made next.
    Follow(Request),
    /// The request has failed; nothing more is sent.
    Fail(Error),
}

/// The cases of `Redirects::after_response`.
pub enum Decision {
    Done,
    Status,
    TooMany,
    BadLocation(UrlError),
    BodyGone,
    Follow,
}

/// The body of the request that follows a redirect: the same body where the
/// method stays, none where the method becomes `GET`.
pub open spec fn follow_body(code: u16, method: Method, body: BodySize) -> BodySize {
    if redirect_method_spec(code, method) == method {
        body
    } else {
        BodySize::Empty
    }
}

/// What a response calls for, given how many redirects are allowed and how
/// many have been followed. A response is a redirect where redirects are
/// allowed at all, its status is one of 301, 302, 303, 307 and 308, and it
/// names a location. Any other goes to the caller, as an error from status
/// 400 on. A redirect beyond the limit fails, before its location is looked
/// at. One whose location is no URL fails. One that would send again a body
/// that was streamed fails. Any other is followed.
pub open spec fn decide(
    max: u32,
    count: nat,
    method: Method,
    body: BodySize,
    base: Url,
    code: u16,
    location: Option<Seq<char>>,
) -> Decision {
    if max == 0 || !is_redirect(code) || location is None {
        if code >= 400 {
            Decision::Status
        } else {
            Decision::Done
        }
    } else if count >= max {
        Decision::TooMany
    } else {
        match resolve_spec(base, location->0) {
            Err(e) => Decision::BadLocation(e),
            Ok(_) => if follow_body(code, method, body) == BodySize::Unknown {
                Decision::BodyGone
            } else {
                Decision::Follow
            },
        }
    }
}

/// `next` is the request that follows the redirect with status `code` to
/// `location` in answer to `req`: the method that the status asks for, the
/// body that goes with it, the location as its URL, and the headers of `req`
/// without `Authorization`.
pub open spec fn is_follow_up(next: Request, req: Request, code: u16, location: Seq<char>) -> bool {
    &&& next.method == redirect_method_spec(code, req.method)
    &&& next.body == follow_body(code, req.method, req.body)
    &&& next.url.text() == resolve_text(req.url, location)
    &&& resolve_spec(req.url, location) == Ok::<Parts, UrlError>(next.url.parts())
    &&& next.headers@ == req.headers@.filter(other_than(name_key("authorization"@)))
}

/// When as many redirects have been followed as are allowed, the next one
/// ends the request with `TooManyRedirects`, whatever it points to.
pub proof fn lemma_redirect_limit(
    max: u32,
    count: nat,
    method: Method,
    body: BodySize,
    base: Url,
    code: u16,
    location: Seq<char>,
)
    requires
        max > 0,
        count >= max,
        is_redirect(code),
    ensures
        decide(max, count, method, body, base, code, Some(location)) == Decision::TooMany,
{
}

/// A redirect is followed only while fewer have been followed than are
/// allowed.
pub proof fn lemma_follow_is_within_limit(
    max: u32,
    count: nat,
    method: Method,
    body: BodySize,
    base: Url,
    code: u16,
    location: Option<Seq<char>>,
)
    requires
        decide(max, count, method, body, base, code, location) == Decision::Follow,
    ensures
        count < max,
        is_redirect(code),
        location is Some,
{
}

/// How many redirects may be followed, and how many have been.
struct Budget {
    max: u32,
    used: u32,
}

impl Budget {
    #[verifier::type_invariant]
    closed spec fn inv(self) -> bool {
        self.used <= self.max
    }
}

/// The redirects of one call: how many may be followed, how many have been,
/// and the URLs that have answered with one that was followed, in order.
/// The list is a record; only the count is consulted.
pub struct Redirects {
    budget: Budget,
    history: Vec<String>,
}

impl Redirects {
    pub closed spec fn max_spec(self) -> u32 {
        self.budget.max
    }

    pub closed spec fn count_spec(self) -> u32 {
        self.budget.used
    }

    pub closed spec fn history_spec(self) -> Seq<Seq<char>> {
        Seq::new(self.history@.len(), |i: int| self.history@[i]@)
    }

    pub fn new(max: u32) -> (r: Self)
        ensures
            r.max_spec() == max,
            r.count_spec() == 0,
            r.history_spec() == Seq::<Seq<char>>::empty(),
    {
        let r = Redirects { budget: Budget { max, used: 0 }, history: Vec::new() };
        assert(r.history_spec() =~= Seq::<Seq<char>>::empty());
        r
    }

    pub fn max(&self) -> (r: u32)
        ensures
            r == self.max_spec(),
    {
        self.budget.max
    }

    /// How many redirects have been followed: never more than are allowed.
    pub fn count(&self) -> (r: u32)
        ensures
            r == self.count_spec(),
            r <= self.max_spec(),
    {
        proof {
            use_type_invariant(&self.budget);
        }
        self.budget.used
    }

    /// The URL that answered with the redirect number `i`.
    pub fn visited(&self, i: usize) -> (r: Option<&str>)
        ensures
            match r {
                Some(s) => i < self.history_spec().len() && s@ == self.history_spec()[i as int],
                None => i >= self.history_spec().len(),
            },
    {
        if i < self.history.len() {
            Some(self.history[i].as_str())
        } else {
            None
        }
    }

    /// Decides what the answer to `request` calls for. `code` is the status
    /// of the response and `location` the text of its `Location` header.
    /// The request that follows a redirect has the method that the status
    /// asks for, the location as its URL, and the headers of `request`
    /// without `Authorization`.
    pub fn after_response(&mut self, request: Request, code: u16, location: Option<&str>) -> (r:
        Next)
        ensures
            final(self).max_spec() == old(self).max_spec(),
            final(self).count_spec() <= final(self).max_spec(),
            final(self).count_spec() == old(self).count_spec() + (if r is Follow {
                1int
            } else {
                0int
            }),
            match decide(
                old(self).max_spec(),
                old(self).count_spec() as nat,
                request.method,
                request.body,
                request.url,
                code,
                match location {
                    Some(l) => Some(l@),
                    None => None,
                },
            ) {
                Decision::Done => r is Done && final(self).history_spec() == old(
                    self,
                ).history_spec(),
                Decision::Status => r is Status && final(self).history_spec() == old(
                    self,
                ).history_spec(),
                Decision::TooMany => r matches Next::Fail(e) && e == Error::plain(
                    ErrorKind::TooManyRedirects,
                    None,
                ) && final(self).history_spec() == old(self).history_spec(),
                Decision::BadLocation(u) => r matches Next::Fail(e) && e == Error::invalid_url(u)
                    && final(self).history_spec() == old(self).history_spec(),
                Decision::BodyGone => r matches Next::Fail(e) && e == Error::plain(
                    ErrorKind::Io,
                    Some("Body of the request cannot be sent again"),
                ) && final(self).history_spec() == old(self).history_spec(),
                Decision::Follow => r matches Next::Follow(next) && next.method
                    == redirect_method_spec(code, request.method) && next.body == follow_body(
                    code,
                    request.method,
                    request.body,
                ) && next.url.text() == resolve_text(request.url, location->0@)
                    && resolve_spec(request.url, location->0@) == Ok::<Parts, UrlError>(
                    next.url.parts(),
                ) && next.headers@ == request.headers@.filter(
                    other_than(name_key("authorization"@)),
                ) && final(self).history_spec() == old(self).history_spec().push(
                    request.url.text(),
                ),
            },
    {
        proof {
            use_type_invariant(&self.budget);
        }
        let redirect = code == 301 || code == 302 || code == 303 || code == 307 || code == 308;
        if self.budget.max == 0 || !redirect || location.is_none() {
            if code >= 400 {
                return Next::Status;
            }
            return Next::Done;
        }
        let target = location.unwrap();
        if self.budget.used >= self.budget.max {
            return Next::Fail(ErrorKind::TooManyRedirects.new());
        }
        let url = match resolve(&request.url, target) {
            Ok(url) => url,
            Err(e) => {
                return Next::Fail(e);
            },
        };
        let method = redirect_method(code, request.method);
        let body = if method == request.method {
            request.body
        } else {
            BodySize::Empty
        };
        if body == BodySize::Unknown {
            return Next::Fail(ErrorKind::Io.msg("Body of the request cannot be sent again"));
        }
        let headers = request.headers.without("authorization");
        let ghost before = self.history_spec();
        let from = request.url.serialization().to_owned();
        self.history.push(from);
        self.budget.used = self.budget.used + 1;
        proof {
            assert(self.history_spec() =~= before.push(request.url.text()));
        }
        Next::Follow(Request { method, url, headers, body })
    }
}

} // verus!
