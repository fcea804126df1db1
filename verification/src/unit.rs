//! One call from start to end: connect, send, read the head, and either
//! hand the response on or go round again for a redirect. The steps are
//! decided here; the caller carries them out and reports what happened.

use crate::error::{Error, ErrorKind};
use crate::redirect::{decide, is_follow_up, Decision, Next, Redirects};
use crate::request::{send_request, Request};
use crate::url::Scheme;
use vstd::prelude::*;
use vstd::string::StringSliceAdditionalSpecFns;

verus! {

/// Where a call stands.
#[derive(Clone, Copy, Debug, PartialEq, Eq, Structural)]
pub enum State {
    Start,
    Connect,
    Send,
    ReadHeaders,
    Done,
    Failed,
}

/// What the caller reports.
pub enum Event {
    /// The call is to begin.
    Begin,
    /// The connection stands, TLS included where it was asked for.
    Connected,
    /// The request has been written.
    Sent,
    /// The head of the response has been read: its status, and the text of
    /// its `Location` header if it has one.
    Head { code: u16, location: Option<String> },
    /// Connecting, writing, reading or parsing has failed.
    Failure(Error),
}

/// What the caller is to do next.
pub enum Step {
    /// Connect to this host and port, with TLS if `tls` says so.
    Connect { host: String, port: u16, tls: bool },
    /// Write these bytes, in one go.
    Send(Vec<u8>),
    /// Read the head of the response.
    ReadHeaders,
    /// Hand the response to the caller of the call.
    Deliver,
    /// Hand the response to the caller of the call as an error of kind
    /// `HTTP`.
    DeliverStatus,
    /// Give up with this error. Nothing more is sent or read.
    Stop(Error),
    /// The call is over. Nothing more is sent or read.
    Idle,
}

/// One step of a call, as far as its connections and requests are counted:
/// where the call stood and stands, how many redirects it had and has
/// followed, and whether the step asks for a connection or for a request to
/// be written.
pub struct Move {
    pub from: State,
    pub to: State,
    pub followed_before: nat,
    pub followed_after: nat,
    pub connects: bool,
    pub sends: bool,
}

/// What every step of a call keeps to, with `max` redirects allowed. A
/// connection is asked for at the start and for each redirect that is
/// followed, and at no other time; a request is written on a connection
/// that was asked for; no more redirects are followed than are allowed; and
/// a call that is over stays over and asks for nothing.
pub open spec fn is_move(m: Move, max: nat) -> bool {
    &&& m.followed_after <= max
    &&& m.to != State::Start
    &&& m.connects <==> m.to == State::Connect
    &&& m.connects ==> (m.from == State::Start && m.followed_after == m.followed_before) || (
    m.from == State::ReadHeaders && m.followed_after == m.followed_before + 1)
    &&& !m.connects ==> m.followed_after == m.followed_before
    &&& m.sends <==> m.from == State::Connect && m.to == State::Send
    &&& m.from == State::Done || m.from == State::Failed ==> m.to == m.from && !m.connects
        && !m.sends
}

/// The steps of one call from its start, each taking up where the one
/// before left off.
pub open spec fn is_run(moves: Seq<Move>, max: nat) -> bool
    decreases moves.len(),
{
    if moves.len() == 0 {
        true
    } else {
        let before = moves.drop_last();
        let last = moves.last();
        &&& is_run(before, max)
        &&& is_move(last, max)
        &&& if before.len() == 0 {
            last.from == State::Start && last.followed_before == 0
        } else {
            last.from == before.last().to && last.followed_before == before.last().followed_after
        }
    }
}

/// How many of the steps ask for a connection.
pub open spec fn connects_in(moves: Seq<Move>) -> nat
    decreases moves.len(),
{
    if moves.len() == 0 {
        0
    } else {
        connects_in(moves.drop_last()) + if moves.last().connects {
            1nat
        } else {
            0nat
        }
    }
}

/// How many of the steps ask for a request to be written.
pub open spec fn sends_in(moves: Seq<Move>) -> nat
    decreases moves.len(),
{
    if moves.len() == 0 {
        0
    } else {
        sends_in(moves.drop_last()) + if moves.last().sends {
            1nat
        } else {
            0nat
        }
    }
}

/// In a call that may follow `max` redirects, at most `max + 1` connections
/// are asked for and at most `max + 1` requests are written, however many
/// redirects the servers answer with and whatever else happens.
pub proof fn lemma_requests_within_limit(moves: Seq<Move>, max: nat)
    requires
        is_run(moves, max),
    ensures
        sends_in(moves) <= connects_in(moves) <= max + 1,
{
    lemma_run_counts(moves, max);
}

/// What is counted keeps in step with where the call stands: no more
/// connections than redirects followed and the first one, and no more
/// requests than connections, one less while a connection waits for its
/// request.
pub open spec fn in_step(state: State, followed: nat, connects: nat, sends: nat) -> bool {
    &&& connects <= followed + (if state == State::Start {
        0nat
    } else {
        1nat
    })
    &&& sends + (if state == State::Connect {
        1nat
    } else {
        0nat
    }) <= connects
}

proof fn lemma_move_keeps_in_step(m: Move, max: nat, connects: nat, sends: nat)
    requires
        is_move(m, max),
        in_step(m.from, m.followed_before, connects, sends),
    ensures
        in_step(
            m.to,
            m.followed_after,
            connects + (if m.connects {
                1nat
            } else {
                0nat
            }),
            sends + (if m.sends {
                1nat
            } else {
                0nat
            }),
        ),
{
}

proof fn lemma_run_counts(moves: Seq<Move>, max: nat)
    requires
        is_run(moves, max),
    ensures
        moves.len() > 0 ==> in_step(
            moves.last().to,
            moves.last().followed_after,
            connects_in(moves),
            sends_in(moves),
        ) && moves.last().followed_after <= max,
        moves.len() == 0 ==> connects_in(moves) == 0 && sends_in(moves) == 0,
    decreases moves.len(),
{
    if moves.len() > 0 {
        let init = moves.drop_last();
        lemma_run_counts(init, max);
        lemma_move_keeps_in_step(moves.last(), max, connects_in(init), sends_in(init));
    }
}

/// The error for an event that does not belong where the call stands.
pub open spec fn out_of_order() -> Error {
    Error::plain(ErrorKind::Io, Some("Event out of order"))
}

/// One call: where it stands, the request that is being made or is to be
/// made next, and the redirects that it has followed.
pub struct Unit {
    pub state: State,
    pub request: Option<Request>,
    pub redirects: Redirects,
    pub user_agent: &'static str,
}

impl Unit {
    pub fn new(request: Request, max_redirects: u32, user_agent: &'static str) -> (r: Unit)
        ensures
            r.state == State::Start,
            r.request == Some(request),
            r.redirects.max_spec() == max_redirects,
            r.redirects.count_spec() == 0,
            r.redirects.history_spec() == Seq::<Seq<char>>::empty(),
            r.user_agent == user_agent,
    {
        Unit {
            state: State::Start,
            request: Some(request),
            redirects: Redirects::new(max_redirects),
            user_agent,
        }
    }

    /// This call has followed the same redirects as `other`.
    pub open spec fn same_redirects(self, other: Unit) -> bool {
        &&& self.redirects.count_spec() == other.redirects.count_spec()
        &&& self.redirects.history_spec() == other.redirects.history_spec()
    }

    /// The step from `self` to `after` that asked for `step`, as a move.
    pub open spec fn move_to(self, after: Unit, step: Step) -> Move {
        Move {
            from: self.state,
            to: after.state,
            followed_before: self.redirects.count_spec() as nat,
            followed_after: after.redirects.count_spec() as nat,
            connects: step is Connect,
            sends: step is Send,
        }
    }

    /// The call is over, one way or the other.
    pub open spec fn is_over(self) -> bool {
        self.state == State::Done || self.state == State::Failed
    }

    fn connect_to(request: &Request) -> (r: Step)
        ensures
            r matches Step::Connect { host, port, tls } && host@ == request.url.host_spec() && port
                == request.url.parts().port && tls == (request.url.parts().scheme
                == Scheme::Https),
    {
        let host = String::from_str(request.url.host_str());
        let tls = match request.url.scheme() {
            Scheme::Http => false,
            Scheme::Https => true,
        };
        Step::Connect { host, port: request.url.port(), tls }
    }

    /// Takes in what has happened and says what to do next.
    ///
    /// A call goes from `Start` through `Connect`, `Send` and `ReadHeaders`
    /// to `Done`, and from `ReadHeaders` back to `Connect` for a redirect
    /// that is followed. A failure that is reported, a redirect that
    /// fails, and an event that does not belong where the call stands each
    /// end the call in `Failed`. A call that is over stays as it is and asks
    /// for nothing.
    pub fn step(&mut self, event: Event) -> (r: Step)
        ensures
            final(self).user_agent == old(self).user_agent,
            final(self).redirects.max_spec() == old(self).redirects.max_spec(),
            final(self).redirects.count_spec() <= final(self).redirects.max_spec(),
            is_move(old(self).move_to(*final(self), r), old(self).redirects.max_spec() as nat),
            old(self).is_over() ==> r is Idle && *final(self) == *old(self),
            !old(self).is_over() ==> match (old(self).state, event, old(self).request) {
                (_, Event::Failure(e), _) => final(self).state == State::Failed && r == Step::Stop(
                    e,
                ) && final(self).redirects == old(self).redirects,
                (State::Start, Event::Begin, Some(req)) => final(self).state == State::Connect
                    && final(self).request == Some(req) && final(self).redirects == old(self).redirects && (r matches Step::Connect { host, port, tls } && host@
                    == req.url.host_spec() && port == req.url.parts().port && tls == (
                req.url.parts().scheme == Scheme::Https)),
                (State::Connect, Event::Connected, Some(req)) => final(self).state == State::Send
                    && final(self).request == Some(req) && final(self).redirects == old(self).redirects && (r matches Step::Send(bytes) && bytes@ == req.prelude_spec(
                    old(self).user_agent.spec_bytes(),
                )),
                (State::Send, Event::Sent, Some(req)) => final(self).state == State::ReadHeaders
                    && final(self).request == Some(req) && final(self).redirects == old(self).redirects && r is ReadHeaders,
                (State::ReadHeaders, Event::Head { code, location }, Some(req)) => match decide(
                    old(self).redirects.max_spec(),
                    old(self).redirects.count_spec() as nat,
                    req.method,
                    req.body,
                    req.url,
                    code,
                    match location {
                        Some(l) => Some(l@),
                        None => None,
                    },
                ) {
                    Decision::Done => final(self).state == State::Done && r is Deliver
                        && final(self).same_redirects(*old(self)),
                    Decision::Status => final(self).state == State::Done && r is DeliverStatus
                        && final(self).same_redirects(*old(self)),
                    Decision::Follow => final(self).state == State::Connect && final(self).redirects.count_spec() == old(self).redirects.count_spec() + 1 && final(self).redirects.history_spec() == old(self).redirects.history_spec().push(
                        req.url.text(),
                    ) && (final(self).request matches Some(next) && is_follow_up(
                        next,
                        req,
                        code,
                        location->0@,
                    ) && (r matches Step::Connect { host, port, tls } && host@
                        == next.url.host_spec() && port == next.url.parts().port && tls == (
                    next.url.parts().scheme == Scheme::Https))),
                    Decision::TooMany => final(self).state == State::Failed && r == Step::Stop(
                        Error::plain(ErrorKind::TooManyRedirects, None),
                    ) && final(self).same_redirects(*old(self)),
                    Decision::BadLocation(u) => final(self).state == State::Failed && r
                        == Step::Stop(Error::invalid_url(u)) && final(self).same_redirects(
                        *old(self),
                    ),
                    Decision::BodyGone => final(self).state == State::Failed && r == Step::Stop(
                        Error::plain(
                            ErrorKind::Io,
                            Some("Body of the request cannot be sent again"),
                        ),
                    ) && final(self).same_redirects(*old(self)),
                },
                _ => final(self).state == State::Failed && r == Step::Stop(out_of_order())
                    && final(self).redirects == old(self).redirects,
            },
    {
        let _count = self.redirects.count();
        if self.state == State::Done || self.state == State::Failed {
            return Step::Idle;
        }
        if let Event::Failure(e) = event {
            self.state = State::Failed;
            return Step::Stop(e);
        }
        let request = match self.request.take() {
            Some(request) => request,
            None => {
                self.state = State::Failed;
                return Step::Stop(ErrorKind::Io.msg("Event out of order"));
            },
        };
        match (self.state, event) {
            (State::Start, Event::Begin) => {
                let step = Self::connect_to(&request);
                self.request = Some(request);
                self.state = State::Connect;
                step
            },
            (State::Connect, Event::Connected) => {
                let bytes = send_request(&request, self.user_agent);
                self.request = Some(request);
                self.state = State::Send;
                Step::Send(bytes)
            },
            (State::Send, Event::Sent) => {
                self.request = Some(request);
                self.state = State::ReadHeaders;
                Step::ReadHeaders
            },
            (State::ReadHeaders, Event::Head { code, location }) => {
                let target = match &location {
                    Some(l) => Some(l.as_str()),
                    None => None,
                };
                match self.redirects.after_response(request, code, target) {
                    Next::Done => {
                        self.state = State::Done;
                        Step::Deliver
                    },
                    Next::Status => {
                        self.state = State::Done;
                        Step::DeliverStatus
                    },
                    Next::Follow(next) => {
                        let step = Self::connect_to(&next);
                        self.request = Some(next);
                        self.state = State::Connect;
                        step
                    },
                    Next::Fail(e) => {
                        self.state = State::Failed;
                        Step::Stop(e)
                    },
                }
            },
            _ => {
                self.state = State::Failed;
                Step::Stop(ErrorKind::Io.msg("Event out of order"))
            },
        }
    }
}

} // verus!
