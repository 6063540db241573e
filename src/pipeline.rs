//! One proxied exchange as a state machine: build, connect, write the head,
//! write the body, read to the end, parse and project. The caller performs
//! each I/O action and reports its outcome as an event.
use vstd::prelude::*;
use vstd::utf8::valid_utf8;
use crate::message::{fields_view, HeaderField, Malformation, ParseError, ParsedResponse};
use crate::request::{build_request, wire_head, InboundRequest, ProxyConfig, WireRequest};
use crate::response::{
    body_of, framed, malformation, parse_response, response_headers, status_or_default,
};

verus! {

/// Why an exchange ended without a backend response.
#[derive(Clone, Copy, Debug, PartialEq, Eq, Structural)]
pub enum FailureKind {
    ConnectFailure,
    /// Writing the request line and headers failed.
    HeadWriteFailure,
    /// Writing the request body failed.
    BodyWriteFailure,
    ReadFailure,
    EncodingError,
    MalformedResponse(Malformation),
}

/// The response handed back to the original client.
#[derive(Clone, Debug)]
pub struct OutboundResponse {
    pub status: u16,
    pub headers: Vec<HeaderField>,
    pub body: Vec<u8>,
}

/// Maps a numeric status onto the outbound status space: codes from 100 to
/// 599 are kept, anything else becomes 500.
pub open spec fn outbound_status_spec(code: u16) -> u16 {
    if 100 <= code && code <= 599 {
        code
    } else {
        500
    }
}

pub fn outbound_status(code: u16) -> (r: u16)
    ensures
        r == outbound_status_spec(code),
{
    if 100 <= code && code <= 599 {
        code
    } else {
        500
    }
}

/// The outbound response for a parsed backend response: its status mapped,
/// its headers and body unchanged.
pub fn project(p: ParsedResponse) -> (r: OutboundResponse)
    ensures
        r.status == outbound_status_spec(p.status),
        r.headers@ == p.headers@,
        r.body@ == p.body@,
{
    OutboundResponse { status: outbound_status(p.status), headers: p.headers, body: p.body }
}

/// The outbound response that raw backend bytes lead to, when they parse.
pub open spec fn projected_from(raw: Seq<u8>, o: OutboundResponse) -> bool {
    &&& o.status == outbound_status_spec(status_or_default(raw))
    &&& fields_view(o.headers@) == response_headers(raw)
    &&& o.body@ == body_of(raw)
}

/// The failure that raw backend bytes lead to, if any.
pub open spec fn raw_failure(raw: Seq<u8>) -> Option<FailureKind> {
    if !valid_utf8(raw) {
        Some(FailureKind::EncodingError)
    } else if !framed(raw) {
        Some(FailureKind::MalformedResponse(malformation(raw)))
    } else {
        None
    }
}

/// Parses the bytes the backend sent and projects them onto the outbound response.
pub fn respond_to(raw: &[u8]) -> (r: Result<OutboundResponse, FailureKind>)
    ensures
        match r {
            Ok(o) => raw_failure(raw@) is None && projected_from(raw@, o),
            Err(k) => raw_failure(raw@) == Some(k),
        },
{
    match parse_response(raw) {
        Ok(p) => Ok(project(p)),
        Err(ParseError::EncodingError) => Err(FailureKind::EncodingError),
        Err(ParseError::MalformedResponse(m)) => Err(FailureKind::MalformedResponse(m)),
    }
}

/// The plain-text body sent to the client when the exchange fails.
pub open spec fn failure_text(k: FailureKind) -> &'static str {
    match k {
        FailureKind::ConnectFailure => "Failed to connect to Docker socket",
        FailureKind::HeadWriteFailure => "Failed to write to socket",
        FailureKind::BodyWriteFailure => "Failed to write body to socket",
        FailureKind::ReadFailure => "Failed to read response",
        FailureKind::EncodingError => "Invalid response encoding",
        FailureKind::MalformedResponse(Malformation::MissingSeparator) => "Invalid HTTP response format",
        FailureKind::MalformedResponse(Malformation::EmptyHead) => "Empty response",
    }
}

pub fn failure_message(k: FailureKind) -> (r: &'static str)
    ensures
        r == failure_text(k),
{
    match k {
        FailureKind::ConnectFailure => "Failed to connect to Docker socket",
        FailureKind::HeadWriteFailure => "Failed to write to socket",
        FailureKind::BodyWriteFailure => "Failed to write body to socket",
        FailureKind::ReadFailure => "Failed to read response",
        FailureKind::EncodingError => "Invalid response encoding",
        FailureKind::MalformedResponse(Malformation::MissingSeparator) => "Invalid HTTP response format",
        FailureKind::MalformedResponse(Malformation::EmptyHead) => "Empty response",
    }
}

/// Every failure is answered with status 500.
pub const FAILURE_STATUS: u16 = 500;

/// Where an exchange stands.
#[derive(Clone, Copy, Debug, PartialEq, Eq, Structural)]
pub enum Stage {
    /// The request for the backend is built; no connection yet.
    Built,
    /// Connected; nothing written.
    Connected,
    /// The head is written; the body is still to go.
    HeadWritten,
    /// The whole request is written; the response is awaited.
    Sent,
    /// The backend response was parsed and projected.
    Projected,
    /// The exchange ended with a failure.
    Failed(FailureKind),
}

/// The outcome of the action last asked for.
#[derive(Debug)]
pub enum Event {
    Connected,
    ConnectFailed,
    Written,
    WriteFailed,
    /// Everything the backend sent until it closed the connection.
    Read(Vec<u8>),
    ReadFailed,
}

/// What the caller is to do next.
#[derive(Debug)]
pub enum Action {
    /// Open a new connection to the backend socket.
    Connect,
    /// Write the head of the wire request in full.
    WriteHead,
    /// Write the body of the wire request in full.
    WriteBody,
    /// Read until the backend closes the connection.
    ReadToEnd,
    /// Send this response to the client; the exchange is over.
    Respond(OutboundResponse),
    /// Send a 500 response with the failure's message; the exchange is over.
    Fail(FailureKind),
    /// The event did not fit the stage: nothing to do.
    Ignore,
}

/// The state of one exchange. Nothing in it is shared with another exchange.
#[derive(Debug)]
pub struct Pipeline {
    pub stage: Stage,
    pub wire: WireRequest,
}

pub open spec fn is_terminal(s: Stage) -> bool {
    s == Stage::Projected || s is Failed
}

/// The stage and action that `event` leads to from `stage`, for every event
/// but a completed read.
pub open spec fn transition(stage: Stage, body_empty: bool, event: Event) -> (Stage, Option<
    FailureKind,
>) {
    match (stage, event) {
        (Stage::Built, Event::Connected) => (Stage::Connected, None),
        (Stage::Built, Event::ConnectFailed) => (
            Stage::Failed(FailureKind::ConnectFailure),
            Some(FailureKind::ConnectFailure),
        ),
        (Stage::Connected, Event::Written) => (
            if body_empty {
                Stage::Sent
            } else {
                Stage::HeadWritten
            },
            None,
        ),
        (Stage::Connected, Event::WriteFailed) => (
            Stage::Failed(FailureKind::HeadWriteFailure),
            Some(FailureKind::HeadWriteFailure),
        ),
        (Stage::HeadWritten, Event::Written) => (Stage::Sent, None),
        (Stage::HeadWritten, Event::WriteFailed) => (
            Stage::Failed(FailureKind::BodyWriteFailure),
            Some(FailureKind::BodyWriteFailure),
        ),
        (Stage::Sent, Event::ReadFailed) => (
            Stage::Failed(FailureKind::ReadFailure),
            Some(FailureKind::ReadFailure),
        ),
        _ => (stage, None),
    }
}

impl Pipeline {
    /// Starts an exchange: builds the wire request and asks for a connection.
    pub fn start(req: &InboundRequest, config: &ProxyConfig) -> (r: (Pipeline, Action))
        ensures
            r.0.stage == Stage::Built,
            r.0.wire.head@ == wire_head(*req, *config),
            r.0.wire.body@ == req.body@,
            r.1 is Connect,
    {
        (Pipeline { stage: Stage::Built, wire: build_request(req, config) }, Action::Connect)
    }

    /// Takes the outcome of the last action and says what to do next.
    pub fn step(&mut self, event: Event) -> (r: Action)
        ensures
            final(self).wire == old(self).wire,
            is_terminal(old(self).stage) ==> final(self).stage == old(self).stage && r is Ignore,
            match (old(self).stage, event) {
                (Stage::Sent, Event::Read(raw)) => match raw_failure(raw@) {
                    Some(k) => final(self).stage == Stage::Failed(k) && r == Action::Fail(k),
                    None => final(self).stage == Stage::Projected && (match r {
                        Action::Respond(o) => projected_from(raw@, o),
                        _ => false,
                    }),
                },
                _ => {
                    let (s, f) = transition(
                        old(self).stage,
                        old(self).wire.body@.len() == 0,
                        event,
                    );
                    &&& final(self).stage == s
                    &&& match f {
                        Some(k) => r == Action::Fail(k),
                        None => if s == old(self).stage {
                            r is Ignore
                        } else if s == Stage::Connected {
                            r is WriteHead
                        } else if s == Stage::HeadWritten {
                            r is WriteBody
                        } else {
                            r is ReadToEnd
                        },
                    }
                },
            },
    {
        match (self.stage, event) {
            (Stage::Built, Event::Connected) => {
                self.stage = Stage::Connected;
                Action::WriteHead
            },
            (Stage::Built, Event::ConnectFailed) => {
                self.stage = Stage::Failed(FailureKind::ConnectFailure);
                Action::Fail(FailureKind::ConnectFailure)
            },
            (Stage::Connected, Event::Written) => {
                if self.wire.body.len() == 0 {
                    self.stage = Stage::Sent;
                    Action::ReadToEnd
                } else {
                    self.stage = Stage::HeadWritten;
                    Action::WriteBody
                }
            },
            (Stage::Connected, Event::WriteFailed) => {
                self.stage = Stage::Failed(FailureKind::HeadWriteFailure);
                Action::Fail(FailureKind::HeadWriteFailure)
            },
            (Stage::HeadWritten, Event::Written) => {
                self.stage = Stage::Sent;
                Action::ReadToEnd
            },
            (Stage::HeadWritten, Event::WriteFailed) => {
                self.stage = Stage::Failed(FailureKind::BodyWriteFailure);
                Action::Fail(FailureKind::BodyWriteFailure)
            },
            (Stage::Sent, Event::Read(raw)) => match respond_to(raw.as_slice()) {
                Ok(o) => {
                    self.stage = Stage::Projected;
                    Action::Respond(o)
                },
                Err(k) => {
                    self.stage = Stage::Failed(k);
                    Action::Fail(k)
                },
            },
            (Stage::Sent, Event::ReadFailed) => {
                self.stage = Stage::Failed(FailureKind::ReadFailure);
                Action::Fail(FailureKind::ReadFailure)
            },
            _ => Action::Ignore,
        }
    }
}

} // verus!
