//! The control protocol: one line with a request, one line with the answer.
use crate::artifact::Kind;
use crate::telemetry;
use vstd::prelude::*;

verus! {

pub const PROTOCOL_VERSION: u8 = 1;

/// The most bytes of a request, its line end included.
pub const MAX_REQUEST_BYTES: usize = 4096;

/// How many seconds there are to send a request.
pub const REQUEST_SECONDS: u64 = 2;

#[derive(Debug, Clone, Copy, PartialEq, Eq, Structural)]
pub enum Action {
    Status,
    History,
    Drain,
    Resume,
    Reload,
}

#[derive(Debug, Clone, Copy, PartialEq, Eq, Structural)]
pub enum DrainReason {
    GatewayUpdate,
    Reconciliation,
    Operator,
}

/// A request as it is written.
#[derive(Debug, Clone, Copy, PartialEq, Eq)]
pub struct WireRequest {
    pub version: u8,
    pub action: Action,
    pub reason: Option<DrainReason>,
    pub drain_generation: Option<u64>,
    pub after_sequence: Option<u64>,
}

/// A request that was accepted.
#[derive(Debug, Clone, Copy, PartialEq, Eq)]
pub struct Request {
    pub action: Action,
    pub drain_generation: Option<u64>,
    pub after_sequence: Option<u64>,
}

#[derive(Debug)]
pub struct Response {
    pub ok: bool,
    pub instance_id: String,
    pub state: String,
    pub drain_generation: u64,
    pub active_requests: usize,
    pub queued_requests: usize,
    pub catalog_generation: u64,
    pub profile_generation: u64,
    pub history: Option<telemetry::Batch>,
    pub error: Option<Error>,
}

/// Why a request failed.
#[derive(Debug, Clone, Copy)]
pub struct Error {
    pub code: &'static str,
}

pub open spec fn invalid(error: Error) -> bool {
    error.code@ == "invalid_request"@
}

fn invalid_request() -> (r: Error)
    ensures
        invalid(r),
{
    Error { code: "invalid_request" }
}

/// A line that can hold a request: not empty, not too long, and ended.
pub open spec fn framed(line: Seq<u8>) -> bool {
    0 < line.len() <= MAX_REQUEST_BYTES && line.last() == 10
}

/// Which fields go with which action.
pub open spec fn fields_fit(wire: WireRequest) -> bool {
    match wire.action {
        Action::Drain => wire.reason is Some && wire.drain_generation is None
            && wire.after_sequence is None,
        Action::Resume => wire.reason is None && wire.drain_generation is Some
            && wire.after_sequence is None,
        Action::History => wire.reason is None && wire.drain_generation is None,
        Action::Status | Action::Reload => wire.reason is None && wire.drain_generation is None
            && wire.after_sequence is None,
    }
}

/// The text of the request in a line that was read, without its end. Nothing was read in time where there is no line.
pub fn request_text(line: Option<&Vec<u8>>) -> (r: Result<Vec<u8>, Error>)
    ensures
        r is Ok <==> line is Some && framed(line->0@),
        r matches Ok(text) ==> text@ == line->0@.drop_last(),
        r matches Err(e) ==> invalid(e),
{
    let line = match line {
        None => {
            return Err(invalid_request());
        },
        Some(line) => line,
    };
    let count: usize = line.len();
    if count == 0 || count > MAX_REQUEST_BYTES || line[count - 1] != 10 {
        return Err(invalid_request());
    }
    let mut text: Vec<u8> = Vec::new();
    let mut i: usize = 0;
    while i < count - 1
        invariant
            i <= count - 1,
            count == line.len(),
            count > 0,
            text@ == line@.take(i as int),
        decreases count - i,
    {
        text.push(line[i]);
        i = i + 1;
    }
    assert(text@ =~= line@.drop_last());
    Ok(text)
}

/// The request that was written, if this version of the protocol knows it and its fields fit its action.
/// Nothing was written that can be read where there is no wire request.
pub fn accept_request(wire: Option<WireRequest>) -> (r: Result<Request, Error>)
    ensures
        r is Ok <==> (wire matches Some(w) && w.version == PROTOCOL_VERSION && fields_fit(w)),
        r matches Ok(request) ==> request.action == wire->0.action && request.drain_generation
            == wire->0.drain_generation && request.after_sequence == wire->0.after_sequence,
        r matches Err(e) ==> if wire matches Some(w) && w.version != PROTOCOL_VERSION {
            e.code@ == "unsupported_version"@
        } else {
            invalid(e)
        },
{
    let wire = match wire {
        None => {
            return Err(invalid_request());
        },
        Some(wire) => wire,
    };
    if wire.version != PROTOCOL_VERSION {
        return Err(Error { code: "unsupported_version" });
    }
    let fits = match wire.action {
        Action::Drain => wire.reason.is_some() && wire.drain_generation.is_none()
            && wire.after_sequence.is_none(),
        Action::Resume => wire.reason.is_none() && wire.drain_generation.is_some()
            && wire.after_sequence.is_none(),
        Action::History => wire.reason.is_none() && wire.drain_generation.is_none(),
        Action::Status | Action::Reload => wire.reason.is_none() && wire.drain_generation.is_none()
            && wire.after_sequence.is_none(),
    };
    if !fits {
        return Err(invalid_request());
    }
    Ok(
        Request {
            action: wire.action,
            drain_generation: wire.drain_generation,
            after_sequence: wire.after_sequence,
        },
    )
}

/// A resume that is accepted names the drain that it ends.
pub proof fn law_accepted_resume_names_its_drain(wire: WireRequest)
    requires
        wire.action == Action::Resume,
        fields_fit(wire),
    ensures
        wire.drain_generation is Some,
{
}

/// Why the control socket was not opened.
#[derive(Debug, Clone, Copy, PartialEq, Eq, Structural)]
pub enum BindError {
    NoRuntimeParent,
    NotDirectDirectory,
    SocketExists,
}

impl BindError {
    pub fn message(&self) -> (r: &'static str)
        ensures
            r@ == match self {
                BindError::NoRuntimeParent =>
                    "gateway config directory must have a runtime parent"@,
                BindError::NotDirectDirectory => "gateway control path is not a direct directory"@,
                BindError::SocketExists => "gateway control socket path already exists"@,
            },
    {
        match self {
            BindError::NoRuntimeParent => "gateway config directory must have a runtime parent",
            BindError::NotDirectDirectory => "gateway control path is not a direct directory",
            BindError::SocketExists => "gateway control socket path already exists",
        }
    }
}

/// Whether the directory of the socket is to be made, given what was found in its place.
pub fn needs_directory(found: Option<Kind>) -> (r: Result<bool, BindError>)
    ensures
        r == match found {
            None => Ok::<bool, BindError>(true),
            Some(Kind::Directory) => Ok(false),
            Some(_) => Err(BindError::NotDirectDirectory),
        },
{
    match found {
        None => Ok(true),
        Some(Kind::Directory) => Ok(false),
        Some(Kind::File) | Some(Kind::Link) | Some(Kind::Other) => Err(
            BindError::NotDirectDirectory,
        ),
    }
}

/// A socket is only opened where nothing is: what a gateway left behind is not taken over.
pub fn check_socket_path(found: Option<Kind>) -> (r: Result<(), BindError>)
    ensures
        r == if found is None {
            Ok::<(), BindError>(())
        } else {
            Err(BindError::SocketExists)
        },
{
    match found {
        None => Ok(()),
        Some(_) => Err(BindError::SocketExists),
    }
}

/// A request takes one line of at most so many bytes, its end included, and nothing without an end is one.
pub proof fn law_a_request_is_one_line(line: Seq<u8>)
    ensures
        framed(line) <==> {
            &&& 1 <= line.len() <= 4096
            &&& line[line.len() - 1] == 10
        },
{
}

/// A reason goes with a drain, and a drain never comes without; the number of a drain goes with a resume, and a resume
/// never comes without; the number of an event only goes with a look at the history.
pub proof fn law_fields_go_with_their_action(wire: WireRequest)
    ensures
        fields_fit(wire) <==> {
            &&& wire.reason is Some <==> wire.action == Action::Drain
            &&& wire.drain_generation is Some <==> wire.action == Action::Resume
            &&& wire.after_sequence is Some ==> wire.action == Action::History
        },
{
}

} // verus!
