//! The decisions of a daemon client: numbering requests, accepting the
//! matching response, recognising the end of a streamed index run, and
//! bringing up a daemon when none answers.

use vstd::prelude::*;

use crate::protocol::{DaemonError, Envelope, Observation, Response};
use crate::text::{concat, decimal_of, format_u64, push_str_chars, trim_white, trimmed};

verus! {

/// The most daemon stderr kept while waiting for it to start.
pub const MAX_STARTUP_STDERR_BYTES: usize = 65536;

/// Numbers the requests of one connection, from 1 up.
pub struct RequestCounter {
    next_id: u64,
}

impl RequestCounter {
    /// The id the next request gets.
    pub closed spec fn peek(self) -> u64 {
        self.next_id
    }

    /// A counter whose first request is number 1.
    pub fn new() -> (res: Self)
        ensures
            res.peek() == 1,
    {
        RequestCounter { next_id: 1 }
    }

    /// The id the next request gets.
    pub fn next_id(&self) -> (res: u64)
        ensures
            res == self.peek(),
    {
        self.next_id
    }

    /// Takes the next request id.
    pub fn take(&mut self) -> (res: u64)
        requires
            old(self).peek() < u64::MAX,
        ensures
            res == old(self).peek(),
            final(self).peek() == old(self).peek() + 1,
    {
        let id = self.next_id;
        self.next_id = id + 1;
        id
    }
}

/// Accepts the response to request `sent`: an envelope for another request
/// is malformed, an error response is that error, anything else is the
/// answer.
pub fn accept_response(sent: u64, envelope: Envelope<Response>) -> (res: Result<
    Response,
    DaemonError,
>)
    ensures
        envelope.request_id != sent ==> (res matches Err(DaemonError::Malformed { detail })
            && detail@ == "response id mismatch: sent "@ + decimal_of(sent as nat) + ", got "@
            + decimal_of(envelope.request_id as nat)),
        envelope.request_id == sent ==> match envelope.payload {
            Response::Error(e) => res == Err::<Response, DaemonError>(e),
            other => res == Ok::<Response, DaemonError>(other),
        },
{
    if envelope.request_id != sent {
        let mut detail = concat("response id mismatch: sent ", format_u64(sent).as_str());
        push_str_chars(&mut detail, ", got ");
        push_str_chars(&mut detail, format_u64(envelope.request_id).as_str());
        return Err(DaemonError::Malformed { detail });
    }
    match envelope.payload {
        Response::Error(e) => Err(e),
        other => Ok(other),
    }
}

/// What a daemon answered to a Hello or an Observe.
#[derive(Debug, PartialEq)]
pub enum Reply<T> {
    /// The expected answer.
    Accepted(T),
    /// An answer of another kind; the caller reports it as malformed.
    Unexpected(Response),
}

/// Whether an accepted answer to a Hello is the Hello answer.
pub fn hello_reply(resp: Response) -> (res: Reply<()>)
    ensures
        resp is Hello ==> res == Reply::<()>::Accepted(()),
        !(resp is Hello) ==> res == Reply::<()>::Unexpected(resp),
{
    match resp {
        Response::Hello { .. } => Reply::Accepted(()),
        other => Reply::Unexpected(other),
    }
}

/// Takes the observation out of an accepted answer to an Observe.
pub fn observe_reply(resp: Response) -> (res: Reply<Observation>)
    ensures
        match resp {
            Response::Observation(obs) => res == Reply::<Observation>::Accepted(obs),
            other => res == Reply::<Observation>::Unexpected(other),
        },
{
    match resp {
        Response::Observation(obs) => Reply::Accepted(obs),
        other => Reply::Unexpected(other),
    }
}

/// Whether a streamed frame ends an index run: the report or an error.
pub open spec fn is_terminal_frame(resp: Response) -> bool {
    resp is IndexDone || resp is Error
}

/// Turns what was read while streaming request `expected` into the frame
/// handed on, and says whether the stream ends with it. A read error, or a
/// frame for another request, becomes an error frame.
pub fn stream_frame(expected: u64, read: Result<Envelope<Response>, DaemonError>) -> (res: (
    Response,
    bool,
))
    ensures
        res.1 == is_terminal_frame(res.0),
        match read {
            Err(e) => res.0 == Response::Error(e),
            Ok(env) => if env.request_id == expected {
                res.0 == env.payload
            } else {
                res.0 matches Response::Error(DaemonError::Malformed { detail }) && detail@
                    == "streaming response id mismatch: expected "@ + decimal_of(expected as nat)
                    + ", got "@ + decimal_of(env.request_id as nat)
            },
        },
{
    let payload = match read {
        Ok(env) => if env.request_id == expected {
            env.payload
        } else {
            let mut detail = concat(
                "streaming response id mismatch: expected ",
                format_u64(expected).as_str(),
            );
            push_str_chars(&mut detail, ", got ");
            push_str_chars(&mut detail, format_u64(env.request_id).as_str());
            Response::Error(DaemonError::Malformed { detail })
        },
        Err(e) => Response::Error(e),
    };
    let terminal = matches!(payload, Response::IndexDone(_)) || matches!(payload, Response::Error(_));
    (payload, terminal)
}

/// Appends what was read from the daemon's stderr, keeping at most
/// [`MAX_STARTUP_STDERR_BYTES`] in all.
pub fn append_capped(captured: &mut Vec<u8>, chunk: &[u8])
    ensures
        old(captured)@.len() >= MAX_STARTUP_STDERR_BYTES ==> final(captured)@ == old(captured)@,
        old(captured)@.len() < MAX_STARTUP_STDERR_BYTES ==> final(captured)@ == old(captured)@
            + chunk@.take(
            if chunk@.len() < MAX_STARTUP_STDERR_BYTES - old(captured)@.len() {
                chunk@.len() as int
            } else {
                MAX_STARTUP_STDERR_BYTES - old(captured)@.len()
            },
        ),
{
    if captured.len() >= MAX_STARTUP_STDERR_BYTES {
        return;
    }
    let room = MAX_STARTUP_STDERR_BYTES - captured.len();
    let take = if chunk.len() < room {
        chunk.len()
    } else {
        room
    };
    let ghost start = captured@;
    for i in 0..take
        invariant
            take <= chunk@.len(),
            captured@ == start + chunk@.take(i as int),
    {
        captured.push(chunk[i]);
        assert(chunk@.take(i + 1) == chunk@.take(i as int).push(chunk@[i as int]));
    }
}

/// What the spawning client does next.
#[derive(Debug, PartialEq)]
pub enum SpawnStep {
    /// A daemon answers on the socket: connect to it.
    Connect,
    /// No daemon answers and none was started: start one.
    Spawn,
    /// Give up with this error.
    Fail(DaemonError),
    /// Wait a little and probe again.
    Wait,
}

/// The message for a daemon that exited while starting: its exit status,
/// then its trimmed stderr when that is not empty.
pub open spec fn exit_message(status: Seq<char>, stderr: Option<Seq<char>>) -> Seq<char> {
    "daemon exited with "@ + status + match stderr {
        Some(text) => if trimmed(text).len() > 0 {
            ": "@ + trimmed(text)
        } else {
            Seq::empty()
        },
        None => Seq::empty(),
    }
}

/// Decides the next step of bringing up a daemon. A daemon that answers is
/// connected to; otherwise one is started once. A started daemon that has
/// exited fails the attempt with its status and stderr; past the deadline
/// the attempt times out; else the client waits and probes again.
pub fn spawn_step(
    connected: bool,
    spawned: bool,
    exit_status: Option<&str>,
    stderr: Option<&str>,
    timed_out: bool,
) -> (res: SpawnStep)
    ensures
        connected ==> res == SpawnStep::Connect,
        !connected && !spawned ==> res == SpawnStep::Spawn,
        !connected && spawned && exit_status is Some ==> (res matches SpawnStep::Fail(
            DaemonError::Internal { detail },
        ) && detail@ == exit_message(
            exit_status->Some_0@,
            match stderr {
                Some(t) => Some(t@),
                None => None,
            },
        )),
        !connected && spawned && exit_status is None && timed_out ==> (res matches SpawnStep::Fail(
            DaemonError::Internal { detail },
        ) && detail@ == "timed out waiting for daemon"@),
        !connected && spawned && exit_status is None && !timed_out ==> res == SpawnStep::Wait,
{
    if connected {
        return SpawnStep::Connect;
    }
    if !spawned {
        return SpawnStep::Spawn;
    }
    if let Some(status) = exit_status {
        let mut detail = concat("daemon exited with ", status);
        if let Some(text) = stderr {
            let t = trim_white(text);
            if !t.as_str().is_empty() {
                push_str_chars(&mut detail, ": ");
                push_str_chars(&mut detail, t.as_str());
            }
        }
        return SpawnStep::Fail(DaemonError::Internal { detail });
    }
    if timed_out {
        return SpawnStep::Fail(
            DaemonError::Internal { detail: "timed out waiting for daemon".to_owned() },
        );
    }
    SpawnStep::Wait
}

} // verus!
