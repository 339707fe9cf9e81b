//! The Hello exchange that opens every daemon connection.

use vstd::prelude::*;

use crate::protocol::{
    ClientRole, DaemonError, DaemonStatus, Envelope, Request, Response, OBSERVER_CLIENT,
    PROTOCOL_VERSION,
};

verus! {

/// A Hello that was accepted: who the client said it was, and the role that
/// name gives it.
#[derive(Debug, Clone, PartialEq)]
pub struct HelloOk {
    pub client: String,
    pub role: ClientRole,
}

/// The role a client name gives: the reserved observer name makes an
/// observer, any other name a worker.
pub open spec fn role_of(client: Seq<char>) -> ClientRole {
    if client == OBSERVER_CLIENT@ {
        ClientRole::Observer
    } else {
        ClientRole::Worker
    }
}

/// Whether `err` is the refusal of a first request that is not a Hello.
pub open spec fn is_hello_required(err: DaemonError) -> bool {
    &&& err is Malformed
    &&& err->Malformed_detail@ == "Hello required before other requests"@
}

/// Validates and answers a Hello. A Hello of another protocol version is
/// refused with `ProtocolVersion`, naming both versions; any other first
/// request is refused as `Malformed`.
pub fn handle_hello(envelope: &Envelope<Request>, model_id: &str, chunks: u64) -> (res: Result<
    (HelloOk, Box<Response>),
    Box<Response>,
>)
    ensures
        match envelope.payload {
            Request::Hello { protocol_version, client } => if protocol_version
                == PROTOCOL_VERSION {
                &&& res is Ok
                &&& res->Ok_0.0.client@ == client@
                &&& res->Ok_0.0.role == role_of(client@)
                &&& (*res->Ok_0.1 matches Response::Hello { protocol_version: v, model_id: m, chunks: c }
                    && v == PROTOCOL_VERSION && m@ == model_id@ && c == chunks)
            } else {
                res == Err::<(HelloOk, Box<Response>), Box<Response>>(
                    Box::new(
                        Response::Error(
                            DaemonError::ProtocolVersion {
                                daemon: PROTOCOL_VERSION,
                                client: protocol_version,
                            },
                        ),
                    ),
                )
            },
            _ => res is Err && (*res->Err_0 matches Response::Error(e) && is_hello_required(e)),
        },
{
    match &envelope.payload {
        Request::Hello { protocol_version, client } => {
            if *protocol_version != PROTOCOL_VERSION {
                return Err(
                    Box::new(
                        Response::Error(
                            DaemonError::ProtocolVersion {
                                daemon: PROTOCOL_VERSION,
                                client: *protocol_version,
                            },
                        ),
                    ),
                );
            }
            let role = ClientRole::from_hello_client(client.as_str());
            Ok(
                (
                    HelloOk { client: client.clone(), role },
                    Box::new(
                        Response::Hello {
                            protocol_version: PROTOCOL_VERSION,
                            model_id: model_id.to_owned(),
                            chunks,
                        },
                    ),
                ),
            )
        },
        _ => Err(
            Box::new(
                Response::Error(
                    DaemonError::Malformed {
                        detail: "Hello required before other requests".to_owned(),
                    },
                ),
            ),
        ),
    }
}

/// A Status response carrying `status`.
pub fn status_response(status: DaemonStatus) -> (res: Response)
    ensures
        res == Response::Status(status),
{
    Response::Status(status)
}

} // verus!
