//! The console API's error model, wire types, and the arithmetic of its
//! history queries.

use vstd::prelude::*;

use crate::console::registry::RegistryError;
use crate::protocol::{DaemonError, IndexPhase, IndexReportWire};
use crate::text::{concat, decimal_of, format_u64};

verus! {

/// The error body every failed API request answers with.
#[derive(Debug, Clone, PartialEq, Eq)]
pub struct ApiError {
    pub code: String,
    pub message: String,
    pub retryable: bool,
}

/// Whether `e` carries exactly this code, message and retry flag.
pub open spec fn api_error_is(e: ApiError, code: Seq<char>, message: Seq<char>, retryable: bool) -> bool {
    e.code@ == code && e.message@ == message && e.retryable == retryable
}

impl ApiError {
    /// An error with the given code, message and retry flag.
    pub fn new(code: &str, message: &str, retryable: bool) -> (res: Self)
        ensures
            api_error_is(res, code@, message@, retryable),
    {
        ApiError { code: code.to_owned(), message: message.to_owned(), retryable }
    }

    /// A request that does not meet the endpoint's contract.
    pub fn invalid(message: &str) -> (res: Self)
        ensures
            api_error_is(res, "invalid_request"@, message@, false),
    {
        ApiError::new("invalid_request", message, false)
    }

    /// An unknown registration or job.
    pub fn missing() -> (res: Self)
        ensures
            api_error_is(
                res,
                "not_found"@,
                "The requested registration or job does not exist."@,
                false,
            ),
    {
        ApiError::new("not_found", "The requested registration or job does not exist.", false)
    }

    /// Console metadata that could not be recorded.
    pub fn database() -> (res: Self)
        ensures
            api_error_is(
                res,
                "history_recording_error"@,
                "Console metadata could not be recorded. Daemon retrieval remains available."@,
                true,
            ),
    {
        ApiError::new(
            "history_recording_error",
            "Console metadata could not be recorded. Daemon retrieval remains available.",
            true,
        )
    }

    /// A response deadline that elapsed.
    pub fn timeout() -> (res: Self)
        ensures
            api_error_is(
                res,
                "timeout"@,
                "The response deadline elapsed. The disconnected operation may still be running."@,
                true,
            ),
    {
        ApiError::new(
            "timeout",
            "The response deadline elapsed. The disconnected operation may still be running.",
            true,
        )
    }

    /// The HTTP status an error code answers with.
    pub fn status(&self) -> (res: u16)
        ensures
            res == status_of_code(self.code@),
    {
        let c = self.code.as_str();
        if str_in(c, &["not_found", "symbol_not_found"]) {
            404
        } else if str_in(c, &["invalid_host", "invalid_request", "invalid_registration"]) {
            400
        } else if str_in(c, &["cross_origin", "invalid_csrf", "forbidden"]) {
            403
        } else if crate::text::str_eq(c, "unsupported_media_type") {
            415
        } else if crate::text::str_eq(c, "request_too_large") {
            413
        } else if str_in(
            c,
            &["duplicate_store", "index_in_progress", "symbol_ambiguous", "store_stale"],
        ) {
            409
        } else if crate::text::str_eq(c, "timeout") {
            504
        } else {
            503
        }
    }

    /// The API error a daemon error is reported as.
    pub fn from_daemon(e: &DaemonError) -> (res: Self)
        ensures
            api_error_is(res, daemon_code(*e), daemon_message(*e), daemon_retryable(*e)),
    {
        match e {
            DaemonError::ProtocolVersion { .. } => ApiError::new(
                "protocol_incompatible",
                "The configured daemon uses an incompatible protocol. It was not replaced.",
                false,
            ),
            DaemonError::Starting => ApiError::new("starting", "The daemon is starting.", true),
            DaemonError::IndexInProgress => ApiError::new(
                "index_in_progress",
                "An indexing operation is already running.",
                true,
            ),
            DaemonError::SymbolNotFound { .. } => ApiError::new(
                "symbol_not_found",
                "The symbol was not found in the current index.",
                false,
            ),
            DaemonError::SymbolAmbiguous { .. } => ApiError::new(
                "symbol_ambiguous",
                "The symbol is ambiguous; specify its qualified name.",
                false,
            ),
            DaemonError::StoreStale { .. } => ApiError::new(
                "store_stale",
                "The index is stale; explicitly index the registered repository.",
                false,
            ),
            DaemonError::GpuUnavailable { .. } => ApiError::new(
                "gpu_unavailable",
                "Daemon inference is unavailable.",
                true,
            ),
            DaemonError::RequestTooLarge { .. } => ApiError::new(
                "request_too_large",
                "The request exceeds the daemon frame limit.",
                false,
            ),
            DaemonError::Malformed { .. } => ApiError::new(
                "connection_lost",
                "The daemon response was lost or invalid. The operation may still be running.",
                true,
            ),
            DaemonError::Internal { .. } => ApiError::new(
                "daemon_unavailable",
                "Could not connect to or start the configured daemon.",
                true,
            ),
            DaemonError::ObserverForbidden { .. } => ApiError::new(
                "forbidden",
                "This operation is not allowed on an observer connection.",
                false,
            ),
        }
    }

    /// The API error a registry error is reported as: an unknown
    /// registration is `not_found`, a store already in use
    /// `duplicate_store`, and any other refusal `invalid_registration` with
    /// the refusal's text.
    pub fn from_registry(e: &RegistryError) -> (res: Self)
        ensures
            match *e {
                RegistryError::Unknown(_) => api_error_is(
                    res,
                    "not_found"@,
                    "The requested registration or job does not exist."@,
                    false,
                ),
                RegistryError::DuplicateStore(_) => api_error_is(
                    res,
                    "duplicate_store"@,
                    "A registration already uses this canonical store location."@,
                    false,
                ),
                _ => api_error_is(
                    res,
                    "invalid_registration"@,
                    crate::console::registry::registry_message(*e),
                    false,
                ),
            },
    {
        match e {
            RegistryError::Unknown(_) => ApiError::missing(),
            RegistryError::DuplicateStore(_) => ApiError::new(
                "duplicate_store",
                "A registration already uses this canonical store location.",
                false,
            ),
            _ => {
                let text = e.describe();
                ApiError::new("invalid_registration", text.as_str(), false)
            },
        }
    }
}

/// Whether `s` is one of `options`.
fn str_in(s: &str, options: &[&str]) -> (res: bool)
    ensures
        res == exists|i: int| 0 <= i < options@.len() && (#[trigger] options@[i])@ == s@,
{
    let n = options.len();
    for i in 0..n
        invariant
            n == options@.len(),
            forall|k: int| 0 <= k < i ==> (#[trigger] options@[k])@ != s@,
    {
        if crate::text::str_eq(options[i], s) {
            return true;
        }
    }
    false
}

/// The HTTP status of an error code: not found 404, bad requests 400,
/// forbidden origins and tokens 403, wrong media type 415, oversized
/// requests 413, conflicts 409, timeouts 504, anything else 503.
pub open spec fn status_of_code(code: Seq<char>) -> u16 {
    if code == "not_found"@ || code == "symbol_not_found"@ {
        404
    } else if code == "invalid_host"@ || code == "invalid_request"@ || code
        == "invalid_registration"@ {
        400
    } else if code == "cross_origin"@ || code == "invalid_csrf"@ || code == "forbidden"@ {
        403
    } else if code == "unsupported_media_type"@ {
        415
    } else if code == "request_too_large"@ {
        413
    } else if code == "duplicate_store"@ || code == "index_in_progress"@ || code
        == "symbol_ambiguous"@ || code == "store_stale"@ {
        409
    } else if code == "timeout"@ {
        504
    } else {
        503
    }
}

/// The API code a daemon error is reported under.
pub open spec fn daemon_code(e: DaemonError) -> Seq<char> {
    match e {
        DaemonError::ProtocolVersion { .. } => "protocol_incompatible"@,
        DaemonError::Starting => "starting"@,
        DaemonError::IndexInProgress => "index_in_progress"@,
        DaemonError::SymbolNotFound { .. } => "symbol_not_found"@,
        DaemonError::SymbolAmbiguous { .. } => "symbol_ambiguous"@,
        DaemonError::StoreStale { .. } => "store_stale"@,
        DaemonError::GpuUnavailable { .. } => "gpu_unavailable"@,
        DaemonError::RequestTooLarge { .. } => "request_too_large"@,
        DaemonError::Malformed { .. } => "connection_lost"@,
        DaemonError::Internal { .. } => "daemon_unavailable"@,
        DaemonError::ObserverForbidden { .. } => "forbidden"@,
    }
}

/// The message a daemon error is reported with; never the daemon's own
/// detail.
pub open spec fn daemon_message(e: DaemonError) -> Seq<char> {
    match e {
        DaemonError::ProtocolVersion { .. } =>
            "The configured daemon uses an incompatible protocol. It was not replaced."@,
        DaemonError::Starting => "The daemon is starting."@,
        DaemonError::IndexInProgress => "An indexing operation is already running."@,
        DaemonError::SymbolNotFound { .. } => "The symbol was not found in the current index."@,
        DaemonError::SymbolAmbiguous { .. } =>
            "The symbol is ambiguous; specify its qualified name."@,
        DaemonError::StoreStale { .. } =>
            "The index is stale; explicitly index the registered repository."@,
        DaemonError::GpuUnavailable { .. } => "Daemon inference is unavailable."@,
        DaemonError::RequestTooLarge { .. } => "The request exceeds the daemon frame limit."@,
        DaemonError::Malformed { .. } =>
            "The daemon response was lost or invalid. The operation may still be running."@,
        DaemonError::Internal { .. } => "Could not connect to or start the configured daemon."@,
        DaemonError::ObserverForbidden { .. } =>
            "This operation is not allowed on an observer connection."@,
    }
}

/// Whether a daemon error is worth retrying: a starting daemon, a running
/// index, unavailable inference, a lost connection, or an unreachable
/// daemon.
pub open spec fn daemon_retryable(e: DaemonError) -> bool {
    match e {
        DaemonError::Starting | DaemonError::IndexInProgress | DaemonError::GpuUnavailable { .. }
        | DaemonError::Malformed { .. } | DaemonError::Internal { .. } => true,
        _ => false,
    }
}

/// The error for a daemon answer of an unexpected kind.
pub fn unexpected() -> (res: ApiError)
    ensures
        api_error_is(
            res,
            "connection_lost"@,
            "The daemon returned an unexpected response."@,
            true,
        ),
{
    ApiError::new("connection_lost", "The daemon returned an unexpected response.", true)
}

/// Refuses to change a registration while it is being indexed.
pub fn ensure_idle(indexing: bool) -> (res: Result<(), ApiError>)
    ensures
        !indexing ==> res is Ok,
        indexing ==> (res matches Err(e) && api_error_is(
            e,
            "index_in_progress"@,
            "The registration cannot change while indexing is running."@,
            true,
        )),
{
    if indexing {
        Err(
            ApiError::new(
                "index_in_progress",
                "The registration cannot change while indexing is running.",
                true,
            ),
        )
    } else {
        Ok(())
    }
}

/// A page of items with the cursor of the next page, if any.
#[derive(Debug, Clone)]
pub struct Page<T> {
    pub items: Vec<T>,
    pub next_cursor: Option<String>,
}

/// The state of a console operation.
#[derive(Debug, Clone, Copy, PartialEq, Eq, Structural)]
pub enum JobState {
    Queued,
    Running,
    Succeeded,
    Failed,
    Interrupted,
}

/// What a console operation does.
#[derive(Debug, Clone, Copy, PartialEq, Eq, Structural)]
pub enum OperationType {
    UpdateIndex,
    FullRebuild,
    StartDaemon,
}

/// Where a console operation is.
#[derive(Debug, Clone, Copy, PartialEq, Eq, Structural)]
pub enum OperationPhase {
    Queued,
    SpawningDaemon,
    WaitingForSocket,
    Connecting,
    InitializingCuda,
    OpeningStore,
    LoadingModel,
    Walking,
    Parsing,
    Embedding,
    Storing,
    Compacting,
    Ready,
    Completed,
    Failed,
    Interrupted,
}

/// One step of an operation's history.
#[derive(Debug, PartialEq)]
pub struct OperationEvent {
    pub at_unix_ms: u64,
    pub state: JobState,
    pub phase: OperationPhase,
    pub message: String,
}

impl Clone for OperationEvent {
    fn clone(&self) -> (res: Self)
        ensures
            res == *self,
    {
        OperationEvent {
            at_unix_ms: self.at_unix_ms,
            state: self.state,
            phase: self.phase,
            message: self.message.clone(),
        }
    }
}

/// A console operation on a registered repository.
#[derive(Debug, PartialEq)]
pub struct IndexJob {
    pub id: String,
    pub repository_id: String,
    pub state: JobState,
    pub operation_type: OperationType,
    pub phase: OperationPhase,
    pub progress: Option<IndexPhase>,
    pub done: u64,
    pub total: Option<u64>,
    pub report: Option<IndexReportWire>,
    pub error_code: Option<String>,
    pub error_message: Option<String>,
    pub daemon_instance_id: Option<String>,
    pub started_at_unix_ms: u64,
    pub updated_at_unix_ms: u64,
    pub completed_at_unix_ms: Option<u64>,
    pub events: Vec<OperationEvent>,
}

/// A copy of the events of an operation.
fn copy_events(events: &Vec<OperationEvent>) -> (res: Vec<OperationEvent>)
    ensures
        res@ == events@,
{
    let mut out: Vec<OperationEvent> = Vec::new();
    let n = events.len();
    for i in 0..n
        invariant
            n == events@.len(),
            out@ == events@.take(i as int),
    {
        out.push(events[i].clone());
        assert(events@.take(i + 1) == events@.take(i as int).push(events@[i as int]));
    }
    assert(events@.take(n as int) == events@);
    out
}

/// Whether two jobs agree in every field, their event lists by content.
pub open spec fn same_job(a: IndexJob, b: IndexJob) -> bool {
    &&& a.id == b.id
    &&& a.repository_id == b.repository_id
    &&& a.state == b.state
    &&& a.operation_type == b.operation_type
    &&& a.phase == b.phase
    &&& a.progress == b.progress
    &&& a.done == b.done
    &&& a.total == b.total
    &&& a.report == b.report
    &&& a.error_code == b.error_code
    &&& a.error_message == b.error_message
    &&& a.daemon_instance_id == b.daemon_instance_id
    &&& a.started_at_unix_ms == b.started_at_unix_ms
    &&& a.updated_at_unix_ms == b.updated_at_unix_ms
    &&& a.completed_at_unix_ms == b.completed_at_unix_ms
    &&& a.events@ == b.events@
}

impl Clone for IndexJob {
    fn clone(&self) -> (res: Self)
        ensures
            same_job(res, *self),
    {
        IndexJob {
            id: self.id.clone(),
            repository_id: self.repository_id.clone(),
            state: self.state,
            operation_type: self.operation_type,
            phase: self.phase,
            progress: self.progress,
            done: self.done,
            total: self.total,
            report: match &self.report {
                Some(r) => Some(r.clone()),
                None => None,
            },
            error_code: crate::protocol::copy_opt_string(&self.error_code),
            error_message: crate::protocol::copy_opt_string(&self.error_message),
            daemon_instance_id: crate::protocol::copy_opt_string(&self.daemon_instance_id),
            started_at_unix_ms: self.started_at_unix_ms,
            updated_at_unix_ms: self.updated_at_unix_ms,
            completed_at_unix_ms: self.completed_at_unix_ms,
            events: copy_events(&self.events),
        }
    }
}

/// A search request body.
#[derive(Debug, Clone, PartialEq, Eq)]
pub struct SearchInput {
    pub query: String,
    pub top_k: usize,
}

/// A similar-code request body.
#[derive(Debug, Clone, PartialEq, Eq)]
pub struct SimilarInput {
    pub code: String,
    pub top_k: usize,
}

/// A symbol lookup request body.
#[derive(Debug, Clone, PartialEq, Eq)]
pub struct SymbolInput {
    pub file: String,
    pub symbol: String,
}

/// An index request body.
#[derive(Debug, Clone, Copy, PartialEq, Eq)]
pub struct IndexInput {
    pub mode: IndexMode,
}

/// How an index request rebuilds.
#[derive(Debug, Clone, Copy, PartialEq, Eq, Structural)]
pub enum IndexMode {
    Update,
    Full,
}

/// The number of results a search asks for when the body does not say.
pub fn default_top_k() -> (res: usize)
    ensures
        res == 5,
{
    5
}

/// The daemon's index mode for a console index request.
pub fn daemon_index_mode(mode: IndexMode) -> (res: crate::protocol::IndexMode)
    ensures
        mode == IndexMode::Update ==> res == crate::protocol::IndexMode::Update,
        mode == IndexMode::Full ==> res == crate::protocol::IndexMode::Full,
{
    match mode {
        IndexMode::Update => crate::protocol::IndexMode::Update,
        IndexMode::Full => crate::protocol::IndexMode::Full,
    }
}

/// How far back a history query reaches when it names no start: one hour.
pub const DEFAULT_HISTORY_MILLIS: u64 = 3600000;

/// The time window of a history query: it ends at `to` (now when absent)
/// and starts at `from` (an hour before the end when absent). A window that
/// runs backwards or spans more than the retention period is refused.
pub fn window(from: Option<u64>, to: Option<u64>, now: u64) -> (res: Result<(u64, u64), ApiError>)
    ensures
        ({
            let end = match to {
                Some(t) => t,
                None => now,
            };
            let start = match from {
                Some(f) => f,
                None => if end >= DEFAULT_HISTORY_MILLIS {
                    (end - DEFAULT_HISTORY_MILLIS) as u64
                } else {
                    0
                },
            };
            if start > end || end - start > crate::console::history::RETENTION_MILLIS {
                res matches Err(e) && api_error_is(
                    e,
                    "invalid_request"@,
                    "History windows must be ordered and no longer than seven days."@,
                    false,
                )
            } else {
                res == Ok::<(u64, u64), ApiError>((start, end))
            }
        }),
{
    let end = match to {
        Some(t) => t,
        None => now,
    };
    let start = match from {
        Some(f) => f,
        None => end.saturating_sub(DEFAULT_HISTORY_MILLIS),
    };
    if start > end || end.saturating_sub(start) > crate::console::history::RETENTION_MILLIS {
        return Err(
            ApiError::invalid("History windows must be ordered and no longer than seven days."),
        );
    }
    Ok((start, end))
}

/// The slice of a listing a page shows and the cursor of the next page:
/// from `cursor` (0 when absent), at most `limit` items (50 when absent,
/// kept within 1 to 200). A next cursor is given only when items remain.
pub fn page_bounds(len: usize, cursor: Option<usize>, limit: Option<usize>) -> (res: (
    usize,
    usize,
    Option<String>,
))
    ensures
        ({
            let offset = match cursor {
                Some(c) => c,
                None => 0,
            };
            let asked = match limit {
                Some(l) => l,
                None => 50,
            };
            let lim = if asked < 1 {
                1
            } else if asked > 200 {
                200
            } else {
                asked
            };
            &&& res.0 == if offset < len {
                offset
            } else {
                len
            }
            &&& res.1 == if offset + lim < len {
                offset + lim
            } else {
                len as int
            }
            &&& offset + lim < len ==> (res.2 matches Some(c) && c@ == decimal_of(
                (offset + lim) as nat,
            ))
            &&& offset + lim >= len ==> res.2 is None
        }),
{
    let offset = match cursor {
        Some(c) => c,
        None => 0,
    };
    let asked = match limit {
        Some(l) => l,
        None => 50,
    };
    let lim = if asked < 1 {
        1
    } else if asked > 200 {
        200
    } else {
        asked
    };
    let start = if offset < len {
        offset
    } else {
        len
    };
    if offset < len && lim < len - offset {
        let end = offset + lim;
        (start, end, Some(format_u64(end as u64)))
    } else {
        (start, len, None)
    }
}

} // verus!
