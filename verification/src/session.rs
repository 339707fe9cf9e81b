//! The decisions of a daemon connection: which state the daemon reports,
//! what a connection does with its first envelope, which requests an
//! observer may make, how each request is planned, and how a request is
//! logged and recorded. The socket loop around them performs what they
//! decide.

use vstd::prelude::*;

use crate::handshake::role_of;
use crate::observe::{error_code_of, safe_error_code, TerminalEventDraft};
use crate::protocol::{
    ClientRole, DaemonError, DaemonStatus, IndexProgressSnapshot, IndexReportWire,
    LastIndexCompletion, Lifecycle, Request, ResourceSnapshot, StageTimings,
};
use crate::text::{contains_seq, str_contains, str_eq};

verus! {

/// What the daemon is serving, with the figures its status reports.
pub enum ServingView {
    /// The resident model and index are still loading.
    Starting,
    /// Searches are served from the resident index.
    Ready { model_id: String, chunks_live: u64, chunks_dead: u64, indexed_commit: Option<String> },
    /// An index run is in progress; searches use the frozen snapshot.
    Indexing {
        model_id: String,
        chunks_live: u64,
        chunks_dead: u64,
        indexed_commit: Option<String>,
    },
    /// The store was removed or replaced, or could not be loaded.
    Stale { reason: String },
}

/// The lifecycle a status reports.
pub open spec fn lifecycle_of(view: ServingView, shutting_down: bool) -> Lifecycle {
    if shutting_down {
        Lifecycle::ShuttingDown
    } else {
        match view {
            ServingView::Starting => Lifecycle::Starting,
            ServingView::Ready { .. } => Lifecycle::Ready,
            ServingView::Indexing { .. } => Lifecycle::Indexing,
            ServingView::Stale { .. } => Lifecycle::Stale,
        }
    }
}

/// Assembles the daemon status: the lifecycle (shutting down wins over the
/// serving state), and the model and chunk figures of a ready or indexing
/// daemon, absent otherwise.
pub fn build_status(
    view: &ServingView,
    shutting_down: bool,
    instance_id: String,
    observed_at_unix_ms: u64,
    idle_seconds: u64,
    uptime_seconds: u64,
    current_progress: Option<IndexProgressSnapshot>,
    last_index: Option<LastIndexCompletion>,
    resources: ResourceSnapshot,
) -> (res: DaemonStatus)
    ensures
        res.lifecycle == lifecycle_of(*view, shutting_down),
        res.instance_id == instance_id,
        res.observed_at_unix_ms == observed_at_unix_ms,
        res.idle_seconds == idle_seconds,
        res.uptime_seconds == uptime_seconds,
        res.current_progress == current_progress,
        res.last_index == last_index,
        res.resources == resources,
        match *view {
            ServingView::Ready { model_id, chunks_live, chunks_dead, indexed_commit }
            | ServingView::Indexing { model_id, chunks_live, chunks_dead, indexed_commit } => {
                &&& res.model_id == Some(model_id)
                &&& res.chunks_live == Some(chunks_live)
                &&& res.chunks_dead == Some(chunks_dead)
                &&& res.indexed_commit == indexed_commit
            },
            _ => {
                &&& res.model_id is None
                &&& res.chunks_live is None
                &&& res.chunks_dead is None
                &&& res.indexed_commit is None
            },
        },
{
    let lifecycle = if shutting_down {
        Lifecycle::ShuttingDown
    } else {
        match view {
            ServingView::Starting => Lifecycle::Starting,
            ServingView::Ready { .. } => Lifecycle::Ready,
            ServingView::Indexing { .. } => Lifecycle::Indexing,
            ServingView::Stale { .. } => Lifecycle::Stale,
        }
    };
    let (model_id, chunks_live, chunks_dead, indexed_commit) = match view {
        ServingView::Ready { model_id, chunks_live, chunks_dead, indexed_commit }
        | ServingView::Indexing { model_id, chunks_live, chunks_dead, indexed_commit } => (
            Some(model_id.clone()),
            Some(*chunks_live),
            Some(*chunks_dead),
            crate::protocol::copy_opt_string(indexed_commit),
        ),
        _ => (None, None, None, None),
    };
    DaemonStatus {
        lifecycle,
        instance_id,
        observed_at_unix_ms,
        model_id,
        chunks_live,
        chunks_dead,
        indexed_commit,
        idle_seconds,
        uptime_seconds,
        current_progress,
        last_index,
        resources,
    }
}

/// The model id and live chunk count a Hello answer carries: those of the
/// resident index, or empty and zero while none is loaded.
pub fn hello_inputs(view: &ServingView) -> (res: (String, u64))
    ensures
        match *view {
            ServingView::Ready { model_id, chunks_live, .. }
            | ServingView::Indexing { model_id, chunks_live, .. } => res.0 == model_id && res.1
                == chunks_live,
            _ => res.0@ == Seq::<char>::empty() && res.1 == 0,
        },
{
    match view {
        ServingView::Ready { model_id, chunks_live, .. }
        | ServingView::Indexing { model_id, chunks_live, .. } => (model_id.clone(), *chunks_live),
        _ => (String::new(), 0),
    }
}

/// The name a request is logged and forbidden under.
pub open spec fn request_kind_name(req: Request) -> Seq<char> {
    match req {
        Request::Hello { .. } => "Hello"@,
        Request::Search { .. } => "Search"@,
        Request::SearchSimilar { .. } => "SearchSimilar"@,
        Request::GetSymbol { .. } => "GetSymbol"@,
        Request::Index { .. } => "Index"@,
        Request::Status => "Status"@,
        Request::Shutdown => "Shutdown"@,
        Request::Observe { .. } => "Observe"@,
    }
}

/// The name of the request's variant; never any of its payload.
pub fn request_type_name(req: &Request) -> (res: &'static str)
    ensures
        res@ == request_kind_name(*req),
{
    match req {
        Request::Hello { .. } => "Hello",
        Request::Search { .. } => "Search",
        Request::SearchSimilar { .. } => "SearchSimilar",
        Request::GetSymbol { .. } => "GetSymbol",
        Request::Index { .. } => "Index",
        Request::Status => "Status",
        Request::Shutdown => "Shutdown",
        Request::Observe { .. } => "Observe",
    }
}

/// The severity a request is logged at.
#[derive(Debug, Clone, Copy, PartialEq, Eq, Structural)]
pub enum LogLevel {
    Debug,
    Info,
    Warn,
    Error,
}

/// Routine successes (Hello, Observe, Status) log at debug and other
/// successes at info; a request refused while starting or forbidden to an
/// observer warns; anything else is an error.
pub open spec fn log_level_of(req_type: Seq<char>, outcome: Seq<char>) -> LogLevel {
    if outcome == "ok"@ {
        if req_type == "Hello"@ || req_type == "Observe"@ || req_type == "Status"@ {
            LogLevel::Debug
        } else {
            LogLevel::Info
        }
    } else if outcome == "starting"@ || outcome == "forbidden"@ {
        LogLevel::Warn
    } else {
        LogLevel::Error
    }
}

/// The level a request with this type and outcome is logged at.
pub fn request_log_level(req_type: &str, outcome: &str) -> (res: LogLevel)
    ensures
        res == log_level_of(req_type@, outcome@),
{
    if str_eq(outcome, "ok") {
        if str_eq(req_type, "Hello") || str_eq(req_type, "Observe") || str_eq(req_type, "Status") {
            LogLevel::Debug
        } else {
            LogLevel::Info
        }
    } else if str_eq(outcome, "starting") || str_eq(outcome, "forbidden") {
        LogLevel::Warn
    } else {
        LogLevel::Error
    }
}

/// What a connection does with its first envelope.
#[derive(Debug, PartialEq)]
pub enum OpeningStep {
    /// Answer with `StoreStale` and close.
    RejectStale { reason: String },
    /// Answer with the status and close, still unclassified.
    AnswerStatus,
    /// Answer with `Starting` and close.
    RejectStarting,
    /// Go on to the Hello exchange.
    Handshake,
}

/// Whether `req` is a Hello that claims the observer role.
pub open spec fn is_observer_hello(req: Request) -> bool {
    req matches Request::Hello { client, .. } && role_of(client@) == ClientRole::Observer
}

/// Workers are refused while the store is stale or the daemon is starting;
/// a Status sent while starting is answered without classifying the
/// connection. An observer's Hello always goes on, so that an observer can
/// diagnose those states.
pub open spec fn opening_step_of(req: Request, view: ServingView) -> OpeningStep {
    if is_observer_hello(req) {
        OpeningStep::Handshake
    } else {
        match view {
            ServingView::Stale { reason } => OpeningStep::RejectStale { reason },
            ServingView::Starting => match req {
                Request::Hello { .. } => OpeningStep::Handshake,
                Request::Status => OpeningStep::AnswerStatus,
                _ => OpeningStep::RejectStarting,
            },
            _ => OpeningStep::Handshake,
        }
    }
}

/// Decides what a connection does with its first envelope.
pub fn opening_step(req: &Request, view: &ServingView) -> (res: OpeningStep)
    ensures
        res == opening_step_of(*req, *view),
{
    let observer_hello = match req {
        Request::Hello { client, .. } => {
            let role = ClientRole::from_hello_client(client.as_str());
            role == ClientRole::Observer
        },
        _ => false,
    };
    if observer_hello {
        return OpeningStep::Handshake;
    }
    match view {
        ServingView::Stale { reason } => OpeningStep::RejectStale { reason: reason.clone() },
        ServingView::Starting => match req {
            Request::Hello { .. } => OpeningStep::Handshake,
            Request::Status => OpeningStep::AnswerStatus,
            _ => OpeningStep::RejectStarting,
        },
        _ => OpeningStep::Handshake,
    }
}

/// What a connection does when reading an envelope fails.
#[derive(Debug, Clone, Copy, PartialEq, Eq, Structural)]
pub enum ReadFailureStep {
    /// Close quietly: the peer went away mid-frame.
    Close,
    /// Answer with the error, then keep reading.
    ReplyAndContinue,
    /// Answer with the error, then close.
    ReplyAndClose,
}

/// Whether `err` reports a frame cut short by the peer.
pub open spec fn is_truncation(err: DaemonError) -> bool {
    err matches DaemonError::Malformed { detail } && contains_seq(detail@, "truncated"@)
}

/// A cut-short frame closes the connection quietly. Otherwise the error is
/// answered; after the Hello, an oversized or malformed frame leaves the
/// connection open, since the stream is still in step.
pub open spec fn read_failure_step_of(err: DaemonError, after_hello: bool) -> ReadFailureStep {
    if is_truncation(err) {
        ReadFailureStep::Close
    } else if after_hello && (err is RequestTooLarge || err is Malformed) {
        ReadFailureStep::ReplyAndContinue
    } else {
        ReadFailureStep::ReplyAndClose
    }
}

/// Decides what a connection does when reading an envelope fails.
pub fn read_failure_step(err: &DaemonError, after_hello: bool) -> (res: ReadFailureStep)
    ensures
        res == read_failure_step_of(*err, after_hello),
{
    let truncated = match err {
        DaemonError::Malformed { detail } => str_contains(detail.as_str(), "truncated"),
        _ => false,
    };
    if truncated {
        ReadFailureStep::Close
    } else if after_hello && (matches!(err, DaemonError::RequestTooLarge { .. }) || matches!(
        err,
        DaemonError::Malformed { .. }
    )) {
        ReadFailureStep::ReplyAndContinue
    } else {
        ReadFailureStep::ReplyAndClose
    }
}

/// An observer may only ask for the status and observe events.
pub open spec fn observer_may(req: Request) -> bool {
    req is Status || req is Observe
}

/// What a connection does with a request before dispatching it.
#[derive(Debug, Clone, PartialEq)]
pub enum GateStep {
    /// Dispatch the request.
    Dispatch,
    /// Answer with this error, log the request as forbidden, and read the
    /// next request: the request is not dispatched and the connection stays
    /// open.
    RefuseAndContinue(DaemonError),
}

/// Refuses a request an observer may not make, naming the operation, and
/// keeps the connection open; every other request is dispatched.
pub fn gate_request(role: ClientRole, req: &Request) -> (res: GateStep)
    ensures
        role == ClientRole::Observer && !observer_may(*req) ==> (res matches GateStep::RefuseAndContinue(
            DaemonError::ObserverForbidden { operation },
        ) && operation@ == request_kind_name(*req)),
        role == ClientRole::Worker || observer_may(*req) ==> res == GateStep::Dispatch,
{
    if role == ClientRole::Observer {
        match req {
            Request::Status | Request::Observe { .. } => GateStep::Dispatch,
            other => {
                let operation = request_type_name(other).to_owned();
                GateStep::RefuseAndContinue(DaemonError::ObserverForbidden { operation })
            },
        }
    } else {
        GateStep::Dispatch
    }
}

/// How a classified connection handles one request.
#[derive(Debug, PartialEq)]
pub enum DispatchPlan {
    /// Answer with this error; nothing is recorded.
    Refuse(DaemonError),
    /// Answer with this error and record it as the request's terminal event.
    RefuseRecorded(DaemonError),
    /// Refresh the resource sample and answer with the status.
    AnswerStatus,
    /// Answer with the status, then shut the daemon down.
    AnswerStatusThenShutdown,
    /// Run the search or symbol lookup against what is being served.
    Run,
    /// Start an index run.
    StartIndex,
    /// Answer with a page of observed events.
    Observe,
}

/// Plans one request of a classified connection. A second Hello is
/// malformed. Searches and symbol lookups need a loaded, current store: they
/// are refused, and recorded, while starting or stale. Only one index run
/// goes at a time.
pub fn plan_request(req: &Request, view: &ServingView, indexing: bool) -> (res: DispatchPlan)
    ensures
        match *req {
            Request::Hello { .. } => res matches DispatchPlan::Refuse(
                DaemonError::Malformed { detail },
            ) && detail@ == "duplicate Hello"@,
            Request::Status => res == DispatchPlan::AnswerStatus,
            Request::Shutdown => res == DispatchPlan::AnswerStatusThenShutdown,
            Request::Search { .. } | Request::SearchSimilar { .. } | Request::GetSymbol { .. } => {
                match *view {
                    ServingView::Starting => res == DispatchPlan::RefuseRecorded(
                        DaemonError::Starting,
                    ),
                    ServingView::Stale { reason } => res == DispatchPlan::RefuseRecorded(
                        DaemonError::StoreStale { reason },
                    ),
                    _ => res == DispatchPlan::Run,
                }
            },
            Request::Index { .. } => if indexing {
                res == DispatchPlan::RefuseRecorded(DaemonError::IndexInProgress)
            } else {
                res == DispatchPlan::StartIndex
            },
            Request::Observe { .. } => res == DispatchPlan::Observe,
        },
{
    match req {
        Request::Hello { .. } => DispatchPlan::Refuse(
            DaemonError::Malformed { detail: "duplicate Hello".to_owned() },
        ),
        Request::Status => DispatchPlan::AnswerStatus,
        Request::Shutdown => DispatchPlan::AnswerStatusThenShutdown,
        Request::Search { .. } | Request::SearchSimilar { .. } | Request::GetSymbol { .. } => {
            match view {
                ServingView::Starting => DispatchPlan::RefuseRecorded(DaemonError::Starting),
                ServingView::Stale { reason } => DispatchPlan::RefuseRecorded(
                    DaemonError::StoreStale { reason: reason.clone() },
                ),
                _ => DispatchPlan::Run,
            }
        },
        Request::Index { .. } => if indexing {
            DispatchPlan::RefuseRecorded(DaemonError::IndexInProgress)
        } else {
            DispatchPlan::StartIndex
        },
        Request::Observe { .. } => DispatchPlan::Observe,
    }
}

/// The terminal event of an operation that failed with `err`: its error
/// code, and no count or timings.
pub fn failure_draft(connection_id: u64, request_id: u64, operation: &str, err: &DaemonError) -> (res:
    TerminalEventDraft)
    ensures
        res.connection_id == connection_id,
        res.request_id == request_id,
        res.operation@ == operation@,
        res.outcome@ == "error"@,
        res.error_code matches Some(code) && code@ == error_code_of(*err),
        res.result_count is None,
        res.stage_millis is None,
{
    TerminalEventDraft {
        connection_id,
        request_id,
        operation: operation.to_owned(),
        outcome: "error".to_owned(),
        error_code: Some(safe_error_code(err)),
        result_count: None,
        stage_millis: None,
    }
}

/// The terminal event of an operation that succeeded with `result_count`
/// results and, for a search, its stage timings.
pub fn success_draft(
    connection_id: u64,
    request_id: u64,
    operation: &str,
    result_count: u64,
    stage_millis: Option<StageTimings>,
) -> (res: TerminalEventDraft)
    ensures
        res.connection_id == connection_id,
        res.request_id == request_id,
        res.operation@ == operation@,
        res.outcome@ == "ok"@,
        res.error_code is None,
        res.result_count == Some(result_count),
        res.stage_millis == stage_millis,
{
    TerminalEventDraft {
        connection_id,
        request_id,
        operation: operation.to_owned(),
        outcome: "ok".to_owned(),
        error_code: None,
        result_count: Some(result_count),
        stage_millis,
    }
}

/// What the daemon keeps of a finished index run: its report when it
/// succeeded, its error code when it failed.
pub fn index_completion(
    completed_at_unix_ms: u64,
    connection_id: u64,
    request_id: u64,
    result: Result<IndexReportWire, DaemonError>,
) -> (res: LastIndexCompletion)
    ensures
        res.completed_at_unix_ms == completed_at_unix_ms,
        res.connection_id == connection_id,
        res.request_id == request_id,
        match result {
            Ok(report) => res.outcome@ == "ok"@ && res.error_code is None && res.report == Some(
                report,
            ),
            Err(e) => res.outcome@ == "error"@ && (res.error_code matches Some(code) && code@
                == error_code_of(e)) && res.report is None,
        },
{
    match result {
        Ok(report) => LastIndexCompletion {
            completed_at_unix_ms,
            outcome: "ok".to_owned(),
            error_code: None,
            connection_id,
            request_id,
            report: Some(report),
        },
        Err(e) => LastIndexCompletion {
            completed_at_unix_ms,
            outcome: "error".to_owned(),
            error_code: Some(safe_error_code(&e)),
            connection_id,
            request_id,
            report: None,
        },
    }
}

/// The resource sample a status reports: the cached one, stamped with the
/// current time when it was never taken.
pub fn resources_snapshot(cached: &ResourceSnapshot, now_unix_ms: u64) -> (res: ResourceSnapshot)
    ensures
        cached.sampled_at_unix_ms == 0 ==> res == (ResourceSnapshot {
            sampled_at_unix_ms: now_unix_ms,
            ..*cached
        }),
        cached.sampled_at_unix_ms != 0 ==> res == *cached,
{
    let mut snap = cached.clone();
    if snap.sampled_at_unix_ms == 0 {
        snap.sampled_at_unix_ms = now_unix_ms;
    }
    snap
}

/// How long a resource sample stays fresh, in milliseconds.
pub const RESOURCE_REFRESH_MILLIS: u64 = 2000;

/// Whether a resource sample taken `age_millis` ago is to be taken again.
pub fn needs_resource_refresh(age_millis: u64) -> (res: bool)
    ensures
        res == (age_millis >= RESOURCE_REFRESH_MILLIS),
{
    age_millis >= RESOURCE_REFRESH_MILLIS
}

/// The daemon shuts down on idleness once no worker is connected, the idle
/// timeout has passed, and it is not still starting.
pub fn idle_shutdown_due(connected_workers: usize, idle_elapsed: bool, starting: bool) -> (res:
    bool)
    ensures
        res == (connected_workers == 0 && idle_elapsed && !starting),
{
    connected_workers == 0 && idle_elapsed && !starting
}

/// The role a connection ends with: one that went on to the Hello exchange
/// is classified by the role its accepted Hello gave (`hello`, `None` when
/// the Hello was refused); every other connection ends unclassified.
pub open spec fn connection_role_of(opening: OpeningStep, hello: Option<ClientRole>) -> Option<ClientRole> {
    if opening is Handshake {
        hello
    } else {
        None
    }
}

/// The role a connection ends with, from its opening step and the role
/// its Hello was accepted with.
pub fn connection_role(opening: &OpeningStep, hello: Option<ClientRole>) -> (res: Option<ClientRole>)
    ensures
        res == connection_role_of(*opening, hello),
{
    match opening {
        OpeningStep::Handshake => hello,
        _ => None,
    }
}

/// The count of connected workers once a connection is classified as
/// `role`: a worker counts, an observer does not.
pub open spec fn clients_after_classify(role: ClientRole, clients: int) -> int {
    if role == ClientRole::Worker {
        clients + 1
    } else {
        clients
    }
}

/// The count of connected workers once a connection that ended with `role`
/// closes: only a worker is taken off.
pub open spec fn clients_after_close(role: Option<ClientRole>, clients: int) -> int {
    if role == Some(ClientRole::Worker) {
        clients - 1
    } else {
        clients
    }
}

/// A change to the count of connected workers.
#[derive(Debug, Clone, Copy, PartialEq, Eq)]
pub struct ClientCount {
    /// The new count.
    pub clients: u64,
    /// Whether the daemon's last activity moves to now.
    pub touch: bool,
}

/// Counts a connection classified as `role`: a worker is added and marks
/// activity; an observer changes nothing.
pub fn classify_connection(role: ClientRole, clients: u64) -> (res: ClientCount)
    requires
        role == ClientRole::Worker ==> clients < u64::MAX,
    ensures
        res.clients == clients_after_classify(role, clients as int),
        res.touch == (role == ClientRole::Worker),
{
    match role {
        ClientRole::Worker => ClientCount { clients: clients + 1, touch: true },
        ClientRole::Observer => ClientCount { clients, touch: false },
    }
}

/// Counts a connection that closed having ended with `role`: a worker is
/// taken off and marks activity; an observer or an unclassified
/// connection changes nothing.
pub fn close_connection(role: Option<ClientRole>, clients: u64) -> (res: ClientCount)
    requires
        role == Some(ClientRole::Worker) ==> clients > 0,
    ensures
        res.clients == clients_after_close(role, clients as int),
        res.touch == (role == Some(ClientRole::Worker)),
{
    match role {
        Some(ClientRole::Worker) => ClientCount { clients: clients - 1, touch: true },
        _ => ClientCount { clients, touch: false },
    }
}

/// Every connection leaves the count of connected workers as it found it,
/// and only one classified as a worker changes it while open: an observer,
/// a connection refused at its opening (a Status sent while starting
/// among them) or one whose Hello was refused never counts.
pub proof fn lemma_connection_restores_client_count(
    opening: OpeningStep,
    hello: Option<ClientRole>,
    clients: int,
)
    ensures
        ({
            let role = connection_role_of(opening, hello);
            let open = match role {
                Some(r) => clients_after_classify(r, clients),
                None => clients,
            };
            &&& clients_after_close(role, open) == clients
            &&& open != clients ==> role == Some(ClientRole::Worker)
        }),
        !(opening is Handshake) ==> connection_role_of(opening, hello) is None,
{
}

/// What the serving state is, without its figures.
#[derive(Debug, Clone, Copy, PartialEq, Eq, Structural)]
pub enum ServingKind {
    /// Nothing is served yet.
    Starting,
    /// The resident index is served.
    Ready,
    /// The frozen snapshot is served while an index run writes.
    Indexing,
    /// The store is gone or could not be loaded.
    Stale,
}

/// The kind of a serving state.
pub open spec fn kind_of(view: ServingView) -> ServingKind {
    match view {
        ServingView::Starting => ServingKind::Starting,
        ServingView::Ready { .. } => ServingKind::Ready,
        ServingView::Indexing { .. } => ServingKind::Indexing,
        ServingView::Stale { .. } => ServingKind::Stale,
    }
}

/// The kind of a serving state.
pub fn serving_kind(view: &ServingView) -> (res: ServingKind)
    ensures
        res == kind_of(*view),
{
    match view {
        ServingView::Starting => ServingKind::Starting,
        ServingView::Ready { .. } => ServingKind::Ready,
        ServingView::Indexing { .. } => ServingKind::Indexing,
        ServingView::Stale { .. } => ServingKind::Stale,
    }
}

/// What a stage of an index run reports.
#[derive(Debug, Clone, PartialEq)]
pub enum IndexRunEvent {
    /// The serving state was taken for the run: what it was, and whether
    /// the resident could be had for the run alone, no search still
    /// holding it.
    Taken { was: ServingKind, exclusive: bool },
    /// The resident was split into the frozen snapshot and the parts the
    /// run writes; `error` when that failed.
    Split { error: Option<DaemonError> },
    /// The run and the rebuild of the resident ended; `error` when either
    /// failed, and then `restored` tells whether the old snapshot could be
    /// brought back as ready.
    Finished { error: Option<DaemonError>, restored: bool },
}

/// What is served after a stage of an index run. A run starts only on a
/// ready daemon it can take whole, and serves nothing while it splits it;
/// once split, searches use the frozen snapshot; a finished run serves the
/// rebuilt resident, or after a failure the restored old one, else still
/// the frozen snapshot.
pub open spec fn index_serving_of(event: IndexRunEvent) -> ServingKind {
    match event {
        IndexRunEvent::Taken { was, exclusive } => if was == ServingKind::Ready && exclusive {
            ServingKind::Starting
        } else {
            was
        },
        IndexRunEvent::Split { error } => if error is Some {
            ServingKind::Starting
        } else {
            ServingKind::Indexing
        },
        IndexRunEvent::Finished { error, restored } => if error is None || restored {
            ServingKind::Ready
        } else {
            ServingKind::Indexing
        },
    }
}

/// Whether an index run is over after a stage: it was refused, failed, or
/// finished.
pub open spec fn index_done_of(event: IndexRunEvent) -> bool {
    match event {
        IndexRunEvent::Taken { was, exclusive } => !(was == ServingKind::Ready && exclusive),
        IndexRunEvent::Split { error } => error is Some,
        IndexRunEvent::Finished { .. } => true,
    }
}

/// What an index run does after a stage.
#[derive(Debug, Clone, PartialEq)]
pub struct IndexRunStep {
    /// What is served from now on.
    pub serving: ServingKind,
    /// Whether the run is over: the indexing flag is cleared and the
    /// outcome sent.
    pub clear_indexing: bool,
    /// The outcome sent when the run is over: `Ok` for the report.
    pub outcome: Option<Result<(), DaemonError>>,
}

/// Decides what an index run does after a stage: what is served, and
/// whether the run is over and with which outcome.
pub fn index_run_step(event: IndexRunEvent) -> (res: IndexRunStep)
    ensures
        res.serving == index_serving_of(event),
        res.clear_indexing == index_done_of(event),
        res.outcome is Some == index_done_of(event),
        match event {
            IndexRunEvent::Taken { was, exclusive } => if was != ServingKind::Ready {
                res.outcome matches Some(Err(DaemonError::Internal { detail })) && detail@
                    == "not ready for index"@
            } else if !exclusive {
                res.outcome matches Some(Err(DaemonError::Internal { detail })) && detail@
                    == "resident still borrowed"@
            } else {
                true
            },
            IndexRunEvent::Split { error } => match error {
                Some(e) => res.outcome == Some(Err::<(), DaemonError>(e)),
                None => true,
            },
            IndexRunEvent::Finished { error, .. } => match error {
                Some(e) => res.outcome == Some(Err::<(), DaemonError>(e)),
                None => res.outcome == Some(Ok::<(), DaemonError>(())),
            },
        },
{
    match event {
        IndexRunEvent::Taken { was, exclusive } => {
            let ready = match was {
                ServingKind::Ready => true,
                _ => false,
            };
            if !ready {
                IndexRunStep {
                    serving: was,
                    clear_indexing: true,
                    outcome: Some(Err(DaemonError::Internal { detail: "not ready for index".to_owned() })),
                }
            } else if !exclusive {
                IndexRunStep {
                    serving: ServingKind::Ready,
                    clear_indexing: true,
                    outcome: Some(
                        Err(DaemonError::Internal { detail: "resident still borrowed".to_owned() }),
                    ),
                }
            } else {
                IndexRunStep { serving: ServingKind::Starting, clear_indexing: false, outcome: None }
            }
        },
        IndexRunEvent::Split { error } => match error {
            Some(e) => IndexRunStep {
                serving: ServingKind::Starting,
                clear_indexing: true,
                outcome: Some(Err(e)),
            },
            None => IndexRunStep { serving: ServingKind::Indexing, clear_indexing: false, outcome: None },
        },
        IndexRunEvent::Finished { error, restored } => match error {
            Some(e) => IndexRunStep {
                serving: if restored {
                    ServingKind::Ready
                } else {
                    ServingKind::Indexing
                },
                clear_indexing: true,
                outcome: Some(Err(e)),
            },
            None => IndexRunStep { serving: ServingKind::Ready, clear_indexing: true, outcome: Some(Ok(())) },
        },
    }
}

/// Every index run ends with the indexing flag cleared: it is refused when
/// the daemon is not ready or its resident is still in use, leaving what
/// is served as it was; and a run that gets as far as running ends
/// serving a ready resident, or the frozen snapshot, never nothing.
pub proof fn lemma_index_run_always_ends(
    was: ServingKind,
    exclusive: bool,
    split_error: Option<DaemonError>,
    run_error: Option<DaemonError>,
    restored: bool,
)
    ensures
        ({
            let taken = IndexRunEvent::Taken { was, exclusive };
            let split = IndexRunEvent::Split { error: split_error };
            let finished = IndexRunEvent::Finished { error: run_error, restored };
            &&& index_done_of(taken) || index_done_of(split) || index_done_of(finished)
            &&& !index_done_of(taken) <==> (was == ServingKind::Ready && exclusive)
            &&& index_done_of(taken) ==> index_serving_of(taken) == was
            &&& !index_done_of(split) ==> index_serving_of(split) == ServingKind::Indexing
            &&& index_done_of(finished)
            &&& index_serving_of(finished) == ServingKind::Ready || index_serving_of(finished)
                == ServingKind::Indexing
            &&& run_error is None ==> index_serving_of(finished) == ServingKind::Ready
        }),
{
}

} // verus!
