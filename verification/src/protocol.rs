//! Wire protocol types for the resident daemon.
//!
//! Scores carried by search results are IEEE-754 single-precision values;
//! this library holds them by their bit patterns (`f32::to_bits`).

use vstd::prelude::*;

verus! {

/// Bumped on any wire-incompatible change. Checked during Hello.
pub const PROTOCOL_VERSION: u32 = 2;

/// Protocol version spoken by pre-observability clients.
pub const PROTOCOL_VERSION_V1: u32 = 1;

/// Requests above this are rejected without being buffered.
pub const MAX_REQUEST_BYTES: usize = 1048576;

/// Hello `client` value that negotiates observer capabilities.
pub const OBSERVER_CLIENT: &'static str = "sift-console-observer";

/// Maximum events retained in the daemon ring buffer.
pub const EVENT_RING_CAPACITY: usize = 4096;

/// Maximum events returned in a single Observe response.
pub const OBSERVE_PAGE_SIZE: usize = 256;

#[derive(Debug, Clone, PartialEq, Eq)]
pub struct Envelope<T> {
    pub request_id: u64,
    pub payload: T,
}

#[derive(Debug, Clone, Copy, PartialEq, Eq, Structural)]
pub enum ClientRole {
    Worker,
    Observer,
}

impl ClientRole {
    /// The role a Hello `client` string negotiates: observer for the
    /// reserved observer name, worker for anything else.
    pub fn from_hello_client(client: &str) -> (role: Self)
        ensures
            role == (if client@ == OBSERVER_CLIENT@ {
                ClientRole::Observer
            } else {
                ClientRole::Worker
            }),
    {
        if crate::text::str_eq(client, OBSERVER_CLIENT) {
            ClientRole::Observer
        } else {
            ClientRole::Worker
        }
    }
}

#[derive(Debug, Clone, Copy, PartialEq, Eq, Structural)]
pub enum Lifecycle {
    Starting,
    Ready,
    Indexing,
    Stale,
    ShuttingDown,
}

#[derive(Debug, Clone, Copy, PartialEq, Eq, Structural)]
pub enum IndexMode {
    Full,
    Update,
}

/// Wire mirror of indexing phases.
#[derive(Debug, Clone, Copy, PartialEq, Eq, Structural)]
pub enum IndexPhase {
    Walking,
    Parsing,
    Embedding,
    Storing,
    Compacting,
}

#[derive(Debug, PartialEq, Eq)]
pub struct EventCursor {
    pub instance_id: String,
    pub sequence: u64,
}

impl Clone for EventCursor {
    fn clone(&self) -> (res: Self)
        ensures
            res == *self,
    {
        EventCursor { instance_id: self.instance_id.clone(), sequence: self.sequence }
    }
}

/// Per-stage timings of one search, in milliseconds.
#[derive(Debug, Clone, Copy, PartialEq, Eq)]
pub struct StageTimings {
    pub embed: u64,
    pub lexical: u64,
    pub dense: u64,
    pub fuse: u64,
    pub assemble: u64,
    pub total: u64,
}

/// A copy of an optional string, equal to it.
pub fn copy_opt_string(s: &Option<String>) -> (res: Option<String>)
    ensures
        res == *s,
{
    match s {
        Some(v) => Some(v.clone()),
        None => None,
    }
}

#[derive(Debug, PartialEq)]
pub struct RequestEvent {
    pub cursor: EventCursor,
    pub connection_id: u64,
    pub request_id: u64,
    pub completed_at_unix_ms: u64,
    pub operation: String,
    pub elapsed_micros: u64,
    pub outcome: String,
    pub error_code: Option<String>,
    pub result_count: Option<u64>,
    pub stage_millis: Option<StageTimings>,
}

impl Clone for RequestEvent {
    fn clone(&self) -> (res: Self)
        ensures
            res == *self,
    {
        RequestEvent {
            cursor: self.cursor.clone(),
            connection_id: self.connection_id,
            request_id: self.request_id,
            completed_at_unix_ms: self.completed_at_unix_ms,
            operation: self.operation.clone(),
            elapsed_micros: self.elapsed_micros,
            outcome: self.outcome.clone(),
            error_code: copy_opt_string(&self.error_code),
            result_count: self.result_count,
            stage_millis: self.stage_millis,
        }
    }
}

#[derive(Debug, PartialEq, Eq)]
pub struct ResourceSnapshot {
    pub sampled_at_unix_ms: u64,
    pub device_id: Option<String>,
    pub device_used_bytes: Option<u64>,
    pub device_total_bytes: Option<u64>,
    pub process_used_bytes: Option<u64>,
    pub model_used_bytes: Option<u64>,
}

impl Clone for ResourceSnapshot {
    fn clone(&self) -> (res: Self)
        ensures
            res == *self,
    {
        ResourceSnapshot {
            sampled_at_unix_ms: self.sampled_at_unix_ms,
            device_id: copy_opt_string(&self.device_id),
            device_used_bytes: self.device_used_bytes,
            device_total_bytes: self.device_total_bytes,
            process_used_bytes: self.process_used_bytes,
            model_used_bytes: self.model_used_bytes,
        }
    }
}

impl ResourceSnapshot {
    /// A snapshot taken at the given time that reports no device or memory
    /// figures.
    pub fn unavailable(sampled_at_unix_ms: u64) -> (res: Self)
        ensures
            res.sampled_at_unix_ms == sampled_at_unix_ms,
            res.device_id is None,
            res.device_used_bytes is None,
            res.device_total_bytes is None,
            res.process_used_bytes is None,
            res.model_used_bytes is None,
    {
        ResourceSnapshot {
            sampled_at_unix_ms,
            device_id: None,
            device_used_bytes: None,
            device_total_bytes: None,
            process_used_bytes: None,
            model_used_bytes: None,
        }
    }
}

/// Live indexing progress visible to observers independently of the
/// initiating client.
#[derive(Debug, Clone, Copy, PartialEq, Eq)]
pub struct IndexProgressSnapshot {
    pub phase: IndexPhase,
    pub done: u64,
    pub total: Option<u64>,
    pub connection_id: u64,
    pub request_id: u64,
}

/// Serializable summary of one indexing run.
#[derive(Debug, PartialEq)]
pub struct IndexReportWire {
    pub commit: String,
    pub files_seen: u64,
    pub files_indexed: u64,
    pub files_excluded: u64,
    pub files_unsupported: u64,
    pub files_unparsed: u64,
    pub chunks_added: u64,
    pub chunks_reused: u64,
    pub chunks_removed: u64,
    pub embeddings_computed: u64,
    pub chunks_truncated: u64,
    pub parse_millis: u64,
    pub embed_millis: u64,
    pub store_millis: u64,
    pub wall_millis: u64,
    pub live_before: u64,
    pub live_after: u64,
}

impl Clone for IndexReportWire {
    fn clone(&self) -> (res: Self)
        ensures
            res == *self,
    {
        IndexReportWire {
            commit: self.commit.clone(),
            files_seen: self.files_seen,
            files_indexed: self.files_indexed,
            files_excluded: self.files_excluded,
            files_unsupported: self.files_unsupported,
            files_unparsed: self.files_unparsed,
            chunks_added: self.chunks_added,
            chunks_reused: self.chunks_reused,
            chunks_removed: self.chunks_removed,
            embeddings_computed: self.embeddings_computed,
            chunks_truncated: self.chunks_truncated,
            parse_millis: self.parse_millis,
            embed_millis: self.embed_millis,
            store_millis: self.store_millis,
            wall_millis: self.wall_millis,
            live_before: self.live_before,
            live_after: self.live_after,
        }
    }
}

/// Latest completed indexing report retained for diagnostics.
#[derive(Debug, PartialEq)]
pub struct LastIndexCompletion {
    pub completed_at_unix_ms: u64,
    pub outcome: String,
    pub error_code: Option<String>,
    pub connection_id: u64,
    pub request_id: u64,
    pub report: Option<IndexReportWire>,
}

impl Clone for LastIndexCompletion {
    fn clone(&self) -> (res: Self)
        ensures
            res == *self,
    {
        LastIndexCompletion {
            completed_at_unix_ms: self.completed_at_unix_ms,
            outcome: self.outcome.clone(),
            error_code: copy_opt_string(&self.error_code),
            connection_id: self.connection_id,
            request_id: self.request_id,
            report: match &self.report {
                Some(r) => Some(r.clone()),
                None => None,
            },
        }
    }
}

#[derive(Debug, PartialEq)]
pub struct DaemonStatus {
    pub lifecycle: Lifecycle,
    pub instance_id: String,
    pub observed_at_unix_ms: u64,
    pub model_id: Option<String>,
    pub chunks_live: Option<u64>,
    pub chunks_dead: Option<u64>,
    pub indexed_commit: Option<String>,
    pub idle_seconds: u64,
    pub uptime_seconds: u64,
    pub current_progress: Option<IndexProgressSnapshot>,
    pub last_index: Option<LastIndexCompletion>,
    pub resources: ResourceSnapshot,
}

impl Clone for DaemonStatus {
    fn clone(&self) -> (res: Self)
        ensures
            res == *self,
    {
        DaemonStatus {
            lifecycle: self.lifecycle,
            instance_id: self.instance_id.clone(),
            observed_at_unix_ms: self.observed_at_unix_ms,
            model_id: copy_opt_string(&self.model_id),
            chunks_live: self.chunks_live,
            chunks_dead: self.chunks_dead,
            indexed_commit: copy_opt_string(&self.indexed_commit),
            idle_seconds: self.idle_seconds,
            uptime_seconds: self.uptime_seconds,
            current_progress: self.current_progress,
            last_index: match &self.last_index {
                Some(l) => Some(l.clone()),
                None => None,
            },
            resources: self.resources.clone(),
        }
    }
}

#[derive(Debug, Clone, PartialEq)]
pub struct Observation {
    pub status: DaemonStatus,
    pub events: Vec<RequestEvent>,
    pub next_cursor: EventCursor,
    pub gap: bool,
    pub more: bool,
}

#[derive(Debug, Clone, PartialEq)]
pub enum Request {
    Hello { protocol_version: u32, client: String },
    Search { query: String, top_k: usize },
    SearchSimilar { code: String, top_k: usize },
    GetSymbol { file: String, symbol: String },
    Index { mode: IndexMode, repo_dir: String },
    Status,
    Shutdown,
    /// Appended in protocol v2.
    Observe { after: Option<EventCursor> },
}

#[derive(Debug, Clone, PartialEq)]
pub enum DaemonError {
    ProtocolVersion { daemon: u32, client: u32 },
    Starting,
    IndexInProgress,
    SymbolNotFound { file: String, symbol: String },
    SymbolAmbiguous { file: String, symbol: String, candidates: Vec<String> },
    StoreStale { reason: String },
    GpuUnavailable { detail: String },
    RequestTooLarge { bytes: usize, limit: usize },
    Malformed { detail: String },
    Internal { detail: String },
    /// Observer attempted a worker-only operation.
    ObserverForbidden { operation: String },
}

/// One ranked search hit.
#[derive(Debug, Clone, PartialEq)]
pub struct SearchResult {
    pub file: String,
    pub symbol: String,
    pub signature: String,
    pub doc: Option<String>,
    pub preview: String,
    pub lines: [u32; 2],
    /// Bit pattern of the lexical score, when the lexical stage ranked it.
    pub lexical_score: Option<u32>,
    /// Bit pattern of the dense score, when the dense stage ranked it.
    pub dense_score: Option<u32>,
    /// Bit pattern of the fused score.
    pub fused_score: u32,
}

/// How each retrieval stage went.
#[derive(Debug, Clone, PartialEq)]
pub struct SearchDiagnostics {
    pub lexical_ok: bool,
    pub dense_ok: bool,
    pub lexical_error: Option<String>,
    pub dense_error: Option<String>,
    pub stage_millis: StageTimings,
}

#[derive(Debug, Clone, PartialEq)]
pub struct SearchResponse {
    pub results: Vec<SearchResult>,
    pub diagnostics: SearchDiagnostics,
}

#[derive(Debug, Clone, PartialEq)]
pub enum Response {
    Hello { protocol_version: u32, model_id: String, chunks: u64 },
    Search(SearchResponse),
    Symbol {
        file: String,
        symbol: String,
        language: String,
        signature: String,
        lines: [u32; 2],
        body: String,
    },
    IndexProgress { phase: IndexPhase, done: u64, total: Option<u64> },
    IndexDone(IndexReportWire),
    Status(DaemonStatus),
    Error(DaemonError),
    /// Appended in protocol v2.
    Observation(Observation),
}

} // verus!
