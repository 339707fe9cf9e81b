//! What the console keeps of each repository's daemon between observations:
//! the cursor to resume from and the last status seen, marked stale when an
//! observation fails.

use vstd::prelude::*;

use crate::keyed::{distinct_keys, keyed, lookup, remove_key, upsert};
use crate::protocol::{DaemonError, DaemonStatus, EventCursor, Observation};

verus! {

/// Whether observing a repository at `socket` needs a new observer
/// connection: there is no session for it, or its session is connected to
/// another socket.
pub open spec fn needs_connection_of(
    sessions: Map<Seq<char>, String>,
    repository_id: Seq<char>,
    socket: Seq<char>,
) -> bool {
    !(sessions.contains_key(repository_id) && sessions[repository_id]@ == socket)
}

/// The daemon socket that each repository's open observer session is
/// connected to. Repeated observations of a repository reuse its session
/// while the socket stays the same; a failed observation drops it.
pub struct ObserverSessions {
    sockets: Vec<(String, String)>,
}

impl ObserverSessions {
    #[verifier::type_invariant]
    spec fn well_formed(self) -> bool {
        distinct_keys(self.sockets@)
    }

    /// The socket of each repository's session.
    pub closed spec fn view_sessions(self) -> Map<Seq<char>, String> {
        keyed(self.sockets@)
    }

    /// No sessions.
    pub fn new() -> (res: Self)
        ensures
            res.view_sessions() == Map::<Seq<char>, String>::empty(),
    {
        ObserverSessions { sockets: Vec::new() }
    }

    /// Whether observing the repository at `socket` needs a new connection.
    pub fn needs_connection(&self, repository_id: &str, socket: &str) -> (res: bool)
        ensures
            res == needs_connection_of(self.view_sessions(), repository_id@, socket@),
    {
        proof {
            use_type_invariant(self);
        }
        match lookup(&self.sockets, repository_id) {
            Some(current) => !crate::text::str_eq(current.as_str(), socket),
            None => true,
        }
    }

    /// Records a new session of the repository, connected to `socket`.
    pub fn connected(&mut self, repository_id: &str, socket: String)
        ensures
            final(self).view_sessions() == old(self).view_sessions().insert(repository_id@, socket),
    {
        proof {
            use_type_invariant(&*self);
        }
        let mut sockets: Vec<(String, String)> = Vec::new();
        std::mem::swap(&mut sockets, &mut self.sockets);
        upsert(&mut sockets, repository_id, socket);
        self.sockets = sockets;
    }

    /// Drops the repository's session, if any.
    pub fn remove(&mut self, repository_id: &str)
        ensures
            final(self).view_sessions() == old(self).view_sessions().remove(repository_id@),
    {
        proof {
            use_type_invariant(&*self);
        }
        let mut sockets: Vec<(String, String)> = Vec::new();
        std::mem::swap(&mut sockets, &mut self.sockets);
        remove_key(&mut sockets, repository_id);
        self.sockets = sockets;
    }
}

/// A session is reused: once a repository is connected to a socket, the
/// next observation of that socket needs no new connection, while one of
/// another socket does; once its session is dropped, the next observation
/// reconnects. Other repositories' sessions are untouched either way.
pub proof fn lemma_sessions_are_reused(
    sessions: Map<Seq<char>, String>,
    repository_id: Seq<char>,
    socket: String,
    other_socket: Seq<char>,
    other: Seq<char>,
)
    requires
        other_socket != socket@,
        other != repository_id,
    ensures
        !needs_connection_of(sessions.insert(repository_id, socket), repository_id, socket@),
        needs_connection_of(sessions.insert(repository_id, socket), repository_id, other_socket),
        needs_connection_of(sessions.remove(repository_id), repository_id, socket@),
        forall|s: Seq<char>|
            needs_connection_of(sessions.insert(repository_id, socket), other, s)
                == #[trigger] needs_connection_of(sessions, other, s),
        forall|s: Seq<char>|
            needs_connection_of(sessions.remove(repository_id), other, s)
                == #[trigger] needs_connection_of(sessions, other, s),
{
}

/// The last status collected from a repository's daemon.
#[derive(Debug, PartialEq)]
pub struct CollectedStatus {
    pub status: DaemonStatus,
    pub collected_at_unix_ms: u64,
    pub stale: bool,
    pub error_code: Option<String>,
}

impl Clone for CollectedStatus {
    fn clone(&self) -> (res: Self)
        ensures
            res == *self,
    {
        CollectedStatus {
            status: self.status.clone(),
            collected_at_unix_ms: self.collected_at_unix_ms,
            stale: self.stale,
            error_code: crate::protocol::copy_opt_string(&self.error_code),
        }
    }
}

/// The reason a failed observation is shown with.
pub open spec fn collector_code_of(e: DaemonError) -> Seq<char> {
    match e {
        DaemonError::ProtocolVersion { .. } => "protocol_incompatible"@,
        DaemonError::Starting => "starting"@,
        DaemonError::StoreStale { .. } => "stale"@,
        _ => "unreachable"@,
    }
}

/// The reason a failed observation is shown with.
pub fn error_code(e: &DaemonError) -> (res: String)
    ensures
        res@ == collector_code_of(*e),
{
    match e {
        DaemonError::ProtocolVersion { .. } => "protocol_incompatible".to_owned(),
        DaemonError::Starting => "starting".to_owned(),
        DaemonError::StoreStale { .. } => "stale".to_owned(),
        _ => "unreachable".to_owned(),
    }
}

/// Cursors and last statuses, per repository.
pub struct Collector {
    cursors: Vec<(String, EventCursor)>,
    statuses: Vec<(String, CollectedStatus)>,
}

impl Collector {
    #[verifier::type_invariant]
    spec fn well_formed(self) -> bool {
        distinct_keys(self.cursors@) && distinct_keys(self.statuses@)
    }

    /// The cursor each repository resumes from.
    pub closed spec fn cursor_map(self) -> Map<Seq<char>, EventCursor> {
        keyed(self.cursors@)
    }

    /// The last status collected from each repository.
    pub closed spec fn status_map(self) -> Map<Seq<char>, CollectedStatus> {
        keyed(self.statuses@)
    }

    /// A collector that has seen nothing.
    pub fn new() -> (res: Self)
        ensures
            res.cursor_map() == Map::<Seq<char>, EventCursor>::empty(),
            res.status_map() == Map::<Seq<char>, CollectedStatus>::empty(),
    {
        Collector { cursors: Vec::new(), statuses: Vec::new() }
    }

    /// Takes in the outcome of observing a repository's daemon at `now`. A
    /// successful observation moves the cursor and replaces the status. A
    /// failed one keeps the last status, marked stale with the failure's
    /// reason; with no earlier status the failure is returned.
    pub fn apply(
        &mut self,
        repository_id: &str,
        observation: Result<Observation, DaemonError>,
        now_unix_ms: u64,
    ) -> (res: Result<CollectedStatus, DaemonError>)
        ensures
            match observation {
                Ok(obs) => {
                    &&& final(self).cursor_map() == old(self).cursor_map().insert(
                        repository_id@,
                        obs.next_cursor,
                    )
                    &&& res matches Ok(s) && s.status == obs.status && s.collected_at_unix_ms
                        == now_unix_ms && !s.stale && s.error_code is None
                    &&& final(self).status_map() == old(self).status_map().insert(
                        repository_id@,
                        res->Ok_0,
                    )
                },
                Err(e) => {
                    &&& final(self).cursor_map() == old(self).cursor_map()
                    &&& if old(self).status_map().contains_key(repository_id@) {
                        let prev = old(self).status_map()[repository_id@];
                        &&& res matches Ok(s) && s.status == prev.status && s.collected_at_unix_ms
                            == prev.collected_at_unix_ms && s.stale && (s.error_code matches Some(
                            c,
                        ) && c@ == collector_code_of(e))
                        &&& final(self).status_map() == old(self).status_map().insert(
                            repository_id@,
                            res->Ok_0,
                        )
                    } else {
                        &&& res == Err::<CollectedStatus, DaemonError>(e)
                        &&& final(self).status_map() == old(self).status_map()
                    }
                },
            },
    {
        proof {
            use_type_invariant(&*self);
        }
        match observation {
            Ok(obs) => {
                let mut cursors: Vec<(String, EventCursor)> = Vec::new();
                std::mem::swap(&mut cursors, &mut self.cursors);
                upsert(&mut cursors, repository_id, obs.next_cursor);
                let status = CollectedStatus {
                    status: obs.status,
                    collected_at_unix_ms: now_unix_ms,
                    stale: false,
                    error_code: None,
                };
                let mut statuses: Vec<(String, CollectedStatus)> = Vec::new();
                std::mem::swap(&mut statuses, &mut self.statuses);
                upsert(&mut statuses, repository_id, status.clone());
                *self = Collector { cursors, statuses };
                Ok(status)
            },
            Err(e) => {
                let previous = match lookup(&self.statuses, repository_id) {
                    Some(p) => Some(p.clone()),
                    None => None,
                };
                match previous {
                    Some(mut p) => {
                        p.stale = true;
                        p.error_code = Some(error_code(&e));
                        let mut statuses: Vec<(String, CollectedStatus)> = Vec::new();
                        std::mem::swap(&mut statuses, &mut self.statuses);
                        upsert(&mut statuses, repository_id, p.clone());
                        let mut cursors: Vec<(String, EventCursor)> = Vec::new();
                        std::mem::swap(&mut cursors, &mut self.cursors);
                        *self = Collector { cursors, statuses };
                        Ok(p)
                    },
                    None => Err(e),
                }
            },
        }
    }

    /// The last status collected from a repository, if any.
    pub fn status(&self, repository_id: &str) -> (res: Option<&CollectedStatus>)
        ensures
            self.status_map().contains_key(repository_id@) ==> res == Some(
                &self.status_map()[repository_id@],
            ),
            !self.status_map().contains_key(repository_id@) ==> res is None,
    {
        proof {
            use_type_invariant(self);
        }
        lookup(&self.statuses, repository_id)
    }

    /// The cursor a repository's next observation resumes from, if any.
    pub fn cursor(&self, repository_id: &str) -> (res: Option<EventCursor>)
        ensures
            self.cursor_map().contains_key(repository_id@) ==> res == Some(
                self.cursor_map()[repository_id@],
            ),
            !self.cursor_map().contains_key(repository_id@) ==> res is None,
    {
        proof {
            use_type_invariant(self);
        }
        match lookup(&self.cursors, repository_id) {
            Some(c) => Some(c.clone()),
            None => None,
        }
    }
}

/// A failed observation never loses what was known: after a failure the
/// repository still has a status when it had one before, and it is the
/// same status, marked stale.
pub proof fn lemma_failure_keeps_last_status(
    before: Map<Seq<char>, CollectedStatus>,
    after: Map<Seq<char>, CollectedStatus>,
    repository_id: Seq<char>,
    returned: CollectedStatus,
)
    requires
        before.contains_key(repository_id),
        returned.status == before[repository_id].status,
        returned.stale,
        after == before.insert(repository_id, returned),
    ensures
        after.contains_key(repository_id),
        after[repository_id].status == before[repository_id].status,
        after[repository_id].stale,
        forall|other: Seq<char>|
            other != repository_id ==> (#[trigger] after.contains_key(other)) == before.contains_key(
                other,
            ),
{
}

/// How many pages of events one collection round reads from a daemon at
/// most.
pub const COLLECTION_PAGES: u32 = 4;

/// How often collection rounds run, in milliseconds; an outage is recorded
/// as this long.
pub const COLLECTION_INTERVAL_MILLIS: u64 = 2000;

/// How reading one page of a collection round went.
#[derive(Debug, Clone, Copy, PartialEq, Eq)]
pub enum PageOutcome {
    /// The page was observed and recorded; `more` says whether more events
    /// wait.
    Recorded { more: bool },
    /// The page was observed but could not be recorded.
    RecordFailed,
    /// The daemon could not be observed in time.
    ObserveFailed,
}

/// What a collection round does after a page.
#[derive(Debug, Clone, Copy, PartialEq, Eq)]
pub enum CollectionStep {
    /// Read the next page.
    NextPage,
    /// The round is over for this repository.
    Done,
    /// Stop, and report that history could not be recorded.
    RecordingFailed,
    /// Stop, and record the interval up to now as a collection outage.
    Outage { from_unix_ms: u64, to_unix_ms: u64 },
}

/// Decides what a collection round does after its `page`-th page (from 0):
/// read on while more events wait and the round's page budget lasts; a
/// failure to record stops the round; a failure to observe stops it and
/// records an outage over the last interval.
pub fn collection_step(page: u32, outcome: PageOutcome, now_unix_ms: u64) -> (res: CollectionStep)
    ensures
        match outcome {
            PageOutcome::Recorded { more } => if more && page + 1 < COLLECTION_PAGES {
                res == CollectionStep::NextPage
            } else {
                res == CollectionStep::Done
            },
            PageOutcome::RecordFailed => res == CollectionStep::RecordingFailed,
            PageOutcome::ObserveFailed => res == (CollectionStep::Outage {
                from_unix_ms: if now_unix_ms >= COLLECTION_INTERVAL_MILLIS {
                    (now_unix_ms - COLLECTION_INTERVAL_MILLIS) as u64
                } else {
                    0
                },
                to_unix_ms: now_unix_ms,
            }),
        },
        res == CollectionStep::NextPage ==> page + 1 < COLLECTION_PAGES,
{
    match outcome {
        PageOutcome::Recorded { more } => {
            if more && page < COLLECTION_PAGES - 1 {
                CollectionStep::NextPage
            } else {
                CollectionStep::Done
            }
        },
        PageOutcome::RecordFailed => CollectionStep::RecordingFailed,
        PageOutcome::ObserveFailed => CollectionStep::Outage {
            from_unix_ms: now_unix_ms.saturating_sub(COLLECTION_INTERVAL_MILLIS),
            to_unix_ms: now_unix_ms,
        },
    }
}

} // verus!
