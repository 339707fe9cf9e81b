//! The bounded ring of terminal request events and the observation pages
//! built from it.

use vstd::prelude::*;

use std::collections::VecDeque;

use crate::protocol::{
    DaemonError, DaemonStatus, EventCursor, Observation, RequestEvent, StageTimings,
    EVENT_RING_CAPACITY, MAX_REQUEST_BYTES, OBSERVE_PAGE_SIZE,
};

verus! {

/// What a terminal worker operation reports, before the ring gives it a
/// sequence number and the clock a completion time.
pub struct TerminalEventDraft {
    pub connection_id: u64,
    pub request_id: u64,
    pub operation: String,
    pub outcome: String,
    pub error_code: Option<String>,
    pub result_count: Option<u64>,
    pub stage_millis: Option<StageTimings>,
}

/// `n + 1`, or `n` when that would pass `u64::MAX`.
pub open spec fn saturating_inc(n: u64) -> u64 {
    if n == u64::MAX {
        n
    } else {
        (n + 1) as u64
    }
}

/// `event` with its cursor's sequence set to `sequence`.
pub open spec fn with_sequence(event: RequestEvent, sequence: u64) -> RequestEvent {
    RequestEvent { cursor: EventCursor { sequence, ..event.cursor }, ..event }
}

/// The events a ring holds after `event` is appended to `events`: the oldest
/// leaves when there would be more than [`EVENT_RING_CAPACITY`].
pub open spec fn ring_after_push(events: Seq<RequestEvent>, event: RequestEvent) -> Seq<
    RequestEvent,
> {
    if events.len() < EVENT_RING_CAPACITY {
        events.push(event)
    } else {
        events.push(event).skip(1)
    }
}

/// In-memory ring of the metadata of terminal requests: at most
/// [`EVENT_RING_CAPACITY`] events, oldest first.
pub struct EventRing {
    events: VecDeque<RequestEvent>,
    next_sequence: u64,
}

impl EventRing {
    #[verifier::type_invariant]
    spec fn well_formed(self) -> bool {
        &&& self.events@.len() <= EVENT_RING_CAPACITY
        &&& forall|i: int|
            0 <= i < self.events@.len() ==> (#[trigger] self.events@[i]).cursor.sequence
                < self.next_sequence || self.next_sequence == u64::MAX
        &&& forall|i: int, j: int|
            0 <= i < j < self.events@.len() ==> (#[trigger] self.events@[i]).cursor.sequence
                < (#[trigger] self.events@[j]).cursor.sequence || self.events@[j].cursor.sequence
                == u64::MAX
    }

    /// The events held, oldest first.
    pub closed spec fn view_events(self) -> Seq<RequestEvent> {
        self.events@
    }

    /// The sequence number the next pushed event gets.
    pub closed spec fn view_next(self) -> u64 {
        self.next_sequence
    }

    /// An empty ring whose first event gets sequence 0.
    pub fn new() -> (res: Self)
        ensures
            res.view_events() == Seq::<RequestEvent>::empty(),
            res.view_next() == 0,
    {
        EventRing { events: VecDeque::new(), next_sequence: 0 }
    }

    /// Appends `event` under the next sequence number and returns that
    /// number; the oldest event leaves when the ring would exceed its
    /// capacity.
    pub fn push(&mut self, event: RequestEvent) -> (res: u64)
        ensures
            res == old(self).view_next(),
            final(self).view_next() == saturating_inc(old(self).view_next()),
            final(self).view_events() == ring_after_push(
                old(self).view_events(),
                with_sequence(event, res),
            ),
            final(self).view_events().len() <= EVENT_RING_CAPACITY,
    {
        proof {
            use_type_invariant(&*self);
        }
        let sequence = self.next_sequence;
        let mut event = event;
        event.cursor.sequence = sequence;
        let mut events: VecDeque<RequestEvent> = VecDeque::new();
        std::mem::swap(&mut events, &mut self.events);
        events.push_back(event);
        if events.len() > EVENT_RING_CAPACITY {
            let _ = events.pop_front();
        }
        let ghost pushed = events@;
        proof {
            assert forall|i: int| 0 <= i < pushed.len() implies (#[trigger] pushed[i]).cursor.sequence
                <= sequence by {}
        }
        *self = EventRing { events, next_sequence: sequence.saturating_add(1) };
        proof {
            if old(self).view_events().len() >= EVENT_RING_CAPACITY {
                assert(self.events@ == old(self).view_events().push(
                    with_sequence(event, sequence),
                ).skip(1));
            }
        }
        sequence
    }

    /// The sequence number the next pushed event gets.
    pub fn next_sequence(&self) -> (res: u64)
        ensures
            res == self.view_next(),
    {
        self.next_sequence
    }

    /// The events after `after`, with the cursor to resume from and whether
    /// a gap or more events were signalled; see [`page_events`], [`page_next_sequence`], [`page_gap`] and
    /// [`page_more`].
    pub fn page(&self, instance_id: &str, after: Option<&EventCursor>) -> (res: (
        Vec<RequestEvent>,
        EventCursor,
        bool,
        bool,
    ))
        ensures
            res.0@ == page_events(self.view_events(), instance_id@, after),
            res.1.instance_id@ == instance_id@,
            res.1.sequence == page_next_sequence(self.view_events(), instance_id@, after),
            res.2 == page_gap(self.view_events(), self.view_next(), instance_id@, after),
            res.3 == page_more(self.view_events(), instance_id@, after),
    {
        proof {
            use_type_invariant(self);
        }
        let mut gap = false;
        let start_seq: u64 = match after {
            None => 0,
            Some(cursor) => {
                if !crate::text::str_eq(cursor.instance_id.as_str(), instance_id) {
                    gap = true;
                    0
                } else {
                    if self.events.len() > 0 {
                        let oldest = self.events[0].cursor.sequence;
                        if cursor.sequence.saturating_add(1) < oldest {
                            gap = true;
                        }
                    } else if cursor.sequence > 0 && self.next_sequence > 0 {
                        if cursor.sequence.saturating_add(1) < self.next_sequence {
                            gap = true;
                        }
                    }
                    cursor.sequence.saturating_add(1)
                }
            },
        };
        let ghost s = self.events@;
        let ghost keep = |e: RequestEvent| e.cursor.sequence >= start_seq;
        let mut events: Vec<RequestEvent> = Vec::new();
        let n = self.events.len();
        for i in 0..n
            invariant
                n == s.len(),
                s == self.events@,
                keep == (|e: RequestEvent| e.cursor.sequence >= start_seq),
                events@ == s.take(i as int).filter(keep),
        {
            proof {
                reveal(Seq::filter);
                assert(s.take(i + 1).drop_last() == s.take(i as int));
            }
            if self.events[i].cursor.sequence >= start_seq {
                events.push(self.events[i].clone());
            }
        }
        proof {
            assert(s.take(n as int) == s);
        }
        let more = events.len() > OBSERVE_PAGE_SIZE;
        if more {
            events.truncate(OBSERVE_PAGE_SIZE);
        }
        let sequence = if events.len() == 0 {
            match after {
                Some(c) => c.sequence,
                None => 0,
            }
        } else {
            events[events.len() - 1].cursor.sequence
        };
        let next_cursor = EventCursor { instance_id: instance_id.to_owned(), sequence };
        (events, next_cursor, gap, more)
    }
}

impl Default for EventRing {
    fn default() -> (res: Self)
        ensures
            res.view_events() == Seq::<RequestEvent>::empty(),
            res.view_next() == 0,
    {
        EventRing::new()
    }
}

/// The first sequence a page may hold: the one after the cursor's, from the
/// start when there is no cursor or it names another daemon instance.
pub open spec fn page_start(instance_id: Seq<char>, after: Option<&EventCursor>) -> u64 {
    match after {
        None => 0,
        Some(c) => if c.instance_id@ != instance_id {
            0
        } else {
            saturating_inc(c.sequence)
        },
    }
}

/// Whether the events between the cursor and the page cannot all be shown:
/// the cursor names another instance, or the ring has dropped events that
/// followed it.
pub open spec fn page_gap(
    events: Seq<RequestEvent>,
    next: u64,
    instance_id: Seq<char>,
    after: Option<&EventCursor>,
) -> bool {
    match after {
        None => false,
        Some(c) => if c.instance_id@ != instance_id {
            true
        } else if events.len() > 0 {
            saturating_inc(c.sequence) < events[0].cursor.sequence
        } else {
            c.sequence > 0 && next > 0 && saturating_inc(c.sequence) < next
        },
    }
}

/// The events of the page that starts at `start`: those held with a
/// sequence at or after it, oldest first, at most [`OBSERVE_PAGE_SIZE`].
pub open spec fn page_events_from(events: Seq<RequestEvent>, start: u64) -> Seq<RequestEvent> {
    let all = events.filter(|e: RequestEvent| e.cursor.sequence >= start);
    if all.len() > OBSERVE_PAGE_SIZE {
        all.take(OBSERVE_PAGE_SIZE as int)
    } else {
        all
    }
}

/// The events of the page served after `after` by instance `instance_id`.
pub open spec fn page_events(
    events: Seq<RequestEvent>,
    instance_id: Seq<char>,
    after: Option<&EventCursor>,
) -> Seq<RequestEvent> {
    page_events_from(events, page_start(instance_id, after))
}

/// Whether more events follow the page.
pub open spec fn page_more(
    events: Seq<RequestEvent>,
    instance_id: Seq<char>,
    after: Option<&EventCursor>,
) -> bool {
    let start = page_start(instance_id, after);
    events.filter(|e: RequestEvent| e.cursor.sequence >= start).len() > OBSERVE_PAGE_SIZE
}

/// The sequence to resume from: that of the last event of the page, or the
/// given cursor's (0 without one) when the page is empty.
pub open spec fn page_next_sequence(
    events: Seq<RequestEvent>,
    instance_id: Seq<char>,
    after: Option<&EventCursor>,
) -> u64 {
    let page = page_events(events, instance_id, after);
    if page.len() == 0 {
        match after {
            Some(c) => c.sequence,
            None => 0,
        }
    } else {
        page.last().cursor.sequence
    }
}

/// The stable error code an observer sees for `err`: the variant's name,
/// never its fields.
pub open spec fn error_code_of(err: DaemonError) -> Seq<char> {
    match err {
        DaemonError::ProtocolVersion { .. } => "protocol_version"@,
        DaemonError::Starting => "starting"@,
        DaemonError::IndexInProgress => "index_in_progress"@,
        DaemonError::SymbolNotFound { .. } => "symbol_not_found"@,
        DaemonError::SymbolAmbiguous { .. } => "symbol_ambiguous"@,
        DaemonError::StoreStale { .. } => "store_stale"@,
        DaemonError::GpuUnavailable { .. } => "gpu_unavailable"@,
        DaemonError::RequestTooLarge { .. } => "request_too_large"@,
        DaemonError::Malformed { .. } => "malformed"@,
        DaemonError::Internal { .. } => "internal"@,
        DaemonError::ObserverForbidden { .. } => "observer_forbidden"@,
    }
}

/// The error code of `err`, free of any path, query or detail it carries.
pub fn safe_error_code(err: &DaemonError) -> (res: String)
    ensures
        res@ == error_code_of(*err),
{
    match err {
        DaemonError::ProtocolVersion { .. } => "protocol_version".to_owned(),
        DaemonError::Starting => "starting".to_owned(),
        DaemonError::IndexInProgress => "index_in_progress".to_owned(),
        DaemonError::SymbolNotFound { .. } => "symbol_not_found".to_owned(),
        DaemonError::SymbolAmbiguous { .. } => "symbol_ambiguous".to_owned(),
        DaemonError::StoreStale { .. } => "store_stale".to_owned(),
        DaemonError::GpuUnavailable { .. } => "gpu_unavailable".to_owned(),
        DaemonError::RequestTooLarge { .. } => "request_too_large".to_owned(),
        DaemonError::Malformed { .. } => "malformed".to_owned(),
        DaemonError::Internal { .. } => "internal".to_owned(),
        DaemonError::ObserverForbidden { .. } => "observer_forbidden".to_owned(),
    }
}

/// An observation of `status` with the page of `ring` after `after`, as
/// served by the daemon instance that `status` names.
pub fn build_observation(status: DaemonStatus, ring: &EventRing, after: Option<&EventCursor>) -> (res:
    Observation)
    ensures
        res.status == status,
        res.events@ == page_events(ring.view_events(), status.instance_id@, after),
        res.next_cursor.instance_id@ == status.instance_id@,
        res.next_cursor.sequence == page_next_sequence(
            ring.view_events(),
            status.instance_id@,
            after,
        ),
        res.gap == page_gap(ring.view_events(), ring.view_next(), status.instance_id@, after),
        res.more == page_more(ring.view_events(), status.instance_id@, after),
{
    let (events, next_cursor, gap, more) = ring.page(status.instance_id.as_str(), after);
    Observation { status, events, next_cursor, gap, more }
}

/// Whether `e` is the event that records `draft` for instance `instance_id`,
/// completed at `completed_at_unix_ms` after `elapsed_micros`, under
/// sequence `sequence`.
pub open spec fn records_draft(
    e: RequestEvent,
    draft: TerminalEventDraft,
    instance_id: Seq<char>,
    completed_at_unix_ms: u64,
    elapsed_micros: u64,
    sequence: u64,
) -> bool {
    &&& e.cursor.instance_id@ == instance_id
    &&& e.cursor.sequence == sequence
    &&& e.connection_id == draft.connection_id
    &&& e.request_id == draft.request_id
    &&& e.completed_at_unix_ms == completed_at_unix_ms
    &&& e.operation == draft.operation
    &&& e.elapsed_micros == elapsed_micros
    &&& e.outcome == draft.outcome
    &&& e.error_code == draft.error_code
    &&& e.result_count == draft.result_count
    &&& e.stage_millis == draft.stage_millis
}

/// Records a terminal operation in `ring` when event recording is on; with
/// recording off the ring is left as it was.
pub fn record_terminal(
    ring: &mut EventRing,
    record_events: bool,
    draft: TerminalEventDraft,
    instance_id: &str,
    completed_at_unix_ms: u64,
    elapsed_micros: u64,
)
    ensures
        !record_events ==> final(ring).view_events() == old(ring).view_events()
            && final(ring).view_next() == old(ring).view_next(),
        record_events ==> {
            &&& final(ring).view_next() == saturating_inc(old(ring).view_next())
            &&& final(ring).view_events() == ring_after_push(
                old(ring).view_events(),
                final(ring).view_events().last(),
            )
            &&& records_draft(
                final(ring).view_events().last(),
                draft,
                instance_id@,
                completed_at_unix_ms,
                elapsed_micros,
                old(ring).view_next(),
            )
        },
{
    if !record_events {
        return;
    }
    let ghost d = draft;
    let event = RequestEvent {
        cursor: EventCursor { instance_id: instance_id.to_owned(), sequence: 0 },
        connection_id: draft.connection_id,
        request_id: draft.request_id,
        completed_at_unix_ms,
        operation: draft.operation,
        elapsed_micros,
        outcome: draft.outcome,
        error_code: draft.error_code,
        result_count: draft.result_count,
        stage_millis: draft.stage_millis,
    };
    let ghost before = ring.view_events();
    ring.push(event);
    proof {
        let e = with_sequence(event, old(ring).view_next());
        if before.len() >= EVENT_RING_CAPACITY {
            assert(before.push(e).skip(1).last() == e);
        }
    }
}

/// Whether `after` is `before` with its last event dropped, marked as
/// having more events, and resuming after the last event kept.
pub open spec fn shrunk_from(after: Observation, before: Observation) -> bool {
    &&& after.status == before.status
    &&& after.gap == before.gap
    &&& after.more
    &&& after.events@ == before.events@.drop_last()
    &&& after.events@.len() > 0 ==> after.next_cursor == after.events@.last().cursor
    &&& after.events@.len() == 0 ==> after.next_cursor == before.next_cursor
}

/// Drops the last event of an observation that is too large to send, marks
/// that more events follow, and moves the resume cursor back to the last
/// event kept.
pub fn shrink_observation(obs: &mut Observation)
    requires
        old(obs).events@.len() > 0,
    ensures
        shrunk_from(*final(obs), *old(obs)),
{
    obs.events.pop();
    obs.more = true;
    let n = obs.events.len();
    if n > 0 {
        obs.next_cursor = obs.events[n - 1].cursor.clone();
    }
}

/// Whether an observation whose response frame takes `encoded_len` bytes
/// (`None` when it could not be encoded) is too large to send: the frame
/// may take `MAX_REQUEST_BYTES` and its length prefix.
pub open spec fn too_large_to_send(encoded_len: Option<usize>) -> bool {
    match encoded_len {
        Some(n) => n > MAX_REQUEST_BYTES + 4,
        None => true,
    }
}

/// One step of fitting an observation into a response frame, given the
/// length of its current encoding. While it is too large and still holds
/// events, its last event is dropped and `true` asks for another encoding;
/// otherwise it is left as it is and `false` says to send it. Each step
/// that asks again holds one event fewer, so the steps end.
pub fn fit_observation_step(obs: &mut Observation, encoded_len: Option<usize>) -> (res: bool)
    ensures
        res == (too_large_to_send(encoded_len) && old(obs).events@.len() > 0),
        res ==> shrunk_from(*final(obs), *old(obs)),
        !res ==> *final(obs) == *old(obs),
{
    let too_large = match encoded_len {
        Some(n) => n > MAX_REQUEST_BYTES + 4,
        None => true,
    };
    if too_large && obs.events.len() > 0 {
        shrink_observation(obs);
        true
    } else {
        false
    }
}

/// A page never repeats the event the cursor last consumed, nor any before
/// it: every event served after a cursor of the same instance has a larger
/// sequence.
pub proof fn lemma_page_never_replays(
    events: Seq<RequestEvent>,
    instance_id: Seq<char>,
    cursor: &EventCursor,
    i: int,
)
    requires
        cursor.instance_id@ == instance_id,
        cursor.sequence < u64::MAX,
        0 <= i < page_events(events, instance_id, Some(cursor)).len(),
    ensures
        page_events(events, instance_id, Some(cursor))[i].cursor.sequence > cursor.sequence,
{
    let start = page_start(instance_id, Some(cursor));
    let keep = |e: RequestEvent| e.cursor.sequence >= start;
    let all = events.filter(keep);
    assert(0 <= i < all.len());
    events.lemma_filter_pred(keep, i);
}

/// A page holds at most [`OBSERVE_PAGE_SIZE`] events, and says so when more
/// are waiting.
pub proof fn lemma_page_is_bounded(
    events: Seq<RequestEvent>,
    instance_id: Seq<char>,
    after: Option<&EventCursor>,
)
    ensures
        page_events(events, instance_id, after).len() <= OBSERVE_PAGE_SIZE,
        page_more(events, instance_id, after) ==> page_events(events, instance_id, after).len()
            == OBSERVE_PAGE_SIZE,
{
}

} // verus!
