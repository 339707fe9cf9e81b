//! Retained console history: the retention rules, what is kept of each
//! observation, collection gaps, and the per-minute metric buckets.

use vstd::prelude::*;

use crate::observe::error_code_of;
use crate::protocol::{DaemonError, IndexReportWire, LastIndexCompletion, Request, ResourceSnapshot};
use crate::session::request_kind_name;
use crate::text::str_eq;

verus! {

/// How long history is kept: seven days.
pub const RETENTION_MILLIS: u64 = 604800000;

/// The most request events kept.
pub const EVENT_CAP: usize = 100000;

/// The most resource samples kept.
pub const METRIC_CAP: usize = 100000;

/// The most index reports kept per repository.
pub const REPORT_CAP_PER_REPOSITORY: usize = 100;

/// A request event kept for a repository.
#[derive(Debug, PartialEq)]
pub struct RequestEvent {
    pub repository_id: String,
    pub event: crate::protocol::RequestEvent,
}

impl Clone for RequestEvent {
    fn clone(&self) -> (res: Self)
        ensures
            res == *self,
    {
        RequestEvent { repository_id: self.repository_id.clone(), event: self.event.clone() }
    }
}

/// A resource sample kept for a repository.
#[derive(Debug, PartialEq)]
pub struct ResourceSample {
    pub repository_id: String,
    pub resources: ResourceSnapshot,
}

impl Clone for ResourceSample {
    fn clone(&self) -> (res: Self)
        ensures
            res == *self,
    {
        ResourceSample {
            repository_id: self.repository_id.clone(),
            resources: self.resources.clone(),
        }
    }
}

/// A stretch of time whose history is missing, and why.
#[derive(Debug, Clone, PartialEq)]
pub struct Gap {
    pub repository_id: String,
    pub from_unix_ms: u64,
    pub to_unix_ms: u64,
    pub reason: String,
}

/// The nearest-rank percentile of ascending samples, `None` for none.
pub fn nearest(values: &[u64], percentile: usize) -> (res: Option<u64>)
    requires
        percentile <= 100,
    ensures
        values@.len() == 0 ==> res is None,
        values@.len() > 0 ==> res == Some(
            values@[(if crate::measure::nearest_rank(percentile as nat, values@.len()) == 0 {
                0
            } else {
                crate::measure::nearest_rank(percentile as nat, values@.len()) - 1
            })],
        ),
{
    if values.len() == 0 {
        return None;
    }
    let n = values.len();
    let rank = rank_for(percentile, n);
    let idx = if rank == 0 {
        0
    } else {
        rank - 1
    };
    Some(values[idx])
}

/// `ceil(p * n / 100)`, computed without forming `p * n`.
fn rank_for(p: usize, n: usize) -> (res: usize)
    requires
        p <= 100,
    ensures
        res == crate::measure::nearest_rank(p as nat, n as nat),
        res <= n,
{
    let whole = n / 100;
    let part = n % 100;
    assert(part * p <= 9900) by (nonlinear_arith)
        requires
            part < 100,
            p <= 100,
    ;
    let tail = (part * p + 99) / 100;
    assert(tail <= part) by (nonlinear_arith)
        requires
            tail == (part * p + 99) / 100,
            p <= 100,
    ;
    assert(whole * p <= whole * 100) by (nonlinear_arith)
        requires
            p <= 100,
    ;
    assert(whole * p + tail == (p * n + 99) / 100) by (nonlinear_arith)
        requires
            part == n % 100,
            tail == (part * p + 99) / 100,
            n == whole * 100 + part,
    ;
    whole * p + tail
}

/// The operation names kept as they are; anything else is `unknown`.
pub open spec fn safe_operation_of(v: Seq<char>) -> Seq<char> {
    if v == "Search"@ || v == "SearchSimilar"@ || v == "GetSymbol"@ || v == "Index"@ || v
        == "Status"@ || v == "Shutdown"@ || v == "Hello"@ {
        v
    } else {
        "unknown"@
    }
}

/// The outcomes kept as they are; anything else is `unknown`.
pub open spec fn safe_outcome_of(v: Seq<char>) -> Seq<char> {
    if v == "ok"@ || v == "error"@ || v == "success"@ || v == "failed"@ || v == "interrupted"@ {
        v
    } else {
        "unknown"@
    }
}

/// The daemon error codes kept as they are; anything else is
/// `operation_failed`.
pub open spec fn safe_error_of(v: Seq<char>) -> Seq<char> {
    if v == "protocol_version"@ || v == "starting"@ || v == "index_in_progress"@ || v
        == "symbol_not_found"@ || v == "symbol_ambiguous"@ || v == "store_stale"@ || v
        == "gpu_unavailable"@ || v == "request_too_large"@ || v == "malformed"@ || v
        == "internal"@ || v == "observer_forbidden"@ {
        v
    } else {
        "operation_failed"@
    }
}

/// History keeps the name of every operation the daemon records a request
/// event for as it is: every request but an observer's page request, whose
/// name becomes `unknown`. Whatever the text, the sanitized name is the
/// text itself or `unknown`.
pub proof fn lemma_daemon_operations_are_kept(req: Request, v: Seq<char>)
    ensures
        !(req is Observe) ==> safe_operation_of(request_kind_name(req)) == request_kind_name(req),
        req is Observe ==> safe_operation_of(request_kind_name(req)) == "unknown"@,
        safe_operation_of(v) == v || safe_operation_of(v) == "unknown"@,
{
    reveal_strlit("Observe");
    reveal_strlit("Search");
    reveal_strlit("SearchSimilar");
    reveal_strlit("GetSymbol");
    reveal_strlit("Index");
    reveal_strlit("Status");
    reveal_strlit("Shutdown");
    reveal_strlit("Hello");
}

/// History keeps the outcomes the daemon records (`ok`, `error`) and those
/// of console operations (`success`, `failed`, `interrupted`) as they are;
/// any other text becomes `unknown`.
pub proof fn lemma_recorded_outcomes_are_kept(v: Seq<char>)
    ensures
        (v == "ok"@ || v == "error"@ || v == "success"@ || v == "failed"@ || v == "interrupted"@)
            ==> safe_outcome_of(v) == v,
        safe_outcome_of(v) == v || safe_outcome_of(v) == "unknown"@,
{
}

/// History keeps the code of every daemon error as it is; any other text
/// becomes `operation_failed`.
pub proof fn lemma_daemon_error_codes_are_kept(err: DaemonError, v: Seq<char>)
    ensures
        safe_error_of(error_code_of(err)) == error_code_of(err),
        safe_error_of(v) == v || safe_error_of(v) == "operation_failed"@,
{
}

/// Whether `s` is one of `options`.
fn one_of(s: &str, options: &[&str]) -> (res: bool)
    ensures
        res == exists|i: int| 0 <= i < options@.len() && (#[trigger] options@[i])@ == s@,
{
    let n = options.len();
    for i in 0..n
        invariant
            n == options@.len(),
            forall|k: int| 0 <= k < i ==> (#[trigger] options@[k])@ != s@,
    {
        if str_eq(options[i], s) {
            return true;
        }
    }
    false
}

/// The operation name kept in history: a known operation, or `unknown`, so
/// that nothing a client sent is retained.
pub fn safe_operation(v: &str) -> (res: &str)
    ensures
        res@ == safe_operation_of(v@),
{
    let known = ["Search", "SearchSimilar", "GetSymbol", "Index", "Status", "Shutdown", "Hello"];
    if one_of(v, &known) {
        v
    } else {
        "unknown"
    }
}

/// The outcome kept in history: a known outcome, or `unknown`.
pub fn safe_outcome(v: &str) -> (res: &str)
    ensures
        res@ == safe_outcome_of(v@),
{
    let known = ["ok", "error", "success", "failed", "interrupted"];
    if one_of(v, &known) {
        v
    } else {
        "unknown"
    }
}

/// The error code kept in history: a daemon error code, or
/// `operation_failed`.
pub fn safe_error(v: &str) -> (res: &str)
    ensures
        res@ == safe_error_of(v@),
{
    let known = [
        "protocol_version",
        "starting",
        "index_in_progress",
        "symbol_not_found",
        "symbol_ambiguous",
        "store_stale",
        "gpu_unavailable",
        "request_too_large",
        "malformed",
        "internal",
        "observer_forbidden",
    ];
    if one_of(v, &known) {
        v
    } else {
        "operation_failed"
    }
}

/// An owned optional string with `f` applied to its content.
fn sanitized_error_code(code: &Option<String>) -> (res: Option<String>)
    ensures
        match *code {
            Some(c) => res matches Some(r) && r@ == safe_error_of(c@),
            None => res is None,
        },
{
    match code {
        Some(c) => Some(safe_error(c.as_str()).to_owned()),
        None => None,
    }
}

/// What history keeps of a daemon's request event for a repository: its
/// operation, outcome and error code reduced to known names.
pub fn sanitize_event(repository_id: &str, event: &crate::protocol::RequestEvent) -> (res: RequestEvent)
    ensures
        res.repository_id@ == repository_id@,
        res.event.cursor == event.cursor,
        res.event.connection_id == event.connection_id,
        res.event.request_id == event.request_id,
        res.event.completed_at_unix_ms == event.completed_at_unix_ms,
        res.event.operation@ == safe_operation_of(event.operation@),
        res.event.elapsed_micros == event.elapsed_micros,
        res.event.outcome@ == safe_outcome_of(event.outcome@),
        match event.error_code {
            Some(c) => res.event.error_code matches Some(r) && r@ == safe_error_of(c@),
            None => res.event.error_code is None,
        },
        res.event.result_count == event.result_count,
        res.event.stage_millis == event.stage_millis,
{
    RequestEvent {
        repository_id: repository_id.to_owned(),
        event: crate::protocol::RequestEvent {
            cursor: event.cursor.clone(),
            connection_id: event.connection_id,
            request_id: event.request_id,
            completed_at_unix_ms: event.completed_at_unix_ms,
            operation: safe_operation(event.operation.as_str()).to_owned(),
            elapsed_micros: event.elapsed_micros,
            outcome: safe_outcome(event.outcome.as_str()).to_owned(),
            error_code: sanitized_error_code(&event.error_code),
            result_count: event.result_count,
            stage_millis: event.stage_millis,
        },
    }
}

/// Whether `c` may appear in a kept device identifier.
pub open spec fn device_id_char(c: char) -> bool {
    ('a' <= c && c <= 'z') || ('A' <= c && c <= 'Z') || ('0' <= c && c <= '9') || c == '-' || c
        == '_' || c == ':' || c == ' ' || c == '.'
}

/// Whether a device identifier is kept: at most 80 characters, all ASCII
/// alphanumerics or `-_: .`.
pub open spec fn keeps_device_id(id: Seq<char>) -> bool {
    id.len() <= 80 && forall|i: int| 0 <= i < id.len() ==> device_id_char(#[trigger] id[i])
}

/// Whether every character of `s` satisfies the device identifier rule.
fn all_device_chars(s: &str) -> (res: bool)
    ensures
        res == forall|i: int| 0 <= i < s@.len() ==> device_id_char(#[trigger] s@[i]),
{
    let chars = crate::text::chars_of(s);
    let n = chars.len();
    for i in 0..n
        invariant
            n == chars@.len(),
            chars@ == s@,
            forall|k: int| 0 <= k < i ==> device_id_char(#[trigger] chars@[k]),
    {
        let c = chars[i];
        if !(('a' <= c && c <= 'z') || ('A' <= c && c <= 'Z') || ('0' <= c && c <= '9') || c == '-'
            || c == '_' || c == ':' || c == ' ' || c == '.') {
            return false;
        }
    }
    true
}

/// What history keeps of a resource snapshot: the device identifier only
/// when it is short and plain, since arbitrary daemon strings are not
/// retained.
pub fn sanitize_resources(resources: &ResourceSnapshot) -> (res: ResourceSnapshot)
    ensures
        res.sampled_at_unix_ms == resources.sampled_at_unix_ms,
        res.device_used_bytes == resources.device_used_bytes,
        res.device_total_bytes == resources.device_total_bytes,
        res.process_used_bytes == resources.process_used_bytes,
        res.model_used_bytes == resources.model_used_bytes,
        match resources.device_id {
            Some(id) => if keeps_device_id(id@) {
                res.device_id == Some(id)
            } else {
                res.device_id is None
            },
            None => res.device_id is None,
        },
{
    let device_id = match &resources.device_id {
        Some(id) => {
            if all_device_chars(id.as_str()) && crate::text::chars_of(id.as_str()).len() <= 80 {
                Some(id.clone())
            } else {
                None
            }
        },
        None => None,
    };
    ResourceSnapshot {
        sampled_at_unix_ms: resources.sampled_at_unix_ms,
        device_id,
        device_used_bytes: resources.device_used_bytes,
        device_total_bytes: resources.device_total_bytes,
        process_used_bytes: resources.process_used_bytes,
        model_used_bytes: resources.model_used_bytes,
    }
}

/// Whether an indexed commit id is kept: at most 64 hexadecimal digits.
pub open spec fn keeps_commit(commit: Seq<char>) -> bool {
    commit.len() <= 64 && forall|i: int|
        0 <= i < commit.len() ==> crate::text::hex_value(#[trigger] commit[i]) is Some
}

/// What history keeps of an index completion: known outcome and error code,
/// and the report's commit only when it looks like a commit id.
pub fn sanitize_last_index(last: &LastIndexCompletion) -> (res: LastIndexCompletion)
    ensures
        res.completed_at_unix_ms == last.completed_at_unix_ms,
        res.connection_id == last.connection_id,
        res.request_id == last.request_id,
        res.outcome@ == safe_outcome_of(last.outcome@),
        match last.error_code {
            Some(c) => res.error_code matches Some(r) && r@ == safe_error_of(c@),
            None => res.error_code is None,
        },
        match last.report {
            Some(r) => res.report matches Some(k) && (if keeps_commit(r.commit@) {
                k.commit@ == r.commit@
            } else {
                k.commit@.len() == 0
            }) && k == (crate::protocol::IndexReportWire { commit: k.commit, ..r }),
            None => res.report is None,
        },
{
    let report = match &last.report {
        Some(r) => {
            let mut k = r.clone();
            let chars = crate::text::chars_of(r.commit.as_str());
            let mut hex = true;
            let n = chars.len();
            for i in 0..n
                invariant
                    n == chars@.len(),
                    chars@ == r.commit@,
                    hex == forall|j: int|
                        0 <= j < i ==> crate::text::hex_value(#[trigger] chars@[j]) is Some,
            {
                if crate::text::hex_digit(chars[i]).is_none() {
                    hex = false;
                }
            }
            if n > 64 || !hex {
                k.commit = String::new();
            }
            Some(k)
        },
        None => None,
    };
    LastIndexCompletion {
        completed_at_unix_ms: last.completed_at_unix_ms,
        outcome: safe_outcome(last.outcome.as_str()).to_owned(),
        error_code: sanitized_error_code(&last.error_code),
        connection_id: last.connection_id,
        request_id: last.request_id,
        report,
    }
}

/// Whether an observation starts a gap, and why: the daemon restarted (its
/// instance changed since the last observation) or its event buffer dropped
/// events (the observation reports a gap). The gap runs from the previous
/// observation, or from now when there was none.
pub fn observation_gap(
    gap: bool,
    previous: &Option<(String, u64)>,
    next_instance: &str,
    now: u64,
) -> (res: Option<(&'static str, u64)>)
    ensures
        ({
            let restarted = match *previous {
                Some((instance, _)) => instance@ != next_instance@,
                None => false,
            };
            let from = match *previous {
                Some((_, t)) => t,
                None => now,
            };
            &&& !gap && !restarted ==> res is None
            &&& restarted ==> (res matches Some((reason, f)) && reason@ == "daemon_restart"@ && f
                == from)
            &&& gap && !restarted ==> (res matches Some((reason, f)) && reason@ == "buffer_loss"@
                && f == from)
        }),
{
    let restarted = match previous {
        Some((instance, _)) => !str_eq(instance.as_str(), next_instance),
        None => false,
    };
    if !gap && !restarted {
        return None;
    }
    let from = match previous {
        Some((_, t)) => *t,
        None => now,
    };
    if restarted {
        Some(("daemon_restart", from))
    } else {
        Some(("buffer_loss", from))
    }
}

/// The gap reasons recorded as they are; any other is a collection outage.
pub open spec fn gap_label_of(reason: Seq<char>) -> Seq<char> {
    if reason == "daemon_restart"@ || reason == "buffer_loss"@ || reason == "console_restart"@
        || reason == "collection_outage"@ {
        reason
    } else {
        "collection_outage"@
    }
}

/// A gap as recorded: its reason reduced to a known one, and its start no
/// later than its end.
pub fn gap_record(repository_id: &str, from: u64, to: u64, reason: &str) -> (res: Gap)
    ensures
        res.repository_id@ == repository_id@,
        res.from_unix_ms == (if from < to {
            from
        } else {
            to
        }),
        res.to_unix_ms == to,
        res.reason@ == gap_label_of(reason@),
{
    let known = ["daemon_restart", "buffer_loss", "console_restart", "collection_outage"];
    let label = if one_of(reason, &known) {
        reason
    } else {
        "collection_outage"
    };
    Gap {
        repository_id: repository_id.to_owned(),
        from_unix_ms: if from < to {
            from
        } else {
            to
        },
        to_unix_ms: to,
        reason: label.to_owned(),
    }
}

/// The oldest time history keeps at `now`.
pub fn retention_cutoff(now: u64) -> (res: u64)
    ensures
        res == (if now >= RETENTION_MILLIS {
            now - RETENTION_MILLIS
        } else {
            0
        }),
{
    now.saturating_sub(RETENTION_MILLIS)
}

/// The width of a metric bucket: one minute.
pub const BUCKET_MILLIS: u64 = 60000;

/// `a + b`, or `u64::MAX` when that passes it.
pub open spec fn sat(a: int) -> u64 {
    if a > u64::MAX {
        u64::MAX
    } else {
        a as u64
    }
}

/// The end of the bucket starting at `start` in a window ending at `to`.
pub open spec fn bucket_end(start: u64, to: u64) -> u64 {
    let a = sat(start + BUCKET_MILLIS);
    let b = sat(to + 1);
    if a < b {
        a
    } else {
        b
    }
}

/// The buckets from `start` on: each runs to the next minute boundary or
/// past `to`, the last one reaching past `to`.
pub open spec fn buckets_from(start: u64, to: u64, fuel: nat) -> Seq<(u64, u64)>
    decreases fuel,
{
    if fuel == 0 || start > to {
        Seq::empty()
    } else {
        let end = bucket_end(start, to);
        if end > to || end == start {
            seq![(start, end)]
        } else {
            seq![(start, end)] + buckets_from(end, to, (fuel - 1) as nat)
        }
    }
}

/// The minute buckets of the window `from..=to`, starting at the minute
/// boundary at or before `from`.
pub open spec fn metric_buckets(from: u64, to: u64) -> Seq<(u64, u64)> {
    buckets_from((from - from % BUCKET_MILLIS) as u64, to, (to as nat) + 2)
}

/// The minute buckets of the window `from..=to`.
pub fn bucket_windows(from: u64, to: u64) -> (res: Vec<(u64, u64)>)
    ensures
        res@ == metric_buckets(from, to),
{
    let mut out: Vec<(u64, u64)> = Vec::new();
    let mut start = from - from % BUCKET_MILLIS;
    let ghost first = start;
    let ghost total_fuel: nat = (to as nat) + 2;
    let ghost mut fuel: nat = total_fuel;
    while start <= to
        invariant_except_break
            first == from - from % BUCKET_MILLIS,
            total_fuel == (to as nat) + 2,
            fuel + start >= to + 2,
            out@ + buckets_from(start, to, fuel) == metric_buckets(from, to),
        ensures
            out@ == metric_buckets(from, to),
        decreases to - start + 1,
    {
        let end = start.saturating_add(BUCKET_MILLIS);
        let cap = to.saturating_add(1);
        let end = if end < cap {
            end
        } else {
            cap
        };
        let ghost before = out@;
        out.push((start, end));
        if end > to || end == start {
            proof {
                assert(buckets_from(start, to, fuel) == seq![(start, end)]);
                assert(out@ == before + seq![(start, end)]);
            }
            break;
        }
        proof {
            assert(buckets_from(start, to, fuel) == seq![(start, end)] + buckets_from(
                end,
                to,
                (fuel - 1) as nat,
            ));
            assert(out@ + buckets_from(end, to, (fuel - 1) as nat) == before + (seq![(start, end)]
                + buckets_from(end, to, (fuel - 1) as nat)));
            fuel = (fuel - 1) as nat;
        }
        start = end;
    }
    proof {
        if start > to {
            assert(buckets_from(start, to, fuel) == Seq::<(u64, u64)>::empty());
            assert(out@ + Seq::<(u64, u64)>::empty() == out@);
        }
    }
    out
}

/// The integer figures of one metric bucket; the rates derived from them
/// are ratios and are computed where the response is written.
#[derive(Debug, Clone, PartialEq)]
pub struct BucketSummary {
    pub from_unix_ms: u64,
    pub to_unix_ms: u64,
    pub request_count: usize,
    pub sample_count: usize,
    pub coverage_millis: u64,
    pub p50_micros: Option<u64>,
    pub p95_micros: Option<u64>,
    pub resources: Vec<ResourceSample>,
}

/// Whether an event completed within `start..end`.
pub open spec fn event_in(e: RequestEvent, start: u64, end: u64) -> bool {
    start <= e.event.completed_at_unix_ms && e.event.completed_at_unix_ms < end
}

/// Whether a sample was taken within `start..end`.
pub open spec fn sample_in(s: ResourceSample, start: u64, end: u64) -> bool {
    start <= s.resources.sampled_at_unix_ms && s.resources.sampled_at_unix_ms < end
}

/// The durations of the events within the bucket, in event order.
pub open spec fn bucket_durations(events: Seq<RequestEvent>, start: u64, end: u64) -> Seq<u64>
    decreases events.len(),
{
    if events.len() == 0 {
        Seq::empty()
    } else {
        let rest = bucket_durations(events.drop_last(), start, end);
        if event_in(events.last(), start, end) {
            rest.push(events.last().event.elapsed_micros)
        } else {
            rest
        }
    }
}

/// The samples within the bucket, in order.
pub open spec fn bucket_samples(samples: Seq<ResourceSample>, start: u64, end: u64) -> Seq<
    ResourceSample,
>
    decreases samples.len(),
{
    if samples.len() == 0 {
        Seq::empty()
    } else {
        let rest = bucket_samples(samples.drop_last(), start, end);
        if sample_in(samples.last(), start, end) {
            rest.push(samples.last())
        } else {
            rest
        }
    }
}

/// The time between consecutive samples, each step at most a bucket wide,
/// summed and saturating at `u64::MAX`.
pub open spec fn coverage(samples: Seq<ResourceSample>) -> u64
    decreases samples.len(),
{
    if samples.len() < 2 {
        0
    } else {
        let n = samples.len();
        let a = samples[n - 2].resources.sampled_at_unix_ms;
        let b = samples[n - 1].resources.sampled_at_unix_ms;
        let step: u64 = if b >= a {
            if b - a < BUCKET_MILLIS {
                (b - a) as u64
            } else {
                BUCKET_MILLIS
            }
        } else {
            0
        };
        sat(coverage(samples.drop_last()) + step)
    }
}

/// Summarises one bucket: the events completed and samples taken within
/// it, the nearest-rank p50 and p95 of the event durations, and how much of
/// the bucket the samples cover.
pub fn bucket_summary(
    events: &Vec<RequestEvent>,
    samples: &Vec<ResourceSample>,
    start: u64,
    end: u64,
) -> (res: BucketSummary)
    ensures
        res.from_unix_ms == start,
        res.to_unix_ms == end,
        res.request_count == bucket_durations(events@, start, end).len(),
        res.resources@ == bucket_samples(samples@, start, end),
        res.sample_count == bucket_samples(samples@, start, end).len(),
        res.coverage_millis == coverage(bucket_samples(samples@, start, end)),
        ({
            let d = crate::measure::sorted_samples(bucket_durations(events@, start, end));
            &&& d.len() == 0 ==> res.p50_micros is None && res.p95_micros is None
            &&& d.len() > 0 ==> res.p50_micros == Some(
                d[(crate::measure::nearest_rank(50, d.len()) - 1) as int],
            ) && res.p95_micros == Some(d[(crate::measure::nearest_rank(95, d.len()) - 1) as int])
        }),
{
    let mut durations: Vec<u64> = Vec::new();
    let n = events.len();
    for i in 0..n
        invariant
            n == events@.len(),
            durations@ == bucket_durations(events@.take(i as int), start, end),
    {
        assert(events@.take(i + 1).drop_last() == events@.take(i as int));
        let e = &events[i];
        if start <= e.event.completed_at_unix_ms && e.event.completed_at_unix_ms < end {
            durations.push(e.event.elapsed_micros);
        }
    }
    assert(events@.take(n as int) == events@);
    let mut kept: Vec<ResourceSample> = Vec::new();
    let mut covered: u64 = 0;
    let m = samples.len();
    for i in 0..m
        invariant
            m == samples@.len(),
            kept@ == bucket_samples(samples@.take(i as int), start, end),
            covered == coverage(kept@),
    {
        assert(samples@.take(i + 1).drop_last() == samples@.take(i as int));
        let s = &samples[i];
        if start <= s.resources.sampled_at_unix_ms && s.resources.sampled_at_unix_ms < end {
            let k = kept.len();
            if k > 0 {
                let a = kept[k - 1].resources.sampled_at_unix_ms;
                let b = s.resources.sampled_at_unix_ms;
                let diff = b.saturating_sub(a);
                let step = if diff < BUCKET_MILLIS {
                    diff
                } else {
                    BUCKET_MILLIS
                };
                covered = covered.saturating_add(step);
            }
            let ghost before = kept@;
            kept.push(s.clone());
            assert(kept@.drop_last() == before);
        }
    }
    assert(samples@.take(m as int) == samples@);
    let sorted = crate::measure::sort_samples(durations.as_slice());
    proof {
        crate::measure::lemma_sorted_lengths(durations@);
    }
    let p50 = nearest(sorted.as_slice(), 50);
    let p95 = nearest(sorted.as_slice(), 95);
    BucketSummary {
        from_unix_ms: start,
        to_unix_ms: end,
        request_count: durations.len(),
        sample_count: kept.len(),
        coverage_millis: covered,
        p50_micros: p50,
        p95_micros: p95,
        resources: kept,
    }
}

} // verus!
