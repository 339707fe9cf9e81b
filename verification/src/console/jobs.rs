//! The console's operations on registered repositories: the book of jobs,
//! at most one active per repository, and how a job moves through its
//! phases.

use vstd::prelude::*;

use crate::console::api::{
    same_job, api_error_is, daemon_code, daemon_message, daemon_retryable, ApiError, IndexJob, JobState,
    OperationEvent, OperationPhase, OperationType,
};
use crate::keyed::{distinct_keys, find_key, keyed, keys_of};
use crate::protocol::{DaemonError, IndexPhase, Lifecycle, Response};
use crate::text::{lemma_text_lt_total, lemma_text_lt_transitive, str_eq, text_less, text_lt};

verus! {

/// Whether a job is still queued or running.
pub open spec fn is_active(j: IndexJob) -> bool {
    j.state == JobState::Queued || j.state == JobState::Running
}

/// Whether no repository has two active jobs among `jobs`.
pub open spec fn single_active(jobs: Seq<(String, IndexJob)>) -> bool {
    forall|a: int, b: int|
        0 <= a < b < jobs.len() && is_active((#[trigger] jobs[a]).1) && is_active(
            (#[trigger] jobs[b]).1,
        ) ==> jobs[a].1.repository_id@ != jobs[b].1.repository_id@
}

/// Whether each entry is filed under its job's id.
pub open spec fn filed_by_id(jobs: Seq<(String, IndexJob)>) -> bool {
    forall|i: int| 0 <= i < jobs.len() ==> (#[trigger] jobs[i]).0@ == jobs[i].1.id@
}

/// Whether `repository_id` has an active job among `jobs`.
pub open spec fn has_active(jobs: Seq<(String, IndexJob)>, repository_id: Seq<char>) -> bool {
    exists|i: int|
        0 <= i < jobs.len() && is_active((#[trigger] jobs[i]).1) && jobs[i].1.repository_id@
            == repository_id
}

/// Whether jobs are in strictly ascending order of their ids.
pub open spec fn ids_ascending(jobs: Seq<IndexJob>) -> bool {
    forall|i: int, j: int|
        0 <= i < j < jobs.len() ==> text_lt((#[trigger] jobs[i]).id@, (#[trigger] jobs[j]).id@)
}

/// Inserts a job whose id is new at its place by id, and gives the
/// position it took.
fn insert_by_id(jobs: &mut Vec<IndexJob>, job: IndexJob) -> (res: usize)
    requires
        ids_ascending(old(jobs)@),
        forall|k: int| 0 <= k < old(jobs)@.len() ==> (#[trigger] old(jobs)@[k]).id@ != job.id@,
    ensures
        res <= old(jobs)@.len(),
        final(jobs)@ == old(jobs)@.insert(res as int, job),
        ids_ascending(final(jobs)@),
{
    let mut j = jobs.len();
    while j > 0 && text_less(job.id.as_str(), jobs[j - 1].id.as_str())
        invariant
            j <= jobs@.len(),
            jobs@ == old(jobs)@,
            forall|k: int| j <= k < jobs@.len() ==> text_lt(job.id@, (#[trigger] jobs@[k]).id@),
        decreases j,
    {
        j = j - 1;
    }
    let ghost before = jobs@;
    proof {
        if j > 0 {
            assert(before[j - 1].id@ != job.id@);
            lemma_text_lt_total(job.id@, before[j - 1].id@);
        }
    }
    let ghost key = job.id@;
    jobs.insert(j, job);
    proof {
        let after = jobs@;
        assert(after[j as int].id@ == key);
        assert forall|a: int, b: int| 0 <= a < b < after.len() implies text_lt(
            (#[trigger] after[a]).id@,
            (#[trigger] after[b]).id@,
        ) by {
            if b < j {
                assert(after[a] == before[a] && after[b] == before[b]);
            } else if a > j {
                assert(after[a] == before[a - 1] && after[b] == before[b - 1]);
            } else if a == j {
                assert(after[b] == before[b - 1]);
            } else if b == j {
                assert(after[a] == before[a]);
                if a < j - 1 {
                    lemma_text_lt_transitive(before[a].id@, before[j - 1].id@, key);
                }
            } else {
                assert(after[a] == before[a] && after[b] == before[b - 1]);
                if a < j - 1 {
                    lemma_text_lt_transitive(before[a].id@, before[j - 1].id@, key);
                }
                lemma_text_lt_transitive(before[a].id@, key, before[b - 1].id@);
            }
        }
    }
    j
}

/// The console's jobs, by id.
pub struct JobBook {
    items: Vec<(String, IndexJob)>,
}

/// The phase an index progress report puts a job in.
pub open spec fn phase_of(p: IndexPhase) -> OperationPhase {
    match p {
        IndexPhase::Walking => OperationPhase::Walking,
        IndexPhase::Parsing => OperationPhase::Parsing,
        IndexPhase::Embedding => OperationPhase::Embedding,
        IndexPhase::Storing => OperationPhase::Storing,
        IndexPhase::Compacting => OperationPhase::Compacting,
    }
}

impl JobBook {
    #[verifier::type_invariant]
    spec fn well_formed(self) -> bool {
        &&& distinct_keys(self.items@)
        &&& filed_by_id(self.items@)
    }

    /// The jobs, each under its id.
    pub closed spec fn view_jobs(self) -> Map<Seq<char>, IndexJob> {
        keyed(self.items@)
    }

    /// Whether a repository has a queued or running job.
    pub closed spec fn view_active(self, repository_id: Seq<char>) -> bool {
        has_active(self.items@, repository_id)
    }

    /// Whether no repository has two queued or running jobs.
    pub closed spec fn view_single_active(self) -> bool {
        single_active(self.items@)
    }

    /// An empty book.
    pub fn new() -> (res: Self)
        ensures
            res.view_jobs() == Map::<Seq<char>, IndexJob>::empty(),
            res.view_single_active(),
    {
        JobBook { items: Vec::new() }
    }

    /// Whether a repository has a queued or running job.
    pub fn running(&self, repository_id: &str) -> (res: bool)
        ensures
            res == self.view_active(repository_id@),
    {
        proof {
            use_type_invariant(self);
        }
        let n = self.items.len();
        for i in 0..n
            invariant
                n == self.items@.len(),
                forall|k: int|
                    0 <= k < i ==> !(is_active((#[trigger] self.items@[k]).1)
                        && self.items@[k].1.repository_id@ == repository_id@),
        {
            let j = &self.items[i].1;
            let active = matches!(j.state, JobState::Queued) || matches!(j.state, JobState::Running);
            if active && str_eq(j.repository_id.as_str(), repository_id) {
                assert(is_active(self.items@[i as int].1));
                return true;
            }
        }
        false
    }

    /// The job with this id, or `not_found`.
    pub fn get(&self, id: &str) -> (res: Result<IndexJob, ApiError>)
        ensures
            self.view_jobs().contains_key(id@) ==> (res matches Ok(j)
                && crate::console::api::same_job(j, self.view_jobs()[id@])),
            !self.view_jobs().contains_key(id@) ==> (res matches Err(e) && e.code@
                == "not_found"@),
    {
        proof {
            use_type_invariant(self);
        }
        match crate::keyed::lookup(&self.items, id) {
            Some(j) => Ok(j.clone()),
            None => Err(ApiError::missing()),
        }
    }

    /// The jobs of a repository, each once, in order of their ids.
    pub fn list(&self, repository_id: &str) -> (res: Vec<IndexJob>)
        ensures
            ids_ascending(res@),
            forall|i: int|
                0 <= i < res@.len() ==> {
                    &&& self.view_jobs().contains_key((#[trigger] res@[i]).id@)
                    &&& same_job(res@[i], self.view_jobs()[res@[i].id@])
                    &&& res@[i].repository_id@ == repository_id@
                },
            forall|id: Seq<char>|
                #[trigger] self.view_jobs().contains_key(id) && self.view_jobs()[id].repository_id@
                    == repository_id@ ==> exists|i: int| 0 <= i < res@.len() && (#[trigger] res@[i]).id@ == id,
    {
        proof {
            use_type_invariant(self);
        }
        let ghost items = self.items@;
        let mut out: Vec<IndexJob> = Vec::new();
        let ghost mut idx: Seq<int> = Seq::empty();
        let n = self.items.len();
        for i in 0..n
            invariant
                n == items.len(),
                items == self.items@,
                distinct_keys(items),
                filed_by_id(items),
                ids_ascending(out@),
                idx.len() == out@.len(),
                forall|k: int|
                    0 <= k < out@.len() ==> 0 <= #[trigger] idx[k] < i && same_job(
                        out@[k],
                        items[idx[k]].1,
                    ) && items[idx[k]].1.repository_id@ == repository_id@,
                forall|j: int|
                    0 <= j < i && (#[trigger] items[j]).1.repository_id@ == repository_id@
                        ==> idx.contains(j),
        {
            let job = &self.items[i].1;
            if str_eq(job.repository_id.as_str(), repository_id) {
                let copy = job.clone();
                let ghost before = out@;
                let ghost old_idx = idx;
                proof {
                    assert forall|k: int| 0 <= k < before.len() implies (#[trigger] before[k]).id@
                        != copy.id@ by {
                        let j = old_idx[k];
                        assert(items[j].0@ == items[j].1.id@);
                        assert(items[i as int].0@ == items[i as int].1.id@);
                    }
                }
                let p = insert_by_id(&mut out, copy);
                proof {
                    idx = old_idx.insert(p as int, i as int);
                    assert forall|k: int| 0 <= k < out@.len() implies 0 <= #[trigger] idx[k] < i + 1
                        && same_job(out@[k], items[idx[k]].1) && items[idx[k]].1.repository_id@
                        == repository_id@ by {
                        if k < p {
                            assert(out@[k] == before[k] && idx[k] == old_idx[k]);
                        } else if k > p {
                            assert(out@[k] == before[k - 1] && idx[k] == old_idx[k - 1]);
                        }
                    }
                    assert forall|j: int|
                        0 <= j < i + 1 && (#[trigger] items[j]).1.repository_id@
                            == repository_id@ implies idx.contains(j) by {
                        if j < i {
                            let k = choose|k: int| 0 <= k < old_idx.len() && old_idx[k] == j;
                            if k < p {
                                assert(idx[k] == j);
                            } else {
                                assert(idx[k + 1] == j);
                            }
                        } else {
                            assert(idx[p as int] == j);
                        }
                    }
                }
            }
        }
        proof {
            assert forall|i: int| 0 <= i < out@.len() implies {
                &&& self.view_jobs().contains_key((#[trigger] out@[i]).id@)
                &&& same_job(out@[i], self.view_jobs()[out@[i].id@])
                &&& out@[i].repository_id@ == repository_id@
            } by {
                let j = idx[i];
                crate::keyed::lemma_keyed_at(items, j);
                assert(items[j].0@ == items[j].1.id@);
            }
            assert forall|id: Seq<char>|
                #[trigger] self.view_jobs().contains_key(id) && self.view_jobs()[id].repository_id@
                    == repository_id@ implies exists|i: int|
                0 <= i < out@.len() && (#[trigger] out@[i]).id@ == id by {
                crate::keyed::lemma_keyed_domain(items, id);
                let j = choose|j: int| 0 <= j < items.len() && (#[trigger] items[j]).0@ == id;
                crate::keyed::lemma_keyed_at(items, j);
                assert(items[j].1.repository_id@ == repository_id@);
                let k = choose|k: int| 0 <= k < idx.len() && idx[k] == j;
                assert(out@[k].id@ == id);
            }
        }
        out
    }

    /// Forgets every job of a repository.
    pub fn forget(&mut self, repository_id: &str)
        ensures
            forall|id: Seq<char>|
                #[trigger] final(self).view_jobs().contains_key(id) <==> old(
                    self,
                ).view_jobs().contains_key(id) && old(self).view_jobs()[id].repository_id@
                    != repository_id@,
            forall|id: Seq<char>|
                #[trigger] final(self).view_jobs().contains_key(id) ==> final(self).view_jobs()[id]
                    == old(self).view_jobs()[id],
            old(self).view_single_active() ==> final(self).view_single_active(),
    {
        self.retain_where(repository_id, None);
    }

    /// Keeps the active jobs and those whose ids are still persisted.
    pub fn keep_persisted(&mut self, ids: &Vec<String>)
        ensures
            forall|id: Seq<char>|
                #[trigger] final(self).view_jobs().contains_key(id) <==> old(
                    self,
                ).view_jobs().contains_key(id) && (is_active(old(self).view_jobs()[id])
                    || ids_view(ids@).contains(id)),
            forall|id: Seq<char>|
                #[trigger] final(self).view_jobs().contains_key(id) ==> final(self).view_jobs()[id]
                    == old(self).view_jobs()[id],
            old(self).view_single_active() ==> final(self).view_single_active(),
    {
        self.retain_where("", Some(ids));
    }

    /// Drops jobs: of `repository_id` when `ids` is `None`; otherwise the
    /// finished jobs whose ids are not among `ids`.
    fn retain_where(&mut self, repository_id: &str, ids: Option<&Vec<String>>)
        ensures
            forall|id: Seq<char>|
                #[trigger] final(self).view_jobs().contains_key(id) <==> old(
                    self,
                ).view_jobs().contains_key(id) && keeps(
                    repository_id@,
                    opt_ids(ids),
                    old(self).view_jobs()[id],
                    id,
                ),
            forall|id: Seq<char>|
                #[trigger] final(self).view_jobs().contains_key(id) ==> final(self).view_jobs()[id]
                    == old(self).view_jobs()[id],
            old(self).view_single_active() ==> final(self).view_single_active(),
    {
        proof {
            use_type_invariant(&*self);
        }
        let ghost pred = |e: (String, IndexJob)| keeps(repository_id@, opt_ids(ids), e.1, e.0@);
        let mut old_items: Vec<(String, IndexJob)> = Vec::new();
        std::mem::swap(&mut old_items, &mut self.items);
        let ghost before = old_items@;
        let mut rest = old_items;
        let mut reversed: Vec<(String, IndexJob)> = Vec::new();
        while rest.len() > 0
            invariant
                reversed@.len() + rest@.len() == before.len(),
                rest@ == before.take(rest@.len() as int),
                forall|k: int|
                    0 <= k < reversed@.len() ==> #[trigger] reversed@[k] == before[before.len() - 1
                        - k],
            decreases rest@.len(),
        {
            let e = rest.pop().unwrap();
            reversed.push(e);
        }
        let n = reversed.len();
        let mut kept: Vec<(String, IndexJob)> = Vec::new();
        let mut i: usize = 0;
        while reversed.len() > 0
            invariant
                n == before.len(),
                i + reversed@.len() == n,
                forall|k: int|
                    0 <= k < reversed@.len() ==> #[trigger] reversed@[k] == before[before.len() - 1
                        - k],
                pred == (|e: (String, IndexJob)| keeps(repository_id@, opt_ids(ids), e.1, e.0@)),
                kept@ == crate::keyed::filtered(before.take(i as int), pred),
            decreases reversed@.len(),
        {
            let e = reversed.pop().unwrap();
            assert(e == before[i as int]);
            assert(before.take(i + 1).drop_last() == before.take(i as int));
            let keep = match ids {
                None => !str_eq(e.1.repository_id.as_str(), repository_id),
                Some(list) => {
                    let active = matches!(e.1.state, JobState::Queued) || matches!(
                        e.1.state,
                        JobState::Running
                    );
                    active || contains_id(list, e.0.as_str())
                },
            };
            assert(keep == pred(e));
            if keep {
                kept.push(e);
            }
            i = i + 1;
        }
        proof {
            assert(before.take(n as int) == before);
            let f = crate::keyed::filtered(before, pred);
            if single_active(before) {
                crate::keyed::lemma_filtered_pairwise(
                    before,
                    pred,
                    |x: (String, IndexJob), y: (String, IndexJob)|
                        is_active(x.1) && is_active(y.1) ==> x.1.repository_id@
                            != y.1.repository_id@,
                );
            }
            crate::keyed::lemma_filtered_members(before, pred);
            assert forall|k: int| 0 <= k < f.len() implies (#[trigger] f[k]).0@ == f[k].1.id@ by {
                let i = choose|i: int| 0 <= i < before.len() && f[k] === #[trigger] before[i] && pred(
                    before[i],
                );
            }
            assert forall|id: Seq<char>| #[trigger] keyed(f).contains_key(id) <==> keyed(
                before,
            ).contains_key(id) && keeps(repository_id@, opt_ids(ids), keyed(before)[id], id) by {
                crate::keyed::lemma_filtered_keyed(before, pred, id);
            }
            assert forall|id: Seq<char>| #[trigger] keyed(f).contains_key(id) implies keyed(f)[id]
                == keyed(before)[id] by {
                crate::keyed::lemma_filtered_keyed(before, pred, id);
            }
            crate::keyed::lemma_filtered_keyed(before, pred, Seq::empty());
        }
        self.items = kept;
    }

    /// Reserves a new queued job for a repository, unless it already has an
    /// active one: an index job is then refused as `index_in_progress`, a
    /// daemon start as `starting`.
    pub fn reserve(
        &mut self,
        id: String,
        repository_id: &str,
        operation_type: OperationType,
        now: u64,
    ) -> (res: Result<IndexJob, ApiError>)
        ensures
            old(self).view_active(repository_id@) ==> {
                &&& final(self).view_jobs() == old(self).view_jobs()
                &&& res matches Err(e) && (if operation_type == OperationType::StartDaemon {
                    api_error_is(
                        e,
                        daemon_code(DaemonError::Starting),
                        daemon_message(DaemonError::Starting),
                        daemon_retryable(DaemonError::Starting),
                    )
                } else {
                    api_error_is(
                        e,
                        daemon_code(DaemonError::IndexInProgress),
                        daemon_message(DaemonError::IndexInProgress),
                        daemon_retryable(DaemonError::IndexInProgress),
                    )
                })
            },
            !old(self).view_active(repository_id@) && !old(self).view_jobs().contains_key(id@) ==> {
                &&& res matches Ok(j) && j.id == id && j.repository_id@ == repository_id@ && j.state
                    == JobState::Queued && j.phase == OperationPhase::Queued && j.operation_type
                    == operation_type && j.started_at_unix_ms == now && j.updated_at_unix_ms == now
                    && j.completed_at_unix_ms is None && j.events@.len() == 0 && j.done == 0
                &&& final(self).view_jobs() == old(self).view_jobs().insert(
                    id@,
                    final(self).view_jobs()[id@],
                )
                &&& crate::console::api::same_job(final(self).view_jobs()[id@], res->Ok_0)
            },
            old(self).view_single_active() ==> final(self).view_single_active(),
    {
        proof {
            use_type_invariant(&*self);
        }
        if self.running(repository_id) {
            let e = if matches!(operation_type, OperationType::StartDaemon) {
                DaemonError::Starting
            } else {
                DaemonError::IndexInProgress
            };
            return Err(ApiError::from_daemon(&e));
        }
        if let Some(_) = find_key(&self.items, id.as_str()) {
            proof {
                crate::keyed::lemma_keyed_domain(self.items@, id@);
            }
            return Err(ApiError::from_daemon(&DaemonError::IndexInProgress));
        }
        let job = IndexJob {
            id: id.clone(),
            repository_id: repository_id.to_owned(),
            state: JobState::Queued,
            operation_type,
            phase: OperationPhase::Queued,
            progress: None,
            done: 0,
            total: None,
            report: None,
            error_code: None,
            error_message: None,
            daemon_instance_id: None,
            started_at_unix_ms: now,
            updated_at_unix_ms: now,
            completed_at_unix_ms: None,
            events: Vec::new(),
        };
        let copy = job.clone();
        let mut items: Vec<(String, IndexJob)> = Vec::new();
        std::mem::swap(&mut items, &mut self.items);
        let ghost before = items@;
        items.push((id, job));
        proof {
            assert(items@.drop_last() == before);
            assert forall|k: int| 0 <= k < before.len() implies (#[trigger] before[k]).0@ != copy.id@ by {}
        }
        self.items = items;
        proof {
            assert(keyed(self.items@) == keyed(before).insert(copy.id@, self.items@.last().1));
        }
        Ok(copy)
    }
}

/// The characters of each id.
pub open spec fn ids_view(ids: Seq<String>) -> Seq<Seq<char>> {
    ids.map_values(|s: String| s@)
}

/// The ids to keep, as characters.
pub open spec fn opt_ids(ids: Option<&Vec<String>>) -> Option<Seq<Seq<char>>> {
    match ids {
        Some(v) => Some(ids_view(v@)),
        None => None,
    }
}

/// Whether a job filed under `id` stays: without a list of ids, when it is
/// not of `repository_id`; with one, when it is active or listed.
pub open spec fn keeps(
    repository_id: Seq<char>,
    ids: Option<Seq<Seq<char>>>,
    job: IndexJob,
    id: Seq<char>,
) -> bool {
    match ids {
        None => job.repository_id@ != repository_id,
        Some(list) => is_active(job) || list.contains(id),
    }
}

/// Whether `id` is among `ids`.
fn contains_id(ids: &Vec<String>, id: &str) -> (res: bool)
    ensures
        res == ids_view(ids@).contains(id@),
{
    let n = ids.len();
    for i in 0..n
        invariant
            n == ids@.len(),
            forall|k: int| 0 <= k < i ==> (#[trigger] ids@[k])@ != id@,
    {
        if str_eq(ids[i].as_str(), id) {
            assert(ids_view(ids@)[i as int] == id@);
            return true;
        }
    }
    assert forall|k: int| 0 <= k < ids_view(ids@).len() implies ids_view(ids@)[k] != id@ by {
        assert(ids_view(ids@)[k] == ids@[k]@);
    }
    false
}

/// The message an operation event carries for a job in its phase; a
/// failed job tells its error message when it has one.
pub open spec fn event_message_of(job: IndexJob) -> Seq<char> {
    match job.phase {
        OperationPhase::SpawningDaemon => "Starting daemon"@,
        OperationPhase::WaitingForSocket => "Waiting for Unix socket"@,
        OperationPhase::Connecting => "Connecting to daemon"@,
        OperationPhase::LoadingModel => "Loading model"@,
        OperationPhase::Walking => "Walking repository"@,
        OperationPhase::Parsing => "Parsing repository"@,
        OperationPhase::Embedding => "Embedding chunks"@,
        OperationPhase::Storing => "Storing index"@,
        OperationPhase::Compacting => "Compacting index"@,
        OperationPhase::Ready => "Daemon ready"@,
        OperationPhase::Completed => "Operation complete"@,
        OperationPhase::Failed => match job.error_message {
            Some(m) => m@,
            None => "Operation failed"@,
        },
        OperationPhase::Interrupted => "Operation interrupted"@,
        OperationPhase::Queued => "Operation queued"@,
        OperationPhase::InitializingCuda => "Initializing CUDA"@,
        OperationPhase::OpeningStore => "Opening store"@,
    }
}

/// The message an operation event carries for a job in its phase.
pub fn event_message(job: &IndexJob) -> (res: String)
    ensures
        res@ == event_message_of(*job),
{
    match job.phase {
        OperationPhase::SpawningDaemon => "Starting daemon".to_owned(),
        OperationPhase::WaitingForSocket => "Waiting for Unix socket".to_owned(),
        OperationPhase::Connecting => "Connecting to daemon".to_owned(),
        OperationPhase::LoadingModel => "Loading model".to_owned(),
        OperationPhase::Walking => "Walking repository".to_owned(),
        OperationPhase::Parsing => "Parsing repository".to_owned(),
        OperationPhase::Embedding => "Embedding chunks".to_owned(),
        OperationPhase::Storing => "Storing index".to_owned(),
        OperationPhase::Compacting => "Compacting index".to_owned(),
        OperationPhase::Ready => "Daemon ready".to_owned(),
        OperationPhase::Completed => "Operation complete".to_owned(),
        OperationPhase::Failed => match &job.error_message {
            Some(m) => m.clone(),
            None => "Operation failed".to_owned(),
        },
        OperationPhase::Interrupted => "Operation interrupted".to_owned(),
        OperationPhase::Queued => "Operation queued".to_owned(),
        OperationPhase::InitializingCuda => "Initializing CUDA".to_owned(),
        OperationPhase::OpeningStore => "Opening store".to_owned(),
    }
}

/// Whether two jobs agree in every field but their update time and events.
pub open spec fn same_but_history(a: IndexJob, b: IndexJob) -> bool {
    &&& a.id == b.id
    &&& a.repository_id == b.repository_id
    &&& a.state == b.state
    &&& a.operation_type == b.operation_type
    &&& a.phase == b.phase
    &&& a.progress == b.progress
    &&& a.done == b.done
    &&& a.total == b.total
    &&& a.report == b.report
    &&& a.error_code == b.error_code
    &&& a.error_message == b.error_message
    &&& a.daemon_instance_id == b.daemon_instance_id
    &&& a.started_at_unix_ms == b.started_at_unix_ms
    &&& a.completed_at_unix_ms == b.completed_at_unix_ms
}

/// Records that a job changed at `now`: its update time, and an event with
/// its state, phase and message.
pub fn record_update(job: &mut IndexJob, now: u64)
    ensures
        same_but_history(*final(job), *old(job)),
        final(job).updated_at_unix_ms == now,
        final(job).events@.len() == old(job).events@.len() + 1,
        final(job).events@.drop_last() == old(job).events@,
        final(job).events@.last().at_unix_ms == now,
        final(job).events@.last().state == old(job).state,
        final(job).events@.last().phase == old(job).phase,
        final(job).events@.last().message@ == event_message_of(*old(job)),
{
    job.updated_at_unix_ms = now;
    let message = event_message(job);
    let event = OperationEvent { at_unix_ms: now, state: job.state, phase: job.phase, message };
    job.events.push(event);
}

/// The persisted states of jobs the console was still working on.
pub open spec fn unfinished_state(state: Seq<char>) -> bool {
    state == "running"@ || state == "queued"@ || state == "interrupted"@
}

/// A job as loaded after a console restart: one the console was still
/// working on is interrupted, with the reason, at `now`.
pub fn restore_job(job: &mut IndexJob, persisted_state: &str, now: u64)
    ensures
        unfinished_state(persisted_state@) ==> {
            &&& final(job).error_code matches Some(c) && c@ == "console_restarted"@
            &&& final(job).error_message matches Some(m) && m@
                == "The console restarted before this operation completed."@
            &&& *final(job) == (IndexJob {
                state: JobState::Interrupted,
                phase: OperationPhase::Interrupted,
                error_code: final(job).error_code,
                error_message: final(job).error_message,
                completed_at_unix_ms: Some(now),
                ..*old(job)
            })
        },
        !unfinished_state(persisted_state@) ==> *final(job) == *old(job),
{
    if str_eq(persisted_state, "running") || str_eq(persisted_state, "queued") || str_eq(
        persisted_state,
        "interrupted",
    ) {
        job.state = JobState::Interrupted;
        job.error_code = Some("console_restarted".to_owned());
        job.error_message = Some("The console restarted before this operation completed.".to_owned());
        job.phase = OperationPhase::Interrupted;
        job.completed_at_unix_ms = Some(now);
    }
}

/// What an index run does after a streamed response.
#[derive(Debug, PartialEq)]
pub enum IndexStep {
    /// Progress was recorded; keep reading.
    Continue,
    /// The index completed.
    Succeeded,
    /// The run failed with this error.
    Failed(ApiError),
}

/// Applies one streamed response of an index run to its job. Progress
/// moves the job's phase and counts; the report completes it; an error
/// fails it; anything else means the connection was lost.
pub fn apply_index_response(job: &mut IndexJob, resp: Response) -> (res: IndexStep)
    ensures
        match resp {
            Response::IndexProgress { phase, done, total } => {
                &&& res == IndexStep::Continue
                &&& *final(job) == (IndexJob {
                    progress: Some(phase),
                    phase: phase_of(phase),
                    done,
                    total,
                    ..*old(job)
                })
            },
            Response::IndexDone(report) => {
                &&& res == IndexStep::Succeeded
                &&& *final(job) == (IndexJob {
                    state: JobState::Succeeded,
                    phase: OperationPhase::Completed,
                    report: Some(report),
                    ..*old(job)
                })
            },
            Response::Error(e) => res matches IndexStep::Failed(a) && api_error_is(
                a,
                daemon_code(e),
                daemon_message(e),
                daemon_retryable(e),
            ) && *final(job) == *old(job),
            _ => res matches IndexStep::Failed(a) && api_error_is(
                a,
                "connection_lost"@,
                "Unexpected indexing response; the operation may still be running."@,
                true,
            ) && *final(job) == *old(job),
        },
        final(job).id == old(job).id,
        final(job).repository_id == old(job).repository_id,
{
    match resp {
        Response::IndexProgress { phase, done, total } => {
            job.progress = Some(phase);
            job.phase = match phase {
                IndexPhase::Walking => OperationPhase::Walking,
                IndexPhase::Parsing => OperationPhase::Parsing,
                IndexPhase::Embedding => OperationPhase::Embedding,
                IndexPhase::Storing => OperationPhase::Storing,
                IndexPhase::Compacting => OperationPhase::Compacting,
            };
            job.done = done;
            job.total = total;
            IndexStep::Continue
        },
        Response::IndexDone(report) => {
            job.state = JobState::Succeeded;
            job.phase = OperationPhase::Completed;
            job.report = Some(report);
            IndexStep::Succeeded
        },
        Response::Error(e) => IndexStep::Failed(ApiError::from_daemon(&e)),
        _ => IndexStep::Failed(
            ApiError::new(
                "connection_lost",
                "Unexpected indexing response; the operation may still be running.",
                true,
            ),
        ),
    }
}

/// The failure of an index run whose stream ended before its report.
pub fn stream_ended() -> (res: ApiError)
    ensures
        api_error_is(
            res,
            "connection_lost"@,
            "Indexing disconnected before completion; it may still be running."@,
            true,
        ),
{
    ApiError::new(
        "connection_lost",
        "Indexing disconnected before completion; it may still be running.",
        true,
    )
}

/// Whether a failure leaves the work possibly still running: a lost
/// connection or an elapsed deadline.
pub open spec fn interrupts(code: Seq<char>) -> bool {
    code == "connection_lost"@ || code == "timeout"@
}

/// A run that ended because its connection was lost or its response
/// deadline elapsed may still be running, so it is interrupted, not
/// failed; a run that ended with any other error failed. This holds of the
/// errors `ApiError::timeout` and `stream_ended` give.
pub proof fn lemma_lost_or_late_runs_are_interrupted(e: ApiError)
    ensures
        e.code@ == "timeout"@ ==> interrupts(e.code@),
        e.code@ == "connection_lost"@ ==> interrupts(e.code@),
        e.code@ != "timeout"@ && e.code@ != "connection_lost"@ ==> !interrupts(e.code@),
        api_error_is(
            e,
            "timeout"@,
            "The response deadline elapsed. The disconnected operation may still be running."@,
            true,
        ) ==> interrupts(e.code@),
        api_error_is(
            e,
            "connection_lost"@,
            "Indexing disconnected before completion; it may still be running."@,
            true,
        ) ==> interrupts(e.code@),
{
}

/// Settles an index run: a failure that may have left the index running
/// interrupts the job, any other fails it, both with the error's code and
/// message; success stamps its completion time.
pub fn finish_index(job: &mut IndexJob, result: &Result<(), ApiError>, now: u64)
    ensures
        match *result {
            Ok(()) => *final(job) == (IndexJob { completed_at_unix_ms: Some(now), ..*old(job) }),
            Err(e) => *final(job) == (IndexJob {
                state: if interrupts(e.code@) {
                    JobState::Interrupted
                } else {
                    JobState::Failed
                },
                phase: if interrupts(e.code@) {
                    OperationPhase::Interrupted
                } else {
                    OperationPhase::Failed
                },
                error_code: Some(e.code),
                error_message: Some(e.message),
                ..*old(job)
            }),
        },
{
    match result {
        Err(e) => {
            let interrupted = str_eq(e.code.as_str(), "connection_lost") || str_eq(
                e.code.as_str(),
                "timeout",
            );
            if interrupted {
                job.state = JobState::Interrupted;
                job.phase = OperationPhase::Interrupted;
            } else {
                job.state = JobState::Failed;
                job.phase = OperationPhase::Failed;
            }
            job.error_code = Some(e.code.clone());
            job.error_message = Some(e.message.clone());
        },
        Ok(()) => {
            job.completed_at_unix_ms = Some(now);
        },
    }
}

/// Whether a started daemon is ready for work: ready or indexing.
pub fn start_ready(lifecycle: Lifecycle) -> (res: bool)
    ensures
        res == (lifecycle == Lifecycle::Ready || lifecycle == Lifecycle::Indexing),
{
    matches!(lifecycle, Lifecycle::Ready) || matches!(lifecycle, Lifecycle::Indexing)
}

/// The failure of a daemon start that got an answer other than a status.
pub fn unexpected_startup() -> (res: ApiError)
    ensures
        api_error_is(
            res,
            "connection_lost"@,
            "The daemon returned an unexpected startup response."@,
            true,
        ),
{
    ApiError::new("connection_lost", "The daemon returned an unexpected startup response.", true)
}

/// Settles a daemon start: success completes the job, a failure fails it
/// with the error's code and message; either way it is stamped `now`.
pub fn finish_start(job: &mut IndexJob, result: Result<(), ApiError>, now: u64)
    ensures
        match result {
            Ok(()) => *final(job) == (IndexJob {
                state: JobState::Succeeded,
                phase: OperationPhase::Completed,
                completed_at_unix_ms: Some(now),
                ..*old(job)
            }),
            Err(e) => *final(job) == (IndexJob {
                state: JobState::Failed,
                phase: OperationPhase::Failed,
                error_code: Some(e.code),
                error_message: Some(e.message),
                completed_at_unix_ms: Some(now),
                ..*old(job)
            }),
        },
{
    match result {
        Ok(()) => {
            job.state = JobState::Succeeded;
            job.phase = OperationPhase::Completed;
        },
        Err(e) => {
            job.state = JobState::Failed;
            job.phase = OperationPhase::Failed;
            job.error_code = Some(e.code);
            job.error_message = Some(e.message);
        },
    }
    job.completed_at_unix_ms = Some(now);
}

impl JobBook {
    /// Files a job under its id, replacing any earlier version. The book
    /// keeps at most one active job per repository as long as a job only
    /// becomes active through [`JobBook::reserve`]: an update either leaves
    /// the queued and running states or keeps an active job active for the
    /// same repository.
    pub fn put(&mut self, job: IndexJob)
        ensures
            final(self).view_jobs() == old(self).view_jobs().insert(job.id@, job),
            old(self).view_single_active() && (is_active(job) ==> old(
                self,
            ).view_jobs().contains_key(job.id@) && is_active(old(self).view_jobs()[job.id@])
                && old(self).view_jobs()[job.id@].repository_id@ == job.repository_id@)
                ==> final(self).view_single_active(),
    {
        proof {
            use_type_invariant(&*self);
        }
        let mut items: Vec<(String, IndexJob)> = Vec::new();
        std::mem::swap(&mut items, &mut self.items);
        let ghost before = items@;
        let ghost j = job;
        match find_key(&items, job.id.as_str()) {
            Some(i) => {
                proof {
                    crate::keyed::lemma_keyed_at(before, i as int);
                }
                let key = items[i].0.clone();
                items.set(i, (key, job));
                proof {
                    crate::keyed::lemma_keyed_update(before, i as int, j);
                    assert forall|a: int, b: int|
                        0 <= a < b < items@.len() implies (#[trigger] items@[a]).0@
                        != (#[trigger] items@[b]).0@ by {
                        assert(items@[a].0@ == before[a].0@);
                        assert(items@[b].0@ == before[b].0@);
                    }
                    assert forall|k: int| 0 <= k < items@.len() implies (#[trigger] items@[k]).0@
                        == items@[k].1.id@ by {}
                    if single_active(before) && (is_active(j) ==> is_active(before[i as int].1)
                        && before[i as int].1.repository_id@ == j.repository_id@) {
                        assert forall|a: int, b: int|
                            0 <= a < b < items@.len() && is_active((#[trigger] items@[a]).1)
                                && is_active((#[trigger] items@[b]).1) implies items@[a].1.repository_id@
                            != items@[b].1.repository_id@ by {
                            if a == i {
                                assert(is_active(before[a].1));
                            } else if b == i {
                                assert(is_active(before[b].1));
                            }
                        }
                    }
                }
            },
            None => {
                proof {
                    crate::keyed::lemma_keyed_absent(before, j.id@);
                }
                items.push((job.id.clone(), job));
                proof {
                    assert(items@.drop_last() == before);
                    assert forall|a: int, b: int|
                        0 <= a < b < items@.len() implies (#[trigger] items@[a]).0@
                        != (#[trigger] items@[b]).0@ by {
                        if b == items@.len() - 1 {
                            assert(before[a].0@ != j.id@);
                        }
                    }
                    if single_active(before) && !is_active(j) {
                        assert forall|a: int, b: int|
                            0 <= a < b < items@.len() && is_active((#[trigger] items@[a]).1)
                                && is_active((#[trigger] items@[b]).1) implies items@[a].1.repository_id@
                            != items@[b].1.repository_id@ by {
                            assert(items@[a] == before[a]);
                        }
                    }
                }
            },
        }
        self.items = items;
    }

    /// The book of the jobs loaded at startup, each filed under its id; a
    /// later job with the same id replaces an earlier one.
    pub fn load(jobs: Vec<IndexJob>) -> (res: Self)
        ensures
            forall|id: Seq<char>|
                #[trigger] res.view_jobs().contains_key(id) <==> exists|k: int|
                    0 <= k < jobs@.len() && (#[trigger] jobs@[k]).id@ == id,
    {
        let mut items: Vec<(String, IndexJob)> = Vec::new();
        let ghost all = jobs@;
        let mut rest = jobs;
        let mut reversed: Vec<IndexJob> = Vec::new();
        while rest.len() > 0
            invariant
                reversed@.len() + rest@.len() == all.len(),
                rest@ == all.take(rest@.len() as int),
                forall|k: int|
                    0 <= k < reversed@.len() ==> #[trigger] reversed@[k] == all[all.len() - 1 - k],
            decreases rest@.len(),
        {
            let e = rest.pop().unwrap();
            reversed.push(e);
        }
        let n = reversed.len();
        let mut i: usize = 0;
        while reversed.len() > 0
            invariant
                n == all.len(),
                i + reversed@.len() == n,
                forall|k: int|
                    0 <= k < reversed@.len() ==> #[trigger] reversed@[k] == all[all.len() - 1 - k],
                distinct_keys(items@),
                filed_by_id(items@),
                forall|id: Seq<char>|
                    #[trigger] keyed(items@).contains_key(id) <==> exists|k: int|
                        0 <= k < i && (#[trigger] all[k]).id@ == id,
            decreases reversed@.len(),
        {
            let job = reversed.pop().unwrap();
            assert(job == all[i as int]);
            let ghost before = items@;
            let key = job.id.clone();
            match find_key(&items, key.as_str()) {
                Some(p) => {
                    let k2 = items[p].0.clone();
                    let ghost j = job;
                    items.set(p, (k2, job));
                    proof {
                        crate::keyed::lemma_keyed_update(before, p as int, j);
                        assert forall|a: int, b: int|
                            0 <= a < b < items@.len() implies (#[trigger] items@[a]).0@
                            != (#[trigger] items@[b]).0@ by {
                            assert(items@[a].0@ == before[a].0@);
                            assert(items@[b].0@ == before[b].0@);
                        }
                        assert forall|k: int| 0 <= k < items@.len() implies (
                        #[trigger] items@[k]).0@ == items@[k].1.id@ by {}
                        assert forall|id: Seq<char>| #[trigger] keyed(items@).contains_key(id) <==> exists|k: int|
                            0 <= k < i + 1 && (#[trigger] all[k]).id@ == id by {
                            if id == j.id@ {
                                assert(all[i as int].id@ == id);
                            }
                        }
                    }
                },
                None => {
                    items.push((key, job));
                    proof {
                        assert(items@.drop_last() == before);
                        assert(keyed(items@) == keyed(before).insert(
                            all[i as int].id@,
                            items@.last().1,
                        ));
                        assert forall|a: int, b: int|
                            0 <= a < b < items@.len() implies (#[trigger] items@[a]).0@
                            != (#[trigger] items@[b]).0@ by {
                            if b == items@.len() - 1 {
                                assert(before[a].0@ != items@[b].0@);
                            }
                        }
                        assert forall|id: Seq<char>| #[trigger] keyed(items@).contains_key(id) <==> exists|k: int|
                            0 <= k < i + 1 && (#[trigger] all[k]).id@ == id by {
                            if id == all[i as int].id@ {
                                assert(all[i as int].id@ == id);
                            }
                        }
                    }
                },
            }
            i = i + 1;
        }
        JobBook { items }
    }
}

} // verus!
