//! The job table: background transfers and tasks with their state,
//! progress, outcome and cancellation flag. The tasks themselves run in the
//! shell; every decision about a job's record is taken here.

use vstd::prelude::*;

use crate::clock::now_secs;
use crate::error::CoreError;
use crate::ids::new_id;
use crate::model::{copy_opt_string, opt_view};
use crate::text::{lemma_lex_antisym, lemma_lex_total, lemma_lex_trans, lex_le, str_le};

verus! {

/// Where a job is in its life.
#[derive(Debug, Clone, Copy, PartialEq, Eq, Structural)]
pub enum JobState {
    Queued,
    Running,
    Done,
    Failed,
    Cancelled,
}

/// Whether `s` ends a job's life.
pub open spec fn is_terminal(s: JobState) -> bool {
    s is Done || s is Failed || s is Cancelled
}

/// How far a job has come: `done / total`, with `done <= total`.
#[derive(Debug, Clone, Copy, PartialEq, Eq, Structural)]
pub struct Progress {
    pub done: u64,
    pub total: u64,
}

/// The progress `done / total` clamped to at most 1.
pub open spec fn clamped(done: u64, total: u64) -> Progress {
    Progress { done: if done > total { total } else { done }, total }
}

/// A job, as the UI sees it.
#[derive(Debug)]
pub struct JobInfo {
    pub id: String,
    pub kind: String,
    pub label: String,
    pub state: JobState,
    pub progress: Option<Progress>,
    pub detail: Option<String>,
    pub error: Option<String>,
    pub created_at: u64,
    pub finished_at: Option<u64>,
}

/// What a `JobInfo` holds, as plain values.
pub struct JobInfoView {
    pub id: Seq<char>,
    pub kind: Seq<char>,
    pub label: Seq<char>,
    pub state: JobState,
    pub progress: Option<Progress>,
    pub detail: Option<Seq<char>>,
    pub error: Option<Seq<char>>,
    pub created_at: u64,
    pub finished_at: Option<u64>,
}

impl View for JobInfo {
    type V = JobInfoView;

    open spec fn view(&self) -> JobInfoView {
        JobInfoView {
            id: self.id@,
            kind: self.kind@,
            label: self.label@,
            state: self.state,
            progress: self.progress,
            detail: opt_view(self.detail),
            error: opt_view(self.error),
            created_at: self.created_at,
            finished_at: self.finished_at,
        }
    }
}

impl Clone for JobInfo {
    fn clone(&self) -> (r: Self)
        ensures
            r@ == self@,
    {
        JobInfo {
            id: self.id.clone(),
            kind: self.kind.clone(),
            label: self.label.clone(),
            state: self.state,
            progress: self.progress,
            detail: copy_opt_string(&self.detail),
            error: copy_opt_string(&self.error),
            created_at: self.created_at,
            finished_at: self.finished_at,
        }
    }
}

/// A new job, queued.
pub open spec fn queued(id: Seq<char>, kind: Seq<char>, label: Seq<char>, created_at: u64) -> JobInfoView {
    JobInfoView {
        id,
        kind,
        label,
        state: JobState::Queued,
        progress: None,
        detail: None,
        error: None,
        created_at,
        finished_at: None,
    }
}

/// `j` moved to `state` at time `now`: a given detail replaces the old one,
/// and a final state stamps the finishing time and clears the progress.
pub open spec fn moved(j: JobInfoView, state: JobState, detail: Option<Seq<char>>, now: u64) -> JobInfoView {
    JobInfoView {
        state,
        detail: if detail is Some { detail } else { j.detail },
        finished_at: if is_terminal(state) { Some(now) } else { j.finished_at },
        progress: if is_terminal(state) { None } else { j.progress },
        ..j
    }
}

/// `j` failed with `error` at time `now`; its progress is kept.
pub open spec fn failed(j: JobInfoView, error: Seq<char>, now: u64) -> JobInfoView {
    JobInfoView { state: JobState::Failed, error: Some(error), finished_at: Some(now), ..j }
}

/// `j` after a progress report.
pub open spec fn advanced(j: JobInfoView, p: Progress, detail: Option<Seq<char>>) -> JobInfoView {
    JobInfoView { progress: Some(p), detail: if detail is Some { detail } else { j.detail }, ..j }
}

/// An outcome of a job's body, as plain values: the detail it gave, or the
/// message of its error.
pub open spec fn outcome_view(o: Result<Option<String>, String>) -> Result<Option<Seq<char>>, Seq<char>> {
    match o {
        Ok(d) => Ok(opt_view(d)),
        Err(e) => Err(e@),
    }
}

/// `j` settled at time `now` once its body returned `outcome`: Done on
/// success, Cancelled on a failure after a cancellation request, Failed
/// with the error's message otherwise.
pub open spec fn settled(j: JobInfoView, outcome: Result<Option<Seq<char>>, Seq<char>>, cancelled: bool, now: u64) -> JobInfoView {
    match outcome {
        Ok(d) => moved(j, JobState::Done, d, now),
        Err(e) => if cancelled {
            moved(j, JobState::Cancelled, None, now)
        } else {
            failed(j, e, now)
        },
    }
}

/// `j` after the progress reports `steps`, in order.
pub open spec fn progressed(j: JobInfoView, steps: Seq<(Progress, Option<Seq<char>>)>) -> JobInfoView
    decreases steps.len(),
{
    if steps.len() == 0 {
        j
    } else {
        advanced(progressed(j, steps.drop_last()), steps.last().0, steps.last().1)
    }
}

/// Progress reports change neither a job's identity nor its state nor its
/// finishing time.
pub proof fn lemma_progressed_keeps(j: JobInfoView, steps: Seq<(Progress, Option<Seq<char>>)>)
    ensures
        progressed(j, steps).id == j.id,
        progressed(j, steps).kind == j.kind,
        progressed(j, steps).label == j.label,
        progressed(j, steps).created_at == j.created_at,
        progressed(j, steps).state == j.state,
        progressed(j, steps).finished_at == j.finished_at,
        progressed(j, steps).error == j.error,
    decreases steps.len(),
{
    if steps.len() > 0 {
        lemma_progressed_keeps(j, steps.drop_last());
    }
}

/// One job and whether it was asked to stop.
#[derive(Debug)]
pub struct JobRecord {
    pub info: JobInfo,
    pub cancelled: bool,
}

/// What a `JobRecord` holds, as plain values.
pub struct JobRecordView {
    pub info: JobInfoView,
    pub cancelled: bool,
}

pub open spec fn record_views(v: Seq<JobRecord>) -> Seq<JobRecordView> {
    v.map_values(|r: JobRecord| JobRecordView { info: r.info@, cancelled: r.cancelled })
}

pub open spec fn info_views(v: Seq<JobInfo>) -> Seq<JobInfoView> {
    v.map_values(|j: JobInfo| j@)
}

/// The jobs of the records `rs`.
pub open spec fn infos_of(rs: Seq<JobRecordView>) -> Seq<JobInfoView> {
    rs.map_values(|r: JobRecordView| r.info)
}

/// Index of the first record of `rs` for job `id`, or `rs.len()`.
pub open spec fn first_job(rs: Seq<JobRecordView>, id: Seq<char>) -> int
    decreases rs.len(),
{
    if rs.len() == 0 {
        0
    } else {
        let r = first_job(rs.drop_last(), id);
        if r < rs.len() - 1 {
            r
        } else if rs.last().info.id == id {
            rs.len() - 1
        } else {
            rs.len() as int
        }
    }
}

pub proof fn lemma_first_job_bound(rs: Seq<JobRecordView>, id: Seq<char>)
    ensures
        0 <= first_job(rs, id) <= rs.len(),
        first_job(rs, id) < rs.len() ==> rs[first_job(rs, id)].info.id == id,
        forall|j: int| 0 <= j < first_job(rs, id) ==> #[trigger] rs[j].info.id != id,
    decreases rs.len(),
{
    if rs.len() > 0 {
        lemma_first_job_bound(rs.drop_last(), id);
        assert forall|j: int| 0 <= j < first_job(rs, id) implies #[trigger] rs[j].info.id != id by {
            if j < rs.len() - 1 {
                assert(rs.drop_last()[j] == rs[j]);
            }
        }
    }
}

pub proof fn lemma_first_job_prefix(rs: Seq<JobRecordView>, j: int, id: Seq<char>)
    requires
        0 <= j <= rs.len(),
        first_job(rs.take(j), id) < j,
    ensures
        first_job(rs, id) == first_job(rs.take(j), id),
    decreases rs.len() - j,
{
    if j < rs.len() {
        assert(rs.take(j + 1).drop_last() =~= rs.take(j));
        lemma_first_job_prefix(rs, j + 1, id);
    } else {
        assert(rs.take(j) =~= rs);
    }
}

/// The job `id` of `rs`, if any.
pub open spec fn find_job(rs: Seq<JobRecordView>, id: Seq<char>) -> Option<JobRecordView> {
    let i = first_job(rs, id);
    if i < rs.len() {
        Some(rs[i])
    } else {
        None
    }
}

/// `rs` with the record of job `id` changed to carry `info`.
pub open spec fn with_info(rs: Seq<JobRecordView>, id: Seq<char>, info: JobInfoView) -> Seq<JobRecordView> {
    let i = first_job(rs, id);
    if i < rs.len() {
        rs.update(i, JobRecordView { info, cancelled: rs[i].cancelled })
    } else {
        rs
    }
}

/// `rs` with job `j` added (or replacing the record of its id).
pub open spec fn with_job(rs: Seq<JobRecordView>, j: JobInfoView) -> Seq<JobRecordView> {
    let i = first_job(rs, j.id);
    let r = JobRecordView { info: j, cancelled: false };
    if i < rs.len() {
        rs.update(i, r)
    } else {
        rs.push(r)
    }
}

/// The order of the job list: newest first, ties broken by id.
pub open spec fn job_le(a: JobInfoView, b: JobInfoView) -> bool {
    a.created_at > b.created_at || (a.created_at == b.created_at && lex_le(a.id, b.id))
}

/// `s` is in the order of the job list.
pub open spec fn sorted_jobs(s: Seq<JobInfoView>) -> bool {
    forall|i: int, j: int| 0 <= i < j < s.len() ==> job_le(#[trigger] s[i], #[trigger] s[j])
}

pub proof fn lemma_job_le_total(a: JobInfoView, b: JobInfoView)
    ensures
        job_le(a, b) || job_le(b, a),
{
    lemma_lex_total(a.id, b.id);
}

pub proof fn lemma_job_le_trans(a: JobInfoView, b: JobInfoView, c: JobInfoView)
    requires
        job_le(a, b),
        job_le(b, c),
    ensures
        job_le(a, c),
{
    if a.created_at == b.created_at && b.created_at == c.created_at {
        lemma_lex_trans(a.id, b.id, c.id);
    }
}

pub proof fn lemma_insert_multiset<A>(s: Seq<A>, k: int, x: A)
    requires
        0 <= k <= s.len(),
    ensures
        s.insert(k, x).to_multiset() =~= s.to_multiset().insert(x),
{
    let t = s.insert(k, x);
    assert(t.remove(k) =~= s);
    t.to_multiset_ensures();
    assert(t[k] == x);
    assert(t.to_multiset().count(x) > 0) by {
        assert(t.contains(x));
    }
}

/// The jobs, with their state, progress, outcome and cancellation flag.
pub struct JobManager {
    pub records: Vec<JobRecord>,
}

impl View for JobManager {
    type V = Seq<JobRecordView>;

    open spec fn view(&self) -> Seq<JobRecordView> {
        record_views(self.records@)
    }
}

impl JobManager {
    /// No jobs.
    pub fn new() -> (t: Self)
        ensures
            t@ == Seq::<JobRecordView>::empty(),
    {
        let t = JobManager { records: Vec::new() };
        assert(t@ =~= Seq::<JobRecordView>::empty());
        t
    }

    /// Index of the first record of job `id`, or the number of records.
    fn position(&self, id: &str) -> (i: usize)
        ensures
            i == first_job(self@, id@),
    {
        let ghost s = self@;
        let wanted = id.to_owned();
        let mut i: usize = 0;
        while i < self.records.len()
            invariant
                i <= self.records.len(),
                s == record_views(self.records@),
                wanted@ == id@,
                first_job(s.take(i as int), id@) == i,
            decreases self.records.len() - i,
        {
            assert(s.take(i + 1).drop_last() =~= s.take(i as int));
            assert(s[i as int].info == self.records@[i as int].info@);
            if self.records[i].info.id == wanted {
                proof {
                    lemma_first_job_prefix(s, i + 1, id@);
                }
                return i;
            }
            i = i + 1;
        }
        assert(s.take(i as int) =~= s);
        i
    }

    /// Adds `info` as a new job (replacing a record with the same id).
    pub fn insert(&mut self, info: JobInfo)
        ensures
            final(self)@ == with_job(old(self)@, info@),
    {
        let i = self.position(info.id.as_str());
        let ghost before = self@;
        proof {
            lemma_first_job_bound(before, info@.id);
        }
        let rec = JobRecord { info, cancelled: false };
        if i < self.records.len() {
            self.records.set(i, rec);
            assert(self@ =~= before.update(i as int, JobRecordView { info: rec.info@, cancelled: false }));
        } else {
            self.records.push(rec);
            assert(self@ =~= before.push(JobRecordView { info: rec.info@, cancelled: false }));
        }
    }

    /// Registers a new queued job of `kind` described by `label`, under a
    /// fresh id and stamped with the time of the call; returns it.
    pub fn spawn_record(&mut self, kind: &str, label: &str) -> (j: JobInfo)
        ensures
            j@ == queued(j@.id, kind@, label@, j@.created_at),
            j@.id.len() == 36,
            final(self)@ == with_job(old(self)@, j@),
    {
        let now = now_secs();
        self.spawn_record_at(kind, label, now)
    }

    /// Registers a new queued job of `kind` described by `label`, under a
    /// fresh id, created at `now` (seconds since the epoch); returns it.
    pub fn spawn_record_at(&mut self, kind: &str, label: &str, now: u64) -> (j: JobInfo)
        ensures
            j@ == queued(j@.id, kind@, label@, now),
            j@.created_at == now,
            j@.id.len() == 36,
            final(self)@ == with_job(old(self)@, j@),
    {
        let info = JobInfo {
            id: new_id(),
            kind: kind.to_owned(),
            label: label.to_owned(),
            state: JobState::Queued,
            progress: None,
            detail: None,
            error: None,
            created_at: now,
            finished_at: None,
        };
        let r = info.clone();
        self.insert(info);
        r
    }

    /// The job `id`.
    pub fn get(&self, id: &str) -> (r: Result<JobInfo, CoreError>)
        ensures
            match r {
                Ok(j) => find_job(self@, id@) matches Some(rec) && rec.info == j@,
                Err(e) => find_job(self@, id@) is None && (e matches CoreError::JobNotFound(m) && m@
                    == id@),
            },
    {
        let i = self.position(id);
        if i < self.records.len() {
            Ok(self.records[i].info.clone())
        } else {
            Err(CoreError::JobNotFound(id.to_owned()))
        }
    }

    /// Whether job `id` was asked to stop.
    pub fn is_cancelled(&self, id: &str) -> (b: bool)
        ensures
            b == (find_job(self@, id@) matches Some(rec) && rec.cancelled),
    {
        let i = self.position(id);
        i < self.records.len() && self.records[i].cancelled
    }

    /// Asks job `id` to stop; fails for an unknown job.
    pub fn cancel(&mut self, id: &str) -> (r: Result<(), CoreError>)
        ensures
            match find_job(old(self)@, id@) {
                Some(rec) => r is Ok && final(self)@ == old(self)@.update(
                    first_job(old(self)@, id@),
                    JobRecordView { cancelled: true, ..rec },
                ),
                None => final(self)@ == old(self)@ && (r matches Err(CoreError::JobNotFound(m))
                    && m@ == id@),
            },
    {
        let i = self.position(id);
        if i < self.records.len() {
            let ghost before = self@;
            self.records[i].cancelled = true;
            assert(self@ =~= before.update(i as int, JobRecordView { cancelled: true, ..before[i as int] }));
            Ok(())
        } else {
            Err(CoreError::JobNotFound(id.to_owned()))
        }
    }

    /// Replaces the job of record `i`, returning a copy of it.
    fn replace_info(&mut self, i: usize, info: JobInfo) -> (r: JobInfo)
        requires
            i < old(self).records.len(),
        ensures
            r@ == info@,
            final(self)@ == old(self)@.update(
                i as int,
                JobRecordView { info: info@, cancelled: old(self)@[i as int].cancelled },
            ),
    {
        let ghost before = self@;
        let r = info.clone();
        self.records[i].info = info;
        assert(self@ =~= before.update(i as int, JobRecordView { info: r@, cancelled: before[i as int].cancelled }));
        r
    }

    /// Moves job `id` to `state` at time `now` (see `moved`) and returns it
    /// as it now is; `None` for an unknown job.
    pub fn set_state(&mut self, id: &str, state: JobState, detail: Option<String>, now: u64) -> (r: Option<JobInfo>)
        ensures
            match find_job(old(self)@, id@) {
                Some(rec) => r matches Some(j) && j@ == moved(rec.info, state, opt_view(detail), now)
                    && final(self)@ == with_info(old(self)@, id@, j@),
                None => r is None && final(self)@ == old(self)@,
            },
    {
        let i = self.position(id);
        if i >= self.records.len() {
            return None;
        }
        let mut info = self.records[i].info.clone();
        info.state = state;
        if detail.is_some() {
            info.detail = detail;
        }
        if matches!(state, JobState::Done | JobState::Failed | JobState::Cancelled) {
            info.finished_at = Some(now);
            info.progress = None;
        }
        Some(self.replace_info(i, info))
    }

    /// Marks job `id` failed with `error` at time `now` and returns it as
    /// it now is; `None` for an unknown job.
    pub fn fail(&mut self, id: &str, error: String, now: u64) -> (r: Option<JobInfo>)
        ensures
            match find_job(old(self)@, id@) {
                Some(rec) => r matches Some(j) && j@ == failed(rec.info, error@, now) && final(self)@
                    == with_info(old(self)@, id@, j@),
                None => r is None && final(self)@ == old(self)@,
            },
    {
        let i = self.position(id);
        if i >= self.records.len() {
            return None;
        }
        let mut info = self.records[i].info.clone();
        info.state = JobState::Failed;
        info.error = Some(error);
        info.finished_at = Some(now);
        Some(self.replace_info(i, info))
    }

    /// Records progress `done / total` (clamped to at most 1) of job `id`,
    /// with a new detail if one is given; returns the job as it now is, or
    /// `None` for an unknown job.
    pub fn progress(&mut self, id: &str, done: u64, total: u64, detail: Option<String>) -> (r: Option<JobInfo>)
        requires
            total > 0,
        ensures
            match find_job(old(self)@, id@) {
                Some(rec) => r matches Some(j) && j@ == advanced(rec.info, clamped(done, total), opt_view(detail))
                    && final(self)@ == with_info(old(self)@, id@, j@),
                None => r is None && final(self)@ == old(self)@,
            },
    {
        let i = self.position(id);
        if i >= self.records.len() {
            return None;
        }
        let mut info = self.records[i].info.clone();
        info.progress = Some(Progress { done: if done > total { total } else { done }, total });
        if detail.is_some() {
            info.detail = detail;
        }
        Some(self.replace_info(i, info))
    }

    /// Settles job `id` once its body has returned at time `now`: success
    /// makes it Done with the given detail; a failure after a cancellation
    /// request makes it Cancelled; any other failure makes it Failed with
    /// the error's message.
    pub fn finish(&mut self, id: &str, outcome: Result<Option<String>, String>, now: u64) -> (r: Option<JobInfo>)
        ensures
            match find_job(old(self)@, id@) {
                Some(rec) => r matches Some(j) && final(self)@ == with_info(old(self)@, id@, j@) && j@
                    == settled(rec.info, outcome_view(outcome), rec.cancelled, now),
                None => r is None && final(self)@ == old(self)@,
            },
    {
        match outcome {
            Ok(detail) => self.set_state(id, JobState::Done, detail, now),
            Err(e) => {
                if self.is_cancelled(id) {
                    self.set_state(id, JobState::Cancelled, None, now)
                } else {
                    self.fail(id, e, now)
                }
            },
        }
    }

    /// All jobs, newest first and by id among jobs created in the same
    /// second.
    pub fn list(&self) -> (r: Vec<JobInfo>)
        ensures
            sorted_jobs(info_views(r@)),
            info_views(r@).to_multiset() == infos_of(self@).to_multiset(),
    {
        let ghost all = infos_of(self@);
        let mut r: Vec<JobInfo> = Vec::new();
        let mut i: usize = 0;
        assert(all.take(0).to_multiset() =~= info_views(r@).to_multiset()) by {
            assert(all.take(0) =~= info_views(r@));
        }
        while i < self.records.len()
            invariant
                i <= self.records.len(),
                all == infos_of(self@),
                sorted_jobs(info_views(r@)),
                info_views(r@).to_multiset() == all.take(i as int).to_multiset(),
            decreases self.records.len() - i,
        {
            let x = self.records[i].info.clone();
            let ghost xv = x@;
            let ghost rv = info_views(r@);
            let mut k: usize = 0;
            while k < r.len() && !(x.created_at > r[k].created_at || (x.created_at
                == r[k].created_at && !str_le(r[k].id.as_str(), x.id.as_str()) && str_le(
                x.id.as_str(),
                r[k].id.as_str(),
            )))
                invariant
                    k <= r.len(),
                    rv == info_views(r@),
                    xv == x@,
                    forall|j: int| 0 <= j < k ==> job_le(#[trigger] rv[j], xv),
                decreases r.len() - k,
            {
                proof {
                    lemma_job_le_total(rv[k as int], xv);
                }
                k = k + 1;
            }
            proof {
                if k < r.len() {
                    lemma_job_le_total(rv[k as int], xv);
                    if job_le(rv[k as int], xv) {
                        lemma_lex_antisym(rv[k as int].id, xv.id);
                    }
                    assert(!job_le(rv[k as int], xv));
                }
            }
            r.insert(k, x);
            proof {
                let nv = info_views(r@);
                assert(nv =~= rv.insert(k as int, xv));
                assert forall|a: int, b: int| 0 <= a < b < nv.len() implies job_le(
                    #[trigger] nv[a],
                    #[trigger] nv[b],
                ) by {
                    if b == k {
                        assert(nv[a] == rv[a]);
                    } else if a == k {
                        assert(nv[b] == rv[b - 1]);
                        lemma_job_le_total(rv[k as int], xv);
                        if b - 1 > k {
                            lemma_job_le_trans(xv, rv[k as int], rv[b - 1]);
                        }
                    } else if a < k && b > k {
                        assert(nv[a] == rv[a] && nv[b] == rv[b - 1]);
                    } else if a < k {
                        assert(nv[a] == rv[a] && nv[b] == rv[b]);
                    } else {
                        assert(nv[a] == rv[a - 1] && nv[b] == rv[b - 1]);
                    }
                }
                lemma_insert_multiset(rv, k as int, xv);
                assert(all.take(i + 1) =~= all.take(i as int).push(xv));
                all.take(i as int).to_multiset_ensures();
            }
            i = i + 1;
        }
        assert(all.take(i as int) =~= all);
        r
    }
}

/// Replacing the record at `i` by one for the same job leaves the first
/// record of every job where it was.
pub proof fn lemma_first_job_update(rs: Seq<JobRecordView>, i: int, x: JobRecordView, id: Seq<char>)
    requires
        0 <= i < rs.len(),
        x.info.id == rs[i].info.id,
    ensures
        first_job(rs.update(i, x), id) == first_job(rs, id),
    decreases rs.len(),
{
    let u = rs.update(i, x);
    if i < rs.len() - 1 {
        assert(u.drop_last() =~= rs.drop_last().update(i, x));
        lemma_first_job_update(rs.drop_last(), i, x, id);
    } else {
        assert(u.drop_last() =~= rs.drop_last());
    }
}

/// Once job `id` has been asked to stop, it reads as cancelled, and every
/// other job reads as before.
pub proof fn law_cancel_then_cancelled(rs: Seq<JobRecordView>, id: Seq<char>, other: Seq<char>)
    requires
        find_job(rs, id) is Some,
        other != id,
    ensures
        ({
            let after = rs.update(first_job(rs, id), JobRecordView { cancelled: true, ..rs[first_job(rs, id)] });
            &&& find_job(after, id) matches Some(rec) && rec.cancelled && rec.info == rs[first_job(rs, id)].info
            &&& find_job(after, other) == find_job(rs, other)
        }),
{
    let i = first_job(rs, id);
    lemma_first_job_bound(rs, id);
    lemma_first_job_bound(rs, other);
    let x = JobRecordView { cancelled: true, ..rs[i] };
    lemma_first_job_update(rs, i, x, id);
    lemma_first_job_update(rs, i, x, other);
}

/// A finished job keeps its finishing time; one that ended Done or
/// Cancelled shows no progress any more.
pub proof fn law_terminal_stamped(j: JobInfoView, state: JobState, detail: Option<Seq<char>>, now: u64, err: Seq<char>)
    ensures
        is_terminal(state) ==> moved(j, state, detail, now).finished_at == Some(now)
            && moved(j, state, detail, now).progress is None,
        failed(j, err, now).finished_at == Some(now),
        is_terminal(failed(j, err, now).state),
{
}

/// In the job list, a job created in a later second stands before one
/// created in an earlier second, whatever their ids.
pub proof fn law_newer_listed_first(s: Seq<JobInfoView>, i: int, j: int)
    requires
        sorted_jobs(s),
        0 <= i < s.len(),
        0 <= j < s.len(),
        s[i].created_at > s[j].created_at,
    ensures
        i < j,
{
    if j < i {
        assert(job_le(s[j], s[i]));
    }
}

/// The life of a job as the runner drives it: queued, then running, then
/// any progress reports, then settled once. It stays unfinished until it is
/// settled, ends in exactly one final state chosen by the outcome (Done on
/// success, Cancelled on a failure after a cancellation request, Failed
/// with the error otherwise), is stamped with the settling time, and keeps
/// its id, kind, label and creation time throughout.
pub proof fn law_job_lifecycle(
    id: Seq<char>,
    kind: Seq<char>,
    label: Seq<char>,
    created_at: u64,
    started: u64,
    steps: Seq<(Progress, Option<Seq<char>>)>,
    outcome: Result<Option<Seq<char>>, Seq<char>>,
    cancelled: bool,
    now: u64,
)
    ensures
        ({
            let queued_job = queued(id, kind, label, created_at);
            let running = moved(queued_job, JobState::Running, None, started);
            let working = progressed(running, steps);
            let done = settled(working, outcome, cancelled, now);
            &&& queued_job.finished_at is None
            &&& running.state == JobState::Running && running.finished_at is None
            &&& working.state == JobState::Running && working.finished_at is None
            &&& is_terminal(done.state) && done.finished_at == Some(now)
            &&& (done.state == JobState::Done <==> outcome is Ok)
            &&& (done.state == JobState::Cancelled <==> (outcome is Err && cancelled))
            &&& (done.state == JobState::Failed <==> (outcome is Err && !cancelled))
            &&& (outcome matches Err(e) ==> (!cancelled ==> done.error == Some(e)))
            &&& (outcome matches Ok(Some(d)) ==> done.detail == Some(d))
            &&& done.id == id && done.kind == kind && done.label == label && done.created_at == created_at
        }),
{
    let running = moved(queued(id, kind, label, created_at), JobState::Running, None, started);
    lemma_progressed_keeps(running, steps);
}

} // verus!
