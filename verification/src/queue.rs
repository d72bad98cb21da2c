//! The book of conversion jobs behind the parallel queue: submitting,
//! cancelling, starting and finishing jobs, and the job snapshots to
//! announce. Running conversions in parallel happens around it.
use vstd::prelude::*;

use crate::text::{dec, push_dec, push_str, decimal_value, lemma_dec_len};

verus! {

/// Where a job stands.
#[derive(Debug, Clone, PartialEq, Eq)]
pub enum JobState {
    Queued,
    Running,
    Done,
    Failed(String),
    Cancelled,
}

/// The value of a `JobState`.
pub enum StateView {
    Queued,
    Running,
    Done,
    Failed(Seq<char>),
    Cancelled,
}

impl View for JobState {
    type V = StateView;

    open spec fn view(&self) -> StateView {
        match self {
            JobState::Queued => StateView::Queued,
            JobState::Running => StateView::Running,
            JobState::Done => StateView::Done,
            JobState::Failed(m) => StateView::Failed(m@),
            JobState::Cancelled => StateView::Cancelled,
        }
    }
}

impl JobState {
    /// A copy of the state.
    pub fn duplicate(&self) -> (r: JobState)
        ensures
            r@ == self@,
    {
        match self {
            JobState::Queued => JobState::Queued,
            JobState::Running => JobState::Running,
            JobState::Done => JobState::Done,
            JobState::Failed(m) => JobState::Failed(m.clone()),
            JobState::Cancelled => JobState::Cancelled,
        }
    }
}

/// A conversion job: its id, input and output paths, state and progress
/// in percent.
#[derive(Debug)]
pub struct Job {
    pub id: String,
    pub input: String,
    pub output: String,
    pub state: JobState,
    pub progress_pct: u32,
}

/// The value of a `Job`.
pub struct JobView {
    pub id: Seq<char>,
    pub input: Seq<char>,
    pub output: Seq<char>,
    pub state: StateView,
    pub progress: nat,
}

impl View for Job {
    type V = JobView;

    open spec fn view(&self) -> JobView {
        JobView {
            id: self.id@,
            input: self.input@,
            output: self.output@,
            state: self.state@,
            progress: self.progress_pct as nat,
        }
    }
}

impl Job {
    /// A copy of the job.
    pub fn duplicate(&self) -> (r: Job)
        ensures
            r@ == self@,
    {
        Job {
            id: self.id.clone(),
            input: self.input.clone(),
            output: self.output.clone(),
            state: self.state.duplicate(),
            progress_pct: self.progress_pct,
        }
    }
}

/// The id of the `n`-th submitted job (counting from one).
pub open spec fn job_id(n: nat) -> Seq<char> {
    "job-"@ + dec(n)
}

/// The views of a list of jobs.
pub open spec fn job_views(v: Seq<Job>) -> Seq<JobView> {
    v.map_values(|j: Job| j@)
}

/// The jobs, in submission order, and the ids asked to be cancelled.
pub struct JobBook {
    jobs: Vec<Job>,
    cancelled: Vec<String>,
}

/// The value of a `JobBook`.
pub struct BookView {
    pub jobs: Seq<JobView>,
    pub cancelled: Set<Seq<char>>,
}

/// The characters of a list of strings.
pub open spec fn id_set(v: Seq<String>) -> Set<Seq<char>> {
    Set::new(|x: Seq<char>| exists|i: int| 0 <= i < v.len() && #[trigger] v[i]@ == x)
}

impl View for JobBook {
    type V = BookView;

    closed spec fn view(&self) -> BookView {
        BookView { jobs: job_views(self.jobs@), cancelled: id_set(self.cancelled@) }
    }
}

/// The index of the job with id `id`.
pub open spec fn index_of(jobs: Seq<JobView>, id: Seq<char>) -> Option<int> {
    if exists|k: int| 0 <= k < jobs.len() && #[trigger] jobs[k].id == id {
        Some(choose|k: int| 0 <= k < jobs.len() && #[trigger] jobs[k].id == id)
    } else {
        None
    }
}

/// The jobs with the one at `k` given a new state and progress.
pub open spec fn with_job(jobs: Seq<JobView>, k: int, state: StateView, progress: nat) -> Seq<JobView> {
    jobs.update(k, JobView { state, progress, ..jobs[k] })
}

/// The ids of the jobs that are still queued and were not asked to be
/// cancelled, in submission order.
pub open spec fn runnable(jobs: Seq<JobView>, cancelled: Set<Seq<char>>) -> Seq<Seq<char>>
    decreases jobs.len(),
{
    if jobs.len() == 0 {
        Seq::empty()
    } else {
        let rest = runnable(jobs.drop_last(), cancelled);
        let j = jobs.last();
        if j.state is Queued && !cancelled.contains(j.id) {
            rest.push(j.id)
        } else {
            rest
        }
    }
}

/// Decimal renderings of different numbers differ.
pub proof fn lemma_dec_value(n: nat)
    ensures
        decimal_value(dec(n)) == n,
    decreases n,
{
    reveal_with_fuel(decimal_value, 2);
    if n >= 10 {
        lemma_dec_value(n / 10);
        let d = dec(n);
        assert(d.drop_last() == dec(n / 10));
    }
    crate::text::lemma_digit_char(n % 10);
}

/// Different jobs get different ids.
pub proof fn lemma_job_id_injective(a: nat, b: nat)
    ensures
        a != b ==> job_id(a) != job_id(b),
{
    if a != b && job_id(a) == job_id(b) {
        reveal_strlit("job-");
        assert(job_id(a).skip(4) == dec(a));
        assert(job_id(b).skip(4) == dec(b));
        lemma_dec_value(a);
        lemma_dec_value(b);
    }
}

impl JobBook {
    /// Every job's id is the id of its position.
    #[verifier::type_invariant]
    spec fn ids_by_position(self) -> bool {
        forall|k: int| 0 <= k < self.jobs@.len() ==> (#[trigger] self.jobs@[k]).id@ == job_id((k + 1) as nat)
    }

    /// An empty book.
    pub fn new() -> (r: Self)
        ensures
            r@.jobs.len() == 0,
            r@.cancelled.is_empty(),
    {
        let r = JobBook { jobs: Vec::new(), cancelled: Vec::new() };
        assert(r@.jobs =~= Seq::<JobView>::empty());
        assert(r@.cancelled =~= Set::<Seq<char>>::empty());
        r
    }

    /// Adds a job for `input -> output`, queued at 0%; returns its id
    /// (`job-N` for the N-th job) and the job to announce.
    pub fn submit(&mut self, input: String, output: String) -> (r: (String, Job))
        requires
            old(self)@.jobs.len() < u64::MAX,
        ensures
            r.0@ == job_id((old(self)@.jobs.len() + 1) as nat),
            r.1@ == (JobView { id: r.0@, input: input@, output: output@, state: StateView::Queued, progress: 0 }),
            final(self)@.jobs == old(self)@.jobs.push(r.1@),
            final(self)@.cancelled == old(self)@.cancelled,
            forall|k: int| 0 <= k < old(self)@.jobs.len() ==> #[trigger] old(self)@.jobs[k].id != r.0@,
    {
        proof {
            use_type_invariant(&*self);
            assert forall|k: int| 0 <= k < self.jobs@.len() implies #[trigger] job_views(self.jobs@)[k].id != job_id((self.jobs@.len() + 1) as nat) by {
                assert(job_views(self.jobs@)[k] == self.jobs@[k]@);
                lemma_job_id_injective((k + 1) as nat, (self.jobs@.len() + 1) as nat);
            }
        }
        let n = self.jobs.len() as u64 + 1;
        let mut id = String::new();
        push_str(&mut id, "job-");
        push_dec(&mut id, n);
        let job = Job { id: id.clone(), input, output, state: JobState::Queued, progress_pct: 0 };
        let snapshot = job.duplicate();
        let ghost before = self.jobs@;
        let mut jobs: Vec<Job> = Vec::new();
        std::mem::swap(&mut jobs, &mut self.jobs);
        jobs.push(job);
        proof {
            assert forall|k: int| 0 <= k < jobs@.len() implies (#[trigger] jobs@[k]).id@ == job_id((k + 1) as nat) by {
                if k < before.len() {
                    assert(jobs@[k] == before[k]);
                }
            }
        }
        std::mem::swap(&mut jobs, &mut self.jobs);
        proof {
            assert(job_views(self.jobs@) =~= job_views(before).push(snapshot@));
        }
        (id, snapshot)
    }

    fn find(&self, id: &String) -> (r: Option<usize>)
        ensures
            match r {
                Some(k) => k < self.jobs@.len() && self.jobs@[k as int].id@ == id@,
                None => forall|k: int| 0 <= k < self.jobs@.len() ==> #[trigger] self.jobs@[k].id@ != id@,
            },
    {
        let mut k: usize = 0;
        while k < self.jobs.len()
            invariant
                k <= self.jobs.len(),
                forall|j: int| 0 <= j < k ==> #[trigger] self.jobs@[j].id@ != id@,
            decreases self.jobs.len() - k,
        {
            if self.jobs[k].id == *id {
                return Some(k);
            }
            k += 1;
        }
        None
    }

    /// Marks `id` as cancelled; a job with that id becomes `Cancelled` and is
    /// returned to announce.
    pub fn cancel(&mut self, id: &str) -> (r: Option<Job>)
        ensures
            final(self)@.cancelled == old(self)@.cancelled.insert(id@),
            match index_of(old(self)@.jobs, id@) {
                Some(k) => r matches Some(j) && final(self)@.jobs == with_job(
                    old(self)@.jobs,
                    k,
                    StateView::Cancelled,
                    old(self)@.jobs[k].progress,
                ) && j@ == final(self)@.jobs[k],
                None => r is None && final(self)@.jobs == old(self)@.jobs,
            },
    {
        proof {
            use_type_invariant(&*self);
        }
        let key = id.to_owned();
        let ghost before_c = self.cancelled@;
        let mut cancelled: Vec<String> = Vec::new();
        std::mem::swap(&mut cancelled, &mut self.cancelled);
        cancelled.push(key.clone());
        std::mem::swap(&mut cancelled, &mut self.cancelled);
        proof {
            assert(id_set(self.cancelled@) =~= id_set(before_c).insert(id@)) by {
                assert forall|x: Seq<char>| id_set(self.cancelled@).contains(x) implies id_set(before_c).insert(id@).contains(x) by {
                    let i = choose|i: int| 0 <= i < self.cancelled@.len() && #[trigger] self.cancelled@[i]@ == x;
                    if i < before_c.len() {
                        assert(before_c[i]@ == x);
                    }
                }
                assert forall|x: Seq<char>| id_set(before_c).insert(id@).contains(x) implies id_set(self.cancelled@).contains(x) by {
                    if x == id@ {
                        assert(self.cancelled@[before_c.len() as int]@ == x);
                    } else {
                        let i = choose|i: int| 0 <= i < before_c.len() && #[trigger] before_c[i]@ == x;
                        assert(self.cancelled@[i]@ == x);
                    }
                }
            }
        }
        let ghost before = job_views(self.jobs@);
        match self.find(&key) {
            Some(k) => {
                proof {
                    assert(before[k as int] == self.jobs@[k as int]@);
                    assert(before[k as int].id == id@);
                    let c = index_of(before, id@)->0;
                    assert(before[c] == self.jobs@[c]@);
                    assert(before[c].id == id@);
                    if c != k {
                        lemma_job_id_injective((c + 1) as nat, (k + 1) as nat);
                    }
                }
                let old_job = self.jobs[k].duplicate();
                let updated = Job {
                    id: old_job.id,
                    input: old_job.input,
                    output: old_job.output,
                    state: JobState::Cancelled,
                    progress_pct: old_job.progress_pct,
                };
                let snapshot = updated.duplicate();
                let ghost prior = self.jobs@;
                let mut jobs: Vec<Job> = Vec::new();
                std::mem::swap(&mut jobs, &mut self.jobs);
                jobs.set(k, updated);
                proof {
                    assert forall|j: int| 0 <= j < jobs@.len() implies (#[trigger] jobs@[j]).id@ == job_id((j + 1) as nat) by {
                        if j != k {
                            assert(jobs@[j] == prior[j]);
                        }
                    }
                }
                std::mem::swap(&mut jobs, &mut self.jobs);
                proof {
                    assert(job_views(self.jobs@) =~= with_job(before, k as int, StateView::Cancelled, before[k as int].progress));
                }
                Some(snapshot)
            },
            None => {
                proof {
                    assert forall|j: int| 0 <= j < before.len() implies #[trigger] before[j].id != id@ by {
                        assert(before[j] == self.jobs@[j]@);
                    }
                }
                None
            },
        }
    }

    /// Every job, in submission order; the `k`-th has the id `job-k`, so no
    /// two jobs share an id.
    pub fn list(&self) -> (r: Vec<Job>)
        ensures
            job_views(r@) == self@.jobs,
            forall|k: int| 0 <= k < self@.jobs.len() ==> #[trigger] self@.jobs[k].id == job_id((k + 1) as nat),
            forall|a: int, b: int|
                0 <= a < b < self@.jobs.len() ==> #[trigger] self@.jobs[a].id != #[trigger] self@.jobs[b].id,
    {
        proof {
            use_type_invariant(self);
            assert forall|k: int| 0 <= k < self@.jobs.len() implies #[trigger] self@.jobs[k].id == job_id((k + 1) as nat) by {
                assert(job_views(self.jobs@)[k] == self.jobs@[k]@);
            }
            assert forall|a: int, b: int| 0 <= a < b < self@.jobs.len() implies #[trigger] self@.jobs[a].id != #[trigger] self@.jobs[b].id by {
                assert(self@.jobs[a].id == job_id((a + 1) as nat));
                assert(self@.jobs[b].id == job_id((b + 1) as nat));
                lemma_job_id_injective((a + 1) as nat, (b + 1) as nat);
            }
        }
        let mut r: Vec<Job> = Vec::new();
        let mut i: usize = 0;
        while i < self.jobs.len()
            invariant
                i <= self.jobs.len(),
                job_views(r@) == job_views(self.jobs@).take(i as int),
            decreases self.jobs.len() - i,
        {
            let ghost before = r@;
            r.push(self.jobs[i].duplicate());
            assert(job_views(r@) == job_views(before).push(self.jobs@[i as int]@));
            assert(job_views(self.jobs@).take(i + 1) == job_views(self.jobs@).take(i as int).push(self.jobs@[i as int]@));
            i += 1;
        }
        assert(job_views(self.jobs@).take(self.jobs.len() as int) == job_views(self.jobs@));
        r
    }

    /// The ids of every job, in submission order.
    pub fn ids(&self) -> (r: Vec<String>)
        ensures
            r@.len() == self@.jobs.len(),
            forall|k: int| 0 <= k < r@.len() ==> #[trigger] r@[k]@ == self@.jobs[k].id,
    {
        let mut r: Vec<String> = Vec::new();
        let mut i: usize = 0;
        while i < self.jobs.len()
            invariant
                i <= self.jobs.len(),
                r@.len() == i,
                forall|k: int| 0 <= k < i ==> #[trigger] r@[k]@ == self.jobs@[k].id@,
            decreases self.jobs.len() - i,
        {
            r.push(self.jobs[i].id.clone());
            i += 1;
        }
        r
    }

    /// The ids of the jobs to run: those still queued and not cancelled.
    pub fn runnable_ids(&self) -> (r: Vec<String>)
        ensures
            r@.map_values(|s: String| s@) == runnable(self@.jobs, self@.cancelled),
    {
        let ghost jobs = job_views(self.jobs@);
        let mut r: Vec<String> = Vec::new();
        let mut i: usize = 0;
        while i < self.jobs.len()
            invariant
                i <= self.jobs.len(),
                jobs == job_views(self.jobs@),
                r@.map_values(|s: String| s@) == runnable(jobs.take(i as int), self@.cancelled),
            decreases self.jobs.len() - i,
        {
            assert(jobs.take(i + 1).drop_last() == jobs.take(i as int));
            assert(jobs.take(i + 1).last() == self.jobs@[i as int]@);
            let queued = match self.jobs[i].state {
                JobState::Queued => true,
                _ => false,
            };
            if queued && !self.is_cancelled(self.jobs[i].id.as_str()) {
                let ghost before = r@;
                r.push(self.jobs[i].id.clone());
                assert(r@.map_values(|s: String| s@) == before.map_values(|s: String| s@).push(self.jobs@[i as int].id@));
            }
            i += 1;
        }
        assert(jobs.take(self.jobs.len() as int) == jobs);
        r
    }

    /// Starts the job `id` when it is still queued and was not asked to be
    /// cancelled: it becomes `Running` at 10% and is returned to announce.
    /// Any other job stays as it is, and nothing is returned.
    pub fn start(&mut self, id: &str) -> (r: Option<Job>)
        ensures
            final(self)@.cancelled == old(self)@.cancelled,
            match index_of(old(self)@.jobs, id@) {
                Some(k) => if old(self)@.jobs[k].state is Queued && !old(self)@.cancelled.contains(id@) {
                    r matches Some(j) && final(self)@.jobs == with_job(old(self)@.jobs, k, StateView::Running, 10)
                        && j@ == final(self)@.jobs[k]
                } else {
                    r is None && final(self)@.jobs == old(self)@.jobs
                },
                None => r is None && final(self)@.jobs == old(self)@.jobs,
            },
    {
        proof {
            use_type_invariant(&*self);
        }
        let key = id.to_owned();
        let ghost before = job_views(self.jobs@);
        match self.find(&key) {
            Some(k) => {
                proof {
                    assert(before[k as int] == self.jobs@[k as int]@);
                    assert(before[k as int].id == id@);
                    let c = index_of(before, id@)->0;
                    assert(before[c] == self.jobs@[c]@);
                    assert(before[c].id == id@);
                    if c != k {
                        lemma_job_id_injective((c + 1) as nat, (k + 1) as nat);
                    }
                }
                let queued = match self.jobs[k].state {
                    JobState::Queued => true,
                    _ => false,
                };
                if queued && !self.is_cancelled(id) {
                    self.set_state(id, JobState::Running, Some(10))
                } else {
                    None
                }
            },
            None => {
                proof {
                    assert forall|j: int| 0 <= j < before.len() implies #[trigger] before[j].id != id@ by {
                        assert(before[j] == self.jobs@[j]@);
                    }
                }
                None
            },
        }
    }

    fn is_cancelled(&self, id: &str) -> (r: bool)
        ensures
            r == self@.cancelled.contains(id@),
    {
        let key = id.to_owned();
        let mut i: usize = 0;
        while i < self.cancelled.len()
            invariant
                i <= self.cancelled.len(),
                key@ == id@,
                forall|j: int| 0 <= j < i ==> #[trigger] self.cancelled@[j]@ != id@,
            decreases self.cancelled.len() - i,
        {
            if self.cancelled[i] == key {
                assert(self.cancelled@[i as int]@ == id@);
                return true;
            }
            i += 1;
        }
        false
    }

    /// Gives the job `id` a new state (and, when given, a new progress).
    fn set_state(&mut self, id: &str, state: JobState, progress: Option<u32>) -> (r: Option<Job>)
        ensures
            final(self)@.cancelled == old(self)@.cancelled,
            final(self).cancelled == old(self).cancelled,
            match index_of(old(self)@.jobs, id@) {
                Some(k) => r matches Some(j) && final(self)@.jobs == with_job(
                    old(self)@.jobs,
                    k,
                    state@,
                    match progress {
                        Some(p) => p as nat,
                        None => old(self)@.jobs[k].progress,
                    },
                ) && j@ == final(self)@.jobs[k],
                None => r is None && final(self)@.jobs == old(self)@.jobs,
            },
    {
        proof {
            use_type_invariant(&*self);
        }
        let key = id.to_owned();
        let ghost before = job_views(self.jobs@);
        match self.find(&key) {
            Some(k) => {
                proof {
                    assert(before[k as int] == self.jobs@[k as int]@);
                    assert(before[k as int].id == id@);
                    let c = index_of(before, id@)->0;
                    assert(before[c] == self.jobs@[c]@);
                    assert(before[c].id == id@);
                    if c != k {
                        lemma_job_id_injective((c + 1) as nat, (k + 1) as nat);
                    }
                }
                let old_job = self.jobs[k].duplicate();
                let p = match progress {
                    Some(p) => p,
                    None => old_job.progress_pct,
                };
                let updated = Job {
                    id: old_job.id,
                    input: old_job.input,
                    output: old_job.output,
                    state,
                    progress_pct: p,
                };
                let snapshot = updated.duplicate();
                let ghost prior = self.jobs@;
                let mut jobs: Vec<Job> = Vec::new();
                std::mem::swap(&mut jobs, &mut self.jobs);
                jobs.set(k, updated);
                proof {
                    assert forall|j: int| 0 <= j < jobs@.len() implies (#[trigger] jobs@[j]).id@ == job_id((j + 1) as nat) by {
                        if j != k {
                            assert(jobs@[j] == prior[j]);
                        }
                    }
                }
                std::mem::swap(&mut jobs, &mut self.jobs);
                proof {
                    assert(job_views(self.jobs@) =~= with_job(before, k as int, state@, p as nat));
                }
                Some(snapshot)
            },
            None => {
                proof {
                    assert forall|j: int| 0 <= j < before.len() implies #[trigger] before[j].id != id@ by {
                        assert(before[j] == self.jobs@[j]@);
                    }
                }
                None
            },
        }
    }

    /// Records the outcome of converting job `id`: `Done` at 100%, or
    /// `Failed` with the error's text (progress unchanged).
    pub fn finish(&mut self, id: &str, outcome: Result<(), String>) -> (r: Option<Job>)
        ensures
            final(self)@.cancelled == old(self)@.cancelled,
            match index_of(old(self)@.jobs, id@) {
                Some(k) => r matches Some(j) && j@ == final(self)@.jobs[k] && final(self)@.jobs == match outcome {
                    Ok(_) => with_job(old(self)@.jobs, k, StateView::Done, 100),
                    Err(m) => with_job(old(self)@.jobs, k, StateView::Failed(m@), old(self)@.jobs[k].progress),
                },
                None => r is None && final(self)@.jobs == old(self)@.jobs,
            },
    {
        match outcome {
            Ok(()) => self.set_state(id, JobState::Done, Some(100)),
            Err(m) => self.set_state(id, JobState::Failed(m), None),
        }
    }
}

} // verus!
