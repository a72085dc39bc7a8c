//! The jobs that there are, the server, and which job it hands out next.
use crate::mock::job::{MockJob, MockJobBuilder, MockJobState};
use crate::text;
use vstd::prelude::*;

verus! {

/// All the jobs that there are, whichever server they belong to. A job is known by its position, which
/// stays the same: whoever knows it sees the same job.
#[derive(Debug)]
pub struct MockJobs {
    pub list: Vec<MockJob>,
}

impl View for MockJobs {
    type V = Seq<MockJob>;

    open spec fn view(&self) -> Seq<MockJob> {
        self.list@
    }
}

impl MockJobs {
    /// No jobs.
    pub fn new() -> (r: Self)
        ensures
            r@ == Seq::<MockJob>::empty(),
    {
        MockJobs { list: Vec::new() }
    }

    /// Adds a job, and gives its position.
    pub fn add(&mut self, job: MockJob) -> (r: usize)
        ensures
            r == old(self)@.len(),
            final(self)@ == old(self)@.push(job),
            progressed(old(self)@, final(self)@),
    {
        let r = self.list.len();
        self.list.push(job);
        r
    }

    /// The job at a position.
    pub fn get(&self, job: usize) -> (r: &MockJob)
        requires
            job < self@.len(),
        ensures
            *r == self@[job as int],
    {
        &self.list[job]
    }
}

/// A server: the positions of its jobs, in the order in which they are handed out.
#[derive(Debug)]
pub struct GitlabRunnerMock {
    pub token: String,
    pub last_id: u64,
    pub queue: Vec<usize>,
    pub interval: u32,
}

/// Whether there are jobs at all these positions.
pub open spec fn all_exist(jobs: Seq<MockJob>, positions: Seq<usize>) -> bool {
    forall|k: int| 0 <= k < positions.len() ==> (#[trigger] positions[k]) < jobs.len()
}

/// The first job of a queue with the given id, from number `from` on.
pub open spec fn find_job_from(
    jobs: Seq<MockJob>,
    queue: Seq<usize>,
    id: u64,
    from: int,
) -> Option<int>
    decreases queue.len() - from,
{
    if from < 0 || from >= queue.len() {
        None
    } else if jobs[queue[from] as int].id == id {
        Some(queue[from] as int)
    } else {
        find_job_from(jobs, queue, id, from + 1)
    }
}

/// The first job of a queue with the given id.
pub open spec fn find_job(jobs: Seq<MockJob>, queue: Seq<usize>, id: u64) -> Option<int> {
    find_job_from(jobs, queue, id, 0)
}

/// Whether the jobs at these positions ran to their end.
pub open spec fn all_finished(jobs: Seq<MockJob>, positions: Seq<usize>) -> bool {
    forall|k: int|
        0 <= k < positions.len() ==> {
            let i = #[trigger] positions[k];
            i < jobs.len() && jobs[i as int].inner.state.spec_finished()
        }
}

/// Whether the job at position `i` can be handed out.
pub open spec fn is_ready(jobs: Seq<MockJob>, i: int) -> bool {
    jobs[i].inner.state == MockJobState::Pending && all_finished(jobs, jobs[i].dependencies@)
}

/// The first job of a queue that can be handed out, from number `from` on.
pub open spec fn first_ready_from(jobs: Seq<MockJob>, queue: Seq<usize>, from: int) -> Option<int>
    decreases queue.len() - from,
{
    if from < 0 || from >= queue.len() {
        None
    } else if is_ready(jobs, queue[from] as int) {
        Some(queue[from] as int)
    } else {
        first_ready_from(jobs, queue, from + 1)
    }
}

/// The first job of a queue that can be handed out.
pub open spec fn first_ready(jobs: Seq<MockJob>, queue: Seq<usize>) -> Option<int> {
    first_ready_from(jobs, queue, 0)
}

/// What is found is in the queue and has the id.
pub proof fn lemma_find_job(jobs: Seq<MockJob>, queue: Seq<usize>, id: u64, from: int)
    requires
        0 <= from,
        all_exist(jobs, queue),
    ensures
        find_job_from(jobs, queue, id, from) matches Some(i) ==> 0 <= i < jobs.len() && jobs[i].id
            == id && queue.contains(i as usize),
        find_job_from(jobs, queue, id, from) is None ==> forall|k: int|
            from <= k < queue.len() ==> jobs[(#[trigger] queue[k]) as int].id != id,
    decreases queue.len() - from,
{
    if from < queue.len() {
        assert(queue[from] < jobs.len());
        assert(queue.contains(queue[from]));
        if jobs[queue[from] as int].id != id {
            lemma_find_job(jobs, queue, id, from + 1);
        }
    }
}

proof fn lemma_first_ready(jobs: Seq<MockJob>, queue: Seq<usize>, from: int)
    requires
        0 <= from,
        all_exist(jobs, queue),
    ensures
        first_ready_from(jobs, queue, from) matches Some(i) ==> 0 <= i < jobs.len() && is_ready(
            jobs,
            i,
        ) && queue.contains(i as usize),
    decreases queue.len() - from,
{
    if from < queue.len() {
        assert(queue[from] < jobs.len());
        assert(queue.contains(queue[from]));
        if !is_ready(jobs, queue[from] as int) {
            lemma_first_ready(jobs, queue, from + 1);
        }
    }
}

/// The dependencies of a job have still ended when the job runs.
pub proof fn lemma_still_finished(jobs: Seq<MockJob>, i: int)
    requires
        0 <= i < jobs.len(),
        is_ready(jobs, i),
    ensures
        all_finished(
            jobs.update(i, crate::mock::job::with_state(jobs[i], MockJobState::Running)),
            jobs[i].dependencies@,
        ),
{
}

/// Whether jobs became only what later can follow: none went away, and none that was started waits
/// again.
pub open spec fn progressed(before: Seq<MockJob>, after: Seq<MockJob>) -> bool {
    &&& before.len() <= after.len()
    &&& forall|i: int|
        0 <= i < before.len() ==> (#[trigger] after[i]).id == before[i].id && (
        before[i].inner.state != MockJobState::Pending ==> after[i].inner.state
            != MockJobState::Pending)
}

/// Progress adds up.
pub proof fn law_progress_adds_up(a: Seq<MockJob>, b: Seq<MockJob>, c: Seq<MockJob>)
    requires
        progressed(a, b),
        progressed(b, c),
    ensures
        progressed(a, c),
{
    assert forall|i: int| 0 <= i < a.len() implies (#[trigger] c[i]).id == a[i].id && (
    a[i].inner.state != MockJobState::Pending ==> c[i].inner.state != MockJobState::Pending) by {
        assert(b[i].id == a[i].id);
    }
}

/// A job is handed out once: after it was handed out, whatever happens, no server hands it out again.
pub proof fn law_job_handed_out_once(
    handed: Seq<MockJob>,
    i: int,
    later: Seq<MockJob>,
    queue: Seq<usize>,
)
    requires
        0 <= i < handed.len(),
        handed[i].inner.state == MockJobState::Running,
        progressed(handed, later),
        all_exist(later, queue),
    ensures
        first_ready(later, queue) != Some(i),
{
    lemma_first_ready(later, queue, 0);
    assert(later[i].id == handed[i].id);
}

/// Only a job of the server that waits, and whose dependencies have all ended, is handed out.
pub proof fn law_dependencies_come_first(jobs: Seq<MockJob>, queue: Seq<usize>)
    requires
        all_exist(jobs, queue),
    ensures
        first_ready(jobs, queue) matches Some(i) ==> {
            &&& 0 <= i < jobs.len()
            &&& queue.contains(i as usize)
            &&& jobs[i].inner.state == MockJobState::Pending
            &&& all_finished(jobs, jobs[i].dependencies@)
        },
{
    lemma_first_ready(jobs, queue, 0);
}

/// The dependencies of a job after more were added, one after the other.
pub open spec fn dependencies_after(before: Seq<usize>, added: Seq<usize>) -> Seq<usize>
    decreases added.len(),
{
    if added.len() == 0 {
        before
    } else {
        dependencies_after(before, added.drop_last()).push(added.last())
    }
}

/// Dependencies stay in the order in which they were added; none is left out, sorted or merged.
pub proof fn law_dependencies_keep_order(before: Seq<usize>, added: Seq<usize>)
    ensures
        dependencies_after(before, added) == before + added,
    decreases added.len(),
{
    if added.len() > 0 {
        law_dependencies_keep_order(before, added.drop_last());
        assert(before + added.drop_last().push(added.last()) =~= before + added);
    } else {
        assert(before + added =~= before);
    }
}

/// A dependency is the job that was passed in, wherever it is queued: a job that waits for it alone becomes
/// ready exactly when that job has ended.
pub proof fn law_dependency_shares_state(jobs: Seq<MockJob>, i: int, d: usize, now: MockJob)
    requires
        0 <= i < jobs.len(),
        d < jobs.len(),
        i != d,
        jobs[i].dependencies@ == seq![d],
        jobs[i].inner.state == MockJobState::Pending,
    ensures
        is_ready(jobs.update(d as int, now), i) == now.inner.state.spec_finished(),
{
    let after = jobs.update(d as int, now);
    assert(after[i] == jobs[i]);
    assert(jobs[i].dependencies@[0] == d);
}

/// A queue keeps its jobs whatever happens to them.
pub proof fn law_jobs_stay(before: Seq<MockJob>, after: Seq<MockJob>, queue: Seq<usize>)
    requires
        progressed(before, after),
        all_exist(before, queue),
    ensures
        all_exist(after, queue),
{
    assert forall|k: int| 0 <= k < queue.len() implies (#[trigger] queue[k]) < after.len() by {
        assert(queue[k] < before.len());
    }
}

impl GitlabRunnerMock {
    /// Whether there are jobs at all positions in the queue.
    pub open spec fn wf(&self, jobs: MockJobs) -> bool {
        all_exist(jobs@, self.queue@)
    }

    /// A server without jobs.
    pub fn new() -> (r: Self)
        ensures
            r.token@ == "fakerunnertoken"@,
            r.last_id == 265,
            r.queue@.len() == 0,
            r.interval == 3,
    {
        GitlabRunnerMock {
            token: "fakerunnertoken".to_owned(),
            last_id: 265,
            queue: Vec::new(),
            interval: 3,
        }
    }

    /// The token that runners use.
    pub fn runner_token(&self) -> (r: &str)
        ensures
            r@ == self.token@,
    {
        self.token.as_str()
    }

    fn add_job(&mut self, all: &mut MockJobs, job: MockJob) -> (r: usize)
        requires
            old(self).wf(*old(all)),
        ensures
            r == old(all)@.len(),
            *final(self) == (GitlabRunnerMock { queue: final(self).queue, ..*old(self) }),
            final(self).queue@ == old(self).queue@.push(r),
            final(self).wf(*final(all)),
            final(all)@ == old(all)@.push(job),
            progressed(old(all)@, final(all)@),
    {
        let r = all.add(job);
        self.queue.push(r);
        proof {
            law_jobs_stay(old(all)@, all@, old(self).queue@);
            assert forall|k: int| 0 <= k < self.queue@.len() implies (#[trigger] self.queue@[k])
                < all@.len() by {
                if k < old(self).queue@.len() {
                    assert(old(self).queue@[k] < all@.len());
                }
            }
        }
        r
    }

    /// Adds a job with a single step, and gives its position.
    pub fn add_dummy_job(&mut self, all: &mut MockJobs, name: String) -> (r: usize)
        requires
            old(self).wf(*old(all)),
            old(self).last_id < u64::MAX,
        ensures
            r == old(all)@.len(),
            *final(self) == (GitlabRunnerMock {
                last_id: (old(self).last_id + 1) as u64,
                queue: final(self).queue,
                ..*old(self)
            }),
            final(self).queue@ == old(self).queue@.push(r),
            final(self).wf(*final(all)),
            final(all)@.len() == old(all)@.len() + 1,
            final(all)@.drop_last() == old(all)@,
            final(all)@.last().wf(),
            crate::mock::job::is_dummy_job(final(all)@.last(), name@, final(self).last_id),
            progressed(old(all)@, final(all)@),
    {
        self.last_id = self.last_id + 1;
        let job = MockJob::new(name, self.last_id);
        let r = self.add_job(all, job);
        assert(all@.drop_last() =~= old(all)@);
        r
    }

    /// Adds a job that succeeded and left an artifact, and gives its position.
    pub fn add_completed_job(&mut self, all: &mut MockJobs, name: String, artifact: Vec<u8>) -> (r:
        usize)
        requires
            old(self).wf(*old(all)),
            old(self).last_id < u64::MAX,
        ensures
            r == old(all)@.len(),
            *final(self) == (GitlabRunnerMock {
                last_id: (old(self).last_id + 1) as u64,
                queue: final(self).queue,
                ..*old(self)
            }),
            final(self).queue@ == old(self).queue@.push(r),
            final(self).wf(*final(all)),
            final(all)@.len() == old(all)@.len() + 1,
            final(all)@.drop_last() == old(all)@,
            final(all)@.last().wf(),
            crate::mock::job::is_completed_job(
                final(all)@.last(),
                name@,
                final(self).last_id,
                artifact@,
            ),
            final(all)@.last().spec_archive() == Some(artifact@),
            progressed(old(all)@, final(all)@),
    {
        self.last_id = self.last_id + 1;
        let job = MockJob::new_completed(name, self.last_id, artifact);
        let r = self.add_job(all, job);
        assert(all@.drop_last() =~= old(all)@);
        r
    }

    /// A builder for a job with an id of its own.
    pub fn job_builder(&mut self, name: String) -> (r: MockJobBuilder)
        requires
            old(self).last_id < u64::MAX,
        ensures
            *final(self) == (GitlabRunnerMock { last_id: (old(self).last_id + 1) as u64, ..*old(self)
            }),
            r.wf(),
            r.name == name,
            r.id == old(self).last_id + 1,
            r.variables@.len() == 1,
            crate::mock::job::has_default_variables(r.variables@, r.id),
            r.steps@.len() == 0,
            r.dependencies@.len() == 0,
            r.token_prefixes@.len() == 0,
            r.artifacts@.len() == 0,
    {
        self.last_id = self.last_id + 1;
        MockJobBuilder::new(name, self.last_id)
    }

    /// Adds a job, of which the server must not have one with the same id.
    pub fn enqueue_job(&mut self, all: &MockJobs, job: usize)
        requires
            old(self).wf(*all),
            job < all@.len(),
            find_job(all@, old(self).queue@, all@[job as int].id) is None,
        ensures
            *final(self) == (GitlabRunnerMock { queue: final(self).queue, ..*old(self) }),
            final(self).queue@ == old(self).queue@.push(job),
            final(self).wf(*all),
    {
        self.queue.push(job);
        assert forall|k: int| 0 <= k < self.queue@.len() implies (#[trigger] self.queue@[k])
            < all@.len() by {
            if k < old(self).queue@.len() {
                assert(old(self).queue@[k] < all@.len());
            }
        }
    }

    /// The position of the server's first job with the given id.
    pub fn get_job(&self, all: &MockJobs, id: u64) -> (r: Option<usize>)
        requires
            self.wf(*all),
        ensures
            match r {
                Some(i) => find_job(all@, self.queue@, id) == Some(i as int) && i < all@.len()
                    && all@[i as int].id == id,
                None => find_job(all@, self.queue@, id) is None,
            },
    {
        let mut k: usize = 0;
        while k < self.queue.len()
            invariant
                k <= self.queue@.len(),
                self.wf(*all),
                find_job_from(all@, self.queue@, id, k as int) == find_job(all@, self.queue@, id),
            decreases self.queue@.len() - k,
        {
            let i = self.queue[k];
            assert(self.queue@[k as int] < all@.len());
            if all.list[i].id == id {
                return Some(i);
            }
            k += 1;
        }
        None
    }

    /// The archive of the job with the given id; nothing where the job has none.
    pub fn get_job_artifact(&self, all: &MockJobs, id: u64) -> (r: Option<Vec<u8>>)
        requires
            self.wf(*all),
        ensures
            match find_job(all@, self.queue@, id) {
                Some(i) => r matches Some(data) && data@ == (match all@[i].spec_archive() {
                    Some(archive) => archive,
                    None => Seq::<u8>::empty(),
                }),
                None => r is None,
            },
    {
        match self.get_job(all, id) {
            Some(i) => {
                let data = all.list[i].artifact();
                Some(vstd::slice::slice_to_vec(data.as_slice()))
            },
            None => None,
        }
    }

    /// The first job that can be handed out: one that waits, and whose dependencies have all ended.
    pub fn grab_pending_job(&self, all: &MockJobs) -> (r: Option<usize>)
        requires
            self.wf(*all),
        ensures
            match r {
                Some(i) => first_ready(all@, self.queue@) == Some(i as int) && i < all@.len(),
                None => first_ready(all@, self.queue@) is None,
            },
    {
        let mut k: usize = 0;
        while k < self.queue.len()
            invariant
                k <= self.queue@.len(),
                self.wf(*all),
                first_ready_from(all@, self.queue@, k as int) == first_ready(all@, self.queue@),
            decreases self.queue@.len() - k,
        {
            let i = self.queue[k];
            assert(self.queue@[k as int] < all@.len());
            if all.list[i].state() == MockJobState::Pending && dependencies_finished(
                all,
                &all.list[i].dependencies,
            ) {
                return Some(i);
            }
            k += 1;
        }
        None
    }

    /// The interval, in seconds, at which runners are asked for log updates.
    pub fn update_interval(&self) -> (r: u32)
        ensures
            r == self.interval,
    {
        self.interval
    }

    /// Sets the interval, in seconds, at which runners are asked for log updates.
    pub fn set_update_interval(&mut self, interval: u32)
        ensures
            *final(self) == (GitlabRunnerMock { interval, ..*old(self) }),
    {
        self.interval = interval;
    }
}

fn dependencies_finished(all: &MockJobs, positions: &Vec<usize>) -> (r: bool)
    ensures
        r == all_finished(all@, positions@),
{
    let mut k: usize = 0;
    while k < positions.len()
        invariant
            k <= positions@.len(),
            forall|j: int|
                0 <= j < k ==> {
                    let i = #[trigger] positions@[j];
                    i < all@.len() && all@[i as int].inner.state.spec_finished()
                },
        decreases positions@.len() - k,
    {
        let i = positions[k];
        if i >= all.list.len() || !all.list[i].finished() {
            assert(!all_finished(all@, positions@)) by {
                assert(positions@[k as int] == i);
            }
            return false;
        }
        k += 1;
    }
    true
}

/// How many of the paths are that of a request for a job.
pub open spec fn job_requests(paths: Seq<Seq<char>>) -> nat
    decreases paths.len(),
{
    if paths.len() == 0 {
        0
    } else if paths.last() == "/api/v4/jobs/request"@ {
        job_requests(paths.drop_last()) + 1
    } else {
        job_requests(paths.drop_last())
    }
}

/// How many of the requests with these paths asked for a job.
pub fn n_requests(paths: &Vec<String>) -> (r: usize)
    ensures
        r == job_requests(text::views(paths@)),
{
    let ghost all = text::views(paths@);
    let mut n: usize = 0;
    let mut i: usize = 0;
    while i < paths.len()
        invariant
            i <= paths@.len(),
            n <= i,
            all == text::views(paths@),
            n == job_requests(all.take(i as int)),
        decreases paths@.len() - i,
    {
        assert(all.take(i + 1).drop_last() =~= all.take(i as int));
        assert(all.take(i + 1).last() == paths@[i as int]@);
        if text::str_eq(paths[i].as_str(), "/api/v4/jobs/request") {
            n += 1;
        }
        i += 1;
    }
    assert(all.take(i as int) =~= all);
    n
}

proof fn lemma_first_with_id(jobs: Seq<MockJob>, queue: Seq<usize>, id: u64, from: int, k: int)
    requires
        0 <= from <= k <= queue.len(),
        k < queue.len() ==> jobs[queue[k] as int].id == id,
        forall|j: int| from <= j < k ==> jobs[(#[trigger] queue[j]) as int].id != id,
    ensures
        find_job_from(jobs, queue, id, from) == (if k < queue.len() {
            Some(queue[k] as int)
        } else {
            None
        }),
    decreases k - from,
{
    if from < k {
        assert(jobs[queue[from] as int].id != id);
        lemma_first_with_id(jobs, queue, id, from + 1, k);
    }
}

/// The job that an id finds is the first in the queue that has it; an id that no job in the queue has finds
/// none.
pub proof fn law_first_job_with_the_id_is_found(
    jobs: Seq<MockJob>,
    queue: Seq<usize>,
    id: u64,
    k: int,
)
    requires
        0 <= k <= queue.len(),
        k < queue.len() ==> jobs[queue[k] as int].id == id,
        forall|j: int| 0 <= j < k ==> jobs[(#[trigger] queue[j]) as int].id != id,
    ensures
        find_job(jobs, queue, id) == (if k < queue.len() {
            Some(queue[k] as int)
        } else {
            None
        }),
{
    lemma_first_with_id(jobs, queue, id, 0, k);
}

/// Whether a job waits, and every job that it depends on has succeeded or failed.
pub open spec fn can_start(jobs: Seq<MockJob>, i: int) -> bool {
    &&& jobs[i].inner.state == MockJobState::Pending
    &&& forall|k: int|
        0 <= k < jobs[i].dependencies@.len() ==> {
            let d = #[trigger] jobs[i].dependencies@[k];
            &&& d < jobs.len()
            &&& jobs[d as int].inner.state == MockJobState::Success || jobs[d as int].inner.state
                == MockJobState::Failed
        }
}

proof fn lemma_can_start(jobs: Seq<MockJob>, i: int)
    ensures
        can_start(jobs, i) == is_ready(jobs, i),
{
}

proof fn lemma_first_that_can_start(jobs: Seq<MockJob>, queue: Seq<usize>, from: int, k: int)
    requires
        0 <= from <= k <= queue.len(),
        k < queue.len() ==> can_start(jobs, queue[k] as int),
        forall|j: int| from <= j < k ==> !can_start(jobs, (#[trigger] queue[j]) as int),
    ensures
        first_ready_from(jobs, queue, from) == (if k < queue.len() {
            Some(queue[k] as int)
        } else {
            None
        }),
    decreases k - from,
{
    if from < k {
        assert(!can_start(jobs, queue[from] as int));
        lemma_can_start(jobs, queue[from] as int);
        lemma_first_that_can_start(jobs, queue, from + 1, k);
    } else if k < queue.len() {
        lemma_can_start(jobs, queue[k] as int);
    }
}

/// The job that is handed out is the first in the queue that waits and whose dependencies have all succeeded or
/// failed; none is handed out where there is no such job.
pub proof fn law_jobs_are_handed_out_in_order(jobs: Seq<MockJob>, queue: Seq<usize>, k: int)
    requires
        0 <= k <= queue.len(),
        k < queue.len() ==> can_start(jobs, queue[k] as int),
        forall|j: int| 0 <= j < k ==> !can_start(jobs, (#[trigger] queue[j]) as int),
    ensures
        first_ready(jobs, queue) == (if k < queue.len() {
            Some(queue[k] as int)
        } else {
            None
        }),
{
    lemma_first_that_can_start(jobs, queue, 0, k);
}

/// Each request for a job is counted once, and no other request is.
pub proof fn law_job_requests_are_counted(before: Seq<Seq<char>>, path: Seq<char>)
    ensures
        job_requests(Seq::empty()) == 0,
        path == "/api/v4/jobs/request"@ ==> job_requests(before.push(path)) == job_requests(before) + 1,
        path != "/api/v4/jobs/request"@ ==> job_requests(before.push(path)) == job_requests(before),
{
    assert(before.push(path).drop_last() =~= before);
}

/// A job that was just added with a single step can be handed out; one that was added as completed is not
/// handed out, and is no reason to hold another one back.
pub proof fn law_added_jobs(
    jobs: Seq<MockJob>,
    i: int,
    name: Seq<char>,
    id: u64,
    artifact: Seq<u8>,
)
    ensures
        crate::mock::job::is_dummy_job(jobs[i], name, id) ==> can_start(jobs, i),
        crate::mock::job::is_completed_job(jobs[i], name, id, artifact) ==> !can_start(jobs, i)
            && jobs[i].inner.state == MockJobState::Success && jobs[i].spec_archive() == Some(artifact),
{
    if crate::mock::job::is_completed_job(jobs[i], name, id, artifact) {
        crate::mock::job::law_first_archive_is_downloaded(jobs[i], 0);
    }
}

} // verus!
