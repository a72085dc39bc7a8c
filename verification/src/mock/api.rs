//! How the server answers a runner.
use crate::client::{GitInfo, JobArtifactFile, Method};
use crate::mock::job::{LogError, MockJob, MockJobArtifact, MockJobState};
use crate::mock::server::{GitlabRunnerMock, MockJobs};
use crate::text;
use futures::executor::block_on;
use vstd::prelude::*;

verus! {

// ---------------------------------------------------------------------------
// Replies
// ---------------------------------------------------------------------------

/// What matters of a reply.
#[derive(Debug, Clone, Copy, PartialEq, Eq, Structural)]
pub struct MockReply {
    pub status: u16,
    /// The state of the job, where the reply tells it.
    pub job_status: Option<MockJobState>,
    /// The interval at which log updates are wanted, where the reply tells it.
    pub update_interval: Option<u32>,
    /// What was wrong with a piece of log.
    pub error: Option<LogError>,
}

/// A reply that is nothing but a status code.
pub open spec fn plain(status: u16) -> MockReply {
    MockReply { status, job_status: None, update_interval: None, error: None }
}

fn plain_reply(status: u16) -> (r: MockReply)
    ensures
        r == plain(status),
{
    MockReply { status, job_status: None, update_interval: None, error: None }
}

/// The id in a path: the number in the part that has `back` parts behind it.
pub open spec fn id_in_path(path: Seq<char>, back: nat) -> Option<u64> {
    let parts = text::split(path.skip(1), '/');
    if path.len() == 0 || back >= parts.len() {
        None
    } else {
        text::parsed_u64(parts[parts.len() - 1 - back])
    }
}

/// The id in a path: the number in the part that has `back` parts behind it.
pub fn path_id(path: &str, back: usize) -> (r: Option<u64>)
    ensures
        r == id_in_path(path@, back as nat),
{
    let n = path.unicode_len();
    if n == 0 {
        return None;
    }
    let rest = path.substring_char(1, n);
    assert(rest@ =~= path@.skip(1));
    let parts = text::split_string(rest, '/');
    let ghost all = text::split(path@.skip(1), '/');
    assert(all.len() == parts@.len());
    if back >= parts.len() {
        return None;
    }
    let i = parts.len() - 1 - back;
    assert(all[i as int] == parts@[i as int]@);
    text::parse_u64(parts[i].as_str())
}

// ---------------------------------------------------------------------------
// Routing
// ---------------------------------------------------------------------------

/// What a request is about; all but the first carry the id of a job.
#[derive(Debug, Clone, Copy, PartialEq, Eq, Structural)]
pub enum Route {
    RequestJob,
    UpdateJob(u64),
    Trace(u64),
    Upload(u64),
    Download(u64),
}

/// How many digits a text begins with.
pub open spec fn leading_digits(s: Seq<char>) -> nat
    decreases s.len(),
{
    if s.len() > 0 && text::is_digit(s[0]) {
        1 + leading_digits(s.skip(1))
    } else {
        0
    }
}

/// What follows the number of a job in a path; `None` where the path is not that of a job.
pub open spec fn after_job_number(path: Seq<char>) -> Option<Seq<char>> {
    let base = "/api/v4/jobs/"@;
    if text::has_prefix(path, base) && leading_digits(path.skip(base.len() as int)) > 0 {
        let rest = path.skip(base.len() as int);
        Some(rest.skip(leading_digits(rest) as int))
    } else {
        None
    }
}

/// What a request with this method and path is about; `None` where nobody answers it.
pub open spec fn route_of(method: Method, path: Seq<char>) -> Option<Route> {
    match method {
        Method::Post => if path == "/api/v4/jobs/request"@ {
            Some(Route::RequestJob)
        } else {
            match (after_job_number(path), id_in_path(path, 1)) {
                (Some(rest), Some(id)) => if text::has_prefix(rest, "/artifacts"@) {
                    Some(Route::Upload(id))
                } else {
                    None
                },
                _ => None,
            }
        },
        Method::Put => match (after_job_number(path), id_in_path(path, 0)) {
            (Some(rest), Some(id)) => if rest.len() == 0 {
                Some(Route::UpdateJob(id))
            } else {
                None
            },
            _ => None,
        },
        Method::Patch => match (after_job_number(path), id_in_path(path, 1)) {
            (Some(rest), Some(id)) => if text::has_prefix(rest, "/trace"@) {
                Some(Route::Trace(id))
            } else {
                None
            },
            _ => None,
        },
        Method::Get => match (after_job_number(path), id_in_path(path, 1)) {
            (Some(rest), Some(id)) => if text::has_prefix(rest, "/artifacts"@) {
                Some(Route::Download(id))
            } else {
                None
            },
            _ => None,
        },
    }
}

/// The number of leading digits, from the first character that is none.
pub proof fn lemma_leading_digits(s: Seq<char>, n: int)
    requires
        0 <= n <= s.len(),
        forall|i: int| 0 <= i < n ==> text::is_digit(#[trigger] s[i]),
        n < s.len() ==> !text::is_digit(s[n]),
    ensures
        leading_digits(s) == n,
    decreases n,
{
    if n > 0 {
        assert(text::is_digit(s[0]));
        assert forall|i: int| 0 <= i < n - 1 implies text::is_digit(#[trigger] s.skip(1)[i]) by {
            assert(s.skip(1)[i] == s[i + 1]);
        }
        lemma_leading_digits(s.skip(1), n - 1);
    }
}

fn job_path_rest(path: &str) -> (r: Option<String>)
    ensures
        r is Some == after_job_number(path@) is Some,
        r matches Some(rest) ==> Some(rest@) == after_job_number(path@),
{
    if !text::starts_with(path, "/api/v4/jobs/") {
        return None;
    }
    let base = "/api/v4/jobs/".unicode_len();
    let chars = text::chars_of(path);
    let ghost tail = path@.skip(base as int);
    let mut i: usize = base;
    while i < chars.len() && (chars[i] as u32) >= 48 && (chars[i] as u32) <= 57
        invariant
            chars@ == path@,
            base <= i <= chars@.len(),
            tail == path@.skip(base as int),
            forall|j: int| 0 <= j < i - base ==> text::is_digit(#[trigger] tail[j]),
        decreases chars@.len() - i,
    {
        assert(tail[i - base] == chars@[i as int]);
        i += 1;
    }
    proof {
        if i < chars@.len() {
            assert(tail[i - base] == chars@[i as int]);
        }
        lemma_leading_digits(tail, i - base);
    }
    if i == base {
        return None;
    }
    let rest = text::string_of(text::slice_range(chars.as_slice(), i, chars.len()));
    assert(rest@ =~= tail.skip(i - base));
    Some(rest)
}

/// What a request with this method and path is about; `None` where nobody answers it.
pub fn route(method: Method, path: &str) -> (r: Option<Route>)
    ensures
        r == route_of(method, path@),
{
    if method == Method::Post && text::str_eq(path, "/api/v4/jobs/request") {
        return Some(Route::RequestJob);
    }
    let rest = match job_path_rest(path) {
        Some(rest) => rest,
        None => return None,
    };
    let back: usize = if method == Method::Put {
        0
    } else {
        1
    };
    let id = match path_id(path, back) {
        Some(id) => id,
        None => return None,
    };
    match method {
        Method::Post => if text::starts_with(rest.as_str(), "/artifacts") {
            Some(Route::Upload(id))
        } else {
            None
        },
        Method::Put => if rest.as_str().unicode_len() == 0 {
            Some(Route::UpdateJob(id))
        } else {
            None
        },
        Method::Patch => if text::starts_with(rest.as_str(), "/trace") {
            Some(Route::Trace(id))
        } else {
            None
        },
        Method::Get => if text::starts_with(rest.as_str(), "/artifacts") {
            Some(Route::Download(id))
        } else {
            None
        },
    }
}

// ---------------------------------------------------------------------------
// Requests for jobs
// ---------------------------------------------------------------------------

/// The reply to a request for a job.
#[derive(Debug, Clone, Copy, PartialEq, Eq, Structural)]
pub struct RequestReply {
    pub status: u16,
    /// The position of the job that is handed out.
    pub job: Option<usize>,
}

/// What a runner is told of a dependency.
#[derive(Debug, Clone)]
pub struct DependencyOffer {
    pub id: u64,
    pub name: String,
    pub token: String,
    /// The file of the artifact, where there is one.
    pub artifacts_file: Option<JobArtifactFile>,
}

/// Whether this is what a runner is told of the dependency `job`.
pub open spec fn is_offer_of(offer: DependencyOffer, job: crate::mock::job::MockJob) -> bool {
    let size = match job.spec_archive() {
        Some(data) => data.len(),
        None => 0,
    };
    &&& offer.id == job.id
    &&& offer.name@ == job.name@
    &&& offer.token@ == job.token@
    &&& offer.artifacts_file is Some == (size > 0)
    &&& offer.artifacts_file matches Some(file) ==> file.filename@ == "artifacts.zip"@ && file.size
        == size
}

impl GitlabRunnerMock {
    /// Answers a request for a job.
    ///
    /// A runner with a wrong token is refused. One that cannot handle refspecs gets no job. The job that
    /// is handed out runs from then on.
    pub fn respond_request(&self, all: &mut MockJobs, token: &str, refspecs: bool) -> (r: RequestReply)
        requires
            self.wf(*old(all)),
            token@ == self.token@ && refspecs ==> (crate::mock::server::first_ready(
                old(all)@,
                self.queue@,
            ) matches Some(i) ==> old(all)@[i].inner.state_updates < u32::MAX),
        ensures
            crate::mock::server::progressed(old(all)@, final(all)@),
            self.wf(*final(all)),
            ({
                let jobs = old(all)@;
                let ready = crate::mock::server::first_ready(jobs, self.queue@);
                if token@ != self.token@ {
                    &&& r == (RequestReply { status: 403, job: None })
                    &&& final(all)@ == jobs
                } else if !refspecs || ready is None {
                    &&& r == (RequestReply { status: 204, job: None })
                    &&& final(all)@ == jobs
                } else {
                    &&& r.status == 201
                    &&& r.job matches Some(i) && i == ready->0 && i < jobs.len()
                    &&& final(all)@ == jobs.update(
                        ready->0,
                        crate::mock::job::with_state(jobs[ready->0], MockJobState::Running),
                    )
                    &&& crate::mock::server::all_finished(
                        final(all)@,
                        final(all)@[ready->0].dependencies@,
                    )
                }
            }),
    {
        if !text::str_eq(token, self.token.as_str()) {
            return RequestReply { status: 403, job: None };
        }
        if !refspecs {
            return RequestReply { status: 204, job: None };
        }
        match self.grab_pending_job(all) {
            Some(i) => {
                all.list[i].update_state(MockJobState::Running);
                proof {
                    crate::mock::server::law_dependencies_come_first(old(all)@, self.queue@);
                    crate::mock::server::lemma_still_finished(old(all)@, i as int);
                }
                RequestReply { status: 201, job: Some(i) }
            },
            None => RequestReply { status: 204, job: None },
        }
    }
}

impl MockJobs {
    /// What a runner is told of the dependencies of the job at position `i`.
    pub fn dependency_offers(&self, i: usize) -> (r: Vec<DependencyOffer>)
        requires
            i < self@.len(),
            crate::mock::server::all_exist(self@, self@[i as int].dependencies@),
        ensures
            r@.len() == self@[i as int].dependencies@.len(),
            forall|k: int|
                0 <= k < r@.len() ==> is_offer_of(
                    #[trigger] r@[k],
                    self@[self@[i as int].dependencies@[k] as int],
                ),
    {
        let positions = &self.list[i].dependencies;
        let mut r: Vec<DependencyOffer> = Vec::new();
        let mut k: usize = 0;
        while k < positions.len()
            invariant
                i < self@.len(),
                positions@ == self@[i as int].dependencies@,
                crate::mock::server::all_exist(self@, positions@),
                k == r@.len(),
                k <= positions@.len(),
                forall|j: int|
                    0 <= j < k ==> is_offer_of(#[trigger] r@[j], self@[positions@[j] as int]),
            decreases positions@.len() - k,
        {
            assert(positions@[k as int] < self@.len());
            let job = &self.list[positions[k]];
            let data = job.artifact();
            let size = data.len();
            let artifacts_file = if size > 0 {
                Some(JobArtifactFile { filename: "artifacts.zip".to_owned(), size })
            } else {
                None
            };
            r.push(
                DependencyOffer {
                    id: job.id,
                    name: job.name.clone(),
                    token: job.token.clone(),
                    artifacts_file,
                },
            );
            k += 1;
        }
        r
    }
}

/// What a runner is told of an artifact.
#[derive(Debug)]
pub struct ArtifactOffer<'a> {
    pub artifact: &'a MockJobArtifact,
    /// Whether untracked files belong to it. Missing values for 'untracked' should be treated as false, so
    /// a false one is left out.
    pub untracked: Option<bool>,
}

/// What a runner is told of a job.
#[derive(Debug)]
pub struct JobPayload<'a> {
    pub job: &'a MockJob,
    pub git_info: GitInfo,
    pub dependencies: Vec<DependencyOffer>,
    pub artifacts: Vec<ArtifactOffer<'a>>,
}

/// Whether this is what every runner is told of the sources of its job.
pub open spec fn is_mock_git_info(info: GitInfo) -> bool {
    &&& info.repo_url@ == "https://bla/dummy.git"@
    &&& info.sha@ == "265c14cf140a66cfc61e40e4ab45c95ba8df5ed1"@
    &&& text::views(info.refspecs@) == seq![
        "+265c14cf140a66cfc61e40e4ab45c95ba8df5ed1:refs/pipelines/120"@,
        "+refs/heads/custom:refs/remotes/origin/custom"@,
    ]
    &&& info.depth == 50
}

fn mock_git_info() -> (r: GitInfo)
    ensures
        is_mock_git_info(r),
{
    let mut refspecs: Vec<String> = Vec::new();
    refspecs.push("+265c14cf140a66cfc61e40e4ab45c95ba8df5ed1:refs/pipelines/120".to_owned());
    refspecs.push("+refs/heads/custom:refs/remotes/origin/custom".to_owned());
    assert(text::views(refspecs@) =~= seq![
        "+265c14cf140a66cfc61e40e4ab45c95ba8df5ed1:refs/pipelines/120"@,
        "+refs/heads/custom:refs/remotes/origin/custom"@,
    ]);
    GitInfo {
        repo_url: "https://bla/dummy.git".to_owned(),
        sha: "265c14cf140a66cfc61e40e4ab45c95ba8df5ed1".to_owned(),
        refspecs,
        depth: 50,
    }
}

impl MockJobs {
    /// What a runner is told of the job at position `i`, whose dependencies have all ended.
    pub fn job_payload(&self, i: usize) -> (r: JobPayload<'_>)
        requires
            i < self@.len(),
            crate::mock::server::all_exist(self@, self@[i as int].dependencies@),
        ensures
            ({
                let job = self@[i as int];
                &&& *r.job == job
                &&& is_mock_git_info(r.git_info)
                &&& r.dependencies@.len() == job.dependencies@.len()
                &&& forall|k: int|
                    0 <= k < r.dependencies@.len() ==> is_offer_of(
                        #[trigger] r.dependencies@[k],
                        self@[job.dependencies@[k] as int],
                    )
                &&& r.artifacts@.len() == job.artifacts@.len()
                &&& forall|k: int|
                    0 <= k < r.artifacts@.len() ==> {
                        let offer = #[trigger] r.artifacts@[k];
                        &&& *offer.artifact == job.artifacts@[k]
                        &&& offer.untracked == (if job.artifacts@[k].untracked {
                            Some(true)
                        } else {
                            None::<bool>
                        })
                    }
            }),
    {
        let job = &self.list[i];
        let mut artifacts: Vec<ArtifactOffer<'_>> = Vec::new();
        let mut k: usize = 0;
        while k < job.artifacts.len()
            invariant
                k == artifacts@.len(),
                k <= job.artifacts@.len(),
                forall|j: int|
                    0 <= j < k ==> {
                        let offer = #[trigger] artifacts@[j];
                        &&& *offer.artifact == job.artifacts@[j]
                        &&& offer.untracked == (if job.artifacts@[j].untracked {
                            Some(true)
                        } else {
                            None::<bool>
                        })
                    },
            decreases job.artifacts@.len() - k,
        {
            let artifact = &job.artifacts[k];
            artifacts.push(ArtifactOffer { artifact, untracked: artifact.untracked_field() });
            k += 1;
        }
        JobPayload {
            job,
            git_info: mock_git_info(),
            dependencies: self.dependency_offers(i),
            artifacts,
        }
    }
}

// ---------------------------------------------------------------------------
// Job updates
// ---------------------------------------------------------------------------

/// Whether a running job may be reported to be in this state.
pub open spec fn can_follow_running(state: MockJobState) -> bool {
    state == MockJobState::Running || state == MockJobState::Success || state
        == MockJobState::Failed
}

impl GitlabRunnerMock {
    /// Answers a report of a job's state. A running job takes on the state; any other job keeps its own.
    pub fn respond_update(
        &self,
        all: &mut MockJobs,
        id: u64,
        token: &str,
        state: MockJobState,
    ) -> (r: MockReply)
        requires
            self.wf(*old(all)),
            crate::mock::server::find_job(old(all)@, self.queue@, id) matches Some(i) ==> (
            old(all)@[i].token@ == token@ && old(all)@[i].inner.state
                == MockJobState::Running ==> can_follow_running(state)
                && old(all)@[i].inner.state_updates < u32::MAX),
        ensures
            crate::mock::server::progressed(old(all)@, final(all)@),
            self.wf(*final(all)),
            ({
                let jobs = old(all)@;
                match crate::mock::server::find_job(jobs, self.queue@, id) {
                    None => r == plain(404) && final(all)@ == jobs,
                    Some(i) => if token@ != jobs[i].token@ {
                        r == plain(403) && final(all)@ == jobs
                    } else if jobs[i].inner.state == MockJobState::Running {
                        &&& r == (MockReply { job_status: Some(state), ..plain(200) })
                        &&& final(all)@ == jobs.update(
                            i,
                            crate::mock::job::with_state(jobs[i], state),
                        )
                    } else {
                        &&& r == (MockReply { job_status: Some(jobs[i].inner.state), ..plain(403) })
                        &&& final(all)@ == jobs
                    },
                }
            }),
    {
        match self.get_job(all, id) {
            Some(i) => {
                proof {
                    crate::mock::server::lemma_find_job(all@, self.queue@, id, 0);
                }
                if !text::str_eq(token, all.list[i].token.as_str()) {
                    return plain_reply(403);
                }
                let current = all.list[i].state();
                if current == MockJobState::Running {
                    all.list[i].update_state(state);
                    MockReply {
                        status: 200,
                        job_status: Some(state),
                        update_interval: None,
                        error: None,
                    }
                } else {
                    MockReply {
                        status: 403,
                        job_status: Some(current),
                        update_interval: None,
                        error: None,
                    }
                }
            },
            None => plain_reply(404),
        }
    }
}

// ---------------------------------------------------------------------------
// Log updates
// ---------------------------------------------------------------------------

/// The view of an optional text.
pub open spec fn header(s: Option<&str>) -> Option<Seq<char>> {
    match s {
        Some(t) => Some(t@),
        None => None,
    }
}

impl GitlabRunnerMock {
    /// Whether a piece of log can be answered at all: its range, if it has one, is one, and where it reaches
    /// the log of a running job, its last byte has a position and the pieces can be counted.
    pub open spec fn can_answer_trace(
        &self,
        jobs: Seq<MockJob>,
        id: u64,
        token: Option<Seq<char>>,
        range: Option<Seq<char>>,
        len: nat,
    ) -> bool {
        token is Some && range is Some ==> (text::parsed_range(range->0) matches Some(pair) && {
            &&& pair.0 <= usize::MAX && pair.1 <= usize::MAX
            &&& crate::mock::server::find_job(jobs, self.queue@, id) matches Some(i) ==> {
                let job = jobs[i];
                token->0 == job.token@ && job.inner.state == MockJobState::Running ==> job.can_append(
                    len,
                    pair.0 as nat,
                    pair.1 as nat,
                )
            }
        })
    }

    /// The reply to a piece of log.
    pub open spec fn trace_answer(
        &self,
        jobs: Seq<MockJob>,
        id: u64,
        token: Option<Seq<char>>,
        range: Option<Seq<char>>,
        len: nat,
    ) -> MockReply {
        if token is None {
            plain(403)
        } else if range is None {
            plain(400)
        } else {
            let (start, end) = text::parsed_range(range->0)->0;
            match crate::mock::server::find_job(jobs, self.queue@, id) {
                None => plain(404),
                Some(i) => {
                    let job = jobs[i];
                    if token->0 != job.token@ {
                        plain(403)
                    } else if job.inner.state != MockJobState::Running {
                        MockReply { job_status: Some(job.inner.state), ..plain(403) }
                    } else {
                        match crate::mock::job::log_outcome(
                            job.spec_log().len(),
                            len,
                            start as nat,
                            end as nat,
                        ) {
                            Ok(()) => MockReply {
                                status: 202,
                                job_status: Some(MockJobState::Running),
                                update_interval: Some(self.interval),
                                error: None,
                            },
                            Err(e) => MockReply { error: Some(e), ..plain(416) },
                        }
                    }
                },
            }
        }
    }

    /// Answers a piece of log, which is added to the log of the job where it is accepted.
    pub fn respond_trace(
        &self,
        all: &mut MockJobs,
        id: u64,
        token: Option<&str>,
        range: Option<&str>,
        body: Vec<u8>,
    ) -> (r: MockReply)
        requires
            self.wf(*old(all)),
            self.can_answer_trace(old(all)@, id, header(token), header(range), body@.len()),
        ensures
            crate::mock::server::progressed(old(all)@, final(all)@),
            self.wf(*final(all)),
            r == self.trace_answer(old(all)@, id, header(token), header(range), body@.len()),
            r.status != 202 ==> final(all)@ == old(all)@,
            r.status == 202 ==> {
                let jobs = old(all)@;
                let i = crate::mock::server::find_job(jobs, self.queue@, id)->0;
                &&& 0 <= i < jobs.len()
                &&& final(all)@.len() == jobs.len()
                &&& forall|j: int| 0 <= j < jobs.len() && j != i ==> final(all)@[j] == jobs[j]
                &&& final(all)@[i].wf()
                &&& final(all)@[i].inner.log@ == jobs[i].inner.log@.push(body)
                &&& final(all)@[i].spec_log() == jobs[i].spec_log() + body@
                &&& final(all)@[i] == (crate::mock::job::MockJob {
                    inner: crate::mock::job::MockJobInner {
                        log: final(all)@[i].inner.log,
                        log_patches: (jobs[i].inner.log_patches + 1) as u32,
                        ..jobs[i].inner
                    },
                    ..jobs[i]
                })
            },
    {
        let token = match token {
            Some(t) => t,
            None => return plain_reply(403),
        };
        let (start, end) = match range {
            Some(range) => match text::parse_range(range) {
                Some(pair) => pair,
                None => return plain_reply(400),
            },
            None => return plain_reply(400),
        };
        match self.get_job(all, id) {
            Some(i) => {
                proof {
                    crate::mock::server::lemma_find_job(all@, self.queue@, id, 0);
                }
                let state = all.list[i].state();
                if !text::str_eq(token, all.list[i].token.as_str()) {
                    plain_reply(403)
                } else if state != MockJobState::Running {
                    MockReply {
                        status: 403,
                        job_status: Some(state),
                        update_interval: None,
                        error: None,
                    }
                } else {
                    match all.list[i].append_log(body, start as usize, end as usize) {
                        Ok(()) => MockReply {
                            status: 202,
                            job_status: Some(state),
                            update_interval: Some(self.interval),
                            error: None,
                        },
                        Err(e) => {
                            assert(all@ =~= old(all)@);
                            MockReply {
                                status: 416,
                                job_status: None,
                                update_interval: None,
                                error: Some(e),
                            }
                        },
                    }
                }
            },
            None => plain_reply(404),
        }
    }
}

// ---------------------------------------------------------------------------
// Artifacts
// ---------------------------------------------------------------------------

/// A part of a form.
#[derive(Debug, Clone)]
pub struct FormPart {
    pub name: Option<String>,
    pub file_name: Option<String>,
    pub data: Vec<u8>,
    /// The data, read as text.
    pub text: String,
}

/// A part of a form: its name, the name of its file, its data, and its data read as text.
pub type PartView = (Option<Seq<char>>, Option<Seq<char>>, Seq<u8>, Seq<char>);

/// The views of the parts of a form.
pub open spec fn part_views(parts: Seq<FormPart>) -> Seq<PartView> {
    parts.map_values(
        |p: FormPart|
            (
                crate::uploader::optional_text(p.name),
                crate::uploader::optional_text(p.file_name),
                p.data@,
                p.text@,
            ),
    )
}

/// The boundary that the `multer` crate finds in a content type; `None` where the content type is not
/// that of a form.
pub uninterp spec fn boundary_in(content_type: Seq<char>) -> Option<Seq<char>>;

/// `multer::parse_boundary`: what it finds is a function of the text.
#[verifier::external_body]
fn parse_boundary(content_type: &str) -> (r: Option<String>)
    ensures
        r is Some == boundary_in(content_type@) is Some,
        r matches Some(s) ==> Some(s@) == boundary_in(content_type@),
{
    multer::parse_boundary(content_type).ok()
}

/// The parts that the `multer` crate finds in a form, each with its name, the name of its file, its data,
/// and its data read as text; `None` where the form is malformed.
pub uninterp spec fn multipart_parts(body: Seq<u8>, boundary: Seq<char>) -> Option<
    Seq<(Option<Seq<char>>, Option<Seq<char>>, Seq<u8>, Seq<char>)>,
>;

/// `multer::Multipart`: `next_field` until the end, and `bytes` and `text` of each field. The form is read
/// twice, in step, as a field gives up its content once. What is found is a function of body and boundary.
#[verifier::external_body]
fn read_multipart(body: &[u8], boundary: &str) -> (r: Option<Vec<FormPart>>)
    ensures
        r is Some == multipart_parts(body@, boundary@) is Some,
        r matches Some(parts) ==> Some(part_views(parts@)) == multipart_parts(body@, boundary@),
{
    let stream = || futures::stream::iter([Ok::<_, std::convert::Infallible>(body.to_vec())]);
    let mut binary = multer::Multipart::new(stream(), boundary);
    let mut textual = multer::Multipart::new(stream(), boundary);
    let mut parts = Vec::new();
    while let Some(field) = block_on(binary.next_field()).ok()? {
        parts.push(
            FormPart {
                name: field.name().map(String::from),
                file_name: field.file_name().map(String::from),
                data: block_on(field.bytes()).ok()?.to_vec(),
                text: block_on(block_on(textual.next_field()).ok()??.text()).ok()?,
            },
        );
    }
    Some(parts)
}

/// An uploaded artifact.
#[derive(Debug, Clone)]
pub struct ArtifactForm {
    pub filename: Option<String>,
    pub data: Vec<u8>,
    pub artifact_type: Option<String>,
    pub artifact_format: Option<String>,
}

/// An uploaded artifact: the name of its file, its data, its type and its format.
pub type FormView = (Option<Seq<char>>, Seq<u8>, Option<Seq<char>>, Option<Seq<char>>);

/// The view of an uploaded artifact.
pub open spec fn form_view(form: ArtifactForm) -> FormView {
    (
        crate::uploader::optional_text(form.filename),
        form.data@,
        crate::uploader::optional_text(form.artifact_type),
        crate::uploader::optional_text(form.artifact_format),
    )
}

/// The artifact in the parts of a form: of several parts with one name the last counts. `None` where a
/// part has no name or an unknown one.
pub open spec fn form_of(parts: Seq<PartView>) -> Option<FormView>
    decreases parts.len(),
{
    if parts.len() == 0 {
        Some((None, Seq::empty(), None, None))
    } else {
        let part = parts.last();
        match form_of(parts.drop_last()) {
            Some(form) => if part.0 == Some("file"@) {
                Some((part.1, part.2, form.2, form.3))
            } else if part.0 == Some("artifact_format"@) {
                Some((form.0, form.1, form.2, Some(part.3)))
            } else if part.0 == Some("artifact_type"@) {
                Some((form.0, form.1, Some(part.3), form.3))
            } else {
                None
            },
            None => None,
        }
    }
}

proof fn lemma_form_prefix(parts: Seq<PartView>, n: int)
    requires
        0 <= n <= parts.len(),
        form_of(parts.take(n)) is None,
    ensures
        form_of(parts) is None,
    decreases parts.len() - n,
{
    if n < parts.len() {
        assert(parts.take(n + 1).drop_last() =~= parts.take(n));
        lemma_form_prefix(parts, n + 1);
    } else {
        assert(parts.take(n) =~= parts);
    }
}

/// The artifact in the parts of a form; `None` where a part has no name or an unknown one.
pub fn collect_form(parts: Vec<FormPart>) -> (r: Option<ArtifactForm>)
    ensures
        match r {
            Some(form) => form_of(part_views(parts@)) == Some(form_view(form)),
            None => form_of(part_views(parts@)) is None,
        },
{
    let ghost all = part_views(parts@);
    let mut form = ArtifactForm {
        filename: None,
        data: Vec::new(),
        artifact_type: None,
        artifact_format: None,
    };
    let mut i: usize = 0;
    assert(form_view(form).1 =~= Seq::<u8>::empty());
    while i < parts.len()
        invariant
            i <= parts@.len(),
            all == part_views(parts@),
            form_of(all.take(i as int)) == Some(form_view(form)),
        decreases parts@.len() - i,
    {
        let part = &parts[i];
        proof {
            assert(all.take(i + 1).drop_last() =~= all.take(i as int));
            assert(all.take(i + 1).last() == all[i as int]);
        }
        let name = match &part.name {
            Some(name) => name.as_str(),
            None => {
                proof {
                    lemma_form_prefix(all, i + 1);
                }
                return None;
            },
        };
        if text::str_eq(name, "file") {
            form.filename = part.file_name.clone();
            form.data = vstd::slice::slice_to_vec(part.data.as_slice());
        } else if text::str_eq(name, "artifact_format") {
            form.artifact_format = Some(part.text.clone());
        } else if text::str_eq(name, "artifact_type") {
            form.artifact_type = Some(part.text.clone());
        } else {
            proof {
                lemma_form_prefix(all, i + 1);
            }
            return None;
        }
        i += 1;
    }
    assert(all.take(i as int) =~= all);
    Some(form)
}

/// The artifact in an uploaded form.
pub open spec fn uploaded_form(content_type: Seq<char>, body: Seq<u8>) -> Option<FormView> {
    match boundary_in(content_type) {
        Some(boundary) => match multipart_parts(body, boundary) {
            Some(parts) => form_of(parts),
            None => None,
        },
        None => None,
    }
}

/// Reads an uploaded form; `None` where it is malformed, or has parts that do not belong there.
pub fn read_form(content_type: &str, body: &[u8]) -> (r: Option<ArtifactForm>)
    ensures
        match r {
            Some(form) => uploaded_form(content_type@, body@) == Some(form_view(form)),
            None => uploaded_form(content_type@, body@) is None,
        },
{
    match parse_boundary(content_type) {
        Some(boundary) => match read_multipart(body, boundary.as_str()) {
            Some(parts) => collect_form(parts),
            None => None,
        },
        None => None,
    }
}

impl GitlabRunnerMock {
    /// Whether an upload or download for a job is refused, and how: without a token, for an unknown job or
    /// with the wrong token.
    pub open spec fn refusal(&self, jobs: Seq<MockJob>, id: u64, token: Option<Seq<char>>) -> Option<u16> {
        if token is None {
            Some(403)
        } else {
            match crate::mock::server::find_job(jobs, self.queue@, id) {
                None => Some(404),
                Some(i) => if token->0 != jobs[i].token@ {
                    Some(403)
                } else {
                    None
                },
            }
        }
    }

    /// Whether an upload or download for a job is refused, and how; the form of an upload need only be
    /// read where it is not.
    pub fn check_job_token(&self, all: &MockJobs, id: u64, token: Option<&str>) -> (r: Result<
        usize,
        u16,
    >)
        requires
            self.wf(*all),
        ensures
            match r {
                Ok(i) => {
                    &&& self.refusal(all@, id, header(token)) is None
                    &&& crate::mock::server::find_job(all@, self.queue@, id) == Some(i as int)
                    &&& i < all@.len()
                },
                Err(status) => self.refusal(all@, id, header(token)) == Some(status),
            },
    {
        let token = match token {
            Some(t) => t,
            None => return Err(403),
        };
        match self.get_job(all, id) {
            Some(i) => {
                if text::str_eq(token, all.list[i].token.as_str()) {
                    Ok(i)
                } else {
                    Err(403)
                }
            },
            None => Err(404),
        }
    }

    /// Answers an upload, which is noted with the job.
    pub fn respond_upload(
        &self,
        all: &mut MockJobs,
        id: u64,
        token: Option<&str>,
        form: ArtifactForm,
    ) -> (r: u16)
        requires
            self.wf(*old(all)),
        ensures
            crate::mock::server::progressed(old(all)@, final(all)@),
            self.wf(*final(all)),
            match self.refusal(old(all)@, id, header(token)) {
                Some(status) => r == status && final(all)@ == old(all)@,
                None => {
                    let jobs = old(all)@;
                    let i = crate::mock::server::find_job(jobs, self.queue@, id)->0;
                    let uploads = final(all)@[i].inner.uploads@;
                    &&& r == 201
                    &&& 0 <= i < jobs.len()
                    &&& final(all)@.len() == jobs.len()
                    &&& forall|j: int|
                        0 <= j < jobs.len() && j != i ==> final(all)@[j] == jobs[j]
                    &&& final(all)@[i] == (crate::mock::job::MockJob {
                        inner: crate::mock::job::MockJobInner {
                            uploads: final(all)@[i].inner.uploads,
                            ..jobs[i].inner
                        },
                        ..jobs[i]
                    })
                    &&& uploads.len() == jobs[i].inner.uploads@.len() + 1
                    &&& uploads.drop_last() == jobs[i].inner.uploads@
                    &&& uploads.last().filename == form.filename
                    &&& uploads.last().data@ == form.data@
                    &&& uploads.last().artifact_type == form.artifact_type
                    &&& uploads.last().artifact_format == form.artifact_format
                },
            },
    {
        match self.check_job_token(all, id, token) {
            Ok(i) => {
                all.list[i].add_artifact(
                    form.filename,
                    form.data,
                    form.artifact_type,
                    form.artifact_format,
                );
                201
            },
            Err(status) => status,
        }
    }

    /// Answers a download: with the first archive that was uploaded for the job.
    pub fn respond_download(&self, all: &MockJobs, id: u64, token: Option<&str>) -> (r: Result<
        std::sync::Arc<Vec<u8>>,
        u16,
    >)
        requires
            self.wf(*all),
        ensures
            match self.refusal(all@, id, header(token)) {
                Some(status) => r == Err::<std::sync::Arc<Vec<u8>>, u16>(status),
                None => {
                    let job = all@[crate::mock::server::find_job(all@, self.queue@, id)->0];
                    match job.spec_archive() {
                        Some(archive) => r matches Ok(data) && data@ == archive,
                        None => r == Err::<std::sync::Arc<Vec<u8>>, u16>(404),
                    }
                },
            },
    {
        match self.check_job_token(all, id, token) {
            Ok(i) => match all.list[i].archive() {
                Some(data) => Ok(data),
                None => Err(404),
            },
            Err(status) => Err(status),
        }
    }
}

// ---------------------------------------------------------------------------
// Laws
// ---------------------------------------------------------------------------

/// Only paths below `/api/v4/jobs/` are answered. There, a request for a job is a post; whatever else is asked of
/// that path is not answered.
pub proof fn law_other_paths_are_not_answered(method: Method, path: Seq<char>)
    ensures
        !text::has_prefix(path, "/api/v4/jobs/"@) ==> route_of(method, path) is None,
        route_of(method, path) == Some(Route::RequestJob) <==> method == Method::Post && path
            == "/api/v4/jobs/request"@,
        method != Method::Post ==> route_of(method, "/api/v4/jobs/request"@) is None,
{
    reveal_strlit("/api/v4/jobs/");
    reveal_strlit("/api/v4/jobs/request");
    let base = "/api/v4/jobs/"@;
    let whole = "/api/v4/jobs/request"@;
    assert(whole.take(13) =~= base);
    let rest = whole.skip(13);
    assert(rest[0] == 'r');
    assert(!text::is_digit(rest[0]));
}

/// What a path is about follows from the method and the part after the number: a job itself is updated, its log
/// is extended, and artifacts are uploaded and downloaded.
pub proof fn law_methods_tell_what_is_asked(method: Method, path: Seq<char>, id: u64)
    ensures
        route_of(method, path) == Some(Route::UpdateJob(id)) <==> method == Method::Put
            && after_job_number(path) == Some(Seq::<char>::empty()) && id_in_path(path, 0) == Some(id),
        route_of(method, path) == Some(Route::Trace(id)) <==> method == Method::Patch && (
        after_job_number(path) matches Some(rest) && text::has_prefix(rest, "/trace"@)) && id_in_path(
            path,
            1,
        ) == Some(id),
        route_of(method, path) == Some(Route::Upload(id)) <==> method == Method::Post && path
            != "/api/v4/jobs/request"@ && (after_job_number(path) matches Some(rest)
            && text::has_prefix(rest, "/artifacts"@)) && id_in_path(path, 1) == Some(id),
        route_of(method, path) == Some(Route::Download(id)) <==> method == Method::Get && (
        after_job_number(path) matches Some(rest) && text::has_prefix(rest, "/artifacts"@))
            && id_in_path(path, 1) == Some(id),
{
    if let Some(rest) = after_job_number(path) {
        if rest.len() == 0 {
            assert(rest =~= Seq::<char>::empty());
        }
    }
}

/// The id of a job stands between the last two slashes of a path, or behind the last one.
pub proof fn law_where_the_id_stands(start: Seq<char>, number: Seq<char>, end: Seq<char>)
    requires
        !number.contains('/'),
        !end.contains('/'),
    ensures
        id_in_path(seq!['/'] + start + seq!['/'] + number, 0) == text::parsed_u64(number),
        id_in_path(seq!['/'] + start + seq!['/'] + number + seq!['/'] + end, 1) == text::parsed_u64(
            number,
        ),
{
    let short = start.push('/') + number;
    let long = short.push('/') + end;
    let a = seq!['/'] + start + seq!['/'] + number;
    let b = a + seq!['/'] + end;
    assert(a.skip(1) =~= short);
    assert(b.skip(1) =~= long);
    crate::paths::lemma_split_last(start, number);
    crate::paths::lemma_split_last(short, end);
}

/// What follows the number of a job in a path is what follows its digits.
pub proof fn law_what_follows_the_number(digits: Seq<char>, rest: Seq<char>)
    requires
        digits.len() > 0,
        forall|i: int| 0 <= i < digits.len() ==> '0' <= #[trigger] digits[i] <= '9',
        rest.len() > 0 ==> !('0' <= rest[0] <= '9'),
    ensures
        after_job_number("/api/v4/jobs/"@ + digits + rest) == Some(rest),
{
    let base = "/api/v4/jobs/"@;
    let path = base + digits + rest;
    let tail = digits + rest;
    assert(path.take(base.len() as int) =~= base);
    assert(path.skip(base.len() as int) =~= tail);
    assert forall|i: int| 0 <= i < digits.len() implies text::is_digit(#[trigger] tail[i]) by {
        assert(tail[i] == digits[i]);
        text::lemma_digit(digits[i]);
    }
    if rest.len() > 0 {
        assert(tail[digits.len() as int] == rest[0]);
        text::lemma_digit(rest[0]);
    }
    lemma_leading_digits(tail, digits.len() as int);
    assert(tail.skip(digits.len() as int) =~= rest);
}

impl GitlabRunnerMock {
    /// A piece of log is taken exactly if it comes with the token of the job, the job runs, and the piece is the
    /// next one of its log. Else the status tells why not: without a token or with a wrong one and for a job
    /// that does not run 403, without a range 400, for an unknown job 404, and where the piece is not the next
    /// one 416. Only a job that is known to the sender is told of.
    pub proof fn law_log_is_taken(
        &self,
        jobs: Seq<MockJob>,
        id: u64,
        token: Option<Seq<char>>,
        range: Option<Seq<char>>,
        len: nat,
    )
        requires
            range matches Some(s) ==> text::parsed_range(s) is Some,
        ensures
            ({
                let r = self.trace_answer(jobs, id, token, range, len);
                let found = crate::mock::server::find_job(jobs, self.queue@, id);
                let job = jobs[found->0];
                let known = token is Some && range is Some && found is Some && token->0 == job.token@;
                let runs = known && job.inner.state == MockJobState::Running;
                let (start, end) = text::parsed_range(range->0)->0;
                let next = start == job.spec_log().len() && end + 1 == start + len;
                &&& r.status == 202 <==> runs && next
                &&& r.status == 416 <==> runs && !next
                &&& r.status == 400 <==> token is Some && range is None
                &&& r.status == 404 <==> token is Some && range is Some && found is None
                &&& r.status == 403 <==> token is None || (range is Some && found is Some && !runs)
                &&& r.job_status == (if known && r.status != 416 {
                    Some(job.inner.state)
                } else {
                    None
                })
                &&& r.update_interval == (if r.status == 202 {
                    Some(self.interval)
                } else {
                    None
                })
                &&& r.error is Some <==> r.status == 416
                &&& r.error == Some(LogError::IncorrectStart) <==> runs && start
                    != job.spec_log().len()
            }),
    {
    }

    /// An upload or a download is refused exactly without the token of the job: with 404 where the job is
    /// unknown, and else with 403.
    pub proof fn law_token_opens_artifacts(
        &self,
        jobs: Seq<MockJob>,
        id: u64,
        token: Option<Seq<char>>,
    )
        ensures
            ({
                let r = self.refusal(jobs, id, token);
                let found = crate::mock::server::find_job(jobs, self.queue@, id);
                &&& r is None <==> found is Some && token == Some(jobs[found->0].token@)
                &&& r == Some(404u16) <==> found is None && token is Some
                &&& r is Some ==> r == Some(404u16) || r == Some(403u16)
            }),
    {
    }

    /// What a runner is told of a dependency lets it download the artifact of that: the token is accepted, and
    /// the artifact has the size that was told.
    pub proof fn law_offered_artifact_can_be_downloaded(
        &self,
        jobs: Seq<MockJob>,
        offer: DependencyOffer,
        i: int,
    )
        requires
            is_offer_of(offer, jobs[i]),
            crate::mock::server::find_job(jobs, self.queue@, offer.id) == Some(i),
        ensures
            self.refusal(jobs, offer.id, Some(offer.token@)) is None,
            offer.artifacts_file matches Some(file) ==> jobs[i].spec_archive() is Some
                && jobs[i].spec_archive()->0.len() == file.size && file.size > 0,
            offer.artifacts_file is None ==> jobs[i].spec_archive() is None
                || jobs[i].spec_archive()->0.len() == 0,
            offer.id == jobs[i].id,
            offer.name@ == jobs[i].name@,
    {
    }
}

/// A form is refused exactly if a part of it has no name or one that is not expected.
pub proof fn law_forms_have_three_parts(parts: Seq<PartView>)
    ensures
        form_of(parts) is Some <==> forall|i: int|
            0 <= i < parts.len() ==> ((#[trigger] parts[i]).0 == Some("file"@) || parts[i].0 == Some(
                "artifact_format"@,
            ) || parts[i].0 == Some("artifact_type"@)),
    decreases parts.len(),
{
    if parts.len() > 0 {
        let before = parts.drop_last();
        law_forms_have_three_parts(before);
        assert(parts.last() == parts[parts.len() - 1]);
        if form_of(parts) is Some {
            assert forall|i: int| 0 <= i < parts.len() implies ((#[trigger] parts[i]).0 == Some(
                "file"@,
            ) || parts[i].0 == Some("artifact_format"@) || parts[i].0 == Some("artifact_type"@)) by {
                if i < before.len() {
                    assert(before[i] == parts[i]);
                }
            }
        } else if forall|i: int|
            0 <= i < parts.len() ==> ((#[trigger] parts[i]).0 == Some("file"@) || parts[i].0 == Some(
                "artifact_format"@,
            ) || parts[i].0 == Some("artifact_type"@)) {
            assert forall|i: int| 0 <= i < before.len() implies ((#[trigger] before[i]).0 == Some(
                "file"@,
            ) || before[i].0 == Some("artifact_format"@) || before[i].0 == Some("artifact_type"@)) by {
                assert(before[i] == parts[i]);
            }
        }
    }
}

/// The last part with a name tells what the form holds of it: the file with its name and data, the format, or
/// the type. A part that does not occur leaves its place empty, and each part leaves the others alone.
pub proof fn law_last_part_counts(before: Seq<PartView>, part: PartView)
    requires
        form_of(before) is Some,
    ensures
        form_of(Seq::empty()) matches Some((name, data, kind, format)) && name is None && data.len() == 0
            && kind is None && format is None,
        ({
            let was = form_of(before)->0;
            let now = form_of(before.push(part));
            &&& part.0 == Some("file"@) ==> now == Some((part.1, part.2, was.2, was.3))
            &&& part.0 == Some("artifact_type"@) ==> now == Some((was.0, was.1, Some(part.3), was.3))
            &&& part.0 == Some("artifact_format"@) ==> now == Some(
                (was.0, was.1, was.2, Some(part.3)),
            )
        }),
{
    reveal_strlit("file");
    reveal_strlit("artifact_type");
    reveal_strlit("artifact_format");
    assert(before.push(part).drop_last() =~= before);
    assert("file"@.len() == 4 && "artifact_type"@.len() == 13 && "artifact_format"@.len() == 15);
}

/// The form that is read is the one in the parts that the boundary of its content type divides it into; without a
/// boundary or with malformed parts there is none.
pub proof fn law_form_is_read_by_its_boundary(content_type: Seq<char>, body: Seq<u8>)
    ensures
        boundary_in(content_type) is None ==> uploaded_form(content_type, body) is None,
        boundary_in(content_type) matches Some(boundary) ==> {
            &&& multipart_parts(body, boundary) is None ==> uploaded_form(content_type, body) is None
            &&& multipart_parts(body, boundary) matches Some(parts) ==> uploaded_form(
                content_type,
                body,
            ) == form_of(parts)
        },
{
}

/// What is read of a form is known by its characters and bytes.
pub proof fn law_forms_are_seen(parts: Seq<FormPart>, form: ArtifactForm, value: &str, i: int)
    ensures
        header(Some(value)) == Some(value@),
        header(None) is None,
        part_views(parts).len() == parts.len(),
        0 <= i < parts.len() ==> {
            let (name, file_name, data, text) = part_views(parts)[i];
            &&& data == parts[i].data@
            &&& text == parts[i].text@
            &&& match parts[i].name {
                Some(s) => name == Some(s@),
                None => name is None,
            }
            &&& match parts[i].file_name {
                Some(s) => file_name == Some(s@),
                None => file_name is None,
            }
        },
        ({
            let (file_name, data, artifact_type, artifact_format) = form_view(form);
            &&& data == form.data@
            &&& match form.filename {
                Some(s) => file_name == Some(s@),
                None => file_name is None,
            }
            &&& match form.artifact_type {
                Some(s) => artifact_type == Some(s@),
                None => artifact_type is None,
            }
            &&& match form.artifact_format {
                Some(s) => artifact_format == Some(s@),
                None => artifact_format is None,
            }
        }),
{
}

/// What every runner is told of the sources of its job can be cloned: the commit has an id, and fifty commits are
/// asked for.
pub proof fn law_mock_sources_can_be_cloned(info: GitInfo)
    requires
        is_mock_git_info(info),
    ensures
        crate::git::is_object_id(info.sha@),
        info.repo_url@ == "https://bla/dummy.git"@,
        crate::git::planned_depth(Some(info.depth)) == Some(50u32),
        text::views(info.refspecs@)[0] == "+"@ + info.sha@ + ":refs/pipelines/120"@,
        text::views(info.refspecs@)[1] == crate::git::head_refspec("custom"@),
        info.refspecs@.len() == 2,
{
    let sha = "265c14cf140a66cfc61e40e4ab45c95ba8df5ed1"@;
    reveal_strlit("265c14cf140a66cfc61e40e4ab45c95ba8df5ed1");
    reveal_strlit("+265c14cf140a66cfc61e40e4ab45c95ba8df5ed1:refs/pipelines/120");
    reveal_strlit("+");
    reveal_strlit(":refs/pipelines/120");
    reveal_strlit("+refs/heads/custom:refs/remotes/origin/custom");
    reveal_strlit("+refs/heads/");
    reveal_strlit("custom");
    reveal_strlit(":refs/remotes/origin/");
    assert("+265c14cf140a66cfc61e40e4ab45c95ba8df5ed1:refs/pipelines/120"@ =~= "+"@ + sha
        + ":refs/pipelines/120"@);
    assert("+refs/heads/custom:refs/remotes/origin/custom"@ =~= "+refs/heads/"@ + "custom"@
        + ":refs/remotes/origin/"@ + "custom"@);
    assert(text::views(info.refspecs@).len() == info.refspecs@.len());
}

} // verus!
