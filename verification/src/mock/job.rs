//! The jobs of the server.
use crate::text;
use std::sync::Arc;
use vstd::prelude::*;

verus! {

// ---------------------------------------------------------------------------
// States
// ---------------------------------------------------------------------------

/// The state of a job.
#[derive(Copy, Clone, Debug, PartialEq, Eq, Structural)]
pub enum MockJobState {
    Pending,
    Running,
    Success,
    Failed,
    Cancelled,
}

impl MockJobState {
    /// Whether the job ran to its end.
    pub open spec fn spec_finished(self) -> bool {
        self == MockJobState::Success || self == MockJobState::Failed
    }

    /// Whether the job ran to its end.
    pub fn finished(self) -> (r: bool)
        ensures
            r == self.spec_finished(),
    {
        self == MockJobState::Success || self == MockJobState::Failed
    }

    /// The name that the API uses.
    ///
    /// The spelling mismatch of "cancelled" vs "canceled" is intentional: this crate, as well as
    /// tokio_util, already use "cancelled", so using it here keeps the spelling consistent, even if it's
    /// not *identical* to the exact GitLab job status.
    pub open spec fn spec_name(self) -> Seq<char> {
        match self {
            MockJobState::Pending => "pending"@,
            MockJobState::Running => "running"@,
            MockJobState::Success => "success"@,
            MockJobState::Failed => "failed"@,
            MockJobState::Cancelled => "canceled"@,
        }
    }

    /// The name that the API uses.
    pub fn to_string(&self) -> (r: String)
        ensures
            r@ == self.spec_name(),
    {
        match *self {
            MockJobState::Pending => "pending".to_owned(),
            MockJobState::Running => "running".to_owned(),
            MockJobState::Success => "success".to_owned(),
            MockJobState::Failed => "failed".to_owned(),
            MockJobState::Cancelled => "canceled".to_owned(),
        }
    }
}

/// Why a piece of log was refused.
#[derive(Debug, Clone, Copy, PartialEq, Eq, Structural)]
pub enum LogError {
    /// Incorrect range start
    IncorrectStart,
    /// Incorrect range end
    IncorrectEnd,
}

impl LogError {
    /// The message for a user.
    pub fn message(&self) -> (r: String)
        ensures
            r@ == (match *self {
                LogError::IncorrectStart => "Incorrect range start"@,
                LogError::IncorrectEnd => "Incorrect range end"@,
            }),
    {
        match *self {
            LogError::IncorrectStart => "Incorrect range start".to_owned(),
            LogError::IncorrectEnd => "Incorrect range end".to_owned(),
        }
    }

    /// The name of the error, as the reply shows it.
    pub fn name(&self) -> (r: String)
        ensures
            r@ == (match *self {
                LogError::IncorrectStart => "IncorrectStart"@,
                LogError::IncorrectEnd => "IncorrectEnd"@,
            }),
    {
        match *self {
            LogError::IncorrectStart => "IncorrectStart".to_owned(),
            LogError::IncorrectEnd => "IncorrectEnd".to_owned(),
        }
    }
}

// ---------------------------------------------------------------------------
// Jobs
// ---------------------------------------------------------------------------

/// An artifact that was uploaded for a job.
#[derive(Clone, Debug)]
pub struct UploadedArtifact {
    pub filename: Option<String>,
    pub data: Arc<Vec<u8>>,
    pub artifact_type: Option<String>,
    pub artifact_format: Option<String>,
}

/// What changes while a job runs.
#[derive(Debug)]
pub struct MockJobInner {
    pub state: MockJobState,
    pub state_updates: u32,
    pub uploads: Vec<UploadedArtifact>,
    /// The log, in the pieces in which it came.
    pub log: Vec<Vec<u8>>,
    pub log_patches: u32,
}

/// A variable of a job.
#[derive(Clone, Debug)]
pub struct MockJobVariable {
    pub key: String,
    pub value: String,
    pub public: bool,
    pub masked: bool,
}

/// When a step runs.
#[derive(Copy, Clone, Debug, Eq, PartialEq, Structural)]
pub enum MockJobStepWhen {
    Always,
    OnFailure,
    OnSuccess,
}

/// The steps that a job can have.
#[derive(Copy, Clone, Debug, Eq, PartialEq, Structural)]
pub enum MockJobStepName {
    Script,
    AfterScript,
}

/// A step of a job.
#[derive(Clone, Debug)]
pub struct MockJobStep {
    pub name: MockJobStepName,
    pub script: Vec<String>,
    pub timeout: u64,
    pub when: MockJobStepWhen,
    pub allow_failure: bool,
}

/// When an artifact is uploaded.
#[derive(Copy, Clone, Debug, Eq, PartialEq, Structural)]
pub enum MockJobArtifactWhen {
    Always,
    OnFailure,
    OnSuccess,
}

/// An artifact that a job is to upload.
#[derive(Clone, Debug)]
pub struct MockJobArtifact {
    pub name: Option<String>,
    pub untracked: bool,
    pub paths: Vec<String>,
    pub when: Option<MockJobArtifactWhen>,
    pub artifact_type: String,
    pub artifact_format: Option<String>,
    pub expire_in: Option<String>,
}

impl MockJobArtifact {
    /// What a runner is told of `untracked`.
    ///
    /// Missing values for 'untracked' should be treated as false, so a false one is left out.
    pub fn untracked_field(&self) -> (r: Option<bool>)
        ensures
            r == (if self.untracked {
                Some(true)
            } else {
                None::<bool>
            }),
    {
        if self.untracked {
            Some(true)
        } else {
            None
        }
    }
}

/// A job of a server. Other jobs are known by their positions among all jobs, so that each is the same for
/// whoever knows it.
#[derive(Debug)]
pub struct MockJob {
    pub name: String,
    pub id: u64,
    pub token: String,
    pub variables: Vec<MockJobVariable>,
    pub steps: Vec<MockJobStep>,
    pub dependencies: Vec<usize>,
    pub artifacts: Vec<MockJobArtifact>,
    pub token_prefixes: Vec<String>,
    pub inner: MockJobInner,
}

/// The pieces of a log, one after the other.
pub open spec fn joined(pieces: Seq<Vec<u8>>) -> Seq<u8>
    decreases pieces.len(),
{
    if pieces.len() == 0 {
        Seq::empty()
    } else {
        joined(pieces.drop_last()) + pieces.last()@
    }
}

/// The token of the job with the given id.
pub open spec fn token_of(id: u64) -> Seq<char> {
    "job-token-"@ + text::decimal(id as nat)
}

/// The position of the first archive among uploads.
pub open spec fn first_archive(uploads: Seq<UploadedArtifact>) -> Option<int>
    decreases uploads.len(),
{
    if uploads.len() == 0 {
        None
    } else {
        match first_archive(uploads.drop_last()) {
            Some(i) => Some(i),
            None => if is_archive(uploads.last()) {
                Some(uploads.len() - 1)
            } else {
                None
            },
        }
    }
}

/// Whether an upload is the archive of the job.
pub open spec fn is_archive(upload: UploadedArtifact) -> bool {
    upload.artifact_type matches Some(t) && t@ == "archive"@
}

/// The first archive that was uploaded is at the position that `first_archive` names.
pub proof fn lemma_first_archive(uploads: Seq<UploadedArtifact>)
    ensures
        match first_archive(uploads) {
            Some(i) => 0 <= i < uploads.len() && is_archive(uploads[i]) && forall|j: int|
                0 <= j < i ==> !is_archive(#[trigger] uploads[j]),
            None => forall|j: int| 0 <= j < uploads.len() ==> !is_archive(#[trigger] uploads[j]),
        },
    decreases uploads.len(),
{
    if uploads.len() > 0 {
        let rest = uploads.drop_last();
        lemma_first_archive(rest);
        assert forall|j: int| 0 <= j < rest.len() implies rest[j] == uploads[j] by {}
        match first_archive(rest) {
            Some(i) => {
                assert(rest[i] == uploads[i]);
                assert forall|j: int| 0 <= j < i implies !is_archive(#[trigger] uploads[j]) by {
                    assert(rest[j] == uploads[j]);
                }
            },
            None => {
                assert forall|j: int| 0 <= j < uploads.len() - 1 implies !is_archive(
                    #[trigger] uploads[j],
                ) by {
                    assert(rest[j] == uploads[j]);
                }
            },
        }
    }
}

impl MockJob {
    /// The whole log.
    pub open spec fn spec_log(&self) -> Seq<u8> {
        joined(self.inner.log@)
    }

    /// Each piece of the log was counted, and the log fits into memory.
    pub open spec fn wf(&self) -> bool {
        &&& self.inner.log_patches == self.inner.log@.len()
        &&& self.spec_log().len() <= usize::MAX
    }

    /// What a runner can download of this job.
    pub open spec fn spec_archive(&self) -> Option<Seq<u8>> {
        match first_archive(self.inner.uploads@) {
            Some(i) => Some(self.inner.uploads@[i].data@),
            None => None,
        }
    }

    /// A job with a single step.
    pub fn new(name: String, id: u64) -> (r: Self)
        ensures
            r.wf(),
            is_dummy_job(r, name@, id),
    {
        let mut builder = MockJobBuilder::new(name, id);
        let mut script: Vec<String> = Vec::new();
        script.push("dummy".to_owned());
        assert(text::views(script@) =~= seq!["dummy"@]);
        builder.add_step(
            MockJobStepName::Script,
            script,
            3600,
            MockJobStepWhen::OnSuccess,
            false,
        );
        builder.build()
    }

    /// A job that succeeded and left an artifact.
    pub fn new_completed(name: String, id: u64, artifact: Vec<u8>) -> (r: Self)
        ensures
            r.wf(),
            is_completed_job(r, name@, id, artifact@),
            r.spec_archive() == Some(artifact@),
    {
        let mut uploads: Vec<UploadedArtifact> = Vec::new();
        uploads.push(
            UploadedArtifact {
                filename: Some("artifacts.zip".to_owned()),
                data: Arc::new(artifact),
                artifact_type: Some("archive".to_owned()),
                artifact_format: Some("zip".to_owned()),
            },
        );
        assert(uploads@.drop_last() =~= Seq::<UploadedArtifact>::empty());
        assert(is_archive(uploads@.last()));
        assert(first_archive(uploads@.drop_last()) is None);
        let token_end = text::decimal_string(id);
        MockJob {
            name,
            id,
            token: "job-token-".to_owned().concat(token_end.as_str()),
            variables: Vec::new(),
            steps: Vec::new(),
            dependencies: Vec::new(),
            artifacts: Vec::new(),
            token_prefixes: Vec::new(),
            inner: MockJobInner {
                state: MockJobState::Success,
                state_updates: 2,
                uploads,
                log: Vec::new(),
                log_patches: 0,
            },
        }
    }

    /// The name of the job.
    pub fn name(&self) -> (r: &str)
        ensures
            r@ == self.name@,
    {
        self.name.as_str()
    }

    /// The id of the job.
    pub fn id(&self) -> (r: u64)
        ensures
            r == self.id,
    {
        self.id
    }

    /// The token of the job.
    pub fn token(&self) -> (r: &str)
        ensures
            r@ == self.token@,
    {
        self.token.as_str()
    }

    /// The positions of the jobs that have to run first.
    pub fn dependencies(&self) -> (r: &[usize])
        ensures
            r@ == self.dependencies@,
    {
        self.dependencies.as_slice()
    }

    /// The artifacts to upload.
    pub fn artifacts(&self) -> (r: &[MockJobArtifact])
        ensures
            r@ == self.artifacts@,
    {
        self.artifacts.as_slice()
    }

    /// The variables of the job.
    pub fn variables(&self) -> (r: &[MockJobVariable])
        ensures
            r@ == self.variables@,
    {
        self.variables.as_slice()
    }

    /// The prefixes of tokens that the log must not show.
    pub fn token_prefixes(&self) -> (r: &[String])
        ensures
            r@ == self.token_prefixes@,
    {
        self.token_prefixes.as_slice()
    }

    /// The steps of the job.
    pub fn steps(&self) -> (r: &[MockJobStep])
        ensures
            r@ == self.steps@,
    {
        self.steps.as_slice()
    }

    /// The state of the job.
    pub fn state(&self) -> (r: MockJobState)
        ensures
            r == self.inner.state,
    {
        self.inner.state
    }

    /// How often the state was set.
    pub fn state_updates(&self) -> (r: u32)
        ensures
            r == self.inner.state_updates,
    {
        self.inner.state_updates
    }

    /// Whether the job ran to its end.
    pub fn finished(&self) -> (r: bool)
        ensures
            r == self.inner.state.spec_finished(),
    {
        self.inner.state.finished()
    }

    /// The last piece of the log.
    pub fn log_last(&self) -> (r: Option<Vec<u8>>)
        ensures
            r is Some == (self.inner.log@.len() > 0),
            r matches Some(piece) ==> piece@ == self.inner.log@.last()@,
    {
        let n = self.inner.log.len();
        if n == 0 {
            None
        } else {
            Some(vstd::slice::slice_to_vec(self.inner.log[n - 1].as_slice()))
        }
    }

    /// The whole log.
    pub fn log(&self) -> (r: Vec<u8>)
        ensures
            r@ == self.spec_log(),
    {
        let mut r: Vec<u8> = Vec::new();
        let mut i: usize = 0;
        assert(self.inner.log@.take(0) =~= Seq::<Vec<u8>>::empty());
        while i < self.inner.log.len()
            invariant
                i <= self.inner.log@.len(),
                r@ == joined(self.inner.log@.take(i as int)),
            decreases self.inner.log@.len() - i,
        {
            let mut piece = vstd::slice::slice_to_vec(self.inner.log[i].as_slice());
            r.append(&mut piece);
            proof {
                let t = self.inner.log@.take(i + 1);
                assert(t.drop_last() =~= self.inner.log@.take(i as int));
                assert(t.last() == self.inner.log@[i as int]);
            }
            i += 1;
        }
        assert(self.inner.log@.take(i as int) =~= self.inner.log@);
        r
    }

    /// How many pieces the log came in.
    pub fn log_patches(&self) -> (r: u32)
        ensures
            r == self.inner.log_patches,
    {
        self.inner.log_patches
    }

    /// What was uploaded for the job.
    pub fn uploaded_artifacts(&self) -> (r: &[UploadedArtifact])
        ensures
            r@ == self.inner.uploads@,
    {
        self.inner.uploads.as_slice()
    }

    /// The archive of the job, if one was uploaded.
    pub fn archive(&self) -> (r: Option<Arc<Vec<u8>>>)
        ensures
            r is Some == self.spec_archive() is Some,
            r matches Some(data) ==> Some(data@) == self.spec_archive(),
    {
        let uploads = &self.inner.uploads;
        let mut i: usize = 0;
        proof {
            lemma_first_archive(uploads@);
        }
        while i < uploads.len()
            invariant
                uploads@ == self.inner.uploads@,
                i <= uploads@.len(),
                forall|j: int| 0 <= j < i ==> !is_archive(#[trigger] uploads@[j]),
                match first_archive(uploads@) {
                    Some(k) => 0 <= k < uploads@.len() && is_archive(uploads@[k]) && forall|j: int|
                        0 <= j < k ==> !is_archive(#[trigger] uploads@[j]),
                    None => forall|j: int|
                        0 <= j < uploads@.len() ==> !is_archive(#[trigger] uploads@[j]),
                },
            decreases uploads@.len() - i,
        {
            let found = match &uploads[i].artifact_type {
                Some(t) => text::str_eq(t.as_str(), "archive"),
                None => false,
            };
            if found {
                assert(is_archive(uploads@[i as int]));
                assert(first_archive(uploads@) == Some(i as int));
                return Some(uploads[i].data.clone());
            }
            assert(!is_archive(uploads@[i as int]));
            i += 1;
        }
        None
    }

    /// The archive of the job; nothing where none was uploaded.
    pub fn artifact(&self) -> (r: Arc<Vec<u8>>)
        ensures
            r@ == (match self.spec_archive() {
                Some(data) => data,
                None => Seq::<u8>::empty(),
            }),
    {
        match self.archive() {
            Some(data) => data,
            None => Arc::new(Vec::new()),
        }
    }

    /// Cancels the job, which must not have ended yet.
    pub fn cancel(&mut self)
        requires
            !old(self).inner.state.spec_finished(),
            old(self).inner.state_updates < u32::MAX,
        ensures
            *final(self) == with_state(*old(self), MockJobState::Cancelled),
            is_effect(*old(self), JobCall::Cancel, *final(self)),
    {
        self.inner.state_updates = self.inner.state_updates + 1;
        self.inner.state = MockJobState::Cancelled;
    }

    /// Sets the state.
    pub fn update_state(&mut self, state: MockJobState)
        requires
            old(self).inner.state_updates < u32::MAX,
        ensures
            *final(self) == with_state(*old(self), state),
            is_effect(*old(self), JobCall::SetState(state), *final(self)),
    {
        self.inner.state_updates = self.inner.state_updates + 1;
        self.inner.state = state;
    }

    /// Whether it can be told if a piece of log of this length fits: where it begins at the end of the log,
    /// its last byte has a position, and where it fits, one more piece can be counted.
    pub open spec fn can_append(&self, len: nat, start: nat, end: nat) -> bool {
        &&& self.wf()
        &&& self.spec_log().len() == start ==> 0 < start + len <= usize::MAX
        &&& log_outcome(self.spec_log().len(), len, start, end) is Ok ==> self.inner.log_patches
            < u32::MAX
    }

    /// Appends a piece of log that claims to be the bytes from `start` to `end`, both included.
    ///
    /// Fails where the piece does not begin where the log ends, or is not as long as it claims.
    pub fn append_log(&mut self, data: Vec<u8>, start: usize, end: usize) -> (r: Result<
        (),
        LogError,
    >)
        requires
            old(self).can_append(data@.len(), start as nat, end as nat),
        ensures
            final(self).wf(),
            r == log_outcome(old(self).spec_log().len(), data@.len(), start as nat, end as nat),
            is_effect(
                *old(self),
                JobCall::Append { data: data@, start: start as nat, end: end as nat },
                *final(self),
            ),
            r is Err ==> *final(self) == *old(self),
            r is Ok ==> {
                &&& final(self).inner.log@ == old(self).inner.log@.push(data)
                &&& final(self).spec_log() == old(self).spec_log() + data@
                &&& *final(self) == (MockJob {
                    inner: MockJobInner {
                        log: final(self).inner.log,
                        log_patches: (old(self).inner.log_patches + 1) as u32,
                        ..old(self).inner
                    },
                    ..*old(self)
                })
            },
    {
        let log = self.log();
        if log.len() != start {
            return Err(LogError::IncorrectStart);
        }
        if start + data.len() - 1 != end {
            return Err(LogError::IncorrectEnd);
        }
        self.inner.log.push(data);
        self.inner.log_patches = self.inner.log_patches + 1;
        assert(self.inner.log@.drop_last() =~= old(self).inner.log@);
        Ok(())
    }

    /// Notes an uploaded artifact.
    pub fn add_artifact(
        &mut self,
        filename: Option<String>,
        data: Vec<u8>,
        artifact_type: Option<String>,
        artifact_format: Option<String>,
    )
        ensures
            *final(self) == (MockJob {
                inner: MockJobInner { uploads: final(self).inner.uploads, ..old(self).inner },
                ..*old(self)
            }),
            final(self).inner.uploads@.len() == old(self).inner.uploads@.len() + 1,
            final(self).inner.uploads@.drop_last() == old(self).inner.uploads@,
            final(self).inner.uploads@.last().filename == filename,
            final(self).inner.uploads@.last().data@ == data@,
            final(self).inner.uploads@.last().artifact_type == artifact_type,
            final(self).inner.uploads@.last().artifact_format == artifact_format,
            is_effect(*old(self), JobCall::Upload, *final(self)),
    {
        self.inner.uploads.push(
            UploadedArtifact { filename, data: Arc::new(data), artifact_type, artifact_format },
        );
        assert(self.inner.uploads@.drop_last() =~= old(self).inner.uploads@);
    }
}

/// What comes of appending `len` bytes, claimed to be those from `start` to `end`, to a log of length
/// `log_len`.
pub open spec fn log_outcome(log_len: nat, len: nat, start: nat, end: nat) -> Result<(), LogError> {
    if log_len != start {
        Err(LogError::IncorrectStart)
    } else if start + len - 1 != end {
        Err(LogError::IncorrectEnd)
    } else {
        Ok(())
    }
}

/// The job in another state.
pub open spec fn with_state(job: MockJob, state: MockJobState) -> MockJob {
    MockJob {
        inner: MockJobInner {
            state,
            state_updates: (job.inner.state_updates + 1) as u32,
            ..job.inner
        },
        ..job
    }
}

/// Something that is done to a job.
pub enum JobCall {
    /// A piece of log is appended that claims to be the bytes from `start` to `end`, both included.
    Append { data: Seq<u8>, start: nat, end: nat },
    /// The state is set.
    SetState(MockJobState),
    /// The job is cancelled.
    Cancel,
    /// An artifact is uploaded.
    Upload,
}

/// Whether `after` is what the job `before` becomes; which artifact was uploaded is left open.
pub open spec fn is_effect(before: MockJob, call: JobCall, after: MockJob) -> bool {
    match call {
        JobCall::Append { data, start, end } => match log_outcome(
            before.spec_log().len(),
            data.len(),
            start,
            end,
        ) {
            Ok(_) => {
                &&& after.inner.log@.len() == before.inner.log@.len() + 1
                &&& after.inner.log@.drop_last() == before.inner.log@
                &&& after.inner.log@.last()@ == data
                &&& after.inner.log_patches == before.inner.log_patches + 1
                &&& after == (MockJob {
                    inner: MockJobInner {
                        log: after.inner.log,
                        log_patches: after.inner.log_patches,
                        ..before.inner
                    },
                    ..before
                })
            },
            Err(_) => after == before,
        },
        JobCall::SetState(state) => after == with_state(before, state),
        JobCall::Cancel => after == with_state(before, MockJobState::Cancelled),
        JobCall::Upload => after == (MockJob {
            inner: MockJobInner { uploads: after.inner.uploads, ..before.inner },
            ..before
        }),
    }
}

/// Whether `jobs` is what becomes of a job, step by step, by these calls.
pub open spec fn is_history(jobs: Seq<MockJob>, calls: Seq<JobCall>) -> bool {
    &&& jobs.len() == calls.len() + 1
    &&& forall|i: int|
        0 <= i < calls.len() ==> is_effect(jobs[i], #[trigger] calls[i], jobs[i + 1])
}

/// The data of the pieces that are accepted, one after the other, of a log that has `len` bytes before.
pub open spec fn accepted_data(len: nat, calls: Seq<JobCall>) -> Seq<u8>
    decreases calls.len(),
{
    if calls.len() == 0 {
        Seq::empty()
    } else {
        let before = accepted_data(len, calls.drop_last());
        match calls.last() {
            JobCall::Append { data, start, end } => if log_outcome(
                len + before.len(),
                data.len(),
                start,
                end,
            ) is Ok {
                before + data
            } else {
                before
            },
            _ => before,
        }
    }
}

/// How many pieces are accepted of a log that has `len` bytes before.
pub open spec fn accepted_pieces(len: nat, calls: Seq<JobCall>) -> nat
    decreases calls.len(),
{
    if calls.len() == 0 {
        0
    } else {
        let before = accepted_pieces(len, calls.drop_last());
        match calls.last() {
            JobCall::Append { data, start, end } => if log_outcome(
                len + accepted_data(len, calls.drop_last()).len(),
                data.len(),
                start,
                end,
            ) is Ok {
                before + 1
            } else {
                before
            },
            _ => before,
        }
    }
}

proof fn lemma_history_prefix(jobs: Seq<MockJob>, calls: Seq<JobCall>)
    requires
        is_history(jobs, calls),
        calls.len() > 0,
    ensures
        is_history(jobs.drop_last(), calls.drop_last()),
        is_effect(jobs.drop_last().last(), calls.last(), jobs.last()),
{
    let n = calls.len() - 1;
    assert(is_effect(jobs[n], calls[n], jobs[n + 1]));
    assert forall|i: int| 0 <= i < calls.drop_last().len() implies is_effect(
        jobs.drop_last()[i],
        #[trigger] calls.drop_last()[i],
        jobs.drop_last()[i + 1],
    ) by {
        assert(is_effect(jobs[i], calls[i], jobs[i + 1]));
    }
}

/// The log is what it was before, then the data of exactly the accepted pieces in the order of the calls.
/// Refused pieces, changes of the state and uploads leave it as it is.
pub proof fn law_log_is_accepted_data(jobs: Seq<MockJob>, calls: Seq<JobCall>)
    requires
        is_history(jobs, calls),
    ensures
        jobs.last().spec_log() == jobs[0].spec_log() + accepted_data(
            jobs[0].spec_log().len(),
            calls,
        ),
    decreases calls.len(),
{
    if calls.len() > 0 {
        lemma_history_prefix(jobs, calls);
        law_log_is_accepted_data(jobs.drop_last(), calls.drop_last());
    } else {
        assert(jobs[0].spec_log() + Seq::<u8>::empty() =~= jobs[0].spec_log());
    }
}

/// The log of a job that was built, after any series of calls, is the data of exactly the accepted pieces.
pub proof fn law_log_of_built_job(jobs: Seq<MockJob>, calls: Seq<JobCall>)
    requires
        is_history(jobs, calls),
        is_unstarted(jobs[0].inner),
    ensures
        jobs.last().spec_log() == accepted_data(0, calls),
        jobs.last().inner.log_patches == accepted_pieces(0, calls),
{
    law_log_is_accepted_data(jobs, calls);
    law_patches_are_counted(jobs, calls);
    assert(Seq::<u8>::empty() + accepted_data(0, calls) =~= accepted_data(0, calls));
}

/// Exactly the accepted pieces are counted, and none were accepted exactly where there is no last piece.
pub proof fn law_patches_are_counted(jobs: Seq<MockJob>, calls: Seq<JobCall>)
    requires
        is_history(jobs, calls),
        jobs[0].inner.log_patches == jobs[0].inner.log@.len(),
    ensures
        jobs.last().inner.log_patches == jobs[0].inner.log_patches + accepted_pieces(
            jobs[0].spec_log().len(),
            calls,
        ),
        jobs.last().inner.log_patches == jobs.last().inner.log@.len(),
        jobs.last().inner.log_patches == 0 <==> jobs.last().inner.log@.len() == 0,
    decreases calls.len(),
{
    if calls.len() > 0 {
        lemma_history_prefix(jobs, calls);
        law_patches_are_counted(jobs.drop_last(), calls.drop_last());
        law_log_is_accepted_data(jobs.drop_last(), calls.drop_last());
    }
}

/// How many calls set the state.
pub open spec fn state_calls(calls: Seq<JobCall>) -> nat
    decreases calls.len(),
{
    if calls.len() == 0 {
        0
    } else if calls.last() is SetState || calls.last() is Cancel {
        state_calls(calls.drop_last()) + 1
    } else {
        state_calls(calls.drop_last())
    }
}

/// Every call that sets the state or cancels the job is counted once, also where the state stays the same,
/// and no other call is.
pub proof fn law_state_updates_are_counted(jobs: Seq<MockJob>, calls: Seq<JobCall>)
    requires
        is_history(jobs, calls),
        jobs[0].inner.state_updates + state_calls(calls) <= u32::MAX,
    ensures
        jobs.last().inner.state_updates == jobs[0].inner.state_updates + state_calls(calls),
    decreases calls.len(),
{
    if calls.len() > 0 {
        lemma_history_prefix(jobs, calls);
        law_state_updates_are_counted(jobs.drop_last(), calls.drop_last());
    }
}

/// The updates of a job that was built are the calls that set its state. Those of a job that was added as
/// completed are two more.
pub proof fn law_state_updates_of_new_jobs(
    jobs: Seq<MockJob>,
    calls: Seq<JobCall>,
    name: Seq<char>,
    id: u64,
    artifact: Seq<u8>,
)
    requires
        is_history(jobs, calls),
        jobs[0].inner.state_updates + state_calls(calls) <= u32::MAX,
    ensures
        is_unstarted(jobs[0].inner) ==> jobs.last().inner.state_updates == state_calls(calls),
        is_completed_job(jobs[0], name, id, artifact) ==> jobs.last().inner.state_updates
            == state_calls(calls) + 2,
{
    law_state_updates_are_counted(jobs, calls);
}

/// The first upload that is an archive stays what a runner downloads, whatever is uploaded later.
pub proof fn law_first_archive_stays(uploads: Seq<UploadedArtifact>, later: UploadedArtifact)
    requires
        first_archive(uploads) is Some,
    ensures
        first_archive(uploads.push(later)) == first_archive(uploads),
{
    assert(uploads.push(later).drop_last() =~= uploads);
}

/// The first archive that is uploaded for a job is what a runner downloads.
pub proof fn law_upload_then_download(uploads: Seq<UploadedArtifact>, upload: UploadedArtifact)
    requires
        first_archive(uploads) is None,
        is_archive(upload),
    ensures
        first_archive(uploads.push(upload)) == Some(uploads.len() as int),
        uploads.push(upload)[uploads.len() as int] == upload,
{
    assert(uploads.push(upload).drop_last() =~= uploads);
}

// ---------------------------------------------------------------------------
// Building jobs
// ---------------------------------------------------------------------------

/// The variable with the given key.
pub open spec fn variable_named(list: Seq<MockJobVariable>, key: Seq<char>) -> Option<
    MockJobVariable,
>
    decreases list.len(),
{
    if list.len() == 0 {
        None
    } else if list.last().key@ == key {
        Some(list.last())
    } else {
        variable_named(list.drop_last(), key)
    }
}

/// Whether no key occurs twice.
pub open spec fn keys_differ(list: Seq<MockJobVariable>) -> bool {
    forall|i: int, j: int| 0 <= i < j < list.len() ==> list[i].key@ != list[j].key@
}

/// Whether a list holds the variables that every job has: its own id, for all to see.
pub open spec fn has_default_variables(list: Seq<MockJobVariable>, id: u64) -> bool {
    variable_named(list, "CI_JOB_ID"@) matches Some(v) && v.value@ == text::decimal(id as nat)
        && v.public && !v.masked
}

/// The variables that every job has.
pub fn default_job_variables(id: u64) -> (r: Vec<MockJobVariable>)
    ensures
        r@.len() == 1,
        keys_differ(r@),
        has_default_variables(r@, id),
{
    let mut r: Vec<MockJobVariable> = Vec::new();
    r.push(
        MockJobVariable {
            key: "CI_JOB_ID".to_owned(),
            value: text::decimal_string(id),
            public: true,
            masked: false,
        },
    );
    r
}

/// A job that was just built, and has not run.
pub open spec fn is_new_job(job: MockJob, name: Seq<char>, id: u64) -> bool {
    &&& job.name@ == name
    &&& job.id == id
    &&& job.token@ == token_of(id)
    &&& keys_differ(job.variables@)
    &&& has_default_variables(job.variables@, id)
    &&& is_unstarted(job.inner)
}

/// A job with a single step that was just built, and has not run.
pub open spec fn is_dummy_job(job: MockJob, name: Seq<char>, id: u64) -> bool {
    &&& is_new_job(job, name, id)
    &&& job.variables@.len() == 1
    &&& job.steps@.len() == 1
    &&& job.steps@[0].name == MockJobStepName::Script
    &&& text::views(job.steps@[0].script@) == seq!["dummy"@]
    &&& job.steps@[0].timeout == 3600
    &&& job.steps@[0].when == MockJobStepWhen::OnSuccess
    &&& !job.steps@[0].allow_failure
    &&& job.dependencies@.len() == 0
    &&& job.artifacts@.len() == 0
    &&& job.token_prefixes@.len() == 0
}

/// A job that succeeded and left an artifact, and of which nothing else is known.
pub open spec fn is_completed_job(job: MockJob, name: Seq<char>, id: u64, artifact: Seq<u8>) -> bool {
    &&& job.name@ == name
    &&& job.id == id
    &&& job.token@ == token_of(id)
    &&& job.variables@.len() == 0
    &&& job.steps@.len() == 0
    &&& job.dependencies@.len() == 0
    &&& job.artifacts@.len() == 0
    &&& job.token_prefixes@.len() == 0
    &&& job.inner.state == MockJobState::Success
    &&& job.inner.state_updates == 2
    &&& job.inner.log@.len() == 0
    &&& job.inner.log_patches == 0
    &&& job.inner.uploads@.len() == 1
    &&& job.inner.uploads@[0].data@ == artifact
    &&& job.inner.uploads@[0].filename matches Some(s) && s@ == "artifacts.zip"@
    &&& job.inner.uploads@[0].artifact_type matches Some(s) && s@ == "archive"@
    &&& job.inner.uploads@[0].artifact_format matches Some(s) && s@ == "zip"@
}

/// A job that has not run.
pub open spec fn is_unstarted(inner: MockJobInner) -> bool {
    &&& inner.state == MockJobState::Pending
    &&& inner.state_updates == 0
    &&& inner.uploads@.len() == 0
    &&& inner.log@.len() == 0
    &&& inner.log_patches == 0
}

/// Builder for a [`MockJob`].
#[derive(Debug)]
pub struct MockJobBuilder {
    pub name: String,
    pub id: u64,
    pub variables: Vec<MockJobVariable>,
    pub steps: Vec<MockJobStep>,
    pub dependencies: Vec<usize>,
    pub token_prefixes: Vec<String>,
    pub artifacts: Vec<MockJobArtifact>,
}

impl MockJobBuilder {
    /// No key occurs twice, and no step.
    pub open spec fn wf(&self) -> bool {
        &&& keys_differ(self.variables@)
        &&& forall|i: int, j: int|
            0 <= i < j < self.steps@.len() ==> self.steps@[i].name != self.steps@[j].name
    }

    /// Whether there is such a step.
    pub open spec fn has_step(&self, name: MockJobStepName) -> bool {
        exists|i: int| 0 <= i < self.steps@.len() && (#[trigger] self.steps@[i]).name == name
    }

    /// A job with the variables that every job has.
    pub fn new(name: String, id: u64) -> (r: Self)
        ensures
            r.wf(),
            r.name == name,
            r.id == id,
            r.variables@.len() == 1,
            has_default_variables(r.variables@, id),
            r.steps@.len() == 0,
            r.dependencies@.len() == 0,
            r.token_prefixes@.len() == 0,
            r.artifacts@.len() == 0,
    {
        MockJobBuilder {
            name,
            id,
            variables: default_job_variables(id),
            steps: Vec::new(),
            dependencies: Vec::new(),
            token_prefixes: Vec::new(),
            artifacts: Vec::new(),
        }
    }

    /// Adds a variable, in place of the one with the same key where there is one.
    pub fn add_variable(&mut self, key: String, value: String, public: bool, masked: bool)
        requires
            old(self).wf(),
        ensures
            final(self).wf(),
            *final(self) == (MockJobBuilder { variables: final(self).variables, ..*old(self) }),
            variable_named(final(self).variables@, key@) == Some(
                MockJobVariable { key, value, public, masked },
            ),
            forall|k: Seq<char>|
                k != key@ ==> #[trigger] variable_named(final(self).variables@, k)
                    == variable_named(old(self).variables@, k),
    {
        let ghost list = self.variables@;
        let total = self.variables.len();
        let mut i: usize = 0;
        while i < self.variables.len() && !text::str_eq(self.variables[i].key.as_str(), key.as_str())
            invariant
                self.variables@ == list,
                total == list.len(),
                i <= list.len(),
                forall|j: int| 0 <= j < i ==> (#[trigger] list[j]).key@ != key@,
            decreases list.len() - i,
        {
            i += 1;
        }
        let ghost v = MockJobVariable { key, value, public, masked };
        if i < total {
            self.variables.set(i, MockJobVariable { key, value, public, masked });
            proof {
                assert(self.variables@ =~= list.update(i as int, v));
                lemma_replaced_variable(list, i as int, v);
            }
        } else {
            self.variables.push(MockJobVariable { key, value, public, masked });
            proof {
                assert(self.variables@.drop_last() =~= list);
            }
        }
    }

    /// Adds a prefix of tokens that the log must not show.
    pub fn add_token_prefix(&mut self, prefix: String)
        ensures
            final(self).token_prefixes@ == old(self).token_prefixes@.push(prefix),
            *final(self) == (MockJobBuilder {
                token_prefixes: final(self).token_prefixes,
                ..*old(self)
            }),
    {
        self.token_prefixes.push(prefix);
    }

    /// Adds a step, which the job must not have yet.
    pub fn add_step(
        &mut self,
        name: MockJobStepName,
        script: Vec<String>,
        timeout: u64,
        when: MockJobStepWhen,
        allow_failure: bool,
    )
        requires
            old(self).wf(),
            !old(self).has_step(name),
        ensures
            final(self).wf(),
            final(self).steps@ == old(self).steps@.push(
                MockJobStep { name, script, timeout, when, allow_failure },
            ),
            *final(self) == (MockJobBuilder { steps: final(self).steps, ..*old(self) }),
    {
        self.steps.push(MockJobStep { name, script, timeout, when, allow_failure });
        proof {
            let steps = self.steps@;
            assert forall|i: int, j: int| 0 <= i < j < steps.len() implies steps[i].name
                != steps[j].name by {
                assert(steps[i] == old(self).steps@[i]);
            }
        }
    }

    /// Adds an artifact to upload.
    pub fn add_artifact(
        &mut self,
        name: Option<String>,
        untracked: bool,
        paths: Vec<String>,
        when: Option<MockJobArtifactWhen>,
        artifact_type: String,
        artifact_format: Option<String>,
        expire_in: Option<String>,
    )
        ensures
            final(self).artifacts@ == old(self).artifacts@.push(
                MockJobArtifact {
                    name,
                    untracked,
                    paths,
                    when,
                    artifact_type,
                    artifact_format,
                    expire_in,
                },
            ),
            *final(self) == (MockJobBuilder { artifacts: final(self).artifacts, ..*old(self) }),
    {
        self.artifacts.push(
            MockJobArtifact {
                name,
                untracked,
                paths,
                when,
                artifact_type,
                artifact_format,
                expire_in,
            },
        );
    }

    /// Adds a zip archive of the given paths as an artifact to upload.
    pub fn add_artifact_paths(&mut self, paths: Vec<String>)
        ensures
            *final(self) == (MockJobBuilder { artifacts: final(self).artifacts, ..*old(self) }),
            final(self).artifacts@.len() == old(self).artifacts@.len() + 1,
            final(self).artifacts@.drop_last() == old(self).artifacts@,
            ({
                let a = final(self).artifacts@.last();
                &&& a.name is None
                &&& !a.untracked
                &&& a.paths == paths
                &&& a.when is None
                &&& a.artifact_type@ == "archive"@
                &&& a.artifact_format matches Some(f) && f@ == "zip"@
                &&& a.expire_in is None
            }),
    {
        self.add_artifact(
            None,
            false,
            paths,
            None,
            "archive".to_owned(),
            Some("zip".to_owned()),
            None,
        );
        assert(self.artifacts@.drop_last() =~= old(self).artifacts@);
    }

    /// Lets the job wait for the one at the given position.
    pub fn dependency(&mut self, dependency: usize)
        ensures
            final(self).dependencies@ == old(self).dependencies@.push(dependency),
            *final(self) == (MockJobBuilder { dependencies: final(self).dependencies, ..*old(self)
            }),
    {
        self.dependencies.push(dependency);
    }

    /// The job, which needs at least one step.
    pub fn build(self) -> (r: MockJob)
        requires
            self.steps@.len() > 0,
        ensures
            r.wf(),
            r.name == self.name,
            r.id == self.id,
            r.token@ == token_of(self.id),
            r.steps == self.steps,
            r.variables == self.variables,
            r.dependencies == self.dependencies,
            r.artifacts == self.artifacts,
            r.token_prefixes == self.token_prefixes,
            is_unstarted(r.inner),
    {
        let token_end = text::decimal_string(self.id);
        MockJob {
            name: self.name,
            id: self.id,
            token: "job-token-".to_owned().concat(token_end.as_str()),
            steps: self.steps,
            variables: self.variables,
            dependencies: self.dependencies,
            artifacts: self.artifacts,
            token_prefixes: self.token_prefixes,
            inner: MockJobInner {
                state: MockJobState::Pending,
                state_updates: 0,
                uploads: Vec::new(),
                log: Vec::new(),
                log_patches: 0,
            },
        }
    }
}

proof fn lemma_replaced_variable(list: Seq<MockJobVariable>, i: int, v: MockJobVariable)
    requires
        keys_differ(list),
        0 <= i < list.len(),
        list[i].key@ == v.key@,
    ensures
        keys_differ(list.update(i, v)),
        variable_named(list.update(i, v), v.key@) == Some(v),
        forall|k: Seq<char>|
            k != v.key@ ==> #[trigger] variable_named(list.update(i, v), k) == variable_named(
                list,
                k,
            ),
    decreases list.len(),
{
    let n = list.len() - 1;
    let new = list.update(i, v);
    assert forall|a: int, b: int| 0 <= a < b < new.len() implies new[a].key@ != new[b].key@ by {
        assert(list[a].key@ != list[b].key@);
    }
    if i == n {
        assert(new.drop_last() =~= list.drop_last());
    } else {
        assert(new.drop_last() =~= list.drop_last().update(i, v));
        assert(new.last() == list.last());
        assert(list[i].key@ != list[n].key@);
        lemma_replaced_variable(list.drop_last(), i, v);
    }
    assert forall|k: Seq<char>| k != v.key@ implies #[trigger] variable_named(new, k)
        == variable_named(list, k) by {
        if i < n {
            assert(variable_named(list.drop_last().update(i, v), k) == variable_named(
                list.drop_last(),
                k,
            ));
        }
    }
}

// ---------------------------------------------------------------------------
// Laws of single steps
// ---------------------------------------------------------------------------

/// A job has run to its end exactly if it succeeded or failed; one that was cancelled has not.
pub proof fn law_ended_jobs()
    ensures
        MockJobState::Success.spec_finished(),
        MockJobState::Failed.spec_finished(),
        !MockJobState::Pending.spec_finished(),
        !MockJobState::Running.spec_finished(),
        !MockJobState::Cancelled.spec_finished(),
{
}

/// A piece of log is taken exactly if it begins where the log ends and is as long as it claims to be; where
/// both are wrong, the beginning is blamed.
pub proof fn law_log_pieces_must_fit(log_len: nat, len: nat, start: nat, end: nat)
    ensures
        log_outcome(log_len, len, start, end) is Ok <==> start == log_len && end + 1 == log_len + len,
        log_outcome(log_len, len, start, end) == Err::<(), _>(LogError::IncorrectStart) <==> start
            != log_len,
{
}

/// Setting the state changes the state and counts that, and nothing else.
pub proof fn law_state_is_set(job: MockJob, state: MockJobState)
    requires
        job.inner.state_updates < u32::MAX,
    ensures
        ({
            let after = with_state(job, state);
            &&& after.inner.state == state
            &&& after.inner.state_updates == job.inner.state_updates + 1
            &&& after.inner.uploads == job.inner.uploads
            &&& after.inner.log == job.inner.log
            &&& after.inner.log_patches == job.inner.log_patches
            &&& after.name == job.name
            &&& after.id == job.id
            &&& after.token == job.token
            &&& after.variables == job.variables
            &&& after.steps == job.steps
            &&& after.dependencies == job.dependencies
            &&& after.artifacts == job.artifacts
            &&& after.token_prefixes == job.token_prefixes
        }),
{
}

/// The log is its pieces in order.
pub proof fn law_pieces_make_the_log(a: Seq<Vec<u8>>, b: Seq<Vec<u8>>, piece: Vec<u8>)
    ensures
        joined(a + b) == joined(a) + joined(b),
        joined(seq![piece]) == piece@,
    decreases b.len(),
{
    let one = seq![piece];
    assert(one.drop_last() =~= Seq::<Vec<u8>>::empty());
    reveal_with_fuel(joined, 2);
    assert(Seq::<u8>::empty() + piece@ =~= piece@);
    if b.len() == 0 {
        assert(a + b =~= a);
        assert(joined(a) + Seq::<u8>::empty() =~= joined(a));
    } else {
        law_pieces_make_the_log(a, b.drop_last(), piece);
        assert((a + b).drop_last() =~= a + b.drop_last());
        assert((a + b).last() == b.last());
        assert((joined(a) + joined(b.drop_last())) + b.last()@ =~= joined(a) + (joined(b.drop_last())
            + b.last()@));
    }
}

/// What is downloaded of a job is the first upload of the type `archive`; an upload of any other type, or of
/// none, is not downloaded.
pub proof fn law_first_archive_is_downloaded(job: MockJob, i: int)
    requires
        -1 <= i < job.inner.uploads@.len(),
        i >= 0 ==> (job.inner.uploads@[i].artifact_type matches Some(t) && t@ == "archive"@),
        forall|j: int|
            0 <= j < (if i >= 0 {
                i
            } else {
                job.inner.uploads@.len() as int
            }) ==> !((#[trigger] job.inner.uploads@[j]).artifact_type matches Some(t) && t@
                == "archive"@),
    ensures
        job.spec_archive() == (if i >= 0 {
            Some(job.inner.uploads@[i].data@)
        } else {
            None
        }),
{
    lemma_first_archive(job.inner.uploads@);
    if let Some(k) = first_archive(job.inner.uploads@) {
        assert(is_archive(job.inner.uploads@[k]));
    }
    if i >= 0 {
        assert(is_archive(job.inner.uploads@[i]));
    }
}

/// The tokens of two jobs differ.
pub proof fn law_tokens_differ(id: u64, other: u64)
    requires
        token_of(id) == token_of(other),
    ensures
        id == other,
{
    let start = "job-token-"@;
    let a = text::decimal(id as nat);
    let b = text::decimal(other as nat);
    assert((start + a).skip(start.len() as int) =~= a);
    assert((start + b).skip(start.len() as int) =~= b);
    text::law_decimal_round_trip(id);
    text::law_decimal_round_trip(other);
}

/// Of several variables with one key, the last one counts; a key that no variable has finds none.
pub proof fn law_last_variable_counts(list: Seq<MockJobVariable>, key: Seq<char>, i: int)
    requires
        -1 <= i < list.len(),
        i >= 0 ==> list[i].key@ == key,
        forall|j: int| i < j < list.len() ==> (#[trigger] list[j]).key@ != key,
    ensures
        variable_named(list, key) == (if i >= 0 {
            Some(list[i])
        } else {
            None
        }),
    decreases list.len(),
{
    if i < list.len() - 1 {
        let before = list.drop_last();
        assert(list.last() == list[list.len() - 1]);
        assert forall|j: int| i < j < before.len() implies (#[trigger] before[j]).key@ != key by {
            assert(before[j] == list[j]);
        }
        law_last_variable_counts(before, key, i);
        if i >= 0 {
            assert(before[i] == list[i]);
        }
    }
}

/// A job that was built waits, and nothing was done with it: it has no log, and nothing can be downloaded of it.
pub proof fn law_built_jobs_are_untouched(job: MockJob)
    requires
        is_unstarted(job.inner),
    ensures
        job.inner.state == MockJobState::Pending,
        job.inner.state_updates == 0,
        job.inner.log_patches == 0,
        job.spec_log().len() == 0,
        job.spec_archive() is None,
        job.inner.uploads@.len() == 0,
{
    law_first_archive_is_downloaded(job, -1);
}

/// A job finds its own id in its variables, for all to see.
pub proof fn law_job_knows_its_id(list: Seq<MockJobVariable>, id: u64)
    requires
        has_default_variables(list, id),
    ensures
        variable_named(list, "CI_JOB_ID"@) matches Some(v) && text::parsed_u64(v.value@) == Some(id)
            && v.public && !v.masked,
{
    text::law_decimal_round_trip(id);
}

} // verus!
