//! This module describes a single gitlab job
use crate::client::{
    ApiRequest, Client, Error, JobDependency, JobResponse, JobVariable, Method,
};
use crate::git::{ClonePlan, GitCheckoutError, GitStrategy};
use crate::masking::Masker;
use crate::paths;
use crate::text;
use std::collections::HashMap;
use std::sync::Arc;
use vstd::prelude::*;
use vstd::utf8::*;

verus! {

broadcast use vstd::std_specs::hash::group_hash_axioms;

// ---------------------------------------------------------------------------
// Variables
// ---------------------------------------------------------------------------

/// Gitlab job environment variable
///
/// To get the underlying value [`Variable::value`] should be used, however this should not be
/// directly displayed in the log. For displaying to the user [`Variable::display`] should be used,
/// as that shows the value taking the masked status into account.
pub struct Variable<'a> {
    v: &'a JobVariable,
}

impl<'a> View for Variable<'a> {
    type V = JobVariable;

    closed spec fn view(&self) -> JobVariable {
        *self.v
    }
}

/// What a user may see of a variable.
pub open spec fn shown_value(v: JobVariable) -> Seq<char> {
    if v.masked {
        "<MASKED>"@
    } else {
        v.value@
    }
}

impl<'a> Variable<'a> {
    /// Get the key of the variable
    pub fn key(&self) -> (r: &'a str)
        ensures
            r@ == self@.key@,
    {
        self.v.key.as_str()
    }

    /// Get the value of the variable
    pub fn value(&self) -> (r: &'a str)
        ensures
            r@ == self@.value@,
    {
        self.v.value.as_str()
    }

    /// Whether or not the variable is masked
    pub fn masked(&self) -> (r: bool)
        ensures
            r == self@.masked,
    {
        self.v.masked
    }

    /// Whether or not the variable is public
    pub fn public(&self) -> (r: bool)
        ensures
            r == self@.public,
    {
        self.v.public
    }

    /// The text to show to a user: the value, or a mark where the variable is masked.
    pub fn display(&self) -> (r: String)
        ensures
            r@ == shown_value(self@),
    {
        if self.v.masked {
            "<MASKED>".to_owned()
        } else {
            self.v.value.clone()
        }
    }
}

/// What is shown of a masked variable does not depend on its value.
pub proof fn law_masked_variable_hides_value(v: JobVariable, value: String)
    requires
        v.masked,
    ensures
        shown_value(v) == shown_value(JobVariable { value, ..v }),
{
}

// ---------------------------------------------------------------------------
// The log of a job
// ---------------------------------------------------------------------------

#[verifier::external_type_specification]
#[verifier::external_body]
pub struct ExBytesMut(bytes::BytesMut);

/// The bytes that a `bytes::BytesMut` holds.
pub uninterp spec fn buffered(buffer: bytes::BytesMut) -> Seq<u8>;

/// `BytesMut::new` makes an empty buffer.
#[verifier::external_body]
fn buffer_new() -> (r: bytes::BytesMut)
    ensures
        buffered(r) == Seq::<u8>::empty(),
{
    bytes::BytesMut::new()
}

/// `BytesMut::extend_from_slice` appends the bytes of the slice.
#[verifier::external_body]
fn buffer_extend(buffer: &mut bytes::BytesMut, data: &[u8])
    ensures
        buffered(*final(buffer)) == buffered(*old(buffer)) + data@,
{
    buffer.extend_from_slice(data)
}

/// `BytesMut::is_empty` tells whether the buffer holds no bytes.
#[verifier::external_body]
fn buffer_is_empty(buffer: &bytes::BytesMut) -> (r: bool)
    ensures
        r == (buffered(*buffer).len() == 0),
{
    buffer.is_empty()
}

/// `BytesMut::split` moves all bytes out and leaves the buffer empty; `BytesMut::freeze` keeps them.
#[verifier::external_body]
fn buffer_split(buffer: &mut bytes::BytesMut) -> (r: Vec<u8>)
    ensures
        r@ == buffered(*old(buffer)),
        buffered(*final(buffer)) == Seq::<u8>::empty(),
{
    buffer.split().freeze().to_vec()
}

/// The part of a job's log that has not been sent yet.
pub struct JobLog {
    trace: bytes::BytesMut,
    masker: Masker,
}

impl JobLog {
    /// The bytes that wait to be sent.
    pub closed spec fn pending(&self) -> Seq<u8> {
        buffered(self.trace)
    }

    /// The token prefixes that are looked for.
    pub closed spec fn prefixes(&self) -> Seq<Seq<u8>> {
        self.masker.prefixes()
    }

    /// What the log remembers in order to mask a token that is written in pieces.
    pub closed spec fn mask_state(&self) -> crate::masking::MaskState {
        self.masker.state()
    }

    /// The internal consistency of the masker.
    pub closed spec fn wf(&self) -> bool {
        self.masker.wf()
    }

    /// An empty log without masking.
    pub fn new() -> (r: Self)
        ensures
            r.wf(),
            r.pending() == Seq::<u8>::empty(),
            r.prefixes() == Seq::<Seq<u8>>::empty(),
            r.mask_state() == crate::masking::mask_start(),
    {
        let none: Vec<String> = Vec::new();
        assert(text::views(none@) =~= Seq::<Seq<char>>::empty());
        JobLog::with_token_prefixes(&none)
    }

    /// An empty log that masks the tokens with the given prefixes.
    pub fn with_token_prefixes(prefixes: &Vec<String>) -> (r: Self)
        ensures
            r.wf(),
            r.pending() == Seq::<u8>::empty(),
            r.prefixes() == crate::masking::token_prefixes(text::views(prefixes@)),
            r.mask_state() == crate::masking::mask_start(),
    {
        JobLog { trace: buffer_new(), masker: Masker::new(prefixes) }
    }

    /// Appends data to the log, with the tokens in it masked.
    pub fn trace(&mut self, data: &[u8])
        requires
            old(self).wf(),
        ensures
            final(self).wf(),
            final(self).prefixes() == old(self).prefixes(),
            final(self).pending() == old(self).pending() + crate::masking::mask_output(
                old(self).prefixes(),
                old(self).mask_state(),
                data@,
            ),
            final(self).mask_state() == crate::masking::mask_after(
                old(self).prefixes(),
                old(self).mask_state(),
                data@,
            ),
    {
        let masked = self.masker.mask(data);
        buffer_extend(&mut self.trace, masked.as_slice());
    }

    /// Takes all that waits to be sent; `None` where nothing waits.
    pub fn split_trace(&mut self) -> (r: Option<Vec<u8>>)
        requires
            old(self).wf(),
        ensures
            final(self).wf(),
            final(self).prefixes() == old(self).prefixes(),
            final(self).mask_state() == old(self).mask_state(),
            final(self).pending() == Seq::<u8>::empty(),
            r is None == (old(self).pending().len() == 0),
            r matches Some(buf) ==> buf@ == old(self).pending(),
    {
        if buffer_is_empty(&self.trace) {
            assert(buffered(self.trace) =~= Seq::<u8>::empty());
            None
        } else {
            Some(buffer_split(&mut self.trace))
        }
    }
}

/// Without token prefixes the log holds exactly what was written to it.
pub proof fn law_plain_log(st: crate::masking::MaskState, data: Seq<u8>)
    requires
        !st.in_token,
    ensures
        crate::masking::mask_output(Seq::empty(), st, data) == data,
        !crate::masking::mask_after(Seq::empty(), st, data).in_token,
    decreases data.len(),
{
    if data.len() > 0 {
        law_plain_log(st, data.drop_last());
        assert(data.drop_last() + seq![data.last()] =~= data);
    }
}

// ---------------------------------------------------------------------------
// Downloaded artifacts
// ---------------------------------------------------------------------------

/// Shared bytes.
#[derive(Debug)]
pub struct ArcU8(Arc<Vec<u8>>);

impl ArcU8 {
    /// The bytes.
    pub closed spec fn bytes(&self) -> Seq<u8> {
        self.0@
    }

    /// Shares the given bytes.
    pub fn new(data: Vec<u8>) -> (r: Self)
        ensures
            r.bytes() == data@,
    {
        ArcU8(Arc::new(data))
    }

    /// The bytes.
    pub fn as_slice(&self) -> (r: &[u8])
        ensures
            r@ == self.bytes(),
    {
        self.0.as_slice()
    }

    /// Another owner of the same bytes.
    pub fn share(&self) -> (r: Self)
        ensures
            r == *self,
    {
        ArcU8(self.0.clone())
    }
}

/// Where the artifact of a dependency was stored.
#[derive(Debug)]
pub enum CacheData {
    MemoryBacked(ArcU8),
    FileBacked(String),
}

/// The artifacts that were downloaded, by job id.
#[derive(Debug)]
pub struct ArtifactCache {
    data: HashMap<u64, CacheData>,
}

impl View for ArtifactCache {
    type V = Map<u64, CacheData>;

    closed spec fn view(&self) -> Map<u64, CacheData> {
        self.data@
    }
}

impl ArtifactCache {
    /// An empty cache.
    pub fn new() -> (r: Self)
        ensures
            r@ == Map::<u64, CacheData>::empty(),
    {
        ArtifactCache { data: HashMap::new() }
    }

    /// Notes that the artifact of job `id` was stored in a file.
    pub fn insert_file(&mut self, id: u64, path: String)
        ensures
            final(self)@ == old(self)@.insert(id, CacheData::FileBacked(path)),
    {
        self.data.insert(id, CacheData::FileBacked(path));
    }

    /// Keeps the artifact of job `id` in memory.
    pub fn insert_data(&mut self, id: u64, data: Vec<u8>)
        ensures
            exists|shared: ArcU8| #[trigger]
                shared.bytes() == data@ && final(self)@ == old(self)@.insert(
                    id,
                    CacheData::MemoryBacked(shared),
                ),
    {
        let shared = ArcU8::new(data);
        assert(shared.bytes() == data@);
        self.data.insert(id, CacheData::MemoryBacked(shared));
    }

    /// Where the artifact of job `id` is, if it was downloaded.
    pub fn lookup(&self, id: u64) -> (r: Option<CacheData>)
        ensures
            r is Some == self@.contains_key(id),
            r matches Some(data) ==> data == self@[id],
    {
        match self.data.get(&id) {
            Some(CacheData::MemoryBacked(m)) => Some(CacheData::MemoryBacked(m.share())),
            Some(CacheData::FileBacked(p)) => Some(CacheData::FileBacked(p.clone())),
            None => None,
        }
    }
}

// ---------------------------------------------------------------------------
// Repeating a download
// ---------------------------------------------------------------------------

/// Whether it makes sense to try again after this error.
pub open spec fn retriable(err: Error) -> bool {
    match err {
        Error::Request(_) => true,
        Error::UnexpectedStatus(code) => crate::client::is_server_error(code),
        _ => false,
    }
}

/// Whether it makes sense to try again after this error: where the request failed, or where the server
/// says that it is at fault.
pub fn is_retriable_error(err: &Error) -> (r: bool)
    ensures
        r == retriable(*err),
{
    match err {
        Error::Request(_) => true,
        Error::UnexpectedStatus(code) => 500 <= *code && *code <= 599,
        _ => false,
    }
}

/// The smaller of a number and the largest 64-bit number.
pub open spec fn saturated(n: int) -> u64 {
    if n > u64::MAX {
        u64::MAX
    } else {
        n as u64
    }
}

/// Delay number `i` of a Fibonacci series that starts with `base` twice.
pub open spec fn fibonacci_delay(base: u64, i: nat) -> u64
    decreases i,
{
    if i < 2 {
        base
    } else {
        saturated(
            fibonacci_delay(base, (i - 1) as nat) + fibonacci_delay(base, (i - 2) as nat),
        )
    }
}

/// The first `count` delays, in milliseconds, of `FibonacciBackoff::from_millis`: the base twice, then
/// always the sum of the two before, which stops growing at the largest 64-bit number.
#[verifier::external_body]
fn fibonacci_delays(base: u64, count: usize) -> (r: Vec<u64>)
    ensures
        r@ == Seq::new(count as nat, |i: int| fibonacci_delay(base, i as nat)),
{
    let series = tokio_retry2::strategy::FibonacciBackoff::from_millis(base);
    series.take(count).map(|delay| delay.as_millis() as u64).collect()
}

/// `tokio_retry2::strategy::jitter` multiplies a delay with a random number from one half to one and a
/// half. The result is in nanoseconds, to which it is rounded; more cannot be said of a random number.
#[verifier::external_body]
fn jitter(millis: u64) -> (r: u64)
    requires
        millis <= 1_000_000,
    ensures
        millis * 500_000 - 1 <= r <= millis * 1_500_000 + 1,
{
    tokio_retry2::strategy::jitter(std::time::Duration::from_millis(millis)).as_nanos() as u64
}

/// The delay, in milliseconds, before the first repetition.
pub const RETRY_BASE: u64 = 900;

/// How often a download is repeated at most.
pub const RETRY_COUNT: usize = 4;

/// The delay in milliseconds after attempt number `attempt`, counted from zero; `None` where there is no
/// further attempt.
pub open spec fn retry_delay(attempt: nat, outcome: Result<(), Error>) -> Option<u64> {
    match outcome {
        Err(e) => if retriable(e) && attempt < RETRY_COUNT {
            Some(fibonacci_delay(RETRY_BASE, attempt))
        } else {
            None
        },
        Ok(()) => None,
    }
}

/// The attempts of one download.
#[derive(Debug)]
pub struct DownloadRetry {
    delays: Vec<u64>,
    attempt: usize,
}

impl DownloadRetry {
    /// The number of attempts so far, as far as it matters.
    pub closed spec fn attempts(&self) -> nat {
        self.attempt as nat
    }

    /// The delays are those of the series.
    pub closed spec fn wf(&self) -> bool {
        &&& self.attempt <= RETRY_COUNT
        &&& self.delays@ == Seq::new(
            RETRY_COUNT as nat,
            |i: int| fibonacci_delay(RETRY_BASE, i as nat),
        )
    }

    /// Before the first attempt.
    pub fn new() -> (r: Self)
        ensures
            r.wf(),
            r.attempts() == 0,
    {
        DownloadRetry { delays: fibonacci_delays(RETRY_BASE, RETRY_COUNT), attempt: 0 }
    }

    /// The delay in milliseconds, before it is varied, after an attempt with the given outcome; `None`
    /// where that outcome is final.
    pub fn delay_after(&mut self, outcome: &Result<(), Error>) -> (r: Option<u64>)
        requires
            old(self).wf(),
        ensures
            final(self).wf(),
            r == retry_delay(old(self).attempts(), *outcome),
            final(self).attempts() == (if old(self).attempts() < RETRY_COUNT {
                old(self).attempts() + 1
            } else {
                old(self).attempts()
            }),
    {
        let next = if self.attempt < RETRY_COUNT {
            let d = self.delays[self.attempt];
            self.attempt = self.attempt + 1;
            Some(d)
        } else {
            None
        };
        match outcome {
            Err(e) => {
                if is_retriable_error(e) {
                    next
                } else {
                    None
                }
            },
            Ok(()) => None,
        }
    }

    /// How long to wait, in nanoseconds, after an attempt with the given outcome; `None` where that
    /// outcome is final.
    pub fn wait_after(&mut self, outcome: &Result<(), Error>) -> (r: Option<u64>)
        requires
            old(self).wf(),
        ensures
            final(self).wf(),
            final(self).attempts() == (if old(self).attempts() < RETRY_COUNT {
                old(self).attempts() + 1
            } else {
                old(self).attempts()
            }),
            r is Some == retry_delay(old(self).attempts(), *outcome) is Some,
            r matches Some(nanos) ==> {
                let millis = retry_delay(old(self).attempts(), *outcome)->0;
                millis * 500_000 - 1 <= nanos <= millis * 1_500_000 + 1
            },
    {
        let ghost attempt = self.attempts();
        match self.delay_after(outcome) {
            Some(millis) => {
                proof {
                    lemma_retry_delays(attempt);
                }
                Some(jitter(millis))
            },
            None => None,
        }
    }
}

proof fn lemma_retry_delays(attempt: nat)
    requires
        attempt < RETRY_COUNT,
    ensures
        900 <= fibonacci_delay(RETRY_BASE, attempt) <= 2700,
{
    reveal_with_fuel(fibonacci_delay, 4);
}

/// How many attempts a download takes whose attempts have the given outcomes, beginning with number
/// `first`.
pub open spec fn attempts_made(first: nat, outcomes: Seq<Result<(), Error>>) -> nat
    decreases outcomes.len(),
{
    if outcomes.len() == 0 {
        0
    } else if retry_delay(first, outcomes[0]) is Some {
        1 + attempts_made(first + 1, outcomes.skip(1))
    } else {
        1
    }
}

proof fn lemma_attempts(first: nat, outcomes: Seq<Result<(), Error>>)
    requires
        first <= RETRY_COUNT,
    ensures
        attempts_made(first, outcomes) + first <= RETRY_COUNT + 1,
    decreases outcomes.len(),
{
    if outcomes.len() > 0 && retry_delay(first, outcomes[0]) is Some {
        lemma_attempts(first + 1, outcomes.skip(1));
    }
}

/// A download is attempted five times at most, whatever happens.
pub proof fn law_download_attempts(outcomes: Seq<Result<(), Error>>)
    ensures
        attempts_made(0, outcomes) <= 5,
{
    lemma_attempts(0, outcomes);
}

/// What the log says when a download is repeated.
pub fn retry_message(name: &str, err: &Error) -> (r: String)
    ensures
        r@ == "Error getting artifacts from "@ + name@ + ": "@ + err.spec_message(
            err.shown_status(),
        ) + ". Retrying"@,
{
    let message = err.message();
    "Error getting artifacts from ".to_owned().concat(name).concat(": ").concat(
        message.as_str(),
    ).concat(". Retrying")
}

// ---------------------------------------------------------------------------
// Jobs and their dependencies
// ---------------------------------------------------------------------------

/// A running Gitlab Job
#[derive(Debug)]
pub struct Job {
    pub response: JobResponse,
    pub client: Client,
    pub build_directory: String,
}

impl Job {
    /// No key of a variable occurs twice.
    pub open spec fn wf(&self) -> bool {
        crate::client::distinct_keys(self.response.variables@)
    }

    /// The job that the server handed out, with the directory for its files.
    pub fn new(client: Client, response: JobResponse, build_directory: String) -> (r: Self)
        requires
            crate::client::distinct_keys(response.variables@),
        ensures
            r.wf(),
            r.client == client,
            r.response == response,
            r.build_directory == build_directory,
    {
        Job { response, client, build_directory }
    }

    /// Get the job id
    pub fn id(&self) -> (r: u64)
        ensures
            r == self.response.id,
    {
        self.response.id
    }

    /// Sent data to the gitlab log
    ///
    /// This function directly puts data in the queue for the gitlab log and side-steps the tracing
    /// infrastructure
    pub fn trace(&self, log: &mut JobLog, data: &[u8])
        requires
            old(log).wf(),
        ensures
            final(log).wf(),
            final(log).prefixes() == old(log).prefixes(),
            final(log).pending() == old(log).pending() + crate::masking::mask_output(
                old(log).prefixes(),
                old(log).mask_state(),
                data@,
            ),
            final(log).mask_state() == crate::masking::mask_after(
                old(log).prefixes(),
                old(log).mask_state(),
                data@,
            ),
    {
        log.trace(data);
    }

    /// Get the variable matching the given key
    pub fn variable(&self, key: &str) -> (r: Option<Variable<'_>>)
        requires
            self.wf(),
        ensures
            r is Some == crate::client::find_variable(self.response.variables@, key@) is Some,
            r matches Some(v) ==> Some(v@) == crate::client::find_variable(
                self.response.variables@,
                key@,
            ),
    {
        match crate::client::get_variable(&self.response.variables, key) {
            Some(v) => Some(Variable { v }),
            None => None,
        }
    }

    /// Get all the variables associated with this job.
    pub fn variables(&self) -> (r: Vec<Variable<'_>>)
        ensures
            r@.len() == self.response.variables@.len(),
            forall|i: int|
                0 <= i < r@.len() ==> (#[trigger] r@[i])@ == self.response.variables@[i],
    {
        let mut r: Vec<Variable<'_>> = Vec::new();
        let mut i: usize = 0;
        while i < self.response.variables.len()
            invariant
                i == r@.len(),
                i <= self.response.variables@.len(),
                forall|j: int| 0 <= j < i ==> (#[trigger] r@[j])@ == self.response.variables@[j],
            decreases self.response.variables@.len() - i,
        {
            r.push(Variable { v: &self.response.variables[i] });
            i += 1;
        }
        r
    }

    /// Get the job dependencies
    pub fn dependencies(&self) -> (r: Vec<Dependency<'_>>)
        ensures
            r@.len() == self.response.dependencies@.len(),
            forall|i: int|
                0 <= i < r@.len() ==> (#[trigger] r@[i]).job == self && *r@[i].dependency
                    == self.response.dependencies@[i],
    {
        let mut r: Vec<Dependency<'_>> = Vec::new();
        let mut i: usize = 0;
        while i < self.response.dependencies.len()
            invariant
                i == r@.len(),
                i <= self.response.dependencies@.len(),
                forall|j: int|
                    0 <= j < i ==> (#[trigger] r@[j]).job == self && *r@[j].dependency
                        == self.response.dependencies@[j],
            decreases self.response.dependencies@.len() - i,
        {
            r.push(Dependency { job: self, dependency: &self.response.dependencies[i] });
            i += 1;
        }
        r
    }

    /// Get a reference to the jobs build dir.
    pub fn build_dir(&self) -> (r: &str)
        ensures
            r@ == self.build_directory@,
    {
        self.build_directory.as_str()
    }

    /// What to fetch and to check out for this job.
    ///
    /// If GIT_STRATEGY is set to disable fetching (i.e. `none` or `empty`), returns None. An unknown
    /// strategy counts before anything that is wrong with the repository.
    pub fn clone_git_repository(&self) -> (r: Result<Option<ClonePlan>, GitCheckoutError>)
        requires
            self.wf(),
        ensures
            ({
                let wanted = git_strategy(self.response);
                let info = self.response.git_info;
                let specs = text::views(info.refspecs@);
                let bad = crate::git::first_invalid(specs);
                match r {
                    Ok(None) => wanted == Some(GitStrategy::Untouched) || wanted == Some(
                        GitStrategy::Empty,
                    ),
                    Ok(Some(plan)) => {
                        &&& wanted == Some(GitStrategy::Clone) || wanted == Some(GitStrategy::Fetch)
                        &&& crate::git::is_object_id(info.sha@)
                        &&& bad == specs.len()
                        &&& plan.repo_url@ == info.repo_url@
                        &&& plan.sha@ == crate::git::object_id(info.sha@)
                        &&& text::views(plan.refspecs@) == specs
                        &&& plan.depth == crate::git::planned_depth(Some(info.depth))
                    },
                    Err(GitCheckoutError::InvalidStrategy(s)) => {
                        &&& wanted is None
                        &&& crate::client::find_variable(
                            self.response.variables@,
                            "GIT_STRATEGY"@,
                        ) matches Some(v) && s@ == v.value@
                    },
                    Err(GitCheckoutError::InvalidObjectId(s)) => {
                        &&& wanted == Some(GitStrategy::Clone) || wanted == Some(GitStrategy::Fetch)
                        &&& !crate::git::is_object_id(info.sha@)
                        &&& s@ == info.sha@
                    },
                    Err(GitCheckoutError::InvalidRefspec(s)) => {
                        &&& wanted == Some(GitStrategy::Clone) || wanted == Some(GitStrategy::Fetch)
                        &&& crate::git::is_object_id(info.sha@)
                        &&& bad < specs.len()
                        &&& s@ == specs[bad as int]
                    },
                    Err(_) => false,
                }
            }),
    {
        match self.variable("GIT_STRATEGY") {
            Some(v) => match GitStrategy::from_name(v.value()) {
                Ok(GitStrategy::Untouched) => return Ok(None),
                Ok(GitStrategy::Empty) => return Ok(None),
                Ok(_) => {},
                Err(e) => return Err(e),
            },
            None => {},
        }
        match crate::git::plan_clone(&self.response.git_info) {
            Ok(plan) => Ok(Some(plan)),
            Err(e) => Err(e),
        }
    }
}

/// The strategy that a job asks for: to clone, where it says nothing; `None` where there is no such
/// strategy.
pub open spec fn git_strategy(response: JobResponse) -> Option<GitStrategy> {
    match crate::client::find_variable(response.variables@, "GIT_STRATEGY"@) {
        Some(v) => crate::git::strategy_named(v.value@),
        None => Some(GitStrategy::Clone),
    }
}

/// A dependency of a gitlab job
///
/// Dependencies in gitlab are the jobs that had to be run before this job could run.
/// This can happen either implicitly in the pipeline definition via stages of directly
/// via `needs` keyword
#[derive(Debug)]
pub struct Dependency<'a> {
    pub job: &'a Job,
    pub dependency: &'a JobDependency,
}

/// The largest artifact, in bytes, that is kept in memory.
pub const MAX_IN_MEMORY: usize = 65536;

/// What to do in order to have the artifact of a dependency.
#[derive(Debug)]
pub enum DownloadPlan {
    /// There is no artifact.
    NoArtifact,
    /// The artifact was downloaded before, and is here.
    Cached(CacheData),
    /// Download it to this file.
    ToFile(String),
    /// Download it into memory, where it takes this many bytes.
    ToMemory(usize),
}

/// The file that the artifact of job `id` is downloaded to.
pub open spec fn artifact_file(build_dir: Seq<char>, id: u64) -> Seq<char> {
    crate::paths::child_path(
        crate::paths::child_path(build_dir, "artifacts"@),
        text::decimal(id as nat) + ".zip"@,
    )
}

/// Whether the artifact of a dependency has to be fetched from the server.
pub open spec fn needs_download(dependency: JobDependency, cache: Map<u64, CacheData>) -> bool {
    dependency.artifacts_file is Some && !cache.contains_key(dependency.id)
}

/// An artifact that was stored is not downloaded again.
pub proof fn law_downloaded_once(
    dependency: JobDependency,
    cache: Map<u64, CacheData>,
    data: CacheData,
)
    ensures
        !needs_download(dependency, cache.insert(dependency.id, data)),
{
}

impl<'a> Dependency<'a> {
    /// The id of the dependency
    ///
    /// This id matches the job id of the generated this depenency
    pub fn id(&self) -> (r: u64)
        ensures
            r == self.dependency.id,
    {
        self.dependency.id
    }

    /// The name of the dependency
    ///
    /// This name matches the job name of the job that generated this depenency
    pub fn name(&self) -> (r: &str)
        ensures
            r@ == self.dependency.name@,
    {
        self.dependency.name.as_str()
    }

    /// The filename of the dependencies artifact if it has one
    pub fn artifact_filename(&self) -> (r: Option<&str>)
        ensures
            r is Some == self.dependency.artifacts_file is Some,
            r matches Some(s) ==> s@ == self.dependency.artifacts_file->0.filename@,
    {
        match &self.dependency.artifacts_file {
            Some(file) => Some(file.filename.as_str()),
            None => None,
        }
    }

    /// The size of the dependencies artifact if it has one
    pub fn artifact_size(&self) -> (r: Option<usize>)
        ensures
            r is Some == self.dependency.artifacts_file is Some,
            r matches Some(n) ==> n == self.dependency.artifacts_file->0.size,
    {
        match &self.dependency.artifacts_file {
            Some(file) => Some(file.size),
            None => None,
        }
    }

    /// The request for the artifact.
    pub fn download_request(&self) -> (r: Option<ApiRequest>)
        ensures
            ({
                let url = crate::client::endpoint_url(
                    self.job.client.url@,
                    crate::client::job_segments(self.dependency.id, Some("artifacts"@)),
                );
                &&& r is Some == url is Some
                &&& r matches Some(q) ==> {
                    &&& q.method == Method::Get
                    &&& Some(q.url@) == url
                    &&& crate::client::header_views(q.headers@) == seq![
                        ("JOB-TOKEN"@, self.dependency.token@),
                    ]
                }
            }),
    {
        self.job.client.download_artifact(self.dependency.id, self.dependency.token.as_str())
    }

    /// The directory that downloaded artifacts are put into.
    pub fn artifacts_dir(&self) -> (r: String)
        ensures
            r@ == crate::paths::child_path(self.job.build_directory@, "artifacts"@),
    {
        paths::join_path(self.job.build_directory.as_str(), "artifacts")
    }

    /// Decides how to get the artifact.
    ///
    /// The artifact is downloaded if it hadn't been downloaded yet. Bigger files get saved on the
    /// filesystem while small ones are simply cached in memory
    pub fn download(&self, cache: &ArtifactCache) -> (r: DownloadPlan)
        ensures
            needs_download(*self.dependency, cache@) == (r is ToFile || r is ToMemory),
            r is ToFile <==> (self.dependency.artifacts_file matches Some(file) && file.size > 65_536
                && !cache@.contains_key(self.dependency.id)),
            ({
                let id = self.dependency.id;
                match self.dependency.artifacts_file {
                    None => r is NoArtifact,
                    Some(file) => if cache@.contains_key(id) {
                        r == DownloadPlan::Cached(cache@[id])
                    } else if file.size > MAX_IN_MEMORY {
                        r matches DownloadPlan::ToFile(path) && path@ == artifact_file(
                            self.job.build_directory@,
                            id,
                        )
                    } else {
                        r == DownloadPlan::ToMemory(file.size)
                    },
                }
            }),
    {
        match &self.dependency.artifacts_file {
            None => DownloadPlan::NoArtifact,
            Some(file) => match cache.lookup(self.dependency.id) {
                Some(data) => DownloadPlan::Cached(data),
                None => {
                    if file.size > MAX_IN_MEMORY {
                        let name = text::decimal_string(self.dependency.id).concat(".zip");
                        let dir = self.artifacts_dir();
                        DownloadPlan::ToFile(paths::join_path(dir.as_str(), name.as_str()))
                    } else {
                        DownloadPlan::ToMemory(file.size)
                    }
                },
            },
        }
    }
}

// ---------------------------------------------------------------------------
// Laws
// ---------------------------------------------------------------------------

/// A variable is shown as it is unless it is masked; then eight characters stand for it.
pub proof fn law_only_masked_variables_are_hidden(v: JobVariable)
    ensures
        !v.masked ==> shown_value(v) == v.value@,
        v.masked ==> shown_value(v) == "<MASKED>"@,
{
}

/// A download is tried again after a failed request and after an error of the server, and after nothing else;
/// four times at most, 900, 900, 1800 and 2700 milliseconds later.
pub proof fn law_when_a_download_is_tried_again(attempt: nat, outcome: Result<(), Error>)
    ensures
        ({
            let again = match outcome {
                Ok(()) => false,
                Err(Error::Request(_)) => true,
                Err(Error::UnexpectedStatus(code)) => code / 100 == 5,
                Err(Error::JobCancelled) => false,
                Err(Error::WriteFailure(_)) => false,
                Err(Error::ZipFile(_)) => false,
                Err(Error::EmptyTrace) => false,
            };
            &&& !again || attempt >= 4 ==> retry_delay(attempt, outcome) is None
            &&& again && attempt == 0 ==> retry_delay(attempt, outcome) == Some(900u64)
            &&& again && attempt == 1 ==> retry_delay(attempt, outcome) == Some(900u64)
            &&& again && attempt == 2 ==> retry_delay(attempt, outcome) == Some(1800u64)
            &&& again && attempt == 3 ==> retry_delay(attempt, outcome) == Some(2700u64)
        }),
{
    reveal_with_fuel(fibonacci_delay, 4);
}

proof fn lemma_attempts_until(first: nat, outcomes: Seq<Result<(), Error>>, k: int)
    requires
        0 <= k < outcomes.len(),
        first + k <= 4,
        forall|i: int| 0 <= i < k ==> retry_delay(0, #[trigger] outcomes[i]) is Some,
        retry_delay(0, outcomes[k]) is None || first + k == 4,
    ensures
        attempts_made(first, outcomes) == k + 1,
    decreases k,
{
    reveal_with_fuel(fibonacci_delay, 4);
    if k > 0 {
        let rest = outcomes.skip(1);
        assert(retry_delay(0, outcomes[0]) is Some);
        assert(rest[k - 1] == outcomes[k]);
        assert forall|i: int| 0 <= i < k - 1 implies retry_delay(0, #[trigger] rest[i]) is Some by {
            assert(rest[i] == outcomes[i + 1]);
        }
        lemma_attempts_until(first + 1, rest, k - 1);
    }
}

/// A download ends with the first attempt that is not worth repeating, or else with the fifth.
pub proof fn law_download_ends(outcomes: Seq<Result<(), Error>>, k: int)
    requires
        0 <= k < outcomes.len(),
        k <= 4,
        forall|i: int|
            0 <= i < k ==> (#[trigger] outcomes[i] matches Err(e) && (e is Request || (e matches
                Error::UnexpectedStatus(code) && 500 <= code <= 599))),
        k == 4 || !(outcomes[k] matches Err(e) && (e is Request || (e matches Error::UnexpectedStatus(
            code,
        ) && 500 <= code <= 599))),
    ensures
        attempts_made(0, outcomes) == k + 1,
{
    lemma_attempts_until(0, outcomes, k);
}

/// The artifact of another job is fetched exactly if there is one and it was not fetched before.
pub proof fn law_missing_artifact_is_downloaded(
    dependency: JobDependency,
    cache: Map<u64, CacheData>,
    other: u64,
    data: CacheData,
)
    ensures
        needs_download(dependency, Map::empty()) <==> dependency.artifacts_file is Some,
        other != dependency.id ==> needs_download(dependency, cache.insert(other, data))
            == needs_download(dependency, cache),
{
}

/// A downloaded artifact is kept below the directory of the job, in a file named by the id of the job that it
/// comes from; the artifacts of two jobs are kept in two files.
pub proof fn law_artifacts_have_files_of_their_own(build_dir: Seq<char>, id: u64, other: u64)
    ensures
        build_dir.len() > 0 && build_dir.last() != '/' ==> artifact_file(build_dir, id) == build_dir
            + "/artifacts/"@ + text::decimal(id as nat) + ".zip"@,
        artifact_file(build_dir, id) == artifact_file(build_dir, other) ==> id == other,
{
    reveal_strlit("/artifacts/");
    reveal_strlit("artifacts");
    reveal_strlit(".zip");
    let dir = crate::paths::child_path(build_dir, "artifacts"@);
    assert(dir.last() == 's');
    let a = text::decimal(id as nat);
    let b = text::decimal(other as nat);
    let file = artifact_file(build_dir, id);
    assert(file =~= dir + seq!['/'] + a + ".zip"@);
    if build_dir.len() > 0 && build_dir.last() != '/' {
        assert(file =~= build_dir + "/artifacts/"@ + a + ".zip"@);
    }
    if file == artifact_file(build_dir, other) {
        let n = dir.len() as int + 1;
        assert(artifact_file(build_dir, other) =~= dir + seq!['/'] + b + ".zip"@);
        assert(file.subrange(n, n + a.len()) =~= a);
        assert(file.subrange(n, n + b.len()) =~= b);
        text::law_decimal_round_trip(id);
        text::law_decimal_round_trip(other);
    }
}

/// A job that says nothing is cloned; else the strategy is the one that the last `GIT_STRATEGY` variable names.
pub proof fn law_strategy_is_as_asked(response: JobResponse, i: int)
    ensures
        (forall|j: int|
            0 <= j < response.variables@.len() ==> (#[trigger] response.variables@[j]).key@
                != "GIT_STRATEGY"@) ==> git_strategy(response) == Some(GitStrategy::Clone),
        0 <= i < response.variables@.len() && response.variables@[i].key@ == "GIT_STRATEGY"@ && (
        forall|j: int|
            i < j < response.variables@.len() ==> (#[trigger] response.variables@[j]).key@
                != "GIT_STRATEGY"@) ==> git_strategy(response) == crate::git::strategy_named(
            response.variables@[i].value@,
        ),
{
    let list = response.variables@;
    let key = "GIT_STRATEGY"@;
    if forall|j: int| 0 <= j < list.len() ==> (#[trigger] list[j]).key@ != key {
        crate::client::law_unknown_key_finds_nothing(list, key);
    }
    if 0 <= i < list.len() && list[i].key@ == key && (forall|j: int|
        i < j < list.len() ==> (#[trigger] list[j]).key@ != key) {
        crate::client::law_last_variable_is_found(list, key, i);
    }
}

} // verus!
