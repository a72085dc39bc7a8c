//! The runner: what it tells about itself, and when it asks for jobs.
use crate::client::{Client, ClientMetadata, JobResponse};
use crate::paths;
use crate::run::Run;
use crate::runlist::RunList;
use crate::text;
use hmac::Mac;
use rand::distr::SampleString;
use vstd::prelude::*;

verus! {

// ---------------------------------------------------------------------------
// System ids
// ---------------------------------------------------------------------------

/// How many characters of a generated system id follow its prefix.
///
/// The official gitlab runner uses 2 char prefixes (s_ or r_) followed by 12 characters for a unique
/// identifier
pub const DEFAULT_ID_LEN: usize = 12;

/// How many bytes of the machine id are used.
pub const MACHINE_ID_LEN: usize = 32;

/// The HMAC of `data` with the key `key`, computed with SHA-256.
pub uninterp spec fn hmac_sha256(key: Seq<u8>, data: Seq<u8>) -> Seq<u8>;

/// `Hmac::<Sha256>`: `new_from_slice`, which takes a key of any size, `update` and `finalize`. The code
/// has 32 bytes and is a function of key and data.
#[verifier::external_body]
fn authenticate(key: &[u8], data: &[u8]) -> (r: Vec<u8>)
    ensures
        r@ == hmac_sha256(key@, data@),
        r@.len() == 32,
{
    let mut mac = hmac::Hmac::<sha2::Sha256>::new_from_slice(key).unwrap();
    mac.update(data);
    mac.finalize().into_bytes().to_vec()
}

/// Whether `c` is an ASCII letter or digit.
pub open spec fn is_alphanumeric(c: char) -> bool {
    let code = c as u32;
    48 <= code <= 57 || 65 <= code <= 90 || 97 <= code <= 122
}

/// `Alphanumeric.append_string` appends the given number of random ASCII letters and digits; which ones
/// is left to chance.
#[verifier::external_body]
fn append_alphanumeric(s: &mut String, len: usize)
    ensures
        final(s)@.len() == old(s)@.len() + len,
        final(s)@.take(old(s)@.len() as int) == old(s)@,
        forall|i: int|
            old(s)@.len() <= i < final(s)@.len() ==> is_alphanumeric(#[trigger] final(s)@[i]),
{
    rand::distr::Alphanumeric.append_string(&mut rand::rng(), s, len)
}

/// The system id that an authentication code of the machine id gives: half as many of its bytes as the
/// id has characters after the prefix.
pub fn machine_system_id(code: &[u8]) -> (r: String)
    requires
        code@.len() >= 6,
    ensures
        r@ == "s_"@ + text::hex_text(code@.take(6)),
{
    let mut r = "s_".to_owned();
    let half: usize = DEFAULT_ID_LEN / 2;
    let head = text::slice_range(code, 0, half);
    assert(head@ =~= code@.take(6));
    text::append_hex(&mut r, head);
    r
}

/// The machine id in what was read of its file: the first bytes, where there are enough.
pub open spec fn machine_id(content: Option<Seq<u8>>) -> Option<Seq<u8>> {
    match content {
        Some(bytes) => if bytes.len() >= MACHINE_ID_LEN {
            Some(bytes.take(MACHINE_ID_LEN as int))
        } else {
            None
        },
        None => None,
    }
}

/// Generates a system id from the content of the machine id file; from random characters where there
/// is no such file or too little in it.
pub fn generate_system_id(content: Option<&[u8]>) -> (r: String)
    ensures
        ({
            let bytes = match content {
                Some(c) => Some(c@),
                None => None,
            };
            match machine_id(bytes) {
                Some(id) => r@ == "s_"@ + text::hex_text(
                    hmac_sha256(id, vstd::utf8::encode_utf8("gitlab-runner"@)).take(6),
                ),
                None => {
                    &&& r@.take(2) == "r_"@
                    &&& forall|i: int| 2 <= i < r@.len() ==> is_alphanumeric(#[trigger] r@[i])
                },
            }
        }),
        r@.len() == 2 + DEFAULT_ID_LEN,
        r@.len() == 14,
{
    proof {
        reveal_strlit("s_");
        reveal_strlit("r_");
    }
    match content {
        Some(bytes) => {
            if bytes.len() >= MACHINE_ID_LEN {
                let id = text::slice_range(bytes, 0, MACHINE_ID_LEN);
                assert(id@ =~= bytes@.take(MACHINE_ID_LEN as int));
                let code = authenticate(id, "gitlab-runner".as_bytes());
                proof {
                    text::lemma_hex_text_len(code@.take(6));
                }
                return machine_system_id(code.as_slice());
            }
        },
        None => {},
    }
    let mut r = "r_".to_owned();
    append_alphanumeric(&mut r, DEFAULT_ID_LEN);
    r
}

// ---------------------------------------------------------------------------
// Building a runner
// ---------------------------------------------------------------------------

/// The first `max` characters.
pub open spec fn truncated(s: Seq<char>, max: nat) -> Seq<char> {
    if s.len() > max {
        s.take(max as int)
    } else {
        s
    }
}

fn truncate(s: String, max: usize) -> (r: String)
    ensures
        r@ == truncated(s@, max as nat),
{
    if s.as_str().unicode_len() > max {
        let r = s.as_str().substring_char(0, max).to_owned();
        assert(r@ =~= s@.take(max as int));
        r
    } else {
        s
    }
}

/// Builder for [`Runner`]
#[derive(Debug)]
pub struct RunnerBuilder {
    pub server: String,
    pub token: String,
    pub build_dir: String,
    pub system_id: Option<String>,
    pub metadata: ClientMetadata,
}

impl RunnerBuilder {
    /// Create a new [`RunnerBuilder`] for the given server url, runner token and build dir.
    ///
    /// The build_dir is used to store temporary files during a job run.
    pub fn new(server: String, token: String, build_dir: String) -> (r: Self)
        ensures
            r.server == server,
            r.token == token,
            r.build_dir == build_dir,
            r.system_id is None,
            r.metadata.version is None,
            r.metadata.revision is None,
            r.metadata.platform is None,
            r.metadata.architecture is None,
    {
        RunnerBuilder { server, token, build_dir, system_id: None, metadata: ClientMetadata::default() }
    }

    /// Set the [system_id](https://docs.gitlab.com/runner/fleet_scaling/#generation-of-system_id-identifiers) for this runner
    ///
    /// The system_id will be truncated to 64 characters to match gitlabs limit,
    /// but no further validation will be done. It's up to the caller to ensure the
    /// system_id is valid for gitlab
    pub fn system_id(self, system_id: String) -> (r: Self)
        ensures
            r.system_id matches Some(s) && s@ == truncated(system_id@, 64) && r == (RunnerBuilder {
                system_id: Some(s),
                ..self
            }),
    {
        let mut builder = self;
        builder.system_id = Some(truncate(system_id, 64));
        builder
    }

    /// Set the version reported by the gitlab runner
    ///
    /// The version will be truncated to 2048 characters
    pub fn version(self, version: String) -> (r: Self)
        ensures
            r.metadata.version matches Some(s) && s@ == truncated(version@, 2048) && r == (
            RunnerBuilder {
                metadata: ClientMetadata { version: Some(s), ..self.metadata },
                ..self
            }),
    {
        let mut builder = self;
        builder.metadata.version = Some(truncate(version, 2048));
        builder
    }

    /// Set the revision reported by the gitlab runner
    ///
    /// The revision will be truncated to 255 characters
    pub fn revision(self, revision: String) -> (r: Self)
        ensures
            r.metadata.revision matches Some(s) && s@ == truncated(revision@, 255) && r == (
            RunnerBuilder {
                metadata: ClientMetadata { revision: Some(s), ..self.metadata },
                ..self
            }),
    {
        let mut builder = self;
        builder.metadata.revision = Some(truncate(revision, 255));
        builder
    }

    /// Set the platform reported by the gitlab runner
    ///
    /// The platform will be truncated to 255 characters
    pub fn platform(self, platform: String) -> (r: Self)
        ensures
            r.metadata.platform matches Some(s) && s@ == truncated(platform@, 255) && r == (
            RunnerBuilder {
                metadata: ClientMetadata { platform: Some(s), ..self.metadata },
                ..self
            }),
    {
        let mut builder = self;
        builder.metadata.platform = Some(truncate(platform, 255));
        builder
    }

    /// Set the architecture reported by the gitlab runner
    ///
    /// The architecture will be truncated to 255 characters
    pub fn architecture(self, architecture: String) -> (r: Self)
        ensures
            r.metadata.architecture matches Some(s) && s@ == truncated(architecture@, 255) && r == (
            RunnerBuilder {
                metadata: ClientMetadata { architecture: Some(s), ..self.metadata },
                ..self
            }),
    {
        let mut builder = self;
        builder.metadata.architecture = Some(truncate(architecture, 255));
        builder
    }

    /// Build the runner, with the given system id where none was set.
    pub fn build_with(self, generated: String) -> (r: Runner)
        ensures
            r.build_dir == self.build_dir,
            r.client.url == self.server,
            r.client.token == self.token,
            r.client.metadata == self.metadata,
            r.client.system_id == (match self.system_id {
                Some(id) => id,
                None => generated,
            }),
    {
        let system_id = match self.system_id {
            Some(id) => id,
            None => generated,
        };
        Runner {
            client: Client::new(self.server, self.token, system_id, self.metadata),
            build_dir: self.build_dir,
        }
    }

    /// Build the runner, from the content of the machine id file where that exists.
    pub fn build(self, machine_id_file: Option<&[u8]>) -> (r: Runner)
        ensures
            r.build_dir == self.build_dir,
            r.client.url == self.server,
            r.client.token == self.token,
            r.client.metadata == self.metadata,
            self.system_id matches Some(id) ==> r.client.system_id == id,
            self.system_id is None ==> {
                let bytes = match machine_id_file {
                    Some(c) => Some(c@),
                    None => None,
                };
                let system_id = r.client.system_id@;
                &&& system_id.len() == 2 + DEFAULT_ID_LEN
                &&& system_id.len() == 14
                &&& match machine_id(bytes) {
                    Some(id) => system_id == "s_"@ + text::hex_text(
                        hmac_sha256(id, vstd::utf8::encode_utf8("gitlab-runner"@)).take(6),
                    ),
                    None => {
                        &&& system_id.take(2) == "r_"@
                        &&& forall|i: int|
                            2 <= i < system_id.len() ==> is_alphanumeric(#[trigger] system_id[i])
                    },
                }
            },
    {
        let generated = match &self.system_id {
            Some(_) => String::new(),
            None => generate_system_id(machine_id_file),
        };
        self.build_with(generated)
    }
}

// ---------------------------------------------------------------------------
// Requesting jobs
// ---------------------------------------------------------------------------

/// Runner for gitlab
///
/// The runner is responsible for communicating with gitlab to request new job and spawn them.
#[derive(Debug)]
pub struct Runner {
    pub client: Client,
    pub build_dir: String,
}

/// A job that was received.
#[derive(Debug)]
pub struct ReceivedJob {
    /// Its reports to the server.
    pub run: Run,
    /// The directory for its files.
    pub build_dir: String,
}

impl Runner {
    /// The number of jobs currently running
    pub fn running<V>(&self, list: &RunList<V>) -> (r: usize)
        ensures
            r == list@.len(),
    {
        list.size()
    }

    /// Prepares the run of a job that was received now: it gets a directory of its own, named by its id.
    pub fn receive_job(&self, response: JobResponse, now: u64) -> (r: ReceivedJob)
        ensures
            r.run.client == self.client,
            r.run.response == response,
            r.run.report == (crate::run::Report {
                log_offset: 0,
                interval: crate::run::TRACE_INTERVAL,
                last_alive: now,
                cancelled: false,
            }),
            r.run.stage == crate::run::ReportStage::Ticking,
            r.build_dir@ == crate::paths::child_path(
                self.build_dir@,
                text::decimal(response.id as nat),
            ),
    {
        let name = text::decimal_string(response.id);
        let build_dir = paths::join_path(self.build_dir.as_str(), name.as_str());
        ReceivedJob { run: Run::new(self.client.duplicate(), response, now), build_dir }
    }

    /// Whether there are less then max jobs running
    pub fn has_space<V>(&self, list: &RunList<V>, max: usize) -> (r: bool)
        ensures
            r == crate::runlist::space_for_one(list@, max),
    {
        list.has_space(max)
    }

    /// Whether there are no more jobs running
    pub fn drained<V>(&self, list: &RunList<V>) -> (r: bool)
        ensures
            r == (list@ == Map::<u64, V>::empty()),
    {
        let size = list.size();
        proof {
            crate::runlist::law_drained_means_empty(list@);
        }
        size < 1
    }
}

/// How long, in seconds, a runner pauses after it got no job.
pub const REQUEST_PAUSE: u64 = 5;

/// What came of a request for a job.
#[derive(Debug, Clone, Copy, PartialEq, Eq, Structural)]
pub enum RequestOutcome {
    /// A job was received, and runs.
    Job,
    /// There was no job.
    NoJob,
    /// The request failed.
    Failed,
}

/// What a runner that runs continously does next.
#[derive(Debug, Clone, Copy, PartialEq, Eq, Structural)]
pub enum LoopAction {
    /// Wait until the number of running jobs changes, then look again.
    WaitForChange,
    /// Look whether there is room for another job.
    CheckSpace,
    /// Request a job.
    Request,
    /// Pause for this many seconds, then look for room.
    Pause(u64),
}

/// What follows a look at the number of running jobs.
pub open spec fn after_check(running: nat, maximum: nat) -> LoopAction {
    if running < maximum {
        LoopAction::Request
    } else {
        LoopAction::WaitForChange
    }
}

/// What follows a request: a new job is picked up straight away, else there is a pause.
pub open spec fn after_request(outcome: RequestOutcome) -> LoopAction {
    match outcome {
        RequestOutcome::Job => LoopAction::CheckSpace,
        _ => LoopAction::Pause(REQUEST_PAUSE),
    }
}

impl Runner {
    /// What follows a look at the number of running jobs, of which at most `maximum` are wanted.
    pub fn next_by_space<V>(&self, list: &RunList<V>, maximum: usize) -> (r: LoopAction)
        ensures
            r == after_check(list@.len(), maximum as nat),
    {
        if list.has_space(maximum) {
            LoopAction::Request
        } else {
            LoopAction::WaitForChange
        }
    }

    /// What follows a request.
    pub fn next_by_outcome(outcome: RequestOutcome) -> (r: LoopAction)
        ensures
            r == after_request(outcome),
    {
        match outcome {
            RequestOutcome::Job => LoopAction::CheckSpace,
            RequestOutcome::NoJob => LoopAction::Pause(REQUEST_PAUSE),
            RequestOutcome::Failed => LoopAction::Pause(REQUEST_PAUSE),
        }
    }
}

/// A runner that runs continously: how many jobs run, and what it does next.
pub struct RunnerLoop {
    pub running: nat,
    pub action: LoopAction,
}

/// Something that happens to such a runner.
pub enum LoopStep {
    /// It does what it does next; a request has the given outcome.
    Act(RequestOutcome),
    /// A job ends.
    JobEnds,
}

/// The runner after something happened.
pub open spec fn loop_step(state: RunnerLoop, step: LoopStep, maximum: nat) -> RunnerLoop {
    match step {
        LoopStep::JobEnds => RunnerLoop {
            running: if state.running > 0 {
                (state.running - 1) as nat
            } else {
                0
            },
            ..state
        },
        LoopStep::Act(outcome) => match state.action {
            LoopAction::Request => RunnerLoop {
                running: if outcome is Job {
                    state.running + 1
                } else {
                    state.running
                },
                action: after_request(outcome),
            },
            LoopAction::Pause(_) => RunnerLoop { action: LoopAction::CheckSpace, ..state },
            _ => RunnerLoop { action: after_check(state.running, maximum), ..state },
        },
    }
}

/// The runner after a series of happenings; it starts without jobs.
pub open spec fn loop_after(steps: Seq<LoopStep>, maximum: nat) -> RunnerLoop
    decreases steps.len(),
{
    if steps.len() == 0 {
        RunnerLoop { running: 0, action: LoopAction::CheckSpace }
    } else {
        loop_step(loop_after(steps.drop_last(), maximum), steps.last(), maximum)
    }
}

/// A runner never runs more jobs than it is meant to, and requests one only where there is room.
pub proof fn law_at_most_maximum_jobs(steps: Seq<LoopStep>, maximum: nat)
    ensures
        loop_after(steps, maximum).running <= maximum,
        loop_after(steps, maximum).action is Request ==> loop_after(steps, maximum).running
            < maximum,
    decreases steps.len(),
{
    if steps.len() > 0 {
        law_at_most_maximum_jobs(steps.drop_last(), maximum);
    }
}

/// The machine id is what the first 32 bytes of its file are; what follows them makes no difference. A shorter
/// file gives none.
pub proof fn law_machine_id_is_the_start_of_its_file(start: Seq<u8>, rest: Seq<u8>)
    ensures
        start.len() == 32 ==> machine_id(Some(start + rest)) == Some(start),
        start.len() < 32 ==> machine_id(Some(start)) is None,
        machine_id(None) is None,
{
    if start.len() == 32 {
        assert((start + rest).take(32) =~= start);
    }
}

/// A text that is not too long stays as it is; of a longer one the start stays, as long as it may be.
pub proof fn law_truncated_text_is_the_start(start: Seq<char>, rest: Seq<char>, max: nat)
    ensures
        start.len() == max ==> truncated(start + rest, max) == start,
        start.len() <= max ==> truncated(start, max) == start,
{
    if start.len() == max {
        assert((start + rest).take(max as int) =~= start);
        assert(rest.len() == 0 ==> start + rest =~= start);
    }
}

/// A runner that looks for room requests a job exactly if fewer jobs run than it is meant to run.
pub proof fn law_room_is_used(steps: Seq<LoopStep>, outcome: RequestOutcome, maximum: nat)
    requires
        loop_after(steps, maximum).action == LoopAction::CheckSpace || loop_after(
            steps,
            maximum,
        ).action == LoopAction::WaitForChange,
    ensures
        loop_after(steps.push(LoopStep::Act(outcome)), maximum).action == (if loop_after(
            steps,
            maximum,
        ).running < maximum {
            LoopAction::Request
        } else {
            LoopAction::WaitForChange
        }),
        loop_after(steps.push(LoopStep::Act(outcome)), maximum).running == loop_after(
            steps,
            maximum,
        ).running,
{
    let more = steps.push(LoopStep::Act(outcome));
    assert(more.drop_last() =~= steps);
    assert(more.last() == LoopStep::Act(outcome));
}

/// A request that brings a job is followed by a look for room at once, one that brings none or fails by a pause
/// of five seconds.
pub proof fn law_requests_are_paced(steps: Seq<LoopStep>, outcome: RequestOutcome, maximum: nat)
    requires
        loop_after(steps, maximum).action == LoopAction::Request,
    ensures
        ({
            let before = loop_after(steps, maximum);
            let after = loop_after(steps.push(LoopStep::Act(outcome)), maximum);
            match outcome {
                RequestOutcome::Job => after.action == LoopAction::CheckSpace && after.running
                    == before.running + 1,
                RequestOutcome::NoJob => after.action == LoopAction::Pause(5) && after.running
                    == before.running,
                RequestOutcome::Failed => after.action == LoopAction::Pause(5) && after.running
                    == before.running,
            }
        }),
{
    let more = steps.push(LoopStep::Act(outcome));
    assert(more.drop_last() =~= steps);
    assert(more.last() == LoopStep::Act(outcome));
}

} // verus!
