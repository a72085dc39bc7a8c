//! The GitLab runner API: what is asked of the server and what its replies mean.
//!
//! Requests are built and replies are judged here; sending them is left to the caller, who hands
//! over the status code and the headers of each reply.
use crate::text;
use vstd::prelude::*;
use vstd::utf8::*;

verus! {

// ---------------------------------------------------------------------------
// What the server sends
// ---------------------------------------------------------------------------

/// State of a job as it is reported to the server.
#[derive(Debug, Clone, Copy, PartialEq, Eq, Structural)]
pub enum JobState {
    Pending,
    Running,
    Success,
    Failed,
}

impl JobState {
    /// The name that the API uses.
    pub open spec fn spec_name(self) -> Seq<char> {
        match self {
            JobState::Pending => "pending"@,
            JobState::Running => "running"@,
            JobState::Success => "success"@,
            JobState::Failed => "failed"@,
        }
    }

    /// The name that the API uses.
    pub fn name(self) -> (r: String)
        ensures
            r@ == self.spec_name(),
    {
        match self {
            JobState::Pending => "pending".to_owned(),
            JobState::Running => "running".to_owned(),
            JobState::Success => "success".to_owned(),
            JobState::Failed => "failed".to_owned(),
        }
    }
}

/// Reply to a job update.
#[derive(Debug, Clone, Copy, PartialEq, Eq, Structural)]
pub struct JobUpdateReply {
    /// The interval, in seconds, at which the server wants trace updates.
    pub trace_update_interval: Option<u64>,
}

/// Reply to a trace update.
#[derive(Debug, Clone, Copy, PartialEq, Eq, Structural)]
pub struct TraceReply {
    /// The interval, in seconds, at which the server wants trace updates.
    pub trace_update_interval: Option<u64>,
}

/// A variable of a job.
#[derive(Debug, Clone, PartialEq, Eq)]
pub struct JobVariable {
    pub key: String,
    pub value: String,
    pub public: bool,
    pub masked: bool,
}

/// When a step runs.
#[derive(Debug, Clone, Copy, PartialEq, Eq, Structural)]
pub enum JobStepWhen {
    Always,
    OnFailure,
    OnSuccess,
}

/// Phase of the gitlab job steps
#[derive(Debug, Clone, Copy, PartialEq, Eq, Structural)]
pub enum Phase {
    /// script step; Practically this is before_script + script as defined in the gitlab job yaml
    Script,
    /// after_script step
    AfterScript,
}

/// A step of a job.
#[derive(Debug, Clone, PartialEq, Eq)]
pub struct JobStep {
    pub name: Phase,
    pub script: Vec<String>,
    pub timeout: u32,
    pub when: JobStepWhen,
    pub allow_failure: bool,
}

/// When an artifact is uploaded.
#[derive(Debug, Clone, Copy, PartialEq, Eq, Structural)]
pub enum ArtifactWhen {
    Always,
    OnFailure,
    OnSuccess,
}

impl Default for ArtifactWhen {
    fn default() -> (r: Self)
        ensures
            r == ArtifactWhen::OnSuccess,
    {
        ArtifactWhen::OnSuccess
    }
}

/// How the files of an artifact are packed.
#[derive(Debug, Clone, Copy, PartialEq, Eq, Structural)]
pub enum ArtifactFormat {
    Zip,
    Gzip,
    Raw,
}

impl Default for ArtifactFormat {
    fn default() -> (r: Self)
        ensures
            r == ArtifactFormat::Zip,
    {
        ArtifactFormat::Zip
    }
}

impl ArtifactFormat {
    /// The name that the API uses.
    pub open spec fn spec_name(self) -> Seq<char> {
        match self {
            ArtifactFormat::Zip => "zip"@,
            ArtifactFormat::Gzip => "gzip"@,
            ArtifactFormat::Raw => "raw"@,
        }
    }

    /// The name that the API uses.
    pub fn name(self) -> (r: String)
        ensures
            r@ == self.spec_name(),
    {
        match self {
            ArtifactFormat::Zip => "zip".to_owned(),
            ArtifactFormat::Gzip => "gzip".to_owned(),
            ArtifactFormat::Raw => "raw".to_owned(),
        }
    }
}

/// An artifact that a job is to upload.
#[derive(Debug, Clone, PartialEq, Eq)]
pub struct JobArtifact {
    pub name: Option<String>,
    pub untracked: bool,
    pub paths: Vec<String>,
    pub when: ArtifactWhen,
    pub artifact_type: String,
    pub artifact_format: ArtifactFormat,
    pub expire_in: Option<String>,
}

/// The artifact file of a dependency.
#[derive(Debug, Clone, PartialEq, Eq)]
pub struct JobArtifactFile {
    pub filename: String,
    pub size: usize,
}

/// A job that had to run first.
#[derive(Debug, Clone, PartialEq, Eq)]
pub struct JobDependency {
    pub id: u64,
    pub name: String,
    pub token: String,
    pub artifacts_file: Option<JobArtifactFile>,
}

/// Where the sources of a job come from.
#[derive(Debug, Clone, PartialEq, Eq)]
pub struct GitInfo {
    pub repo_url: String,
    pub sha: String,
    pub refspecs: Vec<String>,
    pub depth: u32,
}

/// A job handed out by the server.
#[derive(Debug, Clone, PartialEq, Eq)]
pub struct JobResponse {
    pub id: u64,
    pub token: String,
    pub allow_git_fetch: bool,
    pub git_info: GitInfo,
    /// At most one variable for each key, see [`variable_hash`].
    pub variables: Vec<JobVariable>,
    pub steps: Vec<JobStep>,
    pub dependencies: Vec<JobDependency>,
    pub artifacts: Vec<JobArtifact>,
    /// Prefixes of the tokens that the log must not show.
    pub token_mask_prefixes: Vec<String>,
}

/// The first step with the given name.
pub open spec fn find_step(steps: Seq<JobStep>, name: Phase) -> Option<JobStep>
    decreases steps.len(),
{
    if steps.len() == 0 {
        None
    } else if steps[0].name == name {
        Some(steps[0])
    } else {
        find_step(steps.skip(1), name)
    }
}

/// The step that is found is the first one with the name.
pub proof fn law_first_step_is_found(steps: Seq<JobStep>, name: Phase, i: int)
    requires
        0 <= i < steps.len(),
        steps[i].name == name,
        forall|j: int| 0 <= j < i ==> (#[trigger] steps[j]).name != name,
    ensures
        find_step(steps, name) == Some(steps[i]),
    decreases steps.len(),
{
    if i > 0 {
        let rest = steps.skip(1);
        assert(rest[i - 1] == steps[i]);
        assert(steps[0].name != name);
        assert forall|j: int| 0 <= j < i - 1 implies (#[trigger] rest[j]).name != name by {
            assert(rest[j] == steps[j + 1]);
        }
        law_first_step_is_found(rest, name, i - 1);
    }
}

/// A step is found exactly if one has the name.
pub proof fn law_step_is_found(steps: Seq<JobStep>, name: Phase)
    ensures
        find_step(steps, name) is Some <==> exists|i: int|
            0 <= i < steps.len() && (#[trigger] steps[i]).name == name,
    decreases steps.len(),
{
    if steps.len() > 0 && steps[0].name != name {
        let rest = steps.skip(1);
        law_step_is_found(rest, name);
        if exists|i: int| 0 <= i < steps.len() && (#[trigger] steps[i]).name == name {
            let i = choose|i: int| 0 <= i < steps.len() && (#[trigger] steps[i]).name == name;
            assert(rest[i - 1] == steps[i]);
        }
        if exists|i: int| 0 <= i < rest.len() && (#[trigger] rest[i]).name == name {
            let i = choose|i: int| 0 <= i < rest.len() && (#[trigger] rest[i]).name == name;
            assert(rest[i] == steps[i + 1]);
        }
    }
}

impl JobResponse {
    /// The first step of the given phase, if the job has one.
    pub fn step(&self, name: Phase) -> (r: Option<&JobStep>)
        ensures
            r is Some == find_step(self.steps@, name) is Some,
            r is Some ==> Some(*r->0) == find_step(self.steps@, name),
    {
        let mut i: usize = 0;
        assert(self.steps@.skip(0) =~= self.steps@);
        while i < self.steps.len()
            invariant
                i <= self.steps@.len(),
                find_step(self.steps@.skip(i as int), name) == find_step(self.steps@, name),
            decreases self.steps@.len() - i,
        {
            assert(self.steps@.skip(i as int)[0] == self.steps@[i as int]);
            if self.steps[i].name == name {
                return Some(&self.steps[i]);
            }
            assert(self.steps@.skip(i as int).skip(1) =~= self.steps@.skip(i + 1));
            i += 1;
        }
        None
    }
}

/// The value that the last variable named `key` gives.
pub open spec fn find_variable(list: Seq<JobVariable>, key: Seq<char>) -> Option<JobVariable>
    decreases list.len(),
{
    if list.len() == 0 {
        None
    } else if list.last().key@ == key {
        Some(list.last())
    } else {
        find_variable(list.drop_last(), key)
    }
}

/// Whether no key occurs twice.
pub open spec fn distinct_keys(list: Seq<JobVariable>) -> bool {
    forall|i: int, j: int| 0 <= i < j < list.len() ==> list[i].key@ != list[j].key@
}

/// In a list without repeated keys, every variable is the one that its key finds.
pub proof fn lemma_find_variable(list: Seq<JobVariable>, i: int)
    requires
        distinct_keys(list),
        0 <= i < list.len(),
    ensures
        find_variable(list, list[i].key@) == Some(list[i]),
    decreases list.len(),
{
    if i < list.len() - 1 {
        assert(list.last() == list[list.len() - 1]);
        assert(list.drop_last()[i] == list[i]);
        lemma_find_variable(list.drop_last(), i);
    }
}

/// What a key finds is in the list, under that key.
pub proof fn lemma_found_variable(list: Seq<JobVariable>, key: Seq<char>)
    ensures
        find_variable(list, key) matches Some(v) ==> v.key@ == key && list.contains(v),
        find_variable(list, key) is None ==> forall|i: int|
            0 <= i < list.len() ==> (#[trigger] list[i]).key@ != key,
    decreases list.len(),
{
    if list.len() > 0 {
        let n = list.len() - 1;
        assert(list.last() == list[n]);
        if list.last().key@ == key {
            assert(list.contains(list[n]));
        } else {
            lemma_found_variable(list.drop_last(), key);
            if let Some(v) = find_variable(list.drop_last(), key) {
                let k = choose|k: int| 0 <= k < n && list.drop_last()[k] == v;
                assert(list[k] == v);
            } else {
                assert forall|i: int| 0 <= i < list.len() implies (#[trigger] list[i]).key@
                    != key by {
                    if i < n {
                        assert(list.drop_last()[i] == list[i]);
                    }
                }
            }
        }
    }
}

/// The position of the variable named `key`.
fn position(list: &Vec<JobVariable>, key: &str) -> (r: Option<usize>)
    ensures
        r matches Some(i) ==> i < list@.len() && list@[i as int].key@ == key@,
        r is None ==> forall|i: int| 0 <= i < list@.len() ==> (#[trigger] list@[i]).key@ != key@,
{
    let mut i: usize = 0;
    while i < list.len()
        invariant
            i <= list@.len(),
            forall|j: int| 0 <= j < i ==> (#[trigger] list@[j]).key@ != key@,
        decreases list@.len() - i,
    {
        if text::str_eq(list[i].key.as_str(), key) {
            return Some(i);
        }
        i += 1;
    }
    None
}

/// The variable named `key`, in a list without repeated keys.
pub fn get_variable<'a>(list: &'a Vec<JobVariable>, key: &str) -> (r: Option<&'a JobVariable>)
    requires
        distinct_keys(list@),
    ensures
        r is Some == find_variable(list@, key@) is Some,
        r is Some ==> Some(*r->0) == find_variable(list@, key@),
{
    match position(list, key) {
        Some(i) => {
            proof {
                lemma_find_variable(list@, i as int);
            }
            Some(&list[i])
        },
        None => {
            proof {
                lemma_found_variable(list@, key@);
            }
            None
        },
    }
}

/// Indexes variables by key: of several with the same key, the last one counts.
pub fn variable_hash(list: Vec<JobVariable>) -> (r: Vec<JobVariable>)
    ensures
        distinct_keys(r@),
        forall|key: Seq<char>| #[trigger] find_variable(r@, key) == find_variable(list@, key),
{
    let mut rest = list;
    let mut r: Vec<JobVariable> = Vec::new();
    while rest.len() > 0
        invariant
            distinct_keys(r@),
            forall|key: Seq<char>|
                #[trigger] find_variable(list@, key) == (match find_variable(r@, key) {
                    Some(v) => Some(v),
                    None => find_variable(rest@, key),
                }),
        decreases rest@.len(),
    {
        let ghost before = rest@;
        let ghost known = r@;
        let v = rest.pop();
        if let Some(v) = v {
            assert(rest@ == before.drop_last());
            match position(&r, v.key.as_str()) {
                Some(i) => {
                    proof {
                        lemma_find_variable(known, i as int);
                        assert forall|key: Seq<char>|
                            #[trigger] find_variable(list@, key) == (match find_variable(r@, key) {
                                Some(v) => Some(v),
                                None => find_variable(rest@, key),
                            }) by {
                            if key == before.last().key@ {
                                assert(find_variable(known, key) is Some);
                            }
                        }
                    }
                },
                None => {
                    r.push(v);
                    proof {
                        lemma_found_variable(known, before.last().key@);
                        assert(r@.drop_last() =~= known);
                        assert forall|key: Seq<char>|
                            #[trigger] find_variable(list@, key) == (match find_variable(r@, key) {
                                Some(v) => Some(v),
                                None => find_variable(rest@, key),
                            }) by {
                            if key == before.last().key@ {
                                assert(find_variable(known, key) is None);
                            }
                        }
                    }
                },
            }
        }
    }
    assert forall|key: Seq<char>| #[trigger]
        find_variable(r@, key) == find_variable(list@, key) by {
        assert(find_variable(list@, key) == (match find_variable(r@, key) {
            Some(v) => Some(v),
            None => find_variable(rest@, key),
        }));
    }
    r
}

// ---------------------------------------------------------------------------
// Errors
// ---------------------------------------------------------------------------

/// What can go wrong between the runner and the server.
#[derive(Debug, Clone)]
pub enum Error {
    /// The server replied with a status code that the request does not allow for.
    UnexpectedStatus(u16),
    /// The server says that the job was cancelled.
    JobCancelled,
    /// The request could not be made, or its reply could not be read.
    Request(String),
    /// What was downloaded could not be stored.
    WriteFailure(String),
    /// An artifact is no zip file.
    ZipFile(String),
    /// There is nothing to send.
    EmptyTrace,
}

/// How `http::StatusCode` displays the given code; `None` where HTTP has no such code.
pub uninterp spec fn status_display(code: u16) -> Option<Seq<char>>;

/// Displays a status code with `http::StatusCode`: `from_u16` fails on codes outside 100 to 999, and
/// the text is a function of the code alone.
#[verifier::external_body]
fn display_status(code: u16) -> (r: Option<String>)
    ensures
        r is Some == status_display(code) is Some,
        r matches Some(s) ==> Some(s@) == status_display(code),
        r is Some == (100 <= code <= 999),
{
    http::StatusCode::from_u16(code).ok().map(|status| status.to_string())
}

/// The text for a status code: as HTTP displays it, or the bare number where HTTP has no such code.
pub open spec fn status_text(shown: Option<Seq<char>>, code: u16) -> Seq<char> {
    match shown {
        Some(s) => s,
        None => text::decimal(code as nat),
    }
}

impl Error {
    /// The message for a user, given how the status code is displayed.
    pub open spec fn spec_message(&self, shown: Option<Seq<char>>) -> Seq<char> {
        match *self {
            Error::UnexpectedStatus(code) => "Unexpected reply code "@ + status_text(shown, code),
            Error::JobCancelled => "Job cancelled"@,
            Error::Request(reason) => "Request failure "@ + reason@,
            Error::WriteFailure(reason) => "Failed to write to destination "@ + reason@,
            Error::ZipFile(reason) => "Failed to parse zip file: "@ + reason@,
            Error::EmptyTrace => "Empty trace"@,
        }
    }

    /// The text that is shown for the status code, where this error holds one.
    pub open spec fn shown_status(&self) -> Option<Seq<char>> {
        match *self {
            Error::UnexpectedStatus(code) => status_display(code),
            _ => None,
        }
    }

    /// The message, from how the status code is displayed.
    pub fn message_with(&self, shown: Option<String>) -> (r: String)
        ensures
            r@ == self.spec_message(
                match shown {
                    Some(s) => Some(s@),
                    None => None,
                },
            ),
    {
        match self {
            Error::UnexpectedStatus(code) => {
                let status = match shown {
                    Some(s) => s,
                    None => text::decimal_string(*code as u64),
                };
                "Unexpected reply code ".to_owned().concat(status.as_str())
            },
            Error::JobCancelled => "Job cancelled".to_owned(),
            Error::Request(reason) => "Request failure ".to_owned().concat(reason.as_str()),
            Error::WriteFailure(reason) => "Failed to write to destination ".to_owned().concat(
                reason.as_str(),
            ),
            Error::ZipFile(reason) => "Failed to parse zip file: ".to_owned().concat(
                reason.as_str(),
            ),
            Error::EmptyTrace => "Empty trace".to_owned(),
        }
    }

    /// The message for a user.
    pub fn message(&self) -> (r: String)
        ensures
            r@ == self.spec_message(self.shown_status()),
    {
        let shown = match self {
            Error::UnexpectedStatus(code) => display_status(*code),
            _ => None,
        };
        self.message_with(shown)
    }
}

// ---------------------------------------------------------------------------
// Requests
// ---------------------------------------------------------------------------

/// What a runner tells about itself.
#[derive(Debug, Clone)]
pub struct ClientMetadata {
    pub version: Option<String>,
    pub revision: Option<String>,
    pub platform: Option<String>,
    pub architecture: Option<String>,
}

impl Default for ClientMetadata {
    fn default() -> (r: Self)
        ensures
            r.version is None,
            r.revision is None,
            r.platform is None,
            r.architecture is None,
    {
        ClientMetadata { version: None, revision: None, platform: None, architecture: None }
    }
}

/// The features that a runner can announce.
#[derive(Debug, Clone, Copy, PartialEq, Eq, Structural)]
pub struct FeaturesInfo {
    pub variables: bool,
    pub image: bool,
    pub services: bool,
    pub artifacts: bool,
    pub cache: bool,
    pub shared: bool,
    pub upload_multiple_artifacts: bool,
    pub upload_raw_artifacts: bool,
    pub session: bool,
    pub terminal: bool,
    pub refspecs: bool,
    pub masking: bool,
    pub proxy: bool,
    pub raw_variables: bool,
    pub artifacts_exclude: bool,
    pub multi_build_steps: bool,
    pub trace_reset: bool,
    pub trace_checksum: bool,
    pub trace_size: bool,
    pub vault_secrets: bool,
    pub cancelable: bool,
    pub return_exit_code: bool,
    pub service_variables: bool,
}

/// Keeps the names whose flag is set.
pub open spec fn names_set(flags: Seq<(Seq<char>, bool)>) -> Seq<Seq<char>>
    decreases flags.len(),
{
    if flags.len() == 0 {
        Seq::empty()
    } else if flags.last().1 {
        names_set(flags.drop_last()).push(flags.last().0)
    } else {
        names_set(flags.drop_last())
    }
}

/// The flags with their names as character sequences.
pub open spec fn flag_views(flags: Seq<(&'static str, bool)>) -> Seq<(Seq<char>, bool)> {
    flags.map_values(|f: (&'static str, bool)| (f.0@, f.1))
}

impl FeaturesInfo {
    /// The names of all features, in the order of the API, with their flags.
    pub open spec fn flags(self) -> Seq<(Seq<char>, bool)> {
        Seq::empty().push(("variables"@, self.variables)).push(("image"@, self.image)).push(
            ("services"@, self.services),
        ).push(("artifacts"@, self.artifacts)).push(("cache"@, self.cache)).push(
            ("shared"@, self.shared),
        ).push(("upload_multiple_artifacts"@, self.upload_multiple_artifacts)).push(
            ("upload_raw_artifacts"@, self.upload_raw_artifacts),
        ).push(("session"@, self.session)).push(("terminal"@, self.terminal)).push(
            ("refspecs"@, self.refspecs),
        ).push(("masking"@, self.masking)).push(("proxy"@, self.proxy)).push(
            ("raw_variables"@, self.raw_variables),
        ).push(("artifacts_exclude"@, self.artifacts_exclude)).push(
            ("multi_build_steps"@, self.multi_build_steps),
        ).push(("trace_reset"@, self.trace_reset)).push(
            ("trace_checksum"@, self.trace_checksum),
        ).push(("trace_size"@, self.trace_size)).push(
            ("vault_secrets"@, self.vault_secrets),
        ).push(("cancelable"@, self.cancelable)).push(
            ("return_exit_code"@, self.return_exit_code),
        ).push(("service_variables"@, self.service_variables))
    }

    /// No feature at all.
    pub open spec fn spec_none() -> Self {
        FeaturesInfo {
            variables: false,
            image: false,
            services: false,
            artifacts: false,
            cache: false,
            shared: false,
            upload_multiple_artifacts: false,
            upload_raw_artifacts: false,
            session: false,
            terminal: false,
            refspecs: false,
            masking: false,
            proxy: false,
            raw_variables: false,
            artifacts_exclude: false,
            multi_build_steps: false,
            trace_reset: false,
            trace_checksum: false,
            trace_size: false,
            vault_secrets: false,
            cancelable: false,
            return_exit_code: false,
            service_variables: false,
        }
    }

    fn all_flags(&self) -> (all: Vec<(&'static str, bool)>)
        ensures
            flag_views(all@) == self.flags(),
    {
        let mut all: Vec<(&'static str, bool)> = Vec::new();
        all.push(("variables", self.variables));
        all.push(("image", self.image));
        all.push(("services", self.services));
        all.push(("artifacts", self.artifacts));
        all.push(("cache", self.cache));
        all.push(("shared", self.shared));
        all.push(("upload_multiple_artifacts", self.upload_multiple_artifacts));
        all.push(("upload_raw_artifacts", self.upload_raw_artifacts));
        all.push(("session", self.session));
        all.push(("terminal", self.terminal));
        all.push(("refspecs", self.refspecs));
        all.push(("masking", self.masking));
        all.push(("proxy", self.proxy));
        all.push(("raw_variables", self.raw_variables));
        all.push(("artifacts_exclude", self.artifacts_exclude));
        all.push(("multi_build_steps", self.multi_build_steps));
        all.push(("trace_reset", self.trace_reset));
        all.push(("trace_checksum", self.trace_checksum));
        all.push(("trace_size", self.trace_size));
        all.push(("vault_secrets", self.vault_secrets));
        all.push(("cancelable", self.cancelable));
        all.push(("return_exit_code", self.return_exit_code));
        all.push(("service_variables", self.service_variables));
        assert(flag_views(all@) =~= self.flags());
        all
    }

    /// The names of the features that are set: those are the ones that a request mentions.
    pub fn names(&self) -> (r: Vec<String>)
        ensures
            text::views(r@) == names_set(self.flags()),
    {
        let all = self.all_flags();
        let ghost flags = flag_views(all@);
        let mut r: Vec<String> = Vec::new();
        let mut i: usize = 0;
        assert(text::views(r@) =~= names_set(flags.take(0)));
        while i < all.len()
            invariant
                i <= all@.len(),
                flags == flag_views(all@),
                text::views(r@) == names_set(flags.take(i as int)),
            decreases all@.len() - i,
        {
            let ghost before = r@;
            proof {
                assert(flags.take(i + 1).drop_last() =~= flags.take(i as int));
                assert(flags.take(i + 1).last() == (all@[i as int].0@, all@[i as int].1));
            }
            if all[i].1 {
                r.push(all[i].0.to_owned());
                assert(text::views(r@) =~= text::views(before).push(all@[i as int].0@));
            }
            i += 1;
        }
        assert(flags.take(i as int) =~= flags);
        r
    }
}

impl Default for FeaturesInfo {
    fn default() -> (r: Self)
        ensures
            r == FeaturesInfo::spec_none(),
    {
        FeaturesInfo {
            variables: false,
            image: false,
            services: false,
            artifacts: false,
            cache: false,
            shared: false,
            upload_multiple_artifacts: false,
            upload_raw_artifacts: false,
            session: false,
            terminal: false,
            refspecs: false,
            masking: false,
            proxy: false,
            raw_variables: false,
            artifacts_exclude: false,
            multi_build_steps: false,
            trace_reset: false,
            trace_checksum: false,
            trace_size: false,
            vault_secrets: false,
            cancelable: false,
            return_exit_code: false,
            service_variables: false,
        }
    }
}

/// Body of a request for a new job.
#[derive(Debug, Clone)]
pub struct JobRequest {
    pub token: String,
    pub system_id: String,
    pub metadata: ClientMetadata,
    pub features: FeaturesInfo,
}

/// Body of a job update.
#[derive(Debug, Clone)]
pub struct JobUpdate {
    pub token: String,
    pub state: JobState,
}

/// The HTTP methods that the API uses.
#[derive(Debug, Clone, Copy, PartialEq, Eq, Structural)]
pub enum Method {
    Get,
    Post,
    Put,
    Patch,
}

/// A header of a request.
#[derive(Debug, Clone)]
pub struct Header {
    pub name: String,
    pub value: String,
}

/// Where to send a request, and its headers.
#[derive(Debug, Clone)]
pub struct ApiRequest {
    pub method: Method,
    pub url: String,
    pub headers: Vec<Header>,
}

/// The headers as pairs of name and value.
pub open spec fn header_views(headers: Seq<Header>) -> Seq<(Seq<char>, Seq<char>)> {
    headers.map_values(|h: Header| (h.name@, h.value@))
}

/// A text field of an upload form.
#[derive(Debug, Clone)]
pub struct FormField {
    pub name: String,
    pub value: String,
}

/// The fields as pairs of name and value.
pub open spec fn field_views(fields: Seq<FormField>) -> Seq<(Seq<char>, Seq<char>)> {
    fields.map_values(|f: FormField| (f.name@, f.value@))
}

/// The form that uploads an artifact: a part named `file` with the data, then text fields.
#[derive(Debug, Clone)]
pub struct UploadForm {
    pub file_name: String,
    pub fields: Vec<FormField>,
}

/// What the server is told about an uploaded artifact.
pub struct ArtifactInfo<'a> {
    pub name: &'a str,
    pub artifact_format: &'a str,
    pub artifact_type: &'a str,
    pub expire_in: Option<&'a str>,
}

/// The first position, from `from` on, of a byte that is in `set`, or that is not, as `inside` says; the
/// length where there is none.
pub open spec fn scan(bytes: Seq<u8>, from: int, set: Seq<u8>, inside: bool) -> int
    decreases bytes.len() - from,
{
    if from < 0 || from >= bytes.len() {
        bytes.len() as int
    } else if set.contains(bytes[from]) == inside {
        from
    } else {
        scan(bytes, from + 1, set, inside)
    }
}

/// Where the path of a URL can begin at the earliest: after the first colon, the slashes that follow it, and
/// what comes then up to the next slash, question mark or number sign. Tabs and line ends count for nothing
/// between slashes.
pub open spec fn url_head(bytes: Seq<u8>) -> int {
    let colon = scan(bytes, 0, seq![0x3au8], true);
    let name = scan(bytes, colon + 1, seq![0x2fu8, 0x5cu8, 0x09u8, 0x0au8, 0x0du8], false);
    scan(bytes, name, seq![0x2fu8, 0x3fu8, 0x23u8], true)
}

/// Whether the characters of a URL before its path can be counted with 31 bits.
pub open spec fn url_countable(base: Seq<char>) -> bool {
    url_head(encode_utf8(base)) <= i32::MAX
}

/// What the `url` crate makes of a text: what stands before the path of the URL, the path, the query with its
/// question mark, and the fragment with its number sign; `None` where the text is no URL.
pub uninterp spec fn url_parts(base: Seq<char>) -> Option<
    (Seq<char>, Seq<char>, Seq<char>, Seq<char>),
>;

/// The parts of a URL, which make up all of it.
struct ParsedUrl {
    before: String,
    path: String,
    query: String,
    fragment: String,
}

/// The views of the parts of a URL.
spec fn parsed_view(url: ParsedUrl) -> (Seq<char>, Seq<char>, Seq<char>, Seq<char>) {
    (url.before@, url.path@, url.query@, url.fragment@)
}

/// `url::Url`: `parse`, then slices of it by `Position`, which lie side by side: up to `BeforePath`, up to
/// `AfterPath`, up to `AfterQuery`, and the rest. What they are is a function of the text. `parse` counts the
/// characters before the path with an `i32`, which must not overflow.
#[verifier::external_body]
fn parse_url(base: &str) -> (r: Option<ParsedUrl>)
    requires
        url_countable(base@),
    ensures
        r is Some == url_parts(base@) is Some,
        r matches Some(url) ==> Some(parsed_view(url)) == url_parts(base@),
{
    let url = url::Url::parse(base).ok()?;
    Some(
        ParsedUrl {
            before: url[..url::Position::BeforePath].to_owned(),
            path: url[url::Position::BeforePath..url::Position::AfterPath].to_owned(),
            query: url[url::Position::AfterPath..url::Position::AfterQuery].to_owned(),
            fragment: url[url::Position::AfterQuery..].to_owned(),
        },
    )
}

/// How many bytes path segments take, each with a slash before it.
pub open spec fn segments_len(segments: Seq<Seq<char>>) -> nat
    decreases segments.len(),
{
    if segments.len() == 0 {
        0
    } else {
        segments_len(segments.drop_last()) + 1 + text::byte_len(segments.last())
    }
}

/// Whether path segments can be appended to a URL: the last position in it that moves then still has 32 bits.
/// That is where the fragment starts, or where the path ends if there is none. A path that is a slash gets
/// no further one before the first segment.
pub open spec fn url_has_room(
    url: (Seq<char>, Seq<char>, Seq<char>, Seq<char>),
    segments: Seq<Seq<char>>,
) -> bool {
    let moved = text::byte_len(url.0) + text::byte_len(url.1) + (if text::byte_len(url.3) > 0 {
        text::byte_len(url.2)
    } else {
        0
    });
    let slash: nat = if text::byte_len(url.1) == 1 && segments.len() > 0 {
        1
    } else {
        0
    };
    moved + segments_len(segments) <= u32::MAX + slash
}

/// Whether a URL can have path segments: a slash follows the colon behind its scheme.
pub open spec fn has_segments(url: (Seq<char>, Seq<char>, Seq<char>, Seq<char>)) -> bool {
    let whole = url.0 + url.1 + url.2 + url.3;
    let colon = text::find_char(whole, ':');
    colon + 1 < whole.len() && whole[colon + 1] == '/'
}

/// A path with segments appended, each with a slash before it; a path that is a slash gets no further one.
pub open spec fn longer_path(path: Seq<char>, segments: Seq<Seq<char>>) -> Seq<char>
    decreases segments.len(),
{
    if segments.len() == 0 {
        path
    } else {
        let before = longer_path(path, segments.drop_last());
        if before.len() == 1 {
            before + segments.last()
        } else {
            before.push('/') + segments.last()
        }
    }
}

/// Whether a path segment is not empty and made of ASCII letters and digits, which stand for themselves in a
/// URL.
pub open spec fn is_plain_segment(segment: Seq<char>) -> bool {
    segment.len() > 0 && forall|i: int|
        0 <= i < segment.len() ==> crate::runner::is_alphanumeric(#[trigger] segment[i])
}

/// A URL with path segments appended, and nothing else changed; `None` where there is no such URL, or where
/// it is too long for the `url` crate.
pub open spec fn longer_url(base: Seq<char>, segments: Seq<Seq<char>>) -> Option<Seq<char>> {
    match url_parts(base) {
        Some(url) => if url_countable(base) && url_has_room(url, segments) && has_segments(url) {
            Some(url.0 + longer_path(url.1, segments) + url.2 + url.3)
        } else {
            None
        },
        None => None,
    }
}

/// Appends path segments to a URL with `url::Url`: `parse`, `path_segments_mut` and `extend`. Segments of
/// letters and digits are appended as they are. The crate panics where a position in the result needs more
/// than 32 bits.
#[verifier::external_body]
fn extend_url(base: &str, segments: &Vec<String>) -> (r: Option<String>)
    requires
        url_countable(base@),
        url_parts(base@) matches Some(url) ==> url_has_room(url, text::views(segments@)),
        forall|i: int| 0 <= i < segments@.len() ==> is_plain_segment((#[trigger] segments@[i])@),
    ensures
        r is Some == longer_url(base@, text::views(segments@)) is Some,
        r matches Some(s) ==> Some(s@) == longer_url(base@, text::views(segments@)),
{
    let mut url = url::Url::parse(base).ok()?;
    url.path_segments_mut().ok()?.extend(segments);
    Some(url.to_string())
}

/// The URL of an API endpoint: the path segments below `api/v4/jobs`, appended to the server URL. `None`
/// where that is no URL, can have no path or is too long for a longer one.
pub open spec fn endpoint_url(base: Seq<char>, segments: Seq<Seq<char>>) -> Option<Seq<char>> {
    longer_url(base, seq!["api"@, "v4"@, "jobs"@] + segments)
}

fn total_len(segments: &Vec<String>) -> (r: u128)
    requires
        segments@.len() <= 8,
    ensures
        r == segments_len(text::views(segments@)),
        r <= 8 * 0x1_0000_0000_0000_0000,
{
    let ghost all = text::views(segments@);
    let mut r: u128 = 0;
    let mut i: usize = 0;
    assert(all.take(0) =~= Seq::<Seq<char>>::empty());
    while i < segments.len()
        invariant
            i <= segments@.len() <= 8,
            all == text::views(segments@),
            r == segments_len(all.take(i as int)),
            r <= i * 0x1_0000_0000_0000_0000,
        decreases segments@.len() - i,
    {
        proof {
            assert(all.take(i + 1).drop_last() =~= all.take(i as int));
            assert(all.take(i + 1).last() == segments@[i as int]@);
        }
        let n: usize = segments[i].as_str().as_bytes().len();
        r = r + 1 + n as u128;
        i += 1;
    }
    assert(all.take(i as int) =~= all);
    r
}

fn scan_bytes(bytes: &[u8], from: usize, set: &[u8], inside: bool) -> (r: usize)
    requires
        from <= bytes@.len(),
    ensures
        r == scan(bytes@, from as int, set@, inside),
        from <= r <= bytes@.len(),
{
    let mut i: usize = from;
    while i < bytes.len()
        invariant
            from <= i <= bytes@.len(),
            scan(bytes@, from as int, set@, inside) == scan(bytes@, i as int, set@, inside),
        decreases bytes@.len() - i,
    {
        if holds(set, bytes[i]) == inside {
            return i;
        }
        i += 1;
    }
    i
}

fn holds(set: &[u8], byte: u8) -> (r: bool)
    ensures
        r == set@.contains(byte),
{
    let mut i: usize = 0;
    while i < set.len()
        invariant
            i <= set@.len(),
            forall|j: int| 0 <= j < i ==> set@[j] != byte,
        decreases set@.len() - i,
    {
        if set[i] == byte {
            assert(set@[i as int] == byte);
            return true;
        }
        i += 1;
    }
    false
}

fn is_countable(base: &str) -> (r: bool)
    ensures
        r == url_countable(base@),
{
    let bytes = base.as_bytes();
    let colons: Vec<u8> = vec![0x3au8];
    let slashes: Vec<u8> = vec![0x2fu8, 0x5cu8, 0x09u8, 0x0au8, 0x0du8];
    let ends: Vec<u8> = vec![0x2fu8, 0x3fu8, 0x23u8];
    assert(colons@ =~= seq![0x3au8]);
    assert(slashes@ =~= seq![0x2fu8, 0x5cu8, 0x09u8, 0x0au8, 0x0du8]);
    assert(ends@ =~= seq![0x2fu8, 0x3fu8, 0x23u8]);
    let colon = scan_bytes(bytes, 0, colons.as_slice(), true);
    let next: usize = if colon < bytes.len() {
        colon + 1
    } else {
        colon
    };
    let name = scan_bytes(bytes, next, slashes.as_slice(), false);
    let end = scan_bytes(bytes, name, ends.as_slice(), true);
    end <= 0x7FFF_FFFF
}

/// Appends path segments to a URL, where that is possible.
fn append_segments(base: &str, segments: &Vec<String>) -> (r: Option<String>)
    requires
        0 < segments@.len() <= 8,
        forall|i: int| 0 <= i < segments@.len() ==> is_plain_segment((#[trigger] segments@[i])@),
    ensures
        ({
            let url = longer_url(base@, text::views(segments@));
            &&& r is Some == url is Some
            &&& r matches Some(s) ==> Some(s@) == url
        }),
{
    if !is_countable(base) {
        return None;
    }
    match parse_url(base) {
        Some(url) => {
            let before: usize = url.before.as_str().as_bytes().len();
            let path: usize = url.path.as_str().as_bytes().len();
            let query: usize = url.query.as_str().as_bytes().len();
            let fragment: usize = url.fragment.as_str().as_bytes().len();
            let moved: u128 = before as u128 + path as u128 + if fragment > 0 {
                query as u128
            } else {
                0
            };
            let slash: u128 = if path == 1 {
                1
            } else {
                0
            };
            let added = total_len(segments);
            assert(text::views(segments@).len() == segments@.len());
            if moved + added <= 0xFFFF_FFFF + slash {
                extend_url(base, segments)
            } else {
                None
            }
        },
        None => None,
    }
}

/// The path segments of an endpoint that belongs to one job.
pub open spec fn job_segments(id: u64, what: Option<Seq<char>>) -> Seq<Seq<char>> {
    match what {
        Some(s) => seq![text::decimal(id as nat), s],
        None => seq![text::decimal(id as nat)],
    }
}

/// What the request that reports the state of a job looks like.
pub open spec fn is_update_request(
    r: Option<(ApiRequest, JobUpdate)>,
    base: Seq<char>,
    id: u64,
    token: Seq<char>,
    state: JobState,
) -> bool {
    let url = endpoint_url(base, job_segments(id, None));
    &&& r is Some == url is Some
    &&& r matches Some((q, body)) ==> {
        &&& q.method == Method::Put
        &&& Some(q.url@) == url
        &&& header_views(q.headers@) == Seq::<(Seq<char>, Seq<char>)>::empty()
        &&& body.token@ == token
        &&& body.state == state
    }
}

/// What the request that sends `length` bytes of log from `start` on looks like. An empty piece of
/// log gives an error, and only that does.
pub open spec fn is_trace_request(
    r: Result<Option<ApiRequest>, Error>,
    base: Seq<char>,
    id: u64,
    token: Seq<char>,
    start: u64,
    length: u64,
) -> bool {
    let url = endpoint_url(base, job_segments(id, Some("trace"@)));
    match r {
        Err(e) => length == 0 && e is EmptyTrace,
        Ok(None) => length > 0 && url is None,
        Ok(Some(q)) => {
            &&& length > 0
            &&& q.method == Method::Patch
            &&& Some(q.url@) == url
            &&& header_views(q.headers@) == seq![
                ("JOB-TOKEN"@, token),
                ("Content-Range"@, text::range_text(start as nat, (start + length - 1) as nat)),
            ]
        },
    }
}

/// Connection data of a runner.
#[derive(Debug, Clone)]
pub struct Client {
    pub url: String,
    pub token: String,
    pub system_id: String,
    pub metadata: ClientMetadata,
}

fn base_segments() -> (r: Vec<String>)
    ensures
        text::views(r@) == seq!["api"@, "v4"@, "jobs"@],
        r@.len() == 3,
        forall|i: int| 0 <= i < r@.len() ==> is_plain_segment((#[trigger] r@[i])@),
{
    let mut r: Vec<String> = Vec::new();
    r.push("api".to_owned());
    r.push("v4".to_owned());
    r.push("jobs".to_owned());
    proof {
        reveal_strlit("api");
        reveal_strlit("v4");
        reveal_strlit("jobs");
        assert(text::views(r@) =~= seq!["api"@, "v4"@, "jobs"@]);
    }
    r
}

impl Client {
    /// A client for the server at `url`.
    pub fn new(url: String, token: String, system_id: String, metadata: ClientMetadata) -> (r: Self)
        ensures
            r == (Client { url, token, system_id, metadata }),
    {
        Client { url, token, system_id, metadata }
    }

    /// A copy of the connection data.
    pub fn duplicate(&self) -> (r: Self)
        ensures
            r == *self,
    {
        Client {
            url: self.url.clone(),
            token: self.token.clone(),
            system_id: self.system_id.clone(),
            metadata: ClientMetadata {
                version: self.metadata.version.clone(),
                revision: self.metadata.revision.clone(),
                platform: self.metadata.platform.clone(),
                architecture: self.metadata.architecture.clone(),
            },
        }
    }

    /// The URL of an endpoint of one job.
    fn job_url(&self, id: u64, what: Option<&str>) -> (r: Option<String>)
        requires
            what matches Some(s) ==> is_plain_segment(s@),
        ensures
            ({
                let url = endpoint_url(
                    self.url@,
                    job_segments(
                        id,
                        match what {
                            Some(s) => Some(s@),
                            None => None,
                        },
                    ),
                );
                &&& r is Some == url is Some
                &&& r matches Some(s) ==> Some(s@) == url
            }),
    {
        let mut segments = base_segments();
        let ghost base = segments@;
        segments.push(text::decimal_string(id));
        proof {
            text::law_decimal_is_digits(id as nat);
        }
        match what {
            Some(s) => {
                segments.push(s.to_owned());
                assert(text::views(segments@) =~= text::views(base) + job_segments(id, Some(s@)));
            },
            None => {
                assert(text::views(segments@) =~= text::views(base) + job_segments(id, None));
            },
        }
        append_segments(self.url.as_str(), &segments)
    }

    /// The request for a new job; `None` where the server URL can have no path.
    pub fn request_job(&self) -> (r: Option<ApiRequest>)
        ensures
            r is Some == endpoint_url(self.url@, seq!["request"@]) is Some,
            r matches Some(q) ==> {
                &&& q.method == Method::Post
                &&& Some(q.url@) == endpoint_url(self.url@, seq!["request"@])
                &&& header_views(q.headers@) == Seq::<(Seq<char>, Seq<char>)>::empty()
            },
    {
        let mut segments = base_segments();
        let ghost base = segments@;
        segments.push("request".to_owned());
        proof {
            reveal_strlit("request");
            assert(text::views(segments@) =~= text::views(base) + seq!["request"@]);
        }
        match append_segments(self.url.as_str(), &segments) {
            Some(url) => {
                let headers: Vec<Header> = Vec::new();
                assert(header_views(headers@) =~= Seq::empty());
                Some(ApiRequest { method: Method::Post, url, headers })
            },
            None => None,
        }
    }

    /// The body of the request for a new job.
    ///
    /// `refspecs` is required to run detached merge request pipelines.
    pub fn job_request(&self) -> (r: JobRequest)
        ensures
            r.token@ == self.token@,
            r.system_id@ == self.system_id@,
            r.metadata.version == self.metadata.version,
            r.metadata.revision == self.metadata.revision,
            r.metadata.platform == self.metadata.platform,
            r.metadata.architecture == self.metadata.architecture,
            r.features == (FeaturesInfo {
                refspecs: true,
                upload_multiple_artifacts: true,
                ..FeaturesInfo::spec_none()
            }),
    {
        let mut features = FeaturesInfo::default();
        features.refspecs = true;
        features.upload_multiple_artifacts = true;
        JobRequest {
            token: self.token.clone(),
            system_id: self.system_id.clone(),
            metadata: ClientMetadata {
                version: self.metadata.version.clone(),
                revision: self.metadata.revision.clone(),
                platform: self.metadata.platform.clone(),
                architecture: self.metadata.architecture.clone(),
            },
            features,
        }
    }

    /// The request that reports the state of a job; `None` where the server URL can have no path.
    pub fn update_job(&self, id: u64, token: &str, state: JobState) -> (r: Option<
        (ApiRequest, JobUpdate),
    >)
        ensures
            is_update_request(r, self.url@, id, token@, state),
    {
        match self.job_url(id, None) {
            Some(url) => {
                let headers: Vec<Header> = Vec::new();
                assert(header_views(headers@) =~= Seq::empty());
                Some(
                    (
                        ApiRequest { method: Method::Put, url, headers },
                        JobUpdate { token: token.to_owned(), state },
                    ),
                )
            },
            None => None,
        }
    }

    /// The request that sends `length` bytes of log, of which the first is number `start`.
    ///
    /// An empty piece of log is refused. `None` where the server URL can have no path.
    pub fn trace(&self, id: u64, token: &str, start: u64, length: u64) -> (r: Result<
        Option<ApiRequest>,
        Error,
    >)
        requires
            start + length <= u64::MAX,
        ensures
            is_trace_request(r, self.url@, id, token@, start, length),
    {
        if length == 0 {
            return Err(Error::EmptyTrace);
        }
        proof {
            reveal_strlit("trace");
        }
        match self.job_url(id, Some("trace")) {
            Some(url) => {
                let mut headers: Vec<Header> = Vec::new();
                headers.push(Header { name: "JOB-TOKEN".to_owned(), value: token.to_owned() });
                headers.push(
                    Header {
                        name: "Content-Range".to_owned(),
                        value: text::range_string(start, start + length - 1),
                    },
                );
                assert(header_views(headers@) =~= seq![
                    ("JOB-TOKEN"@, token@),
                    (
                        "Content-Range"@,
                        text::range_text(start as nat, (start + length - 1) as nat),
                    ),
                ]);
                Ok(Some(ApiRequest { method: Method::Patch, url, headers }))
            },
            None => Ok(None),
        }
    }

    /// The request for the artifact of a job; `None` where the server URL can have no path.
    pub fn download_artifact(&self, id: u64, token: &str) -> (r: Option<ApiRequest>)
        ensures
            r is Some == endpoint_url(self.url@, job_segments(id, Some("artifacts"@))) is Some,
            r matches Some(q) ==> {
                &&& q.method == Method::Get
                &&& Some(q.url@) == endpoint_url(self.url@, job_segments(id, Some("artifacts"@)))
                &&& header_views(q.headers@) == seq![("JOB-TOKEN"@, token@)]
            },
    {
        self.artifacts_request(Method::Get, id, token)
    }

    fn artifacts_request(&self, method: Method, id: u64, token: &str) -> (r: Option<ApiRequest>)
        ensures
            r is Some == endpoint_url(self.url@, job_segments(id, Some("artifacts"@))) is Some,
            r matches Some(q) ==> {
                &&& q.method == method
                &&& Some(q.url@) == endpoint_url(self.url@, job_segments(id, Some("artifacts"@)))
                &&& header_views(q.headers@) == seq![("JOB-TOKEN"@, token@)]
            },
    {
        proof {
            reveal_strlit("artifacts");
        }
        match self.job_url(id, Some("artifacts")) {
            Some(url) => {
                let mut headers: Vec<Header> = Vec::new();
                headers.push(Header { name: "JOB-TOKEN".to_owned(), value: token.to_owned() });
                assert(header_views(headers@) =~= seq![("JOB-TOKEN"@, token@)]);
                Some(ApiRequest { method, url, headers })
            },
            None => None,
        }
    }

    /// The request that uploads an artifact, and the form that goes with it; `None` where the server
    /// URL can have no path.
    pub fn upload_artifact(&self, id: u64, token: &str, info: ArtifactInfo<'_>) -> (r: Option<
        (ApiRequest, UploadForm),
    >)
        ensures
            r is Some == endpoint_url(self.url@, job_segments(id, Some("artifacts"@))) is Some,
            r matches Some((q, form)) ==> {
                &&& q.method == Method::Post
                &&& Some(q.url@) == endpoint_url(self.url@, job_segments(id, Some("artifacts"@)))
                &&& header_views(q.headers@) == seq![("JOB-TOKEN"@, token@)]
                &&& form.file_name@ == info.name@
                &&& field_views(form.fields@) == upload_fields(info)
            },
    {
        match self.artifacts_request(Method::Post, id, token) {
            Some(request) => {
                let mut fields: Vec<FormField> = Vec::new();
                fields.push(
                    FormField {
                        name: "artifact_format".to_owned(),
                        value: info.artifact_format.to_owned(),
                    },
                );
                fields.push(
                    FormField {
                        name: "artifact_type".to_owned(),
                        value: info.artifact_type.to_owned(),
                    },
                );
                match info.expire_in {
                    Some(expiry) => {
                        fields.push(
                            FormField { name: "expire_in".to_owned(), value: expiry.to_owned() },
                        );
                    },
                    None => {},
                }
                assert(field_views(fields@) =~= upload_fields(info));
                Some((request, UploadForm { file_name: info.name.to_owned(), fields }))
            },
            None => None,
        }
    }
}

/// The text fields that go with an uploaded artifact.
pub open spec fn upload_fields(info: ArtifactInfo) -> Seq<(Seq<char>, Seq<char>)> {
    let fields = seq![
        ("artifact_format"@, info.artifact_format@),
        ("artifact_type"@, info.artifact_type@),
    ];
    match info.expire_in {
        Some(expiry) => fields.push(("expire_in"@, expiry@)),
        None => fields,
    }
}

// ---------------------------------------------------------------------------
// Replies
// ---------------------------------------------------------------------------

/// Header with the interval, in seconds, at which the server wants trace updates.
pub const GITLAB_TRACE_UPDATE_INTERVAL: &'static str = "X-GitLab-Trace-Update-Interval";

/// Header with the state of the job.
pub const JOB_STATUS: &'static str = "Job-Status";

/// What matters of the reply to a request: the status code and the values of two headers.
#[derive(Debug, Clone)]
pub struct HttpReply {
    pub status: u16,
    /// The value of the [`JOB_STATUS`] header.
    pub job_status: Option<Vec<u8>>,
    /// The value of the [`GITLAB_TRACE_UPDATE_INTERVAL`] header.
    pub trace_update_interval: Option<Vec<u8>>,
}

/// The bytes of a header read as characters, one each.
pub open spec fn header_chars(value: Seq<u8>) -> Seq<char> {
    value.map_values(|b: u8| b as char)
}

/// The number of seconds in a header, if it holds a number.
pub open spec fn header_seconds(value: Option<Vec<u8>>) -> Option<u64> {
    match value {
        Some(v) => text::parsed_u64(header_chars(v@)),
        None => None,
    }
}

fn parse_seconds(value: &Option<Vec<u8>>) -> (r: Option<u64>)
    ensures
        r == header_seconds(*value),
{
    match value {
        Some(v) => {
            let mut chars: Vec<char> = Vec::new();
            let mut i: usize = 0;
            while i < v.len()
                invariant
                    i <= v@.len(),
                    chars@ == header_chars(v@.take(i as int)),
                decreases v@.len() - i,
            {
                chars.push(v[i] as char);
                assert(chars@ =~= header_chars(v@.take(i + 1)));
                i += 1;
            }
            assert(v@.take(i as int) =~= v@);
            text::parse_digits(chars.as_slice())
        },
        None => None,
    }
}

/// Whether the server says that the job was cancelled.
pub open spec fn is_cancelled(job_status: Option<Vec<u8>>) -> bool {
    job_status matches Some(v) && v@ == encode_utf8("canceled"@)
}

/// Whether `code` stands for an error of the client or of the server.
pub open spec fn is_error_status(code: u16) -> bool {
    400 <= code <= 599
}

/// Whether `code` stands for an error of the server.
pub open spec fn is_server_error(code: u16) -> bool {
    500 <= code <= 599
}

/// What the reply to a job update means. That the job was cancelled counts before the status code.
pub open spec fn update_verdict(reply: HttpReply) -> Result<JobUpdateReply, Error> {
    if is_cancelled(reply.job_status) {
        Err(Error::JobCancelled)
    } else if reply.status == 200 {
        Ok(JobUpdateReply { trace_update_interval: header_seconds(reply.trace_update_interval) })
    } else {
        Err(Error::UnexpectedStatus(reply.status))
    }
}

/// What the reply to a trace update means. That the job was cancelled counts before the status code.
pub open spec fn trace_verdict(reply: HttpReply) -> Result<TraceReply, Error> {
    if is_cancelled(reply.job_status) {
        Err(Error::JobCancelled)
    } else if reply.status == 202 {
        Ok(TraceReply { trace_update_interval: header_seconds(reply.trace_update_interval) })
    } else {
        Err(Error::UnexpectedStatus(reply.status))
    }
}

/// What the reply to a request for a job means.
#[derive(Debug, Clone, Copy, PartialEq, Eq, Structural)]
pub enum JobOffer {
    /// The body of the reply holds a job.
    Job,
    /// There is no job to run.
    NoJob,
}

impl Client {
    /// Judges the reply to a request for a job by its status code. Where that stands for an error, `refusal`
    /// is what the HTTP client says of it.
    pub fn request_job_reply(status: u16, refusal: String) -> (r: Result<JobOffer, Error>)
        ensures
            match r {
                Ok(JobOffer::Job) => status == 201,
                Ok(JobOffer::NoJob) => status == 204,
                Err(Error::Request(reason)) => is_error_status(status) && reason == refusal,
                Err(Error::UnexpectedStatus(code)) => code == status && status != 201 && status
                    != 204 && !is_error_status(status),
                _ => false,
            },
    {
        if 400 <= status && status <= 599 {
            Err(Error::Request(refusal))
        } else if status == 201 {
            Ok(JobOffer::Job)
        } else if status == 204 {
            Ok(JobOffer::NoJob)
        } else {
            Err(Error::UnexpectedStatus(status))
        }
    }

    /// Fails where the server says that the job was cancelled.
    pub fn check_for_job_cancellation(job_status: &Option<Vec<u8>>) -> (r: Result<(), Error>)
        ensures
            r is Err == is_cancelled(*job_status),
            r matches Err(e) ==> e is JobCancelled,
    {
        match job_status {
            Some(v) => {
                if text::bytes_eq(v.as_slice(), "canceled".as_bytes()) {
                    Err(Error::JobCancelled)
                } else {
                    Ok(())
                }
            },
            None => Ok(()),
        }
    }

    /// Judges the reply to a job update. That the job was cancelled counts before the status code.
    pub fn update_job_reply(reply: &HttpReply) -> (r: Result<JobUpdateReply, Error>)
        ensures
            r == update_verdict(*reply),
    {
        match Client::check_for_job_cancellation(&reply.job_status) {
            Err(e) => Err(e),
            Ok(()) => {
                if reply.status == 200 {
                    Ok(
                        JobUpdateReply {
                            trace_update_interval: parse_seconds(&reply.trace_update_interval),
                        },
                    )
                } else {
                    Err(Error::UnexpectedStatus(reply.status))
                }
            },
        }
    }

    /// Judges the reply to a trace update. That the job was cancelled counts before the status code.
    pub fn trace_reply(reply: &HttpReply) -> (r: Result<TraceReply, Error>)
        ensures
            r == trace_verdict(*reply),
    {
        match Client::check_for_job_cancellation(&reply.job_status) {
            Err(e) => Err(e),
            Ok(()) => {
                if reply.status == 202 {
                    Ok(
                        TraceReply {
                            trace_update_interval: parse_seconds(&reply.trace_update_interval),
                        },
                    )
                } else {
                    Err(Error::UnexpectedStatus(reply.status))
                }
            },
        }
    }

    /// Judges the reply to a download: only a plain success is followed by the artifact.
    pub fn download_artifact_reply(status: u16) -> (r: Result<(), Error>)
        ensures
            status == 200 ==> r is Ok,
            status != 200 ==> r == Err::<(), _>(Error::UnexpectedStatus(status)),
    {
        if status == 200 {
            Ok(())
        } else {
            Err(Error::UnexpectedStatus(status))
        }
    }

    /// Judges the reply to an upload.
    pub fn upload_artifact_reply(status: u16) -> (r: Result<(), Error>)
        ensures
            status == 201 ==> r is Ok,
            status != 201 ==> r == Err::<(), _>(Error::UnexpectedStatus(status)),
    {
        if status == 201 {
            Ok(())
        } else {
            Err(Error::UnexpectedStatus(status))
        }
    }
}

// ---------------------------------------------------------------------------
// Laws
// ---------------------------------------------------------------------------

/// Of several variables with one key, the last one counts.
pub proof fn law_last_variable_is_found(list: Seq<JobVariable>, key: Seq<char>, i: int)
    requires
        0 <= i < list.len(),
        list[i].key@ == key,
        forall|j: int| i < j < list.len() ==> (#[trigger] list[j]).key@ != key,
    ensures
        find_variable(list, key) == Some(list[i]),
    decreases list.len(),
{
    let n = list.len() - 1;
    assert(list.last() == list[n]);
    if i < n {
        let before = list.drop_last();
        assert(before[i] == list[i]);
        assert forall|j: int| i < j < before.len() implies (#[trigger] before[j]).key@ != key by {
            assert(before[j] == list[j]);
        }
        law_last_variable_is_found(before, key, i);
    }
}

/// A key that no variable has finds none.
pub proof fn law_unknown_key_finds_nothing(list: Seq<JobVariable>, key: Seq<char>)
    requires
        forall|j: int| 0 <= j < list.len() ==> (#[trigger] list[j]).key@ != key,
    ensures
        find_variable(list, key) is None,
{
    lemma_found_variable(list, key);
    if let Some(v) = find_variable(list, key) {
        let k = choose|k: int| 0 <= k < list.len() && list[k] == v;
        assert(list[k].key@ != key);
    }
}

proof fn lemma_names_push(flags: Seq<(Seq<char>, bool)>, flag: (Seq<char>, bool), name: Seq<char>)
    ensures
        names_set(flags.push(flag)).contains(name) == (names_set(flags).contains(name) || (flag.1
            && name == flag.0)),
{
    let names = names_set(flags);
    assert(flags.push(flag).drop_last() =~= flags);
    if flag.1 {
        let more = names.push(flag.0);
        if more.contains(name) {
            let k = choose|k: int| 0 <= k < more.len() && more[k] == name;
            if k < names.len() {
                assert(names[k] == name);
            }
        }
        if names.contains(name) {
            let k = choose|k: int| 0 <= k < names.len() && names[k] == name;
            assert(more[k] == name);
        }
        if name == flag.0 {
            assert(more[names.len() as int] == name);
        }
    }
}

/// A request mentions a feature exactly if it is set, under its own name.
pub proof fn law_features_have_their_names(features: FeaturesInfo, name: Seq<char>)
    ensures
        names_set(features.flags()).contains(name) <==> {
            ||| name == "variables"@ && features.variables
            ||| name == "image"@ && features.image
            ||| name == "services"@ && features.services
            ||| name == "artifacts"@ && features.artifacts
            ||| name == "cache"@ && features.cache
            ||| name == "shared"@ && features.shared
            ||| name == "upload_multiple_artifacts"@ && features.upload_multiple_artifacts
            ||| name == "upload_raw_artifacts"@ && features.upload_raw_artifacts
            ||| name == "session"@ && features.session
            ||| name == "terminal"@ && features.terminal
            ||| name == "refspecs"@ && features.refspecs
            ||| name == "masking"@ && features.masking
            ||| name == "proxy"@ && features.proxy
            ||| name == "raw_variables"@ && features.raw_variables
            ||| name == "artifacts_exclude"@ && features.artifacts_exclude
            ||| name == "multi_build_steps"@ && features.multi_build_steps
            ||| name == "trace_reset"@ && features.trace_reset
            ||| name == "trace_checksum"@ && features.trace_checksum
            ||| name == "trace_size"@ && features.trace_size
            ||| name == "vault_secrets"@ && features.vault_secrets
            ||| name == "cancelable"@ && features.cancelable
            ||| name == "return_exit_code"@ && features.return_exit_code
            ||| name == "service_variables"@ && features.service_variables
        },
{
    let flags = Seq::<(Seq<char>, bool)>::empty();
    assert(names_set(flags) =~= Seq::empty());
    lemma_names_push(flags, ("variables"@, features.variables), name);
    let flags = flags.push(("variables"@, features.variables));
    lemma_names_push(flags, ("image"@, features.image), name);
    let flags = flags.push(("image"@, features.image));
    lemma_names_push(flags, ("services"@, features.services), name);
    let flags = flags.push(("services"@, features.services));
    lemma_names_push(flags, ("artifacts"@, features.artifacts), name);
    let flags = flags.push(("artifacts"@, features.artifacts));
    lemma_names_push(flags, ("cache"@, features.cache), name);
    let flags = flags.push(("cache"@, features.cache));
    lemma_names_push(flags, ("shared"@, features.shared), name);
    let flags = flags.push(("shared"@, features.shared));
    lemma_names_push(flags, ("upload_multiple_artifacts"@, features.upload_multiple_artifacts), name);
    let flags = flags.push(("upload_multiple_artifacts"@, features.upload_multiple_artifacts));
    lemma_names_push(flags, ("upload_raw_artifacts"@, features.upload_raw_artifacts), name);
    let flags = flags.push(("upload_raw_artifacts"@, features.upload_raw_artifacts));
    lemma_names_push(flags, ("session"@, features.session), name);
    let flags = flags.push(("session"@, features.session));
    lemma_names_push(flags, ("terminal"@, features.terminal), name);
    let flags = flags.push(("terminal"@, features.terminal));
    lemma_names_push(flags, ("refspecs"@, features.refspecs), name);
    let flags = flags.push(("refspecs"@, features.refspecs));
    lemma_names_push(flags, ("masking"@, features.masking), name);
    let flags = flags.push(("masking"@, features.masking));
    lemma_names_push(flags, ("proxy"@, features.proxy), name);
    let flags = flags.push(("proxy"@, features.proxy));
    lemma_names_push(flags, ("raw_variables"@, features.raw_variables), name);
    let flags = flags.push(("raw_variables"@, features.raw_variables));
    lemma_names_push(flags, ("artifacts_exclude"@, features.artifacts_exclude), name);
    let flags = flags.push(("artifacts_exclude"@, features.artifacts_exclude));
    lemma_names_push(flags, ("multi_build_steps"@, features.multi_build_steps), name);
    let flags = flags.push(("multi_build_steps"@, features.multi_build_steps));
    lemma_names_push(flags, ("trace_reset"@, features.trace_reset), name);
    let flags = flags.push(("trace_reset"@, features.trace_reset));
    lemma_names_push(flags, ("trace_checksum"@, features.trace_checksum), name);
    let flags = flags.push(("trace_checksum"@, features.trace_checksum));
    lemma_names_push(flags, ("trace_size"@, features.trace_size), name);
    let flags = flags.push(("trace_size"@, features.trace_size));
    lemma_names_push(flags, ("vault_secrets"@, features.vault_secrets), name);
    let flags = flags.push(("vault_secrets"@, features.vault_secrets));
    lemma_names_push(flags, ("cancelable"@, features.cancelable), name);
    let flags = flags.push(("cancelable"@, features.cancelable));
    lemma_names_push(flags, ("return_exit_code"@, features.return_exit_code), name);
    let flags = flags.push(("return_exit_code"@, features.return_exit_code));
    lemma_names_push(flags, ("service_variables"@, features.service_variables), name);
    let flags = flags.push(("service_variables"@, features.service_variables));
    assert(flags == features.flags());
}

/// Whether the server says, with these very letters, that the job was cancelled.
pub open spec fn says_canceled(job_status: Option<Vec<u8>>) -> bool {
    job_status matches Some(value) && value@ == seq![
        'c' as u8,
        'a' as u8,
        'n' as u8,
        'c' as u8,
        'e' as u8,
        'l' as u8,
        'e' as u8,
        'd' as u8,
    ]
}

proof fn lemma_says_canceled(job_status: Option<Vec<u8>>)
    ensures
        says_canceled(job_status) == is_cancelled(job_status),
{
    reveal_strlit("canceled");
    let s = "canceled"@;
    assert forall|i: int| 0 <= i < s.len() implies '\0' <= #[trigger] s[i] <= '\u{7f}' by {}
    is_ascii_chars_encode_utf8(s);
    assert(encode_utf8(s) =~= seq![
        'c' as u8,
        'a' as u8,
        'n' as u8,
        'c' as u8,
        'e' as u8,
        'l' as u8,
        'e' as u8,
        'd' as u8,
    ]);
}

/// What a reply means follows from its status and what it says of the job. A job is cancelled exactly if the
/// server says so, whatever the status. Else a state was taken on exactly if the status is 200, and a piece of
/// log exactly if it is 202; any other status is handed on.
pub proof fn law_what_replies_mean(reply: HttpReply)
    ensures
        says_canceled(reply.job_status) ==> update_verdict(reply) == Err::<JobUpdateReply, _>(
            Error::JobCancelled,
        ) && trace_verdict(reply) == Err::<TraceReply, _>(Error::JobCancelled),
        !says_canceled(reply.job_status) ==> {
            &&& update_verdict(reply) is Ok <==> reply.status == 200
            &&& trace_verdict(reply) is Ok <==> reply.status == 202
            &&& reply.status != 200 ==> update_verdict(reply) == Err::<JobUpdateReply, _>(
                Error::UnexpectedStatus(reply.status),
            )
            &&& reply.status != 202 ==> trace_verdict(reply) == Err::<TraceReply, _>(
                Error::UnexpectedStatus(reply.status),
            )
        },
{
    lemma_says_canceled(reply.job_status);
}

/// A reply that is taken as a success gives the interval in its header: the number where it is one, and none
/// where there is no header or something else than digits, but for a plus sign in front.
pub proof fn law_intervals_are_read(reply: HttpReply, n: u64)
    ensures
        update_verdict(reply) matches Ok(update) ==> {
            &&& reply.trace_update_interval is None ==> update.trace_update_interval is None
            &&& reply.trace_update_interval matches Some(value) ==> {
                &&& value@ == encode_utf8(text::decimal(n as nat)) ==> update.trace_update_interval
                    == Some(n)
                &&& not_a_number(value@) ==> update.trace_update_interval is None
            }
        },
        trace_verdict(reply) matches Ok(trace) ==> {
            &&& reply.trace_update_interval is None ==> trace.trace_update_interval is None
            &&& reply.trace_update_interval matches Some(value) ==> {
                &&& value@ == encode_utf8(text::decimal(n as nat)) ==> trace.trace_update_interval
                    == Some(n)
                &&& not_a_number(value@) ==> trace.trace_update_interval is None
            }
        },
{
    if let Some(value) = reply.trace_update_interval {
        if value@ == encode_utf8(text::decimal(n as nat)) {
            lemma_header_number(value@, n);
        }
        if not_a_number(value@) {
            lemma_header_no_number(value@);
        }
    }
}

/// Whether a header is empty, or holds a byte that is no digit, but for a plus sign in front.
pub open spec fn not_a_number(value: Seq<u8>) -> bool {
    value.len() == 0 || exists|i: int|
        0 <= i < value.len() && !('0' as u8 <= #[trigger] value[i] <= '9' as u8) && (i > 0 || value[i]
            != '+' as u8)
}

proof fn lemma_digit_char(c: char)
    requires
        text::is_digit(c),
    ensures
        '\0' <= c <= '\u{7f}',
        (c as u8) as char == c,
{
}

proof fn lemma_header_number(value: Seq<u8>, n: u64)
    requires
        value == encode_utf8(text::decimal(n as nat)),
    ensures
        text::parsed_u64(header_chars(value)) == Some(n),
{
    let s = text::decimal(n as nat);
    text::law_decimal_is_digits(n as nat);
    text::law_decimal_round_trip(n);
    assert forall|i: int| 0 <= i < s.len() implies '\0' <= #[trigger] s[i] <= '\u{7f}' by {
        lemma_digit_char(s[i]);
    }
    is_ascii_chars_encode_utf8(s);
    let t = header_chars(value);
    assert forall|i: int| 0 <= i < s.len() implies t[i] == s[i] by {
        lemma_digit_char(s[i]);
        assert(s[i] as u8 == value[i]);
    }
    assert(t =~= s);
}

proof fn lemma_header_no_number(value: Seq<u8>)
    requires
        not_a_number(value),
    ensures
        text::parsed_u64(header_chars(value)) is None,
{
    let t = header_chars(value);
    let d = text::unsigned_part(t);
    if value.len() > 0 {
        let i = choose|i: int|
            0 <= i < value.len() && !('0' as u8 <= #[trigger] value[i] <= '9' as u8) && (i > 0
                || value[i] != '+' as u8);
        assert(t[i] == value[i] as char);
        assert(!text::is_digit(t[i]));
        if t[0] == '+' {
            assert(value[0] as char == '+');
            assert(value[0] == '+' as u8);
            assert(i > 0);
            assert(d[i - 1] == t[i]);
        } else {
            assert(d[i] == t[i]);
        }
    }
}

/// Errors of the client are the codes from 400 on, those of the server the codes from 500 on, up to 599.
pub proof fn law_error_codes(code: u16)
    ensures
        is_error_status(code) <==> code / 100 == 4 || code / 100 == 5,
        is_server_error(code) <==> code / 100 == 5,
{
}

/// A request that sends a piece of log names the token and exactly the bytes of that piece: the range that its
/// header gives starts at the offset and is as long as the piece. So the ranges of two pieces of which one
/// starts where the other ends lie side by side.
pub proof fn law_log_request_tells_the_range(
    r: Result<Option<ApiRequest>, Error>,
    base: Seq<char>,
    id: u64,
    token: Seq<char>,
    start: u64,
    length: u64,
)
    requires
        is_trace_request(r, base, id, token, start, length),
        start + length <= u64::MAX,
    ensures
        r is Err <==> length == 0,
        r matches Ok(Some(q)) ==> {
            let headers = header_views(q.headers@);
            &&& q.method == Method::Patch
            &&& Some(q.url@) == endpoint_url(base, seq![text::decimal(id as nat), "trace"@])
            &&& headers.len() == 2
            &&& headers[0] == ("JOB-TOKEN"@, token)
            &&& headers[1].0 == "Content-Range"@
            &&& text::parsed_range(headers[1].1) matches Some((first, last)) && first == start && last
                + 1 == start + length
        },
{
    if length > 0 {
        text::law_range_round_trip(start, (start + length - 1) as u64);
    }
}

/// A request that reports the state of a job holds that state and the token of the job.
pub proof fn law_update_request_tells_the_state(
    r: Option<(ApiRequest, JobUpdate)>,
    base: Seq<char>,
    id: u64,
    token: Seq<char>,
    state: JobState,
)
    requires
        is_update_request(r, base, id, token, state),
    ensures
        r is Some <==> endpoint_url(base, seq![text::decimal(id as nat)]) is Some,
        r matches Some((q, body)) ==> {
            &&& q.method == Method::Put
            &&& Some(q.url@) == endpoint_url(base, seq![text::decimal(id as nat)])
            &&& q.headers@.len() == 0
            &&& body.token@ == token
            &&& body.state == state
        },
{
    if let Some((q, body)) = r {
        assert(header_views(q.headers@).len() == q.headers@.len());
    }
}

/// The form of an upload tells the format and the type of the artifact, and when it expires exactly if that is
/// known.
pub proof fn law_upload_form_tells_all(info: ArtifactInfo, name: Seq<char>, value: Seq<char>)
    ensures
        upload_fields(info).contains((name, value)) <==> {
            ||| name == "artifact_format"@ && value == info.artifact_format@
            ||| name == "artifact_type"@ && value == info.artifact_type@
            ||| name == "expire_in"@ && (info.expire_in matches Some(expiry) && value == expiry@)
        },
{
    let fields = upload_fields(info);
    assert(fields[0] == ("artifact_format"@, info.artifact_format@));
    assert(fields[1] == ("artifact_type"@, info.artifact_type@));
    if let Some(expiry) = info.expire_in {
        assert(fields[2] == ("expire_in"@, expiry@));
    }
    if fields.contains((name, value)) {
        let i = choose|i: int| 0 <= i < fields.len() && fields[i] == (name, value);
        assert(i == 0 || i == 1 || i == 2);
    }
}

/// Path segments are appended one by one, each behind a slash: to a path that is a slash itself the first one
/// comes without a further slash.
pub proof fn law_segments_are_appended(path: Seq<char>, segments: Seq<Seq<char>>, last: Seq<char>)
    ensures
        longer_path(path, Seq::empty()) == path,
        longer_path(seq!['/'], seq![last]) == seq!['/'] + last,
        longer_path(path, segments).len() != 1 ==> longer_path(path, segments.push(last)) == longer_path(
            path,
            segments,
        ) + seq!['/'] + last,
{
    assert(segments.push(last).drop_last() =~= segments);
    let before = longer_path(path, segments);
    assert(before.push('/') =~= before + seq!['/']);
    let one = seq![last];
    assert(one.drop_last() =~= Seq::<Seq<char>>::empty());
    reveal_with_fuel(longer_path, 2);
}

proof fn lemma_scan_ends(bytes: Seq<u8>, from: int, set: Seq<u8>, inside: bool)
    ensures
        scan(bytes, from, set, inside) <= bytes.len(),
    decreases bytes.len() - from,
{
    if 0 <= from < bytes.len() && set.contains(bytes[from]) != inside {
        lemma_scan_ends(bytes, from + 1, set, inside);
    }
}

/// Every text of less than 2 GiB can be read as a URL, as far as its length goes.
pub proof fn law_ordinary_urls_can_be_read(base: Seq<char>)
    requires
        text::byte_len(base) <= 0x7FFF_FFFF,
    ensures
        url_countable(base),
{
    let bytes = encode_utf8(base);
    let colon = scan(bytes, 0, seq![0x3au8], true);
    let name = scan(bytes, colon + 1, seq![0x2fu8, 0x5cu8, 0x09u8, 0x0au8, 0x0du8], false);
    lemma_scan_ends(bytes, name, seq![0x2fu8, 0x3fu8, 0x23u8], true);
}

proof fn lemma_longer_len(path: Seq<char>, segments: Seq<Seq<char>>)
    requires
        path.len() == 1 ==> path == seq!['/'],
        forall|i: int| 0 <= i < segments.len() ==> (#[trigger] segments[i]).len() > 0,
    ensures
        text::byte_len(longer_path(path, segments)) == text::byte_len(path) + segments_len(segments) - (
        if text::byte_len(path) == 1 && segments.len() > 0 {
            1int
        } else {
            0int
        }),
        segments.len() > 0 ==> longer_path(path, segments).len() > 1,
    decreases segments.len(),
{
    text::law_bytes_of_joined_texts(path, Seq::empty());
    let slash = seq!['/'];
    assert(text::byte_len(slash) == 1) by {
        assert forall|i: int| 0 <= i < slash.len() implies '\0' <= #[trigger] slash[i] <= '\u{7f}' by {}
        is_ascii_chars_encode_utf8(slash);
    }
    if segments.len() > 0 {
        let fewer = segments.drop_last();
        let last = segments.last();
        assert(last == segments[segments.len() - 1]);
        assert forall|i: int| 0 <= i < fewer.len() implies (#[trigger] fewer[i]).len() > 0 by {
            assert(fewer[i] == segments[i]);
        }
        lemma_longer_len(path, fewer);
        let before = longer_path(path, fewer);
        if before.len() == 1 {
            assert(fewer.len() == 0);
            text::law_bytes_of_joined_texts(before, last);
        } else {
            assert(before.push('/') =~= before + slash);
            text::law_bytes_of_joined_texts(before, slash);
            text::law_bytes_of_joined_texts(before.push('/'), last);
            if fewer.len() == 0 && text::byte_len(path) == 1 {
                assert(path.len() <= 1);
                if path.len() == 0 {
                    assert(path =~= Seq::<char>::empty());
                }
            }
        }
        text::law_bytes_of_joined_texts(last, Seq::empty());
    }
}

/// A URL gets its path segments exactly if what it is then, up to its fragment, and without its query where there
/// is no fragment, has no more bytes than 32 bits can count.
pub proof fn law_urls_have_room_for_4_gib(
    url: (Seq<char>, Seq<char>, Seq<char>, Seq<char>),
    segments: Seq<Seq<char>>,
)
    requires
        url.1.len() == 1 ==> url.1 == seq!['/'],
        forall|i: int| 0 <= i < segments.len() ==> (#[trigger] segments[i]).len() > 0,
    ensures
        url_has_room(url, segments) <==> text::byte_len(url.0) + text::byte_len(
            longer_path(url.1, segments),
        ) + (if url.3.len() > 0 {
            text::byte_len(url.2)
        } else {
            0
        }) <= 0xFFFF_FFFF,
{
    lemma_longer_len(url.1, segments);
    text::law_bytes_of_joined_texts(url.3, Seq::empty());
    if url.3.len() == 0 {
        assert(url.3 =~= Seq::<char>::empty());
    }
}

/// The message of an error tells what happened and, where there is one, the reason or the status.
pub proof fn law_messages_tell_the_reason(reason: String, code: u16, shown: Seq<char>)
    ensures
        Error::UnexpectedStatus(code).spec_message(Some(shown)) == "Unexpected reply code "@ + shown,
        Error::UnexpectedStatus(code).spec_message(None) == "Unexpected reply code "@ + text::decimal(
            code as nat,
        ),
        Error::Request(reason).spec_message(None) == "Request failure "@ + reason@,
        Error::WriteFailure(reason).spec_message(None) == "Failed to write to destination "@ + reason@,
        Error::ZipFile(reason).spec_message(None) == "Failed to parse zip file: "@ + reason@,
        Error::JobCancelled.spec_message(None) == "Job cancelled"@,
        Error::EmptyTrace.spec_message(None) == "Empty trace"@,
{
}

/// A runner announces exactly that it handles refspecs and several artifacts.
pub proof fn law_announced_features(name: Seq<char>)
    ensures
        names_set(
            (FeaturesInfo {
                refspecs: true,
                upload_multiple_artifacts: true,
                ..FeaturesInfo::spec_none()
            }).flags(),
        ).contains(name) <==> name == "refspecs"@ || name == "upload_multiple_artifacts"@,
        !names_set(FeaturesInfo::spec_none().flags()).contains(name),
{
    law_features_have_their_names(
        FeaturesInfo { refspecs: true, upload_multiple_artifacts: true, ..FeaturesInfo::spec_none() },
        name,
    );
    law_features_have_their_names(FeaturesInfo::spec_none(), name);
}

proof fn lemma_scan_is(bytes: Seq<u8>, from: int, set: Seq<u8>, inside: bool, k: int)
    requires
        0 <= from <= k <= bytes.len(),
        forall|j: int| from <= j < k ==> set.contains(#[trigger] bytes[j]) != inside,
        k < bytes.len() ==> set.contains(bytes[k]) == inside,
    ensures
        scan(bytes, from, set, inside) == k,
    decreases k - from,
{
    if from < k {
        assert(set.contains(bytes[from]) != inside);
        lemma_scan_is(bytes, from + 1, set, inside, k);
    }
}

proof fn lemma_url_marks(b: u8)
    ensures
        seq![0x3au8].contains(b) <==> b == ':' as u8,
        seq![0x2fu8, 0x5cu8, 0x09u8, 0x0au8, 0x0du8].contains(b) <==> b == '/' as u8 || b == '\\' as u8
            || b == '\t' as u8 || b == '\n' as u8 || b == '\r' as u8,
        seq![0x2fu8, 0x3fu8, 0x23u8].contains(b) <==> b == '/' as u8 || b == '?' as u8 || b == '#' as u8,
{
    let colon = seq![0x3au8];
    let slashes = seq![0x2fu8, 0x5cu8, 0x09u8, 0x0au8, 0x0du8];
    let ends = seq![0x2fu8, 0x3fu8, 0x23u8];
    assert(colon[0] == ':' as u8);
    assert(slashes[0] == '/' as u8 && slashes[1] == '\\' as u8 && slashes[2] == '\t' as u8 && slashes[3]
        == '\n' as u8 && slashes[4] == '\r' as u8);
    assert(ends[0] == '/' as u8 && ends[1] == '?' as u8 && ends[2] == '#' as u8);
}

/// A URL is too long to be read exactly if what stands before its path is: that ends at the first slash, question
/// mark or number sign behind the slashes that follow the first colon.
pub proof fn law_long_hosts_are_refused(base: Seq<char>, colon: int, host: int, end: int)
    requires
        ({
            let bytes = encode_utf8(base);
            &&& 0 <= colon < host <= end <= bytes.len()
            &&& bytes[colon] == ':' as u8
            &&& forall|j: int| 0 <= j < colon ==> #[trigger] bytes[j] != ':' as u8
            &&& forall|j: int|
                colon < j < host ==> (#[trigger] bytes[j] == '/' as u8 || bytes[j] == '\\' as u8
                    || bytes[j] == '\t' as u8 || bytes[j] == '\n' as u8 || bytes[j] == '\r' as u8)
            &&& host < bytes.len() ==> !(bytes[host] == '/' as u8 || bytes[host] == '\\' as u8
                || bytes[host] == '\t' as u8 || bytes[host] == '\n' as u8 || bytes[host] == '\r' as u8)
            &&& forall|j: int|
                host <= j < end ==> !(#[trigger] bytes[j] == '/' as u8 || bytes[j] == '?' as u8
                    || bytes[j] == '#' as u8)
            &&& end < bytes.len() ==> bytes[end] == '/' as u8 || bytes[end] == '?' as u8 || bytes[end]
                == '#' as u8
        }),
    ensures
        url_countable(base) <==> end <= 0x7FFF_FFFF,
{
    let bytes = encode_utf8(base);
    let colons = seq![0x3au8];
    let slashes = seq![0x2fu8, 0x5cu8, 0x09u8, 0x0au8, 0x0du8];
    let ends = seq![0x2fu8, 0x3fu8, 0x23u8];
    assert forall|b: u8| colons.contains(b) == (b == ':' as u8) by {
        lemma_url_marks(b);
    }
    assert forall|b: u8|
        slashes.contains(b) == (b == '/' as u8 || b == '\\' as u8 || b == '\t' as u8 || b == '\n' as u8
            || b == '\r' as u8) by {
        lemma_url_marks(b);
    }
    assert forall|b: u8| ends.contains(b) == (b == '/' as u8 || b == '?' as u8 || b == '#' as u8) by {
        lemma_url_marks(b);
    }
    lemma_scan_is(bytes, 0, colons, true, colon);
    lemma_scan_is(bytes, colon + 1, slashes, false, host);
    lemma_scan_is(bytes, host, ends, true, end);
}

/// The message of an unexpected status shows the status as HTTP does, where HTTP has it, and else its number.
pub proof fn law_status_is_shown(code: u16)
    ensures
        ({
            let e = Error::UnexpectedStatus(code);
            e.spec_message(e.shown_status()) == "Unexpected reply code "@ + (match status_display(code) {
                Some(shown) => shown,
                None => text::decimal(code as nat),
            })
        }),
{
}

/// The names that the API has for states and formats.
pub proof fn law_names_of_states_and_formats()
    ensures
        JobState::Pending.spec_name() == "pending"@,
        JobState::Running.spec_name() == "running"@,
        JobState::Success.spec_name() == "success"@,
        JobState::Failed.spec_name() == "failed"@,
        ArtifactFormat::Zip.spec_name() == "zip"@,
        ArtifactFormat::Gzip.spec_name() == "gzip"@,
        ArtifactFormat::Raw.spec_name() == "raw"@,
{
}

/// Headers and fields are known by their names and values, in their order.
pub proof fn law_headers_and_fields_are_seen(headers: Seq<Header>, fields: Seq<FormField>, i: int)
    ensures
        header_views(headers).len() == headers.len(),
        0 <= i < headers.len() ==> header_views(headers)[i] == (headers[i].name@, headers[i].value@),
        field_views(fields).len() == fields.len(),
        0 <= i < fields.len() ==> field_views(fields)[i] == (fields[i].name@, fields[i].value@),
{
}

/// Features are named in the order of their flags, each once where its flag is set.
pub proof fn law_set_flags_are_named_in_order(flags: Seq<(Seq<char>, bool)>, flag: (Seq<char>, bool))
    ensures
        names_set(Seq::empty()).len() == 0,
        names_set(flags.push(flag)) == (if flag.1 {
            names_set(flags) + seq![flag.0]
        } else {
            names_set(flags)
        }),
{
    assert(flags.push(flag).drop_last() =~= flags);
    assert(names_set(flags).push(flag.0) =~= names_set(flags) + seq![flag.0]);
}

} // verus!
