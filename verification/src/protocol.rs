//! What holds between a runner and its server.
use crate::client::{Error, HttpReply, JobUpdateReply, Method, TraceReply};
use crate::mock::api::{MockReply, Route};
use crate::mock::job::{MockJob, MockJobState};
use crate::mock::server::GitlabRunnerMock;
use crate::run::Report;
use crate::text;
use vstd::prelude::*;
use vstd::utf8::*;

verus! {

/// The bytes of a header.
pub open spec fn header_bytes(value: Option<Vec<u8>>) -> Option<Seq<u8>> {
    match value {
        Some(v) => Some(v@),
        None => None,
    }
}

/// Whether `http` is what a runner sees of the reply `mock`.
pub open spec fn arrives_as(mock: MockReply, http: HttpReply) -> bool {
    &&& http.status == mock.status
    &&& header_bytes(http.job_status) == (match mock.job_status {
        Some(state) => Some(encode_utf8(state.spec_name())),
        None => None::<Seq<u8>>,
    })
    &&& header_bytes(http.trace_update_interval) == (match mock.update_interval {
        Some(seconds) => Some(encode_utf8(text::decimal(seconds as nat))),
        None => None::<Seq<u8>>,
    })
}

proof fn lemma_digit_is_ascii(c: char)
    requires
        text::is_digit(c),
    ensures
        '\0' <= c <= '\u{7f}',
        (c as u8) as char == c,
{
}

proof fn lemma_seconds(seconds: u32, value: Vec<u8>)
    requires
        value@ == encode_utf8(text::decimal(seconds as nat)),
    ensures
        crate::client::header_seconds(Some(value)) == Some(seconds as u64),
{
    let s = text::decimal(seconds as nat);
    text::law_decimal_is_digits(seconds as nat);
    text::law_decimal_round_trip(seconds as u64);
    assert forall|i: int| 0 <= i < s.len() implies '\0' <= #[trigger] s[i] <= '\u{7f}' by {
        lemma_digit_is_ascii(s[i]);
    }
    is_ascii_chars_encode_utf8(s);
    let t = crate::client::header_chars(value@);
    assert forall|i: int| 0 <= i < s.len() implies t[i] == s[i] by {
        lemma_digit_is_ascii(s[i]);
        assert(s[i] as u8 == value@[i]);
    }
    assert(t =~= s);
}

proof fn lemma_state_names(a: MockJobState, b: MockJobState)
    requires
        encode_utf8(a.spec_name()) == encode_utf8(b.spec_name()),
    ensures
        a == b,
{
    encode_utf8_decode_utf8(a.spec_name());
    encode_utf8_decode_utf8(b.spec_name());
    assert(a.spec_name() == b.spec_name());
    reveal_strlit("pending");
    reveal_strlit("running");
    reveal_strlit("success");
    reveal_strlit("failed");
    reveal_strlit("canceled");
    assert(a.spec_name().len() == b.spec_name().len());
    assert(a.spec_name()[0] == b.spec_name()[0]);
}

/// A runner learns that its job was cancelled exactly if the server says so, and it learns the interval
/// that the server wants.
pub proof fn law_reply_is_understood(mock: MockReply, http: HttpReply)
    requires
        arrives_as(mock, http),
    ensures
        crate::client::is_cancelled(http.job_status) <==> mock.job_status == Some(
            MockJobState::Cancelled,
        ),
        crate::client::header_seconds(http.trace_update_interval) == (match mock.update_interval {
            Some(seconds) => Some(seconds as u64),
            None => None::<u64>,
        }),
{
    if let Some(state) = mock.job_status {
        if http.job_status->0@ == encode_utf8("canceled"@) {
            lemma_state_names(state, MockJobState::Cancelled);
        }
    }
    if let Some(seconds) = mock.update_interval {
        lemma_seconds(seconds, http.trace_update_interval->0);
    }
}

/// While a job runs, the server takes every piece of log that the runner sends, and both count the same
/// length of the log afterwards.
pub proof fn law_log_stays_in_step(
    server: GitlabRunnerMock,
    jobs: Seq<MockJob>,
    id: u64,
    report: Report,
    length: u64,
    http: HttpReply,
)
    requires
        crate::mock::server::find_job(jobs, server.queue@, id) is Some,
        ({
            let job = jobs[crate::mock::server::find_job(jobs, server.queue@, id)->0];
            let range = text::range_text(
                report.log_offset as nat,
                (report.log_offset + length - 1) as nat,
            );
            &&& job.inner.state == MockJobState::Running
            &&& job.spec_log().len() == report.log_offset
            &&& length > 0
            &&& report.log_offset + length <= u64::MAX
            &&& arrives_as(
                server.trace_answer(jobs, id, Some(job.token@), Some(range), length as nat),
                http,
            )
        }),
    ensures
        ({
            let job = jobs[crate::mock::server::find_job(jobs, server.queue@, id)->0];
            let range = text::range_text(
                report.log_offset as nat,
                (report.log_offset + length - 1) as nat,
            );
            let answer = server.trace_answer(jobs, id, Some(job.token@), Some(range), length as nat);
            let verdict = crate::client::trace_verdict(http);
            &&& answer.status == 202
            &&& verdict == Ok::<_, Error>(
                TraceReply { trace_update_interval: Some(server.interval as u64) },
            )
            &&& crate::run::after_trace(report, length, verdict).log_offset
                == job.spec_log().len() + length
        }),
{
    let job = jobs[crate::mock::server::find_job(jobs, server.queue@, id)->0];
    let last = (report.log_offset + length - 1) as u64;
    text::law_range_round_trip(report.log_offset, last);
    let range = text::range_text(report.log_offset as nat, last as nat);
    let answer = server.trace_answer(jobs, id, Some(job.token@), Some(range), length as nat);
    law_reply_is_understood(answer, http);
}

/// A runner that sends a piece of log for a cancelled job learns of that, and reports no state any more.
pub proof fn law_cancellation_reaches_runner(
    server: GitlabRunnerMock,
    jobs: Seq<MockJob>,
    id: u64,
    range: Seq<char>,
    report: Report,
    length: u64,
    http: HttpReply,
)
    requires
        crate::mock::server::find_job(jobs, server.queue@, id) is Some,
        ({
            let job = jobs[crate::mock::server::find_job(jobs, server.queue@, id)->0];
            &&& job.inner.state == MockJobState::Cancelled
            &&& arrives_as(
                server.trace_answer(jobs, id, Some(job.token@), Some(range), length as nat),
                http,
            )
        }),
    ensures
        crate::client::trace_verdict(http) == Err::<TraceReply, _>(Error::JobCancelled),
        crate::run::after_trace(report, length, crate::client::trace_verdict(http)) == (Report {
            cancelled: true,
            ..report
        }),
{
    let job = jobs[crate::mock::server::find_job(jobs, server.queue@, id)->0];
    let answer = server.trace_answer(jobs, id, Some(job.token@), Some(range), length as nat);
    law_reply_is_understood(answer, http);
}

/// A runner whose report was taken on knows it; one whose job was cancelled learns of that.
pub proof fn law_update_is_understood(mock: MockReply, http: HttpReply)
    requires
        arrives_as(mock, http),
        mock.status == 200 ==> mock.job_status != Some(MockJobState::Cancelled),
    ensures
        mock.status == 200 ==> crate::client::update_verdict(http) is Ok,
        mock.job_status == Some(MockJobState::Cancelled) ==> crate::client::update_verdict(http)
            == Err::<JobUpdateReply, _>(Error::JobCancelled),
        mock.status != 200 && mock.job_status != Some(MockJobState::Cancelled)
            ==> crate::client::update_verdict(http) == Err::<JobUpdateReply, _>(
            Error::UnexpectedStatus(mock.status),
        ),
{
    law_reply_is_understood(mock, http);
}

proof fn lemma_split_first(a: Seq<char>, b: Seq<char>)
    requires
        forall|i: int| 0 <= i < a.len() ==> a[i] != '/',
    ensures
        text::split(a.push('/') + b, '/') == seq![a] + text::split(b, '/'),
{
    let s = a.push('/') + b;
    text::lemma_find_char_is(s, '/', a.len() as int);
    assert(s.take(a.len() as int) =~= a);
    assert(s.skip(a.len() as int + 1) =~= b);
}

proof fn lemma_split_none(a: Seq<char>)
    requires
        forall|i: int| 0 <= i < a.len() ==> a[i] != '/',
    ensures
        text::split(a, '/') == seq![a],
{
    text::lemma_find_char_is(a, '/', a.len() as int);
}

proof fn lemma_split_job_path(rest: Seq<char>)
    ensures
        text::split(("/api/v4/jobs/"@ + rest).skip(1), '/') == seq!["api"@, "v4"@, "jobs"@]
            + text::split(rest, '/'),
{
    reveal_strlit("/api/v4/jobs/");
    reveal_strlit("api");
    reveal_strlit("v4");
    reveal_strlit("jobs");
    let jobs = "jobs"@.push('/') + rest;
    let v4 = "v4"@.push('/') + jobs;
    let api = "api"@.push('/') + v4;
    assert(("/api/v4/jobs/"@ + rest).skip(1) =~= api);
    lemma_split_first("jobs"@, rest);
    lemma_split_first("v4"@, jobs);
    lemma_split_first("api"@, v4);
    assert(seq!["api"@] + (seq!["v4"@] + (seq!["jobs"@] + text::split(rest, '/'))) =~= seq![
        "api"@,
        "v4"@,
        "jobs"@,
    ] + text::split(rest, '/'));
}

proof fn lemma_number_path(id: u64, tail: Seq<char>)
    requires
        tail.len() > 0 ==> tail[0] == '/',
    ensures
        crate::mock::api::after_job_number("/api/v4/jobs/"@ + text::decimal(id as nat) + tail) == Some(
            tail,
        ),
{
    let base = "/api/v4/jobs/"@;
    let digits = text::decimal(id as nat);
    let path = base + digits + tail;
    let rest = path.skip(base.len() as int);
    text::law_decimal_is_digits(id as nat);
    assert(rest =~= digits + tail);
    assert(path.take(base.len() as int) =~= base);
    assert forall|i: int| 0 <= i < digits.len() implies text::is_digit(#[trigger] rest[i]) by {
        assert(rest[i] == digits[i]);
        assert(text::is_digit(digits[i]));
    }
    crate::mock::api::lemma_leading_digits(rest, digits.len() as int);
    assert(rest.skip(digits.len() as int) =~= tail);
}

proof fn lemma_number_has_no_slash(id: u64)
    ensures
        forall|i: int|
            0 <= i < text::decimal(id as nat).len() ==> text::decimal(id as nat)[i] != '/',
{
    let digits = text::decimal(id as nat);
    text::law_decimal_is_digits(id as nat);
    assert forall|i: int| 0 <= i < digits.len() implies digits[i] != '/' by {
        assert(text::is_digit(digits[i]));
    }
}

/// The server understands the path of every request that a runner makes for a job.
pub proof fn law_paths_are_routed(id: u64)
    ensures
        ({
            let job = "/api/v4/jobs/"@ + text::decimal(id as nat);
            &&& crate::mock::api::route_of(Method::Put, job) == Some(Route::UpdateJob(id))
            &&& crate::mock::api::route_of(Method::Patch, job + "/trace"@) == Some(Route::Trace(id))
            &&& crate::mock::api::route_of(Method::Post, job + "/artifacts"@) == Some(
                Route::Upload(id),
            )
            &&& crate::mock::api::route_of(Method::Get, job + "/artifacts"@) == Some(
                Route::Download(id),
            )
        }),
{
    let base = "/api/v4/jobs/"@;
    let digits = text::decimal(id as nat);
    let job = base + digits;
    text::law_decimal_round_trip(id);
    text::law_decimal_is_digits(id as nat);
    lemma_number_has_no_slash(id);
    reveal_strlit("/trace");
    reveal_strlit("/artifacts");
    reveal_strlit("trace");
    reveal_strlit("artifacts");
    // The path of the job itself.
    assert(job + Seq::<char>::empty() =~= job);
    lemma_number_path(id, Seq::empty());
    lemma_split_job_path(digits);
    lemma_split_none(digits);
    let parts = text::split(job.skip(1), '/');
    assert(parts =~= seq!["api"@, "v4"@, "jobs"@, digits]);
    // What lies below it.
    lemma_number_path(id, "/trace"@);
    assert("/trace"@ =~= seq!['/'] + "trace"@);
    lemma_split_below(id, "trace"@, "/trace"@);
    lemma_number_path(id, "/artifacts"@);
    assert("/artifacts"@ =~= seq!['/'] + "artifacts"@);
    lemma_split_below(id, "artifacts"@, "/artifacts"@);
    reveal_strlit("/api/v4/jobs/request");
    reveal_strlit("/api/v4/jobs/");
    let upload = job + "/artifacts"@;
    assert(upload[13] == digits[0]);
    assert(text::is_digit(digits[0]));
    assert("/api/v4/jobs/request"@[13] == 'r');
    assert("/trace"@.take("/trace"@.len() as int) =~= "/trace"@);
    assert("/artifacts"@.take("/artifacts"@.len() as int) =~= "/artifacts"@);
}

proof fn lemma_split_below(id: u64, name: Seq<char>, tail: Seq<char>)
    requires
        tail == seq!['/'] + name,
        forall|i: int| 0 <= i < name.len() ==> name[i] != '/',
    ensures
        crate::mock::api::id_in_path(
            "/api/v4/jobs/"@ + text::decimal(id as nat) + tail,
            1,
        ) == Some(id),
{
    let digits = text::decimal(id as nat);
    let rest = digits.push('/') + name;
    text::law_decimal_round_trip(id);
    lemma_number_has_no_slash(id);
    lemma_split_job_path(rest);
    lemma_split_first(digits, name);
    lemma_split_none(name);
    let path = "/api/v4/jobs/"@ + digits + tail;
    assert(path =~= "/api/v4/jobs/"@ + rest);
    let parts = text::split(path.skip(1), '/');
    assert(parts =~= seq!["api"@, "v4"@, "jobs"@, digits, name]);
    reveal_strlit("/api/v4/jobs/");
}

/// The path of the requests that a runner makes for a job, where the server is at the root of its host.
pub open spec fn job_path(id: u64, what: Option<Seq<char>>) -> Seq<char> {
    let job = "/api/v4/jobs/"@ + text::decimal(id as nat);
    match what {
        Some(name) => job.push('/') + name,
        None => job,
    }
}

/// The URL of a server with another path in it.
pub open spec fn with_path(base: Seq<char>, path: Seq<char>) -> Option<Seq<char>> {
    match crate::client::url_parts(base) {
        Some(url) => Some(url.0 + path + url.2 + url.3),
        None => None,
    }
}

proof fn lemma_one_longer(path: Seq<char>, segments: Seq<Seq<char>>, last: Seq<char>)
    ensures
        ({
            let before = crate::client::longer_path(path, segments);
            crate::client::longer_path(path, segments.push(last)) == if before.len() == 1 {
                before + last
            } else {
                before.push('/') + last
            }
        }),
{
    assert(segments.push(last).drop_last() =~= segments);
}

proof fn lemma_api_path(path: Seq<char>, last: Seq<char>)
    requires
        path.len() == 0 || path == seq!['/'],
    ensures
        crate::client::longer_path(path, seq!["api"@, "v4"@, "jobs"@].push(last)) == "/api/v4/jobs/"@
            + last,
{
    reveal_strlit("/api/v4/jobs/");
    reveal_strlit("api");
    reveal_strlit("v4");
    reveal_strlit("jobs");
    let none = Seq::<Seq<char>>::empty();
    lemma_one_longer(path, none, "api"@);
    lemma_one_longer(path, none.push("api"@), "v4"@);
    lemma_one_longer(path, none.push("api"@).push("v4"@), "jobs"@);
    lemma_one_longer(path, none.push("api"@).push("v4"@).push("jobs"@), last);
    assert(none.push("api"@).push("v4"@).push("jobs"@) =~= seq!["api"@, "v4"@, "jobs"@]);
    assert(crate::client::longer_path(path, seq!["api"@, "v4"@, "jobs"@].push(last))
        =~= "/api/v4/jobs/"@ + last);
}

/// A server at the root of its host understands every request that a runner makes: each has a URL that differs
/// from that of the server in its path only, and that path leads to what is meant.
pub proof fn law_requests_are_routed(base: Seq<char>, id: u64)
    requires
        crate::client::url_parts(base) matches Some(url) && (url.1.len() == 0 || url.1 == seq!['/']),
    ensures
        crate::client::endpoint_url(base, seq!["request"@]) matches Some(url) ==> Some(url)
            == with_path(base, "/api/v4/jobs/request"@),
        crate::mock::api::route_of(Method::Post, "/api/v4/jobs/request"@) == Some(Route::RequestJob),
        forall|what: Option<Seq<char>>|
            crate::client::endpoint_url(base, crate::client::job_segments(id, what)) is Some ==> (
            #[trigger] crate::client::endpoint_url(base, crate::client::job_segments(id, what)))
                == with_path(base, job_path(id, what)),
        crate::mock::api::route_of(Method::Put, job_path(id, None)) == Some(Route::UpdateJob(id)),
        crate::mock::api::route_of(Method::Patch, job_path(id, Some("trace"@))) == Some(
            Route::Trace(id),
        ),
        crate::mock::api::route_of(Method::Post, job_path(id, Some("artifacts"@))) == Some(
            Route::Upload(id),
        ),
        crate::mock::api::route_of(Method::Get, job_path(id, Some("artifacts"@))) == Some(
            Route::Download(id),
        ),
{
    let parts = crate::client::url_parts(base)->0;
    let path = parts.1;
    let digits = text::decimal(id as nat);
    let root = seq!["api"@, "v4"@, "jobs"@];
    lemma_api_path(path, "request"@);
    assert(root + seq!["request"@] =~= root.push("request"@));
    reveal_strlit("request");
    reveal_strlit("/api/v4/jobs/");
    reveal_strlit("/api/v4/jobs/request");
    assert("/api/v4/jobs/"@ + "request"@ =~= "/api/v4/jobs/request"@);
    lemma_api_path(path, digits);
    text::law_decimal_is_digits(id as nat);
    assert(root + seq![digits] =~= root.push(digits));
    assert forall|what: Option<Seq<char>>|
        crate::client::endpoint_url(base, crate::client::job_segments(id, what)) is Some implies (
    #[trigger] crate::client::endpoint_url(base, crate::client::job_segments(id, what)))
        == with_path(base, job_path(id, what)) by {
        if let Some(name) = what {
            assert(root + seq![digits, name] =~= root.push(digits).push(name));
            lemma_one_longer(path, root.push(digits), name);
        }
    }
    law_paths_are_routed(id);
    reveal_strlit("trace");
    reveal_strlit("artifacts");
    reveal_strlit("/trace");
    reveal_strlit("/artifacts");
    let job = "/api/v4/jobs/"@ + digits;
    assert(job.push('/') + "trace"@ =~= job + "/trace"@);
    assert(job.push('/') + "artifacts"@ =~= job + "/artifacts"@);
}

} // verus!
