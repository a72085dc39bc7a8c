//! Which spans and events go to the log of a job.
//!
//! Spans and events carry named fields. A span with a `gitlab.job` field belongs to that job, and what
//! is marked with `gitlab.output` within it goes to the log of the job.
use crate::job::JobLog;
use crate::text;
use vstd::prelude::*;
use vstd::utf8::*;

verus! {

/// A field of a span or an event.
#[derive(Debug, Clone)]
pub struct Field {
    pub name: String,
    /// The value, where it is an unsigned number.
    pub number: Option<u64>,
    /// The value, where it is a truth value.
    pub flag: Option<bool>,
    /// The value as it is printed.
    pub text: String,
}

// ---------------------------------------------------------------------------
// Filtering
// ---------------------------------------------------------------------------

/// Whether one of the names begins with `gitlab.`.
pub open spec fn names_gitlab(names: Seq<Seq<char>>) -> bool {
    exists|i: int| 0 <= i < names.len() && text::has_prefix(#[trigger] names[i], "gitlab."@)
}

/// The names of the fields of each span.
pub open spec fn scope_views(scope: Seq<Vec<String>>) -> Seq<Seq<Seq<char>>> {
    scope.map_values(|names: Vec<String>| text::views(names@))
}

/// Selects what is of interest for the logs of jobs.
#[derive(Debug, Clone, Copy)]
pub struct GitlabFilter {}

impl GitlabFilter {
    /// Only spans and events with gitlab fields are of interest
    pub fn is_enabled(&self, names: &Vec<String>) -> (r: bool)
        ensures
            r == names_gitlab(text::views(names@)),
    {
        let ghost all = text::views(names@);
        let mut i: usize = 0;
        while i < names.len()
            invariant
                i <= names@.len(),
                all == text::views(names@),
                forall|j: int| 0 <= j < i ==> !text::has_prefix(#[trigger] all[j], "gitlab."@),
            decreases names@.len() - i,
        {
            assert(all[i as int] == names@[i as int]@);
            if text::starts_with(names[i].as_str(), "gitlab.") {
                return true;
            }
            i += 1;
        }
        false
    }

    /// Whether something with these field names is of interest, in spans with those field names.
    pub fn enabled(&self, names: &Vec<String>, scope: &Vec<Vec<String>>) -> (r: bool)
        ensures
            r == (names_gitlab(text::views(names@)) || exists|i: int|
                0 <= i < scope@.len() && names_gitlab(#[trigger] scope_views(scope@)[i])),
    {
        if self.is_enabled(names) {
            return true;
        }
        let ghost all = scope_views(scope@);
        let mut i: usize = 0;
        while i < scope.len()
            invariant
                i <= scope@.len(),
                all == scope_views(scope@),
                forall|j: int| 0 <= j < i ==> !names_gitlab(#[trigger] all[j]),
            decreases scope@.len() - i,
        {
            assert(all[i as int] == text::views(scope@[i as int]@));
            if self.is_enabled(&scope[i]) {
                assert(names_gitlab(scope_views(scope@)[i as int]));
                return true;
            }
            i += 1;
        }
        false
    }

    /// Whether something with these field names is always of interest; else it never is.
    pub fn callsite_enabled(&self, names: &Vec<String>) -> (r: bool)
        ensures
            r == names_gitlab(text::views(names@)),
    {
        self.is_enabled(names)
    }
}

// ---------------------------------------------------------------------------
// Spans
// ---------------------------------------------------------------------------

/// The number in the last `gitlab.job` field that holds one.
pub open spec fn job_in(fields: Seq<Field>) -> Option<u64>
    decreases fields.len(),
{
    if fields.len() == 0 {
        None
    } else if fields.last().name@ == "gitlab.job"@ && fields.last().number is Some {
        fields.last().number
    } else {
        job_in(fields.drop_last())
    }
}

/// The flag in the last `gitlab.output` field that holds one; off where there is none.
pub open spec fn output_in(fields: Seq<Field>) -> bool
    decreases fields.len(),
{
    if fields.len() == 0 {
        false
    } else if fields.last().name@ == "gitlab.output"@ && fields.last().flag is Some {
        fields.last().flag->0
    } else {
        output_in(fields.drop_last())
    }
}

/// The job that fields name.
pub fn find_job(fields: &Vec<Field>) -> (r: Option<u64>)
    ensures
        r == job_in(fields@),
{
    let mut r: Option<u64> = None;
    let mut i: usize = 0;
    while i < fields.len()
        invariant
            i <= fields@.len(),
            r == job_in(fields@.take(i as int)),
        decreases fields@.len() - i,
    {
        assert(fields@.take(i + 1).drop_last() =~= fields@.take(i as int));
        assert(fields@.take(i + 1).last() == fields@[i as int]);
        if text::str_eq(fields[i].name.as_str(), "gitlab.job") && fields[i].number.is_some() {
            r = fields[i].number;
        }
        i += 1;
    }
    assert(fields@.take(i as int) =~= fields@);
    r
}

/// Whether fields ask for output to the log of the job.
pub fn find_output(fields: &Vec<Field>) -> (r: bool)
    ensures
        r == output_in(fields@),
{
    let mut r = false;
    let mut i: usize = 0;
    while i < fields.len()
        invariant
            i <= fields@.len(),
            r == output_in(fields@.take(i as int)),
        decreases fields@.len() - i,
    {
        assert(fields@.take(i + 1).drop_last() =~= fields@.take(i as int));
        assert(fields@.take(i + 1).last() == fields@[i as int]);
        if text::str_eq(fields[i].name.as_str(), "gitlab.output") {
            match fields[i].flag {
                Some(flag) => {
                    r = flag;
                },
                None => {},
            }
        }
        i += 1;
    }
    assert(fields@.take(i as int) =~= fields@);
    r
}

/// What is remembered of a span.
#[derive(Debug, Clone, Copy, PartialEq, Eq, Structural)]
pub struct SpanMarks {
    /// The job that the span belongs to.
    pub job: Option<u64>,
    /// Whether what happens in the span goes to the log.
    pub output: bool,
}

// ---------------------------------------------------------------------------
// Events
// ---------------------------------------------------------------------------

/// The job of the outermost span that has one.
pub open spec fn first_job(scope: Seq<SpanMarks>) -> Option<u64>
    decreases scope.len(),
{
    if scope.len() == 0 {
        None
    } else if scope[0].job is Some {
        scope[0].job
    } else {
        first_job(scope.skip(1))
    }
}

/// Whether one of the spans sends what happens in it to the log.
pub open spec fn outputs(scope: Seq<SpanMarks>) -> bool {
    exists|i: int| 0 <= i < scope.len() && (#[trigger] scope[i]).output
}

/// The job whose log an event goes to, in spans that are listed from the outermost on.
pub open spec fn event_job(fields: Seq<Field>, scope: Seq<SpanMarks>) -> Option<u64> {
    if output_in(fields) || outputs(scope) {
        first_job(scope)
    } else {
        None
    }
}

/// What the fields of an event add to a log: a line for each message.
pub open spec fn event_lines(fields: Seq<Field>) -> Seq<Seq<char>>
    decreases fields.len(),
{
    if fields.len() == 0 {
        Seq::empty()
    } else if fields.last().name@ == "message"@ {
        event_lines(fields.drop_last()).push(fields.last().text@.push('\n'))
    } else {
        event_lines(fields.drop_last())
    }
}

/// The bytes that a log gets for lines.
pub open spec fn line_bytes(lines: Seq<Seq<char>>) -> Seq<u8>
    decreases lines.len(),
{
    if lines.len() == 0 {
        Seq::empty()
    } else {
        line_bytes(lines.drop_last()) + encode_utf8(lines.last())
    }
}

/// Sends what happens in the spans of jobs to their logs.
#[derive(Debug, Clone, Copy)]
pub struct GitlabLayer {}

impl GitlabLayer {
    /// What to remember of a new span with the given fields.
    pub fn on_new_span(&self, fields: &Vec<Field>) -> (r: SpanMarks)
        ensures
            r == (SpanMarks { job: job_in(fields@), output: output_in(fields@) }),
    {
        SpanMarks { job: find_job(fields), output: find_output(fields) }
    }

    /// The job whose log an event goes to, in spans that are listed from the outermost on.
    pub fn on_event(&self, fields: &Vec<Field>, scope: &Vec<SpanMarks>) -> (r: Option<u64>)
        ensures
            r == event_job(fields@, scope@),
    {
        let mut output = find_output(fields);
        let mut job: Option<u64> = None;
        let mut i: usize = 0;
        assert(scope@.skip(0) =~= scope@);
        while i < scope.len()
            invariant
                i <= scope@.len(),
                output == (output_in(fields@) || exists|j: int|
                    0 <= j < i && (#[trigger] scope@[j]).output),
                first_job(scope@) == (match job {
                    Some(id) => Some(id),
                    None => first_job(scope@.skip(i as int)),
                }),
            decreases scope@.len() - i,
        {
            assert(scope@.skip(i as int)[0] == scope@[i as int]);
            assert(scope@.skip(i as int).skip(1) =~= scope@.skip(i + 1));
            if scope[i].output {
                output = true;
            }
            if job.is_none() {
                job = scope[i].job;
            }
            i += 1;
        }
        if output {
            job
        } else {
            None
        }
    }

    /// Writes the messages of an event to a log, each on a line of its own.
    pub fn write_event(&self, fields: &Vec<Field>, log: &mut JobLog)
        requires
            old(log).wf(),
        ensures
            final(log).wf(),
            final(log).prefixes() == old(log).prefixes(),
            final(log).pending() == old(log).pending() + crate::masking::mask_output(
                old(log).prefixes(),
                old(log).mask_state(),
                line_bytes(event_lines(fields@)),
            ),
            final(log).mask_state() == crate::masking::mask_after(
                old(log).prefixes(),
                old(log).mask_state(),
                line_bytes(event_lines(fields@)),
            ),
    {
        let mut i: usize = 0;
        proof {
            assert(line_bytes(event_lines(fields@.take(0))) =~= Seq::<u8>::empty());
            assert(old(log).pending() + Seq::<u8>::empty() =~= old(log).pending());
        }
        while i < fields.len()
            invariant
                i <= fields@.len(),
                log.wf(),
                log.prefixes() == old(log).prefixes(),
                log.pending() == old(log).pending() + crate::masking::mask_output(
                    old(log).prefixes(),
                    old(log).mask_state(),
                    line_bytes(event_lines(fields@.take(i as int))),
                ),
                log.mask_state() == crate::masking::mask_after(
                    old(log).prefixes(),
                    old(log).mask_state(),
                    line_bytes(event_lines(fields@.take(i as int))),
                ),
            decreases fields@.len() - i,
        {
            let ghost written = line_bytes(event_lines(fields@.take(i as int)));
            assert(fields@.take(i + 1).drop_last() =~= fields@.take(i as int));
            assert(fields@.take(i + 1).last() == fields@[i as int]);
            if text::str_eq(fields[i].name.as_str(), "message") {
                let mut line = fields[i].text.clone();
                line.push('\n');
                let ghost before = log.pending();
                log.trace(line.as_str().as_bytes());
                proof {
                    let more = encode_utf8(line@);
                    let lines = event_lines(fields@.take(i + 1));
                    assert(lines.drop_last() =~= event_lines(fields@.take(i as int)));
                    assert(line_bytes(lines) == written + more);
                    crate::masking::law_mask_chunks(
                        old(log).prefixes(),
                        old(log).mask_state(),
                        written,
                        more,
                    );
                    assert(log.pending() =~= old(log).pending() + crate::masking::mask_output(
                        old(log).prefixes(),
                        old(log).mask_state(),
                        written + more,
                    ));
                }
            }
            i += 1;
        }
        assert(fields@.take(i as int) =~= fields@);
    }
}

proof fn lemma_no_job(scope: Seq<SpanMarks>)
    requires
        forall|i: int| 0 <= i < scope.len() ==> (#[trigger] scope[i]).job is None,
    ensures
        first_job(scope) is None,
    decreases scope.len(),
{
    if scope.len() > 0 {
        assert(scope[0].job is None);
        assert forall|i: int| 0 <= i < scope.skip(1).len() implies (#[trigger] scope.skip(
            1,
        )[i]).job is None by {
            assert(scope.skip(1)[i] == scope[i + 1]);
        }
        lemma_no_job(scope.skip(1));
    }
}

/// What happens outside the spans of jobs goes to no log.
pub proof fn law_no_job_no_log(fields: Seq<Field>, scope: Seq<SpanMarks>)
    requires
        forall|i: int| 0 <= i < scope.len() ==> (#[trigger] scope[i]).job is None,
    ensures
        event_job(fields, scope) is None,
{
    lemma_no_job(scope);
}

/// What neither an event nor its spans mark as output goes to no log.
pub proof fn law_unmarked_stays_out(fields: Seq<Field>, scope: Seq<SpanMarks>)
    requires
        !output_in(fields),
        forall|i: int| 0 <= i < scope.len() ==> !(#[trigger] scope[i]).output,
    ensures
        event_job(fields, scope) is None,
{
}

proof fn lemma_first_job(scope: Seq<SpanMarks>, k: int)
    requires
        0 <= k < scope.len(),
        scope[k].job is Some,
        forall|i: int| 0 <= i < k ==> (#[trigger] scope[i]).job is None,
    ensures
        first_job(scope) == scope[k].job,
    decreases scope.len(),
{
    if k > 0 {
        assert(scope[0].job is None);
        let inner = scope.skip(1);
        assert(inner[k - 1] == scope[k]);
        assert forall|i: int| 0 <= i < k - 1 implies (#[trigger] inner[i]).job is None by {
            assert(inner[i] == scope[i + 1]);
        }
        lemma_first_job(inner, k - 1);
    }
}

/// An event goes to the log of the outermost span that has a job, whichever of its spans, the outermost,
/// the innermost or one between, is marked as output.
pub proof fn law_marked_span_reaches_log(fields: Seq<Field>, scope: Seq<SpanMarks>, i: int, k: int)
    requires
        0 <= i < scope.len(),
        scope[i].output,
        0 <= k < scope.len(),
        scope[k].job is Some,
        forall|j: int| 0 <= j < k ==> (#[trigger] scope[j]).job is None,
    ensures
        event_job(fields, scope) == scope[k].job,
{
    lemma_first_job(scope, k);
}

/// An event that is itself marked as output goes to the log of the outermost span that has a job, whatever
/// its spans are marked as.
pub proof fn law_marked_event_reaches_log(
    fields: Seq<Field>,
    scope: Seq<SpanMarks>,
    m: int,
    k: int,
)
    requires
        0 <= m < fields.len(),
        fields[m].name@ == "gitlab.output"@,
        fields[m].flag == Some(true),
        forall|j: int|
            m < j < fields.len() ==> !((#[trigger] fields[j]).name@ == "gitlab.output"@
                && fields[j].flag is Some),
        0 <= k < scope.len(),
        scope[k].job is Some,
        forall|j: int| 0 <= j < k ==> (#[trigger] scope[j]).job is None,
    ensures
        event_job(fields, scope) == scope[k].job,
{
    law_last_output_counts(fields, m);
    lemma_first_job(scope, k);
}

/// Of several `gitlab.job` fields that hold a number, the last one names the job.
pub proof fn law_last_job_counts(fields: Seq<Field>, m: int)
    requires
        0 <= m < fields.len(),
        fields[m].name@ == "gitlab.job"@,
        fields[m].number is Some,
        forall|j: int|
            m < j < fields.len() ==> !((#[trigger] fields[j]).name@ == "gitlab.job"@
                && fields[j].number is Some),
    ensures
        job_in(fields) == fields[m].number,
    decreases fields.len(),
{
    if m < fields.len() - 1 {
        let before = fields.drop_last();
        assert(fields.last() == fields[fields.len() - 1]);
        assert forall|j: int| m < j < before.len() implies !((#[trigger] before[j]).name@
            == "gitlab.job"@ && before[j].number is Some) by {
            assert(before[j] == fields[j]);
        }
        law_last_job_counts(before, m);
    }
}

/// Fields name no job exactly if no `gitlab.job` field holds a number.
pub proof fn law_no_job_field_no_job(fields: Seq<Field>)
    requires
        forall|j: int|
            0 <= j < fields.len() ==> !((#[trigger] fields[j]).name@ == "gitlab.job"@
                && fields[j].number is Some),
    ensures
        job_in(fields) is None,
    decreases fields.len(),
{
    if fields.len() > 0 {
        let before = fields.drop_last();
        assert(fields.last() == fields[fields.len() - 1]);
        assert forall|j: int| 0 <= j < before.len() implies !((#[trigger] before[j]).name@
            == "gitlab.job"@ && before[j].number is Some) by {
            assert(before[j] == fields[j]);
        }
        law_no_job_field_no_job(before);
    }
}

/// Of several `gitlab.output` fields that hold a truth value, the last one counts.
pub proof fn law_last_output_counts(fields: Seq<Field>, m: int)
    requires
        0 <= m < fields.len(),
        fields[m].name@ == "gitlab.output"@,
        fields[m].flag is Some,
        forall|j: int|
            m < j < fields.len() ==> !((#[trigger] fields[j]).name@ == "gitlab.output"@
                && fields[j].flag is Some),
    ensures
        output_in(fields) == fields[m].flag->0,
    decreases fields.len(),
{
    if m < fields.len() - 1 {
        let before = fields.drop_last();
        assert(fields.last() == fields[fields.len() - 1]);
        assert forall|j: int| m < j < before.len() implies !((#[trigger] before[j]).name@
            == "gitlab.output"@ && before[j].flag is Some) by {
            assert(before[j] == fields[j]);
        }
        law_last_output_counts(before, m);
    }
}

/// Fields without a `gitlab.output` field that holds a truth value ask for no output.
pub proof fn law_no_output_field_no_output(fields: Seq<Field>)
    requires
        forall|j: int|
            0 <= j < fields.len() ==> !((#[trigger] fields[j]).name@ == "gitlab.output"@
                && fields[j].flag is Some),
    ensures
        !output_in(fields),
    decreases fields.len(),
{
    if fields.len() > 0 {
        let before = fields.drop_last();
        assert(fields.last() == fields[fields.len() - 1]);
        assert forall|j: int| 0 <= j < before.len() implies !((#[trigger] before[j]).name@
            == "gitlab.output"@ && before[j].flag is Some) by {
            assert(before[j] == fields[j]);
        }
        law_no_output_field_no_output(before);
    }
}

/// What an event adds to a log is what its fields add, one after the other: a field named `message` its
/// text and a line end, and any other field nothing.
pub proof fn law_messages_become_lines(before: Seq<Field>, field: Field)
    ensures
        line_bytes(event_lines(Seq::<Field>::empty())) == Seq::<u8>::empty(),
        field.name@ == "message"@ ==> line_bytes(event_lines(before.push(field))) == line_bytes(
            event_lines(before),
        ) + encode_utf8(field.text@ + seq!['\n']),
        field.name@ != "message"@ ==> line_bytes(event_lines(before.push(field))) == line_bytes(
            event_lines(before),
        ),
{
    let fields = before.push(field);
    assert(fields.drop_last() =~= before);
    assert(fields.last() == field);
    let line = field.text@.push('\n');
    assert(line =~= field.text@ + seq!['\n']);
    let lines = event_lines(before);
    assert(lines.push(line).drop_last() =~= lines);
    assert(lines.push(line).last() == line);
}

/// Something is of interest exactly if the name of one of its fields begins with these seven characters.
pub proof fn law_gitlab_names(names: Seq<Seq<char>>)
    ensures
        names_gitlab(names) <==> exists|i: int|
            0 <= i < names.len() && (#[trigger] names[i]).len() >= 7 && names[i][0] == 'g'
                && names[i][1] == 'i' && names[i][2] == 't' && names[i][3] == 'l' && names[i][4]
                == 'a' && names[i][5] == 'b' && names[i][6] == '.',
{
    reveal_strlit("gitlab.");
    let start = "gitlab."@;
    assert(start.len() == 7);
    if names_gitlab(names) {
        let i = choose|i: int| 0 <= i < names.len() && text::has_prefix(#[trigger] names[i], start);
        let head = names[i].take(7);
        assert(head == start);
        assert(names[i][0] == head[0] && names[i][1] == head[1] && names[i][2] == head[2]
            && names[i][3] == head[3] && names[i][4] == head[4] && names[i][5] == head[5]
            && names[i][6] == head[6]);
    }
    assert forall|i: int|
        0 <= i < names.len() && (#[trigger] names[i]).len() >= 7 && names[i][0] == 'g'
            && names[i][1] == 'i' && names[i][2] == 't' && names[i][3] == 'l' && names[i][4] == 'a'
            && names[i][5] == 'b' && names[i][6] == '.' implies text::has_prefix(names[i], start) by {
        assert(names[i].take(7) =~= start);
    }
}

/// Spans are known by the names of their fields, in their order.
pub proof fn law_span_names_are_seen(scope: Seq<Vec<String>>, i: int, j: int)
    ensures
        scope_views(scope).len() == scope.len(),
        0 <= i < scope.len() ==> scope_views(scope)[i].len() == scope[i]@.len(),
        0 <= i < scope.len() && 0 <= j < scope[i]@.len() ==> scope_views(scope)[i][j] == scope[i]@[j]@,
{
}

} // verus!
