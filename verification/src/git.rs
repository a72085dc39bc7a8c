//! What to fetch and to check out for a job.
use crate::text;
use vstd::prelude::*;

verus! {

// ---------------------------------------------------------------------------
// Strategies and errors
// ---------------------------------------------------------------------------

/// How the sources of a job are obtained, as the variable `GIT_STRATEGY` says.
#[derive(Debug, Clone, Copy, PartialEq, Eq, Structural)]
pub enum GitStrategy {
    Clone,
    Fetch,
    /// `none`: the sources are left as they are.
    Untouched,
    Empty,
}

/// The strategy with the given name.
pub open spec fn strategy_named(name: Seq<char>) -> Option<GitStrategy> {
    if name == "clone"@ {
        Some(GitStrategy::Clone)
    } else if name == "fetch"@ {
        Some(GitStrategy::Fetch)
    } else if name == "none"@ {
        Some(GitStrategy::Untouched)
    } else if name == "empty"@ {
        Some(GitStrategy::Empty)
    } else {
        None
    }
}

/// Why the sources of a job could not be obtained.
#[derive(Debug, Clone)]
pub enum GitCheckoutError {
    /// The checkout was cancelled.
    Cancelled,
    /// The repository does not have the commit.
    MissingCommit,
    /// There is no strategy of this name.
    InvalidStrategy(String),
    /// This is no object id.
    InvalidObjectId(String),
    /// This is no refspec.
    InvalidRefspec(String),
    /// What git reported.
    Other(String),
}

impl GitStrategy {
    /// The strategy with the given name.
    pub fn from_name(name: &str) -> (r: Result<GitStrategy, GitCheckoutError>)
        ensures
            match r {
                Ok(strategy) => strategy_named(name@) == Some(strategy),
                Err(GitCheckoutError::InvalidStrategy(s)) => strategy_named(name@) is None && s@
                    == name@,
                Err(_) => false,
            },
    {
        if text::str_eq(name, "clone") {
            Ok(GitStrategy::Clone)
        } else if text::str_eq(name, "fetch") {
            Ok(GitStrategy::Fetch)
        } else if text::str_eq(name, "none") {
            Ok(GitStrategy::Untouched)
        } else if text::str_eq(name, "empty") {
            Ok(GitStrategy::Empty)
        } else {
            Err(GitCheckoutError::InvalidStrategy(name.to_owned()))
        }
    }
}

// ---------------------------------------------------------------------------
// Object ids and refspecs
// ---------------------------------------------------------------------------

/// The number that a hexadecimal digit stands for, in either case.
pub open spec fn hex_value(c: char) -> Option<u8> {
    let code = c as u32;
    if 48 <= code <= 57 {
        Some((code - 48) as u8)
    } else if 97 <= code <= 102 {
        Some((code - 87) as u8)
    } else if 65 <= code <= 70 {
        Some((code - 55) as u8)
    } else {
        None
    }
}

/// Whether a text is the hexadecimal notation of an object id.
pub open spec fn is_object_id(s: Seq<char>) -> bool {
    &&& s.len() == 40
    &&& forall|i: int| 0 <= i < s.len() ==> hex_value(#[trigger] s[i]) is Some
}

/// The bytes of the object id that a text holds.
pub open spec fn object_id(s: Seq<char>) -> Seq<u8> {
    Seq::new(20, |i: int| (hex_value(s[2 * i])->0 * 16 + hex_value(s[2 * i + 1])->0) as u8)
}

/// `gix::ObjectId::from_hex` takes forty hexadecimal digits, in either case, and nothing else, and
/// makes one byte of each two digits.
#[verifier::external_body]
fn parse_object_id(s: &str) -> (r: Option<Vec<u8>>)
    ensures
        r is Some == is_object_id(s@),
        r matches Some(id) ==> id@ == object_id(s@),
{
    gix::ObjectId::from_hex(s.as_bytes()).ok().map(|id| id.as_slice().to_vec())
}

/// Whether the `gix` crate accepts a text as a refspec to fetch.
pub uninterp spec fn is_fetch_refspec(spec: Seq<char>) -> bool;

/// `gix::refspec::parse` for a fetch: whether it accepts the text is a function of the text.
#[verifier::external_body]
fn check_refspec(spec: &str) -> (r: bool)
    ensures
        r == is_fetch_refspec(spec@),
{
    gix::refspec::parse(spec.into(), gix::refspec::parse::Operation::Fetch).is_ok()
}

/// Reading an id that was written with lower-case digits gives the same bytes.
pub proof fn law_object_id_round_trip(id: Seq<u8>)
    requires
        id.len() == 20,
    ensures
        is_object_id(text::hex_text(id)),
        object_id(text::hex_text(id)) == id,
{
    let s = text::hex_text(id);
    text::lemma_hex_text_len(id);
    assert forall|i: int| 0 <= i < id.len() implies #[trigger] s[2 * i] == text::hex_char(
        id[i] as int / 16,
    ) && s[2 * i + 1] == text::hex_char(id[i] as int % 16) by {
        lemma_hex_text_at(id, i);
    }
    assert forall|i: int| 0 <= i < s.len() implies hex_value(#[trigger] s[i]) is Some by {
        let k = i / 2;
        assert(s[2 * k] == text::hex_char(id[k] as int / 16));
        lemma_hex_digit(id[k] as int / 16);
        lemma_hex_digit(id[k] as int % 16);
        assert(i == 2 * k || i == 2 * k + 1);
    }
    assert forall|i: int| 0 <= i < 20 implies #[trigger] object_id(s)[i] == id[i] by {
        assert(s[2 * i] == text::hex_char(id[i] as int / 16));
        lemma_hex_digit(id[i] as int / 16);
        lemma_hex_digit(id[i] as int % 16);
    }
    assert(object_id(s) =~= id);
}

proof fn lemma_hex_digit(d: int)
    requires
        0 <= d < 16,
    ensures
        hex_value(text::hex_char(d)) == Some(d as u8),
{
}

proof fn lemma_hex_text_at(bytes: Seq<u8>, i: int)
    requires
        0 <= i < bytes.len(),
    ensures
        text::hex_text(bytes)[2 * i] == text::hex_char(bytes[i] as int / 16),
        text::hex_text(bytes)[2 * i + 1] == text::hex_char(bytes[i] as int % 16),
    decreases bytes.len(),
{
    text::lemma_hex_text_len(bytes.drop_last());
    if i < bytes.len() - 1 {
        assert(bytes.drop_last()[i] == bytes[i]);
        lemma_hex_text_at(bytes.drop_last(), i);
    }
}

/// The position of the first text that is no refspec, or the number of texts where there is none.
pub open spec fn first_invalid(specs: Seq<Seq<char>>) -> nat
    decreases specs.len(),
{
    if specs.len() == 0 || !is_fetch_refspec(specs[0]) {
        0
    } else {
        1 + first_invalid(specs.skip(1))
    }
}

/// Checks refspecs, and names the first that is none.
pub fn check_refspecs(specs: &Vec<String>) -> (r: Result<(), GitCheckoutError>)
    ensures
        ({
            let bad = first_invalid(text::views(specs@));
            match r {
                Ok(()) => bad == specs@.len(),
                Err(GitCheckoutError::InvalidRefspec(s)) => bad < specs@.len() && s@
                    == specs@[bad as int]@,
                Err(_) => false,
            }
        }),
{
    let ghost all = text::views(specs@);
    let mut i: usize = 0;
    assert(all.skip(0) =~= all);
    while i < specs.len()
        invariant
            i <= specs@.len(),
            all == text::views(specs@),
            first_invalid(all) == i + first_invalid(all.skip(i as int)),
        decreases specs@.len() - i,
    {
        assert(all.skip(i as int)[0] == specs@[i as int]@);
        if !check_refspec(specs[i].as_str()) {
            return Err(GitCheckoutError::InvalidRefspec(specs[i].clone()));
        }
        assert(all.skip(i as int).skip(1) =~= all.skip(i + 1));
        i += 1;
    }
    Ok(())
}

// ---------------------------------------------------------------------------
// Plans
// ---------------------------------------------------------------------------

/// What to check out of a fetched repository.
#[derive(Debug, Clone)]
pub enum CheckoutTarget {
    /// The commit with this id.
    Commit(Vec<u8>),
    /// The commit that this reference leads to.
    Reference(String),
    /// The commit that the remote has checked out.
    Head,
}

/// What to fetch and what to check out.
#[derive(Debug, Clone)]
pub struct CheckoutPlan {
    /// The refspecs to fetch besides those of the remote.
    pub refspecs: Vec<String>,
    /// How many commits to fetch; all of them where this is `None`. Never zero.
    pub depth: Option<u32>,
    /// What to check out.
    pub target: CheckoutTarget,
}

/// The refspec that fetches `head`: an object by its id, anything else as a branch of the remote.
pub open spec fn head_refspec(head: Seq<char>) -> Seq<char> {
    if is_object_id(head) {
        "+"@ + head
    } else {
        "+refs/heads/"@ + head + ":refs/remotes/origin/"@ + head
    }
}

/// The refspecs to fetch: the given ones, and the one for the head where that is valid.
pub open spec fn planned_refspecs(head: Option<Seq<char>>, specs: Seq<Seq<char>>) -> Seq<Seq<char>> {
    match head {
        Some(h) => if is_fetch_refspec(head_refspec(h)) {
            specs.push(head_refspec(h))
        } else {
            specs
        },
        None => specs,
    }
}

/// A depth of zero asks for all commits.
pub open spec fn planned_depth(depth: Option<u32>) -> Option<u32> {
    match depth {
        Some(d) => if d == 0 {
            None
        } else {
            Some(d)
        },
        None => None,
    }
}

/// What is checked out for a head.
pub open spec fn is_target(target: CheckoutTarget, head: Option<Seq<char>>) -> bool {
    match head {
        Some(h) => if is_object_id(h) {
            target matches CheckoutTarget::Commit(id) && id@ == object_id(h)
        } else {
            target matches CheckoutTarget::Reference(name) && name@ == "refs/remotes/origin/"@ + h
        },
        None => target is Head,
    }
}

/// The view of an optional text.
pub open spec fn optional_view(s: Option<&str>) -> Option<Seq<char>> {
    match s {
        Some(t) => Some(t@),
        None => None,
    }
}

/// Plans the checkout of `head`, which is an object id or the name of a branch; without it, of what the
/// remote has checked out. Fails on the first text of `refspecs` that is no refspec.
pub fn plan_checkout(head: Option<&str>, refspecs: &Vec<String>, depth: Option<u32>) -> (r: Result<
    CheckoutPlan,
    GitCheckoutError,
>)
    ensures
        ({
            let specs = text::views(refspecs@);
            let bad = first_invalid(specs);
            match r {
                Ok(plan) => {
                    &&& bad == specs.len()
                    &&& text::views(plan.refspecs@) == planned_refspecs(optional_view(head), specs)
                    &&& plan.depth == planned_depth(depth)
                    &&& is_target(plan.target, optional_view(head))
                },
                Err(GitCheckoutError::InvalidRefspec(s)) => bad < specs.len() && s@
                    == specs[bad as int],
                Err(_) => false,
            }
        }),
{
    match check_refspecs(refspecs) {
        Ok(()) => {},
        Err(e) => return Err(e),
    }
    let mut planned = text::clone_strings(refspecs);
    let ghost before = planned@;
    let target = match head {
        Some(h) => {
            let id = parse_object_id(h);
            let spec = if id.is_some() {
                "+".to_owned().concat(h)
            } else {
                "+refs/heads/".to_owned().concat(h).concat(":refs/remotes/origin/").concat(h)
            };
            if check_refspec(spec.as_str()) {
                planned.push(spec);
                assert(text::views(planned@) =~= text::views(before).push(spec@));
            }
            match id {
                Some(id) => CheckoutTarget::Commit(id),
                None => CheckoutTarget::Reference("refs/remotes/origin/".to_owned().concat(h)),
            }
        },
        None => CheckoutTarget::Head,
    };
    let depth = match depth {
        Some(d) => if d == 0 {
            None
        } else {
            Some(d)
        },
        None => None,
    };
    Ok(CheckoutPlan { refspecs: planned, depth, target })
}

/// What to fetch and to check out for a job.
#[derive(Debug, Clone)]
pub struct ClonePlan {
    pub repo_url: String,
    /// The id of the commit to check out.
    pub sha: Vec<u8>,
    /// The refspecs to fetch besides those of the remote.
    pub refspecs: Vec<String>,
    /// How many commits to fetch; all of them where this is `None`. Never zero.
    pub depth: Option<u32>,
}

impl ClonePlan {
    /// The note that the reference log of the clone gets.
    pub fn reflog_message(&self) -> (r: String)
        ensures
            r@ == "clone repo at "@ + text::hex_text(self.sha@),
    {
        let mut r = "clone repo at ".to_owned();
        text::append_hex(&mut r, self.sha.as_slice());
        r
    }
}

/// Plans the clone for a job from what the server says of its repository. An invalid id of the commit
/// counts before an invalid refspec.
pub fn plan_clone(info: &crate::client::GitInfo) -> (r: Result<ClonePlan, GitCheckoutError>)
    ensures
        ({
            let specs = text::views(info.refspecs@);
            let bad = first_invalid(specs);
            match r {
                Ok(plan) => {
                    &&& is_object_id(info.sha@)
                    &&& bad == specs.len()
                    &&& plan.repo_url@ == info.repo_url@
                    &&& plan.sha@ == object_id(info.sha@)
                    &&& text::views(plan.refspecs@) == specs
                    &&& plan.depth == planned_depth(Some(info.depth))
                },
                Err(GitCheckoutError::InvalidObjectId(s)) => !is_object_id(info.sha@) && s@
                    == info.sha@,
                Err(GitCheckoutError::InvalidRefspec(s)) => is_object_id(info.sha@) && bad
                    < specs.len() && s@ == specs[bad as int],
                Err(_) => false,
            }
        }),
{
    let sha = match parse_object_id(info.sha.as_str()) {
        Some(id) => id,
        None => return Err(GitCheckoutError::InvalidObjectId(info.sha.clone())),
    };
    match check_refspecs(&info.refspecs) {
        Ok(()) => {},
        Err(e) => return Err(e),
    }
    let depth = if info.depth == 0 {
        None
    } else {
        Some(info.depth)
    };
    Ok(
        ClonePlan {
            repo_url: info.repo_url.clone(),
            sha,
            refspecs: text::clone_strings(&info.refspecs),
            depth,
        },
    )
}

// ---------------------------------------------------------------------------
// Laws
// ---------------------------------------------------------------------------

/// The four strategies have these names, and no other name is one of a strategy.
pub proof fn law_strategies_have_names(name: Seq<char>)
    ensures
        strategy_named(name) == Some(GitStrategy::Clone) <==> name == "clone"@,
        strategy_named(name) == Some(GitStrategy::Fetch) <==> name == "fetch"@,
        strategy_named(name) == Some(GitStrategy::Untouched) <==> name == "none"@,
        strategy_named(name) == Some(GitStrategy::Empty) <==> name == "empty"@,
{
    reveal_strlit("clone");
    reveal_strlit("fetch");
    reveal_strlit("none");
    reveal_strlit("empty");
    assert("clone"@[0] == 'c' && "fetch"@[0] == 'f' && "none"@[0] == 'n' && "empty"@[0] == 'e');
}

/// The refspec that is named as wrong is the first that is, and none is named where all are right.
pub proof fn law_first_wrong_refspec_is_named(specs: Seq<Seq<char>>, k: int)
    requires
        0 <= k <= specs.len(),
        forall|i: int| 0 <= i < k ==> is_fetch_refspec(#[trigger] specs[i]),
        k < specs.len() ==> !is_fetch_refspec(specs[k]),
    ensures
        first_invalid(specs) == k,
    decreases specs.len(),
{
    if k > 0 {
        let rest = specs.skip(1);
        assert(is_fetch_refspec(specs[0]));
        assert forall|i: int| 0 <= i < k - 1 implies is_fetch_refspec(#[trigger] rest[i]) by {
            assert(rest[i] == specs[i + 1]);
        }
        if k < specs.len() {
            assert(rest[k - 1] == specs[k]);
        }
        law_first_wrong_refspec_is_named(rest, k - 1);
    }
}

/// What is fetched for a head is what is checked out: of a branch, the reference that the refspec writes it to;
/// of an object id, the object itself.
pub proof fn law_head_is_fetched_and_checked_out(head: Seq<char>, target: CheckoutTarget)
    requires
        is_target(target, Some(head)),
    ensures
        match target {
            CheckoutTarget::Commit(id) => is_object_id(head) && id@ == object_id(head) && head_refspec(
                head,
            ) == "+"@ + head,
            CheckoutTarget::Reference(name) => !is_object_id(head) && head_refspec(head)
                == "+refs/heads/"@ + head + ":"@ + name@,
            CheckoutTarget::Head => false,
        },
{
    reveal_strlit(":refs/remotes/origin/");
    reveal_strlit("refs/remotes/origin/");
    reveal_strlit(":");
    if let CheckoutTarget::Reference(name) = target {
        assert(":refs/remotes/origin/"@ =~= ":"@ + "refs/remotes/origin/"@);
        assert("+refs/heads/"@ + head + ":refs/remotes/origin/"@ + head =~= "+refs/heads/"@ + head
            + ":"@ + name@);
    }
}

/// What is wanted besides is fetched as it is and first; the head comes last, where it makes a refspec.
pub proof fn law_wanted_refspecs_are_fetched(head: Seq<char>, specs: Seq<Seq<char>>)
    ensures
        planned_refspecs(None, specs) == specs,
        planned_refspecs(Some(head), specs).take(specs.len() as int) == specs,
        planned_refspecs(Some(head), specs).len() == specs.len() + (if is_fetch_refspec(
            head_refspec(head),
        ) {
            1nat
        } else {
            0nat
        }),
        is_fetch_refspec(head_refspec(head)) ==> planned_refspecs(Some(head), specs).last()
            == head_refspec(head),
{
    assert(planned_refspecs(Some(head), specs).take(specs.len() as int) =~= specs);
}

/// As many commits are fetched as are asked for; all of them where none is asked for or no number is given.
pub proof fn law_depth_is_as_asked(depth: u32)
    ensures
        planned_depth(Some(depth)) is None <==> depth == 0,
        depth > 0 ==> planned_depth(Some(depth)) == Some(depth),
        planned_depth(None) is None,
{
}

/// A head that is given is known by its characters.
pub proof fn law_head_is_seen(head: &str)
    ensures
        optional_view(Some(head)) == Some(head@),
        optional_view(None) is None,
{
}

} // verus!
