//! Paths of artifact files, with `/` between their parts, and the patterns that select them.
use crate::text;
use normalize_path::NormalizePath;
use vstd::prelude::*;

verus! {

// ---------------------------------------------------------------------------
// Normal paths
// ---------------------------------------------------------------------------

/// The parts of a path: what stands between slashes, without empty parts and single dots.
pub open spec fn path_parts(path: Seq<char>) -> Seq<Seq<char>> {
    text::split(path, '/').filter(|p: Seq<char>| p.len() > 0 && p != seq!['.'])
}

/// Whether a path starts at the root.
pub open spec fn is_absolute(path: Seq<char>) -> bool {
    path.len() > 0 && path[0] == '/'
}

/// The parts that are left when each `..` takes away the part before it, if there is one.
pub open spec fn collapse(parts: Seq<Seq<char>>) -> Seq<Seq<char>>
    decreases parts.len(),
{
    if parts.len() == 0 {
        Seq::empty()
    } else {
        let before = collapse(parts.drop_last());
        if parts.last() != seq!['.', '.'] {
            before.push(parts.last())
        } else if before.len() > 0 {
            before.drop_last()
        } else {
            before
        }
    }
}

/// Whether no `..` lacks a part before it that it could take away.
pub open spec fn stays_inside(parts: Seq<Seq<char>>) -> bool
    decreases parts.len(),
{
    parts.len() > 0 ==> {
        &&& stays_inside(parts.drop_last())
        &&& parts.last() == seq!['.', '.'] ==> collapse(parts.drop_last()).len() > 0
    }
}

/// The parts with a slash between each two.
pub open spec fn join(parts: Seq<Seq<char>>) -> Seq<char>
    decreases parts.len(),
{
    if parts.len() == 0 {
        Seq::empty()
    } else if parts.len() == 1 {
        parts[0]
    } else {
        join(parts.drop_last()).push('/') + parts.last()
    }
}

/// A path without redundant parts.
pub open spec fn normal_path(path: Seq<char>) -> Seq<char> {
    let rest = join(collapse(path_parts(path)));
    if is_absolute(path) {
        seq!['/'] + rest
    } else {
        rest
    }
}

/// A relative path without redundant parts; `None` where the path is absolute or leads outside.
pub open spec fn normal_inside(path: Seq<char>) -> Option<Seq<char>> {
    if is_absolute(path) || !stays_inside(path_parts(path)) {
        None
    } else {
        Some(join(collapse(path_parts(path))))
    }
}

/// `NormalizePath::normalize` drops empty parts and single dots, lets each `..` take away the part
/// before it, and keeps a leading slash. Holds where `/` separates the parts of a path.
#[verifier::external_body]
fn normalize(path: &str) -> (r: String)
    ensures
        r@ == normal_path(path@),
{
    std::path::Path::new(path).normalize().to_string_lossy().into_owned()
}

/// `NormalizePath::try_normalize` does the same, but gives `None` for a path that is absolute or has
/// a `..` with no part before it. Holds where `/` separates the parts of a path.
#[verifier::external_body]
fn try_normalize(path: &str) -> (r: Option<String>)
    ensures
        r is Some == normal_inside(path@) is Some,
        r matches Some(s) ==> Some(s@) == normal_inside(path@),
{
    std::path::Path::new(path).try_normalize().map(|p| p.to_string_lossy().into_owned())
}

/// A path without redundant parts.
pub fn normalize_path(path: &str) -> (r: String)
    ensures
        r@ == normal_path(path@),
{
    normalize(path)
}

/// The path of `name` in the directory `dir`; `name` is relative.
pub open spec fn child_path(dir: Seq<char>, name: Seq<char>) -> Seq<char> {
    if dir.len() == 0 || dir.last() == '/' {
        dir + name
    } else {
        dir.push('/') + name
    }
}

/// The path of `name` in the directory `dir`; `name` is relative.
pub fn join_path(dir: &str, name: &str) -> (r: String)
    ensures
        r@ == child_path(dir@, name@),
{
    let n = dir.unicode_len();
    let mut r = dir.to_owned();
    if n > 0 && dir.get_char(n - 1) != '/' {
        r.push('/');
    }
    r.append(name);
    r
}

// ---------------------------------------------------------------------------
// Directories above a path
// ---------------------------------------------------------------------------

/// The position of the last slash, or -1 where there is none.
pub open spec fn last_slash(path: Seq<char>) -> int
    decreases path.len(),
{
    if path.len() == 0 {
        -1
    } else if path.last() == '/' {
        path.len() - 1
    } else {
        last_slash(path.drop_last())
    }
}

/// Whether the first part of a path is a single dot, which is the only one that counts as a part.
pub open spec fn leads_with_dot(path: Seq<char>) -> bool {
    path.len() > 0 && path[0] == '.' && (path.len() == 1 || path[1] == '/')
}

/// How many characters the root or the leading dot of a path takes.
pub open spec fn body_start(path: Seq<char>) -> nat {
    if is_absolute(path) || leads_with_dot(path) {
        1
    } else {
        0
    }
}

/// Where the last part of a path, with the slash before it, begins; at `start` or later.
pub open spec fn last_cut(path: Seq<char>, start: nat) -> int {
    if last_slash(path) >= start {
        last_slash(path)
    } else {
        start as int
    }
}

/// The last part of a path, from `start` on.
pub open spec fn last_part(path: Seq<char>, start: nat) -> Seq<char> {
    if last_slash(path) >= start {
        path.skip(last_slash(path) + 1)
    } else {
        path.skip(start as int)
    }
}

/// A path without the empty parts and single dots at its end, as far as they come after `start`.
pub open spec fn trimmed_from(path: Seq<char>, start: nat) -> Seq<char>
    decreases path.len(),
{
    let cut = last_cut(path, start);
    let part = last_part(path, start);
    if path.len() > start && cut < path.len() && (part.len() == 0 || part == seq!['.']) {
        trimmed_from(path.take(cut), start)
    } else {
        path
    }
}

/// A path without the empty parts and single dots at its end.
pub open spec fn trimmed(path: Seq<char>) -> Seq<char> {
    trimmed_from(path, body_start(path))
}

/// The path without its last part; `None` for a path that is nothing but a root, and for the empty path.
pub open spec fn parent_path(path: Seq<char>) -> Option<Seq<char>> {
    let start = body_start(path);
    let whole = trimmed(path);
    if whole.len() > start {
        Some(trimmed_from(whole.take(last_cut(whole, start)), start))
    } else if leads_with_dot(path) {
        Some(Seq::empty())
    } else {
        None
    }
}

proof fn lemma_last_slash(path: Seq<char>)
    ensures
        -1 <= last_slash(path) < path.len(),
        last_slash(path) >= 0 ==> path[last_slash(path)] == '/',
    decreases path.len(),
{
    if path.len() > 0 && path.last() != '/' {
        lemma_last_slash(path.drop_last());
    }
}

proof fn lemma_trimmed_shorter(path: Seq<char>, start: nat)
    ensures
        trimmed_from(path, start).len() <= path.len(),
        path.len() >= start ==> trimmed_from(path, start).len() >= start,
    decreases path.len(),
{
    lemma_last_slash(path);
    let cut = last_cut(path, start);
    let part = last_part(path, start);
    if path.len() > start && cut < path.len() && (part.len() == 0 || part == seq!['.']) {
        lemma_trimmed_shorter(path.take(cut), start);
    }
}

/// What is left of a path without its last part is shorter than the path.
pub proof fn lemma_parent_shorter(path: Seq<char>)
    ensures
        parent_path(path) matches Some(p) ==> p.len() < path.len(),
{
    let start = body_start(path);
    let whole = trimmed(path);
    lemma_trimmed_shorter(path, start);
    lemma_last_slash(whole);
    if whole.len() > start {
        lemma_trimmed_shorter(whole.take(last_cut(whole, start)), start);
    }
}

/// A path and all directories that it lies in, innermost first.
pub open spec fn ancestors(path: Seq<char>) -> Seq<Seq<char>>
    decreases path.len(),
{
    match parent_path(path) {
        Some(p) => if p.len() < path.len() {
            seq![path] + ancestors(p)
        } else {
            seq![path]
        },
        None => seq![path],
    }
}

/// The position of the last slash among the first `n` characters, if it is at `start` or later.
fn find_slash(path: &[char], n: usize, start: usize) -> (r: Option<usize>)
    requires
        n <= path@.len(),
    ensures
        match r {
            Some(i) => last_slash(path@.take(n as int)) == i && start <= i < n,
            None => last_slash(path@.take(n as int)) < start,
        },
{
    let mut i: usize = n;
    while i > start
        invariant
            i <= n <= path@.len(),
            last_slash(path@.take(i as int)) == last_slash(path@.take(n as int)),
        decreases i,
    {
        assert(path@.take(i as int).last() == path@[i - 1]);
        if path[i - 1] == '/' {
            return Some(i - 1);
        }
        assert(path@.take(i as int).drop_last() =~= path@.take(i - 1));
        i = i - 1;
    }
    proof {
        lemma_last_slash(path@.take(i as int));
    }
    None
}

/// How many of the first `n` characters are left when the end is trimmed.
fn trim_end(path: &[char], n: usize, start: usize) -> (r: usize)
    requires
        n <= path@.len(),
    ensures
        r <= n,
        path@.take(r as int) == trimmed_from(path@.take(n as int), start as nat),
{
    let mut m: usize = n;
    while m > start
        invariant
            m <= n <= path@.len(),
            trimmed_from(path@.take(m as int), start as nat) == trimmed_from(
                path@.take(n as int),
                start as nat,
            ),
        decreases m,
    {
        let ghost now = path@.take(m as int);
        let (cut, from): (usize, usize) = match find_slash(path, m, start) {
            Some(i) => (i, i + 1),
            None => (start, start),
        };
        assert(last_cut(now, start as nat) == cut);
        assert(last_part(now, start as nat) =~= path@.subrange(from as int, m as int));
        let ghost part = path@.subrange(from as int, m as int);
        proof {
            if part == seq!['.'] {
                assert(part.len() == 1);
                assert(part[0] == '.');
                assert(part[0] == path@[from as int]);
            }
        }
        if from == m || (m - from == 1 && path[from] == '.') {
            proof {
                if from < m {
                    assert(part =~= seq!['.']);
                }
                assert(now.take(cut as int) =~= path@.take(cut as int));
            }
            m = cut;
        } else {
            return m;
        }
    }
    m
}

fn parent(path: &[char]) -> (r: Option<Vec<char>>)
    ensures
        r is Some == parent_path(path@) is Some,
        r matches Some(p) ==> Some(p@) == parent_path(path@),
{
    let absolute = path.len() > 0 && path[0] == '/';
    let dotted = path.len() > 0 && path[0] == '.' && (path.len() == 1 || path[1] == '/');
    let start: usize = if absolute || dotted {
        1
    } else {
        0
    };
    assert(path@.take(path@.len() as int) =~= path@);
    let n = trim_end(path, path.len(), start);
    let ghost whole = path@.take(n as int);
    if n > start {
        let cut: usize = match find_slash(path, n, start) {
            Some(i) => i,
            None => start,
        };
        assert(whole.take(cut as int) =~= path@.take(cut as int));
        let m = trim_end(path, cut, start);
        let r = vstd::slice::slice_to_vec(text::slice_range(path, 0, m));
        assert(r@ =~= path@.take(m as int));
        Some(r)
    } else if dotted {
        let r: Vec<char> = Vec::new();
        assert(r@ =~= Seq::<char>::empty());
        Some(r)
    } else {
        None
    }
}

/// A path and all directories that it lies in, innermost first.
pub fn path_ancestors(path: &str) -> (r: Vec<String>)
    ensures
        text::views(r@) == ancestors(path@),
{
    let mut current = text::chars_of(path);
    let mut r: Vec<String> = Vec::new();
    r.push(path.to_owned());
    let ghost mut rest = ancestors(path@);
    assert(text::views(r@) + rest.skip(1) =~= ancestors(path@));
    loop
        invariant_except_break
            rest == ancestors(current@),
            text::views(r@) + rest.skip(1) == ancestors(path@),
        ensures
            text::views(r@) == ancestors(path@),
        decreases current@.len(),
    {
        proof {
            lemma_parent_shorter(current@);
        }
        match parent(current.as_slice()) {
            Some(p) => {
                let ghost before = r@;
                r.push(text::string_of(p.as_slice()));
                proof {
                    assert(rest =~= seq![current@] + ancestors(p@));
                    assert(rest.skip(1) =~= ancestors(p@));
                    assert(ancestors(p@)[0] == p@);
                    assert(text::views(r@) =~= text::views(before).push(p@));
                    assert(text::views(r@) + ancestors(p@).skip(1) =~= text::views(before)
                        + ancestors(p@));
                    rest = ancestors(p@);
                }
                current = p;
            },
            None => {
                assert(rest.skip(1) =~= Seq::<Seq<char>>::empty());
                assert(text::views(r@) =~= ancestors(path@));
                break;
            },
        }
    }
    r
}

// ---------------------------------------------------------------------------
// Patterns
// ---------------------------------------------------------------------------

/// Whether a text ends in a slash.
pub open spec fn ends_in_slash(s: Seq<char>) -> bool {
    s.len() > 0 && s.last() == '/'
}

/// Whether `pattern`, compiled by the `glob` crate, matches `path` with the given options; `None`
/// where the pattern is malformed.
pub uninterp spec fn glob_match(
    pattern: Seq<char>,
    path: Seq<char>,
    case_sensitive: bool,
    literal_separator: bool,
    literal_leading_dot: bool,
) -> Option<bool>;

/// `glob::Pattern::new`, then `Pattern::matches_path_with`. The outcome is a function of all arguments.
/// Whether the pattern compiles depends on the pattern alone; which patterns do is not stated.
///
/// Where wildcards match no slash, one that does not end in a slash itself matches a path that does only if
/// it ends in `*` or `**`. These match the name of anything in that directory too, dots included where they
/// are nothing special. Holds where `/` separates the parts of a path.
#[verifier::external_body]
fn match_glob(
    pattern: &str,
    path: &str,
    case_sensitive: bool,
    literal_separator: bool,
    literal_leading_dot: bool,
) -> (r: Option<bool>)
    ensures
        r == glob_match(pattern@, path@, case_sensitive, literal_separator, literal_leading_dot),
        forall|other: Seq<char>| #[trigger]
            glob_match(pattern@, other, case_sensitive, literal_separator, literal_leading_dot) is Some
                == r is Some,
        literal_separator && !literal_leading_dot && r == Some(true) && ends_in_slash(path@)
            && !ends_in_slash(pattern@) ==> forall|name: Seq<char>|
            !name.contains('/') ==> #[trigger] glob_match(
                pattern@,
                path@ + name,
                case_sensitive,
                literal_separator,
                literal_leading_dot,
            ) == Some(true),
{
    let compiled = glob::Pattern::new(pattern).ok()?;
    let options = glob::MatchOptions {
        case_sensitive,
        require_literal_separator: literal_separator,
        require_literal_leading_dot: literal_leading_dot,
    };
    Some(compiled.matches_path_with(std::path::Path::new(path), options))
}

/// Whether two paths are made of the same parts.
pub open spec fn same_path(a: Seq<char>, b: Seq<char>) -> bool {
    &&& is_absolute(a) == is_absolute(b)
    &&& leads_with_dot(a) == leads_with_dot(b)
    &&& path_parts(a) == path_parts(b)
}

/// The parts of a path.
fn parts_of(path: &str) -> (r: Vec<String>)
    ensures
        text::views(r@) == path_parts(path@),
{
    let pieces = text::split_string(path, '/');
    let ghost keep = |p: Seq<char>| p.len() > 0 && p != seq!['.'];
    let ghost all = text::views(pieces@);
    let mut r: Vec<String> = Vec::new();
    let mut i: usize = 0;
    proof {
        reveal_strlit(".");
        assert("."@ =~= seq!['.']);
        reveal(Seq::filter);
        assert(text::views(r@) =~= all.take(0).filter(keep));
    }
    while i < pieces.len()
        invariant
            i <= pieces@.len(),
            all == text::views(pieces@),
            "."@ == seq!['.'],
            keep == (|p: Seq<char>| p.len() > 0 && p != seq!['.']),
            text::views(r@) == all.take(i as int).filter(keep),
        decreases pieces@.len() - i,
    {
        let ghost before = r@;
        proof {
            reveal(Seq::filter);
            assert(all.take(i + 1).drop_last() =~= all.take(i as int));
            assert(all.take(i + 1).last() == pieces@[i as int]@);
        }
        if pieces[i].as_str().unicode_len() > 0 && !text::str_eq(pieces[i].as_str(), ".") {
            r.push(pieces[i].clone());
            assert(text::views(r@) =~= text::views(before).push(pieces@[i as int]@));
        }
        i += 1;
    }
    assert(all.take(i as int) =~= all);
    r
}

/// Whether two paths are made of the same parts.
fn equal_paths(a: &str, b: &str) -> (r: bool)
    ensures
        r == same_path(a@, b@),
{
    let x = text::chars_of(a);
    let y = text::chars_of(b);
    let absolute_x = x.len() > 0 && x[0] == '/';
    let absolute_y = y.len() > 0 && y[0] == '/';
    let dotted_x = x.len() > 0 && x[0] == '.' && (x.len() == 1 || x[1] == '/');
    let dotted_y = y.len() > 0 && y[0] == '.' && (y.len() == 1 || y[1] == '/');
    let p = parts_of(a);
    let q = parts_of(b);
    assert(p@.len() == path_parts(a@).len() && q@.len() == path_parts(b@).len());
    if absolute_x != absolute_y || dotted_x != dotted_y || p.len() != q.len() {
        return false;
    }
    let mut i: usize = 0;
    while i < p.len()
        invariant
            i <= p@.len(),
            p@.len() == q@.len(),
            text::views(p@) == path_parts(a@),
            text::views(q@) == path_parts(b@),
            forall|j: int| 0 <= j < i ==> (#[trigger] p@[j])@ == q@[j]@,
        decreases p@.len() - i,
    {
        if !text::str_eq(p[i].as_str(), q[i].as_str()) {
            assert(path_parts(a@)[i as int] != path_parts(b@)[i as int]);
            return false;
        }
        i += 1;
    }
    assert(text::views(p@) =~= text::views(q@));
    true
}

/// Whether a path is selected, given how the pattern matches it: a malformed pattern is taken as a
/// plain path.
pub open spec fn selects(outcome: Option<bool>, pattern: Seq<char>, path: Seq<char>) -> bool {
    match outcome {
        Some(matches) => matches,
        None => same_path(path, pattern),
    }
}

/// Whether a path is selected, given how the pattern matches it.
pub fn is_selected(outcome: Option<bool>, pattern: &str, path: &str) -> (r: bool)
    ensures
        r == selects(outcome, pattern@, path@),
{
    match outcome {
        Some(matches) => matches,
        None => equal_paths(path, pattern),
    }
}

/// Whether a pattern selects exactly this path. Letters are matched by case, wildcards never match a
/// slash, and a leading dot is nothing special.
pub open spec fn pattern_selects(pattern: Seq<char>, path: Seq<char>) -> bool {
    match normal_inside(pattern) {
        Some(p) => selects(glob_match(p, path, true, true, false), p, path),
        None => false,
    }
}

/// Whether one of the patterns selects the file or a directory that it lies in.
pub open spec fn path_matches(file_path: Seq<char>, patterns: Seq<Seq<char>>) -> bool {
    exists|i: int, j: int|
        0 <= i < patterns.len() && 0 <= j < ancestors(file_path).len() && #[trigger] pattern_selects(
            patterns[i],
            ancestors(file_path)[j],
        )
}

/// Whether this can be the name of something in a directory.
pub open spec fn is_entry_name(name: Seq<char>) -> bool {
    name.len() > 0 && name != seq!['.'] && !name.contains('/')
}

/// Whether a path ends in a single dot that stands for nothing, as `a/.` does.
pub open spec fn ends_in_dot(path: Seq<char>) -> bool {
    trimmed(path) != path && !ends_in_slash(path)
}

/// Whether one of the patterns selects the file with this path, or a directory that the file lies in.
///
/// Patterns that select a directory select everything in it. Only where its path ends in a single dot that
/// stands for nothing is that not so: a wildcard can match that dot, but not the names in the directory.
pub fn artifact_path_matches(file_path: &str, patterns: &Vec<String>) -> (r: bool)
    ensures
        r == path_matches(file_path@, text::views(patterns@)),
        r && !ends_in_dot(file_path@) ==> forall|name: Seq<char>|
            is_entry_name(name) ==> #[trigger] path_matches(
                child_path(file_path@, name),
                text::views(patterns@),
            ),
{
    let above = path_ancestors(file_path);
    let ghost list = ancestors(file_path@);
    let ghost wanted = text::views(patterns@);
    let mut i: usize = 0;
    while i < patterns.len()
        invariant
            i <= patterns@.len(),
            wanted == text::views(patterns@),
            list == ancestors(file_path@),
            list == text::views(above@),
            forall|k: int, j: int|
                0 <= k < i && 0 <= j < list.len() ==> !(#[trigger] pattern_selects(
                    wanted[k],
                    list[j],
                )),
        decreases patterns@.len() - i,
    {
        assert(wanted[i as int] == patterns@[i as int]@);
        match try_normalize(patterns[i].as_str()) {
            Some(pattern) => {
                let mut j: usize = 0;
                while j < above.len()
                    invariant
                        i < patterns@.len(),
                        j <= above@.len(),
                        wanted == text::views(patterns@),
                        list == ancestors(file_path@),
                        list == text::views(above@),
                        normal_inside(wanted[i as int]) == Some(pattern@),
                        forall|k: int|
                            0 <= k < j ==> !(#[trigger] pattern_selects(wanted[i as int], list[k])),
                    decreases above@.len() - j,
                {
                    assert(list[j as int] == above@[j as int]@);
                    let outcome = match_glob(
                        pattern.as_str(),
                        above[j].as_str(),
                        true,
                        true,
                        false,
                    );
                    if is_selected(outcome, pattern.as_str(), above[j].as_str()) {
                        assert(pattern_selects(wanted[i as int], list[j as int]));
                        proof {
                            lemma_pattern_ends_in_name(wanted[i as int]);
                            assert(list[0] == file_path@);
                            assert forall|name: Seq<char>|
                                is_entry_name(name) && !ends_in_dot(
                                    file_path@,
                                ) implies #[trigger] path_matches(
                                child_path(file_path@, name),
                                wanted,
                            ) by {
                                lemma_content_follows(file_path@, name, wanted, i as int, j as int);
                            }
                        }
                        return true;
                    }
                    j += 1;
                }
            },
            None => {},
        }
        i += 1;
    }
    false
}

proof fn lemma_last_slash_of_child(dir: Seq<char>, name: Seq<char>)
    requires
        forall|i: int| 0 <= i < name.len() ==> name[i] != '/',
    ensures
        last_slash(dir.push('/') + name) == dir.len(),
    decreases name.len(),
{
    let path = dir.push('/') + name;
    if name.len() == 0 {
        assert(path =~= dir.push('/'));
    } else {
        assert(path.last() == name.last());
        assert(path.drop_last() =~= dir.push('/') + name.drop_last());
        lemma_last_slash_of_child(dir, name.drop_last());
    }
}

/// The directory of what lies in a directory is that directory.
pub proof fn lemma_parent_of_child(dir: Seq<char>, name: Seq<char>)
    requires
        name.len() > 0,
        name != seq!['.'],
        forall|i: int| 0 <= i < name.len() ==> name[i] != '/',
    ensures
        parent_path(child_path(dir, name)) == Some(trimmed(dir)),
{
    let path = child_path(dir, name);
    let start = body_start(path);
    if dir.len() == 0 {
        assert(path =~= name);
        if name.len() == 1 && name[0] == '.' {
            assert(name =~= seq!['.']);
        }
        lemma_last_slash(path);
        assert(path.skip(0) =~= path);
        assert(path.take(0) =~= dir);
    } else {
        let base = if dir.last() == '/' {
            dir.drop_last()
        } else {
            dir
        };
        assert(path =~= base.push('/') + name);
        lemma_last_slash_of_child(base, name);
        if dir.last() == '/' {
            assert(dir =~= base.push('/'));
            lemma_last_slash_of_child(base, Seq::empty());
            assert(dir =~= base.push('/') + Seq::<char>::empty());
        }
        assert(path[0] == dir[0]);
        assert(dir.len() > 1 ==> path[1] == dir[1]);
        assert(start == body_start(dir));
        if base.len() >= start {
            assert(path.skip(base.len() as int + 1) =~= name);
            assert(path.take(base.len() as int) =~= base);
            if dir.last() == '/' {
                assert(dir.skip(base.len() as int + 1) =~= Seq::<char>::empty());
                assert(dir.take(base.len() as int) =~= base);
            }
        } else {
            assert(dir =~= seq!['/']);
            assert(path.skip(1) =~= name);
            assert(path.take(1) =~= dir);
        }
    }
}

/// What stands behind the last slash is the last piece.
pub proof fn lemma_split_last(a: Seq<char>, b: Seq<char>)
    requires
        !b.contains('/'),
    ensures
        text::split(a.push('/') + b, '/') == text::split(a, '/').push(b),
    decreases a.len(),
{
    let s = a.push('/') + b;
    text::lemma_find_char(a, '/');
    let k = text::find_char(a, '/');
    assert forall|j: int| 0 <= j < k implies s[j] != '/' by {
        assert(a[j] != '/');
    }
    text::lemma_find_char_is(s, '/', k);
    if k < a.len() {
        assert(s.take(k) =~= a.take(k));
        assert(s.skip(k + 1) =~= a.skip(k + 1).push('/') + b);
        lemma_split_last(a.skip(k + 1), b);
        assert(seq![a.take(k)] + text::split(a.skip(k + 1), '/').push(b) =~= (seq![a.take(k)]
            + text::split(a.skip(k + 1), '/')).push(b));
    } else {
        assert(s.take(k) =~= a);
        assert(s.skip(k + 1) =~= b);
        assert forall|j: int| 0 <= j < b.len() implies b[j] != '/' by {
            assert(b.contains(b[j]));
        }
        text::lemma_find_char_is(b, '/', b.len() as int);
        assert(text::split(b, '/') == seq![b]);
        assert(text::split(s, '/') == seq![a] + text::split(b, '/'));
        assert(seq![a] + seq![b] =~= seq![a].push(b));
    }
}

proof fn lemma_nothing_after_slash(a: Seq<char>, b: Seq<char>)
    requires
        b.len() == 0 || b == seq!['.'],
    ensures
        path_parts(a.push('/') + b) == path_parts(a),
{
    let keep = |p: Seq<char>| p.len() > 0 && p != seq!['.'];
    lemma_split_last(a, b);
    let all = text::split(a, '/');
    reveal(Seq::filter);
    assert(all.push(b).drop_last() =~= all);
    assert(all.push(b).filter(keep) == all.filter(keep));
}

/// A path without its redundant end starts in the same way and has the same parts.
proof fn lemma_trimmed_is_same(path: Seq<char>)
    ensures
        is_absolute(trimmed(path)) == is_absolute(path),
        leads_with_dot(trimmed(path)) == leads_with_dot(path),
        path_parts(trimmed(path)) == path_parts(path),
        trimmed(trimmed(path)) == trimmed(path),
    decreases path.len(),
{
    let start = body_start(path);
    let cut = last_cut(path, start);
    let part = last_part(path, start);
    lemma_last_slash(path);
    if path.len() > start && cut < path.len() && (part.len() == 0 || part == seq!['.']) {
        let q = path.take(cut);
        if last_slash(path) >= start {
            assert(path =~= q.push('/') + part);
            lemma_nothing_after_slash(q, part);
        } else {
            assert(is_absolute(path) || path =~= seq!['.']);
            lemma_last_slash_is(path, 0);
            assert(path =~= Seq::<char>::empty().push('/') + part);
            assert(q =~= Seq::<char>::empty().push('/') + Seq::<char>::empty());
            lemma_nothing_after_slash(Seq::empty(), part);
            lemma_nothing_after_slash(Seq::empty(), Seq::empty());
        }
        assert(body_start(q) == start);
        lemma_trimmed_is_same(q);
    }
}

proof fn lemma_last_slash_is(path: Seq<char>, i: int)
    requires
        0 <= i < path.len(),
        path[i] == '/',
    ensures
        last_slash(path) >= i,
    decreases path.len(),
{
    if path.last() != '/' {
        lemma_last_slash_is(path.drop_last(), i);
    }
}

/// A pattern does not end in a slash once it is normalized.
proof fn lemma_pattern_ends_in_name(pattern: Seq<char>)
    ensures
        normal_inside(pattern) matches Some(p) ==> !ends_in_slash(p),
{
    let parts = collapse(path_parts(pattern));
    lemma_parts_are_names(pattern);
    lemma_collapse_names(path_parts(pattern));
    if parts.len() > 0 {
        let last = parts[parts.len() - 1];
        assert(last.contains(last.last()));
        assert(join(parts).last() == last.last());
    }
}

proof fn lemma_content_follows(
    dir: Seq<char>,
    name: Seq<char>,
    patterns: Seq<Seq<char>>,
    i: int,
    j: int,
)
    requires
        is_entry_name(name),
        !ends_in_dot(dir),
        0 <= i < patterns.len(),
        0 <= j < ancestors(dir).len(),
        pattern_selects(patterns[i], ancestors(dir)[j]),
        normal_inside(patterns[i]) matches Some(p) && {
            &&& glob_match(p, trimmed(dir), true, true, false) is Some == glob_match(
                p,
                dir,
                true,
                true,
                false,
            ) is Some
            &&& j == 0 && ends_in_slash(dir) && glob_match(p, dir, true, true, false) == Some(true)
                ==> glob_match(p, dir + name, true, true, false) == Some(true)
        },
    ensures
        path_matches(child_path(dir, name), patterns),
{
    let path = child_path(dir, name);
    let above = trimmed(dir);
    assert forall|k: int| 0 <= k < name.len() implies name[k] != '/' by {
        assert(name.contains(name[k]));
    }
    lemma_parent_of_child(dir, name);
    lemma_parent_shorter(path);
    lemma_parent_shorter(dir);
    lemma_parent_shorter(above);
    lemma_trimmed_is_same(dir);
    let list = ancestors(path);
    assert(list =~= seq![path] + ancestors(above));
    assert(parent_path(above) == parent_path(dir));
    if j > 0 || above == dir {
        assert(ancestors(above)[j] == ancestors(dir)[j]);
        assert(list[j + 1] == ancestors(dir)[j]);
        assert(pattern_selects(patterns[i], list[j + 1]));
    } else if glob_match(normal_inside(patterns[i])->0, dir, true, true, false) is Some {
        assert(list[0] == dir + name);
        assert(pattern_selects(patterns[i], list[0]));
    } else {
        assert(list[1] == above);
        assert(pattern_selects(patterns[i], list[1]));
    }
}

/// Patterns that select a directory select everything in it, however the path of the directory ends.
pub proof fn law_directory_selects_content(
    dir: Seq<char>,
    name: Seq<char>,
    patterns: Seq<Seq<char>>,
)
    requires
        name.len() > 0,
        name != seq!['.'],
        forall|i: int| 0 <= i < name.len() ==> name[i] != '/',
        path_matches(trimmed(dir), patterns),
    ensures
        path_matches(child_path(dir, name), patterns),
{
    let path = child_path(dir, name);
    let above = trimmed(dir);
    lemma_parent_of_child(dir, name);
    lemma_parent_shorter(path);
    let list = ancestors(path);
    assert(list =~= seq![path] + ancestors(above));
    let (i, j) = choose|i: int, j: int|
        0 <= i < patterns.len() && 0 <= j < ancestors(above).len() && #[trigger] pattern_selects(
            patterns[i],
            ancestors(above)[j],
        );
    assert(list[j + 1] == ancestors(above)[j]);
    assert(pattern_selects(patterns[i], list[j + 1]));
}

proof fn lemma_split_parts(s: Seq<char>, c: char)
    ensures
        forall|i: int, j: int|
            0 <= i < text::split(s, c).len() && 0 <= j < text::split(s, c)[i].len()
                ==> #[trigger] text::split(s, c)[i][j] != c,
    decreases s.len(),
{
    text::lemma_find_char(s, c);
    let k = text::find_char(s, c);
    if k < s.len() {
        lemma_split_parts(s.skip(k + 1), c);
        let rest = text::split(s.skip(k + 1), c);
        assert forall|i: int, j: int|
            0 <= i < text::split(s, c).len() && 0 <= j < text::split(s, c)[i].len() implies (
        #[trigger] text::split(s, c)[i][j]) != c by {
            if i > 0 {
                assert(text::split(s, c)[i] == rest[i - 1]);
                assert(rest[i - 1][j] != c);
            }
        }
    }
}

/// Whether these can be the parts of a path: they are not empty, no single dots, and hold no slash.
pub open spec fn are_names(parts: Seq<Seq<char>>) -> bool {
    forall|i: int|
        0 <= i < parts.len() ==> {
            let part = #[trigger] parts[i];
            part.len() > 0 && part != seq!['.'] && !part.contains('/')
        }
}

proof fn lemma_parts_are_names(path: Seq<char>)
    ensures
        are_names(path_parts(path)),
{
    let keep = |p: Seq<char>| p.len() > 0 && p != seq!['.'];
    let all = text::split(path, '/');
    let parts = path_parts(path);
    lemma_split_parts(path, '/');
    assert forall|i: int| 0 <= i < parts.len() implies {
        let part = #[trigger] parts[i];
        part.len() > 0 && part != seq!['.'] && !part.contains('/')
    } by {
        all.lemma_filter_pred(keep, i);
        assert(all.filter(keep).contains(parts[i]));
        all.lemma_filter_contains_rev(keep, parts[i]);
        let k = choose|k: int| 0 <= k < all.len() && all[k] == parts[i];
        assert forall|j: int| 0 <= j < parts[i].len() implies parts[i][j] != '/' by {
            assert(all[k][j] != '/');
        }
    }
}

proof fn lemma_collapse_names(parts: Seq<Seq<char>>)
    requires
        are_names(parts),
    ensures
        are_names(collapse(parts)),
        forall|i: int| 0 <= i < collapse(parts).len() ==> #[trigger] collapse(parts)[i] != seq!['.', '.'],
    decreases parts.len(),
{
    if parts.len() > 0 {
        assert(parts.last() == parts[parts.len() - 1]);
        assert forall|i: int| 0 <= i < parts.drop_last().len() implies {
            let part = #[trigger] parts.drop_last()[i];
            part.len() > 0 && part != seq!['.'] && !part.contains('/')
        } by {
            assert(parts.drop_last()[i] == parts[i]);
        }
        lemma_collapse_names(parts.drop_last());
    }
}

/// A normalized path is made of real names only: it never goes up and never stands still.
pub proof fn law_normal_path_has_names_only(path: Seq<char>)
    ensures
        forall|i: int|
            0 <= i < collapse(path_parts(path)).len() ==> {
                let part = #[trigger] collapse(path_parts(path))[i];
                part.len() > 0 && part != seq!['.'] && part != seq!['.', '.']
            },
{
    lemma_parts_are_names(path);
    lemma_collapse_names(path_parts(path));
}

/// The path that names make, from a given beginning on.
proof fn lemma_joined_is_trimmed(head: Seq<char>, parts: Seq<Seq<char>>, start: nat)
    requires
        are_names(parts),
        head.len() == 0 || head == seq!['/'],
        start <= 1,
        head.len() > 0 ==> start == 1,
        start == 1 && head.len() == 0 ==> leads_with_dot(head + join(parts)),
    ensures
        trimmed_from(head + join(parts), start) == head + join(parts),
{
    let path = head + join(parts);
    lemma_last_slash(path);
    if parts.len() > 0 {
        let last = parts[parts.len() - 1];
        assert forall|i: int| 0 <= i < last.len() implies last[i] != '/' by {
            assert(last.contains(last[i]));
        }
        assert(last == parts.last());
        if parts.len() == 1 {
            assert(join(parts) == last);
            if head.len() == 0 {
                assert(path =~= last);
                if start == 1 {
                    assert(last.len() == 1 ==> last =~= seq!['.']);
                    assert(false);
                }
                assert(path.skip(0) =~= last);
                if last_slash(path) >= 0 {
                    assert(last[last_slash(path)] != '/');
                }
            } else {
                lemma_last_slash_of_child(Seq::empty(), last);
                assert(path =~= Seq::<char>::empty().push('/') + last);
                assert(path.skip(1) =~= last);
            }
        } else {
            let before = head + join(parts.drop_last());
            assert(path =~= before.push('/') + last);
            lemma_last_slash_of_child(before, last);
            lemma_join_not_empty(parts.drop_last());
            assert(path.skip(before.len() as int + 1) =~= last);
        }
    }
}

proof fn lemma_join_not_empty(parts: Seq<Seq<char>>)
    requires
        parts.len() > 0,
        forall|i: int| 0 <= i < parts.len() ==> (#[trigger] parts[i]).len() > 0,
    ensures
        join(parts).len() > 0,
{
    if parts.len() == 1 {
        assert(parts[0].len() > 0);
    }
}

/// A normalized path has no redundant end, so patterns that select it select everything in it.
pub proof fn law_normal_directory_selects_content(
    dir: Seq<char>,
    name: Seq<char>,
    patterns: Seq<Seq<char>>,
)
    requires
        name.len() > 0,
        name != seq!['.'],
        forall|i: int| 0 <= i < name.len() ==> name[i] != '/',
        path_matches(normal_path(dir), patterns),
    ensures
        path_matches(child_path(normal_path(dir), name), patterns),
{
    let path = normal_path(dir);
    let parts = collapse(path_parts(dir));
    lemma_parts_are_names(dir);
    lemma_collapse_names(path_parts(dir));
    if is_absolute(dir) {
        lemma_joined_is_trimmed(seq!['/'], parts, body_start(path));
    } else {
        assert(Seq::<char>::empty() + join(parts) =~= join(parts));
        if is_absolute(path) {
            lemma_names_start_relative(parts);
        }
        lemma_joined_is_trimmed(Seq::empty(), parts, body_start(path));
    }
    law_directory_selects_content(path, name, patterns);
}

proof fn lemma_names_start_relative(parts: Seq<Seq<char>>)
    requires
        are_names(parts),
    ensures
        !is_absolute(join(parts)),
    decreases parts.len(),
{
    if parts.len() == 1 {
        assert(parts[0].contains(parts[0][0]));
    } else if parts.len() > 1 {
        let before = parts.drop_last();
        assert forall|i: int| 0 <= i < before.len() implies {
            let part = #[trigger] before[i];
            part.len() > 0 && part != seq!['.'] && !part.contains('/')
        } by {
            assert(before[i] == parts[i]);
        }
        lemma_names_start_relative(before);
        lemma_join_not_empty(before);
        assert(join(parts)[0] == join(before)[0]);
    }
}

/// More patterns select what any of them selects.
pub proof fn law_patterns_are_alternatives(
    file_path: Seq<char>,
    a: Seq<Seq<char>>,
    b: Seq<Seq<char>>,
)
    ensures
        path_matches(file_path, a + b) == (path_matches(file_path, a) || path_matches(file_path, b)),
{
    let list = ancestors(file_path);
    if path_matches(file_path, a) {
        let (i, j) = choose|i: int, j: int|
            0 <= i < a.len() && 0 <= j < list.len() && #[trigger] pattern_selects(a[i], list[j]);
        assert(pattern_selects((a + b)[i], list[j]));
    }
    if path_matches(file_path, b) {
        let (i, j) = choose|i: int, j: int|
            0 <= i < b.len() && 0 <= j < list.len() && #[trigger] pattern_selects(b[i], list[j]);
        assert(pattern_selects((a + b)[a.len() + i], list[j]));
    }
    if path_matches(file_path, a + b) {
        let (i, j) = choose|i: int, j: int|
            0 <= i < (a + b).len() && 0 <= j < list.len() && #[trigger] pattern_selects(
                (a + b)[i],
                list[j],
            );
        if i < a.len() {
            assert(pattern_selects(a[i], list[j]));
        } else {
            assert(pattern_selects(b[i - a.len()], list[j]));
        }
    }
}

/// Without patterns, nothing is selected.
pub proof fn law_no_pattern_selects_nothing(file_path: Seq<char>)
    ensures
        !path_matches(file_path, Seq::empty()),
{
}

/// A pattern that leads outside, or starts at the root, selects nothing.
pub proof fn law_outside_pattern_selects_nothing(file_path: Seq<char>, pattern: Seq<char>)
    requires
        is_absolute(pattern) || !stays_inside(path_parts(pattern)),
    ensures
        !path_matches(file_path, seq![pattern]),
{
}

/// A slash or a single dot at the end of a path counts for nothing, and a name at its end does.
pub proof fn law_redundant_end_is_trimmed(dir: Seq<char>, name: Seq<char>)
    requires
        is_entry_name(name),
    ensures
        dir.len() > 0 ==> trimmed(dir + seq!['/']) == trimmed(dir),
        dir.len() > 0 ==> trimmed(dir + seq!['/', '.']) == trimmed(dir),
        trimmed(child_path(dir, name)) == child_path(dir, name),
{
    if dir.len() > 0 {
        assert(dir.push('/') + Seq::<char>::empty() =~= dir + seq!['/']);
        lemma_trimmed_after_slash(dir, Seq::empty());
        assert(dir.push('/') + seq!['.'] =~= dir + seq!['/', '.']);
        lemma_trimmed_after_slash(dir, seq!['.']);
    }
    assert forall|i: int| 0 <= i < name.len() implies name[i] != '/' by {
        assert(name.contains(name[i]));
    }
    let path = child_path(dir, name);
    let start = body_start(path);
    lemma_last_slash(path);
    if dir.len() == 0 {
        assert(path =~= name);
        lemma_no_slash(name);
        if name.len() == 1 {
            assert(name =~= seq![name[0]]);
        }
        assert(path.skip(0) =~= path);
    } else {
        let base = if dir.last() == '/' {
            dir.drop_last()
        } else {
            dir
        };
        assert(path =~= base.push('/') + name);
        lemma_last_slash_of_child(base, name);
        assert(path.skip(base.len() as int + 1) =~= name);
        if base.len() == 0 {
            assert(path.skip(1) =~= name);
        } else {
            assert(start <= base.len());
        }
    }
}

proof fn lemma_no_slash(name: Seq<char>)
    requires
        forall|i: int| 0 <= i < name.len() ==> name[i] != '/',
    ensures
        last_slash(name) == -1,
{
    lemma_last_slash(name);
}

proof fn lemma_trimmed_after_slash(dir: Seq<char>, end: Seq<char>)
    requires
        dir.len() > 0,
        end.len() == 0 || end == seq!['.'],
    ensures
        trimmed(dir.push('/') + end) == trimmed(dir),
{
    let path = dir.push('/') + end;
    lemma_last_slash_of_child(dir, end);
    assert(path[0] == dir[0]);
    assert(dir.len() > 1 ==> path[1] == dir[1]);
    assert(body_start(path) == body_start(dir));
    assert(path.skip(dir.len() as int + 1) =~= end);
    assert(path.take(dir.len() as int) =~= dir);
}

/// What lies above something in a directory is the directory, without a redundant end, and what lies above
/// that. Nothing lies above the empty path and the root; above a single dot lies the empty path.
pub proof fn law_what_lies_above(dir: Seq<char>, name: Seq<char>)
    requires
        is_entry_name(name),
    ensures
        ancestors(Seq::empty()) == seq![Seq::<char>::empty()],
        ancestors(seq!['/']) == seq![seq!['/']],
        ancestors(seq!['.']) == seq![seq!['.'], Seq::<char>::empty()],
        ancestors(child_path(dir, name)) == seq![child_path(dir, name)] + ancestors(trimmed(dir)),
{
    assert forall|i: int| 0 <= i < name.len() implies name[i] != '/' by {
        assert(name.contains(name[i]));
    }
    lemma_parent_of_child(dir, name);
    lemma_parent_shorter(child_path(dir, name));
    lemma_trimmed_shorter(seq!['/'], 1);
    lemma_trimmed_shorter(seq!['.'], 1);
    assert(parent_path(seq!['.']) == Some(Seq::<char>::empty()));
    reveal_with_fuel(ancestors, 2);
    assert(ancestors(seq!['.']) =~= seq![seq!['.'], Seq::<char>::empty()]);
}

/// Something in a directory is selected exactly if a pattern selects it itself, or the directory is selected.
pub proof fn law_selected_itself_or_by_its_directory(
    dir: Seq<char>,
    name: Seq<char>,
    patterns: Seq<Seq<char>>,
)
    requires
        is_entry_name(name),
    ensures
        path_matches(child_path(dir, name), patterns) <==> (exists|i: int|
            0 <= i < patterns.len() && pattern_selects(#[trigger] patterns[i], child_path(dir, name)))
            || path_matches(trimmed(dir), patterns),
{
    let path = child_path(dir, name);
    let above = trimmed(dir);
    law_what_lies_above(dir, name);
    let list = ancestors(path);
    if path_matches(path, patterns) {
        let (i, j) = choose|i: int, j: int|
            0 <= i < patterns.len() && 0 <= j < list.len() && #[trigger] pattern_selects(
                patterns[i],
                list[j],
            );
        if j == 0 {
            assert(pattern_selects(patterns[i], path));
        } else {
            assert(list[j] == ancestors(above)[j - 1]);
            assert(pattern_selects(patterns[i], ancestors(above)[j - 1]));
        }
    }
    if exists|i: int| 0 <= i < patterns.len() && pattern_selects(#[trigger] patterns[i], path) {
        let i = choose|i: int|
            0 <= i < patterns.len() && pattern_selects(#[trigger] patterns[i], path);
        assert(pattern_selects(patterns[i], list[0]));
    }
    if path_matches(above, patterns) {
        assert forall|i: int| 0 <= i < name.len() implies name[i] != '/' by {
            assert(name.contains(name[i]));
        }
        law_directory_selects_content(dir, name, patterns);
    }
}

/// A pattern is matched with the case of letters, with wildcards that match no slash, and with nothing special
/// about a leading dot; one that is malformed selects the paths that have the same parts as itself.
pub proof fn law_how_patterns_are_matched(pattern: Seq<char>, path: Seq<char>)
    ensures
        normal_inside(pattern) matches Some(p) ==> {
            &&& glob_match(p, path, true, true, false) == Some(true) ==> pattern_selects(pattern, path)
            &&& glob_match(p, path, true, true, false) == Some(false) ==> !pattern_selects(
                pattern,
                path,
            )
            &&& glob_match(p, path, true, true, false) is None ==> pattern_selects(pattern, path)
                == same_path(path, p)
        },
        normal_inside(pattern) is None ==> !pattern_selects(pattern, path),
{
}

/// How a pattern matches a path decides whether it selects the path, where the pattern is well-formed.
pub proof fn law_outcome_decides(outcome: bool, pattern: Seq<char>, path: Seq<char>)
    ensures
        selects(Some(outcome), pattern, path) == outcome,
        selects(None, pattern, path) == same_path(pattern, path),
{
}

/// The parts of a path that was made of names are these names.
pub proof fn law_parts_of_joined_names(parts: Seq<Seq<char>>)
    requires
        are_names(parts),
    ensures
        path_parts(join(parts)) == parts,
    decreases parts.len(),
{
    let keep = |p: Seq<char>| p.len() > 0 && p != seq!['.'];
    reveal(Seq::filter);
    if parts.len() == 0 {
        let none = Seq::<char>::empty();
        text::lemma_find_char_is(none, '/', 0);
        let all = text::split(none, '/');
        assert(all == seq![none]);
        assert(all.drop_last() =~= Seq::<Seq<char>>::empty());
        assert(all.last() == none);
        assert(all.drop_last().filter(keep) =~= Seq::<Seq<char>>::empty());
        assert(path_parts(none) =~= parts);
    } else if parts.len() == 1 {
        let name = parts[0];
        assert forall|i: int| 0 <= i < name.len() implies name[i] != '/' by {
            assert(name.contains(name[i]));
        }
        text::lemma_find_char_is(name, '/', name.len() as int);
        let all = text::split(name, '/');
        assert(all == seq![name]);
        assert(all.drop_last() =~= Seq::<Seq<char>>::empty());
        assert(all.last() == name);
        assert(all.drop_last().filter(keep) =~= Seq::<Seq<char>>::empty());
        assert(path_parts(name) =~= parts);
    } else {
        let before = parts.drop_last();
        let name = parts.last();
        assert(name == parts[parts.len() - 1]);
        assert forall|i: int| 0 <= i < before.len() implies {
            let part = #[trigger] before[i];
            part.len() > 0 && part != seq!['.'] && !part.contains('/')
        } by {
            assert(before[i] == parts[i]);
        }
        law_parts_of_joined_names(before);
        lemma_split_last(join(before), name);
        let all = text::split(join(before), '/');
        assert(all.push(name).drop_last() =~= all);
        assert(all.push(name).filter(keep) == all.filter(keep).push(name));
        assert(before.push(name) =~= parts);
    }
}

/// Relative paths of names are the same path exactly if the names are the same, and a redundant end makes no
/// difference to that.
pub proof fn law_same_names_make_the_same_path(a: Seq<Seq<char>>, b: Seq<Seq<char>>, path: Seq<char>)
    requires
        are_names(a),
        are_names(b),
    ensures
        same_path(join(a), join(b)) <==> a == b,
        same_path(trimmed(path), path),
        same_path(path, join(a)) ==> path_parts(path) == a,
        same_path(path, join(a)) ==> !is_absolute(path),
{
    law_parts_of_joined_names(a);
    law_parts_of_joined_names(b);
    lemma_trimmed_is_same(path);
    lemma_names_start_relative(a);
}

/// Normalizing a path that is normal changes nothing.
pub proof fn law_normal_path_is_stable(path: Seq<char>)
    ensures
        normal_path(normal_path(path)) == normal_path(path),
{
    let parts = collapse(path_parts(path));
    lemma_parts_are_names(path);
    lemma_collapse_names(path_parts(path));
    law_parts_of_joined_names(parts);
    lemma_collapse_of_names(parts);
    if is_absolute(path) {
        let whole = seq!['/'] + join(parts);
        lemma_root_adds_no_part(join(parts));
        assert(path_parts(whole) == parts);
    } else {
        lemma_names_start_relative(parts);
    }
}

proof fn lemma_root_adds_no_part(rest: Seq<char>)
    ensures
        path_parts(seq!['/'] + rest) == path_parts(rest),
{
    let keep = |p: Seq<char>| p.len() > 0 && p != seq!['.'];
    let none = Seq::<char>::empty();
    let whole = seq!['/'] + rest;
    text::law_split_divides(none, rest, '/');
    assert(none + seq!['/'] + rest =~= whole);
    let all = text::split(rest, '/');
    assert(text::split(whole, '/') == seq![none] + all);
    lemma_filter_drops_first(none, all, keep);
}

proof fn lemma_filter_drops_first(
    first: Seq<char>,
    rest: Seq<Seq<char>>,
    keep: spec_fn(Seq<char>) -> bool,
)
    requires
        !keep(first),
    ensures
        (seq![first] + rest).filter(keep) == rest.filter(keep),
    decreases rest.len(),
{
    reveal(Seq::filter);
    let all = seq![first] + rest;
    if rest.len() == 0 {
        assert(all.drop_last() =~= Seq::<Seq<char>>::empty());
        assert(all.last() == first);
        assert(all.drop_last().filter(keep) =~= rest.filter(keep));
    } else {
        lemma_filter_drops_first(first, rest.drop_last(), keep);
        assert(all.drop_last() =~= seq![first] + rest.drop_last());
        assert(all.last() == rest.last());
    }
}

proof fn lemma_collapse_of_names(parts: Seq<Seq<char>>)
    requires
        forall|i: int| 0 <= i < parts.len() ==> #[trigger] parts[i] != seq!['.', '.'],
    ensures
        collapse(parts) == parts,
    decreases parts.len(),
{
    if parts.len() > 0 {
        let before = parts.drop_last();
        assert(parts.last() == parts[parts.len() - 1]);
        assert forall|i: int| 0 <= i < before.len() implies #[trigger] before[i] != seq!['.', '.'] by {
            assert(before[i] == parts[i]);
        }
        lemma_collapse_of_names(before);
        assert(before.push(parts.last()) =~= parts);
    }
}

/// A name and the `..` behind it take each other away, wherever they stand, and make no difference to whether a
/// path leads outside.
pub proof fn law_name_and_way_back_cancel(
    a: Seq<Seq<char>>,
    name: Seq<char>,
    b: Seq<Seq<char>>,
)
    requires
        name != seq!['.', '.'],
    ensures
        collapse(a + seq![name, seq!['.', '.']] + b) == collapse(a + b),
        stays_inside(a + seq![name, seq!['.', '.']] + b) == stays_inside(a + b),
    decreases b.len(),
{
    let up = seq!['.', '.'];
    let long = a + seq![name, up] + b;
    if b.len() == 0 {
        let mid = a.push(name);
        assert(long.drop_last() =~= mid);
        assert(long.last() == up);
        assert(mid.drop_last() =~= a);
        assert(a + b =~= a);
        assert(collapse(mid) == collapse(a).push(name));
        assert(collapse(a).push(name).drop_last() =~= collapse(a));
        assert(mid.last() == name);
        assert(stays_inside(mid) == stays_inside(a));
        assert(collapse(mid).len() > 0);
        assert(stays_inside(long) == stays_inside(mid));
    } else {
        law_name_and_way_back_cancel(a, name, b.drop_last());
        assert(long.drop_last() =~= a + seq![name, up] + b.drop_last());
        assert(long.last() == b.last());
        assert((a + b).drop_last() =~= a + b.drop_last());
        assert((a + b).last() == b.last());
    }
}

/// What lies in a directory has the path of the directory, a slash, unless that ends in one or is empty, and its
/// own name.
pub proof fn law_path_in_a_directory(dir: Seq<char>, name: Seq<char>)
    ensures
        child_path(Seq::empty(), name) == name,
        child_path(dir + seq!['/'], name) == dir + seq!['/'] + name,
        dir.len() > 0 && dir.last() != '/' ==> child_path(dir, name) == dir + seq!['/'] + name,
{
    assert(Seq::<char>::empty() + name =~= name);
    assert(dir.push('/') =~= dir + seq!['/']);
}

/// Two paths are the same exactly if they have the same parts and both or neither of them start with a slash, and
/// both or neither with a single dot.
pub proof fn law_when_paths_are_the_same(a: Seq<char>, b: Seq<char>)
    ensures
        same_path(a, b) <==> {
            &&& path_parts(a) == path_parts(b)
            &&& (a.len() > 0 && a[0] == '/') == (b.len() > 0 && b[0] == '/')
            &&& (a == seq!['.'] || (a.len() > 1 && a[0] == '.' && a[1] == '/')) == (b == seq!['.'] || (
            b.len() > 1 && b[0] == '.' && b[1] == '/'))
        },
        same_path(a, b) == same_path(b, a),
{
    if a.len() == 1 {
        assert(a =~= seq![a[0]]);
    }
    if b.len() == 1 {
        assert(b =~= seq![b[0]]);
    }
}

} // verus!
