//! Masking of secrets in job output.
//!
//! A token is recognised by its prefix, such as `glpat-`. The prefix stays readable; the characters
//! of the token that follow it are replaced by a fixed mark. Output arrives in chunks of any size,
//! so the masker is incremental: a token may be cut anywhere between two chunks.
use vstd::prelude::*;
use vstd::utf8::*;

verus! {

/// The mark that replaces the characters of a token: `[MASKED]`.
pub open spec fn mask_bytes() -> Seq<u8> {
    seq![91u8, 77u8, 65u8, 83u8, 75u8, 69u8, 68u8, 93u8]
}

/// Whether `b` can be part of a token: an ASCII letter or digit, or one of `_`, `-`, `.` and `=`.
pub open spec fn is_token_byte(b: u8) -> bool {
    ||| 48 <= b <= 57
    ||| 65 <= b <= 90
    ||| 97 <= b <= 122
    ||| b == 95
    ||| b == 45
    ||| b == 46
    ||| b == 61
}

/// What a masker has to remember between two bytes.
pub struct MaskState {
    /// What was let through since the last token, or since the start.
    pub passed: Seq<u8>,
    /// Whether the last byte let through completed a prefix, or was followed by token bytes only.
    pub in_token: bool,
    /// Whether the mark for the current token was written.
    pub marked: bool,
}

/// The state before any output.
pub open spec fn mask_start() -> MaskState {
    MaskState { passed: Seq::empty(), in_token: false, marked: false }
}

/// Whether `s` ends with `suffix`.
pub open spec fn has_suffix(s: Seq<u8>, suffix: Seq<u8>) -> bool {
    suffix.len() <= s.len() && s.skip(s.len() - suffix.len()) == suffix
}

/// Whether `s` ends with one of the prefixes.
pub open spec fn completes_prefix(prefixes: Seq<Seq<u8>>, s: Seq<u8>) -> bool {
    exists|i: int| 0 <= i < prefixes.len() && has_suffix(s, #[trigger] prefixes[i])
}

/// Lets the byte `b` through.
pub open spec fn mask_pass(prefixes: Seq<Seq<u8>>, passed: Seq<u8>, b: u8) -> MaskState {
    MaskState {
        passed: passed.push(b),
        in_token: completes_prefix(prefixes, passed.push(b)),
        marked: false,
    }
}

/// The state after the byte `b`.
pub open spec fn mask_next(prefixes: Seq<Seq<u8>>, st: MaskState, b: u8) -> MaskState {
    if st.in_token && is_token_byte(b) {
        MaskState { passed: Seq::empty(), in_token: true, marked: true }
    } else if st.in_token && st.marked {
        mask_pass(prefixes, Seq::empty(), b)
    } else {
        mask_pass(prefixes, st.passed, b)
    }
}

/// What is written for the byte `b`.
pub open spec fn mask_emit(st: MaskState, b: u8) -> Seq<u8> {
    if st.in_token && is_token_byte(b) {
        if st.marked {
            Seq::empty()
        } else {
            mask_bytes()
        }
    } else {
        seq![b]
    }
}

/// The state after `input`.
pub open spec fn mask_after(prefixes: Seq<Seq<u8>>, st: MaskState, input: Seq<u8>) -> MaskState
    decreases input.len(),
{
    if input.len() == 0 {
        st
    } else {
        mask_next(prefixes, mask_after(prefixes, st, input.drop_last()), input.last())
    }
}

/// What is written for `input`.
pub open spec fn mask_output(prefixes: Seq<Seq<u8>>, st: MaskState, input: Seq<u8>) -> Seq<u8>
    decreases input.len(),
{
    if input.len() == 0 {
        Seq::empty()
    } else {
        mask_output(prefixes, st, input.drop_last()) + mask_emit(
            mask_after(prefixes, st, input.drop_last()),
            input.last(),
        )
    }
}

/// The masked form of a whole text.
pub open spec fn masked(prefixes: Seq<Seq<u8>>, input: Seq<u8>) -> Seq<u8> {
    mask_output(prefixes, mask_start(), input)
}

// ---------------------------------------------------------------------------
// The prefixes of a job
// ---------------------------------------------------------------------------

/// Whether `c` is ASCII white space.
pub open spec fn is_space(c: char) -> bool {
    c == ' ' || 9 <= c as u32 <= 13
}

/// `s` without the white space it starts with.
pub open spec fn trim_start(s: Seq<char>) -> Seq<char>
    decreases s.len(),
{
    if s.len() > 0 && is_space(s[0]) {
        trim_start(s.skip(1))
    } else {
        s
    }
}

/// `s` without the white space it ends with.
pub open spec fn trim_end(s: Seq<char>) -> Seq<char>
    decreases s.len(),
{
    if s.len() > 0 && is_space(s.last()) {
        trim_end(s.drop_last())
    } else {
        s
    }
}

/// The prefixes to look for: the given ones without surrounding white space, as bytes, and none
/// that is empty.
pub open spec fn token_prefixes(list: Seq<Seq<char>>) -> Seq<Seq<u8>>
    decreases list.len(),
{
    if list.len() == 0 {
        Seq::empty()
    } else {
        let p = trim_end(trim_start(list.last()));
        if p.len() == 0 {
            token_prefixes(list.drop_last())
        } else {
            token_prefixes(list.drop_last()).push(encode_utf8(p))
        }
    }
}

fn trim(s: &str) -> (r: &str)
    ensures
        r@ == trim_end(trim_start(s@)),
{
    let n = s.unicode_len();
    let chars = crate::text::chars_of(s);
    let mut from: usize = 0;
    assert(s@.skip(0) =~= s@);
    while from < n && (chars[from] == ' ' || (9 <= chars[from] as u32 && chars[from] as u32 <= 13))
        invariant
            from <= n,
            n == s@.len(),
            chars@ == s@,
            trim_start(s@.skip(from as int)) == trim_start(s@),
        decreases n - from,
    {
        assert(s@.skip(from as int).skip(1) =~= s@.skip(from + 1));
        from += 1;
    }
    let ghost t = s@.skip(from as int);
    assert(trim_start(s@) == t);
    let mut to: usize = n;
    assert(s@.subrange(from as int, n as int) =~= t);
    while from < to && (chars[to - 1] == ' ' || (9 <= chars[to - 1] as u32 && chars[to - 1] as u32
        <= 13))
        invariant
            from <= to <= n,
            n == s@.len(),
            chars@ == s@,
            trim_end(s@.subrange(from as int, to as int)) == trim_end(t),
        decreases to,
    {
        assert(s@.subrange(from as int, to as int).drop_last() =~= s@.subrange(
            from as int,
            to - 1,
        ));
        to -= 1;
    }
    s.substring_char(from, to)
}

// ---------------------------------------------------------------------------
// The masker
// ---------------------------------------------------------------------------

/// The views of a list of byte strings.
pub open spec fn byte_views(v: Seq<Vec<u8>>) -> Seq<Seq<u8>> {
    v.map_values(|x: Vec<u8>| x@)
}

/// How many more bytes than a prefix can need a [`Masker`] keeps at most.
pub const SPARE_BYTES: usize = 4096;

/// Masks the tokens in a stream of bytes.
pub struct Masker {
    prefixes: Vec<Vec<u8>>,
    longest: usize,
    recent: Vec<u8>,
    in_token: bool,
    marked: bool,
    passed: Ghost<Seq<u8>>,
}

impl Masker {
    /// The prefixes that this masker looks for.
    pub closed spec fn prefixes(&self) -> Seq<Seq<u8>> {
        byte_views(self.prefixes@)
    }

    /// What this masker remembers of what it has seen.
    pub closed spec fn state(&self) -> MaskState {
        MaskState { passed: self.passed@, in_token: self.in_token, marked: self.marked }
    }

    /// The bytes kept are the end of what was let through, long enough for every prefix, and not much
    /// longer than that.
    pub closed spec fn wf(&self) -> bool {
        &&& self.remembers()
        &&& self.recent@.len() <= self.longest + SPARE_BYTES
    }

    /// The bytes kept are the end of what was let through, long enough for every prefix.
    closed spec fn remembers(&self) -> bool {
        &&& forall|i: int|
            0 <= i < self.prefixes@.len() ==> (#[trigger] self.prefixes@[i])@.len() <= self.longest
        &&& has_suffix(self.passed@, self.recent@)
        &&& self.recent@.len() == self.passed@.len() || self.longest <= self.recent@.len()
    }

    /// A masker for the given token prefixes. Surrounding white space is no part of a prefix, and
    /// empty prefixes are left out.
    pub fn new(token_prefixes: &Vec<String>) -> (r: Self)
        ensures
            r.wf(),
            r.prefixes() == self::token_prefixes(crate::text::views(token_prefixes@)),
            r.state() == mask_start(),
    {
        let mut prefixes: Vec<Vec<u8>> = Vec::new();
        let mut longest: usize = 0;
        let mut i: usize = 0;
        let ghost list = crate::text::views(token_prefixes@);
        assert(byte_views(prefixes@) =~= self::token_prefixes(list.take(0)));
        while i < token_prefixes.len()
            invariant
                i <= token_prefixes@.len(),
                list == crate::text::views(token_prefixes@),
                byte_views(prefixes@) == self::token_prefixes(list.take(i as int)),
                forall|j: int|
                    0 <= j < prefixes@.len() ==> (#[trigger] prefixes@[j])@.len() <= longest,
            decreases token_prefixes@.len() - i,
        {
            let p = trim(token_prefixes[i].as_str());
            let ghost before = prefixes@;
            proof {
                assert(list.take(i + 1).drop_last() =~= list.take(i as int));
                assert(list.take(i + 1).last() == token_prefixes@[i as int]@);
            }
            if p.unicode_len() > 0 {
                let bytes = p.as_bytes_vec();
                if bytes.len() > longest {
                    longest = bytes.len();
                }
                prefixes.push(bytes);
                assert(byte_views(prefixes@) =~= byte_views(before).push(encode_utf8(p@)));
            }
            i += 1;
        }
        assert(list.take(i as int) =~= list);
        assert(Seq::<u8>::empty().skip(0) =~= Seq::<u8>::empty());
        Masker {
            prefixes,
            longest,
            recent: Vec::new(),
            in_token: false,
            marked: false,
            passed: Ghost(Seq::empty()),
        }
    }

    /// Whether what was let through ends with one of the prefixes.
    fn completes(&self) -> (r: bool)
        requires
            self.remembers(),
        ensures
            r == completes_prefix(self.prefixes(), self.state().passed),
    {
        let mut i: usize = 0;
        let ghost passed = self.passed@;
        let ghost recent = self.recent@;
        while i < self.prefixes.len()
            invariant
                i <= self.prefixes@.len(),
                self.remembers(),
                passed == self.passed@,
                recent == self.recent@,
                forall|j: int| 0 <= j < i ==> !has_suffix(passed, #[trigger] self.prefixes()[j]),
            decreases self.prefixes@.len() - i,
        {
            let ghost p = self.prefixes@[i as int]@;
            assert(self.prefixes()[i as int] == p);
            let m = self.prefixes[i].len();
            let n = self.recent.len();
            if m <= n {
                let tail = crate::text::slice_range(self.recent.as_slice(), n - m, n);
                proof {
                    assert(recent == passed.skip(passed.len() - n));
                    assert(tail@ =~= recent.skip(n - m));
                    assert(recent.skip(n - m) =~= passed.skip(passed.len() - m));
                }
                if crate::text::bytes_eq(tail, self.prefixes[i].as_slice()) {
                    assert(has_suffix(passed, self.prefixes()[i as int]));
                    return true;
                }
            }
            assert(!has_suffix(passed, self.prefixes()[i as int]));
            i += 1;
        }
        false
    }

    /// Drops what no prefix can reach back to any more, once that is more than [`SPARE_BYTES`].
    fn forget(&mut self)
        requires
            old(self).remembers(),
        ensures
            final(self).wf(),
            final(self).recent@ == (if old(self).recent@.len() > old(self).longest + SPARE_BYTES {
                old(self).recent@.skip(old(self).recent@.len() - old(self).longest)
            } else {
                old(self).recent@
            }),
            final(self).prefixes() == old(self).prefixes(),
            final(self).state() == old(self).state(),
    {
        let n = self.recent.len();
        if n > self.longest && n - self.longest > SPARE_BYTES {
            let tail = crate::text::slice_range(self.recent.as_slice(), n - self.longest, n);
            let kept = vstd::slice::slice_to_vec(tail);
            assert(kept@ =~= self.passed@.skip(self.passed@.len() - kept@.len()));
            self.recent = kept;
        }
    }

    /// Lets one byte through.
    fn pass(&mut self, b: u8)
        requires
            old(self).wf(),
        ensures
            final(self).wf(),
            final(self).prefixes() == old(self).prefixes(),
            final(self).state() == mask_pass(old(self).prefixes(), old(self).state().passed, b),
    {
        self.recent.push(b);
        self.passed = Ghost(self.passed@.push(b));
        proof {
            let p = old(self).passed@;
            let r = old(self).recent@;
            assert(r == p.skip(p.len() - r.len()));
            assert(self.recent@ =~= self.passed@.skip(self.passed@.len() - self.recent@.len()));
        }
        self.in_token = self.completes();
        self.marked = false;
        self.forget();
    }

    /// Forgets everything that was let through.
    fn restart(&mut self)
        requires
            old(self).wf(),
        ensures
            final(self).wf(),
            final(self).prefixes() == old(self).prefixes(),
            final(self).state() == (MaskState {
                passed: Seq::empty(),
                in_token: old(self).state().in_token,
                marked: old(self).state().marked,
            }),
    {
        self.recent = Vec::new();
        self.passed = Ghost(Seq::empty());
        assert(self.recent@ =~= self.passed@.skip(0));
    }

    /// Masks the next chunk of a stream.
    ///
    /// A token that was cut between chunks is masked as if it had arrived in one piece.
    pub fn mask(&mut self, data: &[u8]) -> (r: Vec<u8>)
        requires
            old(self).wf(),
        ensures
            final(self).wf(),
            final(self).prefixes() == old(self).prefixes(),
            final(self).state() == mask_after(old(self).prefixes(), old(self).state(), data@),
            r@ == mask_output(old(self).prefixes(), old(self).state(), data@),
    {
        let mut r: Vec<u8> = Vec::new();
        let mut i: usize = 0;
        let ghost prefixes = self.prefixes();
        let ghost start = self.state();
        assert(data@.take(0) =~= Seq::<u8>::empty());
        while i < data.len()
            invariant
                i <= data@.len(),
                self.wf(),
                self.prefixes() == prefixes,
                self.state() == mask_after(prefixes, start, data@.take(i as int)),
                r@ == mask_output(prefixes, start, data@.take(i as int)),
            decreases data@.len() - i,
        {
            let b = data[i];
            let ghost before = self.state();
            let ghost written = r@;
            proof {
                assert(data@.take(i + 1).drop_last() =~= data@.take(i as int));
                assert(data@.take(i + 1).last() == b);
            }
            if self.in_token && token_byte(b) {
                if !self.marked {
                    push_mark(&mut r);
                }
                self.marked = true;
                self.restart();
                assert(r@ =~= written + mask_emit(before, b));
            } else {
                if self.in_token && self.marked {
                    self.restart();
                }
                self.pass(b);
                r.push(b);
                assert(r@ =~= written + mask_emit(before, b));
            }
            assert(self.state() == mask_next(prefixes, before, b));
            i += 1;
        }
        assert(data@.take(i as int) =~= data@);
        r
    }
}

fn token_byte(b: u8) -> (r: bool)
    ensures
        r == is_token_byte(b),
{
    (48 <= b && b <= 57) || (65 <= b && b <= 90) || (97 <= b && b <= 122) || b == 95 || b == 45 || b
        == 46 || b == 61
}

fn push_mark(out: &mut Vec<u8>)
    ensures
        final(out)@ == old(out)@ + mask_bytes(),
{
    out.push(91);
    out.push(77);
    out.push(65);
    out.push(83);
    out.push(75);
    out.push(69);
    out.push(68);
    out.push(93);
    assert(out@ =~= old(out)@ + mask_bytes());
}

// ---------------------------------------------------------------------------
// Laws
// ---------------------------------------------------------------------------

/// How a stream is cut into chunks makes no difference to what is written.
pub proof fn law_mask_chunks(prefixes: Seq<Seq<u8>>, st: MaskState, a: Seq<u8>, b: Seq<u8>)
    ensures
        mask_after(prefixes, st, a + b) == mask_after(prefixes, mask_after(prefixes, st, a), b),
        mask_output(prefixes, st, a + b) == mask_output(prefixes, st, a) + mask_output(
            prefixes,
            mask_after(prefixes, st, a),
            b,
        ),
    decreases b.len(),
{
    if b.len() == 0 {
        assert(a + b =~= a);
        assert(mask_output(prefixes, st, a) + Seq::<u8>::empty() =~= mask_output(prefixes, st, a));
    } else {
        law_mask_chunks(prefixes, st, a, b.drop_last());
        assert((a + b).drop_last() =~= a + b.drop_last());
        assert((a + b).last() == b.last());
        let mid = mask_after(prefixes, st, a);
        let e = mask_emit(mask_after(prefixes, mid, b.drop_last()), b.last());
        assert((mask_output(prefixes, st, a) + mask_output(prefixes, mid, b.drop_last())) + e
            =~= mask_output(prefixes, st, a) + (mask_output(prefixes, mid, b.drop_last()) + e));
    }
}

/// Whether nothing in `input` is to be hidden: no prefix is followed by a token byte.
pub open spec fn holds_no_token(prefixes: Seq<Seq<u8>>, input: Seq<u8>) -> bool {
    forall|i: int|
        0 <= i < input.len() && is_token_byte(#[trigger] input[i]) ==> !completes_prefix(
            prefixes,
            input.take(i),
        )
}

/// Output that holds no token passes unchanged.
pub proof fn law_mask_keeps_other_text(prefixes: Seq<Seq<u8>>, input: Seq<u8>)
    requires
        holds_no_token(prefixes, input),
        forall|i: int| 0 <= i < prefixes.len() ==> (#[trigger] prefixes[i]).len() > 0,
    ensures
        masked(prefixes, input) == input,
        mask_after(prefixes, mask_start(), input).passed == input,
        mask_after(prefixes, mask_start(), input).in_token == completes_prefix(prefixes, input),
        !mask_after(prefixes, mask_start(), input).marked,
    decreases input.len(),
{
    if input.len() > 0 {
        let head = input.drop_last();
        assert(holds_no_token(prefixes, head)) by {
            assert forall|i: int|
                0 <= i < head.len() && is_token_byte(#[trigger] head[i]) implies !completes_prefix(
                prefixes,
                head.take(i),
            ) by {
                assert(head[i] == input[i]);
                assert(head.take(i) =~= input.take(i));
            }
        }
        law_mask_keeps_other_text(prefixes, head);
        let n = input.len() - 1;
        assert(input.take(n) =~= head);
        assert(input[n] == input.last());
        assert(head.push(input.last()) =~= input);
        assert(head + seq![input.last()] =~= input);
    }
}

/// The readable prefix of a token stays, and the token itself is replaced by the mark.
pub proof fn law_mask_replaces_token(prefixes: Seq<Seq<u8>>, head: Seq<u8>, token: Seq<u8>)
    requires
        forall|i: int| 0 <= i < prefixes.len() ==> (#[trigger] prefixes[i]).len() > 0,
        holds_no_token(prefixes, head),
        completes_prefix(prefixes, head),
        token.len() > 0,
        forall|i: int| 0 <= i < token.len() ==> is_token_byte(#[trigger] token[i]),
    ensures
        masked(prefixes, head + token) == head + mask_bytes(),
{
    law_mask_keeps_other_text(prefixes, head);
    law_mask_chunks(prefixes, mask_start(), head, token);
    lemma_token_run(prefixes, mask_after(prefixes, mask_start(), head), token);
}

proof fn lemma_token_run(prefixes: Seq<Seq<u8>>, st: MaskState, token: Seq<u8>)
    requires
        st.in_token,
        token.len() > 0,
        forall|i: int| 0 <= i < token.len() ==> is_token_byte(#[trigger] token[i]),
    ensures
        mask_after(prefixes, st, token) == (MaskState {
            passed: Seq::empty(),
            in_token: true,
            marked: true,
        }),
        mask_output(prefixes, st, token) == (if st.marked {
            Seq::empty()
        } else {
            mask_bytes()
        }),
    decreases token.len(),
{
    let head = token.drop_last();
    assert(is_token_byte(token[token.len() - 1]));
    if head.len() > 0 {
        assert forall|i: int| 0 <= i < head.len() implies is_token_byte(#[trigger] head[i]) by {
            assert(head[i] == token[i]);
        }
        lemma_token_run(prefixes, st, head);
        assert(mask_output(prefixes, st, head) + Seq::<u8>::empty() =~= mask_output(
            prefixes,
            st,
            head,
        ));
    } else {
        assert(head =~= Seq::<u8>::empty());
        assert(mask_output(prefixes, st, head) =~= Seq::<u8>::empty());
        assert(Seq::<u8>::empty() + mask_emit(st, token.last()) =~= mask_emit(st, token.last()));
    }
}

/// What is written tells nothing about the token: two streams that differ only in the token after a
/// prefix are masked alike, whatever surrounds it.
pub proof fn law_mask_hides_token(
    prefixes: Seq<Seq<u8>>,
    head: Seq<u8>,
    token: Seq<u8>,
    other: Seq<u8>,
    rest: Seq<u8>,
)
    requires
        mask_after(prefixes, mask_start(), head).in_token,
        token.len() > 0,
        forall|i: int| 0 <= i < token.len() ==> is_token_byte(#[trigger] token[i]),
        other.len() > 0,
        forall|i: int| 0 <= i < other.len() ==> is_token_byte(#[trigger] other[i]),
    ensures
        masked(prefixes, head + token + rest) == masked(prefixes, head + other + rest),
{
    let st = mask_after(prefixes, mask_start(), head);
    lemma_token_run(prefixes, st, token);
    lemma_token_run(prefixes, st, other);
    law_mask_chunks(prefixes, mask_start(), head, token);
    law_mask_chunks(prefixes, mask_start(), head, other);
    law_mask_chunks(prefixes, mask_start(), head + token, rest);
    law_mask_chunks(prefixes, mask_start(), head + other, rest);
}

/// Whether tokens can hold the byte `b`, written out: `0` to `9`, `A` to `Z`, `a` to `z`, `_`, `-`, `.`
/// and `=`.
pub open spec fn is_secret_byte(b: u8) -> bool {
    ||| '0' as u8 <= b <= '9' as u8
    ||| 'A' as u8 <= b <= 'Z' as u8
    ||| 'a' as u8 <= b <= 'z' as u8
    ||| b == '_' as u8
    ||| b == '-' as u8
    ||| b == '.' as u8
    ||| b == '=' as u8
}

/// Whether no byte that tokens can hold stands right behind an occurrence of a prefix.
pub open spec fn free_of_secrets(prefixes: Seq<Seq<u8>>, text: Seq<u8>) -> bool {
    forall|i: int, k: int|
        #![trigger text[i], prefixes[k]]
        0 <= i < text.len() && 0 <= k < prefixes.len() && prefixes[k].len() <= i && is_secret_byte(
            text[i],
        ) ==> text.subrange(i - prefixes[k].len(), i) != prefixes[k]
}

proof fn lemma_free_of_secrets(prefixes: Seq<Seq<u8>>, text: Seq<u8>)
    requires
        free_of_secrets(prefixes, text),
    ensures
        holds_no_token(prefixes, text),
{
    assert forall|i: int|
        0 <= i < text.len() && is_token_byte(#[trigger] text[i]) implies !completes_prefix(
        prefixes,
        text.take(i),
    ) by {
        assert(is_secret_byte(text[i]));
        if completes_prefix(prefixes, text.take(i)) {
            let k = choose|k: int|
                0 <= k < prefixes.len() && has_suffix(text.take(i), #[trigger] prefixes[k]);
            let n = prefixes[k].len();
            assert(text.take(i).skip(i - n) =~= text.subrange(i - n, i));
            assert(text.subrange(i - n, i) == prefixes[k]);
        }
    }
}

/// Text in which no prefix is followed by a byte of a token is written as it is.
pub proof fn law_text_without_tokens_is_kept(prefixes: Seq<Seq<u8>>, text: Seq<u8>)
    requires
        forall|i: int| 0 <= i < prefixes.len() ==> (#[trigger] prefixes[i]).len() > 0,
        free_of_secrets(prefixes, text),
    ensures
        masked(prefixes, text) == text,
{
    lemma_free_of_secrets(prefixes, text);
    law_mask_keeps_other_text(prefixes, text);
}

/// The whole of a token is hidden: whatever letters, digits and other token bytes follow a prefix, all of
/// them are replaced by one `[MASKED]`.
pub proof fn law_whole_token_is_masked(
    prefixes: Seq<Seq<u8>>,
    k: int,
    before: Seq<u8>,
    token: Seq<u8>,
)
    requires
        forall|i: int| 0 <= i < prefixes.len() ==> (#[trigger] prefixes[i]).len() > 0,
        0 <= k < prefixes.len(),
        free_of_secrets(prefixes, before + prefixes[k]),
        token.len() > 0,
        forall|i: int|
            0 <= i < token.len() ==> (48 <= #[trigger] token[i] <= 57 || 65 <= token[i] <= 90 || 97
                <= token[i] <= 122 || token[i] == 95 || token[i] == 45 || token[i] == 46 || token[i]
                == 61),
    ensures
        masked(prefixes, before + prefixes[k] + token) == before + prefixes[k] + seq![
            '[' as u8,
            'M' as u8,
            'A' as u8,
            'S' as u8,
            'K' as u8,
            'E' as u8,
            'D' as u8,
            ']' as u8,
        ],
{
    let head = before + prefixes[k];
    lemma_free_of_secrets(prefixes, head);
    assert(head.skip(head.len() - prefixes[k].len()) =~= prefixes[k]);
    assert(has_suffix(head, prefixes[k]));
    assert forall|i: int| 0 <= i < token.len() implies is_token_byte(#[trigger] token[i]) by {}
    law_mask_replaces_token(prefixes, head, token);
}

/// A token ends at the first byte that no token can hold, and what follows it is masked like a text of
/// its own. Together with the two laws before this says what is written for any text.
pub proof fn law_masking_goes_on_after_token(
    prefixes: Seq<Seq<u8>>,
    k: int,
    before: Seq<u8>,
    token: Seq<u8>,
    b: u8,
    rest: Seq<u8>,
)
    requires
        forall|i: int| 0 <= i < prefixes.len() ==> (#[trigger] prefixes[i]).len() > 0,
        0 <= k < prefixes.len(),
        free_of_secrets(prefixes, before + prefixes[k]),
        token.len() > 0,
        forall|i: int| 0 <= i < token.len() ==> is_secret_byte(#[trigger] token[i]),
        !is_secret_byte(b),
    ensures
        masked(prefixes, before + prefixes[k] + token + (seq![b] + rest)) == masked(
            prefixes,
            before + prefixes[k] + token,
        ) + masked(prefixes, seq![b] + rest),
{
    let head = before + prefixes[k];
    lemma_free_of_secrets(prefixes, head);
    assert(head.skip(head.len() - prefixes[k].len()) =~= prefixes[k]);
    assert(has_suffix(head, prefixes[k]));
    assert forall|i: int| 0 <= i < token.len() implies is_token_byte(#[trigger] token[i]) by {}
    law_mask_keeps_other_text(prefixes, head);
    law_mask_chunks(prefixes, mask_start(), head, token);
    lemma_token_run(prefixes, mask_after(prefixes, mask_start(), head), token);
    law_mask_chunks(prefixes, mask_start(), head + token, seq![b] + rest);
    let st = mask_after(prefixes, mask_start(), head + token);
    let one = seq![b];
    assert(one.drop_last() =~= Seq::<u8>::empty());
    reveal_with_fuel(mask_after, 2);
    reveal_with_fuel(mask_output, 2);
    assert(mask_after(prefixes, st, one) == mask_next(prefixes, st, b));
    assert(mask_after(prefixes, mask_start(), one) == mask_next(prefixes, mask_start(), b));
    assert(mask_output(prefixes, st, one) =~= one);
    assert(mask_output(prefixes, mask_start(), one) =~= one);
    law_mask_chunks(prefixes, st, one, rest);
    law_mask_chunks(prefixes, mask_start(), one, rest);
}

/// Each entry of a list of prefixes counts for itself, in its place.
pub proof fn law_prefix_lists_add_up(a: Seq<Seq<char>>, b: Seq<Seq<char>>)
    ensures
        token_prefixes(a + b) == token_prefixes(a) + token_prefixes(b),
    decreases b.len(),
{
    if b.len() == 0 {
        assert(a + b =~= a);
        assert(token_prefixes(a) + token_prefixes(b) =~= token_prefixes(a));
    } else {
        law_prefix_lists_add_up(a, b.drop_last());
        assert((a + b).drop_last() =~= a + b.drop_last());
        assert((a + b).last() == b.last());
        assert(token_prefixes(a + b) =~= token_prefixes(a) + token_prefixes(b));
    }
}

/// Whether `c` is a blank, a tab, a line end or the like, written out.
pub open spec fn is_blank(c: char) -> bool {
    c == ' ' || c == '\t' || c == '\n' || c == '\u{b}' || c == '\u{c}' || c == '\r'
}

proof fn lemma_blank(c: char)
    ensures
        is_blank(c) == is_space(c),
{
    let code: int = c as int;
    assert(code == c as u32);
    assert(code == 9 ==> c == '\t');
}

proof fn lemma_trim_start_blank(lead: Seq<char>, rest: Seq<char>)
    requires
        forall|i: int| 0 <= i < lead.len() ==> is_blank(#[trigger] lead[i]),
    ensures
        trim_start(lead + rest) == trim_start(rest),
    decreases lead.len(),
{
    if lead.len() == 0 {
        assert(lead + rest =~= rest);
    } else {
        let more = lead.skip(1);
        assert forall|i: int| 0 <= i < more.len() implies is_blank(#[trigger] more[i]) by {
            assert(more[i] == lead[i + 1]);
        }
        lemma_trim_start_blank(more, rest);
        assert((lead + rest)[0] == lead[0]);
        assert((lead + rest).skip(1) =~= more + rest);
    }
}

proof fn lemma_trim_end_blank(rest: Seq<char>, trail: Seq<char>)
    requires
        forall|i: int| 0 <= i < trail.len() ==> is_blank(#[trigger] trail[i]),
    ensures
        trim_end(rest + trail) == trim_end(rest),
    decreases trail.len(),
{
    if trail.len() == 0 {
        assert(rest + trail =~= rest);
    } else {
        let more = trail.drop_last();
        assert forall|i: int| 0 <= i < more.len() implies is_blank(#[trigger] more[i]) by {
            assert(more[i] == trail[i]);
        }
        lemma_trim_end_blank(rest, more);
        assert((rest + trail).last() == trail[trail.len() - 1]);
        assert((rest + trail).drop_last() =~= rest + more);
    }
}

/// White space around a prefix makes no difference; what stands between is looked for as it is.
pub proof fn law_prefix_is_trimmed(lead: Seq<char>, core: Seq<char>, trail: Seq<char>)
    requires
        forall|i: int| 0 <= i < lead.len() ==> is_blank(#[trigger] lead[i]),
        forall|i: int| 0 <= i < trail.len() ==> is_blank(#[trigger] trail[i]),
        core.len() > 0,
        !is_blank(core[0]),
        !is_blank(core.last()),
    ensures
        token_prefixes(seq![lead + core + trail]) == seq![encode_utf8(core)],
{
    let list = seq![lead + core + trail];
    lemma_blank(core[0]);
    lemma_blank(core.last());
    assert(lead + core + trail =~= lead + (core + trail));
    lemma_trim_start_blank(lead, core + trail);
    assert((core + trail)[0] == core[0]);
    assert(trim_start(core + trail) == core + trail);
    lemma_trim_end_blank(core, trail);
    assert(trim_end(core) == core);
    assert(list.drop_last() =~= Seq::<Seq<char>>::empty());
    assert(list.last() == lead + core + trail);
    reveal_with_fuel(token_prefixes, 2);
    assert(token_prefixes(list) =~= seq![encode_utf8(core)]);
}

/// A prefix of nothing but white space is not looked for.
pub proof fn law_blank_prefix_is_left_out(blank: Seq<char>)
    requires
        forall|i: int| 0 <= i < blank.len() ==> is_blank(#[trigger] blank[i]),
    ensures
        token_prefixes(seq![blank]) == Seq::<Seq<u8>>::empty(),
{
    let list = seq![blank];
    let none = Seq::<char>::empty();
    assert(blank + none =~= blank);
    lemma_trim_start_blank(blank, none);
    assert(list.drop_last() =~= Seq::<Seq<char>>::empty());
    assert(list.last() == blank);
    reveal_with_fuel(token_prefixes, 2);
}

/// No prefix that is looked for is empty.
pub proof fn law_prefixes_are_not_empty(list: Seq<Seq<char>>)
    ensures
        forall|i: int|
            0 <= i < token_prefixes(list).len() ==> (#[trigger] token_prefixes(list)[i]).len() > 0,
    decreases list.len(),
{
    if list.len() > 0 {
        law_prefixes_are_not_empty(list.drop_last());
        let p = trim_end(trim_start(list.last()));
        if p.len() > 0 {
            encode_utf8_first_scalar(p);
            assert(encode_utf8(p).len() > 0);
            let before = token_prefixes(list.drop_last());
            assert(token_prefixes(list) == before.push(encode_utf8(p)));
        }
    }
}

} // verus!
