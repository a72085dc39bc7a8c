//! Text primitives: decimal numbers, splitting, comparison and hexadecimal digits.
use vstd::prelude::*;

verus! {

/// `String::push` appends the given character to the end of the string.
pub assume_specification[ String::push ](s: &mut String, c: char)
    ensures
        final(s)@ == old(s)@.push(c),
;

// ---------------------------------------------------------------------------
// Characters and comparison
// ---------------------------------------------------------------------------

/// The characters of `s`, in order.
pub fn chars_of(s: &str) -> (r: Vec<char>)
    ensures
        r@ == s@,
{
    let mut r: Vec<char> = Vec::new();
    for c in it: s.chars()
        invariant
            it.seq() == s@,
            r@ == s@.take(it.index()),
    {
        r.push(c);
    }
    r
}

/// The string made of the given characters.
pub fn string_of(chars: &[char]) -> (r: String)
    ensures
        r@ == chars@,
{
    let mut r = String::new();
    let mut i: usize = 0;
    while i < chars.len()
        invariant
            i <= chars@.len(),
            r@ == chars@.take(i as int),
        decreases chars@.len() - i,
    {
        r.push(chars[i]);
        i += 1;
    }
    r
}

/// Whether two strings hold the same characters.
pub fn str_eq(a: &str, b: &str) -> (r: bool)
    ensures
        r == (a@ == b@),
{
    a.to_owned() == b.to_owned()
}

/// Whether two byte strings are equal.
pub fn bytes_eq(a: &[u8], b: &[u8]) -> (r: bool)
    ensures
        r == (a@ == b@),
{
    if a.len() != b.len() {
        return false;
    }
    let mut i: usize = 0;
    while i < a.len()
        invariant
            i <= a@.len(),
            a@.len() == b@.len(),
            forall|j: int| 0 <= j < i ==> a@[j] == b@[j],
        decreases a@.len() - i,
    {
        if a[i] != b[i] {
            return false;
        }
        i += 1;
    }
    assert(a@ =~= b@);
    true
}

/// Whether `s` begins with `prefix`.
pub open spec fn has_prefix<A>(s: Seq<A>, prefix: Seq<A>) -> bool {
    prefix.len() <= s.len() && s.take(prefix.len() as int) == prefix
}

/// Whether `s` begins with `prefix`.
pub fn starts_with(s: &str, prefix: &str) -> (r: bool)
    ensures
        r == has_prefix(s@, prefix@),
{
    let n = prefix.unicode_len();
    if s.unicode_len() < n {
        return false;
    }
    str_eq(s.substring_char(0, n), prefix)
}

// ---------------------------------------------------------------------------
// Decimal numbers
// ---------------------------------------------------------------------------

/// The decimal digit that stands for `d`.
pub open spec fn digit_char(d: nat) -> char {
    (d + 48) as char
}

/// The decimal notation of `n`, without leading zeros.
pub open spec fn decimal(n: nat) -> Seq<char>
    decreases n,
{
    if n < 10 {
        seq![digit_char(n)]
    } else {
        decimal(n / 10).push(digit_char(n % 10))
    }
}

/// The decimal notation of `n`.
pub fn decimal_string(n: u64) -> (r: String)
    ensures
        r@ == decimal(n as nat),
    decreases n,
{
    let d: u8 = (n % 10) as u8;
    if n < 10 {
        let mut r = String::new();
        r.push((d + 48) as char);
        r
    } else {
        let mut r = decimal_string(n / 10);
        r.push((d + 48) as char);
        r
    }
}

/// Whether `c` is one of the ten decimal digits.
pub open spec fn is_digit(c: char) -> bool {
    48 <= c as u32 <= 57
}

/// Whether every character of `s` is a decimal digit.
pub open spec fn all_digits(s: Seq<char>) -> bool {
    forall|i: int| 0 <= i < s.len() ==> is_digit(#[trigger] s[i])
}

/// The number that the digits `s` stand for.
pub open spec fn decimal_value(s: Seq<char>) -> nat
    decreases s.len(),
{
    if s.len() == 0 {
        0
    } else {
        decimal_value(s.drop_last()) * 10 + (s.last() as u32 - 48) as nat
    }
}

/// The text after an optional plus sign.
pub open spec fn unsigned_part(s: Seq<char>) -> Seq<char> {
    if s.len() > 0 && s[0] == '+' {
        s.skip(1)
    } else {
        s
    }
}

/// The number in `s`: an optional plus sign and at least one digit, nothing else.
pub open spec fn parsed_number(s: Seq<char>) -> Option<nat> {
    let d = unsigned_part(s);
    if d.len() > 0 && all_digits(d) {
        Some(decimal_value(d))
    } else {
        None
    }
}

/// The number in `s` where it fits 64 bits.
pub open spec fn parsed_u64(s: Seq<char>) -> Option<u64> {
    match parsed_number(s) {
        Some(v) => if v <= u64::MAX {
            Some(v as u64)
        } else {
            None
        },
        None => None,
    }
}

proof fn lemma_decimal_value_grows(s: Seq<char>, i: int)
    requires
        0 <= i <= s.len(),
        all_digits(s),
    ensures
        decimal_value(s.take(i)) <= decimal_value(s),
    decreases s.len() - i,
{
    if i == s.len() {
        assert(s.take(i) =~= s);
    } else {
        lemma_decimal_value_grows(s, i + 1);
        assert(s.take(i + 1).drop_last() =~= s.take(i));
        assert(is_digit(s[i]));
    }
}

/// Parses an unsigned number: an optional plus sign, then digits only.
pub fn parse_digits(s: &[char]) -> (r: Option<u64>)
    ensures
        r == parsed_u64(s@),
{
    let mut i: usize = 0;
    if s.len() > 0 && s[0] == '+' {
        i = 1;
    }
    let start: usize = i;
    let ghost d = unsigned_part(s@);
    assert(d =~= s@.skip(start as int));
    if s.len() == start {
        return None;
    }
    let mut v: u64 = 0;
    while i < s.len()
        invariant
            start <= i <= s@.len(),
            start < s@.len(),
            d == s@.skip(start as int),
            d == unsigned_part(s@),
            all_digits(d.take(i - start)),
            v == decimal_value(d.take(i - start)),
        decreases s@.len() - i,
    {
        let c = s[i];
        assert(d[i - start] == c);
        let code: u32 = c as u32;
        if code < 48 || code > 57 {
            assert(!is_digit(d[i - start]));
            return None;
        }
        let x: u64 = (code - 48) as u64;
        assert(d.take(i - start + 1).drop_last() =~= d.take(i - start));
        assert(d.take(i - start + 1).last() == c);
        assert forall|j: int| 0 <= j < i - start + 1 implies is_digit(
            #[trigger] d.take(i - start + 1)[j],
        ) by {
            if j < i - start {
                assert(d.take(i - start)[j] == d.take(i - start + 1)[j]);
            }
        }
        if v > (u64::MAX - x) / 10 {
            proof {
                assert(v * 10 + x > u64::MAX);
                if all_digits(d) {
                    lemma_decimal_value_grows(d, i - start + 1);
                }
            }
            return None;
        }
        v = v * 10 + x;
        i += 1;
    }
    assert(d.take(i - start) =~= d);
    Some(v)
}

/// Parses an unsigned number: an optional plus sign, then digits only.
pub fn parse_u64(s: &str) -> (r: Option<u64>)
    ensures
        r == parsed_u64(s@),
{
    let chars = chars_of(s);
    parse_digits(chars.as_slice())
}

proof fn lemma_decimal_digits(n: nat)
    ensures
        decimal(n).len() > 0,
        all_digits(decimal(n)),
        decimal_value(decimal(n)) == n,
    decreases n,
{
    if n < 10 {
        let s = decimal(n);
        assert(s.drop_last() =~= Seq::<char>::empty());
        assert(decimal_value(s.drop_last()) == 0);
        assert(s.last() == digit_char(n));
    } else {
        lemma_decimal_digits(n / 10);
        let s = decimal(n);
        assert(s.drop_last() =~= decimal(n / 10));
        assert(s.last() == digit_char(n % 10));
    }
}

/// Parsing the decimal notation of a number gives the number back.
pub proof fn law_decimal_round_trip(n: u64)
    ensures
        parsed_u64(decimal(n as nat)) == Some(n),
{
    lemma_decimal_digits(n as nat);
    let s = decimal(n as nat);
    assert(is_digit(s[0]));
    assert(unsigned_part(s) == s);
}

/// The decimal notation of a number holds digits only.
pub proof fn law_decimal_is_digits(n: nat)
    ensures
        decimal(n).len() > 0,
        all_digits(decimal(n)),
{
    lemma_decimal_digits(n);
}

/// How many bytes a text takes.
pub open spec fn byte_len(s: Seq<char>) -> nat {
    vstd::utf8::encode_utf8(s).len()
}

/// A copy of a list of texts.
pub fn clone_strings(list: &Vec<String>) -> (r: Vec<String>)
    ensures
        views(r@) == views(list@),
{
    let mut r: Vec<String> = Vec::new();
    let mut i: usize = 0;
    while i < list.len()
        invariant
            i <= list@.len(),
            views(r@) == views(list@).take(i as int),
        decreases list@.len() - i,
    {
        let ghost before = r@;
        r.push(list[i].clone());
        assert(views(r@) =~= views(before).push(list@[i as int]@));
        assert(views(list@).take(i + 1) =~= views(list@).take(i as int).push(
            list@[i as int]@,
        ));
        i += 1;
    }
    assert(views(list@).take(i as int) =~= views(list@));
    r
}

// ---------------------------------------------------------------------------
// Splitting
// ---------------------------------------------------------------------------

/// The position of the first `c` in `s`, or the length of `s` where there is none.
pub open spec fn find_char(s: Seq<char>, c: char) -> int
    decreases s.len(),
{
    if s.len() == 0 || s[0] == c {
        0
    } else {
        1 + find_char(s.skip(1), c)
    }
}

/// The position that `find_char` names is the first of its kind.
pub proof fn lemma_find_char(s: Seq<char>, c: char)
    ensures
        0 <= find_char(s, c) <= s.len(),
        find_char(s, c) < s.len() ==> s[find_char(s, c)] == c,
        forall|j: int| 0 <= j < find_char(s, c) ==> s[j] != c,
    decreases s.len(),
{
    if s.len() > 0 && s[0] != c {
        lemma_find_char(s.skip(1), c);
        let k = find_char(s.skip(1), c);
        if k < s.len() - 1 {
            assert(s.skip(1)[k] == s[k + 1]);
        }
        assert forall|j: int| 0 <= j < find_char(s, c) implies s[j] != c by {
            if j > 0 {
                assert(s.skip(1)[j - 1] == s[j]);
            }
        }
    }
}

/// A position is where `find_char` points if it holds `c` (or is the end) and no earlier one does.
pub proof fn lemma_find_char_is(s: Seq<char>, c: char, i: int)
    requires
        0 <= i <= s.len(),
        i < s.len() ==> s[i] == c,
        forall|j: int| 0 <= j < i ==> s[j] != c,
    ensures
        find_char(s, c) == i,
{
    lemma_find_char(s, c);
    let k = find_char(s, c);
    if k < i {
        assert(s[k] != c);
    }
}

/// The position of the first `c` at or after `from`, counted from `from`.
pub fn find_char_from(s: &[char], from: usize, c: char) -> (r: usize)
    requires
        from <= s@.len(),
    ensures
        r == find_char(s@.skip(from as int), c),
        from + r <= s@.len(),
{
    let mut i: usize = from;
    let ghost t = s@.skip(from as int);
    while i < s.len() && s[i] != c
        invariant
            from <= i <= s@.len(),
            t == s@.skip(from as int),
            forall|j: int| 0 <= j < i - from ==> t[j] != c,
        decreases s@.len() - i,
    {
        assert(t[i - from] == s@[i as int]);
        i += 1;
    }
    proof {
        if i < s@.len() {
            assert(t[i - from] == s@[i as int]);
        }
        lemma_find_char_is(t, c, i - from);
    }
    i - from
}

/// The pieces of `s` between the separators `c`, in order; one more than there are separators.
pub open spec fn split(s: Seq<char>, c: char) -> Seq<Seq<char>>
    decreases s.len(),
{
    let i = find_char(s, c);
    if 0 <= i < s.len() {
        seq![s.take(i)] + split(s.skip(i + 1), c)
    } else {
        seq![s]
    }
}

/// The views of a list of strings.
pub open spec fn views(v: Seq<String>) -> Seq<Seq<char>> {
    v.map_values(|x: String| x@)
}

/// Splits `s` at every `c`.
pub fn split_string(s: &str, c: char) -> (r: Vec<String>)
    ensures
        views(r@) == split(s@, c),
        r@.len() > 0,
{
    let chars = chars_of(s);
    let total = chars.len();
    let mut r: Vec<String> = Vec::new();
    let mut from: usize = 0;
    proof {
        assert(s@.skip(0) =~= s@);
        assert(views(r@) =~= Seq::<Seq<char>>::empty());
        assert(Seq::<Seq<char>>::empty() + split(s@, c) =~= split(s@, c));
    }
    loop
        invariant_except_break
            views(r@) + split(s@.skip(from as int), c) == split(s@, c),
        invariant
            from <= chars@.len(),
            total == chars@.len(),
            chars@ == s@,
        ensures
            views(r@) == split(s@, c),
            r@.len() > 0,
        decreases chars@.len() - from,
    {
        let ghost before = r@;
        let ghost rest = s@.skip(from as int);
        let k = find_char_from(chars.as_slice(), from, c);
        let piece = string_of(slice_range(chars.as_slice(), from, from + k));
        assert(piece@ =~= rest.take(k as int));
        r.push(piece);
        assert(views(r@) =~= views(before).push(piece@));
        if from + k == total {
            assert(rest.take(k as int) =~= rest);
            assert(views(before) + seq![rest] =~= views(r@));
            break;
        }
        proof {
            assert(rest.skip(k + 1) =~= s@.skip(from + k + 1));
            assert(views(before) + (seq![rest.take(k as int)] + split(rest.skip(k + 1), c))
                =~= views(r@) + split(rest.skip(k + 1), c));
        }
        from = from + k + 1;
    }
    r
}

/// The part of a slice between two positions.
pub fn slice_range<A>(s: &[A], from: usize, to: usize) -> (r: &[A])
    requires
        from <= to <= s@.len(),
    ensures
        r@ == s@.subrange(from as int, to as int),
{
    vstd::slice::slice_subrange(s, from, to)
}

// ---------------------------------------------------------------------------
// Ranges
// ---------------------------------------------------------------------------

/// The range from `first` to `last`, both included, as a `Content-Range` header writes it.
pub open spec fn range_text(first: nat, last: nat) -> Seq<char> {
    decimal(first).push('-') + decimal(last)
}

/// The two numbers around the first dash of `s`.
pub open spec fn parsed_range(s: Seq<char>) -> Option<(u64, u64)> {
    let i = find_char(s, '-');
    if i >= s.len() {
        None
    } else {
        match (parsed_u64(s.take(i)), parsed_u64(s.skip(i + 1))) {
            (Some(first), Some(last)) => Some((first, last)),
            _ => None,
        }
    }
}

/// Writes a range.
pub fn range_string(first: u64, last: u64) -> (r: String)
    ensures
        r@ == range_text(first as nat, last as nat),
{
    let mut r = decimal_string(first);
    r.push('-');
    let end = decimal_string(last);
    r.append(end.as_str());
    r
}

/// Reads a range.
pub fn parse_range(s: &str) -> (r: Option<(u64, u64)>)
    ensures
        r == parsed_range(s@),
{
    let chars = chars_of(s);
    assert(chars@.skip(0) =~= s@);
    let i = find_char_from(chars.as_slice(), 0, '-');
    if i >= chars.len() {
        return None;
    }
    let head = slice_range(chars.as_slice(), 0, i);
    let tail = slice_range(chars.as_slice(), i + 1, chars.len());
    assert(head@ =~= s@.take(i as int));
    assert(tail@ =~= s@.skip(i + 1));
    match (parse_digits(head), parse_digits(tail)) {
        (Some(first), Some(last)) => Some((first, last)),
        _ => None,
    }
}

/// Reading a written range gives the two numbers back.
pub proof fn law_range_round_trip(first: u64, last: u64)
    ensures
        parsed_range(range_text(first as nat, last as nat)) == Some((first, last)),
{
    let a = decimal(first as nat);
    let b = decimal(last as nat);
    let s = range_text(first as nat, last as nat);
    lemma_decimal_digits(first as nat);
    law_decimal_round_trip(first);
    law_decimal_round_trip(last);
    assert forall|j: int| 0 <= j < a.len() implies s[j] != '-' by {
        assert(s[j] == a[j]);
        assert(is_digit(a[j]));
    }
    assert(s[a.len() as int] == '-');
    lemma_find_char_is(s, '-', a.len() as int);
    assert(s.take(a.len() as int) =~= a);
    assert(s.skip(a.len() as int + 1) =~= b);
}

// ---------------------------------------------------------------------------
// Hexadecimal
// ---------------------------------------------------------------------------

/// The lower-case hexadecimal digit that stands for `d`.
pub open spec fn hex_char(d: int) -> char {
    if d < 10 {
        (d + 48) as char
    } else {
        (d + 87) as char
    }
}

/// Two lower-case hexadecimal digits for each byte.
pub open spec fn hex_text(bytes: Seq<u8>) -> Seq<char>
    decreases bytes.len(),
{
    if bytes.len() == 0 {
        Seq::empty()
    } else {
        hex_text(bytes.drop_last()).push(hex_char(bytes.last() as int / 16)).push(
            hex_char(bytes.last() as int % 16),
        )
    }
}

fn hex_digit(d: u8) -> (r: char)
    requires
        d < 16,
    ensures
        r == hex_char(d as int),
{
    if d < 10 {
        (d + 48) as char
    } else {
        (d + 87) as char
    }
}

/// Appends two lower-case hexadecimal digits for each byte.
pub fn append_hex(s: &mut String, bytes: &[u8])
    ensures
        final(s)@ == old(s)@ + hex_text(bytes@),
{
    let mut i: usize = 0;
    assert(s@ =~= old(s)@ + hex_text(bytes@.take(0)));
    while i < bytes.len()
        invariant
            i <= bytes@.len(),
            s@ == old(s)@ + hex_text(bytes@.take(i as int)),
        decreases bytes@.len() - i,
    {
        let b = bytes[i];
        s.push(hex_digit(b / 16));
        s.push(hex_digit(b % 16));
        proof {
            let t = bytes@.take(i + 1);
            assert(t.drop_last() =~= bytes@.take(i as int));
            assert(t.last() == b);
            assert(s@ =~= old(s)@ + hex_text(t));
        }
        i += 1;
    }
    assert(bytes@.take(i as int) =~= bytes@);
}

/// Hexadecimal notation has two characters for each byte.
pub proof fn lemma_hex_text_len(bytes: Seq<u8>)
    ensures
        hex_text(bytes).len() == 2 * bytes.len(),
    decreases bytes.len(),
{
    if bytes.len() > 0 {
        lemma_hex_text_len(bytes.drop_last());
    }
}

// ---------------------------------------------------------------------------
// Laws of notation
// ---------------------------------------------------------------------------

/// Numbers are written in tens: the digit for the ones follows the notation of the tens, and a number below
/// ten is its digit.
pub proof fn law_decimal_counts_in_tens(n: nat, d: nat)
    requires
        d < 10,
    ensures
        decimal(d) == seq![('0' as int + d) as char],
        n > 0 ==> decimal(10 * n + d) == decimal(n) + seq![('0' as int + d) as char],
{
    if n > 0 {
        assert((10 * n + d) / 10 == n);
        assert((10 * n + d) % 10 == d);
        assert(decimal(n).push(digit_char(d)) =~= decimal(n) + seq![('0' as int + d) as char]);
    }
}

/// The decimal digits are the characters from `0` to `9`.
pub proof fn lemma_digit(c: char)
    ensures
        is_digit(c) == ('0' <= c <= '9'),
{
    let code: int = c as int;
    assert(code == c as u32);
}

/// What is empty, or holds anything but the digits `0` to `9` behind an optional plus sign, is no number.
pub proof fn law_only_digits_make_a_number(s: Seq<char>, i: int)
    requires
        s.len() == 0 || s == seq!['+'] || (0 <= i < s.len() && !('0' <= s[i] <= '9') && (i > 0 || s[i]
            != '+')),
    ensures
        parsed_u64(s) is None,
{
    let d = unsigned_part(s);
    if s.len() > 0 && s != seq!['+'] {
        lemma_digit(s[i]);
        if s[0] == '+' {
            assert(d[i - 1] == s[i]);
        } else {
            assert(d[i] == s[i]);
        }
    }
}

/// A plus sign in front of a number makes no difference, unless there is one already.
pub proof fn law_plus_sign_is_skipped(s: Seq<char>)
    requires
        s.len() > 0,
        s[0] != '+',
    ensures
        parsed_u64(seq!['+'] + s) == parsed_u64(s),
{
    assert((seq!['+'] + s).skip(1) =~= s);
}

/// A text without a dash is no range.
pub proof fn law_range_needs_a_dash(s: Seq<char>)
    requires
        forall|i: int| 0 <= i < s.len() ==> s[i] != '-',
    ensures
        parsed_range(s) is None,
{
    lemma_find_char_is(s, '-', s.len() as int);
}

/// A byte is written with two of the sixteen digits `0` to `9` and `a` to `f`, the one for its sixteens first.
pub proof fn law_bytes_are_written_in_sixteens(before: Seq<u8>, byte: u8, high: int, low: int)
    requires
        0 <= high < 16,
        0 <= low < 16,
        byte == 16 * high + low,
    ensures
        hex_text(Seq::<u8>::empty()) == Seq::<char>::empty(),
        hex_text(before.push(byte)) == hex_text(before) + seq![
            "0123456789abcdef"@[high],
            "0123456789abcdef"@[low],
        ],
{
    reveal_strlit("0123456789abcdef");
    assert(before.push(byte).drop_last() =~= before);
    assert(byte as int / 16 == high);
    assert(byte as int % 16 == low);
    assert(hex_char(high) == "0123456789abcdef"@[high]);
    assert(hex_char(low) == "0123456789abcdef"@[low]);
    assert(hex_text(before.push(byte)) =~= hex_text(before) + seq![hex_char(high), hex_char(low)]);
}

/// A separator divides what stands before the first one from the rest, which is divided likewise; a text
/// without it is one piece.
pub proof fn law_split_divides(a: Seq<char>, b: Seq<char>, c: char)
    requires
        forall|i: int| 0 <= i < a.len() ==> a[i] != c,
    ensures
        split(a, c) == seq![a],
        split(a + seq![c] + b, c) == seq![a] + split(b, c),
{
    lemma_find_char_is(a, c, a.len() as int);
    let s = a + seq![c] + b;
    lemma_find_char_is(s, c, a.len() as int);
    assert(s.take(a.len() as int) =~= a);
    assert(s.skip(a.len() as int + 1) =~= b);
}

/// The bytes of two texts, one behind the other, are those of both; and each character takes at least one.
pub proof fn law_bytes_of_joined_texts(a: Seq<char>, b: Seq<char>)
    ensures
        vstd::utf8::encode_utf8(a + b) == vstd::utf8::encode_utf8(a) + vstd::utf8::encode_utf8(b),
        byte_len(a + b) == byte_len(a) + byte_len(b),
        byte_len(a) >= a.len(),
    decreases a.len(),
{
    if a.len() == 0 {
        assert(a + b =~= b);
        assert(Seq::<u8>::empty() + vstd::utf8::encode_utf8(b) =~= vstd::utf8::encode_utf8(b));
    } else {
        let rest = a.drop_first();
        law_bytes_of_joined_texts(rest, b);
        assert((a + b).drop_first() =~= rest + b);
        assert((a + b)[0] == a[0]);
        let first = vstd::utf8::encode_scalar(a[0] as u32);
        assert(first + (vstd::utf8::encode_utf8(rest) + vstd::utf8::encode_utf8(b)) =~= (first
            + vstd::utf8::encode_utf8(rest)) + vstd::utf8::encode_utf8(b));
        vstd::utf8::encode_utf8_first_scalar(a);
        assert(first.len() >= 1);
    }
}

/// A text begins with a prefix exactly if it is the prefix and something behind it.
pub proof fn law_prefix_and_rest(s: Seq<char>, prefix: Seq<char>, rest: Seq<char>)
    ensures
        has_prefix(prefix + rest, prefix),
        has_prefix(s, prefix) ==> s == prefix + s.skip(prefix.len() as int),
{
    assert((prefix + rest).take(prefix.len() as int) =~= prefix);
    if has_prefix(s, prefix) {
        assert(s =~= s.take(prefix.len() as int) + s.skip(prefix.len() as int));
    }
}

/// A list of strings is known by their characters, in their order.
pub proof fn law_strings_are_seen(list: Seq<String>, i: int)
    ensures
        views(list).len() == list.len(),
        0 <= i < list.len() ==> views(list)[i] == list[i]@,
{
}

/// A number that does not fit 64 bits is refused, not cut off.
pub proof fn law_large_numbers_are_refused(n: nat)
    requires
        n > u64::MAX,
    ensures
        parsed_u64(decimal(n)) is None,
{
    lemma_decimal_digits(n);
    let s = decimal(n);
    assert(is_digit(s[0]));
    assert(unsigned_part(s) == s);
}

proof fn lemma_leading_zero(s: Seq<char>)
    ensures
        decimal_value(seq!['0'] + s) == decimal_value(s),
    decreases s.len(),
{
    let t = seq!['0'] + s;
    if s.len() == 0 {
        assert(t.drop_last() =~= Seq::<char>::empty());
        assert(t.last() == '0');
        assert(decimal_value(t.drop_last()) == 0);
    } else {
        lemma_leading_zero(s.drop_last());
        assert(t.drop_last() =~= seq!['0'] + s.drop_last());
        assert(t.last() == s.last());
    }
}

/// A zero in front of the digits of a number makes no difference.
pub proof fn law_leading_zero_is_skipped(s: Seq<char>)
    requires
        s.len() > 0,
        s[0] != '+',
    ensures
        parsed_u64(seq!['0'] + s) == parsed_u64(s),
{
    let t = seq!['0'] + s;
    lemma_leading_zero(s);
    assert(unsigned_part(t) == t);
    assert(unsigned_part(s) == s);
    lemma_digit('0');
    if all_digits(s) {
        assert forall|i: int| 0 <= i < t.len() implies is_digit(#[trigger] t[i]) by {
            if i > 0 {
                assert(t[i] == s[i - 1]);
                assert(is_digit(s[i - 1]));
            }
        }
    }
    if all_digits(t) {
        assert forall|i: int| 0 <= i < s.len() implies is_digit(#[trigger] s[i]) by {
            assert(t[i + 1] == s[i]);
            assert(is_digit(t[i + 1]));
        }
    }
}

/// A range is the number before its first dash and the number behind it, where both are numbers.
pub proof fn law_range_is_two_numbers(a: Seq<char>, b: Seq<char>)
    requires
        forall|i: int| 0 <= i < a.len() ==> a[i] != '-',
    ensures
        parsed_range(a + seq!['-'] + b) == (match (parsed_u64(a), parsed_u64(b)) {
            (Some(first), Some(last)) => Some((first, last)),
            _ => None,
        }),
{
    let s = a + seq!['-'] + b;
    lemma_find_char_is(s, '-', a.len() as int);
    assert(s.take(a.len() as int) =~= a);
    assert(s.skip(a.len() as int + 1) =~= b);
}

} // verus!
