//! Facts about text that the rest of the crate shares.

use vstd::prelude::*;

verus! {

/// `needle` occurs in `haystack` as a contiguous run of characters.
pub open spec fn contains_text(haystack: Seq<char>, needle: Seq<char>) -> bool {
    exists|i: int|
        0 <= i && i + needle.len() <= haystack.len() && #[trigger] haystack.subrange(
            i,
            i + needle.len(),
        ) == needle
}

/// A text that occurs in a part of a larger text occurs in the larger text.
pub proof fn lemma_contains_text_in_part(
    before: Seq<char>,
    part: Seq<char>,
    after: Seq<char>,
    needle: Seq<char>,
)
    requires
        contains_text(part, needle),
    ensures
        contains_text(before + part + after, needle),
{
    let i = choose|i: int|
        0 <= i && i + needle.len() <= part.len() && #[trigger] part.subrange(i, i + needle.len())
            == needle;
    let whole = before + part + after;
    let j = before.len() + i;
    assert(whole.subrange(j, j + needle.len()) =~= needle);
}

/// A text that occurs in a text that occurs in a third occurs in the third.
pub proof fn lemma_contains_text_transitive(outer: Seq<char>, middle: Seq<char>, inner: Seq<char>)
    requires
        contains_text(outer, middle),
        contains_text(middle, inner),
    ensures
        contains_text(outer, inner),
{
    let i = choose|i: int|
        0 <= i && i + middle.len() <= outer.len() && #[trigger] outer.subrange(
            i,
            i + middle.len(),
        ) == middle;
    let before = outer.take(i);
    let after = outer.skip(i + middle.len());
    assert(outer =~= before + middle + after);
    lemma_contains_text_in_part(before, middle, after, inner);
}

/// Every text occurs in itself.
pub proof fn lemma_contains_text_self(text: Seq<char>)
    ensures
        contains_text(text, text),
{
    assert(text.subrange(0, 0 + text.len() as int) =~= text);
}


/// `String::push`: the standard library documents that it appends the
/// character to the end of the string. Not proved here.
pub assume_specification[ String::push ](s: &mut String, c: char)
    ensures
        final(s)@ == old(s)@.push(c),
;

/// The characters of a string.
pub fn chars_of(s: &str) -> (chars: Vec<char>)
    ensures
        chars@ == s@,
{
    let mut chars: Vec<char> = Vec::new();
    for c in it: s.chars()
        invariant
            chars@ == s@.take(it.index() as int),
            it.seq() == s@,
    {
        chars.push(c);
        proof {
            assert(s@.take(it.index() + 1) == s@.take(it.index() as int).push(c));
        }
    }
    proof {
        assert(s@.take(s@.len() as int) == s@);
    }
    chars
}

/// The string of a list of characters.
pub fn string_of(chars: &[char]) -> (s: String)
    ensures
        s@ == chars@,
{
    let mut s = String::new();
    let mut i: usize = 0;
    while i < chars.len()
        invariant
            i <= chars.len(),
            s@ == chars@.take(i as int),
        decreases chars.len() - i,
    {
        s.push(chars[i]);
        proof {
            assert(chars@.take(i + 1) == chars@.take(i as int).push(chars@[i as int]));
        }
        i += 1;
    }
    proof {
        assert(chars@.take(i as int) == chars@);
    }
    s
}


/// Whether two lists of characters are equal.
pub fn chars_equal(a: &[char], b: &[char]) -> (equal: bool)
    ensures
        equal == (a@ == b@),
{
    if a.len() != b.len() {
        return false;
    }
    let mut i: usize = 0;
    while i < a.len()
        invariant
            i <= a.len(),
            a.len() == b.len(),
            a@.take(i as int) == b@.take(i as int),
        decreases a.len() - i,
    {
        if a[i] != b[i] {
            proof {
                assert(a@[i as int] != b@[i as int]);
            }
            return false;
        }
        proof {
            assert(a@.take(i + 1) == a@.take(i as int).push(a@[i as int]));
            assert(b@.take(i + 1) == b@.take(i as int).push(b@[i as int]));
        }
        i += 1;
    }
    proof {
        assert(a@.take(i as int) == a@);
        assert(b@.take(i as int) == b@);
    }
    true
}

/// Whether two strings are equal.
pub fn strs_equal(a: &str, b: &str) -> (equal: bool)
    ensures
        equal == (a@ == b@),
{
    let x = chars_of(a);
    let y = chars_of(b);
    chars_equal(x.as_slice(), y.as_slice())
}

/// Whether `needle` stands in `haystack` at place `at`.
fn occurs_at(haystack: &[char], needle: &[char], at: usize) -> (occurs: bool)
    requires
        at + needle.len() <= haystack.len(),
    ensures
        occurs == (haystack@.subrange(at as int, at + needle@.len()) == needle@),
{
    let ghost window = haystack@.subrange(at as int, at + needle@.len());
    let mut j: usize = 0;
    while j < needle.len()
        invariant
            j <= needle.len(),
            at + needle.len() <= haystack.len(),
            window == haystack@.subrange(at as int, at + needle@.len()),
            window.take(j as int) == needle@.take(j as int),
        decreases needle.len() - j,
    {
        if haystack[at + j] != needle[j] {
            proof {
                assert(window[j as int] != needle@[j as int]);
            }
            return false;
        }
        proof {
            assert(window[j as int] == needle@[j as int]);
            assert(window.take(j + 1) == window.take(j as int).push(window[j as int]));
            assert(needle@.take(j + 1) == needle@.take(j as int).push(needle@[j as int]));
        }
        j += 1;
    }
    proof {
        assert(window.take(j as int) == window);
        assert(needle@.take(j as int) == needle@);
    }
    true
}

/// Whether `needle` occurs in `haystack`.
pub fn chars_contain(haystack: &[char], needle: &[char]) -> (found: bool)
    ensures
        found == contains_text(haystack@, needle@),
{
    if needle.len() > haystack.len() {
        return false;
    }
    let last = haystack.len() - needle.len();
    let mut at: usize = 0;
    while at < last
        invariant
            at <= last,
            last == haystack.len() - needle.len(),
            needle.len() <= haystack.len(),
            forall|k: int|
                0 <= k < at ==> #[trigger] haystack@.subrange(k, k + needle@.len()) != needle@,
        decreases last - at,
    {
        if occurs_at(haystack, needle, at) {
            return true;
        }
        at += 1;
    }
    occurs_at(haystack, needle, last)
}

/// Whether `needle` occurs in `haystack`.
pub fn str_contains(haystack: &str, needle: &str) -> (found: bool)
    ensures
        found == contains_text(haystack@, needle@),
{
    let hay = chars_of(haystack);
    let pin = chars_of(needle);
    chars_contain(hay.as_slice(), pin.as_slice())
}

/// A copy of the characters of `chars` from `from` up to `to`.
pub fn copy_chars(chars: &[char], from: usize, to: usize) -> (copy: Vec<char>)
    requires
        from <= to <= chars.len(),
    ensures
        copy@ == chars@.subrange(from as int, to as int),
{
    let mut copy: Vec<char> = Vec::new();
    let mut i: usize = from;
    while i < to
        invariant
            from <= i <= to,
            to <= chars.len(),
            copy@ == chars@.subrange(from as int, i as int),
        decreases to - i,
    {
        copy.push(chars[i]);
        proof {
            assert(chars@.subrange(from as int, i + 1) == chars@.subrange(
                from as int,
                i as int,
            ).push(chars@[i as int]));
        }
        i += 1;
    }
    copy
}

/// `text` begins with `prefix`.
pub open spec fn has_prefix(text: Seq<char>, prefix: Seq<char>) -> bool {
    prefix.len() <= text.len() && text.take(prefix.len() as int) == prefix
}

/// `text` ends with `suffix`.
pub open spec fn has_suffix(text: Seq<char>, suffix: Seq<char>) -> bool {
    suffix.len() <= text.len() && text.skip(text.len() - suffix.len()) == suffix
}

/// `text` without `prefix` at its beginning, if it begins with it.
pub open spec fn without_prefix(text: Seq<char>, prefix: Seq<char>) -> Option<Seq<char>> {
    if has_prefix(text, prefix) {
        Some(text.skip(prefix.len() as int))
    } else {
        None
    }
}

/// `text` without `suffix` at its end, if it ends with it.
pub open spec fn without_suffix(text: Seq<char>, suffix: Seq<char>) -> Option<Seq<char>> {
    if has_suffix(text, suffix) {
        Some(text.take(text.len() - suffix.len()))
    } else {
        None
    }
}

/// What is left of `text` behind `prefix`, if `text` begins with it.
pub fn strip_prefix(text: &[char], prefix: &[char]) -> (rest: Option<Vec<char>>)
    ensures
        match rest {
            Some(r) => without_prefix(text@, prefix@) == Some(r@),
            None => without_prefix(text@, prefix@) is None,
        },
{
    if prefix.len() > text.len() {
        return None;
    }
    let head = copy_chars(text, 0, prefix.len());
    if chars_equal(head.as_slice(), prefix) {
        let rest = copy_chars(text, prefix.len(), text.len());
        Some(rest)
    } else {
        None
    }
}

/// What is left of `text` before `suffix`, if `text` ends with it.
pub fn strip_suffix(text: &[char], suffix: &[char]) -> (rest: Option<Vec<char>>)
    ensures
        match rest {
            Some(r) => without_suffix(text@, suffix@) == Some(r@),
            None => without_suffix(text@, suffix@) is None,
        },
{
    if suffix.len() > text.len() {
        return None;
    }
    let tail = copy_chars(text, text.len() - suffix.len(), text.len());
    if chars_equal(tail.as_slice(), suffix) {
        let rest = copy_chars(text, 0, text.len() - suffix.len());
        Some(rest)
    } else {
        None
    }
}

/// The place of the first `c` in `text`, or the length of `text` if there is
/// none.
pub open spec fn index_of(text: Seq<char>, c: char) -> int
    decreases text.len(),
{
    if text.len() == 0 {
        0
    } else if text[0] == c {
        0
    } else {
        1 + index_of(text.skip(1), c)
    }
}

/// The parts of `text` between the separators, in order. A text without a
/// separator is its own single part.
pub open spec fn split(text: Seq<char>, sep: char) -> Seq<Seq<char>>
    decreases text.len(),
{
    let i = index_of(text, sep);
    if 0 <= i < text.len() {
        seq![text.take(i)] + split(text.skip(i + 1), sep)
    } else {
        seq![text]
    }
}

/// The first `n` characters of `text` are not `c`, and the next one is, or
/// the text ends there: `n` is the place of the first `c`.
pub proof fn lemma_index_of(text: Seq<char>, c: char, n: int)
    requires
        0 <= n <= text.len(),
        forall|k: int| 0 <= k < n ==> #[trigger] text[k] != c,
        n < text.len() ==> text[n] == c,
    ensures
        index_of(text, c) == n,
    decreases text.len(),
{
    if n > 0 {
        let rest = text.skip(1);
        assert forall|k: int| 0 <= k < n - 1 implies #[trigger] rest[k] != c by {
            assert(rest[k] == text[k + 1]);
        }
        lemma_index_of(rest, c, n - 1);
    }
}

/// The views of a list of texts, in order.
pub open spec fn texts_view(parts: Seq<Vec<char>>) -> Seq<Seq<char>> {
    parts.map_values(|p: Vec<char>| p@)
}

/// Splits `text` at every `sep`.
pub fn split_chars(text: &[char], sep: char) -> (parts: Vec<Vec<char>>)
    ensures
        texts_view(parts@) == split(text@, sep),
{
    let mut parts: Vec<Vec<char>> = Vec::new();
    let mut start: usize = 0;
    let mut i: usize = 0;
    proof {
        assert(text@.skip(0) == text@);
        assert(texts_view(parts@) + split(text@, sep) =~= split(text@, sep));
    }
    while i < text.len()
        invariant
            start <= i <= text.len(),
            split(text@, sep) == texts_view(parts@) + split(text@.skip(start as int), sep),
            forall|k: int| start <= k < i ==> #[trigger] text@[k] != sep,
        decreases text.len() - i,
    {
        if text[i] == sep {
            let part = copy_chars(text, start, i);
            proof {
                let rest = text@.skip(start as int);
                assert forall|k: int| 0 <= k < i - start implies #[trigger] rest[k] != sep by {
                    assert(rest[k] == text@[start + k]);
                }
                lemma_index_of(rest, sep, i - start);
                assert(rest.take(i - start) == part@);
                assert(rest.skip(i - start + 1) == text@.skip(i + 1));
                assert(texts_view(parts@.push(part)) =~= texts_view(parts@) + seq![part@]);
            }
            parts.push(part);
            start = i + 1;
        }
        i += 1;
    }
    let part = copy_chars(text, start, text.len());
    proof {
        let rest = text@.skip(start as int);
        assert forall|k: int| 0 <= k < rest.len() implies #[trigger] rest[k] != sep by {
            assert(rest[k] == text@[start + k]);
        }
        lemma_index_of(rest, sep, rest.len() as int);
        assert(rest == part@);
        assert(texts_view(parts@.push(part)) =~= texts_view(parts@) + seq![part@]);
    }
    parts.push(part);
    parts
}

/// Whether a character is white space: the characters that Unicode lists
/// under `White_Space`.
pub open spec fn is_space(c: char) -> bool {
    let n = c as u32;
    (0x09 <= n <= 0x0D) || n == 0x20 || n == 0x85 || n == 0xA0 || n == 0x1680 || (0x2000 <= n
        <= 0x200A) || n == 0x2028 || n == 0x2029 || n == 0x202F || n == 0x205F || n == 0x3000
}

/// The number of white-space characters at the beginning of `text`.
pub open spec fn leading_spaces(text: Seq<char>) -> int
    decreases text.len(),
{
    if text.len() > 0 && is_space(text[0]) {
        1 + leading_spaces(text.skip(1))
    } else {
        0
    }
}

/// The number of white-space characters at the end of `text`.
pub open spec fn trailing_spaces(text: Seq<char>) -> int
    decreases text.len(),
{
    if text.len() > 0 && is_space(text.last()) {
        1 + trailing_spaces(text.drop_last())
    } else {
        0
    }
}

/// `text` without the white space at its beginning and at its end.
pub open spec fn trimmed(text: Seq<char>) -> Seq<char> {
    let from = leading_spaces(text);
    if from >= text.len() {
        Seq::empty()
    } else {
        text.subrange(from, text.len() - trailing_spaces(text))
    }
}

/// The first `n` characters of `text` are white space and the next one is
/// not: `n` is the number of leading spaces.
pub proof fn lemma_leading_spaces(text: Seq<char>, n: int)
    requires
        0 <= n <= text.len(),
        forall|k: int| 0 <= k < n ==> is_space(#[trigger] text[k]),
        n < text.len() ==> !is_space(text[n]),
    ensures
        leading_spaces(text) == n,
    decreases text.len(),
{
    if n > 0 {
        let rest = text.skip(1);
        assert forall|k: int| 0 <= k < n - 1 implies is_space(#[trigger] rest[k]) by {
            assert(rest[k] == text[k + 1]);
        }
        lemma_leading_spaces(rest, n - 1);
    }
}

/// The last `n` characters of `text` are white space and the one before them
/// is not: `n` is the number of trailing spaces.
pub proof fn lemma_trailing_spaces(text: Seq<char>, n: int)
    requires
        0 <= n <= text.len(),
        forall|k: int| text.len() - n <= k < text.len() ==> is_space(#[trigger] text[k]),
        n < text.len() ==> !is_space(text[text.len() - n - 1]),
    ensures
        trailing_spaces(text) == n,
    decreases text.len(),
{
    if n > 0 {
        let rest = text.drop_last();
        assert forall|k: int| rest.len() - (n - 1) <= k < rest.len() implies is_space(
            #[trigger] rest[k],
        ) by {
            assert(rest[k] == text[k]);
        }
        lemma_trailing_spaces(rest, n - 1);
    }
}

/// Whether a character is white space.
pub fn char_is_space(c: char) -> (space: bool)
    ensures
        space == is_space(c),
{
    let n: u32 = c as u32;
    (0x09 <= n && n <= 0x0D) || n == 0x20 || n == 0x85 || n == 0xA0 || n == 0x1680 || (0x2000 <= n
        && n <= 0x200A) || n == 0x2028 || n == 0x2029 || n == 0x202F || n == 0x205F || n
        == 0x3000
}

/// `text` without the white space at its beginning and at its end.
pub fn trim_chars(text: &[char]) -> (result: Vec<char>)
    ensures
        result@ == trimmed(text@),
{
    let mut from: usize = 0;
    while from < text.len() && char_is_space(text[from])
        invariant
            from <= text.len(),
            forall|k: int| 0 <= k < from ==> is_space(#[trigger] text@[k]),
        decreases text.len() - from,
    {
        from += 1;
    }
    proof {
        lemma_leading_spaces(text@, from as int);
    }
    if from == text.len() {
        return Vec::new();
    }
    let mut to: usize = text.len();
    while to > from + 1 && char_is_space(text[to - 1])
        invariant
            from < to <= text.len(),
            !is_space(text@[from as int]),
            forall|k: int| to <= k < text.len() ==> is_space(#[trigger] text@[k]),
        decreases to,
    {
        to -= 1;
    }
    proof {
        lemma_trailing_spaces(text@, text@.len() - to);
    }
    copy_chars(text, from, to)
}

} // verus!
