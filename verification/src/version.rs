//! Versions of three numbers: `major.minor.patch`.

use vstd::prelude::*;

use crate::text::{chars_of, lemma_index_of, split, split_chars, string_of, texts_view};

verus! {

/// Whether a character is one of the ten digits.
pub open spec fn is_digit(c: char) -> bool {
    '0' <= c <= '9'
}

/// The number that a digit stands for.
pub open spec fn digit_value(c: char) -> nat {
    (c as u32 - '0' as u32) as nat
}

/// The digit of a number below ten.
pub open spec fn digit_of(n: nat) -> char {
    if n == 0 {
        '0'
    } else if n == 1 {
        '1'
    } else if n == 2 {
        '2'
    } else if n == 3 {
        '3'
    } else if n == 4 {
        '4'
    } else if n == 5 {
        '5'
    } else if n == 6 {
        '6'
    } else if n == 7 {
        '7'
    } else if n == 8 {
        '8'
    } else {
        '9'
    }
}

/// The text holds digits only.
pub open spec fn all_digits(text: Seq<char>) -> bool {
    forall|i: int| 0 <= i < text.len() ==> is_digit(#[trigger] text[i])
}

/// The number that a text of digits stands for in base ten.
pub open spec fn decimal_value(digits: Seq<char>) -> nat
    decreases digits.len(),
{
    if digits.len() == 0 {
        0
    } else {
        decimal_value(digits.drop_last()) * 10 + digit_value(digits.last())
    }
}

/// A number in base ten, without leading zeros.
pub open spec fn decimal_text(n: nat) -> Seq<char>
    decreases n,
{
    if n < 10 {
        seq![digit_of(n)]
    } else {
        decimal_text(n / 10).push(digit_of(n % 10))
    }
}

/// A text is a number when it is not empty, holds digits only and stands for
/// a number that fits in 32 bits.
pub open spec fn is_number(text: Seq<char>) -> bool {
    text.len() > 0 && all_digits(text) && decimal_value(text) <= u32::MAX
}

/// The three numbers of a version, where the text is three numbers with a
/// dot between them.
pub open spec fn version_numbers(text: Seq<char>) -> Option<(u32, u32, u32)> {
    let parts = split(text, '.');
    if parts.len() == 3 && is_number(parts[0]) && is_number(parts[1]) && is_number(parts[2]) {
        Some(
            (
                decimal_value(parts[0]) as u32,
                decimal_value(parts[1]) as u32,
                decimal_value(parts[2]) as u32,
            ),
        )
    } else {
        None
    }
}

/// The text of a version.
pub open spec fn version_text(major: u32, minor: u32, patch: u32) -> Seq<char> {
    decimal_text(major as nat) + seq!['.'] + decimal_text(minor as nat) + seq!['.']
        + decimal_text(patch as nat)
}

/// Errors of versions.
#[derive(Clone, Copy, Debug, PartialEq, Eq, Structural)]
pub enum VersionError {
    /// The text is not three numbers with a dot between them.
    InvalidVersion,
}

impl VersionError {
    /// The message of this error.
    pub fn to_string(&self) -> (message: String)
        ensures
            message@ == "Invalid version: expected MAJOR.MINOR.PATCH"@,
    {
        "Invalid version: expected MAJOR.MINOR.PATCH".to_owned()
    }
}

/// The text of a number holds digits only, stands for the number and is not
/// empty.
pub proof fn lemma_decimal_text(n: nat)
    ensures
        decimal_text(n).len() > 0,
        all_digits(decimal_text(n)),
        decimal_value(decimal_text(n)) == n,
    decreases n,
{
    if n < 10 {
        let text = decimal_text(n);
        assert(text.drop_last() =~= Seq::<char>::empty());
        assert(decimal_value(text.drop_last()) == 0);
        assert(digit_value(digit_of(n)) == n);
    } else {
        lemma_decimal_text(n / 10);
        let text = decimal_text(n);
        let front = decimal_text(n / 10);
        assert(text.drop_last() =~= front);
        assert(text.last() == digit_of(n % 10));
        assert(digit_value(digit_of(n % 10)) == n % 10);
        assert forall|i: int| 0 <= i < text.len() implies is_digit(#[trigger] text[i]) by {
            if i < front.len() {
                assert(text[i] == front[i]);
            }
        }
    }
}

/// The number that a text of digits stands for, or `None` where the text is
/// empty, holds something else or stands for more than 32 bits hold.
pub fn parse_number(text: &[char]) -> (number: Option<u32>)
    ensures
        match number {
            Some(n) => is_number(text@) && n == decimal_value(text@),
            None => !is_number(text@),
        },
{
    if text.len() == 0 {
        return None;
    }
    let mut value: u64 = 0;
    let mut i: usize = 0;
    while i < text.len()
        invariant
            i <= text.len(),
            all_digits(text@.take(i as int)),
            value == decimal_value(text@.take(i as int)),
            value <= u32::MAX,
        decreases text.len() - i,
    {
        let c = text[i];
        proof {
            assert(text@.take(i + 1).drop_last() == text@.take(i as int));
            assert(text@.take(i + 1).last() == c);
        }
        if !('0' <= c && c <= '9') {
            proof {
                assert(!is_digit(text@[i as int]));
            }
            return None;
        }
        let digit: u64 = (c as u32 - '0' as u32) as u64;
        value = value * 10 + digit;
        proof {
            assert forall|k: int| 0 <= k < i + 1 implies is_digit(
                #[trigger] text@.take(i + 1)[k],
            ) by {
                if k < i {
                    assert(text@.take(i + 1)[k] == text@.take(i as int)[k]);
                }
            }
        }
        if value > 0xFFFF_FFFF {
            proof {
                lemma_value_grows(text@, i + 1);
            }
            return None;
        }
        i += 1;
    }
    proof {
        assert(text@.take(i as int) == text@);
    }
    Some(value as u32)
}

/// What a text of digits stands for is at least what any beginning of it
/// stands for.
pub proof fn lemma_value_grows(text: Seq<char>, n: int)
    requires
        0 <= n <= text.len(),
    ensures
        decimal_value(text.take(n)) <= decimal_value(text),
    decreases text.len() - n,
{
    if n < text.len() {
        lemma_value_grows(text, n + 1);
        assert(text.take(n + 1).drop_last() == text.take(n));
    } else {
        assert(text.take(n) == text);
    }
}

/// The three numbers of a version.
pub fn parse_version(version: &str) -> (numbers: Result<(u32, u32, u32), VersionError>)
    ensures
        match version_numbers(version@) {
            Some(n) => numbers == Ok::<(u32, u32, u32), VersionError>(n),
            None => numbers == Err::<(u32, u32, u32), VersionError>(VersionError::InvalidVersion),
        },
{
    let chars = chars_of(version);
    let parts = split_chars(chars.as_slice(), '.');
    proof {
        assert(texts_view(parts@).len() == parts@.len());
    }
    if parts.len() != 3 {
        return Err(VersionError::InvalidVersion);
    }
    proof {
        assert(texts_view(parts@)[0] == parts@[0]@);
        assert(texts_view(parts@)[1] == parts@[1]@);
        assert(texts_view(parts@)[2] == parts@[2]@);
    }
    let major = parse_number(parts[0].as_slice());
    let minor = parse_number(parts[1].as_slice());
    let patch = parse_number(parts[2].as_slice());
    match (major, minor, patch) {
        (Some(a), Some(b), Some(c)) => Ok((a, b, c)),
        _ => Err(VersionError::InvalidVersion),
    }
}

/// Appends a number in base ten.
pub fn push_number(text: &mut Vec<char>, n: u32)
    ensures
        final(text)@ == old(text)@ + decimal_text(n as nat),
    decreases n,
{
    if n >= 10 {
        push_number(text, n / 10);
    }
    let d: u32 = n % 10;
    let c = if d == 0 {
        '0'
    } else if d == 1 {
        '1'
    } else if d == 2 {
        '2'
    } else if d == 3 {
        '3'
    } else if d == 4 {
        '4'
    } else if d == 5 {
        '5'
    } else if d == 6 {
        '6'
    } else if d == 7 {
        '7'
    } else if d == 8 {
        '8'
    } else {
        '9'
    };
    text.push(c);
    proof {
        assert(final(text)@ =~= old(text)@ + decimal_text(n as nat));
    }
}

/// The text of a version: the three numbers in base ten with a dot between
/// them.
pub fn format_version(major: u32, minor: u32, patch: u32) -> (text: String)
    ensures
        text@ == version_text(major, minor, patch),
{
    let mut chars: Vec<char> = Vec::new();
    push_number(&mut chars, major);
    chars.push('.');
    push_number(&mut chars, minor);
    chars.push('.');
    push_number(&mut chars, patch);
    proof {
        assert(chars@ =~= version_text(major, minor, patch));
    }
    string_of(chars.as_slice())
}

/// The next major version: the major number one higher, the others zero.
/// `None` where the major number cannot grow.
pub fn increment_major(major: u32, minor: u32, patch: u32) -> (next: Option<(u32, u32, u32)>)
    ensures
        major < u32::MAX ==> next == Some(((major + 1) as u32, 0u32, 0u32)),
        major == u32::MAX ==> next is None,
{
    if major == u32::MAX {
        None
    } else {
        Some((major + 1, 0, 0))
    }
}

/// The next minor version: the minor number one higher, the patch number
/// zero. `None` where the minor number cannot grow.
pub fn increment_minor(major: u32, minor: u32, patch: u32) -> (next: Option<(u32, u32, u32)>)
    ensures
        minor < u32::MAX ==> next == Some((major, (minor + 1) as u32, 0u32)),
        minor == u32::MAX ==> next is None,
{
    if minor == u32::MAX {
        None
    } else {
        Some((major, minor + 1, 0))
    }
}

/// The next patch version: the patch number one higher. `None` where the
/// patch number cannot grow.
pub fn increment_patch(major: u32, minor: u32, patch: u32) -> (next: Option<(u32, u32, u32)>)
    ensures
        patch < u32::MAX ==> next == Some((major, minor, (patch + 1) as u32)),
        patch == u32::MAX ==> next is None,
{
    if patch == u32::MAX {
        None
    } else {
        Some((major, minor, patch + 1))
    }
}

/// A text of digits holds no dot.
proof fn lemma_digits_hold_no_dot(text: Seq<char>)
    requires
        all_digits(text),
    ensures
        forall|k: int| 0 <= k < text.len() ==> #[trigger] text[k] != '.',
{
    assert forall|k: int| 0 <= k < text.len() implies #[trigger] text[k] != '.' by {
        assert(is_digit(text[k]));
    }
}

/// Reading the text of a version gives its three numbers back.
pub proof fn lemma_parse_format(major: u32, minor: u32, patch: u32)
    ensures
        version_numbers(version_text(major, minor, patch)) == Some((major, minor, patch)),
{
    let a = decimal_text(major as nat);
    let b = decimal_text(minor as nat);
    let c = decimal_text(patch as nat);
    lemma_decimal_text(major as nat);
    lemma_decimal_text(minor as nat);
    lemma_decimal_text(patch as nat);
    lemma_digits_hold_no_dot(a);
    lemma_digits_hold_no_dot(b);
    lemma_digits_hold_no_dot(c);
    let text = version_text(major, minor, patch);
    let rest = b + seq!['.'] + c;
    assert(text =~= a + seq!['.'] + rest);
    assert forall|k: int| 0 <= k < a.len() implies #[trigger] text[k] != '.' by {
        assert(text[k] == a[k]);
    }
    assert(text[a.len() as int] == '.');
    lemma_index_of(text, '.', a.len() as int);
    assert(text.take(a.len() as int) =~= a);
    assert(text.skip(a.len() as int + 1) =~= rest);
    assert forall|k: int| 0 <= k < b.len() implies #[trigger] rest[k] != '.' by {
        assert(rest[k] == b[k]);
    }
    assert(rest[b.len() as int] == '.');
    lemma_index_of(rest, '.', b.len() as int);
    assert(rest.take(b.len() as int) =~= b);
    assert(rest.skip(b.len() as int + 1) =~= c);
    lemma_index_of(c, '.', c.len() as int);
    assert(split(c, '.') =~= seq![c]);
    assert(split(rest, '.') =~= seq![b, c]);
    assert(split(text, '.') =~= seq![a, b, c]);
}

} // verus!
