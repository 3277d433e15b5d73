//! The diff classifier: which lines of a two-way line diff belong to a version
//! bump, and the file content that holds those lines and no other change.

use vstd::prelude::*;

use crate::text::{
    contains_text, lemma_contains_text_in_part, lemma_contains_text_self,
    lemma_contains_text_transitive, str_contains,
};

verus! {

/// The side a line of a diff comes from.
#[derive(Clone, Copy, Debug, PartialEq, Eq, Structural)]
pub enum ChangeTag {
    /// The line is in both texts.
    Equal,
    /// The line is in the old text only.
    Delete,
    /// The line is in the new text only.
    Insert,
}

/// One line of a line diff, terminator included.
#[derive(Clone, Debug)]
pub struct Change {
    pub tag: ChangeTag,
    pub value: String,
}

/// A `Change` as contracts see it.
pub struct LineChange {
    pub tag: ChangeTag,
    pub text: Seq<char>,
}

impl View for Change {
    type V = LineChange;

    open spec fn view(&self) -> LineChange {
        LineChange { tag: self.tag, text: self.value@ }
    }
}

/// The views of a list of changes, in order.
pub open spec fn changes_view(changes: Seq<Change>) -> Seq<LineChange> {
    changes.map_values(|c: Change| c@)
}

/// A line is version-related when it holds the word `version`, the old version
/// or the new version.
pub open spec fn version_related(
    line: Seq<char>,
    old_version: Seq<char>,
    new_version: Seq<char>,
) -> bool {
    contains_text(line, "version"@) || contains_text(line, old_version) || contains_text(
        line,
        new_version,
    )
}

/// Whether the partial content holds the line of this change: unchanged lines
/// always, an inserted line when it is version-related, a deleted line when it
/// is not.
pub open spec fn keeps(c: LineChange, old_version: Seq<char>, new_version: Seq<char>) -> bool {
    match c.tag {
        ChangeTag::Equal => true,
        ChangeTag::Delete => !version_related(c.text, old_version, new_version),
        ChangeTag::Insert => version_related(c.text, old_version, new_version),
    }
}

/// The text that a change contributes to the partial content.
pub open spec fn kept_text(
    c: LineChange,
    old_version: Seq<char>,
    new_version: Seq<char>,
) -> Seq<char> {
    if keeps(c, old_version, new_version) {
        c.text
    } else {
        Seq::empty()
    }
}

/// The partial content: the kept lines of the diff, in order.
pub open spec fn partial_text(
    changes: Seq<LineChange>,
    old_version: Seq<char>,
    new_version: Seq<char>,
) -> Seq<char>
    decreases changes.len(),
{
    if changes.len() == 0 {
        Seq::empty()
    } else {
        partial_text(changes.drop_last(), old_version, new_version) + kept_text(
            changes.last(),
            old_version,
            new_version,
        )
    }
}

/// The old text that a diff stands for: its unchanged and deleted lines.
pub open spec fn old_text(changes: Seq<LineChange>) -> Seq<char>
    decreases changes.len(),
{
    if changes.len() == 0 {
        Seq::empty()
    } else if changes.last().tag == ChangeTag::Insert {
        old_text(changes.drop_last())
    } else {
        old_text(changes.drop_last()) + changes.last().text
    }
}

/// The new text that a diff stands for: its unchanged and inserted lines.
pub open spec fn new_text(changes: Seq<LineChange>) -> Seq<char>
    decreases changes.len(),
{
    if changes.len() == 0 {
        Seq::empty()
    } else if changes.last().tag == ChangeTag::Delete {
        new_text(changes.drop_last())
    } else {
        new_text(changes.drop_last()) + changes.last().text
    }
}

/// The length of the first line of a text, its end included: a line ends
/// with a line feed, with a carriage return and a line feed, or with a
/// carriage return alone, and the last line ends with the text.
pub open spec fn first_line_len(text: Seq<char>) -> int
    decreases text.len(),
{
    if text.len() == 0 {
        0
    } else if text[0] == '\n' {
        1
    } else if text[0] == '\r' {
        if text.len() > 1 && text[1] == '\n' {
            2
        } else {
            1
        }
    } else {
        1 + first_line_len(text.skip(1))
    }
}

/// The lines of a text, each with its end, in order. The empty text has no
/// line.
pub open spec fn lines_of(text: Seq<char>) -> Seq<Seq<char>>
    decreases text.len(),
{
    let n = first_line_len(text);
    if text.len() == 0 {
        Seq::empty()
    } else if 1 <= n <= text.len() {
        seq![text.take(n)] + lines_of(text.skip(n))
    } else {
        seq![text]
    }
}

/// The texts put together, in order.
pub open spec fn joined(lines: Seq<Seq<char>>) -> Seq<char>
    decreases lines.len(),
{
    if lines.len() == 0 {
        Seq::empty()
    } else {
        joined(lines.drop_last()) + lines.last()
    }
}

/// The lines of the old text that a diff stands for: its unchanged and
/// deleted lines.
pub open spec fn old_lines(changes: Seq<LineChange>) -> Seq<Seq<char>>
    decreases changes.len(),
{
    if changes.len() == 0 {
        Seq::empty()
    } else if changes.last().tag == ChangeTag::Insert {
        old_lines(changes.drop_last())
    } else {
        old_lines(changes.drop_last()).push(changes.last().text)
    }
}

/// The lines of the new text that a diff stands for: its unchanged and
/// inserted lines.
pub open spec fn new_lines(changes: Seq<LineChange>) -> Seq<Seq<char>>
    decreases changes.len(),
{
    if changes.len() == 0 {
        Seq::empty()
    } else if changes.last().tag == ChangeTag::Delete {
        new_lines(changes.drop_last())
    } else {
        new_lines(changes.drop_last()).push(changes.last().text)
    }
}

/// The lines that the partial content is made of: the lines of the kept
/// changes, in order.
pub open spec fn kept_lines(
    changes: Seq<LineChange>,
    old_version: Seq<char>,
    new_version: Seq<char>,
) -> Seq<Seq<char>>
    decreases changes.len(),
{
    if changes.len() == 0 {
        Seq::empty()
    } else if keeps(changes.last(), old_version, new_version) {
        kept_lines(changes.drop_last(), old_version, new_version).push(changes.last().text)
    } else {
        kept_lines(changes.drop_last(), old_version, new_version)
    }
}

/// The diff holds unchanged lines only.
pub open spec fn unchanged(changes: Seq<LineChange>) -> bool {
    forall|i: int| 0 <= i < changes.len() ==> (#[trigger] changes[i]).tag == ChangeTag::Equal
}

/// `changes` is a line diff of `old` and `new`: its unchanged and deleted
/// lines are the lines of `old`, its unchanged and inserted lines are the
/// lines of `new`, and where the two texts are the same no line is changed.
pub open spec fn diff_of(changes: Seq<LineChange>, old: Seq<char>, new: Seq<char>) -> bool {
    &&& old_lines(changes) == lines_of(old)
    &&& new_lines(changes) == lines_of(new)
    &&& old == new ==> unchanged(changes)
}

/// What the lines `kept` of the content to stage are, given the two texts:
/// every version-related line of the working content is among them, every
/// line of the committed content that is not version-related is among them,
/// and there is no other line among them. So a line of the working content
/// that is neither version-related nor a line of the committed content is
/// not among them.
pub open spec fn staged_lines(
    kept: Seq<Seq<char>>,
    head: Seq<char>,
    working: Seq<char>,
    old_version: Seq<char>,
    new_version: Seq<char>,
) -> bool {
    &&& forall|line: Seq<char>|
        #[trigger] lines_of(working).contains(line) && version_related(
            line,
            old_version,
            new_version,
        ) ==> kept.contains(line)
    &&& forall|line: Seq<char>|
        #[trigger] lines_of(head).contains(line) && !version_related(
            line,
            old_version,
            new_version,
        ) ==> kept.contains(line)
    &&& forall|line: Seq<char>|
        #[trigger] kept.contains(line) ==> lines_of(head).contains(line) || (lines_of(
            working,
        ).contains(line) && version_related(line, old_version, new_version))
}

/// What the content to stage is, given the two texts and their diff.
pub open spec fn staged_for(
    staged: Seq<char>,
    changes: Seq<LineChange>,
    head: Seq<char>,
    working: Seq<char>,
    old_version: Seq<char>,
    new_version: Seq<char>,
) -> bool {
    &&& staged == partial_text(changes, old_version, new_version)
    &&& staged == joined(kept_lines(changes, old_version, new_version))
    &&& staged_lines(
        kept_lines(changes, old_version, new_version),
        head,
        working,
        old_version,
        new_version,
    )
    &&& forall|line: Seq<char>|
        #[trigger] lines_of(working).contains(line) && version_related(
            line,
            old_version,
            new_version,
        ) ==> contains_text(staged, line)
    &&& forall|line: Seq<char>|
        #[trigger] lines_of(head).contains(line) && !version_related(
            line,
            old_version,
            new_version,
        ) ==> contains_text(staged, line)
    &&& forall|line: Seq<char>|
        #[trigger] lines_of(working).contains(line) && contains_text(line, new_version)
            ==> contains_text(staged, new_version)
    &&& old_text(changes) == head
    &&& new_text(changes) == working
    &&& !has_unrelated_change(changes, old_version, new_version) ==> staged == working
    &&& !has_version_change(changes, old_version, new_version) ==> staged == head
    &&& head == working ==> staged == head
}

/// A deleted or inserted line that is not version-related.
pub open spec fn unrelated_change(
    c: LineChange,
    old_version: Seq<char>,
    new_version: Seq<char>,
) -> bool {
    c.tag != ChangeTag::Equal && !version_related(c.text, old_version, new_version)
}

/// A deleted or inserted line that is version-related.
pub open spec fn version_change(
    c: LineChange,
    old_version: Seq<char>,
    new_version: Seq<char>,
) -> bool {
    c.tag != ChangeTag::Equal && version_related(c.text, old_version, new_version)
}

/// The diff holds a deleted or inserted line that is not version-related.
pub open spec fn has_unrelated_change(
    changes: Seq<LineChange>,
    old_version: Seq<char>,
    new_version: Seq<char>,
) -> bool {
    exists|i: int|
        0 <= i < changes.len() && unrelated_change(#[trigger] changes[i], old_version, new_version)
}

/// The diff holds a deleted or inserted line that is version-related.
pub open spec fn has_version_change(
    changes: Seq<LineChange>,
    old_version: Seq<char>,
    new_version: Seq<char>,
) -> bool {
    exists|i: int|
        0 <= i < changes.len() && version_change(#[trigger] changes[i], old_version, new_version)
}

/// The line diff of two texts, as `similar::TextDiff::from_lines` computes it
/// and `iter_all_changes` lists it.
pub uninterp spec fn line_changes(old: Seq<char>, new: Seq<char>) -> Seq<LineChange>;

/// Whether a line belongs to the version bump.
pub fn is_version_related(line: &str, old_version: &str, new_version: &str) -> (related: bool)
    ensures
        related == version_related(line@, old_version@, new_version@),
{
    str_contains(line, "version") || str_contains(line, old_version) || str_contains(
        line,
        new_version,
    )
}

/// Errors of the diff classifier. A line diff exists for every pair of texts,
/// so nothing in this crate produces one.
#[derive(Clone, Copy, Debug, PartialEq, Eq, Structural)]
pub enum DiffError {
    /// The diff could not be computed.
    Unavailable,
}

impl DiffError {
    /// The message of this error.
    pub fn to_string(&self) -> (message: String)
        ensures
            message@ == "Failed to compute the line diff"@,
    {
        "Failed to compute the line diff".to_owned()
    }
}

/// Calls `similar::TextDiff::from_lines` and lists `iter_all_changes`, each
/// change with its tag and its line. Believed of `similar`, not proved: the
/// result depends on the two texts alone (no deadline is set); its unchanged
/// and deleted lines are, in order, the lines of the old text, each with its
/// end; its unchanged and inserted lines are the lines of the new text; and
/// where the two texts are the same, every line is unchanged.
#[verifier::external_body]
pub(crate) fn diff_lines(old: &str, new: &str) -> (changes: Vec<Change>)
    ensures
        changes_view(changes@) == line_changes(old@, new@),
        diff_of(changes_view(changes@), old@, new@),
{
    let diff = similar::TextDiff::from_lines(old, new);
    let mut changes = Vec::new();
    for change in diff.iter_all_changes() {
        let tag = match change.tag() {
            similar::ChangeTag::Equal => ChangeTag::Equal,
            similar::ChangeTag::Delete => ChangeTag::Delete,
            similar::ChangeTag::Insert => ChangeTag::Insert,
        };
        changes.push(Change { tag, value: change.value().to_string() });
    }
    changes
}

/// The partial content of a diff: every unchanged line, every version-related
/// inserted line and every deleted line that is not version-related, in the
/// order of the diff.
pub fn apply_changes(
    changes: &Vec<Change>,
    old_version: &str,
    new_version: &str,
) -> (partial: String)
    ensures
        partial@ == partial_text(changes_view(changes@), old_version@, new_version@),
{
    let ghost all = changes_view(changes@);
    let mut partial = String::new();
    let mut i: usize = 0;
    while i < changes.len()
        invariant
            i <= changes.len(),
            all == changes_view(changes@),
            partial@ == partial_text(all.take(i as int), old_version@, new_version@),
        decreases changes.len() - i,
    {
        let change = &changes[i];
        let related = is_version_related(change.value.as_str(), old_version, new_version);
        let keep = match change.tag {
            ChangeTag::Equal => true,
            ChangeTag::Delete => !related,
            ChangeTag::Insert => related,
        };
        proof {
            assert(all.take(i + 1).drop_last() == all.take(i as int));
            assert(all.take(i + 1).last() == changes@[i as int]@);
            assert(keep == keeps(changes@[i as int]@, old_version@, new_version@));
        }
        if keep {
            partial.append(change.value.as_str());
        }
        i += 1;
    }
    proof {
        assert(all.take(i as int) == all);
    }
    partial
}

/// Whether a diff holds a deleted or inserted line that is not
/// version-related.
pub fn changes_have_non_version(
    changes: &Vec<Change>,
    old_version: &str,
    new_version: &str,
) -> (found: bool)
    ensures
        found == has_unrelated_change(changes_view(changes@), old_version@, new_version@),
{
    let ghost all = changes_view(changes@);
    let mut i: usize = 0;
    while i < changes.len()
        invariant
            i <= changes.len(),
            all == changes_view(changes@),
            forall|k: int|
                0 <= k < i ==> !unrelated_change(#[trigger] all[k], old_version@, new_version@),
        decreases changes.len() - i,
    {
        let change = &changes[i];
        let changed = match change.tag {
            ChangeTag::Equal => false,
            ChangeTag::Delete => true,
            ChangeTag::Insert => true,
        };
        if changed && !is_version_related(change.value.as_str(), old_version, new_version) {
            assert(unrelated_change(all[i as int], old_version@, new_version@));
            return true;
        }
        i += 1;
    }
    false
}

/// The content to stage for a version bump: the committed content with the
/// version-related lines of the working content and no other change.
///
/// The diff of the two contents is taken line by line, and the content is
/// put together from its lines in the order of the diff: every unchanged
/// line, every version-related inserted line and every deleted line that is
/// not version-related. So every version-related line of the working
/// content is a line of the result, every line of the committed content
/// that is not version-related is one, and no other line is. Where every
/// changed line is version-related the result is the working content; where
/// none is, or where the two contents are the same, it is the committed
/// content. There is a line diff of any two texts, so the result is always
/// `Ok`.
pub fn apply_version_hunks(
    head_content: &str,
    working_content: &str,
    old_version: &str,
    new_version: &str,
) -> (staged: Result<String, DiffError>)
    ensures
        staged is Ok,
        diff_of(line_changes(head_content@, working_content@), head_content@, working_content@),
        staged_for(
            staged->Ok_0@,
            line_changes(head_content@, working_content@),
            head_content@,
            working_content@,
            old_version@,
            new_version@,
        ),
{
    let changes = diff_lines(head_content, working_content);
    let partial = apply_changes(&changes, old_version, new_version);
    proof {
        lemma_staged_for(
            changes_view(changes@),
            head_content@,
            working_content@,
            old_version@,
            new_version@,
        );
    }
    Ok(partial)
}

/// Whether the working content differs from the committed content in a line
/// that is not version-related: whether the diff of the two holds a deleted
/// or inserted line that is not version-related. Two contents that are the
/// same differ in no line.
pub fn has_non_version_changes(
    head_content: &str,
    working_content: &str,
    old_version: &str,
    new_version: &str,
) -> (found: bool)
    ensures
        found == has_unrelated_change(
            line_changes(head_content@, working_content@),
            old_version@,
            new_version@,
        ),
        diff_of(line_changes(head_content@, working_content@), head_content@, working_content@),
        head_content@ == working_content@ ==> !found,
{
    let changes = diff_lines(head_content, working_content);
    proof {
        lemma_unchanged_has_no_change(changes_view(changes@), old_version@, new_version@);
    }
    changes_have_non_version(&changes, old_version, new_version)
}

/// The first line of a text that is not empty is not empty and lies within
/// the text.
pub proof fn lemma_first_line_len(text: Seq<char>)
    requires
        text.len() > 0,
    ensures
        1 <= first_line_len(text) <= text.len(),
    decreases text.len(),
{
    if text[0] != '\n' && text[0] != '\r' {
        if text.len() > 1 {
            lemma_first_line_len(text.skip(1));
        } else {
            assert(first_line_len(text.skip(1)) == 0);
        }
    }
}

/// A text put before others and joined with them is the text followed by
/// the others joined.
pub proof fn lemma_joined_first(first: Seq<char>, rest: Seq<Seq<char>>)
    ensures
        joined(seq![first] + rest) == first + joined(rest),
    decreases rest.len(),
{
    let all = seq![first] + rest;
    if rest.len() == 0 {
        assert(all.drop_last() =~= Seq::<Seq<char>>::empty());
        assert(all.last() == first);
        assert(joined(all.drop_last()) =~= Seq::<char>::empty());
        assert(joined(all) =~= first + joined(rest));
    } else {
        assert(all.drop_last() =~= seq![first] + rest.drop_last());
        assert(all.last() == rest.last());
        lemma_joined_first(first, rest.drop_last());
        assert(joined(all) =~= first + joined(rest));
    }
}

/// The lines of a text, joined, are the text.
pub proof fn lemma_lines_make_the_text(text: Seq<char>)
    ensures
        joined(lines_of(text)) == text,
    decreases text.len(),
{
    if text.len() > 0 {
        lemma_first_line_len(text);
        let n = first_line_len(text);
        lemma_lines_make_the_text(text.skip(n));
        lemma_joined_first(text.take(n), lines_of(text.skip(n)));
        assert(text.take(n) + text.skip(n) =~= text);
    } else {
        assert(text =~= Seq::<char>::empty());
    }
}

/// The two texts that a diff stands for are its two lists of lines, joined,
/// and the partial content is the kept lines, joined.
pub proof fn lemma_texts_are_joined_lines(
    changes: Seq<LineChange>,
    old_version: Seq<char>,
    new_version: Seq<char>,
)
    ensures
        old_text(changes) == joined(old_lines(changes)),
        new_text(changes) == joined(new_lines(changes)),
        partial_text(changes, old_version, new_version) == joined(
            kept_lines(changes, old_version, new_version),
        ),
    decreases changes.len(),
{
    if changes.len() > 0 {
        let rest = changes.drop_last();
        let text = changes.last().text;
        lemma_texts_are_joined_lines(rest, old_version, new_version);
        assert(old_lines(rest).push(text).drop_last() =~= old_lines(rest));
        assert(new_lines(rest).push(text).drop_last() =~= new_lines(rest));
        let kept = kept_lines(rest, old_version, new_version);
        assert(kept.push(text).drop_last() =~= kept);
        assert(joined(kept) + Seq::<char>::empty() =~= joined(kept));
    }
}

/// A line is among the lines of the new text of a diff exactly when it is the
/// line of an unchanged or inserted change, among the lines of the old text
/// when it is the line of an unchanged or deleted change, and among the kept
/// lines when it is the line of a kept change.
pub proof fn lemma_lines_of_changes(
    changes: Seq<LineChange>,
    line: Seq<char>,
    old_version: Seq<char>,
    new_version: Seq<char>,
)
    ensures
        old_lines(changes).contains(line) <==> exists|i: int|
            0 <= i < changes.len() && (#[trigger] changes[i]).tag != ChangeTag::Insert
                && changes[i].text == line,
        new_lines(changes).contains(line) <==> exists|i: int|
            0 <= i < changes.len() && (#[trigger] changes[i]).tag != ChangeTag::Delete
                && changes[i].text == line,
        kept_lines(changes, old_version, new_version).contains(line) <==> exists|i: int|
            0 <= i < changes.len() && keeps(#[trigger] changes[i], old_version, new_version)
                && changes[i].text == line,
    decreases changes.len(),
{
    if changes.len() > 0 {
        let rest = changes.drop_last();
        let last = changes.last();
        let n = changes.len() - 1;
        lemma_lines_of_changes(rest, line, old_version, new_version);
        assert(changes[n] == last);
        assert forall|i: int| 0 <= i < rest.len() implies #[trigger] rest[i] == changes[i] by {}
        lemma_push_contains(old_lines(rest), last.text, line);
        lemma_push_contains(new_lines(rest), last.text, line);
        lemma_push_contains(kept_lines(rest, old_version, new_version), last.text, line);
        if old_lines(changes).contains(line) {
            if last.tag != ChangeTag::Insert && last.text == line {
                assert(changes[n].tag != ChangeTag::Insert && changes[n].text == line);
            } else {
                let i = choose|i: int|
                    0 <= i < rest.len() && (#[trigger] rest[i]).tag != ChangeTag::Insert
                        && rest[i].text == line;
                assert(changes[i].tag != ChangeTag::Insert && changes[i].text == line);
            }
        }
        if exists|i: int|
            0 <= i < changes.len() && (#[trigger] changes[i]).tag != ChangeTag::Insert
                && changes[i].text == line {
            let i = choose|i: int|
                0 <= i < changes.len() && (#[trigger] changes[i]).tag != ChangeTag::Insert
                    && changes[i].text == line;
            if i < n {
                assert(rest[i].tag != ChangeTag::Insert && rest[i].text == line);
            }
        }
        if new_lines(changes).contains(line) {
            if last.tag != ChangeTag::Delete && last.text == line {
                assert(changes[n].tag != ChangeTag::Delete && changes[n].text == line);
            } else {
                let i = choose|i: int|
                    0 <= i < rest.len() && (#[trigger] rest[i]).tag != ChangeTag::Delete
                        && rest[i].text == line;
                assert(changes[i].tag != ChangeTag::Delete && changes[i].text == line);
            }
        }
        if exists|i: int|
            0 <= i < changes.len() && (#[trigger] changes[i]).tag != ChangeTag::Delete
                && changes[i].text == line {
            let i = choose|i: int|
                0 <= i < changes.len() && (#[trigger] changes[i]).tag != ChangeTag::Delete
                    && changes[i].text == line;
            if i < n {
                assert(rest[i].tag != ChangeTag::Delete && rest[i].text == line);
            }
        }
        if kept_lines(changes, old_version, new_version).contains(line) {
            if keeps(last, old_version, new_version) && last.text == line {
                assert(keeps(changes[n], old_version, new_version) && changes[n].text == line);
            } else {
                let i = choose|i: int|
                    0 <= i < rest.len() && keeps(#[trigger] rest[i], old_version, new_version)
                        && rest[i].text == line;
                assert(keeps(changes[i], old_version, new_version) && changes[i].text == line);
            }
        }
        if exists|i: int|
            0 <= i < changes.len() && keeps(#[trigger] changes[i], old_version, new_version)
                && changes[i].text == line {
            let i = choose|i: int|
                0 <= i < changes.len() && keeps(#[trigger] changes[i], old_version, new_version)
                    && changes[i].text == line;
            if i < n {
                assert(keeps(rest[i], old_version, new_version) && rest[i].text == line);
            }
        }
    } else {
        assert(!Seq::<Seq<char>>::empty().contains(line));
    }
}

/// A list with one more text holds a text exactly when the list held it or
/// it is the new one.
proof fn lemma_push_contains(lines: Seq<Seq<char>>, last: Seq<char>, line: Seq<char>)
    ensures
        lines.push(last).contains(line) <==> lines.contains(line) || last == line,
{
    let grown = lines.push(last);
    if lines.contains(line) {
        let i = choose|i: int| 0 <= i < lines.len() && lines[i] == line;
        assert(grown[i] == line);
    }
    if last == line {
        assert(grown[lines.len() as int] == line);
    }
    if grown.contains(line) {
        let i = choose|i: int| 0 <= i < grown.len() && grown[i] == line;
        if i < lines.len() {
            assert(lines[i] == line);
        }
    }
}

/// Each of the texts occurs in the texts joined.
pub proof fn lemma_joined_contains(lines: Seq<Seq<char>>, line: Seq<char>)
    requires
        lines.contains(line),
    ensures
        contains_text(joined(lines), line),
    decreases lines.len(),
{
    let i = choose|i: int| 0 <= i < lines.len() && lines[i] == line;
    let rest = lines.drop_last();
    let empty = Seq::<char>::empty();
    if i == lines.len() - 1 {
        lemma_contains_text_self(line);
        lemma_contains_text_in_part(joined(rest), line, empty, line);
        assert(joined(rest) + line + empty =~= joined(lines));
    } else {
        assert(rest[i] == line);
        lemma_joined_contains(rest, line);
        lemma_contains_text_in_part(empty, joined(rest), lines.last(), line);
        assert(empty + joined(rest) + lines.last() =~= joined(lines));
    }
}

/// A diff that holds unchanged lines only has no changed line of either
/// kind.
pub proof fn lemma_unchanged_has_no_change(
    changes: Seq<LineChange>,
    old_version: Seq<char>,
    new_version: Seq<char>,
)
    ensures
        unchanged(changes) ==> !has_unrelated_change(changes, old_version, new_version)
            && !has_version_change(changes, old_version, new_version),
{
}

/// What holds of the partial content of a line diff of two texts: every
/// version-related line of the new text is one of its lines and so occurs in
/// it, every line of the old text that is not version-related is one of its
/// lines and occurs in it, and it has no other line; where a line of the new
/// text holds the new version, the content holds the new version; where only
/// version-related lines are changed it is the new text, and where none is,
/// or where the two texts are the same, it is the old text.
pub proof fn lemma_staged_for(
    changes: Seq<LineChange>,
    head: Seq<char>,
    working: Seq<char>,
    old_version: Seq<char>,
    new_version: Seq<char>,
)
    requires
        diff_of(changes, head, working),
    ensures
        staged_for(
            partial_text(changes, old_version, new_version),
            changes,
            head,
            working,
            old_version,
            new_version,
        ),
{
    let staged = partial_text(changes, old_version, new_version);
    let kept = kept_lines(changes, old_version, new_version);
    lemma_texts_are_joined_lines(changes, old_version, new_version);
    lemma_lines_make_the_text(head);
    lemma_lines_make_the_text(working);
    lemma_version_edits_only(changes, old_version, new_version);
    lemma_unrelated_edits_only(changes, old_version, new_version);
    lemma_unchanged_has_no_change(changes, old_version, new_version);
    assert forall|line: Seq<char>|
        #[trigger] lines_of(working).contains(line) && version_related(
            line,
            old_version,
            new_version,
        ) implies kept.contains(line) && contains_text(staged, line) by {
        lemma_lines_of_changes(changes, line, old_version, new_version);
        let i = choose|i: int|
            0 <= i < changes.len() && (#[trigger] changes[i]).tag != ChangeTag::Delete
                && changes[i].text == line;
        assert(keeps(changes[i], old_version, new_version));
        lemma_joined_contains(kept, line);
    }
    assert forall|line: Seq<char>|
        #[trigger] lines_of(head).contains(line) && !version_related(
            line,
            old_version,
            new_version,
        ) implies kept.contains(line) && contains_text(staged, line) by {
        lemma_lines_of_changes(changes, line, old_version, new_version);
        let i = choose|i: int|
            0 <= i < changes.len() && (#[trigger] changes[i]).tag != ChangeTag::Insert
                && changes[i].text == line;
        assert(keeps(changes[i], old_version, new_version));
        lemma_joined_contains(kept, line);
    }
    assert forall|line: Seq<char>| #[trigger] kept.contains(line) implies lines_of(
        head,
    ).contains(line) || (lines_of(working).contains(line) && version_related(
        line,
        old_version,
        new_version,
    )) by {
        lemma_lines_of_changes(changes, line, old_version, new_version);
        let i = choose|i: int|
            0 <= i < changes.len() && keeps(#[trigger] changes[i], old_version, new_version)
                && changes[i].text == line;
        if changes[i].tag == ChangeTag::Insert {
            assert(changes[i].tag != ChangeTag::Delete && changes[i].text == line);
        } else {
            assert(changes[i].tag != ChangeTag::Insert && changes[i].text == line);
        }
    }
    assert forall|line: Seq<char>|
        #[trigger] lines_of(working).contains(line) && contains_text(
            line,
            new_version,
        ) implies contains_text(staged, new_version) by {
        assert(version_related(line, old_version, new_version));
        assert(contains_text(staged, line));
        lemma_contains_text_transitive(staged, line, new_version);
    }
}

/// Where every deleted or inserted line of a diff is version-related, the
/// partial content is the new text of the diff.
pub proof fn lemma_version_edits_only(
    changes: Seq<LineChange>,
    old_version: Seq<char>,
    new_version: Seq<char>,
)
    ensures
        !has_unrelated_change(changes, old_version, new_version) ==> partial_text(
            changes,
            old_version,
            new_version,
        ) == new_text(changes),
    decreases changes.len(),
{
    if changes.len() > 0 && !has_unrelated_change(changes, old_version, new_version) {
        let rest = changes.drop_last();
        assert forall|i: int| 0 <= i < rest.len() implies !unrelated_change(
            #[trigger] rest[i],
            old_version,
            new_version,
        ) by {
            assert(rest[i] == changes[i]);
        }
        lemma_version_edits_only(rest, old_version, new_version);
        assert(!unrelated_change(changes[changes.len() - 1], old_version, new_version));
    }
}

/// Where no deleted or inserted line of a diff is version-related, the partial
/// content is the old text of the diff.
pub proof fn lemma_unrelated_edits_only(
    changes: Seq<LineChange>,
    old_version: Seq<char>,
    new_version: Seq<char>,
)
    ensures
        !has_version_change(changes, old_version, new_version) ==> partial_text(
            changes,
            old_version,
            new_version,
        ) == old_text(changes),
    decreases changes.len(),
{
    if changes.len() > 0 && !has_version_change(changes, old_version, new_version) {
        let rest = changes.drop_last();
        assert forall|i: int| 0 <= i < rest.len() implies !version_change(
            #[trigger] rest[i],
            old_version,
            new_version,
        ) by {
            assert(rest[i] == changes[i]);
        }
        lemma_unrelated_edits_only(rest, old_version, new_version);
        assert(!version_change(changes[changes.len() - 1], old_version, new_version));
    }
}

/// The partial content of two diffs put together is the partial content of the
/// first followed by that of the second: a line is kept or dropped whatever
/// stands next to it.
pub proof fn lemma_partial_text_concat(
    first: Seq<LineChange>,
    second: Seq<LineChange>,
    old_version: Seq<char>,
    new_version: Seq<char>,
)
    ensures
        partial_text(first + second, old_version, new_version) == partial_text(
            first,
            old_version,
            new_version,
        ) + partial_text(second, old_version, new_version),
    decreases second.len(),
{
    if second.len() == 0 {
        assert(first + second == first);
    } else {
        assert((first + second).drop_last() == first + second.drop_last());
        assert((first + second).last() == second.last());
        lemma_partial_text_concat(first, second.drop_last(), old_version, new_version);
    }
}

/// A line that is not kept leaves no trace: the partial content is that of
/// the diff without the line. So an inserted line that is not
/// version-related (the working value of an unrelated edit) adds nothing to
/// the content, and neither does a deleted version-related line (the old
/// version).
pub proof fn lemma_dropped_line_leaves_nothing(
    changes: Seq<LineChange>,
    i: int,
    old_version: Seq<char>,
    new_version: Seq<char>,
)
    requires
        0 <= i < changes.len(),
        !keeps(changes[i], old_version, new_version),
    ensures
        partial_text(changes, old_version, new_version) == partial_text(
            changes.remove(i),
            old_version,
            new_version,
        ),
{
    let before = changes.take(i);
    let one = seq![changes[i]];
    let after = changes.skip(i + 1);
    assert(changes == before + one + after);
    assert(changes.remove(i) == before + after);
    lemma_partial_text_concat(before + one, after, old_version, new_version);
    lemma_partial_text_concat(before, one, old_version, new_version);
    lemma_partial_text_concat(before, after, old_version, new_version);
    assert(one.drop_last() == Seq::<LineChange>::empty());
    assert(partial_text(one, old_version, new_version) == Seq::<char>::empty()) by {
        assert(partial_text(one.drop_last(), old_version, new_version) == Seq::<char>::empty());
        assert(one.last() == changes[i]);
    }
    assert(partial_text(before, old_version, new_version) + Seq::<char>::empty()
        == partial_text(before, old_version, new_version));
}

/// Every kept line of a diff stands in the partial content: an unchanged line,
/// a version-related inserted line, and a deleted line that is not
/// version-related (the committed value of an unrelated edit).
pub proof fn lemma_kept_line_in_partial_text(
    changes: Seq<LineChange>,
    i: int,
    old_version: Seq<char>,
    new_version: Seq<char>,
)
    requires
        0 <= i < changes.len(),
        keeps(changes[i], old_version, new_version),
    ensures
        contains_text(partial_text(changes, old_version, new_version), changes[i].text),
{
    let before = changes.take(i);
    let one = seq![changes[i]];
    let after = changes.skip(i + 1);
    assert(changes == before + one + after);
    lemma_partial_text_concat(before + one, after, old_version, new_version);
    lemma_partial_text_concat(before, one, old_version, new_version);
    assert(one.drop_last() == Seq::<LineChange>::empty());
    assert(partial_text(one, old_version, new_version) == changes[i].text) by {
        assert(partial_text(one.drop_last(), old_version, new_version) == Seq::<char>::empty());
        assert(one.last() == changes[i]);
        assert(Seq::<char>::empty() + changes[i].text == changes[i].text);
    }
    lemma_contains_text_self(changes[i].text);
    lemma_contains_text_in_part(
        partial_text(before, old_version, new_version),
        changes[i].text,
        partial_text(after, old_version, new_version),
        changes[i].text,
    );
}

/// Where an inserted line of a diff holds the new version, the partial content
/// holds the new version.
pub proof fn lemma_new_version_in_partial_text(
    changes: Seq<LineChange>,
    i: int,
    old_version: Seq<char>,
    new_version: Seq<char>,
)
    requires
        0 <= i < changes.len(),
        changes[i].tag == ChangeTag::Insert,
        contains_text(changes[i].text, new_version),
    ensures
        contains_text(partial_text(changes, old_version, new_version), new_version),
{
    let before = changes.take(i);
    let one = seq![changes[i]];
    let after = changes.skip(i + 1);
    assert(changes == before + one + after);
    lemma_partial_text_concat(before + one, after, old_version, new_version);
    lemma_partial_text_concat(before, one, old_version, new_version);
    assert(one.drop_last() == Seq::<LineChange>::empty());
    assert(partial_text(one, old_version, new_version) == changes[i].text) by {
        assert(partial_text(one.drop_last(), old_version, new_version) == Seq::<char>::empty());
        assert(one.last() == changes[i]);
        assert(Seq::<char>::empty() + changes[i].text == changes[i].text);
    }
    lemma_contains_text_in_part(
        partial_text(before, old_version, new_version),
        changes[i].text,
        partial_text(after, old_version, new_version),
        new_version,
    );
}

} // verus!
