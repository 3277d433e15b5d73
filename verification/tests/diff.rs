use cargo_version_info::diff::{
    apply_changes, apply_version_hunks, changes_have_non_version, has_non_version_changes,
    is_version_related, Change, ChangeTag, DiffError,
};

#[test]
fn test_apply_version_hunks_only_version_change() {
    let head = "[package]\nname = \"test\"\nversion = \"0.1.0\"\nedition = \"2021\"\n";
    let working = "[package]\nname = \"test\"\nversion = \"0.2.0\"\nedition = \"2021\"\n";

    let staged = apply_version_hunks(head, working, "0.1.0", "0.2.0").unwrap();

    assert!(staged.contains("version = \"0.2.0\""));
    assert!(!staged.contains("0.1.0"));
}

#[test]
fn test_apply_version_hunks_mixed_changes() {
    let head = "[package]\nname = \"test\"\nversion = \"0.1.0\"\ndescription = \"old desc\"\n";
    let working = "[package]\nname = \"test\"\nversion = \"0.2.0\"\ndescription = \"new desc\"\n";

    let staged = apply_version_hunks(head, working, "0.1.0", "0.2.0").unwrap();

    // Should have version change
    assert!(staged.contains("version = \"0.2.0\""));
    // Should NOT have description change - keeps old value
    assert!(staged.contains("description = \"old desc\""));
    assert!(!staged.contains("description = \"new desc\""));
}

#[test]
fn test_has_non_version_changes_true() {
    let head = "[package]\nname = \"test\"\nversion = \"0.1.0\"\n";
    let working = "[package]\nname = \"test-renamed\"\nversion = \"0.2.0\"\n";

    assert!(has_non_version_changes(head, working, "0.1.0", "0.2.0"));
}

#[test]
fn test_has_non_version_changes_false() {
    let head = "[package]\nname = \"test\"\nversion = \"0.1.0\"\n";
    let working = "[package]\nname = \"test\"\nversion = \"0.2.0\"\n";

    assert!(!has_non_version_changes(head, working, "0.1.0", "0.2.0"));
}

#[test]
fn test_apply_version_hunks_multiple_version_fields() {
    let head =
        "[package]\nversion = \"1.0.0\"\n[dependencies]\ncrate-a = { version = \"1.0.0\" }\n";
    let working =
        "[package]\nversion = \"2.0.0\"\n[dependencies]\ncrate-a = { version = \"2.0.0\" }\n";

    let staged = apply_version_hunks(head, working, "1.0.0", "2.0.0").unwrap();

    // Should update both version fields
    assert!(staged.contains("version = \"2.0.0\""));
    assert!(!staged.contains("1.0.0"));
}

#[test]
fn pure_version_edit_gives_the_working_content() {
    let head = "[package]\nname = \"t\"\nversion = \"0.1.0\"\nedition = \"2021\"\n";
    let working = "[package]\nname = \"t\"\nversion = \"0.2.0\"\nedition = \"2021\"\n";
    assert!(!has_non_version_changes(head, working, "0.1.0", "0.2.0"));
    assert_eq!(apply_version_hunks(head, working, "0.1.0", "0.2.0").unwrap(), working);
}

#[test]
fn unrelated_edit_alone_gives_the_committed_content() {
    let head = "[package]\nname = \"t\"\ndesc = \"old\"\n";
    let working = "[package]\nname = \"t\"\ndesc = \"new\"\n";
    assert!(has_non_version_changes(head, working, "0.1.0", "0.2.0"));
    assert_eq!(apply_version_hunks(head, working, "0.1.0", "0.2.0").unwrap(), head);
}

#[test]
fn scenario_version_and_description() {
    let head = "[package]\nname=\"t\"\nversion=\"0.1.0\"\ndesc=\"old\"\n";
    let working = "[package]\nname=\"t\"\nversion=\"0.2.0\"\ndesc=\"new\"\n";
    let staged = apply_version_hunks(head, working, "0.1.0", "0.2.0").unwrap();
    assert_eq!(staged, "[package]\nname=\"t\"\ndesc=\"old\"\nversion=\"0.2.0\"\n");
    assert!(staged.contains("version=\"0.2.0\""));
    assert!(staged.contains("desc=\"old\""));
    assert!(!staged.contains("0.1.0"));
    assert!(!staged.contains("desc=\"new\""));
    assert!(has_non_version_changes(head, working, "0.1.0", "0.2.0"));
}

#[test]
fn scenario_identical_contents() {
    let head = "[package]\nname=\"t\"\nversion=\"0.1.0\"\n";
    assert!(!has_non_version_changes(head, head, "0.1.0", "0.2.0"));
    assert_eq!(apply_version_hunks(head, head, "0.1.0", "0.2.0").unwrap(), head);
}

#[test]
fn empty_contents() {
    assert_eq!(apply_version_hunks("", "", "0.1.0", "0.2.0").unwrap(), "");
    assert!(!has_non_version_changes("", "", "0.1.0", "0.2.0"));
    assert_eq!(apply_version_hunks("", "version = \"1\"\n", "0", "1").unwrap(), "version = \"1\"\n");
    assert_eq!(apply_version_hunks("", "name = \"x\"\n", "0.1.0", "0.2.0").unwrap(), "");
    assert_eq!(apply_version_hunks("name = \"x\"\n", "", "0.1.0", "0.2.0").unwrap(), "name = \"x\"\n");
}

#[test]
fn adjacent_unrelated_edit_is_kept_apart() {
    let head = "a = 1\nversion = \"1.0.0\"\nkeep\nb = 2\n";
    let working = "a = 1\nversion = \"1.0.1\"\nkeep\nb = 20\n";
    assert_eq!(
        apply_version_hunks(head, working, "1.0.0", "1.0.1").unwrap(),
        "a = 1\nversion = \"1.0.1\"\nkeep\nb = 2\n"
    );
}

#[test]
fn lines_of_one_hunk_come_out_in_the_order_of_the_diff() {
    let head = "a = 1\nversion = \"1.0.0\"\nb = 2\n";
    let working = "a = 10\nversion = \"1.0.1\"\nb = 20\n";
    let staged = apply_version_hunks(head, working, "1.0.0", "1.0.1").unwrap();
    assert_eq!(staged, "a = 1\nb = 2\nversion = \"1.0.1\"\n");
    assert!(staged.contains("a = 1\n"));
    assert!(staged.contains("b = 2\n"));
    assert!(staged.contains("version = \"1.0.1\"\n"));
    assert!(!staged.contains("1.0.0"));
}

#[test]
fn version_in_a_comment_counts_as_version_related() {
    let head = "# about\nname = \"x\"\n";
    let working = "# the version is new\nname = \"x\"\n";
    assert_eq!(
        apply_version_hunks(head, working, "0.1.0", "0.2.0").unwrap(),
        "# about\n# the version is new\nname = \"x\"\n"
    );
    assert!(has_non_version_changes(head, working, "0.1.0", "0.2.0"));
}

#[test]
fn a_line_without_terminator_is_a_line() {
    let head = "name = \"x\"\nversion = \"0.1.0\"";
    let working = "name = \"x\"\nversion = \"0.2.0\"";
    assert_eq!(apply_version_hunks(head, working, "0.1.0", "0.2.0").unwrap(), working);
}

#[test]
fn version_related_lines() {
    assert!(is_version_related("version = \"3\"\n", "0.1.0", "0.2.0"));
    assert!(is_version_related("dep = \"0.1.0\"\n", "0.1.0", "0.2.0"));
    assert!(is_version_related("dep = \"0.2.0\"\n", "0.1.0", "0.2.0"));
    assert!(!is_version_related("name = \"x\"\n", "0.1.0", "0.2.0"));
    assert!(!is_version_related("Version\n", "0.1.0", "0.2.0"));
    assert!(is_version_related("anything", "", "0.2.0"));
}

fn change(tag: ChangeTag, value: &str) -> Change {
    Change { tag, value: value.to_string() }
}

#[test]
fn apply_changes_keeps_and_drops_by_tag() {
    let changes = vec![
        change(ChangeTag::Equal, "[package]\n"),
        change(ChangeTag::Delete, "version = \"0.1.0\"\n"),
        change(ChangeTag::Insert, "version = \"0.2.0\"\n"),
        change(ChangeTag::Delete, "desc = \"old\"\n"),
        change(ChangeTag::Insert, "desc = \"new\"\n"),
        change(ChangeTag::Equal, "version = \"unchanged\"\n"),
    ];
    assert_eq!(
        apply_changes(&changes, "0.1.0", "0.2.0"),
        "[package]\nversion = \"0.2.0\"\ndesc = \"old\"\nversion = \"unchanged\"\n"
    );
    assert!(changes_have_non_version(&changes, "0.1.0", "0.2.0"));
    assert_eq!(apply_changes(&Vec::new(), "0.1.0", "0.2.0"), "");
    assert!(!changes_have_non_version(&Vec::new(), "0.1.0", "0.2.0"));
    let only_version = vec![
        change(ChangeTag::Equal, "name = \"x\"\n"),
        change(ChangeTag::Delete, "version = \"0.1.0\"\n"),
        change(ChangeTag::Insert, "version = \"0.2.0\"\n"),
    ];
    assert!(!changes_have_non_version(&only_version, "0.1.0", "0.2.0"));
}

#[test]
fn message_of_the_diff_error() {
    assert_eq!(DiffError::Unavailable.to_string(), "Failed to compute the line diff");
}

#[test]
fn a_dropped_line_may_still_occur_inside_a_kept_line() {
    let head = "ab\n";
    let working = "ab\nb\n";
    let staged = apply_version_hunks(head, working, "0.1.0", "0.2.0").unwrap();
    assert_eq!(staged, "ab\n");
    assert!(staged.contains("b\n"));
    assert!(has_non_version_changes(head, working, "0.1.0", "0.2.0"));
}

/// A small generator of numbers that looks random and is the same each run.
fn next(seed: &mut u64) -> u64 {
    *seed = seed.wrapping_mul(6364136223846793005).wrapping_add(1442695040888963407);
    *seed >> 33
}

fn some_text(seed: &mut u64, lines: u64) -> String {
    let words = ["version", "name", "0.1.0", "0.2.0", "é✓", "", "a b", "[package]", "x = 1"];
    let ends = ["\n", "\n", "\n", "\r\n", "\r", ""];
    let mut text = String::new();
    for _ in 0..lines {
        text.push_str(words[(next(seed) % words.len() as u64) as usize]);
        text.push_str(ends[(next(seed) % ends.len() as u64) as usize]);
    }
    text
}

/// The lines of a text, each with its end: a line ends with a line feed,
/// with a carriage return and a line feed, or with a carriage return alone.
fn lines_of(text: &str) -> Vec<String> {
    let chars: Vec<char> = text.chars().collect();
    let mut lines = Vec::new();
    let mut line = String::new();
    let mut i = 0;
    while i < chars.len() {
        line.push(chars[i]);
        if chars[i] == '\r' && i + 1 < chars.len() && chars[i + 1] == '\n' {
            line.push('\n');
            i += 1;
        }
        if chars[i] == '\n' || chars[i] == '\r' {
            lines.push(line);
            line = String::new();
        }
        i += 1;
    }
    if !line.is_empty() {
        lines.push(line);
    }
    lines
}

#[test]
fn lines_keep_their_ends() {
    assert_eq!(lines_of(""), Vec::<String>::new());
    assert_eq!(lines_of("a"), vec!["a"]);
    assert_eq!(lines_of("a\n"), vec!["a\n"]);
    assert_eq!(lines_of("a\nb"), vec!["a\n", "b"]);
    assert_eq!(lines_of("a\r\nb\rc\n\n\r\r\n"), vec!["a\r\n", "b\r", "c\n", "\n", "\r", "\r\n"]);
}

#[test]
fn every_version_line_of_the_working_content_and_every_other_line_of_the_committed_content() {
    let head = "[package]\nname = \"t\"\nversion = \"0.1.0\"\ndesc = \"old\"\nkeep = 1\nmore = \"a\"\n";
    let working = "[package]\nname = \"u\"\nversion = \"0.2.0\"\ndesc = \"new\"\nkeep = 1\nmore = \"b\"\n";
    let staged = apply_version_hunks(head, working, "0.1.0", "0.2.0").unwrap();
    let lines = lines_of(&staged);
    for line in lines_of(working) {
        if is_version_related(&line, "0.1.0", "0.2.0") {
            assert!(lines.contains(&line));
        } else if !lines_of(head).contains(&line) {
            assert!(!lines.contains(&line));
        }
    }
    for line in lines_of(head) {
        if !is_version_related(&line, "0.1.0", "0.2.0") {
            assert!(lines.contains(&line));
        }
    }
    for line in &lines {
        assert!(
            lines_of(head).contains(line)
                || (lines_of(working).contains(line) && is_version_related(line, "0.1.0", "0.2.0"))
        );
    }
    assert!(staged.contains("0.2.0"));
    assert!(staged.contains("name = \"t\"\n"));
    assert!(staged.contains("desc = \"old\"\n"));
    assert!(staged.contains("more = \"a\"\n"));
    assert!(!lines.contains(&"name = \"u\"\n".to_string()));
    assert!(!lines.contains(&"desc = \"new\"\n".to_string()));
    assert!(!lines.contains(&"more = \"b\"\n".to_string()));
    assert!(!lines.contains(&"version = \"0.1.0\"\n".to_string()));
}

#[test]
fn the_line_diff_covers_both_texts() {
    let mut seed = 11u64;
    for round in 0..60u64 {
        let lines = if round % 10 == 9 { 150 } else { round % 12 };
        let old = some_text(&mut seed, lines);
        let new = some_text(&mut seed, lines + round % 3);
        let diff = similar::TextDiff::from_lines(old.as_str(), new.as_str());
        let mut old_side: Vec<String> = Vec::new();
        let mut new_side: Vec<String> = Vec::new();
        let mut changes = Vec::new();
        for c in diff.iter_all_changes() {
            let tag = match c.tag() {
                similar::ChangeTag::Equal => {
                    old_side.push(c.value().to_string());
                    new_side.push(c.value().to_string());
                    ChangeTag::Equal
                }
                similar::ChangeTag::Delete => {
                    old_side.push(c.value().to_string());
                    ChangeTag::Delete
                }
                similar::ChangeTag::Insert => {
                    new_side.push(c.value().to_string());
                    ChangeTag::Insert
                }
            };
            changes.push(change(tag, c.value()));
        }
        assert_eq!(old_side, lines_of(&old));
        assert_eq!(new_side, lines_of(&new));
        assert_eq!(old_side.concat(), old);
        assert_eq!(new_side.concat(), new);
        let itself = similar::TextDiff::from_lines(old.as_str(), old.as_str());
        assert!(itself.iter_all_changes().all(|c| c.tag() == similar::ChangeTag::Equal));
        assert_eq!(itself.iter_all_changes().count(), lines_of(&old).len());
        assert_eq!(
            apply_version_hunks(&old, &new, "0.1.0", "0.2.0").unwrap(),
            apply_changes(&changes, "0.1.0", "0.2.0")
        );
        assert_eq!(
            has_non_version_changes(&old, &new, "0.1.0", "0.2.0"),
            changes_have_non_version(&changes, "0.1.0", "0.2.0")
        );
        assert_eq!(apply_version_hunks(&old, &old, "0.1.0", "0.2.0").unwrap(), old);
        assert!(!has_non_version_changes(&new, &new, "0.1.0", "0.2.0"));
    }
}
