use cargo_version_info::index::{
    load_index_state, IndexEntry, IndexState, ObjectId, Stat, MODE_COMMIT, MODE_DIR, MODE_FILE,
    MODE_FILE_EXECUTABLE, MODE_SYMLINK,
};
use cargo_version_info::tree::{
    build_tree_from_index, check_path, convert_mode_to_tree_mode, read_tree, EntryKind,
    FileEntry, Target, TreeBuildError, TreeEntry, TreeObject, TreePlan,
};

fn id(byte: u8) -> ObjectId {
    ObjectId { bytes: vec![byte; 20] }
}

fn index_of(files: &[(&str, u8, u32)]) -> IndexState {
    let mut state = IndexState::new();
    for (path, byte, mode) in files {
        state = state.stage(path.as_bytes(), id(*byte), *mode).unwrap();
    }
    state
}

fn names(plan: &TreePlan, object: usize) -> Vec<String> {
    plan.objects[object]
        .entries
        .iter()
        .map(|e| String::from_utf8(e.filename.clone()).unwrap())
        .collect()
}

/// Reads the files back through the tree at `object`.
fn read_back(plan: &TreePlan, object: usize, prefix: &str, out: &mut Vec<(String, EntryKind, ObjectId)>) {
    for e in &plan.objects[object].entries {
        let name = String::from_utf8(e.filename.clone()).unwrap();
        match &e.target {
            Target::Object(id) => out.push((format!("{prefix}{name}"), e.kind, id.clone())),
            Target::Subtree(k) => {
                assert!(*k < object);
                assert_eq!(e.kind, EntryKind::Tree);
                read_back(plan, *k, &format!("{prefix}{name}/"), out);
            }
        }
    }
}

fn leaf(name: &str, kind: EntryKind, byte: u8) -> TreeEntry {
    TreeEntry { filename: name.as_bytes().to_vec(), kind, target: Target::Object(id(byte)) }
}

fn dir(name: &str, object: usize) -> TreeEntry {
    TreeEntry {
        filename: name.as_bytes().to_vec(),
        kind: EntryKind::Tree,
        target: Target::Subtree(object),
    }
}

#[test]
fn mode_conversion() {
    assert_eq!(convert_mode_to_tree_mode(MODE_FILE), EntryKind::Blob);
    assert_eq!(convert_mode_to_tree_mode(MODE_FILE_EXECUTABLE), EntryKind::BlobExecutable);
    assert_eq!(convert_mode_to_tree_mode(MODE_SYMLINK), EntryKind::Link);
    assert_eq!(convert_mode_to_tree_mode(MODE_DIR), EntryKind::Tree);
    assert_eq!(convert_mode_to_tree_mode(MODE_COMMIT), EntryKind::Commit);
    assert_eq!(convert_mode_to_tree_mode(0), EntryKind::Blob);
    assert_eq!(convert_mode_to_tree_mode(0o100664), EntryKind::Blob);
    assert_eq!(convert_mode_to_tree_mode(u32::MAX), EntryKind::Blob);
}

#[test]
fn kind_bits() {
    assert_eq!(EntryKind::Tree.bits(), 0o040000);
    assert_eq!(EntryKind::Blob.bits(), 0o100644);
    assert_eq!(EntryKind::BlobExecutable.bits(), 0o100755);
    assert_eq!(EntryKind::Link.bits(), 0o120000);
    assert_eq!(EntryKind::Commit.bits(), 0o160000);
}

#[test]
fn empty_index_gives_an_empty_root() {
    let plan = build_tree_from_index(&IndexState::new()).unwrap();
    assert_eq!(plan.objects.len(), 1);
    assert!(plan.objects[0].entries.is_empty());
}

#[test]
fn files_of_the_root() {
    let index = index_of(&[("b.txt", 2, MODE_FILE), ("a.sh", 1, MODE_FILE_EXECUTABLE)]);
    let plan = build_tree_from_index(&index).unwrap();
    assert_eq!(plan.objects.len(), 1);
    assert_eq!(
        plan.objects[0].entries,
        vec![leaf("a.sh", EntryKind::BlobExecutable, 1), leaf("b.txt", EntryKind::Blob, 2)]
    );
}

#[test]
fn one_tree_for_each_directory() {
    let index = index_of(&[
        ("Cargo.toml", 1, MODE_FILE),
        ("src/main.rs", 2, MODE_FILE),
        ("src/lib.rs", 3, MODE_FILE),
        ("tests/integration.rs", 4, MODE_FILE),
        ("src/commands/bump/mod.rs", 5, MODE_FILE),
        ("src/commands/current.rs", 6, MODE_FILE),
    ]);
    let plan = build_tree_from_index(&index).unwrap();
    // src/commands/bump, src/commands, src, tests, root
    assert_eq!(plan.objects.len(), 5);
    assert_eq!(plan.objects[0].entries, vec![leaf("mod.rs", EntryKind::Blob, 5)]);
    assert_eq!(
        plan.objects[1].entries,
        vec![dir("bump", 0), leaf("current.rs", EntryKind::Blob, 6)]
    );
    assert_eq!(
        plan.objects[2].entries,
        vec![dir("commands", 1), leaf("lib.rs", EntryKind::Blob, 3), leaf("main.rs", EntryKind::Blob, 2)]
    );
    assert_eq!(plan.objects[3].entries, vec![leaf("integration.rs", EntryKind::Blob, 4)]);
    assert_eq!(
        plan.objects[4].entries,
        vec![leaf("Cargo.toml", EntryKind::Blob, 1), dir("src", 2), dir("tests", 3)]
    );
}

#[test]
fn every_tree_is_sorted_by_name_not_by_path() {
    // In path order "a-b" and "a.b" come before "a/x"; by name "a" comes first.
    let index = index_of(&[
        ("a/x", 1, MODE_FILE),
        ("a-b", 2, MODE_FILE),
        ("a.b", 3, MODE_FILE),
        ("ab", 4, MODE_FILE),
        ("a/y/z", 5, MODE_FILE),
        ("a/y-", 6, MODE_FILE),
    ]);
    let plan = build_tree_from_index(&index).unwrap();
    let root = plan.objects.len() - 1;
    assert_eq!(names(&plan, root), vec!["a", "a-b", "a.b", "ab"]);
    for object in 0..plan.objects.len() {
        let n = names(&plan, object);
        for pair in n.windows(2) {
            assert!(pair[0].as_bytes() <= pair[1].as_bytes());
        }
    }
    let a = match &plan.objects[root].entries[0].target {
        Target::Subtree(k) => *k,
        Target::Object(_) => panic!("a is a directory"),
    };
    assert_eq!(names(&plan, a), vec!["x", "y", "y-"]);
}

#[test]
fn reading_the_tree_back_gives_the_index() {
    let files = [
        ("Cargo.toml", 1, MODE_FILE),
        ("run.sh", 2, MODE_FILE_EXECUTABLE),
        ("link", 3, MODE_SYMLINK),
        ("vendor/dep", 4, MODE_COMMIT),
        ("src/a/b/c/d.rs", 5, MODE_FILE),
        ("src/a/b.rs", 6, MODE_FILE),
        ("src/a.rs", 7, MODE_FILE),
        ("src/a-b.rs", 8, 0o100664),
        ("z/z/z", 9, MODE_FILE),
    ];
    let index = index_of(&files);
    let plan = build_tree_from_index(&index).unwrap();
    let mut read = Vec::new();
    read_back(&plan, plan.objects.len() - 1, "", &mut read);
    let by_library: Vec<(String, EntryKind, ObjectId)> = read_tree(&plan)
        .into_iter()
        .map(|f| (String::from_utf8(f.path).unwrap(), f.kind, f.id))
        .collect();
    assert_eq!(by_library, read);
    read.sort_by(|a, b| a.0.as_bytes().cmp(b.0.as_bytes()));
    let expected: Vec<(String, EntryKind, ObjectId)> = index
        .entries()
        .iter()
        .map(|e| {
            (String::from_utf8(e.path.clone()).unwrap(), convert_mode_to_tree_mode(e.mode), e.id.clone())
        })
        .collect();
    assert_eq!(read, expected);
    assert_eq!(read.len(), files.len());
    assert_eq!(read[7], ("vendor/dep".to_string(), EntryKind::Commit, id(4)));
    assert_eq!(read[3], ("src/a-b.rs".to_string(), EntryKind::Blob, id(8)));
}

#[test]
fn a_file_and_a_directory_of_one_name_both_stand_in_the_tree() {
    let index = index_of(&[("a", 1, MODE_FILE), ("a/b", 2, MODE_FILE), ("a-", 3, MODE_FILE)]);
    let plan = build_tree_from_index(&index).unwrap();
    assert_eq!(plan.objects.len(), 2);
    assert_eq!(plan.objects[0].entries, vec![leaf("b", EntryKind::Blob, 2)]);
    assert_eq!(
        plan.objects[1].entries,
        vec![leaf("a", EntryKind::Blob, 1), dir("a", 0), leaf("a-", EntryKind::Blob, 3)]
    );
}

fn raw_entry(path: &[u8]) -> IndexEntry {
    IndexEntry { path: path.to_vec(), id: id(1), mode: MODE_FILE, stat: Stat::default(), flags: 0 }
}

#[test]
fn a_path_with_an_empty_segment_is_refused() {
    for bad in [&b""[..], b"/a", b"a/", b"a//b", b"/", b"a/b//", b"//"] {
        let index = load_index_state(vec![raw_entry(bad)]).unwrap();
        assert_eq!(build_tree_from_index(&index), Err(TreeBuildError::InvalidPathSegment));
        assert!(!check_path(bad));
    }
    let index = load_index_state(vec![raw_entry(b"a"), raw_entry(b"b//c"), raw_entry(b"d")]).unwrap();
    assert_eq!(build_tree_from_index(&index), Err(TreeBuildError::InvalidPathSegment));
    for good in [&b"a"[..], b"a/b", b"a/b/c", b".", b"a b/c"] {
        assert!(check_path(good));
    }
    assert_eq!(
        TreeBuildError::InvalidPathSegment.to_string(),
        "Invalid path segment in index entry"
    );
}

#[test]
fn a_deep_path_gets_one_tree_for_each_level() {
    let index = index_of(&[("a/b/c/d/e/f", 1, MODE_FILE)]);
    let plan = build_tree_from_index(&index).unwrap();
    assert_eq!(plan.objects.len(), 6);
    assert_eq!(plan.objects[0].entries, vec![leaf("f", EntryKind::Blob, 1)]);
    for k in 1..6 {
        assert_eq!(plan.objects[k].entries.len(), 1);
        assert_eq!(plan.objects[k].entries[0].target, Target::Subtree(k - 1));
    }
    assert_eq!(names(&plan, 5), vec!["a"]);
}

/// A small generator of numbers that looks random and is the same each run.
fn next(seed: &mut u64) -> u64 {
    *seed = seed.wrapping_mul(6364136223846793005).wrapping_add(1442695040888963407);
    *seed >> 33
}

#[test]
fn many_paths_come_back_as_they_went_in() {
    let parts = ["a", "b", "ab", "a-b", "a.b", "src", "lib.rs", "x", "y/z", "é", "0"];
    let mut seed = 7u64;
    for round in 0..20 {
        let mut state = IndexState::new();
        let mut files: Vec<(String, u8)> = Vec::new();
        for n in 0..(10 + round * 5) {
            let depth = 1 + next(&mut seed) % 4;
            let mut path = String::new();
            for d in 0..depth {
                if d > 0 {
                    path.push('/');
                }
                path.push_str(parts[(next(&mut seed) % parts.len() as u64) as usize]);
            }
            let byte = (n % 250) as u8;
            state = state.stage(path.as_bytes(), id(byte), MODE_FILE).unwrap();
            files.retain(|(p, _)| *p != path);
            files.push((path, byte));
        }
        files.sort_by(|a, b| a.0.as_bytes().cmp(b.0.as_bytes()));
        let staged: Vec<(String, u8)> = state
            .entries()
            .iter()
            .map(|e| (String::from_utf8(e.path.clone()).unwrap(), e.id.bytes[0]))
            .collect();
        assert_eq!(staged, files);

        let plan = build_tree_from_index(&state).unwrap();
        let root = plan.objects.len() - 1;
        let mut read = Vec::new();
        read_back(&plan, root, "", &mut read);
        let by_library: Vec<(String, EntryKind, ObjectId)> = read_tree(&plan)
            .into_iter()
            .map(|f| (String::from_utf8(f.path).unwrap(), f.kind, f.id))
            .collect();
        assert_eq!(by_library, read);
        read.sort_by(|a, b| a.0.as_bytes().cmp(b.0.as_bytes()));
        let expected: Vec<(String, EntryKind, ObjectId)> =
            files.iter().map(|(p, b)| (p.clone(), EntryKind::Blob, id(*b))).collect();
        assert_eq!(read, expected);

        let mut named = vec![0usize; plan.objects.len()];
        for (u, object) in plan.objects.iter().enumerate() {
            if u != root {
                assert!(!object.entries.is_empty());
            }
            for pair in object.entries.windows(2) {
                let a = (&pair[0].filename, matches!(pair[0].target, Target::Subtree(_)));
                let b = (&pair[1].filename, matches!(pair[1].target, Target::Subtree(_)));
                assert!(a < b);
            }
            for e in &object.entries {
                assert!(!e.filename.is_empty());
                assert!(!e.filename.contains(&b'/'));
                if let Target::Subtree(k) = e.target {
                    assert!(k < u);
                    named[k] += 1;
                }
            }
        }
        for (t, count) in named.iter().enumerate() {
            assert_eq!(*count, if t == root { 0 } else { 1 });
        }
    }
}

#[test]
fn read_tree_follows_the_plan() {
    assert_eq!(read_tree(&TreePlan { objects: Vec::new() }), Vec::new());
    let plan = TreePlan {
        objects: vec![
            TreeObject { entries: vec![leaf("b", EntryKind::Link, 2)] },
            TreeObject {
                entries: vec![
                    leaf("1", EntryKind::Blob, 1),
                    dir("a", 0),
                    dir("later", 1),
                    dir("missing", 7),
                    leaf("z", EntryKind::Commit, 3),
                ],
            },
        ],
    };
    assert_eq!(
        read_tree(&plan),
        vec![
            FileEntry { path: b"1".to_vec(), kind: EntryKind::Blob, id: id(1) },
            FileEntry { path: b"a/b".to_vec(), kind: EntryKind::Link, id: id(2) },
            FileEntry { path: b"z".to_vec(), kind: EntryKind::Commit, id: id(3) },
        ]
    );
}
