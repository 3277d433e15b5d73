use cargo_version_info::commit::{
    advance, commit_message, start, Action, BumpRequest, Commit, CommitError, Draft, Event,
    Identity, State, StoreFailure,
};
use cargo_version_info::index::{IndexError, IndexState, ObjectId, MODE_FILE};
use cargo_version_info::tree::{EntryKind, Target, TreeBuildError};

fn id(byte: u8) -> ObjectId {
    ObjectId { bytes: vec![byte; 20] }
}

fn author() -> Identity {
    Identity { name: "A. Uthor".to_string(), email: "author@example.com".to_string() }
}

fn request(path: &[u8], parent: Option<ObjectId>) -> BumpRequest {
    let index = IndexState::new()
        .stage(b"src/lib.rs", id(1), MODE_FILE)
        .unwrap()
        .stage(b"Cargo.toml", id(2), MODE_FILE)
        .unwrap();
    BumpRequest {
        path: path.to_vec(),
        head_content: "[package]\nname=\"t\"\nversion=\"0.1.0\"\ndesc=\"old\"\n".to_string(),
        working_content: "[package]\nname=\"t\"\nversion=\"0.2.0\"\ndesc=\"new\"\n".to_string(),
        old_version: "0.1.0".to_string(),
        new_version: "0.2.0".to_string(),
        index,
        parent_id: parent,
        author: author(),
        timestamp: 1_700_000_000,
    }
}

fn abort(error: CommitError) -> (State, Action) {
    (State::Failed, Action::Abort { error })
}

#[test]
fn message_of_a_bump() {
    assert_eq!(commit_message("0.1.0", "0.2.0"), "chore: bump version from 0.1.0 to 0.2.0");
    assert_eq!(commit_message("", ""), "chore: bump version from  to ");
}

#[test]
fn a_whole_run() {
    let (state, action) = start(request(b"Cargo.toml", Some(id(9))));
    assert_eq!(
        action,
        Action::WriteBlob {
            content: "[package]\nname=\"t\"\ndesc=\"old\"\nversion=\"0.2.0\"\n".to_string()
        }
    );
    let (state, action) = advance(state, Event::BlobWritten { blob_id: id(3) });
    let index = match action {
        Action::PersistIndex { index } => index,
        other => panic!("expected the index, got {other:?}"),
    };
    assert_eq!(index.len(), 2);
    assert_eq!(index.entries()[0].path, b"Cargo.toml".to_vec());
    assert_eq!(index.entries()[0].id, id(3));
    assert_eq!(index.entries()[1].path, b"src/lib.rs".to_vec());
    assert_eq!(index.entries()[1].id, id(1));
    let (state, action) = advance(state, Event::IndexPersisted);
    let plan = match action {
        Action::WriteTrees { plan } => plan,
        other => panic!("expected the trees, got {other:?}"),
    };
    assert_eq!(plan.objects.len(), 2);
    assert_eq!(plan.objects[0].entries[0].filename, b"lib.rs".to_vec());
    assert_eq!(plan.objects[1].entries[0].filename, b"Cargo.toml".to_vec());
    assert_eq!(plan.objects[1].entries[0].kind, EntryKind::Blob);
    assert_eq!(plan.objects[1].entries[0].target, Target::Object(id(3)));
    assert_eq!(plan.objects[1].entries[1].target, Target::Subtree(0));
    assert_eq!(state, State::WritingTrees {
        draft: Draft {
            parent_id: Some(id(9)),
            message: "chore: bump version from 0.1.0 to 0.2.0".to_string(),
            author: author(),
            timestamp: 1_700_000_000,
        }
    });
    let (state, action) = advance(state, Event::TreesWritten { root_id: id(4) });
    assert_eq!(
        action,
        Action::WriteCommit {
            commit: Commit {
                tree_id: id(4),
                parent_id: Some(id(9)),
                message: "chore: bump version from 0.1.0 to 0.2.0".to_string(),
                author: author(),
                timestamp: 1_700_000_000,
            }
        }
    );
    assert_eq!(state, State::WritingCommit);
    let (state, action) = advance(state, Event::CommitWritten { commit_id: id(5) });
    assert_eq!(action, Action::UpdateRef { commit_id: id(5) });
    assert_eq!(state, State::UpdatingRef { commit_id: id(5) });
    let (state, action) = advance(state, Event::RefUpdated);
    assert_eq!(action, Action::Finish { commit_id: id(5) });
    assert_eq!(state, State::Done);
    assert_eq!(advance(state, Event::RefUpdated), abort(CommitError::UnexpectedEvent));
}

#[test]
fn first_commit_has_no_parent() {
    let (state, _) = start(request(b"Cargo.toml", None));
    let (state, _) = advance(state, Event::BlobWritten { blob_id: id(3) });
    let (state, _) = advance(state, Event::IndexPersisted);
    let (_, action) = advance(state, Event::TreesWritten { root_id: id(4) });
    match action {
        Action::WriteCommit { commit } => assert_eq!(commit.parent_id, None),
        other => panic!("expected the commit, got {other:?}"),
    }
}

#[test]
fn a_failure_ends_the_run() {
    let io = Event::Failed { failure: StoreFailure::Io };
    let conflict = Event::Failed { failure: StoreFailure::RefConflict };
    let (state, _) = start(request(b"Cargo.toml", None));
    assert_eq!(advance(state.clone(), io.clone()), abort(CommitError::ObjectStoreIo));
    let (state, _) = advance(state, Event::BlobWritten { blob_id: id(3) });
    assert_eq!(advance(state.clone(), io.clone()), abort(CommitError::ObjectStoreIo));
    let (state, _) = advance(state, Event::IndexPersisted);
    let (state, _) = advance(state, Event::TreesWritten { root_id: id(4) });
    let (state, _) = advance(state, Event::CommitWritten { commit_id: id(5) });
    assert_eq!(advance(state.clone(), conflict), abort(CommitError::RefUpdateConflict));
    assert_eq!(advance(state, io.clone()), abort(CommitError::ObjectStoreIo));
    assert_eq!(advance(State::Failed, io), abort(CommitError::ObjectStoreIo));
    assert_eq!(advance(State::Failed, Event::RefUpdated), abort(CommitError::UnexpectedEvent));
}

#[test]
fn an_answer_out_of_turn_ends_the_run() {
    let (state, _) = start(request(b"Cargo.toml", None));
    assert_eq!(advance(state.clone(), Event::IndexPersisted), abort(CommitError::UnexpectedEvent));
    assert_eq!(
        advance(state.clone(), Event::TreesWritten { root_id: id(1) }),
        abort(CommitError::UnexpectedEvent)
    );
    assert_eq!(
        advance(state.clone(), Event::CommitWritten { commit_id: id(1) }),
        abort(CommitError::UnexpectedEvent)
    );
    assert_eq!(advance(state, Event::RefUpdated), abort(CommitError::UnexpectedEvent));
    assert_eq!(
        advance(State::WritingCommit, Event::BlobWritten { blob_id: id(1) }),
        abort(CommitError::UnexpectedEvent)
    );
}

#[test]
fn a_bad_path_ends_the_run_before_anything_else_is_written() {
    let (state, _) = start(request(&[0xff, 0xfe], None));
    assert_eq!(
        advance(state, Event::BlobWritten { blob_id: id(3) }),
        abort(CommitError::Index(IndexError::InvalidPath))
    );
    let (state, _) = start(request(b"a//b", None));
    assert_eq!(
        advance(state, Event::BlobWritten { blob_id: id(3) }),
        abort(CommitError::TreeBuild(TreeBuildError::InvalidPathSegment))
    );
}

#[test]
fn messages_of_errors() {
    assert_eq!(CommitError::ObjectStoreIo.to_string(), "Failed to write to the object store");
    assert_eq!(CommitError::Index(IndexError::InvalidPath).to_string(), "Path is not valid UTF-8");
    assert_eq!(CommitError::Index(IndexError::Corrupt).to_string(), "Failed to read index file");
    assert_eq!(
        CommitError::TreeBuild(TreeBuildError::InvalidPathSegment).to_string(),
        "Invalid path segment in index entry"
    );
    assert_eq!(
        CommitError::RefUpdateConflict.to_string(),
        "Reference was updated by another process"
    );
    assert_eq!(CommitError::UnexpectedEvent.to_string(), "Unexpected answer from the object store");
}
