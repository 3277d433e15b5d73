//! The commit writer: what a version bump commits, and the order in which the
//! object store and the index are written.
//!
//! Nothing here touches a store. `start` and `advance` say what to do next;
//! the caller does it and comes back with what happened. A failure ends the
//! run: nothing is tried again, and no later step is taken.

use vstd::prelude::*;
use vstd::utf8::valid_utf8;

use crate::diff::{
    apply_changes, changes_view, diff_lines, lemma_staged_for, line_changes, staged_for,
};
use crate::index::{
    fresh_entry, stage_file, staged, IndexError, IndexState, ObjectId, MODE_FILE,
};
use crate::tree::{
    all_paths_valid, build_tree_from_index, index_leaves, plan_is_tree, plan_leaves, plan_wf,
    TreeBuildError, TreePlan,
};

verus! {

/// The message of the commit of a version bump.
pub open spec fn bump_message(old_version: Seq<char>, new_version: Seq<char>) -> Seq<char> {
    "chore: bump version from "@ + old_version + " to "@ + new_version
}

/// The message of the commit that bumps the version from `old_version` to
/// `new_version`.
pub fn commit_message(old_version: &str, new_version: &str) -> (message: String)
    ensures
        message@ == bump_message(old_version@, new_version@),
{
    let mut message = "chore: bump version from ".to_owned();
    message.append(old_version);
    message.append(" to ");
    message.append(new_version);
    message
}

/// Who makes a commit.
#[derive(Clone, Debug, PartialEq, Eq)]
pub struct Identity {
    pub name: String,
    pub email: String,
}

/// A commit: a tree, the commit before it if there is one, and what is said
/// of it.
#[derive(Clone, Debug, PartialEq, Eq)]
pub struct Commit {
    pub tree_id: ObjectId,
    pub parent_id: Option<ObjectId>,
    pub message: String,
    pub author: Identity,
    /// Seconds since the epoch.
    pub timestamp: i64,
}

/// What the commit of a version bump is made from.
#[derive(Clone, Debug, PartialEq, Eq)]
pub struct BumpRequest {
    /// The path of the file in the repository.
    pub path: Vec<u8>,
    /// The committed content of the file.
    pub head_content: String,
    /// The content of the file in the working directory.
    pub working_content: String,
    pub old_version: String,
    pub new_version: String,
    /// The index as it was loaded.
    pub index: IndexState,
    /// The head commit; none in a repository without commits.
    pub parent_id: Option<ObjectId>,
    pub author: Identity,
    /// Seconds since the epoch.
    pub timestamp: i64,
}

/// What is known of the commit before its tree is written.
#[derive(Clone, Debug, PartialEq, Eq)]
pub struct Draft {
    pub parent_id: Option<ObjectId>,
    pub message: String,
    pub author: Identity,
    pub timestamp: i64,
}

/// How a step of the caller failed.
#[derive(Clone, Copy, Debug, PartialEq, Eq, Structural)]
pub enum StoreFailure {
    /// The store or the index could not be read or written.
    Io,
    /// The reference was moved by someone else.
    RefConflict,
}

/// What the caller comes back with.
#[derive(Clone, Debug, PartialEq, Eq)]
pub enum Event {
    /// The blob was written and has this identity.
    BlobWritten { blob_id: ObjectId },
    /// The index was written.
    IndexPersisted,
    /// The trees were written, and the root has this identity.
    TreesWritten { root_id: ObjectId },
    /// The commit was written and has this identity.
    CommitWritten { commit_id: ObjectId },
    /// The reference points to the commit.
    RefUpdated,
    /// The step failed.
    Failed { failure: StoreFailure },
}

/// Why no commit was made.
#[derive(Clone, Copy, Debug, PartialEq, Eq, Structural)]
pub enum CommitError {
    /// The store or the index could not be read or written.
    ObjectStoreIo,
    /// The file could not be staged.
    Index(IndexError),
    /// The index does not make a tree.
    TreeBuild(TreeBuildError),
    /// The reference was moved by someone else.
    RefUpdateConflict,
    /// The caller came back with something that was not asked for.
    UnexpectedEvent,
}

impl CommitError {
    /// The message of this error.
    pub fn to_string(&self) -> (message: String)
        ensures
            message@ == (match *self {
                CommitError::ObjectStoreIo => "Failed to write to the object store"@,
                CommitError::Index(error) => match error {
                    IndexError::InvalidPath => "Path is not valid UTF-8"@,
                    IndexError::Corrupt => "Failed to read index file"@,
                },
                CommitError::TreeBuild(error) => "Invalid path segment in index entry"@,
                CommitError::RefUpdateConflict => "Reference was updated by another process"@,
                CommitError::UnexpectedEvent => "Unexpected answer from the object store"@,
            }),
    {
        match self {
            CommitError::ObjectStoreIo => "Failed to write to the object store".to_owned(),
            CommitError::Index(error) => error.to_string(),
            CommitError::TreeBuild(error) => error.to_string(),
            CommitError::RefUpdateConflict => "Reference was updated by another process".to_owned(),
            CommitError::UnexpectedEvent => "Unexpected answer from the object store".to_owned(),
        }
    }
}

/// What the caller has to do next.
#[derive(Clone, Debug, PartialEq, Eq)]
pub enum Action {
    /// Write the content as a blob and come back with `BlobWritten`.
    WriteBlob { content: String },
    /// Write the whole index and come back with `IndexPersisted`.
    PersistIndex { index: IndexState },
    /// Write the trees in their order and come back with `TreesWritten`.
    WriteTrees { plan: TreePlan },
    /// Write the commit and come back with `CommitWritten`.
    WriteCommit { commit: Commit },
    /// Let the branch that `HEAD` names point to the commit and come back
    /// with `RefUpdated`.
    UpdateRef { commit_id: ObjectId },
    /// Nothing: the commit is made.
    Finish { commit_id: ObjectId },
    /// Nothing: no commit is made.
    Abort { error: CommitError },
}

/// How far the commit has come.
#[derive(Clone, Debug, PartialEq, Eq)]
pub enum State {
    /// The blob is being written.
    WritingBlob { path: Vec<u8>, index: IndexState, draft: Draft },
    /// The index is being written.
    PersistingIndex { plan: TreePlan, draft: Draft },
    /// The trees are being written.
    WritingTrees { draft: Draft },
    /// The commit is being written.
    WritingCommit,
    /// The reference is being moved.
    UpdatingRef { commit_id: ObjectId },
    /// The commit is made.
    Done,
    /// No commit is made.
    Failed,
}

/// The error that a failure of the caller stands for.
pub open spec fn error_of(failure: StoreFailure) -> CommitError {
    match failure {
        StoreFailure::Io => CommitError::ObjectStoreIo,
        StoreFailure::RefConflict => CommitError::RefUpdateConflict,
    }
}

/// The end of a run without a commit.
pub open spec fn aborted(next: (State, Action), error: CommitError) -> bool {
    next.0 == State::Failed && next.1 == (Action::Abort { error })
}

/// Begins the commit of a version bump: the first thing to write is the blob
/// of the content to stage, which is the committed content with the
/// version-related lines of the working content, as `apply_version_hunks`
/// gives it. Where the two contents are the same, it is the committed
/// content.
pub fn start(request: BumpRequest) -> (next: (State, Action))
    ensures
        next.0 matches State::WritingBlob { path, index, draft } && path@ == request.path@ && index
            == request.index && draft.parent_id == request.parent_id && draft.message@
            == bump_message(request.old_version@, request.new_version@) && draft.author
            == request.author && draft.timestamp == request.timestamp,
        next.1 matches Action::WriteBlob { content } && staged_for(
            content@,
            line_changes(request.head_content@, request.working_content@),
            request.head_content@,
            request.working_content@,
            request.old_version@,
            request.new_version@,
        ),
{
    let changes = diff_lines(request.head_content.as_str(), request.working_content.as_str());
    let content = apply_changes(
        &changes,
        request.old_version.as_str(),
        request.new_version.as_str(),
    );
    proof {
        lemma_staged_for(
            changes_view(changes@),
            request.head_content@,
            request.working_content@,
            request.old_version@,
            request.new_version@,
        );
    }
    let draft = Draft {
        parent_id: request.parent_id,
        message: commit_message(request.old_version.as_str(), request.new_version.as_str()),
        author: request.author,
        timestamp: request.timestamp,
    };
    (
        State::WritingBlob { path: request.path, index: request.index, draft },
        Action::WriteBlob { content },
    )
}

/// The next step of the commit, given what the caller comes back with.
///
/// After the blob: the file is staged and the trees are laid out, and the
/// index is written first. After the index: the trees. After the trees: the
/// commit, with the root as its tree and the head commit as its only parent.
/// After the commit: the reference. After the reference: done. A failure,
/// or an answer to something that was not asked, ends the run without a
/// commit.
pub fn advance(state: State, event: Event) -> (next: (State, Action))
    ensures
        event matches Event::Failed { failure } ==> aborted(next, error_of(failure)),
        event !is Failed ==> match (state, event) {
            (State::WritingBlob { path, index, draft }, Event::BlobWritten { blob_id }) => {
                let entries = staged(index@, fresh_entry(path@, blob_id@, MODE_FILE));
                if !valid_utf8(path@) {
                    aborted(next, CommitError::Index(IndexError::InvalidPath))
                } else if !all_paths_valid(entries) {
                    aborted(next, CommitError::TreeBuild(TreeBuildError::InvalidPathSegment))
                } else {
                    &&& next.0 matches State::PersistingIndex { plan, draft: kept }
                    &&& kept == draft
                    &&& plan@.len() > 0
                    &&& plan_wf(plan@)
                    &&& plan_is_tree(plan@)
                    &&& plan_leaves(plan@).to_multiset() == index_leaves(entries).to_multiset()
                    &&& next.1 matches Action::PersistIndex { index: written }
                    &&& written@ == entries
                    &&& written.wf()
                }
            },
            (State::PersistingIndex { plan, draft }, Event::IndexPersisted) => {
                &&& next.0 == (State::WritingTrees { draft })
                &&& next.1 == (Action::WriteTrees { plan })
            },
            (State::WritingTrees { draft }, Event::TreesWritten { root_id }) => {
                &&& next.0 == State::WritingCommit
                &&& next.1 == (Action::WriteCommit {
                    commit: Commit {
                        tree_id: root_id,
                        parent_id: draft.parent_id,
                        message: draft.message,
                        author: draft.author,
                        timestamp: draft.timestamp,
                    },
                })
            },
            (State::WritingCommit, Event::CommitWritten { commit_id }) => {
                &&& next.0 matches State::UpdatingRef { commit_id: kept }
                &&& kept@ == commit_id@
                &&& next.1 == (Action::UpdateRef { commit_id })
            },
            (State::UpdatingRef { commit_id }, Event::RefUpdated) => {
                &&& next.0 == State::Done
                &&& next.1 == (Action::Finish { commit_id })
            },
            _ => aborted(next, CommitError::UnexpectedEvent),
        },
{
    match event {
        Event::Failed { failure } => {
            let error = match failure {
                StoreFailure::Io => CommitError::ObjectStoreIo,
                StoreFailure::RefConflict => CommitError::RefUpdateConflict,
            };
            (State::Failed, Action::Abort { error })
        },
        Event::BlobWritten { blob_id } => match state {
            State::WritingBlob { path, index, draft } => {
                match stage_file(path.as_slice(), blob_id, index) {
                    Err(error) => (State::Failed, Action::Abort { error: CommitError::Index(error) }),
                    Ok(index) => match build_tree_from_index(&index) {
                        Err(error) => (
                            State::Failed,
                            Action::Abort { error: CommitError::TreeBuild(error) },
                        ),
                        Ok(plan) => (
                            State::PersistingIndex { plan, draft },
                            Action::PersistIndex { index },
                        ),
                    },
                }
            },
            _ => (State::Failed, Action::Abort { error: CommitError::UnexpectedEvent }),
        },
        Event::IndexPersisted => match state {
            State::PersistingIndex { plan, draft } => (
                State::WritingTrees { draft },
                Action::WriteTrees { plan },
            ),
            _ => (State::Failed, Action::Abort { error: CommitError::UnexpectedEvent }),
        },
        Event::TreesWritten { root_id } => match state {
            State::WritingTrees { draft } => (
                State::WritingCommit,
                Action::WriteCommit {
                    commit: Commit {
                        tree_id: root_id,
                        parent_id: draft.parent_id,
                        message: draft.message,
                        author: draft.author,
                        timestamp: draft.timestamp,
                    },
                },
            ),
            _ => (State::Failed, Action::Abort { error: CommitError::UnexpectedEvent }),
        },
        Event::CommitWritten { commit_id } => match state {
            State::WritingCommit => (
                State::UpdatingRef { commit_id: commit_id.copy() },
                Action::UpdateRef { commit_id },
            ),
            _ => (State::Failed, Action::Abort { error: CommitError::UnexpectedEvent }),
        },
        Event::RefUpdated => match state {
            State::UpdatingRef { commit_id } => (State::Done, Action::Finish { commit_id }),
            _ => (State::Failed, Action::Abort { error: CommitError::UnexpectedEvent }),
        },
    }
}

} // verus!
