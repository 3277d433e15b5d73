//! The tree builder: from the flat, sorted index to the tree objects of a
//! commit, one object for each directory.
//!
//! The objects are listed in the order in which they have to be written: an
//! entry that stands for a subdirectory names an earlier object of the list,
//! and the last object is the root.

use vstd::prelude::*;
use vstd::seq_lib::lemma_multiset_commutative;

use crate::index::{
    entries_view, strictly_sorted, EntrySpec, IndexEntry, IndexState, ObjectId, MODE_COMMIT,
    MODE_DIR, MODE_FILE, MODE_FILE_EXECUTABLE, MODE_SYMLINK,
};
use crate::paths::{
    bytes_less, compare_paths, lemma_bytes_less_asymmetric, lemma_bytes_less_irreflexive,
    lemma_bytes_less_total, lemma_bytes_less_transitive, PathOrder,
};

verus! {

/// The byte that separates the segments of a path.
pub const SLASH: u8 = 47;

/// What an entry of a tree stands for.
#[derive(Clone, Copy, Debug, PartialEq, Eq, Structural)]
pub enum EntryKind {
    /// A directory.
    Tree,
    /// A regular file.
    Blob,
    /// An executable file.
    BlobExecutable,
    /// A symbolic link.
    Link,
    /// A commit of another repository.
    Commit,
}

/// The kind of tree entry that an index entry of mode `mode` becomes. A mode
/// that is none of the five known ones becomes a regular file.
pub open spec fn tree_kind(mode: u32) -> EntryKind {
    if mode == MODE_FILE_EXECUTABLE {
        EntryKind::BlobExecutable
    } else if mode == MODE_SYMLINK {
        EntryKind::Link
    } else if mode == MODE_DIR {
        EntryKind::Tree
    } else if mode == MODE_COMMIT {
        EntryKind::Commit
    } else {
        EntryKind::Blob
    }
}

/// The mode bits that a tree object stores for a kind of entry.
pub open spec fn kind_bits(kind: EntryKind) -> u16 {
    match kind {
        EntryKind::Tree => 0o040000,
        EntryKind::Blob => 0o100644,
        EntryKind::BlobExecutable => 0o100755,
        EntryKind::Link => 0o120000,
        EntryKind::Commit => 0o160000,
    }
}

impl EntryKind {
    /// The mode bits that a tree object stores for this kind.
    pub fn bits(&self) -> (bits: u16)
        ensures
            bits == kind_bits(*self),
    {
        match self {
            EntryKind::Tree => 0o040000,
            EntryKind::Blob => 0o100644,
            EntryKind::BlobExecutable => 0o100755,
            EntryKind::Link => 0o120000,
            EntryKind::Commit => 0o160000,
        }
    }
}

/// Converts the mode of an index entry to the kind of a tree entry: regular
/// file, executable file, symbolic link, directory or commit link. Any other
/// mode becomes a regular file.
pub fn convert_mode_to_tree_mode(mode: u32) -> (kind: EntryKind)
    ensures
        kind == tree_kind(mode),
{
    if mode == MODE_FILE {
        EntryKind::Blob
    } else if mode == MODE_FILE_EXECUTABLE {
        EntryKind::BlobExecutable
    } else if mode == MODE_SYMLINK {
        EntryKind::Link
    } else if mode == MODE_DIR {
        EntryKind::Tree
    } else if mode == MODE_COMMIT {
        EntryKind::Commit
    } else {
        EntryKind::Blob
    }
}

/// What an entry of a tree points to.
#[derive(Clone, Debug, PartialEq, Eq)]
pub enum Target {
    /// An object that exists already, by its identity.
    Object(ObjectId),
    /// A tree of the same plan, by its place in the plan.
    Subtree(usize),
}

/// A `Target` as contracts see it.
pub enum TargetSpec {
    Object(Seq<u8>),
    Subtree(int),
}

impl View for Target {
    type V = TargetSpec;

    open spec fn view(&self) -> TargetSpec {
        match *self {
            Target::Object(id) => TargetSpec::Object(id@),
            Target::Subtree(k) => TargetSpec::Subtree(k as int),
        }
    }
}

/// One entry of a tree: a file or a subdirectory of the directory.
#[derive(Clone, Debug, PartialEq, Eq)]
pub struct TreeEntry {
    pub filename: Vec<u8>,
    pub kind: EntryKind,
    pub target: Target,
}

/// A `TreeEntry` as contracts see it.
pub struct TreeEntrySpec {
    pub filename: Seq<u8>,
    pub kind: EntryKind,
    pub target: TargetSpec,
}

impl View for TreeEntry {
    type V = TreeEntrySpec;

    open spec fn view(&self) -> TreeEntrySpec {
        TreeEntrySpec { filename: self.filename@, kind: self.kind, target: self.target@ }
    }
}

/// The tree object of one directory.
#[derive(Clone, Debug, PartialEq, Eq)]
pub struct TreeObject {
    pub entries: Vec<TreeEntry>,
}

impl View for TreeObject {
    type V = Seq<TreeEntrySpec>;

    open spec fn view(&self) -> Seq<TreeEntrySpec> {
        self.entries@.map_values(|e: TreeEntry| e@)
    }
}

/// The tree objects of a commit in the order in which to write them. The last
/// one is the root.
#[derive(Clone, Debug, PartialEq, Eq)]
pub struct TreePlan {
    pub objects: Vec<TreeObject>,
}

impl View for TreePlan {
    type V = Seq<Seq<TreeEntrySpec>>;

    open spec fn view(&self) -> Seq<Seq<TreeEntrySpec>> {
        objects_view(self.objects@)
    }
}

/// The views of a list of tree objects, in order.
pub open spec fn objects_view(objects: Seq<TreeObject>) -> Seq<Seq<TreeEntrySpec>> {
    objects.map_values(|o: TreeObject| o@)
}

/// A file as a commit holds it: its full path, its kind and its content.
pub struct Leaf {
    pub path: Seq<u8>,
    pub kind: EntryKind,
    pub id: Seq<u8>,
}

/// The file that an index entry stands for.
pub open spec fn leaf_of(entry: EntrySpec) -> Leaf {
    Leaf { path: entry.path, kind: tree_kind(entry.mode), id: entry.id }
}

/// The files that an index stands for, in the order of the index.
pub open spec fn index_leaves(entries: Seq<EntrySpec>) -> Seq<Leaf> {
    entries.map_values(|e: EntrySpec| leaf_of(e))
}

/// The files under one entry of a tree that lies at `prefix`, read back
/// through the plan. An entry for a subdirectory counts only if it names an
/// object before `below`.
pub open spec fn leaves_of_entry(
    plan: Seq<Seq<TreeEntrySpec>>,
    entry: TreeEntrySpec,
    below: int,
    prefix: Seq<u8>,
) -> Seq<Leaf>
    decreases below, 0int, 0int,
{
    match entry.target {
        TargetSpec::Object(id) => seq![
            Leaf { path: prefix + entry.filename, kind: entry.kind, id },
        ],
        TargetSpec::Subtree(k) => if 0 <= k < below && k < plan.len() {
            leaves_of_object(plan, k, prefix + entry.filename + seq![SLASH])
        } else {
            Seq::empty()
        },
    }
}

/// The files under the entries of a tree that lies at `prefix`, in order.
pub open spec fn leaves_of_entries(
    plan: Seq<Seq<TreeEntrySpec>>,
    entries: Seq<TreeEntrySpec>,
    below: int,
    prefix: Seq<u8>,
) -> Seq<Leaf>
    decreases below, 1int, entries.len(),
{
    if entries.len() == 0 {
        Seq::empty()
    } else {
        leaves_of_entries(plan, entries.drop_last(), below, prefix) + leaves_of_entry(
            plan,
            entries.last(),
            below,
            prefix,
        )
    }
}

/// The files under the tree at place `index` of the plan, read back with
/// `prefix` as the path of that tree.
pub open spec fn leaves_of_object(
    plan: Seq<Seq<TreeEntrySpec>>,
    index: int,
    prefix: Seq<u8>,
) -> Seq<Leaf>
    decreases index, 2int, 0int,
{
    if 0 <= index < plan.len() {
        leaves_of_entries(plan, plan[index], index, prefix)
    } else {
        Seq::empty()
    }
}

/// The files of the whole plan: those under its last object, the root.
pub open spec fn plan_leaves(plan: Seq<Seq<TreeEntrySpec>>) -> Seq<Leaf> {
    leaves_of_object(plan, plan.len() - 1, Seq::empty())
}

/// A path whose segments are all non-empty: it is not empty, neither starts
/// nor ends with a slash and has no two slashes in a row.
pub open spec fn valid_path(path: Seq<u8>) -> bool {
    &&& path.len() > 0
    &&& path[0] != SLASH
    &&& path[path.len() - 1] != SLASH
    &&& forall|i: int|
        0 <= i && i + 1 < path.len() && #[trigger] path[i] == SLASH ==> path[i + 1] != SLASH
}

/// A name that can stand in a tree: not empty and without a slash.
pub open spec fn valid_name(name: Seq<u8>) -> bool {
    &&& name.len() > 0
    &&& forall|i: int| 0 <= i < name.len() ==> #[trigger] name[i] != SLASH
}

/// The entry points to a tree of the plan.
pub open spec fn is_subtree(entry: TreeEntrySpec) -> bool {
    entry.target is Subtree
}

/// The order of the entries of one tree: by name in byte order, and of two
/// entries of one name the one that is no subdirectory first.
pub open spec fn entry_before(a: TreeEntrySpec, b: TreeEntrySpec) -> bool {
    bytes_less(a.filename, b.filename) || (a.filename == b.filename && !is_subtree(a)
        && is_subtree(b))
}

/// The entries are in strictly increasing order.
pub open spec fn level_sorted(entries: Seq<TreeEntrySpec>) -> bool {
    forall|i: int, j: int|
        #![trigger entries[i], entries[j]]
        0 <= i < j < entries.len() ==> entry_before(entries[i], entries[j])
}

/// The entries are sorted by name in byte order.
pub open spec fn sorted_by_name(entries: Seq<TreeEntrySpec>) -> bool {
    forall|i: int, j: int|
        #![trigger entries[i], entries[j]]
        0 <= i < j < entries.len() ==> !bytes_less(entries[j].filename, entries[i].filename)
}

/// The entry has a name that can stand in a tree, and if it is a
/// subdirectory, it is one by kind and names an object before `below`.
pub open spec fn entry_wf(entry: TreeEntrySpec, below: int) -> bool {
    &&& valid_name(entry.filename)
    &&& entry.target matches TargetSpec::Subtree(k) ==> 0 <= k < below && entry.kind
        == EntryKind::Tree
}

/// The entries of one tree are in order and each is well formed.
pub open spec fn level_wf(entries: Seq<TreeEntrySpec>, below: int) -> bool {
    &&& level_sorted(entries)
    &&& forall|i: int| 0 <= i < entries.len() ==> entry_wf(#[trigger] entries[i], below)
}

/// Every tree of the plan is in order, and its subdirectories are earlier
/// objects of the plan: no tree reaches itself.
pub open spec fn plan_wf(plan: Seq<Seq<TreeEntrySpec>>) -> bool {
    forall|t: int| 0 <= t < plan.len() ==> level_wf(#[trigger] plan[t], t)
}

/// `first` is the beginning of `second`.
pub open spec fn plan_extends(first: Seq<Seq<TreeEntrySpec>>, second: Seq<Seq<TreeEntrySpec>>) -> bool {
    &&& first.len() <= second.len()
    &&& forall|t: int| 0 <= t < first.len() ==> #[trigger] first[t] == second[t]
}

/// `prefix` is the beginning of `bytes`.
pub open spec fn starts_with(bytes: Seq<u8>, prefix: Seq<u8>) -> bool {
    prefix.len() <= bytes.len() && bytes.take(prefix.len() as int) == prefix
}

/// Entries in strictly increasing order are sorted by name.
pub proof fn lemma_level_sorted_by_name(entries: Seq<TreeEntrySpec>)
    requires
        level_sorted(entries),
    ensures
        sorted_by_name(entries),
{
    assert forall|i: int, j: int|
        #![trigger entries[i], entries[j]]
        0 <= i < j < entries.len() implies !bytes_less(
        entries[j].filename,
        entries[i].filename,
    ) by {
        assert(entry_before(entries[i], entries[j]));
        if bytes_less(entries[i].filename, entries[j].filename) {
            lemma_bytes_less_asymmetric(entries[i].filename, entries[j].filename);
        } else {
            lemma_bytes_less_irreflexive(entries[i].filename);
        }
    }
}

proof fn lemma_entry_before_transitive(a: TreeEntrySpec, b: TreeEntrySpec, c: TreeEntrySpec)
    requires
        entry_before(a, b),
        entry_before(b, c),
    ensures
        entry_before(a, c),
{
    if bytes_less(a.filename, b.filename) && bytes_less(b.filename, c.filename) {
        lemma_bytes_less_transitive(a.filename, b.filename, c.filename);
    }
}

proof fn lemma_entry_before_total(a: TreeEntrySpec, b: TreeEntrySpec)
    ensures
        entry_before(a, b) || entry_before(b, a) || (a.filename == b.filename && is_subtree(a)
            == is_subtree(b)),
{
    lemma_bytes_less_total(a.filename, b.filename);
}

/// Between two byte strings that begin with `prefix`, every byte string in
/// byte order begins with `prefix`.
pub proof fn lemma_between_prefix(a: Seq<u8>, b: Seq<u8>, c: Seq<u8>, prefix: Seq<u8>)
    requires
        bytes_less(a, b),
        bytes_less(b, c),
        starts_with(a, prefix),
        starts_with(c, prefix),
    ensures
        starts_with(b, prefix),
    decreases prefix.len(),
{
    if prefix.len() == 0 {
        assert(b.take(0) =~= prefix);
    } else {
        assert(a[0] == a.take(prefix.len() as int)[0]);
        assert(c[0] == c.take(prefix.len() as int)[0]);
        assert(b.len() > 0);
        assert(b[0] == prefix[0]);
        let rest = prefix.skip(1);
        assert(a.skip(1).take(rest.len() as int) =~= a.take(prefix.len() as int).skip(1));
        assert(c.skip(1).take(rest.len() as int) =~= c.take(prefix.len() as int).skip(1));
        lemma_between_prefix(a.skip(1), b.skip(1), c.skip(1), rest);
        assert(b.take(prefix.len() as int) =~= seq![b[0]] + b.skip(1).take(rest.len() as int));
        assert(prefix =~= seq![prefix[0]] + rest);
    }
}


/// The views of the entries of one tree, in order.
pub open spec fn level_view(entries: Seq<TreeEntry>) -> Seq<TreeEntrySpec> {
    entries.map_values(|e: TreeEntry| e@)
}

/// Every path of the index has non-empty segments only.
pub open spec fn all_paths_valid(entries: Seq<EntrySpec>) -> bool {
    forall|k: int| 0 <= k < entries.len() ==> valid_path((#[trigger] entries[k]).path)
}

proof fn lemma_frame_entry(
    earlier: Seq<Seq<TreeEntrySpec>>,
    later: Seq<Seq<TreeEntrySpec>>,
    entry: TreeEntrySpec,
    low: int,
    high: int,
    prefix: Seq<u8>,
)
    requires
        plan_extends(earlier, later),
        plan_wf(earlier),
        low <= earlier.len(),
        low <= high,
        entry_wf(entry, low),
    ensures
        leaves_of_entry(earlier, entry, low, prefix) == leaves_of_entry(later, entry, high, prefix),
    decreases low, 0int, 0int,
{
    match entry.target {
        TargetSpec::Subtree(k) => {
            lemma_frame_object(earlier, later, k, prefix + entry.filename + seq![SLASH]);
        },
        TargetSpec::Object(_) => {},
    }
}

proof fn lemma_frame_entries(
    earlier: Seq<Seq<TreeEntrySpec>>,
    later: Seq<Seq<TreeEntrySpec>>,
    entries: Seq<TreeEntrySpec>,
    low: int,
    high: int,
    prefix: Seq<u8>,
)
    requires
        plan_extends(earlier, later),
        plan_wf(earlier),
        low <= earlier.len(),
        low <= high,
        forall|i: int| 0 <= i < entries.len() ==> entry_wf(#[trigger] entries[i], low),
    ensures
        leaves_of_entries(earlier, entries, low, prefix) == leaves_of_entries(later, entries, high, prefix),
    decreases low, 1int, entries.len(),
{
    if entries.len() > 0 {
        let rest = entries.drop_last();
        assert forall|i: int| 0 <= i < rest.len() implies entry_wf(#[trigger] rest[i], low) by {
            assert(rest[i] == entries[i]);
        }
        lemma_frame_entries(earlier, later, rest, low, high, prefix);
        assert(entry_wf(entries[entries.len() - 1], low));
        lemma_frame_entry(earlier, later, entries.last(), low, high, prefix);
    }
}

proof fn lemma_frame_object(
    earlier: Seq<Seq<TreeEntrySpec>>,
    later: Seq<Seq<TreeEntrySpec>>,
    index: int,
    prefix: Seq<u8>,
)
    requires
        plan_extends(earlier, later),
        plan_wf(earlier),
        0 <= index < earlier.len(),
    ensures
        leaves_of_object(earlier, index, prefix) == leaves_of_object(later, index, prefix),
    decreases index, 2int, 0int,
{
    assert(level_wf(earlier[index], index));
    assert(earlier[index] == later[index]);
    lemma_frame_entries(earlier, later, earlier[index], index, index, prefix);
}

proof fn lemma_leaves_insert(
    plan: Seq<Seq<TreeEntrySpec>>,
    entries: Seq<TreeEntrySpec>,
    pos: int,
    entry: TreeEntrySpec,
    below: int,
    prefix: Seq<u8>,
)
    requires
        0 <= pos <= entries.len(),
    ensures
        leaves_of_entries(plan, entries.insert(pos, entry), below, prefix).to_multiset()
            == leaves_of_entries(plan, entries, below, prefix).to_multiset().add(
            leaves_of_entry(plan, entry, below, prefix).to_multiset(),
        ),
    decreases entries.len(),
{
    let grown = entries.insert(pos, entry);
    let one = leaves_of_entry(plan, entry, below, prefix);
    if pos == entries.len() {
        assert(grown.drop_last() == entries);
        assert(grown.last() == entry);
        lemma_multiset_commutative(leaves_of_entries(plan, entries, below, prefix), one);
    } else {
        let rest = entries.drop_last();
        let last = leaves_of_entry(plan, entries.last(), below, prefix);
        assert(grown.drop_last() == rest.insert(pos, entry));
        assert(grown.last() == entries.last());
        lemma_leaves_insert(plan, rest, pos, entry, below, prefix);
        lemma_multiset_commutative(
            leaves_of_entries(plan, rest.insert(pos, entry), below, prefix),
            last,
        );
        lemma_multiset_commutative(leaves_of_entries(plan, rest, below, prefix), last);
        assert(leaves_of_entries(plan, grown, below, prefix).to_multiset() =~= leaves_of_entries(
            plan,
            entries,
            below,
            prefix,
        ).to_multiset().add(one.to_multiset()));
    }
}

/// Whether every segment of a path is non-empty.
pub fn check_path(path: &[u8]) -> (valid: bool)
    ensures
        valid == valid_path(path@),
{
    if path.len() == 0 {
        return false;
    }
    if path[0] == SLASH || path[path.len() - 1] == SLASH {
        return false;
    }
    let mut i: usize = 0;
    while i + 1 < path.len()
        invariant
            path.len() > 0,
            i < path.len(),
            forall|k: int|
                0 <= k < i && k + 1 < path.len() && #[trigger] path@[k] == SLASH ==> path@[k + 1]
                    != SLASH,
        decreases path.len() - i,
    {
        if path[i] == SLASH && path[i + 1] == SLASH {
            return false;
        }
        i += 1;
    }
    true
}

/// The place of the first slash of `path` at or after `from`, or the length
/// of `path` if there is none.
fn find_slash(path: &[u8], from: usize) -> (q: usize)
    requires
        from <= path.len(),
    ensures
        from <= q <= path.len(),
        forall|i: int| from <= i < q ==> #[trigger] path@[i] != SLASH,
        q < path.len() ==> path@[q as int] == SLASH,
{
    let mut q: usize = from;
    while q < path.len()
        invariant
            from <= q <= path.len(),
            forall|i: int| from <= i < q ==> #[trigger] path@[i] != SLASH,
        decreases path.len() - q,
    {
        if path[q] == SLASH {
            return q;
        }
        q += 1;
    }
    q
}

/// A copy of the bytes of `bytes` from `from` up to `to`.
fn copy_range(bytes: &[u8], from: usize, to: usize) -> (copy: Vec<u8>)
    requires
        from <= to <= bytes.len(),
    ensures
        copy@ == bytes@.subrange(from as int, to as int),
{
    let mut copy: Vec<u8> = Vec::new();
    let mut i: usize = from;
    while i < to
        invariant
            from <= i <= to,
            to <= bytes.len(),
            copy@ == bytes@.subrange(from as int, i as int),
        decreases to - i,
    {
        copy.push(bytes[i]);
        proof {
            assert(bytes@.subrange(from as int, i + 1) == bytes@.subrange(
                from as int,
                i as int,
            ).push(bytes@[i as int]));
        }
        i += 1;
    }
    copy
}

/// Whether two byte strings agree from `from` up to `to`.
fn same_range(a: &[u8], b: &[u8], from: usize, to: usize) -> (same: bool)
    requires
        from <= to,
        to <= a.len(),
        to <= b.len(),
    ensures
        same == (a@.subrange(from as int, to as int) == b@.subrange(from as int, to as int)),
{
    let mut i: usize = from;
    while i < to
        invariant
            from <= i <= to,
            to <= a.len(),
            to <= b.len(),
            a@.subrange(from as int, i as int) == b@.subrange(from as int, i as int),
        decreases to - i,
    {
        if a[i] != b[i] {
            proof {
                let x = a@.subrange(from as int, to as int);
                let y = b@.subrange(from as int, to as int);
                assert(x[i - from] != y[i - from]);
            }
            return false;
        }
        proof {
            assert(a@.subrange(from as int, i + 1) == a@.subrange(from as int, i as int).push(
                a@[i as int],
            ));
            assert(b@.subrange(from as int, i + 1) == b@.subrange(from as int, i as int).push(
                b@[i as int],
            ));
        }
        i += 1;
    }
    true
}

/// Whether the entry points to a tree of the plan.
fn points_to_subtree(entry: &TreeEntry) -> (subtree: bool)
    ensures
        subtree == is_subtree(entry@),
{
    match &entry.target {
        Target::Subtree(_) => true,
        Target::Object(_) => false,
    }
}

/// The first place in the entries of one tree that does not come before
/// `entry`.
fn find_slot(level: &Vec<TreeEntry>, entry: &TreeEntry) -> (pos: usize)
    ensures
        pos <= level@.len(),
        forall|i: int| 0 <= i < pos ==> entry_before(#[trigger] level_view(level@)[i], entry@),
        pos < level@.len() ==> !entry_before(level_view(level@)[pos as int], entry@),
{
    let ghost before = level_view(level@);
    let subtree = points_to_subtree(entry);
    let mut pos: usize = 0;
    while pos < level.len()
        invariant
            pos <= level.len(),
            before == level_view(level@),
            subtree == is_subtree(entry@),
            forall|i: int| 0 <= i < pos ==> entry_before(#[trigger] before[i], entry@),
        decreases level.len() - pos,
    {
        let other = &level[pos];
        let stop = match compare_paths(other.filename.as_slice(), entry.filename.as_slice()) {
            PathOrder::Before => false,
            PathOrder::Same => points_to_subtree(other) || !subtree,
            PathOrder::After => true,
        };
        proof {
            assert(before[pos as int] == level@[pos as int]@);
            if !stop {
                assert(entry_before(before[pos as int], entry@));
            } else {
                assert(!entry_before(before[pos as int], entry@)) by {
                    if bytes_less(other@.filename, entry@.filename) {
                        lemma_bytes_less_asymmetric(other@.filename, entry@.filename);
                    }
                }
            }
        }
        if stop {
            return pos;
        }
        pos += 1;
    }
    pos
}

/// Puts `entry` at its place in the sorted entries of one tree.
fn insert_entry(level: &mut Vec<TreeEntry>, entry: TreeEntry) -> (pos: usize)
    requires
        level_sorted(level_view(old(level)@)),
        forall|i: int|
            0 <= i < old(level)@.len() ==> !((#[trigger] old(level)@[i])@.filename
                == entry@.filename && is_subtree(old(level)@[i]@) == is_subtree(entry@)),
    ensures
        pos <= old(level)@.len(),
        final(level)@ == old(level)@.insert(pos as int, entry),
        level_sorted(level_view(final(level)@)),
{
    let ghost before = level_view(level@);
    let pos = find_slot(level, &entry);
    proof {
        let grown = before.insert(pos as int, entry@);
        assert forall|i: int, j: int|
            #![trigger grown[i], grown[j]]
            0 <= i < j < grown.len() implies entry_before(grown[i], grown[j]) by {
            if j < pos {
                assert(grown[i] == before[i] && grown[j] == before[j]);
            } else if j == pos {
                assert(grown[i] == before[i]);
            } else {
                assert(grown[j] == before[j - 1]);
                assert(before[pos as int] == level@[pos as int]@);
                lemma_entry_before_total(before[pos as int], entry@);
                assert(entry_before(entry@, before[pos as int]));
                if j - 1 > pos {
                    assert(entry_before(before[pos as int], before[j - 1]));
                    lemma_entry_before_transitive(entry@, before[pos as int], before[j - 1]);
                }
                if i < pos {
                    assert(grown[i] == before[i]);
                    lemma_entry_before_transitive(before[i], entry@, before[j - 1]);
                } else if i > pos {
                    assert(grown[i] == before[i - 1]);
                }
            }
        }
    }
    level.insert(pos, entry);
    proof {
        assert(level_view(level@) =~= before.insert(pos as int, entry@));
    }
    pos
}


/// Entry `i` of tree `u` of the plan is the subdirectory whose tree is `t`.
pub open spec fn names_tree(plan: Seq<Seq<TreeEntrySpec>>, u: int, i: int, t: int) -> bool {
    0 <= u < plan.len() && 0 <= i < plan[u].len() && plan[u][i].target == TargetSpec::Subtree(t)
}

/// Tree `t` is the tree of a subdirectory of a tree of the plan from
/// `start` on.
pub open spec fn named_from(plan: Seq<Seq<TreeEntrySpec>>, start: int, t: int) -> bool {
    exists|u: int, i: int| start <= u && #[trigger] names_tree(plan, u, i, t)
}

/// The trees of the plan from `start` on have their subdirectories among
/// themselves, and no two entries of them have the same tree.
pub open spec fn linked_from(plan: Seq<Seq<TreeEntrySpec>>, start: int) -> bool {
    &&& forall|u: int, i: int, t: int|
        start <= u && #[trigger] names_tree(plan, u, i, t) ==> start <= t < u
    &&& forall|t: int, u1: int, i1: int, u2: int, i2: int|
        start <= u1 && start <= u2 && #[trigger] names_tree(plan, u1, i1, t)
            && #[trigger] names_tree(plan, u2, i2, t) ==> u1 == u2 && i1 == i2
}

/// The plan is one tree of trees: every tree but the last is the tree of
/// exactly one subdirectory, which stands in a later tree, and none of them
/// is empty.
pub open spec fn plan_is_tree(plan: Seq<Seq<TreeEntrySpec>>) -> bool {
    &&& linked_from(plan, 0)
    &&& forall|t: int| 0 <= t < plan.len() - 1 ==> #[trigger] named_from(plan, 0, t)
    &&& forall|t: int| 0 <= t < plan.len() - 1 ==> (#[trigger] plan[t]).len() > 0
}

/// Entry `x` of the tree that is being built is the subdirectory whose tree
/// is `t`.
spec fn level_names(level: Seq<TreeEntrySpec>, x: int, t: int) -> bool {
    0 <= x < level.len() && level[x].target == TargetSpec::Subtree(t)
}

/// The tree that is being built fits the plan so far: its subdirectories are
/// trees from `start` on that no other entry has, and with them every tree
/// from `start` on has an entry.
spec fn level_linked(plan: Seq<Seq<TreeEntrySpec>>, start: int, level: Seq<TreeEntrySpec>) -> bool {
    &&& forall|x: int, t: int| #[trigger] level_names(level, x, t) ==> start <= t < plan.len()
    &&& forall|x1: int, x2: int, t: int|
        #[trigger] level_names(level, x1, t) && #[trigger] level_names(level, x2, t) ==> x1 == x2
    &&& forall|u: int, i: int, x: int, t: int|
        start <= u && #[trigger] names_tree(plan, u, i, t) && #[trigger] level_names(level, x, t)
            ==> false
    &&& forall|t: int|
        start <= t < plan.len() ==> #[trigger] named_from(plan, start, t) || exists|x: int|
            #[trigger] level_names(level, x, t)
    &&& forall|t: int| start <= t < plan.len() ==> (#[trigger] plan[t]).len() > 0
}

proof fn lemma_names_extend(
    earlier: Seq<Seq<TreeEntrySpec>>,
    later: Seq<Seq<TreeEntrySpec>>,
    u: int,
    i: int,
    t: int,
)
    requires
        plan_extends(earlier, later),
        0 <= u < earlier.len(),
    ensures
        names_tree(earlier, u, i, t) == names_tree(later, u, i, t),
{
    assert(earlier[u] == later[u]);
}

/// A file put into the tree that is being built changes nothing about its
/// subdirectories.
proof fn lemma_link_file(
    plan: Seq<Seq<TreeEntrySpec>>,
    start: int,
    level: Seq<TreeEntrySpec>,
    pos: int,
    entry: TreeEntrySpec,
)
    requires
        level_linked(plan, start, level),
        0 <= pos <= level.len(),
        !is_subtree(entry),
    ensures
        level_linked(plan, start, level.insert(pos, entry)),
{
    let grown = level.insert(pos, entry);
    let back = |x: int| if x < pos { x } else { x - 1 };
    let forth = |x: int| if x < pos { x } else { x + 1 };
    assert forall|x: int, t: int| #[trigger] level_names(grown, x, t) implies level_names(
        level,
        back(x),
        t,
    ) by {
        if x < pos {
            assert(grown[x] == level[x]);
        } else if x > pos {
            assert(grown[x] == level[x - 1]);
        }
    }
    assert forall|x: int, t: int| #[trigger] level_names(level, x, t) implies level_names(
        grown,
        forth(x),
        t,
    ) by {
        if x < pos {
            assert(grown[x] == level[x]);
        } else {
            assert(grown[x + 1] == level[x]);
        }
    }
    assert forall|x1: int, x2: int, t: int|
        #[trigger] level_names(grown, x1, t) && #[trigger] level_names(
            grown,
            x2,
            t,
        ) implies x1 == x2 by {
        assert(level_names(level, back(x1), t));
        assert(level_names(level, back(x2), t));
    }
    assert forall|x: int, t: int| #[trigger] level_names(grown, x, t) implies start <= t
        < plan.len() by {
        assert(level_names(level, back(x), t));
    }
    assert forall|u: int, i: int, x: int, t: int|
        start <= u && #[trigger] names_tree(plan, u, i, t) && #[trigger] level_names(
            grown,
            x,
            t,
        ) implies false by {
        assert(level_names(level, back(x), t));
    }
    assert forall|t: int| start <= t < plan.len() implies #[trigger] named_from(plan, start, t)
        || exists|x: int| #[trigger] level_names(grown, x, t) by {
        if !named_from(plan, start, t) {
            let x = choose|x: int| #[trigger] level_names(level, x, t);
            assert(level_names(grown, forth(x), t));
        }
    }
}

/// A subdirectory put into the tree that is being built, after its tree and
/// the trees below it were put at the end of the plan, keeps everything
/// linked.
proof fn lemma_link_directory(
    before: Seq<Seq<TreeEntrySpec>>,
    after: Seq<Seq<TreeEntrySpec>>,
    start: int,
    level: Seq<TreeEntrySpec>,
    pos: int,
    entry: TreeEntrySpec,
)
    requires
        0 <= start <= before.len(),
        plan_extends(before, after),
        before.len() < after.len(),
        linked_from(before, start),
        level_linked(before, start, level),
        linked_from(after, before.len() as int),
        forall|t: int| before.len() <= t < after.len() - 1 ==> #[trigger] named_from(
            after,
            before.len() as int,
            t,
        ),
        forall|t: int| before.len() <= t < after.len() ==> (#[trigger] after[t]).len() > 0,
        0 <= pos <= level.len(),
        entry.target == TargetSpec::Subtree(after.len() - 1),
    ensures
        linked_from(after, start),
        level_linked(after, start, level.insert(pos, entry)),
{
    let mid = before.len() as int;
    let sub = after.len() - 1;
    let grown = level.insert(pos, entry);
    let back = |x: int| if x < pos { x } else { x - 1 };
    let forth = |x: int| if x < pos { x } else { x + 1 };
    assert forall|u: int, i: int, t: int| start <= u && #[trigger] names_tree(after, u, i, t)
        && u < mid implies names_tree(before, u, i, t) by {
        lemma_names_extend(before, after, u, i, t);
    }
    assert forall|u: int, i: int, t: int| start <= u && #[trigger] names_tree(
        after,
        u,
        i,
        t,
    ) implies start <= t < u by {
        if u < mid {
            assert(names_tree(before, u, i, t));
        }
    }
    assert forall|t: int, u1: int, i1: int, u2: int, i2: int|
        start <= u1 && start <= u2 && #[trigger] names_tree(after, u1, i1, t)
            && #[trigger] names_tree(after, u2, i2, t) implies u1 == u2 && i1 == i2 by {
        if u1 < mid {
            assert(names_tree(before, u1, i1, t));
        }
        if u2 < mid {
            assert(names_tree(before, u2, i2, t));
        }
    }
    assert forall|x: int, t: int| #[trigger] level_names(grown, x, t) && x != pos implies level_names(
        level,
        back(x),
        t,
    ) by {
        if x < pos {
            assert(grown[x] == level[x]);
        } else if x > pos {
            assert(grown[x] == level[x - 1]);
        }
    }
    assert forall|x: int, t: int| #[trigger] level_names(level, x, t) implies level_names(
        grown,
        forth(x),
        t,
    ) by {
        if x < pos {
            assert(grown[x] == level[x]);
        } else {
            assert(grown[x + 1] == level[x]);
        }
    }
    assert(grown[pos] == entry);
    assert(level_names(grown, pos, sub));
    assert forall|x: int, t: int| #[trigger] level_names(grown, x, t) implies start <= t
        < after.len() by {
        if x != pos {
            assert(level_names(level, back(x), t));
        }
    }
    assert forall|x1: int, x2: int, t: int|
        #[trigger] level_names(grown, x1, t) && #[trigger] level_names(
            grown,
            x2,
            t,
        ) implies x1 == x2 by {
        if x1 != pos {
            assert(level_names(level, back(x1), t));
        }
        if x2 != pos {
            assert(level_names(level, back(x2), t));
        }
    }
    assert forall|u: int, i: int, x: int, t: int|
        start <= u && #[trigger] names_tree(after, u, i, t) && #[trigger] level_names(
            grown,
            x,
            t,
        ) implies false by {
        if x != pos {
            assert(level_names(level, back(x), t));
            if u < mid {
                assert(names_tree(before, u, i, t));
            }
        }
    }
    assert forall|t: int| start <= t < after.len() implies #[trigger] named_from(after, start, t)
        || exists|x: int| #[trigger] level_names(grown, x, t) by {
        if t == sub {
            assert(level_names(grown, pos, t));
        } else if t >= mid {
            assert(named_from(after, mid, t));
            let (u, i) = choose|u: int, i: int| mid <= u && #[trigger] names_tree(after, u, i, t);
            assert(start <= u && names_tree(after, u, i, t));
        } else if named_from(before, start, t) {
            let (u, i) = choose|u: int, i: int|
                start <= u && #[trigger] names_tree(before, u, i, t);
            lemma_names_extend(before, after, u, i, t);
            assert(start <= u && names_tree(after, u, i, t));
        } else {
            let x = choose|x: int| #[trigger] level_names(level, x, t);
            assert(level_names(grown, forth(x), t));
        }
    }
    assert forall|t: int| start <= t < after.len() implies (#[trigger] after[t]).len() > 0 by {
        if t < mid {
            assert(before[t] == after[t]);
        }
    }
}

/// The tree that was being built, put at the end of the plan, links the
/// trees from `start` on: each of them but the new one is the tree of
/// exactly one subdirectory.
proof fn lemma_link_finish(plan: Seq<Seq<TreeEntrySpec>>, start: int, level: Seq<TreeEntrySpec>)
    requires
        0 <= start <= plan.len(),
        linked_from(plan, start),
        level_linked(plan, start, level),
    ensures
        linked_from(plan.push(level), start),
        forall|t: int| start <= t < plan.len() ==> #[trigger] named_from(plan.push(level), start, t),
        forall|t: int| start <= t < plan.len() ==> (#[trigger] plan.push(level)[t]).len() > 0,
{
    let done = plan.push(level);
    let last = plan.len() as int;
    assert(plan_extends(plan, done));
    assert forall|u: int, i: int, t: int| #[trigger] names_tree(done, u, i, t) implies if u
        < last {
        names_tree(plan, u, i, t)
    } else {
        level_names(level, i, t)
    } by {
        if u < last {
            lemma_names_extend(plan, done, u, i, t);
        }
    }
    assert forall|u: int, i: int, t: int| start <= u && #[trigger] names_tree(
        done,
        u,
        i,
        t,
    ) implies start <= t < u by {
        if u < last {
            assert(names_tree(plan, u, i, t));
        } else {
            assert(level_names(level, i, t));
        }
    }
    assert forall|t: int, u1: int, i1: int, u2: int, i2: int|
        start <= u1 && start <= u2 && #[trigger] names_tree(done, u1, i1, t)
            && #[trigger] names_tree(done, u2, i2, t) implies u1 == u2 && i1 == i2 by {
        if u1 < last {
            assert(names_tree(plan, u1, i1, t));
        } else {
            assert(level_names(level, i1, t));
        }
        if u2 < last {
            assert(names_tree(plan, u2, i2, t));
        } else {
            assert(level_names(level, i2, t));
        }
    }
    assert forall|t: int| start <= t < plan.len() implies #[trigger] named_from(
        done,
        start,
        t,
    ) by {
        if named_from(plan, start, t) {
            let (u, i) = choose|u: int, i: int| start <= u && #[trigger] names_tree(plan, u, i, t);
            lemma_names_extend(plan, done, u, i, t);
            assert(start <= u && names_tree(done, u, i, t));
        } else {
            let x = choose|x: int| #[trigger] level_names(level, x, t);
            assert(done[last] == level);
            assert(start <= last && names_tree(done, last, x, t));
        }
    }
    assert forall|t: int| start <= t < plan.len() implies (#[trigger] done[t]).len() > 0 by {
        assert(done[t] == plan[t]);
    }
}

/// Errors of the tree builder.
#[derive(Clone, Copy, Debug, PartialEq, Eq, Structural)]
pub enum TreeBuildError {
    /// A path of the index has an empty segment.
    InvalidPathSegment,
}

impl TreeBuildError {
    /// The message of this error.
    pub fn to_string(&self) -> (message: String)
        ensures
            message@ == "Invalid path segment in index entry"@,
    {
        "Invalid path segment in index entry".to_owned()
    }
}

/// The entry lies below the directory `prefix`.
pub open spec fn in_directory(entry: EntrySpec, prefix: Seq<u8>) -> bool {
    entry.path.len() > prefix.len() && starts_with(entry.path, prefix)
}

/// A file of the tree at `prefix` is there for an index entry before `cur`.
spec fn leaf_origin(
    all: Seq<EntrySpec>,
    lo: int,
    cur: int,
    prefix: Seq<u8>,
    entry: TreeEntrySpec,
) -> bool {
    exists|i: int| lo <= i < cur && (#[trigger] all[i]).path == prefix + entry.filename
}

/// No index entry from `cur` on lies below the subdirectory `entry` of the
/// tree at `prefix`.
spec fn group_closed(
    all: Seq<EntrySpec>,
    cur: int,
    hi: int,
    prefix: Seq<u8>,
    entry: TreeEntrySpec,
) -> bool {
    forall|k: int|
        cur <= k < hi ==> !starts_with(
            (#[trigger] all[k]).path,
            prefix + entry.filename + seq![SLASH],
        )
}

spec fn entry_settled(
    all: Seq<EntrySpec>,
    lo: int,
    cur: int,
    hi: int,
    prefix: Seq<u8>,
    entry: TreeEntrySpec,
) -> bool {
    if is_subtree(entry) {
        group_closed(all, cur, hi, prefix, entry)
    } else {
        leaf_origin(all, lo, cur, prefix, entry)
    }
}

proof fn lemma_settled_later(
    all: Seq<EntrySpec>,
    lo: int,
    cur: int,
    next: int,
    hi: int,
    prefix: Seq<u8>,
    entry: TreeEntrySpec,
)
    requires
        cur <= next,
        entry_settled(all, lo, cur, hi, prefix, entry),
    ensures
        entry_settled(all, lo, next, hi, prefix, entry),
{
    if !is_subtree(entry) {
        let i = choose|i: int| lo <= i < cur && (#[trigger] all[i]).path == prefix + entry.filename;
        assert(lo <= i < next && all[i].path == prefix + entry.filename);
    }
}

/// Whether `path` agrees with `first` from `skip` up to `next_skip`.
fn in_group(path: &[u8], first: &[u8], skip: usize, next_skip: usize) -> (same: bool)
    requires
        skip <= next_skip <= first.len(),
    ensures
        same == (path@.len() >= next_skip && path@.subrange(skip as int, next_skip as int)
            == first@.subrange(skip as int, next_skip as int)),
{
    path.len() >= next_skip && same_range(path, first, skip, next_skip)
}

/// Builds the tree of the directory `prefix` from the index entries `lo` up
/// to `hi`, which are the entries below that directory, and the trees of its
/// subdirectories before it. Returns the place of the tree in the plan.
#[verifier::loop_isolation(false)]
fn build_level(
    entries: &Vec<IndexEntry>,
    lo: usize,
    hi: usize,
    skip: usize,
    plan: &mut Vec<TreeObject>,
    Ghost(prefix): Ghost<Seq<u8>>,
) -> (t: usize)
    requires
        lo <= hi <= entries@.len(),
        strictly_sorted(entries_view(entries@)),
        all_paths_valid(entries_view(entries@)),
        prefix.len() == skip,
        skip > 0 ==> prefix[skip - 1] == SLASH,
        forall|k: int| lo <= k < hi ==> in_directory(#[trigger] entries_view(entries@)[k], prefix),
        plan_wf(objects_view(old(plan)@)),
    ensures
        plan_extends(objects_view(old(plan)@), objects_view(final(plan)@)),
        final(plan)@.len() == t + 1,
        t >= old(plan)@.len(),
        plan_wf(objects_view(final(plan)@)),
        leaves_of_object(objects_view(final(plan)@), t as int, prefix).to_multiset()
            == index_leaves(entries_view(entries@)).subrange(lo as int, hi as int).to_multiset(),
        lo < hi ==> objects_view(final(plan)@)[t as int].len() > 0,
        linked_from(objects_view(final(plan)@), old(plan)@.len() as int),
        forall|u: int|
            old(plan)@.len() <= u < t ==> #[trigger] named_from(
                objects_view(final(plan)@),
                old(plan)@.len() as int,
                u,
            ),
        forall|u: int| old(plan)@.len() <= u < t ==> (#[trigger] objects_view(final(plan)@)[u]).len() > 0,
    decreases usize::MAX - skip,
{
    let ghost all = entries_view(entries@);
    let ghost leaves = index_leaves(all);
    let ghost start = objects_view(plan@);
    let mut level: Vec<TreeEntry> = Vec::new();
    let mut cur: usize = lo;
    proof {
        assert(leaves.subrange(lo as int, lo as int) =~= Seq::<Leaf>::empty());
        assert(level_view(level@) =~= Seq::<TreeEntrySpec>::empty());
    }
    while cur < hi
        invariant
            lo <= cur <= hi,
            plan_extends(start, objects_view(plan@)),
            plan_wf(objects_view(plan@)),
            level_wf(level_view(level@), plan@.len() as int),
            leaves_of_entries(
                objects_view(plan@),
                level_view(level@),
                plan@.len() as int,
                prefix,
            ).to_multiset() == leaves.subrange(lo as int, cur as int).to_multiset(),
            forall|x: int|
                0 <= x < level@.len() ==> entry_settled(
                    all,
                    lo as int,
                    cur as int,
                    hi as int,
                    prefix,
                    #[trigger] level_view(level@)[x],
                ),
            cur > lo ==> level@.len() > 0,
            linked_from(objects_view(plan@), start.len() as int),
            level_linked(objects_view(plan@), start.len() as int, level_view(level@)),
        decreases hi - cur,
    {
        let ghost plan_before = objects_view(plan@);
        let ghost level_before = level_view(level@);
        let path = entries[cur].path.as_slice();
        proof {
            assert(all[cur as int] == entries@[cur as int]@);
            assert(in_directory(all[cur as int], prefix));
            assert(valid_path(all[cur as int].path));
            assert(path@.take(skip as int) == prefix);
            if skip > 0 {
                assert(path@[skip - 1] == path@.take(skip as int)[skip - 1]);
            }
            assert(path@[skip as int] != SLASH);
        }
        let q = find_slash(path, skip);
        let name = copy_range(path, skip, q);
        proof {
            assert(q > skip);
            assert forall|i: int| 0 <= i < name@.len() implies #[trigger] name@[i] != SLASH by {
                assert(name@[i] == path@[skip + i]);
            }
            assert(valid_name(name@));
        }
        let next: usize;
        let entry: TreeEntry;
        if q == path.len() {
            let kind = convert_mode_to_tree_mode(entries[cur].mode);
            entry = TreeEntry { filename: name, kind, target: Target::Object(entries[cur].id.copy()) };
            next = cur + 1;
            proof {
                assert(prefix + name@ =~= path@);
                assert(leaves_of_entry(objects_view(plan@), entry@, plan@.len() as int, prefix)
                    =~= leaves.subrange(cur as int, next as int));
                assert(leaf_origin(all, lo as int, next as int, prefix, entry@));
                assert forall|i: int| 0 <= i < level@.len() implies !((#[trigger] level@[i])@.filename
                    == entry@.filename && is_subtree(level@[i]@) == is_subtree(entry@)) by {
                    let other = level_before[i];
                    assert(other == level@[i]@);
                    if other.filename == entry@.filename && !is_subtree(other) {
                        assert(entry_settled(all, lo as int, cur as int, hi as int, prefix, other));
                        let o = choose|o: int|
                            lo <= o < cur && (#[trigger] all[o]).path == prefix + other.filename;
                        assert(bytes_less(all[o].path, all[cur as int].path));
                        lemma_bytes_less_asymmetric(all[o].path, all[cur as int].path);
                    }
                }
            }
        } else {
            let next_skip = q + 1;
            let ghost inner = path@.take(next_skip as int);
            proof {
                assert(path@[path@.len() - 1] != SLASH);
                assert(next_skip < path@.len());
                assert(inner =~= prefix + name@ + seq![SLASH]);
            }
            let mut j: usize = cur + 1;
            while j < hi && in_group(entries[j].path.as_slice(), path, skip, next_skip)
                invariant
                    cur < j <= hi,
                    forall|k: int| cur <= k < j ==> in_directory(#[trigger] all[k], inner),
                decreases hi - j,
            {
                proof {
                    let other = all[j as int];
                    assert(other == entries@[j as int]@);
                    assert(in_directory(other, prefix));
                    assert(valid_path(other.path));
                    assert(other.path.take(next_skip as int) =~= other.path.take(skip as int)
                        + other.path.subrange(skip as int, next_skip as int));
                    assert(inner =~= path@.take(skip as int) + path@.subrange(
                        skip as int,
                        next_skip as int,
                    ));
                    assert(other.path[q as int] == other.path.take(next_skip as int)[q as int]);
                    assert(other.path[other.path.len() - 1] != SLASH);
                }
                j += 1;
            }
            proof {
                if j < hi {
                    let other = all[j as int];
                    assert(other == entries@[j as int]@);
                    if starts_with(other.path, inner) {
                        assert(other.path.subrange(skip as int, next_skip as int)
                            =~= other.path.take(next_skip as int).subrange(
                            skip as int,
                            next_skip as int,
                        ));
                        assert(path@.subrange(skip as int, next_skip as int) =~= inner.subrange(
                            skip as int,
                            next_skip as int,
                        ));
                        assert(false);
                    }
                }
                assert forall|k: int| j <= k < hi implies !starts_with(
                    (#[trigger] all[k]).path,
                    inner,
                ) by {
                    if k > j && starts_with(all[k].path, inner) {
                        assert(bytes_less(all[cur as int].path, all[j as int].path));
                        assert(bytes_less(all[j as int].path, all[k].path));
                        lemma_between_prefix(
                            all[cur as int].path,
                            all[j as int].path,
                            all[k].path,
                            inner,
                        );
                    }
                }
            }
            let sub = build_level(entries, cur, j, next_skip, plan, Ghost(inner));
            entry = TreeEntry { filename: name, kind: EntryKind::Tree, target: Target::Subtree(sub) };
            next = j;
            proof {
                let now = objects_view(plan@);
                assert(leaves_of_entry(now, entry@, plan@.len() as int, prefix) == leaves_of_object(
                    now,
                    sub as int,
                    inner,
                ));
                assert(group_closed(all, next as int, hi as int, prefix, entry@));
                assert forall|i: int| 0 <= i < level@.len() implies !((#[trigger] level@[i])@.filename
                    == entry@.filename && is_subtree(level@[i]@) == is_subtree(entry@)) by {
                    let other = level_before[i];
                    assert(other == level@[i]@);
                    if other.filename == entry@.filename && is_subtree(other) {
                        assert(entry_settled(all, lo as int, cur as int, hi as int, prefix, other));
                        assert(in_directory(all[cur as int], inner));
                    }
                }
            }
        }
        proof {
            let now = objects_view(plan@);
            assert(plan_extends(plan_before, now));
            assert forall|x: int| 0 <= x < level_before.len() implies entry_wf(
                #[trigger] level_before[x],
                plan_before.len() as int,
            ) by {}
            lemma_frame_entries(
                plan_before,
                now,
                level_before,
                plan_before.len() as int,
                now.len() as int,
                prefix,
            );
            assert(plan_extends(start, now));
        }
        let ghost new_entry = entry@;
        let pos = insert_entry(&mut level, entry);
        proof {
            let now = objects_view(plan@);
            let grown = level_view(level@);
            assert(grown =~= level_before.insert(pos as int, new_entry));
            if is_subtree(new_entry) {
                lemma_link_directory(
                    plan_before,
                    now,
                    start.len() as int,
                    level_before,
                    pos as int,
                    new_entry,
                );
            } else {
                assert(now == plan_before);
                lemma_link_file(now, start.len() as int, level_before, pos as int, new_entry);
            }
            lemma_leaves_insert(now, level_before, pos as int, new_entry, now.len() as int, prefix);
            assert(leaves.subrange(lo as int, next as int) =~= leaves.subrange(
                lo as int,
                cur as int,
            ) + leaves.subrange(cur as int, next as int));
            lemma_multiset_commutative(
                leaves.subrange(lo as int, cur as int),
                leaves.subrange(cur as int, next as int),
            );
            assert forall|x: int| 0 <= x < grown.len() implies entry_wf(
                #[trigger] grown[x],
                now.len() as int,
            ) by {
                if x < pos {
                    assert(grown[x] == level_before[x]);
                } else if x > pos {
                    assert(grown[x] == level_before[x - 1]);
                }
            }
            assert forall|x: int| 0 <= x < grown.len() implies entry_settled(
                all,
                lo as int,
                next as int,
                hi as int,
                prefix,
                #[trigger] grown[x],
            ) by {
                if x < pos {
                    assert(grown[x] == level_before[x]);
                    lemma_settled_later(
                        all,
                        lo as int,
                        cur as int,
                        next as int,
                        hi as int,
                        prefix,
                        level_before[x],
                    );
                } else if x > pos {
                    assert(grown[x] == level_before[x - 1]);
                    lemma_settled_later(
                        all,
                        lo as int,
                        cur as int,
                        next as int,
                        hi as int,
                        prefix,
                        level_before[x - 1],
                    );
                }
            }
        }
        cur = next;
    }
    let ghost before_push = objects_view(plan@);
    let ghost final_level = level_view(level@);
    plan.push(TreeObject { entries: level });
    let t = plan.len() - 1;
    proof {
        let now = objects_view(plan@);
        assert(now =~= before_push.push(final_level));
        assert(plan_extends(before_push, now));
        assert(plan_extends(start, now));
        assert forall|u: int| 0 <= u < now.len() implies level_wf(#[trigger] now[u], u) by {
            if u < before_push.len() {
                assert(now[u] == before_push[u]);
            }
        }
        lemma_frame_entries(before_push, now, final_level, t as int, t as int, prefix);
        lemma_link_finish(before_push, start.len() as int, final_level);
    }
    t
}

/// Builds the trees of the commit that holds the files of the index: one tree
/// for each directory, the trees of subdirectories before the tree that names
/// them, the root last.
///
/// Every tree is sorted by name, every tree but the root is the tree of
/// exactly one subdirectory and is not empty, and reading the files back
/// through the root, as `read_tree` does, gives the files of the index, each
/// once. An index with a path that has an empty segment is refused.
pub fn build_tree_from_index(index_state: &IndexState) -> (result: Result<TreePlan, TreeBuildError>)
    ensures
        all_paths_valid(index_state@) ==> result is Ok && result->Ok_0@.len() > 0 && plan_wf(
            result->Ok_0@,
        ) && plan_is_tree(result->Ok_0@) && plan_leaves(result->Ok_0@).to_multiset()
            == index_leaves(index_state@).to_multiset(),
        result is Ok ==> forall|t: int|
            0 <= t < result->Ok_0@.len() ==> sorted_by_name(#[trigger] result->Ok_0@[t]),
        !all_paths_valid(index_state@) ==> result == Err::<TreePlan, TreeBuildError>(
            TreeBuildError::InvalidPathSegment,
        ),
{
    let entries = index_state.entries();
    let ghost all = entries_view(entries@);
    let mut k: usize = 0;
    while k < entries.len()
        invariant
            k <= entries.len(),
            all == entries_view(entries@),
            all == index_state@,
            forall|i: int| 0 <= i < k ==> valid_path((#[trigger] all[i]).path),
        decreases entries.len() - k,
    {
        if !check_path(entries[k].path.as_slice()) {
            proof {
                assert(all[k as int] == entries@[k as int]@);
                assert(!valid_path(all[k as int].path));
            }
            return Err(TreeBuildError::InvalidPathSegment);
        }
        proof {
            assert(all[k as int] == entries@[k as int]@);
        }
        k += 1;
    }
    let mut objects: Vec<TreeObject> = Vec::new();
    proof {
        assert forall|i: int| 0 <= i < entries@.len() implies in_directory(
            #[trigger] all[i],
            Seq::<u8>::empty(),
        ) by {
            assert(valid_path(all[i].path));
            assert(all[i].path.take(0) =~= Seq::<u8>::empty());
        }
    }
    let root = build_level(entries, 0, entries.len(), 0, &mut objects, Ghost(Seq::empty()));
    proof {
        assert(index_leaves(all).subrange(0, entries@.len() as int) =~= index_leaves(all));
        let plan = objects_view(objects@);
        assert forall|t: int| 0 <= t < plan.len() implies sorted_by_name(#[trigger] plan[t]) by {
            assert(level_wf(plan[t], t));
            lemma_level_sorted_by_name(plan[t]);
        }
    }
    Ok(TreePlan { objects })
}


/// A file as it is read back from the trees of a commit.
#[derive(Clone, Debug, PartialEq, Eq)]
pub struct FileEntry {
    /// The full path of the file.
    pub path: Vec<u8>,
    /// What the file is.
    pub kind: EntryKind,
    /// The identity of its content.
    pub id: ObjectId,
}

impl View for FileEntry {
    type V = Leaf;

    open spec fn view(&self) -> Leaf {
        Leaf { path: self.path@, kind: self.kind, id: self.id@ }
    }
}

/// The views of a list of files, in order.
pub open spec fn files_view(files: Seq<FileEntry>) -> Seq<Leaf> {
    files.map_values(|f: FileEntry| f@)
}

/// The path of an entry named `name` in the directory `prefix`.
fn join(prefix: &Vec<u8>, name: &Vec<u8>) -> (path: Vec<u8>)
    ensures
        path@ == prefix@ + name@,
{
    let mut path: Vec<u8> = Vec::new();
    let mut i: usize = 0;
    while i < prefix.len()
        invariant
            i <= prefix.len(),
            path@ == prefix@.take(i as int),
        decreases prefix.len() - i,
    {
        path.push(prefix[i]);
        proof {
            assert(prefix@.take(i + 1) == prefix@.take(i as int).push(prefix@[i as int]));
        }
        i += 1;
    }
    proof {
        assert(prefix@.take(i as int) == prefix@);
    }
    let mut j: usize = 0;
    while j < name.len()
        invariant
            j <= name.len(),
            path@ == prefix@ + name@.take(j as int),
        decreases name.len() - j,
    {
        path.push(name[j]);
        proof {
            assert(name@.take(j + 1) == name@.take(j as int).push(name@[j as int]));
            assert(prefix@ + name@.take(j + 1) == (prefix@ + name@.take(j as int)).push(
                name@[j as int],
            ));
        }
        j += 1;
    }
    proof {
        assert(name@.take(j as int) == name@);
    }
    path
}

/// Reads the files under the tree at place `index` of the plan, with
/// `prefix` as the path of that tree, and puts them behind `files`.
fn read_object(objects: &Vec<TreeObject>, index: usize, prefix: &Vec<u8>, files: &mut Vec<FileEntry>)
    requires
        index < objects@.len(),
    ensures
        files_view(final(files)@) == files_view(old(files)@) + leaves_of_object(
            objects_view(objects@),
            index as int,
            prefix@,
        ),
    decreases index,
{
    let ghost plan = objects_view(objects@);
    let ghost before = files_view(files@);
    let entries = &objects[index].entries;
    let ghost level = level_view(entries@);
    proof {
        assert(plan[index as int] == level);
        assert(level.take(0) =~= Seq::<TreeEntrySpec>::empty());
        assert(before + Seq::<Leaf>::empty() =~= before);
    }
    let mut i: usize = 0;
    while i < entries.len()
        invariant
            i <= entries.len(),
            index < objects@.len(),
            plan == objects_view(objects@),
            level == level_view(entries@),
            files_view(files@) == before + leaves_of_entries(
                plan,
                level.take(i as int),
                index as int,
                prefix@,
            ),
        decreases entries.len() - i,
    {
        let entry = &entries[i];
        let ghost so_far = files_view(files@);
        proof {
            assert(level.take(i + 1).drop_last() == level.take(i as int));
            assert(level.take(i + 1).last() == entry@);
        }
        match &entry.target {
            Target::Object(id) => {
                let file = FileEntry {
                    path: join(prefix, &entry.filename),
                    kind: entry.kind,
                    id: id.copy(),
                };
                proof {
                    assert(leaves_of_entry(plan, entry@, index as int, prefix@) =~= seq![file@]);
                }
                files.push(file);
                proof {
                    assert(files_view(files@) =~= so_far + seq![file@]);
                }
            },
            Target::Subtree(k) => {
                if *k < index {
                    let mut below = join(prefix, &entry.filename);
                    below.push(SLASH);
                    proof {
                        assert(below@ =~= prefix@ + entry@.filename + seq![SLASH]);
                    }
                    read_object(objects, *k, &below, files);
                } else {
                    proof {
                        assert(so_far + Seq::<Leaf>::empty() =~= so_far);
                    }
                }
            },
        }
        proof {
            let one = leaves_of_entry(plan, entry@, index as int, prefix@);
            assert(files_view(files@) == so_far + one);
            assert(before + (leaves_of_entries(
                plan,
                level.take(i as int),
                index as int,
                prefix@,
            ) + one) =~= so_far + one);
        }
        i += 1;
    }
    proof {
        assert(level.take(i as int) == level);
    }
}

/// Reads the files of a plan back: the files under its root, each with its
/// full path, in the order of the trees.
pub fn read_tree(plan: &TreePlan) -> (files: Vec<FileEntry>)
    ensures
        files_view(files@) == plan_leaves(plan@),
{
    let mut files: Vec<FileEntry> = Vec::new();
    proof {
        assert(files_view(files@) =~= Seq::<Leaf>::empty());
    }
    if plan.objects.len() > 0 {
        let prefix: Vec<u8> = Vec::new();
        read_object(&plan.objects, plan.objects.len() - 1, &prefix, &mut files);
        proof {
            assert(Seq::<Leaf>::empty() + plan_leaves(plan@) =~= plan_leaves(plan@));
        }
    }
    files
}

} // verus!
