//! The staging index: a list of entries, one per path, kept in strictly
//! increasing byte order of the paths.

use vstd::prelude::*;
use vstd::utf8::valid_utf8;

use crate::paths::{
    bytes_less, compare_paths, copy_bytes, is_utf8, lemma_bytes_less_asymmetric,
    lemma_bytes_less_irreflexive, lemma_bytes_less_total, lemma_bytes_less_transitive, PathOrder,
};

verus! {

/// Mode bits of a directory.
pub const MODE_DIR: u32 = 0o040000;

/// Mode bits of a regular file.
pub const MODE_FILE: u32 = 0o100644;

/// Mode bits of an executable file.
pub const MODE_FILE_EXECUTABLE: u32 = 0o100755;

/// Mode bits of a symbolic link.
pub const MODE_SYMLINK: u32 = 0o120000;

/// Mode bits of a link to a commit of another repository.
pub const MODE_COMMIT: u32 = 0o160000;

/// The identity of an object: the hash of its content.
#[derive(Clone, Debug, PartialEq, Eq)]
pub struct ObjectId {
    pub bytes: Vec<u8>,
}

impl View for ObjectId {
    type V = Seq<u8>;

    open spec fn view(&self) -> Seq<u8> {
        self.bytes@
    }
}

impl ObjectId {
    /// A copy of this identity.
    pub fn copy(&self) -> (id: ObjectId)
        ensures
            id@ == self@,
    {
        ObjectId { bytes: copy_bytes(self.bytes.as_slice()) }
    }
}

/// What the file system said of a file when it was staged. It only serves to
/// notice later that the file has changed.
#[derive(Clone, Copy, Debug, PartialEq, Eq, Structural)]
pub struct Stat {
    pub mtime_secs: u32,
    pub mtime_nsecs: u32,
    pub ctime_secs: u32,
    pub ctime_nsecs: u32,
    pub dev: u32,
    pub ino: u32,
    pub uid: u32,
    pub gid: u32,
    pub size: u32,
}

/// The placeholder for a file of which nothing is recorded.
pub open spec fn empty_stat() -> Stat {
    Stat {
        mtime_secs: 0,
        mtime_nsecs: 0,
        ctime_secs: 0,
        ctime_nsecs: 0,
        dev: 0,
        ino: 0,
        uid: 0,
        gid: 0,
        size: 0,
    }
}

impl Default for Stat {
    fn default() -> (stat: Stat)
        ensures
            stat == empty_stat(),
    {
        Stat {
            mtime_secs: 0,
            mtime_nsecs: 0,
            ctime_secs: 0,
            ctime_nsecs: 0,
            dev: 0,
            ino: 0,
            uid: 0,
            gid: 0,
            size: 0,
        }
    }
}

/// One staged file.
#[derive(Clone, Debug, PartialEq, Eq)]
pub struct IndexEntry {
    pub path: Vec<u8>,
    pub id: ObjectId,
    pub mode: u32,
    pub stat: Stat,
    pub flags: u32,
}

/// An `IndexEntry` as contracts see it.
pub struct EntrySpec {
    pub path: Seq<u8>,
    pub id: Seq<u8>,
    pub mode: u32,
    pub stat: Stat,
    pub flags: u32,
}

impl View for IndexEntry {
    type V = EntrySpec;

    open spec fn view(&self) -> EntrySpec {
        EntrySpec {
            path: self.path@,
            id: self.id@,
            mode: self.mode,
            stat: self.stat,
            flags: self.flags,
        }
    }
}

impl IndexEntry {
    /// A copy of this entry.
    pub fn copy(&self) -> (entry: IndexEntry)
        ensures
            entry@ == self@,
    {
        IndexEntry {
            path: copy_bytes(self.path.as_slice()),
            id: self.id.copy(),
            mode: self.mode,
            stat: self.stat,
            flags: self.flags,
        }
    }
}

/// The views of a list of entries, in order.
pub open spec fn entries_view(entries: Seq<IndexEntry>) -> Seq<EntrySpec> {
    entries.map_values(|e: IndexEntry| e@)
}

/// Each entry's path comes before the path of every later entry.
pub open spec fn strictly_sorted(entries: Seq<EntrySpec>) -> bool {
    forall|i: int, j: int|
        #![trigger entries[i], entries[j]]
        0 <= i < j < entries.len() ==> bytes_less(entries[i].path, entries[j].path)
}

/// No two entries have the same path.
pub open spec fn distinct_paths(entries: Seq<EntrySpec>) -> bool {
    forall|i: int, j: int|
        #![trigger entries[i], entries[j]]
        0 <= i < entries.len() && 0 <= j < entries.len() && i != j ==> entries[i].path
            != entries[j].path
}

/// The entry that staging a file makes: the given path, content and mode,
/// with nothing recorded of the file system and no flags.
pub open spec fn fresh_entry(path: Seq<u8>, id: Seq<u8>, mode: u32) -> EntrySpec {
    EntrySpec { path, id, mode, stat: empty_stat(), flags: 0 }
}

/// The entries after `entry` was staged: those with a smaller path, then
/// `entry`, then those with a larger path. An entry of the same path is gone.
pub open spec fn staged(old: Seq<EntrySpec>, entry: EntrySpec) -> Seq<EntrySpec> {
    old.filter(|e: EntrySpec| bytes_less(e.path, entry.path)).push(entry) + old.filter(
        |e: EntrySpec| bytes_less(entry.path, e.path),
    )
}

/// The entries after each of `entries` was staged in turn.
pub open spec fn staged_all(initial: Seq<EntrySpec>, entries: Seq<EntrySpec>) -> Seq<EntrySpec>
    decreases entries.len(),
{
    if entries.len() == 0 {
        initial
    } else {
        staged(staged_all(initial, entries.drop_last()), entries.last())
    }
}

/// The first place in `entries` whose path does not come before `path`.
pub open spec fn lower_bound(entries: Seq<EntrySpec>, path: Seq<u8>) -> int
    decreases entries.len(),
{
    if entries.len() == 0 {
        0
    } else if bytes_less(entries.last().path, path) {
        entries.len() as int
    } else {
        lower_bound(entries.drop_last(), path)
    }
}

/// Errors of the index.
#[derive(Clone, Copy, Debug, PartialEq, Eq, Structural)]
pub enum IndexError {
    /// The path is not UTF-8.
    InvalidPath,
    /// The entries are not in strictly increasing order of their paths.
    Corrupt,
}

impl IndexError {
    /// The message of this error.
    pub fn to_string(&self) -> (message: String)
        ensures
            message@ == (match *self {
                IndexError::InvalidPath => "Path is not valid UTF-8"@,
                IndexError::Corrupt => "Failed to read index file"@,
            }),
    {
        match self {
            IndexError::InvalidPath => "Path is not valid UTF-8".to_owned(),
            IndexError::Corrupt => "Failed to read index file".to_owned(),
        }
    }
}

/// The staging index.
#[derive(Debug, PartialEq, Eq)]
pub struct IndexState {
    entries: Vec<IndexEntry>,
}

impl Clone for IndexState {
    fn clone(&self) -> (copy: IndexState)
        ensures
            copy@ == self@,
    {
        proof {
            use_type_invariant(self);
        }
        let mut entries: Vec<IndexEntry> = Vec::new();
        let mut i: usize = 0;
        while i < self.entries.len()
            invariant
                i <= self.entries.len(),
                entries_view(entries@) == entries_view(self.entries@).take(i as int),
            decreases self.entries.len() - i,
        {
            let ghost before = entries_view(entries@);
            let entry = self.entries[i].copy();
            entries.push(entry);
            proof {
                let all = entries_view(self.entries@);
                assert(all[i as int] == self.entries@[i as int]@);
                assert(entries_view(entries@) =~= before.push(entry@));
                assert(all.take(i + 1) =~= all.take(i as int).push(all[i as int]));
            }
            i += 1;
        }
        proof {
            assert(entries_view(self.entries@).take(i as int) == entries_view(self.entries@));
        }
        IndexState { entries }
    }
}

impl View for IndexState {
    type V = Seq<EntrySpec>;

    closed spec fn view(&self) -> Seq<EntrySpec> {
        entries_view(self.entries@)
    }
}

proof fn lemma_filter_prefix<A>(s: Seq<A>, pred: spec_fn(A) -> bool, n: int)
    requires
        0 <= n <= s.len(),
        forall|i: int| 0 <= i < n ==> pred(#[trigger] s[i]),
        forall|i: int| n <= i < s.len() ==> !pred(#[trigger] s[i]),
    ensures
        s.filter(pred) == s.take(n),
    decreases s.len(),
{
    reveal(Seq::filter);
    if s.len() == 0 {
        assert(s.take(n) =~= s);
    } else if n == s.len() {
        let rest = s.drop_last();
        assert forall|i: int| 0 <= i < n - 1 implies pred(#[trigger] rest[i]) by {
            assert(rest[i] == s[i]);
        }
        lemma_filter_prefix(rest, pred, n - 1);
        assert(pred(s[n - 1]));
        assert(s.take(n) =~= rest.take(n - 1).push(s.last()));
    } else {
        let rest = s.drop_last();
        assert forall|i: int| 0 <= i < n implies pred(#[trigger] rest[i]) by {
            assert(rest[i] == s[i]);
        }
        assert forall|i: int| n <= i < rest.len() implies !pred(#[trigger] rest[i]) by {
            assert(rest[i] == s[i]);
        }
        lemma_filter_prefix(rest, pred, n);
        assert(!pred(s[s.len() - 1]));
        assert(s.take(n) =~= rest.take(n));
    }
}

proof fn lemma_filter_suffix<A>(s: Seq<A>, pred: spec_fn(A) -> bool, n: int)
    requires
        0 <= n <= s.len(),
        forall|i: int| 0 <= i < n ==> !pred(#[trigger] s[i]),
        forall|i: int| n <= i < s.len() ==> pred(#[trigger] s[i]),
    ensures
        s.filter(pred) == s.skip(n),
    decreases s.len(),
{
    reveal(Seq::filter);
    if s.len() == 0 {
        assert(s.skip(n) =~= s);
    } else if n == s.len() {
        let rest = s.drop_last();
        assert forall|i: int| 0 <= i < n - 1 implies !pred(#[trigger] rest[i]) by {
            assert(rest[i] == s[i]);
        }
        lemma_filter_suffix(rest, pred, n - 1);
        assert(!pred(s[n - 1]));
        assert(s.skip(n) =~= rest.skip(n - 1));
    } else {
        let rest = s.drop_last();
        assert forall|i: int| 0 <= i < n implies !pred(#[trigger] rest[i]) by {
            assert(rest[i] == s[i]);
        }
        assert forall|i: int| n <= i < rest.len() implies pred(#[trigger] rest[i]) by {
            assert(rest[i] == s[i]);
        }
        lemma_filter_suffix(rest, pred, n);
        assert(pred(s[s.len() - 1]));
        assert(s.skip(n) =~= rest.skip(n).push(s.last()));
    }
}

/// In a sorted list the paths before `lower_bound` come before `path`, and no
/// other does.
pub proof fn lemma_lower_bound(entries: Seq<EntrySpec>, path: Seq<u8>)
    requires
        strictly_sorted(entries),
    ensures
        0 <= lower_bound(entries, path) <= entries.len(),
        forall|i: int|
            0 <= i < lower_bound(entries, path) ==> bytes_less(
                (#[trigger] entries[i]).path,
                path,
            ),
        forall|i: int|
            lower_bound(entries, path) <= i < entries.len() ==> !bytes_less(
                (#[trigger] entries[i]).path,
                path,
            ),
    decreases entries.len(),
{
    if entries.len() > 0 {
        let rest = entries.drop_last();
        assert forall|i: int, j: int|
            #![trigger rest[i], rest[j]]
            0 <= i < j < rest.len() implies bytes_less(rest[i].path, rest[j].path) by {
            assert(rest[i] == entries[i] && rest[j] == entries[j]);
        }
        if bytes_less(entries.last().path, path) {
            assert forall|i: int| 0 <= i < entries.len() implies bytes_less(
                (#[trigger] entries[i]).path,
                path,
            ) by {
                if i < entries.len() - 1 {
                    assert(bytes_less(entries[i].path, entries[entries.len() - 1].path));
                    lemma_bytes_less_transitive(entries[i].path, entries.last().path, path);
                }
            }
        } else {
            lemma_lower_bound(rest, path);
            assert forall|i: int| 0 <= i < lower_bound(entries, path) implies bytes_less(
                (#[trigger] entries[i]).path,
                path,
            ) by {
                assert(rest[i] == entries[i]);
            }
            assert forall|i: int|
                lower_bound(entries, path) <= i < entries.len() implies !bytes_less(
                (#[trigger] entries[i]).path,
                path,
            ) by {
                if i < entries.len() - 1 {
                    assert(rest[i] == entries[i]);
                }
            }
        }
    }
}

/// Where the entries are sorted and `n` is the first place whose path does not
/// come before the path of `entry`, staging keeps the entries before `n`, puts
/// `entry` there, and keeps the entries after it but for one of the same
/// path. The result is sorted.
pub proof fn lemma_staged_at(old: Seq<EntrySpec>, entry: EntrySpec, n: int)
    requires
        strictly_sorted(old),
        0 <= n <= old.len(),
        forall|i: int| 0 <= i < n ==> bytes_less((#[trigger] old[i]).path, entry.path),
        n < old.len() ==> !bytes_less(old[n].path, entry.path),
    ensures
        staged(old, entry) == old.take(n).push(entry) + old.skip(
            if n < old.len() && old[n].path == entry.path {
                n + 1
            } else {
                n
            },
        ),
        strictly_sorted(staged(old, entry)),
{
    let m = if n < old.len() && old[n].path == entry.path {
        n + 1
    } else {
        n
    };
    let before = |e: EntrySpec| bytes_less(e.path, entry.path);
    let after = |e: EntrySpec| bytes_less(entry.path, e.path);
    assert forall|i: int| n <= i < old.len() implies !before(#[trigger] old[i]) by {
        if i > n {
            assert(bytes_less(old[n].path, old[i].path));
            if bytes_less(old[i].path, entry.path) {
                lemma_bytes_less_transitive(old[n].path, old[i].path, entry.path);
            }
        }
    }
    lemma_filter_prefix(old, before, n);
    assert forall|i: int| 0 <= i < m implies !after(#[trigger] old[i]) by {
        if i < n {
            lemma_bytes_less_asymmetric(old[i].path, entry.path);
        } else {
            lemma_bytes_less_irreflexive(entry.path);
        }
    }
    assert forall|i: int| m <= i < old.len() implies after(#[trigger] old[i]) by {
        if i == n {
            lemma_bytes_less_total(old[i].path, entry.path);
        } else {
            assert(bytes_less(old[n].path, old[i].path));
            lemma_bytes_less_total(old[n].path, entry.path);
            if old[n].path != entry.path {
                lemma_bytes_less_transitive(entry.path, old[n].path, old[i].path);
            }
        }
    }
    lemma_filter_suffix(old, after, m);
    let result = old.take(n).push(entry) + old.skip(m);
    assert(staged(old, entry) == result);
    assert forall|i: int, j: int|
        #![trigger result[i], result[j]]
        0 <= i < j < result.len() implies bytes_less(result[i].path, result[j].path) by {
        if j < n {
            assert(result[i] == old[i] && result[j] == old[j]);
        } else if j == n {
            assert(result[i] == old[i]);
        } else {
            let k = j - (n + 1) + m;
            assert(result[j] == old[k]);
            assert(after(old[k]));
            if i < n {
                assert(result[i] == old[i]);
                lemma_bytes_less_transitive(old[i].path, entry.path, old[k].path);
            } else if i > n {
                let h = i - (n + 1) + m;
                assert(result[i] == old[h]);
                assert(bytes_less(old[h].path, old[k].path));
            }
        }
    }
}

/// Staging into a sorted list gives a sorted list that holds the new entry,
/// no other entry of its path, and every other entry that was there.
pub proof fn lemma_staged(old: Seq<EntrySpec>, entry: EntrySpec)
    requires
        strictly_sorted(old),
    ensures
        strictly_sorted(staged(old, entry)),
        staged(old, entry).contains(entry),
        forall|e: EntrySpec|
            staged(old, entry).contains(e) <==> e == entry || (old.contains(e) && e.path
                != entry.path),
{
    lemma_lower_bound(old, entry.path);
    let n = lower_bound(old, entry.path);
    lemma_staged_at(old, entry, n);
    let m = if n < old.len() && old[n].path == entry.path {
        n + 1
    } else {
        n
    };
    let result = staged(old, entry);
    assert(result[n] == entry);
    assert forall|e: EntrySpec| result.contains(e) implies e == entry || (old.contains(e)
        && e.path != entry.path) by {
        let i = choose|i: int| 0 <= i < result.len() && result[i] == e;
        if i < n {
            assert(result[i] == old[i]);
            lemma_bytes_less_asymmetric(old[i].path, entry.path);
        } else if i > n {
            let k = i - (n + 1) + m;
            assert(result[i] == old[k]);
            if k > n {
                assert(bytes_less(old[n].path, old[k].path));
                lemma_bytes_less_total(old[n].path, entry.path);
                if old[n].path == entry.path {
                    lemma_bytes_less_asymmetric(old[n].path, old[k].path);
                } else {
                    lemma_bytes_less_transitive(entry.path, old[n].path, old[k].path);
                    lemma_bytes_less_asymmetric(entry.path, old[k].path);
                }
            }
        }
    }
    assert forall|e: EntrySpec|
        e == entry || (old.contains(e) && e.path != entry.path) implies result.contains(e) by {
        if e != entry {
            let k = choose|k: int| 0 <= k < old.len() && old[k] == e;
            if k < n {
                assert(result[k] == e);
            } else {
                assert(k >= m);
                assert(result[k - m + n + 1] == e);
            }
        }
    }
}

/// A sorted list has no two entries of the same path.
pub proof fn lemma_sorted_distinct(entries: Seq<EntrySpec>)
    requires
        strictly_sorted(entries),
    ensures
        distinct_paths(entries),
{
    assert forall|i: int, j: int|
        #![trigger entries[i], entries[j]]
        0 <= i < entries.len() && 0 <= j < entries.len() && i != j implies entries[i].path
        != entries[j].path by {
        if i < j {
            lemma_bytes_less_asymmetric(entries[i].path, entries[j].path);
        } else {
            lemma_bytes_less_asymmetric(entries[j].path, entries[i].path);
        }
    }
}

/// Whatever is staged into a sorted index, and in whatever order, the index
/// stays strictly sorted by path and holds no path twice.
pub proof fn lemma_staged_all_sorted(initial: Seq<EntrySpec>, entries: Seq<EntrySpec>)
    requires
        strictly_sorted(initial),
    ensures
        strictly_sorted(staged_all(initial, entries)),
        distinct_paths(staged_all(initial, entries)),
    decreases entries.len(),
{
    if entries.len() > 0 {
        lemma_staged_all_sorted(initial, entries.drop_last());
        lemma_staged(staged_all(initial, entries.drop_last()), entries.last());
    }
    lemma_sorted_distinct(staged_all(initial, entries));
}

/// The first place in `entries` whose path does not come before `path`.
fn find_lower_bound(entries: &Vec<IndexEntry>, path: &[u8]) -> (n: usize)
    ensures
        n <= entries.len(),
        forall|i: int| 0 <= i < n ==> bytes_less((#[trigger] entries@[i])@.path, path@),
        n < entries.len() ==> !bytes_less(entries@[n as int]@.path, path@),
{
    let mut n: usize = 0;
    while n < entries.len()
        invariant
            n <= entries.len(),
            forall|i: int| 0 <= i < n ==> bytes_less((#[trigger] entries@[i])@.path, path@),
        decreases entries.len() - n,
    {
        match compare_paths(entries[n].path.as_slice(), path) {
            PathOrder::Before => {},
            _ => {
                return n;
            },
        }
        n += 1;
    }
    n
}

impl IndexState {
    /// What holds of every index: its entries are strictly sorted by path.
    #[verifier::type_invariant]
    spec fn sorted(self) -> bool {
        strictly_sorted(entries_view(self.entries@))
    }

    /// The index is well formed: strictly sorted by path. Every index is.
    pub open spec fn wf(&self) -> bool {
        strictly_sorted(self@)
    }

    /// The index without entries.
    pub fn new() -> (state: IndexState)
        ensures
            state@ == Seq::<EntrySpec>::empty(),
            state.wf(),
    {
        let state = IndexState { entries: Vec::new() };
        assert(state@ =~= Seq::<EntrySpec>::empty());
        state
    }

    /// The entries, in order: strictly sorted by path.
    pub fn entries(&self) -> (entries: &Vec<IndexEntry>)
        ensures
            entries_view(entries@) == self@,
            self.wf(),
    {
        proof {
            use_type_invariant(self);
        }
        &self.entries
    }

    /// The entries, in order: strictly sorted by path.
    pub fn into_entries(self) -> (entries: Vec<IndexEntry>)
        ensures
            entries_view(entries@) == self@,
            self.wf(),
    {
        proof {
            use_type_invariant(&self);
        }
        self.entries
    }

    /// The number of entries.
    pub fn len(&self) -> (n: usize)
        ensures
            n == self@.len(),
    {
        self.entries.len()
    }

    /// The place of the entry for `path`, if there is one.
    pub fn position(&self, path: &[u8]) -> (found: Option<usize>)
        ensures
            match found {
                Some(i) => i < self@.len() && self@[i as int].path == path@,
                None => forall|i: int| 0 <= i < self@.len() ==> (#[trigger] self@[i]).path != path@,
            },
    {
        proof {
            use_type_invariant(self);
        }
        let n = find_lower_bound(&self.entries, path);
        if n < self.entries.len() {
            match compare_paths(self.entries[n].path.as_slice(), path) {
                PathOrder::Same => {
                    return Some(n);
                },
                _ => {},
            }
        }
        proof {
            let all = self@;
            assert forall|i: int| 0 <= i < all.len() implies (#[trigger] all[i]).path != path@ by {
                if i < n {
                    assert(all[i] == self.entries@[i]@);
                    lemma_bytes_less_asymmetric(all[i].path, path@);
                } else if i > n {
                    assert(all[n as int] == self.entries@[n as int]@);
                    assert(bytes_less(all[n as int].path, all[i].path));
                }
            }
        }
        None
    }

    /// Stages `id` with `mode` at `path`: an entry of that path is replaced,
    /// every other entry stays, and the index stays sorted. The new entry has
    /// nothing recorded of the file system and no flags. A path that is not
    /// UTF-8 is refused.
    pub fn stage(
        self,
        path: &[u8],
        id: ObjectId,
        mode: u32,
    ) -> (result: Result<IndexState, IndexError>)
        ensures
            valid_utf8(path@) ==> result is Ok && result->Ok_0@ == staged(
                self@,
                fresh_entry(path@, id@, mode),
            ) && result->Ok_0.wf(),
            !valid_utf8(path@) ==> result == Err::<IndexState, IndexError>(IndexError::InvalidPath),
    {
        proof {
            use_type_invariant(&self);
        }
        if !is_utf8(path) {
            return Err(IndexError::InvalidPath);
        }
        let ghost old = self@;
        let mut entries = self.entries;
        let n = find_lower_bound(&entries, path);
        let replace = n < entries.len() && match compare_paths(entries[n].path.as_slice(), path) {
            PathOrder::Same => true,
            _ => false,
        };
        let entry = IndexEntry {
            path: copy_bytes(path),
            id,
            mode,
            stat: Stat::default(),
            flags: 0,
        };
        proof {
            assert forall|i: int| 0 <= i < n implies bytes_less(
                (#[trigger] old[i]).path,
                path@,
            ) by {
                assert(old[i] == entries@[i]@);
            }
            if n < entries.len() {
                assert(old[n as int] == entries@[n as int]@);
            }
            lemma_staged_at(old, entry@, n as int);
        }
        if replace {
            entries.set(n, entry);
            proof {
                assert(entries_view(entries@) =~= old.take(n as int).push(
                    fresh_entry(path@, id@, mode),
                ) + old.skip(n + 1));
            }
        } else {
            entries.insert(n, entry);
            proof {
                assert(entries_view(entries@) =~= old.take(n as int).push(
                    fresh_entry(path@, id@, mode),
                ) + old.skip(n as int));
            }
        }
        Ok(IndexState { entries })
    }
}

/// Stages the content `blob_id` as a regular file at `relative_path`.
///
/// An entry of that path is replaced; every other entry stays. The result is
/// strictly sorted by path. A path that is not UTF-8 is refused.
pub fn stage_file(
    relative_path: &[u8],
    blob_id: ObjectId,
    existing_state: IndexState,
) -> (result: Result<IndexState, IndexError>)
    ensures
        valid_utf8(relative_path@) ==> result is Ok && result->Ok_0@ == staged(
            existing_state@,
            fresh_entry(relative_path@, blob_id@, MODE_FILE),
        ) && result->Ok_0.wf(),
        !valid_utf8(relative_path@) ==> result == Err::<IndexState, IndexError>(
            IndexError::InvalidPath,
        ),
{
    existing_state.stage(relative_path, blob_id, MODE_FILE)
}

/// Makes the index of entries that were read from storage. Entries that are
/// not strictly sorted by path are refused as corrupt.
pub fn load_index_state(entries: Vec<IndexEntry>) -> (result: Result<IndexState, IndexError>)
    ensures
        strictly_sorted(entries_view(entries@)) ==> result is Ok && result->Ok_0@ == entries_view(
            entries@,
        ) && result->Ok_0.wf(),
        !strictly_sorted(entries_view(entries@)) ==> result == Err::<IndexState, IndexError>(
            IndexError::Corrupt,
        ),
{
    let ghost all = entries_view(entries@);
    let mut i: usize = 1;
    while i < entries.len()
        invariant
            1 <= i,
            all == entries_view(entries@),
            forall|a: int, b: int|
                #![trigger all[a], all[b]]
                0 <= a < b < i && b < all.len() ==> bytes_less(all[a].path, all[b].path),
        decreases entries.len() - i,
    {
        match compare_paths(entries[i - 1].path.as_slice(), entries[i].path.as_slice()) {
            PathOrder::Before => {},
            _ => {
                proof {
                    assert(all[i - 1] == entries@[i - 1]@);
                    assert(all[i as int] == entries@[i as int]@);
                    assert(!bytes_less(all[i - 1].path, all[i as int].path));
                }
                return Err(IndexError::Corrupt);
            },
        }
        proof {
            assert(all[i - 1] == entries@[i - 1]@);
            assert(all[i as int] == entries@[i as int]@);
            assert forall|a: int, b: int|
                #![trigger all[a], all[b]]
                0 <= a < b < i + 1 && b < all.len() implies bytes_less(
                all[a].path,
                all[b].path,
            ) by {
                if b == i && a < i - 1 {
                    assert(bytes_less(all[a].path, all[i - 1].path));
                    lemma_bytes_less_transitive(all[a].path, all[i - 1].path, all[b].path);
                }
            }
        }
        i += 1;
    }
    Ok(IndexState { entries })
}

} // verus!
