//! Size Index: the snapshot of per-file and per-directory sizes that the
//! background walk rebuilds wholesale on every cycle.
//!
//! The walk itself (filesystem enumeration) lives outside the core; it hands
//! in one record per regular file. `calculate_sizes` turns that list into a
//! full snapshot: every file kept as given, plus exactly one directory entry
//! for every ancestor directory of any file, carrying the sum of the sizes
//! of all files transitively under it. Listings and quota checks read the
//! snapshot instead of re-walking the disk.

use vstd::prelude::*;

use crate::paths::{FilePath, is_prefix_of};

verus! {

/// One regular file found by the filesystem walk.
pub struct FileRec {
    pub path: FilePath,
    pub size: u64,
}

impl View for FileRec {
    type V = (Seq<Seq<char>>, nat);

    open spec fn view(&self) -> (Seq<Seq<char>>, nat) {
        (self.path@, self.size as nat)
    }
}

impl DeepView for FileRec {
    type V = (Seq<Seq<char>>, nat);

    open spec fn deep_view(&self) -> (Seq<Seq<char>>, nat) {
        self@
    }
}

/// One record of the published snapshot: a file as reported by the walk, or
/// a directory with its aggregated size. The flag plays the role of a
/// trailing-separator marker: it distinguishes a directory from a file of
/// the same name.
pub struct FileEntry {
    pub path: FilePath,
    pub size: u64,
    pub is_dir: bool,
}

impl View for FileEntry {
    type V = (Seq<Seq<char>>, nat, bool);

    open spec fn view(&self) -> (Seq<Seq<char>>, nat, bool) {
        (self.path@, self.size as nat, self.is_dir)
    }
}

impl DeepView for FileEntry {
    type V = (Seq<Seq<char>>, nat, bool);

    open spec fn deep_view(&self) -> (Seq<Seq<char>>, nat, bool) {
        self@
    }
}

/// `d` is a strict ancestor directory of `f` (the root, with no segments,
/// is an ancestor of every file).
pub open spec fn under_dir(d: Seq<Seq<char>>, f: Seq<Seq<char>>) -> bool {
    is_prefix_of(d, f) && d.len() < f.len()
}

/// Sum of the sizes of the files lying strictly under directory `d`.
pub open spec fn dir_size(files: Seq<(Seq<Seq<char>>, nat)>, d: Seq<Seq<char>>) -> nat
    decreases files.len(),
{
    if files.len() == 0 {
        0
    } else {
        dir_size(files.drop_last(), d) + if under_dir(d, files.last().0) {
            files.last().1
        } else {
            0nat
        }
    }
}

/// Sum of the sizes of all files.
pub open spec fn total_size(files: Seq<(Seq<Seq<char>>, nat)>) -> nat
    decreases files.len(),
{
    if files.len() == 0 {
        0
    } else {
        total_size(files.drop_last()) + files.last().1
    }
}

/// `d` is an ancestor directory of at least one file of the walk.
pub open spec fn is_ancestor_dir(files: Seq<(Seq<Seq<char>>, nat)>, d: Seq<Seq<char>>) -> bool {
    exists|i: int| 0 <= i < files.len() && under_dir(d, #[trigger] files[i].0)
}

/// What a correct snapshot for a given walk looks like: first the files,
/// exactly as reported; then one entry per distinct ancestor directory, each
/// carrying the aggregate size of the files under it; nothing else. The
/// order of the directory entries is left open.
pub open spec fn snapshot_ok(
    files: Seq<(Seq<Seq<char>>, nat)>,
    evs: Seq<(Seq<Seq<char>>, nat, bool)>,
) -> bool {
    &&& evs.len() >= files.len()
    &&& forall|i: int|
        0 <= i < files.len() ==> evs[i] == (files[i].0, files[i].1, false)
    &&& forall|i: int|
        files.len() <= i < evs.len() ==> (#[trigger] evs[i]).2 && is_ancestor_dir(
            files,
            evs[i].0,
        ) && evs[i].1 == dir_size(files, evs[i].0)
    &&& forall|d: Seq<Seq<char>>|
        #[trigger] is_ancestor_dir(files, d) ==> exists|i: int|
            files.len() <= i < evs.len() && (#[trigger] evs[i]).0 == d
    &&& forall|i: int, j: int|
        files.len() <= i < j < evs.len() ==> (#[trigger] evs[i]).0 != (#[trigger] evs[j]).0
}

/// No directory aggregate exceeds the total of the walk.
proof fn lemma_dir_le_total(files: Seq<(Seq<Seq<char>>, nat)>, d: Seq<Seq<char>>)
    ensures
        dir_size(files, d) <= total_size(files),
    decreases files.len(),
{
    if files.len() > 0 {
        lemma_dir_le_total(files.drop_last(), d);
    }
}

/// The total of a prefix of the walk never exceeds the total of the walk.
proof fn lemma_total_take_le(files: Seq<(Seq<Seq<char>>, nat)>, i: int)
    requires
        0 <= i <= files.len(),
    ensures
        total_size(files.take(i)) <= total_size(files),
    decreases files.len() - i,
{
    if i == files.len() {
        assert(files.take(i) =~= files);
    } else {
        lemma_total_take_le(files, i + 1);
        assert(files.take(i + 1).drop_last() =~= files.take(i));
        assert(files.take(i + 1).last() == files[i]);
    }
}

/// Computes the aggregate size of one directory over the walk's files.
fn dir_total(files: &Vec<FileRec>, d: &FilePath) -> (r: u64)
    requires
        total_size(files.deep_view()) <= u64::MAX,
    ensures
        r == dir_size(files.deep_view(), d@),
{
    let fv = Ghost(files.deep_view());
    let mut acc: u64 = 0;
    let n = files.len();
    let mut i: usize = 0;
    while i < n
        invariant
            i <= n,
            n == files.len(),
            fv@ == files.deep_view(),
            total_size(fv@) <= u64::MAX,
            acc == dir_size(fv@.take(i as int), d@),
        decreases n - i,
    {
        proof {
            assert(fv@.take(i as int + 1).drop_last() =~= fv@.take(i as int));
            assert(fv@.take(i as int + 1).last() == fv@[i as int]);
            assert(fv@[i as int] == files@[i as int]@);
            lemma_dir_le_total(fv@.take(i as int + 1), d@);
            lemma_total_take_le(fv@, i as int + 1);
        }
        let f = &files[i];
        if d.segs.len() < f.path.segs.len() && d.is_prefix(&f.path) {
            acc = acc + f.size;
        }
        i = i + 1;
    }
    proof {
        assert(fv@.take(n as int) =~= fv@);
    }
    acc
}

/// Whether the list already holds this exact path.
fn contains_path(dirs: &Vec<FilePath>, p: &FilePath) -> (r: bool)
    ensures
        r == dirs.deep_view().contains(p@),
{
    let n = dirs.len();
    let mut i: usize = 0;
    while i < n
        invariant
            i <= n,
            n == dirs.len(),
            forall|j: int| 0 <= j < i ==> dirs.deep_view()[j] != p@,
        decreases n - i,
    {
        if dirs[i].equals(p) {
            proof {
                assert(dirs.deep_view()[i as int] == p@);
            }
            return true;
        }
        proof {
            assert(dirs.deep_view()[i as int] == dirs@[i as int]@);
        }
        i = i + 1;
    }
    false
}

impl DeepView for FilePath {
    type V = Seq<Seq<char>>;

    open spec fn deep_view(&self) -> Seq<Seq<char>> {
        self@
    }
}

/// Rebuilds the Size Index snapshot from the files reported by one
/// filesystem walk, as `snapshot_ok` describes: the files as given, then one
/// aggregated entry per ancestor directory. Always a full rebuild, never an
/// incremental merge, so the snapshot also shrinks after deletions.
pub fn calculate_sizes(files: &Vec<FileRec>) -> (r: Vec<FileEntry>)
    requires
        total_size(files.deep_view()) <= u64::MAX,
    ensures
        snapshot_ok(files.deep_view(), r.deep_view()),
{
    let fv = Ghost(files.deep_view());
    let n = files.len();
    let mut entries: Vec<FileEntry> = Vec::new();

    let mut i: usize = 0;
    while i < n
        invariant
            i <= n,
            n == files.len(),
            fv@ == files.deep_view(),
            entries.len() == i,
            forall|j: int|
                0 <= j < i ==> entries.deep_view()[j] == (fv@[j].0, fv@[j].1, false),
        decreases n - i,
    {
        let f = &files[i];
        let e = FileEntry { path: f.path.dup(), size: f.size, is_dir: false };
        let ghost before = entries.deep_view();
        proof {
            assert(fv@[i as int] == files@[i as int]@);
            assert(e@ == (fv@[i as int].0, fv@[i as int].1, false));
        }
        entries.push(e);
        proof {
            assert(entries.deep_view() =~= before.push(e@));
        }
        i = i + 1;
    }

    // Collect each distinct ancestor directory, in first-encounter order.
    let mut dirs: Vec<FilePath> = Vec::new();
    let mut i: usize = 0;
    while i < n
        invariant
            i <= n,
            n == files.len(),
            fv@ == files.deep_view(),
            forall|j: int, k: int|
                0 <= j < k < dirs.deep_view().len() ==> dirs.deep_view()[j]
                    != dirs.deep_view()[k],
            forall|j: int|
                0 <= j < dirs.deep_view().len() ==> is_ancestor_dir(
                    fv@,
                    #[trigger] dirs.deep_view()[j],
                ),
            forall|d: Seq<Seq<char>>, j: int|
                0 <= j < i && #[trigger] under_dir(d, fv@[j].0) ==> dirs.deep_view().contains(d),
        decreases n - i,
    {
        let f = &files[i];
        let depth = f.path.segs.len();
        let mut l: usize = 0;
        while l < depth
            invariant
                l <= depth,
                i < n,
                n == files.len(),
                fv@ == files.deep_view(),
                depth == f.path@.len(),
                f == &files@[i as int],
                forall|j: int, k: int|
                    0 <= j < k < dirs.deep_view().len() ==> dirs.deep_view()[j]
                        != dirs.deep_view()[k],
                forall|j: int|
                    0 <= j < dirs.deep_view().len() ==> is_ancestor_dir(
                        fv@,
                        #[trigger] dirs.deep_view()[j],
                    ),
                forall|d: Seq<Seq<char>>, j: int|
                    0 <= j < i && #[trigger] under_dir(d, fv@[j].0) ==> dirs.deep_view().contains(
                        d,
                    ),
                forall|m: int|
                    0 <= m < l ==> dirs.deep_view().contains(#[trigger] f.path@.take(m)),
            decreases depth - l,
        {
            let cand = f.path.prefix(l);
            let ghost before = dirs.deep_view();
            if !contains_path(&dirs, &cand) {
                proof {
                    assert(fv@[i as int] == files@[i as int]@);
                    assert(under_dir(cand@, fv@[i as int].0));
                }
                dirs.push(cand);
                proof {
                    assert(dirs.deep_view() =~= before.push(f.path@.take(l as int)));
                    assert forall|d: Seq<Seq<char>>|
                        before.contains(d) implies dirs.deep_view().contains(d) by {
                        let idx = choose|idx: int|
                            0 <= idx < before.len() && before[idx] == d;
                        assert(dirs.deep_view()[idx] == d);
                    }
                    assert(dirs.deep_view()[before.len() as int] == f.path@.take(l as int));
                }
            } else {
                proof {
                    assert(cand@ == f.path@.take(l as int));
                }
            }
            proof {
                assert(dirs.deep_view().contains(f.path@.take(l as int)));
            }
            l = l + 1;
        }
        proof {
            assert forall|d: Seq<Seq<char>>, j: int|
                0 <= j < i + 1 && #[trigger] under_dir(d, fv@[j].0)
                implies dirs.deep_view().contains(d) by {
                if j == i {
                    assert(d =~= fv@[j].0.take(d.len() as int));
                    assert(fv@[i as int] == files@[i as int]@);
                }
            }
        }
        i = i + 1;
    }

    // Emit one aggregated entry per collected directory.
    let ghost file_part = entries.deep_view();
    let m = dirs.len();
    let mut k: usize = 0;
    while k < m
        invariant
            k <= m,
            m == dirs.len(),
            n == files.len(),
            fv@ == files.deep_view(),
            total_size(fv@) <= u64::MAX,
            file_part.len() == n,
            entries.deep_view().take(n as int) == file_part,
            entries.len() == n + k,
            forall|j: int, jj: int|
                0 <= j < jj < dirs.deep_view().len() ==> dirs.deep_view()[j]
                    != dirs.deep_view()[jj],
            forall|j: int|
                0 <= j < dirs.deep_view().len() ==> is_ancestor_dir(
                    fv@,
                    #[trigger] dirs.deep_view()[j],
                ),
            forall|d: Seq<Seq<char>>|
                is_ancestor_dir(fv@, d) ==> dirs.deep_view().contains(d),
            forall|j: int|
                n <= j < n + k ==> entries.deep_view()[j] == (
                    dirs.deep_view()[j - n],
                    dir_size(fv@, dirs.deep_view()[j - n]),
                    true,
                ),
        decreases m - k,
    {
        let d = &dirs[k];
        let total = dir_total(files, d);
        let ghost before = entries.deep_view();
        proof {
            assert(d@ == dirs.deep_view()[k as int]);
        }
        entries.push(FileEntry { path: d.dup(), size: total, is_dir: true });
        proof {
            assert(entries.deep_view() =~= before.push((d@, total as nat, true)));
            assert(entries.deep_view().take(n as int) =~= before.take(n as int));
        }
        k = k + 1;
    }

    proof {
        let evs = entries.deep_view();
        assert forall|j: int| 0 <= j < n implies evs[j] == (fv@[j].0, fv@[j].1, false) by {
            assert(evs.take(n as int)[j] == evs[j]);
            assert(file_part[j] == (fv@[j].0, fv@[j].1, false));
        }
        assert forall|d: Seq<Seq<char>>|
            #[trigger] is_ancestor_dir(fv@, d) implies exists|i2: int|
            n <= i2 < evs.len() && (#[trigger] evs[i2]).0 == d by {
            assert(dirs.deep_view().contains(d));
            let j = choose|j: int|
                0 <= j < dirs.deep_view().len() && dirs.deep_view()[j] == d;
            assert(evs[j + n].0 == d);
        }
    }
    entries
}

/// First snapshot entry that is a directory with exactly this path.
pub open spec fn dir_entry_index(
    evs: Seq<(Seq<Seq<char>>, nat, bool)>,
    p: Seq<Seq<char>>,
) -> Option<int>
    decreases evs.len(),
{
    if evs.len() == 0 {
        None
    } else if evs[0].2 && evs[0].0 == p {
        Some(0int)
    } else {
        match dir_entry_index(evs.skip(1), p) {
            None => None,
            Some(i) => Some(i + 1),
        }
    }
}

/// The recorded size of directory `p` in the snapshot, or zero when the
/// snapshot holds no entry for it yet.
pub open spec fn folder_size_spec(
    evs: Seq<(Seq<Seq<char>>, nat, bool)>,
    p: Seq<Seq<char>>,
) -> nat {
    match dir_entry_index(evs, p) {
        Some(i) => evs[i].1,
        None => 0,
    }
}

/// `dir_entry_index` names the first matching entry.
proof fn lemma_dir_entry_index(evs: Seq<(Seq<Seq<char>>, nat, bool)>, p: Seq<Seq<char>>)
    ensures
        match dir_entry_index(evs, p) {
            Some(i) => 0 <= i < evs.len() && evs[i].2 && evs[i].0 == p && forall|j: int|
                0 <= j < i ==> !((#[trigger] evs[j]).2 && evs[j].0 == p),
            None => forall|j: int|
                0 <= j < evs.len() ==> !((#[trigger] evs[j]).2 && evs[j].0 == p),
        },
    decreases evs.len(),
{
    if evs.len() > 0 && !(evs[0].2 && evs[0].0 == p) {
        lemma_dir_entry_index(evs.skip(1), p);
        match dir_entry_index(evs.skip(1), p) {
            Some(i) => {
                assert(evs[i + 1] == evs.skip(1)[i]);
                assert forall|j: int|
                    0 <= j < i + 1 implies !((#[trigger] evs[j]).2 && evs[j].0 == p) by {
                    if j >= 1 {
                        assert(evs.skip(1)[j - 1] == evs[j]);
                    }
                }
            },
            None => {
                assert forall|j: int|
                    0 <= j < evs.len() implies !((#[trigger] evs[j]).2 && evs[j].0 == p) by {
                    if j >= 1 {
                        assert(evs.skip(1)[j - 1] == evs[j]);
                    }
                }
            },
        }
    }
}

/// Looks up a directory's aggregate size in the snapshot by exact path
/// match, zero when the directory is not indexed yet.
pub fn folder_size(entries: &Vec<FileEntry>, p: &FilePath) -> (r: u64)
    ensures
        r == folder_size_spec(entries.deep_view(), p@),
{
    proof {
        lemma_dir_entry_index(entries.deep_view(), p@);
    }
    let n = entries.len();
    let mut i: usize = 0;
    while i < n
        invariant
            i <= n,
            n == entries.len(),
            forall|j: int|
                0 <= j < i ==> !((#[trigger] entries.deep_view()[j]).2
                    && entries.deep_view()[j].0 == p@),
        decreases n - i,
    {
        let e = &entries[i];
        if e.is_dir && e.path.equals(p) {
            proof {
                assert(entries.deep_view()[i as int] == (e.path@, e.size as nat, e.is_dir));
                lemma_dir_index_unique(entries.deep_view(), p@, i as int);
            }
            return e.size;
        }
        proof {
            assert(entries.deep_view()[i as int] == entries@[i as int]@);
        }
        i = i + 1;
    }
    0
}

/// An entry that matches, with no earlier match, is the one
/// `dir_entry_index` names.
proof fn lemma_dir_index_unique(evs: Seq<(Seq<Seq<char>>, nat, bool)>, p: Seq<Seq<char>>, i: int)
    requires
        0 <= i < evs.len(),
        evs[i].2 && evs[i].0 == p,
        forall|j: int| 0 <= j < i ==> !((#[trigger] evs[j]).2 && evs[j].0 == p),
    ensures
        dir_entry_index(evs, p) == Some(i),
{
    lemma_dir_entry_index(evs, p);
}

/// The multiset-free content of a snapshot: its records as a set, which is
/// what two rebuilds over the same walk must agree on.
pub open spec fn entry_set(evs: Seq<(Seq<Seq<char>>, nat, bool)>) -> Set<
    (Seq<Seq<char>>, nat, bool),
> {
    Set::new(|e: (Seq<Seq<char>>, nat, bool)| evs.contains(e))
}

/// Idempotent rebuild: two snapshots built from the same walk hold exactly
/// the same records, whatever order their directory entries came out in.
pub proof fn lemma_rebuild_idempotent(
    files: Seq<(Seq<Seq<char>>, nat)>,
    e1: Seq<(Seq<Seq<char>>, nat, bool)>,
    e2: Seq<(Seq<Seq<char>>, nat, bool)>,
)
    requires
        snapshot_ok(files, e1),
        snapshot_ok(files, e2),
    ensures
        entry_set(e1) == entry_set(e2),
{
    assert forall|e: (Seq<Seq<char>>, nat, bool)|
        entry_set(e1).contains(e) implies entry_set(e2).contains(e) by {
        lemma_snapshot_member(files, e1, e2, e);
    }
    assert forall|e: (Seq<Seq<char>>, nat, bool)|
        entry_set(e2).contains(e) implies entry_set(e1).contains(e) by {
        lemma_snapshot_member(files, e2, e1, e);
    }
    assert(entry_set(e1) =~= entry_set(e2));
}

/// Every record of one correct snapshot appears in any other correct
/// snapshot for the same walk.
proof fn lemma_snapshot_member(
    files: Seq<(Seq<Seq<char>>, nat)>,
    e1: Seq<(Seq<Seq<char>>, nat, bool)>,
    e2: Seq<(Seq<Seq<char>>, nat, bool)>,
    e: (Seq<Seq<char>>, nat, bool),
)
    requires
        snapshot_ok(files, e1),
        snapshot_ok(files, e2),
        e1.contains(e),
    ensures
        e2.contains(e),
{
    let i = choose|i: int| 0 <= i < e1.len() && e1[i] == e;
    if i < files.len() {
        assert(e2[i] == e);
    } else {
        let d = e1[i].0;
        assert(is_ancestor_dir(files, d));
        let j = choose|j: int| files.len() <= j < e2.len() && (#[trigger] e2[j]).0 == d;
        assert(e2[j] == e);
    }
}

/// Aggregation correctness: in any correct snapshot, the recorded size of
/// every directory entry equals the sum of the sizes of the snapshot's own
/// file entries lying strictly under that directory.
pub proof fn lemma_aggregation(
    files: Seq<(Seq<Seq<char>>, nat)>,
    evs: Seq<(Seq<Seq<char>>, nat, bool)>,
    i: int,
)
    requires
        snapshot_ok(files, evs),
        files.len() <= i < evs.len(),
    ensures
        evs[i].1 == dir_size(
            Seq::new(files.len(), |j: int| (evs[j].0, evs[j].1)),
            evs[i].0,
        ),
{
    assert(Seq::new(files.len(), |j: int| (evs[j].0, evs[j].1)) =~= files);
}


/// What a lookup means in a correct snapshot: every ancestor directory of
/// the walk reads as its aggregate, and any other path reads as zero.
pub proof fn lemma_folder_size_in_snapshot(
    files: Seq<(Seq<Seq<char>>, nat)>,
    evs: Seq<(Seq<Seq<char>>, nat, bool)>,
    d: Seq<Seq<char>>,
)
    requires
        snapshot_ok(files, evs),
    ensures
        folder_size_spec(evs, d) == if is_ancestor_dir(files, d) {
            dir_size(files, d)
        } else {
            0
        },
{
    lemma_dir_entry_index(evs, d);
    match dir_entry_index(evs, d) {
        Some(i) => {
            assert(i >= files.len()) by {
                if i < files.len() {
                    assert(evs[i] == (files[i].0, files[i].1, false));
                }
            }
        },
        None => {
            if is_ancestor_dir(files, d) {
                let i = choose|i: int|
                    files.len() <= i < evs.len() && (#[trigger] evs[i]).0 == d;
                assert(evs[i].2 && evs[i].0 == d);
            }
        },
    }
}

} // verus!
