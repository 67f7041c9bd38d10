//! Directory Lister building blocks: the listing record and the
//! transformations that turn raw child enumerations into the sorted,
//! filtered listing a page renders.

use vstd::prelude::*;

use crate::Status;
use crate::paths::FilePath;
use crate::size_index::{FileEntry, folder_size, folder_size_spec};
use crate::text::{contains_str, lex_le, lex_lt, str_eq, str_lt, lemma_lex_total,
    lemma_lex_trans};

verus! {

broadcast use vstd::seq_lib::group_to_multiset_ensures;

/// Mathematical image of one listing record.
pub struct MirrorFileV {
    pub name: Seq<char>,
    pub ext: Seq<char>,
    pub icon: Seq<char>,
    pub size: nat,
    pub downloads: Option<i32>,
}

/// One record of a rendered directory listing: a file or a subdirectory.
/// Two records stand for the same entry when name and extension match;
/// listings order records by name alone.
#[derive(Debug)]
pub struct MirrorFile {
    pub name: String,
    pub ext: String,
    pub icon: String,
    pub size: u64,
    pub downloads: Option<i32>,
}

impl View for MirrorFile {
    type V = MirrorFileV;

    open spec fn view(&self) -> MirrorFileV {
        MirrorFileV {
            name: self.name@,
            ext: self.ext@,
            icon: self.icon@,
            size: self.size as nat,
            downloads: self.downloads,
        }
    }
}

impl DeepView for MirrorFile {
    type V = MirrorFileV;

    open spec fn deep_view(&self) -> MirrorFileV {
        self@
    }
}

impl PartialEq for MirrorFile {
    /// Records are the same entry when name and extension agree.
    fn eq(&self, other: &Self) -> (r: bool) {
        self.name == other.name && self.ext == other.ext
    }
}

impl Eq for MirrorFile {

}

impl vstd::std_specs::cmp::PartialEqSpecImpl for MirrorFile {
    open spec fn obeys_eq_spec() -> bool {
        true
    }

    open spec fn eq_spec(&self, other: &Self) -> bool {
        self.name@ == other.name@ && self.ext@ == other.ext@
    }
}

impl MirrorFile {
    /// An identical copy of the record.
    pub fn dup(&self) -> (r: MirrorFile)
        ensures
            r@ == self@,
    {
        MirrorFile {
            name: self.name.clone(),
            ext: self.ext.clone(),
            icon: self.icon.clone(),
            size: self.size,
            downloads: self.downloads,
        }
    }
}

/// ASCII lowercase of one character; anything outside `A`..`Z` is kept.
pub open spec fn lower_char(c: char) -> char {
    if 'A' <= c && c <= 'Z' {
        ((c as u8) + 32) as char
    } else {
        c
    }
}

/// ASCII lowercase of a whole sequence.
pub open spec fn lower_spec(s: Seq<char>) -> Seq<char> {
    Seq::new(s.len(), |i: int| lower_char(s[i]))
}

/// The one-character string holding the lowercase of an ASCII capital.
fn lower_char_str(c: char) -> (r: &'static str)
    requires
        'A' <= c && c <= 'Z',
    ensures
        r@ =~= seq![lower_char(c)],
{
    match c {
        'A' => {
            proof {
                reveal_strlit("a");
                assert("a"@ =~= seq!['a']);
            }
            "a"
        },
        'B' => {
            proof {
                reveal_strlit("b");
                assert("b"@ =~= seq!['b']);
            }
            "b"
        },
        'C' => {
            proof {
                reveal_strlit("c");
                assert("c"@ =~= seq!['c']);
            }
            "c"
        },
        'D' => {
            proof {
                reveal_strlit("d");
                assert("d"@ =~= seq!['d']);
            }
            "d"
        },
        'E' => {
            proof {
                reveal_strlit("e");
                assert("e"@ =~= seq!['e']);
            }
            "e"
        },
        'F' => {
            proof {
                reveal_strlit("f");
                assert("f"@ =~= seq!['f']);
            }
            "f"
        },
        'G' => {
            proof {
                reveal_strlit("g");
                assert("g"@ =~= seq!['g']);
            }
            "g"
        },
        'H' => {
            proof {
                reveal_strlit("h");
                assert("h"@ =~= seq!['h']);
            }
            "h"
        },
        'I' => {
            proof {
                reveal_strlit("i");
                assert("i"@ =~= seq!['i']);
            }
            "i"
        },
        'J' => {
            proof {
                reveal_strlit("j");
                assert("j"@ =~= seq!['j']);
            }
            "j"
        },
        'K' => {
            proof {
                reveal_strlit("k");
                assert("k"@ =~= seq!['k']);
            }
            "k"
        },
        'L' => {
            proof {
                reveal_strlit("l");
                assert("l"@ =~= seq!['l']);
            }
            "l"
        },
        'M' => {
            proof {
                reveal_strlit("m");
                assert("m"@ =~= seq!['m']);
            }
            "m"
        },
        'N' => {
            proof {
                reveal_strlit("n");
                assert("n"@ =~= seq!['n']);
            }
            "n"
        },
        'O' => {
            proof {
                reveal_strlit("o");
                assert("o"@ =~= seq!['o']);
            }
            "o"
        },
        'P' => {
            proof {
                reveal_strlit("p");
                assert("p"@ =~= seq!['p']);
            }
            "p"
        },
        'Q' => {
            proof {
                reveal_strlit("q");
                assert("q"@ =~= seq!['q']);
            }
            "q"
        },
        'R' => {
            proof {
                reveal_strlit("r");
                assert("r"@ =~= seq!['r']);
            }
            "r"
        },
        'S' => {
            proof {
                reveal_strlit("s");
                assert("s"@ =~= seq!['s']);
            }
            "s"
        },
        'T' => {
            proof {
                reveal_strlit("t");
                assert("t"@ =~= seq!['t']);
            }
            "t"
        },
        'U' => {
            proof {
                reveal_strlit("u");
                assert("u"@ =~= seq!['u']);
            }
            "u"
        },
        'V' => {
            proof {
                reveal_strlit("v");
                assert("v"@ =~= seq!['v']);
            }
            "v"
        },
        'W' => {
            proof {
                reveal_strlit("w");
                assert("w"@ =~= seq!['w']);
            }
            "w"
        },
        'X' => {
            proof {
                reveal_strlit("x");
                assert("x"@ =~= seq!['x']);
            }
            "x"
        },
        'Y' => {
            proof {
                reveal_strlit("y");
                assert("y"@ =~= seq!['y']);
            }
            "y"
        },
        _ => {
            proof {
                reveal_strlit("z");
                assert("z"@ =~= seq!['z']);
            }
            "z"
        },
    }
}

/// Lowercases the ASCII capitals of a string and keeps every other
/// character; extensions and icon names are matched in this folded form.
pub fn ascii_lowercase(s: &str) -> (r: String)
    ensures
        r@ =~= lower_spec(s@),
{
    let n = s.unicode_len();
    let mut out = String::new();
    let mut i: usize = 0;
    while i < n
        invariant
            i <= n,
            n == s@.len(),
            out@ =~= lower_spec(s@).take(i as int),
        decreases n - i,
    {
        let c = s.get_char(i);
        if 'A' <= c && c <= 'Z' {
            out.append(lower_char_str(c));
        } else {
            out.append(s.substring_char(i, i + 1));
            proof {
                assert(s@.subrange(i as int, i as int + 1) =~= seq![s@[i as int]]);
            }
        }
        proof {
            assert(lower_spec(s@).take(i as int).push(lower_char(s@[i as int])) =~= lower_spec(
                s@).take(i as int + 1));
        }
        i = i + 1;
    }
    proof {
        assert(lower_spec(s@).take(n as int) =~= lower_spec(s@));
    }
    out
}

/// Index of the last occurrence of `c` in `s`, if any.
pub open spec fn rfind_char(s: Seq<char>, c: char) -> Option<int>
    decreases s.len(),
{
    if s.len() == 0 {
        None
    } else if s.last() == c {
        Some(s.len() - 1)
    } else {
        rfind_char(s.drop_last(), c)
    }
}

/// `rfind_char` names the greatest index holding `c`.
proof fn lemma_rfind_char(s: Seq<char>, c: char)
    ensures
        match rfind_char(s, c) {
            Some(i) => 0 <= i < s.len() && s[i] == c && forall|j: int|
                i < j < s.len() ==> s[j] != c,
            None => forall|j: int| 0 <= j < s.len() ==> s[j] != c,
        },
    decreases s.len(),
{
    if s.len() > 0 && s.last() != c {
        lemma_rfind_char(s.drop_last(), c);
        match rfind_char(s.drop_last(), c) {
            Some(i) => {
                assert(s[i] == s.drop_last()[i]);
                assert forall|j: int| i < j < s.len() implies s[j] != c by {
                    if j < s.len() - 1 {
                        assert(s.drop_last()[j] == s[j]);
                    }
                }
            },
            None => {
                assert forall|j: int| 0 <= j < s.len() implies s[j] != c by {
                    if j < s.len() - 1 {
                        assert(s.drop_last()[j] == s[j]);
                    }
                }
            },
        }
    }
}

/// The extension of a filename: what follows the last dot, unless the name
/// has no dot or starts with its only dot (a dotfile has no extension).
pub open spec fn ext_spec(name: Seq<char>) -> Option<Seq<char>> {
    match rfind_char(name, '.') {
        None => None,
        Some(i) => if i == 0 {
            None
        } else {
            Some(name.skip(i + 1))
        },
    }
}

/// Extracts the extension of a filename, per `ext_spec`.
pub fn get_extension_from_filename(filename: &str) -> (r: Option<String>)
    ensures
        match r {
            Some(e) => ext_spec(filename@) == Some(e@),
            None => ext_spec(filename@) is None,
        },
{
    proof {
        lemma_rfind_char(filename@, '.');
    }
    let n = filename.unicode_len();
    let mut i: usize = n;
    while i > 0
        invariant
            i <= n,
            n == filename@.len(),
            forall|j: int| i <= j < n ==> filename@[j] != '.',
        decreases i,
    {
        if filename.get_char(i - 1) == '.' {
            proof {
                lemma_rfind_unique(filename@, '.', i as int - 1);
            }
            if i == 1 {
                return None;
            }
            return Some(String::from_str(filename.substring_char(i, n)));
        }
        i = i - 1;
    }
    None
}

/// An index holding `c` with no later occurrence is the one `rfind_char`
/// names.
proof fn lemma_rfind_unique(s: Seq<char>, c: char, i: int)
    requires
        0 <= i < s.len(),
        s[i] == c,
        forall|j: int| i < j < s.len() ==> s[j] != c,
    ensures
        rfind_char(s, c) == Some(i),
{
    lemma_rfind_char(s, c);
}

/// The icon shown for an extension: the extension itself when an icon
/// asset of that name exists, the generic fallback otherwise.
pub open spec fn icon_for(icons: Seq<Seq<char>>, ext: Seq<char>) -> Seq<char> {
    if icons.contains(ext) {
        ext
    } else {
        "default"@
    }
}

/// The listing record for one regular file: extension read from the name
/// and folded to lowercase, icon resolved against the available icon
/// assets.
pub open spec fn file_record(name: Seq<char>, size: nat, icons: Seq<Seq<char>>) -> MirrorFileV {
    let ext = match ext_spec(name) {
        None => Seq::<char>::empty(),
        Some(e) => lower_spec(e),
    };
    MirrorFileV { name: name, ext: ext, icon: icon_for(icons, ext), size: size, downloads: None }
}

/// Builds the listing records of the regular files of one directory, from
/// their enumerated names and sizes; `icons` names the icon assets that
/// exist.
pub fn read_files(children: Vec<(String, u64)>, icons: &Vec<String>) -> (r: Vec<MirrorFile>)
    ensures
        r@.len() == children@.len(),
        forall|i: int|
            0 <= i < children@.len() ==> r.deep_view()[i] == file_record(
                children@[i].0@,
                children@[i].1 as nat,
                icons.deep_view(),
            ),
{
    let n = children.len();
    let mut out: Vec<MirrorFile> = Vec::new();
    let mut i: usize = 0;
    while i < n
        invariant
            i <= n,
            n == children@.len(),
            out@.len() == i,
            forall|j: int|
                0 <= j < i ==> out.deep_view()[j] == file_record(
                    children@[j].0@,
                    children@[j].1 as nat,
                    icons.deep_view(),
                ),
        decreases n - i,
    {
        let name = &children[i].0;
        let size = children[i].1;
        let ext = match get_extension_from_filename(name.as_str()) {
            None => String::new(),
            Some(e) => ascii_lowercase(e.as_str()),
        };
        let icon = if contains_str(icons, ext.as_str()) {
            ext.clone()
        } else {
            String::from_str("default")
        };
        let rec = MirrorFile {
            name: name.clone(),
            ext: ext,
            icon: icon,
            size: size,
            downloads: None,
        };
        let ghost before = out.deep_view();
        proof {
            assert(rec@ == file_record(children@[i as int].0@, children@[i as int].1 as nat,
                icons.deep_view()));
        }
        out.push(rec);
        proof {
            assert(out.deep_view() =~= before.push(rec@));
        }
        i = i + 1;
    }
    out
}

/// The record of a subdirectory shown without a size.
pub open spec fn plain_folder_record(name: Seq<char>) -> MirrorFileV {
    MirrorFileV { name: name, ext: "folder"@, icon: "folder"@, size: 0, downloads: None }
}

/// Builds the plain subdirectory records of one directory (name only, no
/// sizes), as the directory browser frame shows them.
pub fn read_dirs(names: &Vec<String>) -> (r: Vec<MirrorFile>)
    ensures
        r@.len() == names@.len(),
        forall|i: int|
            0 <= i < names@.len() ==> r.deep_view()[i] == plain_folder_record(
                names.deep_view()[i],
            ),
{
    let n = names.len();
    let mut out: Vec<MirrorFile> = Vec::new();
    let mut i: usize = 0;
    while i < n
        invariant
            i <= n,
            n == names@.len(),
            out@.len() == i,
            forall|j: int|
                0 <= j < i ==> out.deep_view()[j] == plain_folder_record(names.deep_view()[j]),
        decreases n - i,
    {
        let rec = MirrorFile {
            name: names[i].clone(),
            ext: String::from_str("folder"),
            icon: String::from_str("folder"),
            size: 0,
            downloads: None,
        };
        let ghost before = out.deep_view();
        proof {
            assert(names.deep_view()[i as int] == names@[i as int]@);
        }
        out.push(rec);
        proof {
            assert(out.deep_view() =~= before.push(rec@));
        }
        i = i + 1;
    }
    out
}


/// One enumerated subdirectory, with the probed fact whether its own
/// children include a `HIDDEN` marker (such a subdirectory is left out of
/// listings entirely).
pub struct DirChild {
    pub name: String,
    pub has_hidden_marker: bool,
}

/// The record of a subdirectory shown with its aggregate size from the
/// Size Index.
pub open spec fn sized_folder_record(
    name: Seq<char>,
    evs: Seq<(Seq<Seq<char>>, nat, bool)>,
    base: Seq<Seq<char>>,
) -> MirrorFileV {
    MirrorFileV {
        name: name,
        ext: "folder"@,
        icon: "folder"@,
        size: folder_size_spec(evs, base.push(name)),
        downloads: None,
    }
}

/// The subdirectory records of one directory: `HIDDEN`-marked children are
/// skipped, the rest carry their aggregate size from the snapshot.
pub open spec fn read_dirs_sized_spec(
    children: Seq<DirChild>,
    evs: Seq<(Seq<Seq<char>>, nat, bool)>,
    base: Seq<Seq<char>>,
) -> Seq<MirrorFileV>
    decreases children.len(),
{
    if children.len() == 0 {
        Seq::empty()
    } else {
        let rest = read_dirs_sized_spec(children.drop_last(), evs, base);
        if children.last().has_hidden_marker {
            rest
        } else {
            rest.push(sized_folder_record(children.last().name@, evs, base))
        }
    }
}

/// Builds the subdirectory records of the directory at `base`, per
/// `read_dirs_sized_spec`: children holding a `HIDDEN` marker are not
/// listed; the others get their aggregate size from the snapshot, zero when
/// not indexed yet.
pub fn read_dirs_with_sizes(
    children: &Vec<DirChild>,
    entries: &Vec<FileEntry>,
    base: &FilePath,
) -> (r: Vec<MirrorFile>)
    ensures
        r.deep_view() == read_dirs_sized_spec(children@, entries.deep_view(), base@),
{
    let n = children.len();
    let mut out: Vec<MirrorFile> = Vec::new();
    let mut i: usize = 0;
    while i < n
        invariant
            i <= n,
            n == children@.len(),
            out.deep_view() =~= read_dirs_sized_spec(
                children@.take(i as int),
                entries.deep_view(),
                base@,
            ),
        decreases n - i,
    {
        proof {
            assert(children@.take(i as int + 1).drop_last() =~= children@.take(i as int));
            assert(children@.take(i as int + 1).last() == children@[i as int]);
        }
        let child = &children[i];
        if !child.has_hidden_marker {
            let mut p = base.dup();
            p.push_seg(child.name.clone());
            let size = folder_size(entries, &p);
            proof {
                assert(p@ =~= base@.push(child.name@));
            }
            let rec = MirrorFile {
                name: child.name.clone(),
                ext: String::from_str("folder"),
                icon: String::from_str("folder"),
                size: size,
                downloads: None,
            };
            let ghost before = out.deep_view();
            out.push(rec);
            proof {
                assert(out.deep_view() =~= before.push(rec@));
            }
        }
        i = i + 1;
    }
    proof {
        assert(children@.take(n as int) =~= children@);
    }
    out
}

/// Listing order: records sorted by name, lexicographically.
pub open spec fn sorted_names(s: Seq<MirrorFileV>) -> bool {
    forall|i: int, j: int| 0 <= i < j < s.len() ==> lex_le(#[trigger] s[i].name, #[trigger] s[j].name)
}

/// Sorts listing records by name (insertion sort): the result is ordered
/// and holds exactly the given records.
pub fn sort_by_name(list: Vec<MirrorFile>) -> (r: Vec<MirrorFile>)
    ensures
        sorted_names(r.deep_view()),
        r.deep_view().to_multiset() == list.deep_view().to_multiset(),
        r@.len() == list@.len(),
{
    let n = list.len();
    let mut out: Vec<MirrorFile> = Vec::new();
    let mut i: usize = 0;
    while i < n
        invariant
            i <= n,
            n == list@.len(),
            out@.len() == i,
            sorted_names(out.deep_view()),
            out.deep_view().to_multiset() =~= list.deep_view().take(i as int).to_multiset(),
        decreases n - i,
    {
        let x = list[i].dup();
        let mut j: usize = 0;
        while j < out.len() && !str_lt(x.name.as_str(), out[j].name.as_str())
            invariant
                j <= out@.len(),
                sorted_names(out.deep_view()),
                x@ == list.deep_view()[i as int],
                i < n,
                n == list@.len(),
                forall|k: int| 0 <= k < j ==> lex_le(out.deep_view()[k].name, x.name@),
            decreases out@.len() - j,
        {
            proof {
                assert(out.deep_view()[j as int].name == out@[j as int].name@);
                lemma_lex_total(out.deep_view()[j as int].name, x.name@);
            }
            j = j + 1;
        }
        let ghost before = out.deep_view();
        let ghost xj = j as int;
        proof {
            if xj < before.len() {
                assert(out.deep_view()[xj].name == out@[xj].name@);
            }
        }
        out.insert(j, x);
        proof {
            let after = out.deep_view();
            assert(after =~= before.insert(xj, list.deep_view()[i as int]));
            lemma_insert_keeps_order(before, xj, list.deep_view()[i as int]);
            crate::text::lemma_seq_insert_multiset(before, xj, list.deep_view()[i as int]);
            assert(list.deep_view().take(i as int + 1).drop_last() =~= list.deep_view().take(
                i as int));
            assert(list.deep_view().take(i as int + 1) =~= list.deep_view().take(
                i as int).push(list.deep_view()[i as int]));
        }
        i = i + 1;
    }
    proof {
        assert(list.deep_view().take(n as int) =~= list.deep_view());
    }
    out
}

/// Inserting a record at the found position keeps the listing ordered.
proof fn lemma_insert_keeps_order(s: Seq<MirrorFileV>, j: int, x: MirrorFileV)
    requires
        0 <= j <= s.len(),
        sorted_names(s),
        forall|k: int| 0 <= k < j ==> lex_le(#[trigger] s[k].name, x.name),
        j < s.len() ==> lex_lt(x.name, s[j].name),
    ensures
        sorted_names(s.insert(j, x)),
{
    let t = s.insert(j, x);
    assert forall|a: int, b: int| 0 <= a < b < t.len() implies lex_le(
        #[trigger] t[a].name,
        #[trigger] t[b].name,
    ) by {
        let sa = if a < j { s[a] } else if a == j { x } else { s[a - 1] };
        let sb = if b < j { s[b] } else if b == j { x } else { s[b - 1] };
        assert(t[a] == sa);
        assert(t[b] == sb);
        if a == j && b > j {
            assert(lex_lt(x.name, s[j].name));
            assert(lex_le(s[j].name, s[b - 1].name));
            lemma_lex_trans(x.name, s[j].name, s[b - 1].name);
        }
        if a < j && b == j {
            assert(lex_le(s[a].name, x.name));
        }
        if a < j && b > j {
            assert(lex_le(s[a].name, s[b - 1].name));
        }
    }
}

/// Whether some record carries exactly this name.
pub open spec fn has_name(s: Seq<MirrorFileV>, name: Seq<char>) -> bool {
    exists|i: int| 0 <= i < s.len() && (#[trigger] s[i]).name == name
}

/// Whether some record of the list carries exactly this name.
pub fn any_named(list: &Vec<MirrorFile>, name: &str) -> (r: bool)
    ensures
        r == has_name(list.deep_view(), name@),
{
    let n = list.len();
    let mut i: usize = 0;
    while i < n
        invariant
            i <= n,
            n == list@.len(),
            forall|j: int| 0 <= j < i ==> (#[trigger] list.deep_view()[j]).name != name@,
        decreases n - i,
    {
        proof {
            assert(list.deep_view()[i as int] == list@[i as int]@);
        }
        if str_eq(list[i].name.as_str(), name) {
            return true;
        }
        i = i + 1;
    }
    false
}

/// A record with the locked-folder display icon in place of its own; the
/// rest of the record is kept.
pub open spec fn locked_record(m: MirrorFileV) -> MirrorFileV {
    MirrorFileV { icon: "lockedfolder"@, ..m }
}

/// What the lock-propagation step yields: when the files of a listing
/// include a `RESTRICTED` marker, every subdirectory record gets the
/// locked-folder icon; otherwise the records are kept as they are. This is
/// a display hint only, not an access check.
pub open spec fn locked_icons_spec(
    dirs: Seq<MirrorFileV>,
    files: Seq<MirrorFileV>,
) -> Seq<MirrorFileV> {
    if has_name(files, "RESTRICTED"@) {
        Seq::new(dirs.len(), |i: int| locked_record(dirs[i]))
    } else {
        dirs
    }
}

/// Applies the locked-folder display icon, per `locked_icons_spec`.
pub fn apply_locked_icons(dirs: Vec<MirrorFile>, files: &Vec<MirrorFile>) -> (r: Vec<MirrorFile>)
    ensures
        r.deep_view() == locked_icons_spec(dirs.deep_view(), files.deep_view()),
{
    if !any_named(files, "RESTRICTED") {
        return dirs;
    }
    let n = dirs.len();
    let mut out: Vec<MirrorFile> = Vec::new();
    let mut i: usize = 0;
    while i < n
        invariant
            i <= n,
            n == dirs@.len(),
            out@.len() == i,
            forall|j: int|
                0 <= j < i ==> out.deep_view()[j] == locked_record(dirs.deep_view()[j]),
        decreases n - i,
    {
        let d = &dirs[i];
        let rec = MirrorFile {
            name: d.name.clone(),
            ext: d.ext.clone(),
            icon: String::from_str("lockedfolder"),
            size: d.size,
            downloads: d.downloads,
        };
        let ghost before = out.deep_view();
        proof {
            assert(dirs.deep_view()[i as int] == dirs@[i as int]@);
            assert(rec@ == locked_record(dirs.deep_view()[i as int]));
        }
        out.push(rec);
        proof {
            assert(out.deep_view() =~= before.push(rec@));
        }
        i = i + 1;
    }
    proof {
        assert(out.deep_view() =~= locked_icons_spec(dirs.deep_view(), files.deep_view()));
    }
    out
}

/// What the hidden-name suppression keeps: exactly the records whose name
/// is not on the configured hidden list, in order.
pub open spec fn visible_spec(s: Seq<MirrorFileV>, hidden: Seq<Seq<char>>) -> Seq<MirrorFileV> {
    s.filter(|m: MirrorFileV| !hidden.contains(m.name))
}

/// Drops the records whose name is on the configured hidden list, per
/// `visible_spec`.
pub fn retain_visible(list: Vec<MirrorFile>, hidden: &Vec<String>) -> (r: Vec<MirrorFile>)
    ensures
        r.deep_view() == visible_spec(list.deep_view(), hidden.deep_view()),
{
    let ghost flt = |m: MirrorFileV| !hidden.deep_view().contains(m.name);
    let n = list.len();
    let mut out: Vec<MirrorFile> = Vec::new();
    let mut i: usize = 0;
    while i < n
        invariant
            i <= n,
            n == list@.len(),
            flt == (|m: MirrorFileV| !hidden.deep_view().contains(m.name)),
            out.deep_view() =~= list.deep_view().take(i as int).filter(flt),
        decreases n - i,
    {
        proof {
            reveal_with_fuel(Seq::filter, 2);
            assert(list.deep_view().take(i as int + 1).drop_last() =~= list.deep_view().take(
                i as int));
            assert(list.deep_view().take(i as int + 1).last() == list.deep_view()[i as int]);
            assert(list.deep_view()[i as int] == list@[i as int]@);
        }
        let keep = !contains_str(hidden, list[i].name.as_str());
        if keep {
            let rec = list[i].dup();
            let ghost before = out.deep_view();
            out.push(rec);
            proof {
                assert(out.deep_view() =~= before.push(list.deep_view()[i as int]));
            }
        }
        i = i + 1;
    }
    proof {
        assert(list.deep_view().take(n as int) =~= list.deep_view());
    }
    out
}

/// The name of the localized readme for a language.
pub open spec fn readme_lang_spec(lang: Seq<char>) -> Seq<char> {
    "README."@ + lang + ".md"@
}

/// The readme rule: the localized `README.<lang>.md` wins over the plain
/// `README.md`; absence of both means nothing to render.
pub open spec fn readme_choice_ok(
    files: Seq<MirrorFileV>,
    lang: Seq<char>,
    r: Option<String>,
) -> bool {
    match r {
        Some(n) => {
            &&& has_name(files, n@)
            &&& n@ == readme_lang_spec(lang) || (n@ == "README.md"@ && !has_name(
                files,
                readme_lang_spec(lang),
            ))
        },
        None => !has_name(files, readme_lang_spec(lang)) && !has_name(files, "README.md"@),
    }
}

/// Picks which readme of a listing to render: the localized
/// localized readme of the language when present, else the plain
/// `README.md`, else none.
pub fn pick_readme(files: &Vec<MirrorFile>, lang: &str) -> (choice: Option<String>)
    ensures
        readme_choice_ok(files.deep_view(), lang@, choice),
{
    let mut localized = String::from_str("README.");
    localized.append(lang);
    localized.append(".md");
    proof {
        assert(localized@ =~= readme_lang_spec(lang@));
    }
    if any_named(files, localized.as_str()) {
        return Some(localized);
    }
    if any_named(files, "README.md") {
        return Some(String::from_str("README.md"));
    }
    None
}


/// The file records of one directory listing, before filtering and
/// ordering.
pub open spec fn file_records_spec(
    children: Seq<(String, u64)>,
    icons: Seq<Seq<char>>,
) -> Seq<MirrorFileV> {
    Seq::new(children.len(), |i: int| file_record(children[i].0@, children[i].1 as nat, icons))
}

/// Hidden-name suppression as the lister applies it: administrators see
/// everything, everyone else sees the visible records only.
pub open spec fn lister_visible(
    s: Seq<MirrorFileV>,
    hidden: Seq<Seq<char>>,
    perms: Option<i32>,
) -> Seq<MirrorFileV> {
    if perms == Some(0i32) {
        s
    } else {
        visible_spec(s, hidden)
    }
}

/// Whether the listing of `base` is blocked outright for this caller: a
/// `HIDDEN` marker on the ancestor chain blocks everyone but
/// administrators, and the refusal is indistinguishable from absence.
pub open spec fn list_folder_blocked(
    hidden_dirs: Seq<Seq<Seq<char>>>,
    base: Seq<Seq<char>>,
    perms: Option<i32>,
) -> bool {
    crate::visibility::marked_ancestor(hidden_dirs, base) && perms != Some(0i32)
}

/// A rendered directory listing: subdirectories first, then files, each
/// ordered by name, with the readme to attach when one is present.
#[derive(Debug)]
pub struct Listing {
    pub dirs: Vec<MirrorFile>,
    pub files: Vec<MirrorFile>,
    pub readme: Option<String>,
}

/// Produces the listing of the directory at `base` for one caller.
///
/// A `HIDDEN`-blocked directory answers `NotFound`, never an empty page:
/// hidden paths must not reveal their existence. Otherwise the enumerated
/// children become records (subdirectory sizes from the snapshot), the
/// locked-folder icon is propagated when a `RESTRICTED` marker is among
/// the files, non-administrators lose the configured hidden names, both
/// halves are ordered by name, and the readme is chosen.
pub fn list_folder(
    file_children: Vec<(String, u64)>,
    dir_children: &Vec<DirChild>,
    entries: &Vec<FileEntry>,
    base: &FilePath,
    hidden_dirs: &Vec<FilePath>,
    hidden_names: &Vec<String>,
    icons: &Vec<String>,
    perms: Option<i32>,
    lang: &str,
) -> (r: Result<Listing, Status>)
    ensures
        match r {
            Err(e) => e == Status::NotFound && list_folder_blocked(
                hidden_dirs.deep_view(),
                base@,
                perms,
            ),
            Ok(l) => ({
                let files0 = file_records_spec(file_children@, icons.deep_view());
                let dirs0 = locked_icons_spec(
                    read_dirs_sized_spec(dir_children@, entries.deep_view(), base@),
                    files0,
                );
                let filesv = lister_visible(files0, hidden_names.deep_view(), perms);
                let dirsv = lister_visible(dirs0, hidden_names.deep_view(), perms);
                &&& !list_folder_blocked(hidden_dirs.deep_view(), base@, perms)
                &&& sorted_names(l.dirs.deep_view())
                &&& sorted_names(l.files.deep_view())
                &&& l.dirs.deep_view().to_multiset() == dirsv.to_multiset()
                &&& l.files.deep_view().to_multiset() == filesv.to_multiset()
                &&& readme_choice_ok(l.files.deep_view(), lang@, l.readme)
            }),
        },
{
    if crate::visibility::is_hidden(base, hidden_dirs, perms) {
        return Err(Status::NotFound);
    }
    let ghost files0 = file_records_spec(file_children@, icons.deep_view());
    let files = read_files(file_children, icons);
    proof {
        assert(files.deep_view() =~= files0);
    }
    let dirs = read_dirs_with_sizes(dir_children, entries, base);
    let dirs = apply_locked_icons(dirs, &files);
    let is_admin = match perms {
        Some(p) => p == 0,
        None => false,
    };
    let (dirs, files) = if is_admin {
        (dirs, files)
    } else {
        (retain_visible(dirs, hidden_names), retain_visible(files, hidden_names))
    };
    let dirs = sort_by_name(dirs);
    let files = sort_by_name(files);
    let readme = pick_readme(&files, lang);
    Ok(Listing { dirs, files, readme })
}


/// No two records of the sequence share a name, as holds of the children
/// of one directory.
pub open spec fn distinct_names(s: Seq<MirrorFileV>) -> bool {
    forall|i: int, j: int|
        0 <= i < j < s.len() ==> (#[trigger] s[i]).name != (#[trigger] s[j]).name
}

/// One consistent order: when names are distinct, a set of records has
/// exactly one name-sorted arrangement, so any two sorted listings of the
/// same records agree record for record.
pub proof fn lemma_sorted_listing_unique(a: Seq<MirrorFileV>, b: Seq<MirrorFileV>)
    requires
        sorted_names(a),
        sorted_names(b),
        distinct_names(a),
        a.to_multiset() == b.to_multiset(),
    ensures
        a == b,
    decreases a.len(),
{
    assert(a.to_multiset().len() == a.len());
    assert(b.to_multiset().len() == b.len());
    if a.len() == 0 {
        assert(a =~= b);
    } else {
        assert(a.to_multiset().count(a[0]) > 0) by {
            assert(a.contains(a[0]));
        }
        assert(b.contains(a[0])) by {
            assert(b.to_multiset().count(a[0]) > 0);
        }
        assert(a.contains(b[0])) by {
            assert(b.to_multiset().count(b[0]) > 0) by {
                assert(b.contains(b[0]));
            }
            assert(a.to_multiset().count(b[0]) > 0);
        }
        let j = choose|j: int| 0 <= j < a.len() && a[j] == b[0];
        let k = choose|k: int| 0 <= k < b.len() && b[k] == a[0];
        assert(lex_le(a[0].name, b[0].name)) by {
            assert(a[j] == b[0]);
        }
        assert(lex_le(b[0].name, a[0].name)) by {
            assert(b[k] == a[0]);
        }
        assert(a[0].name == b[0].name) by {
            crate::text::lemma_lex_asymm(a[0].name, b[0].name);
            crate::text::lemma_lex_asymm(b[0].name, a[0].name);
        }
        assert(j == 0) by {
            if j != 0 {
                assert(a[0].name != a[j].name);
            }
        }
        assert(a[0] == b[0]);
        let ta = a.remove(0);
        let tb = b.remove(0);
        assert(ta.to_multiset() =~= a.to_multiset().remove(a[0]));
        assert(tb.to_multiset() =~= b.to_multiset().remove(b[0]));
        assert(sorted_names(ta)) by {
            assert(forall|i: int| 0 <= i < ta.len() ==> #[trigger] ta[i] == a[i + 1]);
        }
        assert(sorted_names(tb)) by {
            assert(forall|i: int| 0 <= i < tb.len() ==> #[trigger] tb[i] == b[i + 1]);
        }
        assert(distinct_names(ta)) by {
            assert(forall|i: int| 0 <= i < ta.len() ==> #[trigger] ta[i] == a[i + 1]);
        }
        lemma_sorted_listing_unique(ta, tb);
        assert forall|i: int| 0 <= i < a.len() implies a[i] == b[i] by {
            if i >= 1 {
                assert(a[i] == ta[i - 1]);
                assert(b[i] == tb[i - 1]);
                assert(ta[i - 1] == tb[i - 1]);
            }
        }
        assert(a =~= b);
    }
}

} // verus!
