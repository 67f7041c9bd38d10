//! Canonical path representation for the mirror tree.
//!
//! Every path that the core reasons about is a sequence of plain name
//! segments, with no separator characters inside a segment and no `.` or
//! `..` steps. Using one normalized form everywhere collapses the
//! trailing-separator and string-matching conventions that ad-hoc path
//! strings invite, and makes prefix (ancestor) relations direct.

use vstd::prelude::*;

use crate::text::{split_on, split_char, str_eq};

verus! {

/// A single path segment is acceptable: non-empty, holds no separator, and
/// is not a `.` or `..` step.
pub open spec fn seg_ok(s: Seq<char>) -> bool {
    &&& s.len() > 0
    &&& forall|i: int| 0 <= i < s.len() ==> s[i] != '/'
    &&& s != seq!['.']
    &&& s != seq!['.', '.']
}

/// All segments of a path are acceptable.
pub open spec fn path_ok(p: Seq<Seq<char>>) -> bool {
    forall|i: int| 0 <= i < p.len() ==> seg_ok(#[trigger] p[i])
}

/// `a` names `b` itself or an ancestor directory of `b`.
pub open spec fn is_prefix_of(a: Seq<Seq<char>>, b: Seq<Seq<char>>) -> bool {
    a.len() <= b.len() && forall|i: int| 0 <= i < a.len() ==> a[i] == b[i]
}

/// A relative or resolved filesystem path, as a list of name segments; the
/// empty list is the tree root.
#[derive(Debug)]
pub struct FilePath {
    pub segs: Vec<String>,
}

impl View for FilePath {
    type V = Seq<Seq<char>>;

    open spec fn view(&self) -> Seq<Seq<char>> {
        self.segs.deep_view()
    }
}

impl FilePath {
    /// The path is in canonical form.
    pub open spec fn wf(&self) -> bool {
        path_ok(self@)
    }

    /// The root path, with no segments.
    pub fn root() -> (r: FilePath)
        ensures
            r@ =~= Seq::<Seq<char>>::empty(),
            r.wf(),
    {
        FilePath { segs: Vec::new() }
    }

    /// An identical copy of the path.
    pub fn dup(&self) -> (r: FilePath)
        ensures
            r@ =~= self@,
    {
        let mut segs: Vec<String> = Vec::new();
        let n = self.segs.len();
        let mut i: usize = 0;
        while i < n
            invariant
                i <= n,
                n == self.segs.len(),
                segs.deep_view() =~= self@.take(i as int),
            decreases n - i,
        {
            segs.push(self.segs[i].clone());
            proof {
                assert(segs.deep_view() =~= self@.take(i as int).push(self@[i as int]));
                assert(self@.take(i as int).push(self@[i as int]) =~= self@.take(i as int + 1));
            }
            i = i + 1;
        }
        proof {
            assert(self@.take(n as int) =~= self@);
        }
        FilePath { segs }
    }

    /// Appends one segment.
    pub fn push_seg(&mut self, seg: String)
        ensures
            final(self)@ =~= old(self)@.push(seg@),
    {
        self.segs.push(seg);
        proof {
            assert(self.segs.deep_view() =~= old(self).segs.deep_view().push(seg@));
        }
    }

    /// The number of segments.
    pub fn depth(&self) -> (r: usize)
        ensures
            r == self@.len(),
    {
        self.segs.len()
    }

    /// Whether the first segment of the path is exactly `name`.
    pub fn starts_with(&self, name: &str) -> (r: bool)
        ensures
            r == (self@.len() > 0 && self@[0] == name@),
    {
        if self.segs.len() == 0 {
            return false;
        }
        str_eq(self.segs[0].as_str(), name)
    }

    /// The path without its first segment.
    pub fn tail(&self) -> (r: FilePath)
        requires
            self@.len() > 0,
        ensures
            r@ =~= self@.skip(1),
    {
        let mut segs: Vec<String> = Vec::new();
        let n = self.segs.len();
        let mut i: usize = 1;
        while i < n
            invariant
                1 <= i <= n,
                n == self.segs.len(),
                segs.deep_view() =~= self@.subrange(1, i as int),
            decreases n - i,
        {
            segs.push(self.segs[i].clone());
            proof {
                assert(segs.deep_view() =~= self@.subrange(1, i as int).push(self@[i as int]));
                assert(self@.subrange(1, i as int).push(self@[i as int]) =~= self@.subrange(
                    1, i as int + 1));
            }
            i = i + 1;
        }
        proof {
            assert(self@.subrange(1, n as int) =~= self@.skip(1));
        }
        FilePath { segs }
    }

    /// The ancestor of this path with the given number of leading segments.
    pub fn prefix(&self, len: usize) -> (r: FilePath)
        requires
            len <= self@.len(),
        ensures
            r@ =~= self@.take(len as int),
    {
        let mut segs: Vec<String> = Vec::new();
        let mut i: usize = 0;
        while i < len
            invariant
                i <= len,
                len <= self.segs.len(),
                segs.deep_view() =~= self@.take(i as int),
            decreases len - i,
        {
            segs.push(self.segs[i].clone());
            proof {
                assert(segs.deep_view() =~= self@.take(i as int).push(self@[i as int]));
                assert(self@.take(i as int).push(self@[i as int]) =~= self@.take(i as int + 1));
            }
            i = i + 1;
        }
        FilePath { segs }
    }

    /// Exact equality of two paths.
    pub fn equals(&self, other: &FilePath) -> (r: bool)
        ensures
            r == (self@ == other@),
    {
        let n = self.segs.len();
        if n != other.segs.len() {
            proof {
                assert(self@.len() == n);
                assert(other@.len() == other.segs@.len());
            }
            return false;
        }
        let mut i: usize = 0;
        while i < n
            invariant
                i <= n,
                n == self.segs.len(),
                n == other.segs.len(),
                forall|j: int| 0 <= j < i ==> self@[j] == other@[j],
            decreases n - i,
        {
            if !str_eq(self.segs[i].as_str(), other.segs[i].as_str()) {
                proof {
                    assert(self@[i as int] == self.segs@[i as int]@);
                    assert(other@[i as int] == other.segs@[i as int]@);
                }
                return false;
            }
            i = i + 1;
        }
        proof {
            assert(self@ =~~= other@);
        }
        true
    }

    /// Whether `self` is `other` or an ancestor of `other`.
    pub fn is_prefix(&self, other: &FilePath) -> (r: bool)
        ensures
            r == is_prefix_of(self@, other@),
    {
        let n = self.segs.len();
        if n > other.segs.len() {
            return false;
        }
        let mut i: usize = 0;
        while i < n
            invariant
                i <= n,
                n == self.segs.len(),
                n <= other.segs.len(),
                forall|j: int| 0 <= j < i ==> self@[j] == other@[j],
            decreases n - i,
        {
            if !str_eq(self.segs[i].as_str(), other.segs[i].as_str()) {
                proof {
                    assert(self@[i as int] == self.segs@[i as int]@);
                    assert(other@[i as int] == other.segs@[i as int]@);
                }
                return false;
            }
            i = i + 1;
        }
        true
    }

    /// The segments of `s` split at `/`, with empty segments dropped; this
    /// is the canonical reading of a URL-supplied relative path.
    pub open spec fn parse_spec(s: Seq<char>) -> Seq<Seq<char>> {
        split_on(s, '/').filter(|seg: Seq<char>| seg.len() > 0)
    }

    /// Reads a relative path from a `/`-separated string. Empty segments
    /// (leading, trailing or doubled separators) are dropped; a `.` or `..`
    /// step is refused, so a parsed path never escapes the tree it is
    /// resolved under.
    pub fn parse(s: &str) -> (r: Option<FilePath>)
        ensures
            match r {
                Some(p) => p@ =~~= Self::parse_spec(s@) && p.wf(),
                None => !path_ok(Self::parse_spec(s@)),
            },
    {
        let parts = split_char(s, '/');
        let ghost flt = |seg: Seq<char>| seg.len() > 0;
        let mut segs: Vec<String> = Vec::new();
        let n = parts.len();
        let mut i: usize = 0;
        while i < n
            invariant
                i <= n,
                n == parts.len(),
                parts.deep_view() =~~= split_on(s@, '/'),
                flt == (|seg: Seq<char>| seg.len() > 0),
                segs.deep_view() =~~= parts.deep_view().take(i as int).filter(flt),
                path_ok(segs.deep_view()),
            decreases n - i,
        {
            proof {
                let pv = parts.deep_view();
                assert(pv.take(i as int + 1).drop_last() =~= pv.take(i as int));
                assert(pv.take(i as int + 1).last() == pv[i as int]);
                reveal_with_fuel(Seq::filter, 2);
                lemma_split_segments_free(s@, '/', i as int);
            }
            let part = &parts[i];
            if part.unicode_len() > 0 {
                if str_eq(part.as_str(), ".") || str_eq(part.as_str(), "..") {
                    proof {
                        reveal_strlit(".");
                        reveal_strlit("..");
                        assert("."@ =~= seq!['.']);
                        assert(".."@ =~= seq!['.', '.']);
                        let pv = parts.deep_view();
                        lemma_filter_take_contains(pv, i as int, flt);
                        assert(!seg_ok(pv[i as int]));
                    }
                    return None;
                }
                proof {
                    reveal_strlit(".");
                    reveal_strlit("..");
                    assert("."@ =~= seq!['.']);
                    assert(".."@ =~= seq!['.', '.']);
                }
                let ghost old_deep = segs.deep_view();
                segs.push(part.clone());
                proof {
                    assert(segs.deep_view() =~= old_deep.push(parts.deep_view()[i as int]));
                }
            }
            i = i + 1;
        }
        proof {
            assert(parts.deep_view().take(n as int) =~= parts.deep_view());
        }
        Some(FilePath { segs })
    }
}

/// A segment produced by splitting on `/` holds no `/`.
pub open spec fn seg_has_no_sep(s: Seq<char>) -> bool {
    forall|i: int| 0 <= i < s.len() ==> s[i] != '/'
}

/// Every segment of a separator split is separator-free.
proof fn lemma_split_segments_free(s: Seq<char>, c: char, k: int)
    requires
        0 <= k < split_on(s, c).len(),
    ensures
        forall|i: int| 0 <= i < split_on(s, c)[k].len() ==> split_on(s, c)[k][i] != c,
    decreases s.len(),
{
    if s.len() == 0 {
    } else if s[0] == c {
        if k > 0 {
            lemma_split_segments_free(s.skip(1), c, k - 1);
        }
    } else {
        let rest = split_on(s.skip(1), c);
        crate::text::lemma_split_not_empty(s.skip(1), c);
        if k == 0 {
            lemma_split_segments_free(s.skip(1), c, 0);
            assert(split_on(s, c)[0] =~= seq![s[0]] + rest[0]);
        } else {
            lemma_split_segments_free(s.skip(1), c, k);
            assert(split_on(s, c)[k] =~= rest.skip(1)[k - 1]);
        }
    }
}

/// If the filtered take contains a given kept element, membership carries to
/// the filtered whole; used to refute well-formedness when a `.` step shows
/// up.
proof fn lemma_filter_take_contains(pv: Seq<Seq<char>>, i: int, flt: spec_fn(Seq<char>) -> bool)
    requires
        0 <= i < pv.len(),
        flt(pv[i]),
    ensures
        pv.filter(flt).contains(pv[i]),
{
    pv.lemma_filter_contains(flt, i);
}

} // verus!
