//! Character-sequence utilities shared by the path, listing and parsing code:
//! lexicographic ordering of names, searching for a separator, and decimal
//! number parsing.

use vstd::prelude::*;

verus! {

broadcast use vstd::seq_lib::group_to_multiset_ensures;

/// Inserting an element anywhere adds exactly it to a sequence's records.
pub proof fn lemma_seq_insert_multiset<T>(s: Seq<T>, j: int, x: T)
    requires
        0 <= j <= s.len(),
    ensures
        s.insert(j, x).to_multiset() == s.to_multiset().insert(x),
{
    let t = s.insert(j, x);
    assert(t.remove(j) =~= s);
    assert(t[j] == x);
    assert(t.remove(j).to_multiset() =~= t.to_multiset().remove(t[j]));
    assert(t.to_multiset().contains(x)) by {
        assert(t.contains(x));
    }
    assert forall|e: T|
        true implies #[trigger] t.to_multiset().count(e) == s.to_multiset().insert(x).count(
        e,
    ) by {
        if e == x {
            assert(s.to_multiset().count(e) == t.to_multiset().remove(x).count(e));
        } else {
            assert(s.to_multiset().count(e) == t.to_multiset().remove(x).count(e));
        }
    }
    assert(t.to_multiset() =~= s.to_multiset().insert(x));
}

/// Strict lexicographic order on character sequences, comparing code points
/// from the front; a proper prefix sorts before its extensions.
pub open spec fn lex_lt(a: Seq<char>, b: Seq<char>) -> bool
    decreases a.len(),
{
    if a.len() == 0 {
        b.len() > 0
    } else if b.len() == 0 {
        false
    } else if a[0] != b[0] {
        a[0] < b[0]
    } else {
        lex_lt(a.skip(1), b.skip(1))
    }
}

/// Non-strict companion of `lex_lt`.
pub open spec fn lex_le(a: Seq<char>, b: Seq<char>) -> bool {
    lex_lt(a, b) || a == b
}

/// Any two sequences are ordered or equal.
pub proof fn lemma_lex_total(a: Seq<char>, b: Seq<char>)
    ensures
        lex_lt(a, b) || lex_lt(b, a) || a == b,
    decreases a.len(),
{
    if a.len() == 0 {
        if b.len() == 0 {
            assert(a =~= b);
        }
    } else if b.len() == 0 {
    } else if a[0] == b[0] {
        lemma_lex_total(a.skip(1), b.skip(1));
        if a.skip(1) == b.skip(1) {
            assert(a.skip(1).len() == a.len() - 1);
            assert(b.skip(1).len() == b.len() - 1);
            assert(a.len() == b.len());
            assert forall|i: int| 0 <= i < a.len() implies a[i] == b[i] by {
                if i >= 1 {
                    assert(a.skip(1)[i - 1] == a[i]);
                    assert(b.skip(1)[i - 1] == b[i]);
                }
            }
            assert(a =~= b);
        }
    }
}

/// The strict order excludes equality.
pub proof fn lemma_lex_lt_irrefl(a: Seq<char>, b: Seq<char>)
    ensures
        lex_lt(a, b) ==> a != b,
    decreases a.len(),
{
    if a.len() != 0 && b.len() != 0 && a[0] == b[0] {
        lemma_lex_lt_irrefl(a.skip(1), b.skip(1));
        if lex_lt(a, b) && a == b {
            assert(a.skip(1) =~= b.skip(1));
        }
    }
}

/// The strict order is asymmetric.
pub proof fn lemma_lex_asymm(a: Seq<char>, b: Seq<char>)
    ensures
        lex_lt(a, b) ==> !lex_lt(b, a),
    decreases a.len(),
{
    if a.len() != 0 && b.len() != 0 && a[0] == b[0] {
        lemma_lex_asymm(a.skip(1), b.skip(1));
    }
}

/// The strict order is transitive.
pub proof fn lemma_lex_trans(a: Seq<char>, b: Seq<char>, c: Seq<char>)
    ensures
        lex_lt(a, b) && lex_lt(b, c) ==> lex_lt(a, c),
    decreases a.len(),
{
    if a.len() != 0 && b.len() != 0 && c.len() != 0 {
        lemma_lex_trans(a.skip(1), b.skip(1), c.skip(1));
    }
}

/// Two sequences that agree on their first `i` characters compare according
/// to what follows that common prefix.
proof fn lemma_lex_common_prefix(a: Seq<char>, b: Seq<char>, i: int)
    requires
        0 <= i <= a.len(),
        i <= b.len(),
        forall|j: int| 0 <= j < i ==> a[j] == b[j],
    ensures
        i < a.len() && i < b.len() && a[i] < b[i] ==> lex_lt(a, b),
        i == a.len() && i < b.len() ==> lex_lt(a, b),
        i == a.len() && i == b.len() ==> a == b,
    decreases i,
{
    if i == 0 {
        if a.len() == 0 && b.len() == 0 {
            assert(a =~= b);
        }
    } else {
        let a1 = a.skip(1);
        let b1 = b.skip(1);
        assert(forall|j: int| 0 <= j < i - 1 ==> a1[j] == b1[j]) by {
            assert(forall|j: int| 0 <= j < i - 1 ==> a1[j] == a[j + 1] && b1[j] == b[j + 1]);
        }
        lemma_lex_common_prefix(a1, b1, i - 1);
        if i < a.len() && i < b.len() && a[i] < b[i] {
            assert(a1[i - 1] == a[i] && b1[i - 1] == b[i]);
        }
        if i == a.len() && i == b.len() && a1 == b1 {
            assert(a =~= b) by {
                assert(forall|j: int| 1 <= j < a.len() ==> a[j] == #[trigger] a1[j - 1]);
            }
        }
    }
}

/// Whether `a` sorts strictly before `b` in the listing order.
pub fn str_lt(a: &str, b: &str) -> (r: bool)
    ensures
        r == lex_lt(a@, b@),
{
    let alen = a.unicode_len();
    let blen = b.unicode_len();
    let mut i: usize = 0;
    while i < alen && i < blen
        invariant
            i <= alen,
            i <= blen,
            alen == a@.len(),
            blen == b@.len(),
            forall|j: int| 0 <= j < i ==> a@[j] == b@[j],
        decreases alen - i,
    {
        let ca = a.get_char(i);
        let cb = b.get_char(i);
        if ca != cb {
            proof {
                lemma_lex_common_prefix(a@, b@, i as int);
                lemma_lex_common_prefix(b@, a@, i as int);
                lemma_lex_asymm(a@, b@);
                lemma_lex_asymm(b@, a@);
            }
            return ca < cb;
        }
        i = i + 1;
    }
    proof {
        lemma_lex_common_prefix(a@, b@, i as int);
        lemma_lex_common_prefix(b@, a@, i as int);
        lemma_lex_lt_irrefl(a@, b@);
        lemma_lex_lt_irrefl(b@, a@);
        lemma_lex_asymm(a@, b@);
        lemma_lex_asymm(b@, a@);
    }
    alen < blen
}

/// Whether two string slices hold the same characters.
pub fn str_eq(a: &str, b: &str) -> (r: bool)
    ensures
        r == (a@ == b@),
{
    let alen = a.unicode_len();
    let blen = b.unicode_len();
    if alen != blen {
        return false;
    }
    let mut i: usize = 0;
    while i < alen
        invariant
            i <= alen,
            alen == a@.len(),
            alen == b@.len(),
            forall|j: int| 0 <= j < i ==> a@[j] == b@[j],
        decreases alen - i,
    {
        if a.get_char(i) != b.get_char(i) {
            return false;
        }
        i = i + 1;
    }
    proof {
        assert(a@ =~= b@);
    }
    true
}

/// Position of the first occurrence of `c` in `s`, if any.
pub open spec fn find_char(s: Seq<char>, c: char) -> Option<int>
    decreases s.len(),
{
    if s.len() == 0 {
        None
    } else if s[0] == c {
        Some(0int)
    } else {
        match find_char(s.skip(1), c) {
            None => None,
            Some(i) => Some(i + 1),
        }
    }
}

/// `find_char` names the least index holding `c`, and `None` means absence.
pub proof fn lemma_find_char(s: Seq<char>, c: char)
    ensures
        match find_char(s, c) {
            Some(i) => 0 <= i < s.len() && s[i] == c && forall|j: int| 0 <= j < i ==> s[j] != c,
            None => forall|j: int| 0 <= j < s.len() ==> s[j] != c,
        },
    decreases s.len(),
{
    if s.len() > 0 && s[0] != c {
        lemma_find_char(s.skip(1), c);
        match find_char(s.skip(1), c) {
            Some(i) => {
                assert(s[i + 1] == s.skip(1)[i]);
                assert forall|j: int| 0 <= j < i + 1 implies s[j] != c by {
                    if j >= 1 {
                        assert(s.skip(1)[j - 1] == s[j]);
                    }
                }
            },
            None => {
                assert forall|j: int| 0 <= j < s.len() implies s[j] != c by {
                    if j >= 1 {
                        assert(s.skip(1)[j - 1] == s[j]);
                    }
                }
            },
        }
    }
}

/// First index of `c` in `s`, scanning from the front.
pub fn str_find(s: &str, c: char) -> (r: Option<usize>)
    ensures
        match r {
            Some(i) => find_char(s@, c) == Some(i as int),
            None => find_char(s@, c) is None,
        },
{
    proof {
        lemma_find_char(s@, c);
    }
    let n = s.unicode_len();
    let mut i: usize = 0;
    while i < n
        invariant
            i <= n,
            n == s@.len(),
            forall|j: int| 0 <= j < i ==> s@[j] != c,
        decreases n - i,
    {
        if s.get_char(i) == c {
            proof {
                lemma_find_unique(s@, c, i as int);
            }
            return Some(i);
        }
        i = i + 1;
    }
    None
}

/// An index holding `c` with no earlier occurrence is the one `find_char` names.
proof fn lemma_find_unique(s: Seq<char>, c: char, i: int)
    requires
        0 <= i < s.len(),
        s[i] == c,
        forall|j: int| 0 <= j < i ==> s[j] != c,
    ensures
        find_char(s, c) == Some(i),
{
    lemma_find_char(s, c);
    match find_char(s, c) {
        Some(k) => {
            if k < i {
            } else if k > i {
            }
        },
        None => {},
    }
}

/// Whether the list holds a string with exactly these characters.
pub fn contains_str(v: &Vec<String>, x: &str) -> (r: bool)
    ensures
        r == v.deep_view().contains(x@),
{
    let n = v.len();
    let mut i: usize = 0;
    while i < n
        invariant
            i <= n,
            n == v.len(),
            forall|j: int| 0 <= j < i ==> v.deep_view()[j] != x@,
        decreases n - i,
    {
        proof {
            assert(v.deep_view()[i as int] == v@[i as int]@);
        }
        if str_eq(v[i].as_str(), x) {
            return true;
        }
        i = i + 1;
    }
    false
}

/// Separator-split of a character sequence: the segments between occurrences
/// of `c`, in order, with empty segments kept. Splitting never yields an
/// empty list: a string without separators is one segment.
pub open spec fn split_on(s: Seq<char>, c: char) -> Seq<Seq<char>>
    decreases s.len(),
{
    if s.len() == 0 {
        seq![Seq::<char>::empty()]
    } else if s[0] == c {
        seq![Seq::<char>::empty()] + split_on(s.skip(1), c)
    } else {
        let rest = split_on(s.skip(1), c);
        seq![seq![s[0]] + rest[0]] + rest.skip(1)
    }
}

/// A separator-free string is a single segment.
pub proof fn lemma_split_no_sep(s: Seq<char>, c: char)
    requires
        forall|i: int| 0 <= i < s.len() ==> s[i] != c,
    ensures
        split_on(s, c) =~~= seq![s],
    decreases s.len(),
{
    if s.len() > 0 {
        assert(forall|i: int| 0 <= i < s.len() - 1 ==> s.skip(1)[i] == s[i + 1]);
        lemma_split_no_sep(s.skip(1), c);
        assert(seq![s[0]] + s.skip(1) =~= s);
    }
}

/// Splitting at the first separator peels off the leading segment.
pub proof fn lemma_split_concat(t: Seq<char>, rest: Seq<char>, c: char)
    requires
        forall|i: int| 0 <= i < t.len() ==> t[i] != c,
    ensures
        split_on(t + seq![c] + rest, c) =~~= seq![t] + split_on(rest, c),
    decreases t.len(),
{
    let s = t + seq![c] + rest;
    if t.len() == 0 {
        assert(s[0] == c);
        assert(s.skip(1) =~= rest);
    } else {
        assert(s[0] == t[0]);
        assert(s.skip(1) =~= t.skip(1) + seq![c] + rest);
        assert(forall|i: int| 0 <= i < t.len() - 1 ==> t.skip(1)[i] == t[i + 1]);
        lemma_split_concat(t.skip(1), rest, c);
        let r = split_on(s.skip(1), c);
        assert(r[0] == t.skip(1));
        assert(seq![s[0]] + r[0] =~= t);
        assert(r.skip(1) =~= split_on(rest, c));
    }
}

/// Splits `s` at every occurrence of `c`, keeping empty segments, as
/// `split_on` describes.
pub fn split_char(s: &str, c: char) -> (r: Vec<String>)
    ensures
        r.deep_view() =~~= split_on(s@, c),
{
    let n = s.unicode_len();
    let mut parts: Vec<String> = Vec::new();
    proof {
        assert(s@.skip(0int) =~= s@);
        assert(parts.deep_view() + split_on(s@, c) =~~= split_on(s@, c));
    }
    let mut start: usize = 0;
    let mut i: usize = 0;
    while i < n
        invariant
            start <= i <= n,
            n == s@.len(),
            parts.deep_view() + split_on(s@.skip(start as int), c) =~~= split_on(s@, c),
            forall|k: int| start <= k < i ==> s@[k] != c,
        decreases n - i,
    {
        if s.get_char(i) == c {
            let seg = s.substring_char(start, i);
            proof {
                let t = s@.subrange(start as int, i as int);
                assert(s@.skip(start as int) =~= t + seq![c] + s@.skip(i as int + 1));
                lemma_split_concat(t, s@.skip(i as int + 1), c);
            }
            let seg_owned = String::from_str(seg);
            proof {
                let old_parts = parts.deep_view();
                assert(old_parts.push(seg_owned@) =~= old_parts + seq![seg_owned@]);
            }
            parts.push(seg_owned);
            proof {
                assert(parts.deep_view() =~= parts.deep_view().drop_last().push(
                    s@.subrange(start as int, i as int)));
            }
            start = i + 1;
        }
        i = i + 1;
    }
    let seg = s.substring_char(start, n);
    proof {
        lemma_split_no_sep(s@.skip(start as int), c);
        assert(s@.subrange(start as int, n as int) =~= s@.skip(start as int));
    }
    parts.push(String::from_str(seg));
    parts
}

/// Decimal digit test.
pub open spec fn is_digit(c: char) -> bool {
    '0' <= c && c <= '9'
}

/// Numeric value of a digit string, most significant first.
pub open spec fn digits_val(s: Seq<char>) -> int
    decreases s.len(),
{
    if s.len() == 0 {
        0
    } else {
        digits_val(s.drop_last()) * 10 + (s.last() as nat - '0' as nat)
    }
}

/// A non-empty, all-digit string whose value fits in `u64`.
pub open spec fn is_u64_string(s: Seq<char>) -> bool {
    s.len() > 0 && (forall|i: int| 0 <= i < s.len() ==> is_digit(s[i])) && digits_val(s)
        <= u64::MAX
}

/// Reads a `u64` written in decimal; digits only, no sign, and `None` on an
/// empty string, a stray character, or overflow.
pub fn parse_u64(s: &str) -> (r: Option<u64>)
    ensures
        match r {
            Some(v) => is_u64_string(s@) && v == digits_val(s@),
            None => !is_u64_string(s@),
        },
{
    let n = s.unicode_len();
    if n == 0 {
        return None;
    }
    let mut acc: u64 = 0;
    let mut i: usize = 0;
    while i < n
        invariant
            i <= n,
            n == s@.len(),
            forall|j: int| 0 <= j < i ==> is_digit(s@[j]),
            acc == digits_val(s@.take(i as int)),
        decreases n - i,
    {
        let c = s.get_char(i);
        if c < '0' || c > '9' {
            return None;
        }
        let d: u64 = (c as u32 as u64) - ('0' as u32 as u64);
        proof {
            assert(s@.take(i as int + 1).drop_last() =~= s@.take(i as int));
            assert(s@.take(i as int + 1).last() == s@[i as int]);
            assert(((u64::MAX - d) / 10) * 10 + (u64::MAX - d) % 10 == u64::MAX - d);
        }
        if acc > (u64::MAX - d) / 10 {
            proof {
                if is_u64_string(s@) {
                    lemma_digits_prefix_monotone(s@, i as int + 1);
                    assert(false);
                }
            }
            return None;
        }
        acc = acc * 10 + d;
        i = i + 1;
    }
    proof {
        assert(s@.take(n as int) =~= s@);
    }
    Some(acc)
}

/// The value of an all-digit string is never negative.
proof fn lemma_digits_nonneg(s: Seq<char>)
    requires
        forall|j: int| 0 <= j < s.len() ==> is_digit(s[j]),
    ensures
        digits_val(s) >= 0,
    decreases s.len(),
{
    if s.len() > 0 {
        assert(forall|j: int| 0 <= j < s.len() - 1 ==> s.drop_last()[j] == s[j]);
        lemma_digits_nonneg(s.drop_last());
    }
}

/// For an all-digit string, a longer prefix never has a smaller value.
proof fn lemma_digits_prefix_monotone(s: Seq<char>, i: int)
    requires
        0 < i <= s.len(),
        forall|j: int| 0 <= j < s.len() ==> is_digit(s[j]),
    ensures
        digits_val(s) >= digits_val(s.take(i)),
    decreases s.len() - i,
{
    if i == s.len() {
        assert(s.take(i) =~= s);
    } else {
        lemma_digits_prefix_monotone(s, i + 1);
        assert(s.take(i + 1).drop_last() =~= s.take(i));
        assert(s.take(i + 1).last() == s[i]);
        assert(forall|j: int| 0 <= j < i ==> s.take(i)[j] == s[j]);
        lemma_digits_nonneg(s.take(i));
    }
}


/// Whitespace as the trimming and splitting here recognize it: the ASCII
/// blank characters.
pub open spec fn is_ws(c: char) -> bool {
    c == ' ' || c == '\t' || c == '\n' || c == '\r' || c == '\u{B}' || c == '\u{C}'
}

/// The sequence without its leading whitespace.
pub open spec fn trim_start_spec(s: Seq<char>) -> Seq<char>
    decreases s.len(),
{
    if s.len() > 0 && is_ws(s[0]) {
        trim_start_spec(s.skip(1))
    } else {
        s
    }
}

/// The sequence without its trailing whitespace.
pub open spec fn trim_end_spec(s: Seq<char>) -> Seq<char>
    decreases s.len(),
{
    if s.len() > 0 && is_ws(s.last()) {
        trim_end_spec(s.drop_last())
    } else {
        s
    }
}

/// The sequence without leading or trailing whitespace.
pub open spec fn trim_spec(s: Seq<char>) -> Seq<char> {
    trim_end_spec(trim_start_spec(s))
}

/// Leading whitespace reaches exactly to the first non-blank character.
proof fn lemma_trim_start(s: Seq<char>, i: int)
    requires
        0 <= i <= s.len(),
        forall|j: int| 0 <= j < i ==> is_ws(s[j]),
        i < s.len() ==> !is_ws(s[i]),
    ensures
        trim_start_spec(s) == s.skip(i),
    decreases i,
{
    if i == 0 {
        if s.len() > 0 {
        }
        assert(s.skip(0) =~= s);
    } else {
        assert(is_ws(s[0]));
        assert(forall|j: int| 0 <= j < i - 1 ==> is_ws(#[trigger] s.skip(1)[j]));
        if i - 1 < s.skip(1).len() {
            assert(s.skip(1)[i - 1] == s[i]);
        }
        lemma_trim_start(s.skip(1), i - 1);
        assert(s.skip(1).skip(i - 1) =~= s.skip(i));
    }
}

/// Trailing whitespace reaches exactly back to the last non-blank
/// character.
proof fn lemma_trim_end(s: Seq<char>, i: int)
    requires
        0 <= i <= s.len(),
        forall|j: int| i <= j < s.len() ==> is_ws(s[j]),
        i > 0 ==> !is_ws(s[i - 1]),
    ensures
        trim_end_spec(s) == s.take(i),
    decreases s.len() - i,
{
    if i == s.len() {
        if s.len() > 0 {
            assert(!is_ws(s.last()));
        }
        assert(s.take(i) =~= s);
    } else {
        assert(is_ws(s.last()));
        assert(forall|j: int| i <= j < s.len() - 1 ==> is_ws(#[trigger] s.drop_last()[j]));
        if i > 0 {
            assert(s.drop_last()[i - 1] == s[i - 1]);
        }
        lemma_trim_end(s.drop_last(), i);
        assert(s.drop_last().take(i) =~= s.take(i));
    }
}

/// Removes leading and trailing ASCII whitespace, per `trim_spec`.
pub fn trim(s: &str) -> (r: String)
    ensures
        r@ == trim_spec(s@),
{
    let n = s.unicode_len();
    let mut a: usize = 0;
    while a < n && is_ws_char(s.get_char(a))
        invariant
            a <= n,
            n == s@.len(),
            forall|j: int| 0 <= j < a ==> is_ws(s@[j]),
        decreases n - a,
    {
        a = a + 1;
    }
    proof {
        lemma_trim_start(s@, a as int);
    }
    let mut b: usize = n;
    while b > a && is_ws_char(s.get_char(b - 1))
        invariant
            a <= b <= n,
            n == s@.len(),
            forall|j: int| b <= j < n ==> is_ws(s@[j]),
        decreases b,
    {
        b = b - 1;
    }
    proof {
        let t = s@.skip(a as int);
        assert(forall|j: int| b - a <= j < t.len() ==> is_ws(#[trigger] t[j]));
        if b > a {
            assert(t[b - a - 1] == s@[b as int - 1]);
        }
        lemma_trim_end(t, b as int - a as int);
        assert(t.take(b as int - a as int) =~= s@.subrange(a as int, b as int));
    }
    String::from_str(s.substring_char(a, b))
}

/// Whitespace test on one character, per `is_ws`.
fn is_ws_char(c: char) -> (r: bool)
    ensures
        r == is_ws(c),
{
    c == ' ' || c == '\t' || c == '\n' || c == '\r' || c == '\u{B}' || c == '\u{C}'
}

/// The part of `s` before the first occurrence of `c`, or all of `s`.
pub open spec fn before_char(s: Seq<char>, c: char) -> Seq<char> {
    match find_char(s, c) {
        None => s,
        Some(i) => s.take(i),
    }
}

/// Cuts `s` at the first occurrence of `c`, per `before_char`.
pub fn cut_at(s: &str, c: char) -> (r: String)
    ensures
        r@ == before_char(s@, c),
{
    proof {
        lemma_find_char(s@, c);
    }
    let n = s.unicode_len();
    match str_find(s, c) {
        Some(i) => {
            let cut = String::from_str(s.substring_char(0, i));
            proof {
                assert(s@.subrange(0, i as int) =~= s@.take(i as int));
            }
            cut
        },
        None => {
            let whole = String::from_str(s.substring_char(0, n));
            proof {
                assert(s@.subrange(0, n as int) =~= s@);
            }
            whole
        },
    }
}

/// The digits of `s` after an optional sign.
pub open spec fn sign_body(s: Seq<char>) -> Seq<char> {
    if s.len() > 0 && (s[0] == '+' || s[0] == '-') {
        s.skip(1)
    } else {
        s
    }
}

/// The sign `s` carries: negative only under a leading minus.
pub open spec fn sign_of(s: Seq<char>) -> int {
    if s.len() > 0 && s[0] == '-' {
        -1
    } else {
        1
    }
}

/// A decimal `i32`: an optional sign, digits, and a value in range.
pub open spec fn is_i32_string(s: Seq<char>) -> bool {
    &&& sign_body(s).len() > 0
    &&& forall|i: int| 0 <= i < sign_body(s).len() ==> is_digit(#[trigger] sign_body(s)[i])
    &&& i32::MIN <= sign_of(s) * digits_val(sign_body(s)) <= i32::MAX
}

/// The value of a decimal `i32` string.
pub open spec fn i32_value(s: Seq<char>) -> int {
    sign_of(s) * digits_val(sign_body(s))
}

/// Reads an `i32` written in decimal with an optional leading sign; `None`
/// on an empty body, a stray character, or a value out of range.
pub fn parse_i32(s: &str) -> (r: Option<i32>)
    ensures
        match r {
            Some(v) => is_i32_string(s@) && v == i32_value(s@),
            None => !is_i32_string(s@),
        },
{
    let n = s.unicode_len();
    if n == 0 {
        return None;
    }
    let first = s.get_char(0);
    let negative = first == '-';
    let body = if first == '-' || first == '+' {
        String::from_str(s.substring_char(1, n))
    } else {
        String::from_str(s.substring_char(0, n))
    };
    proof {
        assert(s@.subrange(1, n as int) =~= s@.skip(1));
        assert(s@.subrange(0, n as int) =~= s@);
        assert(body@ == sign_body(s@));
    }
    match parse_u64(body.as_str()) {
        None => {
            proof {
                if is_i32_string(s@) {
                    assert(digits_val(sign_body(s@)) <= u64::MAX);
                }
            }
            None
        },
        Some(v) => {
            if negative {
                if v > 0x8000_0000u64 {
                    return None;
                }
                Some((-(v as i64)) as i32)
            } else {
                if v > 0x7fff_ffffu64 {
                    return None;
                }
                Some(v as i32)
            }
        },
    }
}


/// A line with a single trailing carriage return removed.
pub open spec fn strip_cr(p: Seq<char>) -> Seq<char> {
    if p.len() > 0 && p.last() == '\r' {
        p.drop_last()
    } else {
        p
    }
}

/// The lines of a text: split at newlines, one optional carriage return
/// stripped from the end of each line, and no phantom empty line after a
/// final newline.
pub open spec fn lines_spec(s: Seq<char>) -> Seq<Seq<char>> {
    let parts = split_on(s, '\n');
    let kept = if parts.last() == Seq::<char>::empty() {
        parts.drop_last()
    } else {
        parts
    };
    kept.map_values(|p: Seq<char>| strip_cr(p))
}

/// Splits a text into lines, per `lines_spec`.
pub fn split_lines(s: &str) -> (r: Vec<String>)
    ensures
        r.deep_view() =~~= lines_spec(s@),
{
    let mut parts = split_char(s, '\n');
    let plen = parts.len();
    proof {
        lemma_split_not_empty(s@, '\n');
        assert(parts.deep_view()[plen - 1] == parts@[plen - 1]@);
    }
    let ghost kept = {
        let ps = split_on(s@, '\n');
        if ps.last() == Seq::<char>::empty() {
            ps.drop_last()
        } else {
            ps
        }
    };
    if parts[plen - 1].unicode_len() == 0 {
        let ghost old_deep = parts.deep_view();
        proof {
            assert(old_deep.last() =~= Seq::<char>::empty());
        }
        let _ = parts.pop();
        proof {
            assert(parts.deep_view() =~= old_deep.drop_last());
        }
    }
    proof {
        assert(parts.deep_view() =~~= kept);
    }
    let n = parts.len();
    let mut out: Vec<String> = Vec::new();
    let mut i: usize = 0;
    while i < n
        invariant
            i <= n,
            n == parts@.len(),
            parts.deep_view() =~~= kept,
            out.deep_view() =~~= kept.map_values(|p: Seq<char>| strip_cr(p)).take(i as int),
        decreases n - i,
    {
        proof {
            assert(parts.deep_view()[i as int] == parts@[i as int]@);
            assert(kept.map_values(|p: Seq<char>| strip_cr(p))[i as int] == strip_cr(
                kept[i as int]));
        }
        let part = &parts[i];
        let pl = part.unicode_len();
        let line = if pl > 0 && part.as_str().get_char(pl - 1) == '\r' {
            let cut = String::from_str(part.as_str().substring_char(0, pl - 1));
            proof {
                assert(part@.subrange(0, pl as int - 1) =~= part@.drop_last());
            }
            cut
        } else {
            part.clone()
        };
        let ghost before = out.deep_view();
        out.push(line);
        proof {
            assert(out.deep_view() =~= before.push(line@));
            assert(out.deep_view() =~~= kept.map_values(|p: Seq<char>| strip_cr(p)).take(
                i as int + 1));
        }
        i = i + 1;
    }
    proof {
        let mapped = kept.map_values(|p: Seq<char>| strip_cr(p));
        assert(mapped.take(n as int) =~= mapped);
    }
    out
}

/// A split always yields at least one segment.
pub proof fn lemma_split_not_empty(s: Seq<char>, c: char)
    ensures
        split_on(s, c).len() >= 1,
    decreases s.len(),
{
    if s.len() > 0 {
        lemma_split_not_empty(s.skip(1), c);
    }
}


/// Segments joined with one separator between each pair.
pub open spec fn join_with(ls: Seq<Seq<char>>, c: char) -> Seq<char>
    decreases ls.len(),
{
    if ls.len() == 0 {
        Seq::empty()
    } else if ls.len() == 1 {
        ls[0]
    } else {
        ls[0] + seq![c] + join_with(ls.skip(1), c)
    }
}

/// Appending the next segment extends the joined text by a separator and
/// the segment (the first segment comes bare).
pub proof fn lemma_join_with_push(ls: Seq<Seq<char>>, c: char, k: int)
    requires
        0 <= k < ls.len(),
    ensures
        join_with(ls.take(k + 1), c) == if k == 0 {
            ls[0]
        } else {
            join_with(ls.take(k), c) + seq![c] + ls[k]
        },
    decreases k,
{
    if k == 0 {
        assert(ls.take(1) =~= seq![ls[0]]);
    } else {
        lemma_join_with_push(ls.skip(1), c, k - 1);
        let t1 = ls.take(k + 1);
        assert(t1[0] == ls[0]);
        assert(t1.skip(1) =~= ls.skip(1).take(k));
        let t0 = ls.take(k);
        assert(t0[0] == ls[0]);
        if k == 1 {
            assert(t0 =~= seq![ls[0]]);
            assert(ls.skip(1).take(1) =~= seq![ls.skip(1)[0]]);
            assert(ls.skip(1)[0] == ls[1]);
        } else {
            assert(t0.skip(1) =~= ls.skip(1).take(k - 1));
            assert(ls.skip(1)[k - 1] == ls[k]);
            assert(ls[0] + seq![c] + (join_with(ls.skip(1).take(k - 1), c) + seq![c] + ls[k])
                =~= (ls[0] + seq![c] + join_with(ls.skip(1).take(k - 1), c)) + seq![c] + ls[k]);
        }
    }
}

/// Joins strings with one separator character, per `join_with`.
pub fn join_strings(parts: &Vec<String>, from: usize, sep: &str) -> (r: String)
    requires
        from <= parts@.len(),
        sep@.len() == 1,
    ensures
        r@ == join_with(parts.deep_view().skip(from as int), sep@[0]),
{
    let ghost ls = parts.deep_view().skip(from as int);
    let n = parts.len();
    let mut out = String::new();
    let mut i: usize = from;
    proof {
        assert(ls.take(0) =~= Seq::<Seq<char>>::empty());
    }
    while i < n
        invariant
            from <= i <= n,
            n == parts@.len(),
            sep@.len() == 1,
            ls == parts.deep_view().skip(from as int),
            out@ == join_with(ls.take(i as int - from), sep@[0]),
        decreases n - i,
    {
        if i > from {
            out.append(sep);
            proof {
                assert(sep@ =~= seq![sep@[0]]);
            }
        }
        proof {
            assert(parts.deep_view()[i as int] == parts@[i as int]@);
            assert(ls[i as int - from] == parts.deep_view()[i as int]);
        }
        out.append(parts[i].as_str());
        proof {
            lemma_join_with_push(ls, sep@[0], i as int - from);
            if i == from {
                assert(out@ =~= ls[0]);
            } else {
                assert(out@ =~= join_with(ls.take(i as int - from), sep@[0]) + seq![sep@[0]]
                    + ls[i as int - from]);
            }
        }
        i = i + 1;
    }
    proof {
        assert(ls.take(n as int - from as int) =~= ls);
    }
    out
}

} // verus!
