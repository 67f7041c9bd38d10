//! Localized string tables: one table of interface strings per language,
//! with the list of language names a settings page offers. Reading and
//! parsing the language files happens outside the core; the store works on
//! the parsed key-value tables.

use vstd::prelude::*;

use crate::text::{lex_le, lemma_lex_total, lemma_lex_trans, lemma_seq_insert_multiset, str_eq,
    str_lt};

verus! {

broadcast use vstd::seq_lib::group_to_multiset_ensures;

/// First entry of a key-value table with exactly this key.
pub open spec fn assoc_find(t: Seq<(String, String)>, k: Seq<char>) -> Option<int>
    decreases t.len(),
{
    if t.len() == 0 {
        None
    } else if t[0].0@ == k {
        Some(0int)
    } else {
        match assoc_find(t.skip(1), k) {
            None => None,
            Some(i) => Some(i + 1),
        }
    }
}

/// The value a key-value table holds for a key, if any.
pub open spec fn assoc_value(t: Seq<(String, String)>, k: Seq<char>) -> Option<Seq<char>> {
    match assoc_find(t, k) {
        None => None,
        Some(i) => Some(t[i].1@),
    }
}

/// `assoc_find` names the first matching entry.
proof fn lemma_assoc_find(t: Seq<(String, String)>, k: Seq<char>)
    ensures
        match assoc_find(t, k) {
            Some(i) => 0 <= i < t.len() && t[i].0@ == k && forall|j: int|
                0 <= j < i ==> (#[trigger] t[j]).0@ != k,
            None => forall|j: int| 0 <= j < t.len() ==> (#[trigger] t[j]).0@ != k,
        },
    decreases t.len(),
{
    if t.len() > 0 && t[0].0@ != k {
        lemma_assoc_find(t.skip(1), k);
        match assoc_find(t.skip(1), k) {
            Some(i) => {
                assert(t[i + 1] == t.skip(1)[i]);
                assert forall|j: int| 0 <= j < i + 1 implies (#[trigger] t[j]).0@ != k by {
                    if j >= 1 {
                        assert(t.skip(1)[j - 1] == t[j]);
                    }
                }
            },
            None => {
                assert forall|j: int| 0 <= j < t.len() implies (#[trigger] t[j]).0@ != k by {
                    if j >= 1 {
                        assert(t.skip(1)[j - 1] == t[j]);
                    }
                }
            },
        }
    }
}

/// Looks a key up in a key-value table, per `assoc_value`.
pub fn table_lookup(t: &Vec<(String, String)>, k: &str) -> (r: Option<String>)
    ensures
        match r {
            Some(v) => assoc_value(t@, k@) == Some(v@),
            None => assoc_value(t@, k@) is None,
        },
{
    proof {
        lemma_assoc_find(t@, k@);
    }
    let n = t.len();
    let mut i: usize = 0;
    while i < n
        invariant
            i <= n,
            n == t@.len(),
            forall|j: int| 0 <= j < i ==> (#[trigger] t@[j]).0@ != k@,
        decreases n - i,
    {
        if str_eq(t[i].0.as_str(), k) {
            proof {
                lemma_assoc_unique(t@, k@, i as int);
            }
            return Some(t[i].1.clone());
        }
        i = i + 1;
    }
    None
}

/// An entry that matches, with no earlier match, is the one `assoc_find`
/// names.
proof fn lemma_assoc_unique(t: Seq<(String, String)>, k: Seq<char>, i: int)
    requires
        0 <= i < t.len(),
        t[i].0@ == k,
        forall|j: int| 0 <= j < i ==> (#[trigger] t[j]).0@ != k,
    ensures
        assoc_find(t, k) == Some(i),
{
    lemma_assoc_find(t, k);
}

/// First language whose code is exactly `lang`.
pub open spec fn store_find(
    ts: Seq<(String, Vec<(String, String)>)>,
    lang: Seq<char>,
) -> Option<int>
    decreases ts.len(),
{
    if ts.len() == 0 {
        None
    } else if ts[0].0@ == lang {
        Some(0int)
    } else {
        match store_find(ts.skip(1), lang) {
            None => None,
            Some(i) => Some(i + 1),
        }
    }
}

/// The table served for a requested language: its own when it is loaded,
/// the English one otherwise.
pub open spec fn translation_for(
    ts: Seq<(String, Vec<(String, String)>)>,
    lang: Seq<char>,
) -> Seq<(String, String)> {
    match store_find(ts, lang) {
        Some(i) => ts[i].1@,
        None => match store_find(ts, "en"@) {
            Some(i) => ts[i].1@,
            None => Seq::empty(),
        },
    }
}

/// `store_find` names the first matching language.
proof fn lemma_store_find(ts: Seq<(String, Vec<(String, String)>)>, lang: Seq<char>)
    ensures
        match store_find(ts, lang) {
            Some(i) => 0 <= i < ts.len() && ts[i].0@ == lang && forall|j: int|
                0 <= j < i ==> (#[trigger] ts[j]).0@ != lang,
            None => forall|j: int| 0 <= j < ts.len() ==> (#[trigger] ts[j]).0@ != lang,
        },
    decreases ts.len(),
{
    if ts.len() > 0 && ts[0].0@ != lang {
        lemma_store_find(ts.skip(1), lang);
        match store_find(ts.skip(1), lang) {
            Some(i) => {
                assert(ts[i + 1] == ts.skip(1)[i]);
                assert forall|j: int| 0 <= j < i + 1 implies (#[trigger] ts[j]).0@ != lang by {
                    if j >= 1 {
                        assert(ts.skip(1)[j - 1] == ts[j]);
                    }
                }
            },
            None => {
                assert forall|j: int| 0 <= j < ts.len() implies (#[trigger] ts[j]).0@ != lang by {
                    if j >= 1 {
                        assert(ts.skip(1)[j - 1] == ts[j]);
                    }
                }
            },
        }
    }
}

/// A matching language with no earlier match is the one `store_find`
/// names.
proof fn lemma_store_unique(ts: Seq<(String, Vec<(String, String)>)>, lang: Seq<char>, i: int)
    requires
        0 <= i < ts.len(),
        ts[i].0@ == lang,
        forall|j: int| 0 <= j < i ==> (#[trigger] ts[j]).0@ != lang,
    ensures
        store_find(ts, lang) == Some(i),
{
    lemma_store_find(ts, lang);
}

/// The `(code, display name)` pairs of the loaded languages, before
/// ordering.
pub open spec fn language_names_spec(
    files: Seq<(String, Vec<(String, String)>)>,
) -> Seq<(Seq<char>, Seq<char>)> {
    Seq::new(
        files.len(),
        |i: int|
            (
                files[i].0@,
                match assoc_value(files[i].1@, "language_name"@) {
                    Some(v) => v,
                    None => Seq::empty(),
                },
            ),
    )
}

/// Name pairs ordered by language code.
pub open spec fn sorted_by_code(s: Seq<(Seq<char>, Seq<char>)>) -> bool {
    forall|i: int, j: int| 0 <= i < j < s.len() ==> lex_le((#[trigger] s[i]).0, (#[trigger] s[j]).0)
}

/// The loaded string tables and the ordered list of language names.
pub struct TranslationStore {
    pub translations: Vec<(String, Vec<(String, String)>)>,
    pub language_names: Vec<(String, String)>,
}

impl TranslationStore {
    /// Builds the store from the parsed language files: one entry per
    /// file, carrying its code and its key-value table. Every file must
    /// name its language under the `language_name` key; the names are
    /// offered ordered by code.
    pub fn new(files: Vec<(String, Vec<(String, String)>)>) -> (r: TranslationStore)
        requires
            forall|i: int|
                0 <= i < files@.len() ==> assoc_value((#[trigger] files@[i]).1@, "language_name"@)
                    is Some,
        ensures
            r.translations == files,
            sorted_by_code(r.language_names.deep_view()),
            r.language_names.deep_view().to_multiset() == language_names_spec(
                files@,
            ).to_multiset(),
    {
        let n = files.len();
        let mut names: Vec<(String, String)> = Vec::new();
        proof {
            assert(names.deep_view() =~= Seq::<(Seq<char>, Seq<char>)>::empty());
            assert(language_names_spec(files@).take(0) =~= Seq::<(Seq<char>, Seq<char>)>::empty());
            assert(names.deep_view().to_multiset() =~= language_names_spec(files@).take(
                0).to_multiset());
        }
        let mut i: usize = 0;
        while i < n
            invariant
                i <= n,
                n == files@.len(),
                forall|j: int|
                    0 <= j < files@.len() ==> assoc_value(
                        (#[trigger] files@[j]).1@,
                        "language_name"@,
                    ) is Some,
                sorted_by_code(names.deep_view()),
                names.deep_view().to_multiset() =~= language_names_spec(files@).take(
                    i as int,
                ).to_multiset(),
            decreases n - i,
        {
            let code = files[i].0.clone();
            let display = match table_lookup(&files[i].1, "language_name") {
                Some(v) => v,
                None => String::new(),
            };
            let ghost pair = language_names_spec(files@)[i as int];
            proof {
                assert((code@, display@) == pair);
            }
            let mut j: usize = 0;
            while j < names.len() && !str_lt(code.as_str(), names[j].0.as_str())
                invariant
                    j <= names@.len(),
                    sorted_by_code(names.deep_view()),
                    forall|k: int|
                        0 <= k < j ==> lex_le((#[trigger] names.deep_view()[k]).0, code@),
                decreases names@.len() - j,
            {
                proof {
                    assert(names.deep_view()[j as int].0 == names@[j as int].0@);
                    lemma_lex_total(names.deep_view()[j as int].0, code@);
                }
                j = j + 1;
            }
            let ghost before = names.deep_view();
            let ghost xj = j as int;
            proof {
                if xj < before.len() {
                    assert(names.deep_view()[xj].0 == names@[xj].0@);
                }
            }
            names.insert(j, (code, display));
            proof {
                assert(names.deep_view() =~= before.insert(xj, pair));
                lemma_insert_sorted_by_code(before, xj, pair);
                lemma_seq_insert_multiset(before, xj, pair);
                assert(language_names_spec(files@).take(i as int + 1).drop_last()
                    =~= language_names_spec(files@).take(i as int));
                assert(language_names_spec(files@).take(i as int + 1) =~= language_names_spec(
                    files@,
                ).take(i as int).push(pair));
            }
            i = i + 1;
        }
        proof {
            assert(language_names_spec(files@).take(n as int) =~= language_names_spec(files@));
        }
        TranslationStore { translations: files, language_names: names }
    }

    /// The string table served for a language, per `translation_for`: the
    /// language's own when it is loaded, the English fallback otherwise.
    /// The store must hold the English table.
    pub fn get_translation(&self, lang: &str) -> (r: &Vec<(String, String)>)
        requires
            store_find(self.translations@, "en"@) is Some,
        ensures
            r@ == translation_for(self.translations@, lang@),
    {
        proof {
            lemma_store_find(self.translations@, lang@);
            lemma_store_find(self.translations@, "en"@);
        }
        let n = self.translations.len();
        let mut i: usize = 0;
        while i < n
            invariant
                i <= n,
                n == self.translations@.len(),
                forall|j: int| 0 <= j < i ==> (#[trigger] self.translations@[j]).0@ != lang@,
            decreases n - i,
        {
            if str_eq(self.translations[i].0.as_str(), lang) {
                proof {
                    lemma_store_unique(self.translations@, lang@, i as int);
                }
                return &self.translations[i].1;
            }
            i = i + 1;
        }
        let mut k: usize = 0;
        loop
            invariant
                k <= n,
                n == self.translations@.len(),
                store_find(self.translations@, "en"@) is Some,
                store_find(self.translations@, lang@) is None,
                forall|j: int| 0 <= j < k ==> (#[trigger] self.translations@[j]).0@ != "en"@,
            decreases n - k,
        {
            if k >= n {
                proof {
                    lemma_store_find(self.translations@, "en"@);
                    assert(false);
                }
                return &self.translations[0].1;
            }
            if str_eq(self.translations[k].0.as_str(), "en") {
                proof {
                    lemma_store_unique(self.translations@, "en"@, k as int);
                }
                return &self.translations[k].1;
            }
            k = k + 1;
        }
    }

    /// The `(code, display name)` pairs on offer, ordered by code.
    pub fn available_languages(&self) -> (r: &Vec<(String, String)>)
        ensures
            r == &self.language_names,
    {
        &self.language_names
    }
}

/// Inserting a pair at the found position keeps the list ordered by code.
proof fn lemma_insert_sorted_by_code(
    s: Seq<(Seq<char>, Seq<char>)>,
    j: int,
    x: (Seq<char>, Seq<char>),
)
    requires
        0 <= j <= s.len(),
        sorted_by_code(s),
        forall|k: int| 0 <= k < j ==> lex_le((#[trigger] s[k]).0, x.0),
        j < s.len() ==> crate::text::lex_lt(x.0, s[j].0),
    ensures
        sorted_by_code(s.insert(j, x)),
{
    let t = s.insert(j, x);
    assert forall|a: int, b: int| 0 <= a < b < t.len() implies lex_le(
        (#[trigger] t[a]).0,
        (#[trigger] t[b]).0,
    ) by {
        let sa = if a < j {
            s[a]
        } else if a == j {
            x
        } else {
            s[a - 1]
        };
        let sb = if b < j {
            s[b]
        } else if b == j {
            x
        } else {
            s[b - 1]
        };
        assert(t[a] == sa);
        assert(t[b] == sb);
        if a == j && b > j {
            assert(crate::text::lex_lt(x.0, s[j].0));
            assert(lex_le(s[j].0, s[b - 1].0));
            lemma_lex_trans(x.0, s[j].0, s[b - 1].0);
        }
        if a < j && b == j {
            assert(lex_le(s[a].0, x.0));
        }
        if a < j && b > j {
            assert(lex_le(s[a].0, s[b - 1].0));
        }
    }
}

} // verus!
