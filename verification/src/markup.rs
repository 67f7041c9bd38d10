//! Markdown rendering: readmes attached to listings, standalone markdown
//! pages, and the description panel of a video page all embed HTML
//! produced from markdown text.

use vstd::prelude::*;

use crate::text::{lines_spec, split_lines, trim, trim_spec};

verus! {

/// The HTML that rendering a markdown text yields.
pub uninterp spec fn html_of(md: Seq<char>) -> Seq<char>;

/// Relies on markdown::to_html: turns markdown text into HTML; the result
/// depends on the text alone.
#[verifier::external_body]
fn to_html(text: &str) -> (r: String)
    ensures
        r@ == html_of(text@),
{
    markdown::to_html(text)
}

/// Renders a markdown body to the HTML a page embeds.
pub fn render_markdown(text: &str) -> (r: String)
    ensures
        r@ == html_of(text@),
{
    to_html(text)
}

/// What a video metadata file means: its first line, with leading heading
/// marks and surrounding blanks removed, is the title; the remaining lines
/// are the markdown of the description.
pub open spec fn video_title_spec(md: Seq<char>) -> Seq<char> {
    if lines_spec(md).len() == 0 {
        Seq::empty()
    } else {
        trim_spec(strip_heading_marks(lines_spec(md)[0]))
    }
}

/// The line without its leading `#` heading marks.
pub open spec fn strip_heading_marks(line: Seq<char>) -> Seq<char>
    decreases line.len(),
{
    if line.len() > 0 && line[0] == '#' {
        strip_heading_marks(line.skip(1))
    } else {
        line
    }
}

/// The description part of a video metadata file: every line after the
/// first, joined back with newlines.
pub open spec fn video_details_spec(md: Seq<char>) -> Seq<char> {
    if lines_spec(md).len() == 0 {
        Seq::empty()
    } else {
        join_newlines(lines_spec(md).skip(1))
    }
}

/// Lines joined with a newline between each pair.
pub open spec fn join_newlines(ls: Seq<Seq<char>>) -> Seq<char>
    decreases ls.len(),
{
    if ls.len() == 0 {
        Seq::empty()
    } else if ls.len() == 1 {
        ls[0]
    } else {
        ls[0] + seq!['\n'] + join_newlines(ls.skip(1))
    }
}

/// Splits a video metadata file into the title and the rendered HTML of
/// the description, per `video_title_spec` and `video_details_spec`.
pub fn video_details(md: &str) -> (r: (String, String))
    ensures
        r.0@ == video_title_spec(md@),
        r.1@ == html_of(video_details_spec(md@)),
{
    let lines = split_lines(md);
    let title = if lines.len() == 0 {
        String::new()
    } else {
        let first = &lines[0];
        proof {
            assert(lines.deep_view()[0] == lines@[0]@);
        }
        let stripped = strip_heading(first.as_str());
        trim(stripped.as_str())
    };
    let mut rest = String::new();
    let n = lines.len();
    let mut i: usize = 1;
    proof {
        if n >= 1 {
            lemma_join_take(lines.deep_view().skip(1), 0);
            assert(lines.deep_view().skip(1).take(0) =~= Seq::<Seq<char>>::empty());
        }
    }
    while i < n
        invariant
            1 <= i <= n || (n == 0 && i == 1),
            n == lines@.len(),
            n >= 1 ==> rest@ == join_newlines(lines.deep_view().skip(1).take(i as int - 1)),
            n == 0 ==> rest@ == Seq::<char>::empty(),
        decreases n - i,
    {
        let ghost prev = rest@;
        if i > 1 {
            proof {
                reveal_strlit("\n");
                assert("\n"@ =~= seq!['\n']);
            }
            rest.append("\n");
        }
        proof {
            assert(lines.deep_view()[i as int] == lines@[i as int]@);
        }
        rest.append(lines[i].as_str());
        proof {
            lemma_join_push(lines.deep_view().skip(1), i as int - 1);
            assert(lines.deep_view().skip(1)[i as int - 1] == lines.deep_view()[i as int]);
            if i == 1 {
                assert(rest@ =~= lines.deep_view()[1]);
            } else {
                assert(rest@ =~= join_newlines(lines.deep_view().skip(1).take(i as int - 1))
                    + seq!['\n'] + lines.deep_view()[i as int]);
            }
        }
        i = i + 1;
    }
    proof {
        if n >= 1 {
            assert(lines.deep_view().skip(1).take(n as int - 1) =~= lines.deep_view().skip(1));
        } else {
            assert(lines_spec(md@).len() == 0);
        }
    }
    let html = to_html(rest.as_str());
    (title, html)
}

/// Appending the next line extends the joined text by a separator and the
/// line (the first line comes bare).
proof fn lemma_join_push(ls: Seq<Seq<char>>, k: int)
    requires
        0 <= k < ls.len(),
    ensures
        join_newlines(ls.take(k + 1)) == if k == 0 {
            ls[0]
        } else {
            join_newlines(ls.take(k)) + seq!['\n'] + ls[k]
        },
    decreases k,
{
    if k == 0 {
        assert(ls.take(1) =~= seq![ls[0]]);
    } else {
        lemma_join_push(ls.skip(1), k - 1);
        let t1 = ls.take(k + 1);
        assert(t1[0] == ls[0]);
        assert(t1.skip(1) =~= ls.skip(1).take(k));
        let t0 = ls.take(k);
        assert(t0[0] == ls[0]);
        if k == 1 {
            assert(t0 =~= seq![ls[0]]);
            assert(ls.skip(1).take(1) =~= seq![ls.skip(1)[0]]);
            assert(ls.skip(1)[0] == ls[1]);
        } else {
            assert(t0.skip(1) =~= ls.skip(1).take(k - 1));
            assert(ls.skip(1)[k - 1] == ls[k]);
            assert(ls[0] + seq!['\n'] + (join_newlines(ls.skip(1).take(k - 1)) + seq!['\n']
                + ls[k]) =~= (ls[0] + seq!['\n'] + join_newlines(ls.skip(1).take(k - 1)))
                + seq!['\n'] + ls[k]);
        }
    }
}

/// Base case helper: an empty take joins to the empty text.
proof fn lemma_join_take(ls: Seq<Seq<char>>, k: int)
    requires
        k == 0,
    ensures
        join_newlines(ls.take(0)) == Seq::<char>::empty(),
{
    assert(ls.take(0) =~= Seq::<Seq<char>>::empty());
}

/// Removes the leading `#` heading marks of a line, per
/// `strip_heading_marks`.
fn strip_heading(line: &str) -> (r: String)
    ensures
        r@ == strip_heading_marks(line@),
{
    let n = line.unicode_len();
    proof {
        assert(line@.skip(0) =~= line@);
    }
    let mut i: usize = 0;
    while i < n && line.get_char(i) == '#'
        invariant
            i <= n,
            n == line@.len(),
            strip_heading_marks(line@) == strip_heading_marks(line@.skip(i as int)),
            forall|j: int| 0 <= j < i ==> line@[j] == '#',
        decreases n - i,
    {
        proof {
            assert(line@.skip(i as int)[0] == line@[i as int]);
            assert(line@.skip(i as int).skip(1) =~= line@.skip(i as int + 1));
        }
        i = i + 1;
    }
    proof {
        if i < n {
            assert(line@.skip(i as int)[0] == line@[i as int]);
        }
    }
    String::from_str(line.substring_char(i, n))
}

} // verus!
