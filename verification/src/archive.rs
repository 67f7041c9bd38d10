//! Archive listing parser: reads the table printed by the `7z l` listing
//! command into listing records, so an archive can be browsed without
//! unpacking it. The command itself runs outside the core; the parser
//! works on its captured output.

use vstd::prelude::*;

use crate::listing::{MirrorFile, MirrorFileV, ext_spec, icon_for, lower_spec, ascii_lowercase,
    get_extension_from_filename};
use crate::text::{contains_str, digits_val, is_u64_string, join_strings, join_with, lines_spec,
    parse_u64, split_char, split_on, split_lines};

verus! {

/// Whether a line holds two adjacent dots; only such rows of the listing
/// table describe entries.
pub open spec fn has_dotdot(line: Seq<char>) -> bool {
    exists|i: int| 0 <= i && i + 2 <= line.len() && #[trigger] line[i] == '.' && line[i + 1] == '.'
}

/// Scans for two adjacent dots, per `has_dotdot`.
fn contains_dotdot(line: &str) -> (r: bool)
    ensures
        r == has_dotdot(line@),
{
    let n = line.unicode_len();
    if n < 2 {
        return false;
    }
    let mut i: usize = 0;
    while i <= n - 2
        invariant
            n >= 2,
            i <= n - 1,
            n == line@.len(),
            forall|j: int| 0 <= j < i ==> !(#[trigger] line@[j] == '.' && line@[j + 1] == '.'),
        decreases n - i,
    {
        if line.get_char(i) == '.' && line.get_char(i + 1) == '.' {
            return true;
        }
        i = i + 1;
    }
    false
}

/// The space-separated fields of one listing row.
pub open spec fn words_spec(line: Seq<char>) -> Seq<Seq<char>> {
    split_on(line, ' ').filter(|w: Seq<char>| w.len() > 0)
}

/// Splits a row into its space-separated fields, per `words_spec`.
fn words(line: &str) -> (r: Vec<String>)
    ensures
        r.deep_view() =~~= words_spec(line@),
{
    let parts = split_char(line, ' ');
    let ghost flt = |w: Seq<char>| w.len() > 0;
    let mut out: Vec<String> = Vec::new();
    let n = parts.len();
    let mut i: usize = 0;
    while i < n
        invariant
            i <= n,
            n == parts.len(),
            parts.deep_view() =~~= split_on(line@, ' '),
            flt == (|w: Seq<char>| w.len() > 0),
            out.deep_view() =~~= parts.deep_view().take(i as int).filter(flt),
        decreases n - i,
    {
        proof {
            let pv = parts.deep_view();
            assert(pv.take(i as int + 1).drop_last() =~= pv.take(i as int));
            assert(pv.take(i as int + 1).last() == pv[i as int]);
            reveal_with_fuel(Seq::filter, 2);
            assert(pv[i as int] == parts@[i as int]@);
        }
        if parts[i].unicode_len() > 0 {
            let ghost before = out.deep_view();
            out.push(parts[i].clone());
            proof {
                assert(out.deep_view() =~= before.push(parts.deep_view()[i as int]));
            }
        }
        i = i + 1;
    }
    proof {
        assert(parts.deep_view().take(n as int) =~= parts.deep_view());
    }
    out
}

/// The record one listing row yields: the name is the fields from the
/// fifth on (from the sixth when the fifth is numeric, which then belongs
/// to the attribute columns), joined with single spaces; the size is the
/// fourth field; rows without adjacent dots, with fewer than five fields,
/// or with no readable positive size are not entries.
pub open spec fn seven_zip_record(line: Seq<char>, icons: Seq<Seq<char>>) -> Option<MirrorFileV> {
    if !has_dotdot(line) {
        None
    } else {
        let parts = words_spec(line);
        if parts.len() < 5 {
            None
        } else if !is_u64_string(parts[3]) || digits_val(parts[3]) == 0 {
            None
        } else {
            let name = if is_u64_string(parts[4]) {
                join_with(parts.skip(5), ' ')
            } else {
                join_with(parts.skip(4), ' ')
            };
            Some(seven_zip_file(name, digits_val(parts[3]) as nat, icons))
        }
    }
}

/// The listing record of one archived file: extension read from the name
/// as it stands, icon matched against the assets in folded form.
pub open spec fn seven_zip_file(name: Seq<char>, size: nat, icons: Seq<Seq<char>>) -> MirrorFileV {
    let ext = match ext_spec(name) {
        None => Seq::<char>::empty(),
        Some(e) => e,
    };
    MirrorFileV {
        name: name,
        ext: ext,
        icon: icon_for(icons, lower_spec(ext)),
        size: size,
        downloads: None,
    }
}

/// The records of a whole listing, in row order.
pub open spec fn seven_zip_records(
    lines: Seq<Seq<char>>,
    icons: Seq<Seq<char>>,
) -> Seq<MirrorFileV>
    decreases lines.len(),
{
    if lines.len() == 0 {
        Seq::empty()
    } else {
        let rest = seven_zip_records(lines.drop_last(), icons);
        match seven_zip_record(lines.last(), icons) {
            None => rest,
            Some(m) => rest.push(m),
        }
    }
}

/// Reads one row, per `seven_zip_record`.
fn line_record(line: &str, icons: &Vec<String>) -> (r: Option<MirrorFile>)
    ensures
        match r {
            Some(m) => seven_zip_record(line@, icons.deep_view()) == Some(m@),
            None => seven_zip_record(line@, icons.deep_view()) is None,
        },
{
    if !contains_dotdot(line) {
        return None;
    }
    let parts = words(line);
    if parts.len() < 5 {
        return None;
    }
    proof {
        assert(parts.deep_view()[3] == parts@[3]@);
        assert(parts.deep_view()[4] == parts@[4]@);
    }
    let size = match parse_u64(parts[3].as_str()) {
        Some(v) => v,
        None => {
            return None;
        },
    };
    if size == 0 {
        return None;
    }
    let from: usize = match parse_u64(parts[4].as_str()) {
        Some(_) => 5,
        None => 4,
    };
    proof {
        reveal_strlit(" ");
        assert(" "@ =~= seq![' ']);
    }
    let name = join_strings(&parts, from, " ");
    let ext = match get_extension_from_filename(name.as_str()) {
        None => String::new(),
        Some(e) => e,
    };
    let folded = ascii_lowercase(ext.as_str());
    let icon = if contains_str(icons, folded.as_str()) {
        folded
    } else {
        String::from_str("default")
    };
    let rec = MirrorFile { name: name, ext: ext, icon: icon, size: size, downloads: None };
    proof {
        let parts_v = words_spec(line@);
        assert(rec@ == seven_zip_file(
            if is_u64_string(parts_v[4]) {
                join_with(parts_v.skip(5), ' ')
            } else {
                join_with(parts_v.skip(4), ' ')
            },
            digits_val(parts_v[3]) as nat,
            icons.deep_view(),
        ));
    }
    Some(rec)
}

/// Parses the captured output of the archive listing command, per
/// `seven_zip_records` over its lines.
pub fn parse_7z_output(output: &str, icons: &Vec<String>) -> (r: Vec<MirrorFile>)
    ensures
        r.deep_view() == seven_zip_records(lines_spec(output@), icons.deep_view()),
{
    let lines = split_lines(output);
    let n = lines.len();
    let mut out: Vec<MirrorFile> = Vec::new();
    let mut i: usize = 0;
    while i < n
        invariant
            i <= n,
            n == lines@.len(),
            lines.deep_view() =~~= lines_spec(output@),
            out.deep_view() =~= seven_zip_records(
                lines.deep_view().take(i as int),
                icons.deep_view(),
            ),
        decreases n - i,
    {
        proof {
            let lv = lines.deep_view();
            assert(lv.take(i as int + 1).drop_last() =~= lv.take(i as int));
            assert(lv.take(i as int + 1).last() == lv[i as int]);
            assert(lv[i as int] == lines@[i as int]@);
        }
        match line_record(lines[i].as_str(), icons) {
            Some(m) => {
                let ghost before = out.deep_view();
                out.push(m);
                proof {
                    assert(out.deep_view() =~= before.push(m@));
                }
            },
            None => {},
        }
        i = i + 1;
    }
    proof {
        assert(lines.deep_view().take(n as int) =~= lines.deep_view());
    }
    out
}

} // verus!
