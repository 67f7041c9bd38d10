//! Download redirects: percent-encoding of paths and the decision a
//! counted public download takes.

use vstd::prelude::*;

use vstd::string::StringSliceAdditionalSpecFns;

use crate::text::str_eq;

verus! {

/// The bytes kept verbatim by percent-encoding: ASCII alphanumerics and
/// `-`, `_`, `.`, `~`.
pub open spec fn enc_keeps(b: u8) -> bool {
    ||| ('0' as u8) <= b <= ('9' as u8)
    ||| ('A' as u8) <= b <= ('Z' as u8)
    ||| ('a' as u8) <= b <= ('z' as u8)
    ||| b == ('-' as u8)
    ||| b == ('.' as u8)
    ||| b == ('_' as u8)
    ||| b == ('~' as u8)
}

/// The uppercase hex digit of a value below sixteen.
pub open spec fn hex_digit(d: u8) -> char {
    if d < 10 {
        (('0' as u8) + d) as char
    } else {
        (('A' as u8) + (d - 10)) as char
    }
}

/// What one byte encodes to: itself, or a percent escape.
pub open spec fn enc_byte(b: u8) -> Seq<char> {
    if enc_keeps(b) {
        seq![b as char]
    } else {
        seq!['%', hex_digit(b / 16), hex_digit(b % 16)]
    }
}

/// Percent-encoding of a byte sequence.
pub open spec fn url_encoded(bytes: Seq<u8>) -> Seq<char>
    decreases bytes.len(),
{
    if bytes.len() == 0 {
        Seq::empty()
    } else {
        enc_byte(bytes[0]) + url_encoded(bytes.skip(1))
    }
}

/// Relies on urlencoding::encode: percent-encodes every byte of the
/// string's UTF-8 form except ASCII alphanumerics and `-`, `_`, `.`, `~`,
/// with uppercase hex digits.
#[verifier::external_body]
fn encode(s: &str) -> (r: String)
    ensures
        r@ == url_encoded(s.spec_bytes()),
{
    urlencoding::encode(s).into_owned()
}

/// `s` with every occurrence of `pat` replaced by `rep`, scanning left to
/// right without overlap.
pub open spec fn replace_spec(s: Seq<char>, pat: Seq<char>, rep: Seq<char>) -> Seq<char>
    decreases s.len(),
{
    if s.len() == 0 || pat.len() == 0 {
        s
    } else if s.len() >= pat.len() && s.take(pat.len() as int) == pat {
        rep + replace_spec(s.skip(pat.len() as int), pat, rep)
    } else {
        seq![s[0]] + replace_spec(s.skip(1), pat, rep)
    }
}

/// Replaces every occurrence of `pat` by `rep`, per `replace_spec`.
pub fn replace(s: &str, pat: &str, rep: &str) -> (r: String)
    requires
        pat@.len() > 0,
    ensures
        r@ == replace_spec(s@, pat@, rep@),
{
    let n = s.unicode_len();
    let plen = pat.unicode_len();
    let mut out = String::new();
    let mut i: usize = 0;
    proof {
        assert(s@.skip(0) =~= s@);
        assert(out@ + replace_spec(s@, pat@, rep@) =~= replace_spec(s@, pat@, rep@));
    }
    while i < n
        invariant
            i <= n,
            n == s@.len(),
            plen == pat@.len(),
            plen > 0,
            out@ + replace_spec(s@.skip(i as int), pat@, rep@) =~= replace_spec(s@, pat@, rep@),
        decreases n - i,
    {
        let matches_here = if plen <= n - i {
            str_eq(s.substring_char(i, i + plen), pat)
        } else {
            false
        };
        if matches_here {
            proof {
                let t = s@.skip(i as int);
                assert(t.take(plen as int) =~= s@.subrange(i as int, i as int + plen as int));
                assert(t.skip(plen as int) =~= s@.skip(i as int + plen as int));
            }
            out.append(rep);
            i = i + plen;
        } else {
            proof {
                let t = s@.skip(i as int);
                if t.len() >= plen && t.take(plen as int) == pat@ {
                    assert(s@.subrange(i as int, i as int + plen as int) =~= t.take(plen as int));
                }
                assert(t[0] == s@[i as int]);
                assert(t.skip(1) =~= s@.skip(i as int + 1));
                assert(s@.subrange(i as int, i as int + 1) =~= seq![s@[i as int]]);
            }
            out.append(s.substring_char(i, i + 1));
            i = i + 1;
        }
    }
    proof {
        assert(s@.skip(n as int) =~= Seq::<char>::empty());
        assert(out@ + Seq::<char>::empty() =~= out@);
    }
    out
}

/// The redirect target of a counted download: the plain file route with
/// the path percent-encoded and the path separators put back.
pub open spec fn file_route_spec(path_bytes: Seq<u8>) -> Seq<char> {
    "/file/"@ + replace_spec(url_encoded(path_bytes), "%2F"@, "/"@)
}

/// Builds the redirect target of a counted download, per
/// `file_route_spec` over the path's UTF-8 form.
pub fn download_url(file_rel: &str) -> (r: String)
    ensures
        r@ == file_route_spec(file_rel.spec_bytes()),
{
    proof {
        reveal_strlit("%2F");
    }
    let encoded = encode(file_rel);
    let cleaned = replace(encoded.as_str(), "%2F", "/");
    let mut url = String::from_str("/file/");
    url.append(cleaned.as_str());
    url
}

/// What a counted public download does for a file of a given (lowercased)
/// extension.
pub enum DownloadAction {
    /// The extension is not on the downloadable list: stream the file
    /// directly.
    Stream,
    /// A folder cannot be downloaded.
    Denied,
    /// Count the download and redirect to the plain file route.
    CountAndRedirect(String),
}

/// Decides a counted public download: extensions off the downloadable
/// list stream directly; a folder on that list is refused; a downloadable
/// file is counted and redirected to the encoded file route.
pub fn download_decision(file_rel: &str, ext: &str, extensions: &Vec<String>) -> (r:
    DownloadAction)
    ensures
        match r {
            DownloadAction::Stream => !extensions.deep_view().contains(ext@),
            DownloadAction::Denied => extensions.deep_view().contains(ext@) && ext@ == "folder"@,
            DownloadAction::CountAndRedirect(url) => extensions.deep_view().contains(ext@)
                && ext@ != "folder"@ && url@ == file_route_spec(file_rel.spec_bytes()),
        },
{
    if !crate::text::contains_str(extensions, ext) {
        return DownloadAction::Stream;
    }
    if str_eq(ext, "folder") {
        return DownloadAction::Denied;
    }
    DownloadAction::CountAndRedirect(download_url(file_rel))
}

} // verus!
