//! Session, cookie and request-header decisions: who the caller is, which
//! theme and language apply, and what the plain-page and viewer heuristics
//! choose. The cookie jar and header plumbing live outside the core; these
//! functions take the raw cookie and header values and decide.

use vstd::prelude::*;

use crate::text::{before_char, find_char, is_i32_string, i32_value, lemma_find_char, str_eq,
    str_find, trim, trim_spec, contains_str, parse_i32, cut_at};

verus! {

/// The settings a caller may change from the settings form.
pub struct Settings<'r> {
    pub theme: Option<&'r str>,
    pub lang: Option<&'r str>,
    pub hires: Option<&'r str>,
    pub smallhead: Option<&'r str>,
    pub plain: Option<&'r str>,
    pub nooverride: Option<&'r str>,
    pub viewers: Option<&'r str>,
    pub filebrowser: Option<&'r str>,
}

/// A response served by handing the file's path to the front server in a
/// header, with its cache-control value.
pub struct HeaderFile(pub String, pub String);

/// The caller's address as the proxy reported it.
pub struct XForwardedFor<'r>(pub &'r str);

/// Whether the plain page variant is served to this caller.
pub struct UsePlain<'r>(pub &'r bool);

/// Whether in-browser viewers are offered to this caller.
pub struct UseViewers<'r>(pub &'r bool);

/// The host name the request was addressed to.
pub struct Host<'r>(pub &'r str);

/// What a session cookie value means: the part before the first dot is the
/// username, the part after it the permission level (1 when missing or
/// unreadable); no cookie means the anonymous caller at level 1.
pub open spec fn session_spec(cookie: Option<Seq<char>>) -> (Seq<char>, int) {
    match cookie {
        None => ("Nobody"@, 1int),
        Some(v) => match find_char(v, '.') {
            None => (v, 1int),
            Some(i) => (
                v.take(i),
                if is_i32_string(v.skip(i + 1)) {
                    i32_value(v.skip(i + 1))
                } else {
                    1int
                },
            ),
        },
    }
}

/// Reads the caller identity out of the session cookie, per
/// `session_spec`.
pub fn get_session(cookie: Option<&str>) -> (r: (String, i32))
    ensures
        (r.0@, r.1 as int) == session_spec(match cookie {
            Some(c) => Some(c@),
            None => None,
        }),
{
    match cookie {
        None => (String::from_str("Nobody"), 1),
        Some(v) => {
            proof {
                lemma_find_char(v@, '.');
            }
            let n = v.unicode_len();
            match str_find(v, '.') {
                None => {
                    let whole = String::from_str(v.substring_char(0, n));
                    proof {
                        assert(v@.subrange(0, n as int) =~= v@);
                    }
                    (whole, 1)
                },
                Some(i) => {
                    let user = String::from_str(v.substring_char(0, i));
                    let perms_part = v.substring_char(i + 1, n);
                    proof {
                        assert(v@.subrange(0, i as int) =~= v@.take(i as int));
                        assert(v@.subrange(i as int + 1, n as int) =~= v@.skip(i as int + 1));
                    }
                    let perms = match parse_i32(perms_part) {
                        Some(p) => p,
                        None => 1,
                    };
                    (user, perms)
                },
            }
        },
    }
}

/// Whether a session cookie is present at all.
pub fn is_logged_in(session_cookie: Option<&str>) -> (r: bool)
    ensures
        r == session_cookie is Some,
{
    session_cookie.is_some()
}

/// Reads a boolean preference cookie: exactly the value `true` counts,
/// anything else is false, absence yields the default.
pub fn get_bool_cookie(value: Option<&str>, default: bool) -> (r: bool)
    ensures
        r == (match value {
            Some(v) => v@ == "true"@,
            None => default,
        }),
{
    match value {
        Some(v) => str_eq(v, "true"),
        None => default,
    }
}

/// Which theme applies: the cookie's choice when a style sheet of that
/// name exists, the standard theme otherwise. `styles` names the style
/// sheets that exist.
pub open spec fn theme_spec(cookie: Option<Seq<char>>, styles: Seq<Seq<char>>) -> Seq<char> {
    let wanted = match cookie {
        Some(v) => v,
        None => "standard"@,
    };
    if styles.contains(wanted) {
        wanted
    } else {
        "standard"@
    }
}

/// Picks the theme, per `theme_spec`.
pub fn get_theme(cookie: Option<&str>, styles: &Vec<String>) -> (r: String)
    ensures
        r@ == theme_spec(
            match cookie {
                Some(c) => Some(c@),
                None => None,
            },
            styles.deep_view(),
        ),
{
    let wanted = match cookie {
        Some(v) => v,
        None => "standard",
    };
    if contains_str(styles, wanted) {
        String::from_str(wanted)
    } else {
        String::from_str("standard")
    }
}

/// The root domain of a host name: everything after the first dot, or the
/// configured fallback for a bare host.
pub fn get_root_domain(host: &str, fallback: &str) -> (r: String)
    ensures
        r@ == (match find_char(host@, '.') {
            Some(i) => host@.skip(i + 1),
            None => fallback@,
        }),
{
    proof {
        lemma_find_char(host@, '.');
    }
    let n = host.unicode_len();
    match str_find(host, '.') {
        Some(i) => {
            let rest = String::from_str(host.substring_char(i + 1, n));
            proof {
                assert(host@.subrange(i as int + 1, n as int) =~= host@.skip(i as int + 1));
            }
            rest
        },
        None => String::from_str(fallback),
    }
}

/// The caller address drawn from a forwarding header: the first
/// comma-separated entry, trimmed, with the local loopback addresses
/// reported as unknown, as is a missing header.
pub open spec fn forwarded_ip_spec(header: Option<Seq<char>>) -> Seq<char> {
    match header {
        None => "(unknown)"@,
        Some(v) => {
            let ip = trim_spec(before_char(v, ','));
            if ip == "127.0.0.1"@ || ip == "::1"@ {
                "(unknown)"@
            } else {
                ip
            }
        },
    }
}

/// Reads the caller address, per `forwarded_ip_spec`.
pub fn forwarded_ip(header: Option<&str>) -> (r: String)
    ensures
        r@ == forwarded_ip_spec(match header {
            Some(h) => Some(h@),
            None => None,
        }),
{
    match header {
        None => String::from_str("(unknown)"),
        Some(v) => {
            let first = cut_at(v, ',');
            let ip = trim(first.as_str());
            if str_eq(ip.as_str(), "127.0.0.1") || str_eq(ip.as_str(), "::1") {
                String::from_str("(unknown)")
            } else {
                ip
            }
        },
    }
}

/// Whether the plain page variant is served: callers who asked for it by
/// cookie, ancient browsers, and agents that send no identification get
/// plain pages.
pub fn use_plain_choice(user_agent: Option<&str>, plain_cookie: bool) -> (r: bool)
    ensures
        r == (match user_agent {
            None => true,
            Some(ua) => plain_cookie || ua@.len() >= 9 && (ua@.take(9) == "Mozilla/1"@ || ua@.take(
                9,
            ) == "Mozilla/2"@),
        }),
{
    match user_agent {
        None => true,
        Some(ua) => {
            proof {
                reveal_strlit("Mozilla/1");
                reveal_strlit("Mozilla/2");
            }
            if plain_cookie {
                return true;
            }
            str_starts_with(ua, "Mozilla/1") || str_starts_with(ua, "Mozilla/2")
        },
    }
}

/// Whether in-browser viewers are offered: media players fetching the raw
/// stream never get them, everyone else follows the preference cookie, and
/// agents without identification do.
pub fn use_viewers_choice(user_agent: Option<&str>, viewers_cookie: bool) -> (r: bool)
    ensures
        r == (match user_agent {
            None => true,
            Some(ua) => !(ua@.len() >= 6 && ua@.take(6) == "Winamp"@) && !(ua@.len() >= 3
                && ua@.take(3) == "VLC"@) && viewers_cookie,
        }),
{
    match user_agent {
        None => true,
        Some(ua) => {
            proof {
                reveal_strlit("Winamp");
                reveal_strlit("VLC");
            }
            if str_starts_with(ua, "Winamp") || str_starts_with(ua, "VLC") {
                return false;
            }
            viewers_cookie
        },
    }
}

/// Whether `s` begins with the characters of `prefix`.
pub fn str_starts_with(s: &str, prefix: &str) -> (r: bool)
    ensures
        r == (s@.len() >= prefix@.len() && s@.take(prefix@.len() as int) == prefix@),
{
    let pn = prefix.unicode_len();
    let n = s.unicode_len();
    if n < pn {
        proof {
            if s@.len() >= prefix@.len() {
            }
        }
        return false;
    }
    let mut i: usize = 0;
    while i < pn
        invariant
            i <= pn,
            pn <= n,
            n == s@.len(),
            pn == prefix@.len(),
            forall|j: int| 0 <= j < i ==> s@[j] == prefix@[j],
        decreases pn - i,
    {
        if s.get_char(i) != prefix.get_char(i) {
            proof {
                if s@.take(pn as int) == prefix@ {
                    assert(s@.take(pn as int)[i as int] == s@[i as int]);
                }
            }
            return false;
        }
        i = i + 1;
    }
    proof {
        assert(s@.take(pn as int) =~= prefix@);
    }
    true
}

/// Which language the browser header asks for that is on offer: the first
/// comma-separated entry whose short code (before any quality note and
/// country suffix, folded to lowercase) names an available language file.
pub open spec fn lang_short(entry: Seq<char>) -> Seq<char> {
    crate::listing::lower_spec(before_char(trim_spec(before_char(entry, ';')), '-'))
}

/// The first acceptable language of a header, per `lang_short`.
pub open spec fn parse_language_spec(
    entries: Seq<Seq<char>>,
    available: Seq<Seq<char>>,
) -> Option<Seq<char>>
    decreases entries.len(),
{
    if entries.len() == 0 {
        None
    } else if available.contains(lang_short(entries[0])) {
        Some(lang_short(entries[0]))
    } else {
        parse_language_spec(entries.skip(1), available)
    }
}

/// Picks the language the header asks for, per `parse_language_spec` over
/// the comma-separated header entries; `available` names the language
/// files that exist.
pub fn parse_language(header: &str, available: &Vec<String>) -> (r: Option<String>)
    ensures
        match r {
            Some(code) => parse_language_spec(
                crate::text::split_on(header@, ','),
                available.deep_view(),
            ) == Some(code@),
            None => parse_language_spec(
                crate::text::split_on(header@, ','),
                available.deep_view(),
            ) is None,
        },
{
    let entries = crate::text::split_char(header, ',');
    let n = entries.len();
    let ghost entv = entries.deep_view();
    proof {
        assert(entv.skip(0) =~= entv);
    }
    let mut i: usize = 0;
    while i < n
        invariant
            i <= n,
            n == entries@.len(),
            entv == entries.deep_view(),
            entv =~~= crate::text::split_on(header@, ','),
            parse_language_spec(entv, available.deep_view()) == parse_language_spec(
                entv.skip(i as int),
                available.deep_view(),
            ),
        decreases n - i,
    {
        proof {
            assert(entries.deep_view()[i as int] == entries@[i as int]@);
        }
        let entry = &entries[i];
        let code = trim(cut_at(entry.as_str(), ';').as_str());
        let short = crate::listing::ascii_lowercase(cut_at(code.as_str(), '-').as_str());
        proof {
            assert(short@ == lang_short(entv[i as int]));
            assert(entv.skip(i as int)[0] == entv[i as int]);
        }
        if contains_str(available, short.as_str()) {
            return Some(short);
        }
        proof {
            assert(entv.skip(i as int).skip(1) =~= entv.skip(i as int + 1));
        }
        i = i + 1;
    }
    proof {
        assert(entv.skip(n as int) =~= Seq::<Seq<char>>::empty());
    }
    None
}

} // verus!
