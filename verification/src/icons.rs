//! Icon resolution: an absolute path is used if it exists, else its stem is
//! retried as a theme icon name; theme lookup runs first, then a fixed
//! ordered list of conventional icon directories and extensions is probed;
//! the first existing match wins, and no match means no icon.

use vstd::prelude::*;
use crate::text::chars_to_string;
use crate::text::str_chars;

verus! {

/// Relies on linicon::lookup_icon with fallback themes: the first icon path
/// any installed theme offers for the name. What comes back depends on the
/// themes installed on this machine.
#[verifier::external_body]
fn theme_icon_lookup(name: &str) -> Option<String> {
    linicon::lookup_icon(name)
        .use_fallback_themes(true)
        .filter_map(|e| e.ok())
        .filter_map(|x| x.path.into_os_string().into_string().ok())
        .next()
}

/// Relies on std::path::Path::exists: whether anything is on disk at this
/// path right now.
#[verifier::external_body]
fn path_exists(p: &str) -> bool {
    std::path::Path::new(p).exists()
}

/// Whether a path is absolute: it starts at the filesystem root.
pub fn is_absolute_path(s: &str) -> (r: bool)
    ensures
        r == (s@.len() > 0 && s@[0] == '/'),
{
    s.unicode_len() > 0 && s.get_char(0) == '/'
}

/// The part after the last separator; the whole name when there is none.
pub open spec fn base_name_of(s: Seq<char>) -> Seq<char>
    decreases s.len(),
{
    if s.len() == 0 {
        s
    } else if s.contains('/') {
        base_name_of(s.skip(1))
    } else {
        s
    }
}

/// A dot stands somewhere after the first character.
pub open spec fn has_dot_after_first(name: Seq<char>) -> bool {
    exists|m: int| 1 <= m < name.len() && name[m] == '.'
}

/// Everything up to the last dot, when a dot stands after the first
/// character; the whole name otherwise, so a leading dot hides nothing.
pub open spec fn stem_of(name: Seq<char>) -> Seq<char> {
    if has_dot_after_first(name) {
        cut_last_dot(name)
    } else {
        name
    }
}

/// The sequence up to (and without) its last dot.
pub open spec fn cut_last_dot(s: Seq<char>) -> Seq<char>
    decreases s.len(),
{
    if s.len() == 0 {
        s
    } else if s.last() == '.' {
        s.drop_last()
    } else {
        cut_last_dot(s.drop_last())
    }
}

/// The stem of a path's base name, as the stem retry uses it.
pub open spec fn spec_file_stem(path: Seq<char>) -> Seq<char> {
    stem_of(base_name_of(path))
}

/// A slash anywhere before the end means a slash in view of the suffix.
proof fn lemma_base_name_after_slash(s: Seq<char>, k: int)
    requires
        0 <= k < s.len(),
        s[k] == '/',
        forall|m: int| k < m < s.len() ==> s[m] != '/',
    ensures
        base_name_of(s) == s.skip(k + 1),
    decreases k,
{
    assert(s.contains('/'));
    let t = s.skip(1);
    assert(forall|m: int| 0 <= m < t.len() ==> #[trigger] t[m] == s[m + 1]);
    if k == 0 {
        if t.contains('/') {
            let w = choose|w: int| 0 <= w < t.len() && t[w] == '/';
            assert(s[w + 1] == '/');
            assert(false);
        }
        reveal_with_fuel(base_name_of, 2);
        assert(base_name_of(s) == t);
        assert(t =~= s.skip(1));
    } else {
        lemma_base_name_after_slash(t, k - 1);
        assert(t.skip(k) =~= s.skip(k + 1));
    }
}

/// A name without a slash is its own base name.
proof fn lemma_base_name_no_slash(s: Seq<char>)
    requires
        forall|m: int| 0 <= m < s.len() ==> s[m] != '/',
    ensures
        base_name_of(s) == s,
{
    if s.len() > 0 {
        if s.contains('/') {
            let w = choose|w: int| 0 <= w < s.len() && s[w] == '/';
            assert(false);
        }
    }
}

/// A dot at `k`, with none after it, cuts the sequence there.
proof fn lemma_cut_last_dot_at(s: Seq<char>, k: int)
    requires
        0 <= k < s.len(),
        s[k] == '.',
        forall|m: int| k < m < s.len() ==> s[m] != '.',
    ensures
        cut_last_dot(s) == s.take(k),
    decreases s.len(),
{
    if k == s.len() - 1 {
        assert(s.drop_last() =~= s.take(k));
    } else {
        assert(s.last() != '.');
        let t = s.drop_last();
        assert(forall|m: int| 0 <= m < t.len() ==> #[trigger] t[m] == s[m]);
        lemma_cut_last_dot_at(t, k);
        assert(t.take(k) =~= s.take(k));
    }
}

/// The stem of a path: the base name cut at its last dot, a dot in first
/// position left alone.
pub fn file_stem(path: &str) -> (r: String)
    ensures
        r@ == spec_file_stem(path@),
{
    let chars = str_chars(path);
    let n = chars.len();

    // Find where the base name starts: one past the last slash.
    let mut base_start: usize = 0;
    let mut i: usize = 0;
    while i < n
        invariant
            i <= n,
            n == chars@.len(),
            base_start <= i,
            base_start > 0 ==> chars@[base_start - 1] == '/',
            forall|m: int| base_start <= m < i ==> chars@[m] != '/',
        decreases n - i,
    {
        if chars[i] == '/' {
            base_start = i + 1;
        }
        i = i + 1;
    }
    let ghost base = chars@.skip(base_start as int);
    proof {
        if base_start > 0 {
            lemma_base_name_after_slash(chars@, base_start - 1);
        } else {
            lemma_base_name_no_slash(chars@);
            assert(chars@.skip(0) =~= chars@);
        }
        assert(base_name_of(chars@) == base);
    }

    // Find the last dot after the first character of the base name.
    let blen = n - base_start;
    let mut dot: usize = 0;
    let mut found_dot = false;
    let mut j: usize = 1;
    while j < blen
        invariant
            1 <= j <= blen || blen == 0,
            blen == n - base_start,
            n == chars@.len(),
            base == chars@.skip(base_start as int),
            found_dot ==> 1 <= dot < j && dot < blen && base[dot as int] == '.',
            forall|m: int| (if found_dot { dot < m } else { 1 <= m }) && m < j ==> base[m] != '.',
        decreases blen - j,
    {
        proof {
            assert(base[j as int] == chars@[base_start + j]);
        }
        if chars[base_start + j] == '.' {
            dot = j;
            found_dot = true;
        }
        j = j + 1;
    }

    if found_dot {
        proof {
            assert(base.len() == blen);
            assert(1 <= dot < blen);
            assert(base[dot as int] == '.');
            assert(has_dot_after_first(base));
            lemma_cut_last_dot_at(base, dot as int);
        }
        let mut out: Vec<char> = Vec::new();
        let mut k: usize = 0;
        while k < dot
            invariant
                k <= dot,
                dot < blen,
                blen == n - base_start,
                n == chars@.len(),
                base == chars@.skip(base_start as int),
                out@ == base.take(k as int),
            decreases dot - k,
        {
            proof {
                assert(base[k as int] == chars@[base_start + k]);
            }
            out.push(chars[base_start + k]);
            k = k + 1;
            proof {
                assert(out@ =~= base.take(k as int));
            }
        }
        chars_to_string(&out)
    } else {
        proof {
            assert(!has_dot_after_first(base));
        }
        let mut out: Vec<char> = Vec::new();
        let mut k: usize = 0;
        while k < blen
            invariant
                k <= blen,
                blen == n - base_start,
                n == chars@.len(),
                base == chars@.skip(base_start as int),
                out@ == base.take(k as int),
            decreases blen - k,
        {
            proof {
                assert(base[k as int] == chars@[base_start + k]);
            }
            out.push(chars[base_start + k]);
            k = k + 1;
            proof {
                assert(out@ =~= base.take(k as int));
            }
        }
        proof {
            assert(base.take(blen as int) =~= base);
        }
        chars_to_string(&out)
    }
}

/// The fixed candidate paths probed after theme lookup fails: each
/// conventional directory joined with the name and each conventional
/// extension, in order.
pub open spec fn spec_icon_candidates(name: Seq<char>) -> Seq<Seq<char>> {
    Seq::new(20, |i: int| spec_icon_candidate_dir(i / 5) + "/"@ + name + spec_icon_candidate_ext(i % 5))
}

/// One candidate path: directory, separator, name, extension.
fn make_candidate(dir: &str, name: &str, ext: &str) -> (r: String)
    ensures
        r@ == dir@ + "/"@ + name@ + ext@,
{
    let mut s = String::new();
    s.append(dir);
    s.append("/");
    s.append(name);
    s.append(ext);
    proof {
        assert(s@ =~= dir@ + "/"@ + name@ + ext@);
    }
    s
}

/// The candidate paths for a name, in probe order.
pub fn icon_candidates(name: &str) -> (r: Vec<String>)
    ensures
        r@.len() == 20,
        forall|i: int| 0 <= i < 20 ==> r@[i]@ == spec_icon_candidates(name@)[i],
{
    let mut out: Vec<String> = Vec::new();
    let mut d: usize = 0;
    while d < 4
        invariant
            d <= 4,
            out@.len() == d * 5,
            forall|i: int| 0 <= i < d * 5 ==> out@[i]@ == spec_icon_candidates(name@)[i],
        decreases 4 - d,
    {
        let dir = if d == 0 {
            "/usr/share/pixmaps"
        } else if d == 1 {
            "/usr/share/icons"
        } else if d == 2 {
            "/usr/share/icons/hicolor/48x48/apps"
        } else {
            "/usr/share/icons/hicolor/scalable/apps"
        };
        proof {
            assert(dir@ == spec_icon_candidate_dir(d as int));
        }
        let mut e: usize = 0;
        while e < 5
            invariant
                e <= 5,
                d < 4,
                dir@ == spec_icon_candidate_dir(d as int),
                out@.len() == d * 5 + e,
                forall|i: int| 0 <= i < d * 5 + e ==> out@[i]@ == spec_icon_candidates(name@)[i],
            decreases 5 - e,
        {
            let ext = if e == 0 {
                ""
            } else if e == 1 {
                ".png"
            } else if e == 2 {
                ".svg"
            } else if e == 3 {
                ".xpm"
            } else {
                ".ico"
            };
            proof {
                assert(ext@ == spec_icon_candidate_ext(e as int));
            }
            out.push(make_candidate(dir, name, ext));
            proof {
                let i = d * 5 + e;
                assert((d * 5 + e) / 5 == d && (d * 5 + e) % 5 == e) by (nonlinear_arith)
                    requires 0 <= d < 4 && 0 <= e < 5;
                assert(out@[i as int]@ == spec_icon_candidates(name@)[i as int]);
            }
            e = e + 1;
        }
        d = d + 1;
    }
    out
}

/// The directory of the candidate block `d`.
pub open spec fn spec_icon_candidate_dir(d: int) -> Seq<char> {
    if d == 0 {
        "/usr/share/pixmaps"@
    } else if d == 1 {
        "/usr/share/icons"@
    } else if d == 2 {
        "/usr/share/icons/hicolor/48x48/apps"@
    } else {
        "/usr/share/icons/hicolor/scalable/apps"@
    }
}

/// The extension of the candidate slot `e`.
pub open spec fn spec_icon_candidate_ext(e: int) -> Seq<char> {
    if e == 0 {
        ""@
    } else if e == 1 {
        ".png"@
    } else if e == 2 {
        ".svg"@
    } else if e == 3 {
        ".xpm"@
    } else {
        ".ico"@
    }
}

/// Resolves a theme icon name: theme lookup first, then the fixed candidate
/// paths in order. Every branch depends on what is installed on this
/// machine, so nothing more than the shape of the answer can be promised.
fn resolve_icon_name(icon_name: &str) -> (r: Option<String>)
{
    let by_theme = theme_icon_lookup(icon_name);
    match by_theme {
        Some(p) => Some(p),
        None => {
            let candidates = icon_candidates(icon_name);
            let n = candidates.len();
            let mut i: usize = 0;
            while i < n
                invariant
                    i <= n,
                    n == candidates@.len(),
                decreases n - i,
            {
                if path_exists(candidates[i].as_str()) {
                    return Some(candidates[i].clone());
                }
                i = i + 1;
            }
            None
        },
    }
}

/// Resolves an icon reference to something displayable: an absolute path
/// that exists is taken as it is; an absolute path that does not exist is
/// retried once by its file stem as a theme name; anything else goes
/// straight to theme and directory lookup. A miss is no error: the entry
/// simply gets no icon.
pub fn find_icon(icon_name: &str) -> (r: Option<String>)
{
    if is_absolute_path(icon_name) {
        if path_exists(icon_name) {
            return Some(String::from_str(icon_name));
        }
        let stem = file_stem(icon_name);
        return resolve_icon_name(stem.as_str());
    }
    resolve_icon_name(icon_name)
}

} // verus!
