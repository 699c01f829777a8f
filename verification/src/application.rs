//! The platform application catalog: the uniform application shape, the
//! desktop-entry record it is built from, and the rules that turn raw
//! desktop-entry fields into launchable applications.

use vstd::prelude::*;
use crate::common::Image;
use crate::text::chars_to_string;
use crate::text::str_chars;

verus! {

/// Whitespace that separates the tokens of a desktop entry's Exec line.
pub open spec fn is_exec_space(c: char) -> bool {
    c == ' ' || c == '\t' || c == '\n' || c == '\r'
}

/// A field code: the letter of a placeholder token the launcher strips.
pub open spec fn placeholder_code(c: char) -> bool {
    c == 'f' || c == 'F' || c == 'u' || c == 'U' || c == 'i' || c == 'c' || c == 'k'
}

/// A token with its placeholder codes removed, in one left-to-right pass.
pub open spec fn strip_placeholders(s: Seq<char>) -> Seq<char>
    decreases s.len(),
{
    if s.len() == 0 {
        Seq::empty()
    } else if s.len() >= 2 && s[0] == '%' && placeholder_code(s[1]) {
        strip_placeholders(s.skip(2))
    } else {
        seq![s[0]] + strip_placeholders(s.skip(1))
    }
}

/// The length of the leading run of non-space characters.
pub open spec fn token_len(s: Seq<char>) -> nat
    decreases s.len(),
{
    if s.len() == 0 || is_exec_space(s[0]) {
        0
    } else {
        1 + token_len(s.skip(1))
    }
}

/// The leading run never outgrows the sequence.
pub proof fn lemma_token_len_le(s: Seq<char>)
    ensures
        token_len(s) <= s.len(),
    decreases s.len(),
{
    if s.len() > 0 && !is_exec_space(s[0]) {
        lemma_token_len_le(s.skip(1));
    }
}

/// An Exec line split into its whitespace-separated tokens.
pub open spec fn split_tokens(s: Seq<char>) -> Seq<Seq<char>>
    decreases s.len(),
    via split_tokens_decreases
{
    if s.len() == 0 {
        Seq::empty()
    } else if is_exec_space(s[0]) {
        split_tokens(s.skip(1))
    } else {
        seq![s.take(token_len(s) as int)] + split_tokens(s.skip(token_len(s) as int))
    }
}

#[via_fn]
proof fn split_tokens_decreases(s: Seq<char>) {
    lemma_token_len_le(s);
}

/// Tokens stripped of their placeholder codes, those left empty dropped.
pub open spec fn clean_tokens(ts: Seq<Seq<char>>) -> Seq<Seq<char>> {
    ts.map_values(|t: Seq<char>| strip_placeholders(t)).filter(|t: Seq<char>| t.len() != 0)
}

/// The invocation a raw Exec line yields.
pub open spec fn spec_clean_exec(raw: Seq<char>) -> Seq<Seq<char>> {
    clean_tokens(split_tokens(raw))
}

/// The views of a vector of strings.
pub open spec fn string_views(v: Seq<String>) -> Seq<Seq<char>> {
    v.map_values(|s: String| s@)
}

/// The leading token ends exactly at the first space.
proof fn lemma_token_len_at(s: Seq<char>, k: int)
    requires
        0 <= k <= s.len(),
        forall|m: int| 0 <= m < k ==> !is_exec_space(#[trigger] s[m]),
        k < s.len() ==> is_exec_space(s[k]),
    ensures
        token_len(s) == k,
    decreases k,
{
    if k == 0 {
    } else {
        assert(!is_exec_space(s[0]));
        let t = s.skip(1);
        assert(forall|m: int| 0 <= m < k - 1 ==> #[trigger] t[m] == s[m + 1]);
        lemma_token_len_at(t, k - 1);
    }
}

/// Strips the placeholder codes out of one token.
fn strip_token(tok: &Vec<char>) -> (r: Vec<char>)
    ensures
        r@ == strip_placeholders(tok@),
{
    let n = tok.len();
    let mut acc: Vec<char> = Vec::new();
    let mut p: usize = 0;
    proof {
        assert(tok@.skip(0) =~= tok@);
        assert(acc@ + strip_placeholders(tok@.skip(0)) =~= strip_placeholders(tok@));
    }
    while p < n
        invariant
            p <= n,
            n == tok@.len(),
            strip_placeholders(tok@) == acc@ + strip_placeholders(tok@.skip(p as int)),
        decreases n - p,
    {
        let ghost rem = tok@.skip(p as int);
        proof {
            assert(rem[0] == tok@[p as int]);
            assert(p + 1 < n ==> rem[1] == tok@[p + 1]);
        }
        let c = tok[p];
        if c == '%' && p + 1 < n {
            let code = tok[p + 1];
            if code == 'f' || code == 'F' || code == 'u' || code == 'U' || code == 'i'
                || code == 'c' || code == 'k' {
                p = p + 2;
                proof {
                    assert(rem.skip(2) =~= tok@.skip(p as int));
                }
                continue;
            }
        }
        acc.push(c);
        p = p + 1;
        proof {
            assert(rem.len() >= 2 ==> rem[1] == tok@[p as int]);
            assert(!(rem.len() >= 2 && rem[0] == '%' && placeholder_code(rem[1])));
            assert(rem.skip(1) =~= tok@.skip(p as int));
            assert(acc@ + strip_placeholders(tok@.skip(p as int))
                =~= acc@.drop_last() + (seq![c] + strip_placeholders(tok@.skip(p as int))));
        }
    }
    proof {
        assert(strip_placeholders(tok@.skip(n as int)) =~= Seq::<char>::empty());
        assert(acc@ + strip_placeholders(tok@.skip(n as int)) =~= acc@);
    }
    acc
}

/// Parses a raw Exec line into the invocation the catalog stores: its
/// whitespace-separated tokens, placeholder codes stripped, tokens left
/// empty dropped.
pub fn parse_exec(raw: &str) -> (r: Vec<String>)
    ensures
        string_views(r@) == spec_clean_exec(raw@),
{
    let chars = str_chars(raw);
    let ghost s0 = chars@;
    let n = chars.len();
    let mut toks: Vec<String> = Vec::new();
    let mut i: usize = 0;
    proof {
        assert(s0.skip(0) =~= s0);
        assert(string_views(toks@) =~= Seq::<Seq<char>>::empty());
        lemma_clean_prepend_empty(split_tokens(s0));
    }
    while i < n
        invariant
            i <= n,
            n == s0.len(),
            chars@ == s0,
            spec_clean_exec(s0) == string_views(toks@) + clean_tokens(split_tokens(s0.skip(i as int))),
        decreases n - i,
    {
        let ghost rem = s0.skip(i as int);
        proof {
            assert(rem[0] == s0[i as int]);
        }
        let c = chars[i];
        if c == ' ' || c == '\t' || c == '\n' || c == '\r' {
            i = i + 1;
            proof {
                assert(rem.skip(1) =~= s0.skip(i as int));
            }
            continue;
        }
        // Scan to the end of this token.
        let start = i;
        let mut j: usize = i;
        while j < n && chars[j] != ' ' && chars[j] != '\t' && chars[j] != '\n' && chars[j] != '\r'
            invariant
                start <= j <= n,
                n == s0.len(),
                chars@ == s0,
                forall|m: int| start <= m < j ==> !is_exec_space(#[trigger] s0[m]),
            decreases n - j,
        {
            j = j + 1;
        }
        let mut tok: Vec<char> = Vec::new();
        let mut k: usize = start;
        while k < j
            invariant
                start <= k <= j,
                j <= n,
                n == s0.len(),
                chars@ == s0,
                tok@ == s0.subrange(start as int, k as int),
            decreases j - k,
        {
            tok.push(chars[k]);
            k = k + 1;
            proof {
                assert(tok@ =~= s0.subrange(start as int, k as int));
            }
        }
        proof {
            assert(forall|m: int| 0 <= m < j - start ==> #[trigger] rem[m] == s0[m + start]);
            assert(j < n ==> is_exec_space(rem[j - start]));
            lemma_token_len_at(rem, j - start);
            assert(rem.take(token_len(rem) as int) =~= tok@);
        }
        let stripped = strip_token(&tok);
        let ghost toks0 = string_views(toks@);
        if stripped.len() > 0 {
            let tstr = chars_to_string(&stripped);
            toks.push(tstr);
        }
        i = j;
        proof {
            let tail = split_tokens(s0.skip(i as int));
            assert(rem.skip(token_len(rem) as int) =~= s0.skip(i as int));
            assert(split_tokens(rem) == seq![tok@] + tail);
            lemma_clean_cons(tok@, tail);
            if stripped@.len() > 0 {
                assert(string_views(toks@) =~= toks0 + seq![strip_placeholders(tok@)]);
                assert(toks0 + (seq![strip_placeholders(tok@)] + clean_tokens(tail))
                    =~= string_views(toks@) + clean_tokens(tail));
            }
        }
    }
    proof {
        assert(s0.skip(n as int) =~= Seq::<char>::empty());
        assert(split_tokens(s0.skip(n as int)) =~= Seq::<Seq<char>>::empty());
        lemma_clean_prepend_empty(Seq::<Seq<char>>::empty());
        assert(clean_tokens(Seq::<Seq<char>>::empty()) =~= Seq::<Seq<char>>::empty());
        assert(string_views(toks@) + Seq::<Seq<char>>::empty() =~= string_views(toks@));
    }
    toks
}

/// Cleaning keeps nothing of an empty token list.
proof fn lemma_clean_prepend_empty(ts: Seq<Seq<char>>)
    ensures
        clean_tokens(Seq::<Seq<char>>::empty()) == Seq::<Seq<char>>::empty(),
        Seq::<Seq<char>>::empty() + clean_tokens(ts) == clean_tokens(ts),
{
    reveal(Seq::filter);
    assert(Seq::<Seq<char>>::empty().map_values(|t: Seq<char>| strip_placeholders(t))
        =~= Seq::<Seq<char>>::empty());
    assert(clean_tokens(Seq::<Seq<char>>::empty()) =~= Seq::<Seq<char>>::empty());
    assert(Seq::<Seq<char>>::empty() + clean_tokens(ts) =~= clean_tokens(ts));
}

/// Cleaning a token list starts with the first token's stripped form, when
/// anything of it remains.
proof fn lemma_clean_cons(t: Seq<char>, rest: Seq<Seq<char>>)
    ensures
        clean_tokens(seq![t] + rest) == if strip_placeholders(t).len() != 0 {
            seq![strip_placeholders(t)] + clean_tokens(rest)
        } else {
            clean_tokens(rest)
        },
{
    reveal(Seq::filter);
    let strip = |x: Seq<char>| strip_placeholders(x);
    let keep = |x: Seq<char>| x.len() != 0;
    let ts = seq![t] + rest;
    assert(ts.map_values(strip) =~= seq![strip_placeholders(t)] + rest.map_values(strip));
    let a = seq![strip_placeholders(t)];
    let b = rest.map_values(strip);
    Seq::filter_distributes_over_add(a, b, keep);
    assert(a.drop_last() =~= Seq::<Seq<char>>::empty());
    assert(Seq::<Seq<char>>::empty().filter(keep) =~= Seq::<Seq<char>>::empty());
    if strip_placeholders(t).len() != 0 {
        assert(a.filter(keep) =~= seq![strip_placeholders(t)]);
        assert(seq![strip_placeholders(t)] + b.filter(keep)
            =~= seq![strip_placeholders(t)] + clean_tokens(rest));
        assert(clean_tokens(ts) =~= seq![strip_placeholders(t)] + clean_tokens(rest));
    } else {
        assert(a.filter(keep) =~= Seq::<Seq<char>>::empty());
        assert(Seq::<Seq<char>>::empty() + b.filter(keep) =~= b.filter(keep));
        assert(clean_tokens(ts) =~= clean_tokens(rest));
    }
}

/// A platform application as the catalog holds it: a display name, the
/// invocation (program then arguments, placeholder tokens stripped), an
/// optional resolved icon path, and whether it must run in a terminal.
pub struct LinuxApplication {
    pub name: String,
    pub invocation: Vec<String>,
    pub icon_path: Option<String>,
    pub is_terminal: bool,
}

/// The mathematical shape of a platform application.
pub struct AppV {
    pub name: Seq<char>,
    pub invocation: Seq<Seq<char>>,
    pub icon_path: Option<Seq<char>>,
    pub is_terminal: bool,
}

impl View for LinuxApplication {
    type V = AppV;

    open spec fn view(&self) -> AppV {
        AppV {
            name: self.name@,
            invocation: self.invocation@.map_values(|s: String| s@),
            icon_path: match self.icon_path {
                Some(p) => Some(p@),
                None => None,
            },
            is_terminal: self.is_terminal,
        }
    }
}

/// The concrete application type of the platform this build targets.
pub type App = LinuxApplication;

/// An application enumerated from an installed-program registry keyed by a
/// filesystem path, as alternative platforms report them.
pub struct WindowsApplication {
    pub name: String,
    pub path: String,
    pub icon: Option<Image>,
}

/// The capability surface a per-platform application type offers to the
/// catalog: a name, an optional alias and description, and an optional icon.
/// Enumeration and process launch stay with the platform adapter.
pub trait Application: Sized {
    /// The display name, as a sequence of characters.
    spec fn spec_name(&self) -> Seq<char>;

    /// The description, if the platform provides one.
    spec fn spec_description(&self) -> Option<Seq<char>>;

    fn name(&self) -> (r: &str)
        ensures
            r@ == self.spec_name(),
    ;

    fn alias(&self) -> (r: Option<&str>)
    ;

    fn description(&self) -> (r: Option<&str>)
        ensures
            r is Some <==> self.spec_description() is Some,
            r matches Some(d) ==> self.spec_description() == Some(d@),
    ;

    fn icon(&self) -> (r: Option<Image>)
    ;
}

impl Image {
    /// A copy of this icon with the same contents.
    pub fn duplicate(&self) -> (r: Image)
        ensures
            r@ == self@,
    {
        match self {
            Image::Data(v) => Image::Data(copy_bytes(v)),
            Image::Path(s) => Image::Path(s.clone()),
        }
    }
}

/// An equal copy of a byte vector.
pub fn copy_bytes(v: &Vec<u8>) -> (r: Vec<u8>)
    ensures
        r@ == v@,
{
    let n = v.len();
    let mut r: Vec<u8> = Vec::new();
    let mut i: usize = 0;
    while i < n
        invariant
            i <= n,
            n == v@.len(),
            r@ == v@.subrange(0, i as int),
        decreases n - i,
    {
        r.push(v[i]);
        i = i + 1;
        proof {
            assert(r@ =~= v@.subrange(0, i as int));
        }
    }
    proof {
        assert(r@ =~= v@);
    }
    r
}

/// An equal copy of a vector of strings.
pub fn copy_strings(v: &Vec<String>) -> (r: Vec<String>)
    ensures
        r@ == v@,
{
    let n = v.len();
    let mut r: Vec<String> = Vec::new();
    let mut i: usize = 0;
    while i < n
        invariant
            i <= n,
            n == v@.len(),
            r@ == v@.subrange(0, i as int),
        decreases n - i,
    {
        r.push(v[i].clone());
        i = i + 1;
        proof {
            assert(r@ =~= v@.subrange(0, i as int));
        }
    }
    proof {
        assert(r@ =~= v@);
    }
    r
}

/// An equal copy of an optional string.
pub fn copy_opt_string(v: &Option<String>) -> (r: Option<String>)
    ensures
        r == *v,
{
    match v {
        Some(s) => Some(s.clone()),
        None => None,
    }
}

impl LinuxApplication {
    /// A copy of this application with the same contents.
    pub fn duplicate(&self) -> (r: LinuxApplication)
        ensures
            r@ == self@,
    {
        LinuxApplication {
            name: self.name.clone(),
            invocation: copy_strings(&self.invocation),
            icon_path: copy_opt_string(&self.icon_path),
            is_terminal: self.is_terminal,
        }
    }
}

impl Application for LinuxApplication {
    open spec fn spec_name(&self) -> Seq<char> {
        self.name@
    }

    open spec fn spec_description(&self) -> Option<Seq<char>> {
        None
    }

    fn name(&self) -> (r: &str) {
        self.name.as_str()
    }

    fn alias(&self) -> (r: Option<&str>) {
        None
    }

    fn description(&self) -> (r: Option<&str>) {
        None
    }

    fn icon(&self) -> (r: Option<Image>) {
        match &self.icon_path {
            Some(p) => Some(Image::Path(p.clone())),
            None => None,
        }
    }
}

/// The plain fields the enumeration reads out of one desktop entry file.
pub struct DesktopEntryData {
    pub name: Option<String>,
    pub exec_line: Option<String>,
    pub icon: Option<String>,
    pub no_display: bool,
    pub terminal: bool,
}

/// Whether a raw desktop entry yields a catalog application: it is not
/// hidden, and its Exec line leaves at least one token after cleaning.
pub open spec fn spec_entry_kept(d: DesktopEntryData) -> bool {
    &&& !d.no_display
    &&& d.exec_line is Some
    &&& spec_clean_exec(d.exec_line->Some_0@).len() != 0
}

/// The name an entry displays: its own, or a fixed fallback.
pub open spec fn spec_entry_name(d: DesktopEntryData) -> Seq<char> {
    match d.name {
        Some(n) => n@,
        None => "Unknown"@,
    }
}

/// How a built application corresponds to the entry it came from. Its icon
/// path is whatever the icon probes of this machine answered, so it is not
/// pinned here.
pub open spec fn app_matches_entry(app: LinuxApplication, d: DesktopEntryData) -> bool {
    &&& app.name@ == spec_entry_name(d)
    &&& string_views(app.invocation@) == spec_clean_exec(d.exec_line->Some_0@)
    &&& app.is_terminal == d.terminal
}

/// Builds the catalog application a desktop entry yields, if any: hidden
/// entries, entries without an Exec line and entries whose invocation
/// cleans away entirely are dropped.
pub fn app_from_entry(d: &DesktopEntryData) -> (r: Option<LinuxApplication>)
    ensures
        r is Some <==> spec_entry_kept(*d),
        r matches Some(app) ==> app_matches_entry(app, *d),
{
    if d.no_display {
        return None;
    }
    let raw = match &d.exec_line {
        Some(e) => e,
        None => {
            return None;
        },
    };
    let invocation = parse_exec(raw.as_str());
    if invocation.len() == 0 {
        proof {
            assert(string_views(invocation@).len() == 0);
        }
        return None;
    }
    let name = match &d.name {
        Some(n) => n.clone(),
        None => String::from_str("Unknown"),
    };
    let icon_path = match &d.icon {
        Some(ic) => crate::icons::find_icon(ic.as_str()),
        None => None,
    };
    proof {
        assert(string_views(invocation@).len() == invocation@.len());
    }
    Some(LinuxApplication { name, invocation, icon_path, is_terminal: d.terminal })
}

/// The enumerated entries that yield applications, in order.
pub open spec fn spec_kept_entries(entries: Seq<DesktopEntryData>) -> Seq<DesktopEntryData> {
    entries.filter(|d: DesktopEntryData| spec_entry_kept(d))
}

/// Builds the application catalog from the enumerated desktop entries: one
/// application per kept entry, in enumeration order.
pub fn get_apps(entries: Vec<DesktopEntryData>) -> (r: Vec<App>)
    ensures
        r@.len() == spec_kept_entries(entries@).len(),
        forall|i: int| 0 <= i < r@.len()
            ==> app_matches_entry(#[trigger] r@[i], spec_kept_entries(entries@)[i]),
{
    let ghost es = entries@;
    let n = entries.len();
    let mut r: Vec<App> = Vec::new();
    let mut i: usize = 0;
    proof {
        reveal(Seq::filter);
        assert(es.take(0) =~= Seq::<DesktopEntryData>::empty());
    }
    while i < n
        invariant
            i <= n,
            n == es.len(),
            entries@ == es,
            r@.len() == spec_kept_entries(es.take(i as int)).len(),
            forall|k: int| 0 <= k < r@.len()
                ==> app_matches_entry(#[trigger] r@[k], spec_kept_entries(es.take(i as int))[k]),
        decreases n - i,
    {
        let built = app_from_entry(&entries[i]);
        match built {
            Some(app) => {
                r.push(app);
            },
            None => {},
        }
        i = i + 1;
        proof {
            reveal(Seq::filter);
            assert(es.take(i as int).drop_last() =~= es.take(i - 1));
            assert(es.take(i as int).last() == es[i - 1]);
        }
    }
    proof {
        assert(es.take(n as int) =~= es);
    }
    r
}

impl Application for WindowsApplication {
    open spec fn spec_name(&self) -> Seq<char> {
        self.name@
    }

    open spec fn spec_description(&self) -> Option<Seq<char>> {
        Some(self.path@)
    }

    fn name(&self) -> (r: &str) {
        self.name.as_str()
    }

    fn alias(&self) -> (r: Option<&str>) {
        None
    }

    fn description(&self) -> (r: Option<&str>) {
        Some(self.path.as_str())
    }

    fn icon(&self) -> (r: Option<Image>) {
        match &self.icon {
            Some(img) => Some(img.duplicate()),
            None => None,
        }
    }
}

} // verus!
