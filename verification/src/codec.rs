//! The textual format of the persisted usage store, with its encoder and
//! parser and the proof that they invert each other.
//!
//! One line per record: the launch count, the last-used timestamp and the
//! character length of the name, in decimal and separated by single spaces,
//! then the name itself (read by its length, so it may hold anything) and a
//! terminating newline.

use vstd::prelude::*;
use vstd::arithmetic::div_mod::lemma_fundamental_div_mod;
use crate::common::AppState;
use crate::common::UsageInfo;
use crate::common::entries_view;
use crate::common::lemma_entries_view_index;
use crate::text::chars_to_string;
use crate::text::str_chars;
use crate::text::str_eq;

verus! {

/// A decimal digit.
pub open spec fn is_digit(c: char) -> bool {
    48 <= c as int <= 57
}

/// The numeric value of a decimal digit.
pub open spec fn digit_val(c: char) -> nat {
    (c as int - 48) as nat
}

/// The decimal digit for a value below ten.
pub open spec fn digit_char(d: nat) -> char {
    if d == 0 { '0' }
    else if d == 1 { '1' }
    else if d == 2 { '2' }
    else if d == 3 { '3' }
    else if d == 4 { '4' }
    else if d == 5 { '5' }
    else if d == 6 { '6' }
    else if d == 7 { '7' }
    else if d == 8 { '8' }
    else { '9' }
}

/// The canonical decimal digits of a number, most significant first.
pub open spec fn dec_digits(n: nat) -> Seq<char>
    decreases n,
{
    if n < 10 {
        seq![digit_char(n)]
    } else {
        dec_digits(n / 10).push(digit_char(n % 10))
    }
}

/// The number a digit run denotes.
pub open spec fn val_of(d: Seq<char>) -> nat
    decreases d.len(),
{
    if d.len() == 0 {
        0
    } else {
        val_of(d.drop_last()) * 10 + digit_val(d.last())
    }
}

/// The canonical digits of a number are digits, and there is at least one.
pub proof fn lemma_dec_digits_are_digits(n: nat)
    ensures
        dec_digits(n).len() >= 1,
        forall|i: int| 0 <= i < dec_digits(n).len() ==> is_digit(#[trigger] dec_digits(n)[i]),
    decreases n,
{
    if n < 10 {
        assert(is_digit(digit_char(n)));
    } else {
        lemma_dec_digits_are_digits(n / 10);
        assert(is_digit(digit_char(n % 10)));
        assert(forall|i: int| 0 <= i < dec_digits(n / 10).len()
            ==> dec_digits(n)[i] == dec_digits(n / 10)[i]);
    }
}

/// Reading the canonical digits of a number back gives the number.
pub proof fn lemma_val_of_dec_digits(n: nat)
    ensures
        val_of(dec_digits(n)) == n,
    decreases n,
{
    if n < 10 {
        let d = dec_digits(n);
        assert(d == seq![digit_char(n)]);
        assert(d.len() == 1);
        assert(d.last() == digit_char(n));
        assert(digit_val(digit_char(n)) == n);
        assert(d.drop_last() =~= Seq::<char>::empty());
        assert(val_of(d.drop_last()) == 0);
        assert(val_of(d) == val_of(d.drop_last()) * 10 + digit_val(d.last()));
    } else {
        lemma_val_of_dec_digits(n / 10);
        let d = dec_digits(n);
        assert(d.drop_last() =~= dec_digits(n / 10));
        assert(d.last() == digit_char(n % 10));
        assert(digit_val(digit_char(n % 10)) == n % 10);
        assert(val_of(d) == (n / 10) * 10 + n % 10);
        assert(n == 10 * (n / 10) + n % 10) by {
            lemma_fundamental_div_mod(n as int, 10);
        };
    }
}

/// The longest digit prefix of a sequence, and what follows it.
pub open spec fn split_digits(s: Seq<char>) -> (Seq<char>, Seq<char>)
    decreases s.len(),
{
    if s.len() == 0 || !is_digit(s[0]) {
        (Seq::empty(), s)
    } else {
        let (d, r) = split_digits(s.drop_first());
        (seq![s[0]] + d, r)
    }
}

/// Splitting a digit run followed by a non-digit recovers both parts.
pub proof fn lemma_split_digits_exact(d: Seq<char>, rest: Seq<char>)
    requires
        forall|i: int| 0 <= i < d.len() ==> is_digit(#[trigger] d[i]),
        rest.len() > 0 ==> !is_digit(rest[0]),
    ensures
        split_digits(d + rest) == (d, rest),
    decreases d.len(),
{
    let s = d + rest;
    if d.len() == 0 {
        assert(s =~= rest);
        if rest.len() > 0 {
            assert(!is_digit(s[0]));
        }
        assert(split_digits(s) == (Seq::<char>::empty(), s));
    } else {
        assert(is_digit(s[0]));
        assert(s.drop_first() =~= d.drop_first() + rest);
        lemma_split_digits_exact(d.drop_first(), rest);
        assert(seq![s[0]] + d.drop_first() =~= d);
    }
}

/// What the digit prefix and the remainder of any sequence look like.
pub proof fn lemma_split_digits_shape(s: Seq<char>)
    ensures
        ({
            let (d, r) = split_digits(s);
            &&& d + r == s
            &&& d.len() + r.len() == s.len()
            &&& forall|i: int| 0 <= i < d.len() ==> is_digit(#[trigger] d[i])
            &&& (r.len() > 0 ==> !is_digit(r[0]))
            &&& forall|i: int| 0 <= i < d.len() ==> d[i] == s[i]
        }),
    decreases s.len(),
{
    let (d, r) = split_digits(s);
    if s.len() == 0 || !is_digit(s[0]) {
        assert(d + r =~= s);
    } else {
        lemma_split_digits_shape(s.drop_first());
        let (d2, r2) = split_digits(s.drop_first());
        assert(d2 + r2 == s.drop_first());
        assert(d == seq![s[0]] + d2);
        assert(r == r2);
        assert((seq![s[0]] + d2) + r2 =~= seq![s[0]] + (d2 + r2));
        assert(seq![s[0]] + s.drop_first() =~= s);
        assert(d + r == s);
        assert(forall|i: int| 0 <= i < d2.len() ==> #[trigger] d2[i] == s.drop_first()[i]);
        assert(forall|i: int| 0 <= i < d.len() ==> #[trigger] d[i] == s[i]);
    }
}

/// One record of the store's file: count, timestamp, name length, name.
pub open spec fn spec_encode_entry(name: Seq<char>, info: UsageInfo) -> Seq<char> {
    dec_digits(info.count as nat) + seq![' '] + dec_digits(info.last_used as nat) + seq![' ']
        + dec_digits(name.len()) + seq![' '] + name + seq!['\n']
}

/// The whole file: the records in table order.
pub open spec fn spec_encode(entries: Seq<(Seq<char>, UsageInfo)>) -> Seq<char>
    decreases entries.len(),
{
    if entries.len() == 0 {
        Seq::empty()
    } else {
        spec_encode_entry(entries[0].0, entries[0].1) + spec_encode(entries.drop_first())
    }
}

/// Encoding a concatenation of tables concatenates their encodings.
pub proof fn lemma_encode_append(a: Seq<(Seq<char>, UsageInfo)>, b: Seq<(Seq<char>, UsageInfo)>)
    ensures
        spec_encode(a + b) == spec_encode(a) + spec_encode(b),
    decreases a.len(),
{
    if a.len() == 0 {
        assert(a + b =~= b);
        assert(spec_encode(a) + spec_encode(b) =~= spec_encode(b));
    } else {
        assert((a + b).drop_first() =~= a.drop_first() + b);
        lemma_encode_append(a.drop_first(), b);
        assert(spec_encode(a + b) =~= spec_encode(a) + spec_encode(b));
    }
}

/// One parsed record: its name and usage record, and the unread remainder.
pub open spec fn parse_record(s: Seq<char>) -> Option<(Seq<char>, UsageInfo, Seq<char>)> {
    let (d1, r1) = split_digits(s);
    if d1.len() == 0 || r1.len() == 0 || r1[0] != ' ' || val_of(d1) > u32::MAX {
        None
    } else {
        let (d2, r2) = split_digits(r1.drop_first());
        if d2.len() == 0 || r2.len() == 0 || r2[0] != ' ' || val_of(d2) > u64::MAX {
            None
        } else {
            let (d3, r3) = split_digits(r2.drop_first());
            if d3.len() == 0 || r3.len() == 0 || r3[0] != ' ' {
                None
            } else {
                let name_len = val_of(d3);
                let s4 = r3.drop_first();
                if s4.len() < name_len + 1 || s4[name_len as int] != '\n' {
                    None
                } else {
                    Some((
                        s4.take(name_len as int),
                        UsageInfo { count: val_of(d1) as u32, last_used: val_of(d2) as u64 },
                        s4.skip(name_len as int + 1),
                    ))
                }
            }
        }
    }
}

/// The records of a whole file; `None` on any malformed remainder.
pub open spec fn parse_entries(s: Seq<char>) -> Option<Seq<(Seq<char>, UsageInfo)>>
    decreases s.len(),
{
    if s.len() == 0 {
        Some(Seq::empty())
    } else {
        match parse_record(s) {
            Option::Some((name, info, rest)) => {
                if rest.len() >= s.len() {
                    None
                } else {
                    match parse_entries(rest) {
                        Option::Some(es) => Some(seq![(name, info)] + es),
                        Option::None => None,
                    }
                }
            },
            Option::None => None,
        }
    }
}

/// Keys are pairwise distinct.
pub open spec fn distinct_keys(entries: Seq<(Seq<char>, UsageInfo)>) -> bool {
    forall|i: int, j: int| 0 <= i < j < entries.len() ==> entries[i].0 != entries[j].0
}

/// What reading a file yields: its records, provided the file is well formed
/// and its keys are distinct.
pub open spec fn spec_decode(s: Seq<char>) -> Option<Seq<(Seq<char>, UsageInfo)>> {
    match parse_entries(s) {
        Option::Some(es) => if distinct_keys(es) {
            Some(es)
        } else {
            None
        },
        Option::None => None,
    }
}

/// Parsing one encoded record, whatever follows it, recovers the record and
/// leaves exactly the rest.
#[verifier::rlimit(50)]
pub proof fn lemma_parse_record_of_encode(name: Seq<char>, info: UsageInfo, rest: Seq<char>)
    ensures
        parse_record(spec_encode_entry(name, info) + rest) == Some((name, info, rest)),
{
    let s = spec_encode_entry(name, info) + rest;
    let t1 = seq![' '] + dec_digits(info.last_used as nat) + seq![' '] + dec_digits(name.len())
        + seq![' '] + name + seq!['\n'] + rest;
    lemma_dec_digits_are_digits(info.count as nat);
    assert(s =~= dec_digits(info.count as nat) + t1);
    lemma_split_digits_exact(dec_digits(info.count as nat), t1);
    lemma_val_of_dec_digits(info.count as nat);
    assert(t1[0] == ' ');
    assert(!is_digit(' '));

    let t2 = seq![' '] + dec_digits(name.len()) + seq![' '] + name + seq!['\n'] + rest;
    lemma_dec_digits_are_digits(info.last_used as nat);
    assert(t1.drop_first() =~= dec_digits(info.last_used as nat) + t2);
    lemma_split_digits_exact(dec_digits(info.last_used as nat), t2);
    lemma_val_of_dec_digits(info.last_used as nat);
    assert(t2[0] == ' ');

    let t3 = seq![' '] + name + seq!['\n'] + rest;
    lemma_dec_digits_are_digits(name.len());
    assert(t2.drop_first() =~= dec_digits(name.len()) + t3);
    lemma_split_digits_exact(dec_digits(name.len()), t3);
    lemma_val_of_dec_digits(name.len());
    assert(t3[0] == ' ');

    let s4 = name + seq!['\n'] + rest;
    assert(t3.drop_first() =~= s4);
    assert(s4.len() == name.len() + 1 + rest.len());
    assert(s4[name.len() as int] == '\n');
    assert(s4.take(name.len() as int) =~= name);
    assert(s4.skip(name.len() as int + 1) =~= rest);
}

/// Parsing an encoded table recovers the table.
pub proof fn lemma_parse_of_encode(entries: Seq<(Seq<char>, UsageInfo)>)
    ensures
        parse_entries(spec_encode(entries)) == Some(entries),
    decreases entries.len(),
{
    if entries.len() == 0 {
    } else {
        let name = entries[0].0;
        let info = entries[0].1;
        let rest = spec_encode(entries.drop_first());
        let s = spec_encode(entries);
        assert(s == spec_encode_entry(name, info) + rest);
        lemma_parse_record_of_encode(name, info, rest);
        lemma_dec_digits_are_digits(info.count as nat);
        assert(spec_encode_entry(name, info).len() >= 1);
        assert(s.len() == spec_encode_entry(name, info).len() + rest.len());
        assert(rest.len() < s.len());
        assert(s.len() > 0);
        lemma_parse_of_encode(entries.drop_first());
        assert(seq![(name, info)] + entries.drop_first() =~= entries);
    }
}

/// Round trip: a saved store, read back, is the same table again.
pub proof fn lemma_encode_decode_round_trip(entries: Seq<(Seq<char>, UsageInfo)>)
    requires
        distinct_keys(entries),
    ensures
        spec_decode(spec_encode(entries)) == Some(entries),
{
    lemma_parse_of_encode(entries);
}

/// Round trip for a whole store: the text a well-formed store persists as
/// reads back to exactly the store's table.
pub proof fn lemma_store_round_trip(st: AppState)
    requires
        st.wf(),
    ensures
        spec_decode(spec_encode(entries_view(st.usage_stats@))) == Some(entries_view(st.usage_stats@)),
{
    lemma_entries_view_index(st.usage_stats@);
    let ev = entries_view(st.usage_stats@);
    assert(forall|x: int, y: int| 0 <= x < y < ev.len() ==> ev[x].0 != ev[y].0);
    lemma_encode_decode_round_trip(ev);
}

/// The digit prefix ends exactly at the first non-digit position.
proof fn lemma_split_digits_at(s: Seq<char>, k: int)
    requires
        0 <= k <= s.len(),
        forall|m: int| 0 <= m < k ==> is_digit(#[trigger] s[m]),
        k < s.len() ==> !is_digit(s[k as int]),
    ensures
        split_digits(s) == (s.take(k), s.skip(k)),
    decreases k,
{
    if k == 0 {
        assert(s.take(0) =~= Seq::<char>::empty());
        assert(s.skip(0) =~= s);
        if s.len() > 0 {
            assert(!is_digit(s[0]));
        }
    } else {
        assert(is_digit(s[0]));
        let t = s.drop_first();
        assert(forall|m: int| 0 <= m < k - 1 ==> #[trigger] t[m] == s[m + 1]);
        lemma_split_digits_at(t, k - 1);
        assert(seq![s[0]] + t.take(k - 1) =~= s.take(k));
        assert(t.skip(k - 1) =~= s.skip(k));
    }
}

/// Extending a digit run by one digit multiplies its value by ten and adds
/// the digit.
proof fn lemma_val_take_step(d: Seq<char>, m: int)
    requires
        0 <= m < d.len(),
    ensures
        val_of(d.take(m + 1)) == val_of(d.take(m)) * 10 + digit_val(d[m]),
{
    assert(d.take(m + 1).drop_last() =~= d.take(m));
    assert(d.take(m + 1).last() == d[m]);
}

/// A digit run is worth at least any of its prefixes.
proof fn lemma_val_of_prefix(d: Seq<char>, j: int)
    requires
        0 <= j <= d.len(),
    ensures
        val_of(d) >= val_of(d.take(j)),
    decreases d.len(),
{
    if j == d.len() {
        assert(d.take(j) =~= d);
    } else {
        assert(d.drop_last().take(j) =~= d.take(j));
        lemma_val_of_prefix(d.drop_last(), j);
        assert(val_of(d) == val_of(d.drop_last()) * 10 + digit_val(d.last()));
        assert(val_of(d.drop_last()) * 10 >= val_of(d.drop_last()));
    }
}

/// Reads the digit run starting at `i` and its value; refuses a run that is
/// empty or whose value does not fit.
fn scan_number(v: &Vec<char>, i: usize) -> (r: Option<(u64, usize)>)
    requires
        i <= v@.len(),
    ensures
        ({
            let (d, rest) = split_digits(v@.skip(i as int));
            match r {
                Option::Some(p) => {
                    &&& d.len() > 0
                    &&& val_of(d) <= u64::MAX
                    &&& p.0 == val_of(d)
                    &&& p.1 == i + d.len()
                    &&& p.1 <= v@.len()
                },
                Option::None => d.len() == 0 || val_of(d) > u64::MAX,
            }
        }),
{
    let ghost s = v@.skip(i as int);
    let n = v.len();
    // Find where the digit run ends.
    let mut j: usize = i;
    while j < n && '0' <= v[j] && v[j] <= '9'
        invariant
            i <= j <= n,
            n == v@.len(),
            s == v@.skip(i as int),
            forall|m: int| i <= m < j ==> is_digit(#[trigger] v@[m]),
        decreases n - j,
    {
        j = j + 1;
    }
    proof {
        assert(forall|m: int| 0 <= m < j - i ==> #[trigger] s[m] == v@[m + i]);
        assert(j < n ==> !is_digit(s[j - i]));
        lemma_split_digits_at(s, j - i);
    }
    let ghost d = split_digits(s).0;
    proof {
        assert(d == s.take(j - i));
        assert(d.len() == j - i);
        assert(forall|m: int| 0 <= m < d.len() ==> #[trigger] d[m] == v@[m + i]);
    }
    if j == i {
        return None;
    }
    // Accumulate the value, watching for overflow.
    let mut acc: u64 = 0;
    let mut k: usize = i;
    while k < j
        invariant
            i <= k <= j,
            j <= n,
            n == v@.len(),
            d == split_digits(v@.skip(i as int)).0,
            d.len() == j - i,
            forall|m: int| 0 <= m < d.len() ==> #[trigger] d[m] == v@[m + i],
            forall|m: int| 0 <= m < d.len() ==> is_digit(#[trigger] d[m]),
            acc == val_of(d.take(k - i)),
        decreases j - k,
    {
        let c = v[k];
        let dig: u64 = match c {
            '0' => 0,
            '1' => 1,
            '2' => 2,
            '3' => 3,
            '4' => 4,
            '5' => 5,
            '6' => 6,
            '7' => 7,
            '8' => 8,
            _ => 9,
        };
        proof {
            assert(c == d[k - i]);
            assert(is_digit(c));
            assert(c == '0' || c == '1' || c == '2' || c == '3' || c == '4' || c == '5' || c == '6'
                || c == '7' || c == '8' || c == '9');
            assert(dig == digit_val(d[k - i]));
        }
        if acc > u64::MAX / 10 || (acc == u64::MAX / 10 && dig > u64::MAX % 10) {
            proof {
                lemma_val_take_step(d, k - i);
                assert(acc * 10 + dig > u64::MAX) by {
                    lemma_fundamental_div_mod(u64::MAX as int, 10);
                };
                assert(val_of(d.take(k - i + 1)) > u64::MAX);
                lemma_val_of_prefix(d, k - i + 1);
            }
            return None;
        }
        proof {
            lemma_val_take_step(d, k - i);
            assert(acc * 10 + dig <= u64::MAX) by {
                lemma_fundamental_div_mod(u64::MAX as int, 10);
            };
        }
        acc = acc * 10 + dig;
        k = k + 1;
    }
    proof {
        assert(d.take(j - i) =~= d);
    }
    Some((acc, j))
}

/// Appends the canonical decimal digits of a number.
fn push_decimal(out: &mut Vec<char>, n: u64)
    ensures
        final(out)@ == old(out)@ + dec_digits(n as nat),
    decreases n,
{
    if n < 10 {
        let c = match n {
            0 => '0',
            1 => '1',
            2 => '2',
            3 => '3',
            4 => '4',
            5 => '5',
            6 => '6',
            7 => '7',
            8 => '8',
            _ => '9',
        };
        proof {
            assert(c == digit_char(n as nat));
        }
        out.push(c);
        proof {
            assert(out@ =~= old(out)@ + dec_digits(n as nat));
        }
    } else {
        push_decimal(out, n / 10);
        let rem = n % 10;
        let c = match rem {
            0 => '0',
            1 => '1',
            2 => '2',
            3 => '3',
            4 => '4',
            5 => '5',
            6 => '6',
            7 => '7',
            8 => '8',
            _ => '9',
        };
        proof {
            assert(c == digit_char(n as nat % 10));
        }
        out.push(c);
        proof {
            assert(out@ =~= old(out)@ + dec_digits(n as nat));
        }
    }
}

/// Appends the characters of a vector.
fn push_chars(out: &mut Vec<char>, v: &Vec<char>)
    ensures
        final(out)@ == old(out)@ + v@,
{
    let n = v.len();
    let mut i: usize = 0;
    while i < n
        invariant
            i <= n,
            n == v@.len(),
            out@ == old(out)@ + v@.take(i as int),
        decreases n - i,
    {
        out.push(v[i]);
        i = i + 1;
        proof {
            assert(out@ =~= old(out)@ + v@.take(i as int));
        }
    }
    proof {
        assert(old(out)@ + v@.take(n as int) =~= old(out)@ + v@);
    }
}

impl AppState {
    /// The text this store is persisted as.
    pub fn serialize(&self) -> (r: String)
        ensures
            r@ == spec_encode(entries_view(self.usage_stats@)),
    {
        let ghost ev = entries_view(self.usage_stats@);
        let n = self.usage_stats.len();
        let mut out: Vec<char> = Vec::new();
        let mut i: usize = 0;
        proof {
            lemma_entries_view_index(self.usage_stats@);
            assert(ev.take(0) =~= Seq::<(Seq<char>, UsageInfo)>::empty());
            assert(out@ =~= spec_encode(ev.take(0)));
        }
        while i < n
            invariant
                i <= n,
                n == self.usage_stats@.len(),
                ev == entries_view(self.usage_stats@),
                ev.len() == n,
                forall|x: int| 0 <= x < n
                    ==> #[trigger] ev[x] == (self.usage_stats@[x].0@, self.usage_stats@[x].1),
                out@ == spec_encode(ev.take(i as int)),
            decreases n - i,
        {
            let ghost out0 = out@;
            let info = self.usage_stats[i].1;
            push_decimal(&mut out, info.count as u64);
            out.push(' ');
            push_decimal(&mut out, info.last_used);
            out.push(' ');
            let name_chars = str_chars(self.usage_stats[i].0.as_str());
            push_decimal(&mut out, name_chars.len() as u64);
            out.push(' ');
            push_chars(&mut out, &name_chars);
            out.push('\n');
            proof {
                assert(out@ =~= out0 + spec_encode_entry(ev[i as int].0, ev[i as int].1));
            }
            i = i + 1;
            proof {
                let a = ev.take(i - 1);
                let b = seq![ev[i - 1]];
                lemma_encode_append(a, b);
                assert(b.drop_first() =~= Seq::<(Seq<char>, UsageInfo)>::empty());
                assert(spec_encode(b.drop_first()) =~= Seq::<char>::empty());
                assert(b[0] == ev[i - 1]);
                assert(spec_encode(b) == spec_encode_entry(b[0].0, b[0].1) + spec_encode(b.drop_first()));
                assert(spec_encode(b) =~= spec_encode_entry(ev[i - 1].0, ev[i - 1].1));
                assert(a + b =~= ev.take(i as int));
                assert(out@ =~= spec_encode(ev.take(i as int)));
            }
        }
        proof {
            assert(ev.take(n as int) =~= ev);
        }
        chars_to_string(&out)
    }
}

/// Reads one record starting at `i`; refuses exactly what the grammar
/// refuses there.
#[verifier::rlimit(80)]
fn parse_one(v: &Vec<char>, i: usize) -> (r: Option<(String, UsageInfo, usize)>)
    requires
        i <= v@.len(),
    ensures
        ({
            match r {
                Option::Some(t) => {
                    &&& parse_record(v@.skip(i as int)) == Some((t.0@, t.1, v@.skip(t.2 as int)))
                    &&& i < t.2 <= v@.len()
                },
                Option::None => parse_record(v@.skip(i as int)) is None,
            }
        }),
{
    let ghost s = v@.skip(i as int);
    let n = v.len();

    // The launch count.
    let ghost d1 = split_digits(s).0;
    let ghost r1 = split_digits(s).1;
    proof {
        lemma_split_digits_shape(s);
    }
    let scanned = scan_number(v, i);
    let (count_val, j1) = match scanned {
        Some(p) => p,
        None => {
            return None;
        },
    };
    proof {
        assert(r1 =~= s.skip(d1.len() as int));
        assert(s.skip(d1.len() as int) =~= v@.skip(i + d1.len()));
    }
    if j1 == n {
        return None;
    }
    if count_val > 0xFFFF_FFFF {
        return None;
    }
    let sep1 = v[j1];
    if sep1 != ' ' {
        proof {
            assert(r1[0] == v@[j1 as int]);
        }
        return None;
    }
    proof {
        assert(r1[0] == v@[j1 as int]);
    }

    // The last-used timestamp.
    let i2 = j1 + 1;
    let ghost s2 = r1.drop_first();
    let ghost d2 = split_digits(s2).0;
    let ghost r2 = split_digits(s2).1;
    proof {
        assert(s2 =~= v@.skip(i2 as int));
        lemma_split_digits_shape(s2);
    }
    let scanned2 = scan_number(v, i2);
    let (last_val, j2) = match scanned2 {
        Some(p) => p,
        None => {
            return None;
        },
    };
    proof {
        assert(r2 =~= s2.skip(d2.len() as int));
        assert(s2.skip(d2.len() as int) =~= v@.skip(i2 + d2.len()));
    }
    if j2 == n {
        return None;
    }
    let sep2 = v[j2];
    proof {
        assert(r2[0] == v@[j2 as int]);
    }
    if sep2 != ' ' {
        return None;
    }

    // The name length.
    let i3 = j2 + 1;
    let ghost s3 = r2.drop_first();
    let ghost d3 = split_digits(s3).0;
    let ghost r3 = split_digits(s3).1;
    proof {
        assert(s3 =~= v@.skip(i3 as int));
        lemma_split_digits_shape(s3);
    }
    let scanned3 = scan_number(v, i3);
    let (len_val, j3) = match scanned3 {
        Some(p) => p,
        None => {
            proof {
                if d3.len() > 0 && r3.len() > 0 && r3[0] == ' ' {
                    // The run's value exceeds u64::MAX, so it cannot name a
                    // length the remaining text could hold.
                    assert(val_of(d3) > u64::MAX);
                    assert(r3.drop_first().len() < s.len());
                    assert(s.len() <= v@.len());
                    assert(v@.len() <= usize::MAX);
                    assert(r3.drop_first().len() < val_of(d3) + 1);
                }
            }
            return None;
        },
    };
    proof {
        assert(r3 =~= s3.skip(d3.len() as int));
        assert(s3.skip(d3.len() as int) =~= v@.skip(i3 + d3.len()));
    }
    if j3 == n {
        return None;
    }
    let sep3 = v[j3];
    proof {
        assert(r3[0] == v@[j3 as int]);
    }
    if sep3 != ' ' {
        return None;
    }

    // The name itself, read by its length, then the record terminator.
    let i4 = j3 + 1;
    let ghost s4 = r3.drop_first();
    proof {
        assert(s4 =~= v@.skip(i4 as int));
        assert(s4.len() == n - i4);
    }
    if (n - i4) as u64 <= len_val {
        return None;
    }
    let name_len = len_val as usize;
    proof {
        assert(name_len + 1 <= s4.len());
    }
    let endc = v[i4 + name_len];
    proof {
        assert(s4[name_len as int] == v@[i4 + name_len]);
    }
    if endc != '\n' {
        return None;
    }
    let mut name_chars: Vec<char> = Vec::new();
    let mut k: usize = 0;
    while k < name_len
        invariant
            k <= name_len,
            i4 + name_len < n,
            n == v@.len(),
            name_chars@ =~= v@.subrange(i4 as int, i4 + k),
        decreases name_len - k,
    {
        name_chars.push(v[i4 + k]);
        k = k + 1;
        proof {
            assert(name_chars@ =~= v@.subrange(i4 as int, i4 + k));
        }
    }
    let name = chars_to_string(&name_chars);
    let next = i4 + name_len + 1;
    let info = UsageInfo { count: count_val as u32, last_used: last_val };
    proof {
        assert(name@ =~= s4.take(name_len as int));
        assert(s4.skip(name_len as int + 1) =~= v@.skip(next as int));
    }
    Some((name, info, next))
}

impl AppState {

    /// Reads a store back from its persisted text. Any malformed text, and any
    /// text whose records repeat a name, yields nothing, and the caller falls
    /// back to an empty store.
    pub fn deserialize(s: &str) -> (r: Option<AppState>)
        ensures
            ({
                match spec_decode(s@) {
                    Option::Some(entries) => r matches Some(st) && st.wf()
                        && entries_view(st.usage_stats@) == entries,
                    Option::None => r is None,
                }
            }),
    {
        let v = str_chars(s);
        let ghost s0 = v@;
        let n = v.len();
        let mut out: Vec<(String, UsageInfo)> = Vec::new();
        let mut i: usize = 0;
        proof {
            assert(entries_view(out@) =~= Seq::<(Seq<char>, UsageInfo)>::empty());
            assert(s0.skip(0) =~= s0);
            match parse_entries(s0) {
                Option::Some(rest) => {
                    assert(entries_view(out@) + rest =~= rest);
                },
                Option::None => {},
            }
        }
        while i < n
            invariant
                i <= n,
                n == s0.len(),
                v@ == s0,
                s0 == s@,
                parse_entries(s0) == (match parse_entries(s0.skip(i as int)) {
                    Option::Some(rest) => Some(entries_view(out@) + rest),
                    Option::None => None::<Seq<(Seq<char>, UsageInfo)>>,
                }),
            decreases n - i,
        {
            let ghost ev0 = entries_view(out@);
            let parsed = parse_one(&v, i);
            match parsed {
                Some(t) => {
                    let (name, info, next) = t;
                    let ghost i0 = i as int;
                    proof {
                        assert(s0.skip(i0).len() == n - i0);
                        assert(v@.skip(next as int).len() < s0.skip(i0).len());
                    }
                    out.push((name, info));
                    i = next;
                    proof {
                        lemma_entries_view_index(out@);
                        assert(entries_view(out@) =~= ev0 + seq![(name@, info)]);
                        match parse_entries(s0.skip(i as int)) {
                            Option::Some(rest) => {
                                assert(parse_entries(s0.skip(i0)) == Some(seq![(name@, info)] + rest));
                                assert(ev0 + (seq![(name@, info)] + rest) =~= (ev0 + seq![(name@, info)]) + rest);
                            },
                            Option::None => {
                                assert(parse_entries(s0.skip(i0)) is None);
                            },
                        }
                    }
                },
                None => {
                    proof {
                        assert(s0.skip(i as int).len() > 0);
                        assert(parse_entries(s0.skip(i as int)) is None);
                    }
                    return None;
                },
            }
        }
        proof {
            assert(s0.skip(n as int) =~= Seq::<char>::empty());
            assert(parse_entries(s0.skip(n as int)) == Some(Seq::<(Seq<char>, UsageInfo)>::empty()));
            assert(entries_view(out@) + Seq::<(Seq<char>, UsageInfo)>::empty() =~= entries_view(out@));
            assert(parse_entries(s0) == Some(entries_view(out@)));
        }

        // Refuse a table that repeats a name: the store's keys are distinct.
        let ghost ev = entries_view(out@);
        let m = out.len();
        proof {
            lemma_entries_view_index(out@);
        }
        let mut a: usize = 0;
        while a < m
            invariant
                a <= m,
                m == out@.len(),
                s0 == s@,
                parse_entries(s0) == Some(ev),
                ev == entries_view(out@),
                ev.len() == m,
                forall|x: int| 0 <= x < m ==> #[trigger] ev[x] == (out@[x].0@, out@[x].1),
                forall|x: int, y: int| 0 <= x < a && x < y < m ==> ev[x].0 != ev[y].0,
            decreases m - a,
        {
            let mut b: usize = a + 1;
            while b < m
                invariant
                    a < b <= m,
                    a < m,
                    m == out@.len(),
                    s0 == s@,
                    parse_entries(s0) == Some(ev),
                    ev == entries_view(out@),
                    ev.len() == m,
                    forall|x: int| 0 <= x < m ==> #[trigger] ev[x] == (out@[x].0@, out@[x].1),
                    forall|y: int| a < y < b ==> ev[a as int].0 != ev[y].0,
                decreases m - b,
            {
                if str_eq(out[a].0.as_str(), out[b].0.as_str()) {
                    proof {
                        assert(ev[a as int].0 == ev[b as int].0);
                        assert(!distinct_keys(ev));
                    }
                    return None;
                }
                b = b + 1;
            }
            a = a + 1;
        }
        proof {
            assert(distinct_keys(ev));
        }
        let st = AppState { usage_stats: out };
        proof {
            assert(forall|x: int| 0 <= x < st.usage_stats@.len()
                ==> #[trigger] st.usage_stats@[x].0@ == ev[x].0);
            assert(st.wf());
        }
        Some(st)
    }

    /// What loading the persisted state yields: the store the file holds, with
    /// a missing or corrupt file degrading to an empty store, never an error.
    pub fn load_from_text(text: Option<&str>) -> (r: AppState)
        ensures
            r.wf(),
            match text {
                Option::Some(t) => match spec_decode(t@) {
                    Option::Some(entries) => entries_view(r.usage_stats@) == entries,
                    Option::None => r.usage_stats@.len() == 0,
                },
                Option::None => r.usage_stats@.len() == 0,
            },
    {
        match text {
            Some(t) => match AppState::deserialize(t) {
                Some(st) => st,
                None => AppState::new(),
            },
            None => AppState::new(),
        }
    }

}

} // verus!
