//! The search/ranking engine: the substring match predicate, the comparator
//! combining usage score (descending) with case-insensitive name (ascending),
//! and the stable sort the catalog is ordered by at load time.

use vstd::prelude::*;
use core::cmp::Ordering;
use crate::AppState;
use crate::Entity;
use crate::EntityV;
use crate::common::UsageInfo;
use crate::common::score_of_map;
use crate::text::chars_cmp;
use crate::text::contains_chars;
use crate::text::is_substring;
use crate::text::lemma_lex_cmp_equal;
use crate::text::lemma_lex_cmp_flip;
use crate::text::lemma_lex_cmp_trans;
use crate::text::lex_cmp;
use crate::text::lower_of;
use crate::text::str_chars;
use crate::text::to_lowercase;

verus! {

/// The pure search and ranking functions.
pub struct SearchEngine;

/// Whether an entity passes the query filter: an empty query matches
/// everything; otherwise the case-folded query must occur in the case-folded
/// name or, when present, the case-folded description.
pub open spec fn spec_matches(e: EntityV, q: Seq<char>) -> bool {
    ||| q.len() == 0
    ||| is_substring(lower_of(e.name()), lower_of(q))
    ||| (e.description() matches Some(d) && is_substring(lower_of(d), lower_of(q)))
}

/// The ranking order: usage score descending first, then case-insensitive
/// name ascending as the tie-break.
pub open spec fn spec_compare(a: EntityV, b: EntityV, m: Map<Seq<char>, UsageInfo>) -> Ordering {
    let sa = score_of_map(m, a.name());
    let sb = score_of_map(m, b.name());
    if sb < sa {
        Ordering::Less
    } else if sa < sb {
        Ordering::Greater
    } else {
        lex_cmp(lower_of(a.name()), lower_of(b.name()))
    }
}

impl SearchEngine {
    /// Whether the entity passes the query filter.
    pub fn matches(entity: &Entity, query: &str) -> (r: bool)
        ensures
            r == spec_matches(entity@, query@),
    {
        if query.unicode_len() == 0 {
            return true;
        }

        let query_lower = to_lowercase(query);
        let ql = str_chars(query_lower.as_str());

        // Check name
        let name_lower = to_lowercase(entity.name());
        let nl = str_chars(name_lower.as_str());
        if contains_chars(&nl, &ql) {
            return true;
        }

        // Check description
        match entity.description() {
            Some(desc) => {
                let desc_lower = to_lowercase(desc);
                let dl = str_chars(desc_lower.as_str());
                contains_chars(&dl, &ql)
            }
            None => false,
        }
    }

    /// Orders two entities for display.
    pub fn compare(a: &Entity, b: &Entity, app_state: &AppState) -> (r: Ordering)
        requires
            app_state.wf(),
        ensures
            r == spec_compare(a@, b@, app_state@),
    {
        let score_a = app_state.get_score(a);
        let score_b = app_state.get_score(b);

        if score_b < score_a {
            return Ordering::Less;
        }
        if score_a < score_b {
            return Ordering::Greater;
        }

        let a_lower = to_lowercase(a.name());
        let la = str_chars(a_lower.as_str());
        let b_lower = to_lowercase(b.name());
        let lb = str_chars(b_lower.as_str());
        chars_cmp(&la, &lb)
    }
}

/// An empty query matches every entity.
pub proof fn lemma_empty_query_matches(e: EntityV)
    ensures
        spec_matches(e, Seq::<char>::empty()),
{
}

/// A higher usage score puts an entity strictly first, whatever the names.
pub proof fn lemma_compare_score_first(a: EntityV, b: EntityV, m: Map<Seq<char>, UsageInfo>)
    requires
        score_of_map(m, a.name()) > score_of_map(m, b.name()),
    ensures
        spec_compare(a, b, m) == Ordering::Less,
{
}

/// With equal scores the order is the case-insensitive name order.
pub proof fn lemma_compare_ties_by_name(a: EntityV, b: EntityV, m: Map<Seq<char>, UsageInfo>)
    requires
        score_of_map(m, a.name()) == score_of_map(m, b.name()),
    ensures
        spec_compare(a, b, m) == lex_cmp(lower_of(a.name()), lower_of(b.name())),
{
}

/// Swapping the compared entities reverses the answer, so the comparator is
/// consistent: `a` before `b` exactly when `b` after `a`.
pub proof fn lemma_compare_flip(a: EntityV, b: EntityV, m: Map<Seq<char>, UsageInfo>)
    ensures
        spec_compare(a, b, m) == Ordering::Less <==> spec_compare(b, a, m) == Ordering::Greater,
        spec_compare(a, b, m) == Ordering::Equal <==> spec_compare(b, a, m) == Ordering::Equal,
{
    lemma_lex_cmp_flip(lower_of(a.name()), lower_of(b.name()));
    lemma_lex_cmp_flip(lower_of(b.name()), lower_of(a.name()));
    lemma_lex_cmp_equal(lower_of(a.name()), lower_of(b.name()));
    lemma_lex_cmp_equal(lower_of(b.name()), lower_of(a.name()));
}

/// Strict precedence under the comparator is transitive.
pub proof fn lemma_compare_trans(a: EntityV, b: EntityV, c: EntityV, m: Map<Seq<char>, UsageInfo>)
    requires
        spec_compare(a, b, m) == Ordering::Less,
        spec_compare(b, c, m) == Ordering::Less,
    ensures
        spec_compare(a, c, m) == Ordering::Less,
{
    let la = lower_of(a.name());
    let lb = lower_of(b.name());
    let lc = lower_of(c.name());
    if score_of_map(m, a.name()) == score_of_map(m, b.name())
        && score_of_map(m, b.name()) == score_of_map(m, c.name()) {
        lemma_lex_cmp_trans(la, lb, lc);
    }
}

/// Ranking equivalence — equal score and equal folded name — is transitive,
/// so the comparator is a strict weak ordering.
pub proof fn lemma_compare_equiv_trans(a: EntityV, b: EntityV, c: EntityV, m: Map<Seq<char>, UsageInfo>)
    requires
        spec_compare(a, b, m) == Ordering::Equal,
        spec_compare(b, c, m) == Ordering::Equal,
    ensures
        spec_compare(a, c, m) == Ordering::Equal,
{
    let la = lower_of(a.name());
    let lb = lower_of(b.name());
    let lc = lower_of(c.name());
    lemma_lex_cmp_equal(la, lb);
    lemma_lex_cmp_equal(lb, lc);
    lemma_lex_cmp_equal(la, lc);
}

/// Weak precedence (not strictly after) under the comparator is transitive.
pub proof fn lemma_compare_le_trans(a: EntityV, b: EntityV, c: EntityV, m: Map<Seq<char>, UsageInfo>)
    requires
        spec_compare(a, b, m) != Ordering::Greater,
        spec_compare(b, c, m) != Ordering::Greater,
    ensures
        spec_compare(a, c, m) != Ordering::Greater,
{
    let la = lower_of(a.name());
    let lb = lower_of(b.name());
    let lc = lower_of(c.name());
    if score_of_map(m, a.name()) == score_of_map(m, b.name())
        && score_of_map(m, b.name()) == score_of_map(m, c.name()) {
        lemma_lex_cmp_equal(la, lb);
        lemma_lex_cmp_equal(lb, lc);
        lemma_lex_cmp_equal(la, lc);
        if lex_cmp(la, lb) == Ordering::Less && lex_cmp(lb, lc) == Ordering::Less {
            lemma_lex_cmp_trans(la, lb, lc);
        }
    }
}

/// Strictly-before composed with weakly-before stays strictly before.
pub proof fn lemma_compare_lt_le_trans(a: EntityV, b: EntityV, c: EntityV, m: Map<Seq<char>, UsageInfo>)
    requires
        spec_compare(a, b, m) == Ordering::Less,
        spec_compare(b, c, m) != Ordering::Greater,
    ensures
        spec_compare(a, c, m) == Ordering::Less,
{
    let la = lower_of(a.name());
    let lb = lower_of(b.name());
    let lc = lower_of(c.name());
    if score_of_map(m, a.name()) == score_of_map(m, b.name())
        && score_of_map(m, b.name()) == score_of_map(m, c.name()) {
        lemma_lex_cmp_equal(lb, lc);
        if lex_cmp(lb, lc) == Ordering::Less {
            lemma_lex_cmp_trans(la, lb, lc);
        }
    }
}

/// Where a new element lands when inserted into an already-sorted prefix:
/// after every element it does not strictly precede, so equal keys keep
/// their arrival order and the sort below is stable.
pub open spec fn spec_insert(sorted: Seq<Entity>, x: Entity, m: Map<Seq<char>, UsageInfo>) -> Seq<Entity>
    decreases sorted.len(),
{
    if sorted.len() == 0 {
        seq![x]
    } else if spec_compare(sorted[0]@, x@, m) == Ordering::Greater {
        seq![x] + sorted
    } else {
        seq![sorted[0]] + spec_insert(sorted.skip(1), x, m)
    }
}

/// The catalog order: each entity of `s` in turn inserted into the sorted
/// result, left to right.
pub open spec fn spec_sort(s: Seq<Entity>, m: Map<Seq<char>, UsageInfo>) -> Seq<Entity>
    decreases s.len(),
{
    if s.len() == 0 {
        Seq::empty()
    } else {
        spec_insert(spec_sort(s.drop_last(), m), s.last(), m)
    }
}

/// Each adjacent-free formulation of sortedness: no element strictly
/// precedes an element standing before it.
pub open spec fn sorted_by(s: Seq<Entity>, m: Map<Seq<char>, UsageInfo>) -> bool {
    forall|i: int, j: int|
        0 <= i < j < s.len() ==> spec_compare(s[i]@, s[j]@, m) != Ordering::Greater
}

/// Inserting into a seq at the first position whose element strictly
/// precedes nothing less than `x` is what `spec_insert` computes.
proof fn lemma_insert_at(sorted: Seq<Entity>, x: Entity, m: Map<Seq<char>, UsageInfo>, j: int)
    requires
        0 <= j <= sorted.len(),
        forall|k: int| 0 <= k < j ==> spec_compare(sorted[k]@, x@, m) != Ordering::Greater,
        j < sorted.len() ==> spec_compare(sorted[j]@, x@, m) == Ordering::Greater,
    ensures
        spec_insert(sorted, x, m) == sorted.subrange(0, j) + seq![x] + sorted.subrange(j, sorted.len() as int),
    decreases j,
{
    if sorted.len() == 0 {
        assert(spec_insert(sorted, x, m) =~= sorted.subrange(0, j) + seq![x] + sorted.subrange(j, sorted.len() as int));
    } else if j == 0 {
        assert(spec_compare(sorted[0]@, x@, m) == Ordering::Greater);
        assert(spec_insert(sorted, x, m) =~= sorted.subrange(0, 0) + seq![x] + sorted.subrange(0, sorted.len() as int));
    } else {
        let rest = sorted.skip(1);
        assert(forall|k: int| 0 <= k < j - 1 ==> rest[k] == sorted[k + 1]);
        lemma_insert_at(rest, x, m, j - 1);
        assert(spec_insert(sorted, x, m) == seq![sorted[0]] + spec_insert(rest, x, m));
        assert(spec_insert(sorted, x, m) =~= sorted.subrange(0, j) + seq![x] + sorted.subrange(j, sorted.len() as int));
    }
}

/// Inserting preserves sortedness.
proof fn lemma_insert_keeps_sorted(sorted: Seq<Entity>, x: Entity, m: Map<Seq<char>, UsageInfo>)
    requires
        sorted_by(sorted, m),
    ensures
        sorted_by(spec_insert(sorted, x, m), m),
    decreases sorted.len(),
{
    let out = spec_insert(sorted, x, m);
    if sorted.len() == 0 {
    } else if spec_compare(sorted[0]@, x@, m) == Ordering::Greater {
        // x goes first; everything after it is weakly preceded by it.
        lemma_compare_flip(sorted[0]@, x@, m);
        assert(spec_compare(x@, sorted[0]@, m) == Ordering::Less);
        assert(forall|j: int| 0 < j < out.len() ==> out[j] == sorted[j - 1]);
        assert forall|j: int| 1 < j < out.len() implies spec_compare(x@, out[j]@, m) != Ordering::Greater by {
            assert(spec_compare(sorted[0]@, sorted[j - 1]@, m) != Ordering::Greater);
            lemma_compare_lt_le_trans(x@, sorted[0]@, sorted[j - 1]@, m);
        }
    } else {
        let rest = sorted.skip(1);
        assert(forall|k: int| 0 <= k < rest.len() ==> rest[k] == sorted[k + 1]);
        assert(sorted_by(rest, m));
        lemma_insert_keeps_sorted(rest, x, m);
        let tail = spec_insert(rest, x, m);
        assert(out == seq![sorted[0]] + tail);
        // The head weakly precedes x and every element of the old tail.
        assert forall|j: int| 0 < j < out.len() implies spec_compare(out[0]@, out[j]@, m) != Ordering::Greater by {
            lemma_insert_membership(rest, x, m, j - 1);
            let e = tail[j - 1];
            assert(out[j] == e);
            if e == x {
                assert(spec_compare(sorted[0]@, x@, m) != Ordering::Greater);
            } else {
                let k = choose|k: int| 0 <= k < rest.len() && rest[k] == e;
                assert(spec_compare(sorted[0]@, sorted[k + 1]@, m) != Ordering::Greater);
            }
        }
        assert forall|i: int, j: int| 0 <= i < j < out.len() implies spec_compare(out[i]@, out[j]@, m)
            != Ordering::Greater by {
            if i > 0 {
                assert(out[i] == tail[i - 1]);
                assert(out[j] == tail[j - 1]);
                assert(sorted_by(tail, m));
            }
        }
    }
}

/// Insertion grows the seq by exactly one element.
proof fn lemma_insert_len(sorted: Seq<Entity>, x: Entity, m: Map<Seq<char>, UsageInfo>)
    ensures
        spec_insert(sorted, x, m).len() == sorted.len() + 1,
    decreases sorted.len(),
{
    if sorted.len() == 0 {
    } else if spec_compare(sorted[0]@, x@, m) == Ordering::Greater {
    } else {
        lemma_insert_len(sorted.skip(1), x, m);
    }
}

/// Every element of an insertion result is the inserted element or one of
/// the seq it was inserted into.
proof fn lemma_insert_membership(sorted: Seq<Entity>, x: Entity, m: Map<Seq<char>, UsageInfo>, j: int)
    requires
        0 <= j < spec_insert(sorted, x, m).len(),
    ensures
        spec_insert(sorted, x, m).len() == sorted.len() + 1,
        spec_insert(sorted, x, m)[j] == x || exists|k: int| 0 <= k < sorted.len() && sorted[k] == spec_insert(sorted, x, m)[j],
    decreases sorted.len(),
{
    lemma_insert_len(sorted, x, m);
    let out = spec_insert(sorted, x, m);
    if sorted.len() == 0 {
    } else if spec_compare(sorted[0]@, x@, m) == Ordering::Greater {
        if j > 0 {
            assert(out[j] == sorted[j - 1]);
        }
    } else {
        if j == 0 {
            assert(out[0] == sorted[0]);
        } else {
            let rest = sorted.skip(1);
            lemma_insert_membership(rest, x, m, j - 1);
            assert(out[j] == spec_insert(rest, x, m)[j - 1]);
            if out[j] != x {
                let k = choose|k: int| 0 <= k < rest.len() && rest[k] == out[j];
                assert(sorted[k + 1] == out[j]);
            }
        }
    }
}

/// The sorted catalog really is sorted.
pub proof fn lemma_sort_sorts(s: Seq<Entity>, m: Map<Seq<char>, UsageInfo>)
    ensures
        sorted_by(spec_sort(s, m), m),
        spec_sort(s, m).len() == s.len(),
    decreases s.len(),
{
    if s.len() > 0 {
        lemma_sort_sorts(s.drop_last(), m);
        lemma_insert_keeps_sorted(spec_sort(s.drop_last(), m), s.last(), m);
        lemma_insert_membership(spec_sort(s.drop_last(), m), s.last(), m, 0);
    }
}

/// Inserting an element that nothing strictly precedes appends it.
proof fn lemma_insert_at_end(sorted: Seq<Entity>, x: Entity, m: Map<Seq<char>, UsageInfo>)
    requires
        forall|k: int| 0 <= k < sorted.len() ==> spec_compare(sorted[k]@, x@, m) != Ordering::Greater,
    ensures
        spec_insert(sorted, x, m) == sorted.push(x),
    decreases sorted.len(),
{
    if sorted.len() == 0 {
        assert(spec_insert(sorted, x, m) =~= sorted.push(x));
    } else {
        let rest = sorted.skip(1);
        assert(forall|k: int| 0 <= k < rest.len() ==> rest[k] == sorted[k + 1]);
        lemma_insert_at_end(rest, x, m);
        assert(spec_insert(sorted, x, m) =~= sorted.push(x));
    }
}

/// Sorting an already-sorted catalog leaves it unchanged.
pub proof fn lemma_sort_of_sorted(s: Seq<Entity>, m: Map<Seq<char>, UsageInfo>)
    requires
        sorted_by(s, m),
    ensures
        spec_sort(s, m) == s,
    decreases s.len(),
{
    if s.len() > 0 {
        assert(sorted_by(s.drop_last(), m));
        lemma_sort_of_sorted(s.drop_last(), m);
        assert(forall|k: int| 0 <= k < s.drop_last().len()
            ==> spec_compare(s.drop_last()[k]@, s.last()@, m) != Ordering::Greater);
        lemma_insert_at_end(s.drop_last(), s.last(), m);
        assert(s.drop_last().push(s.last()) =~= s);
    }
}

/// Sorting is idempotent: a second pass over the sorted catalog changes
/// nothing.
pub proof fn lemma_sort_idempotent(s: Seq<Entity>, m: Map<Seq<char>, UsageInfo>)
    ensures
        spec_sort(spec_sort(s, m), m) == spec_sort(s, m),
{
    lemma_sort_sorts(s, m);
    lemma_sort_of_sorted(spec_sort(s, m), m);
}

/// Where `x` belongs in the sorted vector: the first index whose element
/// strictly precedes nothing less than `x`.
fn insert_pos(out: &Vec<Entity>, x: &Entity, app_state: &AppState) -> (j: usize)
    requires
        app_state.wf(),
    ensures
        j <= out@.len(),
        forall|k: int| 0 <= k < j ==> spec_compare(out@[k]@, x@, app_state@) != Ordering::Greater,
        j < out@.len() ==> spec_compare(out@[j as int]@, x@, app_state@) == Ordering::Greater,
{
    let n = out.len();
    let mut j: usize = 0;
    while j < n
        invariant
            j <= n,
            n == out@.len(),
            app_state.wf(),
            forall|k: int| 0 <= k < j ==> spec_compare(out@[k]@, x@, app_state@) != Ordering::Greater,
        decreases n - j,
    {
        match SearchEngine::compare(&out[j], x, app_state) {
            Ordering::Greater => {
                return j;
            }
            _ => {}
        }
        j = j + 1;
    }
    n
}

/// Sorts a catalog with the ranking comparator; the sort is stable, so equal
/// keys keep their arrival order.
pub fn sort_entities(entities: Vec<Entity>, app_state: &AppState) -> (r: Vec<Entity>)
    requires
        app_state.wf(),
    ensures
        r@ == spec_sort(entities@, app_state@),
        sorted_by(r@, app_state@),
{
    let ghost s0 = entities@;
    let mut v = entities;
    let mut out: Vec<Entity> = Vec::new();
    let mut i: usize = 0;
    let n = v.len();
    while i < n
        invariant
            i <= n,
            n == s0.len(),
            app_state.wf(),
            v@ == s0.skip(i as int),
            out@ == spec_sort(s0.take(i as int), app_state@),
        decreases n - i,
    {
        let x = v.remove(0);
        assert(x == s0[i as int]);
        let j = insert_pos(&out, &x, app_state);
        let ghost out_before = out@;
        out.insert(j, x);
        i = i + 1;
        proof {
            assert(v@ =~= s0.skip(i as int));
            lemma_insert_at(out_before, x, app_state@, j as int);
            assert(out@ =~= out_before.subrange(0, j as int) + seq![x]
                + out_before.subrange(j as int, out_before.len() as int));
            assert(s0.take(i as int).drop_last() =~= s0.take(i - 1));
            assert(s0.take(i as int).last() == s0[i - 1]);
        }
    }
    proof {
        assert(s0.take(n as int) =~= s0);
        lemma_sort_sorts(s0, app_state@);
    }
    out
}

} // verus!
