//! The usage store: a persisted table of launch counts and last-used
//! timestamps, keyed by entity name, that feeds the ranking comparator.

use vstd::prelude::*;
use crate::Entity;
use crate::text::str_eq;

verus! {

/// An icon, either as raw encoded bytes or as a path on disk.
pub enum Image {
    Data(Vec<u8>),
    Path(String),
}

/// The mathematical shape of an icon.
pub enum ImageV {
    Data(Seq<u8>),
    Path(Seq<char>),
}

impl View for Image {
    type V = ImageV;

    open spec fn view(&self) -> ImageV {
        match self {
            Image::Data(v) => ImageV::Data(v@),
            Image::Path(s) => ImageV::Path(s@),
        }
    }
}

/// Per-entity-name usage record: how often the entity was launched and when
/// it was last launched (Unix epoch seconds).
#[derive(Clone, Copy, PartialEq, Eq, Structural)]
pub struct UsageInfo {
    pub count: u32,
    pub last_used: u64,
}

/// The whole usage mapping, persisted across runs. Keys are entity names;
/// two entities sharing a name share usage history.
pub struct AppState {
    pub usage_stats: Vec<(String, UsageInfo)>,
}

/// The key/record pairs of the table, as character sequences.
pub open spec fn entries_view(s: Seq<(String, UsageInfo)>) -> Seq<(Seq<char>, UsageInfo)> {
    s.map_values(|p: (String, UsageInfo)| (p.0@, p.1))
}

/// The mapping a sequence of key/record pairs denotes; a later pair with the
/// same key would win.
pub open spec fn map_of(s: Seq<(Seq<char>, UsageInfo)>) -> Map<Seq<char>, UsageInfo>
    decreases s.len(),
{
    if s.len() == 0 {
        Map::empty()
    } else {
        map_of(s.drop_last()).insert(s.last().0, s.last().1)
    }
}

/// The launch count a mapping holds for a name; zero when absent.
pub open spec fn score_of_map(m: Map<Seq<char>, UsageInfo>, name: Seq<char>) -> u32 {
    if m.contains_key(name) {
        m[name].count
    } else {
        0
    }
}

/// One recording of a launch, on the mapping itself.
pub open spec fn record_at(m: Map<Seq<char>, UsageInfo>, name: Seq<char>, now: u64) -> Map<Seq<char>, UsageInfo> {
    m.insert(name, UsageInfo { count: (score_of_map(m, name) + 1) as u32, last_used: now })
}

/// A run of recordings for one name, each with its own stamp, oldest first.
pub open spec fn record_many(m: Map<Seq<char>, UsageInfo>, name: Seq<char>, stamps: Seq<u64>) -> Map<Seq<char>, UsageInfo>
    decreases stamps.len(),
{
    if stamps.len() == 0 {
        m
    } else {
        record_at(record_many(m, name, stamps.drop_last()), name, stamps.last())
    }
}

/// Recording is monotonic: a run of recordings adds its length to the name's
/// count — so a fresh name recorded n times reads count n — and the record
/// then carries the stamp of the last recording.
pub proof fn lemma_record_usage_monotonic(m: Map<Seq<char>, UsageInfo>, name: Seq<char>, stamps: Seq<u64>)
    requires
        score_of_map(m, name) + stamps.len() <= u32::MAX,
    ensures
        score_of_map(record_many(m, name, stamps), name) == score_of_map(m, name) + stamps.len(),
        stamps.len() > 0 ==> record_many(m, name, stamps).contains_key(name)
            && record_many(m, name, stamps)[name].last_used == stamps.last(),
    decreases stamps.len(),
{
    if stamps.len() > 0 {
        lemma_record_usage_monotonic(m, name, stamps.drop_last());
    }
}

impl View for AppState {
    type V = Map<Seq<char>, UsageInfo>;

    open spec fn view(&self) -> Map<Seq<char>, UsageInfo> {
        map_of(entries_view(self.usage_stats@))
    }
}

/// How `entries_view` relates index-wise to the table it views.
pub proof fn lemma_entries_view_index(s: Seq<(String, UsageInfo)>)
    ensures
        entries_view(s).len() == s.len(),
        forall|x: int| 0 <= x < s.len() ==> #[trigger] entries_view(s)[x] == (s[x].0@, s[x].1),
{
}

/// A key occurs in the map exactly when some pair of the sequence holds it.
pub proof fn lemma_map_of_domain(s: Seq<(Seq<char>, UsageInfo)>, k: Seq<char>)
    ensures
        map_of(s).contains_key(k) <==> exists|i: int| 0 <= i < s.len() && s[i].0 == k,
    decreases s.len(),
{
    if s.len() > 0 {
        lemma_map_of_domain(s.drop_last(), k);
        if s.last().0 == k {
            assert(s[s.len() - 1].0 == k);
        } else if map_of(s).contains_key(k) {
            let i = choose|i: int| 0 <= i < s.drop_last().len() && s.drop_last()[i].0 == k;
            assert(s[i].0 == k);
        } else {
            if exists|i: int| 0 <= i < s.len() && s[i].0 == k {
                let i = choose|i: int| 0 <= i < s.len() && s[i].0 == k;
                assert(s.drop_last()[i].0 == k);
            }
        }
    }
}

/// In a table with pairwise-distinct keys, the pair at any index gives the
/// value the map holds for its key.
pub proof fn lemma_map_of_index(s: Seq<(Seq<char>, UsageInfo)>, i: int)
    requires
        0 <= i < s.len(),
        forall|x: int, y: int| 0 <= x < y < s.len() ==> s[x].0 != s[y].0,
    ensures
        map_of(s).contains_key(s[i].0),
        map_of(s)[s[i].0] == s[i].1,
    decreases s.len(),
{
    if i == s.len() - 1 {
    } else {
        assert(forall|x: int, y: int|
            0 <= x < y < s.drop_last().len() ==> s.drop_last()[x].0 != s.drop_last()[y].0);
        lemma_map_of_index(s.drop_last(), i);
        assert(s[i].0 != s.last().0);
    }
}

/// Updating the pair at an index of a distinct-key table updates exactly its
/// key in the map.
pub proof fn lemma_map_of_update(s: Seq<(Seq<char>, UsageInfo)>, i: int, v: UsageInfo)
    requires
        0 <= i < s.len(),
        forall|x: int, y: int| 0 <= x < y < s.len() ==> s[x].0 != s[y].0,
    ensures
        map_of(s.update(i, (s[i].0, v))) == map_of(s).insert(s[i].0, v),
    decreases s.len(),
{
    let t = s.update(i, (s[i].0, v));
    if i == s.len() - 1 {
        assert(t.drop_last() =~= s.drop_last());
        assert(t.last() == (s[i].0, v));
        assert(map_of(t) == map_of(s.drop_last()).insert(s[i].0, v));
        assert(map_of(s).insert(s[i].0, v) =~= map_of(s.drop_last()).insert(s[i].0, v));
    } else {
        assert(forall|x: int, y: int|
            0 <= x < y < s.drop_last().len() ==> s.drop_last()[x].0 != s.drop_last()[y].0);
        lemma_map_of_update(s.drop_last(), i, v);
        assert(t.drop_last() =~= s.drop_last().update(i, (s[i].0, v)));
        assert(t.last() == s.last());
        assert(s[i].0 != s.last().0);
        assert(map_of(t) =~= map_of(s).insert(s[i].0, v));
    }
}

impl AppState {
    /// Keys are pairwise distinct, so the table and its map carry the same
    /// information.
    pub open spec fn wf(self) -> bool {
        forall|i: int, j: int|
            0 <= i < j < self.usage_stats@.len()
                ==> self.usage_stats@[i].0@ != self.usage_stats@[j].0@
    }

    /// The launch count recorded for a name; zero when the name was never
    /// recorded.
    pub open spec fn spec_score(self, name: Seq<char>) -> u32 {
        score_of_map(self@, name)
    }

    /// An empty store.
    pub fn new() -> (r: AppState)
        ensures
            r.wf(),
            r.usage_stats@.len() == 0,
            r@ == Map::<Seq<char>, UsageInfo>::empty(),
    {
        AppState { usage_stats: Vec::new() }
    }

    /// The ranking score of an entity: its recorded launch count, or zero.
    pub fn get_score(&self, entity: &Entity) -> (r: u32)
        requires
            self.wf(),
        ensures
            r == self.spec_score(entity.spec_name()),
    {
        let name = entity.name();
        let n = self.usage_stats.len();
        let mut i: usize = 0;
        while i < n
            invariant
                i <= n,
                n == self.usage_stats@.len(),
                self.wf(),
                name@ == entity.spec_name(),
                forall|k: int| 0 <= k < i ==> self.usage_stats@[k].0@ != name@,
            decreases n - i,
        {
            if str_eq(self.usage_stats[i].0.as_str(), name) {
                proof {
                    let ev = entries_view(self.usage_stats@);
                    lemma_entries_view_index(self.usage_stats@);
                    assert(ev[i as int].0 == name@);
                    assert(forall|x: int, y: int| 0 <= x < y < ev.len() ==> ev[x].0 != ev[y].0);
                    lemma_map_of_index(ev, i as int);
                }
                return self.usage_stats[i].1.count;
            }
            i = i + 1;
        }
        proof {
            let ev = entries_view(self.usage_stats@);
            lemma_entries_view_index(self.usage_stats@);
            lemma_map_of_domain(ev, name@);
        }
        0
    }

    /// Records one launch of the named entity at time `now`: a missing record
    /// starts at zero, and the count then increments by one, so a first-ever
    /// launch yields count 1.
    pub fn record_usage_at(&mut self, name: &str, now: u64)
        requires
            old(self).wf(),
            old(self).spec_score(name@) < u32::MAX,
        ensures
            final(self).wf(),
            final(self)@ == record_at(old(self)@, name@, now),
    {
        let n = self.usage_stats.len();
        let mut i: usize = 0;
        while i < n
            invariant
                i <= n,
                n == self.usage_stats@.len(),
                self.usage_stats@ == old(self).usage_stats@,
                self.wf(),
                old(self).spec_score(name@) < u32::MAX,
                forall|k: int| 0 <= k < i ==> self.usage_stats@[k].0@ != name@,
            decreases n - i,
        {
            if str_eq(self.usage_stats[i].0.as_str(), name) {
                proof {
                    let ev = entries_view(self.usage_stats@);
                    assert(ev[i as int].0 == name@);
                    lemma_map_of_index(ev, i as int);
                }
                let key = self.usage_stats[i].0.clone();
                let count = self.usage_stats[i].1.count;
                let info = UsageInfo { count: count + 1, last_used: now };
                self.usage_stats.set(i, (key, info));
                proof {
                    let ev = entries_view(old(self).usage_stats@);
                    assert(entries_view(self.usage_stats@) =~= ev.update(i as int, (ev[i as int].0, info)));
                    lemma_map_of_update(ev, i as int, info);
                }
                return;
            }
            i = i + 1;
        }
        proof {
            let ev = entries_view(self.usage_stats@);
            lemma_map_of_domain(ev, name@);
        }
        let info = UsageInfo { count: 1, last_used: now };
        self.usage_stats.push((String::from_str(name), info));
        proof {
            let ev = entries_view(old(self).usage_stats@);
            let ev2 = entries_view(self.usage_stats@);
            assert(ev2 =~= ev.push((name@, info)));
            assert(ev2.drop_last() =~= ev);
            lemma_map_of_domain(ev, name@);
        }
    }

    /// Records one launch of the entity, stamped with the wall clock's
    /// current reading, whatever that reading is.
    pub fn record_usage(&mut self, entity: &Entity)
        requires
            old(self).wf(),
            old(self).spec_score(entity.spec_name()) < u32::MAX,
        ensures
            final(self).wf(),
            final(self)@.contains_key(entity.spec_name()),
            final(self)@[entity.spec_name()].count == old(self).spec_score(entity.spec_name()) + 1,
            final(self)@ == old(self)@.insert(
                entity.spec_name(),
                final(self)@[entity.spec_name()],
            ),
    {
        let now = now_seconds();
        let name = entity.name();
        self.record_usage_at(name, now);
    }
}

/// Relies on std::time::SystemTime::now: seconds since the Unix epoch, or
/// zero if the clock reads earlier than the epoch. No two readings are
/// related to one another here.
#[verifier::external_body]
pub(crate) fn now_seconds() -> u64 {
    match std::time::SystemTime::now().duration_since(std::time::UNIX_EPOCH) {
        Ok(d) => d.as_secs(),
        Err(_) => 0,
    }
}

} // verus!
