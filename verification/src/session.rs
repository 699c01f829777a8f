//! The catalog session: the stateful core owning the query, the filtered
//! view, the selection cursor and the pending argument, reacting to query
//! edits, navigation intents, activation and escape.

use vstd::prelude::*;
use crate::AppState;
use crate::Entity;
use crate::EntityV;
use crate::application::copy_opt_string;
use crate::common::UsageInfo;
use crate::common::record_at;
use crate::search::SearchEngine;
use crate::search::sorted_by;
use crate::search::spec_matches;
use crate::search::spec_sort;
use crate::search::sort_entities;

verus! {

/// The views of the entities of a catalog, in order.
pub open spec fn views_of(s: Seq<Entity>) -> Seq<EntityV> {
    s.map_values(|e: Entity| e@)
}

/// The subsequence of a catalog that passes the query filter, in the
/// catalog's own order.
pub open spec fn filtered(all: Seq<EntityV>, q: Seq<char>) -> Seq<EntityV> {
    all.filter(|e: EntityV| spec_matches(e, q))
}

/// An intent delivered to the session.
pub enum PrismEvent {
    /// The query text was replaced.
    SearchInput(String),
    /// The pending argument text was replaced.
    ArgumentInput(String),
    /// The selection cursor moves down.
    SelectNext,
    /// The selection cursor moves up.
    SelectPrevious,
    /// The entry at an index of the filtered view was activated.
    EntrySelected(usize),
    /// The currently selected entry was submitted.
    Submit,
    /// The platform catalog finished loading.
    EntriesLoaded(Vec<Entity>),
    /// Escape was pressed.
    EscapePressed,
}

/// What the surrounding application must do after an update.
pub enum PrismAction {
    /// Nothing beyond the state change.
    Idle,
    /// Return focus to the query field.
    FocusSearch,
    /// Focus the argument prompt.
    FocusArgument,
    /// Launch the selected entry.
    Run,
    /// Terminate the launcher.
    Exit,
}

/// The session state.
pub struct Prism {
    pub query: String,
    pub argument: Option<String>,
    pub all_entries: Vec<Entity>,
    pub entries: Vec<Entity>,
    pub selected_index: usize,
    pub show_argument_input: bool,
    pub is_argument_input_active: bool,
}

/// The query and argument texts of two states agree.
pub open spec fn same_text(a: Prism, b: Prism) -> bool {
    a.query == b.query && a.argument == b.argument
}

/// The catalogs (full and filtered) of two states agree.
pub open spec fn same_catalog(a: Prism, b: Prism) -> bool {
    a.all_entries@ == b.all_entries@ && a.entries@ == b.entries@
}

/// The argument-prompt flags of two states agree.
pub open spec fn same_flags(a: Prism, b: Prism) -> bool {
    a.show_argument_input == b.show_argument_input
        && a.is_argument_input_active == b.is_argument_input_active
}

impl Prism {
    /// The selection cursor always points into the filtered view, or rests
    /// at zero while the view is empty.
    pub open spec fn wf(self) -> bool {
        if self.entries@.len() == 0 {
            self.selected_index == 0
        } else {
            self.selected_index < self.entries@.len()
        }
    }

    /// A fresh session: empty query, no argument, nothing loaded.
    pub fn new() -> (r: Prism)
        ensures
            r.wf(),
            r.query@ == Seq::<char>::empty(),
            r.argument is None,
            r.all_entries@.len() == 0,
            r.entries@.len() == 0,
            r.selected_index == 0,
            !r.show_argument_input,
            !r.is_argument_input_active,
    {
        Prism {
            query: String::new(),
            argument: None,
            all_entries: Vec::new(),
            entries: Vec::new(),
            selected_index: 0,
            show_argument_input: false,
            is_argument_input_active: false,
        }
    }

    /// The captured argument text, if any.
    pub fn get_argument(&self) -> (r: Option<String>)
        ensures
            r == self.argument,
    {
        copy_opt_string(&self.argument)
    }

    /// The entry the cursor rests on, if the filtered view is not empty.
    pub fn get_selected_entry(&self) -> (r: Option<&Entity>)
        requires
            self.wf(),
        ensures
            r is Some <==> self.entries@.len() > 0,
            r matches Some(e) ==> *e == self.entries@[self.selected_index as int],
    {
        if self.entries.len() > 0 {
            Some(&self.entries[self.selected_index])
        } else {
            None
        }
    }

    /// The bookkeeping of a launch: one use of the selected entry is
    /// recorded in the usage store, stamped with the wall clock, before the
    /// launcher hands the entry to its execute action. With nothing
    /// selected, nothing is recorded.
    pub fn record_selected(&self, app_state: &mut AppState)
        requires
            self.wf(),
            old(app_state).wf(),
            self.entries@.len() > 0 ==> old(app_state).spec_score(
                self.entries@[self.selected_index as int]@.name(),
            ) < u32::MAX,
        ensures
            final(app_state).wf(),
            if self.entries@.len() > 0 {
                exists|t: u64|
                    final(app_state)@ == #[trigger] record_at(
                        old(app_state)@,
                        self.entries@[self.selected_index as int]@.name(),
                        t,
                    )
            } else {
                final(app_state)@ == old(app_state)@
            },
    {
        match self.get_selected_entry() {
            Some(entry) => {
                app_state.record_usage(entry);
                proof {
                    let name = self.entries@[self.selected_index as int]@.name();
                    let t = app_state@[name].last_used;
                    assert(entry.spec_name() == name);
                    assert(app_state@[name]
                        == (UsageInfo { count: (old(app_state).spec_score(name) + 1) as u32, last_used: t }));
                    assert(app_state@ == record_at(old(app_state)@, name, t));
                }
            },
            None => {},
        }
    }

    /// Activation of the entry at `index`: out of range does nothing; an
    /// entry that needs an argument it does not yet have opens the argument
    /// prompt; any other entry is launched.
    fn activate_entry(&mut self, index: usize) -> (r: PrismAction)
        requires
            old(self).wf(),
        ensures
            final(self).wf(),
            activated(*old(self), *final(self), index as int, r),
    {
        if index < self.entries.len() {
            self.selected_index = index;
            let needs = self.entries[index].needs_argument();
            let has_argument = match &self.argument {
                Some(_) => true,
                None => false,
            };
            if needs && !has_argument {
                self.show_argument_input = true;
                self.is_argument_input_active = true;
                PrismAction::FocusArgument
            } else {
                self.is_argument_input_active = false;
                PrismAction::Run
            }
        } else {
            PrismAction::Idle
        }
    }

    /// Applies one intent to the session and says what the application must
    /// do next. The usage store only feeds the ranking comparator here; it
    /// is not changed.
    pub fn update(&mut self, event: PrismEvent, app_state: &AppState) -> (r: PrismAction)
        requires
            old(self).wf(),
            app_state.wf(),
        ensures
            final(self).wf(),
            match event {
                PrismEvent::SearchInput(q) => {
                    &&& final(self).query == q
                    &&& final(self).selected_index == 0
                    &&& final(self).argument is None
                    &&& !final(self).show_argument_input
                    &&& !final(self).is_argument_input_active
                    &&& final(self).all_entries@ == old(self).all_entries@
                    &&& views_of(final(self).entries@)
                        == filtered(views_of(old(self).all_entries@), q@)
                    &&& r == PrismAction::Idle
                },
                PrismEvent::ArgumentInput(a) => {
                    &&& final(self).argument == Some(a)
                    &&& final(self).query == old(self).query
                    &&& same_catalog(*final(self), *old(self))
                    &&& same_flags(*final(self), *old(self))
                    &&& final(self).selected_index == old(self).selected_index
                    &&& r == PrismAction::Idle
                },
                PrismEvent::SelectNext => {
                    &&& same_text(*final(self), *old(self))
                    &&& same_catalog(*final(self), *old(self))
                    &&& same_flags(*final(self), *old(self))
                    &&& final(self).selected_index == if old(self).entries@.len() == 0 {
                        0int
                    } else if old(self).selected_index + 1 < old(self).entries@.len() {
                        old(self).selected_index + 1
                    } else {
                        old(self).entries@.len() - 1
                    }
                    &&& r == PrismAction::Idle
                },
                PrismEvent::SelectPrevious => {
                    &&& same_text(*final(self), *old(self))
                    &&& same_catalog(*final(self), *old(self))
                    &&& same_flags(*final(self), *old(self))
                    &&& final(self).selected_index == if old(self).selected_index == 0 {
                        0int
                    } else {
                        old(self).selected_index - 1
                    }
                    &&& r == PrismAction::Idle
                },
                PrismEvent::EntrySelected(index) => activated(*old(self), *final(self), index as int, r),
                PrismEvent::Submit => {
                    if old(self).entries@.len() > 0 {
                        activated(*old(self), *final(self), old(self).selected_index as int, r)
                    } else {
                        &&& *final(self) == *old(self)
                        &&& r == PrismAction::Idle
                    }
                },
                PrismEvent::EntriesLoaded(loaded) => {
                    &&& final(self).all_entries@ == spec_sort(loaded@, app_state@)
                    &&& sorted_by(final(self).all_entries@, app_state@)
                    &&& views_of(final(self).entries@) == views_of(final(self).all_entries@)
                    &&& final(self).selected_index == 0
                    &&& final(self).query == old(self).query
                    &&& final(self).argument == old(self).argument
                    &&& same_flags(*final(self), *old(self))
                    &&& r == PrismAction::Idle
                },
                PrismEvent::EscapePressed => {
                    if old(self).is_argument_input_active {
                        &&& final(self).argument is None
                        &&& !final(self).show_argument_input
                        &&& !final(self).is_argument_input_active
                        &&& final(self).query == old(self).query
                        &&& same_catalog(*final(self), *old(self))
                        &&& final(self).selected_index == old(self).selected_index
                        &&& r == PrismAction::FocusSearch
                    } else {
                        &&& *final(self) == *old(self)
                        &&& r == PrismAction::Exit
                    }
                },
            },
    {
        match event {
            PrismEvent::SearchInput(q) => {
                self.query = q;
                self.selected_index = 0;
                self.argument = None;
                self.show_argument_input = false;
                self.is_argument_input_active = false;
                self.refilter();
                PrismAction::Idle
            }
            PrismEvent::ArgumentInput(a) => {
                self.argument = Some(a);
                PrismAction::Idle
            }
            PrismEvent::SelectNext => {
                if self.entries.len() > 0 {
                    if self.selected_index + 1 < self.entries.len() {
                        self.selected_index = self.selected_index + 1;
                    } else {
                        self.selected_index = self.entries.len() - 1;
                    }
                }
                PrismAction::Idle
            }
            PrismEvent::SelectPrevious => {
                if self.selected_index > 0 {
                    self.selected_index = self.selected_index - 1;
                }
                PrismAction::Idle
            }
            PrismEvent::EntrySelected(index) => self.activate_entry(index),
            PrismEvent::Submit => {
                if self.entries.len() > 0 {
                    let index = self.selected_index;
                    self.activate_entry(index)
                } else {
                    PrismAction::Idle
                }
            }
            PrismEvent::EntriesLoaded(loaded) => {
                let sorted = sort_entities(loaded, app_state);
                self.all_entries = sorted;
                self.entries = copy_entities(&self.all_entries);
                self.selected_index = 0;
                PrismAction::Idle
            }
            PrismEvent::EscapePressed => {
                if self.is_argument_input_active {
                    self.argument = None;
                    self.show_argument_input = false;
                    self.is_argument_input_active = false;
                    PrismAction::FocusSearch
                } else {
                    PrismAction::Exit
                }
            }
        }
    }

    /// Recomputes the filtered view from the full catalog and the current
    /// query, keeping the catalog's order.
    fn refilter(&mut self)
        ensures
            final(self).query == old(self).query,
            final(self).argument == old(self).argument,
            final(self).all_entries@ == old(self).all_entries@,
            final(self).selected_index == old(self).selected_index,
            same_flags(*final(self), *old(self)),
            views_of(final(self).entries@)
                == filtered(views_of(old(self).all_entries@), old(self).query@),
    {
        let n = self.all_entries.len();
        let mut out: Vec<Entity> = Vec::new();
        let ghost av = views_of(self.all_entries@);
        let mut i: usize = 0;
        proof {
            reveal(Seq::filter);
            assert(av.take(0) =~= Seq::<EntityV>::empty());
            assert(views_of(out@) =~= filtered(av.take(0), self.query@));
        }
        while i < n
            invariant
                i <= n,
                *self == *old(self),
                n == self.all_entries@.len(),
                av == views_of(self.all_entries@),
                views_of(out@) == filtered(av.take(i as int), self.query@),
            decreases n - i,
        {
            let matched = SearchEngine::matches(&self.all_entries[i], self.query.as_str());
            proof {
                assert(av[i as int] == self.all_entries@[i as int]@);
            }
            if matched {
                let e = self.all_entries[i].duplicate();
                out.push(e);
            }
            i = i + 1;
            proof {
                reveal(Seq::filter);
                let pred = |e: EntityV| spec_matches(e, self.query@);
                assert(av.take(i as int).drop_last() =~= av.take(i - 1));
                assert(av.take(i as int).last() == av[i - 1]);
                if matched {
                    assert(views_of(out@) =~= filtered(av.take(i - 1), self.query@).push(av[i - 1]));
                } else {
                    assert(views_of(out@) =~= filtered(av.take(i - 1), self.query@));
                }
            }
        }
        proof {
            assert(av.take(n as int) =~= av);
        }
        self.entries = out;
    }
}

/// How activating the entry at `index` relates the state after to the state
/// before, and which action it demands.
pub open spec fn activated(pre: Prism, post: Prism, index: int, r: PrismAction) -> bool {
    &&& same_text(post, pre)
    &&& same_catalog(post, pre)
    &&& if 0 <= index < pre.entries@.len() {
        &&& post.selected_index == index
        &&& if pre.entries@[index]@.needs_argument() && pre.argument is None {
            &&& post.show_argument_input
            &&& post.is_argument_input_active
            &&& r == PrismAction::FocusArgument
        } else {
            &&& post.show_argument_input == pre.show_argument_input
            &&& !post.is_argument_input_active
            &&& r == PrismAction::Run
        }
    } else {
        &&& post == pre
        &&& r == PrismAction::Idle
    }
}

/// Copies a catalog entry by entry.
pub fn copy_entities(v: &Vec<Entity>) -> (r: Vec<Entity>)
    ensures
        views_of(r@) == views_of(v@),
{
    let n = v.len();
    let mut r: Vec<Entity> = Vec::new();
    let mut i: usize = 0;
    while i < n
        invariant
            i <= n,
            n == v@.len(),
            r@.len() == i,
            forall|k: int| 0 <= k < i ==> r@[k]@ == v@[k]@,
        decreases n - i,
    {
        r.push(v[i].duplicate());
        i = i + 1;
    }
    proof {
        assert(views_of(r@) =~= views_of(v@));
    }
    r
}

/// What the launcher does once the chosen entity's execute action has
/// reported: terminate on success; on failure stay interactive, the session
/// untouched, so the user can retry or pick another entry.
pub fn launch_decision(execute_ok: bool) -> (r: PrismAction)
    ensures
        r == if execute_ok {
            PrismAction::Exit
        } else {
            PrismAction::Idle
        },
{
    if execute_ok {
        PrismAction::Exit
    } else {
        PrismAction::Idle
    }
}

} // verus!
