//! The interactive controller: selection state over the filtered task list,
//! the modal overlay state machine, and the synchronization discipline that
//! keeps the in-memory task list equal to the store after every mutation.
//!
//! Every mutating action writes through the store first and only then
//! patches the cache (patch in place by id, reload by id, or remove
//! locally); a failed store write leaves the cache untouched.
use vstd::prelude::*;

use crate::models::{Todo, TodoView, TodoError};
use crate::search::{FuzzySearch, InputField, Key, idx_views, match_results, matches_upto,
    lemma_matches_upto_bounds};
use crate::store::{DBtodo, StoreModel, has_task, listed, todo_views};

verus! {

/// Whether key events feed the search query or the normal bindings.
#[derive(Clone, Copy, Debug, PartialEq, Eq, Structural)]
pub enum InputMode {
    Normal,
    Search,
}

/// The one interaction mode that is active; opening one overlay while
/// another is open is only reachable via an explicit close-then-open.
#[derive(Clone, Copy, Debug, PartialEq, Eq, Structural)]
pub enum Modal {
    Browsing,
    Searching,
    DetailView,
    DeleteConfirm,
    PriorityChange,
    MainMenu,
}

/// Whether the event loop goes on or stops.
#[derive(Clone, Copy, Debug, PartialEq, Eq, Structural)]
pub enum Flow {
    Continue,
    Quit,
}

/// Where one forward step takes the primary cursor: wraps from the last
/// match to the first; an empty filtered view has no cursor.
pub open spec fn next_cursor(sel: Option<int>, len: int) -> Option<int> {
    if len == 0 {
        None
    } else {
        Some(
            match sel {
                Some(i) => if i >= len - 1 {
                    0int
                } else {
                    i + 1
                },
                None => 0int,
            },
        )
    }
}

/// Where one backward step takes the primary cursor: wraps from the first
/// match to the last; an empty filtered view has no cursor.
pub open spec fn previous_cursor(sel: Option<int>, len: int) -> Option<int> {
    if len == 0 {
        None
    } else {
        Some(
            match sel {
                Some(i) => if i == 0 {
                    len - 1
                } else {
                    i - 1
                },
                None => 0int,
            },
        )
    }
}

/// Where a re-derivation takes the primary cursor: kept when it still fits
/// the new filtered view, clamped to the last match else, cleared when
/// nothing matches.
pub open spec fn clamped_cursor(sel: Option<int>, len: int) -> Option<int> {
    if len == 0 {
        None
    } else {
        Some(
            match sel {
                Some(s) => if s < len {
                    s
                } else {
                    len - 1
                },
                None => 0int,
            },
        )
    }
}

/// The int an optional index denotes.
pub open spec fn opt_view(o: Option<usize>) -> Option<int> {
    match o {
        Some(u) => Some(u as int),
        None => None,
    }
}

/// Two tasks equal in everything but their notes (notes live only in
/// memory, so the store's listing never constrains them).
pub open spec fn eq_except_notes(a: TodoView, b: TodoView) -> bool {
    a == (TodoView { notes: a.notes, ..b })
}

/// The interactive state: the cached task list, the cursor over the
/// filtered view of it, the active modal, the detail-view state, and the
/// live filter.
pub struct App {
    pub todos: Vec<Todo>,
    pub selected: Option<usize>,
    pub modal: Modal,
    pub selected_todo: Option<Todo>,
    pub subtask_selected: Option<usize>,
    pub input_mode: InputMode,
    pub fuzzy_search: FuzzySearch,
    pub filtered_indices: Vec<usize>,
    pub notes_input: InputField,
    pub editing_notes: bool,
}

impl App {
    /// The live query.
    pub open spec fn query(&self) -> Seq<char> {
        self.fuzzy_search.input@.value
    }

    /// The cache equals the store's listing, task for task, in order
    /// (except each task's in-memory notes).
    pub open spec fn cache_synced(&self, m: StoreModel) -> bool {
        &&& self.todos@.len() == listed(m).len()
        &&& forall|i: int| 0 <= i < self.todos@.len()
                ==> eq_except_notes(#[trigger] self.todos@[i]@, listed(m)[i])
    }

    /// The filtered view is exactly the query's match results over the
    /// cache, and the filter agrees with the cache.
    pub open spec fn filter_ok(&self) -> bool {
        &&& self.fuzzy_search.wf_for(todo_views(self.todos@))
        &&& idx_views(self.filtered_indices@) == match_results(
            todo_views(self.todos@), self.query(),
        )
    }

    /// The primary cursor is `None` exactly when the filtered view is
    /// empty, and otherwise a valid index into it.
    pub open spec fn cursor_ok(&self) -> bool {
        &&& (self.selected is None) <==> self.filtered_indices@.len() == 0
        &&& self.selected matches Some(i) ==> (i as int) < self.filtered_indices@.len()
    }

    /// The detail view always shows a task that is in the cache, and the
    /// secondary cursor sits inside its subtasks; outside the detail view
    /// there is no opened task and no secondary cursor.
    pub open spec fn detail_ok(&self) -> bool {
        &&& (self.modal is DetailView) ==> self.selected_todo is Some
        &&& (self.selected_todo matches Some(t) ==> exists|i: int|
                0 <= i < self.todos@.len() && #[trigger] self.todos@[i]@ == t@)
        &&& (self.subtask_selected matches Some(j) ==> self.selected_todo matches Some(t)
                && (j as int) < t.subtasks@.len())
        &&& !(self.modal is DetailView) ==> (self.selected_todo is None)
            && (self.subtask_selected is None) && !self.editing_notes
        &&& self.notes_input.wf()
        &&& self.editing_notes ==> self.notes_input@.active
    }

    /// The input mode and the query focus mirror the modal state.
    pub open spec fn mode_ok(&self) -> bool {
        &&& (self.input_mode is Search) <==> (self.modal is Searching)
        &&& self.fuzzy_search.input@.active <==> (self.modal is Searching)
    }

    /// The controller's invariant against a store state.
    pub open spec fn wf(&self, m: StoreModel) -> bool {
        &&& self.cache_synced(m)
        &&& self.filter_ok()
        &&& self.cursor_ok()
        &&& self.detail_ok()
        &&& self.mode_ok()
    }

    /// A fresh controller over a task list: browsing, no filter, the cursor
    /// on the first task when there is one.
    pub fn new(todos: Vec<Todo>) -> (r: App)
        ensures
            r.todos@ == todos@,
            r.modal is Browsing,
            r.filter_ok(),
            r.cursor_ok(),
            r.detail_ok(),
            r.mode_ok(),
            r.query().len() == 0,
            opt_view(r.selected) == (if todos@.len() == 0 { Option::<int>::None } else {
                Option::<int>::Some(0)
            }),
    {
        let mut app = App {
            todos,
            selected: None,
            modal: Modal::Browsing,
            selected_todo: None,
            subtask_selected: None,
            input_mode: InputMode::Normal,
            fuzzy_search: FuzzySearch::new(),
            filtered_indices: Vec::new(),
            notes_input: InputField::new_multiline("Notes"),
            editing_notes: false,
        };
        app.fuzzy_search.update_matches(&app.todos);
        app.update_filtered_todos();
        proof {
            lemma_matches_upto_bounds(todo_views(app.todos@), app.query(), app.todos@.len() as int);
            if app.todos@.len() > 0 {
                assert(matches_upto(todo_views(app.todos@), app.query(), app.todos@.len() as int)
                    .len() > 0);
            }
        }
        app
    }

    /// Copy the filter's matches into the filtered view and re-derive the
    /// primary cursor: the filter's highlight clamped into the matches, or
    /// `None` when nothing matches.
    pub fn update_filtered_todos(&mut self)
        requires
            old(self).fuzzy_search.wf_for(todo_views(old(self).todos@)),
        ensures
            *final(self) == (App {
                filtered_indices: final(self).filtered_indices,
                selected: final(self).selected,
                ..*old(self)
            }),
            idx_views(final(self).filtered_indices@) == match_results(
                todo_views(old(self).todos@), old(self).query(),
            ),
            opt_view(final(self).selected) == (
                if final(self).filtered_indices@.len() == 0 {
                    Option::<int>::None
                } else if (old(self).fuzzy_search.selected_match as int)
                    < final(self).filtered_indices@.len() {
                    Option::<int>::Some(old(self).fuzzy_search.selected_match as int)
                } else {
                    Option::<int>::Some(final(self).filtered_indices@.len() - 1)
                }
            ),
            final(self).filter_ok(),
            final(self).cursor_ok(),
    {
        let mut fi: Vec<usize> = Vec::new();
        let src = self.fuzzy_search.matched_indices();
        let mut i: usize = 0;
        while i < src.len()
            invariant
                i <= src.len(),
                fi@ == src@.take(i as int),
            decreases src.len() - i,
        {
            fi.push(src[i]);
            proof {
                assert(src@.take(i as int).push(src@[i as int]) =~= src@.take(i as int + 1));
            }
            i = i + 1;
        }
        proof {
            assert(fi@ =~= src@);
        }
        self.filtered_indices = fi;
        if self.filtered_indices.len() == 0 {
            self.selected = None;
        } else {
            let sel = self.fuzzy_search.selected_match();
            if sel < self.filtered_indices.len() {
                self.selected = Some(sel);
            } else {
                self.selected = Some(self.filtered_indices.len() - 1);
            }
        }
    }

    /// Step the primary cursor forward, wrapping from the last match to the
    /// first; on an empty filtered view the cursor stays `None`.
    pub fn next(&mut self)
        requires
            old(self).cursor_ok(),
        ensures
            *final(self) == (App { selected: final(self).selected, ..*old(self) }),
            opt_view(final(self).selected) == next_cursor(
                opt_view(old(self).selected), old(self).filtered_indices@.len() as int,
            ),
            final(self).cursor_ok(),
    {
        if self.filtered_indices.len() == 0 {
            self.selected = None;
            return;
        }
        let i = match self.selected {
            Some(i) => {
                if i >= self.filtered_indices.len() - 1 {
                    0
                } else {
                    i + 1
                }
            },
            None => 0,
        };
        self.selected = Some(i);
    }

    /// Step the primary cursor backward, wrapping from the first match to
    /// the last; on an empty filtered view the cursor stays `None`.
    pub fn previous(&mut self)
        requires
            old(self).cursor_ok(),
        ensures
            *final(self) == (App { selected: final(self).selected, ..*old(self) }),
            opt_view(final(self).selected) == previous_cursor(
                opt_view(old(self).selected), old(self).filtered_indices@.len() as int,
            ),
            final(self).cursor_ok(),
    {
        if self.filtered_indices.len() == 0 {
            self.selected = None;
            return;
        }
        let i = match self.selected {
            Some(i) => {
                if i == 0 {
                    self.filtered_indices.len() - 1
                } else {
                    i - 1
                }
            },
            None => 0,
        };
        self.selected = Some(i);
    }
}

/// How the listing changes when one task's status is rewritten: the same
/// tasks, the matching one with the new status.
proof fn lemma_listed_set_status(m: StoreModel, id: int, st: Seq<char>)
    ensures
        listed(crate::store::set_status_effect(m, id, st)).len() == listed(m).len(),
        forall|i: int| 0 <= i < listed(m).len()
            ==> #[trigger] listed(crate::store::set_status_effect(m, id, st))[i] == (
                if m.tasks[i].id == id {
                    TodoView { status: st, ..listed(m)[i] }
                } else {
                    listed(m)[i]
                }
            ),
{
    let m2 = crate::store::set_status_effect(m, id, st);
    assert(m2.subs == m.subs);
    assert(m2.tasks.len() == m.tasks.len());
    assert forall|i: int| 0 <= i < listed(m).len()
        implies #[trigger] listed(m2)[i] == (
            if m.tasks[i].id == id {
                TodoView { status: st, ..listed(m)[i] }
            } else {
                listed(m)[i]
            }
        ) by {
        assert(m2.tasks[i] == (if m.tasks[i].id == id {
            crate::store::TaskRowView { status: st, ..m.tasks[i] }
        } else {
            m.tasks[i]
        }));
        assert(crate::store::subs_of(m2, m2.tasks[i].id) == crate::store::subs_of(
            m, m2.tasks[i].id,
        ));
        assert(listed(m2)[i] =~= (if m.tasks[i].id == id {
            TodoView { status: st, ..listed(m)[i] }
        } else {
            listed(m)[i]
        }));
    }
}

/// How the listing changes when one task's priority is rewritten.
proof fn lemma_listed_set_priority(m: StoreModel, id: int, pr: Seq<char>)
    ensures
        listed(crate::store::set_priority_effect(m, id, pr)).len() == listed(m).len(),
        forall|i: int| 0 <= i < listed(m).len()
            ==> #[trigger] listed(crate::store::set_priority_effect(m, id, pr))[i] == (
                if m.tasks[i].id == id {
                    TodoView { priority: pr, ..listed(m)[i] }
                } else {
                    listed(m)[i]
                }
            ),
{
    let m2 = crate::store::set_priority_effect(m, id, pr);
    assert(m2.subs == m.subs);
    assert(m2.tasks.len() == m.tasks.len());
    assert forall|i: int| 0 <= i < listed(m).len()
        implies #[trigger] listed(m2)[i] == (
            if m.tasks[i].id == id {
                TodoView { priority: pr, ..listed(m)[i] }
            } else {
                listed(m)[i]
            }
        ) by {
        assert(m2.tasks[i] == (if m.tasks[i].id == id {
            crate::store::TaskRowView { priority: pr, ..m.tasks[i] }
        } else {
            m.tasks[i]
        }));
        assert(crate::store::subs_of(m2, m2.tasks[i].id) == crate::store::subs_of(
            m, m2.tasks[i].id,
        ));
        assert(listed(m2)[i] =~= (if m.tasks[i].id == id {
            TodoView { priority: pr, ..listed(m)[i] }
        } else {
            listed(m)[i]
        }));
    }
}

impl App {
    /// Re-run the filter over the current cache and clamp the primary
    /// cursor into the new filtered view: past the end moves to the last
    /// valid index, an empty view clears it, and an appearing view starts
    /// at the top.
    fn refilter_clamp(&mut self)
        requires
            old(self).fuzzy_search.input.wf(),
        ensures
            *final(self) == (App {
                fuzzy_search: final(self).fuzzy_search,
                filtered_indices: final(self).filtered_indices,
                selected: final(self).selected,
                ..*old(self)
            }),
            final(self).fuzzy_search.input == old(self).fuzzy_search.input,
            final(self).filter_ok(),
            final(self).cursor_ok(),
            idx_views(final(self).filtered_indices@) == match_results(
                todo_views(old(self).todos@), old(self).query(),
            ),
            opt_view(final(self).selected) == clamped_cursor(
                opt_view(old(self).selected), final(self).filtered_indices@.len() as int,
            ),
    {
        let keep = self.selected;
        self.fuzzy_search.update_matches(&self.todos);
        let mut fi: Vec<usize> = Vec::new();
        let src = self.fuzzy_search.matched_indices();
        let mut i: usize = 0;
        while i < src.len()
            invariant
                i <= src.len(),
                fi@ == src@.take(i as int),
            decreases src.len() - i,
        {
            fi.push(src[i]);
            proof {
                assert(src@.take(i as int).push(src@[i as int]) =~= src@.take(i as int + 1));
            }
            i = i + 1;
        }
        proof {
            assert(fi@ =~= src@);
        }
        self.filtered_indices = fi;
        if self.filtered_indices.len() == 0 {
            self.selected = None;
        } else {
            match keep {
                Some(s) => {
                    if s < self.filtered_indices.len() {
                        self.selected = Some(s);
                    } else {
                        self.selected = Some(self.filtered_indices.len() - 1);
                    }
                },
                None => {
                    self.selected = Some(0);
                },
            }
        }
    }

    /// Change one task's status (Pattern A: write through the store, then
    /// patch the cache entry by id, then re-derive filter and cursor). A
    /// missing id or a store failure leaves everything unchanged.
    pub fn change_todo_status(&mut self, db: &mut DBtodo, id: usize, status: String) -> (r:
        Result<(), TodoError>)
        requires
            old(db).wf(),
            old(self).wf(old(db)@),
            old(self).modal is Browsing,
        ensures
            final(db).wf(),
            final(self).wf(final(db)@),
            final(self).modal == old(self).modal,
            final(self).input_mode == old(self).input_mode,
            final(self).fuzzy_search.input == old(self).fuzzy_search.input,
            r is Ok ==> final(db)@ == crate::store::set_status_effect(
                old(db)@, id as int, status@,
            ) && has_task(old(db)@, id as int)
                && final(self).todos@.len() == old(self).todos@.len()
                && (forall|i: int| 0 <= i < old(self).todos@.len()
                    ==> #[trigger] final(self).todos@[i]@ == (
                        if old(self).todos@[i]@.id == id as int {
                            TodoView { status: status@, ..old(self).todos@[i]@ }
                        } else {
                            old(self).todos@[i]@
                        }
                    )),
            r is Ok ==> idx_views(final(self).filtered_indices@) == match_results(
                todo_views(final(self).todos@), old(self).query(),
            ),
            r is Ok ==> opt_view(final(self).selected) == clamped_cursor(
                opt_view(old(self).selected), final(self).filtered_indices@.len() as int,
            ),
            r matches Err(e) ==> final(db)@ == old(db)@ && *final(self) == *old(self)
                && ((e is NotFound) || (e is Store)),
            r matches Err(e) ==> ((e is NotFound) ==> !has_task(old(db)@, id as int)),
    {
        let ghost m = old(db)@;
        match db.update_todo(id, status.clone()) {
            Ok(true) => {
                let ghost m2 = db@;
                let mut i: usize = 0;
                while i < self.todos.len()
                    invariant
                        i <= self.todos@.len(),
                        self.todos@.len() == old(self).todos@.len(),
                        forall|j: int| 0 <= j < i ==> #[trigger] self.todos@[j]@ == (
                            if old(self).todos@[j]@.id == id as int {
                                TodoView { status: status@, ..old(self).todos@[j]@ }
                            } else {
                                old(self).todos@[j]@
                            }
                        ),
                        forall|j: int| i <= j < self.todos@.len()
                            ==> #[trigger] self.todos@[j] == old(self).todos@[j],
                        self.selected_todo == old(self).selected_todo,
                        self.subtask_selected == old(self).subtask_selected,
                        self.modal == old(self).modal,
                        self.input_mode == old(self).input_mode,
                        self.fuzzy_search == old(self).fuzzy_search,
                        self.filtered_indices == old(self).filtered_indices,
                        self.selected == old(self).selected,
                        self.notes_input == old(self).notes_input,
                        self.editing_notes == old(self).editing_notes,
                    decreases self.todos@.len() - i,
                {
                    if self.todos[i].id == id {
                        let mut t = self.todos[i].clone();
                        t.status = status.clone();
                        self.todos.set(i, t);
                    }
                    i = i + 1;
                }
                proof {
                    lemma_listed_set_status(m, id as int, status@);
                    assert forall|j: int| 0 <= j < self.todos@.len()
                        implies eq_except_notes(#[trigger] self.todos@[j]@, listed(m2)[j]) by {
                        assert(eq_except_notes(old(self).todos@[j]@, listed(m)[j]));
                        assert(old(self).todos@[j]@.id == listed(m)[j].id);
                        assert(listed(m)[j].id == m.tasks[j].id);
                    }
                }
                self.refilter_clamp();
                proof {
                    assert(final(db)@ == m2);
                }
                Ok(())
            },
            Ok(false) => Err(TodoError::NotFound),
            Err(e) => Err(e),
        }
    }

    /// Change one task's priority (Pattern A, as for status).
    pub fn change_priority(&mut self, db: &mut DBtodo, id: usize, priority: String) -> (r:
        Result<(), TodoError>)
        requires
            old(db).wf(),
            old(self).wf(old(db)@),
            old(self).modal is Browsing,
        ensures
            final(db).wf(),
            final(self).wf(final(db)@),
            final(self).modal == old(self).modal,
            final(self).input_mode == old(self).input_mode,
            final(self).fuzzy_search.input == old(self).fuzzy_search.input,
            r is Ok ==> final(db)@ == crate::store::set_priority_effect(
                old(db)@, id as int, priority@,
            ) && has_task(old(db)@, id as int)
                && final(self).todos@.len() == old(self).todos@.len()
                && (forall|i: int| 0 <= i < old(self).todos@.len()
                    ==> #[trigger] final(self).todos@[i]@ == (
                        if old(self).todos@[i]@.id == id as int {
                            TodoView { priority: priority@, ..old(self).todos@[i]@ }
                        } else {
                            old(self).todos@[i]@
                        }
                    )),
            r is Ok ==> idx_views(final(self).filtered_indices@) == match_results(
                todo_views(final(self).todos@), old(self).query(),
            ),
            r is Ok ==> opt_view(final(self).selected) == clamped_cursor(
                opt_view(old(self).selected), final(self).filtered_indices@.len() as int,
            ),
            r matches Err(e) ==> final(db)@ == old(db)@ && *final(self) == *old(self)
                && ((e is NotFound) || (e is Store)),
            r matches Err(e) ==> ((e is NotFound) ==> !has_task(old(db)@, id as int)),
    {
        let ghost m = old(db)@;
        match db.update_priority(id, priority.clone()) {
            Ok(true) => {
                let ghost m2 = db@;
                let mut i: usize = 0;
                while i < self.todos.len()
                    invariant
                        i <= self.todos@.len(),
                        self.todos@.len() == old(self).todos@.len(),
                        forall|j: int| 0 <= j < i ==> #[trigger] self.todos@[j]@ == (
                            if old(self).todos@[j]@.id == id as int {
                                TodoView { priority: priority@, ..old(self).todos@[j]@ }
                            } else {
                                old(self).todos@[j]@
                            }
                        ),
                        forall|j: int| i <= j < self.todos@.len()
                            ==> #[trigger] self.todos@[j] == old(self).todos@[j],
                        self.selected_todo == old(self).selected_todo,
                        self.subtask_selected == old(self).subtask_selected,
                        self.modal == old(self).modal,
                        self.input_mode == old(self).input_mode,
                        self.fuzzy_search == old(self).fuzzy_search,
                        self.filtered_indices == old(self).filtered_indices,
                        self.selected == old(self).selected,
                        self.notes_input == old(self).notes_input,
                        self.editing_notes == old(self).editing_notes,
                    decreases self.todos@.len() - i,
                {
                    if self.todos[i].id == id {
                        let mut t = self.todos[i].clone();
                        t.priority = priority.clone();
                        self.todos.set(i, t);
                    }
                    i = i + 1;
                }
                proof {
                    lemma_listed_set_priority(m, id as int, priority@);
                    assert forall|j: int| 0 <= j < self.todos@.len()
                        implies eq_except_notes(#[trigger] self.todos@[j]@, listed(m2)[j]) by {
                        assert(eq_except_notes(old(self).todos@[j]@, listed(m)[j]));
                        assert(old(self).todos@[j]@.id == listed(m)[j].id);
                        assert(listed(m)[j].id == m.tasks[j].id);
                    }
                }
                self.refilter_clamp();
                Ok(())
            },
            Ok(false) => Err(TodoError::NotFound),
            Err(e) => Err(e),
        }
    }
}

impl App {
    /// Open the selected task into the detail view: the primary cursor is
    /// resolved through the filtered view, the task is copied out of the
    /// cache, and the secondary cursor is reset. With nothing selected this
    /// is a no-op.
    pub fn select_current(&mut self)
        requires
            old(self).filter_ok(),
            old(self).cursor_ok(),
            old(self).detail_ok(),
            !(old(self).modal is DetailView),
        ensures
            final(self).detail_ok(),
            *final(self) == (App {
                modal: final(self).modal,
                selected_todo: final(self).selected_todo,
                subtask_selected: final(self).subtask_selected,
                ..*old(self)
            }),
            old(self).selected is None ==> *final(self) == *old(self),
            old(self).selected matches Some(s) ==> (final(self).modal is DetailView)
                && (final(self).subtask_selected is None)
                && (final(self).selected_todo matches Some(t)
                    && t@ == old(self).todos@[old(self).filtered_indices@[s as int] as int]@),
    {
        match self.selected {
            Some(s) => {
                proof {
                    lemma_matches_upto_bounds(
                        todo_views(self.todos@), self.query(), self.todos@.len() as int,
                    );
                    assert(idx_views(self.filtered_indices@)[s as int] == match_results(
                        todo_views(self.todos@), self.query(),
                    )[s as int]);
                    assert(self.filtered_indices@[s as int] as int == idx_views(
                        self.filtered_indices@,
                    )[s as int]);
                }
                let oi = self.filtered_indices[s];
                let t = self.todos[oi].clone();
                self.selected_todo = Some(t);
                self.subtask_selected = None;
                self.modal = Modal::DetailView;
                proof {
                    assert(self.todos@[oi as int]@ == self.selected_todo.unwrap()@);
                }
            },
            None => {},
        }
    }

    /// Close whatever overlay is open and return to browsing: the opened
    /// task and the secondary cursor are discarded, and the filter and the
    /// primary cursor are re-derived so no stale view survives the close.
    pub fn close_modal(&mut self)
        requires
            old(self).fuzzy_search.input.wf(),
            old(self).notes_input.wf(),
        ensures
            final(self).modal is Browsing,
            final(self).input_mode is Normal,
            final(self).selected_todo is None,
            final(self).subtask_selected is None,
            !final(self).editing_notes,
            !final(self).fuzzy_search.input@.active,
            final(self).todos@ == old(self).todos@,
            final(self).notes_input == old(self).notes_input,
            final(self).query() == old(self).query(),
            final(self).filter_ok(),
            final(self).cursor_ok(),
            final(self).detail_ok(),
            final(self).mode_ok(),
            idx_views(final(self).filtered_indices@) == match_results(
                todo_views(old(self).todos@), old(self).query(),
            ),
            opt_view(final(self).selected) == clamped_cursor(
                opt_view(old(self).selected), final(self).filtered_indices@.len() as int,
            ),
    {
        self.modal = Modal::Browsing;
        self.input_mode = InputMode::Normal;
        self.selected_todo = None;
        self.subtask_selected = None;
        self.editing_notes = false;
        self.fuzzy_search.input.unfocus();
        self.refilter_clamp();
    }

    /// Route one key event to the live filter while searching; whenever the
    /// filter consumed it, the matches and the filtered view are recomputed
    /// for the new query.
    pub fn handle_fuzzy_search(&mut self, key: Key) -> (r: bool)
        requires
            old(self).fuzzy_search.input.wf(),
        ensures
            final(self).todos@ == old(self).todos@,
            final(self).modal == old(self).modal,
            final(self).input_mode == old(self).input_mode,
            final(self).selected_todo == old(self).selected_todo,
            final(self).subtask_selected == old(self).subtask_selected,
            final(self).notes_input == old(self).notes_input,
            final(self).editing_notes == old(self).editing_notes,
            final(self).fuzzy_search.input@ == crate::search::input_step(
                old(self).fuzzy_search.input@, key,
            ).0,
            final(self).filter_ok(),
            final(self).cursor_ok(),
    {
        let handled = self.fuzzy_search.handle_event(key);
        self.fuzzy_search.update_matches(&self.todos);
        self.update_filtered_todos();
        handled
    }

    /// Apply a priority choice to the selected task and close the overlay
    /// (with nothing selected the overlay just closes). The store is
    /// written first; the cache entry is patched by id.
    pub fn handle_priority_change(&mut self, db: &mut DBtodo, priority: &str) -> (r: Result<
        (),
        TodoError,
    >)
        requires
            old(db).wf(),
            old(self).wf(old(db)@),
            old(self).modal is PriorityChange,
        ensures
            final(db).wf(),
            final(self).wf(final(db)@),
            final(self).modal is Browsing,
            (old(self).selected is None) ==> (r is Ok) && final(db)@ == old(db)@
                && *final(self) == (App { modal: final(self).modal, ..*old(self) }),
            (r is Ok && (old(self).selected matches Some(s)
                && final(db)@ == crate::store::set_priority_effect(
                    old(db)@,
                    old(self).todos@[old(self).filtered_indices@[s as int] as int]@.id,
                    priority@,
                ))) || (r is Ok && (old(self).selected is None) && final(db)@ == old(db)@)
                || (r is Err),
            r matches Err(e) ==> final(db)@ == old(db)@ && ((e is NotFound) || (e is Store)),
    {
        self.modal = Modal::Browsing;
        match self.selected {
            Some(s) => {
                proof {
                    lemma_matches_upto_bounds(
                        todo_views(self.todos@), self.query(), self.todos@.len() as int,
                    );
                    assert(idx_views(self.filtered_indices@)[s as int] == match_results(
                        todo_views(self.todos@), self.query(),
                    )[s as int]);
                    assert(self.filtered_indices@[s as int] as int == idx_views(
                        self.filtered_indices@,
                    )[s as int]);
                }
                let oi = self.filtered_indices[s];
                let id = self.todos[oi].id;
                self.change_priority(db, id, priority.to_owned())
            },
            None => Ok(()),
        }
    }
}

/// The cache already matches the listing row for row, except possibly the
/// subtasks (and, as always, the notes) of one task.
pub open spec fn synced_except_subs(todos: Seq<Todo>, m: StoreModel, id: int) -> bool {
    &&& todos.len() == listed(m).len()
    &&& forall|i: int| 0 <= i < todos.len() ==> (
        if (#[trigger] todos[i])@.id == id {
            todos[i]@ == (TodoView {
                notes: todos[i]@.notes,
                subtasks: todos[i]@.subtasks,
                ..listed(m)[i]
            })
        } else {
            eq_except_notes(todos[i]@, listed(m)[i])
        }
    )
}

impl App {
    /// Re-fetch one task from the store wholesale and replace it in the
    /// cache and, when it is the opened task, in the detail view (Pattern
    /// B). The secondary cursor is kept when it still fits and discarded
    /// otherwise. On a store failure nothing changes.
    pub fn load_todo(&mut self, db: &DBtodo, todo_id: usize) -> (r: Result<(), TodoError>)
        requires
            db.wf(),
            synced_except_subs(old(self).todos@, db@, todo_id as int),
        ensures
            final(self).todos@.len() == old(self).todos@.len(),
            final(self).modal == old(self).modal,
            final(self).input_mode == old(self).input_mode,
            final(self).fuzzy_search == old(self).fuzzy_search,
            final(self).filtered_indices == old(self).filtered_indices,
            final(self).selected == old(self).selected,
            final(self).notes_input == old(self).notes_input,
            final(self).editing_notes == old(self).editing_notes,
            r is Ok ==> final(self).cache_synced(db@),
            r is Ok ==> (forall|i: int| 0 <= i < old(self).todos@.len()
                && (#[trigger] old(self).todos@[i])@.id != todo_id as int
                ==> final(self).todos@[i] == old(self).todos@[i]),
            r is Ok ==> (forall|i: int| 0 <= i < old(self).todos@.len()
                && (#[trigger] old(self).todos@[i])@.id == todo_id as int
                ==> final(self).todos@[i]@ == listed(db@)[i]),
            r is Ok ==> ((old(self).selected_todo is None) ==> (final(self).selected_todo
                is None)),
            r is Ok ==> (old(self).selected_todo matches Some(t) && t@.id != todo_id as int
                ==> final(self).selected_todo == old(self).selected_todo),
            r is Ok ==> (old(self).selected_todo matches Some(t) && t@.id == todo_id as int
                && !(exists|i: int| 0 <= i < listed(db@).len()
                    && (#[trigger] listed(db@)[i]).id == todo_id as int)
                ==> final(self).selected_todo == old(self).selected_todo),
            r is Ok ==> (old(self).selected_todo matches Some(t) && t@.id == todo_id as int
                && (exists|i: int| 0 <= i < listed(db@).len()
                    && (#[trigger] listed(db@)[i]).id == todo_id as int)
                ==> (final(self).selected_todo matches Some(t2) && exists|i: int|
                    0 <= i < listed(db@).len() && (#[trigger] listed(db@)[i]).id
                        == todo_id as int && t2@ == listed(db@)[i])),
            r is Ok ==> (final(self).subtask_selected == old(self).subtask_selected
                || (final(self).subtask_selected is None)),
            r is Ok ==> (old(self).subtask_selected matches Some(j)
                ==> (final(self).selected_todo matches Some(t2)
                        && (j as int) < t2.subtasks@.len()
                    ==> final(self).subtask_selected == old(self).subtask_selected)),
            r is Ok ==> (final(self).subtask_selected matches Some(j)
                ==> (final(self).selected_todo matches Some(t2)
                    && (j as int) < t2.subtasks@.len())),
            r is Err ==> *final(self) == *old(self),
            r matches Err(e) ==> (e is Store),
    {
        let fetched = match db.get_todos() {
            Ok(v) => v,
            Err(e) => return Err(e),
        };
        let ghost gl = listed(db@);
        proof {
            assert(todo_views(fetched@).len() == fetched@.len());
        }
        let mut i: usize = 0;
        while i < self.todos.len()
            invariant
                i <= self.todos@.len(),
                self.todos@.len() == old(self).todos@.len(),
                gl == listed(db@),
                todo_views(fetched@) == gl,
                fetched@.len() == gl.len(),
                self.todos@.len() == gl.len(),
                synced_except_subs(old(self).todos@, db@, todo_id as int),
                forall|j: int| 0 <= j < i && (#[trigger] old(self).todos@[j])@.id
                    == todo_id as int ==> self.todos@[j]@ == gl[j],
                forall|j: int| 0 <= j < self.todos@.len()
                    && !(0 <= j < i && old(self).todos@[j]@.id == todo_id as int)
                    ==> #[trigger] self.todos@[j] == old(self).todos@[j],
                self.selected_todo == old(self).selected_todo,
                self.subtask_selected == old(self).subtask_selected,
                self.modal == old(self).modal,
                self.input_mode == old(self).input_mode,
                self.fuzzy_search == old(self).fuzzy_search,
                self.filtered_indices == old(self).filtered_indices,
                self.selected == old(self).selected,
                self.notes_input == old(self).notes_input,
                self.editing_notes == old(self).editing_notes,
            decreases self.todos@.len() - i,
        {
            proof {
                assert(self.todos@[i as int] == old(self).todos@[i as int]);
                assert(todo_views(fetched@)[i as int] == fetched@[i as int]@);
            }
            if self.todos[i].id == todo_id {
                let fresh = fetched[i].clone();
                self.todos.set(i, fresh);
            }
            i = i + 1;
        }
        proof {
            assert forall|k: int| 0 <= k < self.todos@.len()
                implies eq_except_notes(#[trigger] self.todos@[k]@, gl[k]) by {
                if old(self).todos@[k]@.id == todo_id as int {
                    assert(self.todos@[k]@ == gl[k]);
                } else {
                    assert(self.todos@[k] == old(self).todos@[k]);
                    assert(eq_except_notes(old(self).todos@[k]@, gl[k]));
                }
            }
        }
        let tid_matches: bool = match &self.selected_todo {
            Some(t) => t.id == todo_id,
            None => false,
        };
        if tid_matches {
            let mut k: usize = 0;
            let mut found: bool = false;
            while k < fetched.len() && !found
                invariant
                    k <= fetched@.len(),
                    todo_views(fetched@) == gl,
                    fetched@.len() == gl.len(),
                    found ==> k < fetched@.len() && gl[k as int].id == todo_id as int,
                    !found ==> forall|j: int| 0 <= j < k
                        ==> (#[trigger] gl[j]).id != todo_id as int,
                decreases fetched@.len() - k + (if found { 0int } else { 1int }),
            {
                proof {
                    assert(todo_views(fetched@)[k as int] == fetched@[k as int]@);
                }
                if fetched[k].id == todo_id {
                    found = true;
                } else {
                    k = k + 1;
                }
            }
            if found {
                proof {
                    assert(todo_views(fetched@)[k as int] == fetched@[k as int]@);
                }
                self.selected_todo = Some(fetched[k].clone());
            } else {
                proof {
                    assert forall|j: int| 0 <= j < gl.len()
                        implies (#[trigger] gl[j]).id != todo_id as int by {}
                }
            }
        }
        let sub_ok: bool = match (&self.subtask_selected, &self.selected_todo) {
            (Some(j), Some(t)) => *j < t.subtasks.len(),
            (Some(_), None) => false,
            _ => true,
        };
        if !sub_ok {
            self.subtask_selected = None;
        }
        Ok(())
    }
}

/// A task with one subtask's status rewritten, when it owns that subtask;
/// any other task unchanged.
pub open spec fn patched_sub_status(t: TodoView, todo_id: int, sub_id: int, st: Seq<char>) -> TodoView {
    if t.id == todo_id {
        TodoView {
            subtasks: t.subtasks.map_values(crate::store::sub_status_update(todo_id, sub_id, st)),
            ..t
        }
    } else {
        t
    }
}

impl App {
    /// Rewrite one subtask's status in the cache alone, in the task list
    /// and in the opened task alike.
    fn patch_subtask_status_local(&mut self, todo_id: usize, subtask_id: usize, status: &String)
        ensures
            final(self).todos@.len() == old(self).todos@.len(),
            forall|i: int| 0 <= i < old(self).todos@.len()
                ==> (#[trigger] final(self).todos@[i])@ == patched_sub_status(
                    old(self).todos@[i]@, todo_id as int, subtask_id as int, status@,
                ),
            (old(self).selected_todo is None) ==> (final(self).selected_todo is None),
            old(self).selected_todo matches Some(t) ==> (final(self).selected_todo matches Some(t2)
                && t2@ == patched_sub_status(t@, todo_id as int, subtask_id as int, status@)),
            final(self).modal == old(self).modal,
            final(self).input_mode == old(self).input_mode,
            final(self).fuzzy_search == old(self).fuzzy_search,
            final(self).filtered_indices == old(self).filtered_indices,
            final(self).selected == old(self).selected,
            final(self).subtask_selected == old(self).subtask_selected,
            final(self).notes_input == old(self).notes_input,
            final(self).editing_notes == old(self).editing_notes,
    {
        let mut i: usize = 0;
        while i < self.todos.len()
            invariant
                i <= self.todos@.len(),
                self.todos@.len() == old(self).todos@.len(),
                forall|j: int| 0 <= j < i ==> (#[trigger] self.todos@[j])@ == patched_sub_status(
                    old(self).todos@[j]@, todo_id as int, subtask_id as int, status@,
                ),
                forall|j: int| i <= j < self.todos@.len()
                    ==> #[trigger] self.todos@[j] == old(self).todos@[j],
                self.selected_todo == old(self).selected_todo,
                self.subtask_selected == old(self).subtask_selected,
                self.modal == old(self).modal,
                self.input_mode == old(self).input_mode,
                self.fuzzy_search == old(self).fuzzy_search,
                self.filtered_indices == old(self).filtered_indices,
                self.selected == old(self).selected,
                self.notes_input == old(self).notes_input,
                self.editing_notes == old(self).editing_notes,
            decreases self.todos@.len() - i,
        {
            if self.todos[i].id == todo_id {
                let mut t = self.todos[i].clone();
                t = patch_one_todo(t, todo_id, subtask_id, status);
                self.todos.set(i, t);
            } else {
                proof {
                    assert(self.todos@[i as int]@ == patched_sub_status(
                        old(self).todos@[i as int]@, todo_id as int, subtask_id as int, status@,
                    ));
                }
            }
            i = i + 1;
        }
        let patched: Option<Todo> = match &self.selected_todo {
            Some(t) => {
                let t2 = patch_one_todo(t.clone(), todo_id, subtask_id, status);
                Some(t2)
            },
            None => None,
        };
        if patched.is_some() {
            self.selected_todo = patched;
        }
    }
}

/// Rewrite one subtask's status inside one task value.
fn patch_one_todo(t: Todo, todo_id: usize, subtask_id: usize, status: &String) -> (r: Todo)
    ensures
        r@ == patched_sub_status(t@, todo_id as int, subtask_id as int, status@),
{
    if t.id != todo_id {
        proof {
            assert(t@.id != todo_id as int);
        }
        return t;
    }
    let mut t = t;
    let mut subs: Vec<crate::models::Subtask> = Vec::new();
    let mut k: usize = 0;
    while k < t.subtasks.len()
        invariant
            k <= t.subtasks@.len(),
            subs@.len() == k,
            forall|j: int| 0 <= j < k ==> (#[trigger] subs@[j])@ == crate::store::sub_status_update(
                todo_id as int, subtask_id as int, status@,
            )(t.subtasks@[j]@),
        decreases t.subtasks@.len() - k,
    {
        let s = &t.subtasks[k];
        if s.todo_id == todo_id && s.subtask_id == subtask_id {
            subs.push(crate::models::Subtask {
                todo_id: s.todo_id,
                subtask_id: s.subtask_id,
                text: s.text.clone(),
                status: status.clone(),
            });
        } else {
            subs.push(s.clone());
        }
        k = k + 1;
    }
    proof {
        assert(crate::models::subtask_views(subs@) =~= crate::models::subtask_views(
            t.subtasks@,
        ).map_values(crate::store::sub_status_update(todo_id as int, subtask_id as int, status@)));
    }
    t.subtasks = subs;
    t
}

impl App {
    /// Change one subtask's status (Pattern B: write through the store,
    /// then re-fetch the whole task by id and replace it wholesale; should
    /// the re-fetch fail, the cache is patched to the exact same contents
    /// locally). A missing subtask or a failed write changes nothing.
    pub fn change_subtask_status(
        &mut self,
        db: &mut DBtodo,
        todo_id: usize,
        subtask_id: usize,
        status: String,
    ) -> (r: Result<(), TodoError>)
        requires
            old(db).wf(),
            old(self).wf(old(db)@),
        ensures
            final(db).wf(),
            final(self).wf(final(db)@),
            final(self).modal == old(self).modal,
            final(self).input_mode == old(self).input_mode,
            final(self).fuzzy_search.input == old(self).fuzzy_search.input,
            final(self).editing_notes == old(self).editing_notes,
            final(self).notes_input == old(self).notes_input,
            r is Ok ==> final(db)@ == crate::store::set_sub_status_effect(
                old(db)@, todo_id as int, subtask_id as int, status@,
            ) && crate::store::has_sub(old(db)@, todo_id as int, subtask_id as int),
            r matches Err(e) ==> final(db)@ == old(db)@ && *final(self) == *old(self)
                && ((e is NotFound) || (e is Store)),
            r matches Err(e) ==> ((e is NotFound) ==> !crate::store::has_sub(
                old(db)@, todo_id as int, subtask_id as int,
            )),
    {
        let ghost m = old(db)@;
        match db.change_subtask_status(todo_id, subtask_id, status.clone()) {
            Ok(true) => {
                let ghost m2 = db@;
                proof {
                    crate::store::lemma_listed_set_sub_status(
                        m, todo_id as int, subtask_id as int, status@,
                    );
                    assert forall|i: int| 0 <= i < self.todos@.len()
                        implies (
                            if (#[trigger] self.todos@[i])@.id == todo_id as int {
                                self.todos@[i]@ == (TodoView {
                                    notes: self.todos@[i]@.notes,
                                    subtasks: self.todos@[i]@.subtasks,
                                    ..listed(m2)[i]
                                })
                            } else {
                                eq_except_notes(self.todos@[i]@, listed(m2)[i])
                            }
                        ) by {
                        assert(eq_except_notes(self.todos@[i]@, listed(m)[i]));
                        assert(self.todos@[i]@.id == m.tasks[i].id);
                    }
                }
                let ghost pre = *self;
                match self.load_todo(db, todo_id) {
                    Ok(()) => {
                        proof {
                            lemma_detail_after_reload(pre, *self, m, m2, todo_id as int);
                        }
                    },
                    Err(_) => {
                        self.patch_subtask_status_local(todo_id, subtask_id, &status);
                        proof {
                            if pre.selected_todo is Some {
                                let t = pre.selected_todo.unwrap();
                                let w = choose|i: int| 0 <= i < pre.todos@.len()
                                    && #[trigger] pre.todos@[i]@ == t@;
                                assert(self.todos@[w]@ == patched_sub_status(
                                    pre.todos@[w]@, todo_id as int, subtask_id as int, status@,
                                ));
                                assert(self.selected_todo.unwrap()@ == patched_sub_status(
                                    t@, todo_id as int, subtask_id as int, status@,
                                ));
                                assert(self.todos@[w]@ == self.selected_todo.unwrap()@);
                            }
                            if self.subtask_selected is Some && pre.selected_todo is Some {
                                let t = pre.selected_todo.unwrap();
                                assert(self.selected_todo.unwrap()@.subtasks.len()
                                    == t@.subtasks.len());
                            }
                            assert(self.detail_ok());
                            assert forall|i: int| 0 <= i < self.todos@.len()
                                implies eq_except_notes(
                                    (#[trigger] self.todos@[i])@, listed(m2)[i],
                                ) by {
                                assert(self.todos@[i]@ == patched_sub_status(
                                    pre.todos@[i]@, todo_id as int, subtask_id as int, status@,
                                ));
                                assert(eq_except_notes(pre.todos@[i]@, listed(m)[i]));
                                assert(pre.todos@[i]@.id == m.tasks[i].id);
                                if m.tasks[i].id == todo_id as int {
                                    assert(pre.todos@[i]@.subtasks == listed(m)[i].subtasks);
                                    assert(self.todos@[i]@ =~= (TodoView {
                                        notes: self.todos@[i]@.notes,
                                        ..listed(m2)[i]
                                    }));
                                }
                            }
                        }
                    },
                }
                self.refilter_clamp();
                Ok(())
            },
            Ok(false) => Err(TodoError::NotFound),
            Err(e) => Err(e),
        }
    }
}

/// After a wholesale reload of the changed task, the opened task still sits
/// in the cache and the secondary cursor still fits.
proof fn lemma_detail_after_reload(pre: App, cur: App, m: StoreModel, m2: StoreModel, todo_id: int)
    requires
        crate::store::store_inv(m2),
        m2.tasks == m.tasks,
        pre.detail_ok(),
        pre.cache_synced(m),
        cur.cache_synced(m2),
        cur.modal == pre.modal,
        cur.editing_notes == pre.editing_notes,
        cur.notes_input == pre.notes_input,
        cur.todos@.len() == pre.todos@.len(),
        forall|i: int| 0 <= i < pre.todos@.len() && (#[trigger] pre.todos@[i])@.id != todo_id
            ==> cur.todos@[i] == pre.todos@[i],
        forall|i: int| 0 <= i < pre.todos@.len() && (#[trigger] pre.todos@[i])@.id == todo_id
            ==> cur.todos@[i]@ == listed(m2)[i],
        (pre.selected_todo is None) ==> (cur.selected_todo is None),
        pre.selected_todo matches Some(t) && t@.id != todo_id
            ==> cur.selected_todo == pre.selected_todo,
        pre.selected_todo matches Some(t) && t@.id == todo_id
            && !(exists|i: int| 0 <= i < listed(m2).len()
                && (#[trigger] listed(m2)[i]).id == todo_id)
            ==> cur.selected_todo == pre.selected_todo,
        pre.selected_todo matches Some(t) && t@.id == todo_id
            && (exists|i: int| 0 <= i < listed(m2).len()
                && (#[trigger] listed(m2)[i]).id == todo_id)
            ==> (cur.selected_todo matches Some(t2) && exists|i: int|
                0 <= i < listed(m2).len() && (#[trigger] listed(m2)[i]).id == todo_id
                    && t2@ == listed(m2)[i]),
        cur.subtask_selected == pre.subtask_selected || (cur.subtask_selected is None),
        cur.subtask_selected matches Some(j) ==> (cur.selected_todo matches Some(t2)
            && (j as int) < t2.subtasks@.len()),
    ensures
        cur.detail_ok(),
{
    if pre.selected_todo is Some {
        let t = pre.selected_todo.unwrap();
        let w = choose|i: int| 0 <= i < pre.todos@.len() && #[trigger] pre.todos@[i]@ == t@;
        if t@.id != todo_id {
            assert(cur.todos@[w] == pre.todos@[w]);
            assert(cur.todos@[w]@ == cur.selected_todo.unwrap()@);
        } else {
            assert(pre.todos@[w]@.id == todo_id);
            assert(eq_except_notes(pre.todos@[w]@, listed(m)[w]));
            assert(listed(m)[w].id == m.tasks[w].id);
            assert(listed(m2)[w].id == m2.tasks[w].id);
            assert(listed(m2)[w].id == todo_id);
            assert(exists|i: int| 0 <= i < listed(m2).len()
                && (#[trigger] listed(m2)[i]).id == todo_id);
            let t2 = cur.selected_todo.unwrap();
            let i2 = choose|i: int| 0 <= i < listed(m2).len()
                && (#[trigger] listed(m2)[i]).id == todo_id && t2@ == listed(m2)[i];
            if i2 != w {
                if i2 < w {
                    assert(m2.tasks[i2].id < m2.tasks[w].id);
                } else {
                    assert(m2.tasks[w].id < m2.tasks[i2].id);
                }
                assert(false);
            }
            assert(cur.todos@[w]@ == listed(m2)[w]);
            assert(t2@ == cur.todos@[w]@);
        }
    }
}

impl App {
    /// Delete the selected task (Pattern C: write through the store, remove
    /// the entry from the cache directly, then re-derive filter and cursor).
    /// Deleting the last remaining match clears the cursor; deleting a
    /// non-last one leaves the cursor on the match that moved into its
    /// place. With nothing selected this is a no-op.
    pub fn delete_current_todo(&mut self, db: &mut DBtodo) -> (r: Result<(), TodoError>)
        requires
            old(db).wf(),
            old(self).wf(old(db)@),
            !(old(self).modal is DetailView),
        ensures
            final(db).wf(),
            final(self).wf(final(db)@),
            final(self).modal == old(self).modal,
            final(self).input_mode == old(self).input_mode,
            final(self).fuzzy_search.input == old(self).fuzzy_search.input,
            (old(self).selected is None) ==> *final(self) == *old(self) && final(db)@ == old(db)@
                && (r is Ok),
            old(self).selected matches Some(s) ==> ((r is Ok) ==> final(db)@
                == crate::store::delete_todo_effect(
                    old(db)@,
                    old(self).todos@[old(self).filtered_indices@[s as int] as int]@.id,
                ) && final(self).todos@ == old(self).todos@.remove(
                    old(self).filtered_indices@[s as int] as int,
                )),
            old(self).selected matches Some(s) ==> ((r is Ok) ==> opt_view(final(self).selected)
                == (
                if final(self).filtered_indices@.len() == 0 {
                    Option::<int>::None
                } else {
                    Option::<int>::Some(
                        if (s as int) < final(self).filtered_indices@.len() {
                            s as int
                        } else {
                            final(self).filtered_indices@.len() - 1
                        },
                    )
                }
            )),
            r matches Err(e) ==> final(db)@ == old(db)@ && *final(self) == *old(self)
                && (e is Store),
    {
        match self.selected {
            None => Ok(()),
            Some(s) => {
                proof {
                    lemma_matches_upto_bounds(
                        todo_views(self.todos@), self.query(), self.todos@.len() as int,
                    );
                    assert(idx_views(self.filtered_indices@)[s as int] == match_results(
                        todo_views(self.todos@), self.query(),
                    )[s as int]);
                    assert(self.filtered_indices@[s as int] as int == idx_views(
                        self.filtered_indices@,
                    )[s as int]);
                }
                let oi = self.filtered_indices[s];
                let id = self.todos[oi].id;
                let ghost m = old(db)@;
                match db.delete_todo(id) {
                    Ok(_) => {
                        let ghost m2 = db@;
                        self.todos.remove(oi);
                        proof {
                            assert(old(self).todos@[oi as int]@.id == m.tasks[oi as int].id);
                            crate::store::lemma_listed_delete_todo(m, oi as int);
                            assert(listed(m2) == listed(m).remove(oi as int));
                            assert forall|k: int| 0 <= k < self.todos@.len()
                                implies eq_except_notes(
                                    (#[trigger] self.todos@[k])@, listed(m2)[k],
                                ) by {
                                if k < oi as int {
                                    assert(self.todos@[k] == old(self).todos@[k]);
                                    assert(listed(m2)[k] == listed(m)[k]);
                                } else {
                                    assert(self.todos@[k] == old(self).todos@[k + 1]);
                                    assert(listed(m2)[k] == listed(m)[k + 1]);
                                }
                            }
                        }
                        self.refilter_clamp();
                        Ok(())
                    },
                    Err(e) => Err(e),
                }
            },
        }
    }

    /// Delete the selected subtask of the opened task (Pattern C: write
    /// through the store, remove it from the opened task and the cache
    /// entry directly, then clamp the secondary cursor and re-derive the
    /// filter). With no subtask selected this is a no-op.
    pub fn delete_current_subtask(&mut self, db: &mut DBtodo) -> (r: Result<(), TodoError>)
        requires
            old(db).wf(),
            old(self).wf(old(db)@),
        ensures
            final(db).wf(),
            final(self).wf(final(db)@),
            final(self).modal == old(self).modal,
            final(self).input_mode == old(self).input_mode,
            final(self).fuzzy_search.input == old(self).fuzzy_search.input,
            final(self).editing_notes == old(self).editing_notes,
            (old(self).subtask_selected is None) ==> *final(self) == *old(self) && final(db)@
                == old(db)@ && (r is Ok),
            old(self).subtask_selected matches Some(j) ==> ((r is Ok) ==> (
                old(self).selected_todo matches Some(t)
                    && final(db)@ == crate::store::delete_sub_effect(
                        old(db)@, t.subtasks@[j as int]@.subtask_id,
                    )
                    && (final(self).selected_todo matches Some(t2)
                        && t2@.subtasks == t@.subtasks.remove(j as int))
                    && opt_view(final(self).subtask_selected) == (
                        if t@.subtasks.len() == 1 {
                            Option::<int>::None
                        } else {
                            Option::<int>::Some(
                                if (j as int) < t@.subtasks.len() - 1 {
                                    j as int
                                } else {
                                    t@.subtasks.len() - 2
                                },
                            )
                        }
                    )
            )),
            r matches Err(e) ==> final(db)@ == old(db)@ && *final(self) == *old(self)
                && (e is Store),
    {
        match self.subtask_selected {
            None => Ok(()),
            Some(j) => {
                let (sid, tid): (usize, usize) = match &self.selected_todo {
                    Some(t) => (t.subtasks[j].subtask_id, t.id),
                    None => {
                        proof {
                            assert(false);
                        }
                        (0, 0)
                    },
                };
                let ghost m = old(db)@;
                let ghost t0 = old(self).selected_todo.unwrap();
                let ghost w = choose|i: int| 0 <= i < old(self).todos@.len()
                    && #[trigger] old(self).todos@[i]@ == t0@;
                match db.delete_subtask(sid) {
                    Ok(_) => {
                        let ghost m2 = db@;
                        // patch the cache entry
                        let mut i: usize = 0;
                        while i < self.todos.len()
                            invariant
                                i <= self.todos@.len(),
                                self.todos@.len() == old(self).todos@.len(),
                                j < t0.subtasks@.len(),
                                forall|k: int| 0 <= k < i
                                    ==> (#[trigger] self.todos@[k])@ == (
                                    if old(self).todos@[k]@.id == tid as int
                                        && (j as int) < old(self).todos@[k]@.subtasks.len() {
                                        TodoView {
                                            subtasks: old(self).todos@[k]@.subtasks.remove(
                                                j as int,
                                            ),
                                            ..old(self).todos@[k]@
                                        }
                                    } else {
                                        old(self).todos@[k]@
                                    }
                                ),
                                forall|k: int| i <= k < self.todos@.len()
                                    ==> #[trigger] self.todos@[k] == old(self).todos@[k],
                                self.selected_todo == old(self).selected_todo,
                                self.subtask_selected == old(self).subtask_selected,
                                self.modal == old(self).modal,
                                self.input_mode == old(self).input_mode,
                                self.fuzzy_search == old(self).fuzzy_search,
                                self.filtered_indices == old(self).filtered_indices,
                                self.selected == old(self).selected,
                                self.notes_input == old(self).notes_input,
                                self.editing_notes == old(self).editing_notes,
                            decreases self.todos@.len() - i,
                        {
                            if self.todos[i].id == tid && j < self.todos[i].subtasks.len() {
                                let mut t = self.todos[i].clone();
                                proof {
                                    assert(crate::models::subtask_views(t.subtasks@).len()
                                        == crate::models::subtask_views(
                                        self.todos@[i as int].subtasks@,
                                    ).len());
                                }
                                t.subtasks.remove(j);
                                proof {
                                    assert(crate::models::subtask_views(t.subtasks@)
                                        =~= crate::models::subtask_views(
                                        old(self).todos@[i as int].subtasks@,
                                    ).remove(j as int));
                                }
                                self.todos.set(i, t);
                            }
                            i = i + 1;
                        }
                        // patch the opened task
                        let mut t2: Todo = match &self.selected_todo {
                            Some(t) => t.clone(),
                            None => {
                                proof {
                                    assert(false);
                                }
                                return Err(TodoError::NotFound);
                            },
                        };
                        proof {
                            assert(crate::models::subtask_views(t2.subtasks@).len()
                                == crate::models::subtask_views(t0.subtasks@).len());
                        }
                        t2.subtasks.remove(j);
                        proof {
                            assert(crate::models::subtask_views(t2.subtasks@)
                                =~= crate::models::subtask_views(t0.subtasks@).remove(j as int));
                        }
                        let new_len = t2.subtasks.len();
                        self.selected_todo = Some(t2);
                        // clamp the secondary cursor
                        if new_len == 0 {
                            self.subtask_selected = None;
                        } else if j < new_len {
                            self.subtask_selected = Some(j);
                        } else {
                            self.subtask_selected = Some(new_len - 1);
                        }
                        proof {
                            // the store row under the opened task
                            assert(eq_except_notes(old(self).todos@[w]@, listed(m)[w]));
                            assert(old(self).todos@[w]@.id == m.tasks[w].id);
                            assert(m.tasks[w].id == tid as int);
                            assert(old(self).todos@[w]@.subtasks == crate::store::subs_of(
                                m, tid as int,
                            ));
                            assert(crate::store::subs_of(m, tid as int)[j as int].subtask_id
                                == sid as int);
                            crate::store::lemma_listed_delete_sub(
                                m, tid as int, sid as int, j as int,
                            );
                            // ids are unique among the rows
                            assert forall|k: int| 0 <= k < self.todos@.len()
                                implies eq_except_notes(
                                    (#[trigger] self.todos@[k])@, listed(m2)[k],
                                ) by {
                                assert(eq_except_notes(old(self).todos@[k]@, listed(m)[k]));
                                assert(old(self).todos@[k]@.id == m.tasks[k].id);
                                if m.tasks[k].id == tid as int {
                                    if k != w {
                                        if k < w {
                                            assert(m.tasks[k].id < m.tasks[w].id);
                                        } else {
                                            assert(m.tasks[w].id < m.tasks[k].id);
                                        }
                                        assert(false);
                                    }
                                    assert(old(self).todos@[k]@.subtasks.len()
                                        == t0.subtasks@.len());
                                    assert(self.todos@[k]@ =~= (TodoView {
                                        notes: self.todos@[k]@.notes,
                                        ..listed(m2)[k]
                                    }));
                                } else {
                                    assert(self.todos@[k]@ == old(self).todos@[k]@);
                                    assert(listed(m2)[k] == listed(m)[k]);
                                }
                            }
                            // the opened task still sits in the cache
                            assert(self.todos@[w]@ == self.selected_todo.unwrap()@);
                        }
                        self.refilter_clamp();
                        Ok(())
                    },
                    Err(e) => Err(e),
                }
            },
        }
    }
}

/// A status toggled between done and pending: `Done` goes back to
/// `Pending`, anything else (pending or otherwise) becomes `Done`.
pub open spec fn toggled_status(s: Seq<char>) -> Seq<char> {
    if s == "Done"@ {
        "Pending"@
    } else {
        "Done"@
    }
}

impl App {
    /// Step the secondary cursor down the opened task's subtasks (no wrap;
    /// from nothing to the first subtask when there is one).
    pub fn subtask_next(&mut self)
        requires
            old(self).detail_ok(),
        ensures
            *final(self) == (App { subtask_selected: final(self).subtask_selected, ..*old(self) }),
            final(self).detail_ok(),
            old(self).selected_todo matches Some(t) ==> opt_view(final(self).subtask_selected)
                == (
                match opt_view(old(self).subtask_selected) {
                    Some(j) => if j + 1 < t.subtasks@.len() {
                        Option::<int>::Some(j + 1)
                    } else {
                        Option::<int>::Some(j)
                    },
                    None => if t.subtasks@.len() > 0 {
                        Option::<int>::Some(0)
                    } else {
                        Option::<int>::None
                    },
                }
            ),
            (old(self).selected_todo is None) ==> *final(self) == *old(self),
    {
        match &self.selected_todo {
            Some(t) => {
                match self.subtask_selected {
                    Some(j) => {
                        let n = t.subtasks.len();
                        proof {
                            assert((j as int) < n as int);
                        }
                        if j + 1 < n {
                            self.subtask_selected = Some(j + 1);
                        }
                    },
                    None => {
                        if t.subtasks.len() > 0 {
                            self.subtask_selected = Some(0);
                        }
                    },
                }
            },
            None => {},
        }
        proof {
            if old(self).selected_todo is Some {
                let t0w = old(self).selected_todo.unwrap();
                let w = choose|i: int| 0 <= i < old(self).todos@.len()
                    && #[trigger] old(self).todos@[i]@ == t0w@;
                assert(self.todos@[w]@ == t0w@);
            }
        }
    }


    /// Step the secondary cursor up the opened task's subtasks (no wrap).
    pub fn subtask_previous(&mut self)
        requires
            old(self).detail_ok(),
        ensures
            *final(self) == (App { subtask_selected: final(self).subtask_selected, ..*old(self) }),
            final(self).detail_ok(),
            opt_view(final(self).subtask_selected) == (
                match opt_view(old(self).subtask_selected) {
                    Some(j) => if j > 0 {
                        Option::<int>::Some(j - 1)
                    } else {
                        Option::<int>::Some(j)
                    },
                    None => Option::<int>::None,
                }
            ),
    {
        match self.subtask_selected {
            Some(j) => {
                if j > 0 {
                    self.subtask_selected = Some(j - 1);
                }
            },
            None => {},
        }
        proof {
            if old(self).selected_todo is Some {
                let t0w = old(self).selected_todo.unwrap();
                let w = choose|i: int| 0 <= i < old(self).todos@.len()
                    && #[trigger] old(self).todos@[i]@ == t0w@;
                assert(self.todos@[w]@ == t0w@);
            }
        }
    }

    /// Enter the notes-editing sub-mode: the notes buffer is loaded from
    /// the opened task and takes the focus.
    pub fn begin_notes_edit(&mut self)
        requires
            old(self).detail_ok(),
            old(self).modal is DetailView,
        ensures
            *final(self) == (App {
                notes_input: final(self).notes_input,
                editing_notes: final(self).editing_notes,
                ..*old(self)
            }),
            final(self).detail_ok(),
            final(self).editing_notes,
            old(self).selected_todo matches Some(t) ==> final(self).notes_input@.value == t@.notes,
    {
        let notes: Vec<char> = match &self.selected_todo {
            Some(t) => crate::models::string_to_chars(t.notes.as_str()),
            None => {
                proof {
                    assert(false);
                }
                Vec::new()
            },
        };
        let n = notes.len();
        self.notes_input.value = notes;
        self.notes_input.cursor_position = n;
        self.notes_input.active = true;
        self.editing_notes = true;
        proof {
            if old(self).selected_todo is Some {
                let t0w = old(self).selected_todo.unwrap();
                let w = choose|i: int| 0 <= i < old(self).todos@.len()
                    && #[trigger] old(self).todos@[i]@ == t0w@;
                assert(self.todos@[w]@ == t0w@);
            }
        }
    }

    /// Leave the notes-editing sub-mode, committing the buffer into the
    /// opened task and its cache entry (notes live only in memory), and
    /// re-derive the filter, which searches notes too.
    pub fn commit_notes_edit(&mut self, Ghost(m): Ghost<StoreModel>)
        requires
            old(self).wf(m),
            old(self).modal is DetailView,
            old(self).editing_notes,
        ensures
            final(self).wf(m),
            final(self).modal == old(self).modal,
            final(self).input_mode == old(self).input_mode,
            final(self).fuzzy_search.input == old(self).fuzzy_search.input,
            !final(self).editing_notes,
            final(self).selected_todo matches Some(t2)
                && t2@.notes == old(self).notes_input@.value,
            final(self).subtask_selected == old(self).subtask_selected,
    {
        let text = self.notes_input.text();
        self.notes_input.unfocus();
        self.editing_notes = false;
        let ghost t0 = old(self).selected_todo.unwrap();
        let ghost w = choose|i: int| 0 <= i < old(self).todos@.len()
            && #[trigger] old(self).todos@[i]@ == t0@;
        let mut t2: Todo = match &self.selected_todo {
            Some(t) => t.clone(),
            None => {
                proof {
                    assert(false);
                }
                return;
            },
        };
        let tid = t2.id;
        t2.notes = text.clone();
        proof {
            assert(crate::models::subtask_views(t2.subtasks@).len()
                == crate::models::subtask_views(t0.subtasks@).len());
        }
        let mut i: usize = 0;
        while i < self.todos.len()
            invariant
                i <= self.todos@.len(),
                self.todos@.len() == old(self).todos@.len(),
                forall|k: int| 0 <= k < i ==> (#[trigger] self.todos@[k])@ == (
                    if old(self).todos@[k]@.id == tid as int {
                        TodoView { notes: text@, ..old(self).todos@[k]@ }
                    } else {
                        old(self).todos@[k]@
                    }
                ),
                forall|k: int| i <= k < self.todos@.len()
                    ==> #[trigger] self.todos@[k] == old(self).todos@[k],
                self.selected_todo == old(self).selected_todo,
                self.subtask_selected == old(self).subtask_selected,
                self.modal == old(self).modal,
                self.input_mode == old(self).input_mode,
                self.fuzzy_search == old(self).fuzzy_search,
                self.filtered_indices == old(self).filtered_indices,
                self.selected == old(self).selected,
                !self.editing_notes,
                self.notes_input.wf(),
                !self.notes_input@.active,
                old(self).selected_todo is Some,
                text@ == old(self).notes_input@.value,
                tid as int == old(self).selected_todo.unwrap()@.id,
            decreases self.todos@.len() - i,
        {
            if self.todos[i].id == tid {
                let mut t = self.todos[i].clone();
                t.notes = text.clone();
                self.todos.set(i, t);
            }
            i = i + 1;
        }
        self.selected_todo = Some(t2);
        proof {
            assert forall|k: int| 0 <= k < self.todos@.len()
                implies eq_except_notes((#[trigger] self.todos@[k])@, listed(m)[k]) by {
                assert(eq_except_notes(old(self).todos@[k]@, listed(m)[k]));
            }
            assert(self.todos@[w]@ == self.selected_todo.unwrap()@);
        }
        self.refilter_clamp();
    }

    /// Toggle the selected subtask between done and pending, writing the
    /// store first (Pattern B). With no subtask selected this is a no-op.
    pub fn toggle_selected_subtask(&mut self, db: &mut DBtodo) -> (r: Result<(), TodoError>)
        requires
            old(db).wf(),
            old(self).wf(old(db)@),
        ensures
            final(db).wf(),
            final(self).wf(final(db)@),
            final(self).modal == old(self).modal,
            final(self).input_mode == old(self).input_mode,
            final(self).fuzzy_search.input == old(self).fuzzy_search.input,
            final(self).editing_notes == old(self).editing_notes,
            (old(self).subtask_selected is None) ==> *final(self) == *old(self) && final(db)@
                == old(db)@ && (r is Ok),
            old(self).subtask_selected matches Some(j) ==> ((r is Ok) ==> (
                old(self).selected_todo matches Some(t)
                    && final(db)@ == crate::store::set_sub_status_effect(
                        old(db)@,
                        t@.id,
                        t.subtasks@[j as int]@.subtask_id,
                        toggled_status(t.subtasks@[j as int]@.status),
                    )
            )),
            r matches Err(e) ==> final(db)@ == old(db)@ && *final(self) == *old(self)
                && ((e is NotFound) || (e is Store)),
    {
        match self.subtask_selected {
            None => Ok(()),
            Some(j) => {
                let (tid, sid, done): (usize, usize, bool) = match &self.selected_todo {
                    Some(t) => {
                        let s = &t.subtasks[j];
                        (t.id, s.subtask_id, crate::text::string_eq(&s.status, "Done"))
                    },
                    None => {
                        proof {
                            assert(false);
                        }
                        (0, 0, false)
                    },
                };
                let new_status: String = if done {
                    "Pending".to_owned()
                } else {
                    "Done".to_owned()
                };
                self.change_subtask_status(db, tid, sid, new_status)
            },
        }
    }
}

/// Where one key event takes the modal state machine: searching commits or
/// cancels back to browsing, browsing opens exactly one overlay, and every
/// overlay closes back to browsing; an overlay that needs a selection opens
/// only when one exists.
pub open spec fn modal_step(m: Modal, key: Key, editing: bool, can_open: bool, has_tasks: bool) -> Modal {
    match m {
        Modal::Searching => match key {
            Key::Enter => Modal::Browsing,
            Key::Esc => Modal::Browsing,
            _ => Modal::Searching,
        },
        Modal::Browsing => match key {
            Key::Char(c) => if c == 'i' {
                Modal::Searching
            } else if c == 'l' {
                if can_open {
                    Modal::DetailView
                } else {
                    Modal::Browsing
                }
            } else if c == 'P' {
                if can_open {
                    Modal::PriorityChange
                } else {
                    Modal::Browsing
                }
            } else if c == '\\' {
                Modal::MainMenu
            } else if c == 'x' {
                if has_tasks {
                    Modal::DeleteConfirm
                } else {
                    Modal::Browsing
                }
            } else {
                Modal::Browsing
            },
            Key::Enter => if can_open {
                Modal::DetailView
            } else {
                Modal::Browsing
            },
            Key::Delete => if has_tasks {
                Modal::DeleteConfirm
            } else {
                Modal::Browsing
            },
            _ => Modal::Browsing,
        },
        Modal::DetailView => if editing {
            Modal::DetailView
        } else {
            match key {
                Key::Enter => Modal::Browsing,
                Key::Esc => Modal::Browsing,
                Key::Char(c) => if c == 'l' || c == 'h' {
                    Modal::Browsing
                } else {
                    Modal::DetailView
                },
                _ => Modal::DetailView,
            }
        },
        Modal::DeleteConfirm => match key {
            Key::Enter => Modal::Browsing,
            Key::Char(c) => if c == 'y' || c == 'n' || c == 'l' {
                Modal::Browsing
            } else {
                Modal::DeleteConfirm
            },
            _ => Modal::DeleteConfirm,
        },
        Modal::PriorityChange => match key {
            Key::Enter => Modal::Browsing,
            Key::Esc => Modal::Browsing,
            Key::Char(c) => if c == 'L' || c == 'M' || c == 'H' || c == 'l' || c == 'h' {
                Modal::Browsing
            } else {
                Modal::PriorityChange
            },
            _ => Modal::PriorityChange,
        },
        Modal::MainMenu => match key {
            Key::Enter => Modal::Browsing,
            Key::Esc => Modal::Browsing,
            Key::Char(c) => if c == 'l' || c == 'h' || c == '\\' {
                Modal::Browsing
            } else {
                Modal::MainMenu
            },
            _ => Modal::MainMenu,
        },
    }
}

/// Whether one key event quits: `q`, anywhere but inside the query input or
/// the notes editor.
pub open spec fn quit_key(m: Modal, editing: bool, key: Key) -> bool {
    &&& key == Key::Char('q')
    &&& !(m is Searching)
    &&& !((m is DetailView) && editing)
}

impl App {
    /// Set the selected task's status (Pattern A through the selection);
    /// with nothing selected this is a no-op.
    pub fn set_selected_status(&mut self, db: &mut DBtodo, status: &str) -> (r: Result<
        (),
        TodoError,
    >)
        requires
            old(db).wf(),
            old(self).wf(old(db)@),
            old(self).modal is Browsing,
        ensures
            final(db).wf(),
            final(self).wf(final(db)@),
            final(self).modal == old(self).modal,
            final(self).input_mode == old(self).input_mode,
            final(self).fuzzy_search.input == old(self).fuzzy_search.input,
            (old(self).selected is None) ==> *final(self) == *old(self) && final(db)@ == old(db)@
                && (r is Ok),
            old(self).selected matches Some(s) ==> ((r is Ok) ==> final(db)@
                == crate::store::set_status_effect(
                    old(db)@,
                    old(self).todos@[old(self).filtered_indices@[s as int] as int]@.id,
                    status@,
                )),
            r matches Err(e) ==> final(db)@ == old(db)@ && ((e is NotFound) || (e is Store)),
    {
        match self.selected {
            Some(s) => {
                proof {
                    lemma_matches_upto_bounds(
                        todo_views(self.todos@), self.query(), self.todos@.len() as int,
                    );
                    assert(idx_views(self.filtered_indices@)[s as int] == match_results(
                        todo_views(self.todos@), self.query(),
                    )[s as int]);
                    assert(self.filtered_indices@[s as int] as int == idx_views(
                        self.filtered_indices@,
                    )[s as int]);
                }
                let oi = self.filtered_indices[s];
                let id = self.todos[oi].id;
                self.change_todo_status(db, id, status.to_owned())
            },
            None => Ok(()),
        }
    }

    /// Route one key event through the modal state machine: exactly one
    /// interaction mode is active, each mode consumes its own keys, and
    /// every store-touching action keeps the cache synchronized. A store
    /// failure is reported and leaves state consistent; `q` quits from
    /// anywhere but a text input.
    pub fn handle_key(&mut self, db: &mut DBtodo, key: Key) -> (r: Result<Flow, TodoError>)
        requires
            old(db).wf(),
            old(self).wf(old(db)@),
        ensures
            final(db).wf(),
            final(self).wf(final(db)@),
            final(self).modal == modal_step(
                old(self).modal,
                key,
                old(self).editing_notes,
                old(self).selected is Some,
                old(self).todos@.len() > 0,
            ),
            r matches Ok(f) ==> ((f is Quit) <==> quit_key(
                old(self).modal, old(self).editing_notes, key,
            )),
            r matches Err(e) ==> ((e is NotFound) || (e is Store)),
            (old(self).modal is Browsing) && (key == Key::Down || key == Key::Char('j'))
                ==> opt_view(final(self).selected) == next_cursor(
                    opt_view(old(self).selected), old(self).filtered_indices@.len() as int,
                ),
            (old(self).modal is Browsing) && (key == Key::Up || key == Key::Char('k'))
                ==> opt_view(final(self).selected) == previous_cursor(
                    opt_view(old(self).selected), old(self).filtered_indices@.len() as int,
                ),
            (old(self).modal is Browsing) && (key == Key::Enter || key == Key::Char('l'))
                ==> (old(self).selected matches Some(s)
                    ==> (final(self).selected_todo matches Some(t)
                        && t@ == old(self).todos@[
                            old(self).filtered_indices@[s as int] as int
                        ]@
                        && (final(self).subtask_selected is None))),
            (old(self).modal is Searching) && !(key == Key::Enter) && !(key == Key::Esc)
                ==> final(self).fuzzy_search.input@ == crate::search::input_step(
                    old(self).fuzzy_search.input@, key,
                ).0 && final(self).todos@ == old(self).todos@,
            (old(self).modal is Searching) && key == Key::Enter
                ==> final(self).query() == old(self).query()
                    && final(self).todos@ == old(self).todos@
                    && final(self).selected == old(self).selected,
            (old(self).modal is Searching) && key == Key::Esc
                ==> final(self).query().len() == 0,
    {
        match self.modal {
            Modal::Searching => {
                match key {
                    Key::Enter => {
                        self.fuzzy_search.input.unfocus();
                        self.input_mode = InputMode::Normal;
                        self.modal = Modal::Browsing;
                        Ok(Flow::Continue)
                    },
                    Key::Esc => {
                        self.fuzzy_search.input.unfocus();
                        self.fuzzy_search.input.clear();
                        self.input_mode = InputMode::Normal;
                        self.modal = Modal::Browsing;
                        self.refilter_clamp();
                        Ok(Flow::Continue)
                    },
                    _ => {
                        self.handle_fuzzy_search(key);
                        Ok(Flow::Continue)
                    },
                }
            },
            Modal::DetailView => {
                if self.editing_notes {
                    match key {
                        Key::Esc => {
                            self.commit_notes_edit(Ghost(db@));
                            Ok(Flow::Continue)
                        },
                        _ => {
                            self.notes_input.handle_event(key);
                            Ok(Flow::Continue)
                        },
                    }
                } else {
                    match key {
                        Key::Char(c) => {
                            if c == 'q' {
                                Ok(Flow::Quit)
                            } else if c == 'l' || c == 'h' {
                                self.close_modal();
                                Ok(Flow::Continue)
                            } else if c == 'n' {
                                self.begin_notes_edit();
                                Ok(Flow::Continue)
                            } else if c == 'j' {
                                self.subtask_next();
                                Ok(Flow::Continue)
                            } else if c == 'k' {
                                self.subtask_previous();
                                Ok(Flow::Continue)
                            } else if c == ' ' || c == 'd' {
                                match self.toggle_selected_subtask(db) {
                                    Ok(()) => Ok(Flow::Continue),
                                    Err(e) => Err(e),
                                }
                            } else if c == 'x' {
                                match self.delete_current_subtask(db) {
                                    Ok(()) => Ok(Flow::Continue),
                                    Err(e) => Err(e),
                                }
                            } else {
                                Ok(Flow::Continue)
                            }
                        },
                        Key::Enter => {
                            self.close_modal();
                            Ok(Flow::Continue)
                        },
                        Key::Esc => {
                            self.close_modal();
                            Ok(Flow::Continue)
                        },
                        Key::Down => {
                            self.subtask_next();
                            Ok(Flow::Continue)
                        },
                        Key::Up => {
                            self.subtask_previous();
                            Ok(Flow::Continue)
                        },
                        Key::Delete => {
                            match self.delete_current_subtask(db) {
                                Ok(()) => Ok(Flow::Continue),
                                Err(e) => Err(e),
                            }
                        },
                        _ => Ok(Flow::Continue),
                    }
                }
            },
            Modal::DeleteConfirm => {
                match key {
                    Key::Char(c) => {
                        if c == 'q' {
                            Ok(Flow::Quit)
                        } else if c == 'y' {
                            self.modal = Modal::Browsing;
                            match self.delete_current_todo(db) {
                                Ok(()) => Ok(Flow::Continue),
                                Err(e) => Err(e),
                            }
                        } else if c == 'n' {
                            self.modal = Modal::Browsing;
                            Ok(Flow::Continue)
                        } else if c == 'l' {
                            self.close_modal();
                            Ok(Flow::Continue)
                        } else {
                            Ok(Flow::Continue)
                        }
                    },
                    Key::Enter => {
                        self.close_modal();
                        Ok(Flow::Continue)
                    },
                    _ => Ok(Flow::Continue),
                }
            },
            Modal::PriorityChange => {
                match key {
                    Key::Char(c) => {
                        if c == 'q' {
                            Ok(Flow::Quit)
                        } else if c == 'L' {
                            match self.handle_priority_change(db, "Low") {
                                Ok(()) => Ok(Flow::Continue),
                                Err(e) => Err(e),
                            }
                        } else if c == 'M' {
                            match self.handle_priority_change(db, "Medium") {
                                Ok(()) => Ok(Flow::Continue),
                                Err(e) => Err(e),
                            }
                        } else if c == 'H' {
                            match self.handle_priority_change(db, "High") {
                                Ok(()) => Ok(Flow::Continue),
                                Err(e) => Err(e),
                            }
                        } else if c == 'l' || c == 'h' {
                            self.close_modal();
                            Ok(Flow::Continue)
                        } else {
                            Ok(Flow::Continue)
                        }
                    },
                    Key::Enter => {
                        self.close_modal();
                        Ok(Flow::Continue)
                    },
                    Key::Esc => {
                        self.close_modal();
                        Ok(Flow::Continue)
                    },
                    _ => Ok(Flow::Continue),
                }
            },
            Modal::MainMenu => {
                match key {
                    Key::Char(c) => {
                        if c == 'q' {
                            Ok(Flow::Quit)
                        } else if c == 'l' || c == 'h' || c == '\\' {
                            self.close_modal();
                            Ok(Flow::Continue)
                        } else {
                            Ok(Flow::Continue)
                        }
                    },
                    Key::Enter => {
                        self.close_modal();
                        Ok(Flow::Continue)
                    },
                    Key::Esc => {
                        self.close_modal();
                        Ok(Flow::Continue)
                    },
                    _ => Ok(Flow::Continue),
                }
            },
            Modal::Browsing => {
                match key {
                    Key::Char(c) => {
                        if c == 'q' {
                            Ok(Flow::Quit)
                        } else if c == 'i' {
                            self.fuzzy_search.input.focus();
                            self.input_mode = InputMode::Search;
                            self.modal = Modal::Searching;
                            Ok(Flow::Continue)
                        } else if c == 'j' {
                            self.next();
                            Ok(Flow::Continue)
                        } else if c == 'k' {
                            self.previous();
                            Ok(Flow::Continue)
                        } else if c == 'l' {
                            self.select_current();
                            Ok(Flow::Continue)
                        } else if c == 'd' {
                            match self.set_selected_status(db, "Done") {
                                Ok(()) => Ok(Flow::Continue),
                                Err(e) => Err(e),
                            }
                        } else if c == 'o' {
                            match self.set_selected_status(db, "Ongoing") {
                                Ok(()) => Ok(Flow::Continue),
                                Err(e) => Err(e),
                            }
                        } else if c == 'p' {
                            match self.set_selected_status(db, "Pending") {
                                Ok(()) => Ok(Flow::Continue),
                                Err(e) => Err(e),
                            }
                        } else if c == 'P' {
                            if self.selected.is_some() {
                                self.modal = Modal::PriorityChange;
                            }
                            Ok(Flow::Continue)
                        } else if c == '\\' {
                            self.modal = Modal::MainMenu;
                            Ok(Flow::Continue)
                        } else if c == 'x' {
                            if self.todos.len() > 0 {
                                self.modal = Modal::DeleteConfirm;
                            }
                            Ok(Flow::Continue)
                        } else {
                            Ok(Flow::Continue)
                        }
                    },
                    Key::Down => {
                        self.next();
                        Ok(Flow::Continue)
                    },
                    Key::Up => {
                        self.previous();
                        Ok(Flow::Continue)
                    },
                    Key::Enter => {
                        self.select_current();
                        Ok(Flow::Continue)
                    },
                    Key::Delete => {
                        if self.todos.len() > 0 {
                            self.modal = Modal::DeleteConfirm;
                        }
                        Ok(Flow::Continue)
                    },
                    _ => Ok(Flow::Continue),
                }
            },
        }
    }
}

} // verus!
