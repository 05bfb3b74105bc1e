//! The incremental fuzzy-filter engine and the text-input field that feeds
//! it: a search blob is built from every field of a task, the skim matcher
//! decides whether the live query matches it, and the matching indices keep
//! their original order.
use vstd::prelude::*;

use fuzzy_matcher::FuzzyMatcher;

use crate::models::{Todo, TodoView, SubtaskView, chars_to_string};
use crate::store::todo_views;
use crate::text::dec_str;

verus! {

/// A key event, as the controller reads it; the terminal layer translates
/// its own event type into this one.
#[derive(Clone, Copy, Debug)]
pub enum Key {
    Char(char),
    Enter,
    Esc,
    Up,
    Down,
    Left,
    Right,
    Backspace,
    Delete,
    Home,
    End,
}

// ---------------------------------------------------------------------------
// The search blob and the match results.
// ---------------------------------------------------------------------------

/// One subtask's contribution to the search blob.
pub open spec fn sub_blob(s: SubtaskView) -> Seq<char> {
    s.text + " "@ + s.status + " "@
}

/// The subtasks' contribution to the search blob, in order.
pub open spec fn subs_blob(subs: Seq<SubtaskView>) -> Seq<char>
    decreases subs.len(),
{
    if subs.len() == 0 {
        Seq::empty()
    } else {
        subs_blob(subs.drop_last()) + sub_blob(subs.last())
    }
}

/// The search blob of a task: every searchable field, space-separated, the
/// id rendered in decimal, the subtasks' texts and statuses at the end.
pub open spec fn blob(t: TodoView) -> Seq<char> {
    dec_str(t.id) + " "@ + t.priority + " "@ + t.topic + " "@ + t.text + " "@ + t.status + " "@
        + t.owner + " "@ + t.notes + " "@ + t.due + " "@ + subs_blob(t.subtasks)
}

/// What the skim matcher decides for a text and a pattern; the decision
/// depends on the two texts alone.
pub uninterp spec fn fuzzy_matched(text: Seq<char>, pattern: Seq<char>) -> bool;

/// Relies on `fuzzy_matcher::skim::SkimMatcherV2` (default configuration)
/// and `FuzzyMatcher::fuzzy_match`: whether the pattern fuzzy-matches the
/// text; a deterministic function of the two texts.
#[verifier::external_body]
fn fuzzy_match_exec(text: &str, pattern: &str) -> (r: bool)
    ensures
        r == fuzzy_matched(text@, pattern@),
{
    fuzzy_matcher::skim::SkimMatcherV2::default().fuzzy_match(text, pattern).is_some()
}

/// The match results over the first `n` tasks: the index of every task kept
/// by the filter, in original order. An empty query keeps everything.
pub open spec fn matches_upto(ts: Seq<TodoView>, q: Seq<char>, n: int) -> Seq<int>
    decreases n,
{
    if n <= 0 {
        Seq::empty()
    } else {
        let p = matches_upto(ts, q, n - 1);
        if q.len() == 0 || fuzzy_matched(blob(ts[n - 1]), q) {
            p.push(n - 1)
        } else {
            p
        }
    }
}

/// The match results of a query over a task list.
pub open spec fn match_results(ts: Seq<TodoView>, q: Seq<char>) -> Seq<int> {
    matches_upto(ts, q, ts.len() as int)
}

/// The ints a list of indices denotes.
pub open spec fn idx_views(v: Seq<usize>) -> Seq<int> {
    v.map_values(|u: usize| u as int)
}

/// Match results are strictly increasing positions into the task list.
pub proof fn lemma_matches_upto_bounds(ts: Seq<TodoView>, q: Seq<char>, n: int)
    requires
        n <= ts.len(),
    ensures
        forall|k: int| 0 <= k < matches_upto(ts, q, n).len()
            ==> 0 <= #[trigger] matches_upto(ts, q, n)[k] < n,
        forall|k: int, l: int|
            #![trigger matches_upto(ts, q, n)[k], matches_upto(ts, q, n)[l]]
            0 <= k < l < matches_upto(ts, q, n).len()
            ==> matches_upto(ts, q, n)[k] < matches_upto(ts, q, n)[l],
    decreases n,
{
    if n > 0 {
        lemma_matches_upto_bounds(ts, q, n - 1);
        let p = matches_upto(ts, q, n - 1);
        let cur = matches_upto(ts, q, n);
        if q.len() == 0 || fuzzy_matched(blob(ts[n - 1]), q) {
            assert(cur == p.push(n - 1));
            assert forall|k: int| 0 <= k < cur.len() implies 0 <= #[trigger] cur[k] < n by {
                if k < p.len() {
                    assert(cur[k] == p[k]);
                }
            }
            assert forall|k: int, l: int|
                #![trigger cur[k], cur[l]]
                0 <= k < l < cur.len() implies cur[k] < cur[l] by {
                assert(cur[k] == p[k]);
                if l < p.len() {
                    assert(cur[l] == p[l]);
                }
            }
        } else {
            assert(cur == p);
        }
    }
}

/// Build the search blob of one task.
pub fn build_blob(t: &Todo) -> (r: String)
    ensures
        r@ == blob(t@),
{
    let mut s = crate::text::usize_to_string(t.id);
    s.append(" ");
    s.append(t.priority.as_str());
    s.append(" ");
    s.append(t.topic.as_str());
    s.append(" ");
    s.append(t.text.as_str());
    s.append(" ");
    s.append(t.status.as_str());
    s.append(" ");
    s.append(t.owner.as_str());
    s.append(" ");
    s.append(t.notes.as_str());
    s.append(" ");
    s.append(t.due.as_str());
    s.append(" ");
    let ghost prefix = s@;
    let mut k: usize = 0;
    while k < t.subtasks.len()
        invariant
            k <= t.subtasks.len(),
            s@ == prefix + subs_blob(crate::models::subtask_views(t.subtasks@).take(k as int)),
        decreases t.subtasks.len() - k,
    {
        s.append(t.subtasks[k].text.as_str());
        s.append(" ");
        s.append(t.subtasks[k].status.as_str());
        s.append(" ");
        proof {
            let subs = crate::models::subtask_views(t.subtasks@);
            assert(subs.take(k as int + 1).drop_last() =~= subs.take(k as int));
            assert(subs.take(k as int + 1).last() == subs[k as int]);
            assert(subs[k as int] == t.subtasks@[k as int]@);
            assert(s@ =~= prefix + subs_blob(subs.take(k as int + 1)));
        }
        k = k + 1;
    }
    proof {
        let subs = crate::models::subtask_views(t.subtasks@);
        assert(subs.take(t.subtasks@.len() as int) =~= subs);
        assert(s@ =~= blob(t@));
    }
    s
}

// ---------------------------------------------------------------------------
// The input field.
// ---------------------------------------------------------------------------

/// A line of text under edit, with a char cursor; multiline fields route
/// vertical navigation and Enter to the text itself.
pub struct InputField {
    pub value: Vec<char>,
    pub cursor_position: usize,
    pub active: bool,
    pub title: String,
    pub multiline: bool,
}

/// Mathematical image of an `InputField`.
#[verifier::ext_equal]
pub struct InputView {
    pub value: Seq<char>,
    pub cursor: int,
    pub active: bool,
    pub title: Seq<char>,
    pub multiline: bool,
}

impl View for InputField {
    type V = InputView;

    open spec fn view(&self) -> InputView {
        InputView {
            value: self.value@,
            cursor: self.cursor_position as int,
            active: self.active,
            title: self.title@,
            multiline: self.multiline,
        }
    }
}

/// The start of the line a position is on: 0, or just past the break
/// before it.
pub open spec fn line_start_of(v: Seq<char>, pos: int) -> int
    decreases pos,
{
    if pos <= 0 {
        0
    } else if v[pos - 1] == '\n' {
        pos
    } else {
        line_start_of(v, pos - 1)
    }
}

/// The end of the line a position is on: the next break, or the end of the
/// text.
pub open spec fn line_end_of(v: Seq<char>, pos: int) -> int
    decreases v.len() - pos,
{
    if pos >= v.len() {
        v.len() as int
    } else if v[pos] == '\n' {
        pos
    } else {
        line_end_of(v, pos + 1)
    }
}

/// Where one key event takes the field, and whether it was handled: the
/// routing of every key an active field consumes, on the view alone.
pub open spec fn input_step(f: InputView, key: Key) -> (InputView, bool) {
    if !f.active {
        (f, false)
    } else {
        match key {
            Key::Char(c) => (
                InputView { value: f.value.insert(f.cursor, c), cursor: f.cursor + 1, ..f },
                true,
            ),
            Key::Backspace => if f.cursor > 0 {
                (
                    InputView { value: f.value.remove(f.cursor - 1), cursor: f.cursor - 1, ..f },
                    true,
                )
            } else {
                (f, false)
            },
            Key::Left => if f.cursor > 0 {
                (InputView { cursor: f.cursor - 1, ..f }, true)
            } else {
                (f, false)
            },
            Key::Right => if f.cursor < f.value.len() {
                (InputView { cursor: f.cursor + 1, ..f }, true)
            } else {
                (f, false)
            },
            Key::Delete => if f.cursor < f.value.len() {
                (InputView { value: f.value.remove(f.cursor), ..f }, true)
            } else {
                (f, false)
            },
            Key::Home => if f.multiline {
                (InputView { cursor: line_start_of(f.value, f.cursor), ..f }, true)
            } else {
                (InputView { cursor: 0, ..f }, true)
            },
            Key::End => if f.multiline {
                (InputView { cursor: line_end_of(f.value, f.cursor), ..f }, true)
            } else {
                (InputView { cursor: f.value.len() as int, ..f }, true)
            },
            Key::Enter => if f.multiline {
                (
                    InputView { value: f.value.insert(f.cursor, '\n'), cursor: f.cursor + 1, ..f },
                    true,
                )
            } else {
                (f, true)
            },
            Key::Up => if f.multiline && line_start_of(f.value, f.cursor) > 0 {
                (InputView { cursor: up_position(f.value, f.cursor), ..f }, true)
            } else {
                (f, false)
            },
            Key::Down => if f.multiline {
                (InputView { cursor: down_position(f.value, f.cursor), ..f }, true)
            } else {
                (f, false)
            },
            Key::Esc => (InputView { active: false, ..f }, true),
        }
    }
}

/// The position one line up, the column clamped to that line's length.
pub open spec fn up_position(v: Seq<char>, pos: int) -> int {
    let start = line_start_of(v, pos);
    let col = pos - start;
    let prev_start = line_start_of(v, start - 1);
    let prev_len = (start - 1) - prev_start;
    prev_start + (if col <= prev_len { col } else { prev_len })
}

/// The position one line down (unchanged on the last line), the column
/// clamped to that line's length.
pub open spec fn down_position(v: Seq<char>, pos: int) -> int {
    let start = line_start_of(v, pos);
    let col = pos - start;
    let end = line_end_of(v, pos);
    if end >= v.len() {
        pos
    } else {
        let next_start = end + 1;
        let next_end = line_end_of(v, next_start);
        let next_len = next_end - next_start;
        next_start + (if col <= next_len { col } else { next_len })
    }
}

impl InputField {
    /// A cursor that sits inside the text.
    pub open spec fn wf(&self) -> bool {
        self.cursor_position <= self.value@.len()
    }

    /// A fresh, inactive, single-line field.
    pub fn new(title: &str) -> (r: InputField)
        ensures
            r@.value == Seq::<char>::empty(),
            r@.cursor == 0,
            r@.active == false,
            r@.title == title@,
            r@.multiline == false,
            r.wf(),
    {
        InputField {
            value: Vec::new(),
            cursor_position: 0,
            active: false,
            title: title.to_owned(),
            multiline: false,
        }
    }

    /// A fresh, inactive, multiline field.
    pub fn new_multiline(title: &str) -> (r: InputField)
        ensures
            r@.value == Seq::<char>::empty(),
            r@.cursor == 0,
            r@.active == false,
            r@.title == title@,
            r@.multiline == true,
            r.wf(),
    {
        InputField {
            value: Vec::new(),
            cursor_position: 0,
            active: false,
            title: title.to_owned(),
            multiline: true,
        }
    }

    /// Give the field focus, the cursor at the end of the text.
    pub fn focus(&mut self)
        ensures
            final(self)@ == (InputView {
                active: true,
                cursor: old(self)@.value.len() as int,
                ..old(self)@
            }),
            final(self).wf(),
    {
        self.active = true;
        self.cursor_position = self.value.len();
    }

    /// Take the focus away; text and cursor stay.
    pub fn unfocus(&mut self)
        ensures
            final(self)@ == (InputView { active: false, ..old(self)@ }),
    {
        self.active = false;
    }

    /// Set the focus directly.
    pub fn set_active(&mut self, active: bool)
        ensures
            final(self)@ == (InputView { active, ..old(self)@ }),
    {
        self.active = active;
    }

    /// Empty the field and reset the cursor.
    pub fn clear(&mut self)
        ensures
            final(self)@ == (InputView {
                value: Seq::<char>::empty(),
                cursor: 0,
                ..old(self)@
            }),
            final(self).wf(),
    {
        self.value = Vec::new();
        self.cursor_position = 0;
    }

    /// The text as a string.
    pub fn text(&self) -> (r: String)
        ensures
            r@ == self@.value,
    {
        chars_to_string(&self.value)
    }

    /// The line the cursor is on, and its column there.
    pub fn cursor_line_col(&self) -> (r: (usize, usize))
        requires
            self.wf(),
        ensures
            r.0 as int == line_start_lines(self@.value, self@.cursor),
            r.1 as int == self@.cursor - line_start_of(self@.value, self@.cursor),
    {
        let start = self.line_start(self.cursor_position);
        let mut lines: usize = 0;
        let mut k: usize = 0;
        while k < self.cursor_position
            invariant
                k <= self.cursor_position <= self.value@.len(),
                lines as int == count_newlines(self.value@.take(k as int)),
                lines <= k,
            decreases self.cursor_position - k,
        {
            proof {
                assert(self.value@.take(k as int + 1).drop_last() =~= self.value@.take(k as int));
                assert(self.value@.take(k as int + 1).last() == self.value@[k as int]);
            }
            if self.value[k] == '\n' {
                lines = lines + 1;
            }
            k = k + 1;
        }
        (lines, self.cursor_position - start)
    }

    /// The start of the line the position is on.
    fn line_start(&self, pos: usize) -> (r: usize)
        requires
            self.wf(),
            pos <= self.value@.len(),
        ensures
            r as int == line_start_of(self@.value, pos as int),
            r <= pos,
    {
        let mut k: usize = pos;
        while k > 0 && self.value[k - 1] != '\n'
            invariant
                0 <= k <= pos <= self.value@.len(),
                line_start_of(self@.value, pos as int) == line_start_of(self@.value, k as int),
            decreases k,
        {
            k = k - 1;
        }
        k
    }

    /// The end of the line the position is on.
    fn line_end(&self, pos: usize) -> (r: usize)
        requires
            self.wf(),
            pos <= self.value@.len(),
        ensures
            r as int == line_end_of(self@.value, pos as int),
            pos <= r <= self.value@.len(),
    {
        let mut k: usize = pos;
        while k < self.value.len() && self.value[k] != '\n'
            invariant
                pos <= k <= self.value@.len(),
                line_end_of(self@.value, pos as int) == line_end_of(self@.value, k as int),
            decreases self.value@.len() - k,
        {
            k = k + 1;
        }
        k
    }

    /// Route one key event: insertion, deletion, cursor movement, focus
    /// loss; reports whether the field consumed the event. An inactive
    /// field consumes nothing.
    pub fn handle_event(&mut self, key: Key) -> (r: bool)
        requires
            old(self).wf(),
        ensures
            (final(self)@, r) == input_step(old(self)@, key),
            final(self).wf(),
    {
        if !self.active {
            return false;
        }
        match key {
            Key::Char(c) => {
                self.value.insert(self.cursor_position, c);
                if self.cursor_position < self.value.len() {
                    self.cursor_position = self.cursor_position + 1;
                }
                true
            },
            Key::Backspace => {
                if self.cursor_position > 0 {
                    self.cursor_position = self.cursor_position - 1;
                    self.value.remove(self.cursor_position);
                    true
                } else {
                    false
                }
            },
            Key::Left => {
                if self.cursor_position > 0 {
                    self.cursor_position = self.cursor_position - 1;
                    true
                } else {
                    false
                }
            },
            Key::Right => {
                if self.cursor_position < self.value.len() {
                    self.cursor_position = self.cursor_position + 1;
                    true
                } else {
                    false
                }
            },
            Key::Delete => {
                if self.cursor_position < self.value.len() {
                    self.value.remove(self.cursor_position);
                    true
                } else {
                    false
                }
            },
            Key::Home => {
                if self.multiline {
                    self.cursor_position = self.line_start(self.cursor_position);
                } else {
                    self.cursor_position = 0;
                }
                true
            },
            Key::End => {
                if self.multiline {
                    self.cursor_position = self.line_end(self.cursor_position);
                } else {
                    self.cursor_position = self.value.len();
                }
                true
            },
            Key::Enter => {
                if self.multiline {
                    self.value.insert(self.cursor_position, '\n');
                    if self.cursor_position < self.value.len() {
                        self.cursor_position = self.cursor_position + 1;
                    }
                }
                true
            },
            Key::Up => {
                if self.multiline {
                    let start = self.line_start(self.cursor_position);
                    if start > 0 {
                        let col = self.cursor_position - start;
                        let prev_start = self.line_start(start - 1);
                        let prev_len = (start - 1) - prev_start;
                        self.cursor_position = prev_start
                            + (if col <= prev_len { col } else { prev_len });
                        true
                    } else {
                        false
                    }
                } else {
                    false
                }
            },
            Key::Down => {
                if self.multiline {
                    let start = self.line_start(self.cursor_position);
                    let col = self.cursor_position - start;
                    let end = self.line_end(self.cursor_position);
                    if end < self.value.len() {
                        let next_start = end + 1;
                        let next_end = self.line_end(next_start);
                        let next_len = next_end - next_start;
                        self.cursor_position = next_start
                            + (if col <= next_len { col } else { next_len });
                    }
                    true
                } else {
                    false
                }
            },
            Key::Esc => {
                self.active = false;
                true
            },
        }
    }
}

/// The number of line breaks in a text.
pub open spec fn count_newlines(v: Seq<char>) -> int
    decreases v.len(),
{
    if v.len() == 0 {
        0
    } else {
        count_newlines(v.drop_last()) + (if v.last() == '\n' { 1int } else { 0int })
    }
}

/// The line a position is on, counted by the breaks before it.
pub open spec fn line_start_lines(v: Seq<char>, pos: int) -> int {
    count_newlines(v.take(pos))
}

// ---------------------------------------------------------------------------
// The live filter.
// ---------------------------------------------------------------------------

/// The live filter: the query field, the indices of the matching tasks in
/// original order, and which match is highlighted.
pub struct FuzzySearch {
    pub input: InputField,
    pub matched_indices: Vec<usize>,
    pub selected_match: usize,
}

/// Where one key event takes the match selection, and whether it moved:
/// vertical navigation walks the matches without wrapping.
pub open spec fn fuzzy_nav(sel: int, len: int, key: Key) -> (int, bool) {
    match key {
        Key::Down => if len > 0 {
            ((if sel + 1 < len { sel + 1 } else { len - 1 }), true)
        } else {
            (sel, false)
        },
        Key::Up => if len > 0 {
            ((if sel > 0 { sel - 1 } else { 0int }), true)
        } else {
            (sel, false)
        },
        _ => (sel, false),
    }
}

impl FuzzySearch {
    /// The filter agrees with the given tasks: the matches are exactly the
    /// query's match results, and the highlight sits inside them.
    pub open spec fn wf_for(&self, ts: Seq<TodoView>) -> bool {
        &&& idx_views(self.matched_indices@) == match_results(ts, self.input@.value)
        &&& self.input.wf()
        &&& self.matched_indices@.len() > 0 ==> (self.selected_match as int)
            < self.matched_indices@.len()
        &&& self.matched_indices@.len() == 0 ==> self.selected_match == 0
    }

    /// A fresh filter: empty query, no matches yet.
    pub fn new() -> (r: FuzzySearch)
        ensures
            r.input@.value == Seq::<char>::empty(),
            r.input@.active == false,
            r.input@.multiline == false,
            r.input.wf(),
            r.matched_indices@ == Seq::<usize>::empty(),
            r.selected_match == 0,
    {
        FuzzySearch {
            input: InputField::new("Search"),
            matched_indices: Vec::new(),
            selected_match: 0,
        }
    }

    /// The indices of the matching tasks, in original order.
    pub fn matched_indices(&self) -> (r: &Vec<usize>)
        ensures
            r@ == self.matched_indices@,
    {
        &self.matched_indices
    }

    /// Which match is highlighted.
    pub fn selected_match(&self) -> (r: usize)
        ensures
            r == self.selected_match,
    {
        self.selected_match
    }

    /// Recompute the matches for a task list: an empty query keeps every
    /// index; otherwise a task's index is kept exactly when the matcher
    /// accepts its blob. The highlight is clamped into the new matches.
    pub fn update_matches(&mut self, todos: &Vec<Todo>)
        requires
            old(self).input.wf(),
        ensures
            final(self).input == old(self).input,
            idx_views(final(self).matched_indices@) == match_results(
                todo_views(todos@), old(self).input@.value,
            ),
            final(self).selected_match as int == (
                if final(self).matched_indices@.len() == 0 {
                    0int
                } else if (old(self).selected_match as int) < final(self).matched_indices@.len() {
                    old(self).selected_match as int
                } else {
                    final(self).matched_indices@.len() - 1
                }
            ),
            final(self).wf_for(todo_views(todos@)),
    {
        let ghost ts = todo_views(todos@);
        let ghost q = self.input@.value;
        let mut matched: Vec<usize> = Vec::new();
        if self.input.value.len() == 0 {
            let mut i: usize = 0;
            while i < todos.len()
                invariant
                    i <= todos.len(),
                    q.len() == 0,
                    ts == todo_views(todos@),
                    idx_views(matched@) == matches_upto(ts, q, i as int),
                decreases todos.len() - i,
            {
                matched.push(i);
                proof {
                    assert(idx_views(matched@) =~= matches_upto(ts, q, i as int).push(i as int));
                }
                i = i + 1;
            }
        } else {
            let query = self.input.text();
            let mut i: usize = 0;
            while i < todos.len()
                invariant
                    i <= todos.len(),
                    query@ == q,
                    q.len() > 0,
                    ts == todo_views(todos@),
                    idx_views(matched@) == matches_upto(ts, q, i as int),
                decreases todos.len() - i,
            {
                proof {
                    assert(ts[i as int] == todos@[i as int]@);
                }
                let b = build_blob(&todos[i]);
                if fuzzy_match_exec(b.as_str(), query.as_str()) {
                    matched.push(i);
                    proof {
                        assert(idx_views(matched@) =~= matches_upto(ts, q, i as int).push(
                            i as int,
                        ));
                    }
                }
                i = i + 1;
            }
        }
        proof {
            assert(matches_upto(ts, q, todos@.len() as int) == match_results(ts, q));
        }
        self.matched_indices = matched;
        if self.matched_indices.len() == 0 {
            self.selected_match = 0;
        } else if self.selected_match >= self.matched_indices.len() {
            self.selected_match = self.matched_indices.len() - 1;
        }
    }

    /// Route one key event: an inactive filter consumes nothing; otherwise
    /// the query field takes it first, and vertical navigation moves the
    /// highlight through the matches.
    pub fn handle_event(&mut self, key: Key) -> (r: bool)
        requires
            old(self).input.wf(),
        ensures
            final(self).matched_indices@ == old(self).matched_indices@,
            final(self).input@ == input_step(old(self).input@, key).0,
            final(self).input.wf(),
            final(self).selected_match as int == (
                if old(self).input@.active {
                    fuzzy_nav(
                        old(self).selected_match as int,
                        old(self).matched_indices@.len() as int,
                        key,
                    ).0
                } else {
                    old(self).selected_match as int
                }
            ),
            r == (input_step(old(self).input@, key).1 || (old(self).input@.active && fuzzy_nav(
                old(self).selected_match as int,
                old(self).matched_indices@.len() as int,
                key,
            ).1)),
    {
        if !self.input.active {
            return false;
        }
        let input_handled = self.input.handle_event(key);
        let nav = match key {
            Key::Down => {
                if self.matched_indices.len() > 0 {
                    if self.selected_match < self.matched_indices.len() - 1 {
                        self.selected_match = self.selected_match + 1;
                    } else {
                        self.selected_match = self.matched_indices.len() - 1;
                    }
                    true
                } else {
                    false
                }
            },
            Key::Up => {
                if self.matched_indices.len() > 0 {
                    if self.selected_match > 0 {
                        self.selected_match = self.selected_match - 1;
                    }
                    true
                } else {
                    false
                }
            },
            _ => false,
        };
        input_handled || nav
    }
}

/// The index-map witness that one sequence occurs inside another, in order.
pub open spec fn subsequence_map_ok(a: Seq<int>, b: Seq<int>, f: Seq<int>) -> bool {
    &&& f.len() == a.len()
    &&& forall|k: int| 0 <= k < f.len() ==> 0 <= #[trigger] f[k] < b.len() && a[k] == b[f[k]]
    &&& forall|k: int, l: int| #![trigger f[k], f[l]] 0 <= k < l < f.len() ==> f[k] < f[l]
}

/// One sequence is a subsequence of another: its entries appear in the
/// other, in the same order.
pub open spec fn is_subsequence(a: Seq<int>, b: Seq<int>) -> bool {
    exists|f: Seq<int>| subsequence_map_ok(a, b, f)
}

proof fn lemma_empty_query_results(ts: Seq<TodoView>, q: Seq<char>, n: int)
    requires
        q.len() == 0,
        n >= 0,
    ensures
        matches_upto(ts, q, n).len() == n,
        forall|i: int| 0 <= i < n ==> #[trigger] matches_upto(ts, q, n)[i] == i,
    decreases n,
{
    if n > 0 {
        lemma_empty_query_results(ts, q, n - 1);
    }
}

/// Law of filtering: for every query and task list, the match results are a
/// subsequence of the empty query's match results (the identity mapping):
/// filtering only removes entries, it never reorders them.
pub proof fn lemma_match_results_subsequence(ts: Seq<TodoView>, q: Seq<char>)
    ensures
        is_subsequence(match_results(ts, q), match_results(ts, Seq::<char>::empty())),
{
    lemma_matches_upto_bounds(ts, q, ts.len() as int);
    lemma_empty_query_results(ts, Seq::<char>::empty(), ts.len() as int);
    let a = match_results(ts, q);
    let b = match_results(ts, Seq::<char>::empty());
    assert forall|k: int| 0 <= k < a.len() implies 0 <= #[trigger] a[k] < b.len()
        && a[k] == b[a[k]] by {
        assert(b[a[k]] == a[k]);
    }
    assert(subsequence_map_ok(a, b, a));
}

} // verus!
