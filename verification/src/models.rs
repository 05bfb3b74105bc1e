//! Data model: tasks, subtasks, the error kinds of the library, and the
//! text helpers (capitalization, decimal rendering) the controller relies on.
use vstd::prelude::*;

verus! {

/// A child checklist item owned by exactly one task.
#[derive(Debug)]
pub struct Subtask {
    pub todo_id: usize,
    pub subtask_id: usize,
    pub text: String,
    pub status: String,
}

/// Mathematical image of a `Subtask`.
#[verifier::ext_equal]
pub struct SubtaskView {
    pub todo_id: int,
    pub subtask_id: int,
    pub text: Seq<char>,
    pub status: Seq<char>,
}

impl View for Subtask {
    type V = SubtaskView;

    open spec fn view(&self) -> SubtaskView {
        SubtaskView {
            todo_id: self.todo_id as int,
            subtask_id: self.subtask_id as int,
            text: self.text@,
            status: self.status@,
        }
    }
}

impl Clone for Subtask {
    fn clone(&self) -> (r: Self)
        ensures
            r@ == self@,
    {
        Subtask {
            todo_id: self.todo_id,
            subtask_id: self.subtask_id,
            text: self.text.clone(),
            status: self.status.clone(),
        }
    }
}

/// The views of a sequence of subtasks, in order.
pub open spec fn subtask_views(s: Seq<Subtask>) -> Seq<SubtaskView> {
    s.map_values(|x: Subtask| x@)
}

/// A top-level to-do item with metadata and an ordered set of subtasks.
///
/// `notes` lives only in memory: the store's task table has no notes column,
/// so a freshly listed task always carries empty notes.
#[derive(Debug)]
pub struct Todo {
    pub id: usize,
    pub priority: String,
    pub topic: String,
    pub text: String,
    pub desc: String,
    pub date_added: String,
    pub status: String,
    pub owner: String,
    pub due: String,
    pub subtasks: Vec<Subtask>,
    pub notes: String,
}

/// Mathematical image of a `Todo`.
#[verifier::ext_equal]
pub struct TodoView {
    pub id: int,
    pub priority: Seq<char>,
    pub topic: Seq<char>,
    pub text: Seq<char>,
    pub desc: Seq<char>,
    pub date_added: Seq<char>,
    pub status: Seq<char>,
    pub owner: Seq<char>,
    pub due: Seq<char>,
    pub subtasks: Seq<SubtaskView>,
    pub notes: Seq<char>,
}

impl View for Todo {
    type V = TodoView;

    open spec fn view(&self) -> TodoView {
        TodoView {
            id: self.id as int,
            priority: self.priority@,
            topic: self.topic@,
            text: self.text@,
            desc: self.desc@,
            date_added: self.date_added@,
            status: self.status@,
            owner: self.owner@,
            due: self.due@,
            subtasks: subtask_views(self.subtasks@),
            notes: self.notes@,
        }
    }
}

impl Clone for Todo {
    fn clone(&self) -> (r: Self)
        ensures
            r@ == self@,
    {
        let mut subtasks: Vec<Subtask> = Vec::new();
        let mut i: usize = 0;
        while i < self.subtasks.len()
            invariant
                i <= self.subtasks.len(),
                subtasks.len() == i,
                forall|j: int| 0 <= j < i ==> subtasks@[j]@ == self.subtasks@[j]@,
            decreases self.subtasks.len() - i,
        {
            subtasks.push(self.subtasks[i].clone());
            i = i + 1;
        }
        proof {
            assert(subtask_views(subtasks@) =~= subtask_views(self.subtasks@));
        }
        let r = Todo {
            id: self.id,
            priority: self.priority.clone(),
            topic: self.topic.clone(),
            text: self.text.clone(),
            desc: self.desc.clone(),
            date_added: self.date_added.clone(),
            status: self.status.clone(),
            owner: self.owner.clone(),
            due: self.due.clone(),
            subtasks,
            notes: self.notes.clone(),
        };
        proof {
            assert(r@ == self@);
        }
        r
    }
}

/// The error kinds of the library, in the order a mutation can hit them:
/// a bad input is rejected before any store write, a missing target leaves
/// the store untouched, a store failure aborts before any cache change, and
/// a startup failure is fatal to the caller.
#[derive(Debug)]
pub enum TodoError {
    Validation(String),
    NotFound,
    Store(String),
    Startup(String),
}

impl TodoError {
    /// A user-facing message for each error kind.
    pub fn message(&self) -> (r: String)
        ensures
            self matches TodoError::Validation(m) ==> r@ == m@,
            (self is NotFound) ==> r@ == "not found"@,
            self matches TodoError::Store(m) ==> r@ == m@,
            self matches TodoError::Startup(m) ==> r@ == m@,
    {
        match self {
            TodoError::Validation(m) => m.clone(),
            TodoError::NotFound => "not found".to_owned(),
            TodoError::Store(m) => m.clone(),
            TodoError::Startup(m) => m.clone(),
        }
    }
}

/// Relies on `alloc::string::String::from_iter`: collecting chars yields the
/// string with exactly those chars.
#[verifier::external_body]
pub fn chars_to_string(v: &Vec<char>) -> (r: String)
    ensures
        r@ == v@,
{
    String::from_iter(v.iter().copied())
}

/// Relies on `core::iter::Iterator::collect` over `str::chars`: the chars of
/// a string, in order.
#[verifier::external_body]
pub fn string_to_chars(s: &str) -> (r: Vec<char>)
    ensures
        r@ == s@,
{
    s.chars().collect()
}

} // verus!
