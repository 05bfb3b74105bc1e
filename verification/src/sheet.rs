//! The tabular interchange mapping: one row per task, the nine fixed
//! columns first, then one overflow column per subtask. The spreadsheet
//! codecs themselves live in the terminal layer; this module computes the
//! cells they write and reads the cells they parse.
use vstd::prelude::*;

use crate::models::{Subtask, SubtaskView, Todo, TodoView, subtask_views};
use crate::tasks::str_views;
use crate::text::{dec_str, usize_to_string};

verus! {

/// The nine fixed column headers.
pub open spec fn fixed_headers() -> Seq<Seq<char>> {
    seq![
        "ID"@, "PRIORITY"@, "TOPIC"@, "TODO"@, "DESCRIPTION"@, "CREATED"@, "DUE DATE"@,
        "STATUS"@, "OWNER"@,
    ]
}

/// The header row of an export: the nine fixed columns, then one numbered
/// column per subtask slot.
pub fn export_headers(max_subtasks: usize) -> (r: Vec<String>)
    requires
        max_subtasks < usize::MAX - 9,
    ensures
        r@.len() == 9 + max_subtasks,
        forall|k: int| 0 <= k < 9 ==> (#[trigger] r@[k])@ == fixed_headers()[k],
        forall|k: int| 0 <= k < max_subtasks
            ==> (#[trigger] r@[9 + k])@ == "Subtask "@ + dec_str(k + 1),
{
    let mut r: Vec<String> = Vec::new();
    r.push("ID".to_owned());
    r.push("PRIORITY".to_owned());
    r.push("TOPIC".to_owned());
    r.push("TODO".to_owned());
    r.push("DESCRIPTION".to_owned());
    r.push("CREATED".to_owned());
    r.push("DUE DATE".to_owned());
    r.push("STATUS".to_owned());
    r.push("OWNER".to_owned());
    let mut k: usize = 0;
    while k < max_subtasks
        invariant
            k <= max_subtasks,
            max_subtasks < usize::MAX - 9,
            r@.len() == 9 + k,
            forall|j: int| 0 <= j < 9 ==> (#[trigger] r@[j])@ == fixed_headers()[j],
            forall|j: int| 0 <= j < k
                ==> (#[trigger] r@[9 + j])@ == "Subtask "@ + dec_str(j + 1),
        decreases max_subtasks - k,
    {
        let mut h = "Subtask ".to_owned();
        let num = usize_to_string(k + 1);
        h.append(num.as_str());
        r.push(h);
        k = k + 1;
    }
    r
}

/// The cell a due date exports as: a dash when it is empty.
pub open spec fn due_cell(due: Seq<char>) -> Seq<char> {
    if due.len() == 0 {
        "-"@
    } else {
        due
    }
}

/// One task as a spreadsheet row: the nine fixed cells, then one cell per
/// subtask text.
pub fn todo_to_cells(t: &Todo) -> (r: Vec<String>)
    ensures
        r@.len() == 9 + t@.subtasks.len(),
        r@[0]@ == dec_str(t@.id),
        r@[1]@ == t@.priority,
        r@[2]@ == t@.topic,
        r@[3]@ == t@.text,
        r@[4]@ == t@.desc,
        r@[5]@ == t@.date_added,
        r@[6]@ == due_cell(t@.due),
        r@[7]@ == t@.status,
        r@[8]@ == t@.owner,
        forall|k: int| 0 <= k < t@.subtasks.len()
            ==> (#[trigger] r@[9 + k])@ == t@.subtasks[k].text,
{
    let mut r: Vec<String> = Vec::new();
    r.push(usize_to_string(t.id));
    r.push(t.priority.clone());
    r.push(t.topic.clone());
    r.push(t.text.clone());
    r.push(t.desc.clone());
    r.push(t.date_added.clone());
    if t.due.as_str().is_empty() {
        r.push("-".to_owned());
    } else {
        r.push(t.due.clone());
    }
    r.push(t.status.clone());
    r.push(t.owner.clone());
    let mut k: usize = 0;
    while k < t.subtasks.len()
        invariant
            k <= t.subtasks@.len(),
            r@.len() == 9 + k,
            r@[0]@ == dec_str(t@.id),
            r@[1]@ == t@.priority,
            r@[2]@ == t@.topic,
            r@[3]@ == t@.text,
            r@[4]@ == t@.desc,
            r@[5]@ == t@.date_added,
            r@[6]@ == due_cell(t@.due),
            r@[7]@ == t@.status,
            r@[8]@ == t@.owner,
            forall|j: int| 0 <= j < k
                ==> (#[trigger] r@[9 + j])@ == t@.subtasks[j].text,
        decreases t.subtasks@.len() - k,
    {
        proof {
            assert(subtask_views(t.subtasks@)[k as int] == t.subtasks@[k as int]@);
        }
        r.push(t.subtasks[k].text.clone());
        k = k + 1;
    }
    r
}

/// A non-empty text cell.
pub open spec fn nonempty_text() -> spec_fn(Seq<char>) -> bool {
    |c: Seq<char>| c.len() != 0
}

/// The subtask texts an imported row carries: the cells after the ninth
/// that are not empty.
pub open spec fn row_subtask_texts(cells: Seq<Seq<char>>) -> Seq<Seq<char>> {
    cells.skip(9).filter(nonempty_text())
}

/// One imported spreadsheet row as a task: the nine fixed cells fill the
/// fields (the id cell is ignored, the store assigns ids), the non-empty
/// overflow cells become pending subtasks, and a row shorter than the nine
/// fixed columns is rejected.
pub fn cells_to_todo(cells: &Vec<String>) -> (r: Option<Todo>)
    ensures
        (r is Some) == (cells@.len() >= 9),
        r matches Some(t) ==> t@ == (TodoView {
            id: 0,
            priority: cells@[1]@,
            topic: cells@[2]@,
            text: cells@[3]@,
            desc: cells@[4]@,
            date_added: cells@[5]@,
            due: cells@[6]@,
            status: cells@[7]@,
            owner: cells@[8]@,
            subtasks: Seq::new(
                row_subtask_texts(str_views(cells@)).len(),
                |k: int| SubtaskView {
                    todo_id: 0,
                    subtask_id: 0,
                    text: row_subtask_texts(str_views(cells@))[k],
                    status: "Pending"@,
                },
            ),
            notes: Seq::empty(),
        }),
{
    if cells.len() < 9 {
        return None;
    }
    let ghost tail = str_views(cells@).skip(9);
    let mut subs: Vec<Subtask> = Vec::new();
    let mut k: usize = 9;
    while k < cells.len()
        invariant
            9 <= k <= cells@.len(),
            cells@.len() >= 9,
            tail == str_views(cells@).skip(9),
            subs@.len() == tail.take(k - 9).filter(nonempty_text()).len(),
            forall|j: int| 0 <= j < subs@.len() ==> (#[trigger] subs@[j])@ == (SubtaskView {
                todo_id: 0,
                subtask_id: 0,
                text: tail.take(k - 9).filter(nonempty_text())[j],
                status: "Pending"@,
            }),
        decreases cells@.len() - k,
    {
        proof {
            assert(str_views(cells@)[k as int] == cells@[k as int]@);
            assert(tail.take(k as int - 9 + 1).drop_last() =~= tail.take(k as int - 9));
            assert(tail.take(k as int - 9 + 1).last() == tail[k as int - 9]);
            assert(tail[k as int - 9] == cells@[k as int]@);
            reveal(Seq::filter);
            assert(tail.take(k as int - 9 + 1).filter(nonempty_text()) == (
                if nonempty_text()(tail[k as int - 9]) {
                    tail.take(k as int - 9).filter(nonempty_text()).push(tail[k as int - 9])
                } else {
                    tail.take(k as int - 9).filter(nonempty_text())
                }
            ));
        }
        if !cells[k].as_str().is_empty() {
            subs.push(
                Subtask {
                    todo_id: 0,
                    subtask_id: 0,
                    text: cells[k].clone(),
                    status: "Pending".to_owned(),
                },
            );
        }
        k = k + 1;
    }
    proof {
        assert(tail.take(cells@.len() - 9) =~= tail);
        assert(subs@.len() == row_subtask_texts(str_views(cells@)).len());
    }
    let t = Todo {
        id: 0,
        priority: cells[1].clone(),
        topic: cells[2].clone(),
        text: cells[3].clone(),
        desc: cells[4].clone(),
        date_added: cells[5].clone(),
        due: cells[6].clone(),
        status: cells[7].clone(),
        owner: cells[8].clone(),
        subtasks: subs,
        notes: String::new(),
    };
    proof {
        let target = Seq::new(
            row_subtask_texts(str_views(cells@)).len(),
            |j: int| SubtaskView {
                todo_id: 0,
                subtask_id: 0,
                text: row_subtask_texts(str_views(cells@))[j],
                status: "Pending"@,
            },
        );
        assert forall|j: int| 0 <= j < target.len()
            implies subtask_views(t.subtasks@)[j] == target[j] by {
            assert(subtask_views(t.subtasks@)[j] == t.subtasks@[j]@);
        }
        assert(t@.subtasks =~= target);
    }
    Some(t)
}

} // verus!
