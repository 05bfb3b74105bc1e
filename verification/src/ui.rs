//! What the screen shows that is worth computing: the status tally under
//! the table, and the geometry of centered overlays. Drawing itself is the
//! terminal layer's work.
use vstd::prelude::*;

use crate::models::{Todo, TodoView};
use crate::store::todo_views;
use crate::text::string_eq;

verus! {

/// The number of tasks in a list carrying a status.
pub open spec fn count_status(ts: Seq<TodoView>, st: Seq<char>) -> int
    decreases ts.len(),
{
    if ts.len() == 0 {
        0
    } else {
        count_status(ts.drop_last(), st) + (if ts.last().status == st { 1int } else { 0int })
    }
}

/// The tally under the table: every task counted, and the three statuses
/// the controller assigns counted separately.
pub struct Stats {
    pub total: usize,
    pub done: usize,
    pub ongoing: usize,
    pub pending: usize,
}

/// Tally a task list by status.
pub fn calculate_stats(todos: &Vec<Todo>) -> (r: Stats)
    ensures
        r.total == todos@.len(),
        r.done as int == count_status(todo_views(todos@), "Done"@),
        r.ongoing as int == count_status(todo_views(todos@), "Ongoing"@),
        r.pending as int == count_status(todo_views(todos@), "Pending"@),
{
    let ghost ts = todo_views(todos@);
    let mut done: usize = 0;
    let mut ongoing: usize = 0;
    let mut pending: usize = 0;
    let mut i: usize = 0;
    while i < todos.len()
        invariant
            i <= todos@.len(),
            ts == todo_views(todos@),
            done as int == count_status(ts.take(i as int), "Done"@),
            ongoing as int == count_status(ts.take(i as int), "Ongoing"@),
            pending as int == count_status(ts.take(i as int), "Pending"@),
            done <= i && ongoing <= i && pending <= i,
        decreases todos@.len() - i,
    {
        proof {
            assert(ts.take(i as int + 1).drop_last() =~= ts.take(i as int));
            assert(ts.take(i as int + 1).last() == ts[i as int]);
            assert(ts[i as int] == todos@[i as int]@);
        }
        if string_eq(&todos[i].status, "Done") {
            done = done + 1;
        }
        if string_eq(&todos[i].status, "Ongoing") {
            ongoing = ongoing + 1;
        }
        if string_eq(&todos[i].status, "Pending") {
            pending = pending + 1;
        }
        i = i + 1;
    }
    proof {
        assert(ts.take(todos@.len() as int) =~= ts);
    }
    Stats { total: todos.len(), done, ongoing, pending }
}

/// A rectangle in terminal cells.
#[derive(Clone, Copy, Debug, PartialEq, Eq, Structural)]
pub struct Rect {
    pub x: u16,
    pub y: u16,
    pub width: u16,
    pub height: u16,
}

/// A centered rectangle covering a percentage of an area, at least 10 cells
/// wide and 8 tall.
pub fn dynamic_rect(width_percent: u16, height_percent: u16, area: Rect) -> (r: Rect)
    requires
        width_percent <= 100,
        height_percent <= 100,
        area.width >= 10,
        area.height >= 8,
        area.width * width_percent <= u16::MAX,
        area.height * height_percent <= u16::MAX,
    ensures
        r.width as int == (if area.width * width_percent / 100 >= 10 {
            area.width * width_percent / 100
        } else {
            10int
        }),
        r.height as int == (if area.height * height_percent / 100 >= 8 {
            area.height * height_percent / 100
        } else {
            8int
        }),
        r.x as int == (area.width - r.width) / 2,
        r.y as int == (area.height - r.height) / 2,
{
    proof {
        assert(area.width as int * width_percent as int <= area.width as int * 100)
            by (nonlinear_arith)
            requires
                width_percent <= 100,
                area.width >= 0,
        ;
        assert(area.height as int * height_percent as int <= area.height as int * 100)
            by (nonlinear_arith)
            requires
                height_percent <= 100,
                area.height >= 0,
        ;
        assert(area.width as int * 100 / 100 == area.width as int) by (nonlinear_arith);
        assert(area.height as int * 100 / 100 == area.height as int) by (nonlinear_arith);
    }
    let mut width = area.width * width_percent / 100;
    if width < 10 {
        width = 10;
    }
    let mut height = area.height * height_percent / 100;
    if height < 8 {
        height = 8;
    }
    let x = (area.width - width) / 2;
    let y = (area.height - height) / 2;
    Rect { x, y, width, height }
}

/// A rectangle centered inside another, covering a percentage of it in each
/// direction.
pub fn centered_rect(percent_x: u16, percent_y: u16, r: Rect) -> (res: Rect)
    requires
        percent_x <= 100,
        percent_y <= 100,
        r.width * percent_x <= u16::MAX,
        r.height * percent_y <= u16::MAX,
        r.x + r.width <= u16::MAX,
        r.y + r.height <= u16::MAX,
    ensures
        res.width as int == r.width * percent_x / 100,
        res.height as int == r.height * percent_y / 100,
        res.x as int == r.x + (r.width - res.width) / 2,
        res.y as int == r.y + (r.height - res.height) / 2,
{
    proof {
        assert(r.width as int * percent_x as int <= r.width as int * 100)
            by (nonlinear_arith)
            requires
                percent_x <= 100,
                r.width >= 0,
        ;
        assert(r.height as int * percent_y as int <= r.height as int * 100)
            by (nonlinear_arith)
            requires
                percent_y <= 100,
                r.height >= 0,
        ;
        assert(r.width as int * 100 / 100 == r.width as int) by (nonlinear_arith);
        assert(r.height as int * 100 / 100 == r.height as int) by (nonlinear_arith);
    }
    let width = r.width * percent_x / 100;
    let height = r.height * percent_y / 100;
    let x = r.x + (r.width - width) / 2;
    let y = r.y + (r.height - height) / 2;
    Rect { x, y, width, height }
}

} // verus!
