//! The persistent store: a single SQLite database holding the task table,
//! the subtask table, and a single-row credential table.
//!
//! The database behind a connection is modelled by the uninterpreted
//! functions `db_state` (its current contents) and `db_txn` (the committed
//! snapshot underneath an open transaction, if one is open). Every SQL
//! statement the library issues sits behind one trusted wrapper whose
//! contract states, over that model, exactly what the statement does.
//! The library opens one connection per `DBtodo` value and runs statements
//! only through it, one at a time, so the contents are a function of the
//! connection value between the library's own writes.
//!
//! A statement that fails inside an open transaction leaves it open with
//! the data as it was, or SQLite rolls the whole transaction back to its
//! snapshot on its own; the autocommit flag tells the two apart, and every
//! write wrapper's error clause covers both outcomes.
use vstd::prelude::*;

use crate::models::{Subtask, SubtaskView, Todo, TodoError, TodoView, subtask_views};

verus! {

#[verifier::external_type_specification]
#[verifier::external_body]
pub struct ExConnection(rusqlite::Connection);

#[verifier::external_type_specification]
#[verifier::external_body]
pub struct ExSqlError(rusqlite::Error);

/// One row of the task table.
#[verifier::ext_equal]
pub struct TaskRowView {
    pub id: int,
    pub priority: Seq<char>,
    pub topic: Seq<char>,
    pub text: Seq<char>,
    pub desc: Seq<char>,
    pub date_added: Seq<char>,
    pub due: Seq<char>,
    pub status: Seq<char>,
    pub owner: Seq<char>,
}

/// The whole queryable content of the database: both tables in id order,
/// the credential row, and the next id each AUTOINCREMENT column will assign.
#[verifier::ext_equal]
pub struct StoreModel {
    pub tasks: Seq<TaskRowView>,
    pub subs: Seq<SubtaskView>,
    pub cred: Option<Seq<char>>,
    pub next_task_id: int,
    pub next_sub_id: int,
}

/// The contents of the database behind a connection.
pub uninterp spec fn db_state(conn: rusqlite::Connection) -> StoreModel;

/// The committed contents underneath an open transaction (`None` when the
/// connection is in autocommit mode).
pub uninterp spec fn db_txn(conn: rusqlite::Connection) -> Option<StoreModel>;

/// Whether the three tables exist and each carries exactly this library's
/// declaration (SQLite keeps the text of every CREATE TABLE, so this is
/// read back at open).
pub uninterp spec fn db_schema_ok(conn: rusqlite::Connection) -> bool;

/// A database of this library's making: rows sorted by id, ids positive,
/// and the AUTOINCREMENT counters past every id that exists.
pub open spec fn store_inv(m: StoreModel) -> bool {
    &&& forall|i: int, j: int| #![trigger m.tasks[i], m.tasks[j]] 0 <= i < j < m.tasks.len()
            ==> m.tasks[i].id < m.tasks[j].id
    &&& forall|i: int| #![trigger m.tasks[i]] 0 <= i < m.tasks.len()
            ==> 1 <= m.tasks[i].id < m.next_task_id
    &&& forall|i: int, j: int| #![trigger m.subs[i], m.subs[j]] 0 <= i < j < m.subs.len()
            ==> m.subs[i].subtask_id < m.subs[j].subtask_id
    &&& forall|i: int| #![trigger m.subs[i]] 0 <= i < m.subs.len()
            ==> 1 <= m.subs[i].subtask_id < m.next_sub_id
    &&& forall|i: int| #![trigger m.subs[i]] 0 <= i < m.subs.len()
            ==> has_task(m, m.subs[i].todo_id)
    &&& m.next_task_id >= 1
    &&& m.next_sub_id >= 1
    &&& m.next_task_id <= i64::MAX as int + 1
    &&& m.next_sub_id <= i64::MAX as int + 1
}

/// What this library's table declarations guarantee of the contents: the
/// PRIMARY KEY makes ids unique (and the model lists rows in id order, so
/// strictly sorted), and each AUTOINCREMENT counter is positive, past every
/// id in its table, and within the signed 64-bit range of a rowid.
pub open spec fn schema_facts(m: StoreModel) -> bool {
    &&& forall|i: int, j: int| #![trigger m.tasks[i], m.tasks[j]] 0 <= i < j < m.tasks.len()
            ==> m.tasks[i].id < m.tasks[j].id
    &&& forall|i: int| #![trigger m.tasks[i]] 0 <= i < m.tasks.len()
            ==> m.tasks[i].id < m.next_task_id
    &&& forall|i: int, j: int| #![trigger m.subs[i], m.subs[j]] 0 <= i < j < m.subs.len()
            ==> m.subs[i].subtask_id < m.subs[j].subtask_id
    &&& forall|i: int| #![trigger m.subs[i]] 0 <= i < m.subs.len()
            ==> m.subs[i].subtask_id < m.next_sub_id
    &&& m.next_task_id >= 1
    &&& m.next_sub_id >= 1
    &&& m.next_task_id <= i64::MAX as int + 1
    &&& m.next_sub_id <= i64::MAX as int + 1
}

/// What the open-time row check inspects: every id positive, and every
/// subtask row under a task that exists.
pub open spec fn rows_facts(m: StoreModel) -> bool {
    &&& forall|i: int| #![trigger m.tasks[i]] 0 <= i < m.tasks.len() ==> 1 <= m.tasks[i].id
    &&& forall|i: int| #![trigger m.subs[i]] 0 <= i < m.subs.len() ==> 1 <= m.subs[i].subtask_id
    &&& forall|i: int| #![trigger m.subs[i]] 0 <= i < m.subs.len()
            ==> has_task(m, m.subs[i].todo_id)
}

/// The model of a freshly created, empty database.
pub open spec fn empty_store() -> StoreModel {
    StoreModel {
        tasks: Seq::empty(),
        subs: Seq::empty(),
        cred: None,
        next_task_id: 1,
        next_sub_id: 1,
    }
}

/// Whether a task with this id exists.
pub open spec fn has_task(m: StoreModel, id: int) -> bool {
    exists|i: int| 0 <= i < m.tasks.len() && m.tasks[i].id == id
}

/// Whether a subtask with this id exists under the given parent.
pub open spec fn has_sub(m: StoreModel, todo_id: int, subtask_id: int) -> bool {
    exists|i: int| 0 <= i < m.subs.len()
        && m.subs[i].todo_id == todo_id && m.subs[i].subtask_id == subtask_id
}

/// The subtask rows that belong to one task.
pub open spec fn sub_of_task(id: int) -> spec_fn(SubtaskView) -> bool {
    |s: SubtaskView| s.todo_id == id
}

/// The subtask rows that do not belong to one task.
pub open spec fn sub_not_of_task(id: int) -> spec_fn(SubtaskView) -> bool {
    |s: SubtaskView| s.todo_id != id
}

/// The subtask rows other than one subtask.
pub open spec fn sub_id_not(subtask_id: int) -> spec_fn(SubtaskView) -> bool {
    |s: SubtaskView| s.subtask_id != subtask_id
}

/// The task rows other than one task.
pub open spec fn task_id_not(id: int) -> spec_fn(TaskRowView) -> bool {
    |t: TaskRowView| t.id != id
}

/// One subtask's row rewritten to a new status; every other row kept.
pub open spec fn sub_status_update(
    todo_id: int,
    subtask_id: int,
    status: Seq<char>,
) -> spec_fn(SubtaskView) -> SubtaskView {
    |s: SubtaskView| if s.todo_id == todo_id && s.subtask_id == subtask_id {
        SubtaskView { status, ..s }
    } else {
        s
    }
}

/// The subtask rows of one task, in insertion order.
pub open spec fn subs_of(m: StoreModel, id: int) -> Seq<SubtaskView> {
    m.subs.filter(sub_of_task(id))
}

/// One task row as a listed task, before its subtasks are attached.
pub open spec fn row_todo(row: TaskRowView) -> TodoView {
    TodoView {
        id: row.id,
        priority: row.priority,
        topic: row.topic,
        text: row.text,
        desc: row.desc,
        date_added: row.date_added,
        status: row.status,
        owner: row.owner,
        due: row.due,
        subtasks: Seq::empty(),
        notes: Seq::empty(),
    }
}

/// The task rows alone, each with empty subtasks and empty notes.
pub open spec fn listed_rows(m: StoreModel) -> Seq<TodoView> {
    Seq::new(m.tasks.len(), |i: int| row_todo(m.tasks[i]))
}

/// What a full listing returns: every task row in id order, its subtask
/// rows attached in insertion order, and empty notes (notes are in-memory
/// only).
pub open spec fn listed(m: StoreModel) -> Seq<TodoView> {
    Seq::new(
        m.tasks.len(),
        |i: int| TodoView { subtasks: subs_of(m, m.tasks[i].id), ..row_todo(m.tasks[i]) },
    )
}

/// The views of a sequence of tasks, in order.
pub open spec fn todo_views(ts: Seq<Todo>) -> Seq<TodoView> {
    ts.map_values(|t: Todo| t@)
}

/// The effect of inserting one task row: it is appended with the next id.
pub open spec fn insert_task_effect(m: StoreModel, t: TodoView) -> StoreModel {
    StoreModel {
        tasks: m.tasks.push(
            TaskRowView {
                id: m.next_task_id,
                priority: t.priority,
                topic: t.topic,
                text: t.text,
                desc: t.desc,
                date_added: t.date_added,
                due: t.due,
                status: t.status,
                owner: t.owner,
            },
        ),
        next_task_id: m.next_task_id + 1,
        ..m
    }
}

/// The effect of inserting one subtask row: it is appended with the next id.
pub open spec fn insert_sub_effect(
    m: StoreModel,
    todo_id: int,
    text: Seq<char>,
    status: Seq<char>,
) -> StoreModel {
    StoreModel {
        subs: m.subs.push(
            SubtaskView { todo_id, subtask_id: m.next_sub_id, text, status },
        ),
        next_sub_id: m.next_sub_id + 1,
        ..m
    }
}

/// The effect of updating one task's status; without a matching id, nothing.
pub open spec fn set_status_effect(m: StoreModel, id: int, status: Seq<char>) -> StoreModel {
    StoreModel {
        tasks: m.tasks.map_values(
            |t: TaskRowView| if t.id == id { TaskRowView { status, ..t } } else { t },
        ),
        ..m
    }
}

/// The effect of updating one task's priority; without a matching id, nothing.
pub open spec fn set_priority_effect(m: StoreModel, id: int, priority: Seq<char>) -> StoreModel {
    StoreModel {
        tasks: m.tasks.map_values(
            |t: TaskRowView| if t.id == id { TaskRowView { priority, ..t } } else { t },
        ),
        ..m
    }
}

/// The effect of updating one subtask's status.
pub open spec fn set_sub_status_effect(
    m: StoreModel,
    todo_id: int,
    subtask_id: int,
    status: Seq<char>,
) -> StoreModel {
    StoreModel {
        subs: m.subs.map_values(sub_status_update(todo_id, subtask_id, status)),
        ..m
    }
}

/// The effect of deleting one task row (its subtask rows stay; the store's
/// delete removes them with a second statement).
pub open spec fn delete_task_row_effect(m: StoreModel, id: int) -> StoreModel {
    StoreModel { tasks: m.tasks.filter(task_id_not(id)), ..m }
}

/// The effect of deleting every subtask row of one task.
pub open spec fn delete_subs_of_effect(m: StoreModel, id: int) -> StoreModel {
    StoreModel { subs: m.subs.filter(sub_not_of_task(id)), ..m }
}

/// The effect of deleting one subtask row by its own id.
pub open spec fn delete_sub_effect(m: StoreModel, subtask_id: int) -> StoreModel {
    StoreModel { subs: m.subs.filter(sub_id_not(subtask_id)), ..m }
}

/// The effect of deleting every task row; the id counters are kept.
pub open spec fn clear_tasks_effect(m: StoreModel) -> StoreModel {
    StoreModel { tasks: Seq::empty(), ..m }
}

/// The effect of deleting every subtask row; the id counters are kept.
pub open spec fn clear_subs_effect(m: StoreModel) -> StoreModel {
    StoreModel { subs: Seq::empty(), ..m }
}

/// The effect of deleting the credential row.
pub open spec fn clear_cred_effect(m: StoreModel) -> StoreModel {
    StoreModel { cred: None, ..m }
}

/// The effect of inserting the credential row.
pub open spec fn set_cred_effect(m: StoreModel, key: Seq<char>) -> StoreModel {
    StoreModel { cred: Some(key), ..m }
}

// ---------------------------------------------------------------------------
// Trusted wrappers, one per SQL statement the library issues.
// ---------------------------------------------------------------------------

/// Relies on `rusqlite::Connection::open`: opens (creating if absent) the
/// database file at the path. Nothing is assumed of the file's contents;
/// `DBtodo::new` verifies the schema and the rows before trusting them.
/// A fresh connection is in autocommit mode.
#[verifier::external_body]
fn sql_open(path: &str) -> (r: Result<rusqlite::Connection, rusqlite::Error>)
    ensures
        r matches Ok(conn) ==> (db_txn(conn) is None),
{
    rusqlite::Connection::open(path)
}

/// Relies on `rusqlite::Connection::open_in_memory`: a fresh in-memory
/// database is empty and in autocommit mode.
#[verifier::external_body]
fn sql_open_in_memory() -> (r: Result<rusqlite::Connection, rusqlite::Error>)
    ensures
        r matches Ok(conn) ==> db_state(conn) == empty_store() && (db_txn(conn) is None),
{
    rusqlite::Connection::open_in_memory()
}

/// Relies on `rusqlite::Connection::execute_batch` running three
/// `CREATE TABLE IF NOT EXISTS` statements: they never change existing rows
/// or the id counters, whether or not the tables already exist; in
/// autocommit mode a failing statement changes no data and opens no
/// transaction; and creating a missing table never unmakes a matching
/// schema.
#[verifier::external_body]
fn sql_create_schema(conn: &mut rusqlite::Connection) -> (r: Result<(), rusqlite::Error>)
    requires
        (db_txn(*old(conn)) is None),
    ensures
        db_state(*final(conn)) == db_state(*old(conn)),
        db_txn(*final(conn)) == db_txn(*old(conn)),
        db_schema_ok(*old(conn)) ==> db_schema_ok(*final(conn)),
{
    conn.execute_batch(
        "CREATE TABLE IF NOT EXISTS model (id INTEGER PRIMARY KEY, name TEXT NOT NULL, apikey TEXT NOT NULL);
        CREATE TABLE IF NOT EXISTS todos (id INTEGER PRIMARY KEY AUTOINCREMENT, priority TEXT NOT NULL, topic TEXT, text TEXT, desc TEXT, date_added TEXT NOT NULL, due TEXT, status TEXT NOT NULL, owner TEXT NOT NULL);
        CREATE TABLE IF NOT EXISTS subtasks (id INTEGER PRIMARY KEY AUTOINCREMENT, todo_id INTEGER NOT NULL, text TEXT NOT NULL, status TEXT NOT NULL);",
    )
}

/// Relies on `rusqlite::Connection::query_row` over `sqlite_master`, where
/// SQLite keeps the literal text of every CREATE TABLE (the `IF NOT
/// EXISTS` words are not stored): the three tables exist and carry exactly
/// this library's declarations. For tables with these declarations, the
/// PRIMARY KEY keeps ids unique and AUTOINCREMENT keeps the next id
/// positive, larger than every id the table ever held (also across
/// deletes), and within the signed 64-bit rowid range, which gives
/// `schema_facts` of the contents.
#[verifier::external_body]
fn sql_schema_check(conn: &rusqlite::Connection) -> (r: Result<bool, rusqlite::Error>)
    ensures
        r matches Ok(true) ==> db_schema_ok(*conn) && schema_facts(db_state(*conn)),
{
    conn.query_row(
        "SELECT (SELECT count(*) FROM sqlite_master WHERE type = 'table'
            AND name IN ('model', 'todos', 'subtasks') AND sql IN (?1, ?2, ?3)) = 3",
        (
            "CREATE TABLE model (id INTEGER PRIMARY KEY, name TEXT NOT NULL, apikey TEXT NOT NULL)",
            "CREATE TABLE todos (id INTEGER PRIMARY KEY AUTOINCREMENT, priority TEXT NOT NULL, topic TEXT, text TEXT, desc TEXT, date_added TEXT NOT NULL, due TEXT, status TEXT NOT NULL, owner TEXT NOT NULL)",
            "CREATE TABLE subtasks (id INTEGER PRIMARY KEY AUTOINCREMENT, todo_id INTEGER NOT NULL, text TEXT NOT NULL, status TEXT NOT NULL)",
        ),
        |row| row.get(0),
    )
}

/// Relies on `rusqlite::Connection::query_row` over three EXISTS
/// subqueries: whether every task id and subtask id is positive and every
/// subtask row sits under an existing task.
#[verifier::external_body]
fn sql_rows_check(conn: &rusqlite::Connection) -> (r: Result<bool, rusqlite::Error>)
    ensures
        r matches Ok(b) ==> b == rows_facts(db_state(*conn)),
{
    conn.query_row(
        "SELECT NOT EXISTS(SELECT 1 FROM todos WHERE id < 1)
            AND NOT EXISTS(SELECT 1 FROM subtasks WHERE id < 1)
            AND NOT EXISTS(SELECT 1 FROM subtasks
                WHERE todo_id NOT IN (SELECT id FROM todos))",
        [],
        |row| row.get(0),
    )
}

/// Relies on `rusqlite::Connection::query_row` running
/// `INSERT INTO todos .. RETURNING id`: SQLite assigns an AUTOINCREMENT id
/// one larger than any this table has ever held, refuses the insert once
/// the counter has reached the largest 64-bit rowid, and on failure
/// inserts nothing.
#[verifier::external_body]
fn sql_insert_task(conn: &mut rusqlite::Connection, t: &Todo) -> (r: Result<
    usize,
    rusqlite::Error,
>)
    requires
        db_schema_ok(*old(conn)),
    ensures
        r matches Ok(id) ==> id as int == db_state(*old(conn)).next_task_id
            && db_state(*old(conn)).next_task_id <= i64::MAX as int
            && db_state(*final(conn)) == insert_task_effect(db_state(*old(conn)), t@),
        r is Ok ==> db_txn(*final(conn)) == db_txn(*old(conn)),
        r is Err ==> (db_state(*final(conn)) == db_state(*old(conn))
                && db_txn(*final(conn)) == db_txn(*old(conn)))
            || ((db_txn(*old(conn)) is Some)
                && db_state(*final(conn)) == db_txn(*old(conn)).unwrap()
                && (db_txn(*final(conn)) is None)),
        db_schema_ok(*final(conn)) == db_schema_ok(*old(conn)),
{
    conn.query_row(
        "INSERT INTO todos (priority, topic, text, desc, date_added, due, status, owner)
         VALUES (?1, ?2, ?3, ?4, ?5, ?6, ?7, ?8) RETURNING id",
        (&t.priority, &t.topic, &t.text, &t.desc, &t.date_added, &t.due, &t.status, &t.owner),
        |row| row.get::<_, i64>(0).map(|v| v as usize),
    )
}

/// Relies on `rusqlite::Connection::query_row` running
/// `INSERT INTO subtasks .. RETURNING id`: as for tasks, the AUTOINCREMENT
/// id is fresh and refused once the counter is exhausted, and on failure
/// nothing is inserted. The task id must fit a rowid, else the cast to the
/// bound parameter would not carry the value.
#[verifier::external_body]
fn sql_insert_subtask(
    conn: &mut rusqlite::Connection,
    todo_id: usize,
    text: &String,
    status: &String,
) -> (r: Result<usize, rusqlite::Error>)
    requires
        db_schema_ok(*old(conn)),
        todo_id as int <= i64::MAX as int,
    ensures
        r matches Ok(id) ==> id as int == db_state(*old(conn)).next_sub_id
            && db_state(*old(conn)).next_sub_id <= i64::MAX as int
            && db_state(*final(conn)) == insert_sub_effect(
                db_state(*old(conn)), todo_id as int, text@, status@,
            ),
        r is Ok ==> db_txn(*final(conn)) == db_txn(*old(conn)),
        r is Err ==> (db_state(*final(conn)) == db_state(*old(conn))
                && db_txn(*final(conn)) == db_txn(*old(conn)))
            || ((db_txn(*old(conn)) is Some)
                && db_state(*final(conn)) == db_txn(*old(conn)).unwrap()
                && (db_txn(*final(conn)) is None)),
        db_schema_ok(*final(conn)) == db_schema_ok(*old(conn)),
{
    conn.query_row(
        "INSERT INTO subtasks (todo_id, text, status) VALUES (?1, ?2, ?3) RETURNING id",
        (todo_id as i64, text, status),
        |row| row.get::<_, i64>(0).map(|v| v as usize),
    )
}

/// Relies on `rusqlite::Statement::query_map` over
/// `SELECT .. FROM todos ORDER BY id`: every task row, in id order. The
/// row discipline is required so the positive stored ids survive the cast
/// into `usize`.
#[verifier::external_body]
fn sql_select_tasks(conn: &rusqlite::Connection) -> (r: Result<Vec<Todo>, rusqlite::Error>)
    requires
        db_schema_ok(*conn),
        store_inv(db_state(*conn)),
    ensures
        r matches Ok(v) ==> todo_views(v@) == listed_rows(db_state(*conn)),
{
    let mut stmt = conn.prepare(
        "SELECT id, priority, topic, text, desc, date_added, due, status, owner
         FROM todos ORDER BY id",
    )?;
    let rows = stmt.query_map([], |row| {
        Ok(Todo {
            id: row.get::<_, i64>(0)? as usize,
            priority: row.get(1)?, topic: row.get(2)?, text: row.get(3)?,
            desc: row.get(4)?, date_added: row.get(5)?, due: row.get(6)?,
            status: row.get(7)?, owner: row.get(8)?,
            subtasks: Vec::new(), notes: String::new(),
        })
    })?;
    rows.collect()
}

/// Relies on `rusqlite::Statement::query_map` over
/// `SELECT .. FROM subtasks WHERE todo_id = ? ORDER BY id`: exactly the
/// subtask rows of that task, in id (insertion) order. The row discipline
/// keeps the stored ids positive across the cast into `usize`, and the
/// task id must fit a rowid.
#[verifier::external_body]
fn sql_select_subs_of(conn: &rusqlite::Connection, todo_id: usize) -> (r: Result<
    Vec<Subtask>,
    rusqlite::Error,
>)
    requires
        db_schema_ok(*conn),
        store_inv(db_state(*conn)),
        todo_id as int <= i64::MAX as int,
    ensures
        r matches Ok(v) ==> subtask_views(v@) == subs_of(db_state(*conn), todo_id as int),
{
    let mut stmt = conn.prepare(
        "SELECT id, text, status FROM subtasks WHERE todo_id = ?1 ORDER BY id",
    )?;
    let rows = stmt.query_map((todo_id as i64,), |row| {
        Ok(Subtask {
            todo_id,
            subtask_id: row.get::<_, i64>(0)? as usize,
            text: row.get(1)?,
            status: row.get(2)?,
        })
    })?;
    rows.collect()
}

/// Relies on `rusqlite::Connection::query_row` over `SELECT EXISTS(..)`:
/// whether a task row with this id exists; the id must fit a rowid, else
/// the comparison would run against a wrapped value.
#[verifier::external_body]
fn sql_task_exists(conn: &rusqlite::Connection, id: usize) -> (r: Result<bool, rusqlite::Error>)
    requires
        db_schema_ok(*conn),
        id as int <= i64::MAX as int,
    ensures
        r matches Ok(b) ==> b == has_task(db_state(*conn), id as int),
{
    conn.query_row(
        "SELECT EXISTS(SELECT 1 FROM todos WHERE id = ?1)",
        (id as i64,),
        |row| row.get(0),
    )
}

/// Relies on `rusqlite::Connection::execute` running
/// `UPDATE todos SET status = ? WHERE id = ?`: it rewrites exactly the
/// matching rows and reports how many there were.
#[verifier::external_body]
fn sql_update_status(conn: &mut rusqlite::Connection, id: usize, status: &String) -> (r: Result<
    usize,
    rusqlite::Error,
>)
    requires
        store_inv(db_state(*old(conn))),
        db_schema_ok(*old(conn)),
    ensures
        r matches Ok(n) ==> db_state(*final(conn)) == set_status_effect(
            db_state(*old(conn)), id as int, status@,
        ) && n as int == (if has_task(db_state(*old(conn)), id as int) { 1int } else { 0int }),
        r is Ok ==> db_txn(*final(conn)) == db_txn(*old(conn)),
        r is Err ==> (db_state(*final(conn)) == db_state(*old(conn))
                && db_txn(*final(conn)) == db_txn(*old(conn)))
            || ((db_txn(*old(conn)) is Some)
                && db_state(*final(conn)) == db_txn(*old(conn)).unwrap()
                && (db_txn(*final(conn)) is None)),
        db_schema_ok(*final(conn)) == db_schema_ok(*old(conn)),
{
    conn.execute("UPDATE todos SET status = ?1 WHERE id = ?2", (status, id as i64))
}

/// Relies on `rusqlite::Connection::execute` running
/// `UPDATE todos SET priority = ? WHERE id = ?`.
#[verifier::external_body]
fn sql_update_priority(conn: &mut rusqlite::Connection, id: usize, priority: &String) -> (r:
    Result<usize, rusqlite::Error>)
    requires
        store_inv(db_state(*old(conn))),
        db_schema_ok(*old(conn)),
    ensures
        r matches Ok(n) ==> db_state(*final(conn)) == set_priority_effect(
            db_state(*old(conn)), id as int, priority@,
        ) && n as int == (if has_task(db_state(*old(conn)), id as int) { 1int } else { 0int }),
        r is Ok ==> db_txn(*final(conn)) == db_txn(*old(conn)),
        r is Err ==> (db_state(*final(conn)) == db_state(*old(conn))
                && db_txn(*final(conn)) == db_txn(*old(conn)))
            || ((db_txn(*old(conn)) is Some)
                && db_state(*final(conn)) == db_txn(*old(conn)).unwrap()
                && (db_txn(*final(conn)) is None)),
        db_schema_ok(*final(conn)) == db_schema_ok(*old(conn)),
{
    conn.execute("UPDATE todos SET priority = ?1 WHERE id = ?2", (priority, id as i64))
}

/// Relies on `rusqlite::Connection::execute` running
/// `UPDATE subtasks SET status = ? WHERE todo_id = ? AND id = ?`.
#[verifier::external_body]
fn sql_update_sub_status(
    conn: &mut rusqlite::Connection,
    todo_id: usize,
    subtask_id: usize,
    status: &String,
) -> (r: Result<usize, rusqlite::Error>)
    requires
        store_inv(db_state(*old(conn))),
        db_schema_ok(*old(conn)),
    ensures
        r matches Ok(n) ==> db_state(*final(conn)) == set_sub_status_effect(
            db_state(*old(conn)), todo_id as int, subtask_id as int, status@,
        ) && n as int == (
            if has_sub(db_state(*old(conn)), todo_id as int, subtask_id as int) { 1int }
            else { 0int }
        ),
        r is Ok ==> db_txn(*final(conn)) == db_txn(*old(conn)),
        r is Err ==> (db_state(*final(conn)) == db_state(*old(conn))
                && db_txn(*final(conn)) == db_txn(*old(conn)))
            || ((db_txn(*old(conn)) is Some)
                && db_state(*final(conn)) == db_txn(*old(conn)).unwrap()
                && (db_txn(*final(conn)) is None)),
        db_schema_ok(*final(conn)) == db_schema_ok(*old(conn)),
{
    conn.execute(
        "UPDATE subtasks SET status = ?1 WHERE todo_id = ?2 AND id = ?3",
        (status, todo_id as i64, subtask_id as i64),
    )
}

/// Relies on `rusqlite::Connection::execute` running
/// `DELETE FROM todos WHERE id = ?`: removes exactly the matching rows and
/// reports how many there were.
#[verifier::external_body]
fn sql_delete_task(conn: &mut rusqlite::Connection, id: usize) -> (r: Result<
    usize,
    rusqlite::Error,
>)
    requires
        store_inv(db_state(*old(conn))),
        db_schema_ok(*old(conn)),
    ensures
        r matches Ok(n) ==> db_state(*final(conn)) == delete_task_row_effect(
            db_state(*old(conn)), id as int,
        ) && n as int == (if has_task(db_state(*old(conn)), id as int) { 1int } else { 0int }),
        r is Ok ==> db_txn(*final(conn)) == db_txn(*old(conn)),
        r is Err ==> (db_state(*final(conn)) == db_state(*old(conn))
                && db_txn(*final(conn)) == db_txn(*old(conn)))
            || ((db_txn(*old(conn)) is Some)
                && db_state(*final(conn)) == db_txn(*old(conn)).unwrap()
                && (db_txn(*final(conn)) is None)),
        db_schema_ok(*final(conn)) == db_schema_ok(*old(conn)),
{
    conn.execute("DELETE FROM todos WHERE id = ?1", (id as i64,))
}

/// Relies on `rusqlite::Connection::execute` running
/// `DELETE FROM subtasks WHERE todo_id = ?`; the task id must fit a rowid,
/// else the comparison would run against a wrapped value.
#[verifier::external_body]
fn sql_delete_subs_of(conn: &mut rusqlite::Connection, todo_id: usize) -> (r: Result<
    usize,
    rusqlite::Error,
>)
    requires
        db_schema_ok(*old(conn)),
        store_inv(db_state(*old(conn))),
        todo_id as int <= i64::MAX as int,
    ensures
        r matches Ok(n) ==> db_state(*final(conn)) == delete_subs_of_effect(
            db_state(*old(conn)), todo_id as int,
        ) && n as int == subs_of(db_state(*old(conn)), todo_id as int).len(),
        r is Ok ==> db_txn(*final(conn)) == db_txn(*old(conn)),
        r is Err ==> (db_state(*final(conn)) == db_state(*old(conn))
                && db_txn(*final(conn)) == db_txn(*old(conn)))
            || ((db_txn(*old(conn)) is Some)
                && db_state(*final(conn)) == db_txn(*old(conn)).unwrap()
                && (db_txn(*final(conn)) is None)),
        db_schema_ok(*final(conn)) == db_schema_ok(*old(conn)),
{
    conn.execute("DELETE FROM subtasks WHERE todo_id = ?1", (todo_id as i64,))
}

/// Relies on `rusqlite::Connection::execute` running
/// `DELETE FROM subtasks WHERE id = ?`.
#[verifier::external_body]
fn sql_delete_subtask(conn: &mut rusqlite::Connection, subtask_id: usize) -> (r: Result<
    usize,
    rusqlite::Error,
>)
    requires
        store_inv(db_state(*old(conn))),
        db_schema_ok(*old(conn)),
    ensures
        r matches Ok(n) ==> db_state(*final(conn)) == delete_sub_effect(
            db_state(*old(conn)), subtask_id as int,
        ) && n as int == (
            if exists|i: int| 0 <= i < db_state(*old(conn)).subs.len()
                && db_state(*old(conn)).subs[i].subtask_id == subtask_id as int { 1int }
            else { 0int }
        ),
        r is Ok ==> db_txn(*final(conn)) == db_txn(*old(conn)),
        r is Err ==> (db_state(*final(conn)) == db_state(*old(conn))
                && db_txn(*final(conn)) == db_txn(*old(conn)))
            || ((db_txn(*old(conn)) is Some)
                && db_state(*final(conn)) == db_txn(*old(conn)).unwrap()
                && (db_txn(*final(conn)) is None)),
        db_schema_ok(*final(conn)) == db_schema_ok(*old(conn)),
{
    conn.execute("DELETE FROM subtasks WHERE id = ?1", (subtask_id as i64,))
}

/// Relies on `rusqlite::Connection::execute` running `DELETE FROM todos`:
/// removes every task row and reports how many there were. The
/// AUTOINCREMENT counter is kept, so ids are never reused.
#[verifier::external_body]
fn sql_clear_tasks(conn: &mut rusqlite::Connection) -> (r: Result<usize, rusqlite::Error>)
    requires
        db_schema_ok(*old(conn)),
    ensures
        r matches Ok(n) ==> db_state(*final(conn)) == clear_tasks_effect(db_state(*old(conn)))
            && n as int == db_state(*old(conn)).tasks.len(),
        r is Ok ==> db_txn(*final(conn)) == db_txn(*old(conn)),
        r is Err ==> (db_state(*final(conn)) == db_state(*old(conn))
                && db_txn(*final(conn)) == db_txn(*old(conn)))
            || ((db_txn(*old(conn)) is Some)
                && db_state(*final(conn)) == db_txn(*old(conn)).unwrap()
                && (db_txn(*final(conn)) is None)),
        db_schema_ok(*final(conn)) == db_schema_ok(*old(conn)),
{
    conn.execute("DELETE FROM todos", [])
}

/// Relies on `rusqlite::Connection::execute` running `DELETE FROM subtasks`.
#[verifier::external_body]
fn sql_clear_subs(conn: &mut rusqlite::Connection) -> (r: Result<usize, rusqlite::Error>)
    requires
        db_schema_ok(*old(conn)),
    ensures
        r matches Ok(n) ==> db_state(*final(conn)) == clear_subs_effect(db_state(*old(conn)))
            && n as int == db_state(*old(conn)).subs.len(),
        r is Ok ==> db_txn(*final(conn)) == db_txn(*old(conn)),
        r is Err ==> (db_state(*final(conn)) == db_state(*old(conn))
                && db_txn(*final(conn)) == db_txn(*old(conn)))
            || ((db_txn(*old(conn)) is Some)
                && db_state(*final(conn)) == db_txn(*old(conn)).unwrap()
                && (db_txn(*final(conn)) is None)),
        db_schema_ok(*final(conn)) == db_schema_ok(*old(conn)),
{
    conn.execute("DELETE FROM subtasks", [])
}

/// Relies on `rusqlite::Connection::execute` running `DELETE FROM model`:
/// afterwards no credential row exists.
#[verifier::external_body]
fn sql_clear_cred(conn: &mut rusqlite::Connection) -> (r: Result<usize, rusqlite::Error>)
    requires
        db_schema_ok(*old(conn)),
    ensures
        r matches Ok(n) ==> db_state(*final(conn)) == clear_cred_effect(db_state(*old(conn))),
        r is Ok ==> db_txn(*final(conn)) == db_txn(*old(conn)),
        r is Err ==> (db_state(*final(conn)) == db_state(*old(conn))
                && db_txn(*final(conn)) == db_txn(*old(conn)))
            || ((db_txn(*old(conn)) is Some)
                && db_state(*final(conn)) == db_txn(*old(conn)).unwrap()
                && (db_txn(*final(conn)) is None)),
        db_schema_ok(*final(conn)) == db_schema_ok(*old(conn)),
{
    conn.execute("DELETE FROM model", [])
}

/// Relies on `rusqlite::Connection::execute` running
/// `INSERT INTO model (name, apikey) VALUES ('gemini', ?)`.
#[verifier::external_body]
fn sql_insert_cred(conn: &mut rusqlite::Connection, apikey: &String) -> (r: Result<
    usize,
    rusqlite::Error,
>)
    requires
        (db_state(*old(conn)).cred is None),
        db_schema_ok(*old(conn)),
    ensures
        r matches Ok(n) ==> db_state(*final(conn)) == set_cred_effect(
            db_state(*old(conn)), apikey@,
        ) && n == 1,
        r is Ok ==> db_txn(*final(conn)) == db_txn(*old(conn)),
        r is Err ==> (db_state(*final(conn)) == db_state(*old(conn))
                && db_txn(*final(conn)) == db_txn(*old(conn)))
            || ((db_txn(*old(conn)) is Some)
                && db_state(*final(conn)) == db_txn(*old(conn)).unwrap()
                && (db_txn(*final(conn)) is None)),
        db_schema_ok(*final(conn)) == db_schema_ok(*old(conn)),
{
    conn.execute("INSERT INTO model (name, apikey) VALUES ('gemini', ?1)", (apikey,))
}

/// Relies on `rusqlite::Connection::query_row` over
/// `SELECT apikey FROM model`: the stored credential, or an error (from
/// `QueryReturnedNoRows`) when none is stored.
#[verifier::external_body]
fn sql_get_cred(conn: &rusqlite::Connection) -> (r: Result<String, rusqlite::Error>)
    requires
        db_schema_ok(*conn),
    ensures
        r matches Ok(s) ==> db_state(*conn).cred == Some(s@),
        (db_state(*conn).cred is None) ==> (r is Err),
{
    conn.query_row("SELECT apikey FROM model", [], |row| row.get(0))
}

/// Relies on `rusqlite::Connection::execute_batch` running `BEGIN`: it opens
/// a transaction over the current contents and changes no data.
#[verifier::external_body]
fn sql_begin(conn: &mut rusqlite::Connection) -> (r: Result<(), rusqlite::Error>)
    requires
        (db_txn(*old(conn)) is None),
    ensures
        db_state(*final(conn)) == db_state(*old(conn)),
        (r is Ok) ==> db_txn(*final(conn)) == Some(db_state(*old(conn))),
        (r is Err) ==> (db_txn(*final(conn)) is None),
        db_schema_ok(*final(conn)) == db_schema_ok(*old(conn)),
{
    conn.execute_batch("BEGIN")
}

/// Relies on `rusqlite::Connection::execute_batch` running `COMMIT`: on
/// success the writes become durable and the data seen through the
/// connection is unchanged; on failure SQLite either keeps the transaction
/// open or has rolled it back to the snapshot.
#[verifier::external_body]
fn sql_commit(conn: &mut rusqlite::Connection) -> (r: Result<(), rusqlite::Error>)
    requires
        (db_txn(*old(conn)) is Some),
    ensures
        (r is Ok) ==> db_state(*final(conn)) == db_state(*old(conn))
            && (db_txn(*final(conn)) is None),
        (r is Err) ==> (db_state(*final(conn)) == db_state(*old(conn))
            && db_txn(*final(conn)) == db_txn(*old(conn)))
            || (db_state(*final(conn)) == db_txn(*old(conn)).unwrap()
            && (db_txn(*final(conn)) is None)),
        db_schema_ok(*final(conn)) == db_schema_ok(*old(conn)),
{
    conn.execute_batch("COMMIT")
}

/// Relies on `rusqlite::Connection::execute_batch` running `ROLLBACK`: with
/// no statement in flight on this connection a rollback always takes
/// effect, restoring the snapshot the transaction started from.
#[verifier::external_body]
fn sql_rollback(conn: &mut rusqlite::Connection) -> (r: Result<(), rusqlite::Error>)
    requires
        (db_txn(*old(conn)) is Some),
    ensures
        db_state(*final(conn)) == db_txn(*old(conn)).unwrap(),
        (db_txn(*final(conn)) is None),
        db_schema_ok(*final(conn)) == db_schema_ok(*old(conn)),
{
    let _ = conn.execute_batch("ROLLBACK");
    Ok(())
}

/// Relies on `rusqlite::Connection::is_autocommit`: false exactly while a
/// transaction is open.
#[verifier::external_body]
fn sql_in_txn(conn: &rusqlite::Connection) -> (r: bool)
    ensures
        r == (db_txn(*conn) is Some),
{
    !conn.is_autocommit()
}

/// Relies on `ToString::to_string` via `rusqlite::Error`'s `Display`.
#[verifier::external_body]
fn sql_error_message(e: &rusqlite::Error) -> String {
    e.to_string()
}

/// Map a SQLite error to the library's store error, keeping its message.
fn store_err(e: rusqlite::Error) -> (r: TodoError)
    ensures
        r is Store,
{
    TodoError::Store(sql_error_message(&e))
}

/// The effect of deleting a task: its row and all its subtask rows go.
pub open spec fn delete_todo_effect(m: StoreModel, id: int) -> StoreModel {
    delete_task_row_effect(delete_subs_of_effect(m, id), id)
}

/// The effect of inserting a sequence of subtask rows under one task, in
/// order.
pub open spec fn insert_subs_effect(m: StoreModel, todo_id: int, subs: Seq<SubtaskView>) -> StoreModel
    decreases subs.len(),
{
    if subs.len() == 0 {
        m
    } else {
        let prev = insert_subs_effect(m, todo_id, subs.drop_last());
        insert_sub_effect(prev, todo_id, subs.last().text, subs.last().status)
    }
}

/// The effect of inserting one task with its subtasks: the task row gets the
/// next task id, and each subtask row follows under that id.
pub open spec fn add_todo_effect(m: StoreModel, t: TodoView) -> StoreModel {
    insert_subs_effect(insert_task_effect(m, t), m.next_task_id, t.subtasks)
}

/// The effect of inserting a sequence of tasks, in order.
pub open spec fn add_todos_effect(m: StoreModel, ts: Seq<TodoView>) -> StoreModel
    decreases ts.len(),
{
    if ts.len() == 0 {
        m
    } else {
        add_todo_effect(add_todos_effect(m, ts.drop_last()), ts.last())
    }
}

/// The effect of a bulk import: both tables cleared, then every task
/// inserted with fresh ids.
pub open spec fn bulk_replace_effect(m: StoreModel, ts: Seq<TodoView>) -> StoreModel {
    add_todos_effect(clear_subs_effect(clear_tasks_effect(m)), ts)
}

// ---------------------------------------------------------------------------
// The store invariant survives every effect.
// ---------------------------------------------------------------------------

proof fn lemma_filter_tasks_sorted(s: Seq<TaskRowView>, pred: spec_fn(TaskRowView) -> bool, bound: int)
    requires
        forall|i: int, j: int| #![trigger s[i], s[j]] 0 <= i < j < s.len() ==> s[i].id < s[j].id,
        forall|i: int| #![trigger s[i]] 0 <= i < s.len() ==> 1 <= s[i].id < bound,
    ensures
        forall|i: int, j: int| #![trigger s.filter(pred)[i], s.filter(pred)[j]]
            0 <= i < j < s.filter(pred).len() ==> s.filter(pred)[i].id < s.filter(pred)[j].id,
        forall|i: int| #![trigger s.filter(pred)[i]]
            0 <= i < s.filter(pred).len() ==> 1 <= s.filter(pred)[i].id < bound,
    decreases s.len(),
{
    reveal(Seq::filter);
    if s.len() > 0 {
        let sub = s.drop_last();
        let last = s.last();
        assert(1 <= last.id < bound);
        assert forall|i: int| 0 <= i < sub.len() implies 1 <= #[trigger] sub[i].id < last.id by {
            assert(sub[i] == s[i]);
            assert(s[i].id < s[s.len() - 1].id);
        }
        lemma_filter_tasks_sorted(sub, pred, last.id);
        assert forall|i: int| 0 <= i < sub.filter(pred).len()
            implies 1 <= #[trigger] sub.filter(pred)[i].id < bound by {
            assert(sub.filter(pred)[i].id < last.id);
        }
        if pred(last) {
            assert(s.filter(pred) == sub.filter(pred).push(last));
        } else {
            assert(s.filter(pred) == sub.filter(pred));
        }
    }
}

proof fn lemma_filter_subs_sorted(s: Seq<SubtaskView>, pred: spec_fn(SubtaskView) -> bool, bound: int)
    requires
        forall|i: int, j: int| #![trigger s[i], s[j]] 0 <= i < j < s.len()
            ==> s[i].subtask_id < s[j].subtask_id,
        forall|i: int| #![trigger s[i]] 0 <= i < s.len() ==> 1 <= s[i].subtask_id < bound,
    ensures
        forall|i: int, j: int| #![trigger s.filter(pred)[i], s.filter(pred)[j]]
            0 <= i < j < s.filter(pred).len()
            ==> s.filter(pred)[i].subtask_id < s.filter(pred)[j].subtask_id,
        forall|i: int| #![trigger s.filter(pred)[i]]
            0 <= i < s.filter(pred).len() ==> 1 <= s.filter(pred)[i].subtask_id < bound,
    decreases s.len(),
{
    reveal(Seq::filter);
    if s.len() > 0 {
        let sub = s.drop_last();
        let last = s.last();
        assert(1 <= last.subtask_id < bound);
        assert forall|i: int| 0 <= i < sub.len()
            implies 1 <= #[trigger] sub[i].subtask_id < last.subtask_id by {
            assert(sub[i] == s[i]);
            assert(s[i].subtask_id < s[s.len() - 1].subtask_id);
        }
        lemma_filter_subs_sorted(sub, pred, last.subtask_id);
        assert forall|i: int| 0 <= i < sub.filter(pred).len()
            implies 1 <= #[trigger] sub.filter(pred)[i].subtask_id < bound by {
            assert(sub.filter(pred)[i].subtask_id < last.subtask_id);
        }
        if pred(last) {
            assert(s.filter(pred) == sub.filter(pred).push(last));
        } else {
            assert(s.filter(pred) == sub.filter(pred));
        }
    }
}

proof fn lemma_inv_delete_task_row(m: StoreModel, id: int)
    requires
        store_inv(m),
        forall|i: int| 0 <= i < m.subs.len() ==> (#[trigger] m.subs[i]).todo_id != id,
    ensures
        store_inv(delete_task_row_effect(m, id)),
{
    lemma_filter_tasks_sorted(m.tasks, task_id_not(id), m.next_task_id);
    let m2 = delete_task_row_effect(m, id);
    assert forall|i: int| #![trigger m2.subs[i]] 0 <= i < m2.subs.len()
        implies has_task(m2, m2.subs[i].todo_id) by {
        assert(m2.subs[i] == m.subs[i]);
        let j = choose|j: int| 0 <= j < m.tasks.len() && m.tasks[j].id == m.subs[i].todo_id;
        assert(task_id_not(id)(m.tasks[j]));
        m.tasks.lemma_filter_contains(task_id_not(id), j);
        assert(m2.tasks.contains(m.tasks[j]));
        let j2 = choose|j2: int| 0 <= j2 < m2.tasks.len()
            && #[trigger] m2.tasks[j2] == m.tasks[j];
        assert(0 <= j2 < m2.tasks.len() && m2.tasks[j2].id == m2.subs[i].todo_id);
    }
}

/// Dropping subtask rows never orphans the ones that stay.
proof fn lemma_filter_orphan_free(m: StoreModel, pred: spec_fn(SubtaskView) -> bool)
    requires
        store_inv(m),
    ensures
        forall|k: int| #![trigger m.subs.filter(pred)[k]] 0 <= k < m.subs.filter(pred).len()
            ==> has_task(m, m.subs.filter(pred)[k].todo_id),
{
    lemma_filter_elements_subs(m.subs, pred);
    assert forall|k: int| #![trigger m.subs.filter(pred)[k]] 0 <= k < m.subs.filter(pred).len()
        implies has_task(m, m.subs.filter(pred)[k].todo_id) by {
        let i = choose|i: int| 0 <= i < m.subs.len() && m.subs.filter(pred)[k] == m.subs[i];
        assert(has_task(m, m.subs[i].todo_id));
    }
}

proof fn lemma_inv_delete_subs_of(m: StoreModel, id: int)
    requires
        store_inv(m),
    ensures
        store_inv(delete_subs_of_effect(m, id)),
{
    lemma_filter_subs_sorted(m.subs, sub_not_of_task(id), m.next_sub_id);
    lemma_filter_orphan_free(m, sub_not_of_task(id));
    let m2 = delete_subs_of_effect(m, id);
    assert forall|i: int| #![trigger m2.subs[i]] 0 <= i < m2.subs.len()
        implies has_task(m2, m2.subs[i].todo_id) by {
        assert(has_task(m, m2.subs[i].todo_id));
        let j = choose|j: int| 0 <= j < m.tasks.len() && m.tasks[j].id == m2.subs[i].todo_id;
        assert(0 <= j < m2.tasks.len() && m2.tasks[j].id == m2.subs[i].todo_id);
    }
}

proof fn lemma_inv_delete_sub(m: StoreModel, subtask_id: int)
    requires
        store_inv(m),
    ensures
        store_inv(delete_sub_effect(m, subtask_id)),
{
    lemma_filter_subs_sorted(m.subs, sub_id_not(subtask_id), m.next_sub_id);
    lemma_filter_orphan_free(m, sub_id_not(subtask_id));
    let m2 = delete_sub_effect(m, subtask_id);
    assert forall|i: int| #![trigger m2.subs[i]] 0 <= i < m2.subs.len()
        implies has_task(m2, m2.subs[i].todo_id) by {
        assert(has_task(m, m2.subs[i].todo_id));
        let j = choose|j: int| 0 <= j < m.tasks.len() && m.tasks[j].id == m2.subs[i].todo_id;
        assert(0 <= j < m2.tasks.len() && m2.tasks[j].id == m2.subs[i].todo_id);
    }
}

proof fn lemma_inv_set_status(m: StoreModel, id: int, status: Seq<char>)
    requires
        store_inv(m),
    ensures
        store_inv(set_status_effect(m, id, status)),
{
    let m2 = set_status_effect(m, id, status);
    assert forall|i: int| 0 <= i < m2.tasks.len() implies #[trigger] m2.tasks[i].id == m.tasks[i].id by {}
    assert forall|i: int, j: int| #![trigger m2.tasks[i], m2.tasks[j]] 0 <= i < j < m2.tasks.len()
        implies m2.tasks[i].id < m2.tasks[j].id by {
        assert(m.tasks[i].id < m.tasks[j].id);
    }
    assert forall|i: int| #![trigger m2.subs[i]] 0 <= i < m2.subs.len()
        implies has_task(m2, m2.subs[i].todo_id) by {
        assert(m2.subs[i] == m.subs[i]);
        let j = choose|j: int| 0 <= j < m.tasks.len() && m.tasks[j].id == m.subs[i].todo_id;
        assert(0 <= j < m2.tasks.len() && m2.tasks[j].id == m2.subs[i].todo_id);
    }
}

proof fn lemma_inv_set_priority(m: StoreModel, id: int, priority: Seq<char>)
    requires
        store_inv(m),
    ensures
        store_inv(set_priority_effect(m, id, priority)),
{
    let m2 = set_priority_effect(m, id, priority);
    assert forall|i: int| 0 <= i < m2.tasks.len() implies #[trigger] m2.tasks[i].id == m.tasks[i].id by {}
    assert forall|i: int, j: int| #![trigger m2.tasks[i], m2.tasks[j]] 0 <= i < j < m2.tasks.len()
        implies m2.tasks[i].id < m2.tasks[j].id by {
        assert(m.tasks[i].id < m.tasks[j].id);
    }
    assert forall|i: int| #![trigger m2.subs[i]] 0 <= i < m2.subs.len()
        implies has_task(m2, m2.subs[i].todo_id) by {
        assert(m2.subs[i] == m.subs[i]);
        let j = choose|j: int| 0 <= j < m.tasks.len() && m.tasks[j].id == m.subs[i].todo_id;
        assert(0 <= j < m2.tasks.len() && m2.tasks[j].id == m2.subs[i].todo_id);
    }
}

proof fn lemma_inv_set_sub_status(m: StoreModel, todo_id: int, subtask_id: int, status: Seq<char>)
    requires
        store_inv(m),
    ensures
        store_inv(set_sub_status_effect(m, todo_id, subtask_id, status)),
{
    let m2 = set_sub_status_effect(m, todo_id, subtask_id, status);
    assert forall|i: int| 0 <= i < m2.subs.len()
        implies #[trigger] m2.subs[i].subtask_id == m.subs[i].subtask_id
            && m2.subs[i].todo_id == m.subs[i].todo_id by {}
    assert forall|i: int, j: int| #![trigger m2.subs[i], m2.subs[j]] 0 <= i < j < m2.subs.len()
        implies m2.subs[i].subtask_id < m2.subs[j].subtask_id by {
        assert(m.subs[i].subtask_id < m.subs[j].subtask_id);
    }
    assert forall|i: int| #![trigger m2.subs[i]] 0 <= i < m2.subs.len()
        implies has_task(m2, m2.subs[i].todo_id) by {
        assert(m2.subs[i].todo_id == m.subs[i].todo_id);
        let j = choose|j: int| 0 <= j < m.tasks.len() && m.tasks[j].id == m.subs[i].todo_id;
        assert(m2.tasks[j] == m.tasks[j]);
        assert(0 <= j < m2.tasks.len() && m2.tasks[j].id == m2.subs[i].todo_id);
    }
}

proof fn lemma_inv_insert_task(m: StoreModel, t: TodoView)
    requires
        store_inv(m),
        m.next_task_id <= i64::MAX as int,
    ensures
        store_inv(insert_task_effect(m, t)),
{
    let m2 = insert_task_effect(m, t);
    assert forall|i: int, j: int| #![trigger m2.tasks[i], m2.tasks[j]] 0 <= i < j < m2.tasks.len()
        implies m2.tasks[i].id < m2.tasks[j].id by {
        if j < m2.tasks.len() - 1 {
            assert(m2.tasks[i] == m.tasks[i]);
            assert(m2.tasks[j] == m.tasks[j]);
        } else {
            assert(m2.tasks[i] == m.tasks[i]);
        }
    }
    assert forall|i: int| 0 <= i < m2.tasks.len()
        implies 1 <= (#[trigger] m2.tasks[i]).id < m2.next_task_id by {
        if i < m2.tasks.len() - 1 {
            assert(m2.tasks[i] == m.tasks[i]);
        }
    }
    assert forall|i: int| #![trigger m2.subs[i]] 0 <= i < m2.subs.len()
        implies has_task(m2, m2.subs[i].todo_id) by {
        assert(m2.subs[i] == m.subs[i]);
        let j = choose|j: int| 0 <= j < m.tasks.len() && m.tasks[j].id == m.subs[i].todo_id;
        assert(m2.tasks[j] == m.tasks[j]);
        assert(0 <= j < m2.tasks.len() && m2.tasks[j].id == m2.subs[i].todo_id);
    }
}

proof fn lemma_inv_insert_sub(m: StoreModel, todo_id: int, text: Seq<char>, status: Seq<char>)
    requires
        store_inv(m),
        has_task(m, todo_id),
        m.next_sub_id <= i64::MAX as int,
    ensures
        store_inv(insert_sub_effect(m, todo_id, text, status)),
{
    let m2 = insert_sub_effect(m, todo_id, text, status);
    assert forall|i: int, j: int| #![trigger m2.subs[i], m2.subs[j]] 0 <= i < j < m2.subs.len()
        implies m2.subs[i].subtask_id < m2.subs[j].subtask_id by {
        if j < m2.subs.len() - 1 {
            assert(m2.subs[i] == m.subs[i]);
            assert(m2.subs[j] == m.subs[j]);
        } else {
            assert(m2.subs[i] == m.subs[i]);
        }
    }
    assert forall|i: int| 0 <= i < m2.subs.len()
        implies 1 <= (#[trigger] m2.subs[i]).subtask_id < m2.next_sub_id by {
        if i < m2.subs.len() - 1 {
            assert(m2.subs[i] == m.subs[i]);
        }
    }
    assert forall|i: int| #![trigger m2.subs[i]] 0 <= i < m2.subs.len()
        implies has_task(m2, m2.subs[i].todo_id) by {
        if i < m2.subs.len() - 1 {
            assert(m2.subs[i] == m.subs[i]);
            let j = choose|j: int| 0 <= j < m.tasks.len() && m.tasks[j].id == m.subs[i].todo_id;
            assert(0 <= j < m2.tasks.len() && m2.tasks[j].id == m2.subs[i].todo_id);
        } else {
            let j = choose|j: int| 0 <= j < m.tasks.len() && m.tasks[j].id == todo_id;
            assert(0 <= j < m2.tasks.len() && m2.tasks[j].id == m2.subs[i].todo_id);
        }
    }
}

/// Inserting subtask rows never touches the task table or its counter.
proof fn lemma_insert_subs_tasks_same(m: StoreModel, todo_id: int, subs: Seq<SubtaskView>)
    ensures
        insert_subs_effect(m, todo_id, subs).tasks == m.tasks,
        insert_subs_effect(m, todo_id, subs).next_task_id == m.next_task_id,
        insert_subs_effect(m, todo_id, subs).cred == m.cred,
    decreases subs.len(),
{
    if subs.len() > 0 {
        lemma_insert_subs_tasks_same(m, todo_id, subs.drop_last());
    }
}



proof fn lemma_set_status_absent(m: StoreModel, id: int, status: Seq<char>)
    requires
        !has_task(m, id),
    ensures
        set_status_effect(m, id, status) == m,
{
    let m2 = set_status_effect(m, id, status);
    assert forall|i: int| 0 <= i < m2.tasks.len() implies #[trigger] m2.tasks[i] == m.tasks[i] by {
        assert(!(0 <= i < m.tasks.len() && m.tasks[i].id == id));
    }
    assert(m2.tasks =~= m.tasks);
}

proof fn lemma_set_priority_absent(m: StoreModel, id: int, priority: Seq<char>)
    requires
        !has_task(m, id),
    ensures
        set_priority_effect(m, id, priority) == m,
{
    let m2 = set_priority_effect(m, id, priority);
    assert forall|i: int| 0 <= i < m2.tasks.len() implies #[trigger] m2.tasks[i] == m.tasks[i] by {
        assert(!(0 <= i < m.tasks.len() && m.tasks[i].id == id));
    }
    assert(m2.tasks =~= m.tasks);
}

proof fn lemma_set_sub_status_absent(m: StoreModel, todo_id: int, subtask_id: int, status: Seq<char>)
    requires
        !has_sub(m, todo_id, subtask_id),
    ensures
        set_sub_status_effect(m, todo_id, subtask_id, status) == m,
{
    let m2 = set_sub_status_effect(m, todo_id, subtask_id, status);
    assert forall|i: int| 0 <= i < m2.subs.len() implies #[trigger] m2.subs[i] == m.subs[i] by {
        assert(!(0 <= i < m.subs.len() && m.subs[i].todo_id == todo_id
            && m.subs[i].subtask_id == subtask_id));
    }
    assert(m2.subs =~= m.subs);
}

/// The two open-time checks together give the store invariant.
proof fn lemma_open_checks_give_inv(m: StoreModel)
    requires
        schema_facts(m),
        rows_facts(m),
    ensures
        store_inv(m),
{
}

// ---------------------------------------------------------------------------
// The store handle.
// ---------------------------------------------------------------------------

/// The store handle: one long-lived SQLite connection. The contracts read
/// the database as a function of this handle, so keep one handle per file:
/// a second handle (or another process) writing the same file between calls
/// is outside the model, as the system is specified single-user and
/// single-threaded.
pub struct DBtodo {
    pub connection: rusqlite::Connection,
}

impl View for DBtodo {
    type V = StoreModel;

    open spec fn view(&self) -> StoreModel {
        db_state(self.connection)
    }
}

impl DBtodo {
    /// Whether a transaction is open on the handle.
    pub open spec fn in_txn(&self) -> bool {
        db_txn(self.connection) is Some
    }

    /// A well-formed handle: the tables carry this library's schema, the
    /// contents obey the id discipline, and no transaction is left open
    /// between operations.
    pub open spec fn wf(&self) -> bool {
        store_inv(self@) && !self.in_txn() && db_schema_ok(self.connection)
    }

    /// Open (or create) the database file at the path, create the schema,
    /// and verify the file: the tables must carry this library's
    /// declarations and the rows its id discipline, else opening fails.
    pub fn new(db_path: &str) -> (r: Result<DBtodo, TodoError>)
        ensures
            r matches Ok(db) ==> db.wf(),
            r matches Err(e) ==> (e is Startup),
    {
        let connection = match sql_open(db_path) {
            Ok(c) => c,
            Err(e) => return Err(TodoError::Startup(sql_error_message(&e))),
        };
        let mut db = DBtodo { connection };
        if let Err(e) = db.create_schema() {
            return Err(TodoError::Startup(e.message()));
        }
        db.verify_contents()?;
        Ok(db)
    }

    /// Open a fresh, empty in-memory store and create the schema.
    pub fn new_in_memory() -> (r: Result<DBtodo, TodoError>)
        ensures
            r matches Ok(db) ==> db.wf() && db@ == empty_store(),
            r matches Err(e) ==> (e is Startup),
    {
        let connection = match sql_open_in_memory() {
            Ok(c) => c,
            Err(e) => return Err(TodoError::Startup(sql_error_message(&e))),
        };
        let mut db = DBtodo { connection };
        if let Err(e) = db.create_schema() {
            return Err(TodoError::Startup(e.message()));
        }
        db.verify_contents()?;
        Ok(db)
    }

    /// Check an opened database against what this library relies on: the
    /// three table declarations, positive ids, and no orphaned subtask row.
    fn verify_contents(&mut self) -> (r: Result<(), TodoError>)
        requires
            !old(self).in_txn(),
        ensures
            final(self)@ == old(self)@,
            final(self).in_txn() == old(self).in_txn(),
            r is Ok ==> final(self).wf(),
            r matches Err(e) ==> (e is Startup),
    {
        let schema_good = match sql_schema_check(&self.connection) {
            Ok(b) => b,
            Err(e) => return Err(TodoError::Startup(sql_error_message(&e))),
        };
        if !schema_good {
            return Err(TodoError::Startup(
                "the database file was not created by this application; move it aside or import its contents, then retry".to_owned(),
            ));
        }
        let rows_good = match sql_rows_check(&self.connection) {
            Ok(b) => b,
            Err(e) => return Err(TodoError::Startup(sql_error_message(&e))),
        };
        if !rows_good {
            return Err(TodoError::Startup(
                "the database file holds rows this application cannot have written".to_owned(),
            ));
        }
        proof {
            lemma_open_checks_give_inv(self@);
        }
        Ok(())
    }

    /// Create the tables if they are absent. Safe to run on every startup:
    /// it never changes existing data, so creating the schema twice leaves
    /// the same queryable data as creating it once.
    pub fn create_schema(&mut self) -> (r: Result<(), TodoError>)
        requires
            !old(self).in_txn(),
        ensures
            final(self)@ == old(self)@,
            final(self).in_txn() == old(self).in_txn(),
            db_schema_ok(old(self).connection) ==> db_schema_ok(final(self).connection),
            r matches Err(e) ==> (e is Store),
    {
        match sql_create_schema(&mut self.connection) {
            Ok(()) => Ok(()),
            Err(e) => Err(store_err(e)),
        }
    }

    /// List every task with its subtasks attached, in id order.
    pub fn get_todos(&self) -> (r: Result<Vec<Todo>, TodoError>)
        requires
            self.wf(),
        ensures
            r matches Ok(v) ==> todo_views(v@) == listed(self@),
            r matches Err(e) ==> (e is Store),
    {
        let rows = match sql_select_tasks(&self.connection) {
            Ok(v) => v,
            Err(e) => return Err(store_err(e)),
        };
        let mut out: Vec<Todo> = Vec::new();
        let mut i: usize = 0;
        while i < rows.len()
            invariant
                self.wf(),
                i <= rows.len(),
                todo_views(rows@) == listed_rows(self@),
                out.len() == i,
                forall|j: int| 0 <= j < i ==> out@[j]@ == listed(self@)[j],
            decreases rows.len() - i,
        {
            proof {
                assert(todo_views(rows@).len() == rows@.len());
                assert(listed_rows(self@).len() == self@.tasks.len());
                assert(todo_views(rows@)[i as int] == rows@[i as int]@);
                assert(listed_rows(self@)[i as int] == row_todo(self@.tasks[i as int]));
                assert(rows@[i as int]@ == row_todo(self@.tasks[i as int]));
                assert(rows@[i as int]@.id == self@.tasks[i as int].id);
                assert(rows@[i as int].id as int <= i64::MAX as int);
            }
            let subs = match sql_select_subs_of(&self.connection, rows[i].id) {
                Ok(s) => s,
                Err(e) => return Err(store_err(e)),
            };
            let mut t = rows[i].clone();
            t.subtasks = subs;
            proof {
                assert(listed(self@).len() == self@.tasks.len());
                assert(listed(self@)[i as int] == TodoView {
                    subtasks: subs_of(self@, self@.tasks[i as int].id),
                    ..row_todo(self@.tasks[i as int])
                });
                assert(t@.subtasks == subs_of(self@, self@.tasks[i as int].id));
                assert(t@ =~= listed(self@)[i as int]);
            }
            out.push(t);
            i = i + 1;
        }
        proof {
            assert(todo_views(rows@).len() == rows@.len());
            assert(listed_rows(self@).len() == self@.tasks.len());
            assert(listed(self@).len() == self@.tasks.len());
            assert(todo_views(out@).len() == out@.len());
            assert(todo_views(out@) =~= listed(self@));
        }
        Ok(out)
    }

    /// The subtask texts of one task, in insertion order.
    pub fn get_subtasks(&self, todo_id: usize) -> (r: Result<Vec<String>, TodoError>)
        requires
            self.wf(),
        ensures
            r matches Ok(v) ==> v@.len() == subs_of(self@, todo_id as int).len()
                && forall|j: int| 0 <= j < v@.len()
                    ==> v@[j]@ == subs_of(self@, todo_id as int)[j].text,
            r matches Err(e) ==> (e is Store),
    {
        if todo_id as u64 > i64::MAX as u64 {
            proof {
                assert(todo_id as int > i64::MAX as int);
                assert forall|i: int| 0 <= i < self@.subs.len()
                    implies !sub_of_task(todo_id as int)(#[trigger] self@.subs[i]) by {
                    assert(has_task(self@, self@.subs[i].todo_id));
                    let j = choose|j: int| 0 <= j < self@.tasks.len()
                        && self@.tasks[j].id == self@.subs[i].todo_id;
                    assert(self@.subs[i].todo_id <= i64::MAX as int);
                }
                lemma_filter_subs_none_true(self@.subs, sub_of_task(todo_id as int));
            }
            return Ok(Vec::new());
        }
        let subs = match sql_select_subs_of(&self.connection, todo_id) {
            Ok(s) => s,
            Err(e) => return Err(store_err(e)),
        };
        let mut out: Vec<String> = Vec::new();
        let mut i: usize = 0;
        while i < subs.len()
            invariant
                i <= subs.len(),
                subtask_views(subs@) == subs_of(self@, todo_id as int),
                out.len() == i,
                forall|j: int| 0 <= j < i ==> out@[j]@ == subs_of(self@, todo_id as int)[j].text,
            decreases subs.len() - i,
        {
            proof {
                assert(subtask_views(subs@)[i as int] == subs@[i as int]@);
            }
            out.push(subs[i].text.clone());
            i = i + 1;
        }
        Ok(out)
    }

    /// Update one task's status; reports whether a matching row existed, and
    /// on `false` or on an error the store is unchanged.
    pub fn update_todo(&mut self, id: usize, status: String) -> (r: Result<bool, TodoError>)
        requires
            old(self).wf(),
        ensures
            final(self).wf(),
            r matches Ok(true) ==> final(self)@ == set_status_effect(old(self)@, id as int, status@)
                && has_task(old(self)@, id as int),
            r matches Ok(false) ==> final(self)@ == old(self)@ && !has_task(old(self)@, id as int),
            r matches Err(e) ==> final(self)@ == old(self)@ && (e is Store),
    {
        let n = match sql_update_status(&mut self.connection, id, &status) {
            Ok(n) => n,
            Err(e) => return Err(store_err(e)),
        };
        proof {
            lemma_inv_set_status(old(self)@, id as int, status@);
            if n == 0 {
                lemma_set_status_absent(old(self)@, id as int, status@);
            }
        }
        Ok(n > 0)
    }

    /// Update one task's priority; reports whether a matching row existed,
    /// and on `false` or on an error the store is unchanged.
    pub fn update_priority(&mut self, id: usize, priority: String) -> (r: Result<bool, TodoError>)
        requires
            old(self).wf(),
        ensures
            final(self).wf(),
            r matches Ok(true) ==> final(self)@ == set_priority_effect(
                old(self)@, id as int, priority@,
            ) && has_task(old(self)@, id as int),
            r matches Ok(false) ==> final(self)@ == old(self)@ && !has_task(old(self)@, id as int),
            r matches Err(e) ==> final(self)@ == old(self)@ && (e is Store),
    {
        let n = match sql_update_priority(&mut self.connection, id, &priority) {
            Ok(n) => n,
            Err(e) => return Err(store_err(e)),
        };
        proof {
            lemma_inv_set_priority(old(self)@, id as int, priority@);
            if n == 0 {
                lemma_set_priority_absent(old(self)@, id as int, priority@);
            }
        }
        Ok(n > 0)
    }

    /// Update one subtask's status; reports whether a matching row existed,
    /// and on `false` or on an error the store is unchanged.
    pub fn change_subtask_status(
        &mut self,
        todo_id: usize,
        subtask_id: usize,
        status: String,
    ) -> (r: Result<bool, TodoError>)
        requires
            old(self).wf(),
        ensures
            final(self).wf(),
            r matches Ok(true) ==> final(self)@ == set_sub_status_effect(
                old(self)@, todo_id as int, subtask_id as int, status@,
            ) && has_sub(old(self)@, todo_id as int, subtask_id as int),
            r matches Ok(false) ==> final(self)@ == old(self)@
                && !has_sub(old(self)@, todo_id as int, subtask_id as int),
            r matches Err(e) ==> final(self)@ == old(self)@ && (e is Store),
    {
        let n = match sql_update_sub_status(&mut self.connection, todo_id, subtask_id, &status) {
            Ok(n) => n,
            Err(e) => return Err(store_err(e)),
        };
        proof {
            lemma_inv_set_sub_status(old(self)@, todo_id as int, subtask_id as int, status@);
            if n == 0 {
                lemma_set_sub_status_absent(old(self)@, todo_id as int, subtask_id as int, status@);
            }
        }
        Ok(n > 0)
    }

    /// Delete one subtask by its own id; reports whether it existed.
    pub fn delete_subtask(&mut self, subtask_id: usize) -> (r: Result<bool, TodoError>)
        requires
            old(self).wf(),
        ensures
            final(self).wf(),
            r matches Ok(b) ==> final(self)@ == delete_sub_effect(old(self)@, subtask_id as int),
            r matches Err(e) ==> final(self)@ == old(self)@ && (e is Store),
    {
        let n = match sql_delete_subtask(&mut self.connection, subtask_id) {
            Ok(n) => n,
            Err(e) => return Err(store_err(e)),
        };
        proof {
            lemma_inv_delete_sub(old(self)@, subtask_id as int);
        }
        Ok(n > 0)
    }

    /// Append one subtask, status `Pending`, to an existing task; returns
    /// the store-assigned subtask id, or `NotFound` (store untouched) when
    /// no task has this id.
    pub fn append_subtask(&mut self, todo_id: usize, subtask: String) -> (r: Result<usize, TodoError>)
        requires
            old(self).wf(),
        ensures
            final(self).wf(),
            r matches Ok(sid) ==> final(self)@ == insert_sub_effect(
                old(self)@, todo_id as int, subtask@, "Pending"@,
            ) && sid as int == old(self)@.next_sub_id && has_task(old(self)@, todo_id as int),
            r matches Err(e) ==> final(self)@ == old(self)@ && ((e is NotFound) || (e is Store)),
            r matches Err(e) ==> ((e is NotFound) ==> !has_task(old(self)@, todo_id as int)),
    {
        if todo_id as u64 > i64::MAX as u64 {
            proof {
                assert(todo_id as int > i64::MAX as int);
                assert(!has_task(old(self)@, todo_id as int)) by {
                    if has_task(old(self)@, todo_id as int) {
                        let j = choose|j: int| 0 <= j < old(self)@.tasks.len()
                            && old(self)@.tasks[j].id == todo_id as int;
                    }
                }
            }
            return Err(TodoError::NotFound);
        }
        let found = match sql_task_exists(&self.connection, todo_id) {
            Ok(b) => b,
            Err(e) => return Err(store_err(e)),
        };
        if !found {
            return Err(TodoError::NotFound);
        }
        let status = "Pending".to_owned();
        let sid = match sql_insert_subtask(&mut self.connection, todo_id, &subtask, &status) {
            Ok(sid) => sid,
            Err(e) => return Err(store_err(e)),
        };
        proof {
            lemma_inv_insert_sub(old(self)@, todo_id as int, subtask@, "Pending"@);
        }
        Ok(sid)
    }

    /// The stored credential; an error when none is stored.
    pub fn get_api_credentials(&self) -> (r: Result<String, TodoError>)
        requires
            self.wf(),
        ensures
            r matches Ok(s) ==> self@.cred == Some(s@),
            (self@.cred is None) ==> (r is Err),
            r matches Err(e) ==> (e is Store),
    {
        match sql_get_cred(&self.connection) {
            Ok(s) => Ok(s),
            Err(e) => Err(store_err(e)),
        }
    }
}

/// The user-level configuration directory of this application.
pub struct ConfigDir {
    pub config_dir: String,
}

/// Relies on `directories::BaseDirs`: the platform's per-user configuration
/// directory, when the platform defines one.
#[verifier::external_body]
fn base_config_dir() -> (r: Option<String>) {
    directories::BaseDirs::new().map(|b| b.config_dir().to_string_lossy().into_owned())
}

impl ConfigDir {
    /// The directory this application keeps its database in: the platform
    /// configuration directory plus this application's folder.
    pub fn new() -> (r: Option<ConfigDir>)
        ensures
            r matches Some(c) ==> exists|p: Seq<char>| c.config_dir@ == p + "/voido"@,
    {
        match base_config_dir() {
            Some(base) => {
                let mut dir = base;
                dir.append("/voido");
                Some(ConfigDir { config_dir: dir })
            },
            None => None,
        }
    }

    /// The path of the database file inside the configuration directory.
    pub fn db_path(&self) -> (r: String)
        ensures
            r@ == self.config_dir@ + "/todos.db"@,
    {
        let mut p = self.config_dir.clone();
        p.append("/todos.db");
        p
    }
}


proof fn lemma_filter_tasks_all_true(s: Seq<TaskRowView>, pred: spec_fn(TaskRowView) -> bool)
    requires
        forall|i: int| 0 <= i < s.len() ==> pred(#[trigger] s[i]),
    ensures
        s.filter(pred) == s,
    decreases s.len(),
{
    reveal(Seq::filter);
    if s.len() > 0 {
        let sub = s.drop_last();
        assert forall|i: int| 0 <= i < sub.len() implies pred(#[trigger] sub[i]) by {
            assert(sub[i] == s[i]);
        }
        lemma_filter_tasks_all_true(sub, pred);
        assert(pred(s.last()));
        assert(sub.push(s.last()) =~= s);
    }
}

/// Deleting an id no task has changes nothing at all: with every subtask
/// row under an existing task, no subtask row carries the missing id
/// either.
proof fn lemma_delete_absent_noop(m: StoreModel, id: int)
    requires
        store_inv(m),
        !has_task(m, id),
    ensures
        delete_todo_effect(m, id) == m,
{
    assert forall|i: int| 0 <= i < m.subs.len()
        implies sub_not_of_task(id)(#[trigger] m.subs[i]) by {
        if m.subs[i].todo_id == id {
            assert(has_task(m, m.subs[i].todo_id));
        }
    }
    lemma_filter_subs_all_true(m.subs, sub_not_of_task(id));
    assert forall|i: int| 0 <= i < m.tasks.len()
        implies task_id_not(id)(#[trigger] m.tasks[i]) by {
        if m.tasks[i].id == id {
            assert(has_task(m, id));
        }
    }
    lemma_filter_tasks_all_true(m.tasks, task_id_not(id));
}


impl DBtodo {
    /// Insert one task row and its subtask rows inside the open transaction;
    /// on an error the transaction stays open for the caller to roll back.
    fn insert_todo_in_txn(&mut self, todo: &Todo) -> (r: Result<usize, rusqlite::Error>)
        requires
            db_schema_ok(old(self).connection),
            store_inv(db_state(old(self).connection)),
        ensures
            db_schema_ok(final(self).connection),
            r matches Ok(id) ==> final(self)@ == add_todo_effect(old(self)@, todo@)
                && id as int == old(self)@.next_task_id
                && store_inv(db_state(final(self).connection))
                && db_txn(final(self).connection) == db_txn(old(self).connection),
            r is Err ==> db_txn(final(self).connection) == db_txn(old(self).connection)
                || ((db_txn(old(self).connection) is Some)
                    && db_state(final(self).connection) == db_txn(old(self).connection).unwrap()
                    && !final(self).in_txn()),
    {
        let id = match sql_insert_task(&mut self.connection, todo) {
            Ok(i) => i,
            Err(e) => return Err(e),
        };
        proof {
            lemma_inv_insert_task(old(self)@, todo@);
            assert(has_task(db_state(self.connection), id as int)) by {
                let m1w = insert_task_effect(old(self)@, todo@);
                assert(m1w.tasks[m1w.tasks.len() - 1].id == id as int);
            }
        }
        let ghost m1 = insert_task_effect(old(self)@, todo@);
        let mut k: usize = 0;
        while k < todo.subtasks.len()
            invariant
                k <= todo.subtasks.len(),
                db_state(self.connection) == insert_subs_effect(
                    m1, id as int, subtask_views(todo.subtasks@).take(k as int),
                ),
                db_txn(self.connection) == db_txn(old(self).connection),
                db_schema_ok(self.connection),
                store_inv(db_state(self.connection)),
                has_task(db_state(self.connection), id as int),
                id as int == old(self)@.next_task_id,
                id as int <= i64::MAX as int,
                m1 == insert_task_effect(old(self)@, todo@),
            decreases todo.subtasks.len() - k,
        {
            let ghost pre = db_state(self.connection);
            match sql_insert_subtask(
                &mut self.connection,
                id,
                &todo.subtasks[k].text,
                &todo.subtasks[k].status,
            ) {
                Ok(_) => {},
                Err(e) => return Err(e),
            }
            proof {
                let subs = subtask_views(todo.subtasks@);
                assert(subs[k as int] == todo.subtasks@[k as int]@);
                assert(subs.take(k as int + 1).drop_last() =~= subs.take(k as int));
                assert(subs.take(k as int + 1).last() == subs[k as int]);
                lemma_inv_insert_sub(
                    pre, id as int, todo.subtasks@[k as int].text@,
                    todo.subtasks@[k as int].status@,
                );
                assert(has_task(db_state(self.connection), id as int)) by {
                    let j = choose|j: int| 0 <= j < pre.tasks.len()
                        && pre.tasks[j].id == id as int;
                    assert(db_state(self.connection).tasks[j].id == id as int);
                }
            }
            k = k + 1;
        }
        proof {
            let subs = subtask_views(todo.subtasks@);
            assert(subs.take(todo.subtasks@.len() as int) =~= subs);
            assert(todo@.subtasks == subs);
        }
        Ok(id)
    }

    /// After a failure inside a transaction, return the store to the
    /// snapshot it began from: roll back if the transaction is still open
    /// (SQLite may already have rolled it back on its own, which the
    /// autocommit flag reveals).
    fn recover_txn(&mut self, Ghost(base): Ghost<StoreModel>)
        requires
            db_txn(old(self).connection) == Some(base)
                || (!old(self).in_txn() && db_state(old(self).connection) == base),
        ensures
            final(self)@ == base,
            !final(self).in_txn(),
            db_schema_ok(final(self).connection) == db_schema_ok(old(self).connection),
    {
        if sql_in_txn(&self.connection) {
            let _ = sql_rollback(&mut self.connection);
        }
    }

    /// Insert one task with its subtasks, as one atomic unit: either the
    /// task row and every subtask row are stored (the returned id is the
    /// store-assigned task id), or the store is unchanged.
    pub fn add_todo(&mut self, todo: &Todo) -> (r: Result<usize, TodoError>)
        requires
            old(self).wf(),
        ensures
            final(self).wf(),
            r matches Ok(id) ==> final(self)@ == add_todo_effect(old(self)@, todo@)
                && id as int == old(self)@.next_task_id,
            r matches Err(e) ==> final(self)@ == old(self)@ && (e is Store),
    {
        if let Err(e) = sql_begin(&mut self.connection) {
            return Err(store_err(e));
        }
        match self.insert_todo_in_txn(todo) {
            Ok(id) => {
                match sql_commit(&mut self.connection) {
                    Ok(()) => Ok(id),
                    Err(e) => {
                        self.recover_txn(Ghost(old(self)@));
                        Err(store_err(e))
                    },
                }
            },
            Err(e) => {
                let msg = store_err(e);
                self.recover_txn(Ghost(old(self)@));
                Err(msg)
            },
        }
    }

    /// Delete one task and, with it, every subtask row it owns, as one
    /// atomic unit; reports whether the task existed. Without a matching
    /// task nothing changes at all.
    pub fn delete_todo(&mut self, id: usize) -> (r: Result<bool, TodoError>)
        requires
            old(self).wf(),
        ensures
            final(self).wf(),
            r matches Ok(b) ==> final(self)@ == delete_todo_effect(old(self)@, id as int)
                && b == has_task(old(self)@, id as int),
            r matches Ok(false) ==> final(self)@ == old(self)@,
            r matches Err(e) ==> final(self)@ == old(self)@ && (e is Store),
    {
        if id as u64 > i64::MAX as u64 {
            proof {
                assert(id as int > i64::MAX as int);
                assert(!has_task(old(self)@, id as int)) by {
                    if has_task(old(self)@, id as int) {
                        let j = choose|j: int| 0 <= j < old(self)@.tasks.len()
                            && old(self)@.tasks[j].id == id as int;
                    }
                }
                lemma_delete_absent_noop(old(self)@, id as int);
            }
            return Ok(false);
        }
        if let Err(e) = sql_begin(&mut self.connection) {
            return Err(store_err(e));
        }
        if let Err(e) = sql_delete_subs_of(&mut self.connection, id) {
            let msg = store_err(e);
            self.recover_txn(Ghost(old(self)@));
            return Err(msg);
        }
        proof {
            lemma_inv_delete_subs_of(old(self)@, id as int);
        }
        let n = match sql_delete_task(&mut self.connection, id) {
            Ok(n) => n,
            Err(e) => {
                let msg = store_err(e);
                self.recover_txn(Ghost(old(self)@));
                return Err(msg);
            },
        };
        match sql_commit(&mut self.connection) {
            Ok(()) => {
                proof {
                    lemma_inv_delete_task_row(delete_subs_of_effect(old(self)@, id as int), id as int);
                    if n == 0 {
                        lemma_delete_absent_noop(old(self)@, id as int);
                    }
                }
                Ok(n > 0)
            },
            Err(e) => {
                self.recover_txn(Ghost(old(self)@));
                Err(store_err(e))
            },
        }
    }

    /// Delete every task and every subtask, as one atomic unit; reports
    /// whether any task existed. The id counters are kept, so ids are never
    /// reused.
    pub fn clear_all_todos(&mut self) -> (r: Result<bool, TodoError>)
        requires
            old(self).wf(),
        ensures
            final(self).wf(),
            r matches Ok(b) ==> final(self)@ == clear_subs_effect(clear_tasks_effect(old(self)@))
                && b == (old(self)@.tasks.len() > 0),
            r matches Err(e) ==> final(self)@ == old(self)@ && (e is Store),
    {
        if let Err(e) = sql_begin(&mut self.connection) {
            return Err(store_err(e));
        }
        let n = match sql_clear_tasks(&mut self.connection) {
            Ok(n) => n,
            Err(e) => {
                let msg = store_err(e);
                self.recover_txn(Ghost(old(self)@));
                return Err(msg);
            },
        };
        if let Err(e) = sql_clear_subs(&mut self.connection) {
            let msg = store_err(e);
            self.recover_txn(Ghost(old(self)@));
            return Err(msg);
        }
        match sql_commit(&mut self.connection) {
            Ok(()) => Ok(n > 0),
            Err(e) => {
                self.recover_txn(Ghost(old(self)@));
                Err(store_err(e))
            },
        }
    }

    /// Empty the store completely; the same operation as `clear_all_todos`,
    /// offered under the name the command surface uses.
    pub fn flush_db(&mut self) -> (r: Result<bool, TodoError>)
        requires
            old(self).wf(),
        ensures
            final(self).wf(),
            r matches Ok(b) ==> final(self)@ == clear_subs_effect(clear_tasks_effect(old(self)@))
                && b == (old(self)@.tasks.len() > 0),
            r matches Err(e) ==> final(self)@ == old(self)@ && (e is Store),
    {
        self.clear_all_todos()
    }

    /// Store the credential, replacing whatever was stored, as one atomic
    /// unit.
    pub fn set_api_credentials(&mut self, apikey: String) -> (r: Result<(), TodoError>)
        requires
            old(self).wf(),
        ensures
            final(self).wf(),
            r is Ok ==> final(self)@ == set_cred_effect(old(self)@, apikey@),
            r matches Err(e) ==> final(self)@ == old(self)@ && (e is Store),
    {
        if let Err(e) = sql_begin(&mut self.connection) {
            return Err(store_err(e));
        }
        if let Err(e) = sql_clear_cred(&mut self.connection) {
            let msg = store_err(e);
            self.recover_txn(Ghost(old(self)@));
            return Err(msg);
        }
        if let Err(e) = sql_insert_cred(&mut self.connection, &apikey) {
            let msg = store_err(e);
            self.recover_txn(Ghost(old(self)@));
            return Err(msg);
        }
        match sql_commit(&mut self.connection) {
            Ok(()) => Ok(()),
            Err(e) => {
                self.recover_txn(Ghost(old(self)@));
                Err(store_err(e))
            },
        }
    }

    /// Replace the whole store with the given tasks, as one atomic unit:
    /// either both tables are cleared and every task inserted with fresh
    /// ids, or the store is unchanged.
    pub fn bulk_replace(&mut self, todos: &Vec<Todo>) -> (r: Result<(), TodoError>)
        requires
            old(self).wf(),
        ensures
            final(self).wf(),
            r is Ok ==> final(self)@ == bulk_replace_effect(old(self)@, todo_views(todos@)),
            r matches Err(e) ==> final(self)@ == old(self)@ && (e is Store),
    {
        if let Err(e) = sql_begin(&mut self.connection) {
            return Err(store_err(e));
        }
        if let Err(e) = sql_clear_tasks(&mut self.connection) {
            let msg = store_err(e);
            self.recover_txn(Ghost(old(self)@));
            return Err(msg);
        }
        if let Err(e) = sql_clear_subs(&mut self.connection) {
            let msg = store_err(e);
            self.recover_txn(Ghost(old(self)@));
            return Err(msg);
        }
        let ghost base = clear_subs_effect(clear_tasks_effect(old(self)@));
        let mut i: usize = 0;
        while i < todos.len()
            invariant
                i <= todos.len(),
                db_state(self.connection) == add_todos_effect(
                    base, todo_views(todos@).take(i as int),
                ),
                db_txn(self.connection) == Some(old(self)@),
                base == clear_subs_effect(clear_tasks_effect(old(self)@)),
                old(self).wf(),
                db_schema_ok(self.connection),
                store_inv(db_state(self.connection)),
            decreases todos.len() - i,
        {
            match self.insert_todo_in_txn(&todos[i]) {
                Ok(_) => {},
                Err(e) => {
                    let msg = store_err(e);
                    self.recover_txn(Ghost(old(self)@));
                    return Err(msg);
                },
            }
            proof {
                let ts = todo_views(todos@);
                assert(ts[i as int] == todos@[i as int]@);
                assert(ts.take(i as int + 1).drop_last() =~= ts.take(i as int));
                assert(ts.take(i as int + 1).last() == ts[i as int]);
            }
            i = i + 1;
        }
        proof {
            assert(todo_views(todos@).take(todos@.len() as int) =~= todo_views(todos@));
        }
        match sql_commit(&mut self.connection) {
            Ok(()) => Ok(()),
            Err(e) => {
                self.recover_txn(Ghost(old(self)@));
                Err(store_err(e))
            },
        }
    }
}


proof fn lemma_filter_subs_all_true(s: Seq<SubtaskView>, pred: spec_fn(SubtaskView) -> bool)
    requires
        forall|i: int| 0 <= i < s.len() ==> pred(#[trigger] s[i]),
    ensures
        s.filter(pred) == s,
    decreases s.len(),
{
    reveal(Seq::filter);
    if s.len() > 0 {
        let sub = s.drop_last();
        assert forall|i: int| 0 <= i < sub.len() implies pred(#[trigger] sub[i]) by {
            assert(sub[i] == s[i]);
        }
        lemma_filter_subs_all_true(sub, pred);
        assert(pred(s.last()));
        assert(sub.push(s.last()) =~= s);
    }
}

proof fn lemma_filter_elements_subs(s: Seq<SubtaskView>, pred: spec_fn(SubtaskView) -> bool)
    ensures
        forall|k: int| 0 <= k < s.filter(pred).len()
            ==> exists|i: int| 0 <= i < s.len() && #[trigger] s.filter(pred)[k] == s[i],
    decreases s.len(),
{
    reveal(Seq::filter);
    if s.len() > 0 {
        let sub = s.drop_last();
        lemma_filter_elements_subs(sub, pred);
        assert forall|k: int| 0 <= k < s.filter(pred).len()
            implies exists|i: int| 0 <= i < s.len() && #[trigger] s.filter(pred)[k] == s[i] by {
            if pred(s.last()) {
                assert(s.filter(pred) == sub.filter(pred).push(s.last()));
                if k < sub.filter(pred).len() {
                    assert(s.filter(pred)[k] == sub.filter(pred)[k]);
                    let i = choose|i: int| 0 <= i < sub.len() && sub.filter(pred)[k] == sub[i];
                    assert(sub[i] == s[i]);
                } else {
                    assert(s.filter(pred)[k] == s[s.len() - 1]);
                }
            } else {
                assert(s.filter(pred) == sub.filter(pred));
                let i = choose|i: int| 0 <= i < sub.len() && sub.filter(pred)[k] == sub[i];
                assert(sub[i] == s[i]);
            }
        }
    }
}

proof fn lemma_filter_comm_subs(
    s: Seq<SubtaskView>,
    p: spec_fn(SubtaskView) -> bool,
    q: spec_fn(SubtaskView) -> bool,
)
    ensures
        s.filter(p).filter(q) == s.filter(q).filter(p),
    decreases s.len(),
{
    reveal(Seq::filter);
    if s.len() > 0 {
        let sub = s.drop_last();
        let a = s.last();
        lemma_filter_comm_subs(sub, p, q);
        assert(sub.filter(p).push(a).drop_last() =~= sub.filter(p));
        assert(sub.filter(q).push(a).drop_last() =~= sub.filter(q));
        if p(a) {
            assert(s.filter(p) == sub.filter(p).push(a));
            assert(s.filter(p).filter(q) == (if q(a) {
                sub.filter(p).filter(q).push(a)
            } else {
                sub.filter(p).filter(q)
            }));
        } else {
            assert(s.filter(p) == sub.filter(p));
        }
        if q(a) {
            assert(s.filter(q) == sub.filter(q).push(a));
            assert(s.filter(q).filter(p) == (if p(a) {
                sub.filter(q).filter(p).push(a)
            } else {
                sub.filter(q).filter(p)
            }));
        } else {
            assert(s.filter(q) == sub.filter(q));
        }
    }
}

proof fn lemma_filter_removes_one_task(s: Seq<TaskRowView>, idx: int, id: int)
    requires
        0 <= idx < s.len(),
        s[idx].id == id,
        forall|i: int| 0 <= i < s.len() && i != idx ==> (#[trigger] s[i]).id != id,
    ensures
        s.filter(task_id_not(id)) == s.remove(idx),
    decreases s.len(),
{
    reveal(Seq::filter);
    let sub = s.drop_last();
    if idx == s.len() - 1 {
        assert forall|i: int| 0 <= i < sub.len() implies task_id_not(id)(#[trigger] sub[i]) by {
            assert(sub[i] == s[i]);
        }
        lemma_filter_tasks_all_true(sub, task_id_not(id));
        assert(!task_id_not(id)(s.last()));
        assert(s.filter(task_id_not(id)) == sub);
        assert(s.remove(idx) =~= sub);
    } else {
        assert(sub[idx] == s[idx]);
        assert forall|i: int| 0 <= i < sub.len() && i != idx
            implies (#[trigger] sub[i]).id != id by {
            assert(sub[i] == s[i]);
        }
        lemma_filter_removes_one_task(sub, idx, id);
        assert(task_id_not(id)(s.last()));
        assert(s.filter(task_id_not(id)) == sub.filter(task_id_not(id)).push(s.last()));
        assert(sub.remove(idx).push(s.last()) =~= s.remove(idx));
    }
}

proof fn lemma_filter_removes_one_sub(s: Seq<SubtaskView>, idx: int, sid: int)
    requires
        0 <= idx < s.len(),
        s[idx].subtask_id == sid,
        forall|i: int| 0 <= i < s.len() && i != idx ==> (#[trigger] s[i]).subtask_id != sid,
    ensures
        s.filter(sub_id_not(sid)) == s.remove(idx),
    decreases s.len(),
{
    reveal(Seq::filter);
    let sub = s.drop_last();
    if idx == s.len() - 1 {
        assert forall|i: int| 0 <= i < sub.len() implies sub_id_not(sid)(#[trigger] sub[i]) by {
            assert(sub[i] == s[i]);
        }
        lemma_filter_subs_all_true(sub, sub_id_not(sid));
        assert(!sub_id_not(sid)(s.last()));
        assert(s.filter(sub_id_not(sid)) == sub);
        assert(s.remove(idx) =~= sub);
    } else {
        assert(sub[idx] == s[idx]);
        assert forall|i: int| 0 <= i < sub.len() && i != idx
            implies (#[trigger] sub[i]).subtask_id != sid by {
            assert(sub[i] == s[i]);
        }
        lemma_filter_removes_one_sub(sub, idx, sid);
        assert(sub_id_not(sid)(s.last()));
        assert(s.filter(sub_id_not(sid)) == sub.filter(sub_id_not(sid)).push(s.last()));
        assert(sub.remove(idx).push(s.last()) =~= s.remove(idx));
    }
}

proof fn lemma_map_then_filter_subs(
    s: Seq<SubtaskView>,
    todo_id: int,
    sub_id: int,
    st: Seq<char>,
    x: int,
)
    ensures
        s.map_values(sub_status_update(todo_id, sub_id, st)).filter(sub_of_task(x)) == (
            if x == todo_id {
                s.filter(sub_of_task(x)).map_values(sub_status_update(todo_id, sub_id, st))
            } else {
                s.filter(sub_of_task(x))
            }
        ),
    decreases s.len(),
{
    reveal(Seq::filter);
    let f = sub_status_update(todo_id, sub_id, st);
    let p = sub_of_task(x);
    if s.len() == 0 {
        assert(s.map_values(f) =~= s);
        if x == todo_id {
            assert(s.filter(p).map_values(f) =~= s.filter(p));
        }
    } else {
        let sub = s.drop_last();
        let a = s.last();
        lemma_map_then_filter_subs(sub, todo_id, sub_id, st, x);
        assert(s.map_values(f) =~= sub.map_values(f).push(f(a)));
        assert(f(a).todo_id == a.todo_id);
        assert(sub.map_values(f).push(f(a)).drop_last() =~= sub.map_values(f));
        assert(s.map_values(f).filter(p) == (if p(f(a)) {
            sub.map_values(f).filter(p).push(f(a))
        } else {
            sub.map_values(f).filter(p)
        }));
        if x == todo_id {
            if p(a) {
                assert(s.filter(p) == sub.filter(p).push(a));
                assert(sub.filter(p).push(a).map_values(f) =~= sub.filter(p).map_values(f).push(
                    f(a),
                ));
            } else {
                assert(s.filter(p) == sub.filter(p));
            }
        } else {
            if p(a) {
                assert(a.todo_id == x);
                assert(f(a) == a);
                assert(s.filter(p) == sub.filter(p).push(a));
            } else {
                assert(s.filter(p) == sub.filter(p));
            }
        }
    }
}

/// Law of toggling: rewriting one subtask's status and then rewriting it
/// back to what it held leaves the store exactly as it was.
pub proof fn lemma_sub_status_round_trip(
    m: StoreModel,
    todo_id: int,
    sub_id: int,
    a: Seq<char>,
    b: Seq<char>,
)
    requires
        forall|i: int| 0 <= i < m.subs.len()
            ==> (((#[trigger] m.subs[i]).todo_id == todo_id && m.subs[i].subtask_id == sub_id)
                ==> m.subs[i].status == b),
    ensures
        set_sub_status_effect(
            set_sub_status_effect(m, todo_id, sub_id, a), todo_id, sub_id, b,
        ) == m,
{
    let m1 = set_sub_status_effect(m, todo_id, sub_id, a);
    let m2 = set_sub_status_effect(m1, todo_id, sub_id, b);
    assert forall|i: int| 0 <= i < m2.subs.len()
        implies #[trigger] m2.subs[i] == m.subs[i] by {
        assert(m1.subs[i] == sub_status_update(todo_id, sub_id, a)(m.subs[i]));
        assert(m2.subs[i] == sub_status_update(todo_id, sub_id, b)(m1.subs[i]));
    }
    assert(m2.subs =~= m.subs);
}

/// How the listing changes when one subtask's status is rewritten: the
/// owning task keeps its place and every other task is untouched.
pub proof fn lemma_listed_set_sub_status(m: StoreModel, todo_id: int, sub_id: int, st: Seq<char>)
    ensures
        listed(set_sub_status_effect(m, todo_id, sub_id, st)).len() == listed(m).len(),
        forall|i: int| 0 <= i < listed(m).len()
            ==> #[trigger] listed(set_sub_status_effect(m, todo_id, sub_id, st))[i] == (
                if m.tasks[i].id == todo_id {
                    TodoView {
                        subtasks: subs_of(m, todo_id).map_values(
                            sub_status_update(todo_id, sub_id, st),
                        ),
                        ..listed(m)[i]
                    }
                } else {
                    listed(m)[i]
                }
            ),
{
    let m2 = set_sub_status_effect(m, todo_id, sub_id, st);
    assert(m2.tasks == m.tasks);
    assert forall|i: int| 0 <= i < listed(m).len()
        implies #[trigger] listed(m2)[i] == (
            if m.tasks[i].id == todo_id {
                TodoView {
                    subtasks: subs_of(m, todo_id).map_values(
                        sub_status_update(todo_id, sub_id, st),
                    ),
                    ..listed(m)[i]
                }
            } else {
                listed(m)[i]
            }
        ) by {
        lemma_map_then_filter_subs(m.subs, todo_id, sub_id, st, m.tasks[i].id);
        if m.tasks[i].id == todo_id {
            assert(listed(m2)[i] =~= (TodoView {
                subtasks: subs_of(m, todo_id).map_values(sub_status_update(todo_id, sub_id, st)),
                ..listed(m)[i]
            }));
        } else {
            assert(listed(m2)[i] =~= listed(m)[i]);
        }
    }
}

/// How the listing changes when one task is deleted with its subtask rows:
/// the task disappears from its position and every other task keeps its
/// subtasks.
pub proof fn lemma_listed_delete_todo(m: StoreModel, idx: int)
    requires
        store_inv(m),
        0 <= idx < m.tasks.len(),
    ensures
        listed(delete_todo_effect(m, m.tasks[idx].id)) == listed(m).remove(idx),
{
    let id = m.tasks[idx].id;
    let m2 = delete_todo_effect(m, id);
    assert forall|i: int| 0 <= i < m.tasks.len() && i != idx
        implies (#[trigger] m.tasks[i]).id != id by {
        if i < idx {
            assert(m.tasks[i].id < m.tasks[idx].id);
        } else {
            assert(m.tasks[idx].id < m.tasks[i].id);
        }
    }
    lemma_filter_removes_one_task(m.tasks, idx, id);
    assert(m2.tasks == m.tasks.remove(idx));
    assert forall|x: int| x != id
        implies #[trigger] subs_of(m2, x) == subs_of(m, x) by {
        lemma_filter_comm_subs(m.subs, sub_not_of_task(id), sub_of_task(x));
        assert forall|k: int| 0 <= k < subs_of(m, x).len()
            implies sub_not_of_task(id)(#[trigger] subs_of(m, x)[k]) by {
            m.subs.lemma_filter_pred(sub_of_task(x), k);
        }
        lemma_filter_subs_all_true(subs_of(m, x), sub_not_of_task(id));
        assert(subs_of(m2, x) == m.subs.filter(sub_not_of_task(id)).filter(sub_of_task(x)));
    }
    assert forall|i: int| 0 <= i < listed(m2).len()
        implies #[trigger] listed(m2)[i] == listed(m).remove(idx)[i] by {
        if i < idx {
            assert(m2.tasks[i] == m.tasks[i]);
            assert(m.tasks[i].id != id);
            assert(listed(m2)[i] =~= listed(m)[i]);
        } else {
            assert(m2.tasks[i] == m.tasks[i + 1]);
            assert(m.tasks[i + 1].id != id);
            assert(listed(m2)[i] =~= listed(m)[i + 1]);
        }
    }
    assert(listed(m2) =~= listed(m).remove(idx));
}

/// How the listing changes when one subtask row is deleted: it leaves its
/// position under its owning task, and every other task is untouched.
pub proof fn lemma_listed_delete_sub(m: StoreModel, todo_id: int, sub_id: int, j: int)
    requires
        store_inv(m),
        0 <= j < subs_of(m, todo_id).len(),
        subs_of(m, todo_id)[j].subtask_id == sub_id,
    ensures
        listed(delete_sub_effect(m, sub_id)).len() == listed(m).len(),
        forall|i: int| 0 <= i < listed(m).len()
            ==> #[trigger] listed(delete_sub_effect(m, sub_id))[i] == (
                if m.tasks[i].id == todo_id {
                    TodoView { subtasks: subs_of(m, todo_id).remove(j), ..listed(m)[i] }
                } else {
                    listed(m)[i]
                }
            ),
{
    let m2 = delete_sub_effect(m, sub_id);
    assert(m2.tasks == m.tasks);
    lemma_filter_subs_sorted(m.subs, sub_of_task(todo_id), m.next_sub_id);
    assert forall|k: int| 0 <= k < subs_of(m, todo_id).len() && k != j
        implies (#[trigger] subs_of(m, todo_id)[k]).subtask_id != sub_id by {
        if k < j {
            assert(subs_of(m, todo_id)[k].subtask_id < subs_of(m, todo_id)[j].subtask_id);
        } else {
            assert(subs_of(m, todo_id)[j].subtask_id < subs_of(m, todo_id)[k].subtask_id);
        }
    }
    lemma_filter_comm_subs(m.subs, sub_id_not(sub_id), sub_of_task(todo_id));
    lemma_filter_removes_one_sub(subs_of(m, todo_id), j, sub_id);
    assert(subs_of(m2, todo_id) == subs_of(m, todo_id).remove(j));
    lemma_filter_elements_subs(m.subs, sub_of_task(todo_id));
    let i0 = choose|i: int| 0 <= i < m.subs.len() && subs_of(m, todo_id)[j] == m.subs[i];
    m.subs.lemma_filter_pred(sub_of_task(todo_id), j);
    assert forall|x: int| x != todo_id
        implies #[trigger] subs_of(m2, x) == subs_of(m, x) by {
        lemma_filter_comm_subs(m.subs, sub_id_not(sub_id), sub_of_task(x));
        lemma_filter_elements_subs(m.subs, sub_of_task(x));
        assert forall|k: int| 0 <= k < subs_of(m, x).len()
            implies sub_id_not(sub_id)(#[trigger] subs_of(m, x)[k]) by {
            m.subs.lemma_filter_pred(sub_of_task(x), k);
            if subs_of(m, x)[k].subtask_id == sub_id {
                let i = choose|i: int| 0 <= i < m.subs.len() && subs_of(m, x)[k] == m.subs[i];
                if i < i0 {
                    assert(m.subs[i].subtask_id < m.subs[i0].subtask_id);
                }
                if i0 < i {
                    assert(m.subs[i0].subtask_id < m.subs[i].subtask_id);
                }
                assert(i == i0);
                assert(subs_of(m, x)[k] == subs_of(m, todo_id)[j]);
                assert(false);
            }
        }
        lemma_filter_subs_all_true(subs_of(m, x), sub_id_not(sub_id));
        assert(subs_of(m2, x) == m.subs.filter(sub_id_not(sub_id)).filter(sub_of_task(x)));
    }
    assert forall|i: int| 0 <= i < listed(m).len()
        implies #[trigger] listed(m2)[i] == (
            if m.tasks[i].id == todo_id {
                TodoView { subtasks: subs_of(m, todo_id).remove(j), ..listed(m)[i] }
            } else {
                listed(m)[i]
            }
        ) by {
        if m.tasks[i].id == todo_id {
            assert(listed(m2)[i] =~= (TodoView {
                subtasks: subs_of(m, todo_id).remove(j),
                ..listed(m)[i]
            }));
        } else {
            assert(listed(m2)[i] =~= listed(m)[i]);
        }
    }
}

proof fn lemma_filter_subs_none_true(s: Seq<SubtaskView>, pred: spec_fn(SubtaskView) -> bool)
    requires
        forall|i: int| 0 <= i < s.len() ==> !pred(#[trigger] s[i]),
    ensures
        s.filter(pred) == Seq::<SubtaskView>::empty(),
    decreases s.len(),
{
    reveal(Seq::filter);
    if s.len() > 0 {
        let sub = s.drop_last();
        assert forall|i: int| 0 <= i < sub.len() implies !pred(#[trigger] sub[i]) by {
            assert(sub[i] == s[i]);
        }
        lemma_filter_subs_none_true(sub, pred);
        assert(!pred(s.last()));
    }
}

proof fn lemma_filter_subs_concat(
    a: Seq<SubtaskView>,
    b: Seq<SubtaskView>,
    pred: spec_fn(SubtaskView) -> bool,
)
    ensures
        (a + b).filter(pred) == a.filter(pred) + b.filter(pred),
    decreases b.len(),
{
    reveal(Seq::filter);
    if b.len() == 0 {
        assert(a + b =~= a);
        assert(b.filter(pred) =~= Seq::<SubtaskView>::empty());
        assert(a.filter(pred) + b.filter(pred) =~= a.filter(pred));
    } else {
        lemma_filter_subs_concat(a, b.drop_last(), pred);
        assert((a + b).drop_last() =~= a + b.drop_last());
        assert((a + b).last() == b.last());
        if pred(b.last()) {
            assert(b.filter(pred) == b.drop_last().filter(pred).push(b.last()));
            assert(a.filter(pred) + b.filter(pred) =~= (a.filter(pred)
                + b.drop_last().filter(pred)).push(b.last()));
        } else {
            assert(b.filter(pred) == b.drop_last().filter(pred));
        }
    }
}

/// What the subtask table holds after inserting a run of subtask rows: the
/// old rows first, then the new ones, each under the given task with
/// consecutive fresh ids.
proof fn lemma_insert_subs_content(m: StoreModel, todo_id: int, subs: Seq<SubtaskView>)
    ensures
        insert_subs_effect(m, todo_id, subs).subs.len() == m.subs.len() + subs.len(),
        forall|k: int| 0 <= k < m.subs.len()
            ==> #[trigger] insert_subs_effect(m, todo_id, subs).subs[k] == m.subs[k],
        forall|k: int| 0 <= k < subs.len()
            ==> #[trigger] insert_subs_effect(m, todo_id, subs).subs[m.subs.len() + k] == (
                SubtaskView {
                    todo_id,
                    subtask_id: m.next_sub_id + k,
                    text: subs[k].text,
                    status: subs[k].status,
                }
            ),
        insert_subs_effect(m, todo_id, subs).next_sub_id == m.next_sub_id + subs.len(),
    decreases subs.len(),
{
    if subs.len() > 0 {
        lemma_insert_subs_content(m, todo_id, subs.drop_last());
    }
}

/// Law of insertion: a task inserted then listed appears at the end of the
/// listing, holding the store-assigned id, which is positive and distinct
/// from the id of every task listed before; its fields are the inserted
/// ones, its subtask texts and statuses are exactly those handed in, in
/// insertion order; and every previously listed task is listed unchanged.
pub proof fn lemma_insert_then_list(m: StoreModel, t: TodoView)
    requires
        store_inv(m),
    ensures
        listed(add_todo_effect(m, t)).len() == listed(m).len() + 1,
        forall|i: int| 0 <= i < listed(m).len()
            ==> #[trigger] listed(add_todo_effect(m, t))[i] == listed(m)[i],
        listed(add_todo_effect(m, t)).last().id == m.next_task_id,
        m.next_task_id >= 1,
        forall|i: int| 0 <= i < listed(m).len()
            ==> (#[trigger] listed(m)[i]).id != m.next_task_id,
        listed(add_todo_effect(m, t)).last().subtasks.len() == t.subtasks.len(),
        forall|k: int| 0 <= k < t.subtasks.len()
            ==> (#[trigger] listed(add_todo_effect(m, t)).last().subtasks[k]).text
                == t.subtasks[k].text
            && listed(add_todo_effect(m, t)).last().subtasks[k].status == t.subtasks[k].status,
        listed(add_todo_effect(m, t)).last() == (TodoView {
            id: m.next_task_id,
            subtasks: listed(add_todo_effect(m, t)).last().subtasks,
            notes: Seq::empty(),
            ..t
        }),
{
    let id0 = m.next_task_id;
    let m1 = insert_task_effect(m, t);
    let m2 = add_todo_effect(m, t);
    lemma_insert_subs_content(m1, id0, t.subtasks);
    lemma_insert_subs_tasks_same(m1, id0, t.subtasks);
    assert(m2.tasks == m.tasks.push(m1.tasks.last()));
    let news = Seq::new(
        t.subtasks.len(),
        |k: int| SubtaskView {
            todo_id: id0,
            subtask_id: m.next_sub_id + k,
            text: t.subtasks[k].text,
            status: t.subtasks[k].status,
        },
    );
    assert(m1.subs == m.subs);
    assert(m1.next_sub_id == m.next_sub_id);
    assert(m2 == insert_subs_effect(m1, id0, t.subtasks));
    assert(m2.subs.len() == m.subs.len() + t.subtasks.len());
    assert forall|k: int| 0 <= k < m2.subs.len()
        implies #[trigger] m2.subs[k] == (m.subs + news)[k] by {
        if k < m.subs.len() {
            assert(m2.subs[k] == m1.subs[k]);
        } else {
            assert(m2.subs[m1.subs.len() + (k - m.subs.len())] == (SubtaskView {
                todo_id: id0,
                subtask_id: m1.next_sub_id + (k - m.subs.len()),
                text: t.subtasks[k - m.subs.len()].text,
                status: t.subtasks[k - m.subs.len()].status,
            }));
            assert((m.subs + news)[k] == news[k - m.subs.len()]);
        }
    }
    assert(m2.subs =~= m.subs + news);
    assert forall|k: int| 0 <= k < news.len() implies sub_of_task(id0)(#[trigger] news[k]) by {}
    assert forall|k: int| 0 <= k < m.subs.len()
        implies !sub_of_task(id0)(#[trigger] m.subs[k]) by {
        assert(m.subs[k].todo_id < id0);
    }
    lemma_filter_subs_concat(m.subs, news, sub_of_task(id0));
    lemma_filter_subs_none_true(m.subs, sub_of_task(id0));
    lemma_filter_subs_all_true(news, sub_of_task(id0));
    assert(subs_of(m2, id0) =~= news);
    assert forall|i: int| 0 <= i < listed(m).len()
        implies #[trigger] listed(m2)[i] == listed(m)[i] by {
        assert(m2.tasks[i] == m.tasks[i]);
        assert(m.tasks[i].id < id0);
        let x = m.tasks[i].id;
        lemma_filter_subs_concat(m.subs, news, sub_of_task(x));
        assert forall|k: int| 0 <= k < news.len()
            implies !sub_of_task(x)(#[trigger] news[k]) by {}
        lemma_filter_subs_none_true(news, sub_of_task(x));
        assert(subs_of(m2, x) =~= subs_of(m, x));
        assert(listed(m2)[i] =~= listed(m)[i]);
    }
    assert(listed(m2).last().subtasks == news);
    assert(listed(m2).last() =~= (TodoView {
        id: id0,
        subtasks: news,
        notes: Seq::empty(),
        ..t
    }));
}

} // verus!
