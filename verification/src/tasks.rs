//! Building new tasks from the command surface: defaulting and
//! capitalization of the free-text fields, validation of the priority
//! keyword, and the subtask argument parser.
use vstd::prelude::*;

use crate::models::{Subtask, SubtaskView, Todo, TodoError, TodoView};
use crate::store::{DBtodo, add_todo_effect, has_task, insert_sub_effect};
use crate::text::{cap_first, capitalize_first, lower_chars, string_eq, to_lowercase_ascii};

verus! {

/// An optional text, or the default in its place.
pub open spec fn defaulted(o: Option<Seq<char>>, d: Seq<char>) -> Seq<char> {
    match o {
        Some(s) => s,
        None => d,
    }
}

/// The view of an optional text argument.
pub open spec fn opt_str_view(o: Option<String>) -> Option<Seq<char>> {
    match o {
        Some(s) => Some(s@),
        None => None,
    }
}

/// The views of a sequence of texts.
pub open spec fn str_views(s: Seq<String>) -> Seq<Seq<char>> {
    s.map_values(|x: String| x@)
}

/// The canonical form of a priority keyword, compared case-insensitively:
/// one of the three levels, capitalized; anything else is rejected.
pub open spec fn normalized_priority(p: Seq<char>) -> Option<Seq<char>> {
    if lower_chars(p) == "low"@ {
        Some("Low"@)
    } else if lower_chars(p) == "medium"@ {
        Some("Medium"@)
    } else if lower_chars(p) == "high"@ {
        Some("High"@)
    } else {
        None
    }
}

/// The priority a new task gets from an optional argument: a missing
/// priority falls back to a word that no level matches, so it is rejected.
pub open spec fn effective_priority(p: Option<Seq<char>>) -> Option<Seq<char>> {
    normalized_priority(defaulted(p, "normal"@))
}

/// Normalize a priority keyword, or reject it.
pub fn normalize_priority(p: &String) -> (r: Option<String>)
    ensures
        r matches Some(s) ==> normalized_priority(p@) == Some(s@),
        (r is None) == (normalized_priority(p@) is None),
{
    let low = to_lowercase_ascii(p);
    if string_eq(&low, "low") {
        Some("Low".to_owned())
    } else if string_eq(&low, "medium") {
        Some("Medium".to_owned())
    } else if string_eq(&low, "high") {
        Some("High".to_owned())
    } else {
        None
    }
}

/// The task a new entry becomes, before the store assigns its id: every
/// field defaulted and capitalized as the command surface promises, status
/// `Pending`, empty notes; `None` when the priority is rejected.
pub open spec fn built_todo(
    text: Seq<char>,
    topic: Option<Seq<char>>,
    priority: Option<Seq<char>>,
    owner: Option<Seq<char>>,
    due: Option<Seq<char>>,
    desc: Option<Seq<char>>,
    subtasks: Seq<Seq<char>>,
    date_added: Seq<char>,
) -> Option<TodoView> {
    match effective_priority(priority) {
        None => None,
        Some(pr) => Some(
            TodoView {
                id: 0,
                priority: pr,
                topic: cap_first(defaulted(topic, "General"@)),
                text: cap_first(text),
                desc: cap_first(defaulted(desc, "No description provided"@)),
                date_added,
                due: defaulted(due, "none due"@),
                status: "Pending"@,
                owner: cap_first(defaulted(owner, "You"@)),
                subtasks: Seq::new(
                    subtasks.len(),
                    |j: int| SubtaskView {
                        todo_id: 0,
                        subtask_id: 0,
                        text: subtasks[j],
                        status: "Pending"@,
                    },
                ),
                notes: Seq::empty(),
            },
        ),
    }
}

/// Build a task from the raw command arguments: validation happens before
/// any store write, and a rejected priority is the only rejection.
pub fn build_todo(
    text: String,
    topic: Option<String>,
    priority: Option<String>,
    owner: Option<String>,
    due: Option<String>,
    desc: Option<String>,
    subtasks: Vec<String>,
    date_added: String,
) -> (r: Result<Todo, TodoError>)
    ensures
        r matches Ok(t) ==> built_todo(
            text@, opt_str_view(topic), opt_str_view(priority), opt_str_view(owner),
            opt_str_view(due), opt_str_view(desc), str_views(subtasks@), date_added@,
        ) == Some(t@),
        r matches Err(e) ==> (e is Validation),
        (r is Err) == (effective_priority(opt_str_view(priority)) is None),
{
    let pr_arg = match &priority {
        Some(p) => p.clone(),
        None => "normal".to_owned(),
    };
    let pr = match normalize_priority(&pr_arg) {
        Some(pr) => pr,
        None => {
            return Err(
                TodoError::Validation("Priority must be 'medium', 'high', or 'low'.".to_owned()),
            );
        },
    };
    let topic_arg = match topic {
        Some(t) => t,
        None => "General".to_owned(),
    };
    let owner_arg = match owner {
        Some(o) => o,
        None => "You".to_owned(),
    };
    let desc_arg = match desc {
        Some(d) => d,
        None => "No description provided".to_owned(),
    };
    let due_arg = match due {
        Some(d) => d,
        None => "none due".to_owned(),
    };
    let mut subs: Vec<Subtask> = Vec::new();
    let mut j: usize = 0;
    while j < subtasks.len()
        invariant
            j <= subtasks.len(),
            subs.len() == j,
            forall|k: int| 0 <= k < j ==> subs@[k]@ == (SubtaskView {
                todo_id: 0,
                subtask_id: 0,
                text: subtasks@[k]@,
                status: "Pending"@,
            }),
        decreases subtasks.len() - j,
    {
        subs.push(
            Subtask {
                todo_id: 0,
                subtask_id: 0,
                text: subtasks[j].clone(),
                status: "Pending".to_owned(),
            },
        );
        j = j + 1;
    }
    let t = Todo {
        id: 0,
        priority: pr,
        topic: capitalize_first(&topic_arg),
        text: capitalize_first(&text),
        desc: capitalize_first(&desc_arg),
        date_added,
        due: due_arg,
        status: "Pending".to_owned(),
        owner: capitalize_first(&owner_arg),
        subtasks: subs,
        notes: String::new(),
    };
    proof {
        let b = built_todo(
            text@, opt_str_view(priority), opt_str_view(priority), opt_str_view(owner),
            opt_str_view(due), opt_str_view(desc), str_views(subtasks@), t.date_added@,
        );
        assert(t@.subtasks =~= built_todo(
            text@, opt_str_view(topic), opt_str_view(priority), opt_str_view(owner),
            opt_str_view(due), opt_str_view(desc), str_views(subtasks@), t.date_added@,
        ).unwrap().subtasks);
    }
    Ok(t)
}

/// Relies on `chrono::Local::now` and `DateTime::format` with `"%d-%m-%y"`:
/// the current local date as text. It depends on the clock and the
/// timezone, so nothing is stated of its value.
#[verifier::external_body]
fn current_date_string() -> String {
    chrono::Local::now().format("%d-%m-%y").to_string()
}

/// Validate, normalize and store a new task, dated today; returns the
/// store-assigned id. A rejected priority (the only validation) leaves the
/// store untouched, as does a store failure.
pub fn add_todo(
    db: &mut DBtodo,
    text: String,
    topic: Option<String>,
    priority: Option<String>,
    owner: Option<String>,
    due: Option<String>,
    desc: Option<String>,
    subtasks: Vec<String>,
) -> (r: Result<usize, TodoError>)
    requires
        old(db).wf(),
    ensures
        final(db).wf(),
        r matches Ok(id) ==> (exists|d: Seq<char>|
            final(db)@ == add_todo_effect(
                old(db)@,
                built_todo(
                    text@, opt_str_view(topic), opt_str_view(priority), opt_str_view(owner),
                    opt_str_view(due), opt_str_view(desc), str_views(subtasks@), d,
                ).unwrap(),
            )) && id as int == old(db)@.next_task_id,
        r matches Ok(id) ==> (effective_priority(opt_str_view(priority)) is Some),
        r matches Err(e) ==> final(db)@ == old(db)@,
        r matches Err(e) ==> ((e is Validation) <==> (effective_priority(
            opt_str_view(priority),
        ) is None)),
{
    let date_added = current_date_string();
    let ghost d = date_added@;
    let todo = match build_todo(text, topic, priority, owner, due, desc, subtasks, date_added) {
        Ok(t) => t,
        Err(e) => return Err(e),
    };
    match db.add_todo(&todo) {
        Ok(id) => {
            proof {
                assert(final(db)@ == add_todo_effect(old(db)@, todo@));
            }
            Ok(id)
        },
        Err(e) => Err(e),
    }
}

/// Append one subtask (status `Pending`) to the task with this id; the id
/// comes signed from the command line, and no task has a non-positive id.
pub fn append_subtask(db: &mut DBtodo, id: i32, subtask: String) -> (r: Result<usize, TodoError>)
    requires
        old(db).wf(),
    ensures
        final(db).wf(),
        r matches Ok(sid) ==> final(db)@ == insert_sub_effect(
            old(db)@, id as int, subtask@, "Pending"@,
        ) && sid as int == old(db)@.next_sub_id && has_task(old(db)@, id as int),
        r matches Err(e) ==> final(db)@ == old(db)@ && ((e is NotFound) || (e is Store)),
        r matches Err(e) ==> ((e is NotFound) ==> !has_task(old(db)@, id as int)),
    {
    if id < 1 {
        proof {
            assert(!has_task(old(db)@, id as int));
        }
        return Err(TodoError::NotFound);
    }
    db.append_subtask(id as usize, subtask)
}

/// The numeric value of a decimal digit char; anything else gets -1.
pub open spec fn digit_val(c: char) -> int {
    if c == '0' { 0 } else if c == '1' { 1 } else if c == '2' { 2 }
    else if c == '3' { 3 } else if c == '4' { 4 } else if c == '5' { 5 }
    else if c == '6' { 6 } else if c == '7' { 7 } else if c == '8' { 8 }
    else if c == '9' { 9 } else { -1 }
}

/// A non-empty run of decimal digits.
pub open spec fn all_digits(s: Seq<char>) -> bool {
    s.len() > 0 && forall|i: int| 0 <= i < s.len() ==> digit_val(#[trigger] s[i]) >= 0
}

/// The value of a run of digits, most significant first.
pub open spec fn digits_val(s: Seq<char>) -> int
    decreases s.len(),
{
    if s.len() == 0 {
        0
    } else {
        digits_val(s.drop_last()) * 10 + digit_val(s.last())
    }
}

/// The integer a text denotes: an optional sign, then digits; else nothing.
pub open spec fn int_str_val(s: Seq<char>) -> Option<int> {
    if s.len() > 0 && (s[0] == '+' || s[0] == '-') {
        if all_digits(s.skip(1)) {
            Some(if s[0] == '-' { -digits_val(s.skip(1)) } else { digits_val(s.skip(1)) })
        } else {
            None
        }
    } else {
        if all_digits(s) {
            Some(digits_val(s))
        } else {
            None
        }
    }
}

/// The signed 32-bit integer a text denotes, if it is one and it fits.
pub open spec fn parse_i32_spec(s: Seq<char>) -> Option<int> {
    match int_str_val(s) {
        Some(v) => if i32::MIN <= v <= i32::MAX {
            Some(v)
        } else {
            None
        },
        None => None,
    }
}

proof fn lemma_digits_val_nonneg(s: Seq<char>)
    requires
        forall|i: int| 0 <= i < s.len() ==> digit_val(#[trigger] s[i]) >= 0,
    ensures
        digits_val(s) >= 0,
    decreases s.len(),
{
    if s.len() > 0 {
        let sub = s.drop_last();
        assert forall|i: int| 0 <= i < sub.len() implies digit_val(#[trigger] sub[i]) >= 0 by {
            assert(sub[i] == s[i]);
        }
        lemma_digits_val_nonneg(sub);
        assert(digit_val(s.last()) >= 0);
    }
}

proof fn lemma_digits_val_monotone(s: Seq<char>, k: int)
    requires
        forall|i: int| 0 <= i < s.len() ==> digit_val(#[trigger] s[i]) >= 0,
        0 <= k <= s.len(),
    ensures
        digits_val(s) >= digits_val(s.take(k)),
    decreases s.len() - k,
{
    if k < s.len() {
        assert(s.take(k + 1).drop_last() =~= s.take(k));
        assert(s.take(k + 1).last() == s[k]);
        assert forall|i: int| 0 <= i < s.take(k).len()
            implies digit_val(#[trigger] s.take(k)[i]) >= 0 by {
            assert(s.take(k)[i] == s[i]);
        }
        lemma_digits_val_nonneg(s.take(k));
        assert(digits_val(s.take(k + 1)) >= digits_val(s.take(k)));
        lemma_digits_val_monotone(s, k + 1);
    } else {
        assert(s.take(k) =~= s);
    }
}

fn digit_of(c: char) -> (r: i64)
    ensures
        r == digit_val(c),
{
    if c == '0' { 0 } else if c == '1' { 1 } else if c == '2' { 2 }
    else if c == '3' { 3 } else if c == '4' { 4 } else if c == '5' { 5 }
    else if c == '6' { 6 } else if c == '7' { 7 } else if c == '8' { 8 }
    else if c == '9' { 9 } else { -1 }
}

/// Parse a signed 32-bit integer the way the standard parser reads it: an
/// optional sign, then one or more digits, rejecting anything else and any
/// value out of range.
fn parse_i32(chars: &Vec<char>) -> (r: Option<i32>)
    ensures
        r matches Some(v) ==> parse_i32_spec(chars@) == Some(v as int),
        (r is None) == (parse_i32_spec(chars@) is None),
{
    let signed: bool = chars.len() > 0 && (chars[0] == '+' || chars[0] == '-');
    let neg: bool = chars.len() > 0 && chars[0] == '-';
    let start: usize = if signed { 1 } else { 0 };
    let ghost mseq = chars@.skip(start as int);
    proof {
        if !signed {
            assert(mseq =~= chars@);
        }
    }
    if chars.len() == start {
        proof {
            assert(mseq.len() == 0);
            assert(!all_digits(mseq));
            assert(parse_i32_spec(chars@) is None);
        }
        return None;
    }
    let mut mag: i64 = 0;
    let mut i: usize = start;
    while i < chars.len()
        invariant
            start <= i <= chars.len(),
            start <= 1,
            chars.len() > start,
            mseq == chars@.skip(start as int),
            signed == (chars@.len() > 0 && (chars@[0] == '+' || chars@[0] == '-')),
            start as int == (if signed { 1int } else { 0int }),
            signed ==> mseq == chars@.skip(1),
            !signed ==> mseq == chars@,
            forall|j: int| 0 <= j < i - start ==> digit_val(#[trigger] mseq[j]) >= 0,
            mag == digits_val(mseq.take(i - start)),
            0 <= mag <= 2147483648,
        decreases chars.len() - i,
    {
        let d = digit_of(chars[i]);
        if d < 0 {
            proof {
                assert(mseq[i - start] == chars@[i as int]);
                assert(!all_digits(mseq)) by {
                    assert(digit_val(mseq[i - start]) < 0);
                }
                assert(parse_i32_spec(chars@) is None);
            }
            return None;
        }
        mag = mag * 10 + d;
        proof {
            assert(mseq.take(i - start + 1).drop_last() =~= mseq.take(i - start));
            assert(mseq.take(i - start + 1).last() == mseq[i - start]);
            assert(mseq[i - start] == chars@[i as int]);
        }
        if mag > 2147483648 {
            proof {
                if all_digits(mseq) {
                    lemma_digits_val_monotone(mseq, i - start + 1);
                    assert(digits_val(mseq) >= mag);
                    assert(int_str_val(chars@) matches Some(v) && (v > 2147483647 || v < -2147483648));
                }
                assert(parse_i32_spec(chars@) is None);
            }
            return None;
        }
        i = i + 1;
    }
    proof {
        assert(mseq.take(chars@.len() - start) =~= mseq);
        assert(all_digits(mseq));
        assert(digits_val(mseq) == mag);
        if signed {
            assert(chars@[0] == '+' || chars@[0] == '-');
            assert(int_str_val(chars@) == Some(
                if chars@[0] == '-' { -digits_val(mseq) } else { digits_val(mseq) },
            ));
        } else {
            assert(int_str_val(chars@) == Some(digits_val(mseq)));
        }
    }
    if neg {
        if mag == 2147483648 {
            Some(i32::MIN)
        } else {
            Some(-(mag as i32))
        }
    } else {
        if mag == 2147483648 {
            None
        } else {
            Some(mag as i32)
        }
    }
}

/// A colon at this position, with none before it.
pub open spec fn colon_at(s: Seq<char>, i: int) -> bool {
    0 <= i < s.len() && s[i] == ':' && (forall|j: int| 0 <= j < i ==> #[trigger] s[j] != ':')
}

/// Text with every leading quote removed.
pub open spec fn trim_front_quotes(s: Seq<char>) -> Seq<char>
    decreases s.len(),
{
    if s.len() > 0 && s[0] == '"' {
        trim_front_quotes(s.skip(1))
    } else {
        s
    }
}

/// Text with every trailing quote removed.
pub open spec fn trim_back_quotes(s: Seq<char>) -> Seq<char>
    decreases s.len(),
{
    if s.len() > 0 && s.last() == '"' {
        trim_back_quotes(s.drop_last())
    } else {
        s
    }
}

/// Text with every leading and trailing quote removed.
pub open spec fn trim_quotes(s: Seq<char>) -> Seq<char> {
    trim_back_quotes(trim_front_quotes(s))
}

/// What a subtask argument `ID:TEXT` denotes: the number before the first
/// colon, and the text after it with surrounding quotes removed; nothing
/// when there is no colon or the number is not a 32-bit integer.
pub open spec fn parse_subtask_spec(s: Seq<char>) -> Option<(int, Seq<char>)> {
    if exists|i: int| colon_at(s, i) {
        let i = choose|i: int| colon_at(s, i);
        match parse_i32_spec(s.take(i)) {
            Some(v) => Some((v, trim_quotes(s.skip(i + 1)))),
            None => None,
        }
    } else {
        None
    }
}

fn trim_quotes_vec(v: &Vec<char>) -> (r: Vec<char>)
    ensures
        r@ == trim_quotes(v@),
{
    let mut a: usize = 0;
    proof {
        assert(v@.skip(0) =~= v@);
    }
    while a < v.len() && v[a] == '"'
        invariant
            a <= v.len(),
            trim_front_quotes(v@) == trim_front_quotes(v@.skip(a as int)),
        decreases v.len() - a,
    {
        proof {
            assert(v@.skip(a as int).skip(1) =~= v@.skip(a as int + 1));
        }
        a = a + 1;
    }
    proof {
        assert(trim_front_quotes(v@) == v@.skip(a as int));
    }
    let mut b: usize = v.len();
    proof {
        assert(v@.skip(a as int) =~= v@.subrange(a as int, b as int));
    }
    while b > a && v[b - 1] == '"'
        invariant
            a <= b <= v.len(),
            trim_back_quotes(v@.skip(a as int)) == trim_back_quotes(
                v@.subrange(a as int, b as int),
            ),
        decreases b,
    {
        proof {
            assert(v@.subrange(a as int, b as int).drop_last() =~= v@.subrange(
                a as int, b as int - 1,
            ));
        }
        b = b - 1;
    }
    let mut out: Vec<char> = Vec::new();
    let mut k: usize = a;
    while k < b
        invariant
            a <= k <= b <= v.len(),
            out@ == v@.subrange(a as int, k as int),
        decreases b - k,
    {
        out.push(v[k]);
        proof {
            assert(v@.subrange(a as int, k as int).push(v@[k as int]) =~= v@.subrange(
                a as int, k as int + 1,
            ));
        }
        k = k + 1;
    }
    proof {
        assert(out@ == trim_back_quotes(v@.subrange(a as int, b as int)));
    }
    out
}

/// Parse a subtask argument of the form `ID:TEXT` into the task id and the
/// subtask text, quotes around the text removed; rejects an argument with
/// no colon, and one whose id is not a number.
pub fn parse_subtask(s: &str) -> (r: Result<(i32, String), String>)
    ensures
        r matches Ok(p) ==> parse_subtask_spec(s@) == Some((p.0 as int, p.1@)),
        (r is Err) == (parse_subtask_spec(s@) is None),
        r matches Err(m) ==> ((exists|i: int| colon_at(s@, i))
            ==> m@ == "ID must be a number"@),
        r matches Err(m) ==> (!(exists|i: int| colon_at(s@, i))
            ==> m@ == "Expected format `ID:TEXT`"@),
{
    let chars = crate::models::string_to_chars(s);
    let mut i: usize = 0;
    let mut found: bool = false;
    while i < chars.len() && !found
        invariant
            i <= chars.len(),
            chars@ == s@,
            found ==> i < chars.len() && colon_at(s@, i as int),
            !found ==> forall|j: int| 0 <= j < i ==> #[trigger] s@[j] != ':',
        decreases chars.len() - i + (if found { 0int } else { 1int }),
    {
        if chars[i] == ':' {
            found = true;
        } else {
            i = i + 1;
        }
    }
    if !found {
        proof {
            assert forall|k: int| !colon_at(s@, k) by {
                if 0 <= k < s@.len() {
                    assert(s@[k] != ':');
                }
            }
        }
        return Err("Expected format `ID:TEXT`".to_owned());
    }
    proof {
        let ci = choose|k: int| colon_at(s@, k);
        assert(colon_at(s@, i as int));
        if ci < i {
            assert(s@[ci] != ':');
        }
        if i < ci {
            assert(s@[i as int] != ':');
        }
        assert(ci == i as int);
    }
    let mut id_part: Vec<char> = Vec::new();
    let mut k: usize = 0;
    while k < i
        invariant
            k <= i <= chars.len(),
            chars@ == s@,
            id_part@ == s@.take(i as int).take(k as int),
        decreases i - k,
    {
        id_part.push(chars[k]);
        proof {
            assert(s@.take(i as int).take(k as int).push(s@[k as int]) =~= s@.take(
                i as int,
            ).take(k as int + 1));
        }
        k = k + 1;
    }
    proof {
        assert(id_part@ =~= s@.take(i as int));
    }
    let id = match parse_i32(&id_part) {
        Some(v) => v,
        None => {
            return Err("ID must be a number".to_owned());
        },
    };
    let mut rest: Vec<char> = Vec::new();
    let mut k2: usize = i + 1;
    while k2 < chars.len()
        invariant
            i as int + 1 <= k2 as int <= chars.len(),
            chars@ == s@,
            rest@ == s@.skip(i as int + 1).take(k2 - (i as int + 1)),
        decreases chars.len() - k2,
    {
        rest.push(chars[k2]);
        proof {
            assert(s@.skip(i as int + 1)[k2 - (i as int + 1)] == s@[k2 as int]);
            assert(s@.skip(i as int + 1).take(k2 - (i as int + 1)).push(
                s@[k2 as int],
            ) =~= s@.skip(i as int + 1).take(k2 + 1 - (i as int + 1)));
        }
        k2 = k2 + 1;
    }
    proof {
        assert(rest@ =~= s@.skip(i as int + 1));
    }
    let trimmed = trim_quotes_vec(&rest);
    let text = crate::models::chars_to_string(&trimmed);
    Ok((id, text))
}

} // verus!
