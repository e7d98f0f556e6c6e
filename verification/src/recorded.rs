//! A stage and a task as the record holds them, and what reading them from
//! a hub does to the rows: which reading decides the status, the day, the prose and the
//! shape of the heading, and whether anything changed. Finding and writing
//! the row is the program's work.
use vstd::prelude::*;
use crate::db::Change;
use crate::db::{is_open_status, version_key, version_order};
use crate::hub::{Stage, StageView, Task, TaskView};
use crate::text::{chars_of, chars_of_string, opt_chars, same, same_str, strings, text_of, trim, trimmed};

verus! {

/// How a stage's heading was written: what an export needs to write it
/// again where it stood.
#[derive(Debug, Clone)]
pub struct Shape {
    pub heading: Option<String>,
    pub depth: Option<i64>,
    pub after_prose: Option<i64>,
    pub gap_after: Option<i64>,
    pub rank: Option<i64>,
}

pub struct ShapeView {
    pub heading: Option<Seq<char>>,
    pub depth: Option<i64>,
    pub after_prose: Option<i64>,
    pub gap_after: Option<i64>,
    pub rank: Option<i64>,
}

impl View for Shape {
    type V = ShapeView;

    open spec fn view(&self) -> ShapeView {
        ShapeView {
            heading: opt_chars(self.heading),
            depth: self.depth,
            after_prose: self.after_prose,
            gap_after: self.gap_after,
            rank: self.rank,
        }
    }
}

/// A stage's version as the record holds it: title, status, the day it
/// shipped, the prose before and after its list, and its heading's shape.
#[derive(Debug, Clone)]
pub struct RecordedVersion {
    pub title: Option<String>,
    pub status: String,
    pub shipped_at: Option<String>,
    pub notes: Option<String>,
    pub notes_after: Option<String>,
    pub shape: Shape,
}

pub struct RecordedVersionView {
    pub title: Option<Seq<char>>,
    pub status: Seq<char>,
    pub shipped_at: Option<Seq<char>>,
    pub notes: Option<Seq<char>>,
    pub notes_after: Option<Seq<char>>,
    pub shape: ShapeView,
}

impl View for RecordedVersion {
    type V = RecordedVersionView;

    open spec fn view(&self) -> RecordedVersionView {
        RecordedVersionView {
            title: opt_chars(self.title),
            status: self.status@,
            shipped_at: opt_chars(self.shipped_at),
            notes: opt_chars(self.notes),
            notes_after: opt_chars(self.notes_after),
            shape: self.shape@,
        }
    }
}

/// A row that may not be there, by its view.
pub open spec fn opt_row(r: Option<&RecordedVersion>) -> Option<RecordedVersionView> {
    match r {
        Some(v) => Some(v@),
        None => None,
    }
}

/// The shape a reading of a stage gives its heading: the heading as
/// written, when it is more than white space, and the numbers of its place.
pub open spec fn shape_of(st: StageView) -> ShapeView {
    ShapeView {
        heading: if trim(st.heading).len() > 0 {
            Some(st.heading)
        } else {
            None
        },
        depth: Some(st.depth as i64),
        after_prose: Some(st.after_prose as i64),
        gap_after: Some(st.gap_after as i64),
        rank: Some(st.rank as i64),
    }
}

/// Prose as the record keeps it: an empty body is no body.
pub open spec fn kept_prose(s: Seq<char>) -> Option<Seq<char>> {
    if trim(s).len() > 0 {
        Some(s)
    } else {
        None
    }
}

/// The row a reading of a stage leaves.
///
/// A day a tag proved (`from_git`) outranks any written one; the plan's
/// copy of a stage already shipped, with no day of its own, does not
/// un-ship it; otherwise a day makes it shipped and none planned. The
/// changelog always says how the stage is written, the plan only for a
/// stage that has not shipped: a reading that does not own the shape keeps
/// the recorded shape and prose.
pub open spec fn version_row(
    existing: Option<RecordedVersionView>,
    from_git: Option<Seq<char>>,
    st: StageView,
    from_changelog: bool,
) -> RecordedVersionView {
    let already: Option<Option<Seq<char>>> = match existing {
        Some(e) => if e.status == "shipped"@ && st.shipped_on is None {
            Some(e.shipped_at)
        } else {
            None
        },
        None => None,
    };
    let (status, shipped_at) = match from_git {
        Some(day) => ("shipped"@, Some(day)),
        None => match already {
            Some(day) => ("shipped"@, day),
            None => (
                if st.shipped_on is Some {
                    "shipped"@
                } else {
                    "planned"@
                },
                st.shipped_on,
            ),
        },
    };
    let owns = from_changelog || status != "shipped"@;
    let kept: Option<RecordedVersionView> = if owns {
        None
    } else {
        existing
    };
    RecordedVersionView {
        title: st.title,
        status,
        shipped_at,
        notes: match kept {
            Some(e) => e.notes,
            None => kept_prose(st.notes),
        },
        notes_after: match kept {
            Some(e) => e.notes_after,
            None => kept_prose(st.notes_after),
        },
        shape: match kept {
            Some(e) => e.shape,
            None => shape_of(st),
        },
    }
}

/// What writing the row does: a new row is added, a row that reads the
/// same is left alone, any other is updated.
pub open spec fn version_change(existing: Option<RecordedVersionView>, row: RecordedVersionView) -> Change {
    match existing {
        None => Change::Added,
        Some(e) => if e == row {
            Change::Unchanged
        } else {
            Change::Updated
        },
    }
}

fn copy_text(s: &String) -> (r: String)
    ensures
        r@ == s@,
{
    text_of(&chars_of_string(s))
}

fn copy_opt(s: &Option<String>) -> (r: Option<String>)
    ensures
        opt_chars(r) == opt_chars(*s),
{
    match s {
        Some(t) => Some(copy_text(t)),
        None => None,
    }
}

fn same_opt(a: &Option<String>, b: &Option<String>) -> (r: bool)
    ensures
        r == (opt_chars(*a) == opt_chars(*b)),
{
    match (a, b) {
        (Some(x), Some(y)) => same(&chars_of_string(x), &chars_of_string(y)),
        (None, None) => true,
        _ => false,
    }
}

fn same_num(a: Option<i64>, b: Option<i64>) -> (r: bool)
    ensures
        r == (a == b),
{
    match (a, b) {
        (Some(x), Some(y)) => x == y,
        (None, None) => true,
        _ => false,
    }
}

fn copy_shape(s: &Shape) -> (r: Shape)
    ensures
        r@ == s@,
{
    Shape {
        heading: copy_opt(&s.heading),
        depth: s.depth,
        after_prose: s.after_prose,
        gap_after: s.gap_after,
        rank: s.rank,
    }
}

fn same_shape(a: &Shape, b: &Shape) -> (r: bool)
    ensures
        r == (a@ == b@),
{
    same_opt(&a.heading, &b.heading) && same_num(a.depth, b.depth) && same_num(a.after_prose, b.after_prose)
        && same_num(a.gap_after, b.gap_after) && same_num(a.rank, b.rank)
}

fn same_row(a: &RecordedVersion, b: &RecordedVersion) -> (r: bool)
    ensures
        r == (a@ == b@),
{
    same_opt(&a.title, &b.title) && same(&chars_of_string(&a.status), &chars_of_string(&b.status))
        && same_opt(&a.shipped_at, &b.shipped_at) && same_opt(&a.notes, &b.notes) && same_opt(
        &a.notes_after,
        &b.notes_after,
    ) && same_shape(&a.shape, &b.shape)
}

/// The shape a stage's heading has, as read.
pub fn shape_from(stage: &Stage) -> (r: Shape)
    ensures
        r@ == shape_of(stage@),
{
    let h = chars_of_string(&stage.heading);
    Shape {
        heading: if trimmed(&h).len() > 0 {
            Some(copy_text(&stage.heading))
        } else {
            None
        },
        depth: Some(stage.depth as i64),
        after_prose: Some(stage.after_prose as i64),
        gap_after: Some(stage.gap_after as i64),
        rank: Some(stage.rank as i64),
    }
}

fn prose_kept(s: &String) -> (r: Option<String>)
    ensures
        opt_chars(r) == kept_prose(s@),
{
    if trimmed(&chars_of_string(s)).len() > 0 {
        Some(copy_text(s))
    } else {
        None
    }
}

/// Records a reading of a stage against the row already recorded under
/// its version, if any, and the day a tag proved it shipped, if any: the
/// row to write and whether writing it adds, updates or changes nothing.
pub fn version_upsert(
    existing: Option<&RecordedVersion>,
    from_git: Option<&str>,
    stage: &Stage,
    from_changelog: bool,
) -> (r: (RecordedVersion, Change))
    ensures
        r.0@ == version_row(opt_row(existing), opt_str(from_git), stage@, from_changelog),
        r.1 == version_change(opt_row(existing), r.0@),
{
    proof {
        reveal_strlit("shipped");
        reveal_strlit("planned");
        assert("shipped"@ != "planned"@) by {
            assert("shipped"@[0] != "planned"@[0]);
        }
    }
    let ghost want = version_row(opt_row(existing), opt_str(from_git), stage@, from_changelog);
    let already: Option<Option<String>> = match existing {
        Some(e) => if same_str(&chars_of_string(&e.status), "shipped") && stage.shipped_on.is_none() {
            Some(copy_opt(&e.shipped_at))
        } else {
            None
        },
        None => None,
    };
    let (shipped, shipped_at): (bool, Option<String>) = match from_git {
        Some(day) => (true, Some(day.to_string())),
        None => match already {
            Some(day) => (true, day),
            None => (stage.shipped_on.is_some(), copy_opt(&stage.shipped_on)),
        },
    };
    let status = if shipped {
        "shipped".to_string()
    } else {
        "planned".to_string()
    };
    assert(status@ == want.status);
    assert(opt_chars(shipped_at) == want.shipped_at);
    let owns = from_changelog || !shipped;
    let kept = if owns {
        None
    } else {
        existing
    };
    let row = RecordedVersion {
        title: copy_opt(&stage.title),
        status,
        shipped_at,
        notes: match kept {
            Some(e) => copy_opt(&e.notes),
            None => prose_kept(&stage.notes),
        },
        notes_after: match kept {
            Some(e) => copy_opt(&e.notes_after),
            None => prose_kept(&stage.notes_after),
        },
        shape: match kept {
            Some(e) => copy_shape(&e.shape),
            None => shape_from(stage),
        },
    };
    assert(row@.title == want.title);
    assert(row@.notes == want.notes);
    assert(row@.notes_after == want.notes_after);
    assert(row@.shape == want.shape);
    let change = match existing {
        None => Change::Added,
        Some(e) => if same_row(e, &row) {
            Change::Unchanged
        } else {
            Change::Updated
        },
    };
    (row, change)
}

/// A borrowed text that may not be there, by its characters.
pub open spec fn opt_str(s: Option<&str>) -> Option<Seq<char>> {
    match s {
        Some(t) => Some(t@),
        None => None,
    }
}

/// Reading the same stage again, with the same day from the tag, leaves
/// the row as the first reading left it: a second import of an unchanged
/// hub reports nothing.
pub proof fn law_a_second_reading_changes_nothing(
    existing: Option<RecordedVersionView>,
    from_git: Option<Seq<char>>,
    st: StageView,
    from_changelog: bool,
)
    ensures
        version_row(Some(version_row(existing, from_git, st, from_changelog)), from_git, st, from_changelog)
            == version_row(existing, from_git, st, from_changelog),
        version_change(
            Some(version_row(existing, from_git, st, from_changelog)),
            version_row(Some(version_row(existing, from_git, st, from_changelog)), from_git, st, from_changelog),
        ) == Change::Unchanged,
{
    reveal_strlit("shipped");
    reveal_strlit("planned");
    assert("shipped"@ != "planned"@) by {
        assert("shipped"@[0] != "planned"@[0]);
    }
}


/// A task as the record holds it: its status, its title and its place in
/// its stage.
#[derive(Debug, Clone)]
pub struct RecordedTask {
    pub status: String,
    pub title: String,
    pub position: Option<i64>,
}

pub struct RecordedTaskView {
    pub status: Seq<char>,
    pub title: Seq<char>,
    pub position: Option<i64>,
}

impl View for RecordedTask {
    type V = RecordedTaskView;

    open spec fn view(&self) -> RecordedTaskView {
        RecordedTaskView { status: self.status@, title: self.title@, position: self.position }
    }
}

pub open spec fn open_status(s: Seq<char>) -> bool {
    !(s == "done"@ || s == "dropped"@)
}

/// The row a reading of a task line leaves, against the row found for it
/// (by its text, else by its place). A ticked box is `done` and an empty
/// one `new`; a task the record closed stays closed unless the reading may
/// reopen it, and an empty box leaves a task the record holds open in the
/// status it has.
pub open spec fn task_row(existing: Option<RecordedTaskView>, t: TaskView, position: i64, may_reopen: bool) -> RecordedTaskView {
    let read: Seq<char> = if t.done {
        "done"@
    } else {
        "new"@
    };
    let status = match existing {
        Some(e) => if !t.done && open_status(e.status) {
            e.status
        } else if !may_reopen && e.status == "done"@ {
            "done"@
        } else {
            read
        },
        None => read,
    };
    RecordedTaskView { status, title: t.title, position: Some(position) }
}

/// What writing a task's row does.
pub open spec fn task_change(existing: Option<RecordedTaskView>, row: RecordedTaskView) -> Change {
    match existing {
        None => Change::Added,
        Some(e) => if e == row {
            Change::Unchanged
        } else {
            Change::Updated
        },
    }
}

pub open spec fn opt_task(r: Option<&RecordedTask>) -> Option<RecordedTaskView> {
    match r {
        Some(v) => Some(v@),
        None => None,
    }
}

/// Records a reading of a task line at `position` in its stage against
/// the row found for it, if any: the row to write and what writing it does.
pub fn task_upsert(existing: Option<&RecordedTask>, task: &Task, position: i64, may_reopen: bool) -> (r: (
    RecordedTask,
    Change,
))
    ensures
        r.0@ == task_row(opt_task(existing), task@, position, may_reopen),
        r.1 == task_change(opt_task(existing), r.0@),
{
    let status = match existing {
        Some(e) => if !task.done && is_open_status(e.status.as_str()) {
            copy_text(&e.status)
        } else if !may_reopen && same_str(&chars_of_string(&e.status), "done") {
            "done".to_string()
        } else if task.done {
            "done".to_string()
        } else {
            "new".to_string()
        },
        None => if task.done {
            "done".to_string()
        } else {
            "new".to_string()
        },
    };
    let row = RecordedTask { status, title: copy_text(&task.title), position: Some(position) };
    let change = match existing {
        None => Change::Added,
        Some(e) => if same(&chars_of_string(&e.status), &chars_of_string(&row.status)) && same(
            &chars_of_string(&e.title),
            &chars_of_string(&row.title),
        ) && same_num(e.position, row.position) {
            Change::Unchanged
        } else {
            Change::Updated
        },
    };
    (row, change)
}

/// Reading the same task line again, at the same place, leaves its row as
/// the first reading left it.
pub proof fn law_a_task_read_again_is_unchanged(
    existing: Option<RecordedTaskView>,
    t: TaskView,
    position: i64,
    may_reopen: bool,
)
    ensures
        task_row(Some(task_row(existing, t, position, may_reopen)), t, position, may_reopen) == task_row(
            existing,
            t,
            position,
            may_reopen,
        ),
        task_change(
            Some(task_row(existing, t, position, may_reopen)),
            task_row(Some(task_row(existing, t, position, may_reopen)), t, position, may_reopen),
        ) == Change::Unchanged,
{
    reveal_strlit("done");
    reveal_strlit("new");
    reveal_strlit("dropped");
    assert("new"@ != "done"@) by {
        assert("new"@[0] != "done"@[0]);
    }
    assert("new"@ != "dropped"@) by {
        assert("new"@[0] != "dropped"@[0]);
    }
}


/// Whether a task of a stage that a reading no longer lists is struck: it
/// is still open and its id is not among the rows the reading wrote. Done
/// tasks stay.
pub fn task_struck(status: &str, id: i64, keep: &[i64]) -> (r: bool)
    ensures
        r == (open_status(status@) && !keep@.contains(id)),
{
    if !is_open_status(status) {
        return false;
    }
    for i in 0..keep.len()
        invariant
            forall|j: int| 0 <= j < i ==> keep@[j] != id,
    {
        if keep[i] == id {
            return false;
        }
    }
    true
}

/// Whether a version a hub no longer names, in either file, is dropped:
/// only one still planned is; a shipped one stays.
pub fn version_struck(status: &str, name: &str, keep: &Vec<String>) -> (r: bool)
    ensures
        r == (status@ == "planned"@ && !strings(keep@).contains(name@)),
{
    if !same_str(&chars_of(status), "planned") {
        return false;
    }
    let n = chars_of(name);
    for i in 0..keep.len()
        invariant
            n@ == name@,
            forall|j: int| 0 <= j < i ==> strings(keep@)[j] != name@,
    {
        if same(&chars_of_string(&keep[i]), &n) {
            assert(strings(keep@)[i as int] == name@);
            return false;
        }
    }
    true
}


/// Whether a recorded version, by name and title, could be the stage under
/// another name: the stage has a title, the row has the same one and
/// another name.
pub open spec fn twin_candidate(st: StageView, row: (Seq<char>, Option<Seq<char>>)) -> bool {
    st.title is Some && row.1 == st.title && row.0 != st.version
}

/// The same stage recorded under a different spelling of its number: the
/// first row that could be the stage under another name, when its name
/// stands for the same numbers (`v1.9` against `v1.9.0`).
pub open spec fn twin_of(st: StageView, rows: Seq<(Seq<char>, Option<Seq<char>>)>) -> Option<int> {
    if exists|i: int| 0 <= i < rows.len() && twin_candidate(st, #[trigger] rows[i]) {
        let i = choose|i: int|
            0 <= i < rows.len() && twin_candidate(st, #[trigger] rows[i]) && forall|j: int|
                0 <= j < i ==> !twin_candidate(st, #[trigger] rows[j]);
        if version_key(rows[i].0) == version_key(st.version) {
            Some(i)
        } else {
            None
        }
    } else {
        None
    }
}

pub open spec fn name_title_rows(rows: Seq<(String, Option<String>)>) -> Seq<(Seq<char>, Option<Seq<char>>)> {
    rows.map_values(|r: (String, Option<String>)| (r.0@, opt_chars(r.1)))
}

/// Finds, among the versions recorded for a project by name and title, the
/// one that is the stage read under another spelling of its number.
pub fn version_twin(stage: &Stage, rows: &Vec<(String, Option<String>)>) -> (r: Option<usize>)
    ensures
        match twin_of(stage@, name_title_rows(rows@)) {
            Some(i) => r == Some(i as usize),
            None => r is None,
        },
{
    let ghost rs = name_title_rows(rows@);
    let title = match &stage.title {
        Some(t) => chars_of_string(t),
        None => {
            return None;
        },
    };
    let version = chars_of_string(&stage.version);
    for i in 0..rows.len()
        invariant
            rs == name_title_rows(rows@),
            stage.title is Some,
            title@ == stage.title->0@,
            version@ == stage.version@,
            forall|j: int| 0 <= j < i ==> !twin_candidate(stage@, #[trigger] rs[j]),
    {
        let same_title = match &rows[i].1 {
            Some(t) => same(&chars_of_string(t), &title),
            None => false,
        };
        let other_name = !same(&chars_of_string(&rows[i].0), &version);
        assert(rs[i as int] == (rows@[i as int].0@, opt_chars(rows@[i as int].1)));
        if same_title && other_name {
            proof {
                let c = choose|c: int|
                    0 <= c < rs.len() && twin_candidate(stage@, #[trigger] rs[c]) && forall|j: int|
                        0 <= j < c ==> !twin_candidate(stage@, #[trigger] rs[j]);
                assert(twin_candidate(stage@, rs[i as int]));
                if c < i {
                    assert(!twin_candidate(stage@, rs[c]));
                }
                if i < c {
                    assert(!twin_candidate(stage@, rs[i as int]));
                }
            }
            let a = version_order(rows[i].0.as_str());
            let b = version_order(stage.version.as_str());
            if a.0 == b.0 && a.1 == b.1 && a.2 == b.2 {
                return Some(i);
            } else {
                return None;
            }
        }
    }
    None
}

} // verus!
