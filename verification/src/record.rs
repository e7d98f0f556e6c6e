//! The record of a project's stages as plain values, and importing a hub
//! into it: the stages the changelog closed first, then the plan's open
//! ones, each version and its task lines written against what is already
//! there, what a reading no longer lists struck. Reading and writing the
//! database around it is the program's work.
use vstd::prelude::*;
use crate::db::Change;
use crate::hub::{Stage, StageView, Task, TaskView, task_views};
use crate::recorded::{
    open_status, task_change, task_row, task_upsert, version_change, version_row, version_upsert,
    RecordedTask, RecordedTaskView, RecordedVersion, RecordedVersionView,
};
use crate::text::{chars_of_string, opt_chars, same, same_str, strings, text_of};

verus! {

/// A stage as the record holds it: its version's name and row, the day a
/// tag proved it shipped, if one did, and its tasks in the order recorded.
#[derive(Debug, Clone)]
pub struct StageRow {
    pub name: String,
    pub version: RecordedVersion,
    pub tag_day: Option<String>,
    pub tasks: Vec<RecordedTask>,
}

pub struct StageRowView {
    pub name: Seq<char>,
    pub version: RecordedVersionView,
    pub tag_day: Option<Seq<char>>,
    pub tasks: Seq<RecordedTaskView>,
}

pub open spec fn task_rows(v: Seq<RecordedTask>) -> Seq<RecordedTaskView> {
    v.map_values(|t: RecordedTask| t@)
}

impl View for StageRow {
    type V = StageRowView;

    open spec fn view(&self) -> StageRowView {
        StageRowView {
            name: self.name@,
            version: self.version@,
            tag_day: opt_chars(self.tag_day),
            tasks: task_rows(self.tasks@),
        }
    }
}

pub open spec fn stage_rows(v: Seq<StageRow>) -> Seq<StageRowView> {
    v.map_values(|s: StageRow| s@)
}

/// The first task recorded under a title.
#[verifier::opaque]
pub open spec fn first_titled(ts: Seq<RecordedTaskView>, title: Seq<char>) -> Option<int> {
    if exists|i: int| 0 <= i < ts.len() && #[trigger] ts[i].title == title {
        Some(
            choose|i: int|
                0 <= i < ts.len() && ts[i].title == title && forall|j: int| 0 <= j < i ==> #[trigger] ts[j].title != title,
        )
    } else {
        None
    }
}

/// The first task recorded at a place in its stage.
#[verifier::opaque]
pub open spec fn first_placed(ts: Seq<RecordedTaskView>, p: i64) -> Option<int> {
    if exists|i: int| 0 <= i < ts.len() && #[trigger] ts[i].position == Some(p) {
        Some(
            choose|i: int|
                0 <= i < ts.len() && ts[i].position == Some(p) && forall|j: int|
                    0 <= j < i ==> #[trigger] ts[j].position != Some(p),
        )
    } else {
        None
    }
}

/// The task a line is: the one recorded under its text, else the one
/// recorded at its place - a line reworded in place is the same line.
pub open spec fn task_match(ts: Seq<RecordedTaskView>, line: TaskView, p: i64) -> Option<int> {
    match first_titled(ts, line.title) {
        Some(i) => Some(i),
        None => first_placed(ts, p),
    }
}

/// One task line read into a stage's tasks: the tasks after, where the
/// line went, and what writing it did.
pub open spec fn task_step(ts: Seq<RecordedTaskView>, line: TaskView, p: i64, may_reopen: bool) -> (
    Seq<RecordedTaskView>,
    int,
    Change,
) {
    match task_match(ts, line, p) {
        Some(i) => (
            ts.update(i, task_row(Some(ts[i]), line, p, may_reopen)),
            i,
            task_change(Some(ts[i]), task_row(Some(ts[i]), line, p, may_reopen)),
        ),
        None => (ts.push(task_row(None, line, p, may_reopen)), ts.len() as int, Change::Added),
    }
}

/// A stage's task lines read in order: the tasks after, where each line
/// went, and what writing each did.
pub open spec fn tasks_read(ts: Seq<RecordedTaskView>, lines: Seq<TaskView>, may_reopen: bool) -> (
    Seq<RecordedTaskView>,
    Seq<int>,
    Seq<Change>,
)
    decreases lines.len(),
{
    if lines.len() == 0 {
        (ts, Seq::empty(), Seq::empty())
    } else {
        let before = tasks_read(ts, lines.drop_last(), may_reopen);
        let step = task_step(before.0, lines.last(), (lines.len() - 1) as i64, may_reopen);
        (step.0, before.1.push(step.1), before.2.push(step.2))
    }
}

/// Whether a task is struck: the reading speaks for the stage, the task is
/// open, and no line of the reading went to it.
pub open spec fn struck(t: RecordedTaskView, i: int, kept: Seq<int>, may_reopen: bool) -> bool {
    may_reopen && open_status(t.status) && !kept.contains(i)
}

pub open spec fn struck_row(t: RecordedTaskView) -> RecordedTaskView {
    RecordedTaskView { status: "dropped"@, title: t.title, position: t.position }
}

/// The tasks after the ones no line went to are struck.
pub open spec fn after_strike(ts: Seq<RecordedTaskView>, kept: Seq<int>, may_reopen: bool) -> Seq<RecordedTaskView> {
    Seq::new(
        ts.len(),
        |i: int|
            if struck(ts[i], i, kept, may_reopen) {
                struck_row(ts[i])
            } else {
                ts[i]
            },
    )
}

/// The places of the tasks struck, in order.
pub open spec fn struck_places(ts: Seq<RecordedTaskView>, kept: Seq<int>, may_reopen: bool, n: int) -> Seq<int>
    decreases n,
{
    if n <= 0 {
        Seq::empty()
    } else if struck(ts[n - 1], n - 1, kept, may_reopen) {
        struck_places(ts, kept, may_reopen, n - 1).push(n - 1)
    } else {
        struck_places(ts, kept, may_reopen, n - 1)
    }
}

fn copy_text(s: &String) -> (r: String)
    ensures
        r@ == s@,
{
    text_of(&chars_of_string(s))
}

fn find_titled(ts: &Vec<RecordedTask>, title: &String) -> (r: Option<usize>)
    ensures
        r matches Some(k) ==> first_titled(task_rows(ts@), title@) == Some(k as int),
        r is None ==> first_titled(task_rows(ts@), title@) is None,
        r matches Some(k) ==> k < ts.len() && task_rows(ts@)[k as int].title == title@,
{
    reveal(first_titled);
    let ghost rs = task_rows(ts@);
    let t = chars_of_string(title);
    for i in 0..ts.len()
        invariant
            rs == task_rows(ts@),
            t@ == title@,
            forall|j: int| 0 <= j < i ==> #[trigger] rs[j].title != title@,
    {
        assert(rs[i as int] == ts@[i as int]@);
        if same(&chars_of_string(&ts[i].title), &t) {
            proof {
                reveal(first_titled);
                let c = choose|c: int|
                    0 <= c < rs.len() && rs[c].title == title@ && forall|j: int| 0 <= j < c ==> #[trigger] rs[j].title != title@;
                assert(rs[i as int].title == title@);
                if c < i {
                    assert(rs[c].title != title@);
                }
                if i < c {
                    assert(rs[i as int].title != title@);
                }
            }
            return Some(i);
        }
    }
    None
}

fn find_placed(ts: &Vec<RecordedTask>, p: i64) -> (r: Option<usize>)
    ensures
        r matches Some(k) ==> first_placed(task_rows(ts@), p) == Some(k as int),
        r is None ==> first_placed(task_rows(ts@), p) is None,
        r matches Some(k) ==> k < ts.len() && task_rows(ts@)[k as int].position == Some(p),
{
    reveal(first_placed);
    let ghost rs = task_rows(ts@);
    for i in 0..ts.len()
        invariant
            rs == task_rows(ts@),
            forall|j: int| 0 <= j < i ==> #[trigger] rs[j].position != Some(p),
    {
        assert(rs[i as int] == ts@[i as int]@);
        let here = match ts[i].position {
            Some(q) => q == p,
            None => false,
        };
        if here {
            proof {
                reveal(first_placed);
                let c = choose|c: int|
                    0 <= c < rs.len() && rs[c].position == Some(p) && forall|j: int|
                        0 <= j < c ==> #[trigger] rs[j].position != Some(p);
                assert(rs[i as int].position == Some(p));
                if c < i {
                    assert(rs[c].position != Some(p));
                }
                if i < c {
                    assert(rs[i as int].position != Some(p));
                }
            }
            return Some(i);
        }
    }
    None
}

pub open spec fn places(v: Seq<usize>) -> Seq<int> {
    v.map_values(|i: usize| i as int)
}

/// One task line written into a stage's tasks: where it went, and what
/// writing it did.
fn read_line(ts: &mut Vec<RecordedTask>, line: &Task, pos: i64, may_reopen: bool) -> (r: (usize, Change))
    ensures
        (task_rows(final(ts)@), r.0 as int, r.1) == task_step(task_rows(old(ts)@), line@, pos, may_reopen),
{
    let ghost before = task_rows(ts@);
    let found = match find_titled(ts, &line.title) {
        Some(i) => Some(i),
        None => find_placed(ts, pos),
    };
    match found {
        Some(i) => {
            assert(before[i as int] == ts@[i as int]@);
            let (row, change) = task_upsert(Some(&ts[i]), line, pos, may_reopen);
            ts.set(i, row);
            assert(task_rows(ts@) =~= before.update(i as int, task_row(Some(before[i as int]), line@, pos, may_reopen)));
            (i, change)
        },
        None => {
            let (row, change) = task_upsert(None, line, pos, may_reopen);
            let n = ts.len();
            ts.push(row);
            assert(task_rows(ts@) =~= before.push(task_row(None, line@, pos, may_reopen)));
            (n, change)
        },
    }
}

/// Reads a stage's task lines into its recorded tasks, in order.
pub fn read_tasks(tasks: Vec<RecordedTask>, lines: &Vec<Task>, may_reopen: bool) -> (r: (
    Vec<RecordedTask>,
    Vec<usize>,
    Vec<Change>,
))
    requires
        lines.len() <= i64::MAX,
    ensures
        (task_rows(r.0@), places(r.1@), r.2@) == tasks_read(task_rows(tasks@), task_views(lines@), may_reopen),
{
    let ghost start = task_rows(tasks@);
    let ghost all = task_views(lines@);
    let mut ts = tasks;
    let mut kept: Vec<usize> = Vec::new();
    let mut changes: Vec<Change> = Vec::new();
    for p in 0..lines.len()
        invariant
            lines.len() <= i64::MAX,
            all == task_views(lines@),
            (task_rows(ts@), places(kept@), changes@) == tasks_read(start, all.take(p as int), may_reopen),
    {
        assert(all.take(p + 1).drop_last() =~= all.take(p as int));
        assert(all.take(p + 1).last() == lines@[p as int]@);
        let (i, change) = read_line(&mut ts, &lines[p], p as i64, may_reopen);
        kept.push(i);
        changes.push(change);
        assert(places(kept@) =~= tasks_read(start, all.take(p + 1), may_reopen).1);
    }
    assert(all.take(lines.len() as int) =~= all);
    (ts, kept, changes)
}


/// The tasks after those no line went to are struck, and the places of
/// the ones struck.
pub fn strike(ts: &mut Vec<RecordedTask>, kept: &Vec<usize>, may_reopen: bool) -> (r: Vec<usize>)
    ensures
        task_rows(final(ts)@) == after_strike(task_rows(old(ts)@), places(kept@), may_reopen),
        places(r@) == struck_places(task_rows(old(ts)@), places(kept@), may_reopen, old(ts)@.len() as int),
{
    let ghost start = task_rows(ts@);
    let ghost ks = places(kept@);
    let mut out: Vec<usize> = Vec::new();
    let n = ts.len();
    for i in 0..n
        invariant
            n == ts.len(),
            start.len() == n,
            ks == places(kept@),
            forall|j: int| 0 <= j < i ==> #[trigger] task_rows(ts@)[j] == after_strike(start, ks, may_reopen)[j],
            forall|j: int| i <= j < n ==> #[trigger] task_rows(ts@)[j] == start[j],
            places(out@) == struck_places(start, ks, may_reopen, i as int),
    {
        let mut listed = false;
        for k in 0..kept.len()
            invariant
                ks == places(kept@),
                ks.len() == kept.len(),
                listed == exists|j: int| 0 <= j < k && ks[j] == i as int,
        {
            assert(ks[k as int] == kept@[k as int] as int);
            if kept[k] == i {
                listed = true;
            }
        }
        assert(listed == ks.contains(i as int)) by {
            if ks.contains(i as int) {
                let j = choose|j: int| 0 <= j < ks.len() && ks[j] == i as int;
                assert(ks[j] == i as int);
            }
        }
        assert(task_rows(ts@)[i as int] == ts@[i as int]@);
        if may_reopen && crate::db::is_open_status(ts[i].status.as_str()) && !listed {
            let row = RecordedTask { status: "dropped".to_string(), title: copy_text(&ts[i].title), position: ts[i].position };
            let ghost before = ts@;
            ts.set(i, row);
            assert forall|j: int| 0 <= j < n && j != i implies #[trigger] task_rows(ts@)[j] == task_rows(before)[j] by {
                assert(ts@[j] == before[j]);
            }
            out.push(i);
        }
        assert(places(out@) =~= struck_places(start, ks, may_reopen, i + 1));
    }
    assert(task_rows(ts@) =~= after_strike(start, ks, may_reopen));
    out
}

/// The first stage recorded under a version's name.
#[verifier::opaque]
pub open spec fn first_named(rec: Seq<StageRowView>, name: Seq<char>) -> Option<int> {
    if exists|i: int| 0 <= i < rec.len() && #[trigger] rec[i].name == name {
        Some(
            choose|i: int|
                0 <= i < rec.len() && rec[i].name == name && forall|j: int| 0 <= j < i ==> #[trigger] rec[j].name != name,
        )
    } else {
        None
    }
}

/// A stage read into the record: the stage's row written against the one
/// recorded under its version, its task lines read against its tasks, and
/// the tasks the reading no longer lists struck when the reading speaks for
/// the stage. The record after, what writing the version did, what writing
/// each task line did, and the places of the tasks struck.
pub open spec fn stage_step(rec: Seq<StageRowView>, st: StageView, from_changelog: bool, plan_is_generated: bool) -> (
    Seq<StageRowView>,
    Change,
    Seq<Change>,
    Seq<int>,
) {
    let at = first_named(rec, st.version);
    let existing: Option<StageRowView> = match at {
        Some(i) => Some(rec[i]),
        None => None,
    };
    let r = row_read(existing, st, from_changelog, plan_is_generated);
    (
        match at {
            Some(i) => rec.update(i, r.0),
            None => rec.push(r.0),
        },
        r.1,
        r.2,
        r.3,
    )
}

/// A stage read against the row recorded under its version, if any: the
/// row after, what writing the version did, what writing each task line
/// did, and the places of the tasks struck.
pub open spec fn row_read(existing: Option<StageRowView>, st: StageView, from_changelog: bool, plan_is_generated: bool) -> (
    StageRowView,
    Change,
    Seq<Change>,
    Seq<int>,
) {
    let old_row: Option<RecordedVersionView> = match existing {
        Some(e) => Some(e.version),
        None => None,
    };
    let tag: Option<Seq<char>> = match existing {
        Some(e) => e.tag_day,
        None => None,
    };
    let ts0: Seq<RecordedTaskView> = match existing {
        Some(e) => e.tasks,
        None => Seq::empty(),
    };
    let row = version_row(old_row, tag, st, from_changelog);
    let may_reopen = (from_changelog || row.status != "shipped"@) && !plan_is_generated;
    let read = tasks_read(ts0, st.tasks, may_reopen);
    (
        StageRowView { name: st.version, version: row, tag_day: tag, tasks: after_strike(read.0, read.1, may_reopen) },
        version_change(old_row, row),
        read.2,
        struck_places(read.0, read.1, may_reopen, read.0.len() as int),
    )
}

fn find_named(rec: &Vec<StageRow>, name: &String) -> (r: Option<usize>)
    ensures
        r matches Some(k) ==> k < rec.len() && first_named(stage_rows(rec@), name@) == Some(k as int),
        r is None ==> first_named(stage_rows(rec@), name@) is None,
{
    let ghost rs = stage_rows(rec@);
    let t = chars_of_string(name);
    for i in 0..rec.len()
        invariant
            rs == stage_rows(rec@),
            t@ == name@,
            forall|j: int| 0 <= j < i ==> #[trigger] rs[j].name != name@,
    {
        assert(rs[i as int] == rec@[i as int]@);
        if same(&chars_of_string(&rec[i].name), &t) {
            proof {
                reveal(first_named);
                let c = choose|c: int|
                    0 <= c < rs.len() && rs[c].name == name@ && forall|j: int| 0 <= j < c ==> #[trigger] rs[j].name != name@;
                assert(rs[i as int].name == name@);
                if c < i {
                    assert(rs[c].name != name@);
                }
                if i < c {
                    assert(rs[i as int].name != name@);
                }
            }
            return Some(i);
        }
    }
    proof {
        reveal(first_named);
    }
    None
}

fn copy_opt(s: &Option<String>) -> (r: Option<String>)
    ensures
        opt_chars(r) == opt_chars(*s),
{
    match s {
        Some(t) => Some(copy_text(t)),
        None => None,
    }
}

fn copy_task(t: &RecordedTask) -> (r: RecordedTask)
    ensures
        r@ == t@,
{
    RecordedTask { status: copy_text(&t.status), title: copy_text(&t.title), position: t.position }
}

/// Reads one stage into the record.
pub fn read_stage(rec: &mut Vec<StageRow>, stage: &Stage, from_changelog: bool, plan_is_generated: bool) -> (r: (
    Change,
    Vec<Change>,
    Vec<usize>,
))
    requires
        stage.tasks.len() <= i64::MAX,
    ensures
        (stage_rows(final(rec)@), r.0, r.1@, places(r.2@)) == stage_step(
            stage_rows(old(rec)@),
            stage@,
            from_changelog,
            plan_is_generated,
        ),
{
    let ghost before = stage_rows(rec@);
    let at = find_named(rec, &stage.version);
    let (row, change, tag, ts0) = match at {
        Some(i) => {
            assert(before[i as int] == rec@[i as int]@);
            let e = &rec[i];
            let (row, change) = version_upsert(Some(&e.version), match &e.tag_day {
                Some(d) => Some(d.as_str()),
                None => None,
            }, stage, from_changelog);
            let mut ts0: Vec<RecordedTask> = Vec::new();
            for k in 0..e.tasks.len()
                invariant
                    task_rows(ts0@) == task_rows(e.tasks@).take(k as int),
            {
                let t = copy_task(&e.tasks[k]);
                assert(task_rows(e.tasks@)[k as int] == e.tasks@[k as int]@);
                let ghost prev = ts0@;
                ts0.push(t);
                assert(task_rows(ts0@) =~= task_rows(prev).push(t@));
                assert(task_rows(ts0@) =~= task_rows(e.tasks@).take(k + 1));
            }
            assert(task_rows(e.tasks@).take(e.tasks.len() as int) =~= task_rows(e.tasks@));
            (row, change, copy_opt(&e.tag_day), ts0)
        },
        None => {
            let (row, change) = version_upsert(None, None, stage, from_changelog);
            (row, change, None, Vec::new())
        },
    };
    let ghost want = stage_step(before, stage@, from_changelog, plan_is_generated);
    let ghost at_spec = first_named(before, stage@.version);
    assert(at_spec == match at {
        Some(i) => Some(i as int),
        None => None::<int>,
    });
    assert(task_rows(ts0@) == match at_spec {
        Some(i) => before[i].tasks,
        None => Seq::<RecordedTaskView>::empty(),
    }) by {
        if at is None {
            assert(task_rows(ts0@) =~= Seq::<RecordedTaskView>::empty());
        }
    }
    let shipped = same_str(&chars_of_string(&row.status), "shipped");
    let may_reopen = crate::import::may_reopen(from_changelog, shipped, plan_is_generated);
    let (mut ts, kept, changes) = read_tasks(ts0, &stage.tasks, may_reopen);
    let dropped = strike(&mut ts, &kept, may_reopen);
    let new_row = StageRow { name: copy_text(&stage.version), version: row, tag_day: tag, tasks: ts };
    assert(new_row@ == match at_spec {
        Some(i) => want.0[i],
        None => want.0.last(),
    });
    match at {
        Some(i) => {
            rec.set(i, new_row);
            assert(stage_rows(rec@) =~= before.update(i as int, stage_step(before, stage@, from_changelog, plan_is_generated).0[i as int]));
        },
        None => {
            rec.push(new_row);
            assert(stage_rows(rec@) =~= before.push(new_row@));
        },
    }
    (change, changes, dropped)
}


/// The stages of a hub in the order they are read, each with whether it
/// comes from the changelog: the closed stages first, so that the plan's
/// copy of a stage the changelog knows shipped cannot undo it.
pub open spec fn readings(h: crate::hub::HubView) -> Seq<(StageView, bool)> {
    h.closed_stages.map_values(|s: StageView| (s, true)) + h.open_stages.map_values(|s: StageView| (s, false))
}

/// The stages read into the record in order: the record after, what
/// writing each version did, what writing each task line did, and the
/// places of the tasks struck.
pub open spec fn stages_read(rec: Seq<StageRowView>, rs: Seq<(StageView, bool)>, plan_is_generated: bool) -> (
    Seq<StageRowView>,
    Seq<Change>,
    Seq<Change>,
    Seq<int>,
)
    decreases rs.len(),
{
    if rs.len() == 0 {
        (rec, Seq::empty(), Seq::empty(), Seq::empty())
    } else {
        let before = stages_read(rec, rs.drop_last(), plan_is_generated);
        let step = stage_step(before.0, rs.last().0, rs.last().1, plan_is_generated);
        (step.0, before.1.push(step.1), before.2 + step.2, before.3 + step.3)
    }
}

/// Whether a reading names a version.
pub open spec fn named_in(rs: Seq<(StageView, bool)>, name: Seq<char>) -> bool {
    exists|i: int| 0 <= i < rs.len() && #[trigger] rs[i].0.version == name
}

/// Whether a version neither file names any more is dropped: one still
/// planned is - it was renumbered or struck by hand - and only when the
/// plan is a person's writing.
pub open spec fn version_dropped(r: StageRowView, rs: Seq<(StageView, bool)>, plan_is_generated: bool) -> bool {
    !plan_is_generated && r.version.status == "planned"@ && !named_in(rs, r.name)
}

/// Every open task struck.
pub open spec fn all_struck(ts: Seq<RecordedTaskView>) -> Seq<RecordedTaskView> {
    ts.map_values(|t: RecordedTaskView| if open_status(t.status) {
        struck_row(t)
    } else {
        t
    })
}

/// A stage after the versions no reading names are dropped: its status
/// dropped when it is one, and the open tasks of a dropped version struck
/// with it.
pub open spec fn after_drop(r: StageRowView, rs: Seq<(StageView, bool)>, plan_is_generated: bool) -> StageRowView {
    let v = if version_dropped(r, rs, plan_is_generated) {
        RecordedVersionView { status: "dropped"@, ..r.version }
    } else {
        r.version
    };
    StageRowView {
        version: v,
        tasks: if !plan_is_generated && v.status == "dropped"@ {
            all_struck(r.tasks)
        } else {
            r.tasks
        },
        ..r
    }
}

/// How many of the first `n` stages are dropped.
pub open spec fn dropped_count(rec: Seq<StageRowView>, rs: Seq<(StageView, bool)>, plan_is_generated: bool, n: int) -> nat
    decreases n,
{
    if n <= 0 {
        0
    } else {
        dropped_count(rec, rs, plan_is_generated, n - 1) + if version_dropped(rec[n - 1], rs, plan_is_generated) {
            1nat
        } else {
            0nat
        }
    }
}

/// How many writes did a thing.
pub open spec fn count(cs: Seq<Change>, c: Change) -> nat
    decreases cs.len(),
{
    if cs.len() == 0 {
        0
    } else {
        count(cs.drop_last(), c) + if cs.last() == c {
            1nat
        } else {
            0nat
        }
    }
}

/// The record after a hub is imported.
pub open spec fn imported(rec: Seq<StageRowView>, h: crate::hub::HubView, plan_is_generated: bool) -> Seq<StageRowView> {
    let rs = readings(h);
    let read = stages_read(rec, rs, plan_is_generated).0;
    Seq::new(read.len(), |i: int| after_drop(read[i], rs, plan_is_generated))
}

/// What importing a hub did: versions added and updated, tasks added,
/// updated and struck, versions dropped.
pub open spec fn import_report(rec: Seq<StageRowView>, h: crate::hub::HubView, plan_is_generated: bool) -> (
    nat,
    nat,
    nat,
    nat,
    nat,
    nat,
) {
    let rs = readings(h);
    let read = stages_read(rec, rs, plan_is_generated);
    (
        count(read.1, Change::Added),
        count(read.1, Change::Updated),
        count(read.2, Change::Added),
        count(read.2, Change::Updated),
        read.3.len(),
        dropped_count(read.0, rs, plan_is_generated, read.0.len() as int),
    )
}

/// What an import did, in numbers.
#[derive(Debug, Default, Clone, Copy, PartialEq, Eq)]
pub struct ImportReport {
    pub versions_added: usize,
    pub versions_updated: usize,
    pub tasks_added: usize,
    pub tasks_updated: usize,
    pub tasks_dropped: usize,
    pub versions_dropped: usize,
}

pub open spec fn report_view(r: ImportReport) -> (nat, nat, nat, nat, nat, nat) {
    (
        r.versions_added as nat,
        r.versions_updated as nat,
        r.tasks_added as nat,
        r.tasks_updated as nat,
        r.tasks_dropped as nat,
        r.versions_dropped as nat,
    )
}

fn count_of(cs: &Vec<Change>, c: Change) -> (r: usize)
    ensures
        r == count(cs@, c),
{
    let mut n: usize = 0;
    for i in 0..cs.len()
        invariant
            n == count(cs@.take(i as int), c),
            n <= i,
    {
        assert(cs@.take(i + 1).drop_last() =~= cs@.take(i as int));
        if cs[i] == c {
            n = n + 1;
        }
    }
    assert(cs@.take(cs.len() as int) =~= cs@);
    n
}

/// Whether every stage of a hub fits the places a task line can be at.
pub open spec fn lines_fit(h: crate::hub::HubView) -> bool {
    forall|i: int| 0 <= i < readings(h).len() ==> #[trigger] readings(h)[i].0.tasks.len() <= i64::MAX
}


fn named(hub: &crate::hub::Hub, name: &String) -> (r: bool)
    ensures
        r == named_in(readings(hub@), name@),
{
    let ghost rs = readings(hub@);
    let n = chars_of_string(name);
    let c = hub.closed_stages.len();
    assert(rs.len() == c + hub.open_stages.len());
    for i in 0..c
        invariant
            rs == readings(hub@),
            c == hub.closed_stages.len(),
            n@ == name@,
            forall|j: int| 0 <= j < i ==> #[trigger] rs[j].0.version != name@,
    {
        assert(rs[i as int].0 == hub.closed_stages@[i as int]@);
        if same(&chars_of_string(&hub.closed_stages[i].version), &n) {
            assert(rs[i as int].0.version == name@);
            return true;
        }
    }
    for i in 0..hub.open_stages.len()
        invariant
            rs == readings(hub@),
            c == hub.closed_stages.len(),
            rs.len() == c + hub.open_stages.len(),
            n@ == name@,
            forall|j: int| 0 <= j < c + i ==> #[trigger] rs[j].0.version != name@,
    {
        assert(rs[c + i].0 == hub.open_stages@[i as int]@);
        if same(&chars_of_string(&hub.open_stages[i].version), &n) {
            assert(rs[c + i].0.version == name@);
            return true;
        }
    }
    false
}

/// Every open task of a stage struck.
fn strike_all(ts: &mut Vec<RecordedTask>)
    ensures
        task_rows(final(ts)@) == all_struck(task_rows(old(ts)@)),
{
    let ghost start = task_rows(ts@);
    let n = ts.len();
    for i in 0..n
        invariant
            n == ts.len(),
            start.len() == n,
            forall|j: int| 0 <= j < i ==> #[trigger] task_rows(ts@)[j] == all_struck(start)[j],
            forall|j: int| i <= j < n ==> #[trigger] task_rows(ts@)[j] == start[j],
    {
        assert(task_rows(ts@)[i as int] == ts@[i as int]@);
        if crate::db::is_open_status(ts[i].status.as_str()) {
            let row = RecordedTask { status: "dropped".to_string(), title: copy_text(&ts[i].title), position: ts[i].position };
            let ghost before = ts@;
            ts.set(i, row);
            assert forall|j: int| 0 <= j < n && j != i implies #[trigger] task_rows(ts@)[j] == task_rows(before)[j] by {
                assert(ts@[j] == before[j]);
            }
        }
    }
    assert(task_rows(ts@) =~= all_struck(start));
}

/// A stage after the versions no reading names are dropped, and whether
/// it was one.
fn drop_if_gone(row: &mut StageRow, hub: &crate::hub::Hub, plan_is_generated: bool) -> (r: bool)
    ensures
        final(row)@ == after_drop(old(row)@, readings(hub@), plan_is_generated),
        r == version_dropped(old(row)@, readings(hub@), plan_is_generated),
{
    proof {
        reveal_strlit("planned");
        reveal_strlit("dropped");
    }
    let gone = !plan_is_generated && same_str(&chars_of_string(&row.version.status), "planned") && !named(hub, &row.name);
    if gone {
        row.version.status = "dropped".to_string();
    }
    if !plan_is_generated && same_str(&chars_of_string(&row.version.status), "dropped") {
        strike_all(&mut row.tasks);
    }
    gone
}

/// The record of a project's stages.
#[derive(Debug, Clone)]
pub struct RecordModel {
    pub stages: Vec<StageRow>,
}

impl View for RecordModel {
    type V = Seq<StageRowView>;

    open spec fn view(&self) -> Seq<StageRowView> {
        stage_rows(self.stages@)
    }
}

fn push_all<T>(to: &mut Vec<T>, from: Vec<T>)
    ensures
        final(to)@ == old(to)@ + from@,
{
    let ghost start = to@;
    let ghost all = from@;
    let mut rest = from;
    let mut k: usize = 0;
    let n = rest.len();
    assert(all.skip(0) =~= all);
    while rest.len() > 0
        invariant
            n == all.len(),
            k <= n,
            rest@ == all.skip(k as int),
            to@ == start + all.take(k as int),
        decreases rest.len(),
    {
        let x = rest.remove(0);
        assert(all.skip(k as int)[0] == x);
        assert(all.skip(k + 1) =~= all.skip(k as int).drop_first());
        to.push(x);
        assert(all.take(k + 1) =~= all.take(k as int).push(x));
        k = k + 1;
    }
    assert(all.take(n as int) =~= all);
}

/// Imports a hub into the record: the stages the changelog closed first,
/// then the plan's open ones, each version and its task lines written
/// against what the record holds; then, when the plan is a person's
/// writing, the planned versions neither file names any more dropped.
pub fn import_hub(record: RecordModel, hub: &crate::hub::Hub, plan_is_generated: bool) -> (r: (RecordModel, ImportReport))
    requires
        lines_fit(hub@),
    ensures
        r.0@ == imported(record@, hub@, plan_is_generated),
        report_view(r.1) == import_report(record@, hub@, plan_is_generated),
{
    let ghost rec0 = record@;
    let ghost rs = readings(hub@);
    let mut rec = record.stages;
    let mut versions: Vec<Change> = Vec::new();
    let mut tasks: Vec<Change> = Vec::new();
    let mut struck: Vec<usize> = Vec::new();
    let c = hub.closed_stages.len();
    assert(rs.len() == c + hub.open_stages.len());
    assert(rs.take(0) =~= Seq::<(StageView, bool)>::empty());
    for i in 0..c
        invariant
            rs == readings(hub@),
            lines_fit(hub@),
            c == hub.closed_stages.len(),
            rs.len() == c + hub.open_stages.len(),
            (stage_rows(rec@), versions@, tasks@, places(struck@)) == stages_read(rec0, rs.take(i as int), plan_is_generated),
    {
        assert(rs[i as int] == (hub.closed_stages@[i as int]@, true));
        assert(rs.take(i + 1).drop_last() =~= rs.take(i as int));
        assert(rs.take(i + 1).last() == rs[i as int]);
        assert(rs[i as int].0.tasks.len() <= i64::MAX);
        let (v, t, d) = read_stage(&mut rec, &hub.closed_stages[i], true, plan_is_generated);
        versions.push(v);
        push_all(&mut tasks, t);
        let ghost before = places(struck@);
        push_all(&mut struck, d);
        assert(places(struck@) =~= before + places(d@));
    }
    for j in 0..hub.open_stages.len()
        invariant
            rs == readings(hub@),
            lines_fit(hub@),
            c == hub.closed_stages.len(),
            rs.len() == c + hub.open_stages.len(),
            (stage_rows(rec@), versions@, tasks@, places(struck@)) == stages_read(rec0, rs.take(c + j), plan_is_generated),
    {
        assert(rs[c + j] == (hub.open_stages@[j as int]@, false));
        assert(rs.take(c + j + 1).drop_last() =~= rs.take(c + j));
        assert(rs.take(c + j + 1).last() == rs[c + j]);
        assert(rs[c + j].0.tasks.len() <= i64::MAX);
        let (v, t, d) = read_stage(&mut rec, &hub.open_stages[j], false, plan_is_generated);
        versions.push(v);
        push_all(&mut tasks, t);
        let ghost before = places(struck@);
        push_all(&mut struck, d);
        assert(places(struck@) =~= before + places(d@));
    }
    assert(rs.take(rs.len() as int) =~= rs);
    let ghost read = stage_rows(rec@);
    let mut dropped: usize = 0;
    let n = rec.len();
    for i in 0..n
        invariant
            n == rec.len(),
            read.len() == n,
            forall|k: int| 0 <= k < i ==> #[trigger] stage_rows(rec@)[k] == after_drop(read[k], rs, plan_is_generated),
            forall|k: int| i <= k < n ==> #[trigger] stage_rows(rec@)[k] == read[k],
            dropped == dropped_count(read, rs, plan_is_generated, i as int),
            dropped <= i,
            rs == readings(hub@),
    {
        let ghost cur = rec@;
        assert(stage_rows(cur)[i as int] == cur[i as int]@);
        let mut row = rec.remove(i);
        assert(row@ == read[i as int]);
        let gone = drop_if_gone(&mut row, hub, plan_is_generated);
        let ghost done = row@;
        rec.insert(i, row);
        assert(rec@ =~= cur.update(i as int, row));
        assert forall|k: int| 0 <= k < n && k != i implies #[trigger] stage_rows(rec@)[k] == stage_rows(cur)[k] by {
            assert(rec@[k] == cur[k]);
        }
        assert(stage_rows(rec@)[i as int] == done);
        if gone {
            dropped = dropped + 1;
        }
    }
    assert(stage_rows(rec@) =~= imported(rec0, hub@, plan_is_generated));
    let report = ImportReport {
        versions_added: count_of(&versions, Change::Added),
        versions_updated: count_of(&versions, Change::Updated),
        tasks_added: count_of(&tasks, Change::Added),
        tasks_updated: count_of(&tasks, Change::Updated),
        tasks_dropped: struck.len(),
        versions_dropped: dropped,
    };
    (RecordModel { stages: rec }, report)
}


/// No two lines of a stage have the same text.
pub open spec fn titles_distinct(lines: Seq<TaskView>) -> bool {
    forall|a: int, b: int| 0 <= a < b < lines.len() ==> #[trigger] lines[a].title != #[trigger] lines[b].title
}

proof fn lemma_first_titled_is(ts: Seq<RecordedTaskView>, t: Seq<char>, i: int)
    requires
        0 <= i < ts.len(),
        ts[i].title == t,
        forall|j: int| 0 <= j < i ==> #[trigger] ts[j].title != t,
    ensures
        first_titled(ts, t) == Some(i),
{
    reveal(first_titled);
    let c = choose|c: int| 0 <= c < ts.len() && ts[c].title == t && forall|j: int| 0 <= j < c ==> #[trigger] ts[j].title != t;
    if c < i {
        assert(ts[c].title != t);
    }
    if i < c {
        assert(ts[i].title != t);
    }
}

proof fn lemma_first_titled_facts(ts: Seq<RecordedTaskView>, t: Seq<char>)
    ensures
        first_titled(ts, t) matches Some(i) ==> 0 <= i < ts.len() && ts[i].title == t && forall|j: int|
            0 <= j < i ==> #[trigger] ts[j].title != t,
        first_titled(ts, t) is None ==> forall|j: int| 0 <= j < ts.len() ==> #[trigger] ts[j].title != t,
{
    reveal(first_titled);
    if exists|i: int| 0 <= i < ts.len() && #[trigger] ts[i].title == t {
        let w = choose|i: int| 0 <= i < ts.len() && #[trigger] ts[i].title == t;
        lemma_least_titled(ts, t, w);
    }
}

proof fn lemma_least_titled(ts: Seq<RecordedTaskView>, t: Seq<char>, w: int)
    requires
        0 <= w < ts.len(),
        ts[w].title == t,
    ensures
        exists|i: int| 0 <= i < ts.len() && ts[i].title == t && forall|j: int| 0 <= j < i ==> #[trigger] ts[j].title != t,
    decreases w,
{
    if exists|j: int| 0 <= j < w && #[trigger] ts[j].title == t {
        let j = choose|j: int| 0 <= j < w && #[trigger] ts[j].title == t;
        lemma_least_titled(ts, t, j);
    } else {
        assert(forall|j: int| 0 <= j < w ==> #[trigger] ts[j].title != t);
    }
}

proof fn lemma_first_placed_facts(ts: Seq<RecordedTaskView>, p: i64)
    ensures
        first_placed(ts, p) matches Some(i) ==> 0 <= i < ts.len() && ts[i].position == Some(p),
{
    reveal(first_placed);
    if exists|i: int| 0 <= i < ts.len() && #[trigger] ts[i].position == Some(p) {
        let w = choose|i: int| 0 <= i < ts.len() && #[trigger] ts[i].position == Some(p);
        lemma_least_placed(ts, p, w);
    }
}

proof fn lemma_least_placed(ts: Seq<RecordedTaskView>, p: i64, w: int)
    requires
        0 <= w < ts.len(),
        ts[w].position == Some(p),
    ensures
        exists|i: int| 0 <= i < ts.len() && ts[i].position == Some(p) && forall|j: int| 0 <= j < i ==> #[trigger] ts[j].position != Some(p),
    decreases w,
{
    if exists|j: int| 0 <= j < w && #[trigger] ts[j].position == Some(p) {
        let j = choose|j: int| 0 <= j < w && #[trigger] ts[j].position == Some(p);
        lemma_least_placed(ts, p, j);
    } else {
        assert(forall|j: int| 0 <= j < w ==> #[trigger] ts[j].position != Some(p));
    }
}

/// What a first reading of a stage's lines leaves: each line's task is
/// where the line went, it is the first task under the line's text, and
/// reading the line into it again changes nothing.
pub open spec fn lines_settled(ts: Seq<RecordedTaskView>, lines: Seq<TaskView>, kept: Seq<int>, may_reopen: bool) -> bool {
    &&& kept.len() == lines.len()
    &&& forall|p: int|
        0 <= p < lines.len() ==> {
            &&& 0 <= #[trigger] kept[p] < ts.len()
            &&& ts[kept[p]].title == lines[p].title
            &&& ts[kept[p]].position == Some(p as i64)
            &&& first_titled(ts, lines[p].title) == Some(kept[p])
            &&& task_row(Some(ts[kept[p]]), lines[p], p as i64, may_reopen) == ts[kept[p]]
        }
}

proof fn lemma_lines_settle(ts0: Seq<RecordedTaskView>, lines: Seq<TaskView>, may_reopen: bool)
    requires
        titles_distinct(lines),
        lines.len() <= i64::MAX,
    ensures
        lines_settled(tasks_read(ts0, lines, may_reopen).0, lines, tasks_read(ts0, lines, may_reopen).1, may_reopen),
    decreases lines.len(),
{
    if lines.len() > 0 {
        let l2 = lines.drop_last();
        assert(titles_distinct(l2)) by {
            assert forall|a: int, b: int| 0 <= a < b < l2.len() implies #[trigger] l2[a].title != #[trigger] l2[b].title by {
                assert(l2[a] == lines[a] && l2[b] == lines[b]);
            }
        }
        lemma_lines_settle(ts0, l2, may_reopen);
        let before = tasks_read(ts0, l2, may_reopen);
        let b = before.0;
        let n = (lines.len() - 1) as int;
        let line = lines.last();
        let pos = n as i64;
        let step = task_step(b, line, pos, may_reopen);
        let ts = step.0;
        let kept = before.1.push(step.1);
        let row = task_row(
            match task_match(b, line, pos) {
                Some(m) => Some(b[m]),
                None => None,
            },
            line,
            pos,
            may_reopen,
        );
        crate::recorded::law_a_task_read_again_is_unchanged(
            match task_match(b, line, pos) {
                Some(m) => Some(b[m]),
                None => None,
            },
            line,
            pos,
            may_reopen,
        );
        lemma_first_titled_facts(b, line.title);
        lemma_first_placed_facts(b, pos);
        let m = step.1;
        assert(ts.len() >= b.len());
        assert(0 <= m < ts.len() && ts[m] == row);
        // The lines read before keep their tasks.
        assert forall|p: int| 0 <= p < n implies #[trigger] kept[p] != m by {
            assert(lines[p].title != line.title);
            assert(l2[p] == lines[p]);
            if task_match(b, line, pos) is Some && first_titled(b, line.title) is None {
                assert(b[m].position == Some(pos));
                assert(b[before.1[p]].position == Some(p as i64));
            }
        }
        assert forall|j: int| 0 <= j < b.len() && j != m implies #[trigger] ts[j] == b[j] by {}
        // No task before `m` holds the line's text.
        assert forall|j: int| 0 <= j < m implies #[trigger] ts[j].title != line.title by {
            assert(ts[j] == b[j]);
        }
        lemma_first_titled_is(ts, line.title, m);
        assert forall|p: int| 0 <= p < lines.len() implies {
            &&& 0 <= #[trigger] kept[p] < ts.len()
            &&& ts[kept[p]].title == lines[p].title
            &&& ts[kept[p]].position == Some(p as i64)
            &&& first_titled(ts, lines[p].title) == Some(kept[p])
            &&& task_row(Some(ts[kept[p]]), lines[p], p as i64, may_reopen) == ts[kept[p]]
        } by {
            if p < n {
                assert(l2[p] == lines[p]);
                let k = before.1[p];
                assert(kept[p] == k);
                assert(ts[k] == b[k]);
                assert forall|j: int| 0 <= j < k implies #[trigger] ts[j].title != lines[p].title by {
                    lemma_first_titled_facts(b, lines[p].title);
                    if j == m {
                        assert(ts[m].title == line.title);
                    } else {
                        assert(ts[j] == b[j]);
                    }
                }
                lemma_first_titled_is(ts, lines[p].title, k);
            } else {
                assert(kept[p] == m);
            }
        }
    }
}



/// Every write left its row as it was.
pub open spec fn quiet(cs: Seq<Change>) -> bool {
    forall|i: int| 0 <= i < cs.len() ==> #[trigger] cs[i] == Change::Unchanged
}

proof fn lemma_read_again(ts: Seq<RecordedTaskView>, lines: Seq<TaskView>, kept: Seq<int>, may_reopen: bool)
    requires
        lines_settled(ts, lines, kept, may_reopen),
    ensures
        tasks_read(ts, lines, may_reopen).0 == ts,
        tasks_read(ts, lines, may_reopen).1 == kept,
        quiet(tasks_read(ts, lines, may_reopen).2),
        tasks_read(ts, lines, may_reopen).2.len() == lines.len(),
    decreases lines.len(),
{
    if lines.len() == 0 {
        assert(kept =~= Seq::<int>::empty());
    } else {
        let l2 = lines.drop_last();
        let k2 = kept.drop_last();
        assert(lines_settled(ts, l2, k2, may_reopen)) by {
            assert forall|p: int| 0 <= p < l2.len() implies {
                &&& 0 <= #[trigger] k2[p] < ts.len()
                &&& ts[k2[p]].title == l2[p].title
                &&& ts[k2[p]].position == Some(p as i64)
                &&& first_titled(ts, l2[p].title) == Some(k2[p])
                &&& task_row(Some(ts[k2[p]]), l2[p], p as i64, may_reopen) == ts[k2[p]]
            } by {
                assert(k2[p] == kept[p] && l2[p] == lines[p]);
            }
        }
        lemma_read_again(ts, l2, k2, may_reopen);
        let n = lines.len() - 1;
        assert(kept[n] == kept[n]);
        let k = kept[n];
        assert(ts.update(k, ts[k]) =~= ts);
        assert(k2.push(k) =~= kept);
        let cs = tasks_read(ts, lines, may_reopen).2;
        assert forall|i: int| 0 <= i < cs.len() implies #[trigger] cs[i] == Change::Unchanged by {
            if i < n {
                assert(cs[i] == tasks_read(ts, l2, may_reopen).2[i]);
            }
        }
    }
}

proof fn lemma_strike_keeps(ts: Seq<RecordedTaskView>, lines: Seq<TaskView>, kept: Seq<int>, may_reopen: bool)
    requires
        lines_settled(ts, lines, kept, may_reopen),
    ensures
        lines_settled(after_strike(ts, kept, may_reopen), lines, kept, may_reopen),
        after_strike(after_strike(ts, kept, may_reopen), kept, may_reopen) == after_strike(ts, kept, may_reopen),
        struck_places(
            after_strike(ts, kept, may_reopen),
            kept,
            may_reopen,
            after_strike(ts, kept, may_reopen).len() as int,
        ).len() == 0,
{
    reveal_strlit("dropped");
    reveal_strlit("done");
    let s2 = after_strike(ts, kept, may_reopen);
    assert forall|i: int| 0 <= i < s2.len() implies !struck(#[trigger] s2[i], i, kept, may_reopen) by {
        if struck(ts[i], i, kept, may_reopen) {
            assert(s2[i].status == "dropped"@);
        }
    }
    assert(after_strike(s2, kept, may_reopen) =~= s2);
    lemma_none_struck(s2, kept, may_reopen, s2.len() as int);
    assert forall|p: int| 0 <= p < lines.len() implies {
        &&& 0 <= #[trigger] kept[p] < s2.len()
        &&& s2[kept[p]].title == lines[p].title
        &&& s2[kept[p]].position == Some(p as i64)
        &&& first_titled(s2, lines[p].title) == Some(kept[p])
        &&& task_row(Some(s2[kept[p]]), lines[p], p as i64, may_reopen) == s2[kept[p]]
    } by {
        let k = kept[p];
        assert(kept.contains(k));
        assert(s2[k] == ts[k]);
        lemma_first_titled_facts(ts, lines[p].title);
        assert forall|j: int| 0 <= j < k implies #[trigger] s2[j].title != lines[p].title by {
            assert(s2[j].title == ts[j].title);
        }
        lemma_first_titled_is(s2, lines[p].title, k);
    }
}

proof fn lemma_none_struck(ts: Seq<RecordedTaskView>, kept: Seq<int>, may_reopen: bool, n: int)
    requires
        n <= ts.len(),
        forall|i: int| 0 <= i < ts.len() ==> !struck(#[trigger] ts[i], i, kept, may_reopen),
    ensures
        struck_places(ts, kept, may_reopen, n).len() == 0,
    decreases n,
{
    if n > 0 {
        assert(!struck(ts[n - 1], n - 1, kept, may_reopen));
        lemma_none_struck(ts, kept, may_reopen, n - 1);
    }
}


/// A recorded stage that reading the same stage again leaves as it is,
/// writing nothing.
pub open spec fn settled(r: StageRowView, st: StageView, from_changelog: bool, plan_is_generated: bool) -> bool {
    let x = row_read(Some(r), st, from_changelog, plan_is_generated);
    &&& x.0 == r
    &&& x.1 == Change::Unchanged
    &&& quiet(x.2)
    &&& x.3.len() == 0
}

proof fn lemma_read_settles(e: Option<StageRowView>, st: StageView, from_changelog: bool, plan_is_generated: bool)
    requires
        titles_distinct(st.tasks),
        st.tasks.len() <= i64::MAX,
    ensures
        settled(row_read(e, st, from_changelog, plan_is_generated).0, st, from_changelog, plan_is_generated),
        row_read(e, st, from_changelog, plan_is_generated).0.name == st.version,
        row_read(e, st, from_changelog, plan_is_generated).0.version.status != "dropped"@,
{
    reveal_strlit("shipped");
    reveal_strlit("planned");
    reveal_strlit("dropped");
    let old_row: Option<RecordedVersionView> = match e {
        Some(x) => Some(x.version),
        None => None,
    };
    let tag: Option<Seq<char>> = match e {
        Some(x) => x.tag_day,
        None => None,
    };
    let ts0: Seq<RecordedTaskView> = match e {
        Some(x) => x.tasks,
        None => Seq::empty(),
    };
    let row = version_row(old_row, tag, st, from_changelog);
    crate::recorded::law_a_second_reading_changes_nothing(old_row, tag, st, from_changelog);
    let may_reopen = (from_changelog || row.status != "shipped"@) && !plan_is_generated;
    let read = tasks_read(ts0, st.tasks, may_reopen);
    lemma_lines_settle(ts0, st.tasks, may_reopen);
    lemma_strike_keeps(read.0, st.tasks, read.1, may_reopen);
    let s2 = after_strike(read.0, read.1, may_reopen);
    lemma_read_again(s2, st.tasks, read.1, may_reopen);
    assert(row.status == "shipped"@ || row.status == "planned"@);
    assert("shipped"@ != "dropped"@) by {
        assert("shipped"@[0] != "dropped"@[0]);
    }
    assert("planned"@ != "dropped"@) by {
        assert("planned"@[0] != "dropped"@[0]);
    }
}


proof fn lemma_first_named_is(rec: Seq<StageRowView>, name: Seq<char>, i: int)
    requires
        0 <= i < rec.len(),
        rec[i].name == name,
        forall|j: int| 0 <= j < i ==> #[trigger] rec[j].name != name,
    ensures
        first_named(rec, name) == Some(i),
{
    reveal(first_named);
    let c = choose|c: int| 0 <= c < rec.len() && rec[c].name == name && forall|j: int| 0 <= j < c ==> #[trigger] rec[j].name != name;
    if c < i {
        assert(rec[c].name != name);
    }
    if i < c {
        assert(rec[i].name != name);
    }
}

proof fn lemma_least_named(rec: Seq<StageRowView>, name: Seq<char>, w: int)
    requires
        0 <= w < rec.len(),
        rec[w].name == name,
    ensures
        exists|i: int| 0 <= i < rec.len() && rec[i].name == name && forall|j: int| 0 <= j < i ==> #[trigger] rec[j].name != name,
    decreases w,
{
    if exists|j: int| 0 <= j < w && #[trigger] rec[j].name == name {
        let j = choose|j: int| 0 <= j < w && #[trigger] rec[j].name == name;
        lemma_least_named(rec, name, j);
    } else {
        assert(forall|j: int| 0 <= j < w ==> #[trigger] rec[j].name != name);
    }
}

proof fn lemma_first_named_facts(rec: Seq<StageRowView>, name: Seq<char>)
    ensures
        first_named(rec, name) matches Some(i) ==> 0 <= i < rec.len() && rec[i].name == name && forall|j: int|
            0 <= j < i ==> #[trigger] rec[j].name != name,
        first_named(rec, name) is None ==> forall|j: int| 0 <= j < rec.len() ==> #[trigger] rec[j].name != name,
{
    reveal(first_named);
    if exists|i: int| 0 <= i < rec.len() && #[trigger] rec[i].name == name {
        let w = choose|i: int| 0 <= i < rec.len() && #[trigger] rec[i].name == name;
        lemma_least_named(rec, name, w);
    }
}

/// The versions a hub's readings name are all different.
pub open spec fn versions_distinct(rs: Seq<(StageView, bool)>) -> bool {
    forall|a: int, b: int| 0 <= a < b < rs.len() ==> #[trigger] rs[a].0.version != #[trigger] rs[b].0.version
}

/// Every stage read has lines of different texts, no more than a place can
/// number.
pub open spec fn lines_distinct(rs: Seq<(StageView, bool)>) -> bool {
    forall|i: int| 0 <= i < rs.len() ==> titles_distinct(#[trigger] rs[i].0.tasks) && rs[i].0.tasks.len() <= i64::MAX
}

/// The record holds a reading's stage, first under its version, settled.
pub open spec fn settled_at(rec: Seq<StageRowView>, r: (StageView, bool), plan_is_generated: bool) -> bool {
    match first_named(rec, r.0.version) {
        Some(i) => 0 <= i < rec.len() && settled(rec[i], r.0, r.1, plan_is_generated) && rec[i].version.status != "dropped"@,
        None => false,
    }
}

proof fn lemma_first_pass(rec0: Seq<StageRowView>, rs: Seq<(StageView, bool)>, plan_is_generated: bool, n: int)
    requires
        versions_distinct(rs),
        lines_distinct(rs),
        0 <= n <= rs.len(),
    ensures
        forall|p: int| 0 <= p < n ==> #[trigger] settled_at(stages_read(rec0, rs.take(n), plan_is_generated).0, rs[p], plan_is_generated),
    decreases n,
{
    if n > 0 {
        lemma_first_pass(rec0, rs, plan_is_generated, n - 1);
        assert(rs.take(n).drop_last() =~= rs.take(n - 1));
        assert(rs.take(n).last() == rs[n - 1]);
        let r = stages_read(rec0, rs.take(n - 1), plan_is_generated).0;
        let st = rs[n - 1].0;
        let v = st.version;
        let at = first_named(r, v);
        lemma_first_named_facts(r, v);
        let existing: Option<StageRowView> = match at {
            Some(i) => Some(r[i]),
            None => None,
        };
        let x = row_read(existing, st, rs[n - 1].1, plan_is_generated);
        lemma_read_settles(existing, st, rs[n - 1].1, plan_is_generated);
        let r2 = stages_read(rec0, rs.take(n), plan_is_generated).0;
        assert(r2 == match at {
            Some(i) => r.update(i, x.0),
            None => r.push(x.0),
        });
        let m: int = match at {
            Some(i) => i,
            None => r.len() as int,
        };
        assert(r2[m] == x.0);
        assert forall|j: int| 0 <= j < r.len() && j != m implies #[trigger] r2[j] == r[j] by {}
        assert(forall|j: int| 0 <= j < m ==> #[trigger] r2[j].name != v);
        lemma_first_named_is(r2, v, m);
        assert forall|p: int| 0 <= p < n implies #[trigger] settled_at(r2, rs[p], plan_is_generated) by {
            if p < n - 1 {
                assert(settled_at(r, rs[p], plan_is_generated));
                let vp = rs[p].0.version;
                assert(vp != v);
                lemma_first_named_facts(r, vp);
                let i = first_named(r, vp)->0;
                assert(i != m);
                assert(r2[i] == r[i]);
                assert forall|j: int| 0 <= j < i implies #[trigger] r2[j].name != vp by {
                    if j != m {
                        assert(r2[j] == r[j]);
                    }
                }
                lemma_first_named_is(r2, vp, i);
            }
        }
    }
}

proof fn lemma_second_pass(f: Seq<StageRowView>, rs: Seq<(StageView, bool)>, plan_is_generated: bool, n: int)
    requires
        forall|p: int| 0 <= p < rs.len() ==> #[trigger] settled_at(f, rs[p], plan_is_generated),
        0 <= n <= rs.len(),
    ensures
        stages_read(f, rs.take(n), plan_is_generated).0 == f,
        quiet(stages_read(f, rs.take(n), plan_is_generated).1),
        quiet(stages_read(f, rs.take(n), plan_is_generated).2),
        stages_read(f, rs.take(n), plan_is_generated).3.len() == 0,
    decreases n,
{
    if n == 0 {
        assert(rs.take(0) =~= Seq::<(StageView, bool)>::empty());
    } else {
        lemma_second_pass(f, rs, plan_is_generated, n - 1);
        assert(rs.take(n).drop_last() =~= rs.take(n - 1));
        assert(rs.take(n).last() == rs[n - 1]);
        assert(settled_at(f, rs[n - 1], plan_is_generated));
        let i = first_named(f, rs[n - 1].0.version)->0;
        assert(f.update(i, f[i]) =~= f);
        let before = stages_read(f, rs.take(n - 1), plan_is_generated);
        let now = stages_read(f, rs.take(n), plan_is_generated);
        let x = row_read(Some(f[i]), rs[n - 1].0, rs[n - 1].1, plan_is_generated);
        assert(now.1 == before.1.push(x.1));
        assert forall|k: int| 0 <= k < now.1.len() implies #[trigger] now.1[k] == Change::Unchanged by {
            if k < before.1.len() {
                assert(now.1[k] == before.1[k]);
            }
        }
        assert(now.2 == before.2 + x.2);
        assert forall|k: int| 0 <= k < now.2.len() implies #[trigger] now.2[k] == Change::Unchanged by {
            if k < before.2.len() {
                assert(now.2[k] == before.2[k]);
            } else {
                assert(now.2[k] == x.2[k - before.2.len()]);
            }
        }
    }
}

proof fn lemma_count_quiet(cs: Seq<Change>, c: Change)
    requires
        quiet(cs),
        c != Change::Unchanged,
    ensures
        count(cs, c) == 0,
    decreases cs.len(),
{
    if cs.len() > 0 {
        assert(cs.last() == cs[cs.len() - 1]);
        lemma_count_quiet(cs.drop_last(), c);
    }
}

proof fn lemma_dropped_none(rec: Seq<StageRowView>, rs: Seq<(StageView, bool)>, plan_is_generated: bool, n: int)
    requires
        n <= rec.len(),
        forall|i: int| 0 <= i < rec.len() ==> !version_dropped(#[trigger] rec[i], rs, plan_is_generated),
    ensures
        dropped_count(rec, rs, plan_is_generated, n) == 0,
    decreases n,
{
    if n > 0 {
        assert(!version_dropped(rec[n - 1], rs, plan_is_generated));
        lemma_dropped_none(rec, rs, plan_is_generated, n - 1);
    }
}

/// Importing the same hub a second time is quiet: the record is left as
/// the first import left it, and the report counts nothing - no version or
/// task added or updated, no task struck, no version dropped. It holds for
/// a hub whose readings name each version once and whose stages never list
/// the same line twice.
pub proof fn law_import_twice_is_quiet(rec: Seq<StageRowView>, h: crate::hub::HubView, plan_is_generated: bool)
    requires
        versions_distinct(readings(h)),
        lines_distinct(readings(h)),
    ensures
        imported(imported(rec, h, plan_is_generated), h, plan_is_generated) == imported(rec, h, plan_is_generated),
        import_report(imported(rec, h, plan_is_generated), h, plan_is_generated) == (0nat, 0nat, 0nat, 0nat, 0nat, 0nat),
{
    reveal_strlit("planned");
    reveal_strlit("dropped");
    reveal_strlit("done");
    let rs = readings(h);
    let pg = plan_is_generated;
    lemma_first_pass(rec, rs, pg, rs.len() as int);
    assert(rs.take(rs.len() as int) =~= rs);
    let r = stages_read(rec, rs, pg).0;
    let f = imported(rec, h, pg);
    assert(f.len() == r.len());
    // Dropping the versions no reading names leaves every named one as it was.
    assert forall|p: int| 0 <= p < rs.len() implies #[trigger] settled_at(f, rs[p], pg) by {
        assert(settled_at(r, rs[p], pg));
        let v = rs[p].0.version;
        lemma_first_named_facts(r, v);
        let i = first_named(r, v)->0;
        assert(named_in(rs, r[i].name));
        assert(f[i] == after_drop(r[i], rs, pg));
        assert(f[i] =~= r[i]);
        assert forall|j: int| 0 <= j < i implies #[trigger] f[j].name != v by {
            assert(f[j].name == r[j].name);
        }
        lemma_first_named_is(f, v, i);
    }
    lemma_second_pass(f, rs, pg, rs.len() as int);
    let again = stages_read(f, rs, pg);
    assert("planned"@ != "dropped"@) by {
        assert("planned"@[0] != "dropped"@[0]);
    }
    assert forall|i: int| 0 <= i < f.len() implies !version_dropped(#[trigger] f[i], rs, pg) by {
        assert(f[i] == after_drop(r[i], rs, pg));
    }
    assert forall|i: int| 0 <= i < f.len() implies #[trigger] after_drop(f[i], rs, pg) == f[i] by {
        assert(f[i] == after_drop(r[i], rs, pg));
        if !pg && f[i].version.status == "dropped"@ {
            assert(all_struck(f[i].tasks) =~= f[i].tasks) by {
                assert forall|k: int| 0 <= k < f[i].tasks.len() implies #[trigger] all_struck(f[i].tasks)[k] == f[i].tasks[k] by {
                    assert(f[i].tasks[k] == all_struck(r[i].tasks)[k]);
                }
            }
        }
    }
    assert(imported(f, h, pg) =~= f);
    lemma_dropped_none(f, rs, pg, f.len() as int);
    lemma_count_quiet(again.1, Change::Added);
    lemma_count_quiet(again.1, Change::Updated);
    lemma_count_quiet(again.2, Change::Added);
    lemma_count_quiet(again.2, Change::Updated);
}


/// Whether one version's numbers come before another's.
pub open spec fn key_less(a: (int, int, int), b: (int, int, int)) -> bool {
    a.0 < b.0 || (a.0 == b.0 && (a.1 < b.1 || (a.1 == b.1 && a.2 < b.2)))
}

/// The stage being built among the first `n`: the planned one with the
/// lowest version number - by number, not by where it stands - the first of
/// them where two read alike.
pub open spec fn lowest_planned(rec: Seq<StageRowView>, n: int) -> Option<int>
    decreases n,
{
    if n <= 0 {
        None
    } else {
        let b = lowest_planned(rec, n - 1);
        let r = rec[n - 1];
        if r.version.status == "planned"@ && (b is None || key_less(
            crate::db::version_key(r.name),
            crate::db::version_key(rec[b->0].name),
        )) {
            Some(n - 1)
        } else {
            b
        }
    }
}

/// A stage's tasks still to do, each with its place as its id.
pub open spec fn open_tasks(ts: Seq<RecordedTaskView>, n: int) -> Seq<(int, Seq<char>, Seq<char>)>
    decreases n,
{
    if n <= 0 {
        Seq::empty()
    } else if open_status(ts[n - 1].status) {
        open_tasks(ts, n - 1).push((n - 1, ts[n - 1].title, ts[n - 1].status))
    } else {
        open_tasks(ts, n - 1)
    }
}

pub open spec fn task_lines_view(ts: Seq<crate::db::Task>) -> Seq<(int, Seq<char>, Seq<char>)> {
    ts.map_values(|t: crate::db::Task| (t.id as int, t.title@, t.status@))
}

fn key_before(a: (u32, u32, u32), b: (u32, u32, u32)) -> (r: bool)
    ensures
        r == key_less((a.0 as int, a.1 as int, a.2 as int), (b.0 as int, b.1 as int, b.2 as int)),
{
    a.0 < b.0 || (a.0 == b.0 && (a.1 < b.1 || (a.1 == b.1 && a.2 < b.2)))
}

/// The stage being built and its tasks still to do: the planned version
/// with the lowest number, and its open tasks in the order recorded.
pub fn current_stage(record: &RecordModel) -> (r: Option<crate::db::CurrentStage>)
    requires
        forall|i: int| 0 <= i < record.stages@.len() ==> #[trigger] record.stages@[i].tasks@.len() <= i64::MAX,
    ensures
        match lowest_planned(record@, record@.len() as int) {
            None => r is None,
            Some(i) => r matches Some(c) && c.version@ == record@[i].name && opt_chars(c.title) == record@[i].version.title
                && task_lines_view(c.tasks@) == open_tasks(record@[i].tasks, record@[i].tasks.len() as int),
        },
{
    proof {
        reveal_strlit("planned");
    }
    let rec = &record.stages;
    let ghost rv = record@;
    let mut best: Option<usize> = None;
    let mut best_key: (u32, u32, u32) = (0, 0, 0);
    for i in 0..rec.len()
        invariant
            rv == stage_rows(rec@),
            best == match lowest_planned(rv, i as int) {
                Some(b) => Some(b as usize),
                None => None::<usize>,
            },
            lowest_planned(rv, i as int) matches Some(b) ==> 0 <= b < i && (best_key.0 as int, best_key.1 as int, best_key.2 as int)
                == crate::db::version_key(rv[b].name),
    {
        assert(rv[i as int] == rec@[i as int]@);
        let planned = same_str(&chars_of_string(&rec[i].version.status), "planned");
        if planned {
            let k = crate::db::version_order(rec[i].name.as_str());
            let better = match best {
                None => true,
                Some(_) => key_before(k, best_key),
            };
            if better {
                best = Some(i);
                best_key = k;
            }
        }
    }
    let b = match best {
        None => {
            return None;
        },
        Some(b) => b,
    };
    let stage = &rec[b];
    assert(rv[b as int] == stage@);
    let ghost ts = task_rows(stage.tasks@);
    let mut tasks: Vec<crate::db::Task> = Vec::new();
    for k in 0..stage.tasks.len()
        invariant
            ts == task_rows(stage.tasks@),
            stage.tasks@.len() <= i64::MAX,
            task_lines_view(tasks@) == open_tasks(ts, k as int),
    {
        assert(ts[k as int] == stage.tasks@[k as int]@);
        let t = &stage.tasks[k];
        if crate::db::is_open_status(t.status.as_str()) {
            let ghost before = tasks@;
            tasks.push(crate::db::Task { id: k as i64, title: copy_text(&t.title), status: copy_text(&t.status) });
            assert(task_lines_view(tasks@) =~= task_lines_view(before).push((k as int, t.title@, t.status@)));
        }
    }
    Some(crate::db::CurrentStage { version: copy_text(&stage.name), title: copy_opt(&stage.version.title), tasks })
}

/// The stage being built is planned, and no planned stage has a lower
/// version number.
pub proof fn law_the_current_stage_is_the_lowest_planned(rec: Seq<StageRowView>, n: int)
    requires
        0 <= n <= rec.len(),
    ensures
        lowest_planned(rec, n) matches Some(i) ==> 0 <= i < n && rec[i].version.status == "planned"@ && forall|j: int|
            0 <= j < n && #[trigger] rec[j].version.status == "planned"@ ==> !key_less(
                crate::db::version_key(rec[j].name),
                crate::db::version_key(rec[i].name),
            ),
        lowest_planned(rec, n) is None ==> forall|j: int| 0 <= j < n ==> #[trigger] rec[j].version.status != "planned"@,
    decreases n,
{
    if n > 0 {
        law_the_current_stage_is_the_lowest_planned(rec, n - 1);
    }
}


/// The first of the first `n` stages whose version reads as `key`.
pub open spec fn first_keyed(rec: Seq<StageRowView>, key: (int, int, int), n: int) -> Option<int>
    decreases n,
{
    if n <= 0 {
        None
    } else {
        match first_keyed(rec, key, n - 1) {
            Some(i) => Some(i),
            None => if crate::db::version_key(rec[n - 1].name) == key {
                Some(n - 1)
            } else {
                None
            },
        }
    }
}

/// Among the first `n` stages, the release before a version numbered
/// `key`: a shipped one numbered below it, the highest such number, and the
/// last recorded of those that read alike.
pub open spec fn shipped_before(rec: Seq<StageRowView>, key: (int, int, int), n: int) -> Option<int>
    decreases n,
{
    if n <= 0 {
        None
    } else {
        let b = shipped_before(rec, key, n - 1);
        let r = rec[n - 1];
        let k = crate::db::version_key(r.name);
        if r.version.shipped_at is Some && key_less(k, key) && (b is None || !key_less(
            k,
            crate::db::version_key(rec[b->0].name),
        )) {
            Some(n - 1)
        } else {
            b
        }
    }
}

/// The version by a name, by its number, with the release before it.
pub open spec fn version_and_predecessor_in(rec: Seq<StageRowView>, name: Seq<char>) -> Option<(int, Option<int>)> {
    let key = crate::db::version_key(name);
    match first_keyed(rec, key, rec.len() as int) {
        None => None,
        Some(a) => Some((a, shipped_before(rec, key, rec.len() as int))),
    }
}

/// Places in the record, as integers.
pub open spec fn found_places(r: Option<(usize, Option<usize>)>) -> Option<(int, Option<int>)> {
    match r {
        None => None,
        Some((a, b)) => Some((
            a as int,
            match b {
                None => None,
                Some(j) => Some(j as int),
            },
        )),
    }
}

/// The places in the record of the version by that name - compared by
/// number, so `v1.9` finds `1.9.0` - and of the release before it: the
/// previous shipped version by number, not by date, since two versions
/// often ship on one day; a planned version in between never bounded any
/// work.
pub fn version_and_predecessor(record: &RecordModel, name: &str) -> (r: Option<(usize, Option<usize>)>)
    ensures
        found_places(r) == version_and_predecessor_in(record@, name@),
{
    let rec = &record.stages;
    let ghost rv = record@;
    let wanted = crate::db::version_order(name);
    let ghost key = crate::db::version_key(name@);
    let mut at: Option<usize> = None;
    let mut before: Option<usize> = None;
    let mut before_key: (u32, u32, u32) = (0, 0, 0);
    for i in 0..rec.len()
        invariant
            rv == stage_rows(rec@),
            (wanted.0 as int, wanted.1 as int, wanted.2 as int) == key,
            at == match first_keyed(rv, key, i as int) {
                Some(a) => Some(a as usize),
                None => None::<usize>,
            },
            first_keyed(rv, key, i as int) matches Some(a) ==> 0 <= a < i,
            before == match shipped_before(rv, key, i as int) {
                Some(b) => Some(b as usize),
                None => None::<usize>,
            },
            shipped_before(rv, key, i as int) matches Some(b) ==> 0 <= b < i && (
            before_key.0 as int,
            before_key.1 as int,
            before_key.2 as int,
            ) == crate::db::version_key(rv[b].name),
    {
        assert(rv[i as int] == rec@[i as int]@);
        let k = crate::db::version_order(rec[i].name.as_str());
        if at.is_none() && k.0 == wanted.0 && k.1 == wanted.1 && k.2 == wanted.2 {
            at = Some(i);
        }
        if rec[i].version.shipped_at.is_some() && key_before(k, wanted) {
            let later = match before {
                None => true,
                Some(_) => !key_before(k, before_key),
            };
            if later {
                before = Some(i);
                before_key = k;
            }
        }
    }
    assert(rv.len() == rec@.len());
    assert(key == crate::db::version_key(name@));
    match at {
        None => {
            assert(first_keyed(rv, key, rv.len() as int) is None);
            None
        },
        Some(a) => Some((a, before)),
    }
}

/// The version found reads as the name asked for, and none recorded before
/// it does; the release before it is a shipped one numbered below, and no
/// shipped version below the one asked for is numbered higher than it, or
/// was recorded after it with the same number.
pub proof fn law_the_predecessor_is_the_latest_release_below(rec: Seq<StageRowView>, key: (int, int, int), n: int)
    requires
        0 <= n <= rec.len(),
    ensures
        first_keyed(rec, key, n) matches Some(a) ==> 0 <= a < n && crate::db::version_key(rec[a].name) == key && forall|j: int|
            0 <= j < a ==> crate::db::version_key(#[trigger] rec[j].name) != key,
        first_keyed(rec, key, n) is None ==> forall|j: int| 0 <= j < n ==> crate::db::version_key(#[trigger] rec[j].name) != key,
        shipped_before(rec, key, n) matches Some(b) ==> 0 <= b < n && rec[b].version.shipped_at is Some && key_less(
            crate::db::version_key(rec[b].name),
            key,
        ) && forall|j: int|
            0 <= j < n && (#[trigger] rec[j].version.shipped_at) is Some && key_less(crate::db::version_key(rec[j].name), key)
                ==> !key_less(crate::db::version_key(rec[b].name), crate::db::version_key(rec[j].name)) && (
            crate::db::version_key(rec[j].name) == crate::db::version_key(rec[b].name) ==> j <= b),
        shipped_before(rec, key, n) is None ==> forall|j: int|
            0 <= j < n && (#[trigger] rec[j].version.shipped_at) is Some ==> !key_less(crate::db::version_key(rec[j].name), key),
    decreases n,
{
    if n > 0 {
        law_the_predecessor_is_the_latest_release_below(rec, key, n - 1);
    }
}

/// An event as a digest counts it: its kind and when it was recorded.
#[derive(Debug, Clone)]
pub struct RecordedEvent {
    pub kind: String,
    pub created_at: String,
}

pub open spec fn event_rows(es: Seq<RecordedEvent>) -> Seq<(Seq<char>, Seq<char>)> {
    es.map_values(|e: RecordedEvent| (e.kind@, e.created_at@))
}

/// How many events of kind `a` or `b` were recorded at `since` or after,
/// comparing the moments as text.
pub open spec fn count_since(es: Seq<(Seq<char>, Seq<char>)>, since: Seq<char>, a: Seq<char>, b: Seq<char>) -> nat
    decreases es.len(),
{
    if es.len() == 0 {
        0
    } else {
        count_since(es.drop_last(), since, a, b) + if (es.last().0 == a || es.last().0 == b) && crate::order::text_order(
            es.last().1,
            since,
        ) >= 0 {
            1nat
        } else {
            0nat
        }
    }
}

/// How many events of a kind there are, whenever recorded.
pub open spec fn count_kind(es: Seq<(Seq<char>, Seq<char>)>, k: Seq<char>) -> nat
    decreases es.len(),
{
    if es.len() == 0 {
        0
    } else {
        count_kind(es.drop_last(), k) + if es.last().0 == k {
            1nat
        } else {
            0nat
        }
    }
}

/// A version that shipped at `since` or after, by its number and place.
pub open spec fn shipped_entries(rec: Seq<StageRowView>, since: Seq<char>, n: int) -> Seq<(u32, u32, u32, usize)>
    decreases n,
{
    if n <= 0 {
        Seq::empty()
    } else {
        let before = shipped_entries(rec, since, n - 1);
        let r = rec[n - 1];
        let k = crate::db::version_key(r.name);
        if r.version.status == "shipped"@ && (r.version.shipped_at matches Some(d) && crate::order::text_order(d, since) >= 0) {
            before.push((k.0 as u32, k.1 as u32, k.2 as u32, (n - 1) as usize))
        } else {
            before
        }
    }
}

/// Entries by version number.
pub open spec fn entry_order() -> spec_fn((u32, u32, u32, usize), (u32, u32, u32, usize)) -> bool {
    |a: (u32, u32, u32, usize), b: (u32, u32, u32, usize)| key_less((a.0 as int, a.1 as int, a.2 as int), (b.0 as int, b.1 as int, b.2 as int))
}

/// The names of the versions shipped at `since` or after, in version order.
pub open spec fn shipped_since(rec: Seq<StageRowView>, since: Seq<char>) -> Seq<Seq<char>> {
    crate::order::stable_sort(shipped_entries(rec, since, rec.len() as int), entry_order()).map_values(
        |e: (u32, u32, u32, usize)| rec[e.3 as int].name,
    )
}

fn entry_before(a: &(u32, u32, u32, usize), b: &(u32, u32, u32, usize)) -> (r: bool)
    ensures
        r == (entry_order())(*a, *b),
{
    key_before((a.0, a.1, a.2), (b.0, b.1, b.2))
}

/// What happened to a project inside a window opening at `since`: the
/// versions shipped in it by number, how many decisions, findings (pitfalls
/// among them) and changes were recorded in it, and how many questions wait.
pub fn digest(record: &RecordModel, events: &Vec<RecordedEvent>, since: &str) -> (r: crate::db::DigestFacts)
    requires
        events@.len() <= u32::MAX,
    ensures
        strings(r.shipped@) == shipped_since(record@, since@),
        r.decisions as nat == count_since(event_rows(events@), since@, "decision"@, "decision"@),
        r.findings as nat == count_since(event_rows(events@), since@, "finding"@, "pitfall"@),
        r.changes as nat == count_since(event_rows(events@), since@, "change"@, "change"@),
        r.waiting as nat == count_kind(event_rows(events@), "question"@),
{
    proof {
        reveal_strlit("shipped");
    }
    let rec = &record.stages;
    let ghost rv = record@;
    let since_chars = crate::text::chars_of(since);
    let mut entries: Vec<(u32, u32, u32, usize)> = Vec::new();
    for i in 0..rec.len()
        invariant
            rv == stage_rows(rec@),
            since_chars@ == since@,
            entries@ == shipped_entries(rv, since@, i as int),
    {
        assert(rv[i as int] == rec@[i as int]@);
        let row = &rec[i];
        if same_str(&chars_of_string(&row.version.status), "shipped") {
            if let Some(d) = &row.version.shipped_at {
                if crate::order::compare_chars(&chars_of_string(d), &since_chars) >= 0 {
                    let k = crate::db::version_order(row.name.as_str());
                    entries.push((k.0, k.1, k.2, i));
                }
            }
        }
    }
    assert(rv.len() == rec@.len());
    let ghost all = entries@;
    let sorted = crate::order::sorted_by(entries, &entry_before, Ghost(entry_order()));
    proof {
        let placed = |e: (u32, u32, u32, usize)| (e.3 as int) < rv.len();
        assert forall|j: int| 0 <= j < all.len() implies #[trigger] placed(all[j]) by {
            lemma_entries_placed(rv, since@, rv.len() as int, j);
        }
        crate::order::lemma_stable_sort_keeps(all, entry_order(), placed);
        assert forall|m: int| 0 <= m < sorted@.len() implies ((#[trigger] sorted@[m]).3 as int) < rv.len() by {
            assert(placed(crate::order::stable_sort(all, entry_order())[m]));
        }
    }
    let mut shipped: Vec<String> = Vec::new();
    for j in 0..sorted.len()
        invariant
            rv == stage_rows(rec@),
            sorted@ == crate::order::stable_sort(all, entry_order()),
            forall|m: int| 0 <= m < sorted@.len() ==> ((#[trigger] sorted@[m]).3 as int) < rv.len(),
            strings(shipped@) == sorted@.take(j as int).map_values(|e: (u32, u32, u32, usize)| rv[e.3 as int].name),
    {
        let at = sorted[j].3;
        assert(rv[at as int] == rec@[at as int]@);
        let ghost before = strings(shipped@);
        shipped.push(copy_text(&rec[at].name));
        assert(strings(shipped@) =~= before.push(rv[at as int].name));
        assert(sorted@.take(j + 1).map_values(|e: (u32, u32, u32, usize)| rv[e.3 as int].name) =~= sorted@.take(
            j as int,
        ).map_values(|e: (u32, u32, u32, usize)| rv[e.3 as int].name).push(rv[at as int].name));
    }
    assert(sorted@.take(sorted.len() as int) =~= sorted@);
    let ghost es = event_rows(events@);
    let mut decisions: u32 = 0;
    let mut findings: u32 = 0;
    let mut changes: u32 = 0;
    let mut waiting: u32 = 0;
    for i in 0..events.len()
        invariant
            es == event_rows(events@),
            events@.len() <= u32::MAX,
            since_chars@ == since@,
            decisions as nat == count_since(es.take(i as int), since@, "decision"@, "decision"@),
            findings as nat == count_since(es.take(i as int), since@, "finding"@, "pitfall"@),
            changes as nat == count_since(es.take(i as int), since@, "change"@, "change"@),
            waiting as nat == count_kind(es.take(i as int), "question"@),
            decisions <= i && findings <= i && changes <= i && waiting <= i,
    {
        assert(es.take(i + 1).drop_last() =~= es.take(i as int));
        assert(es[i as int] == (events@[i as int].kind@, events@[i as int].created_at@));
        let e = &events[i];
        let kind = chars_of_string(&e.kind);
        let late = crate::order::compare_chars(&chars_of_string(&e.created_at), &since_chars) >= 0;
        if late && same_str(&kind, "decision") {
            decisions = decisions + 1;
        }
        if late && (same_str(&kind, "finding") || same_str(&kind, "pitfall")) {
            findings = findings + 1;
        }
        if late && same_str(&kind, "change") {
            changes = changes + 1;
        }
        if same_str(&kind, "question") {
            waiting = waiting + 1;
        }
    }
    assert(es.take(events.len() as int) =~= es);
    crate::db::DigestFacts { shipped, decisions, findings, changes, waiting }
}

/// A digest lists each version shipped in the window once, and none after
/// one numbered above it.
pub proof fn law_the_digest_lists_releases_by_number(rec: Seq<StageRowView>, since: Seq<char>)
    ensures
        crate::order::in_order(
            crate::order::stable_sort(shipped_entries(rec, since, rec.len() as int), entry_order()),
            entry_order(),
        ),
        crate::order::stable_sort(shipped_entries(rec, since, rec.len() as int), entry_order()).to_multiset()
            == shipped_entries(rec, since, rec.len() as int).to_multiset(),
{
    crate::order::law_sorted_is_in_order(shipped_entries(rec, since, rec.len() as int), entry_order());
}

proof fn lemma_entries_placed(rec: Seq<StageRowView>, since: Seq<char>, n: int, j: int)
    requires
        0 <= n <= rec.len(),
        0 <= j < shipped_entries(rec, since, n).len(),
    ensures
        (shipped_entries(rec, since, n)[j].3 as int) < n,
    decreases n,
{
    if n > 0 {
        let before = shipped_entries(rec, since, n - 1);
        if j < before.len() {
            lemma_entries_placed(rec, since, n - 1, j);
        }
    }
}

/// An event of any project, as the owner's inbox reads it.
#[derive(Debug, Clone)]
pub struct LineEvent {
    pub project: String,
    pub id: i64,
    pub kind: String,
    pub created_at: String,
    pub body: String,
}

/// The questions among the events, in the order they were given.
pub open spec fn questions_of(es: Seq<LineEvent>) -> Seq<LineEvent>
    decreases es.len(),
{
    if es.len() == 0 {
        Seq::empty()
    } else if es.last().kind@ == "question"@ {
        questions_of(es.drop_last()).push(es.last())
    } else {
        questions_of(es.drop_last())
    }
}

/// Oldest first, then by project, then by id.
pub open spec fn waiting_order() -> spec_fn(LineEvent, LineEvent) -> bool {
    |a: LineEvent, b: LineEvent|
        {
            let t = crate::order::text_order(a.created_at@, b.created_at@);
            let p = crate::order::text_order(a.project@, b.project@);
            t < 0 || (t == 0 && (p < 0 || (p == 0 && a.id < b.id)))
        }
}

/// A question as the inbox lists it: its project, id, day and text.
pub open spec fn waiting_row(e: LineEvent) -> (Seq<char>, i64, Seq<char>, Seq<char>) {
    (e.project@, e.id, crate::text::split_class(e.created_at@, crate::text::Class::Is('T'))[0], e.body@)
}

pub open spec fn waiting_rows(ws: Seq<crate::db::Waiting>) -> Seq<(Seq<char>, i64, Seq<char>, Seq<char>)> {
    ws.map_values(|w: crate::db::Waiting| (w.project@, w.id, w.date@, w.body@))
}

fn waiting_before(a: &LineEvent, b: &LineEvent) -> (r: bool)
    ensures
        r == (waiting_order())(*a, *b),
{
    let t = crate::order::compare_strings(&a.created_at, &b.created_at);
    let p = crate::order::compare_strings(&a.project, &b.project);
    t < 0 || (t == 0 && (p < 0 || (p == 0 && a.id < b.id)))
}

/// Every question waiting for an answer, across the projects: oldest first
/// - a question that has waited three weeks is more overdue than one asked
/// this morning - then by project and id.
pub fn open_questions(events: Vec<LineEvent>) -> (r: Vec<crate::db::Waiting>)
    ensures
        waiting_rows(r@) == crate::order::stable_sort(questions_of(events@), waiting_order()).map_values(
            |e: LineEvent| waiting_row(e),
        ),
{
    proof {
        reveal_strlit("question");
    }
    let ghost all = events@;
    let mut rest = events;
    let mut found: Vec<LineEvent> = Vec::new();
    let mut k: usize = 0;
    let n = rest.len();
    assert(all.skip(0) =~= all);
    while rest.len() > 0
        invariant
            n == all.len(),
            k <= n,
            rest@ == all.skip(k as int),
            found@ == questions_of(all.take(k as int)),
        decreases rest.len(),
    {
        let e = rest.remove(0);
        assert(all.skip(k as int)[0] == e);
        assert(all.skip(k + 1) =~= all.skip(k as int).drop_first());
        assert(all.take(k + 1).drop_last() =~= all.take(k as int));
        assert(all.take(k + 1).last() == e);
        if same_str(&chars_of_string(&e.kind), "question") {
            found.push(e);
        }
        k = k + 1;
    }
    assert(all.take(n as int) =~= all);
    let sorted = crate::order::sorted_by(found, &waiting_before, Ghost(waiting_order()));
    let ghost ss = sorted@;
    let mut out: Vec<crate::db::Waiting> = Vec::new();
    for j in 0..sorted.len()
        invariant
            ss == sorted@,
            waiting_rows(out@) == ss.take(j as int).map_values(|e: LineEvent| waiting_row(e)),
    {
        let e = &sorted[j];
        let parts = crate::text::split_by(&chars_of_string(&e.created_at), crate::text::Class::Is('T'));
        proof {
            crate::text::lemma_split_nonempty(e.created_at@, crate::text::Class::Is('T'));
        }
        let ghost before = waiting_rows(out@);
        out.push(crate::db::Waiting { project: copy_text(&e.project), id: e.id, date: text_of(&parts[0]), body: copy_text(&e.body) });
        assert(waiting_rows(out@) =~= before.push(waiting_row(*e)));
        assert(ss.take(j + 1).map_values(|e: LineEvent| waiting_row(e)) =~= ss.take(j as int).map_values(
            |e: LineEvent| waiting_row(e),
        ).push(waiting_row(ss[j as int])));
    }
    assert(ss.take(ss.len() as int) =~= ss);
    out
}

proof fn lemma_waiting_order_is_strict()
    ensures
        crate::order::strict_order(waiting_order()),
{
    let lt = waiting_order();
    assert forall|a: LineEvent| !#[trigger] lt(a, a) by {
        crate::order::lemma_text_order(a.created_at@, a.created_at@, a.created_at@);
        crate::order::lemma_text_order(a.project@, a.project@, a.project@);
    }
    assert forall|a: LineEvent, b: LineEvent, c: LineEvent| #[trigger] lt(a, b) && #[trigger] lt(b, c) implies lt(a, c) by {
        crate::order::lemma_text_order(a.created_at@, b.created_at@, c.created_at@);
        crate::order::lemma_text_order(a.project@, b.project@, c.project@);
        crate::order::lemma_text_order(a.created_at@, c.created_at@, b.created_at@);
        crate::order::lemma_text_order(a.project@, c.project@, b.project@);
        crate::order::lemma_text_order(b.created_at@, c.created_at@, a.created_at@);
        crate::order::lemma_text_order(b.project@, c.project@, a.project@);
        if crate::order::text_order(a.created_at@, b.created_at@) == 0 {
            assert(a.created_at@ == b.created_at@);
        }
        if crate::order::text_order(b.created_at@, c.created_at@) == 0 {
            assert(b.created_at@ == c.created_at@);
        }
        if crate::order::text_order(a.project@, b.project@) == 0 {
            assert(a.project@ == b.project@);
        }
        if crate::order::text_order(b.project@, c.project@) == 0 {
            assert(b.project@ == c.project@);
        }
    }
}

proof fn lemma_questions_are_questions(es: Seq<LineEvent>)
    ensures
        forall|i: int| 0 <= i < questions_of(es).len() ==> (#[trigger] questions_of(es)[i]).kind@ == "question"@,
        questions_of(es).len() <= es.len(),
    decreases es.len(),
{
    if es.len() > 0 {
        lemma_questions_are_questions(es.drop_last());
    }
}

/// The inbox holds each question among the events once and nothing else,
/// and no question in it stands after one asked later, or after one asked
/// at the same moment in a project whose name sorts before its own.
pub proof fn law_the_inbox_is_oldest_first(es: Seq<LineEvent>)
    ensures
        crate::order::in_order(crate::order::stable_sort(questions_of(es), waiting_order()), waiting_order()),
        crate::order::stable_sort(questions_of(es), waiting_order()).to_multiset() == questions_of(es).to_multiset(),
        forall|i: int|
            0 <= i < crate::order::stable_sort(questions_of(es), waiting_order()).len() ==> (#[trigger] crate::order::stable_sort(
                questions_of(es),
                waiting_order(),
            )[i]).kind@ == "question"@,
{
    lemma_waiting_order_is_strict();
    crate::order::law_sorted_is_in_order(questions_of(es), waiting_order());
    lemma_questions_are_questions(es);
    let asked = |e: LineEvent| e.kind@ == "question"@;
    assert forall|i: int| 0 <= i < questions_of(es).len() implies #[trigger] asked(questions_of(es)[i]) by {}
    crate::order::lemma_stable_sort_keeps(questions_of(es), waiting_order(), asked);
    assert forall|i: int| 0 <= i < crate::order::stable_sort(questions_of(es), waiting_order()).len() implies (
    #[trigger] crate::order::stable_sort(questions_of(es), waiting_order())[i]).kind@ == "question"@ by {
        assert(asked(crate::order::stable_sort(questions_of(es), waiting_order())[i]));
    }
}

} // verus!
