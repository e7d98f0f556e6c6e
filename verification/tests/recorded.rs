use rigger::db::Change;
use rigger::hub::{Stage, Task};
use rigger::recorded::{task_struck, task_upsert, version_struck, version_twin, version_upsert, RecordedTask, RecordedVersion};

fn stage(shipped_on: Option<&str>, notes: &str, depth: usize) -> Stage {
    Stage {
        version: "v0.3.0".to_string(),
        title: Some("Search".to_string()),
        shipped_on: shipped_on.map(str::to_string),
        notes: notes.to_string(),
        depth,
        heading: "v0.3.0 · Search".to_string(),
        ..Stage::default()
    }
}

fn status(row: &RecordedVersion) -> &str {
    row.status.as_str()
}

#[test]
fn a_new_stage_is_added_and_a_second_reading_is_quiet() {
    let s = stage(None, "  ", 2);
    let (row, change) = version_upsert(None, None, &s, false);
    assert_eq!(change, Change::Added);
    assert_eq!(status(&row), "planned");
    assert_eq!(row.notes, None);
    assert_eq!(row.shape.heading.as_deref(), Some("v0.3.0 · Search"));
    assert_eq!(row.shape.depth, Some(2));
    let (again, change) = version_upsert(Some(&row), None, &s, false);
    assert_eq!(change, Change::Unchanged);
    assert_eq!(again.status, row.status);
}

#[test]
fn a_day_from_a_tag_outranks_the_written_one() {
    let s = stage(Some("2026-09-03"), "Shipped.", 2);
    let (row, _) = version_upsert(None, Some("2026-09-04"), &s, true);
    assert_eq!(status(&row), "shipped");
    assert_eq!(row.shipped_at.as_deref(), Some("2026-09-04"));
}

#[test]
fn the_plans_copy_of_a_shipped_stage_keeps_the_changelogs_entry() {
    let from_changelog = stage(Some("2026-09-03"), "What went out.", 3);
    let (row, _) = version_upsert(None, None, &from_changelog, true);
    let plan_copy = stage(None, "already out", 2);
    let (after, change) = version_upsert(Some(&row), None, &plan_copy, false);
    assert_eq!(change, Change::Unchanged);
    assert_eq!(status(&after), "shipped");
    assert_eq!(after.shipped_at.as_deref(), Some("2026-09-03"));
    assert_eq!(after.notes.as_deref(), Some("What went out."));
    assert_eq!(after.shape.depth, Some(3));
}

#[test]
fn a_rewritten_entry_is_an_update() {
    let (row, _) = version_upsert(None, None, &stage(Some("2026-09-03"), "Old words.", 3), true);
    let (after, change) = version_upsert(Some(&row), None, &stage(Some("2026-09-03"), "New words.", 3), true);
    assert_eq!(change, Change::Updated);
    assert_eq!(after.notes.as_deref(), Some("New words."));
}

fn task(title: &str, done: bool) -> Task {
    Task { title: title.to_string(), done }
}

fn recorded(status: &str, title: &str, position: i64) -> RecordedTask {
    RecordedTask { status: status.to_string(), title: title.to_string(), position: Some(position) }
}

#[test]
fn a_new_task_line_is_added_and_read_again_is_quiet() {
    let (row, change) = task_upsert(None, &task("full-text index", false), 0, true);
    assert_eq!(change, Change::Added);
    assert_eq!(row.status, "new");
    let (_, change) = task_upsert(Some(&row), &task("full-text index", false), 0, true);
    assert_eq!(change, Change::Unchanged);
}

#[test]
fn an_empty_box_keeps_an_active_task_active_and_a_closed_one_closed() {
    let (row, change) = task_upsert(Some(&recorded("active", "index", 0)), &task("index", false), 0, true);
    assert_eq!((row.status.as_str(), change), ("active", Change::Unchanged));
    let (row, change) = task_upsert(Some(&recorded("done", "index", 0)), &task("index", false), 0, false);
    assert_eq!((row.status.as_str(), change), ("done", Change::Unchanged));
    let (row, change) = task_upsert(Some(&recorded("done", "index", 0)), &task("index", false), 0, true);
    assert_eq!((row.status.as_str(), change), ("new", Change::Updated));
}

#[test]
fn a_reworded_or_moved_line_is_an_update() {
    let (row, change) = task_upsert(Some(&recorded("new", "index", 0)), &task("a full-text index", true), 1, true);
    assert_eq!(change, Change::Updated);
    assert_eq!((row.status.as_str(), row.title.as_str(), row.position), ("done", "a full-text index", Some(1)));
}

#[test]
fn only_open_tasks_and_planned_versions_a_reading_left_out_are_struck() {
    assert!(task_struck("new", 7, &[1, 2]));
    assert!(task_struck("active", 7, &[]));
    assert!(!task_struck("new", 2, &[1, 2]));
    assert!(!task_struck("done", 7, &[1, 2]));
    assert!(!task_struck("dropped", 7, &[]));
    let keep = vec!["v0.3.0".to_string(), "v0.4.0".to_string()];
    assert!(version_struck("planned", "v1.10.0", &keep));
    assert!(!version_struck("planned", "v0.4.0", &keep));
    assert!(!version_struck("shipped", "v1.10.0", &keep));
}

fn named(name: &str, title: Option<&str>) -> (String, Option<String>) {
    (name.to_string(), title.map(str::to_string))
}

#[test]
fn a_stage_recorded_under_its_short_number_is_its_twin() {
    let s = Stage { version: "v1.9.0".to_string(), title: Some("Search".to_string()), ..Stage::default() };
    let rows = vec![named("v1.8.0", Some("Index")), named("v1.9", Some("Search"))];
    assert_eq!(version_twin(&s, &rows), Some(1));
    let other = vec![named("v2.0.0", Some("Search"))];
    assert_eq!(version_twin(&s, &other), None);
    let itself = vec![named("v1.9.0", Some("Search"))];
    assert_eq!(version_twin(&s, &itself), None);
    let untitled = Stage { version: "v1.9.0".to_string(), title: None, ..Stage::default() };
    assert_eq!(version_twin(&untitled, &rows), None);
}
