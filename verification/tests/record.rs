use rigger::hub::{Hub, Stage, Task};
use rigger::record::{current_stage, digest, import_hub, open_questions, version_and_predecessor, LineEvent, RecordedEvent, ImportReport, RecordModel, StageRow};
use rigger::recorded::{RecordedTask, RecordedVersion, Shape};

fn task(title: &str, done: bool) -> Task {
    Task { title: title.to_string(), done }
}

fn stage(version: &str, shipped_on: Option<&str>, tasks: Vec<Task>) -> Stage {
    Stage {
        version: version.to_string(),
        title: Some(format!("Stage {version}")),
        shipped_on: shipped_on.map(str::to_string),
        tasks,
        heading: version.to_string(),
        depth: 2,
        ..Stage::default()
    }
}

fn sample_hub() -> Hub {
    Hub {
        closed_stages: vec![stage("v0.1.0", Some("2026-09-03"), vec![task("database", true)])],
        open_stages: vec![stage("v0.2.0", None, vec![task("full-text index", false), task("a query language", true)])],
        ..Hub::default()
    }
}

fn empty() -> RecordModel {
    RecordModel { stages: Vec::new() }
}

#[test]
fn a_hub_is_imported_into_an_empty_record() {
    let (rec, report) = import_hub(empty(), &sample_hub(), false);
    assert_eq!(
        report,
        ImportReport { versions_added: 2, versions_updated: 0, tasks_added: 3, tasks_updated: 0, tasks_dropped: 0, versions_dropped: 0 }
    );
    assert_eq!(rec.stages.len(), 2);
    assert_eq!(rec.stages[0].version.status, "shipped");
    assert_eq!(rec.stages[1].version.status, "planned");
    let statuses: Vec<&str> = rec.stages[1].tasks.iter().map(|t| t.status.as_str()).collect();
    assert_eq!(statuses, vec!["new", "done"]);
}

#[test]
fn running_an_import_again_is_quiet() {
    let hub = sample_hub();
    let (once, _) = import_hub(empty(), &hub, false);
    let (twice, report) = import_hub(once.clone(), &hub, false);
    assert_eq!(report, ImportReport::default());
    assert_eq!(twice.stages.len(), once.stages.len());
    for (a, b) in twice.stages.iter().zip(once.stages.iter()) {
        assert_eq!(a.version.status, b.version.status);
        assert_eq!(a.tasks.len(), b.tasks.len());
    }
}

fn recorded_stage(name: &str, status: &str, tasks: Vec<(&str, &str, i64)>) -> StageRow {
    StageRow {
        name: name.to_string(),
        version: RecordedVersion {
            title: Some(format!("Stage {name}")),
            status: status.to_string(),
            shipped_at: None,
            notes: None,
            notes_after: None,
            shape: Shape { heading: None, depth: None, after_prose: None, gap_after: None, rank: None },
        },
        tag_day: None,
        tasks: tasks
            .into_iter()
            .map(|(title, status, at)| RecordedTask { status: status.to_string(), title: title.to_string(), position: Some(at) })
            .collect(),
    }
}

#[test]
fn a_struck_line_and_a_renumbered_stage_are_dropped() {
    let record = RecordModel {
        stages: vec![
            recorded_stage("v0.2.0", "planned", vec![("full-text index", "active", 0), ("old wording", "new", 5)]),
            recorded_stage("v0.9.0", "planned", vec![("later", "new", 0)]),
        ],
    };
    let (rec, report) = import_hub(record, &sample_hub(), false);
    assert_eq!(report.tasks_dropped, 1);
    assert_eq!(report.versions_dropped, 1);
    let v2 = &rec.stages[0];
    assert_eq!(v2.tasks[0].status, "active");
    assert_eq!(v2.tasks[1].status, "dropped");
    assert_eq!(rec.stages[1].version.status, "dropped");
    assert_eq!(rec.stages[1].tasks[0].status, "dropped");
}

#[test]
fn a_generated_plan_strikes_nothing() {
    let record = RecordModel { stages: vec![recorded_stage("v0.9.0", "planned", vec![("later", "new", 0)])] };
    let (rec, report) = import_hub(record, &sample_hub(), true);
    assert_eq!(report.versions_dropped, 0);
    assert_eq!(rec.stages[0].version.status, "planned");
}

#[test]
fn the_current_stage_is_the_lowest_planned_number() {
    let record = RecordModel {
        stages: vec![
            recorded_stage("v0.10.0", "planned", vec![]),
            recorded_stage("v0.1.0", "shipped", vec![]),
            recorded_stage("v0.9.0", "planned", vec![("index", "active", 0), ("query", "done", 1), ("docs", "new", 2)]),
        ],
    };
    let stage = current_stage(&record).unwrap();
    assert_eq!(stage.version, "v0.9.0");
    let tasks: Vec<(i64, &str, &str)> = stage.tasks.iter().map(|t| (t.id, t.title.as_str(), t.status.as_str())).collect();
    assert_eq!(tasks, vec![(0, "index", "active"), (2, "docs", "new")]);
    assert!(current_stage(&RecordModel { stages: vec![recorded_stage("v0.1.0", "shipped", vec![])] }).is_none());
}

fn shipped_stage(name: &str, day: &str) -> StageRow {
    let mut s = recorded_stage(name, "shipped", vec![]);
    s.version.shipped_at = Some(day.to_string());
    s
}

#[test]
fn a_version_is_found_by_number_with_the_release_before_it() {
    let record = RecordModel {
        stages: vec![
            shipped_stage("v0.10.0", "2026-03-01"),
            shipped_stage("v0.8.0", "2026-01-01"),
            recorded_stage("v0.9.5", "planned", vec![]),
            shipped_stage("v0.9.0", "2026-02-01"),
            shipped_stage("v0.2.0", "2025-06-01"),
            recorded_stage("v0.11.0", "planned", vec![]),
        ],
    };
    // By number: `v0.10` reads as 0.10.0; the release before it is 0.9.0,
    // not the planned 0.9.5 and not the row recorded before it.
    assert_eq!(version_and_predecessor(&record, "v0.10"), Some((0, Some(3))));
    assert_eq!(version_and_predecessor(&record, "0.11.0"), Some((5, Some(0))));
    assert_eq!(version_and_predecessor(&record, "v0.2.0"), Some((4, None)));
    assert_eq!(version_and_predecessor(&record, "v1.0.0"), None);
}

fn event(kind: &str, at: &str) -> RecordedEvent {
    RecordedEvent { kind: kind.to_string(), created_at: at.to_string() }
}

#[test]
fn a_digest_counts_what_happened_inside_the_window() {
    let record = RecordModel {
        stages: vec![
            shipped_stage("v0.10.0", "2026-03-04"),
            shipped_stage("v0.2.0", "2026-01-01"),
            shipped_stage("v0.9.0", "2026-03-02"),
            recorded_stage("v0.11.0", "planned", vec![]),
        ],
    };
    let events = vec![
        event("decision", "2026-03-01T10:00:00Z"),
        event("decision", "2026-02-27T10:00:00Z"),
        event("finding", "2026-03-02T08:00:00Z"),
        event("pitfall", "2026-03-03T08:00:00Z"),
        event("change", "2026-03-05T08:00:00Z"),
        event("next", "2026-03-05T09:00:00Z"),
        event("question", "2026-01-05T09:00:00Z"),
        event("question", "2026-03-05T09:00:00Z"),
    ];
    let facts = digest(&record, &events, "2026-03-01");
    assert_eq!(facts.shipped, vec!["v0.9.0", "v0.10.0"]);
    assert_eq!((facts.decisions, facts.findings, facts.changes, facts.waiting), (1, 2, 1, 2));
}

fn line_event(project: &str, id: i64, kind: &str, at: &str) -> LineEvent {
    LineEvent { project: project.to_string(), id, kind: kind.to_string(), created_at: at.to_string(), body: format!("body {id}") }
}

#[test]
fn the_open_questions_come_oldest_first() {
    let events = vec![
        line_event("pen", 7, "question", "2026-03-05T10:00:00Z"),
        line_event("hub", 3, "decision", "2026-01-01T10:00:00Z"),
        line_event("pen", 2, "question", "2026-02-01T10:00:00Z"),
        line_event("hub", 9, "question", "2026-02-01T10:00:00Z"),
        line_event("answers", 4, "answered", "2025-12-01T10:00:00Z"),
    ];
    let waiting = open_questions(events);
    let got: Vec<(&str, i64, &str, &str)> =
        waiting.iter().map(|w| (w.project.as_str(), w.id, w.date.as_str(), w.body.as_str())).collect();
    assert_eq!(
        got,
        vec![("hub", 9, "2026-02-01", "body 9"), ("pen", 2, "2026-02-01", "body 2"), ("pen", 7, "2026-03-05", "body 7")]
    );
}
