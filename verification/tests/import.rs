use rigger::db::Change;
use rigger::hub::Prose;
use rigger::import::{decision_event, may_reopen, prose_files, runs_of, tally};

fn run(file: &str, position: usize) -> Prose {
    Prose { file: file.to_string(), position, heading: None, body: format!("run {position}"), gap_after: 1 }
}

#[test]
fn each_write_is_counted_once_as_what_it_did() {
    let (mut added, mut updated) = (0u32, 0u32);
    tally(Change::Added, &mut added, &mut updated);
    tally(Change::Updated, &mut added, &mut updated);
    tally(Change::Added, &mut added, &mut updated);
    tally(Change::Unchanged, &mut added, &mut updated);
    assert_eq!((added, updated), (2, 1));
}

#[test]
fn a_plan_behind_a_tag_or_written_by_the_record_does_not_reopen_tasks() {
    assert!(may_reopen(true, true, false));
    assert!(may_reopen(false, false, false));
    assert!(!may_reopen(false, true, false));
    assert!(!may_reopen(true, false, true));
}

#[test]
fn a_decision_is_dated_at_the_start_of_its_day() {
    let (at, body) = decision_event("2026-09-04", "Ship weekly", "Because small steps.");
    assert_eq!(at, "2026-09-04T00:00:00Z");
    assert_eq!(body, "Ship weekly\n\nBecause small steps.");
    assert_eq!(decision_event("2026-09-04", "Ship weekly", "").1, "Ship weekly");
}

#[test]
fn prose_is_taken_in_file_by_file() {
    let prose = vec![run("План.md", 0), run("Изменения.md", 0), run("План.md", 1)];
    assert_eq!(prose_files(&prose), vec!["Изменения.md".to_string(), "План.md".to_string()]);
    let plan = runs_of(&prose, "План.md");
    assert_eq!(plan, vec![run("План.md", 0), run("План.md", 1)]);
    assert!(runs_of(&prose, "README.md").is_empty());
}
