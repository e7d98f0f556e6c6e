use rigger::adopt::{report, roots_for, Adopted, Status};
use rigger::answers::{Answers, Fork, Idea};
use rigger::import::Report;

fn idea(text: &str, taken: bool, why: Option<&str>) -> Idea {
    Idea {
        idea: text.into(),
        taken,
        why: why.map(String::from),
    }
}

#[test]
fn a_fork_records_what_it_was_decided_against() {
    let answers = Answers {
        questionnaire: Some("plan review 03ab557f".into()),
        answered: Some("2026-09-11".into()),
        forks: vec![Fork {
            question: "Where does knowledge of the code come from".into(),
            chosen: "nooma as a library".into(),
            against: vec!["a tree-sitter index of its own".into(), "asking an assistant each time".into()],
            why: Some("One index for the line, not one per product.".into()),
        }],
        ideas: vec![],
    };
    let entries = answers.entries();
    assert_eq!(entries.len(), 1);
    assert_eq!(entries[0].kind, "decision");
    let body = &entries[0].body;
    assert!(body.contains("nooma as a library"), "{body}");
    assert!(
        body.contains("Rather than: a tree-sitter index of its own; asking an assistant each time"),
        "{body}"
    );
    assert!(body.contains("One index for the line"), "{body}");
    assert!(body.contains("plan review 03ab557f, 2026-09-11"), "{body}");
}

#[test]
fn a_taken_idea_is_a_wish_and_an_untaken_one_is_a_decision() {
    let answers = Answers {
        questionnaire: None,
        answered: Some("2026-09-11".into()),
        forks: vec![],
        ideas: vec![
            idea("A registry of the line as public JSON", true, None),
            idea("A second binary for the alias", false, Some("An alias is a link.")),
        ],
    };
    let entries = answers.entries();
    assert_eq!(entries.len(), 2);
    assert_eq!(entries[0].kind, "wish");
    assert!(entries[0].body.starts_with("A registry of the line"), "{}", entries[0].body);
    assert_eq!(entries[1].kind, "decision");
    assert!(entries[1].body.starts_with("Not taking: A second binary"), "{}", entries[1].body);
    assert!(entries[1].body.contains("An alias is a link."), "{}", entries[1].body);
}

fn answered(day: Option<&str>) -> Answers {
    Answers {
        questionnaire: None,
        answered: day.map(String::from),
        forks: vec![],
        ideas: vec![idea("x", false, None)],
    }
}

#[test]
fn the_events_are_dated_by_the_day_it_was_answered() {
    assert_eq!(answered(Some("2026-09-11")).at().as_deref(), Some("2026-09-11T00:00:00Z"));
    assert_eq!(answered(Some("11.09.2026")).at(), None);
    assert_eq!(answered(None).at(), None);
}

#[test]
fn an_idea_without_a_tick_is_not_taken() {
    let answers = Answers {
        questionnaire: None,
        answered: None,
        forks: vec![],
        ideas: vec![idea("something", false, None)],
    };
    assert_eq!(answers.entries()[0].kind, "decision");
}

#[test]
fn a_questionnaire_with_no_name_still_cites_itself() {
    let answers = Answers {
        questionnaire: None,
        answered: Some("2026-09-11".into()),
        forks: vec![],
        ideas: vec![idea("x", true, None)],
    };
    assert!(
        answers.entries()[0].body.contains("questionnaire of 2026-09-11"),
        "{}",
        answers.entries()[0].body
    );
}

#[test]
fn an_empty_idea_says_nothing_and_a_whole_fork_reads_in_full() {
    let answers = Answers {
        questionnaire: Some("page".into()),
        answered: None,
        forks: vec![Fork {
            question: " Q ".into(),
            chosen: " A ".into(),
            against: vec!["  ".into(), " B ".into()],
            why: Some("   ".into()),
        }],
        ideas: vec![idea("   ", true, None)],
    };
    let entries = answers.entries();
    assert_eq!(entries.len(), 1);
    assert_eq!(entries[0].body, "Q: A\n\nRather than: B\n\nAnswered on page.");
}

fn adopted() -> Adopted {
    Adopted {
        name: "widget".into(),
        path: "/src/widget".into(),
        status: Status::Known,
        hub: None,
        versions_added: 0,
        tasks_added: 0,
        diary_added: 0,
        prose_files: 0,
        tasks_dropped: 0,
        versions_dropped: 0,
        shipped: 0,
        changes_read: 0,
        warnings: vec![],
    }
}

#[test]
fn a_hub_summary_names_every_kind() {
    let mut a = adopted();
    assert_eq!(a.hub_summary(), "hub: nothing new");
    a.versions_added = 2;
    a.tasks_added = 6;
    a.diary_added = 1;
    a.tasks_dropped = 1;
    assert_eq!(a.hub_summary(), "hub: 2 versions, 6 tasks, 1 diary entry new; 1 task struck");
}

#[test]
fn an_import_that_counted_nothing_changed_nothing() {
    let mut r = Report::default();
    assert!(!r.changed());
    r.prose_files = 1;
    assert!(r.changed());
}

#[test]
fn adopting_reports_each_repository_and_sums_the_run_up() {
    let mut read = adopted();
    read.status = Status::Recorded;
    read.hub = Some("/hubs/widget".into());
    read.versions_added = 2;
    read.shipped = 1;
    read.changes_read = 3;
    let mut none = adopted();
    none.name = "gadget".into();
    none.status = Status::NoHub;
    let mut skipped = adopted();
    skipped.name = "tool".into();
    skipped.status = Status::Skipped("not a repository".into());
    skipped.warnings = vec!["a warning".into()];
    let lines = report(&[read, none, skipped], false);
    assert_eq!(
        lines,
        vec![
            "widget  recorded     hub: 2 versions new   git: 1 version shipped, 3 changes read",
            "gadget  no hub       ",
            "tool    skipped      hub: none",
            "        not a repository",
            "        note: a warning",
            "",
            "3 repositories: 1 recorded, 0 known, 1 without a hub, 1 skipped; 1 hub read.",
        ]
    );
    let checked = report(&[adopted()], true);
    assert_eq!(
        checked,
        vec![
            "widget  known        hub: none",
            "",
            "1 repository: 0 would be recorded, 1 known, 0 skipped; 0 hubs read.",
            "Nothing was written. Run again without --check to record them.",
        ]
    );
}

#[test]
fn a_profile_without_roots_is_told_how_to_set_one() {
    let mut p = rigger::profile::Profile::default();
    let err = roots_for(None, None, "work", &p).unwrap_err();
    assert_eq!(err, "profile 'work' names no roots; give a directory, or set one with `rigger profile set work --root <dir>`");
    p.roots = vec!["C:\\work".into()];
    p.hubs = Some("C:\\hubs".into());
    assert_eq!(roots_for(None, None, "work", &p).unwrap(), (vec!["C:\\work".to_string()], Some("C:\\hubs".to_string())));
    assert_eq!(roots_for(Some("D:\\src"), Some("E:\\h"), "work", &p).unwrap(), (vec!["D:\\src".to_string()], Some("E:\\h".to_string())));
}
