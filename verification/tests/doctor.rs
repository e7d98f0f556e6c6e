use rigger::doctor::{
    backup_line, diagnose, drift_lines, findings_lines, hub_drift, no_session_lines, reminder_lines, session_close,
    session_report, Diagnosis, Drift, DoctorProject, HubFile, HubFileSeen, HubSeen, SessionReport,
};

fn project(name: &str, reads_git: bool, synced: bool, untagged: &[&str]) -> DoctorProject {
    DoctorProject {
        name: name.to_string(),
        reads_git,
        synced,
        shipped_without_a_tag: untagged.iter().map(|v| v.to_string()).collect(),
    }
}

#[test]
fn the_check_lists_unsynced_projects_and_versions_closed_without_a_tag() {
    let found = diagnose(&vec![
        project("widget", true, true, &["v0.2.0", "v0.3.0"]),
        project("desk", false, false, &[]),
        project("gadget", true, false, &["v9.9.9"]),
        project("kasl", true, true, &[]),
    ]);
    assert_eq!(found.never_synced, vec!["gadget".to_string()]);
    assert_eq!(
        found.closed_without_a_tag,
        vec![("widget".to_string(), "v0.2.0".to_string()), ("widget".to_string(), "v0.3.0".to_string())]
    );
}

#[test]
fn closing_a_session_copies_a_stale_record_and_titles_the_diary() {
    assert_eq!(
        session_close(Some(0), "2026-09-24T18:00:00Z", Some("  Search  ")),
        (false, "2026-09-24".to_string(), Some("2026-09-24 · Search".to_string()))
    );
    assert_eq!(session_close(Some(1), "2026-09-24T18:00:00Z", None), (true, "2026-09-24".to_string(), None));
    assert_eq!(session_close(None, "2026-09-24T18:00:00Z", Some("   ")), (true, "2026-09-24".to_string(), None));
}

#[test]
fn the_backup_line_says_how_old_the_copy_is() {
    assert_eq!(backup_line(None, 0), "backup:    none - one file, no copy of it; run `rigger backup`");
    assert_eq!(backup_line(Some(0), 1), "backup:    today, 1 copy kept");
    assert_eq!(backup_line(Some(1), 3), "backup:    yesterday, 3 copies kept - older than a day; run `rigger backup`");
    assert_eq!(backup_line(Some(9), 2), "backup:    9 days ago, 2 copies kept - older than a week; run `rigger backup`");
}

#[test]
fn the_findings_are_listed_with_their_advice() {
    let d = Diagnosis {
        never_synced: vec!["alpha".to_string(), "beta".to_string()],
        closed_without_a_tag: vec![("gamma".to_string(), "v0.3.0".to_string())],
    };
    assert_eq!(
        findings_lines(&d),
        vec![
            "\nnever synced (2): alpha, beta",
            "  run `rigger sync` to read what git says about them",
            "\nclosed in the plan, no tag in git (1):",
            "  gamma        v0.3.0",
            "  a tag would settle it; rigger does not change what you wrote",
        ]
    );
    assert!(findings_lines(&Diagnosis::default()).is_empty());
}

fn seen(project: &str, reads_git: bool, recorded: bool, present: bool, files: &[(&str, HubFile)]) -> HubSeen {
    HubSeen {
        project: project.to_string(),
        reads_git,
        recorded,
        present,
        files: files.iter().map(|(n, s)| HubFileSeen { name: n.to_string(), state: *s }).collect(),
    }
}

#[test]
fn a_hub_the_record_cannot_vouch_for_is_named_with_the_reason() {
    let projects = vec![
        seen("service", false, false, false, &[]),
        seen("alpha", true, false, false, &[]),
        seen("beta", true, true, false, &[]),
        seen(
            "gamma",
            true,
            true,
            true,
            &[("Vision.md", HubFile::ByHand), ("Decisions.md", HubFile::Edited), ("Plan.md", HubFile::ByHand)],
        ),
        seen("delta", true, true, true, &[("Vision.md", HubFile::Matches), ("Plan.md", HubFile::Absent)]),
    ];
    let drift = hub_drift(&projects);
    let got: Vec<(String, String, &str)> = drift.iter().map(|d| (d.project.clone(), d.file.clone(), d.why)).collect();
    assert_eq!(
        got,
        vec![
            ("alpha".to_string(), "-".to_string(), "no hub recorded; import or export one"),
            ("beta".to_string(), "-".to_string(), "the hub is not where the record says"),
            ("gamma".to_string(), "Decisions.md".to_string(), "edited since it was generated"),
            ("gamma".to_string(), "Vision.md, Plan.md".to_string(), "kept by hand; `rigger export --adopt` hands it over"),
        ]
    );
    let lines = drift_lines(&drift);
    assert_eq!(lines[0], "");
    assert_eq!(lines[1], "hubs the record cannot vouch for (4):");
    assert_eq!(lines[2], "  alpha        -              no hub recorded; import or export one");
    assert_eq!(lines[4], "  gamma        Decisions.md   edited since it was generated");
    assert_eq!(lines[6], "  edited: `rigger import` takes the edit into the record; `rigger export` discards it");
    assert_eq!(lines.len(), 7);
}

#[test]
fn hubs_that_all_match_say_so_and_give_no_advice() {
    assert_eq!(drift_lines(&vec![]), vec!["", "hubs: every generated file matches the record"]);
    let only_missing =
        vec![Drift { project: "alpha".to_string(), file: "-".to_string(), why: "the hub is not where the record says" }];
    assert_eq!(drift_lines(&only_missing).len(), 3);
}

fn report() -> SessionReport {
    SessionReport {
        project: "rigger".to_string(),
        started_at: "2026-03-02T09:00:00Z".to_string(),
        empty: false,
        shipped: vec!["v0.4.0".to_string(), "v0.4.1".to_string()],
        decisions: 2,
        findings: 1,
        pitfalls: 0,
        changes: 0,
        questions: 0,
        tasks_closed: 1,
        next_step: Some("\n  Wire the importer  \nthen test it".to_string()),
        copied_to: Some("/backups/rigger.db".to_string()),
        missing: vec!["a next step".to_string()],
        diary: None,
    }
}

#[test]
fn a_closed_session_reports_what_was_done_in_it() {
    assert_eq!(
        session_report(&report()),
        vec![
            "Session on rigger closed, open since 2026-03-02T09:00:00Z.",
            "",
            "shipped v0.4.0, v0.4.1",
            "recorded 2 decisions, 1 finding",
            "closed 1 task",
            "next: Wire the importer",
            "copied the database to /backups/rigger.db",
            "",
            "The ritual asks for:",
            "  a next step",
            "\nWrite it into a diary with: rigger session end rigger --diary <file>",
        ]
    );
    let mut quiet = report();
    quiet.empty = true;
    quiet.next_step = None;
    quiet.copied_to = None;
    quiet.missing = vec![];
    quiet.diary = Some("diary.md".to_string());
    assert_eq!(
        session_report(&quiet),
        vec![
            "Session on rigger closed, open since 2026-03-02T09:00:00Z.",
            "",
            "Nothing was recorded in it.",
            "\nDiary entry appended to diary.md",
        ]
    );
}

#[test]
fn a_hook_speaks_only_when_the_ritual_is_short() {
    assert!(reminder_lines("rigger", 3, &vec![]).is_empty());
    assert_eq!(
        reminder_lines("rigger", 1, &vec!["a decision".to_string()]),
        vec!["Session on rigger closed - 1 event:", "  a decision"]
    );
    assert_eq!(no_session_lines("rigger"), vec!["No session is open on rigger.", "Open one with: rigger session start rigger"]);
}
