use rigger::db::{DigestFacts, Waiting};
use rigger::owner::{digest_lines, digest_screen, inbox_lines, DigestReport, parse_days, shared_subjects, stage_name, subject};

fn waiting(project: &str, body: &str) -> Waiting {
    Waiting {
        project: project.into(),
        id: 1,
        date: "2026-09-04".into(),
        body: body.into(),
    }
}

#[test]
fn a_bold_heading_is_the_subject() {
    assert_eq!(subject("**Место в календаре:** ярус не назначен."), "Место в календаре");
    assert_eq!(subject("**Social preview** - upload it by hand."), "Social preview");
}

#[test]
fn a_question_without_a_heading_still_has_a_subject() {
    assert_eq!(subject("Which tier is this project? It matters for the rhythm."), "Which tier is this project?");
    assert_eq!(subject("Pick the release day"), "Pick the release day");
}

#[test]
fn a_leading_blank_line_does_not_swallow_the_subject() {
    assert_eq!(subject("\n\n**The subject.** Detail."), "The subject");
}

#[test]
fn questions_spelt_alike_across_projects_are_grouped() {
    let questions = vec![
        waiting("austeris", "**Место в производственном календаре:** ярус не назначен."),
        waiting("dowel", "**Место в производственном календаре** — ярус B."),
        waiting("kasl-server", "**Место в производственном календаре:** в какой ярус."),
        waiting("kilna", "**Публичный анонс** — привязан к v1.0.0."),
    ];
    let shared = shared_subjects(&questions);
    assert_eq!(shared.len(), 1, "{shared:?}");
    assert_eq!(shared[0].projects.len(), 3);
    assert!(shared[0].projects.contains(&"dowel".to_string()));
    assert!(!shared.iter().any(|s| s.subject.contains("анонс")), "{shared:?}");
}

#[test]
fn one_project_asking_twice_is_not_a_group() {
    let questions = vec![
        waiting("dowel", "**The same subject.** First."),
        waiting("dowel", "**The same subject.** Second."),
    ];
    assert!(shared_subjects(&questions).is_empty());
}

#[test]
fn the_most_shared_question_comes_first() {
    let questions = vec![
        waiting("a", "**Two.** x"),
        waiting("b", "**Two.** x"),
        waiting("c", "**Three.** y"),
        waiting("d", "**Three.** y"),
        waiting("e", "**Three.** y"),
    ];
    let shared = shared_subjects(&questions);
    assert_eq!(shared[0].subject, "Three");
    assert_eq!(shared[0].projects.len(), 3);
}

fn facts(shipped: &[&str], decisions: u32, findings: u32, changes: u32, waiting: u32) -> DigestFacts {
    DigestFacts {
        shipped: shipped.iter().map(|s| s.to_string()).collect(),
        decisions,
        findings,
        changes,
        waiting,
    }
}

#[test]
fn a_digest_is_five_lines_at_most() {
    let busy = facts(&["v0.6.0", "v0.7.0", "v0.8.0"], 12, 9, 40, 3);
    let lines = digest_lines(&busy, Some("v0.9.0 · Inbox"), Some(0), None);
    assert!(lines.len() <= 5, "{lines:#?}");
    assert!(lines.iter().any(|l| l.contains("3 releases")), "{lines:#?}");
    assert!(lines.iter().any(|l| l.contains("waiting on you: 3 questions")), "{lines:#?}");
}

#[test]
fn a_stage_name_drops_the_hub_aside() {
    assert_eq!(
        stage_name("v0.13.1 · MCP и Agent Skills *(отложено из v0.13.0, решение владельца 02.09)*"),
        "v0.13.1 · MCP и Agent Skills"
    );
    assert_eq!(stage_name("v0.9.0 · Inbox and digest"), "v0.9.0 · Inbox and digest");
    assert!(!stage_name("*(pending)*").is_empty());
}

#[test]
fn a_single_release_is_named_rather_than_counted() {
    let lines = digest_lines(&facts(&["v1.0.0"], 0, 0, 0, 0), None, Some(0), None);
    assert_eq!(lines[0], "shipped v1.0.0");
}

#[test]
fn silence_is_reported_as_a_fact() {
    let lines = digest_lines(&facts(&[], 0, 0, 0, 0), None, Some(14), None);
    assert_eq!(lines.len(), 1);
    assert!(lines[0].contains("14 days ago"), "{lines:?}");
}

#[test]
fn a_signal_leads_the_digest_and_displaces_the_silence() {
    let signal = "tier A asks for more: 7 weeks without a release";
    let lines = digest_lines(&facts(&[], 0, 0, 0, 0), None, Some(30), Some(signal));
    assert_eq!(lines[0], signal);
    assert!(!lines.iter().any(|l| l.contains("nothing this week")), "{lines:?}");
}

#[test]
fn a_digest_with_a_signal_is_still_five_lines_at_most() {
    let busy = facts(&["v0.6.0", "v0.7.0"], 12, 9, 40, 3);
    let lines = digest_lines(
        &busy,
        Some("v0.9.0 · Inbox"),
        Some(0),
        Some("tier B asks for more: no turn in the focus for 7 weeks"),
    );
    assert!(lines.len() <= 5, "{} lines: {lines:#?}", lines.len());
}

#[test]
fn counts_agree_with_their_nouns() {
    let lines = digest_lines(&facts(&[], 1, 0, 1, 1), None, None, None);
    assert!(lines.iter().any(|l| l.contains("1 decision, 1 change")), "{lines:?}");
    assert!(lines.iter().any(|l| l.contains("1 question")), "{lines:?}");
}

#[test]
fn the_first_and_last_release_are_named_with_the_count() {
    let lines = digest_lines(&facts(&["v0.6.0", "v0.7.0"], 0, 0, 0, 0), None, None, None);
    assert_eq!(lines, vec!["shipped v0.6.0 — v0.7.0 (2 releases)".to_string()]);
    let lines = digest_lines(&facts(&[], 0, 0, 0, 0), None, Some(1), None);
    assert_eq!(lines, vec!["nothing this week; last touched yesterday".to_string()]);
}

fn asked(project: &str, id: i64, body: &str) -> Waiting {
    Waiting { project: project.into(), id, date: "2026-09-04".into(), body: body.into() }
}

#[test]
fn the_inbox_groups_questions_by_project_and_names_what_one_answer_settles() {
    let questions = vec![asked("a", 3, "**Two.** x"), asked("a", 14, "**Other** y"), asked("b", 1234, "**Two.** z")];
    assert_eq!(
        inbox_lines(&questions, None),
        vec![
            "3 questions in 2 projects",
            "",
            "a            [  3] 2026-09-04  Two",
            "             [ 14] 2026-09-04  Other",
            "b            [1234] 2026-09-04  Two",
            "",
            "Asked by several projects - one answer settles each group:",
            "  Two — a, b",
            "",
            "Answer one with: rigger resolve <project> <id> \"<answer>\"",
        ]
    );
    assert_eq!(
        inbox_lines(&questions, Some("a")),
        vec![
            "2 questions",
            "",
            "a            [  3] 2026-09-04  Two",
            "             [ 14] 2026-09-04  Other",
            "",
            "Answer one with: rigger resolve <project> <id> \"<answer>\"",
        ]
    );
    assert_eq!(inbox_lines(&questions, Some("zz")), vec!["zz is waiting on nothing."]);
    assert_eq!(inbox_lines(&[], None), vec!["Nothing is waiting on you."]);
}

#[test]
fn a_window_is_a_number_of_days() {
    assert_eq!(parse_days("7d"), Some(7));
    assert_eq!(parse_days(" 30 "), Some(30));
    assert_eq!(parse_days("14D"), Some(14));
    assert_eq!(parse_days("-3d"), None);
    assert_eq!(parse_days("week"), None);
}

fn report(project: &str, decisions: u32, signal: bool, line: &str) -> DigestReport {
    DigestReport { project: project.into(), facts: facts(&[], decisions, 0, 0, 0), lines: vec![line.to_string()], signal }
}

#[test]
fn the_digest_names_what_moved_and_folds_the_quiet_into_one_line() {
    let reports = vec![report("a", 1, false, "1 decision"), report("b", 0, false, "next: v0.2.0"), report("c", 0, true, "late")];
    assert_eq!(
        digest_screen(&reports, false, "2026-09-01"),
        vec!["Since 2026-09-01", "", "a", "  1 decision", "c", "  late", "", "Quiet: b"]
    );
    assert_eq!(digest_screen(&reports[1..2], true, "2026-09-01"), vec!["Since 2026-09-01", "", "b", "  next: v0.2.0"]);
    assert_eq!(
        digest_screen(&reports[1..2], false, "2026-09-01"),
        vec!["Since 2026-09-01", "", "Nothing moved.", "", "Quiet: b"]
    );
}

#[test]
fn one_answer_that_settles_three_projects_is_named_as_one() {
    let questions = vec![
        asked("alpha", 1, "Place in the release calendar"),
        asked("alpha", 2, "Sign the binaries?"),
        asked("beta", 3, "Place in the release calendar"),
        asked("gamma", 4, "Place in the release calendar"),
    ];
    let lines = inbox_lines(&questions, None);
    assert_eq!(lines[0], "4 questions in 3 projects");
    assert_eq!(lines[2], "alpha        [  1] 2026-09-04  Place in the release calendar");
    assert_eq!(lines[3], "             [  2] 2026-09-04  Sign the binaries?");
    assert_eq!(lines[4], "beta         [  3] 2026-09-04  Place in the release calendar");
    assert!(lines.contains(&"  Place in the release calendar — alpha, beta, gamma".to_string()), "{lines:?}");
}
