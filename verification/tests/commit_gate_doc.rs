use rigger::commit::{parse, Conventional};
use rigger::doc::{check_kind, is_singular, listing, next_slug, pick_editor, template, Listed};
use rigger::gate::{body_is_green, duration, Run};

fn parsed(message: &str) -> Conventional {
    parse(message).unwrap_or_else(|| panic!("did not parse: {message:?}"))
}

#[test]
fn a_type_and_a_summary_are_enough() {
    let c = parsed("feat: read tags and commits into facts");
    assert_eq!(c.kind, "feat");
    assert_eq!(c.scope, None);
    assert!(!c.breaking);
    assert_eq!(c.summary, "read tags and commits into facts");
}

#[test]
fn a_scope_travels_with_the_type() {
    let c = parsed("feat(open): start a session with the packet ready");
    assert_eq!(c.kind, "feat");
    assert_eq!(c.scope.as_deref(), Some("open"));
    assert_eq!(c.body(), "feat(open): start a session with the packet ready");
}

#[test]
fn a_break_is_marked_either_way() {
    assert!(parsed("feat!: drop the old flag").breaking);
    assert!(parsed("feat(cli)!: drop the old flag").breaking);
    assert!(parsed("feat: drop the old flag\n\nBREAKING CHANGE: the flag is gone").breaking);
    assert!(!parsed("feat: keep the old flag").breaking);
}

#[test]
fn only_changes_to_the_product_are_recorded() {
    assert!(parsed("feat: a new thing").is_a_change());
    assert!(parsed("fix: a broken thing").is_a_change());
    for noise in [
        "chore(release): v0.6.0",
        "docs: changelog for v0.6.0",
        "test: read past the byte-order mark",
        "ci: publish to the registries on the tag",
        "refactor: rename a private function",
        "style: reformat",
    ] {
        assert!(!parsed(noise).is_a_change(), "{noise} is not a change to the product");
    }
}

#[test]
fn a_breaking_commit_is_recorded_whatever_its_type() {
    let c = parsed("refactor!: remove the deprecated flag");
    assert!(c.is_a_change());
    assert!(c.body().starts_with("breaking: "), "{}", c.body());
}

#[test]
fn a_message_that_does_not_follow_the_convention_is_not_a_fact() {
    assert_eq!(parse("Initial commit"), None);
    assert_eq!(parse("Merge branch 'main' into feature"), None);
    assert_eq!(parse("feat:no space after the colon"), None);
    assert_eq!(parse("feat: "), None);
    assert_eq!(parse(""), None);
    assert_eq!(parse("update the readme: it was stale"), None);
    assert_eq!(parse("v1.2: release"), None);
}

#[test]
fn an_unclosed_scope_is_not_a_fact() {
    assert_eq!(parse("feat(open: start a session"), None);
    assert_eq!(parse("feat(): start a session"), None);
}

#[test]
fn the_type_is_read_case_insensitively() {
    assert_eq!(parsed("Fix: a broken thing").kind, "fix");
}

#[test]
fn a_green_run_reads_back_as_green_and_a_red_one_does_not() {
    let green = Run { code: Some(0), seconds: 12 }.event_body("cargo test");
    assert!(body_is_green(&green), "{green}");
    assert!(green.contains("cargo test"), "the command is in the line: {green}");
    let red = Run { code: Some(101), seconds: 3 }.event_body("cargo test");
    assert!(!body_is_green(&red), "{red}");
    assert!(red.contains("101"), "what it exited with is in the line: {red}");
}

#[test]
fn a_run_that_never_finished_is_red() {
    let stopped = Run { code: None, seconds: 8 };
    assert!(!stopped.passed());
    assert!(!body_is_green(&stopped.event_body("cargo test")));
}

#[test]
fn a_duration_is_said_the_way_a_person_would() {
    assert_eq!(duration(0), "under a second");
    assert_eq!(duration(1), "1 second");
    assert_eq!(duration(45), "45 seconds");
    assert_eq!(duration(60), "1 minute");
    assert_eq!(duration(90), "1 minute 30s");
    assert_eq!(duration(125), "2 minutes 5s");
    assert_eq!(duration(180), "3 minutes");
}

#[test]
fn a_green_line_says_the_time_and_the_command() {
    assert_eq!(Run { code: Some(0), seconds: 12 }.event_body("make"), "green in 12 seconds: make");
    assert_eq!(Run { code: Some(-1), seconds: 0 }.event_body("x"), "red (exit -1) in under a second: x");
}

#[test]
fn the_owners_choice_wins_over_everything() {
    assert!(is_singular("vision"));
    assert!(is_singular("rituals"));
    assert!(!is_singular("research"), "a project has many research notes");
    let vars = vec![Some("  code --wait ".to_string()), Some("vim".to_string()), None];
    let e = pick_editor(&vars, true, "vi");
    assert_eq!(e.program, "code");
    assert_eq!(e.args, vec!["--wait".to_string()]);
    assert_eq!(e.source, "RIGGER_EDITOR");
    let e = pick_editor(&vec![Some("  ".to_string()), None, Some("nano".to_string())], true, "vi");
    assert_eq!(e.program, "nano");
    assert_eq!(e.source, "the environment");
    let e = pick_editor(&vec![None, None, None], true, "vi");
    assert_eq!(e.program, "scheda");
    assert_eq!(e.args, vec!["--wait".to_string()]);
    let e = pick_editor(&vec![None, None, None], false, "vi");
    assert_eq!(e.program, "vi");
    assert!(e.args.is_empty());
}

#[test]
fn a_new_document_starts_from_the_lines_own_questions() {
    let vision = template("vision", "Vision of rigger");
    assert!(vision.starts_with("# Vision of rigger\n"));
    assert!(vision.contains("## Why"));
    assert!(vision.contains("## What success looks like"));
    assert_eq!(template("other", "Notes"), "# Notes\n");
    assert_eq!(template("decisions", "D"), "# D\n\n## How this journal is kept\n\n\n");
}

#[test]
fn a_kind_outside_the_vocabulary_is_refused_with_the_list() {
    let e = check_kind("plan").unwrap_err().message();
    assert!(e.contains("vision"), "the error must name what rigger knows: {e}");
    assert!(check_kind("research").is_ok());
}

fn listed(slug: &str, kind: &str, days: Option<i64>, title: &str) -> Listed {
    Listed { slug: slug.to_string(), kind: kind.to_string(), days, title: title.to_string() }
}

#[test]
fn a_listing_lines_its_columns_up_and_says_how_old_each_is() {
    let docs = vec![
        listed("vision", "vision", Some(0), "The tool"),
        listed("2026-09-04-a-long-address", "research", Some(12), "\n  Findings  \nmore"),
        listed("rituals", "rituals", None, "Rituals"),
    ];
    assert_eq!(
        listing("widget", &docs),
        vec![
            "3 documents:",
            "  vision                    vision     today        The tool",
            "  2026-09-04-a-long-address research   12 days ago  Findings",
            "  rituals                   rituals    unknown      Rituals",
        ]
    );
    assert_eq!(
        listing("widget", &[]),
        vec!["widget has no documents yet.", "Write one with: rigger doc add widget \"Vision\" --kind vision"]
    );
}

fn owned(slugs: &[&str]) -> Vec<String> {
    slugs.iter().map(|s| s.to_string()).collect()
}

#[test]
fn an_untitled_document_takes_its_kind_while_it_is_free() {
    assert_eq!(next_slug("research", &owned(&[])), "research");
    assert_eq!(next_slug("research", &owned(&["vision", "research-2"])), "research");
}

#[test]
fn a_taken_kind_gets_the_first_free_number_from_two() {
    assert_eq!(next_slug("research", &owned(&["research"])), "research-2");
    assert_eq!(next_slug("research", &owned(&["research", "research-2", "research-4"])), "research-3");
    assert_eq!(next_slug("note", &owned(&["note-3", "note", "note-2"])), "note-4");
}

#[test]
fn a_commits_event_text_reads_back_as_the_commit() {
    for c in [
        Conventional { kind: "feat".to_string(), scope: Some("open".to_string()), breaking: false, summary: "start a session".to_string() },
        Conventional { kind: "fix".to_string(), scope: None, breaking: false, summary: "keep the budget: a gate".to_string() },
    ] {
        let back = parse(&c.body());
        assert_eq!(back, Some(c));
    }
}
