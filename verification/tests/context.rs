use rigger::context::{
    build_packet, costs, estimate_tokens, fill_recent, first_sentence, render, render_dropped, shorten, summarise, Packet,
    PacketFacts, State,
};
use rigger::db::RecentEvent;

fn chars(text: &str) -> Vec<char> {
    text.chars().collect()
}

#[test]
fn a_short_body_is_left_alone() {
    assert_eq!(shorten("short enough", 600), "short enough");
}

#[test]
fn a_long_body_is_cut_at_a_word_boundary() {
    let text = "word ".repeat(200);
    let cut = shorten(&text, 50);
    assert!(cut.len() < text.len());
    assert!(cut.trim_end_matches('…').trim_end().ends_with("word"), "{cut}");
}

#[test]
fn a_summary_keeps_the_heading_and_the_first_sentence_of_the_reason() {
    let text =
        "**The record is the database.**\n\nProse cannot be filtered. And a second sentence that the packet does not need.\n\nA third paragraph entirely.";
    let summary = summarise(text);
    assert!(summary.starts_with("**The record is the database.**"), "{summary}");
    assert!(summary.contains("Prose cannot be filtered."), "{summary}");
    assert!(!summary.contains("second sentence"), "{summary}");
    assert!(summary.ends_with("chars)"), "{summary}");
}

#[test]
fn a_short_event_is_kept_whole_without_a_pointer() {
    let summary = summarise("Renamed the npm package.");
    assert_eq!(summary, "Renamed the npm package.");
}

#[test]
fn a_version_number_does_not_end_a_sentence() {
    let sentence: String = first_sentence(&chars("The rule holds since v0.3.0 for every project. And then more.")).into_iter().collect();
    assert_eq!(sentence, "The rule holds since v0.3.0 for every project.");
}

#[test]
fn tokens_are_counted_in_characters_not_bytes() {
    assert_eq!(estimate_tokens("решение"), 2);
    assert_eq!(estimate_tokens("abcd"), 1);
    assert_eq!(estimate_tokens("abcde"), 2);
}

fn packet() -> Packet {
    Packet {
        project: "widget".into(),
        state: State {
            path: "/src/widget".into(),
            remote: None,
            last_shipped: Some("v0.2.0".into()),
            last_shipped_on: Some("2026-09-01".into()),
            versions_planned: 1,
            tasks_open: 3,
            days_quiet: Some(9),
            commits_since_tag: Some(2),
            days_since_commit: Some(1),
            since_last_session: None,
            gate: Some("cargo test".into()),
        },
        current: None,
        questions: vec![],
        wishes: vec![],
        events: vec![],
        documents: vec![],
        next_step: Some("Write the tests.".into()),
        events_omitted: 0,
        events_beyond_window: 0,
        dropped: vec![],
    }
}

#[test]
fn the_state_reads_as_lines_a_person_would_write() {
    let text = render(&packet());
    assert_eq!(
        text,
        "# widget\n\n/src/widget\nLast shipped: v0.2.0 on 2026-09-01\n1 version planned, 3 tasks open\n2 commits since the last release, the last one yesterday\nQuiet for 9 days\nGate: cargo test\n\n## Next step\nWrite the tests.\n"
    );
}

fn recent(kind: &str, body: &str, from_git: bool) -> RecentEvent {
    RecentEvent {
        kind: kind.into(),
        date: "2026-09-08".into(),
        body: body.into(),
        from_git,
    }
}

#[test]
fn a_packet_never_goes_over_its_budget_and_names_what_it_left_out() {
    let mut p = packet();
    let start = estimate_tokens(&render(&p));
    let events = vec![recent("decision", "Short.", false), recent("change", &"long words ".repeat(100), false)];
    fill_recent(&mut p, events, 0, start + 40);
    assert_eq!(p.events.len(), 1);
    assert_eq!(p.events_omitted, 1);
    assert_eq!(p.dropped[0].why, "over the budget");
    let explained = render_dropped(&p);
    assert!(explained.starts_with("\n## Left out\n2026-09-08  change    "), "{explained}");
    assert!(render(&p).contains("(1 events left out by the budget; `--explain` names them)\n"));
}

#[test]
fn the_chronicle_gets_a_quarter_of_what_is_left() {
    let mut p = packet();
    let start = estimate_tokens(&render(&p)) + 17;
    let events = vec![recent("change", &"commit words ".repeat(10), true)];
    fill_recent(&mut p, events, 3, start + 100);
    assert!(p.events.is_empty());
    assert_eq!(p.dropped[0].why, "the chronicle's share of the budget is spent");
    assert_eq!(p.events_beyond_window, 3);
}

#[test]
fn a_section_that_costs_nothing_is_not_listed() {
    let p = packet();
    let names: Vec<&str> = costs(&p).iter().map(|c| c.section).collect();
    assert_eq!(names, vec!["state", "next step"]);
}

fn facts(recent: Vec<RecentEvent>) -> PacketFacts {
    let p = packet();
    PacketFacts {
        project: p.project,
        state: p.state,
        current: p.current,
        questions: p.questions,
        wishes: p.wishes,
        documents: p.documents,
        next_step: p.next_step,
        recent,
        beyond_window: 0,
    }
}

#[test]
fn a_packet_that_leaves_nothing_out_stays_within_its_budget() {
    let events = vec![recent("decision", "The budget is a gate.", false), recent("finding", "Windows paths need care.", false)];
    let built = build_packet(facts(events), 3000);
    assert_eq!(built.events.len(), 2);
    assert_eq!(built.events_omitted, 0);
    assert!(estimate_tokens(&render(&built)) <= 3000);
}

#[test]
fn a_packet_with_no_room_keeps_no_events_and_says_so() {
    let built = build_packet(facts(vec![recent("decision", "The budget is a gate.", false)]), 10);
    assert_eq!(built.events.len(), 0);
    assert_eq!(built.events_omitted, 1);
    assert!(render(&built).contains("1 events left out by the budget"));
}
