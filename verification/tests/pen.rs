use rigger::link::Kind;
use rigger::pen::{pen_step, read_request, CardRef, PenOutcome, PenRecord, ProjectRef, ReadArgs, ReadRequest, RecordEdit, ToolArgs};

fn project(id: i64, name: &str) -> ProjectRef {
    ProjectRef { id, name: name.to_string() }
}

fn record() -> PenRecord {
    PenRecord {
        projects: vec![project(1, "widget"), project(2, "gadget")],
        cards: vec![CardRef { id: 7, key: "ACME-1".to_string(), aliases: vec!["rtf".to_string()] }],
        desk: project(9, "desk"),
        today: "2026-09-24".to_string(),
        now: "2026-09-24T10:00:00Z".to_string(),
    }
}

fn args(project: Option<&str>, task: Option<&str>, text: Option<&str>) -> ToolArgs {
    ToolArgs {
        project: project.map(str::to_string),
        task: task.map(str::to_string),
        text: text.map(str::to_string),
        ..ToolArgs::default()
    }
}

fn refusal(o: PenOutcome) -> String {
    match o {
        PenOutcome::Refused(m) => m,
        PenOutcome::Edit(..) => panic!("expected a refusal"),
    }
}

#[test]
fn a_decision_is_written_against_its_project_with_its_principle() {
    let mut a = args(Some("widget"), None, Some("  Ship the importer.  "));
    a.principle = Some("the record is the database".to_string());
    match pen_step("record_decision", &a, &record()) {
        PenOutcome::Edit(RecordEdit::Event { project, kind, text, at, principle, asker }, reply) => {
            assert_eq!((project, kind.as_str(), text.as_str(), at.as_str()), (1, "decision", "Ship the importer.", "2026-09-24T10:00:00Z"));
            assert_eq!(principle.as_deref(), Some("the record is the database"));
            assert_eq!(asker, None);
            assert_eq!(reply, "Recorded a decision for widget, on the principle 'the record is the database'.");
        },
        _ => panic!("expected an event"),
    }
}

#[test]
fn a_card_named_by_alias_takes_the_event_under_the_desk() {
    match pen_step("set_next_step", &args(None, Some(" RTF "), Some("Wire the exporter")), &record()) {
        PenOutcome::Edit(RecordEdit::CardEvent { project, card, kind, .. }, reply) => {
            assert_eq!((project, card, kind.as_str()), (9, 7, "next"));
            assert_eq!(reply, "The next session on ACME-1 starts from this line.");
        },
        _ => panic!("expected a card event"),
    }
    match pen_step("record_finding", &args(None, Some("7"), Some("x")), &record()) {
        PenOutcome::Edit(RecordEdit::CardEvent { card, .. }, _) => assert_eq!(card, 7),
        _ => panic!("expected a card event"),
    }
}

#[test]
fn a_state_line_is_dated_today() {
    match pen_step("record_state", &args(Some("gadget"), None, Some("**Shipped** v0.2.0")), &record()) {
        PenOutcome::Edit(RecordEdit::StateLine { project, day, text }, reply) => {
            assert_eq!((project, day.as_str(), text.as_str()), (2, "2026-09-24", "**Shipped** v0.2.0"));
            assert_eq!(reply, "Added a state line for gadget; `rigger export` writes it into the README.");
        },
        _ => panic!("expected a state line"),
    }
}

#[test]
fn a_wish_from_a_neighbour_names_it_and_one_from_itself_is_refused() {
    let mut a = args(Some("widget"), None, Some("An export hook"));
    a.from = Some("gadget".to_string());
    match pen_step("wish", &a, &record()) {
        PenOutcome::Edit(RecordEdit::Event { asker, .. }, reply) => {
            assert_eq!(asker, Some(2));
            assert_eq!(reply, "Recorded a wish for widget from gadget.");
        },
        _ => panic!("expected a wish"),
    }
    a.from = Some("widget".to_string());
    assert_eq!(refusal(pen_step("wish", &a, &record())), "widget cannot be the neighbour asking itself for something");
}

#[test]
fn the_pen_refuses_what_it_cannot_write() {
    let r = record();
    assert_eq!(refusal(pen_step("record_mood", &args(Some("widget"), None, Some("x")), &r)), "rigger serves no tool named `record_mood`");
    assert_eq!(
        refusal(pen_step("record_finding", &args(None, None, Some("x")), &r)),
        "this tool needs a `project`, or a `task` to write against"
    );
    assert_eq!(
        refusal(pen_step("record_finding", &args(Some("nowhere"), None, Some("x")), &r)),
        "no project named 'nowhere'; the projects are listed by `rigger project list`"
    );
    assert_eq!(refusal(pen_step("record_finding", &args(None, Some("ACME-9"), Some("x")), &r)), "no card named 'ACME-9'; `task_find` looks one up");
    assert_eq!(refusal(pen_step("record_finding", &args(Some("widget"), None, None), &r)), "this tool needs a `text`");
    assert_eq!(
        refusal(pen_step("record_finding", &args(Some("widget"), None, Some("   ")), &r)),
        "`text` is empty; a record with nothing in it helps nobody"
    );
}

fn asked(project: Option<&str>) -> ReadArgs {
    ReadArgs { project: project.map(str::to_string), ..ReadArgs::default() }
}

#[test]
fn a_reading_tool_is_asked_of_the_project_or_card_it_names() {
    let r = record();
    assert_eq!(read_request("context", &asked(Some("gadget")), &r), Ok(ReadRequest::Context { project: 2, budget: 3000 }));
    let mut a = ReadArgs { task_text: Some("acme-1".to_string()), budget: Some(500), ..ReadArgs::default() };
    assert_eq!(read_request("task_context", &a, &r), Ok(ReadRequest::TaskContext { card: 7, budget: 500 }));
    assert_eq!(read_request("plan", &a, &r), Ok(ReadRequest::Plan { project: 9 }));
    a.task_text = None;
    assert_eq!(read_request("task_context", &a, &r), Err("this tool needs a `task`: a card's key, alias or id".to_string()));
    assert_eq!(read_request("record_pitfall", &asked(Some("widget")), &r), Ok(ReadRequest::Write));
    assert_eq!(read_request("teleport", &asked(None), &r), Err("rigger serves no tool named `teleport`".to_string()));
}

#[test]
fn a_tool_refuses_a_call_missing_what_it_needs() {
    let r = record();
    assert_eq!(read_request("resolve", &asked(Some("widget")), &r), Err("this tool needs an `id`; the packet lists them".to_string()));
    assert_eq!(read_request("close_task", &asked(Some("widget")), &r), Err("this tool needs a `task` id; `plan` lists them".to_string()));
    let mut a = asked(Some("widget"));
    a.task_id = Some(4);
    assert_eq!(
        read_request("set_task_status", &a, &r),
        Err("this tool needs a `status`: one of new, active, waiting-handoff, frozen, done".to_string())
    );
    a.slug = Some("vision".to_string());
    a.body = Some("   ".to_string());
    assert_eq!(
        read_request("doc_write", &a, &r),
        Err("the body is empty; a document is removed with `rigger doc remove`, not by emptying it".to_string())
    );
    assert_eq!(read_request("task_find", &asked(None), &r), Err("this tool needs a `query`: the task as it was handed over".to_string()));
    assert_eq!(read_request("why_principle", &asked(None), &r), Err("this tool needs a `principle`; `principles` lists them".to_string()));
    assert_eq!(read_request("resolve", &asked(Some("nowhere")), &r), Err("no project named 'nowhere'; the projects are listed by `rigger project list`".to_string()));
}

#[test]
fn a_link_takes_its_kind_by_name_and_pair_when_none_is_given() {
    let r = record();
    let mut a = ReadArgs { from: Some("kasl".to_string()), to: Some("kasl-server@v0.22.0".to_string()), ..ReadArgs::default() };
    assert_eq!(
        read_request("link", &a, &r),
        Ok(ReadRequest::Link { from: "kasl".to_string(), to: "kasl-server@v0.22.0".to_string(), kind: Kind::Pair, note: None })
    );
    a.kind = Some("cousin".to_string());
    assert_eq!(read_request("link", &a, &r), Err("a link is a pair, a consumer or a donor; 'cousin' is none of them".to_string()));
    a.to = None;
    assert_eq!(read_request("link", &a, &r), Err("this tool needs `to`: a project, or `project@version`".to_string()));
}
