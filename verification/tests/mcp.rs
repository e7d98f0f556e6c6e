use rigger::db::{CurrentStage, Task};
use rigger::link::Kind;
use rigger::mcp::{
    check_body, check_prompt, close_reply, doc_fields, link_ends, mentioned_line, task_context_reply, why_reply, Standing, event_kind, initialize, link_reply, needed_text, no_such_tool,
    not_a_resource, parse_uri, prompt_description, record_reply, render_plan, render_principles, resolve_reply,
    resource_description, resource_name, resource_uri, route, status_reply, tools, unknown_method, written_reply, ArgKind,
    Route, Tool, INPUT_SCHEMA_TYPE, METHOD_NOT_FOUND, PROTOCOL_VERSION,
};

fn tool_named(name: &str) -> Tool {
    tools()
        .into_iter()
        .find(|t| t.name == name)
        .unwrap_or_else(|| panic!("no tool named {name}"))
}

#[test]
fn the_stage_lists_every_tool_the_plan_promised() {
    let names: Vec<String> = tools().iter().map(|t| t.name.clone()).collect();
    for promised in [
        "context",
        "plan",
        "record_decision",
        "record_finding",
        "record_pitfall",
        "record_change",
        "record_state",
        "record_plan",
        "task_find",
        "task_context",
        "set_next_step",
        "ask_owner",
        "wish",
        "resolve",
        "close_task",
        "set_task_status",
        "principles",
        "why_principle",
        "link",
        "links",
    ] {
        assert!(names.contains(&promised.to_string()), "{promised} is missing from {names:?}");
    }
}

#[test]
fn every_tool_declares_the_shape_of_its_arguments() {
    assert_eq!(INPUT_SCHEMA_TYPE, "object");
    for tool in tools() {
        for name in tool.required() {
            assert!(
                tool.args.iter().any(|a| a.name == name),
                "{} requires `{name}` without describing it",
                tool.name
            );
        }
        assert!(tool.description.len() > 30, "{} needs a description a model can act on", tool.name);
    }
}

#[test]
fn close_task_takes_an_id_because_a_title_is_not_a_name() {
    let tool = tool_named("close_task");
    let task = tool.args.iter().find(|a| a.name == "task").unwrap();
    assert_eq!(task.kind.as_str(), "integer");
    assert_eq!(tool.required(), vec!["project", "task"]);
}

#[test]
fn a_notification_is_not_answered() {
    assert_eq!(route("notifications/initialized", false), None);
    assert_eq!(route("tools/list", false), None);
}

#[test]
fn an_unknown_method_is_a_protocol_error_not_a_crash() {
    assert_eq!(route("resources/subscribe", true), Some(Route::Unknown));
    assert_eq!(METHOD_NOT_FOUND, -32601);
    assert_eq!(unknown_method("resources/subscribe"), "rigger does not serve `resources/subscribe`");
    assert_eq!(route("tools/call", true), Some(Route::CallTool));
    assert_eq!(route("initialize", true), Some(Route::Initialize));
}

#[test]
fn an_empty_record_is_refused() {
    let err = needed_text(Some("   ")).unwrap_err();
    assert!(err.contains("empty"), "{err}");
    assert_eq!(needed_text(None).unwrap_err(), "this tool needs a `text`");
    assert_eq!(needed_text(Some("  found it  ")).unwrap(), "found it");
}

#[test]
fn initialize_names_the_protocol_and_the_build() {
    let init = initialize("0.1.0");
    assert_eq!(init.protocol_version, PROTOCOL_VERSION);
    assert_eq!(init.version, "0.1.0");
    assert!(init.tools);
    assert_eq!(PROTOCOL_VERSION, "2025-06-18");
}

#[test]
fn a_resource_uri_names_its_project_back() {
    let uri = resource_uri("sample");
    assert_eq!(uri, "rigger://sample/context");
    assert_eq!(parse_uri(&uri).as_deref(), Some("sample"));
    assert_eq!(not_a_resource("https://x"), "`https://x` is not a rigger resource; they are `rigger://<project>/context`");
}

#[test]
fn each_recording_tool_writes_its_own_kind() {
    assert_eq!(event_kind("record_decision"), Some("decision"));
    assert_eq!(event_kind("set_next_step"), Some("next"));
    assert_eq!(event_kind("ask_owner"), Some("question"));
    assert_eq!(event_kind("record_plan"), Some("plan"));
    assert_eq!(event_kind("context"), None);
    assert_eq!(no_such_tool("fly"), "rigger serves no tool named `fly`");
}

#[test]
fn a_recording_tool_says_what_it_wrote_and_where() {
    assert_eq!(record_reply("state", "widget", None, None, None), "Added a state line for widget; `rigger export` writes it into the README.");
    assert_eq!(record_reply("next", "widget", Some("ACME-1"), None, None), "The next session on ACME-1 starts from this line.");
    assert_eq!(record_reply("finding", "widget", Some("ACME-1"), None, None), "Recorded a finding on ACME-1.");
    assert_eq!(record_reply("next", "widget", None, None, None), "The next session for widget starts from this line.");
    assert_eq!(record_reply("question", "widget", None, None, None), "Asked the owner; it waits in widget's packet until they answer.");
    assert_eq!(record_reply("wish", "widget", None, Some("gadget"), None), "Recorded a wish for widget from gadget.");
    assert_eq!(record_reply("wish", "widget", None, None, None), "Recorded a wish for widget.");
    assert_eq!(record_reply("decision", "widget", None, None, Some("small steps")), "Recorded a decision for widget, on the principle 'small steps'.");
    assert_eq!(record_reply("pitfall", "widget", None, None, None), "Recorded a pitfall for widget.");
}

#[test]
fn the_plan_lists_open_tasks_with_their_ids() {
    assert_eq!(render_plan("widget", &None), "widget: no stage is planned.");
    let stage = CurrentStage {
        version: "v0.2.0".to_string(),
        title: Some("Second".to_string()),
        tasks: vec![
            Task { id: 4, title: "Write the tests".to_string(), status: "new".to_string() },
            Task { id: 5, title: "Ship it".to_string(), status: "active".to_string() },
        ],
    };
    assert_eq!(render_plan("widget", &Some(stage)), "widget · v0.2.0 · Second\n- [4] Write the tests\n- [5] Ship it (active)\n");
    let done = CurrentStage { version: "v0.3.0".to_string(), title: None, tasks: vec![] };
    assert_eq!(render_plan("widget", &Some(done)), "widget · v0.3.0\nEvery task of this stage is done.\n");
}

#[test]
fn replies_name_the_task_and_what_became_of_it() {
    assert_eq!(resolve_reply(3, "question", "Which port?\nmore", true), "Answered [3]: Which port?\nThe answer is recorded as a decision.");
    assert_eq!(resolve_reply(3, "question", "Which port?", false), "Closed question [3]: Which port?");
    assert_eq!(resolve_reply(9, "wish", "A dark theme", false), "Sorted [9]: A dark theme");
    assert_eq!(status_reply(5, "active", "active", "Ship it"), "Task 5 was already active: Ship it");
    assert_eq!(status_reply(5, "frozen", "active", "Ship it"), "Task 5 is now frozen (was active): Ship it");
    assert_eq!(close_reply(5, "Ship it", true), "Task 5 was already done: Ship it");
    assert_eq!(close_reply(5, "Ship it", false), "Closed task 5: Ship it");
}

#[test]
fn a_rewrite_keeps_what_it_was_not_told_to_change() {
    let (kind, title) = doc_fields(None, None, Some(("vision", "The tool")), "vision");
    assert_eq!((kind.as_str(), title.as_str()), ("vision", "The tool"));
    let (kind, title) = doc_fields(Some("research"), None, None, "notes");
    assert_eq!((kind.as_str(), title.as_str()), ("research", "notes"));
    let (kind, _) = doc_fields(None, None, None, "notes");
    assert_eq!(kind, "other");
    assert!(check_body("  \n").is_err());
    assert!(check_body("text").is_ok());
    assert_eq!(written_reply(true, "vision", "vision", 120), "Rewrote vision (vision), 120 bytes");
    assert_eq!(written_reply(false, "notes", "research", 7), "Wrote notes (research), 7 bytes");
}

#[test]
fn principles_are_listed_with_their_counts_and_none_is_a_nudge() {
    assert!(render_principles(&vec![]).starts_with("No decision names a principle yet."));
    assert_eq!(render_principles(&vec![("small steps".to_string(), 3), ("tests first".to_string(), 1)]), "small steps (3)\ntests first (1)\n");
}

#[test]
fn a_link_reply_shows_its_arrow_and_its_anchors() {
    assert_eq!(link_reply(2, true, Kind::Pair, "kasl", Some("v1.13.0"), "rigger", None), "[2] kasl v1.13.0 <-> rigger (pair)");
    assert_eq!(link_reply(2, false, Kind::Consumer, "a", None, "b", None), "[2] already recorded: a -> b (consumer)");
    assert_eq!(ArgKind::Text.as_str(), "string");
    assert!(check_prompt("start session").is_ok());
    assert_eq!(check_prompt("x").unwrap_err(), "rigger serves no prompt named `x`");
}

#[test]
fn a_project_is_listed_as_a_resource_and_a_prompt_by_its_name() {
    assert_eq!(resource_name("widget"), "widget context");
    assert_eq!(
        resource_description("widget"),
        "Where widget stands: shipped, current stage, open questions, recent events"
    );
    assert_eq!(prompt_description("widget"), "Where widget stands, from rigger");
}

#[test]
fn a_task_context_opens_with_where_the_task_stands() {
    let r = task_context_reply("KEY-1 the card\n");
    assert!(r.starts_with("This is where the task stands, from rigger. Pick up from the next step;"));
    assert!(r.contains("leave the next line with `set_next_step`.\n\nKEY-1 the card\n"));
    assert!(r.ends_with("\n\nKEY-1 the card\n"));
}

#[test]
fn a_mention_names_the_needle_and_the_card() {
    assert_eq!(mentioned_line("4711", "ops-12", "Fix the hinge"), "mentioned 4711: ops-12 - Fix the hinge\n");
}

#[test]
fn why_a_principle_lists_each_decision_by_its_day() {
    let events = vec![
        Standing {
            at: "2025-03-01T10:00:00Z".to_string(),
            project: "hub".to_string(),
            kind: "decision".to_string(),
            body: "Keep it small".to_string(),
        },
        Standing { at: "2025-04-02".to_string(), project: "pen".to_string(), kind: "decision".to_string(), body: "Again".to_string() },
    ];
    let r = why_reply("small", &events, &vec![]).unwrap();
    assert_eq!(r, "small\n\n2025-03-01 · hub · decision\nKeep it small\n\n2025-04-02 · pen · decision\nAgain\n\n");
}

#[test]
fn why_an_unknown_principle_names_the_known_ones() {
    let known = vec!["small".to_string(), "plain".to_string()];
    assert_eq!(why_reply("tiny", &vec![], &known).unwrap_err(), "nothing stands on 'tiny'; the record knows small, plain");
    assert_eq!(why_reply("tiny", &vec![], &vec![]).unwrap_err(), "nothing stands on 'tiny'; the record knows ");
}

#[test]
fn a_link_from_a_project_to_itself_is_refused() {
    assert_eq!(link_ends(3, 3, "hub").unwrap_err(), "a link joins two projects; hub is one");
    assert!(link_ends(3, 4, "hub").is_ok());
}
