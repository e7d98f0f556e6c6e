use rigger::activity::{days_from, days_since, names, needles};
use rigger::card::Card;
use rigger::kasl::{asleep, complaint, day, task_name, ticket_of, Told};
use rigger::line::{check_accent, check_code, check_form, check_public, Product, Registry};
use rigger::mcp::parse_uri;
use rigger::open::{assistant_from, check_dir, first_message};
use rigger::paint::red;
use rigger::profile::Kind;

fn card(key: &str, aliases: &[&str]) -> Card {
    Card {
        id: 1,
        key: key.to_string(),
        title: String::new(),
        status: "new".to_string(),
        aliases: aliases.iter().map(|a| a.to_string()).collect(),
        summary: None,
        created_at: String::new(),
        updated_at: None,
    }
}

#[test]
fn a_name_is_found_as_a_whole_word_in_any_case() {
    assert!(names("fix/ACME-7310-rtf", "ACME-7310"));
    assert!(names("fix(acme-7310): read rtf", "ACME-7310"));
    assert!(names("ACME-7310", "ACME-7310"));
    assert!(names("see ACME-7310.", "ACME-7310"));
    assert!(!names("fix/ACME-73100-rtf", "ACME-7310"));
    assert!(!names("fix/XACME-7310", "ACME-7310"));
    assert!(!names("fix/ACME-73", "ACME-7310"));
    assert!(names("ACME-73100 then ACME-7310", "ACME-7310"));
    assert!(names("local-20260908-1-filter", "LOCAL-20260908-1"));
    assert!(!names("local-20260908-12", "LOCAL-20260908-1"));
    assert!(names("ёж ACME-7310 ёж", "ACME-7310"));
    assert!(!names("anything", ""));
}

#[test]
fn an_alias_is_a_needle_only_when_it_is_an_id() {
    let c = card("ACME-7310", &["ops-512", "rtf export", "rtf", "LOCAL-20260908-1"]);
    assert_eq!(needles(&c), vec!["ACME-7310", "OPS-512", "LOCAL-20260908-1"]);
}

#[test]
fn a_session_is_named_by_its_stage() {
    assert_eq!(task_name("widget", Some(("v0.2.0", Some("Second")))), "widget v0.2.0 · Second");
    assert_eq!(task_name("widget", Some(("v0.2.0", None))), "widget v0.2.0");
    assert_eq!(task_name("widget", None), "widget");
}

#[test]
fn kasl_is_read_by_its_first_words() {
    assert_eq!(day("2026-09-24T10:00:00"), "2026-09-24");
    assert_eq!(day("2026-09-24 10:00:00"), "2026-09-24");
    assert_eq!(complaint("\n  error: unknown command focus\nmore"), Told::Refused("unknown command focus".into()));
    assert_eq!(complaint("   \n"), Told::Refused("kasl said no".into()));
}

fn product(name: &str) -> Product {
    Product {
        name: name.into(),
        about: Some("A sample product".into()),
        mark: Some("sa".into()),
        accent: Some("#3FA873".into()),
        accent2: None,
        form: Some("cli".into()),
        repository: Some("https://github.com/example/sample.git".into()),
        docs: Some("https://example.github.io/sample/".into()),
    }
}

fn registry(products: Vec<Product>) -> Registry {
    Registry {
        generator: "rigger",
        version: "0.0.0",
        products,
    }
}

fn rendered(r: &Registry) -> String {
    let rows: Vec<(String, Option<String>, Option<String>, Option<String>)> = r
        .products
        .iter()
        .map(|p| (p.name.clone(), p.about.clone(), p.repository.clone(), p.docs.clone()))
        .collect();
    serde_json::to_string(&rows).unwrap()
}

#[test]
fn a_public_registry_passes() {
    let r = registry(vec![product("sample")]);
    check_public(&r, &rendered(&r)).unwrap();
}

#[test]
fn a_path_on_a_machine_is_refused_however_it_got_in() {
    let mut p = product("sample");
    p.about = Some("the one in C:\\Projects\\sample".into());
    let r = registry(vec![p]);
    let err = check_public(&r, &rendered(&r)).unwrap_err().message();
    assert!(err.contains("path on a machine"), "{err}");

    let mut p = product("sample");
    p.about = Some("kept under /home/someone/work".into());
    let r = registry(vec![p]);
    assert!(check_public(&r, &rendered(&r)).is_err());
}

#[test]
fn a_repository_that_is_not_an_address_is_refused() {
    let mut p = product("sample");
    p.repository = Some("../sample".into());
    let r = registry(vec![p]);
    let err = check_public(&r, &rendered(&r)).unwrap_err().message();
    assert!(err.contains("public repository"), "{err}");
}

#[test]
fn the_shapes_of_a_mark_are_checked_rather_than_trusted() {
    check_code("rr").unwrap();
    assert!(check_code("RR").is_err(), "a code is lowercase");
    assert!(check_code("rrr").is_err(), "a code is two letters");

    check_accent("#8A62F0").unwrap();
    assert!(check_accent("8A62F0").is_err(), "a colour carries its hash");
    assert!(check_accent("#8A62F").is_err(), "six digits, not five");
    assert!(check_accent("#8A62FZ").is_err(), "hex digits only");

    check_form("cli").unwrap();
    let err = check_form("app").unwrap_err().message();
    assert!(err.contains("desktop"), "the error names what there is: {err}");
}

#[test]
fn a_resource_uri_names_a_project() {
    assert_eq!(parse_uri("rigger://sample/context").as_deref(), Some("sample"));
    assert_eq!(parse_uri("rigger:///context"), None);
    assert_eq!(parse_uri("https://example.com/context"), None);
    assert_eq!(parse_uri("rigger://sample"), None);
}

#[test]
fn the_default_assistant_is_claude() {
    assert_eq!(assistant_from(None, "assistant"), ("assistant".to_string(), vec![]));
}

#[test]
fn flags_travel_with_the_command() {
    let (program, args) = assistant_from(Some("assistant --model opus"), "other");
    assert_eq!(program, "assistant");
    assert_eq!(args, vec!["--model", "opus"]);
    assert_eq!(assistant_from(Some("   "), "other"), ("other".to_string(), vec![]));
}

#[test]
fn the_first_message_tells_the_assistant_what_the_packet_is() {
    let message = first_message("# proj\n");
    assert!(message.contains("rigger note"), "{message}");
    assert!(message.ends_with("# proj\n"), "the packet must come last: {message}");
}

#[test]
fn a_missing_directory_is_reported_as_such() {
    let err = check_dir("no/such/place", false).unwrap_err().message();
    assert!(err.contains("moved or was removed"), "{err}");
    assert!(check_dir("here", true).is_ok());
}

#[test]
fn red_is_only_for_a_person_reading() {
    assert_eq!(red("late", true), "\x1b[31mlate\x1b[0m");
    assert_eq!(red("late", false), "late");
    assert_eq!(Kind::Tickets.as_str(), "tickets");
}

fn moment(seconds: i64) -> String {
    jiff::Timestamp::from_second(seconds).map(|t| t.to_string()).unwrap_or_default()
}

#[test]
fn days_are_whole_and_never_negative() {
    assert_eq!(days_since(&jiff::Timestamp::now().to_string()), Some(0));
    let three = jiff::Timestamp::now().as_second() - 3 * 86_400 - 60;
    assert_eq!(days_since(&moment(three)), Some(3));
    let ahead = jiff::Timestamp::now().as_second() + 5 * 86_400;
    assert_eq!(days_since(&moment(ahead)), Some(0));
    assert_eq!(days_since("not a moment"), None);
}

#[test]
fn whole_days_are_counted_down_and_a_future_moment_is_none() {
    assert_eq!(days_from(0, 86_399), 0);
    assert_eq!(days_from(0, 86_400), 1);
    assert_eq!(days_from(1_000, 1_000 + 10 * 86_400 + 5), 10);
    assert_eq!(days_from(5_000, 0), 0);
}

#[test]
fn a_snooze_is_sleep_only_until_its_moment() {
    assert!(!asleep(Some("2001-01-01 09:00:00"), "2026-09-24T10:00:00"));
    assert!(asleep(Some("2999-01-01T09:00:00"), "2026-09-24T10:00:00"));
    assert!(asleep(Some("2026-09-24 10:00:01"), "2026-09-24T10:00:00"));
    assert!(!asleep(None, "2026-09-24T10:00:00"));
}

#[test]
fn a_snooze_in_the_past_is_not_sleep() {
    let now = jiff::Zoned::now().datetime().to_string();
    assert!(!asleep(Some("2001-01-01 09:00:00"), &now));
    assert!(asleep(Some("2999-01-01T09:00:00"), &now));
}

#[test]
fn a_ticket_is_found_by_key_or_alias_whatever_its_case() {
    let keys = vec!["ACME-7".to_string(), "acme-1".to_string(), "ACME-1".to_string()];
    assert_eq!(ticket_of(&card("ACME-1", &[]), &keys), Some(1));
    assert_eq!(ticket_of(&card("ACME-9", &["Acme-7"]), &keys), Some(0));
    assert_eq!(ticket_of(&card("ACME-9", &["rtf"]), &keys), None);
    assert_eq!(ticket_of(&card("ACME-1", &[]), &Vec::new()), None);
}

#[test]
fn the_registry_lists_projects_with_a_repository_by_name() {
    let r = rigger::line::registry(vec![(product("zeta"), true), (product("desk"), false), (product("alpha"), true)], "0.1.0");
    assert_eq!(r.generator, "rigger");
    let names: Vec<&str> = r.products.iter().map(|p| p.name.as_str()).collect();
    assert_eq!(names, vec!["alpha", "zeta"]);
}
