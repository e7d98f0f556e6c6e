use rigger::calendar::Week;
use rigger::ics::{escape, fold, render, render_at, stamp, uid_part, Focus, Release};

fn week(text: &str) -> Week {
    Week::parse(text).unwrap()
}

fn chars(text: &str) -> Vec<char> {
    text.chars().collect()
}

fn string(v: Vec<char>) -> String {
    v.into_iter().collect()
}

#[test]
fn a_release_is_a_whole_day_on_its_friday() {
    let file = render(
        &[Release {
            project: "widget".into(),
            version: "v0.2.0".into(),
            title: Some("Second".into()),
            week: week("2026-W39"),
        }],
        &[],
        "20260922T100000Z",
        "0.1.0",
    );
    assert!(file.starts_with("BEGIN:VCALENDAR\r\n"), "{file}");
    assert!(file.ends_with("END:VCALENDAR\r\n"), "{file}");
    assert!(file.contains("UID:release-widget-v0.2.0@rigger\r\n"), "{file}");
    assert!(file.contains("DTSTART;VALUE=DATE:20260925\r\n"), "{file}");
    assert!(file.contains("DTEND;VALUE=DATE:20260926\r\n"), "{file}");
    assert!(file.contains("SUMMARY:widget v0.2.0 · Second\r\n"), "{file}");
    assert!(!file.replace("\r\n", "").contains('\n'), "{file}");
}

#[test]
fn a_focus_spans_the_working_week() {
    let file = render(
        &[],
        &[Focus {
            week: week("2026-W39"),
            items: vec!["widget v0.2.0".into(), "sample v0.3.0".into()],
        }],
        "20260922T100000Z",
        "0.1.0",
    );
    assert!(file.contains("UID:focus-2026-W39@rigger\r\n"), "{file}");
    assert!(file.contains("DTSTART;VALUE=DATE:20260921\r\n"), "{file}");
    assert!(file.contains("DTEND;VALUE=DATE:20260926\r\n"), "{file}");
    assert!(file.contains("SUMMARY:Focus: widget v0.2.0\\, sample v0.3.0\r\n"), "{file}");
}

#[test]
fn text_is_escaped_and_long_lines_fold_between_characters() {
    assert_eq!(string(escape(&chars("a;b,c\\d\ne"))), "a\\;b\\,c\\\\d\\ne");
    let long = format!("SUMMARY:{}", "Ритм и факты ".repeat(10));
    let folded = string(fold(&chars(&long)));
    for piece in folded.split("\r\n") {
        assert!(piece.len() <= 75, "{} octets: {piece}", piece.len());
    }
    assert_eq!(folded.replace("\r\n ", ""), long);
}

#[test]
fn a_uid_is_made_of_what_the_event_is_about() {
    assert_eq!(string(uid_part("my app/v1")), "my_app_v1");
}

#[test]
fn a_line_that_fits_is_not_folded() {
    let line = "x".repeat(75);
    assert_eq!(string(fold(&chars(&line))), line);
    let longer = "x".repeat(76);
    assert_eq!(string(fold(&chars(&longer))), format!("{}\r\n x", "x".repeat(75)));
}

#[test]
fn a_focus_with_nothing_in_it_is_just_focus_and_names_the_version() {
    let file = render(&[], &[Focus { week: week("2026-W39"), items: vec![] }], "S", "9.9.9");
    assert!(file.contains("SUMMARY:Focus\r\n"), "{file}");
    assert!(file.contains("PRODID:-//rigger//rigger 9.9.9//EN\r\n"), "{file}");
    assert!(file.contains("DESCRIPTION:The week 2026-W39 - releases on 2026-09-25\r\n"), "{file}");
    assert!(file.contains("DTSTAMP:S\r\n"), "{file}");
}

#[test]
fn the_stamp_is_the_moment_in_the_form_dtstamp_takes() {
    assert_eq!(stamp(0), "19700101T000000Z");
    assert_eq!(stamp(1_790_072_100), "20260922T101500Z");
    let focus = [Focus { week: week("2026-W39"), items: vec!["widget v0.2.0".to_string()] }];
    assert_eq!(render_at(&[], &focus, 0, "0.1.0"), render(&[], &focus, "19700101T000000Z", "0.1.0"));
}
