use rigger::db::{backup_state, heading_sans_date, is_open_status, slugify, today, version_order, Kind};

#[test]
fn ten_sorts_above_nine() {
    assert!(version_order("v0.10.0") > version_order("v0.9.0"));
    assert!(version_order("v0.20.1") > version_order("v0.19.0"));
}

#[test]
fn a_two_part_number_is_a_version_too() {
    assert_eq!(version_order("v1.9"), (1, 9, 0));
    assert!(version_order("v1.10") > version_order("v1.9"));
}

#[test]
fn a_suffix_after_the_digits_is_ignored() {
    assert_eq!(version_order("v0.19.0+"), (0, 19, 0));
}

#[test]
fn an_unparseable_name_sorts_lowest_rather_than_panicking() {
    assert_eq!(version_order("draft"), (0, 0, 0));
}

#[test]
fn a_title_becomes_an_address_that_can_be_typed() {
    assert_eq!(slugify("Vision"), "vision");
    assert_eq!(slugify("2026-09-04 - The tool for projects"), "2026-09-04-the-tool-for-projects");
    assert_eq!(slugify("What   now?!"), "what-now");
    assert_eq!(slugify("Видение"), "");
    assert_eq!(slugify("2026-09-04 — Инструмент"), "2026-09-04");
}

#[test]
fn a_number_too_big_for_a_part_counts_as_zero() {
    assert_eq!(version_order("V4294967296.2.3"), (0, 2, 3));
    assert_eq!(version_order("vv4294967295.1"), (4294967295, 1, 0));
}

#[test]
fn done_and_dropped_are_the_statuses_that_are_not_work() {
    assert!(is_open_status("new"));
    assert!(is_open_status("waiting-handoff"));
    assert!(!is_open_status("done"));
    assert!(!is_open_status("dropped"));
}

#[test]
fn only_a_repository_reads_git() {
    assert!(Kind::Repo.reads_git());
    assert!(!Kind::Service.reads_git());
    assert_eq!(Kind::Service.as_str(), "service");
}

#[test]
fn today_is_the_day_of_a_timestamp() {
    assert_eq!(today("2026-09-08T10:15:00Z"), "2026-09-08");
}

#[test]
fn a_heading_loses_its_date_and_the_mark_after_it() {
    assert_eq!(heading_sans_date(Some("  2026-09-08 — The line moved  ")), "The line moved");
    assert_eq!(heading_sans_date(Some("12.5 — not a date")), "12.5 — not a date");
    assert_eq!(heading_sans_date(None), "");
}

#[test]
fn a_slug_is_its_own_slug_and_can_be_typed() {
    for title in ["What   now?!", "2026-09-04 — Инструмент", "--Mixed_Case--Title--", "Видение", "a"] {
        let once = slugify(title);
        assert_eq!(slugify(&once), once);
        assert!(!once.starts_with('-') && !once.ends_with('-') && !once.contains("--"), "{once}");
        assert!(once.chars().all(|c| c.is_ascii_lowercase() || c.is_ascii_digit() || c == '-'), "{once}");
    }
}

#[test]
fn the_newest_copy_is_fresh_stale_or_old() {
    assert_eq!(backup_state(None), "none");
    assert_eq!(backup_state(Some(0)), "fresh");
    assert_eq!(backup_state(Some(1)), "stale");
    assert_eq!(backup_state(Some(6)), "stale");
    assert_eq!(backup_state(Some(7)), "old");
}
