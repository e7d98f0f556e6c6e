use rigger::calendar::{cell_text, grid, lapsed, late_lines, row, span, weeks_late, Cell, Day, Planned, Row, Standing, Tier, Week};

fn day(text: &str) -> Day {
    let parts: Vec<&str> = text.split('-').collect();
    Day {
        year: parts[0].parse().unwrap(),
        month: parts[1].parse().unwrap(),
        day: parts[2].parse().unwrap(),
    }
}

fn week(text: &str) -> Week {
    Week::parse(text).unwrap()
}

#[test]
fn a_week_is_written_and_read_the_same_way() {
    let week = Week::parse("2026-W37").unwrap();
    assert_eq!(week.to_text(), "2026-W37");
    assert_eq!(week, Week { year: 2026, week: 37 });
}

#[test]
fn a_single_digit_week_is_accepted_and_padded() {
    assert_eq!(Week::parse("2026-W7").unwrap().to_text(), "2026-W07");
}

#[test]
fn nonsense_is_refused_rather_than_stored() {
    for text in ["", "2026", "2026-37", "W37", "2026-Wxx", "2026-W99", "2026-W0"] {
        assert!(Week::parse(text).is_err(), "{text:?} should not parse");
    }
}

#[test]
fn the_turn_of_the_year_follows_iso_not_the_calendar_year() {
    assert_eq!(Week::of(day("2027-01-01")).to_text(), "2026-W53");
    assert_eq!(Week::of(day("2025-12-29")).to_text(), "2026-W01");
}

#[test]
fn a_week_knows_its_monday_and_its_friday() {
    let week = Week::parse("2026-W37").unwrap();
    assert_eq!(week.monday().to_text(), "2026-09-07");
    assert_eq!(week.friday().to_text(), "2026-09-11");
    assert_eq!(Week::of(week.monday()), week);
    assert_eq!(Week::of(week.friday()), week);
}

#[test]
fn adding_weeks_crosses_the_year_without_losing_one() {
    let week = Week::parse("2026-W52").unwrap();
    assert_eq!(week.plus(1).to_text(), "2026-W53");
    assert_eq!(week.plus(2).to_text(), "2027-W01");
    assert_eq!(week.plus(2).plus(-2), week);
}

#[test]
fn distance_between_weeks_is_signed() {
    let from = Week::parse("2026-W37").unwrap();
    assert_eq!(from.until(Week::parse("2026-W40").unwrap()), 3);
    assert_eq!(from.until(from), 0);
    assert_eq!(from.until(Week::parse("2026-W35").unwrap()), -2);
    assert_eq!(Week::parse("2026-W52").unwrap().until(Week::parse("2027-W01").unwrap()), 2);
}

#[test]
fn a_recorded_date_is_read_with_or_without_a_time() {
    assert_eq!(Week::of_recorded("2026-09-11").unwrap().to_text(), "2026-W37");
    assert_eq!(Week::of_recorded("2026-09-11T14:22:03Z").unwrap().to_text(), "2026-W37");
    assert!(Week::of_recorded("not a date").is_none());
}

#[test]
fn a_tier_is_read_case_insensitively_and_carries_a_default_rhythm() {
    assert_eq!(Tier::parse("a").unwrap(), Tier::A);
    assert_eq!(Tier::parse("OUT").unwrap(), Tier::Out);
    assert!(Tier::parse("D").is_err());
    assert_eq!(Tier::A.default_rhythm(), Some(2));
    assert_eq!(Tier::Out.default_rhythm(), None);
}

fn planned(version: &str, planned: Option<&str>, shipped: Option<&str>) -> Planned {
    Planned {
        project: "alpha".to_string(),
        version: version.to_string(),
        title: None,
        planned: planned.map(|w| Week::parse(w).unwrap()),
        shipped: shipped.map(|d| Week::of(day(d))),
        shipped_at: shipped.map(String::from),
    }
}

#[test]
fn slip_is_the_difference_between_the_plan_and_the_tag() {
    assert_eq!(planned("v1", Some("2026-W37"), Some("2026-09-18")).slip(), Some(1));
    assert_eq!(planned("v1", Some("2026-W37"), Some("2026-09-11")).slip(), Some(0));
    assert_eq!(planned("v1", Some("2026-W38"), Some("2026-09-11")).slip(), Some(-1));
    assert_eq!(planned("v1", None, Some("2026-09-11")).slip(), None);
    assert_eq!(planned("v1", Some("2026-W37"), None).slip(), None);
}

#[test]
fn overdue_starts_after_the_planned_week_has_passed() {
    let now = Week::parse("2026-W38").unwrap();
    assert_eq!(planned("v1", Some("2026-W38"), None).overdue(now), None);
    assert_eq!(planned("v1", Some("2026-W37"), None).overdue(now), Some(1));
    assert_eq!(planned("v1", Some("2026-W39"), None).overdue(now), None);
    assert_eq!(planned("v1", Some("2026-W30"), Some("2026-09-11")).overdue(now), None);
}

#[test]
fn a_shipped_version_sits_in_the_week_its_tag_is_in() {
    let now = Week::parse("2026-W40").unwrap();
    let from = Week::parse("2026-W37").unwrap();
    let versions = vec![
        planned("v0.1.0", Some("2026-W37"), Some("2026-09-11")),
        planned("v0.2.0", Some("2026-W38"), Some("2026-09-25")),
        planned("v0.3.0", Some("2026-W39"), None),
        planned("v0.4.0", Some("2026-W41"), None),
        planned("v0.0.1", None, Some("2026-09-18")),
    ];
    let row = row("alpha", Some(Tier::B), Some(4), &versions, from, 4, now);
    let marks: Vec<(String, &str, char)> = row.cells.iter().map(|c| (c.week.to_text(), c.version.as_str(), c.standing.mark())).collect();
    assert_eq!(
        marks,
        vec![
            ("2026-W37".to_string(), "v0.1.0", '+'),
            ("2026-W38".to_string(), "v0.0.1", '*'),
            ("2026-W39".to_string(), "v0.2.0", '>'),
            ("2026-W39".to_string(), "v0.3.0", '!'),
        ]
    );
    assert!(!row.cells.iter().any(|c| c.version == "v0.4.0"));
}

#[test]
fn a_lapsed_rhythm_is_measured_against_the_tier() {
    let now = Week::parse("2026-W40").unwrap();
    let week = |text: &str| Some(Week::parse(text).unwrap());
    let lapsed = lapsed(
        &[
            ("alpha".to_string(), Tier::A, 2, week("2026-W37")),
            ("beta".to_string(), Tier::B, 4, week("2026-W39")),
            ("gamma".to_string(), Tier::C, 6, week("2026-W32")),
            ("delta".to_string(), Tier::B, 4, None),
        ],
        now,
    );
    let names: Vec<&str> = lapsed.iter().map(|o| o.project.as_str()).collect();
    assert_eq!(names, vec!["gamma", "alpha", "delta"]);
    assert_eq!(lapsed[0].weeks, 8);
}

#[test]
fn a_tier_name_reads_back_as_the_tier() {
    for tier in [Tier::A, Tier::B, Tier::C, Tier::Out] {
        assert_eq!(Tier::parse(tier.as_str()).unwrap(), tier);
    }
    assert_eq!(Tier::parse("  none ").unwrap(), Tier::Out);
}

#[test]
fn a_week_the_year_does_not_have_names_the_year() {
    match Week::parse("2025-W53") {
        Err(rigger::calendar::WeekError::NotInYear(text, year)) => {
            assert_eq!(text, "2025-W53");
            assert_eq!(year, 2025);
        }
        other => panic!("{other:?}"),
    }
    assert!(matches!(Week::parse("2026-w5"), Ok(Week { year: 2026, week: 5 })));
}

#[test]
fn a_day_is_written_with_its_zeros() {
    assert_eq!(Day { year: 7, month: 3, day: 4 }.to_text(), "0007-03-04");
    assert_eq!(Day { year: -44, month: 3, day: 15 }.to_text(), "-000044-03-15");
}

fn cell(w: &str, version: &str, standing: Standing) -> Cell {
    Cell { week: week(w), version: version.to_string(), standing }
}

#[test]
fn a_busy_week_is_counted_under_its_worst_mark() {
    let r = Row {
        project: "widget".to_string(),
        tier: None,
        rhythm_weeks: None,
        cells: vec![
            cell("2026-W37", "v1", Standing::Shipped),
            cell("2026-W37", "v2", Standing::Slipped),
            cell("2026-W38", "v9", Standing::Planned),
            cell("2026-W37", "v3", Standing::Shipped),
        ],
    };
    assert_eq!(cell_text(&r, week("2026-W37")), ">v1..v3 (3)");
    assert_eq!(cell_text(&r, week("2026-W38")), "·v9");
    assert_eq!(cell_text(&r, week("2026-W39")), "");
}

#[test]
fn lateness_is_said_in_weeks() {
    assert_eq!(weeks_late(1), "a week late");
    assert_eq!(weeks_late(2), "2 weeks late");
    assert_eq!(weeks_late(-1), "1 week early");
    assert_eq!(weeks_late(-3), "3 weeks early");
}

#[test]
fn the_grid_lines_up_its_columns_and_marks_this_week() {
    let rows = vec![Row {
        project: "widget".to_string(),
        tier: Some(Tier::A),
        rhythm_weeks: None,
        cells: vec![cell("2026-W37", "v0.1.0", Standing::Shipped), cell("2026-W38", "v0.2.0", Standing::Slipped)],
    }];
    let weeks = span(week("2026-W37"), 2);
    assert_eq!(weeks, vec![week("2026-W37"), week("2026-W38")]);
    let lines = grid(&rows, &weeks, week("2026-W38"));
    assert_eq!(
        lines,
        vec![
            "         2026-W37  2026-W38*".to_string(),
            "widget   +v0.1.0   >v0.2.0     A".to_string(),
            String::new(),
            "+ shipped as planned   > slipped   ! overdue   * unplanned   · planned".to_string(),
        ]
    );
    let all = vec![(
        "widget".to_string(),
        vec![Planned {
            project: "widget".to_string(),
            version: "v0.2.0".to_string(),
            title: None,
            planned: Some(week("2026-W37")),
            shipped: Some(week("2026-W38")),
            shipped_at: None,
        }],
    )];
    assert_eq!(late_lines(&rows, &all, week("2026-W38")), vec!["widget   v0.2.0 — aimed at 2026-W37, a week late".to_string()]);
}

#[test]
fn a_span_crosses_into_the_next_year() {
    assert_eq!(span(week("2026-W53"), 2), vec![week("2026-W53"), week("2027-W01")]);
}

#[test]
fn the_current_week_is_a_week_of_the_calendar() {
    let w = rigger::calendar::Week::current();
    assert!((1..=53).contains(&w.week));
    assert!(w.year >= 2024);
}
