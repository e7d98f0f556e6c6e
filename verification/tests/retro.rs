use rigger::calendar::{Tier, Week};
use rigger::retro::{retro_from, retro_lines, retro_weeks, LookedBack, Misfit, MissedItem, RetroError, ShippedItem, Standing};

fn week(n: i8) -> Week {
    Week { year: 2026, week: n }
}

fn empty() -> LookedBack {
    LookedBack {
        from: week(35),
        to: week(38),
        weeks: 4,
        shipped: vec![],
        on_time: 0,
        slipped: 0,
        unplanned: 0,
        planned_share: None,
        missed: vec![],
        standings: vec![],
        stalled: vec![],
        outgrown: vec![],
    }
}

fn shipped(version: &str, slip: Option<i64>) -> ShippedItem {
    ShippedItem {
        project: "widget".to_string(),
        version: version.to_string(),
        week: week(37),
        planned: slip.map(|s| week((37 - s) as i8)),
        slip,
    }
}

#[test]
fn the_window_is_four_weeks_a_cycle_or_what_was_asked() {
    assert_eq!(retro_weeks(false, None, 7), Ok(4));
    assert_eq!(retro_weeks(true, Some(2), 7), Ok(7));
    assert_eq!(retro_weeks(false, Some(2), 7), Ok(2));
    assert_eq!(retro_weeks(false, Some(0), 7), Err(RetroError::NoWeeks));
    assert_eq!(RetroError::NoWeeks.message(), "a retro of 0 weeks looks back at nothing; ask for at least one");
    assert_eq!(retro_from(week(38), 4), week(35));
}

#[test]
fn an_empty_window_says_so_and_keeps_nothing() {
    assert_eq!(
        retro_lines(&empty(), false),
        vec!["2026-W35 to 2026-W38 — 4 weeks", "", "Nothing shipped and nothing was aimed at these weeks."]
    );
    assert_eq!(
        retro_lines(&empty(), true),
        vec!["2026-W35 to 2026-W38 — 4 weeks", "", "Nothing shipped and nothing was aimed at these weeks.", "", "Nothing to keep."]
    );
}

#[test]
fn the_report_counts_lists_slips_worst_first_and_names_misfits() {
    let mut l = empty();
    l.shipped = vec![shipped("v0.1.0", Some(1)), shipped("v0.2.0", Some(0)), shipped("v0.3.0", Some(3)), shipped("v0.4.0", None)];
    l.on_time = 1;
    l.slipped = 2;
    l.unplanned = 1;
    l.planned_share = Some(75);
    l.missed = vec![MissedItem { project: "gadget".to_string(), version: "v1.0.0".to_string(), planned: week(36), weeks: 2 }];
    l.standings = vec![
        Standing { project: "widget".to_string(), tier: Some(Tier::A), shipped: 4, planned_and_shipped: 3, expected: Some(2), missed: 0 },
        Standing { project: "kasl".to_string(), tier: None, shipped: 0, planned_and_shipped: 0, expected: None, missed: 1 },
    ];
    l.stalled = vec![Misfit { project: "dowel".to_string(), tier: Some(Tier::B), shipped: 0, expected: Some(1), times_over: None }];
    let lines = retro_lines(&l, false);
    assert_eq!(
        lines,
        vec![
            "2026-W35 to 2026-W38 — 4 weeks",
            "",
            "4 shipped — 1 on time, 2 slipped, 1 unplanned",
            "75% of what shipped had been planned",
            "",
            "Planned and not shipped:",
            "  gadget  v1.0.0 — was due 2026-W36 (2 weeks late by the end of the window)",
            "",
            "Shipped, but not when it was aimed:",
            "  widget  v0.3.0 — aimed at 2026-W34, out in 2026-W37 (3 weeks late)",
            "  widget  v0.1.0 — aimed at 2026-W36, out in 2026-W37 (a week late)",
            "",
            "Per project:",
            "  widget [A]  4 shipped (3 planned), 2 asked",
            "  kasl        0 shipped (0 planned), none asked, 1 missed",
            "",
            "Nothing shipped, and their tier asked for something:",
            "  dowel [B]  0 against 1 asked for",
            "  move one with: rigger project tier <project> <A|B|C|out>",
            "",
            "Keep this in the record with: rigger retro --record",
        ]
    );
}

#[test]
fn past_ten_slips_the_rest_are_counted() {
    let mut l = empty();
    l.shipped = (1..=12).map(|n| shipped(&format!("v0.{n}.0"), Some(n))).collect();
    let lines = retro_lines(&l, true);
    assert!(lines.contains(&"  ... and 2 more".to_string()));
    let first_slip = lines.iter().position(|x| x.starts_with("  widget  v0.12.0")).unwrap();
    assert_eq!(lines[first_slip - 1], "Shipped, but not when it was aimed:");
    assert_eq!(lines.last().unwrap(), "");
}
