use rigger::hub::{
    leading_version_of, parse_decisions, parse_diary, parse_prose, parse_questions, parse_stages, parse_state, read,
    HubFiles, Task,
};

fn chars(text: &str) -> Vec<char> {
    text.chars().collect()
}

fn leading_version(text: &str) -> Option<String> {
    leading_version_of(&chars(text)).map(|v| v.into_iter().collect())
}

#[test]
fn a_version_heading_starts_a_stage_at_any_level() {
    let stages = parse_stages("# Plan\n### v0.4.0 · Title\n- [ ] one\n## v0.5.0 · Next\n- [x] two\n");
    assert_eq!(stages.len(), 2);
    assert_eq!(stages[0].version, "v0.4.0");
    assert_eq!(stages[0].title.as_deref(), Some("Title"));
    assert_eq!(
        stages[0].tasks,
        vec![Task {
            title: "one".into(),
            done: false
        }]
    );
    assert_eq!(
        stages[1].tasks,
        vec![Task {
            title: "two".into(),
            done: true
        }]
    );
}

#[test]
fn a_heading_at_or_above_the_stage_level_ends_it() {
    let stages = parse_stages("## v0.1.0 · A\n- [ ] real\n## Бэклог без версии\n- [ ] someday\n");
    assert_eq!(stages.len(), 1);
    assert_eq!(stages[0].tasks.len(), 1);
}

#[test]
fn a_deeper_heading_does_not_end_a_stage() {
    let stages = parse_stages("## v0.1.0 · A\n- [ ] before\n### Подробности\n- [ ] after\n");
    assert_eq!(stages[0].tasks.len(), 2);
}

#[test]
fn the_release_note_is_not_part_of_the_title() {
    let stages = parse_stages("## v0.2.0 · Три формы и лесенка — выпущена 2026-09-03\n");
    assert_eq!(stages[0].title.as_deref(), Some("Три формы и лесенка"));
    assert_eq!(stages[0].shipped_on.as_deref(), Some("2026-09-03"));
}

#[test]
fn every_wording_of_a_closed_stage_yields_its_date() {
    for head in [
        "## v1.0.0 · A — закрыт 2026-08-12",
        "## v1.0.0 · A — выпущен 2026-08-12",
        "## v1.0.0 · A — выпущена 2026-08-12",
        "## v1.0.0 · A — 2026-08-12",
        "## v1.0.0 · A — 12.08.2026",
    ] {
        let stages = parse_stages(head);
        assert_eq!(stages[0].shipped_on.as_deref(), Some("2026-08-12"), "{head}");
    }
}

#[test]
fn a_stage_takes_the_number_it_shipped_as() {
    let stages = parse_stages("## v1.9 · Очередь и backfill — закрыт 2026-09-03, выпущен **v1.9.0**\n");
    assert_eq!(stages[0].version, "v1.9.0");
    assert_eq!(stages[0].title.as_deref(), Some("Очередь и backfill"));
    assert_eq!(stages[0].shipped_on.as_deref(), Some("2026-09-03"));
}

#[test]
fn a_stage_without_a_separate_release_keeps_its_own_number() {
    let stages = parse_stages("## v0.2.0 · Три формы — выпущена 2026-09-03\n");
    assert_eq!(stages[0].version, "v0.2.0");
}

#[test]
fn an_open_stage_has_no_date() {
    let stages = parse_stages("## v0.9.0 · Inbox and digest\n- [ ] a\n");
    assert_eq!(stages[0].shipped_on, None);
}

#[test]
fn headings_without_a_version_are_not_stages() {
    let stages = parse_stages("## S118 · Транскрипт (2026-08-06)\n- [ ] a\n## Блок «Читаю»\n");
    assert!(stages.is_empty());
}

#[test]
fn a_bare_major_in_prose_is_not_a_version() {
    assert_eq!(leading_version("v2 is the goal"), None);
    assert_eq!(leading_version("v0.4.0 · Title").as_deref(), Some("v0.4.0"));
}

#[test]
fn questions_are_read_until_the_next_heading() {
    let text = "# План\n\n## Ждёт решения владельца\n\n1. First thing.\n- Second thing.\n\n## Мажорная карта\n\n- not a question\n";
    assert_eq!(parse_questions(text), vec!["First thing.", "Second thing."]);
}

#[test]
fn the_placeholder_is_not_a_question() {
    assert!(parse_questions("## Ждёт решения владельца\n\n- (пусто)\n").is_empty());
}

#[test]
fn decisions_keep_their_prose() {
    let text = "# Журнал решений\n\n---\n\n## 2026-09-03 · Что на экране, то и оценивается\n\nBody line one.\n\nBody line two.\n\n## 2026-09-02 · Основание\n\nOnly line.\n";
    let decisions = parse_decisions(text);
    assert_eq!(decisions.len(), 2);
    assert_eq!(decisions[0].date, "2026-09-03");
    assert_eq!(decisions[0].title, "Что на экране, то и оценивается");
    assert_eq!(decisions[0].body, "Body line one.\n\nBody line two.");
    assert_eq!(decisions[1].body, "Only line.");
}

#[test]
fn an_undated_heading_is_not_a_decision() {
    assert!(parse_decisions("## Журнал\n\nprose\n").is_empty());
}

#[test]
fn a_stage_keeps_the_prose_that_followed_its_tasks() {
    let text = "# План

# Блок A

## v0.1.0 · One

- [ ] task one

**Результат:** первое.

                    # Блок B

## v0.2.0 · Two

- [ ] task two

**Результат:** второе.
";
    let stages = parse_stages(text);
    assert_eq!(stages.len(), 2);
    assert!(stages[0].notes_after.contains("первое"), "{:?}", stages[0]);
    assert!(stages[1].notes_after.contains("второе"), "{:?}", stages[1]);
    assert!(stages[0].notes.is_empty() && stages[1].notes.is_empty(), "nothing opened either stage");
}

#[test]
fn stages_of_one_block_keep_the_order_they_were_written_in() {
    let text = "# Изменения\n\n## v2.2.0 · Third\n\n## v2.1.0 · Second\n\n## v2.0.0 · First\n";
    let stages = parse_stages(text);
    let order: Vec<&str> = stages.iter().map(|s| s.version.as_str()).collect();
    assert_eq!(order, ["v2.2.0", "v2.1.0", "v2.0.0"]);
    assert!(stages.iter().all(|s| s.after_prose == stages[0].after_prose), "one block");
    assert_eq!(stages.iter().map(|s| s.rank).collect::<Vec<_>>(), [0, 1, 2]);
}

#[test]
fn the_gap_after_a_rule_is_the_one_the_diary_wrote() {
    let diary = |gap: &str| {
        let text = format!("# Дневник\n\n## 2026-09-05 · Later\n\nЧто делали.\n\n---\n{gap}## 2026-09-04 · Earlier\n\nРаньше.\n");
        parse_diary(&text)
    };
    let one = diary("\n");
    assert!(one[0].followed_by_rule, "the rule is the separator, not the body");
    assert_eq!(one[0].gap_after, 1);
    assert_eq!(diary("\n\n")[0].gap_after, 2);
    assert_eq!(diary("")[0].gap_after, 0);
    assert!(!one[0].body.contains("---"), "{:?}", one[0].body);
}

#[test]
fn a_stage_keeps_the_gap_its_hub_left_after_it() {
    let stage = |gap: &str| {
        let text = format!("# Изменения\n\n## v0.2.0 · Second\n\nПро второй.\n\n---\n{gap}## v0.1.0 · First\n\nПро первый.\n");
        parse_stages(&text)
    };
    assert_eq!(stage("\n")[0].gap_after, 1);
    assert_eq!(stage("\n\n")[0].gap_after, 2);
    assert_eq!(stage("")[0].gap_after, 0);
    assert!(stage("\n")[0].notes.ends_with("---"), "{:?}", stage("\n")[0].notes);
}

fn files(plan: Option<&str>, changelog: Option<&str>, diary: Option<&str>) -> HubFiles {
    HubFiles {
        plan: plan.map(String::from),
        changelog: changelog.map(String::from),
        readme: None,
        decisions: None,
        diary: diary.map(String::from),
    }
}

#[test]
fn a_version_written_up_twice_is_warned_about() {
    let hub = read(
        "/tmp/hub",
        &files(
            Some("# План\n"),
            Some("# Изменения\n\n## v0.1.0 · First — выпущен 2026-08-14\n\nОдин рассказ.\n\n## v0.1.0 · First — выпущен 2026-08-14\n\nДругой рассказ.\n"),
            Some("# Дневник\n"),
        ),
    );
    assert!(
        hub.warnings.iter().any(|w| w.contains("v0.1.0") && w.contains("more than once")),
        "{:?}",
        hub.warnings
    );
}

#[test]
fn versions_written_once_raise_nothing() {
    let hub = read(
        "/tmp/hub",
        &files(
            Some("# План\n"),
            Some("# Изменения\n\n## v0.2.0 · Second — выпущен 2026-08-15\n\nПро второй.\n\n## v0.1.0 · First — выпущен 2026-08-14\n\nПро первый.\n"),
            Some("# Дневник\n"),
        ),
    );
    assert!(!hub.warnings.iter().any(|w| w.contains("more than once")), "{:?}", hub.warnings);
}

#[test]
fn a_heading_inside_a_stage_belongs_to_the_stage() {
    let text = "# Изменения\n\n## v0.2.0 · Second\n\nПро второй.\n\n### Патч v0.2.1\n\nПро патч.\n\n## v0.1.0 · First\n\nПро первый.\n";
    let stages = parse_stages(text);
    assert_eq!(stages.len(), 2, "the deeper heading is not a stage of its own");
    assert!(stages[0].notes.contains("### Патч v0.2.1"), "the heading is kept: {:?}", stages[0].notes);
    assert!(stages[0].notes.contains("Про патч."), "and so is what it introduced");
    let runs = parse_prose(text, "Изменения.md");
    assert!(
        !runs
            .iter()
            .any(|r| r.heading.as_deref().is_some_and(|h| h.contains("Патч")) || r.body.contains("Про патч.")),
        "{runs:?}"
    );
}

#[test]
fn diary_entries_keep_the_place_they_had() {
    let text =
        "# Дневник\n\n## 2026-08-31 (2) · Later that day\n\nПотом.\n\n## 2026-08-31 · Earlier\n\nСначала.\n\n## 2026-08-30 · The day before\n\nНакануне.\n";
    let entries = parse_diary(text);
    assert_eq!(entries.iter().map(|e| e.rank).collect::<Vec<_>>(), [0, 1, 2]);
    assert_eq!(entries[0].date, entries[1].date);
    assert!(entries[0].heading.as_deref().is_some_and(|h| h.contains("(2)")), "{:?}", entries[0].heading);
}

#[test]
fn a_bold_sentence_is_not_the_date_of_a_state_line() {
    let text = "# Хаб\n\n## Состояние\n\n- **2026-09-05 (ночь)** — что-то случилось\n- **Кода пока нет намеренно.** Хаб заведён авансом.\n- Основание — см. Изменения.\n";
    let state = parse_state(text);
    assert_eq!(state.len(), 3);
    assert_eq!(state[0].stamp.as_deref(), Some("2026-09-05 (ночь)"));
    assert_eq!(state[0].body, "что-то случилось");
    assert_eq!(state[1].stamp, None);
    assert_eq!(state[1].body, "**Кода пока нет намеренно.** Хаб заведён авансом.");
    assert_eq!(state[2].stamp, None);
}

#[test]
fn a_state_line_keeps_the_gap_that_followed_it() {
    let text = "## Состояние\n\n- **2026-09-05** — новее\n\n- **2026-09-04** — старее\n- **2026-09-03** — ещё старее\n";
    let state = parse_state(text);
    assert_eq!(state.iter().map(|l| l.gap_after).collect::<Vec<_>>(), [1, 0, 0]);
}

#[test]
fn a_hash_inside_a_fence_is_not_a_heading() {
    let text = "# Хаб\n\n## Запуск\n\n```\ncargo build\n# и потом\n```\n\nПосле блока.\n";
    let runs = parse_prose(text, "README.md");
    let all: String = runs.iter().map(|r| r.body.as_str()).collect::<Vec<_>>().join("\n");
    assert!(all.contains("# и потом"), "the comment is kept: {all:?}");
    assert!(all.contains("cargo build"), "{all:?}");
    assert!(!runs.iter().any(|r| r.heading.as_deref() == Some("# и потом")), "{runs:?}");
}

#[test]
fn a_missing_file_is_a_warning_not_a_failure() {
    let hub = read("/tmp/hub", &files(Some("## v0.1.0 · A\n- [ ] task\n"), None, None));
    assert_eq!(hub.open_stages.len(), 1);
    let missing: Vec<&str> = ["Изменения.md", "Решения.md", "Дневник.md"]
        .into_iter()
        .filter(|name| !hub.warnings.iter().any(|w| w.contains(name)))
        .collect();
    assert!(missing.is_empty(), "not warned about: {missing:?} in {:?}", hub.warnings);
    assert!(!hub.warnings.iter().any(|w| w.contains("План.md")), "{:?}", hub.warnings);
}
