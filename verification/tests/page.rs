use rigger::card::{Card, Link};
use rigger::db::RecentEvent;
use rigger::page::render_card;

fn card() -> Card {
    Card {
        id: 1,
        key: "ACME-1".to_string(),
        title: "RTF export".to_string(),
        status: "active".to_string(),
        aliases: vec!["rtf".to_string()],
        summary: Some("Export to RTF.".to_string()),
        created_at: "2026-09-01T00:00:00Z".to_string(),
        updated_at: None,
    }
}

fn event(kind: &str, date: &str, body: &str) -> RecentEvent {
    RecentEvent { kind: kind.to_string(), date: date.to_string(), body: body.to_string(), from_git: false }
}

fn events() -> Vec<RecentEvent> {
    vec![
        event("decision", "2026-09-01", "Use the old writer."),
        event("next", "2026-09-02", "Start with tables."),
        event("finding", "2026-09-03", " Tables break. "),
        event("decision", "2026-09-04", "Drop images."),
    ]
}

fn links() -> Vec<Link> {
    vec![Link {
        project: "widget".to_string(),
        path: "/src/widget".to_string(),
        branch: Some("fix/ACME-1".to_string()),
        role: Some("the fix".to_string()),
    }]
}

const HEAD: &str = "# ACME-1 · RTF export\n\nStatus: active · also rtf\n\nExport to RTF.\n\n## Worked in\n- widget (/src/widget) on `fix/ACME-1` - the fix\n\n## Next step\nStart with tables.\n";

#[test]
fn a_card_page_reads_newest_first_within_each_kind() {
    let page = render_card(&card(), &links(), &events(), 3000);
    assert_eq!(
        page,
        format!("{HEAD}\n## Decisions\n- 2026-09-04 · Drop images.\n- 2026-09-01 · Use the old writer.\n\n## Findings\n- 2026-09-03 · Tables break.\n")
    );
}

#[test]
fn what_the_budget_leaves_out_is_counted_not_dropped() {
    let page = render_card(&card(), &links(), &events(), 0);
    assert_eq!(page, format!("{HEAD}\n## Decisions\n\n## Findings\n\n(3 older events left out by the budget)\n"));
}

#[test]
fn a_bare_card_is_its_head() {
    let mut bare = card();
    bare.aliases.clear();
    bare.summary = None;
    assert_eq!(render_card(&bare, &[], &[], 100), "# ACME-1 · RTF export\n\nStatus: active\n");
}
