//! A card as a session on it reads it: what it is, where it is worked,
//! the line the last session left, and everything written against it,
//! newest first within each kind, as far as the budget goes - with a count
//! of what the budget left out, so that nothing is dropped silently.
use vstd::prelude::*;
use crate::card::{Card, Link};
use crate::context::{tokens_for, tokens_of};
use crate::db::RecentEvent;
use crate::text::{
    append, append_str, chars_of, chars_of_string, decimal, joined, push_decimal, same_str, strings, text_of, trim,
    trimmed, views,
};

verus! {

/// One repository a card is worked in, with its branch and its role.
pub open spec fn link_line(l: Link) -> Seq<char> {
    "- "@ + l.project@ + " ("@ + l.path@ + ")"@ + (match l.branch {
        Some(b) => " on `"@ + b@ + "`"@,
        None => Seq::empty(),
    }) + (match l.role {
        Some(r) => " - "@ + r@,
        None => Seq::empty(),
    }) + "\n"@
}

pub open spec fn link_lines(ls: Seq<Link>) -> Seq<char>
    decreases ls.len(),
{
    if ls.len() == 0 {
        Seq::empty()
    } else {
        link_lines(ls.drop_last()) + link_line(ls.last())
    }
}

/// The newest line left for the next session.
pub open spec fn last_next(es: Seq<RecentEvent>) -> Option<RecentEvent>
    decreases es.len(),
{
    if es.len() == 0 {
        None
    } else if es.last().kind@ == "next"@ {
        Some(es.last())
    } else {
        last_next(es.drop_last())
    }
}

/// The head of the page: never dropped for the budget.
pub open spec fn page_head(card: Card, links: Seq<Link>, events: Seq<RecentEvent>) -> Seq<char> {
    "# "@ + card.key@ + " · "@ + card.title@ + "\n\n"@ + "Status: "@ + card.status@ + (if card.aliases@.len() > 0 {
        " · also "@ + joined(strings(card.aliases@), ", "@)
    } else {
        Seq::empty()
    }) + "\n"@ + (match card.summary {
        Some(s) => "\n"@ + s@ + "\n"@,
        None => Seq::empty(),
    }) + (if links.len() > 0 {
        "\n## Worked in\n"@ + link_lines(links)
    } else {
        Seq::empty()
    }) + (match last_next(events) {
        Some(e) => "\n## Next step\n"@ + trim(e.body@) + "\n"@,
        None => Seq::empty(),
    })
}

/// The events of a kind, newest first.
pub open spec fn newest_of(es: Seq<RecentEvent>, kind: Seq<char>) -> Seq<RecentEvent>
    decreases es.len(),
{
    if es.len() == 0 {
        Seq::empty()
    } else {
        let rest = newest_of(es.drop_last(), kind);
        if es.last().kind@ == kind {
            seq![es.last()] + rest
        } else {
            rest
        }
    }
}

pub open spec fn item_line(e: RecentEvent) -> Seq<char> {
    "- "@ + e.date@ + " · "@ + trim(e.body@) + "\n"@
}

/// The page so far, how many events the budget left out, and how many it
/// showed.
pub type PageState = (Seq<char>, nat, nat);

/// An event goes on the page when the page with it stays within the
/// budget; otherwise it is counted as left out.
pub open spec fn take_item(st: PageState, line: Seq<char>, budget: nat) -> PageState {
    if tokens_for(st.0) + tokens_for(line) > budget {
        (st.0, st.1 + 1, st.2)
    } else {
        (st.0 + line, st.1, st.2 + 1)
    }
}

pub open spec fn take_items(st: PageState, items: Seq<RecentEvent>, budget: nat) -> PageState
    decreases items.len(),
{
    if items.len() == 0 {
        st
    } else {
        take_item(take_items(st, items.drop_last(), budget), item_line(items.last()), budget)
    }
}

/// One kind's section: its heading, then its events newest first.
pub open spec fn section(st: PageState, events: Seq<RecentEvent>, kind: Seq<char>, heading: Seq<char>, budget: nat) -> PageState {
    let items = newest_of(events, kind);
    if items.len() == 0 {
        st
    } else {
        take_items((st.0 + "\n## "@ + heading + "\n"@, st.1, st.2), items, budget)
    }
}

/// The kinds in the order a session reads them: what was decided, what was
/// found, what bit, what is planned, what changed, what waits.
pub open spec fn kinds() -> Seq<(Seq<char>, Seq<char>)> {
    seq![
        ("decision"@, "Decisions"@),
        ("finding"@, "Findings"@),
        ("pitfall"@, "Pitfalls"@),
        ("plan"@, "Plan"@),
        ("change"@, "Changes"@),
        ("question"@, "Waiting for the owner"@),
    ]
}

pub open spec fn sections(st: PageState, events: Seq<RecentEvent>, ks: Seq<(Seq<char>, Seq<char>)>, budget: nat) -> PageState
    decreases ks.len(),
{
    if ks.len() == 0 {
        st
    } else {
        let before = sections(st, events, ks.drop_last(), budget);
        section(before, events, ks.last().0, ks.last().1, budget)
    }
}

/// The whole page.
pub open spec fn page_text(card: Card, links: Seq<Link>, events: Seq<RecentEvent>, budget: nat) -> Seq<char> {
    let st = sections((page_head(card, links, events), 0, 0), events, kinds(), budget);
    st.0 + if st.1 > 0 {
        "\n("@ + decimal(st.1) + " older events left out by the budget)\n"@
    } else {
        Seq::empty()
    }
}

/// How many events of the kinds a page shows there are.
pub open spec fn of_kinds(events: Seq<RecentEvent>, ks: Seq<(Seq<char>, Seq<char>)>) -> nat
    decreases ks.len(),
{
    if ks.len() == 0 {
        0
    } else {
        of_kinds(events, ks.drop_last()) + newest_of(events, ks.last().0).len()
    }
}

proof fn lemma_newest_len(es: Seq<RecentEvent>, kind: Seq<char>)
    ensures
        newest_of(es, kind).len() <= es.len(),
    decreases es.len(),
{
    if es.len() > 0 {
        lemma_newest_len(es.drop_last(), kind);
    }
}

proof fn lemma_of_kinds_bound(events: Seq<RecentEvent>, ks: Seq<(Seq<char>, Seq<char>)>)
    ensures
        of_kinds(events, ks) <= ks.len() * events.len(),
    decreases ks.len(),
{
    if ks.len() > 0 {
        lemma_of_kinds_bound(events, ks.drop_last());
        lemma_newest_len(events, ks.last().0);
        let n = ks.len() as int;
        let l = events.len() as int;
        assert((n - 1) * l + l == n * l) by (nonlinear_arith);
    }
}

proof fn lemma_take_items_counts(st: PageState, items: Seq<RecentEvent>, budget: nat)
    ensures
        take_items(st, items, budget).1 + take_items(st, items, budget).2 == st.1 + st.2 + items.len(),
    decreases items.len(),
{
    if items.len() > 0 {
        lemma_take_items_counts(st, items.drop_last(), budget);
    }
}

proof fn lemma_sections_count(st: PageState, events: Seq<RecentEvent>, ks: Seq<(Seq<char>, Seq<char>)>, budget: nat)
    ensures
        sections(st, events, ks, budget).1 + sections(st, events, ks, budget).2 == st.1 + st.2 + of_kinds(events, ks),
    decreases ks.len(),
{
    if ks.len() > 0 {
        lemma_sections_count(st, events, ks.drop_last(), budget);
        let before = sections(st, events, ks.drop_last(), budget);
        let items = newest_of(events, ks.last().0);
        if items.len() > 0 {
            lemma_take_items_counts((before.0 + "\n## "@ + ks.last().1 + "\n"@, before.1, before.2), items, budget);
        }
    }
}

/// Nothing written against a card is dropped silently: every event of the
/// kinds the page shows is either on it or counted among those the budget
/// left out.
pub proof fn law_every_event_is_shown_or_counted(card: Card, links: Seq<Link>, events: Seq<RecentEvent>, budget: nat)
    ensures
        ({
            let st = sections((page_head(card, links, events), 0, 0), events, kinds(), budget);
            st.1 + st.2 == of_kinds(events, kinds())
        }),
{
    lemma_sections_count((page_head(card, links, events), 0, 0), events, kinds(), budget);
}

fn last_next_of(events: &[RecentEvent]) -> (r: Option<usize>)
    ensures
        r matches Some(i) ==> i < events.len() && last_next(events@) == Some(events@[i as int]),
        r is None ==> last_next(events@) is None,
{
    let mut k = events.len();
    assert(events@.take(events.len() as int) =~= events@);
    while k > 0
        invariant
            k <= events.len(),
            last_next(events@) == last_next(events@.take(k as int)),
        decreases k,
    {
        let ghost t = events@.take(k as int);
        assert(t.drop_last() =~= events@.take(k - 1));
        assert(t.last() == events@[k - 1]);
        if same_str(&chars_of_string(&events[k - 1].kind), "next") {
            return Some(k - 1);
        }
        k = k - 1;
    }
    None
}

fn push_link_lines(out: &mut Vec<char>, links: &[Link])
    ensures
        final(out)@ == old(out)@ + link_lines(links@),
{
    let ghost start = old(out)@;
    let mut i: usize = 0;
    while i < links.len()
        invariant
            i <= links.len(),
            out@ == start + link_lines(links@.take(i as int)),
        decreases links.len() - i,
    {
        let l = &links[i];
        assert(links@.take(i + 1).drop_last() =~= links@.take(i as int));
        assert(links@.take(i + 1).last() == *l);
        let ghost before = out@;
        append_str(out, "- ");
        append(out, &chars_of_string(&l.project));
        append_str(out, " (");
        append(out, &chars_of_string(&l.path));
        append_str(out, ")");
        match &l.branch {
            Some(b) => {
                append_str(out, " on `");
                append(out, &chars_of_string(b));
                append_str(out, "`");
            },
            None => {},
        }
        match &l.role {
            Some(r) => {
                append_str(out, " - ");
                append(out, &chars_of_string(r));
            },
            None => {},
        }
        append_str(out, "\n");
        assert(out@ =~= before + link_line(*l));
        i = i + 1;
    }
    assert(links@.take(links.len() as int) =~= links@);
}

fn head_of_page(card: &Card, links: &[Link], events: &[RecentEvent]) -> (r: Vec<char>)
    ensures
        r@ == page_head(*card, links@, events@),
{
    let mut out: Vec<char> = Vec::new();
    append_str(&mut out, "# ");
    append(&mut out, &chars_of_string(&card.key));
    append_str(&mut out, " · ");
    append(&mut out, &chars_of_string(&card.title));
    append_str(&mut out, "\n\n");
    append_str(&mut out, "Status: ");
    append(&mut out, &chars_of_string(&card.status));
    if card.aliases.len() > 0 {
        append_str(&mut out, " · also ");
        let mut al: Vec<Vec<char>> = Vec::new();
        let mut i: usize = 0;
        while i < card.aliases.len()
            invariant
                i <= card.aliases.len(),
                views(al@) == strings(card.aliases@).take(i as int),
            decreases card.aliases.len() - i,
        {
            let ghost b = views(al@);
            al.push(chars_of_string(&card.aliases[i]));
            assert(views(al@) =~= b.push(card.aliases@[i as int]@));
            assert(strings(card.aliases@).take(i + 1) =~= strings(card.aliases@).take(i as int).push(
                card.aliases@[i as int]@,
            ));
            i = i + 1;
        }
        assert(strings(card.aliases@).take(card.aliases.len() as int) =~= strings(card.aliases@));
        append(&mut out, &crate::text::join_with(&al, ", "));
    }
    append_str(&mut out, "\n");
    match &card.summary {
        Some(s) => {
            append_str(&mut out, "\n");
            append(&mut out, &chars_of_string(s));
            append_str(&mut out, "\n");
        },
        None => {},
    }
    if links.len() > 0 {
        append_str(&mut out, "\n## Worked in\n");
        push_link_lines(&mut out, links);
    }
    match last_next_of(events) {
        Some(i) => {
            append_str(&mut out, "\n## Next step\n");
            append(&mut out, &trimmed(&chars_of_string(&events[i].body)));
            append_str(&mut out, "\n");
        },
        None => {},
    }
    assert(out@ =~= page_head(*card, links@, events@));
    out
}

/// Adds one kind's section to the page, newest first, each event only when
/// the page stays within the budget.
fn push_section(
    out: &mut Vec<char>,
    left: &mut usize,
    shown: &mut usize,
    events: &[RecentEvent],
    kind: &str,
    heading: &str,
    budget: usize,
)
    requires
        *old(left) + *old(shown) + events.len() <= usize::MAX,
    ensures
        (final(out)@, *final(left) as nat, *final(shown) as nat) == section(
            (old(out)@, *old(left) as nat, *old(shown) as nat),
            events@,
            kind@,
            heading@,
            budget as nat,
        ),
{
    let ghost st0: PageState = (old(out)@, *old(left) as nat, *old(shown) as nat);
    let ghost items = newest_of(events@, kind@);
    let k = chars_of(kind);
    // Whether the section has anything, and its events newest first.
    let mut picked: Vec<usize> = Vec::new();
    let mut j = events.len();
    assert(events@.take(events.len() as int) =~= events@);
    while j > 0
        invariant
            j <= events.len(),
            k@ == kind@,
            picked.len() <= events.len() - j,
            forall|m: int| 0 <= m < picked.len() ==> #[trigger] picked@[m] < events.len(),
            picked@.map_values(|p: usize| events@[p as int]) + newest_of(events@.take(j as int), kind@) == items,
        decreases j,
    {
        let ghost t = events@.take(j as int);
        assert(t.drop_last() =~= events@.take(j - 1));
        assert(t.last() == events@[j - 1]);
        if crate::text::same(&chars_of_string(&events[j - 1].kind), &k) {
            let ghost before = picked@.map_values(|p: usize| events@[p as int]);
            picked.push(j - 1);
            assert(picked@.map_values(|p: usize| events@[p as int]) =~= before.push(events@[j - 1]));
            assert(before.push(events@[j - 1]) + newest_of(events@.take(j - 1), kind@) =~= before + (seq![events@[j - 1]]
                + newest_of(events@.take(j - 1), kind@)));
        }
        j = j - 1;
    }
    assert(newest_of(events@.take(0), kind@) =~= Seq::<RecentEvent>::empty());
    assert(picked@.map_values(|p: usize| events@[p as int]) =~= items);
    if picked.len() == 0 {
        return;
    }
    append_str(out, "\n## ");
    append_str(out, heading);
    append_str(out, "\n");
    let ghost st1: PageState = (out@, *left as nat, *shown as nat);
    let mut i: usize = 0;
    while i < picked.len()
        invariant
            i <= picked.len(),
            picked.len() <= events.len(),
            forall|m: int| 0 <= m < picked.len() ==> #[trigger] picked@[m] < events.len(),
            picked@.map_values(|p: usize| events@[p as int]) == items,
            *left as nat + *shown as nat == st1.1 + st1.2 + i,
            st1.1 + st1.2 + events.len() <= usize::MAX,
            (out@, *left as nat, *shown as nat) == take_items(st1, items.take(i as int), budget as nat),
        decreases picked.len() - i,
    {
        let e = &events[picked[i]];
        assert(items[i as int] == *e);
        assert(items.take(i + 1).drop_last() =~= items.take(i as int));
        assert(items.take(i + 1).last() == *e);
        let mut line: Vec<char> = Vec::new();
        append_str(&mut line, "- ");
        append(&mut line, &chars_of_string(&e.date));
        append_str(&mut line, " · ");
        append(&mut line, &trimmed(&chars_of_string(&e.body)));
        append_str(&mut line, "\n");
        assert(line@ =~= item_line(*e));
        let a = tokens_of(out);
        let b = tokens_of(&line);
        if a > budget || b > budget - a {
            *left = *left + 1;
        } else {
            append(out, &line);
            *shown = *shown + 1;
        }
        i = i + 1;
    }
    assert(items.take(picked.len() as int) =~= items);
}

/// A card as a session on it reads it, within a budget of tokens: the
/// head always, then each kind of event newest first as far as the budget
/// goes, and how many the budget left out.
pub fn render_card(card: &Card, links: &[Link], events: &[RecentEvent], budget: usize) -> (r: String)
    requires
        events@.len() <= usize::MAX / 8,
    ensures
        r@ == page_text(*card, links@, events@, budget as nat),
{
    let mut out = head_of_page(card, links, events);
    let mut left: usize = 0;
    let mut shown: usize = 0;
    let ghost st0: PageState = (out@, 0, 0);
    proof {
        lemma_of_kinds_bound(events@, kinds().take(1));
        lemma_of_kinds_bound(events@, kinds().take(2));
        lemma_of_kinds_bound(events@, kinds().take(3));
        lemma_of_kinds_bound(events@, kinds().take(4));
        lemma_of_kinds_bound(events@, kinds().take(5));
    }
    assert(kinds().take(1).last() == ("decision"@, "Decisions"@));
    assert(kinds().take(1).drop_last() =~= Seq::<(Seq<char>, Seq<char>)>::empty());
    assert(sections(st0, events@, kinds().take(1).drop_last(), budget as nat) == st0);
    push_section(&mut out, &mut left, &mut shown, events, "decision", "Decisions", budget);
    proof {
        lemma_sections_count(st0, events@, kinds().take(1), budget as nat);
        assert(kinds().take(1).drop_last() =~= Seq::<(Seq<char>, Seq<char>)>::empty());
    }
    assert((out@, left as nat, shown as nat) == sections(st0, events@, kinds().take(1), budget as nat));
    assert(kinds().take(1).len() == 1);
    assert(left as int + shown as int <= 1 * events@.len());
    assert(kinds().take(2).last() == ("finding"@, "Findings"@));
    push_section(&mut out, &mut left, &mut shown, events, "finding", "Findings", budget);
    assert(kinds().take(2).drop_last() =~= kinds().take(1));
    proof {
        lemma_sections_count(st0, events@, kinds().take(2), budget as nat);
    }
    assert((out@, left as nat, shown as nat) == sections(st0, events@, kinds().take(2), budget as nat));
    assert(kinds().take(2).len() == 2);
    assert(left as int + shown as int <= 2 * events@.len());
    assert(kinds().take(3).last() == ("pitfall"@, "Pitfalls"@));
    push_section(&mut out, &mut left, &mut shown, events, "pitfall", "Pitfalls", budget);
    assert(kinds().take(3).drop_last() =~= kinds().take(2));
    proof {
        lemma_sections_count(st0, events@, kinds().take(3), budget as nat);
    }
    assert((out@, left as nat, shown as nat) == sections(st0, events@, kinds().take(3), budget as nat));
    assert(kinds().take(3).len() == 3);
    assert(left as int + shown as int <= 3 * events@.len());
    assert(kinds().take(4).last() == ("plan"@, "Plan"@));
    push_section(&mut out, &mut left, &mut shown, events, "plan", "Plan", budget);
    assert(kinds().take(4).drop_last() =~= kinds().take(3));
    proof {
        lemma_sections_count(st0, events@, kinds().take(4), budget as nat);
    }
    assert((out@, left as nat, shown as nat) == sections(st0, events@, kinds().take(4), budget as nat));
    assert(kinds().take(4).len() == 4);
    assert(left as int + shown as int <= 4 * events@.len());
    assert(kinds().take(5).last() == ("change"@, "Changes"@));
    push_section(&mut out, &mut left, &mut shown, events, "change", "Changes", budget);
    assert(kinds().take(5).drop_last() =~= kinds().take(4));
    proof {
        lemma_sections_count(st0, events@, kinds().take(5), budget as nat);
    }
    assert((out@, left as nat, shown as nat) == sections(st0, events@, kinds().take(5), budget as nat));
    assert(kinds().take(5).len() == 5);
    assert(left as int + shown as int <= 5 * events@.len());
    assert(kinds().take(6).last() == ("question"@, "Waiting for the owner"@));
    push_section(&mut out, &mut left, &mut shown, events, "question", "Waiting for the owner", budget);
    assert(kinds().take(6).drop_last() =~= kinds().take(5));
    assert(kinds().take(6) =~= kinds());
    assert((out@, left as nat, shown as nat) == sections(st0, events@, kinds(), budget as nat));
    if left > 0 {
        append_str(&mut out, "\n(");
        push_decimal(&mut out, left as u64);
        append_str(&mut out, " older events left out by the budget)\n");
    }
    text_of(&out)
}

} // verus!
